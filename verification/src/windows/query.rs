//! How queries for windows begin.

use vstd::prelude::*;

use crate::error::{XCapError, XCapResult};
use crate::window;
use crate::window::{WindowInfo, WindowQueryOptions};
use crate::windows::impl_window::ImplWindow;
use crate::windows::record_walk::{RecordState, RecordWalk};

verus! {

/// A window that is being expanded, and the walk over what is under it.
#[derive(Debug)]
pub struct Expansion {
    pub root: WindowInfo,
    pub walk: RecordWalk,
}

impl Expansion {
    /// What stands under the window.
    pub fn finish(self) -> (children: Vec<WindowInfo>)
        ensures
            window::nodes(children@) == window::expanded_children(
                self.root@,
                self.walk@.out.records,
                self.walk@.options,
            ),
    {
        self.walk.into_children(self.root)
    }
}

impl ImplWindow {
    /// Begins a query for the windows on the desktop, which the system has listed from the topmost
    /// down.
    pub fn query(hwnds: XCapResult<Vec<usize>>, options: &WindowQueryOptions) -> (result:
        XCapResult<RecordWalk>)
        requires
            hwnds matches Ok(hwnds) ==> hwnds@.len() <= i32::MAX,
        ensures
            match hwnds {
                Ok(hwnds) => {
                    &&& result matches Ok(walk)
                    &&& walk@ == RecordState::over(hwnds@, *options)
                    &&& walk@.well_formed()
                },
                Err(failure) => result == Err::<RecordWalk, XCapError>(failure),
            },
    {
        match hwnds {
            Ok(hwnds) => Ok(RecordWalk::over(hwnds, options)),
            Err(failure) => Err(failure),
        }
    }

    /// Begins a query for the windows on the desktop alone.
    pub fn query_roots(hwnds: XCapResult<Vec<usize>>, options: &WindowQueryOptions) -> (result:
        XCapResult<RecordWalk>)
        requires
            hwnds matches Ok(hwnds) ==> hwnds@.len() <= i32::MAX,
        ensures
            match hwnds {
                Ok(hwnds) => {
                    &&& result matches Ok(walk)
                    &&& walk@ == RecordState::over(hwnds@, options.including_children(false))
                    &&& walk@.well_formed()
                },
                Err(failure) => result == Err::<RecordWalk, XCapError>(failure),
            },
    {
        let mut root_options = options.clone();
        root_options.include_children = false;
        ImplWindow::query(hwnds, &root_options)
    }

    /// Begins to expand a window.
    pub fn expand_children(&self, options: &WindowQueryOptions) -> (result: XCapResult<Expansion>)
        requires
            self.measurable(),
        ensures
            match self.description(self.height_among_others()) {
                Ok(root) => {
                    &&& result matches Ok(expansion)
                    &&& expansion.root@ == root
                    &&& expansion.walk@ == RecordState::under(self.hwnd, root, *options)
                    &&& expansion.walk@.well_formed()
                },
                Err(failure) => result matches Err(met) && met@ == failure,
            },
    {
        let root = self.window_info()?;
        let walk = RecordWalk::under(self.hwnd, &root, options);
        Ok(Expansion { root, walk })
    }
}

} // verus!
