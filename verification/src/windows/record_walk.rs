//! The walk over windows and the windows under them that a query makes records of.

use std::collections::HashSet;

use vstd::prelude::*;

use crate::error::{XCapError, XCapResult};
use crate::window;
use crate::window::{Found, WindowInfo, WindowInfoRecord, WindowNode, WindowQueryOptions};
use crate::windows::impl_window::ImplWindow;
use crate::windows::uia_probe;
use crate::windows::uia_probe::{Collected, UiaProbe};

verus! {

broadcast use vstd::std_specs::hash::group_hash_axioms;

/// From where on the ids of elements are handed out when a window is expanded.
pub const EXPANSION_IDS: u32 = 0x8000_0000;

/// What is to be done next.
#[derive(Debug, Clone, Copy, PartialEq, Eq, Structural)]
pub enum WindowStep {
    /// Nothing: ask again.
    Again,
    /// Read this window, and answer with [`RecordWalk::read`].
    Read { hwnd: usize },
    /// List the windows under this window that are reported, and answer with
    /// [`RecordWalk::listed`].
    List { hwnd: usize },
    /// Gather the elements under this window: begin with [`RecordWalk::probe`], and answer with
    /// [`RecordWalk::probed`].
    Probe { hwnd: usize },
    /// Nothing: the walk is over.
    Done,
}

/// A window whose windows or elements are wanted.
#[derive(Debug)]
struct Parent {
    hwnd: usize,
    id: u32,
    pid: u32,
    app_name: String,
}

#[derive(Debug)]
enum Phase {
    Between,
    Reading,
    Listing(Parent),
    Probing(Parent),
}

#[derive(Debug)]
struct Level {
    hwnds: Vec<usize>,
    index: usize,
    parent_id: Option<u32>,
}

/// A window whose windows or elements are wanted.
pub struct Above {
    pub hwnd: usize,
    pub id: u32,
    pub pid: u32,
    pub app_name: Seq<char>,
}

/// What a walk is waiting for.
pub enum Wanted {
    Nothing,
    Window,
    Children(Above),
    Elements(Above),
}

/// A list of windows, how far it has been gone through, and the id that they are recorded under.
pub struct Row {
    pub hwnds: Seq<usize>,
    pub index: nat,
    pub parent_id: Option<u32>,
}

/// How far a walk has got.
pub struct RecordState {
    pub options: WindowQueryOptions,
    pub out: Collected,
    /// The lists that are being gone through, each under a window of the one before it.
    pub rows: Seq<Row>,
    pub wanted: Wanted,
}

impl Parent {
    spec fn content(self) -> Above {
        Above { hwnd: self.hwnd, id: self.id, pid: self.pid, app_name: self.app_name@ }
    }
}

impl Level {
    spec fn content(self) -> Row {
        Row { hwnds: self.hwnds@, index: self.index as nat, parent_id: self.parent_id }
    }
}

/// What a window adds to what has been collected.
pub open spec fn with_window(out: Collected, info: WindowNode, parent_id: Option<u32>) -> Collected {
    Collected {
        records: out.records.push(Found { info, parent_id }),
        used_ids: out.used_ids.insert(info.id),
        ..out
    }
}

/// What elements add to what has been collected.
pub open spec fn with_elements(out: Collected, best: Collected) -> Collected {
    Collected { records: out.records + best.records, ..best }
}

impl RecordState {
    /// The bounds that a walk keeps.
    pub open spec fn well_formed(self) -> bool {
        &&& forall|i: int|
            0 <= i < self.rows.len() ==> (#[trigger] self.rows[i]).hwnds.len() <= i32::MAX
        &&& self.wanted is Window ==> self.rows.len() > 0 && self.rows.last().index
            < self.rows.last().hwnds.len()
    }

    /// What is to be done next, and the walk from there.
    pub open spec fn next(self) -> (RecordState, WindowStep) {
        let row = self.rows.last();
        match self.wanted {
            Wanted::Children(above) => (self, WindowStep::List { hwnd: above.hwnd }),
            Wanted::Elements(above) => (self, WindowStep::Probe { hwnd: above.hwnd }),
            Wanted::Window => (self, WindowStep::Read { hwnd: row.hwnds[row.index as int] }),
            Wanted::Nothing => if self.rows.len() == 0 {
                (self, WindowStep::Done)
            } else if row.index >= row.hwnds.len() {
                (RecordState { rows: self.rows.drop_last(), ..self }, WindowStep::Again)
            } else {
                (
                    RecordState { wanted: Wanted::Window, ..self },
                    WindowStep::Read { hwnd: row.hwnds[row.index as int] },
                )
            },
        }
    }

    /// The walk once the window that is wanted has been read.
    pub open spec fn after_read(self, window: ImplWindow, info: WindowNode) -> RecordState {
        let row = self.rows.last();
        RecordState {
            out: with_window(self.out, info, row.parent_id),
            rows: self.rows.drop_last().push(Row { index: row.index + 1, ..row }),
            wanted: if self.options.include_children {
                Wanted::Children(
                    Above {
                        hwnd: window.hwnd,
                        id: info.id,
                        pid: info.pid,
                        app_name: info.app_name,
                    },
                )
            } else {
                Wanted::Nothing
            },
            ..self
        }
    }

    /// The walk once the window that is wanted could not be read. Its id counts as used.
    pub open spec fn after_failure(self, window: ImplWindow) -> RecordState {
        RecordState {
            out: Collected {
                used_ids: self.out.used_ids.insert(window.window_id()),
                ..self.out
            },
            ..self
        }
    }

    /// The walk once the windows that are wanted have been listed.
    pub open spec fn after_list(self, hwnds: Seq<usize>) -> RecordState {
        let above = self.wanted->Children_0;
        if hwnds.len() == 0 {
            RecordState { wanted: Wanted::Elements(above), ..self }
        } else {
            RecordState {
                rows: self.rows.push(Row { hwnds, index: 0, parent_id: Some(above.id) }),
                wanted: Wanted::Nothing,
                ..self
            }
        }
    }

    /// The walk once the elements that are wanted have been gathered, or could not be.
    pub open spec fn after_probe(self, best: Option<Collected>) -> RecordState {
        RecordState {
            out: match best {
                Some(best) => with_elements(self.out, best),
                None => self.out,
            },
            wanted: Wanted::Nothing,
            ..self
        }
    }

    /// The start of a walk over the windows on the desktop.
    pub open spec fn over(hwnds: Seq<usize>, options: WindowQueryOptions) -> RecordState {
        RecordState {
            options,
            out: Collected { records: Seq::empty(), next_id: 1, used_ids: Set::empty() },
            rows: seq![Row { hwnds, index: 0, parent_id: None }],
            wanted: Wanted::Nothing,
        }
    }

    /// The start of a walk over what is under a window.
    pub open spec fn under(
        hwnd: usize,
        root: WindowNode,
        options: WindowQueryOptions,
    ) -> RecordState {
        RecordState {
            options,
            out: Collected {
                records: Seq::empty(),
                next_id: if root.id < EXPANSION_IDS {
                    EXPANSION_IDS
                } else if root.id == u32::MAX {
                    u32::MAX
                } else {
                    (root.id + 1) as u32
                },
                used_ids: set![root.id],
            },
            rows: Seq::empty(),
            wanted: Wanted::Children(
                Above { hwnd, id: root.id, pid: root.pid, app_name: root.app_name },
            ),
        }
    }
}

/// The walk over windows and the windows under them that a query makes records of.
#[derive(Debug)]
pub struct RecordWalk {
    options: WindowQueryOptions,
    next_synthetic_id: u32,
    used_ids: HashSet<u32>,
    records: Vec<WindowInfoRecord>,
    levels: Vec<Level>,
    phase: Phase,
}

impl View for RecordWalk {
    type V = RecordState;

    closed spec fn view(&self) -> RecordState {
        RecordState {
            options: self.options,
            out: Collected {
                records: window::found(self.records@),
                next_id: self.next_synthetic_id,
                used_ids: self.used_ids@,
            },
            rows: self.levels@.map_values(|level: Level| level.content()),
            wanted: match self.phase {
                Phase::Between => Wanted::Nothing,
                Phase::Reading => Wanted::Window,
                Phase::Listing(parent) => Wanted::Children(parent.content()),
                Phase::Probing(parent) => Wanted::Elements(parent.content()),
            },
        }
    }
}

impl RecordWalk {
    /// Starts a walk over the windows on the desktop, from the topmost down.
    pub fn over(hwnds: Vec<usize>, options: &WindowQueryOptions) -> (walk: RecordWalk)
        requires
            hwnds@.len() <= i32::MAX,
        ensures
            walk@ == RecordState::over(hwnds@, *options),
            walk@.well_formed(),
    {
        let mut levels: Vec<Level> = Vec::new();
        levels.push(Level { hwnds, index: 0, parent_id: None });
        let walk = RecordWalk {
            options: options.clone(),
            next_synthetic_id: 1,
            used_ids: HashSet::new(),
            records: Vec::new(),
            levels,
            phase: Phase::Between,
        };
        assert(walk@.rows =~= RecordState::over(hwnds@, *options).rows);
        assert(walk@.out.records =~= Seq::empty());
        assert(walk@.out.used_ids =~= Set::empty());
        walk
    }

    /// Starts a walk over what is under the window `hwnd`, of which `root` is reported.
    pub fn under(hwnd: usize, root: &WindowInfo, options: &WindowQueryOptions) -> (walk: RecordWalk)
        ensures
            walk@ == RecordState::under(hwnd, root@, *options),
            walk@.well_formed(),
    {
        let next: u32 = root.id.saturating_add(1);
        let mut used_ids: HashSet<u32> = HashSet::new();
        used_ids.insert(root.id);
        let walk = RecordWalk {
            options: options.clone(),
            next_synthetic_id: if next < EXPANSION_IDS {
                EXPANSION_IDS
            } else {
                next
            },
            used_ids,
            records: Vec::new(),
            levels: Vec::new(),
            phase: Phase::Listing(
                Parent { hwnd, id: root.id, pid: root.pid, app_name: root.app_name.clone() },
            ),
        };
        assert(walk@.rows =~= Seq::empty());
        assert(walk@.out.records =~= Seq::empty());
        assert(walk@.out.used_ids =~= set![root.id]);
        walk
    }

    /// Says what is to be done next.
    pub fn step(&mut self) -> (step: WindowStep)
        requires
            old(self)@.well_formed(),
        ensures
            final(self)@.well_formed(),
            (final(self)@, step) == old(self)@.next(),
    {
        let ghost before = self@;
        match &self.phase {
            Phase::Listing(parent) => {
                return WindowStep::List { hwnd: parent.hwnd };
            },
            Phase::Probing(parent) => {
                return WindowStep::Probe { hwnd: parent.hwnd };
            },
            Phase::Reading => {
                let last: usize = self.levels.len() - 1;
                assert(before.rows.last() == self.levels@[last as int].content());
                let level = &self.levels[last];
                return WindowStep::Read { hwnd: level.hwnds[level.index] };
            },
            Phase::Between => {},
        }
        if self.levels.len() == 0 {
            return WindowStep::Done;
        }
        let last: usize = self.levels.len() - 1;
        assert(before.rows.last() == self.levels@[last as int].content());
        if self.levels[last].index >= self.levels[last].hwnds.len() {
            self.levels.pop();
            assert(self@.rows =~= before.rows.drop_last());
            return WindowStep::Again;
        }
        let hwnd: usize = self.levels[last].hwnds[self.levels[last].index];
        self.phase = Phase::Reading;
        WindowStep::Read { hwnd }
    }

    /// Takes up the window that was to be read. An error ends the walk.
    pub fn read(&mut self, window: ImplWindow) -> (result: XCapResult<()>)
        requires
            old(self)@.well_formed(),
            old(self)@.wanted is Window,
            old(self)@.next().1 == (WindowStep::Read { hwnd: window.hwnd }),
            window.extent_measurable(),
        ensures
            final(self)@.well_formed(),
            ({
                let row = old(self)@.rows.last();
                let z = (row.hwnds.len() - row.index - 1) as i32;
                match window.description(Ok(z)) {
                    Ok(info) => {
                        &&& result == Ok::<(), XCapError>(())
                        &&& final(self)@ == old(self)@.after_read(window, info)
                    },
                    Err(failure) => {
                        &&& result matches Err(met) && met@ == failure
                        &&& final(self)@ == old(self)@.after_failure(window)
                    },
                }
            }),
    {
        let ghost before = self@;
        let last: usize = self.levels.len() - 1;
        assert(before.rows.last() == self.levels@[last as int].content());
        assert(before.rows[last as int].hwnds.len() <= i32::MAX);
        let count: usize = self.levels[last].hwnds.len();
        let index: usize = self.levels[last].index;
        let parent_id = self.levels[last].parent_id;
        let z: i32 = (count - index - 1) as i32;
        let id: u32 = window.id()?;
        self.used_ids.insert(id);
        let info = match window.described(Ok(z)) {
            Ok(info) => info,
            Err(failure) => {
                return Err(failure);
            },
        };
        self.phase = if self.options.include_children {
            Phase::Listing(
                Parent { hwnd: window.hwnd, id, pid: info.pid, app_name: info.app_name.clone() },
            )
        } else {
            Phase::Between
        };
        self.records.push(WindowInfoRecord { info, parent_id });
        self.levels[last].index = index + 1;
        proof {
            let described = info@;
            assert(self@.out.records =~= before.after_read(window, described).out.records);
            assert(self@.out.used_ids =~= before.after_read(window, described).out.used_ids);
            assert(self@.rows =~= before.after_read(window, described).rows);
        }
        Ok(())
    }

    /// Takes up the windows under a window, from the topmost down.
    pub fn listed(&mut self, hwnds: Vec<usize>)
        requires
            old(self)@.well_formed(),
            old(self)@.wanted is Children,
            hwnds@.len() <= i32::MAX,
        ensures
            final(self)@.well_formed(),
            final(self)@ == old(self)@.after_list(hwnds@),
    {
        let ghost before = self@;
        let mut phase = Phase::Between;
        std::mem::swap(&mut phase, &mut self.phase);
        if let Phase::Listing(parent) = phase {
            if hwnds.len() == 0 {
                self.phase = Phase::Probing(parent);
            } else {
                self.levels.push(Level { hwnds, index: 0, parent_id: Some(parent.id) });
                assert(self@.rows =~= before.after_list(hwnds@).rows);
            }
        }
    }

    /// Sets out to gather the elements under the window that they are wanted of, which is known to
    /// the accessibility service as `element`.
    pub fn probe(&self, element: usize, now: u128) -> (probe: UiaProbe)
        requires
            self@.wanted is Elements,
            uia_probe::probe_deadline(self@.options.probe_timeout_ms, now) matches Some(deadline)
                ==> deadline <= u128::MAX,
        ensures
            ({
                let above = self@.wanted->Elements_0;
                probe@ == uia_probe::probe_start(
                    above.hwnd,
                    element,
                    above.id,
                    above.pid,
                    above.app_name,
                    self@.options,
                    self@.out.next_id,
                    self@.out.used_ids,
                    now,
                )
            }),
    {
        let (hwnd, id, pid, app_name) = match &self.phase {
            Phase::Probing(parent) => (
                parent.hwnd,
                parent.id,
                parent.pid,
                parent.app_name.as_str(),
            ),
            _ => (0, 0, 0, ""),
        };
        UiaProbe::new(
            hwnd,
            element,
            id,
            pid,
            app_name,
            &self.options,
            self.next_synthetic_id,
            &self.used_ids,
            now,
        )
    }

    /// Takes up the elements under a window. A window whose elements cannot be gathered is left
    /// without any. Says how many there are, or what went wrong.
    pub fn probed(&mut self, outcome: XCapResult<UiaProbe>) -> (result: XCapResult<usize>)
        requires
            old(self)@.well_formed(),
            old(self)@.wanted is Elements,
        ensures
            final(self)@.well_formed(),
            match outcome {
                Ok(probe) => {
                    &&& final(self)@ == old(self)@.after_probe(Some(probe@.best))
                    &&& result matches Ok(added) && added == probe@.best.records.len()
                },
                Err(failure) => {
                    &&& final(self)@ == old(self)@.after_probe(None)
                    &&& result == Err::<usize, XCapError>(failure)
                },
            },
    {
        self.phase = Phase::Between;
        uia_probe::collect_uia_children(
            outcome,
            &mut self.next_synthetic_id,
            &mut self.used_ids,
            &mut self.records,
        )
    }

    /// Arranges the records in a tree.
    pub fn into_tree(self) -> (tree: Vec<WindowInfo>)
        ensures
            window::nodes(tree@) == window::window_tree(self@.out.records, self@.options),
    {
        window::build_window_info_tree(self.records, &self.options)
    }

    /// Arranges the records in the tree under the window that was expanded.
    pub fn into_children(self, root: WindowInfo) -> (children: Vec<WindowInfo>)
        ensures
            window::nodes(children@) == window::expanded_children(
                root@,
                self@.out.records,
                self@.options,
            ),
    {
        window::build_expanded_children(root, self.records, &self.options)
    }
}

} // verus!
