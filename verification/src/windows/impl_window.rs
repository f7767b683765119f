//! A window of the system, by what the system tells of it.

use vstd::prelude::*;

use crate::error;
use crate::error::{XCapError, XCapResult};
use crate::window::{WindowInfo, WindowNode};
use crate::windows::accessibility::Rect;

verus! {

/// A window, by what the system tells of it.
#[derive(Debug)]
pub struct ImplWindow {
    pub hwnd: usize,
    pub pid: u32,
    pub app_name: XCapResult<String>,
    pub title: XCapResult<String>,
    pub bounds: XCapResult<Rect>,
    /// All windows on the desktop, from the topmost down.
    pub order: XCapResult<Vec<usize>>,
    pub is_iconic: bool,
    pub is_zoomed: bool,
    /// The window that the user works with.
    pub foreground: usize,
}

impl ImplWindow {
    /// Whether the same is told of two windows.
    pub open spec fn same_as(self, other: ImplWindow) -> bool {
        &&& self.hwnd == other.hwnd
        &&& self.pid == other.pid
        &&& error::text_outcome(self.app_name) == error::text_outcome(other.app_name)
        &&& error::text_outcome(self.title) == error::text_outcome(other.title)
        &&& error::outcome(self.bounds) == error::outcome(other.bounds)
        &&& match (self.order, other.order) {
            (Ok(order), Ok(other_order)) => order@ == other_order@,
            (Err(failure), Err(other_failure)) => failure@ == other_failure@,
            _ => false,
        }
        &&& self.is_iconic == other.is_iconic
        &&& self.is_zoomed == other.is_zoomed
        &&& self.foreground == other.foreground
    }
}

impl Clone for ImplWindow {
    fn clone(&self) -> (copy: Self)
        ensures
            copy.same_as(*self),
    {
        let order: XCapResult<Vec<usize>> = match &self.order {
            Ok(order) => {
                let mut copy: Vec<usize> = Vec::new();
                copy.extend_from_slice(order.as_slice());
                assert(copy@ =~= order@);
                Ok(copy)
            },
            Err(failure) => Err(failure.clone()),
        };
        ImplWindow {
            hwnd: self.hwnd,
            pid: self.pid,
            app_name: error::copy_text(&self.app_name),
            title: error::copy_text(&self.title),
            bounds: error::copy_outcome(&self.bounds),
            order,
            is_iconic: self.is_iconic,
            is_zoomed: self.is_zoomed,
            foreground: self.foreground,
        }
    }
}

/// A length as the number of pixels, which a negative one becomes from the top down.
pub open spec fn pixels(length: int) -> u32 {
    (length % 0x1_0000_0000) as u32
}

/// The distance between two edges, as a number of pixels.
fn distance(from: i32, to: i32) -> (count: u32)
    requires
        i32::MIN <= to - from <= i32::MAX,
    ensures
        count == pixels(to - from),
{
    let length: i32 = to - from;
    if length < 0 {
        (length as i64 + 0x1_0000_0000) as u32
    } else {
        length as u32
    }
}

/// The height of a window among others that are ordered from the topmost down: how many are below
/// it. Zero where it is not among them.
pub open spec fn windows_below(order: Seq<usize>, hwnd: usize) -> int {
    if order.contains(hwnd) {
        order.len() - 1 - order.index_of_first(hwnd)->0
    } else {
        0
    }
}

impl ImplWindow {
    /// The id of the window: the lower half of its handle.
    pub open spec fn window_id(self) -> u32 {
        (self.hwnd as int % 0x1_0000_0000) as u32
    }

    /// Whether the extent of the window can be told where it comes to be told: where the name and
    /// the title are known.
    pub open spec fn extent_measurable(self) -> bool {
        self.app_name is Ok && self.title is Ok ==> (self.bounds matches Ok(rect)
            ==> rect.measurable())
    }

    /// What comes to be counted of the window can be counted. The extent does not where there is no
    /// telling how high the window is.
    pub open spec fn measurable(self) -> bool {
        self.order matches Ok(order) ==> order@.len() <= i32::MAX && self.extent_measurable()
    }

    /// Whether what comes to be counted of the window can be counted.
    pub fn is_measurable(&self) -> (yes: bool)
        ensures
            yes == self.measurable(),
    {
        let order = match &self.order {
            Ok(order) => order,
            Err(_) => {
                return true;
            },
        };
        let extent: bool = match (&self.app_name, &self.title, &self.bounds) {
            (Ok(_), Ok(_), Ok(rect)) => rect.is_measurable(),
            _ => true,
        };
        order.len() <= i32::MAX as usize && extent
    }

    /// The height of the window among the others.
    pub open spec fn height_among_others(self) -> Result<i32, error::Failure> {
        match self.order {
            Ok(order) => Ok(windows_below(order@, self.hwnd) as i32),
            Err(failure) => Err(failure@),
        }
    }

    /// What is reported of the window, when it stands this high; or the first thing that went
    /// wrong.
    pub open spec fn description(self, z: Result<i32, error::Failure>) -> Result<
        WindowNode,
        error::Failure,
    > {
        match (
            error::text_outcome(self.app_name),
            error::text_outcome(self.title),
            error::outcome(self.bounds),
            z,
        ) {
            (Err(failure), _, _, _) => Err(failure),
            (Ok(_), Err(failure), _, _) => Err(failure),
            (Ok(_), Ok(_), Err(failure), _) => Err(failure),
            (Ok(_), Ok(_), Ok(_), Err(failure)) => Err(failure),
            (Ok(app_name), Ok(title), Ok(rect), Ok(z)) => Ok(
                WindowNode {
                    id: self.window_id(),
                    pid: self.pid,
                    app_name,
                    title,
                    x: rect.left,
                    y: rect.top,
                    z,
                    width: pixels(rect.right - rect.left),
                    height: pixels(rect.bottom - rect.top),
                    is_minimized: self.is_iconic,
                    is_maximized: self.is_zoomed,
                    is_focused: self.foreground == self.hwnd,
                    children: Seq::empty(),
                },
            ),
        }
    }

    /// The id of the window.
    pub fn id(&self) -> (result: XCapResult<u32>)
        ensures
            result == Ok::<u32, XCapError>(self.window_id()),
    {
        let handle: u64 = self.hwnd as u64;
        Ok((handle % 0x1_0000_0000) as u32)
    }

    /// The process that the window belongs to.
    pub fn pid(&self) -> (result: XCapResult<u32>)
        ensures
            result == Ok::<u32, XCapError>(self.pid),
    {
        Ok(self.pid)
    }

    /// The name of the application that the window belongs to.
    pub fn app_name(&self) -> (result: XCapResult<String>)
        ensures
            error::text_outcome(result) == error::text_outcome(self.app_name),
    {
        error::copy_text(&self.app_name)
    }

    /// The title of the window.
    pub fn title(&self) -> (result: XCapResult<String>)
        ensures
            error::text_outcome(result) == error::text_outcome(self.title),
    {
        error::copy_text(&self.title)
    }

    /// The left edge.
    pub fn x(&self) -> (result: XCapResult<i32>)
        ensures
            match self.bounds {
                Ok(rect) => result == Ok::<i32, XCapError>(rect.left),
                Err(failure) => result matches Err(met) && met@ == failure@,
            },
    {
        match &self.bounds {
            Ok(rect) => Ok(rect.left),
            Err(failure) => Err(failure.clone()),
        }
    }

    /// The top edge.
    pub fn y(&self) -> (result: XCapResult<i32>)
        ensures
            match self.bounds {
                Ok(rect) => result == Ok::<i32, XCapError>(rect.top),
                Err(failure) => result matches Err(met) && met@ == failure@,
            },
    {
        match &self.bounds {
            Ok(rect) => Ok(rect.top),
            Err(failure) => Err(failure.clone()),
        }
    }

    /// How many windows are below this one.
    pub fn z(&self) -> (result: XCapResult<i32>)
        requires
            self.order matches Ok(order) ==> order@.len() <= i32::MAX,
        ensures
            error::outcome(result) == self.height_among_others(),
    {
        let order = match &self.order {
            Ok(order) => order,
            Err(failure) => {
                return Err(failure.clone());
            },
        };
        let mut z: i32 = order.len() as i32;
        let mut i: usize = 0;
        while i < order.len()
            invariant
                i <= order.len() <= i32::MAX,
                z == order.len() - i,
                self.order matches Ok(all) && all == *order,
                forall|k: int| 0 <= k < i ==> order@[k] != self.hwnd,
            decreases order.len() - i,
        {
            z = z - 1;
            if self.hwnd == order[i] {
                proof {
                    lemma_first_at(order@, self.hwnd, i as int);
                }
                return Ok(z);
            }
            i = i + 1;
        }
        assert(!order@.contains(self.hwnd));
        Ok(z)
    }

    /// The width.
    pub fn width(&self) -> (result: XCapResult<u32>)
        requires
            self.bounds matches Ok(rect) ==> rect.measurable(),
        ensures
            match self.bounds {
                Ok(rect) => result == Ok::<u32, XCapError>(pixels(rect.right - rect.left)),
                Err(failure) => result matches Err(met) && met@ == failure@,
            },
    {
        match &self.bounds {
            Ok(rect) => Ok(distance(rect.left, rect.right)),
            Err(failure) => Err(failure.clone()),
        }
    }

    /// The height.
    pub fn height(&self) -> (result: XCapResult<u32>)
        requires
            self.bounds matches Ok(rect) ==> rect.measurable(),
        ensures
            match self.bounds {
                Ok(rect) => result == Ok::<u32, XCapError>(pixels(rect.bottom - rect.top)),
                Err(failure) => result matches Err(met) && met@ == failure@,
            },
    {
        match &self.bounds {
            Ok(rect) => Ok(distance(rect.top, rect.bottom)),
            Err(failure) => Err(failure.clone()),
        }
    }

    /// Whether the window is minimized.
    pub fn is_minimized(&self) -> (result: XCapResult<bool>)
        ensures
            result == Ok::<bool, XCapError>(self.is_iconic),
    {
        Ok(self.is_iconic)
    }

    /// Whether the window is maximized.
    pub fn is_maximized(&self) -> (result: XCapResult<bool>)
        ensures
            result == Ok::<bool, XCapError>(self.is_zoomed),
    {
        Ok(self.is_zoomed)
    }

    /// Whether this is the window that the user works with.
    pub fn is_focused(&self) -> (result: XCapResult<bool>)
        ensures
            result == Ok::<bool, XCapError>(self.foreground == self.hwnd),
    {
        Ok(self.foreground == self.hwnd)
    }

    /// What is reported of the window when it stands this high.
    pub fn described(&self, z: XCapResult<i32>) -> (result: XCapResult<WindowInfo>)
        requires
            z is Ok ==> self.extent_measurable(),
        ensures
            result matches Ok(info) ==> z == Ok::<i32, XCapError>(info.z),
            result matches Ok(info) ==> {
                &&& info.id as int == self.hwnd as int % 0x1_0000_0000
                &&& info.pid == self.pid
                &&& self.app_name matches Ok(app_name) && info.app_name@ == app_name@
                &&& self.title matches Ok(title) && info.title@ == title@
                &&& self.bounds matches Ok(rect) && {
                    &&& info.x == rect.left
                    &&& info.y == rect.top
                    &&& rect.left <= rect.right ==> info.x + info.width == rect.right
                    &&& rect.top <= rect.bottom ==> info.y + info.height == rect.bottom
                }
                &&& info.is_minimized == self.is_iconic
                &&& info.is_maximized == self.is_zoomed
                &&& info.is_focused == (self.foreground == self.hwnd)
                &&& info.children@.len() == 0
            },
            match result {
                Ok(info) => self.description(error::outcome(z)) == Ok::<
                    WindowNode,
                    error::Failure,
                >(info@),
                Err(failure) => self.description(error::outcome(z)) == Err::<
                    WindowNode,
                    error::Failure,
                >(failure@),
            },
    {
        let id: u32 = self.id()?;
        let app_name = self.app_name()?;
        let title = self.title()?;
        let x: i32 = self.x()?;
        let y: i32 = self.y()?;
        let z: i32 = z?;
        let width: u32 = self.width()?;
        let height: u32 = self.height()?;
        let info = WindowInfo {
            id,
            pid: self.pid,
            app_name,
            title,
            x,
            y,
            z,
            width,
            height,
            is_minimized: self.is_iconic,
            is_maximized: self.is_zoomed,
            is_focused: self.foreground == self.hwnd,
            children: Vec::new(),
        };
        proof {
            info.lemma_children();
            assert(info@.children =~= Seq::empty());
        }
        Ok(info)
    }

    /// What is reported of the window.
    pub fn window_info(&self) -> (result: XCapResult<WindowInfo>)
        requires
            self.measurable(),
        ensures
            result matches Ok(info) ==> self.height_among_others() == Ok::<i32, error::Failure>(
                info.z,
            ),
            result matches Ok(info) ==> {
                &&& info.id as int == self.hwnd as int % 0x1_0000_0000
                &&& info.pid == self.pid
                &&& self.app_name matches Ok(app_name) && info.app_name@ == app_name@
                &&& self.title matches Ok(title) && info.title@ == title@
                &&& self.bounds matches Ok(rect) && {
                    &&& info.x == rect.left
                    &&& info.y == rect.top
                    &&& rect.left <= rect.right ==> info.x + info.width == rect.right
                    &&& rect.top <= rect.bottom ==> info.y + info.height == rect.bottom
                }
                &&& info.is_minimized == self.is_iconic
                &&& info.is_maximized == self.is_zoomed
                &&& info.is_focused == (self.foreground == self.hwnd)
                &&& info.children@.len() == 0
            },
            match result {
                Ok(info) => self.description(self.height_among_others()) == Ok::<
                    WindowNode,
                    error::Failure,
                >(info@),
                Err(failure) => self.description(self.height_among_others()) == Err::<
                    WindowNode,
                    error::Failure,
                >(failure@),
            },
    {
        let z = self.z();
        self.described(z)
    }
}

/// The place of a window among others tells how high it is.
pub proof fn lemma_first_at(order: Seq<usize>, hwnd: usize, i: int)
    requires
        0 <= i < order.len(),
        order[i] == hwnd,
        forall|k: int| 0 <= k < i ==> order[k] != hwnd,
    ensures
        windows_below(order, hwnd) == order.len() - 1 - i,
{
    order.index_of_first_ensures(hwnd);
}

/// A window stands no higher than there are others.
pub proof fn lemma_height_is_countable(order: Seq<usize>, hwnd: usize)
    ensures
        0 <= windows_below(order, hwnd) <= order.len(),
{
    if order.contains(hwnd) {
        order.index_of_first_ensures(hwnd);
    }
}

/// Of two windows on the desktop the one that is listed first is the higher one.
pub proof fn law_listed_from_the_topmost_down(order: Seq<usize>, i: int, j: int)
    requires
        order.no_duplicates(),
        0 <= i < j < order.len(),
    ensures
        windows_below(order, order[i]) > windows_below(order, order[j]),
{
    lemma_first_at(order, order[i], i);
    lemma_first_at(order, order[j], j);
}

} // verus!
