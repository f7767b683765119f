//! Which windows are worth reporting, and which of the windows under a window.

use vstd::prelude::*;

use crate::error::XCapResult;
use crate::window::Window;
use crate::windows::accessibility::Rect;
use crate::windows::impl_window;
use crate::windows::wide;

verus! {

/// The style of tool windows.
pub const WS_EX_TOOLWINDOW: u32 = 0x80;

/// How many units the system may write of a class name or of a path.
pub const MAX_PATH: usize = 260;

/// What the system tells of the standing of a window.
#[derive(Debug)]
pub struct Standing {
    pub exists: bool,
    pub is_visible: bool,
    pub pid: u32,
    /// The process that asks.
    pub current_pid: u32,
    /// Whether and why the window is cloaked; none where the system does not tell.
    pub cloaked: Option<u32>,
    pub bounds: XCapResult<Rect>,
}

/// Whether a rectangle has no extent.
pub open spec fn is_empty_rect(rect: Rect) -> bool {
    rect.right <= rect.left || rect.bottom <= rect.top
}

/// Whether a rectangle has no extent.
pub fn is_rect_empty(rect: &Rect) -> (yes: bool)
    ensures
        yes == is_empty_rect(*rect),
{
    rect.right <= rect.left || rect.bottom <= rect.top
}

/// Whether a window is hidden although it counts as visible.
pub open spec fn is_cloaked(cloaked: Option<u32>) -> bool {
    cloaked matches Some(reason) && reason != 0
}

/// Whether a window is hidden although it counts as visible.
pub fn is_window_cloaked(cloaked: Option<u32>) -> (yes: bool)
    ensures
        yes == is_cloaked(cloaked),
{
    match cloaked {
        Some(reason) => reason != 0,
        None => false,
    }
}

/// Why a window under a window is not reported.
pub open spec fn filter_reason(standing: Standing) -> Option<Seq<char>> {
    if !standing.exists || !standing.is_visible {
        Some("not-visible-or-invalid"@)
    } else if standing.pid == standing.current_pid {
        Some("current-process"@)
    } else if is_cloaked(standing.cloaked) {
        Some("cloaked"@)
    } else {
        match standing.bounds {
            Ok(rect) => if is_empty_rect(rect) {
                Some("empty-bounds"@)
            } else {
                None
            },
            Err(_) => Some("bounds-unavailable"@),
        }
    }
}

/// Why a window under a window is not reported; none where it is.
pub fn child_window_filter_reason(standing: &Standing) -> (reason: Option<&'static str>)
    ensures
        match reason {
            Some(reason) => filter_reason(*standing) == Some(reason@),
            None => filter_reason(*standing) is None,
        },
{
    if !standing.exists || !standing.is_visible {
        return Some("not-visible-or-invalid");
    }
    if standing.pid == standing.current_pid {
        return Some("current-process");
    }
    if is_window_cloaked(standing.cloaked) {
        return Some("cloaked");
    }
    match &standing.bounds {
        Ok(rect) => {
            if is_rect_empty(rect) {
                Some("empty-bounds")
            } else {
                None
            }
        },
        Err(_) => Some("bounds-unavailable"),
    }
}

/// Whether a window under a window is reported.
pub fn is_valid_child_window(standing: &Standing) -> (yes: bool)
    ensures
        yes == (filter_reason(*standing) is None),
{
    child_window_filter_reason(standing).is_none()
}

/// Whether a style holds that of tool windows.
pub open spec fn is_tool_style(ex_style: u32) -> bool {
    ex_style & WS_EX_TOOLWINDOW == WS_EX_TOOLWINDOW
}

/// What the system tells of a window on the desktop.
#[derive(Debug)]
pub struct WindowFacts {
    pub standing: Standing,
    /// The name of its class, as the system has written it.
    pub class_name: Vec<u16>,
    pub ex_style: u32,
    /// Its title, where it has been asked for.
    pub title: Option<XCapResult<String>>,
}

impl WindowFacts {
    /// The name of its class; empty where it is no text.
    pub open spec fn class(self) -> Seq<char> {
        wide::written_or_empty(self.class_name@)
    }

    /// Whether there is a title.
    pub open spec fn is_titled(self) -> bool {
        self.title matches Some(Ok(title)) && title@.len() > 0
    }

    /// Whether the title decides.
    pub open spec fn needs_title(self) -> bool {
        &&& self.standing.exists
        &&& self.standing.is_visible
        &&& self.class().len() > 0
        &&& is_tool_style(self.ex_style)
    }

    /// Whether the window is reported. Tool windows need a title, but for the task bar; the
    /// desktop, buttons and the windows of the process that asks are left out.
    pub open spec fn is_valid(self) -> bool {
        &&& self.standing.exists
        &&& self.standing.is_visible
        &&& self.class().len() > 0
        &&& is_tool_style(self.ex_style) ==> self.class() == "Shell_TrayWnd"@ || self.is_titled()
        &&& self.standing.pid != self.standing.current_pid
        &&& self.class() != "Progman"@
        &&& self.class() != "Button"@
        &&& !is_cloaked(self.standing.cloaked)
        &&& self.standing.bounds matches Ok(rect) && !is_empty_rect(rect)
    }

    /// Whether the title has to be asked for. Asking is left out where it does not decide: it can
    /// block on the thread that the window belongs to.
    pub fn asks_for_title(&self) -> (yes: bool)
        ensures
            yes == self.needs_title(),
    {
        if !self.standing.exists || !self.standing.is_visible {
            return false;
        }
        let class_name = get_class_name(&self.class_name);
        if class_name.as_str().is_empty() {
            return false;
        }
        self.ex_style & WS_EX_TOOLWINDOW == WS_EX_TOOLWINDOW
    }
}

/// The name of a class, as the system has written it; empty where it is no text.
pub fn get_class_name(units: &Vec<u16>) -> (name: String)
    ensures
        name@ == wide::written_or_empty(units@),
{
    let mut copy: Vec<u16> = Vec::new();
    copy.extend_from_slice(units.as_slice());
    assert(copy@ =~= units@);
    wide::decode_or_default(copy)
}

/// Whether a window on the desktop is reported.
pub fn is_valid_window(facts: &WindowFacts) -> (yes: bool)
    requires
        facts.needs_title() ==> facts.title is Some,
    ensures
        yes == facts.is_valid(),
{
    let standing = &facts.standing;
    if !standing.exists || !standing.is_visible {
        return false;
    }
    let class_name = get_class_name(&facts.class_name);
    if class_name.as_str().is_empty() {
        return false;
    }
    if facts.ex_style & WS_EX_TOOLWINDOW == WS_EX_TOOLWINDOW {
        let is_titled: bool = match &facts.title {
            Some(Ok(title)) => !title.as_str().is_empty(),
            _ => false,
        };
        if class_name != "Shell_TrayWnd".to_owned() && !is_titled {
            return false;
        }
    }
    if standing.pid == standing.current_pid {
        return false;
    }
    if class_name == "Progman".to_owned() {
        return false;
    }
    if class_name == "Button".to_owned() {
        return false;
    }
    if is_window_cloaked(standing.cloaked) {
        return false;
    }
    match &standing.bounds {
        Ok(rect) => !is_rect_empty(rect),
        Err(_) => false,
    }
}

/// A window on the desktop, and what the system tells of it.
#[derive(Debug)]
pub struct Candidate {
    pub hwnd: usize,
    pub facts: WindowFacts,
}

/// The windows among `candidates` that are reported, in their order.
pub open spec fn valid_candidates(candidates: Seq<Candidate>) -> Seq<usize>
    decreases candidates.len(),
{
    if candidates.len() == 0 {
        Seq::empty()
    } else {
        let before = valid_candidates(candidates.drop_last());
        if candidates.last().facts.is_valid() {
            before.push(candidates.last().hwnd)
        } else {
            before
        }
    }
}

/// The windows among `candidates` that are reported, in their order.
pub fn valid_windows(candidates: &Vec<Candidate>) -> (hwnds: Vec<usize>)
    requires
        forall|i: int|
            0 <= i < candidates@.len() ==> ((#[trigger] candidates@[i]).facts.needs_title()
                ==> candidates@[i].facts.title is Some),
    ensures
        hwnds@ == valid_candidates(candidates@),
        hwnds@.len() <= candidates@.len(),
{
    let mut hwnds: Vec<usize> = Vec::new();
    let mut i: usize = 0;
    assert(candidates@.take(0) =~= Seq::empty());
    while i < candidates.len()
        invariant
            i <= candidates.len(),
            hwnds@ == valid_candidates(candidates@.take(i as int)),
            hwnds@.len() <= i,
            forall|i: int|
                0 <= i < candidates@.len() ==> ((#[trigger] candidates@[i]).facts.needs_title()
                    ==> candidates@[i].facts.title is Some),
        decreases candidates.len() - i,
    {
        assert(candidates@.take(i + 1).drop_last() =~= candidates@.take(i as int));
        assert(candidates@[i as int].facts.needs_title() ==> candidates@[i as int].facts.title
            is Some);
        if is_valid_window(&candidates[i].facts) {
            hwnds.push(candidates[i].hwnd);
        }
        i = i + 1;
    }
    assert(candidates@.take(i as int) =~= candidates@);
    hwnds
}

/// How many units a title of this length takes, with the zero that ends it; none for the length that
/// is told in place of an error.
pub fn title_buffer_length(text_length: i32) -> (length: usize)
    requires
        -1 <= text_length < i32::MAX,
    ensures
        length == text_length + 1,
{
    (text_length + 1) as usize
}

/// A title, as the system has written it.
pub fn get_window_title(units: Vec<u16>) -> (result: XCapResult<String>)
    ensures
        match wide::written(units@) {
            Some(text) => result matches Ok(title) && title@ == text,
            None => result == Err::<String, crate::error::XCapError>(
                crate::error::XCapError::Utf16Error,
            ),
        },
{
    wide::decode(units)
}

/// The window that comes next among the windows under a window: none where the system gives no
/// window, or an error.
pub fn next_sibling(answer: Option<usize>) -> (next: Option<usize>)
    ensures
        next == (match answer {
            Some(hwnd) => if hwnd == 0 {
                None
            } else {
                Some(hwnd)
            },
            None => None,
        }),
{
    match answer {
        Some(hwnd) => {
            if hwnd == 0 {
                None
            } else {
                Some(hwnd)
            }
        },
        None => None,
    }
}

/// A window under a window.
#[derive(Debug)]
pub struct Sibling {
    pub hwnd: usize,
    pub standing: Standing,
}

/// The windows among `siblings` that are reported, in their order.
pub open spec fn valid_children(siblings: Seq<Sibling>) -> Seq<usize>
    decreases siblings.len(),
{
    if siblings.len() == 0 {
        Seq::empty()
    } else {
        let before = valid_children(siblings.drop_last());
        if filter_reason(siblings.last().standing) is None {
            before.push(siblings.last().hwnd)
        } else {
            before
        }
    }
}

/// The windows among `siblings` that are reported, in their order.
pub fn child_hwnds(siblings: &Vec<Sibling>) -> (hwnds: Vec<usize>)
    ensures
        hwnds@ == valid_children(siblings@),
        hwnds@.len() <= siblings@.len(),
{
    let mut hwnds: Vec<usize> = Vec::new();
    let mut i: usize = 0;
    assert(siblings@.take(0) =~= Seq::empty());
    while i < siblings.len()
        invariant
            i <= siblings.len(),
            hwnds@ == valid_children(siblings@.take(i as int)),
            hwnds@.len() <= i,
        decreases siblings.len() - i,
    {
        assert(siblings@.take(i + 1).drop_last() =~= siblings@.take(i as int));
        if is_valid_child_window(&siblings[i].standing) {
            hwnds.push(siblings[i].hwnd);
        }
        i = i + 1;
    }
    assert(siblings@.take(i as int) =~= siblings@);
    hwnds
}

/// All windows among `siblings`, in their order.
pub fn all_child_hwnds(siblings: &Vec<Sibling>) -> (hwnds: Vec<usize>)
    ensures
        hwnds@ == siblings@.map_values(|sibling: Sibling| sibling.hwnd),
{
    let mut hwnds: Vec<usize> = Vec::new();
    let mut i: usize = 0;
    while i < siblings.len()
        invariant
            i <= siblings.len(),
            hwnds@ == siblings@.take(i as int).map_values(|sibling: Sibling| sibling.hwnd),
        decreases siblings.len() - i,
    {
        hwnds.push(siblings[i].hwnd);
        i = i + 1;
        assert(hwnds@ =~= siblings@.take(i as int).map_values(|sibling: Sibling| sibling.hwnd));
    }
    assert(siblings@.take(i as int) =~= siblings@);
    hwnds
}

/// A window that is reported on the desktop would be reported under another window too.
pub proof fn law_valid_windows_are_valid_children(facts: WindowFacts)
    requires
        facts.is_valid(),
    ensures
        filter_reason(facts.standing) is None,
{
}

/// The windows that are reported are sorted by their height, from the topmost down.
pub proof fn law_reported_windows_are_sorted(candidates: Seq<Candidate>, i: int, j: int)
    requires
        candidates.map_values(|candidate: Candidate| candidate.hwnd).no_duplicates(),
        0 <= i < j < valid_candidates(candidates).len(),
    ensures
        ({
            let order = candidates.map_values(|candidate: Candidate| candidate.hwnd);
            let reported = valid_candidates(candidates);
            impl_window::windows_below(order, reported[i]) > impl_window::windows_below(
                order,
                reported[j],
            )
        }),
{
    let order = candidates.map_values(|candidate: Candidate| candidate.hwnd);
    let (a, b) = lemma_places(candidates, i, j);
    assert(order[a] == valid_candidates(candidates)[i]);
    assert(order[b] == valid_candidates(candidates)[j]);
    impl_window::law_listed_from_the_topmost_down(order, a, b);
}

/// The windows on the desktop come sorted by their height, from the topmost down: where they are
/// those that are reported among the candidates, each of them knows the candidates as the windows on
/// the desktop, and no handle occurs twice.
pub proof fn law_windows_come_from_the_topmost_down(
    candidates: Seq<Candidate>,
    windows: Seq<Window>,
    i: int,
    j: int,
)
    requires
        candidates.len() <= i32::MAX,
        candidates.map_values(|candidate: Candidate| candidate.hwnd).no_duplicates(),
        windows.map_values(|window: Window| window.impl_window.hwnd) == valid_candidates(
            candidates,
        ),
        forall|k: int|
            0 <= k < windows.len() ==> ((#[trigger] windows[k]).impl_window.order matches Ok(order)
                && order@ == candidates.map_values(|candidate: Candidate| candidate.hwnd)),
        0 <= i < j < windows.len(),
    ensures
        windows[i].impl_window.height_among_others() matches Ok(above) && (
        windows[j].impl_window.height_among_others() matches Ok(below) && above > below),
{
    let reported = windows.map_values(|window: Window| window.impl_window.hwnd);
    let order = candidates.map_values(|candidate: Candidate| candidate.hwnd);
    law_reported_windows_are_sorted(candidates, i, j);
    assert(reported[i] == windows[i].impl_window.hwnd);
    assert(reported[j] == windows[j].impl_window.hwnd);
    impl_window::lemma_height_is_countable(order, reported[i]);
    impl_window::lemma_height_is_countable(order, reported[j]);
}

proof fn lemma_places(candidates: Seq<Candidate>, i: int, j: int) -> (places: (int, int))
    requires
        0 <= i < j < valid_candidates(candidates).len(),
    ensures
        0 <= places.0 < places.1 < candidates.len(),
        candidates[places.0].hwnd == valid_candidates(candidates)[i],
        candidates[places.1].hwnd == valid_candidates(candidates)[j],
    decreases candidates.len(),
{
    let before = candidates.drop_last();
    if j < valid_candidates(before).len() {
        lemma_places(before, i, j)
    } else {
        (lemma_place(before, i), candidates.len() - 1)
    }
}

proof fn lemma_place(candidates: Seq<Candidate>, i: int) -> (place: int)
    requires
        0 <= i < valid_candidates(candidates).len(),
    ensures
        0 <= place < candidates.len(),
        candidates[place].hwnd == valid_candidates(candidates)[i],
    decreases candidates.len(),
{
    let before = candidates.drop_last();
    if i < valid_candidates(before).len() {
        lemma_place(before, i)
    } else {
        candidates.len() - 1
    }
}

} // verus!
