//! What is told of windows, which of them are reported, and what a query makes of them.

use vstd::prelude::*;

use crate::error;
use crate::error::XCapResult;
use crate::window::{Found, WindowNode, WindowQueryOptions};
use crate::windows::impl_window;
use crate::windows::impl_window::ImplWindow;
use crate::windows::record_laws::Desktop;
use crate::windows::record_walk::{RecordState, Wanted, WindowStep};
use crate::windows::uia_probe::Collected;
use crate::windows::validity;
use crate::windows::validity::{Candidate, Sibling, Standing, WindowFacts};
use crate::windows::wide;

verus! {

/// Whether the length from one edge to another is a number of pixels; one below zero wraps around.
pub open spec fn spans(from: int, to: int, length: int) -> bool {
    &&& 0 <= length < 0x1_0000_0000
    &&& from <= to ==> from + length == to
    &&& from > to ==> from + length == to + 0x1_0000_0000
}

/// Whether what is reported of a window is what the system tells of it, and how high it stands.
pub open spec fn tells(window: ImplWindow, info: WindowNode, z: int) -> bool {
    &&& window.app_name matches Ok(app_name) && info.app_name == app_name@
    &&& window.title matches Ok(title) && info.title == title@
    &&& window.bounds matches Ok(rect) && {
        &&& info.x == rect.left
        &&& info.y == rect.top
        &&& rect.measurable() ==> spans(rect.left as int, rect.right as int, info.width as int)
        &&& rect.measurable() ==> spans(rect.top as int, rect.bottom as int, info.height as int)
    }
    &&& info.z == z
    &&& info.id as int == window.hwnd as int % 0x1_0000_0000
    &&& info.pid == window.pid
    &&& info.is_minimized == window.is_iconic
    &&& info.is_maximized == window.is_zoomed
    &&& info.is_focused == (window.foreground == window.hwnd)
    &&& info.children.len() == 0
}

/// What is reported of a window is what the system tells of it: the edges of a window that is not
/// empty are those from its place on for its width and height.
pub proof fn law_windows_are_told_as_they_are(window: ImplWindow, z: i32)
    ensures
        window.description(Ok(z)) matches Ok(info) ==> tells(window, info, z as int),
        window.description(Ok(z)) is Ok <==> window.app_name is Ok && window.title is Ok
            && window.bounds is Ok,
{
}

/// The first thing that went wrong is reported: the name first, then the title, then the edges, and
/// then how high the window stands.
pub proof fn law_first_failure_is_reported(
    window: ImplWindow,
    z: Result<i32, error::Failure>,
    failure: error::Failure,
)
    ensures
        (window.app_name matches Err(met) && met@ == failure) ==> window.description(z) == Err::<
            WindowNode,
            error::Failure,
        >(failure),
        (window.app_name is Ok && (window.title matches Err(met) && met@ == failure))
            ==> window.description(z) == Err::<WindowNode, error::Failure>(failure),
        (window.app_name is Ok && window.title is Ok && (window.bounds matches Err(met) && met@
            == failure)) ==> window.description(z) == Err::<WindowNode, error::Failure>(failure),
        (window.app_name is Ok && window.title is Ok && window.bounds is Ok && z == Err::<
            i32,
            error::Failure,
        >(failure)) ==> window.description(z) == Err::<WindowNode, error::Failure>(failure),
{
}

/// The id of a window is the lower half of its handle: all of it where it is small enough.
pub proof fn law_id_is_the_lower_half(window: ImplWindow)
    ensures
        window.hwnd < 0x1_0000_0000 ==> window.window_id() as int == window.hwnd,
        (window.hwnd - window.window_id()) % 0x1_0000_0000 == 0,
{
}

/// The length from one edge to another is that number of pixels.
pub proof fn law_pixels_are_counted(from: i32, to: i32)
    requires
        i32::MIN <= to - from <= i32::MAX,
    ensures
        spans(from as int, to as int, impl_window::pixels(to - from) as int),
{
}

/// A window stands as high as there are windows listed after it; one that is not listed stands at the
/// bottom. An error in place of the list is handed on.
pub proof fn law_height_is_what_is_listed_after(window: ImplWindow, i: int)
    ensures
        window.order matches Err(failure) ==> window.height_among_others() == Err::<
            i32,
            error::Failure,
        >(failure@),
        (window.order matches Ok(order) && order@.len() <= i32::MAX && 0 <= i < order@.len()
            && order@[i] == window.hwnd && !order@.take(i).contains(window.hwnd)) ==> (
        window.height_among_others() matches Ok(z) && z + i + 1 == window.order->Ok_0@.len()),
        (window.order matches Ok(order) && !order@.contains(window.hwnd)) ==> (
        window.height_among_others() == Ok::<i32, error::Failure>(0i32)),
{
    if let Ok(order) = window.order {
        if 0 <= i < order@.len() && order@[i] == window.hwnd && !order@.take(i).contains(
            window.hwnd,
        ) {
            assert forall|k: int| 0 <= k < i implies order@[k] != window.hwnd by {
                assert(order@.take(i)[k] == order@[k]);
                assert(order@.take(i).contains(order@.take(i)[k]));
            }
            impl_window::lemma_first_at(order@, window.hwnd, i);
        }
    }
}

/// Whether a record comes of a window, told as it is; or of the elements under one.
pub open spec fn comes_of_window(desktop: Desktop, record: Found) -> bool {
    ||| exists|hwnd: usize| #[trigger]
        tells((desktop.trees)(hwnd).window, record.info, record.info.z as int)
    ||| exists|hwnd: usize, out: Collected|
        #![trigger ((desktop.trees)(hwnd).elements)(out)]
        ((desktop.trees)(hwnd).elements)(out) matches Some(best) && best.records.contains(record)
}

/// Every record of a query or an expansion comes of a window, and tells what the system tells of it;
/// or it comes of the elements under one.
pub proof fn law_records_tell_what_the_system_tells(
    desktop: Desktop,
    run: Seq<RecordState>,
    i: int,
)
    requires
        desktop.is_run(run),
        run[0].out.records.len() == 0,
        0 <= i < run.len(),
    ensures
        forall|k: int|
            0 <= k < run[i].out.records.len() ==> comes_of_window(
                desktop,
                #[trigger] run[i].out.records[k],
            ),
    decreases i,
{
    if i > 0 {
        law_records_tell_what_the_system_tells(desktop, run, i - 1);
        assert(desktop.proceeds(run[i - 1], run[i - 1 + 1]));
        let before = run[i - 1];
        let after = run[i];
        let (walk, step) = before.next();
        assert forall|k: int| 0 <= k < after.out.records.len() implies comes_of_window(
            desktop,
            #[trigger] after.out.records[k],
        ) by {
            let record = after.out.records[k];
            if k < before.out.records.len() {
                assert(record == before.out.records[k]);
            } else {
                match step {
                    WindowStep::Read { hwnd } => {
                        let row = walk.rows.last();
                        let z = (row.hwnds.len() - row.index - 1) as i32;
                        law_windows_are_told_as_they_are((desktop.trees)(hwnd).window, z);
                        assert(tells(
                            (desktop.trees)(hwnd).window,
                            record.info,
                            record.info.z as int,
                        ));
                    },
                    WindowStep::Probe { hwnd } => {
                        let best = ((desktop.trees)(hwnd).elements)(walk.out)->0;
                        let j = k - before.out.records.len();
                        assert(record == best.records[j]);
                        assert(best.records.contains(record));
                    },
                    _ => {},
                }
            }
        }
    }
}

/// A window that is read becomes the next record, under the window that its list is of, and its id is
/// used from then on. Elements follow what was recorded, and the ids that they took are used.
pub proof fn law_records_are_added(
    walk: RecordState,
    window: ImplWindow,
    info: WindowNode,
    best: Collected,
)
    requires
        walk.rows.len() > 0,
    ensures
        ({
            let after = walk.after_read(window, info).out;
            &&& after.records.len() == walk.out.records.len() + 1
            &&& after.records.drop_last() == walk.out.records
            &&& after.records.last().info == info
            &&& after.records.last().parent_id == walk.rows.last().parent_id
            &&& forall|id: u32| #[trigger]
                after.used_ids.contains(id) <==> walk.out.used_ids.contains(id) || id == info.id
            &&& after.next_id == walk.out.next_id
        }),
        ({
            let after = walk.after_probe(Some(best)).out;
            &&& after.records.len() == walk.out.records.len() + best.records.len()
            &&& after.records.take(walk.out.records.len() as int) == walk.out.records
            &&& after.records.skip(walk.out.records.len() as int) == best.records
            &&& after.used_ids == best.used_ids
            &&& after.next_id == best.next_id
        }),
        walk.after_probe(None).out == walk.out,
{
    assert(walk.after_read(window, info).out.records.drop_last() =~= walk.out.records);
    let after = walk.after_probe(Some(best)).out;
    assert(after.records.take(walk.out.records.len() as int) =~= walk.out.records);
    assert(after.records.skip(walk.out.records.len() as int) =~= best.records);
}

/// The windows under a window are asked for right after it has been read, in a query with children;
/// where there are some they are read next, under it and from the first on; where there are none its
/// elements are asked for.
pub proof fn law_windows_are_gone_down_in_order(
    walk: RecordState,
    window: ImplWindow,
    info: WindowNode,
    hwnds: Seq<usize>,
)
    requires
        walk.rows.len() > 0,
    ensures
        ({
            let after = walk.after_read(window, info);
            let listed = after.after_list(hwnds);
            if walk.options.include_children {
                &&& after.next().1 == (WindowStep::List { hwnd: window.hwnd })
                &&& hwnds.len() > 0 ==> {
                    &&& listed.next().1 == (WindowStep::Read { hwnd: hwnds[0] })
                    &&& listed.rows.last().parent_id == Some(info.id)
                    &&& listed.rows.last().hwnds == hwnds
                    &&& listed.rows.last().index == 0
                    &&& listed.rows.drop_last() == after.rows
                }
                &&& hwnds.len() == 0 ==> listed.next().1 == (WindowStep::Probe {
                    hwnd: window.hwnd,
                })
            } else {
                let row = walk.rows.last();
                row.index + 1 < row.hwnds.len() ==> after.next().1 == (WindowStep::Read {
                    hwnd: row.hwnds[(row.index + 1) as int],
                })
            }
        }),
{
    let listed = walk.after_read(window, info).after_list(hwnds);
    if walk.options.include_children && hwnds.len() > 0 {
        assert(listed.rows.drop_last() =~= walk.after_read(window, info).rows);
    }
}

/// A query starts with nothing recorded, no id in use, and one as the first id that is tried for an
/// element; it reads the windows on the desktop from the first on, at the top.
pub proof fn law_how_a_query_starts(hwnds: Seq<usize>, options: WindowQueryOptions)
    ensures
        ({
            let start = RecordState::over(hwnds, options);
            &&& start.out.records.len() == 0
            &&& start.out.next_id == 1
            &&& forall|id: u32| !start.out.used_ids.contains(id)
            &&& start.options == options
            &&& hwnds.len() > 0 ==> start.next().1 == (WindowStep::Read { hwnd: hwnds[0] })
            &&& hwnds.len() == 0 ==> start.next().0.next().1 is Done
            &&& start.rows.len() == 1
            &&& start.rows[0].parent_id is None
        }),
{
}

/// An expansion starts with nothing recorded and the id of the window in use. The ids that elements
/// are given come after that of the window, and are in the upper half. It asks for the windows under
/// the window first.
pub proof fn law_how_an_expansion_starts(
    hwnd: usize,
    root: WindowNode,
    options: WindowQueryOptions,
)
    ensures
        ({
            let start = RecordState::under(hwnd, root, options);
            &&& start.out.records.len() == 0
            &&& start.out.next_id >= 0x8000_0000
            &&& root.id < u32::MAX ==> start.out.next_id > root.id
            &&& root.id < 0x8000_0000 ==> start.out.next_id == 0x8000_0000
            &&& 0x8000_0000 <= root.id < u32::MAX ==> start.out.next_id == root.id + 1
            &&& forall|id: u32| #[trigger] start.out.used_ids.contains(id) <==> id == root.id
            &&& start.options == options
            &&& start.next().1 == (WindowStep::List { hwnd })
            &&& start.rows.len() == 0
            &&& start.wanted matches Wanted::Children(above) && above.id == root.id && above.pid
                == root.pid && above.app_name == root.app_name
        }),
{
}

/// A window under a window is reported where it exists and can be seen, belongs to another process, is
/// not cloaked, and has edges with room between them; and only then.
pub proof fn law_which_windows_under_a_window_are_reported(standing: Standing)
    ensures
        validity::filter_reason(standing) is None <==> {
            &&& standing.exists
            &&& standing.is_visible
            &&& standing.pid != standing.current_pid
            &&& standing.cloaked is None || standing.cloaked == Some(0u32)
            &&& standing.bounds matches Ok(rect) && rect.left < rect.right && rect.top
                < rect.bottom
        },
{
}

/// Why a window under a window is not reported: the first of these reasons that holds.
pub proof fn law_why_windows_are_left_out(standing: Standing)
    ensures
        ({
            let seen = standing.exists && standing.is_visible;
            let foreign = standing.pid != standing.current_pid;
            let cloaked = standing.cloaked matches Some(reason) && reason != 0;
            &&& !seen ==> validity::filter_reason(standing) == Some("not-visible-or-invalid"@)
            &&& seen && !foreign ==> validity::filter_reason(standing) == Some(
                "current-process"@,
            )
            &&& seen && foreign && cloaked ==> validity::filter_reason(standing) == Some("cloaked"@)
            &&& seen && foreign && !cloaked && standing.bounds is Err
                ==> validity::filter_reason(standing) == Some("bounds-unavailable"@)
            &&& (seen && foreign && !cloaked && (standing.bounds matches Ok(rect) && (rect.right
                <= rect.left || rect.bottom <= rect.top))) ==> validity::filter_reason(standing)
                == Some("empty-bounds"@)
        }),
{
}

/// A window on the desktop that would be reported under another window is reported where its class has
/// a name, it is neither the desktop itself nor a button, and it is no tool window or has a title or is
/// the task bar; and only then.
pub proof fn law_which_windows_on_the_desktop_are_reported(facts: WindowFacts)
    ensures
        facts.is_valid() <==> {
            &&& validity::filter_reason(facts.standing) is None
            &&& facts.class().len() > 0
            &&& facts.class() != "Progman"@
            &&& facts.class() != "Button"@
            &&& facts.ex_style & 0x80 != 0x80 || facts.class() == "Shell_TrayWnd"@ || (
            facts.title matches Some(Ok(title)) && title@.len() > 0)
        },
{
}

/// The windows that are reported are those of the windows that are told of, in the same order.
pub proof fn law_reported_windows_keep_their_order(
    candidates: Seq<Candidate>,
    siblings: Seq<Sibling>,
)
    ensures
        validity::valid_candidates(candidates) == candidates.filter(
            |candidate: Candidate| candidate.facts.is_valid(),
        ).map_values(|candidate: Candidate| candidate.hwnd),
        validity::valid_children(siblings) == siblings.filter(
            |sibling: Sibling| validity::filter_reason(sibling.standing) is None,
        ).map_values(|sibling: Sibling| sibling.hwnd),
{
    lemma_candidates(candidates);
    lemma_siblings(siblings);
}

proof fn lemma_candidates(candidates: Seq<Candidate>)
    ensures
        validity::valid_candidates(candidates) == candidates.filter(
            |candidate: Candidate| candidate.facts.is_valid(),
        ).map_values(|candidate: Candidate| candidate.hwnd),
    decreases candidates.len(),
{
    reveal(Seq::filter);
    if candidates.len() > 0 {
        lemma_candidates(candidates.drop_last());
    }
    assert(validity::valid_candidates(candidates) =~= candidates.filter(
        |candidate: Candidate| candidate.facts.is_valid(),
    ).map_values(|candidate: Candidate| candidate.hwnd));
}

proof fn lemma_siblings(siblings: Seq<Sibling>)
    ensures
        validity::valid_children(siblings) == siblings.filter(
            |sibling: Sibling| validity::filter_reason(sibling.standing) is None,
        ).map_values(|sibling: Sibling| sibling.hwnd),
    decreases siblings.len(),
{
    reveal(Seq::filter);
    if siblings.len() > 0 {
        lemma_siblings(siblings.drop_last());
    }
    assert(validity::valid_children(siblings) =~= siblings.filter(
        |sibling: Sibling| validity::filter_reason(sibling.standing) is None,
    ).map_values(|sibling: Sibling| sibling.hwnd));
}

/// A copy of a window tells what the window tells.
pub proof fn law_copies_tell_the_same(window: ImplWindow, copy: ImplWindow, z: XCapResult<i32>)
    requires
        copy.same_as(window),
    ensures
        copy.hwnd == window.hwnd,
        copy.pid == window.pid,
        match (window.app_name, copy.app_name) {
            (Ok(name), Ok(copied)) => copied@ == name@,
            (Err(failure), Err(copied)) => copied@ == failure@,
            _ => false,
        },
        match (window.title, copy.title) {
            (Ok(title), Ok(copied)) => copied@ == title@,
            (Err(failure), Err(copied)) => copied@ == failure@,
            _ => false,
        },
        match (window.bounds, copy.bounds) {
            (Ok(rect), Ok(copied)) => copied == rect,
            (Err(failure), Err(copied)) => copied@ == failure@,
            _ => false,
        },
        match (window.order, copy.order) {
            (Ok(order), Ok(copied)) => copied@ == order@,
            (Err(failure), Err(copied)) => copied@ == failure@,
            _ => false,
        },
        copy.is_iconic == window.is_iconic,
        copy.is_zoomed == window.is_zoomed,
        copy.foreground == window.foreground,
        copy.description(error::outcome(z)) == window.description(error::outcome(z)),
{
}

/// The class of a window is what the system has written up to the first zero, and a title is asked
/// for only where it decides: of a tool window that exists, can be seen and has a class.
pub proof fn law_when_a_title_is_asked_for(facts: WindowFacts)
    ensures
        facts.class() == wide::written_or_empty(facts.class_name@),
        facts.needs_title() <==> facts.standing.exists && facts.standing.is_visible
            && wide::written_or_empty(facts.class_name@).len() > 0 && facts.ex_style & 0x80 == 0x80,
        facts.is_titled() <==> (facts.title matches Some(Ok(title)) && title@.len() > 0),
{
}

} // verus!
