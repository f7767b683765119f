//! What walks over windows and elements reach, and in which order.

use vstd::prelude::*;

use crate::window::{WindowNode, WindowQueryOptions};
use crate::windows::accessibility;
use crate::windows::accessibility::{UiaContext, UiaNode, UiaState, UiaStep};
use crate::windows::impl_window::ImplWindow;
use crate::windows::record_laws::Desktop;
use crate::windows::record_walk::{RecordState, Row, Wanted, WindowStep};
use crate::windows::uia_laws;
use crate::windows::uia_laws::UiaWorld;

verus! {

/// A walk starts with the list of its element. Where a list is wanted it is asked for, as long as it
/// is not too deep and fewer than 512 elements are recorded; it is then gone through from the first
/// element on, under the id that was wanted for it.
pub proof fn law_lists_are_asked_for(
    context: UiaContext,
    element: usize,
    parent_id: u32,
    next_id: u32,
    used_ids: Set<u32>,
    walk: UiaState,
    list: usize,
    length: i32,
)
    ensures
        ({
            let start = UiaState::start(context, element, parent_id, next_id, used_ids);
            &&& start.next().1 == (UiaStep::List { element })
            &&& start.pending->0.parent_id == parent_id
            &&& start.context == context
            &&& start.lists.len() == 0
            &&& start.out.records.len() == 0
            &&& start.out.next_id == next_id
            &&& start.out.used_ids == used_ids
            &&& forall|key: Seq<char>| !start.out.seen.contains(key)
        }),
        !walk.reading && walk.pending is Some ==> {
            let (next, step) = walk.next();
            if walk.lists.len() < accessibility::depth_limit(walk.context.options)
                && walk.out.records.len() < 512 {
                let after = next.after_list(list, length);
                &&& step == (UiaStep::List { element: walk.pending->0.element })
                &&& after.lists.len() == walk.lists.len() + 1
                &&& after.lists.drop_last() == walk.lists
                &&& after.lists.last().list == list
                &&& after.lists.last().length == length
                &&& after.lists.last().index == 0
                &&& after.lists.last().parent_id == walk.pending->0.parent_id
                &&& after.pending is None
                &&& after.out == walk.out
            } else {
                &&& step is Again
                &&& next.pending is None
                &&& next.lists == walk.lists
                &&& next.out == walk.out
            }
        },
{
    assert(walk.next().0.after_list(list, length).lists.drop_last() =~= walk.next().0.lists);
}

/// The elements of a list are read one by one, from the first on, each as standing above those that
/// come after it, until 512 are recorded. A list that has been gone through gives way to the one
/// above it. What is under an element comes before the elements after it.
pub proof fn law_elements_are_gone_through_in_order(
    walk: UiaState,
    element: usize,
    node: UiaNode,
)
    requires
        !walk.reading,
        walk.pending is None,
        walk.lists.len() > 0,
    ensures
        ({
            let last = walk.lists.last();
            let (next, step) = walk.next();
            if last.index < last.length && walk.out.records.len() < 512 {
                let after = next.after_read(element, node);
                let visit = accessibility::uia_visit(
                    walk.context,
                    walk.out,
                    node,
                    last.parent_id,
                    last.length - last.index - 1,
                );
                &&& step == (UiaStep::Read { list: last.list, index: last.index })
                &&& after.lists.len() == walk.lists.len()
                &&& after.lists.drop_last() == walk.lists.drop_last()
                &&& after.lists.last().list == last.list
                &&& after.lists.last().length == last.length
                &&& after.lists.last().parent_id == last.parent_id
                &&& after.lists.last().index == last.index + 1
                &&& after.out == visit.0
                &&& after.pending is Some <==> visit.1 is Some
                &&& after.pending is Some ==> after.pending->0.element == element
                    && after.pending->0.parent_id == visit.1->0
                &&& !after.reading
            } else {
                &&& step is Again
                &&& next.lists == walk.lists.drop_last()
                &&& next.out == walk.out
            }
        }),
{
    let last = walk.lists.last();
    if last.index < last.length && walk.out.records.len() < 512 {
        let after = walk.next().0.after_read(element, node);
        assert(after.lists.drop_last() =~= walk.lists.drop_last());
    }
}

/// Whether the list of an element is asked for at step `i` of a walk.
pub open spec fn lists_at(run: Seq<UiaState>, i: int, element: usize) -> bool {
    0 <= i < run.len() && run[i].next().1 == (UiaStep::List { element })
}

/// Whether an element of a list is read at step `i` of a walk.
pub open spec fn reads_at(run: Seq<UiaState>, i: int, list: usize, index: i32) -> bool {
    0 <= i < run.len() && run[i].next().1 == (UiaStep::Read { list, index })
}

/// Whether an element of a list is read before step `n` of a walk.
pub open spec fn is_read_before(run: Seq<UiaState>, n: int, list: usize, index: i32) -> bool {
    exists|i: int| i < n && #[trigger] reads_at(run, i, list, index)
}

/// Whether the elements of a list before one have been read, and the list is being gone through at
/// the place `m` of a stack.
spec fn is_under_way(run: Seq<UiaState>, n: int, list: usize, length: i32, m: int) -> bool {
    let lists = run[n].lists;
    &&& 0 <= m < lists.len()
    &&& lists[m].list == list
    &&& lists[m].length == length
    &&& forall|k: i32|
        0 <= k < lists[m].index && k < length ==> #[trigger] is_read_before(run, n, list, k)
}

/// Whether all elements of a list have been read.
spec fn is_done(run: Seq<UiaState>, n: int, list: usize, length: i32) -> bool {
    forall|k: i32| 0 <= k < length ==> #[trigger] is_read_before(run, n, list, k)
}

proof fn lemma_still_read(run: Seq<UiaState>, n: int, list: usize)
    ensures
        forall|k: i32|
            is_read_before(run, n - 1, list, k) ==> #[trigger] is_read_before(run, n, list, k),
{
    assert forall|k: i32| is_read_before(run, n - 1, list, k) implies #[trigger] is_read_before(
        run,
        n,
        list,
        k,
    ) by {
        let i = choose|i: int| i < n - 1 && #[trigger] reads_at(run, i, list, k);
        assert(reads_at(run, i, list, k));
    }
}

proof fn lemma_records_grow(world: UiaWorld, run: Seq<UiaState>, i: int, j: int)
    requires
        forall|i: int|
            0 <= i < run.len() - 1 ==> uia_laws::proceeds(world, #[trigger] run[i], run[i + 1]),
        0 <= i <= j < run.len(),
    ensures
        run[i].out.records.len() <= run[j].out.records.len(),
    decreases j,
{
    if i < j {
        lemma_records_grow(world, run, i, j - 1);
        assert(uia_laws::proceeds(world, run[j - 1], run[j - 1 + 1]));
    }
}

proof fn lemma_listed_is_kept(
    world: UiaWorld,
    run: Seq<UiaState>,
    n: int,
    list: usize,
    length: i32,
)
    requires
        forall|i: int|
            0 <= i < run.len() - 1 ==> uia_laws::proceeds(world, #[trigger] run[i], run[i + 1]),
        0 < n < run.len(),
        run[n - 1].out.records.len() < 512,
        is_done(run, n - 1, list, length) || exists|m: int|
            #[trigger] is_under_way(run, n - 1, list, length, m),
    ensures
        is_done(run, n, list, length) || exists|m: int|
            #[trigger] is_under_way(run, n, list, length, m),
{
    let walk = run[n - 1];
    assert(uia_laws::proceeds(world, run[n - 1], run[n - 1 + 1]));
    lemma_still_read(run, n, list);
    if is_done(run, n - 1, list, length) {
        assert forall|k: i32| 0 <= k < length implies #[trigger] is_read_before(
            run,
            n,
            list,
            k,
        ) by {
            assert(is_read_before(run, n - 1, list, k));
        }
        assert(is_done(run, n, list, length));
    } else {
        let m = choose|m: int| #[trigger] is_under_way(run, n - 1, list, length, m);
        let top = walk.lists.len() - 1;
        if walk.next().1 is Again && walk.pending is None && m == top {
            assert forall|k: i32| 0 <= k < length implies #[trigger] is_read_before(
                run,
                n,
                list,
                k,
            ) by {
                assert(is_read_before(run, n - 1, list, k));
            }
            assert(is_done(run, n, list, length));
        } else {
            if walk.next().1 is Read && m == top {
                assert(reads_at(run, n - 1, list, walk.lists[m].index));
            }
            assert forall|k: i32|
                0 <= k < run[n].lists[m].index && k < length implies #[trigger] is_read_before(
                run,
                n,
                list,
                k,
            ) by {
                if k < walk.lists[m].index {
                    assert(is_read_before(run, n - 1, list, k));
                }
            }
            assert(is_under_way(run, n, list, length, m));
        }
    }
}

proof fn lemma_listed(
    world: UiaWorld,
    run: Seq<UiaState>,
    i: int,
    n: int,
    element: usize,
)
    requires
        forall|i: int|
            0 <= i < run.len() - 1 ==> uia_laws::proceeds(world, #[trigger] run[i], run[i + 1]),
        lists_at(run, i, element),
        i < n < run.len(),
        run.last().out.records.len() < 512,
    ensures
        (world.lists)(element) matches Some(listing) && (is_done(
            run,
            n,
            listing.list,
            listing.length,
        ) || exists|m: int|
            #[trigger] is_under_way(run, n, listing.list, listing.length, m)),
    decreases n,
{
    assert(uia_laws::proceeds(world, run[n - 1], run[n - 1 + 1]));
    lemma_records_grow(world, run, n - 1, run.len() - 1);
    if n == i + 1 {
        let listing = (world.lists)(element)->0;
        assert(is_under_way(run, n, listing.list, listing.length, run[n].lists.len() - 1));
    } else {
        lemma_listed(world, run, i, n - 1, element);
        let listing = (world.lists)(element)->0;
        lemma_listed_is_kept(world, run, n, listing.list, listing.length);
    }
}

/// A walk that is over, and has recorded fewer elements than it may, has read every element of each
/// list that it asked for.
pub proof fn law_every_listed_element_is_read(
    world: UiaWorld,
    context: UiaContext,
    element: usize,
    parent_id: u32,
    next_id: u32,
    used_ids: Set<u32>,
    run: Seq<UiaState>,
    i: int,
    listed: usize,
    k: i32,
)
    requires
        uia_laws::is_run(world, context, element, parent_id, next_id, used_ids, run),
        run.last().next().1 is Done,
        run.last().out.records.len() < 512,
        lists_at(run, i, listed),
        (world.lists)(listed) matches Some(listing) && 0 <= k < listing.length,
    ensures
        (world.lists)(listed) matches Some(listing) && is_read_before(
            run,
            run.len() as int,
            listing.list,
            k,
        ),
{
    let last = run.len() - 1;
    assert(i < last);
    lemma_listed(world, run, i, last, listed);
    let listing = (world.lists)(listed)->0;
    assert(run[last].lists.len() == 0);
    assert(is_read_before(run, last, listing.list, k));
    lemma_still_read(run, last + 1, listing.list);
}

/// Whether a window is read at step `i` of a walk.
pub open spec fn reads_window_at(run: Seq<RecordState>, i: int, hwnd: usize) -> bool {
    0 <= i < run.len() && run[i].next().1 == (WindowStep::Read { hwnd })
}

/// Whether a window is read before step `n` of a walk.
pub open spec fn is_window_read_before(run: Seq<RecordState>, n: int, hwnd: usize) -> bool {
    exists|i: int| i < n && #[trigger] reads_window_at(run, i, hwnd)
}

/// Whether the windows of a list before one have been read, and the list is being gone through at the
/// place `m` of a stack.
spec fn is_row_under_way(run: Seq<RecordState>, n: int, hwnds: Seq<usize>, m: int) -> bool {
    let rows = run[n].rows;
    &&& 0 <= m < rows.len()
    &&& rows[m].hwnds == hwnds
    &&& forall|k: int|
        0 <= k < rows[m].index && k < hwnds.len() ==> is_window_read_before(
            run,
            n,
            #[trigger] hwnds[k],
        )
}

/// Whether all windows of a list have been read.
spec fn is_row_done(run: Seq<RecordState>, n: int, hwnds: Seq<usize>) -> bool {
    forall|k: int|
        0 <= k < hwnds.len() ==> is_window_read_before(run, n, #[trigger] hwnds[k])
}

proof fn lemma_window_still_read(run: Seq<RecordState>, n: int)
    ensures
        forall|hwnd: usize|
            is_window_read_before(run, n - 1, hwnd) ==> #[trigger] is_window_read_before(
                run,
                n,
                hwnd,
            ),
{
    assert forall|hwnd: usize|
        is_window_read_before(run, n - 1, hwnd) implies #[trigger] is_window_read_before(
        run,
        n,
        hwnd,
    ) by {
        let i = choose|i: int| i < n - 1 && #[trigger] reads_window_at(run, i, hwnd);
        assert(reads_window_at(run, i, hwnd));
    }
}

/// How a step changes the lists that are being gone through.
spec fn turns(before: Seq<Row>, step: WindowStep, after: Seq<Row>) -> bool {
    let top = before.len() - 1;
    match step {
        WindowStep::Again => {
            &&& top >= 0
            &&& before[top].index >= before[top].hwnds.len()
            &&& after == before.drop_last()
        },
        WindowStep::Read { hwnd } => {
            &&& top >= 0
            &&& hwnd == before[top].hwnds[before[top].index as int]
            &&& after.len() == before.len()
            &&& after[top].hwnds == before[top].hwnds
            &&& after[top].index == before[top].index + 1
            &&& forall|m: int| 0 <= m < top ==> after[m] == #[trigger] before[m]
        },
        _ => {
            &&& after.len() >= before.len()
            &&& forall|m: int| 0 <= m <= top ==> after[m] == #[trigger] before[m]
        },
    }
}

proof fn lemma_turns(desktop: Desktop, before: RecordState, after: RecordState)
    requires
        desktop.proceeds(before, after),
        before.wanted is Window ==> before.rows.len() > 0,
    ensures
        turns(before.rows, before.next().1, after.rows),
        after.wanted !is Window,
{
}

proof fn lemma_row_turns(
    run: Seq<RecordState>,
    n: int,
    hwnds: Seq<usize>,
)
    requires
        0 < n < run.len(),
        turns(run[n - 1].rows, run[n - 1].next().1, run[n].rows),
        is_row_done(run, n - 1, hwnds) || exists|m: int|
            #[trigger] is_row_under_way(run, n - 1, hwnds, m),
    ensures
        is_row_done(run, n, hwnds) || exists|m: int|
            #[trigger] is_row_under_way(run, n, hwnds, m),
{
    let before = run[n - 1].rows;
    let step = run[n - 1].next().1;
    let after = run[n].rows;
    lemma_window_still_read(run, n);
    if is_row_done(run, n - 1, hwnds) {
        assert forall|k: int| 0 <= k < hwnds.len() implies is_window_read_before(
            run,
            n,
            #[trigger] hwnds[k],
        ) by {
            assert(is_window_read_before(run, n - 1, hwnds[k]));
        }
        assert(is_row_done(run, n, hwnds));
    } else {
        let m = choose|m: int| #[trigger] is_row_under_way(run, n - 1, hwnds, m);
        let top = before.len() - 1;
        if step is Again && m == top {
            assert forall|k: int| 0 <= k < hwnds.len() implies is_window_read_before(
                run,
                n,
                #[trigger] hwnds[k],
            ) by {
                assert(is_window_read_before(run, n - 1, hwnds[k]));
            }
            assert(is_row_done(run, n, hwnds));
        } else {
            if step is Read && m == top {
                assert(reads_window_at(run, n - 1, hwnds[before[m].index as int]));
            }
            assert(after[m].hwnds == before[m].hwnds);
            assert forall|k: int|
                0 <= k < after[m].index && k < hwnds.len() implies is_window_read_before(
                run,
                n,
                #[trigger] hwnds[k],
            ) by {
                if k < before[m].index {
                    assert(is_window_read_before(run, n - 1, hwnds[k]));
                }
            }
            assert(is_row_under_way(run, n, hwnds, m));
        }
    }
}

proof fn lemma_wanted(desktop: Desktop, run: Seq<RecordState>, n: int)
    requires
        desktop.is_run(run),
        0 <= n < run.len(),
    ensures
        run[n].wanted is Window ==> run[n].rows.len() > 0,
    decreases n,
{
    if n > 0 {
        lemma_wanted(desktop, run, n - 1);
        assert(desktop.proceeds(run[n - 1], run[n - 1 + 1]));
        lemma_turns(desktop, run[n - 1], run[n]);
    }
}

proof fn lemma_row(
    desktop: Desktop,
    run: Seq<RecordState>,
    first: int,
    n: int,
    hwnds: Seq<usize>,
)
    requires
        desktop.is_run(run),
        0 <= first <= n < run.len(),
        run[first].rows.len() > 0,
        run[first].rows.last().hwnds == hwnds,
        run[first].rows.last().index == 0,
    ensures
        is_row_done(run, n, hwnds) || exists|m: int|
            #[trigger] is_row_under_way(run, n, hwnds, m),
    decreases n,
{
    if n == first {
        assert(is_row_under_way(run, n, hwnds, run[n].rows.len() - 1));
    } else {
        lemma_row(desktop, run, first, n - 1, hwnds);
        lemma_wanted(desktop, run, n - 1);
        assert(desktop.proceeds(run[n - 1], run[n - 1 + 1]));
        lemma_turns(desktop, run[n - 1], run[n]);
        lemma_row_turns(run, n, hwnds);
    }
}

/// A query that is over has read every window on the desktop that it was given.
pub proof fn law_every_window_on_the_desktop_is_read(
    desktop: Desktop,
    hwnds: Seq<usize>,
    options: WindowQueryOptions,
    run: Seq<RecordState>,
    k: int,
)
    requires
        desktop.is_run(run),
        run[0] == RecordState::over(hwnds, options),
        run.last().next().1 is Done,
        0 <= k < hwnds.len(),
    ensures
        is_window_read_before(run, run.len() as int, hwnds[k]),
{
    let last = run.len() - 1;
    assert(run[0].rows.last().hwnds == hwnds);
    lemma_row(desktop, run, 0, last, hwnds);
    assert(run[last].rows.len() == 0);
    assert(is_window_read_before(run, last, hwnds[k]));
    lemma_window_still_read(run, last + 1);
}

/// A query or an expansion that is over has read every window under each window whose windows it
/// asked for.
pub proof fn law_every_listed_window_is_read(
    desktop: Desktop,
    run: Seq<RecordState>,
    i: int,
    hwnd: usize,
    k: int,
)
    requires
        desktop.is_run(run),
        run.last().next().1 is Done,
        0 <= i < run.len(),
        run[i].next().1 == (WindowStep::List { hwnd }),
        0 <= k < (desktop.trees)(hwnd).children.len(),
    ensures
        is_window_read_before(
            run,
            run.len() as int,
            (desktop.trees)(hwnd).children[k].window.hwnd,
        ),
{
    let last = run.len() - 1;
    let hwnds = desktop.children(hwnd);
    assert(i < last);
    assert(desktop.proceeds(run[i], run[i + 1]));
    lemma_row(desktop, run, i + 1, last, hwnds);
    assert(run[last].rows.len() == 0);
    assert(is_window_read_before(run, last, hwnds[k]));
    lemma_window_still_read(run, last + 1);
}

/// The windows of a list are read one by one; a list that has been gone through gives way to the one
/// above it, and with the last one the walk is over.
pub proof fn law_windows_are_gone_through_in_order(walk: RecordState)
    requires
        walk.wanted is Nothing,
    ensures
        walk.rows.len() == 0 <==> walk.next().1 is Done,
        walk.rows.len() > 0 ==> {
            let row = walk.rows.last();
            if row.index < row.hwnds.len() {
                &&& walk.next().1 == (WindowStep::Read { hwnd: row.hwnds[row.index as int] })
                &&& walk.next().0.rows == walk.rows
                &&& walk.next().0.out == walk.out
            } else {
                &&& walk.next().1 is Again
                &&& walk.next().0.rows == walk.rows.drop_last()
                &&& walk.next().0.out == walk.out
                &&& walk.next().0.wanted is Nothing
            }
        },
{
}

/// The id of a window that could not be read counts as used, and nothing else is changed by it. What a
/// window is asked about is the window that was read.
pub proof fn law_what_a_window_leaves_behind(
    walk: RecordState,
    window: ImplWindow,
    info: WindowNode,
)
    requires
        walk.rows.len() > 0,
    ensures
        ({
            let after = walk.after_failure(window);
            &&& after.out.records == walk.out.records
            &&& after.out.next_id == walk.out.next_id
            &&& forall|id: u32| #[trigger]
                after.out.used_ids.contains(id) <==> walk.out.used_ids.contains(id) || id
                    == window.window_id()
            &&& after.rows == walk.rows
            &&& after.wanted == walk.wanted
            &&& after.options == walk.options
        }),
        ({
            let after = walk.after_read(window, info);
            &&& after.rows.len() == walk.rows.len()
            &&& after.rows.drop_last() == walk.rows.drop_last()
            &&& after.rows.last().hwnds == walk.rows.last().hwnds
            &&& after.rows.last().index == walk.rows.last().index + 1
            &&& after.rows.last().parent_id == walk.rows.last().parent_id
            &&& after.options == walk.options
            &&& after.wanted matches Wanted::Children(above) ==> (above.hwnd == window.hwnd
                && above.id == info.id && above.pid == info.pid && above.app_name
                == info.app_name)
        }),
{
    assert(walk.after_read(window, info).rows.drop_last() =~= walk.rows.drop_last());
}

} // verus!
