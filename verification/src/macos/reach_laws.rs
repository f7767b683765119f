//! What a walk over elements reaches, and in which order.

use vstd::prelude::*;

use crate::macos::traversal;
use crate::macos::traversal::{Progress, Step, Visitor, Walk};
use crate::macos::traversal_laws;

verus! {

/// Whether an element is asked to be listed at step `i` of a walk.
pub open spec fn lists_at<A>(run: Seq<Progress<A>>, i: int, element: usize) -> bool {
    0 <= i < run.len() && run[i].walk.next().1 == (Step::List { element })
}

/// An element that has been read and is to be gone down under is listed next, as long as it is not too
/// deep and fewer than 1024 elements have been met.
pub proof fn law_element_is_listed_right_after_it_is_read(walk: Walk, tag: u32)
    requires
        walk.reading is Some,
        walk.levels.len() < walk.max_depth,
        walk.visited_count < 1024,
    ensures
        walk.after_read(Some(tag)).next().1 == (Step::List { element: walk.reading->0.element }),
{
}

/// The entries of a list are taken up one by one, from the first on. One that has been met is passed
/// over. Any other is read next, as what it is in the list: how many there are, which of them it is,
/// how deep it is, and what was said of the element above. Where 1024 elements have been met, the list
/// is left.
pub proof fn law_entries_are_taken_up_in_order(walk: Walk)
    requires
        walk.reading is None,
        walk.pending is None,
        walk.levels.len() > 0,
        walk.levels.len() <= usize::MAX,
        walk.levels.last().children.len() <= i32::MAX,
        walk.levels.last().index < walk.levels.last().children.len(),
    ensures
        ({
            let level = walk.levels.last();
            let element = level.children[level.index as int];
            let (after, step) = walk.next();
            if walk.visited.contains(element) {
                &&& step matches Step::Skipped { element: skipped, depth } && skipped == element
                    && depth + 1 == walk.levels.len()
                &&& after.levels.last().index == level.index + 1
                &&& after.levels.last().children == level.children
                &&& after.visited_count == walk.visited_count
            } else if walk.visited_count < 1024 {
                &&& step is Read
                &&& step->Read_0.element == element
                &&& step->Read_0.index == level.index
                &&& step->Read_0.siblings == level.children.len()
                &&& step->Read_0.depth + 1 == walk.levels.len()
                &&& step->Read_0.tag == level.tag
                &&& after.levels.last().index == level.index + 1
                &&& after.levels.last().children == level.children
                &&& after.visited == walk.visited.insert(element)
                &&& after.visited_count == walk.visited_count + 1
            } else {
                &&& step matches Step::Stopped { depth } && depth + 1 == walk.levels.len()
                &&& after.levels == walk.levels.drop_last()
            }
        }),
{
}

/// A list that is there is gone through from its first entry, with what was said of the element that
/// it is of; one that has been gone through gives way to the one above it.
pub proof fn law_lists_are_gone_through_from_the_first(walk: Walk, children: Seq<usize>)
    ensures
        walk.pending is Some ==> ({
            let after = walk.after_list(children);
            &&& after.levels.len() == walk.levels.len() + 1
            &&& after.levels.drop_last() == walk.levels
            &&& after.levels.last().children == children
            &&& after.levels.last().index == 0
            &&& after.levels.last().tag == walk.pending->0.tag
            &&& after.pending is None
        }),
        walk.reading is None && walk.pending is None && walk.levels.len() > 0
            && walk.levels.last().index >= walk.levels.last().children.len() ==> {
            &&& walk.next().1 is Again
            &&& walk.next().0.levels == walk.levels.drop_last()
        },
        walk.reading is None && walk.pending is None ==> (walk.next().1 is Done
            <==> walk.levels.len() == 0),
{
    assert(walk.after_list(children).levels.drop_last() =~= walk.levels);
}

/// A walk starts under its element, which counts as met, with nothing gone through.
pub proof fn law_how_a_walk_starts(element: usize, tag: u32, max_depth: nat)
    requires
        max_depth > 0,
    ensures
        ({
            let start = Walk::start(element, tag, max_depth);
            &&& start.next().1 == (Step::List { element })
            &&& start.pending->0.tag == tag
            &&& forall|other: usize| #[trigger] start.visited.contains(other) <==> other == element
            &&& start.visited_count == 1
            &&& start.levels.len() == 0
            &&& start.max_depth == max_depth
            &&& start.reading is None
        }),
{
}

/// Whether the entries of a list before one have been met, and the list is being gone through at the
/// place `m` of a stack.
spec fn is_under_way(walk: Walk, children: Seq<usize>, m: int) -> bool {
    &&& 0 <= m < walk.levels.len()
    &&& walk.levels[m].children == children
    &&& forall|k: int|
        0 <= k < walk.levels[m].index && k < children.len() ==> walk.visited.contains(
            #[trigger] children[k],
        )
}

/// Whether all entries of a list have been met.
spec fn is_done(walk: Walk, children: Seq<usize>) -> bool {
    forall|k: int| 0 <= k < children.len() ==> walk.visited.contains(#[trigger] children[k])
}

proof fn lemma_listed_is_kept<A>(
    lists: spec_fn(usize) -> Seq<usize>,
    visitor: Visitor<A>,
    before: Progress<A>,
    after: Progress<A>,
    children: Seq<usize>,
)
    requires
        traversal::proceeds(lists, visitor, before, after),
        before.walk.reading is None,
        after.walk.visited_count <= 1024,
        is_done(before.walk, children) || exists|m: int|
            #[trigger] is_under_way(before.walk, children, m),
    ensures
        is_done(after.walk, children) || exists|m: int|
            #[trigger] is_under_way(after.walk, children, m),
{
    let walk = before.walk;
    let (next, step) = walk.next();
    assert(walk.visited.subset_of(after.walk.visited));
    if is_done(walk, children) {
        assert forall|k: int| 0 <= k < children.len() implies after.walk.visited.contains(
            #[trigger] children[k],
        ) by {
            assert(walk.visited.contains(children[k]));
        }
        assert(is_done(after.walk, children));
    } else {
        let m = choose|m: int| #[trigger] is_under_way(walk, children, m);
        let top = walk.levels.len() - 1;
        if m < top || walk.pending is Some {
            assert(after.walk.levels[m] == walk.levels[m]);
            assert forall|k: int|
                0 <= k < after.walk.levels[m].index && k
                    < children.len() implies after.walk.visited.contains(#[trigger] children[k]) by {
                assert(walk.visited.contains(children[k]));
            }
            assert(is_under_way(after.walk, children, m));
        } else {
            let level = walk.levels.last();
            if level.index >= level.children.len() {
                assert forall|k: int| 0 <= k < children.len() implies after.walk.visited.contains(
                    #[trigger] children[k],
                ) by {
                    assert(walk.visited.contains(children[k]));
                }
                assert(is_done(after.walk, children));
            } else {
                assert(after.walk.levels[m].children == children);
                assert forall|k: int|
                    0 <= k < after.walk.levels[m].index && k
                        < children.len() implies after.walk.visited.contains(
                    #[trigger] children[k],
                ) by {
                    if k < level.index {
                        assert(walk.visited.contains(children[k]));
                    }
                }
                assert(is_under_way(after.walk, children, m));
            }
        }
    }
}

proof fn lemma_count_grows<A>(
    lists: spec_fn(usize) -> Seq<usize>,
    visitor: Visitor<A>,
    element: usize,
    tag: u32,
    max_depth: nat,
    run: Seq<Progress<A>>,
    i: int,
    j: int,
)
    requires
        traversal_laws::is_run(lists, visitor, element, tag, max_depth, run),
        0 <= i <= j < run.len(),
    ensures
        run[i].walk.visited_count <= run[j].walk.visited_count,
    decreases j,
{
    if i < j {
        lemma_count_grows(lists, visitor, element, tag, max_depth, run, i, j - 1);
        assert(traversal::proceeds(lists, visitor, run[j - 1], run[j - 1 + 1]));
    }
}

proof fn lemma_listed<A>(
    lists: spec_fn(usize) -> Seq<usize>,
    visitor: Visitor<A>,
    element: usize,
    tag: u32,
    max_depth: nat,
    run: Seq<Progress<A>>,
    i: int,
    j: int,
    listed: usize,
)
    requires
        traversal_laws::is_run(lists, visitor, element, tag, max_depth, run),
        lists_at(run, i, listed),
        i < j < run.len(),
        run.last().walk.visited_count <= 1024,
    ensures
        is_done(run[j].walk, lists(listed)) || exists|m: int|
            #[trigger] is_under_way(run[j].walk, lists(listed), m),
    decreases j,
{
    traversal_laws::lemma_never_reading(lists, visitor, element, tag, max_depth, run, j - 1);
    lemma_count_grows(lists, visitor, element, tag, max_depth, run, j, run.len() - 1);
    assert(traversal::proceeds(lists, visitor, run[j - 1], run[j - 1 + 1]));
    if j == i + 1 {
        let walk = run[j].walk;
        let m = walk.levels.len() - 1;
        assert(walk.levels[m].children == lists(listed));
        assert(is_under_way(walk, lists(listed), m));
    } else {
        lemma_listed(lists, visitor, element, tag, max_depth, run, i, j - 1, listed);
        lemma_listed_is_kept(lists, visitor, run[j - 1], run[j], lists(listed));
    }
}

/// A walk that is over, and has not met more elements than it may, has met every element under each
/// element that it listed.
pub proof fn law_everything_listed_is_met<A>(
    lists: spec_fn(usize) -> Seq<usize>,
    visitor: Visitor<A>,
    element: usize,
    tag: u32,
    max_depth: nat,
    run: Seq<Progress<A>>,
    i: int,
    listed: usize,
)
    requires
        traversal_laws::is_run(lists, visitor, element, tag, max_depth, run),
        run.last().walk.next().1 is Done,
        run.last().walk.visited_count <= 1024,
        lists_at(run, i, listed),
    ensures
        forall|k: int|
            0 <= k < lists(listed).len() ==> run.last().walk.visited.contains(
                #[trigger] lists(listed)[k],
            ),
{
    let last = run.len() - 1;
    traversal_laws::lemma_never_reading(lists, visitor, element, tag, max_depth, run, last);
    if i == last {
        assert(false);
    }
    lemma_listed(lists, visitor, element, tag, max_depth, run, i, last, listed);
    assert(run[last].walk.levels.len() == 0);
}

/// Whether an element is read at step `i` of a walk.
pub open spec fn reads_at<A>(run: Seq<Progress<A>>, i: int, element: usize) -> bool {
    0 <= i < run.len() && run[i].walk.next().1 is Read && run[i].walk.next().1->Read_0.element
        == element
}

/// Whether an element is read before step `n` of a walk.
pub open spec fn is_read_before<A>(run: Seq<Progress<A>>, n: int, element: usize) -> bool {
    exists|i: int| i < n && #[trigger] reads_at(run, i, element)
}

proof fn lemma_met_is_read<A>(
    lists: spec_fn(usize) -> Seq<usize>,
    visitor: Visitor<A>,
    element: usize,
    tag: u32,
    max_depth: nat,
    run: Seq<Progress<A>>,
    n: int,
    met: usize,
)
    requires
        traversal_laws::is_run(lists, visitor, element, tag, max_depth, run),
        0 <= n < run.len(),
        run[n].walk.visited_count <= 1024,
        run[n].walk.visited.contains(met),
    ensures
        met == element || is_read_before(run, n, met),
    decreases n,
{
    if n > 0 {
        assert(traversal::proceeds(lists, visitor, run[n - 1], run[n - 1 + 1]));
        lemma_count_grows(lists, visitor, element, tag, max_depth, run, n - 1, n);
        if run[n - 1].walk.visited.contains(met) {
            lemma_met_is_read(lists, visitor, element, tag, max_depth, run, n - 1, met);
            if met != element {
                let i = choose|i: int| i < n - 1 && #[trigger] reads_at(run, i, met);
                assert(reads_at(run, i, met));
            }
        } else {
            assert(reads_at(run, n - 1, met));
        }
    }
}

/// As long as a walk has not met more elements than it may, every element that it has met has been
/// read, but for the one that it started under.
pub proof fn law_everything_met_is_read<A>(
    lists: spec_fn(usize) -> Seq<usize>,
    visitor: Visitor<A>,
    element: usize,
    tag: u32,
    max_depth: nat,
    run: Seq<Progress<A>>,
    met: usize,
)
    requires
        traversal_laws::is_run(lists, visitor, element, tag, max_depth, run),
        run.last().walk.visited_count <= 1024,
        run.last().walk.visited.contains(met),
    ensures
        met == element || is_read_before(run, run.len() as int, met),
{
    let last = run.len() - 1;
    lemma_met_is_read(lists, visitor, element, tag, max_depth, run, last, met);
    if met != element {
        let i = choose|i: int| i < last && #[trigger] reads_at(run, i, met);
        assert(reads_at(run, i, met));
    }
}

} // verus!
