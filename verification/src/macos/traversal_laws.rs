//! The limits that walks over elements keep, and that every walk comes to an end.

use vstd::prelude::*;

use crate::macos::traversal;
use crate::macos::traversal::{Level, Progress, Step, Visitor, Walk, MAX_AX_NODES_PER_WINDOW};

verus! {

/// Whether `run` is a walk under an element from its start, step by step.
pub open spec fn is_run<A>(
    lists: spec_fn(usize) -> Seq<usize>,
    visitor: Visitor<A>,
    element: usize,
    tag: u32,
    max_depth: nat,
    run: Seq<Progress<A>>,
) -> bool {
    &&& max_depth + MAX_AX_NODES_PER_WINDOW <= usize::MAX
    &&& forall|element: usize| (#[trigger] lists(element)).len() <= i32::MAX
    &&& run.len() > 0
    &&& run[0].walk == Walk::start(element, tag, max_depth)
    &&& forall|i: int|
        0 <= i < run.len() - 1 ==> traversal::proceeds(
            lists,
            visitor,
            #[trigger] run[i],
            run[i + 1],
        )
}

/// How many steps a walk under an element takes at most.
pub open spec fn steps_under(
    lists: spec_fn(usize) -> Seq<usize>,
    max_depth: nat,
    element: usize,
    depth: nat,
) -> nat
    decreases 2 * (max_depth - depth) + 1, 0nat,
{
    if depth >= max_depth {
        1
    } else {
        1 + steps_in(lists, max_depth, lists(element), 0, depth)
    }
}

/// How many steps a walk over the rest of a list takes at most.
pub open spec fn steps_in(
    lists: spec_fn(usize) -> Seq<usize>,
    max_depth: nat,
    children: Seq<usize>,
    index: nat,
    depth: nat,
) -> nat
    decreases 2 * (max_depth - depth), children.len() - index,
{
    if index >= children.len() || depth >= max_depth {
        1
    } else {
        2 + steps_under(lists, max_depth, children[index as int], depth + 1) + steps_in(
            lists,
            max_depth,
            children,
            index + 1,
            depth,
        )
    }
}

spec fn steps_over(
    lists: spec_fn(usize) -> Seq<usize>,
    max_depth: nat,
    levels: Seq<Level>,
) -> nat
    decreases levels.len(),
{
    if levels.len() == 0 {
        0
    } else {
        steps_in(
            lists,
            max_depth,
            levels.last().children,
            levels.last().index,
            (levels.len() - 1) as nat,
        ) + steps_over(lists, max_depth, levels.drop_last())
    }
}

spec fn steps_left(lists: spec_fn(usize) -> Seq<usize>, walk: Walk) -> nat {
    let here = match walk.pending {
        Some(target) => steps_under(lists, walk.max_depth, target.element, walk.levels.len()),
        None => 0,
    };
    let read = match walk.reading {
        Some(reading) => 1 + steps_under(
            lists,
            walk.max_depth,
            reading.element,
            walk.levels.len(),
        ),
        None => 0,
    };
    here + read + steps_over(lists, walk.max_depth, walk.levels)
}

proof fn lemma_proceeds<A>(
    lists: spec_fn(usize) -> Seq<usize>,
    visitor: Visitor<A>,
    before: Progress<A>,
    after: Progress<A>,
)
    requires
        forall|element: usize| (#[trigger] lists(element)).len() <= i32::MAX,
        before.walk.well_formed(),
        traversal::proceeds(lists, visitor, before, after),
    ensures
        after.walk.well_formed(),
        after.walk.max_depth == before.walk.max_depth,
        before.walk.visited.subset_of(after.walk.visited),
        steps_left(lists, after.walk) < steps_left(lists, before.walk),
{
    let walk = before.walk;
    let levels = walk.levels;
    if walk.reading is Some {
    } else if walk.pending is Some {
        let pushed = walk.after_list(lists(walk.pending->0.element)).levels;
        assert(pushed.drop_last() =~= levels);
    } else if levels.len() > 0 {
        let advanced = walk.advanced().levels;
        assert(advanced.drop_last() =~= levels.drop_last());
        assert(levels[levels.len() - 1].children.len() <= i32::MAX);
        assert forall|i: int| 0 <= i < advanced.len() implies (
        #[trigger] advanced[i]).children.len() <= i32::MAX by {
            assert(advanced[i].children == levels[i].children);
        }
    }
}

proof fn lemma_run<A>(
    lists: spec_fn(usize) -> Seq<usize>,
    visitor: Visitor<A>,
    element: usize,
    tag: u32,
    max_depth: nat,
    run: Seq<Progress<A>>,
    i: int,
)
    requires
        is_run(lists, visitor, element, tag, max_depth, run),
        0 <= i < run.len(),
    ensures
        run[i].walk.well_formed(),
        run[i].walk.max_depth == max_depth,
        i + steps_left(lists, run[i].walk) <= steps_left(lists, run[0].walk),
    decreases i,
{
    if i > 0 {
        lemma_run(lists, visitor, element, tag, max_depth, run, i - 1);
        assert(traversal::proceeds(lists, visitor, run[i - 1], run[i - 1 + 1]));
        lemma_proceeds(lists, visitor, run[i - 1], run[i]);
    }
}

proof fn lemma_seen<A>(
    lists: spec_fn(usize) -> Seq<usize>,
    visitor: Visitor<A>,
    element: usize,
    tag: u32,
    max_depth: nat,
    run: Seq<Progress<A>>,
    i: int,
    j: int,
)
    requires
        is_run(lists, visitor, element, tag, max_depth, run),
        0 <= i <= j < run.len(),
    ensures
        run[i].walk.visited.subset_of(run[j].walk.visited),
    decreases j,
{
    if i < j {
        lemma_seen(lists, visitor, element, tag, max_depth, run, i, j - 1);
        lemma_run(lists, visitor, element, tag, max_depth, run, j - 1);
        assert(traversal::proceeds(lists, visitor, run[j - 1], run[j - 1 + 1]));
        lemma_proceeds(lists, visitor, run[j - 1], run[j]);
    }
}

/// Every walk comes to an end, whatever it is told: it takes no more steps than the lists allow.
pub proof fn law_walk_ends<A>(
    lists: spec_fn(usize) -> Seq<usize>,
    visitor: Visitor<A>,
    element: usize,
    tag: u32,
    max_depth: nat,
    run: Seq<Progress<A>>,
)
    requires
        is_run(lists, visitor, element, tag, max_depth, run),
    ensures
        run.len() <= 1 + steps_under(lists, max_depth, element, 0),
{
    lemma_run(lists, visitor, element, tag, max_depth, run, run.len() - 1);
}

/// No element is read that lies deeper than it may.
pub proof fn law_walk_keeps_its_depth<A>(
    lists: spec_fn(usize) -> Seq<usize>,
    visitor: Visitor<A>,
    element: usize,
    tag: u32,
    max_depth: nat,
    run: Seq<Progress<A>>,
)
    requires
        is_run(lists, visitor, element, tag, max_depth, run),
    ensures
        run.last().walk.next().1 matches Step::Read(reading) ==> reading.depth < max_depth,
{
    lemma_run(lists, visitor, element, tag, max_depth, run, run.len() - 1);
}

/// No element is read twice in a walk, and the one that it started under is not read at all.
pub proof fn law_no_element_is_read_twice<A>(
    lists: spec_fn(usize) -> Seq<usize>,
    visitor: Visitor<A>,
    element: usize,
    tag: u32,
    max_depth: nat,
    run: Seq<Progress<A>>,
    i: int,
    j: int,
)
    requires
        is_run(lists, visitor, element, tag, max_depth, run),
        0 <= i < j < run.len(),
        run[i].walk.next().1 is Read,
        run[j].walk.next().1 is Read,
    ensures
        run[i].walk.next().1->Read_0.element != run[j].walk.next().1->Read_0.element,
        run[i].walk.next().1->Read_0.element != element,
{
    assert(traversal::proceeds(lists, visitor, run[i], run[i + 1]));
    lemma_never_reading(lists, visitor, element, tag, max_depth, run, i);
    lemma_never_reading(lists, visitor, element, tag, max_depth, run, j);
    lemma_seen(lists, visitor, element, tag, max_depth, run, i + 1, j);
    lemma_seen(lists, visitor, element, tag, max_depth, run, 0, i);
    assert(run[0].walk.visited.contains(element));
}

/// Between steps nothing is being read.
pub proof fn lemma_never_reading<A>(
    lists: spec_fn(usize) -> Seq<usize>,
    visitor: Visitor<A>,
    element: usize,
    tag: u32,
    max_depth: nat,
    run: Seq<Progress<A>>,
    i: int,
)
    requires
        is_run(lists, visitor, element, tag, max_depth, run),
        0 <= i < run.len(),
    ensures
        run[i].walk.reading is None,
    decreases i,
{
    if i > 0 {
        lemma_never_reading(lists, visitor, element, tag, max_depth, run, i - 1);
        assert(traversal::proceeds(lists, visitor, run[i - 1], run[i - 1 + 1]));
    }
}

} // verus!
