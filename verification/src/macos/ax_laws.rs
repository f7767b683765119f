//! What walks over the elements of a window come to.

use vstd::prelude::*;

use crate::macos::accessibility;
use crate::macos::accessibility::{AxContext, AxNode, AxOut};
use crate::macos::traversal;
use crate::macos::traversal::{Progress, Step, Walk, MAX_AX_NODES_PER_WINDOW};
use crate::rooted;
use crate::tree_laws;

verus! {

/// Whether the records have the ids from `first_id` on, one after the other, and stand under `root`
/// or under a record before them.
pub open spec fn are_numbered(out: AxOut, root: u32, first_id: u32) -> bool {
    &&& out.next_id == first_id + out.records.len()
    &&& forall|i: int|
        0 <= i < out.records.len() ==> (#[trigger] out.records[i]).info.id == first_id + i
    &&& rooted::are_rooted(out.records, Some(root))
}

/// Whether `run` is a walk under an element from its start, step by step.
pub open spec fn is_run(
    lists: spec_fn(usize) -> Seq<usize>,
    elements: spec_fn(usize) -> AxNode,
    context: AxContext,
    element: usize,
    root: u32,
    first_id: u32,
    run: Seq<Progress<AxOut>>,
) -> bool {
    let max_depth = accessibility::depth_limit(context.options);
    let visitor = accessibility::ax_visitor(context, elements);
    &&& forall|element: usize| (#[trigger] lists(element)).len() <= i32::MAX
    &&& run.len() > 0
    &&& run[0] == (Progress {
        walk: Walk::start(element, root, max_depth),
        out: AxOut { records: Seq::empty(), next_id: first_id },
    })
    &&& forall|i: int|
        0 <= i < run.len() - 1 ==> traversal::proceeds(
            lists,
            visitor,
            #[trigger] run[i],
            run[i + 1],
        )
}

spec fn is_sound(progress: Progress<AxOut>, root: u32, first_id: u32) -> bool {
    let walk = progress.walk;
    let records = progress.out.records;
    &&& walk.visited_count >= 1
    &&& records.len() < MAX_AX_NODES_PER_WINDOW
    &&& walk.visited_count <= MAX_AX_NODES_PER_WINDOW ==> records.len() + 1 + (
    if walk.reading is Some {
        1int
    } else {
        0int
    }) <= walk.visited_count
    &&& walk.reading is Some ==> walk.visited_count <= MAX_AX_NODES_PER_WINDOW
    &&& are_numbered(progress.out, root, first_id)
    &&& walk.pending matches Some(target) ==> rooted::is_rooted(
        records,
        Some(root),
        Some(target.tag),
    )
    &&& walk.reading matches Some(reading) ==> rooted::is_rooted(
        records,
        Some(root),
        Some(reading.tag),
    )
    &&& forall|i: int|
        0 <= i < walk.levels.len() ==> rooted::is_rooted(
            records,
            Some(root),
            Some((#[trigger] walk.levels[i]).tag),
        )
}

proof fn lemma_proceeds(
    lists: spec_fn(usize) -> Seq<usize>,
    elements: spec_fn(usize) -> AxNode,
    context: AxContext,
    before: Progress<AxOut>,
    after: Progress<AxOut>,
    root: u32,
    first_id: u32,
)
    requires
        first_id + MAX_AX_NODES_PER_WINDOW <= u32::MAX,
        is_sound(before, root, first_id),
        traversal::proceeds(lists, accessibility::ax_visitor(context, elements), before, after),
    ensures
        is_sound(after, root, first_id),
{
    let (walk, step) = before.walk.next();
    let levels = before.walk.levels;
    let records = before.out.records;
    assert forall|i: int| 0 <= i < walk.levels.len() implies rooted::is_rooted(
        records,
        Some(root),
        Some((#[trigger] walk.levels[i]).tag),
    ) by {
        assert(walk.levels[i].tag == levels[i].tag);
    }
    match step {
        Step::List { element } => {
            assert forall|i: int| 0 <= i < after.walk.levels.len() implies rooted::is_rooted(
                records,
                Some(root),
                Some((#[trigger] after.walk.levels[i]).tag),
            ) by {
                if i < levels.len() {
                    assert(after.walk.levels[i] == levels[i]);
                }
            }
        },
        Step::Read(reading) => {
            if before.walk.reading is None {
                assert(levels[levels.len() - 1].tag == reading.tag);
            }
            if after.out.records.len() > records.len() {
                let added = seq![after.out.records.last()];
                assert(after.out.records =~= records + added);
                assert(added.take(0) =~= Seq::empty());
                assert(records + added.take(0) =~= records);
                rooted::lemma_rooted_more(records, added, Some(root));
                assert(crate::window::known(after.out.records, before.out.next_id)) by {
                    assert(after.out.records[records.len() as int].info.id == before.out.next_id);
                }
            }
        },
        _ => {},
    }
}

proof fn lemma_run(
    lists: spec_fn(usize) -> Seq<usize>,
    elements: spec_fn(usize) -> AxNode,
    context: AxContext,
    element: usize,
    root: u32,
    first_id: u32,
    run: Seq<Progress<AxOut>>,
    i: int,
)
    requires
        first_id + MAX_AX_NODES_PER_WINDOW <= u32::MAX,
        is_run(lists, elements, context, element, root, first_id, run),
        0 <= i < run.len(),
    ensures
        is_sound(run[i], root, first_id),
    decreases i,
{
    if i > 0 {
        lemma_run(lists, elements, context, element, root, first_id, run, i - 1);
        let visitor = accessibility::ax_visitor(context, elements);
        assert(traversal::proceeds(lists, visitor, run[i - 1], run[i - 1 + 1]));
        lemma_proceeds(lists, elements, context, run[i - 1], run[i], root, first_id);
    }
}

/// At any time of a walk there are fewer records than elements may be visited; they have the ids
/// from the first on, one after the other; and each stands under the window or under a record
/// before it.
pub proof fn law_descendants_are_numbered(
    lists: spec_fn(usize) -> Seq<usize>,
    elements: spec_fn(usize) -> AxNode,
    context: AxContext,
    element: usize,
    root: u32,
    first_id: u32,
    run: Seq<Progress<AxOut>>,
)
    requires
        first_id + MAX_AX_NODES_PER_WINDOW <= u32::MAX,
        is_run(lists, elements, context, element, root, first_id, run),
    ensures
        run.last().out.records.len() < MAX_AX_NODES_PER_WINDOW,
        are_numbered(run.last().out, root, first_id),
        tree_laws::distinct_ids(run.last().out.records),
{
    lemma_run(lists, elements, context, element, root, first_id, run, run.len() - 1);
}

/// A walk that is over has made the records that going down the tree from the element makes.
pub proof fn law_descendants_are_gathered(
    lists: spec_fn(usize) -> Seq<usize>,
    elements: spec_fn(usize) -> AxNode,
    context: AxContext,
    element: usize,
    root: u32,
    first_id: u32,
    run: Seq<Progress<AxOut>>,
)
    requires
        is_run(lists, elements, context, element, root, first_id, run),
        run.last().walk.next().1 is Done,
    ensures
        run.last().out == traversal::gather(
            lists,
            accessibility::ax_visitor(context, elements),
            accessibility::depth_limit(context.options),
            traversal::Gathered {
                visited: set![element],
                visited_count: 1,
                out: AxOut { records: Seq::empty(), next_id: first_id },
            },
            traversal::Target { element, tag: root },
            0,
        ).out,
{
    traversal::law_walk_gathers_the_tree(
        lists,
        accessibility::ax_visitor(context, elements),
        element,
        root,
        accessibility::depth_limit(context.options),
        run[0].out,
        run,
    );
}

/// A walk that is over has written the lines that going down the tree from the element writes: one
/// for each element, one for each that was seen before, and one where the limit was reached.
pub proof fn law_debug_lines_are_gathered(
    lists: spec_fn(usize) -> Seq<usize>,
    elements: spec_fn(usize) -> AxNode,
    element: usize,
    first: Seq<Seq<char>>,
    run: Seq<Progress<Seq<Seq<char>>>>,
)
    requires
        forall|element: usize| (#[trigger] lists(element)).len() <= i32::MAX,
        run.len() > 0,
        run[0] == (Progress {
            walk: Walk::start(element, 0, accessibility::DEEP_MAX_AX_DEPTH as nat),
            out: first,
        }),
        forall|i: int|
            0 <= i < run.len() - 1 ==> traversal::proceeds(
                lists,
                accessibility::debug_visitor(elements),
                #[trigger] run[i],
                run[i + 1],
            ),
        run.last().walk.next().1 is Done,
    ensures
        run.last().out == traversal::gather(
            lists,
            accessibility::debug_visitor(elements),
            accessibility::DEEP_MAX_AX_DEPTH as nat,
            traversal::Gathered { visited: set![element], visited_count: 1, out: first },
            traversal::Target { element, tag: 0 },
            0,
        ).out,
{
    traversal::law_walk_gathers_the_tree(
        lists,
        accessibility::debug_visitor(elements),
        element,
        0,
        accessibility::DEEP_MAX_AX_DEPTH as nat,
        first,
        run,
    );
}

} // verus!
