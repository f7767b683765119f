//! What walks over UI automation elements come to.

use vstd::prelude::*;

use crate::window::Found;
use crate::windows::accessibility;
use crate::windows::accessibility::{
    Descent, ElementList, UiaContext, UiaNode, UiaOut, UiaState, UiaStep,
    MAX_UIA_NODES_PER_WINDOW,
};
use crate::windows::uia_probe;
use crate::windows::uia_probe::{Collected, ProbeState};

verus! {

/// A list of elements by the number that it is known by, and its length.
pub struct Listing {
    pub list: usize,
    pub length: i32,
}

/// An element by the number that it is known by, and what could be read of it.
pub struct Element {
    pub number: usize,
    pub node: UiaNode,
}

/// What there is to be listed and read. What is not there cannot be had.
pub struct UiaWorld {
    pub lists: spec_fn(usize) -> Option<Listing>,
    pub elements: spec_fn(usize, i32) -> Option<Element>,
}

/// What is gathered under an element whose list would be the `depth`th of a stack. None where
/// something cannot be had.
pub open spec fn gather(
    world: UiaWorld,
    context: UiaContext,
    out: UiaOut,
    target: Descent,
    depth: nat,
) -> Option<UiaOut>
    decreases 2 * (accessibility::depth_limit(context.options) - depth) + 1, 0int,
{
    if depth >= accessibility::depth_limit(context.options) || out.records.len()
        >= MAX_UIA_NODES_PER_WINDOW {
        Some(out)
    } else {
        match (world.lists)(target.element) {
            None => None,
            Some(listing) => gather_list(
                world,
                context,
                out,
                ElementList {
                    list: listing.list,
                    length: listing.length,
                    index: 0,
                    parent_id: target.parent_id,
                },
                depth,
            ),
        }
    }
}

/// What is gathered from the rest of a list that is the `depth`th of a stack. None where something
/// cannot be had.
pub open spec fn gather_list(
    world: UiaWorld,
    context: UiaContext,
    out: UiaOut,
    list: ElementList,
    depth: nat,
) -> Option<UiaOut>
    decreases 2 * (accessibility::depth_limit(context.options) - depth), list.length - list.index,
{
    if list.index >= list.length || out.records.len() >= MAX_UIA_NODES_PER_WINDOW || depth
        >= accessibility::depth_limit(context.options) {
        Some(out)
    } else {
        match (world.elements)(list.list, list.index) {
            None => None,
            Some(element) => {
                let rest = ElementList { index: (list.index + 1) as i32, ..list };
                let (here, descend) = accessibility::uia_visit(
                    context,
                    out,
                    element.node,
                    list.parent_id,
                    list.length - list.index - 1,
                );
                let below = match descend {
                    None => Some(here),
                    Some(parent_id) => gather(
                        world,
                        context,
                        here,
                        Descent { element: element.number, parent_id },
                        depth + 1,
                    ),
                };
                match below {
                    None => None,
                    Some(below) => gather_list(world, context, below, rest, depth),
                }
            },
        }
    }
}

/// Whether `after` follows `before` when the next step is done as it should be.
pub open spec fn proceeds(world: UiaWorld, before: UiaState, after: UiaState) -> bool {
    let (walk, step) = before.next();
    match step {
        UiaStep::Again => after == walk,
        UiaStep::List { element } => match (world.lists)(element) {
            None => false,
            Some(listing) => after == walk.after_list(listing.list, listing.length),
        },
        UiaStep::Read { list, index } => match (world.elements)(list, index) {
            None => false,
            Some(element) => after == walk.after_read(element.number, element.node),
        },
        UiaStep::Done => false,
    }
}

/// Whether the next step asks for what cannot be had.
pub open spec fn is_refused(world: UiaWorld, walk: UiaState) -> bool {
    match walk.next().1 {
        UiaStep::List { element } => (world.lists)(element) is None,
        UiaStep::Read { list, index } => (world.elements)(list, index) is None,
        _ => false,
    }
}

/// Whether `run` is a walk under an element from its start, step by step.
pub open spec fn is_run(
    world: UiaWorld,
    context: UiaContext,
    element: usize,
    parent_id: u32,
    next_id: u32,
    used_ids: Set<u32>,
    run: Seq<UiaState>,
) -> bool {
    &&& used_ids.finite()
    &&& used_ids.len() + MAX_UIA_NODES_PER_WINDOW < 0x1_0000_0000
    &&& run.len() > 0
    &&& run[0] == UiaState::start(context, element, parent_id, next_id, used_ids)
    &&& forall|i: int| 0 <= i < run.len() - 1 ==> proceeds(world, #[trigger] run[i], run[i + 1])
}

/// What is gathered from the rest of a stack of lists, the innermost first.
spec fn gather_stack(
    world: UiaWorld,
    context: UiaContext,
    out: UiaOut,
    lists: Seq<ElementList>,
) -> Option<UiaOut>
    decreases lists.len(),
{
    if lists.len() == 0 {
        Some(out)
    } else {
        match gather_list(world, context, out, lists.last(), (lists.len() - 1) as nat) {
            None => None,
            Some(out) => gather_stack(world, context, out, lists.drop_last()),
        }
    }
}

/// What a walk will have gathered when it is over.
spec fn outlook(world: UiaWorld, walk: UiaState) -> Option<UiaOut> {
    let here = match walk.pending {
        None => Some(walk.out),
        Some(target) => gather(world, walk.context, walk.out, target, walk.lists.len()),
    };
    match here {
        None => None,
        Some(out) => gather_stack(world, walk.context, out, walk.lists),
    }
}

/// Whether `id` is `root` or that of one of the records.
pub open spec fn is_known(records: Seq<Found>, root: u32, id: u32) -> bool {
    id == root || exists|i: int| 0 <= i < records.len() && (#[trigger] records[i]).info.id == id
}

/// Whether the records have ids of their own, none of which was in use before, and stand under
/// `root` or under a record before them; and whether the ids in use are those and no others.
pub open spec fn is_sound(out: UiaOut, root: u32, used_ids: Set<u32>) -> bool {
    &&& out.records.len() <= MAX_UIA_NODES_PER_WINDOW
    &&& out.used_ids.finite()
    &&& out.used_ids.len() == used_ids.len() + out.records.len()
    &&& forall|id: u32| #[trigger]
        out.used_ids.contains(id) <==> used_ids.contains(id) || exists|i: int|
            0 <= i < out.records.len() && (#[trigger] out.records[i]).info.id == id
    &&& forall|i: int|
        0 <= i < out.records.len() ==> !used_ids.contains((#[trigger] out.records[i]).info.id)
    &&& forall|i: int, j: int|
        0 <= i < j < out.records.len() ==> (#[trigger] out.records[i]).info.id != (
        #[trigger] out.records[j]).info.id
    &&& forall|i: int|
        0 <= i < out.records.len() ==> ((#[trigger] out.records[i]).parent_id matches Some(parent)
            && is_known(out.records.take(i), root, parent))
}

/// Whether the records have the process and the application of the window that they are gathered
/// under.
pub open spec fn belong_to(records: Seq<Found>, context: UiaContext) -> bool {
    forall|i: int|
        0 <= i < records.len() ==> (#[trigger] records[i]).info.pid == context.root_pid
            && records[i].info.app_name == context.root_app_name
}

/// Whether a walk has gathered soundly, and would record what it looks at next under something
/// known.
spec fn is_sound_walk(walk: UiaState, root: u32, used_ids: Set<u32>) -> bool {
    &&& walk.well_formed()
    &&& is_sound(walk.out, root, used_ids)
    &&& belong_to(walk.out.records, walk.context)
    &&& walk.pending matches Some(target) ==> is_known(walk.out.records, root, target.parent_id)
    &&& forall|i: int|
        0 <= i < walk.lists.len() ==> is_known(
            walk.out.records,
            root,
            (#[trigger] walk.lists[i]).parent_id,
        )
}

proof fn lemma_visit(
    context: UiaContext,
    out: UiaOut,
    node: UiaNode,
    parent_id: u32,
    z: int,
    root: u32,
    used_ids: Set<u32>,
)
    requires
        is_sound(out, root, used_ids),
        belong_to(out.records, context),
        is_known(out.records, root, parent_id),
        out.records.len() < MAX_UIA_NODES_PER_WINDOW,
        used_ids.finite(),
        used_ids.len() + MAX_UIA_NODES_PER_WINDOW < 0x1_0000_0000,
    ensures
        ({
            let (after, descend) = accessibility::uia_visit(context, out, node, parent_id, z);
            &&& is_sound(after, root, used_ids)
            &&& belong_to(after.records, context)
            &&& forall|id: u32|
                is_known(out.records, root, id) ==> #[trigger] is_known(after.records, root, id)
            &&& descend matches Some(id) ==> is_known(after.records, root, id)
        }),
{
    let (after, descend) = accessibility::uia_visit(context, out, node, parent_id, z);
    if after.records.len() > out.records.len() {
        accessibility::lemma_free_id_exists(out.used_ids);
        accessibility::lemma_free_id_is_unused(out.next_id, out.used_ids);
        let id = accessibility::free_id(out.next_id, out.used_ids);
        let count = out.records.len() as int;
        assert(after.records[count].info.id == id);
        assert forall|i: int| 0 <= i < count implies #[trigger] after.records[i]
            == out.records[i] by {}
        assert forall|x: u32| #[trigger]
            after.used_ids.contains(x) <==> used_ids.contains(x) || exists|i: int|
                0 <= i < after.records.len() && (#[trigger] after.records[i]).info.id == x by {
            if out.used_ids.contains(x) && !used_ids.contains(x) {
                let i = choose|i: int|
                    0 <= i < out.records.len() && (#[trigger] out.records[i]).info.id == x;
                assert(after.records[i].info.id == x);
            }
            if exists|i: int|
                0 <= i < after.records.len() && (#[trigger] after.records[i]).info.id == x {
                let i = choose|i: int|
                    0 <= i < after.records.len() && (#[trigger] after.records[i]).info.id == x;
                if i < count {
                    assert(out.records[i].info.id == x);
                }
            }
        }
        assert forall|i: int| 0 <= i < after.records.len() implies ((
        #[trigger] after.records[i]).parent_id matches Some(parent) && is_known(
            after.records.take(i),
            root,
            parent,
        )) by {
            if i < count {
                assert(out.records[i].parent_id is Some);
                assert(after.records.take(i) =~= out.records.take(i));
            } else {
                assert(after.records.take(i) =~= out.records);
            }
        }
        assert forall|x: u32| is_known(out.records, root, x) implies #[trigger] is_known(
            after.records,
            root,
            x,
        ) by {
            if x != root {
                let i = choose|i: int|
                    0 <= i < out.records.len() && (#[trigger] out.records[i]).info.id == x;
                assert(after.records[i].info.id == x);
            }
        }
    }
}

proof fn lemma_proceeds(
    world: UiaWorld,
    before: UiaState,
    after: UiaState,
    root: u32,
    used_ids: Set<u32>,
)
    requires
        used_ids.finite(),
        used_ids.len() + MAX_UIA_NODES_PER_WINDOW < 0x1_0000_0000,
        is_sound_walk(before, root, used_ids),
        proceeds(world, before, after),
    ensures
        is_sound_walk(after, root, used_ids),
        after.context == before.context,
        outlook(world, after) == outlook(world, before),
{
    let (walk, step) = before.next();
    let lists = before.lists;
    match step {
        UiaStep::Again => {},
        UiaStep::List { element } => {
            assert(after.lists.drop_last() =~= lists);
        },
        UiaStep::Read { .. } => {
            let list = lists.last();
            let element = (world.elements)(list.list, list.index)->0;
            assert(is_known(before.out.records, root, lists[lists.len() - 1].parent_id));
            lemma_visit(
                before.context,
                before.out,
                element.node,
                list.parent_id,
                list.length - list.index - 1,
                root,
                used_ids,
            );
            assert(after.lists.drop_last() =~= lists.drop_last());
        },
        UiaStep::Done => {},
    }
}

proof fn lemma_run(
    world: UiaWorld,
    context: UiaContext,
    element: usize,
    parent_id: u32,
    next_id: u32,
    used_ids: Set<u32>,
    run: Seq<UiaState>,
    i: int,
)
    requires
        is_run(world, context, element, parent_id, next_id, used_ids, run),
        0 <= i < run.len(),
    ensures
        is_sound_walk(run[i], parent_id, used_ids),
        run[i].context == context,
        outlook(world, run[i]) == outlook(world, run[0]),
    decreases i,
{
    if i > 0 {
        lemma_run(world, context, element, parent_id, next_id, used_ids, run, i - 1);
        assert(proceeds(world, run[i - 1], run[i - 1 + 1]));
        lemma_proceeds(world, run[i - 1], run[i], parent_id, used_ids);
    }
}

/// A walk that is over has gathered what is gathered by going down the tree from the element that
/// it started under. A walk is refused what it asks for only where going down the tree fails too.
pub proof fn law_uia_walk_gathers_the_tree(
    world: UiaWorld,
    context: UiaContext,
    element: usize,
    parent_id: u32,
    next_id: u32,
    used_ids: Set<u32>,
    run: Seq<UiaState>,
)
    requires
        is_run(world, context, element, parent_id, next_id, used_ids, run),
    ensures
        ({
            let start = UiaOut { records: Seq::empty(), next_id, used_ids, seen: Set::empty() };
            let all = gather(world, context, start, Descent { element, parent_id }, 0);
            &&& run.last().next().1 is Done ==> all == Some(run.last().out)
            &&& is_refused(world, run.last()) ==> all is None
        }),
{
    lemma_run(world, context, element, parent_id, next_id, used_ids, run, run.len() - 1);
    let start = UiaOut { records: Seq::empty(), next_id, used_ids, seen: Set::empty() };
    let all = gather(world, context, start, Descent { element, parent_id }, 0);
    let last = run.last();
    match all {
        None => {},
        Some(out) => {
            assert(gather_stack(world, context, out, run[0].lists) == Some(out));
        },
    }
    assert(outlook(world, run[0]) == all);
    assert(outlook(world, last) == all);
}

/// At any time of a walk there are at most as many records as are allowed; they have ids of their
/// own that were not in use before; each has the process and the application of the window, and
/// stands under the window or under a record before it; and the ids in use are those of before and
/// those of the records.
pub proof fn law_uia_records_are_sound(
    world: UiaWorld,
    context: UiaContext,
    element: usize,
    parent_id: u32,
    next_id: u32,
    used_ids: Set<u32>,
    run: Seq<UiaState>,
)
    requires
        is_run(world, context, element, parent_id, next_id, used_ids, run),
    ensures
        is_sound(run.last().out, parent_id, used_ids),
        belong_to(run.last().out.records, context),
{
    lemma_run(world, context, element, parent_id, next_id, used_ids, run, run.len() - 1);
}

/// How many steps a walk under an element takes at most, when its list would be the `depth`th of a
/// stack.
pub open spec fn steps_under(
    world: UiaWorld,
    context: UiaContext,
    element: usize,
    depth: nat,
) -> nat
    decreases 2 * (accessibility::depth_limit(context.options) - depth) + 1, 0int,
{
    if depth >= accessibility::depth_limit(context.options) {
        1
    } else {
        match (world.lists)(element) {
            None => 1,
            Some(listing) => 1 + steps_in(world, context, listing, 0, depth),
        }
    }
}

/// How many steps a walk over the rest of a list takes at most.
pub open spec fn steps_in(
    world: UiaWorld,
    context: UiaContext,
    listing: Listing,
    index: int,
    depth: nat,
) -> nat
    decreases 2 * (accessibility::depth_limit(context.options) - depth), listing.length - index,
{
    if index >= listing.length || depth >= accessibility::depth_limit(context.options) {
        1
    } else {
        let here = match (world.elements)(listing.list, index as i32) {
            None => 0,
            Some(element) => steps_under(world, context, element.number, depth + 1),
        };
        1 + here + steps_in(world, context, listing, index + 1, depth)
    }
}

spec fn steps_over(world: UiaWorld, context: UiaContext, lists: Seq<ElementList>) -> nat
    decreases lists.len(),
{
    if lists.len() == 0 {
        0
    } else {
        let list = lists.last();
        steps_in(
            world,
            context,
            Listing { list: list.list, length: list.length },
            list.index as int,
            (lists.len() - 1) as nat,
        ) + steps_over(world, context, lists.drop_last())
    }
}

spec fn steps_left(world: UiaWorld, walk: UiaState) -> nat {
    let here = match walk.pending {
        Some(target) => steps_under(world, walk.context, target.element, walk.lists.len()),
        None => 0,
    };
    here + steps_over(world, walk.context, walk.lists)
}

proof fn lemma_steps(world: UiaWorld, before: UiaState, after: UiaState)
    requires
        before.well_formed(),
        proceeds(world, before, after),
    ensures
        steps_left(world, after) < steps_left(world, before),
{
    let (walk, step) = before.next();
    match step {
        UiaStep::List { .. } => {
            assert(after.lists.drop_last() =~= before.lists);
        },
        UiaStep::Read { .. } => {
            assert(after.lists.drop_last() =~= before.lists.drop_last());
            assert(0 <= before.lists[before.lists.len() - 1].index);
        },
        _ => {},
    }
}

proof fn lemma_steps_of_run(
    world: UiaWorld,
    context: UiaContext,
    element: usize,
    parent_id: u32,
    next_id: u32,
    used_ids: Set<u32>,
    run: Seq<UiaState>,
    i: int,
)
    requires
        is_run(world, context, element, parent_id, next_id, used_ids, run),
        0 <= i < run.len(),
    ensures
        i + steps_left(world, run[i]) <= steps_left(world, run[0]),
    decreases i,
{
    if i > 0 {
        lemma_steps_of_run(world, context, element, parent_id, next_id, used_ids, run, i - 1);
        lemma_run(world, context, element, parent_id, next_id, used_ids, run, i - 1);
        assert(proceeds(world, run[i - 1], run[i - 1 + 1]));
        lemma_steps(world, run[i - 1], run[i]);
    }
}

/// Every walk comes to an end: it takes no more steps than what there is allows, and its lists
/// stand no deeper than they may.
pub proof fn law_uia_walk_ends(
    world: UiaWorld,
    context: UiaContext,
    element: usize,
    parent_id: u32,
    next_id: u32,
    used_ids: Set<u32>,
    run: Seq<UiaState>,
)
    requires
        is_run(world, context, element, parent_id, next_id, used_ids, run),
    ensures
        run.len() <= 1 + steps_under(world, context, element, 0),
        run.last().lists.len() <= accessibility::depth_limit(context.options),
{
    lemma_steps_of_run(
        world,
        context,
        element,
        parent_id,
        next_id,
        used_ids,
        run,
        run.len() - 1,
    );
    lemma_run(world, context, element, parent_id, next_id, used_ids, run, run.len() - 1);
}

/// Whether the records have the ids from `first_id` on, one after the other, and `next_id` comes
/// next.
pub open spec fn are_consecutive(records: Seq<Found>, first_id: u32, next_id: u32) -> bool {
    &&& next_id == first_id + records.len()
    &&& forall|i: int| 0 <= i < records.len() ==> (#[trigger] records[i]).info.id == first_id + i
}

/// Where no id in use comes after the one that is tried first, the records of a walk have the ids
/// from that one on, one after the other.
pub proof fn law_uia_ids_are_consecutive(
    world: UiaWorld,
    context: UiaContext,
    element: usize,
    parent_id: u32,
    next_id: u32,
    used_ids: Set<u32>,
    run: Seq<UiaState>,
)
    requires
        is_run(world, context, element, parent_id, next_id, used_ids, run),
        next_id + MAX_UIA_NODES_PER_WINDOW <= u32::MAX,
        forall|id: u32| used_ids.contains(id) ==> id < next_id,
    ensures
        are_consecutive(run.last().out.records, next_id, run.last().out.next_id),
        forall|id: u32|
            run.last().out.used_ids.contains(id) ==> id < run.last().out.next_id,
{
    lemma_consecutive(
        world,
        context,
        element,
        parent_id,
        next_id,
        used_ids,
        run,
        run.len() - 1,
    );
}

proof fn lemma_consecutive(
    world: UiaWorld,
    context: UiaContext,
    element: usize,
    parent_id: u32,
    next_id: u32,
    used_ids: Set<u32>,
    run: Seq<UiaState>,
    i: int,
)
    requires
        is_run(world, context, element, parent_id, next_id, used_ids, run),
        0 <= i < run.len(),
        next_id + MAX_UIA_NODES_PER_WINDOW <= u32::MAX,
        forall|id: u32| used_ids.contains(id) ==> id < next_id,
    ensures
        are_consecutive(run[i].out.records, next_id, run[i].out.next_id),
        forall|id: u32| run[i].out.used_ids.contains(id) ==> id < run[i].out.next_id,
    decreases i,
{
    if i > 0 {
        lemma_consecutive(
            world,
            context,
            element,
            parent_id,
            next_id,
            used_ids,
            run,
            i - 1,
        );
        lemma_run(world, context, element, parent_id, next_id, used_ids, run, i - 1);
        assert(proceeds(world, run[i - 1], run[i - 1 + 1]));
        let out = run[i - 1].out;
        assert(accessibility::id_after(out.next_id, 0) == out.next_id);
        assert(accessibility::first_unused(out.next_id, out.used_ids, out.next_id, 0));
        accessibility::lemma_free_id(out.next_id, out.used_ids, out.next_id, 0);
    }
}

/// What has been collected, as a walk gathers it.
pub open spec fn as_gathered(collected: Collected) -> UiaOut {
    UiaOut {
        records: collected.records,
        next_id: collected.next_id,
        used_ids: collected.used_ids,
        seen: Set::empty(),
    }
}

/// What is left of several attempts has ids of its own, has the process and the application of the
/// window, stands under the window or under records before it, and has the ids from the next one on
/// where no id in use comes after it.
pub proof fn law_best_attempt_is_sound(
    worlds: Seq<UiaWorld>,
    attempts: Seq<Seq<UiaState>>,
    run: Seq<ProbeState>,
)
    requires
        run.len() == attempts.len() + 1,
        worlds.len() == attempts.len(),
        run[0].best == run[0].base,
        run[0].base.records.len() == 0,
        run[0].base.used_ids.finite(),
        forall|i: int|
            0 <= i < attempts.len() ==> is_run(
                worlds[i],
                run[0].context,
                run[0].element,
                run[0].parent_id,
                run[0].base.next_id,
                run[0].base.used_ids,
                #[trigger] attempts[i],
            ),
        forall|i: int|
            0 <= i < attempts.len() ==> run[i + 1] == (ProbeState {
                best: uia_probe::better(
                    run[i].best,
                    uia_probe::collected((#[trigger] attempts[i]).last()),
                ),
                ..run[i]
            }),
    ensures
        ({
            let base = run[0].base;
            let best = run.last().best;
            &&& is_sound(as_gathered(best), run[0].parent_id, base.used_ids)
            &&& belong_to(best.records, run[0].context)
            &&& (base.next_id + MAX_UIA_NODES_PER_WINDOW <= u32::MAX && forall|id: u32|
                base.used_ids.contains(id) ==> id < base.next_id) ==> {
                &&& are_consecutive(best.records, base.next_id, best.next_id)
                &&& forall|id: u32| best.used_ids.contains(id) ==> id < best.next_id
            }
        }),
{
    let base = run[0].base;
    let best = run.last().best;
    let outcomes = attempts.map_values(
        |attempt: Seq<UiaState>| uia_probe::collected(attempt.last()),
    );
    assert forall|i: int| 0 <= i < outcomes.len() implies run[i + 1] == (ProbeState {
        best: uia_probe::better(run[i].best, #[trigger] outcomes[i]),
        ..run[i]
    }) by {
        assert(outcomes[i] == uia_probe::collected(attempts[i].last()));
    }
    uia_probe::law_first_best_attempt_counts(run, outcomes);
    if best.records.len() > 0 {
        let k = choose|k: int|
            {
                &&& 0 <= k < outcomes.len()
                &&& #[trigger] outcomes[k] == best
                &&& forall|i: int|
                    0 <= i < k ==> (#[trigger] outcomes[i]).records.len() < best.records.len()
            };
        let attempt = attempts[k];
        law_uia_records_are_sound(
            worlds[k],
            run[0].context,
            run[0].element,
            run[0].parent_id,
            base.next_id,
            base.used_ids,
            attempt,
        );
        let out = attempt.last().out;
        assert(best.records == out.records);
        if base.next_id + MAX_UIA_NODES_PER_WINDOW <= u32::MAX && (forall|id: u32|
            base.used_ids.contains(id) ==> id < base.next_id) {
            law_uia_ids_are_consecutive(
                worlds[k],
                run[0].context,
                run[0].element,
                run[0].parent_id,
                base.next_id,
                base.used_ids,
                attempt,
            );
        }
    }
}

} // verus!
