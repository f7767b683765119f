//! What holds of every tree that a query arranges.

use vstd::prelude::*;

use crate::window;
use crate::window::{Found, WindowNode, WindowQueryOptions};

verus! {

/// Whether `keep` holds of every window of a list and of everything under it.
pub open spec fn every(windows: Seq<WindowNode>, keep: spec_fn(WindowNode) -> bool) -> bool
    decreases windows,
{
    forall|i: int|
        0 <= i < windows.len() ==> keep(#[trigger] windows[i]) && every(windows[i].children, keep)
}

/// Whether no window of a list, nor one under it, has an id in `above` or that of a window that it
/// stands under.
pub open spec fn never_under_itself(windows: Seq<WindowNode>, above: Set<u32>) -> bool
    decreases windows,
{
    forall|i: int|
        0 <= i < windows.len() ==> !above.contains((#[trigger] windows[i]).id)
            && never_under_itself(windows[i].children, above.insert(windows[i].id))
}

/// The windows of a list and everything under them, each before what is under it and with nothing
/// under it.
pub open spec fn preorder(windows: Seq<WindowNode>) -> Seq<WindowNode>
    decreases windows,
{
    if windows.len() == 0 {
        Seq::empty()
    } else {
        preorder(windows.drop_last()) + seq![windows.last().with_children(Seq::empty())]
            + preorder(windows.last().children)
    }
}

/// How often an id occurs among the windows of a list and everything under them.
pub open spec fn occurrences(windows: Seq<WindowNode>, id: u32) -> nat
    decreases windows,
{
    if windows.len() == 0 {
        0
    } else {
        occurrences(windows.drop_last(), id) + (if windows.last().id == id {
            1nat
        } else {
            0nat
        }) + occurrences(windows.last().children, id)
    }
}

pub proof fn lemma_every_concat(
    a: Seq<WindowNode>,
    b: Seq<WindowNode>,
    keep: spec_fn(WindowNode) -> bool,
)
    requires
        every(a, keep),
        every(b, keep),
    ensures
        every(a + b, keep),
{
    assert forall|i: int| 0 <= i < (a + b).len() implies keep(#[trigger] (a + b)[i]) && every(
        (a + b)[i].children,
        keep,
    ) by {
        if i < a.len() {
            assert((a + b)[i] == a[i]);
        } else {
            assert((a + b)[i] == b[i - a.len()]);
        }
    }
}

/// A property that holds of the window of every known id whose size is asked for, whatever is under
/// it, holds of everything reported.
proof fn lemma_every_subtree(
    records: Seq<Found>,
    options: WindowQueryOptions,
    id: u32,
    visiting: Set<u32>,
    keep: spec_fn(WindowNode) -> bool,
)
    requires
        forall|id: u32, below: Seq<WindowNode>|
            window::known(records, id) && options.admits(
                window::info_of(records, id).width,
                window::info_of(records, id).height,
            ) ==> keep(#[trigger] window::info_of(records, id).with_children(below)),
    ensures
        every(window::subtree(records, options, id, visiting), keep),
    decreases window::unvisited(records, visiting), 0nat,
{
    if !visiting.contains(id) && window::known(records, id) {
        window::lemma_unvisited_shrinks(records, id, visiting);
        let ids = window::child_ids(records, id);
        let below = window::forest(records, options, ids, visiting.insert(id));
        lemma_every_forest(records, options, ids, visiting.insert(id), keep);
        let shown = if options.include_children {
            below
        } else {
            Seq::empty()
        };
        assert(every(shown, keep));
        assert(keep(window::info_of(records, id).with_children(shown)) || !options.admits(
            window::info_of(records, id).width,
            window::info_of(records, id).height,
        ));
    }
}

pub proof fn lemma_every_forest(
    records: Seq<Found>,
    options: WindowQueryOptions,
    ids: Seq<u32>,
    visiting: Set<u32>,
    keep: spec_fn(WindowNode) -> bool,
)
    requires
        forall|id: u32, below: Seq<WindowNode>|
            window::known(records, id) && options.admits(
                window::info_of(records, id).width,
                window::info_of(records, id).height,
            ) ==> keep(#[trigger] window::info_of(records, id).with_children(below)),
    ensures
        every(window::forest(records, options, ids, visiting), keep),
    decreases window::unvisited(records, visiting), ids.len(),
{
    if ids.len() > 0 {
        lemma_every_forest(records, options, ids.drop_last(), visiting, keep);
        lemma_every_subtree(records, options, ids.last(), visiting, keep);
        lemma_every_concat(
            window::forest(records, options, ids.drop_last(), visiting),
            window::subtree(records, options, ids.last(), visiting),
            keep,
        );
    }
}

/// Every window in the tree, at any depth, has a size that the query asks for.
pub proof fn law_reported_sizes(records: Seq<Found>, options: WindowQueryOptions)
    ensures
        every(
            window::window_tree(records, options),
            |window: WindowNode| options.admits(window.width, window.height),
        ),
{
    lemma_every_forest(
        records,
        options,
        window::root_ids(records),
        Set::empty(),
        |window: WindowNode| options.admits(window.width, window.height),
    );
}

/// Every window in the tree, at any depth, is that of a record, unchanged but for what was placed
/// under it.
pub proof fn law_reported_as_found(records: Seq<Found>, options: WindowQueryOptions)
    ensures
        every(
            window::window_tree(records, options),
            |window: WindowNode|
                window::known(records, window.id) && window == window::info_of(records, window.id).with_children(
                    window.children,
                ),
        ),
{
    let keep = |window: WindowNode|
        window::known(records, window.id) && window == window::info_of(records, window.id).with_children(
            window.children,
        );
    assert forall|id: u32, below: Seq<WindowNode>| window::known(records, id) implies keep(
        #[trigger] window::info_of(records, id).with_children(below),
    ) by {
        lemma_info_id(records, id);
    }
    lemma_every_forest(records, options, window::root_ids(records), Set::empty(), keep);
}

pub proof fn lemma_info_id(records: Seq<Found>, id: u32)
    requires
        window::known(records, id),
    ensures
        window::info_of(records, id).id == id,
    decreases records.len(),
{
    let i = choose|i: int| 0 <= i < records.len() && (#[trigger] records[i]).info.id == id;
    if records.last().info.id != id {
        assert(records.drop_last()[i].info.id == id);
        lemma_info_id(records.drop_last(), id);
    }
}


proof fn lemma_never_under_concat(a: Seq<WindowNode>, b: Seq<WindowNode>, above: Set<u32>)
    requires
        never_under_itself(a, above),
        never_under_itself(b, above),
    ensures
        never_under_itself(a + b, above),
{
    assert forall|i: int| 0 <= i < (a + b).len() implies !above.contains(
        (#[trigger] (a + b)[i]).id,
    ) && never_under_itself((a + b)[i].children, above.insert((a + b)[i].id)) by {
        if i < a.len() {
            assert((a + b)[i] == a[i]);
        } else {
            assert((a + b)[i] == b[i - a.len()]);
        }
    }
}

proof fn lemma_never_under_fewer(windows: Seq<WindowNode>, above: Set<u32>, fewer: Set<u32>)
    requires
        never_under_itself(windows, above),
        fewer.subset_of(above),
    ensures
        never_under_itself(windows, fewer),
    decreases windows,
{
    assert forall|i: int| 0 <= i < windows.len() implies !fewer.contains(
        (#[trigger] windows[i]).id,
    ) && never_under_itself(windows[i].children, fewer.insert(windows[i].id)) by {
        lemma_never_under_fewer(
            windows[i].children,
            above.insert(windows[i].id),
            fewer.insert(windows[i].id),
        );
    }
}

proof fn lemma_never_under_subtree(
    records: Seq<Found>,
    options: WindowQueryOptions,
    id: u32,
    visiting: Set<u32>,
)
    ensures
        never_under_itself(window::subtree(records, options, id, visiting), visiting),
    decreases window::unvisited(records, visiting), 0nat,
{
    if !visiting.contains(id) && window::known(records, id) {
        window::lemma_unvisited_shrinks(records, id, visiting);
        lemma_info_id(records, id);
        let ids = window::child_ids(records, id);
        let below = window::forest(records, options, ids, visiting.insert(id));
        lemma_never_under_forest(records, options, ids, visiting.insert(id));
        lemma_never_under_fewer(below, visiting.insert(id), visiting);
        let shown = if options.include_children {
            below
        } else {
            Seq::empty()
        };
        assert(never_under_itself(shown, visiting.insert(id)));
        assert(never_under_itself(shown, visiting));
    }
}

proof fn lemma_never_under_forest(
    records: Seq<Found>,
    options: WindowQueryOptions,
    ids: Seq<u32>,
    visiting: Set<u32>,
)
    ensures
        never_under_itself(window::forest(records, options, ids, visiting), visiting),
    decreases window::unvisited(records, visiting), ids.len(),
{
    if ids.len() > 0 {
        lemma_never_under_forest(records, options, ids.drop_last(), visiting);
        lemma_never_under_subtree(records, options, ids.last(), visiting);
        lemma_never_under_concat(
            window::forest(records, options, ids.drop_last(), visiting),
            window::subtree(records, options, ids.last(), visiting),
            visiting,
        );
    }
}

/// No window in the tree stands under a window with its own id, whatever the records say of their
/// parents.
pub proof fn law_never_under_itself(records: Seq<Found>, options: WindowQueryOptions)
    ensures
        never_under_itself(window::window_tree(records, options), Set::empty()),
{
    lemma_never_under_forest(records, options, window::root_ids(records), Set::empty());
}

/// Whether every record with an id in `group` names a parent in `group` that is known: a cycle, or
/// what hangs together with one, and nothing that stands at the top.
pub open spec fn closed_upwards(records: Seq<Found>, group: Set<u32>) -> bool {
    forall|i: int|
        0 <= i < records.len() && group.contains((#[trigger] records[i]).info.id)
            ==> (records[i].parent_id matches Some(parent_id) && group.contains(parent_id)
            && window::known(records, parent_id))
}

pub proof fn lemma_ids_of_records(
    records: Seq<Found>,
    keep: spec_fn(Found) -> bool,
    k: int,
)
    requires
        0 <= k < records.filter(keep).len(),
    ensures
        exists|i: int|
            0 <= i < records.len() && #[trigger] records[i] == records.filter(keep)[k] && keep(
                records[i],
            ),
{
    broadcast use Seq::lemma_filter_contains_rev;

    records.lemma_filter_pred(keep, k);
    let record = records.filter(keep)[k];
    assert(records.filter(keep).contains(record));
    assert(records.contains(record));
}

proof fn lemma_children_outside(records: Seq<Found>, group: Set<u32>, id: u32)
    requires
        closed_upwards(records, group),
        !group.contains(id),
    ensures
        forall|k: int|
            0 <= k < window::child_ids(records, id).len() ==> !group.contains(
                #[trigger] window::child_ids(records, id)[k],
            ),
{
    assert forall|k: int| 0 <= k < window::child_ids(records, id).len() implies !group.contains(
        #[trigger] window::child_ids(records, id)[k],
    ) by {
        lemma_ids_of_records(records, |record: Found| record.parent_id == Some(id), k);
    }
}

proof fn lemma_outside_subtree(
    records: Seq<Found>,
    options: WindowQueryOptions,
    id: u32,
    visiting: Set<u32>,
    group: Set<u32>,
)
    requires
        closed_upwards(records, group),
        !group.contains(id),
    ensures
        every(
            window::subtree(records, options, id, visiting),
            |window: WindowNode| !group.contains(window.id),
        ),
    decreases window::unvisited(records, visiting), 0nat,
{
    if !visiting.contains(id) && window::known(records, id) {
        window::lemma_unvisited_shrinks(records, id, visiting);
        lemma_info_id(records, id);
        lemma_children_outside(records, group, id);
        lemma_outside_forest(
            records,
            options,
            window::child_ids(records, id),
            visiting.insert(id),
            group,
        );
        let shown = if options.include_children {
            window::forest(records, options, window::child_ids(records, id), visiting.insert(id))
        } else {
            Seq::empty()
        };
        assert(every(shown, |window: WindowNode| !group.contains(window.id)));
    }
}

proof fn lemma_outside_forest(
    records: Seq<Found>,
    options: WindowQueryOptions,
    ids: Seq<u32>,
    visiting: Set<u32>,
    group: Set<u32>,
)
    requires
        closed_upwards(records, group),
        forall|k: int| 0 <= k < ids.len() ==> !group.contains(#[trigger] ids[k]),
    ensures
        every(
            window::forest(records, options, ids, visiting),
            |window: WindowNode| !group.contains(window.id),
        ),
    decreases window::unvisited(records, visiting), ids.len(),
{
    if ids.len() > 0 {
        lemma_outside_forest(records, options, ids.drop_last(), visiting, group);
        lemma_outside_subtree(records, options, ids.last(), visiting, group);
        lemma_every_concat(
            window::forest(records, options, ids.drop_last(), visiting),
            window::subtree(records, options, ids.last(), visiting),
            |window: WindowNode| !group.contains(window.id),
        );
    }
}

/// Windows whose parents form a cycle are nowhere in the tree, nor is anything whose only way up
/// leads into the cycle.
pub proof fn law_cycles_are_skipped(
    records: Seq<Found>,
    options: WindowQueryOptions,
    group: Set<u32>,
)
    requires
        closed_upwards(records, group),
    ensures
        every(
            window::window_tree(records, options),
            |window: WindowNode| !group.contains(window.id),
        ),
{
    assert forall|k: int| 0 <= k < window::root_ids(records).len() implies !group.contains(
        #[trigger] window::root_ids(records)[k],
    ) by {
        lemma_ids_of_records(records, |record: Found| window::is_root(records, record), k);
    }
    lemma_outside_forest(records, options, window::root_ids(records), Set::empty(), group);
}

proof fn lemma_preorder_concat(a: Seq<WindowNode>, b: Seq<WindowNode>)
    ensures
        preorder(a + b) == preorder(a) + preorder(b),
    decreases b.len(),
{
    if b.len() == 0 {
        assert(a + b =~= a);
        assert(preorder(a + b) =~= preorder(a) + preorder(b));
    } else {
        assert((a + b).drop_last() =~= a + b.drop_last());
        lemma_preorder_concat(a, b.drop_last());
        assert(preorder(a + b) =~= preorder(a) + preorder(b));
    }
}

proof fn lemma_preorder_one(window: WindowNode)
    ensures
        preorder(seq![window]) == seq![window.with_children(Seq::empty())] + preorder(
            window.children,
        ),
{
    assert(seq![window].drop_last() =~= Seq::empty());
    assert(preorder(Seq::empty()) =~= Seq::empty());
    assert(preorder(seq![window]) =~= seq![window.with_children(Seq::empty())] + preorder(
        window.children,
    ));
}

proof fn lemma_promotion_subtree(
    records: Seq<Found>,
    options: WindowQueryOptions,
    id: u32,
    visiting: Set<u32>,
)
    requires
        options.include_children,
    ensures
        preorder(window::subtree(records, options, id, visiting)) == preorder(
            window::subtree(records, unfiltered(options), id, visiting),
        ).filter(|window: WindowNode| options.admits(window.width, window.height)),
    decreases window::unvisited(records, visiting), 0nat,
{
    reveal_with_fuel(Seq::filter, 2);
    let keep = |window: WindowNode| options.admits(window.width, window.height);
    if !visiting.contains(id) && window::known(records, id) {
        window::lemma_unvisited_shrinks(records, id, visiting);
        let ids = window::child_ids(records, id);
        lemma_promotion_forest(records, options, ids, visiting.insert(id));
        let window = window::info_of(records, id);
        let below = window::forest(records, options, ids, visiting.insert(id));
        let all = window::forest(
            records,
            unfiltered(options),
            window::child_ids(records, id),
            visiting.insert(id),
        );
        let alone = seq![window.with_children(Seq::empty())];
        lemma_preorder_one(window.with_children(all));
        lemma_preorder_one(window.with_children(below));
        Seq::filter_distributes_over_add(alone, preorder(all), keep);
        assert(alone.drop_last() =~= Seq::empty());
        assert(alone.filter(keep) =~= (if keep(alone[0]) {
            alone
        } else {
            Seq::empty()
        }));
        assert(preorder(window::subtree(records, options, id, visiting)) =~= preorder(
            window::subtree(records, unfiltered(options), id, visiting),
        ).filter(keep));
    }
}

proof fn lemma_promotion_forest(
    records: Seq<Found>,
    options: WindowQueryOptions,
    ids: Seq<u32>,
    visiting: Set<u32>,
)
    requires
        options.include_children,
    ensures
        preorder(window::forest(records, options, ids, visiting)) == preorder(
            window::forest(records, unfiltered(options), ids, visiting),
        ).filter(|window: WindowNode| options.admits(window.width, window.height)),
    decreases window::unvisited(records, visiting), ids.len(),
{
    let keep = |window: WindowNode| options.admits(window.width, window.height);
    if ids.len() > 0 {
        lemma_promotion_forest(records, options, ids.drop_last(), visiting);
        lemma_promotion_subtree(records, options, ids.last(), visiting);
        let a = window::forest(records, options, ids.drop_last(), visiting);
        let b = window::subtree(records, options, ids.last(), visiting);
        let all_a = window::forest(records, unfiltered(options), ids.drop_last(), visiting);
        let all_b = window::subtree(records, unfiltered(options), ids.last(), visiting);
        lemma_preorder_concat(a, b);
        lemma_preorder_concat(all_a, all_b);
        Seq::filter_distributes_over_add(preorder(all_a), preorder(all_b), keep);
    } else {
        reveal(Seq::filter);
    }
}

/// The same query without a bound on sizes.
pub open spec fn unfiltered(options: WindowQueryOptions) -> WindowQueryOptions {
    WindowQueryOptions { size_filter: None, ..options }
}

/// A size filter leaves out exactly the windows of other sizes: read from top to bottom, the
/// filtered tree holds the windows of the whole tree that have a size asked for, in the same order.
/// What is under a window that is left out is not lost.
pub proof fn law_filter_promotes(records: Seq<Found>, options: WindowQueryOptions)
    requires
        options.include_children,
    ensures
        preorder(window::window_tree(records, options)) == preorder(
            window::window_tree(records, unfiltered(options)),
        ).filter(|window: WindowNode| options.admits(window.width, window.height)),
{
    lemma_promotion_forest(records, options, window::root_ids(records), Set::empty());
}

/// The windows at the top, with nothing under them.
pub open spec fn top_windows(records: Seq<Found>, ids: Seq<u32>) -> Seq<WindowNode> {
    ids.map_values(|id: u32| window::info_of(records, id).with_children(Seq::empty()))
}

proof fn lemma_flat_forest(records: Seq<Found>, options: WindowQueryOptions, ids: Seq<u32>)
    requires
        !options.include_children,
        forall|k: int| 0 <= k < ids.len() ==> window::known(records, #[trigger] ids[k]),
    ensures
        window::forest(records, options, ids, Set::empty()) == top_windows(records, ids).filter(
            |window: WindowNode| options.admits(window.width, window.height),
        ),
    decreases ids.len(),
{
    reveal_with_fuel(Seq::filter, 2);
    if ids.len() > 0 {
        lemma_flat_forest(records, options, ids.drop_last());
        assert(top_windows(records, ids).last() == window::info_of(
            records,
            ids.last(),
        ).with_children(Seq::empty()));
        assert(top_windows(records, ids).drop_last() =~= top_windows(records, ids.drop_last()));
        assert(window::known(records, ids[ids.len() - 1]));
        let keep = |window: WindowNode| options.admits(window.width, window.height);
        let top = top_windows(records, ids).last();
        assert(window::subtree(records, options, ids.last(), Set::empty()) == (if keep(top) {
            seq![top]
        } else {
            Seq::empty()
        }));
        assert(top_windows(records, ids).filter(keep) =~= top_windows(
            records,
            ids.drop_last(),
        ).filter(keep) + (if keep(top) {
            seq![top]
        } else {
            Seq::empty()
        }));
    }
}

pub proof fn lemma_roots_are_known(records: Seq<Found>)
    ensures
        forall|k: int|
            0 <= k < window::root_ids(records).len() ==> window::known(
                records,
                #[trigger] window::root_ids(records)[k],
            ),
{
    assert forall|k: int| 0 <= k < window::root_ids(records).len() implies window::known(
        records,
        #[trigger] window::root_ids(records)[k],
    ) by {
        lemma_ids_of_records(records, |record: Found| window::is_root(records, record), k);
    }
}

/// A query without children reports the windows at the top that have a size asked for, in the
/// order of the records and with nothing under them.
pub proof fn law_without_children(records: Seq<Found>, options: WindowQueryOptions)
    requires
        !options.include_children,
    ensures
        window::window_tree(records, options) == top_windows(
            records,
            window::root_ids(records),
        ).filter(|window: WindowNode| options.admits(window.width, window.height)),
{
    lemma_roots_are_known(records);
    lemma_flat_forest(records, options, window::root_ids(records));
}

proof fn lemma_same_options_subtree(
    records: Seq<Found>,
    a: WindowQueryOptions,
    b: WindowQueryOptions,
    id: u32,
    visiting: Set<u32>,
)
    requires
        a.include_children == b.include_children,
        a.size_filter == b.size_filter,
    ensures
        window::subtree(records, a, id, visiting) == window::subtree(records, b, id, visiting),
    decreases window::unvisited(records, visiting), 0nat,
{
    if !visiting.contains(id) && window::known(records, id) {
        window::lemma_unvisited_shrinks(records, id, visiting);
        let ids = window::child_ids(records, id);
        lemma_same_options_forest(records, a, b, ids, visiting.insert(id));
    }
}

proof fn lemma_same_options_forest(
    records: Seq<Found>,
    a: WindowQueryOptions,
    b: WindowQueryOptions,
    ids: Seq<u32>,
    visiting: Set<u32>,
)
    requires
        a.include_children == b.include_children,
        a.size_filter == b.size_filter,
    ensures
        window::forest(records, a, ids, visiting) == window::forest(records, b, ids, visiting),
    decreases window::unvisited(records, visiting), ids.len(),
{
    if ids.len() > 0 {
        lemma_same_options_forest(records, a, b, ids.drop_last(), visiting);
        lemma_same_options_subtree(records, a, b, ids.last(), visiting);
    }
}

/// How records are gathered (deep, relaxed, with a timeout) has no say in how they are arranged.
pub proof fn law_gathering_options(
    records: Seq<Found>,
    a: WindowQueryOptions,
    b: WindowQueryOptions,
)
    requires
        a.include_children == b.include_children,
        a.size_filter == b.size_filter,
    ensures
        window::window_tree(records, a) == window::window_tree(records, b),
{
    lemma_same_options_forest(records, a, b, window::root_ids(records), Set::empty());
}

/// Expanding a window without children gives the first level of what expanding it with children
/// gives.
pub proof fn law_expansion_levels(
    root: WindowNode,
    descendants: Seq<Found>,
    options: WindowQueryOptions,
)
    ensures
        window::expanded_children(root, descendants, options.including_children(false))
            == window::without_children(
            window::expanded_children(root, descendants, options.including_children(true)),
        ),
{
}

/// Whether no two records have the same id.
pub open spec fn distinct_ids(records: Seq<Found>) -> bool {
    forall|i: int, j: int|
        0 <= i < j < records.len() ==> (#[trigger] records[i]).info.id != (
        #[trigger] records[j]).info.id
}

/// Whether `rank` is greater for every record than for its parent, so that no window is above
/// itself.
pub open spec fn ranks(records: Seq<Found>, rank: spec_fn(u32) -> nat) -> bool {
    forall|i: int|
        0 <= i < records.len() ==> ((#[trigger] records[i]).parent_id matches Some(parent_id)
            ==> window::known(records, parent_id) ==> rank(parent_id) < rank(records[i].info.id))
}

spec fn times(ids: Seq<u32>, id: u32) -> nat
    decreases ids.len(),
{
    if ids.len() == 0 {
        0
    } else {
        times(ids.drop_last(), id) + (if ids.last() == id {
            1nat
        } else {
            0nat
        })
    }
}

proof fn lemma_times_none(ids: Seq<u32>, id: u32)
    requires
        forall|k: int| 0 <= k < ids.len() ==> #[trigger] ids[k] != id,
    ensures
        times(ids, id) == 0,
    decreases ids.len(),
{
    if ids.len() > 0 {
        lemma_times_none(ids.drop_last(), id);
    }
}

proof fn lemma_times_where(records: Seq<Found>, keep: spec_fn(Found) -> bool, j: int)
    requires
        distinct_ids(records),
        0 <= j < records.len(),
    ensures
        times(
            records.filter(keep).map_values(|record: Found| record.info.id),
            records[j].info.id,
        ) == (if keep(records[j]) {
            1nat
        } else {
            0nat
        }),
    decreases records.len(),
{
    reveal(Seq::filter);
    let id_of = |record: Found| record.info.id;
    let before = records.drop_last();
    let ids = records.filter(keep).map_values(id_of);
    let ids_before = before.filter(keep).map_values(id_of);
    assert(distinct_ids(before)) by {
        assert forall|a: int, b: int| 0 <= a < b < before.len() implies (
        #[trigger] before[a]).info.id != (#[trigger] before[b]).info.id by {
            assert(records[a].info.id != records[b].info.id);
        }
    }
    if keep(records.last()) {
        assert(ids.drop_last() =~= ids_before);
    }
    if j < before.len() {
        lemma_times_where(before, keep, j);
        assert(before[j] == records[j]);
        assert(records[j].info.id != records[records.len() - 1].info.id);
    } else {
        assert forall|k: int| 0 <= k < ids_before.len() implies #[trigger] ids_before[k]
            != records[j].info.id by {
            lemma_ids_of_records(before, keep, k);
            let i = choose|i: int|
                0 <= i < before.len() && #[trigger] before[i] == before.filter(keep)[k] && keep(
                    before[i],
                );
            assert(records[i].info.id != records[j].info.id);
        }
        lemma_times_none(ids_before, records[j].info.id);
    }
}

proof fn lemma_occurrences_concat(a: Seq<WindowNode>, b: Seq<WindowNode>, id: u32)
    ensures
        occurrences(a + b, id) == occurrences(a, id) + occurrences(b, id),
    decreases b.len(),
{
    if b.len() == 0 {
        assert(a + b =~= a);
    } else {
        assert((a + b).drop_last() =~= a + b.drop_last());
        lemma_occurrences_concat(a, b.drop_last(), id);
    }
}

/// How often the id of record `j` occurs where the ids `ids` are expanded: once for each time that
/// it is among them, and once under each occurrence of its parent.
spec fn expected(records: Seq<Found>, ids: Seq<u32>, shown: Seq<WindowNode>, j: int) -> nat {
    times(ids, records[j].info.id) + (if window::is_root(records, records[j]) {
        0
    } else {
        occurrences(shown, records[j].parent_id->0)
    })
}

proof fn lemma_each_subtree(
    records: Seq<Found>,
    options: WindowQueryOptions,
    id: u32,
    visiting: Set<u32>,
    rank: spec_fn(u32) -> nat,
    j: int,
)
    requires
        options.include_children,
        options.size_filter is None,
        distinct_ids(records),
        ranks(records, rank),
        window::known(records, id),
        forall|v: u32| #[trigger] visiting.contains(v) ==> rank(v) < rank(id),
        0 <= j < records.len(),
    ensures
        occurrences(window::subtree(records, options, id, visiting), records[j].info.id)
            == expected(
            records,
            seq![id],
            window::subtree(records, options, id, visiting),
            j,
        ),
    decreases window::unvisited(records, visiting), 0nat,
{
    assert(!visiting.contains(id));
    window::lemma_unvisited_shrinks(records, id, visiting);
    lemma_info_id(records, id);
    let ids = window::child_ids(records, id);
    let under = |record: Found| record.parent_id == Some(id);
    let below = window::forest(records, options, ids, visiting.insert(id));
    assert forall|k: int| 0 <= k < ids.len() implies window::known(records, #[trigger] ids[k])
        && rank(id) < rank(ids[k]) by {
        lemma_ids_of_records(records, under, k);
    }
    lemma_each_forest(records, options, ids, visiting.insert(id), rank, j);
    lemma_times_where(records, under, j);
    let shown = window::subtree(records, options, id, visiting);
    let node = window::info_of(records, id).with_children(below);
    assert(shown =~= seq![node]);
    assert(shown.drop_last() =~= Seq::empty());
    assert(seq![id].drop_last() =~= Seq::empty());
    reveal_with_fuel(occurrences, 2);
    reveal_with_fuel(times, 2);
}

proof fn lemma_each_forest(
    records: Seq<Found>,
    options: WindowQueryOptions,
    ids: Seq<u32>,
    visiting: Set<u32>,
    rank: spec_fn(u32) -> nat,
    j: int,
)
    requires
        options.include_children,
        options.size_filter is None,
        distinct_ids(records),
        ranks(records, rank),
        forall|k: int| 0 <= k < ids.len() ==> window::known(records, #[trigger] ids[k]),
        forall|k: int, v: u32|
            0 <= k < ids.len() && #[trigger] visiting.contains(v) ==> rank(v) < rank(
                #[trigger] ids[k],
            ),
        0 <= j < records.len(),
    ensures
        occurrences(window::forest(records, options, ids, visiting), records[j].info.id)
            == expected(
            records,
            ids,
            window::forest(records, options, ids, visiting),
            j,
        ),
    decreases window::unvisited(records, visiting), ids.len(),
{
    if ids.len() > 0 {
        let last = ids[ids.len() - 1];
        lemma_each_forest(records, options, ids.drop_last(), visiting, rank, j);
        lemma_each_subtree(records, options, last, visiting, rank, j);
        let a = window::forest(records, options, ids.drop_last(), visiting);
        let b = window::subtree(records, options, last, visiting);
        lemma_occurrences_concat(a, b, records[j].info.id);
        lemma_occurrences_concat(a, b, records[j].parent_id->0);
        assert(seq![last].drop_last() =~= Seq::empty());
        reveal_with_fuel(times, 2);
    }
}

proof fn lemma_each_once(
    records: Seq<Found>,
    options: WindowQueryOptions,
    rank: spec_fn(u32) -> nat,
    j: int,
)
    requires
        options.include_children,
        options.size_filter is None,
        distinct_ids(records),
        ranks(records, rank),
        0 <= j < records.len(),
    ensures
        occurrences(window::window_tree(records, options), records[j].info.id) == 1,
    decreases rank(records[j].info.id),
{
    let at_top = |record: Found| window::is_root(records, record);
    lemma_roots_are_known(records);
    lemma_times_where(records, at_top, j);
    lemma_each_forest(records, options, window::root_ids(records), Set::empty(), rank, j);
    if !window::is_root(records, records[j]) {
        let parent_id = records[j].parent_id->0;
        let p = choose|p: int|
            0 <= p < records.len() && (#[trigger] records[p]).info.id == parent_id;
        lemma_each_once(records, options, rank, p);
    }
}

/// Where ids are distinct and no window is above itself, a query with children and without a size
/// filter reports every record exactly once.
pub proof fn law_each_record_once(
    records: Seq<Found>,
    options: WindowQueryOptions,
    rank: spec_fn(u32) -> nat,
)
    requires
        options.include_children,
        options.size_filter is None,
        distinct_ids(records),
        ranks(records, rank),
    ensures
        forall|j: int|
            0 <= j < records.len() ==> occurrences(
                window::window_tree(records, options),
                (#[trigger] records[j]).info.id,
            ) == 1,
{
    assert forall|j: int| 0 <= j < records.len() implies occurrences(
        window::window_tree(records, options),
        (#[trigger] records[j]).info.id,
    ) == 1 by {
        lemma_each_once(records, options, rank, j);
    }
}

} // verus!
