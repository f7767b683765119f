//! Records in an order in which every window comes before those under it.

use vstd::prelude::*;

use crate::tree_laws;
use crate::window;
use crate::window::{Found, WindowNode, WindowQueryOptions};

verus! {

/// Whether a window may stand under `parent_id`: that is `root`, or the id of one of the records.
pub open spec fn is_rooted(records: Seq<Found>, root: Option<u32>, parent_id: Option<u32>) -> bool {
    parent_id == root || (parent_id matches Some(id) && window::known(records, id))
}

/// Whether every record stands under `root` or under a record before it.
pub open spec fn are_rooted(records: Seq<Found>, root: Option<u32>) -> bool {
    forall|i: int|
        0 <= i < records.len() ==> is_rooted(
            records.take(i),
            root,
            (#[trigger] records[i]).parent_id,
        )
}

/// What is known stays known.
pub proof fn lemma_known_more(records: Seq<Found>, added: Seq<Found>, id: u32)
    ensures
        window::known(records, id) ==> window::known(records + added, id),
{
    if window::known(records, id) {
        let k = choose|k: int| 0 <= k < records.len() && (#[trigger] records[k]).info.id == id;
        assert((records + added)[k].info.id == id);
    }
}

/// Records that stand under records before them may be added to such records.
pub proof fn lemma_rooted_more(records: Seq<Found>, added: Seq<Found>, root: Option<u32>)
    requires
        are_rooted(records, root),
        forall|i: int|
            0 <= i < added.len() ==> is_rooted(
                records + added.take(i),
                root,
                (#[trigger] added[i]).parent_id,
            ),
    ensures
        are_rooted(records + added, root),
        forall|parent_id: Option<u32>|
            is_rooted(records, root, parent_id) ==> #[trigger] is_rooted(
                records + added,
                root,
                parent_id,
            ),
{
    let all = records + added;
    assert forall|i: int| 0 <= i < all.len() implies is_rooted(
        all.take(i),
        root,
        (#[trigger] all[i]).parent_id,
    ) by {
        if i < records.len() {
            assert(all.take(i) =~= records.take(i));
            assert(all[i] == records[i]);
        } else {
            let k = i - records.len();
            assert(all.take(i) =~= records + added.take(k));
            assert(all[i] == added[k]);
        }
    }
    assert forall|parent_id: Option<u32>| is_rooted(
        records,
        root,
        parent_id,
    ) implies #[trigger] is_rooted(all, root, parent_id) by {
        if let Some(id) = parent_id {
            lemma_known_more(records, added, id);
        }
    }
}

/// Where records stand at the top or under records before them, and have ids of their own, a query
/// with children and without a size filter reports each of them exactly once.
pub proof fn law_rooted_records_are_reported_once(records: Seq<Found>, options: WindowQueryOptions)
    requires
        options.include_children,
        options.size_filter is None,
        tree_laws::distinct_ids(records),
        are_rooted(records, None),
    ensures
        forall|j: int|
            0 <= j < records.len() ==> tree_laws::occurrences(
                window::window_tree(records, options),
                (#[trigger] records[j]).info.id,
            ) == 1,
{
    let rank = |id: u32| place(records, id);
    assert forall|i: int| 0 <= i < records.len() implies ((
    #[trigger] records[i]).parent_id matches Some(parent_id) ==> window::known(records, parent_id)
        ==> rank(parent_id) < rank(records[i].info.id)) by {
        if let Some(parent_id) = records[i].parent_id {
            assert(is_rooted(records.take(i), None, records[i].parent_id));
            let k = choose|k: int|
                0 <= k < i && (#[trigger] records.take(i)[k]).info.id == parent_id;
            assert(records[k].info.id == parent_id);
            lemma_place(records, k);
            lemma_place(records, i);
        }
    }
    tree_laws::law_each_record_once(records, options, rank);
}

/// The place of a record among the others.
spec fn place(records: Seq<Found>, id: u32) -> nat {
    (choose|k: int| 0 <= k < records.len() && (#[trigger] records[k]).info.id == id) as nat
}

proof fn lemma_place(records: Seq<Found>, i: int)
    requires
        tree_laws::distinct_ids(records),
        0 <= i < records.len(),
    ensures
        place(records, records[i].info.id) == i,
{
    let id = records[i].info.id;
    let k = choose|k: int| 0 <= k < records.len() && (#[trigger] records[k]).info.id == id;
    if k < i {
        assert(records[k].info.id != records[i].info.id);
    } else if i < k {
        assert(records[i].info.id != records[k].info.id);
    }
}

/// Where the records under a window stand under it or under records before them, and all have ids
/// of their own, expanding the window with children and without a size filter reports each of them
/// exactly once.
pub proof fn law_expansion_reports_each_once(
    root: WindowNode,
    descendants: Seq<Found>,
    options: WindowQueryOptions,
)
    requires
        options.include_children,
        options.size_filter is None,
        tree_laws::distinct_ids(seq![Found { info: root, parent_id: None }] + descendants),
        are_rooted(descendants, Some(root.id)),
    ensures
        forall|j: int|
            0 <= j < descendants.len() ==> tree_laws::occurrences(
                window::expanded_children(root, descendants, options),
                (#[trigger] descendants[j]).info.id,
            ) == 1,
{
    let top = Found { info: root, parent_id: None };
    let records = seq![top] + descendants;
    assert forall|i: int| 0 <= i < records.len() implies is_rooted(
        records.take(i),
        None,
        (#[trigger] records[i]).parent_id,
    ) by {
        if i > 0 {
            let k = i - 1;
            assert(descendants[k] == records[i]);
            assert(records.take(i) =~= seq![top] + descendants.take(k));
            let parent = descendants[k].parent_id->0;
            assert(is_rooted(descendants.take(k), Some(root.id), descendants[k].parent_id));
            if parent == root.id {
                assert(records.take(i)[0].info.id == parent);
            } else {
                let m = choose|m: int|
                    0 <= m < k && (#[trigger] descendants.take(k)[m]).info.id == parent;
                assert(records.take(i)[m + 1].info.id == parent);
            }
        }
    }
    assert(options.including_children(true) == options);
    law_rooted_records_are_reported_once(records, options);
    lemma_one_root(root, descendants);
    let tree = window::window_tree(records, options);
    let below = window::forest(
        records,
        options,
        window::child_ids(records, root.id),
        Set::<u32>::empty().insert(root.id),
    );
    assert(records[0].info.id == root.id);
    assert(window::known(records, root.id));
    lemma_info_of_first(root, descendants);
    reveal_with_fuel(window::forest, 2);
    assert(window::root_ids(records).drop_last() =~= Seq::empty());
    assert(tree =~= seq![root.with_children(below)]);
    assert(window::children_of(tree, root.id) == below);
    assert forall|j: int| 0 <= j < descendants.len() implies tree_laws::occurrences(
        window::expanded_children(root, descendants, options),
        (#[trigger] descendants[j]).info.id,
    ) == 1 by {
        assert(records[j + 1] == descendants[j]);
        assert(records[0].info.id != records[j + 1].info.id);
        let id = descendants[j].info.id;
        assert(tree_laws::occurrences(tree, id) == 1);
        assert(tree.drop_last() =~= Seq::empty());
        assert(tree_laws::occurrences(tree.drop_last(), id) == 0);
    }
}

/// The window that is expanded is the only one at the top.
proof fn lemma_one_root(root: WindowNode, descendants: Seq<Found>)
    requires
        are_rooted(descendants, Some(root.id)),
    ensures
        window::root_ids(seq![Found { info: root, parent_id: None }] + descendants) == seq![root.id],
{
    let top = Found { info: root, parent_id: None };
    let records = seq![top] + descendants;
    let at_top = |record: Found| window::is_root(records, record);
    assert forall|i: int| 0 <= i < descendants.len() implies !at_top(
        #[trigger] descendants[i],
    ) by {
        let parent = descendants[i].parent_id->0;
        assert(is_rooted(descendants.take(i), Some(root.id), descendants[i].parent_id));
        if parent == root.id {
            assert(records[0].info.id == parent);
        } else {
            let m = choose|m: int|
                0 <= m < i && (#[trigger] descendants.take(i)[m]).info.id == parent;
            assert(records[m + 1].info.id == parent);
        }
    }
    Seq::filter_distributes_over_add(seq![top], descendants, at_top);
    lemma_none_kept(descendants, at_top);
    reveal_with_fuel(Seq::filter, 2);
    assert(seq![top].drop_last() =~= Seq::empty());
    assert(seq![top].filter(at_top) =~= seq![top]);
    assert(records.filter(at_top) =~= seq![top]);
    assert(window::root_ids(records) =~= seq![root.id]);
}

proof fn lemma_none_kept(records: Seq<Found>, keep: spec_fn(Found) -> bool)
    requires
        forall|i: int| 0 <= i < records.len() ==> !keep(#[trigger] records[i]),
    ensures
        records.filter(keep) == Seq::<Found>::empty(),
    decreases records.len(),
{
    reveal(Seq::filter);
    if records.len() > 0 {
        lemma_none_kept(records.drop_last(), keep);
    }
}

proof fn lemma_info_of_first(root: WindowNode, descendants: Seq<Found>)
    requires
        tree_laws::distinct_ids(seq![Found { info: root, parent_id: None }] + descendants),
    ensures
        window::info_of(seq![Found { info: root, parent_id: None }] + descendants, root.id) == root,
    decreases descendants.len(),
{
    let top = Found { info: root, parent_id: None };
    let records = seq![top] + descendants;
    if descendants.len() == 0 {
        assert(records.last() == top);
    } else {
        let before = seq![top] + descendants.drop_last();
        assert(records.drop_last() =~= before);
        assert(records[0].info.id != records[records.len() - 1].info.id);
        assert forall|i: int, j: int| 0 <= i < j < before.len() implies (
        #[trigger] before[i]).info.id != (#[trigger] before[j]).info.id by {
            assert(before[i] == records[i]);
            assert(before[j] == records[j]);
        }
        lemma_info_of_first(root, descendants.drop_last());
    }
}

} // verus!
