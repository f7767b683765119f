//! Where every record stands in the tree that a query arranges.

use vstd::prelude::*;

use crate::tree_laws;
use crate::window;
use crate::window::{Found, WindowInfo, WindowInfoRecord, WindowNode, WindowQueryOptions};

verus! {

/// Whether two windows are told alike, whatever stands under them.
pub open spec fn same_window(a: WindowNode, b: WindowNode) -> bool {
    &&& a.id == b.id
    &&& a.pid == b.pid
    &&& a.app_name == b.app_name
    &&& a.title == b.title
    &&& a.x == b.x
    &&& a.y == b.y
    &&& a.z == b.z
    &&& a.width == b.width
    &&& a.height == b.height
    &&& a.is_minimized == b.is_minimized
    &&& a.is_maximized == b.is_maximized
    &&& a.is_focused == b.is_focused
}

/// The content of a window is what its fields hold, and the content of a list is that of its
/// windows, one for one.
pub proof fn law_content_is_what_is_held(info: WindowInfo, record: WindowInfoRecord)
    ensures
        info@.id == info.id,
        info@.pid == info.pid,
        info@.app_name == info.app_name@,
        info@.title == info.title@,
        info@.x == info.x,
        info@.y == info.y,
        info@.z == info.z,
        info@.width == info.width,
        info@.height == info.height,
        info@.is_minimized == info.is_minimized,
        info@.is_maximized == info.is_maximized,
        info@.is_focused == info.is_focused,
        info@.children.len() == info.children@.len(),
        forall|i: int|
            0 <= i < info.children@.len() ==> info@.children[i] == (#[trigger] info.children@[i])@,
        record@.info == record.info@,
        record@.parent_id == record.parent_id,
{
    info.lemma_children();
}

/// The contents of lists are the contents of what they hold, one for one.
pub proof fn law_contents_are_one_for_one(windows: Seq<WindowInfo>, records: Seq<WindowInfoRecord>)
    ensures
        window::nodes(windows).len() == windows.len(),
        forall|i: int|
            0 <= i < windows.len() ==> #[trigger] window::nodes(windows)[i] == windows[i]@,
        window::found(records).len() == records.len(),
        forall|i: int|
            0 <= i < records.len() ==> #[trigger] window::found(records)[i] == records[i]@,
{
}

/// Whether a record stands at the top: it names no parent, or one whose id no record has.
pub open spec fn at_top(records: Seq<Found>, record: Found) -> bool {
    record.parent_id matches Some(parent_id) ==> forall|i: int|
        0 <= i < records.len() ==> (#[trigger] records[i]).info.id != parent_id
}

/// Whether windows are those of records, one for one and in the same order, with anything under
/// them.
pub open spec fn lists(windows: Seq<WindowNode>, records: Seq<Found>) -> bool {
    &&& windows.len() == records.len()
    &&& forall|k: int|
        0 <= k < windows.len() ==> same_window(#[trigger] windows[k], records[k].info)
}

/// Whether right under a window stand those of the records that name it as their parent, in the
/// order of the records.
pub open spec fn has_its_children(records: Seq<Found>, window: WindowNode) -> bool {
    lists(window.children, records.filter(|record: Found| record.parent_id == Some(window.id)))
}

/// Whether a window has a size that is asked for.
pub open spec fn is_wanted(options: WindowQueryOptions, window: WindowNode) -> bool {
    options.size_filter matches Some(filter) ==> {
        &&& filter.min_width matches Some(least) ==> least <= window.width
        &&& filter.max_width matches Some(most) ==> window.width <= most
        &&& filter.min_height matches Some(least) ==> least <= window.height
        &&& filter.max_height matches Some(most) ==> window.height <= most
    }
}

/// A size is asked for where neither the width nor the height is beyond a bound that is given.
pub proof fn law_sizes_within_bounds_are_kept(options: WindowQueryOptions, window: WindowNode)
    ensures
        options.admits(window.width, window.height) <==> is_wanted(options, window),
        options.size_filter matches Some(filter) ==> (filter.admits(window.width, window.height)
            <==> is_wanted(options, window)),
{
}

/// Where ids are distinct, the window with the id of a record is that of the record.
proof fn lemma_info_of_record(records: Seq<Found>, i: int)
    requires
        tree_laws::distinct_ids(records),
        0 <= i < records.len(),
    ensures
        window::known(records, records[i].info.id),
        window::info_of(records, records[i].info.id) == records[i].info,
    decreases records.len(),
{
    if i < records.len() - 1 {
        let before = records.drop_last();
        assert(records[i].info.id != records[records.len() - 1].info.id);
        assert forall|a: int, b: int| 0 <= a < b < before.len() implies (
        #[trigger] before[a]).info.id != (#[trigger] before[b]).info.id by {
            assert(records[a].info.id != records[b].info.id);
        }
        lemma_info_of_record(before, i);
    }
}

/// Whether the way up from `id` leads through `visiting` to the top.
spec fn is_way_up(records: Seq<Found>, visiting: Set<u32>, id: u32) -> bool {
    &&& !visiting.contains(id)
    &&& forall|i: int|
        0 <= i < records.len() && (visiting.contains((#[trigger] records[i]).info.id)
            || records[i].info.id == id) ==> at_top(records, records[i]) || (
        records[i].parent_id matches Some(parent_id) && visiting.contains(parent_id))
}

proof fn lemma_listed_subtree(
    records: Seq<Found>,
    options: WindowQueryOptions,
    id: u32,
    visiting: Set<u32>,
)
    requires
        options.include_children,
        options.size_filter is None,
        tree_laws::distinct_ids(records),
        window::known(records, id),
        is_way_up(records, visiting, id),
    ensures
        window::subtree(records, options, id, visiting).len() == 1,
        same_window(
            window::subtree(records, options, id, visiting)[0],
            window::info_of(records, id),
        ),
        tree_laws::every(
            window::subtree(records, options, id, visiting),
            |window: WindowNode| has_its_children(records, window),
        ),
    decreases window::unvisited(records, visiting), 0nat,
{
    window::lemma_unvisited_shrinks(records, id, visiting);
    tree_laws::lemma_info_id(records, id);
    let under = |record: Found| record.parent_id == Some(id);
    let kids = records.filter(under);
    let ids = window::child_ids(records, id);
    let inner = visiting.insert(id);
    let own = choose|j: int| 0 <= j < records.len() && (#[trigger] records[j]).info.id == id;
    assert forall|k: int| 0 <= k < ids.len() implies window::known(records, #[trigger] ids[k])
        && is_way_up(records, inner, ids[k]) && window::info_of(records, ids[k])
        == kids[k].info by {
        tree_laws::lemma_ids_of_records(records, under, k);
        let i = choose|i: int|
            0 <= i < records.len() && #[trigger] records[i] == records.filter(under)[k] && under(
                records[i],
            );
        assert(ids[k] == records[i].info.id);
        lemma_info_of_record(records, i);
        assert(!at_top(records, records[i])) by {
            assert(records[own].info.id == id);
        }
        assert(!inner.contains(ids[k]));
        assert forall|j: int|
            0 <= j < records.len() && (inner.contains((#[trigger] records[j]).info.id)
                || records[j].info.id == ids[k]) implies at_top(records, records[j]) || (
        records[j].parent_id matches Some(parent_id) && inner.contains(parent_id)) by {
            if records[j].info.id == ids[k] {
                if j < i {
                    assert(records[j].info.id != records[i].info.id);
                } else if i < j {
                    assert(records[i].info.id != records[j].info.id);
                }
            }
        }
    }
    lemma_listed_forest(records, options, ids, inner);
    let below = window::forest(records, options, ids, inner);
    let shown = window::subtree(records, options, id, visiting);
    assert(shown =~= seq![window::info_of(records, id).with_children(below)]);
    assert(lists(below, kids));
    assert(has_its_children(records, shown[0]));
}

proof fn lemma_listed_forest(
    records: Seq<Found>,
    options: WindowQueryOptions,
    ids: Seq<u32>,
    visiting: Set<u32>,
)
    requires
        options.include_children,
        options.size_filter is None,
        tree_laws::distinct_ids(records),
        forall|k: int|
            0 <= k < ids.len() ==> window::known(records, #[trigger] ids[k]) && is_way_up(
                records,
                visiting,
                ids[k],
            ),
    ensures
        window::forest(records, options, ids, visiting).len() == ids.len(),
        forall|k: int|
            0 <= k < ids.len() ==> same_window(
                #[trigger] window::forest(records, options, ids, visiting)[k],
                window::info_of(records, ids[k]),
            ),
        tree_laws::every(
            window::forest(records, options, ids, visiting),
            |window: WindowNode| has_its_children(records, window),
        ),
    decreases window::unvisited(records, visiting), ids.len(),
{
    if ids.len() > 0 {
        let last = ids[ids.len() - 1];
        lemma_listed_forest(records, options, ids.drop_last(), visiting);
        lemma_listed_subtree(records, options, last, visiting);
        let a = window::forest(records, options, ids.drop_last(), visiting);
        let b = window::subtree(records, options, last, visiting);
        tree_laws::lemma_every_concat(
            a,
            b,
            |window: WindowNode| has_its_children(records, window),
        );
        let all = window::forest(records, options, ids, visiting);
        assert forall|k: int| 0 <= k < ids.len() implies same_window(
            #[trigger] all[k],
            window::info_of(records, ids[k]),
        ) by {
            if k < a.len() {
                assert(all[k] == a[k]);
                assert(ids.drop_last()[k] == ids[k]);
            } else {
                assert(all[k] == b[0]);
            }
        }
    }
}

proof fn lemma_roots(records: Seq<Found>)
    ensures
        window::root_ids(records) == records.filter(
            |record: Found| at_top(records, record),
        ).map_values(|record: Found| record.info.id),
{
    let mine = |record: Found| at_top(records, record);
    let theirs = |record: Found| window::is_root(records, record);
    assert forall|record: Found| #[trigger] mine(record) == theirs(record) by {
        if let Some(parent_id) = record.parent_id {
            if window::known(records, parent_id) {
                let i = choose|i: int|
                    0 <= i < records.len() && (#[trigger] records[i]).info.id == parent_id;
                assert(records[i].info.id == parent_id);
            }
        }
    }
    assert(mine =~= theirs);
}

proof fn lemma_root(records: Seq<Found>, k: int)
    requires
        tree_laws::distinct_ids(records),
        0 <= k < window::root_ids(records).len(),
    ensures
        ({
            let top = records.filter(|record: Found| at_top(records, record));
            &&& window::root_ids(records).len() == top.len()
            &&& window::root_ids(records)[k] == top[k].info.id
            &&& at_top(records, top[k])
            &&& window::known(records, top[k].info.id)
            &&& window::info_of(records, top[k].info.id) == top[k].info
            &&& exists|i: int| 0 <= i < records.len() && #[trigger] records[i] == top[k]
        }),
{
    let mine = |record: Found| at_top(records, record);
    lemma_roots(records);
    tree_laws::lemma_ids_of_records(records, mine, k);
    let i = choose|i: int|
        0 <= i < records.len() && #[trigger] records[i] == records.filter(mine)[k] && mine(
            records[i],
        );
    lemma_info_of_record(records, i);
}

/// Where ids are distinct, a query with children and without a size filter reports at the top the
/// windows that name no known parent, and right under every window, at any depth, those that name it
/// as their parent; both in the order of the records.
pub proof fn law_windows_stand_under_their_parents(
    records: Seq<Found>,
    options: WindowQueryOptions,
)
    requires
        options.include_children,
        options.size_filter is None,
        tree_laws::distinct_ids(records),
    ensures
        lists(
            window::window_tree(records, options),
            records.filter(|record: Found| at_top(records, record)),
        ),
        tree_laws::every(
            window::window_tree(records, options),
            |window: WindowNode| has_its_children(records, window),
        ),
{
    let ids = window::root_ids(records);
    let top = records.filter(|record: Found| at_top(records, record));
    lemma_roots(records);
    assert forall|k: int| 0 <= k < ids.len() implies window::known(records, #[trigger] ids[k])
        && is_way_up(records, Set::empty(), ids[k]) && window::info_of(records, ids[k])
        == top[k].info by {
        lemma_root(records, k);
        let i = choose|i: int| 0 <= i < records.len() && #[trigger] records[i] == top[k];
        assert forall|j: int|
            0 <= j < records.len() && (#[trigger] records[j]).info.id == ids[k] implies at_top(
            records,
            records[j],
        ) by {
            if j < i {
                assert(records[j].info.id != records[i].info.id);
            } else if i < j {
                assert(records[i].info.id != records[j].info.id);
            }
        }
    }
    lemma_listed_forest(records, options, ids, Set::empty());
}

/// Whether `path` goes up from the record with the id `id`, from each record to the one that it names
/// as its parent, to the record with the id `above`, or to the top where there is none; and no record
/// in between has a size that is asked for, while the one above has.
pub open spec fn leads_up(
    records: Seq<Found>,
    options: WindowQueryOptions,
    path: Seq<int>,
    id: u32,
    above: Option<u32>,
) -> bool {
    &&& path.len() > 0
    &&& forall|i: int| 0 <= i < path.len() ==> 0 <= #[trigger] path[i] < records.len()
    &&& records[path[0]].info.id == id
    &&& forall|i: int|
        0 < i < path.len() ==> records[path[i - 1]].parent_id == Some(
            records[#[trigger] path[i]].info.id,
        )
    &&& match above {
        Some(above) => {
            &&& path.len() > 1
            &&& records[path.last()].info.id == above
            &&& is_wanted(options, records[path.last()].info)
            &&& forall|i: int|
                0 < i < path.len() - 1 ==> !is_wanted(options, records[#[trigger] path[i]].info)
        },
        None => {
            &&& at_top(records, records[path.last()])
            &&& forall|i: int|
                0 < i < path.len() ==> !is_wanted(options, records[#[trigger] path[i]].info)
        },
    }
}

/// Whether the nearest window of a size that is asked for, on the way up from a window, is `above`;
/// there is none where it is none.
pub open spec fn hangs_from(
    records: Seq<Found>,
    options: WindowQueryOptions,
    id: u32,
    above: Option<u32>,
) -> bool {
    exists|path: Seq<int>| leads_up(records, options, path, id, above)
}

/// Whether every window right under a window hangs from it.
pub open spec fn holds_what_hangs(
    records: Seq<Found>,
    options: WindowQueryOptions,
    window: WindowNode,
) -> bool {
    forall|k: int|
        0 <= k < window.children.len() ==> hangs_from(
            records,
            options,
            (#[trigger] window.children[k]).id,
            Some(window.id),
        )
}

proof fn lemma_longer_way(
    records: Seq<Found>,
    options: WindowQueryOptions,
    path: Seq<int>,
    i: int,
    id: u32,
    above: Option<u32>,
)
    requires
        leads_up(records, options, path, id, above),
        0 <= i < records.len(),
        records[i].parent_id == Some(id),
        !is_wanted(options, records[path[0]].info),
    ensures
        hangs_from(records, options, records[i].info.id, above),
{
    let longer = seq![i] + path;
    assert(longer[0] == i);
    assert forall|j: int| 0 < j < longer.len() implies longer[j] == #[trigger] path[j - 1] by {}
    assert forall|j: int| 0 < j < longer.len() implies records[longer[j - 1]].parent_id == Some(
        records[#[trigger] longer[j]].info.id,
    ) by {
        assert(longer[j] == path[j - 1]);
        if j > 1 {
            assert(longer[j - 1] == path[j - 2]);
            assert(records[path[(j - 1) - 1]].parent_id == Some(records[path[j - 1]].info.id));
        }
    }
    assert forall|j: int| 0 <= j < longer.len() implies 0 <= #[trigger] longer[j]
        < records.len() by {
        if j > 0 {
            assert(longer[j] == path[j - 1]);
        }
    }
    assert(longer.last() == path.last());
    assert forall|j: int|
        0 < j < longer.len() && (above is Some ==> j < longer.len() - 1) implies !is_wanted(
        options,
        records[#[trigger] longer[j]].info,
    ) by {
        assert(longer[j] == path[j - 1]);
    }
    assert(leads_up(records, options, longer, records[i].info.id, above));
}

proof fn lemma_way_of_children(
    records: Seq<Found>,
    options: WindowQueryOptions,
    id: u32,
    above: Option<u32>,
)
    requires
        tree_laws::distinct_ids(records),
        hangs_from(records, options, id, above),
    ensures
        ({
            let next: Option<u32> = if is_wanted(options, window::info_of(records, id)) {
                Some(id)
            } else {
                above
            };
            let ids = window::child_ids(records, id);
            forall|k: int|
                0 <= k < ids.len() ==> hangs_from(records, options, #[trigger] ids[k], next)
        }),
{
    let path = choose|path: Seq<int>| leads_up(records, options, path, id, above);
    assert(0 <= path[0] < records.len());
    lemma_info_of_record(records, path[0]);
    let own = window::info_of(records, id);
    assert(own == records[path[0]].info);
    let kept = is_wanted(options, own);
    let next: Option<u32> = if kept {
        Some(id)
    } else {
        above
    };
    let under = |record: Found| record.parent_id == Some(id);
    let ids = window::child_ids(records, id);
    assert forall|k: int| 0 <= k < ids.len() implies hangs_from(
        records,
        options,
        #[trigger] ids[k],
        next,
    ) by {
        tree_laws::lemma_ids_of_records(records, under, k);
        let i = choose|i: int|
            0 <= i < records.len() && #[trigger] records[i] == records.filter(under)[k] && under(
                records[i],
            );
        assert(ids[k] == records[i].info.id);
        if kept {
            assert(leads_up(records, options, seq![i, path[0]], ids[k], next));
        } else {
            lemma_longer_way(records, options, path, i, id, above);
        }
    }
}

proof fn lemma_hanging_subtree(
    records: Seq<Found>,
    options: WindowQueryOptions,
    id: u32,
    visiting: Set<u32>,
    above: Option<u32>,
)
    requires
        options.include_children,
        tree_laws::distinct_ids(records),
        hangs_from(records, options, id, above),
    ensures
        forall|k: int|
            0 <= k < window::subtree(records, options, id, visiting).len() ==> hangs_from(
                records,
                options,
                (#[trigger] window::subtree(records, options, id, visiting)[k]).id,
                above,
            ),
        tree_laws::every(
            window::subtree(records, options, id, visiting),
            |window: WindowNode| holds_what_hangs(records, options, window),
        ),
    decreases window::unvisited(records, visiting), 0nat,
{
    if !visiting.contains(id) && window::known(records, id) {
        window::lemma_unvisited_shrinks(records, id, visiting);
        let own = window::info_of(records, id);
        let kept = is_wanted(options, own);
        assert(kept == options.admits(own.width, own.height));
        let next: Option<u32> = if kept {
            Some(id)
        } else {
            above
        };
        let ids = window::child_ids(records, id);
        lemma_way_of_children(records, options, id, above);
        tree_laws::lemma_info_id(records, id);
        lemma_hanging_forest(records, options, ids, visiting.insert(id), next);
        let below = window::forest(records, options, ids, visiting.insert(id));
        let shown = window::subtree(records, options, id, visiting);
        if kept {
            assert(shown =~= seq![own.with_children(below)]);
            assert(holds_what_hangs(records, options, shown[0]));
        } else {
            assert(shown == below);
        }
    }
}

proof fn lemma_hanging_forest(
    records: Seq<Found>,
    options: WindowQueryOptions,
    ids: Seq<u32>,
    visiting: Set<u32>,
    above: Option<u32>,
)
    requires
        options.include_children,
        tree_laws::distinct_ids(records),
        forall|k: int|
            0 <= k < ids.len() ==> hangs_from(records, options, #[trigger] ids[k], above),
    ensures
        forall|k: int|
            0 <= k < window::forest(records, options, ids, visiting).len() ==> hangs_from(
                records,
                options,
                (#[trigger] window::forest(records, options, ids, visiting)[k]).id,
                above,
            ),
        tree_laws::every(
            window::forest(records, options, ids, visiting),
            |window: WindowNode| holds_what_hangs(records, options, window),
        ),
    decreases window::unvisited(records, visiting), ids.len(),
{
    if ids.len() > 0 {
        let last = ids[ids.len() - 1];
        lemma_hanging_forest(records, options, ids.drop_last(), visiting, above);
        lemma_hanging_subtree(records, options, last, visiting, above);
        let a = window::forest(records, options, ids.drop_last(), visiting);
        let b = window::subtree(records, options, last, visiting);
        tree_laws::lemma_every_concat(
            a,
            b,
            |window: WindowNode| holds_what_hangs(records, options, window),
        );
        let all = window::forest(records, options, ids, visiting);
        assert forall|k: int| 0 <= k < all.len() implies hangs_from(
            records,
            options,
            (#[trigger] all[k]).id,
            above,
        ) by {
            if k < a.len() {
                assert(all[k] == a[k]);
            } else {
                assert(all[k] == b[k - a.len()]);
            }
        }
    }
}

/// Where ids are distinct, a query with children reports every window, at any depth, under the
/// nearest window on its way up that has a size asked for, and at the top where there is none.
pub proof fn law_windows_hang_from_the_nearest_above(
    records: Seq<Found>,
    options: WindowQueryOptions,
)
    requires
        options.include_children,
        tree_laws::distinct_ids(records),
    ensures
        forall|k: int|
            0 <= k < window::window_tree(records, options).len() ==> hangs_from(
                records,
                options,
                (#[trigger] window::window_tree(records, options)[k]).id,
                None,
            ),
        tree_laws::every(
            window::window_tree(records, options),
            |window: WindowNode| holds_what_hangs(records, options, window),
        ),
{
    let ids = window::root_ids(records);
    let top = records.filter(|record: Found| at_top(records, record));
    assert forall|k: int| 0 <= k < ids.len() implies hangs_from(
        records,
        options,
        #[trigger] ids[k],
        None,
    ) by {
        lemma_root(records, k);
        let i = choose|i: int| 0 <= i < records.len() && #[trigger] records[i] == top[k];
        assert(leads_up(records, options, seq![i], ids[k], None));
    }
    lemma_hanging_forest(records, options, ids, Set::empty(), None);
}

/// Whether a window is told as the last record with its id tells it.
pub open spec fn told_by_last(records: Seq<Found>, window: WindowNode) -> bool {
    exists|j: int|
        {
            &&& 0 <= j < records.len()
            &&& same_window(window, (#[trigger] records[j]).info)
            &&& forall|k: int| j < k < records.len() ==> (#[trigger] records[k]).info.id != window.id
        }
}

proof fn lemma_told_by_last(records: Seq<Found>, id: u32, below: Seq<WindowNode>)
    requires
        window::known(records, id),
    ensures
        told_by_last(records, window::info_of(records, id).with_children(below)),
        window::info_of(records, id).id == id,
    decreases records.len(),
{
    let i = choose|i: int| 0 <= i < records.len() && (#[trigger] records[i]).info.id == id;
    let shown = window::info_of(records, id).with_children(below);
    if records.last().info.id == id {
        assert(same_window(shown, records[records.len() - 1].info));
    } else {
        let before = records.drop_last();
        assert(before[i].info.id == id);
        lemma_told_by_last(before, id, below);
        let j = choose|j: int|
            {
                &&& 0 <= j < before.len()
                &&& same_window(shown, (#[trigger] before[j]).info)
                &&& forall|k: int|
                    j < k < before.len() ==> (#[trigger] before[k]).info.id != shown.id
            };
        assert(same_window(shown, records[j].info));
        assert forall|k: int| j < k < records.len() implies (#[trigger] records[k]).info.id
            != shown.id by {
            if k < before.len() {
                assert(before[k] == records[k]);
            }
        }
    }
}

/// Every window in the tree, at any depth, is told as the last record with its id tells it, and has a
/// size that is asked for.
pub proof fn law_windows_are_told_by_the_last_record(
    records: Seq<Found>,
    options: WindowQueryOptions,
)
    ensures
        tree_laws::every(
            window::window_tree(records, options),
            |window: WindowNode| told_by_last(records, window) && is_wanted(options, window),
        ),
{
    let keep = |window: WindowNode| told_by_last(records, window) && is_wanted(options, window);
    assert forall|id: u32, below: Seq<WindowNode>|
        window::known(records, id) && options.admits(
            window::info_of(records, id).width,
            window::info_of(records, id).height,
        ) implies keep(#[trigger] window::info_of(records, id).with_children(below)) by {
        lemma_told_by_last(records, id, below);
    }
    tree_laws::lemma_every_forest(
        records,
        options,
        window::root_ids(records),
        Set::empty(),
        keep,
    );
}

proof fn lemma_flat(
    records: Seq<Found>,
    part: Seq<Found>,
    options: WindowQueryOptions,
    at_top: spec_fn(Found) -> bool,
)
    requires
        !options.include_children,
        forall|i: int|
            0 <= i < part.len() ==> window::known(records, (#[trigger] part[i]).info.id)
                && window::info_of(records, part[i].info.id) == part[i].info,
    ensures
        ({
            let ids = part.filter(at_top).map_values(|record: Found| record.info.id);
            let wanted = part.filter(
                |record: Found| at_top(record) && is_wanted(options, record.info),
            );
            let shown = window::forest(records, options, ids, Set::empty());
            &&& lists(shown, wanted)
            &&& forall|k: int| 0 <= k < shown.len() ==> (#[trigger] shown[k]).children.len() == 0
        }),
    decreases part.len(),
{
    reveal(Seq::filter);
    let id_of = |record: Found| record.info.id;
    let both = |record: Found| at_top(record) && is_wanted(options, record.info);
    let ids = part.filter(at_top).map_values(id_of);
    let shown = window::forest(records, options, ids, Set::empty());
    if part.len() > 0 {
        let before = part.drop_last();
        let last = part[part.len() - 1];
        assert forall|i: int| 0 <= i < before.len() implies window::known(
            records,
            (#[trigger] before[i]).info.id,
        ) && window::info_of(records, before[i].info.id) == before[i].info by {
            assert(part[i] == before[i]);
        }
        lemma_flat(records, before, options, at_top);
        let ids_before = before.filter(at_top).map_values(id_of);
        let shown_before = window::forest(records, options, ids_before, Set::empty());
        if at_top(last) {
            assert(ids.drop_last() =~= ids_before);
            assert(ids.last() == last.info.id);
            let one = window::subtree(records, options, last.info.id, Set::empty());
            assert(shown == shown_before + one);
            if is_wanted(options, last.info) {
                assert(one =~= seq![last.info.with_children(Seq::empty())]);
                assert(part.filter(both) == before.filter(both).push(last));
            } else {
                assert(one =~= Seq::empty());
                assert(shown =~= shown_before);
            }
        }
    }
}

/// Where ids are distinct, a query without children reports those windows at the top that have a size
/// asked for, in the order of the records, and nothing under them.
pub proof fn law_top_windows_stand_alone(records: Seq<Found>, options: WindowQueryOptions)
    requires
        !options.include_children,
        tree_laws::distinct_ids(records),
    ensures
        lists(
            window::window_tree(records, options),
            records.filter(
                |record: Found| at_top(records, record) && is_wanted(options, record.info),
            ),
        ),
        forall|k: int|
            0 <= k < window::window_tree(records, options).len() ==> (
            #[trigger] window::window_tree(records, options)[k]).children.len() == 0,
{
    let mine = |record: Found| at_top(records, record);
    lemma_roots(records);
    assert forall|i: int| 0 <= i < records.len() implies window::known(
        records,
        (#[trigger] records[i]).info.id,
    ) && window::info_of(records, records[i].info.id) == records[i].info by {
        lemma_info_of_record(records, i);
    }
    lemma_flat(records, records, options, mine);
    assert((|record: Found| mine(record) && is_wanted(options, record.info)) =~= (|record: Found|
        at_top(records, record) && is_wanted(options, record.info)));
}

proof fn lemma_every_follows(
    windows: Seq<WindowNode>,
    keep: spec_fn(WindowNode) -> bool,
    then: spec_fn(WindowNode) -> bool,
)
    requires
        tree_laws::every(windows, keep),
        forall|window: WindowNode| #[trigger] keep(window) ==> then(window),
    ensures
        tree_laws::every(windows, then),
    decreases windows,
{
    assert forall|i: int| 0 <= i < windows.len() implies then(#[trigger] windows[i])
        && tree_laws::every(windows[i].children, then) by {
        assert(keep(windows[i]));
        lemma_every_follows(windows[i].children, keep, then);
    }
}

/// The records of an expansion: the window that is expanded, and what was found under it.
pub open spec fn expansion_records(root: WindowNode, descendants: Seq<Found>) -> Seq<Found> {
    seq![Found { info: root, parent_id: None }] + descendants
}

proof fn lemma_without_root(root: WindowNode, descendants: Seq<Found>, id: u32)
    ensures
        expansion_records(root, descendants).filter(
            |record: Found| record.parent_id == Some(id),
        ) == descendants.filter(|record: Found| record.parent_id == Some(id)),
{
    let under = |record: Found| record.parent_id == Some(id);
    let top = seq![Found { info: root, parent_id: None }];
    Seq::filter_distributes_over_add(top, descendants, under);
    reveal_with_fuel(Seq::filter, 2);
    assert(top.drop_last() =~= Seq::empty());
    assert(top.filter(under) =~= Seq::empty());
    assert(expansion_records(root, descendants).filter(under) =~= descendants.filter(under));
}

proof fn lemma_first_of_forest(
    records: Seq<Found>,
    options: WindowQueryOptions,
    ids: Seq<u32>,
    visiting: Set<u32>,
)
    requires
        ids.len() > 0,
        window::subtree(records, options, ids[0], visiting).len() > 0,
    ensures
        window::forest(records, options, ids, visiting).len() > 0,
        window::forest(records, options, ids, visiting)[0] == window::subtree(
            records,
            options,
            ids[0],
            visiting,
        )[0],
    decreases ids.len(),
{
    reveal_with_fuel(window::forest, 2);
    if ids.len() > 1 {
        lemma_first_of_forest(records, options, ids.drop_last(), visiting);
    } else {
        assert(ids.drop_last() =~= Seq::empty());
    }
}

/// The window that is expanded stands first at the top.
proof fn lemma_root_comes_first(
    root: WindowNode,
    descendants: Seq<Found>,
    options: WindowQueryOptions,
)
    requires
        options.include_children,
        is_wanted(options, root),
        tree_laws::distinct_ids(expansion_records(root, descendants)),
    ensures
        ({
            let tree = window::window_tree(expansion_records(root, descendants), options);
            &&& tree.len() > 0
            &&& tree[0].id == root.id
            &&& window::children_of(tree, root.id) == tree[0].children
        }),
{
    let records = expansion_records(root, descendants);
    let mine = |record: Found| at_top(records, record);
    let top = Found { info: root, parent_id: None };
    Seq::filter_distributes_over_add(seq![top], descendants, mine);
    reveal_with_fuel(Seq::filter, 2);
    assert(seq![top].drop_last() =~= Seq::empty());
    assert(seq![top].filter(mine) =~= seq![top]);
    assert(records.filter(mine)[0] == top);
    lemma_roots(records);
    lemma_info_of_record(records, 0);
    assert(records[0] == top);
    let ids = window::root_ids(records);
    assert(ids[0] == root.id);
    lemma_first_of_forest(records, options, ids, Set::empty());
}

/// Where ids are distinct, expanding a window without a size filter gives the windows that name it as
/// their parent, in the order in which they were found. With children, right under each of them, at
/// any depth, stand those that name it as their parent; without, nothing stands under them.
pub proof fn law_expansion_stands_under_its_window(
    root: WindowNode,
    descendants: Seq<Found>,
    options: WindowQueryOptions,
)
    requires
        options.size_filter is None,
        tree_laws::distinct_ids(expansion_records(root, descendants)),
    ensures
        lists(
            window::expanded_children(root, descendants, options),
            descendants.filter(|record: Found| record.parent_id == Some(root.id)),
        ),
        options.include_children ==> tree_laws::every(
            window::expanded_children(root, descendants, options),
            |window: WindowNode| has_its_children(descendants, window),
        ),
        !options.include_children ==> forall|k: int|
            0 <= k < window::expanded_children(root, descendants, options).len() ==> (
            #[trigger] window::expanded_children(
                root,
                descendants,
                options,
            )[k]).children.len() == 0,
{
    let records = expansion_records(root, descendants);
    let deep = options.including_children(true);
    let tree = window::window_tree(records, deep);
    law_windows_stand_under_their_parents(records, deep);
    lemma_root_comes_first(root, descendants, deep);
    lemma_without_root(root, descendants, root.id);
    let keep = |window: WindowNode| has_its_children(records, window);
    let then = |window: WindowNode| has_its_children(descendants, window);
    assert(keep(tree[0]));
    assert forall|window: WindowNode| #[trigger] keep(window) implies then(window) by {
        lemma_without_root(root, descendants, window.id);
    }
    lemma_every_follows(tree[0].children, keep, then);
}

/// Where ids are distinct and the window that is expanded has a size asked for, expanding it with
/// children gives every window, at any depth, under the nearest window on its way up that has a size
/// asked for.
pub proof fn law_expansion_hangs_from_the_nearest_above(
    root: WindowNode,
    descendants: Seq<Found>,
    options: WindowQueryOptions,
)
    requires
        options.include_children,
        is_wanted(options, root),
        tree_laws::distinct_ids(expansion_records(root, descendants)),
    ensures
        forall|k: int|
            0 <= k < window::expanded_children(root, descendants, options).len() ==> hangs_from(
                expansion_records(root, descendants),
                options,
                (#[trigger] window::expanded_children(root, descendants, options)[k]).id,
                Some(root.id),
            ),
        tree_laws::every(
            window::expanded_children(root, descendants, options),
            |window: WindowNode|
                holds_what_hangs(expansion_records(root, descendants), options, window),
        ),
{
    let records = expansion_records(root, descendants);
    let tree = window::window_tree(records, options);
    assert(options.including_children(true) == options);
    law_windows_hang_from_the_nearest_above(records, options);
    lemma_root_comes_first(root, descendants, options);
    let keep = |window: WindowNode| holds_what_hangs(records, options, window);
    assert(keep(tree[0]));
    assert(window::expanded_children(root, descendants, options) == tree[0].children);
}

/// Whether windows have the ids of records, one for one and in the same order.
pub open spec fn named_alike(windows: Seq<WindowNode>, records: Seq<Found>) -> bool {
    &&& windows.len() == records.len()
    &&& forall|k: int|
        0 <= k < windows.len() ==> (#[trigger] windows[k]).id == records[k].info.id
}

/// Whether right under each window of a list, and of what is under it, stand those of the records
/// that name it as their parent, in the order of the records; but for those that would stand under
/// themselves. Above the list stand the windows with the ids `above`.
pub open spec fn arranged(records: Seq<Found>, windows: Seq<WindowNode>, above: Set<u32>) -> bool
    decreases windows,
{
    forall|i: int|
        0 <= i < windows.len() ==> named_alike(
            (#[trigger] windows[i]).children,
            records.filter(
                |record: Found|
                    record.parent_id == Some(windows[i].id) && !above.contains(record.info.id)
                        && record.info.id != windows[i].id,
            ),
        ) && arranged(records, windows[i].children, above.insert(windows[i].id))
}

proof fn lemma_arranged_concat(
    records: Seq<Found>,
    a: Seq<WindowNode>,
    b: Seq<WindowNode>,
    above: Set<u32>,
)
    requires
        arranged(records, a, above),
        arranged(records, b, above),
    ensures
        arranged(records, a + b, above),
{
    let all = a + b;
    assert forall|i: int| 0 <= i < all.len() implies named_alike(
        (#[trigger] all[i]).children,
        records.filter(
            |record: Found|
                record.parent_id == Some(all[i].id) && !above.contains(record.info.id)
                    && record.info.id != all[i].id,
        ),
    ) && arranged(records, all[i].children, above.insert(all[i].id)) by {
        let one = if i < a.len() {
            a[i]
        } else {
            b[i - a.len()]
        };
        assert(all[i] == one);
    }
}

proof fn lemma_arranged_subtree(
    records: Seq<Found>,
    options: WindowQueryOptions,
    id: u32,
    visiting: Set<u32>,
)
    requires
        options.include_children,
        options.size_filter is None,
        window::known(records, id),
        !visiting.contains(id),
    ensures
        window::subtree(records, options, id, visiting).len() == 1,
        window::subtree(records, options, id, visiting)[0].id == id,
        arranged(records, window::subtree(records, options, id, visiting), visiting),
    decreases window::unvisited(records, visiting), 0nat, 0nat,
{
    window::lemma_unvisited_shrinks(records, id, visiting);
    tree_laws::lemma_info_id(records, id);
    let under = |record: Found| record.parent_id == Some(id);
    let ids = window::child_ids(records, id);
    let inner = visiting.insert(id);
    let below = window::forest(records, options, ids, inner);
    assert forall|i: int| 0 <= i < records.len() implies window::known(
        records,
        (#[trigger] records[i]).info.id,
    ) by {}
    lemma_arranged_forest(records, records, options, under, inner);
    assert((|record: Found| under(record) && !inner.contains(record.info.id)) =~= (|record: Found|
        record.parent_id == Some(id) && !visiting.contains(record.info.id) && record.info.id
            != id));
    let shown = window::subtree(records, options, id, visiting);
    assert(shown =~= seq![window::info_of(records, id).with_children(below)]);
}

proof fn lemma_arranged_forest(
    records: Seq<Found>,
    part: Seq<Found>,
    options: WindowQueryOptions,
    keep: spec_fn(Found) -> bool,
    visiting: Set<u32>,
)
    requires
        options.include_children,
        options.size_filter is None,
        forall|i: int|
            0 <= i < part.len() ==> window::known(records, (#[trigger] part[i]).info.id),
    ensures
        ({
            let ids = part.filter(keep).map_values(|record: Found| record.info.id);
            let shown = window::forest(records, options, ids, visiting);
            &&& named_alike(
                shown,
                part.filter(|record: Found| keep(record) && !visiting.contains(record.info.id)),
            )
            &&& arranged(records, shown, visiting)
        }),
    decreases window::unvisited(records, visiting), 1nat, part.len(),
{
    reveal(Seq::filter);
    let id_of = |record: Found| record.info.id;
    let both = |record: Found| keep(record) && !visiting.contains(record.info.id);
    let ids = part.filter(keep).map_values(id_of);
    let shown = window::forest(records, options, ids, visiting);
    if part.len() > 0 {
        let before = part.drop_last();
        let last = part[part.len() - 1];
        assert forall|i: int| 0 <= i < before.len() implies window::known(
            records,
            (#[trigger] before[i]).info.id,
        ) by {
            assert(part[i] == before[i]);
        }
        lemma_arranged_forest(records, before, options, keep, visiting);
        let ids_before = before.filter(keep).map_values(id_of);
        let shown_before = window::forest(records, options, ids_before, visiting);
        if keep(last) {
            assert(ids.drop_last() =~= ids_before);
            assert(ids.last() == last.info.id);
            let one = window::subtree(records, options, last.info.id, visiting);
            assert(shown == shown_before + one);
            if visiting.contains(last.info.id) {
                assert(one =~= Seq::empty());
                assert(shown =~= shown_before);
            } else {
                lemma_arranged_subtree(records, options, last.info.id, visiting);
                lemma_arranged_concat(records, shown_before, one, visiting);
                assert(part.filter(both) == before.filter(both).push(last));
            }
        }
    }
}

/// Whatever the records say, a query with children and without a size filter reports at the top the
/// windows that name no known parent, and right under every window those that name it as their
/// parent; both in the order of the records. Only a window that would stand under itself is left out.
pub proof fn law_every_tree_follows_the_parents(records: Seq<Found>, options: WindowQueryOptions)
    requires
        options.include_children,
        options.size_filter is None,
    ensures
        named_alike(
            window::window_tree(records, options),
            records.filter(|record: Found| at_top(records, record)),
        ),
        arranged(records, window::window_tree(records, options), Set::empty()),
{
    let mine = |record: Found| at_top(records, record);
    lemma_roots(records);
    assert forall|i: int| 0 <= i < records.len() implies window::known(
        records,
        (#[trigger] records[i]).info.id,
    ) by {}
    lemma_arranged_forest(records, records, options, mine, Set::empty());
    assert((|record: Found| mine(record) && !Set::<u32>::empty().contains(record.info.id)) =~= mine);
}

/// The windows of a list, and of what is under them, that have a size asked for; what is under one
/// that has not moves up in its place.
pub open spec fn pruned(options: WindowQueryOptions, windows: Seq<WindowNode>) -> Seq<WindowNode>
    decreases windows,
{
    if windows.len() == 0 {
        Seq::empty()
    } else {
        let before = pruned(options, windows.drop_last());
        let last = windows.last();
        if is_wanted(options, last) {
            before.push(WindowNode { children: pruned(options, last.children), ..last })
        } else {
            before + pruned(options, last.children)
        }
    }
}

proof fn lemma_pruned_concat(
    options: WindowQueryOptions,
    a: Seq<WindowNode>,
    b: Seq<WindowNode>,
)
    ensures
        pruned(options, a + b) == pruned(options, a) + pruned(options, b),
    decreases b.len(),
{
    if b.len() == 0 {
        assert(a + b =~= a);
        assert(pruned(options, a + b) =~= pruned(options, a) + pruned(options, b));
    } else {
        assert((a + b).drop_last() =~= a + b.drop_last());
        lemma_pruned_concat(options, a, b.drop_last());
        assert(pruned(options, a + b) =~= pruned(options, a) + pruned(options, b));
    }
}

proof fn lemma_pruned_subtree(
    records: Seq<Found>,
    options: WindowQueryOptions,
    id: u32,
    visiting: Set<u32>,
)
    requires
        options.include_children,
    ensures
        window::subtree(records, options, id, visiting) == pruned(
            options,
            window::subtree(records, tree_laws::unfiltered(options), id, visiting),
        ),
    decreases window::unvisited(records, visiting), 0nat,
{
    reveal_with_fuel(pruned, 2);
    if !visiting.contains(id) && window::known(records, id) {
        window::lemma_unvisited_shrinks(records, id, visiting);
        let ids = window::child_ids(records, id);
        lemma_pruned_forest(records, options, ids, visiting.insert(id));
        let whole = window::subtree(records, tree_laws::unfiltered(options), id, visiting);
        assert(whole.drop_last() =~= Seq::empty());
        assert(window::subtree(records, options, id, visiting) =~= pruned(options, whole));
    } else {
        assert(pruned(options, Seq::empty()) =~= Seq::empty());
    }
}

proof fn lemma_pruned_forest(
    records: Seq<Found>,
    options: WindowQueryOptions,
    ids: Seq<u32>,
    visiting: Set<u32>,
)
    requires
        options.include_children,
    ensures
        window::forest(records, options, ids, visiting) == pruned(
            options,
            window::forest(records, tree_laws::unfiltered(options), ids, visiting),
        ),
    decreases window::unvisited(records, visiting), ids.len(),
{
    if ids.len() > 0 {
        lemma_pruned_forest(records, options, ids.drop_last(), visiting);
        lemma_pruned_subtree(records, options, ids.last(), visiting);
        lemma_pruned_concat(
            options,
            window::forest(records, tree_laws::unfiltered(options), ids.drop_last(), visiting),
            window::subtree(records, tree_laws::unfiltered(options), ids.last(), visiting),
        );
    }
}

/// Whatever the records say, a query with children and a size filter reports what is left of the tree
/// without the filter when the windows of other sizes are taken out of it, and what is under each of
/// them moves up in its place.
pub proof fn law_filter_takes_windows_out(records: Seq<Found>, options: WindowQueryOptions)
    requires
        options.include_children,
    ensures
        window::window_tree(records, options) == pruned(
            options,
            window::window_tree(
                records,
                (WindowQueryOptions { size_filter: None, ..options }),
            ),
        ),
{
    lemma_pruned_forest(records, options, window::root_ids(records), Set::empty());
}

/// A list of windows with nothing under them.
pub open spec fn alone(windows: Seq<WindowNode>) -> Seq<WindowNode> {
    windows.map_values(|window: WindowNode| WindowNode { children: Seq::empty(), ..window })
}

proof fn lemma_alone(records: Seq<Found>, options: WindowQueryOptions, ids: Seq<u32>)
    requires
        options.include_children,
        options.size_filter is None,
        forall|k: int| 0 <= k < ids.len() ==> window::known(records, #[trigger] ids[k]),
    ensures
        alone(window::forest(records, options, ids, Set::empty())) == tree_laws::top_windows(
            records,
            ids,
        ),
    decreases ids.len(),
{
    if ids.len() > 0 {
        let before = window::forest(records, options, ids.drop_last(), Set::empty());
        let last = window::subtree(records, options, ids.last(), Set::empty());
        lemma_alone(records, options, ids.drop_last());
        assert(window::known(records, ids[ids.len() - 1]));
        assert(last.len() == 1);
        assert(alone(before + last) =~= alone(before) + alone(last));
        assert(tree_laws::top_windows(records, ids) =~= tree_laws::top_windows(
            records,
            ids.drop_last(),
        ) + alone(last));
    } else {
        assert(alone(window::forest(records, options, ids, Set::empty())) =~= Seq::empty());
        assert(tree_laws::top_windows(records, ids) =~= Seq::empty());
    }
}

/// Whatever the records say, a query without children reports those windows at the top of the tree
/// with children that have a size asked for, in the same order and with nothing under them.
pub proof fn law_without_children_the_top_is_left(
    records: Seq<Found>,
    options: WindowQueryOptions,
)
    requires
        !options.include_children,
    ensures
        window::window_tree(records, options) == alone(
            window::window_tree(
                records,
                (WindowQueryOptions { size_filter: None, include_children: true, ..options }),
            ),
        ).filter(|window: WindowNode| is_wanted(options, window)),
{
    let deep = WindowQueryOptions { size_filter: None, include_children: true, ..options };
    tree_laws::law_without_children(records, options);
    tree_laws::lemma_roots_are_known(records);
    lemma_alone(records, deep, window::root_ids(records));
    assert((|window: WindowNode| is_wanted(options, window)) =~= (|window: WindowNode|
        options.admits(window.width, window.height)));
}

proof fn lemma_first_children(windows: Seq<WindowNode>, id: u32, k: int)
    requires
        0 <= k <= windows.len(),
        forall|j: int| 0 <= j < k ==> (#[trigger] windows[j]).id != id,
        k < windows.len() ==> windows[k].id == id,
    ensures
        k < windows.len() ==> window::children_of(windows, id) == windows[k].children,
        k == windows.len() ==> window::children_of(windows, id).len() == 0,
    decreases k,
{
    if k > 0 {
        assert(windows[0].id != id);
        let rest = windows.drop_first();
        assert forall|j: int| 0 <= j < k - 1 implies (#[trigger] rest[j]).id != id by {
            assert(rest[j] == windows[j + 1]);
        }
        lemma_first_children(rest, id, k - 1);
    }
}

/// Whatever the records say, expanding a window gives what stands under the first window with its id
/// at the top of the tree of the window and its descendants; all of it in a query with children, and
/// the windows right under it alone in one without. `k` is the place of that window.
pub proof fn law_expansion_is_what_the_tree_holds(
    root: WindowNode,
    descendants: Seq<Found>,
    options: WindowQueryOptions,
    k: int,
)
    requires
        ({
            let tree = window::window_tree(
                expansion_records(root, descendants),
                (WindowQueryOptions { include_children: true, ..options }),
            );
            &&& 0 <= k <= tree.len()
            &&& forall|j: int| 0 <= j < k ==> (#[trigger] tree[j]).id != root.id
            &&& k < tree.len() ==> tree[k].id == root.id
        }),
    ensures
        ({
            let tree = window::window_tree(
                expansion_records(root, descendants),
                (WindowQueryOptions { include_children: true, ..options }),
            );
            let children = window::expanded_children(root, descendants, options);
            if k == tree.len() {
                children.len() == 0
            } else if options.include_children {
                children == tree[k].children
            } else {
                children == alone(tree[k].children)
            }
        }),
{
    let deep = WindowQueryOptions { include_children: true, ..options };
    let tree = window::window_tree(expansion_records(root, descendants), deep);
    assert(options.including_children(true) == deep);
    lemma_first_children(tree, root.id, k);
    assert(window::without_children(window::children_of(tree, root.id)) =~= alone(
        window::children_of(tree, root.id),
    ));
}

/// Where ids are distinct, expanding a window of a size that is not asked for gives nothing.
pub proof fn law_unwanted_window_expands_to_nothing(
    root: WindowNode,
    descendants: Seq<Found>,
    options: WindowQueryOptions,
)
    requires
        !is_wanted(options, root),
        tree_laws::distinct_ids(expansion_records(root, descendants)),
    ensures
        window::expanded_children(root, descendants, options).len() == 0,
{
    let deep = WindowQueryOptions { include_children: true, ..options };
    let records = expansion_records(root, descendants);
    let tree = window::window_tree(records, deep);
    law_windows_are_told_by_the_last_record(records, deep);
    let keep = |window: WindowNode| told_by_last(records, window) && is_wanted(deep, window);
    assert forall|j: int| 0 <= j < tree.len() implies (#[trigger] tree[j]).id != root.id by {
        assert(keep(tree[j]));
        let i = choose|i: int|
            {
                &&& 0 <= i < records.len()
                &&& same_window(tree[j], (#[trigger] records[i]).info)
                &&& forall|k: int| i < k < records.len() ==> (#[trigger] records[k]).info.id
                    != tree[j].id
            };
        if tree[j].id == root.id {
            assert(records[0].info.id == records[i].info.id);
            assert(i == 0);
        }
    }
    law_expansion_is_what_the_tree_holds(root, descendants, options, tree.len() as int);
}

/// Asking for children, or for none, changes nothing else of a query.
pub proof fn law_the_rest_of_a_query_stays(options: WindowQueryOptions, include_children: bool)
    ensures
        ({
            let asked = options.including_children(include_children);
            &&& asked.include_children == include_children
            &&& asked.size_filter == options.size_filter
            &&& asked.deep_children == options.deep_children
            &&& asked.relaxed_filtering == options.relaxed_filtering
            &&& asked.probe_timeout_ms == options.probe_timeout_ms
        }),
{
}

} // verus!
