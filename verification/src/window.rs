//! Windows as a query reports them, and the tree that a query arranges them in.

use std::collections::{HashMap, HashSet};

use vstd::prelude::*;

use crate::error;
use crate::error::{XCapError, XCapResult};
use crate::macos::accessibility;
use crate::monitor::{ImplMonitor, Monitor};
use crate::text;
use crate::windows::debug_lines;
use crate::windows::debug_lines::WindowReading;
use crate::windows::impl_window;
use crate::windows::impl_window::ImplWindow;
use crate::windows::query::Expansion;
use crate::windows::record_walk::{RecordState, RecordWalk};

verus! {

broadcast use vstd::std_specs::hash::group_hash_axioms;

/// One window, with the windows that were placed under it.
#[derive(Debug, PartialEq, Eq)]
pub struct WindowInfo {
    pub id: u32,
    pub pid: u32,
    pub app_name: String,
    pub title: String,
    pub x: i32,
    pub y: i32,
    pub z: i32,
    pub width: u32,
    pub height: u32,
    pub is_minimized: bool,
    pub is_maximized: bool,
    pub is_focused: bool,
    pub children: Vec<WindowInfo>,
}

/// The mathematical content of a [`WindowInfo`].
pub struct WindowNode {
    pub id: u32,
    pub pid: u32,
    pub app_name: Seq<char>,
    pub title: Seq<char>,
    pub x: i32,
    pub y: i32,
    pub z: i32,
    pub width: u32,
    pub height: u32,
    pub is_minimized: bool,
    pub is_maximized: bool,
    pub is_focused: bool,
    pub children: Seq<WindowNode>,
}

impl WindowNode {
    /// The same window with other windows under it.
    pub open spec fn with_children(self, children: Seq<WindowNode>) -> WindowNode {
        WindowNode { children, ..self }
    }
}

impl WindowInfo {
    /// The window and everything under it.
    pub open spec fn node(self) -> WindowNode
        decreases self,
    {
        WindowNode {
            id: self.id,
            pid: self.pid,
            app_name: self.app_name@,
            title: self.title@,
            x: self.x,
            y: self.y,
            z: self.z,
            width: self.width,
            height: self.height,
            is_minimized: self.is_minimized,
            is_maximized: self.is_maximized,
            is_focused: self.is_focused,
            children: Seq::new(
                self.children@.len(),
                |i: int|
                    if 0 <= i < self.children@.len() {
                        self.children@[i].node()
                    } else {
                        arbitrary()
                    },
            ),
        }
    }
}

impl View for WindowInfo {
    type V = WindowNode;

    open spec fn view(&self) -> WindowNode {
        self.node()
    }
}

/// The contents of a list of windows.
pub open spec fn nodes(windows: Seq<WindowInfo>) -> Seq<WindowNode> {
    Seq::new(windows.len(), |i: int| windows[i]@)
}

impl WindowInfo {
    /// What stands under a window is the content of its list of children.
    pub proof fn lemma_children(self)
        ensures
            self@.children == nodes(self.children@),
    {
        assert(self@.children =~= nodes(self.children@));
    }
}

/// A copy of a list of windows.
pub fn clone_windows(windows: &Vec<WindowInfo>) -> (copy: Vec<WindowInfo>)
    ensures
        nodes(copy@) == nodes(windows@),
    decreases windows,
{
    let mut copy: Vec<WindowInfo> = Vec::new();
    let mut i: usize = 0;
    while i < windows.len()
        invariant
            i <= windows.len(),
            copy@.len() == i,
            forall|k: int| 0 <= k < i ==> (#[trigger] copy@[k])@ == windows@[k]@,
        decreases windows.len() - i,
    {
        let window = windows[i].clone();
        copy.push(window);
        i = i + 1;
    }
    assert(nodes(copy@) =~= nodes(windows@));
    copy
}

impl Clone for WindowInfo {
    fn clone(&self) -> (copy: Self)
        ensures
            copy@ == self@,
        decreases self,
    {
        let copy = WindowInfo {
            id: self.id,
            pid: self.pid,
            app_name: self.app_name.clone(),
            title: self.title.clone(),
            x: self.x,
            y: self.y,
            z: self.z,
            width: self.width,
            height: self.height,
            is_minimized: self.is_minimized,
            is_maximized: self.is_maximized,
            is_focused: self.is_focused,
            children: clone_windows(&self.children),
        };
        proof {
            copy.lemma_children();
            self.lemma_children();
        }
        copy
    }
}

/// Bounds on the size of the windows that a query keeps.
#[derive(Debug, PartialEq, Eq)]
pub struct WindowSizeFilter {
    pub min_width: Option<u32>,
    pub max_width: Option<u32>,
    pub min_height: Option<u32>,
    pub max_height: Option<u32>,
}

/// Whether `value` lies within the bounds that are given.
pub open spec fn within(value: u32, min: Option<u32>, max: Option<u32>) -> bool {
    &&& (min matches Some(low) ==> low <= value)
    &&& (max matches Some(high) ==> value <= high)
}

impl WindowSizeFilter {
    /// Whether a window of this size is kept.
    pub open spec fn admits(self, width: u32, height: u32) -> bool {
        &&& within(width, self.min_width, self.max_width)
        &&& within(height, self.min_height, self.max_height)
    }

    /// Whether a window of this size is kept.
    pub fn matches(&self, width: u32, height: u32) -> (kept: bool)
        ensures
            kept == self.admits(width, height),
    {
        if let Some(min_width) = self.min_width {
            if width < min_width {
                return false;
            }
        }
        if let Some(max_width) = self.max_width {
            if width > max_width {
                return false;
            }
        }
        if let Some(min_height) = self.min_height {
            if height < min_height {
                return false;
            }
        }
        if let Some(max_height) = self.max_height {
            if height > max_height {
                return false;
            }
        }
        true
    }
}

impl Clone for WindowSizeFilter {
    fn clone(&self) -> (copy: Self)
        ensures
            copy == *self,
    {
        WindowSizeFilter {
            min_width: self.min_width,
            max_width: self.max_width,
            min_height: self.min_height,
            max_height: self.max_height,
        }
    }
}

impl Default for WindowSizeFilter {
    /// A filter without bounds.
    fn default() -> (filter: Self)
        ensures
            filter.min_width is None,
            filter.max_width is None,
            filter.min_height is None,
            filter.max_height is None,
    {
        WindowSizeFilter { min_width: None, max_width: None, min_height: None, max_height: None }
    }
}

/// What a query is asked to report.
#[derive(Debug, PartialEq, Eq)]
pub struct WindowQueryOptions {
    /// Whether windows are reported with the windows under them.
    pub include_children: bool,
    /// Which sizes are reported; all of them without a filter.
    pub size_filter: Option<WindowSizeFilter>,
    /// Whether accessibility trees are walked to the greater depth.
    pub deep_children: bool,
    /// How long an accessibility tree is probed again for more elements.
    pub probe_timeout_ms: Option<u64>,
    /// Whether elements that are usually passed over are reported too.
    pub relaxed_filtering: bool,
}

impl Default for WindowQueryOptions {
    /// The conservative query: no children, no filter, no deep or relaxed search.
    fn default() -> (options: Self)
        ensures
            !options.include_children,
            options.size_filter is None,
            !options.deep_children,
            options.probe_timeout_ms is None,
            !options.relaxed_filtering,
    {
        WindowQueryOptions {
            include_children: false,
            size_filter: None,
            deep_children: false,
            probe_timeout_ms: None,
            relaxed_filtering: false,
        }
    }
}

impl WindowQueryOptions {
    /// Whether the query keeps a window of this size.
    pub open spec fn admits(self, width: u32, height: u32) -> bool {
        self.size_filter matches Some(filter) ==> filter.admits(width, height)
    }

    /// The same query with or without the windows under each window.
    pub open spec fn including_children(self, include_children: bool) -> WindowQueryOptions {
        WindowQueryOptions { include_children, ..self }
    }

    /// Whether the query keeps a window of this size.
    pub fn keeps(&self, width: u32, height: u32) -> (kept: bool)
        ensures
            kept == self.admits(width, height),
    {
        match &self.size_filter {
            Some(filter) => filter.matches(width, height),
            None => true,
        }
    }
}

impl Clone for WindowQueryOptions {
    fn clone(&self) -> (copy: Self)
        ensures
            copy == *self,
    {
        let size_filter = match &self.size_filter {
            Some(filter) => Some(filter.clone()),
            None => None,
        };
        WindowQueryOptions {
            include_children: self.include_children,
            size_filter,
            deep_children: self.deep_children,
            probe_timeout_ms: self.probe_timeout_ms,
            relaxed_filtering: self.relaxed_filtering,
        }
    }
}

/// A window as it was found, with the id of the window that it belongs under.
#[derive(Debug)]
pub struct WindowInfoRecord {
    pub info: WindowInfo,
    pub parent_id: Option<u32>,
}

/// The mathematical content of a [`WindowInfoRecord`].
pub struct Found {
    pub info: WindowNode,
    pub parent_id: Option<u32>,
}

impl View for WindowInfoRecord {
    type V = Found;

    open spec fn view(&self) -> Found {
        Found { info: self.info@, parent_id: self.parent_id }
    }
}

impl Clone for WindowInfoRecord {
    fn clone(&self) -> (copy: Self)
        ensures
            copy@ == self@,
    {
        WindowInfoRecord { info: self.info.clone(), parent_id: self.parent_id }
    }
}

/// The contents of a list of records.
pub open spec fn found(records: Seq<WindowInfoRecord>) -> Seq<Found> {
    Seq::new(records.len(), |i: int| records[i]@)
}

/// Whether some record has this id.
pub open spec fn known(records: Seq<Found>, id: u32) -> bool {
    exists|i: int| 0 <= i < records.len() && (#[trigger] records[i]).info.id == id
}

/// The ids of all records.
pub open spec fn known_ids(records: Seq<Found>) -> Set<u32> {
    records.map_values(|record: Found| record.info.id).to_set()
}

/// The window with a known id: that of the last record that has the id.
pub open spec fn info_of(records: Seq<Found>, id: u32) -> WindowNode
    decreases records.len(),
{
    if records.len() == 0 {
        arbitrary()
    } else if records.last().info.id == id {
        records.last().info
    } else {
        info_of(records.drop_last(), id)
    }
}

/// Whether a record stands at the top: it names no parent, or one that no record has.
pub open spec fn is_root(records: Seq<Found>, record: Found) -> bool {
    match record.parent_id {
        Some(parent_id) => !known(records, parent_id),
        None => true,
    }
}

/// The ids at the top, in the order of the records.
pub open spec fn root_ids(records: Seq<Found>) -> Seq<u32> {
    records.filter(|record: Found| is_root(records, record)).map_values(
        |record: Found| record.info.id,
    )
}

/// The ids right under `parent`, in the order of the records.
pub open spec fn child_ids(records: Seq<Found>, parent: u32) -> Seq<u32> {
    records.filter(|record: Found| record.parent_id == Some(parent)).map_values(
        |record: Found| record.info.id,
    )
}

/// How many known ids are not in `visiting`.
pub open spec fn unvisited(records: Seq<Found>, visiting: Set<u32>) -> nat {
    known_ids(records).difference(visiting).len()
}

/// What is reported in the place of `window`, given what is reported of the windows under it: the
/// window where its size is asked for, else what is under it, which moves up a level.
pub open spec fn reported(
    options: WindowQueryOptions,
    window: WindowNode,
    below: Seq<WindowNode>,
) -> Seq<WindowNode> {
    let children = if options.include_children {
        below
    } else {
        Seq::empty()
    };
    if options.admits(window.width, window.height) {
        seq![window.with_children(children)]
    } else {
        children
    }
}

/// What is reported for one id, when the ids in `visiting` are those of the windows above it. A
/// window that would stand under itself is not reported there.
pub open spec fn subtree(
    records: Seq<Found>,
    options: WindowQueryOptions,
    id: u32,
    visiting: Set<u32>,
) -> Seq<WindowNode>
    decreases unvisited(records, visiting), 0nat,
{
    if visiting.contains(id) || !known(records, id) {
        Seq::empty()
    } else {
        proof {
            lemma_unvisited_shrinks(records, id, visiting);
        }
        reported(
            options,
            info_of(records, id),
            forest(records, options, child_ids(records, id), visiting.insert(id)),
        )
    }
}

/// What is reported for a list of ids, one after the other.
pub open spec fn forest(
    records: Seq<Found>,
    options: WindowQueryOptions,
    ids: Seq<u32>,
    visiting: Set<u32>,
) -> Seq<WindowNode>
    decreases unvisited(records, visiting), ids.len(),
{
    if ids.len() == 0 {
        Seq::empty()
    } else {
        forest(records, options, ids.drop_last(), visiting) + subtree(
            records,
            options,
            ids.last(),
            visiting,
        )
    }
}

/// The tree of all records.
pub open spec fn window_tree(records: Seq<Found>, options: WindowQueryOptions) -> Seq<WindowNode> {
    forest(records, options, root_ids(records), Set::empty())
}

proof fn lemma_known_ids(records: Seq<Found>, id: u32)
    ensures
        known_ids(records).contains(id) <==> known(records, id),
        known_ids(records).finite(),
{
    let ids = records.map_values(|record: Found| record.info.id);
    vstd::seq_lib::seq_to_set_is_finite(ids);
    if known(records, id) {
        let i = choose|i: int| 0 <= i < records.len() && (#[trigger] records[i]).info.id == id;
        assert(ids[i] == id);
    }
}

/// Visiting one more known id leaves fewer to visit.
pub proof fn lemma_unvisited_shrinks(records: Seq<Found>, id: u32, visiting: Set<u32>)
    requires
        known(records, id),
        !visiting.contains(id),
    ensures
        unvisited(records, visiting.insert(id)) < unvisited(records, visiting),
{
    lemma_known_ids(records, id);
    let rest = known_ids(records).difference(visiting);
    assert(known_ids(records).difference(visiting.insert(id)) =~= rest.remove(id));
}

/// What the tables of a tree hold: each known id with its window, and under each known id the ids
/// that belong under it.
spec fn indexes(
    infos: Map<u32, WindowInfo>,
    children: Map<u32, Vec<u32>>,
    records: Seq<Found>,
) -> bool {
    &&& forall|id: u32| #[trigger] infos.contains_key(id) <==> known(records, id)
    &&& forall|id: u32| #[trigger] infos.contains_key(id) ==> infos[id]@ == info_of(records, id)
    &&& forall|id: u32| #[trigger]
        children.contains_key(id) ==> children[id]@ == child_ids(records, id)
    &&& forall|id: u32|
        known(records, id) && !(#[trigger] children.contains_key(id)) ==> child_ids(records, id)
            == Seq::<u32>::empty()
}

proof fn lemma_nodes_concat(a: Seq<WindowInfo>, b: Seq<WindowInfo>)
    ensures
        nodes(a + b) == nodes(a) + nodes(b),
{
    assert(nodes(a + b) =~= nodes(a) + nodes(b));
}

/// What is reported for one id, with the windows above it in `visiting`.
fn build_node(
    id: u32,
    info_by_id: &HashMap<u32, WindowInfo>,
    child_ids_by_parent: &HashMap<u32, Vec<u32>>,
    options: &WindowQueryOptions,
    visiting: &mut HashSet<u32>,
    Ghost(records): Ghost<Seq<Found>>,
) -> (result: Vec<WindowInfo>)
    requires
        indexes(info_by_id@, child_ids_by_parent@, records),
    ensures
        nodes(result@) == subtree(records, *options, id, old(visiting)@),
        final(visiting)@ == old(visiting)@,
    decreases unvisited(records, old(visiting)@), 0nat,
{
    if !visiting.insert(id) {
        assert(visiting@ =~= old(visiting)@);
        let none: Vec<WindowInfo> = Vec::new();
        assert(nodes(none@) =~= Seq::empty());
        return none;
    }
    let result = match info_by_id.get(&id) {
        None => {
            let none: Vec<WindowInfo> = Vec::new();
            assert(nodes(none@) =~= Seq::empty());
            none
        },
        Some(info) => {
            proof {
                lemma_unvisited_shrinks(records, id, old(visiting)@);
            }
            let promoted_children = match child_ids_by_parent.get(&id) {
                Some(ids) => build_nodes(
                    ids,
                    info_by_id,
                    child_ids_by_parent,
                    options,
                    visiting,
                    Ghost(records),
                ),
                None => {
                    let none: Vec<WindowInfo> = Vec::new();
                    assert(nodes(none@) =~= Seq::empty());
                    none
                },
            };
            let ghost below = nodes(promoted_children@);
            assert(below == forest(
                records,
                *options,
                child_ids(records, id),
                old(visiting)@.insert(id),
            ));
            let children = if options.include_children {
                promoted_children
            } else {
                let none: Vec<WindowInfo> = Vec::new();
                assert(nodes(none@) =~= Seq::empty());
                none
            };
            let mut node = info.clone();
            if options.keeps(node.width, node.height) {
                let ghost window = node@;
                node.children = children;
                proof {
                    node.lemma_children();
                }
                let mut kept: Vec<WindowInfo> = Vec::new();
                kept.push(node);
                assert(nodes(kept@) =~= reported(*options, window, below));
                kept
            } else {
                children
            }
        },
    };
    visiting.remove(&id);
    assert(visiting@ =~= old(visiting)@);
    result
}

/// What is reported for a list of ids, one after the other.
fn build_nodes(
    ids: &Vec<u32>,
    info_by_id: &HashMap<u32, WindowInfo>,
    child_ids_by_parent: &HashMap<u32, Vec<u32>>,
    options: &WindowQueryOptions,
    visiting: &mut HashSet<u32>,
    Ghost(records): Ghost<Seq<Found>>,
) -> (result: Vec<WindowInfo>)
    requires
        indexes(info_by_id@, child_ids_by_parent@, records),
    ensures
        nodes(result@) == forest(records, *options, ids@, old(visiting)@),
        final(visiting)@ == old(visiting)@,
    decreases unvisited(records, old(visiting)@), 1nat,
{
    let mut result: Vec<WindowInfo> = Vec::new();
    let mut i: usize = 0;
    assert(nodes(result@) =~= Seq::empty());
    assert(ids@.take(0) =~= Seq::empty());
    while i < ids.len()
        invariant
            i <= ids.len(),
            indexes(info_by_id@, child_ids_by_parent@, records),
            visiting@ == old(visiting)@,
            nodes(result@) == forest(records, *options, ids@.take(i as int), visiting@),
        decreases ids.len() - i,
    {
        let mut one = build_node(
            ids[i],
            info_by_id,
            child_ids_by_parent,
            options,
            visiting,
            Ghost(records),
        );
        proof {
            lemma_nodes_concat(result@, one@);
            assert(ids@.take(i + 1).drop_last() =~= ids@.take(i as int));
        }
        result.append(&mut one);
        i = i + 1;
    }
    assert(ids@.take(ids@.len() as int) =~= ids@);
    result
}

/// The ids of the records that satisfy `keep`, in order.
spec fn ids_where(records: Seq<Found>, keep: spec_fn(Found) -> bool) -> Seq<u32> {
    records.filter(keep).map_values(|record: Found| record.info.id)
}

proof fn lemma_ids_where_step(records: Seq<Found>, i: int, keep: spec_fn(Found) -> bool)
    requires
        0 <= i < records.len(),
    ensures
        ids_where(records.take(i + 1), keep) == (if keep(records[i]) {
            ids_where(records.take(i), keep).push(records[i].info.id)
        } else {
            ids_where(records.take(i), keep)
        }),
{
    reveal(Seq::filter);
    assert(records.take(i + 1).drop_last() =~= records.take(i));
    assert(ids_where(records.take(i + 1), keep) =~= (if keep(records[i]) {
        ids_where(records.take(i), keep).push(records[i].info.id)
    } else {
        ids_where(records.take(i), keep)
    }));
}

proof fn lemma_ids_where_none(records: Seq<Found>, keep: spec_fn(Found) -> bool)
    ensures
        ids_where(records.take(0), keep) == Seq::<u32>::empty(),
{
    reveal(Seq::filter);
    assert(records.take(0).len() == 0);
    assert(ids_where(records.take(0), keep) =~= Seq::<u32>::empty());
}

proof fn lemma_known_step(records: Seq<Found>, i: int, id: u32)
    requires
        0 <= i < records.len(),
    ensures
        known(records.take(i + 1), id) <==> known(records.take(i), id) || records[i].info.id == id,
        info_of(records.take(i + 1), id) == (if records[i].info.id == id {
            records[i].info
        } else {
            info_of(records.take(i), id)
        }),
{
    let next = records.take(i + 1);
    assert(next.drop_last() =~= records.take(i));
    if known(records.take(i), id) {
        let k = choose|k: int|
            0 <= k < records.take(i).len() && (#[trigger] records.take(i)[k]).info.id == id;
        assert(next[k].info.id == id);
    }
    if records[i].info.id == id {
        assert(next[i].info.id == id);
    }
    if known(next, id) && records[i].info.id != id {
        let k = choose|k: int| 0 <= k < next.len() && (#[trigger] next[k]).info.id == id;
        assert(records.take(i)[k].info.id == id);
    }
}

/// Each known id with the window of the last record that has it.
fn index_infos(records: &Vec<WindowInfoRecord>) -> (infos: HashMap<u32, WindowInfo>)
    ensures
        forall|id: u32| #[trigger]
            infos@.contains_key(id) <==> known(found(records@), id),
        forall|id: u32| #[trigger]
            infos@.contains_key(id) ==> infos@[id]@ == info_of(found(records@), id),
{
    let ghost all = found(records@);
    let mut infos: HashMap<u32, WindowInfo> = HashMap::new();
    let mut i: usize = 0;
    assert(forall|id: u32| !known(all.take(0), id));
    while i < records.len()
        invariant
            i <= records.len(),
            all == found(records@),
            forall|id: u32| #[trigger] infos@.contains_key(id) <==> known(all.take(i as int), id),
            forall|id: u32| #[trigger]
                infos@.contains_key(id) ==> infos@[id]@ == info_of(all.take(i as int), id),
        decreases records.len() - i,
    {
        let info = records[i].info.clone();
        proof {
            assert forall|id: u32|
                (known(all.take(i + 1), id) <==> known(all.take(i as int), id)
                    || all[i as int].info.id == id) && #[trigger] info_of(all.take(i + 1), id) == (
                if all[i as int].info.id == id {
                    all[i as int].info
                } else {
                    info_of(all.take(i as int), id)
                }) by {
                lemma_known_step(all, i as int, id);
            }
        }
        infos.insert(records[i].info.id, info);
        proof {
            assert forall|id: u32| #[trigger]
                infos@.contains_key(id) <==> known(all.take(i + 1), id) by {
                lemma_known_step(all, i as int, id);
            }
        }
        i = i + 1;
    }
    assert(all.take(all.len() as int) =~= all);
    infos
}

/// Arranges the records of a query in a tree.
///
/// Every record stands under the record whose id its parent id names; one without a parent, or
/// with a parent that was not found, stands at the top. A window of a size that is not asked for is
/// left out, and what is under it moves up in its place. Windows that stand under themselves are
/// left out.
pub fn build_window_info_tree(
    records: Vec<WindowInfoRecord>,
    options: &WindowQueryOptions,
) -> (tree: Vec<WindowInfo>)
    ensures
        nodes(tree@) == window_tree(found(records@), *options),
{
    let ghost all = found(records@);
    let info_by_id = index_infos(&records);
    let mut child_ids_by_parent: HashMap<u32, Vec<u32>> = HashMap::new();
    let mut roots: Vec<u32> = Vec::new();
    let ghost at_top = |record: Found| is_root(all, record);
    let ghost under = |parent: u32| (|record: Found| record.parent_id == Some(parent));
    proof {
        lemma_ids_where_none(all, at_top);
        assert forall|id: u32| ids_where(all.take(0), #[trigger] under(id)) == Seq::<
            u32,
        >::empty() by {
            lemma_ids_where_none(all, under(id));
        }
    }
    let mut i: usize = 0;
    while i < records.len()
        invariant
            i <= records.len(),
            all == found(records@),
            at_top == (|record: Found| is_root(all, record)),
            under == (|parent: u32| (|record: Found| record.parent_id == Some(parent))),
            forall|id: u32| #[trigger] info_by_id@.contains_key(id) <==> known(all, id),
            roots@ == ids_where(all.take(i as int), at_top),
            forall|id: u32| #[trigger] child_ids_by_parent@.contains_key(id) ==> known(all, id),
            forall|id: u32| #[trigger]
                child_ids_by_parent@.contains_key(id) ==> child_ids_by_parent@[id]@ == ids_where(
                    all.take(i as int),
                    under(id),
                ),
            forall|id: u32|
                known(all, id) && !(#[trigger] child_ids_by_parent@.contains_key(id)) ==> ids_where(
                    all.take(i as int),
                    under(id),
                ) == Seq::<u32>::empty(),
        decreases records.len() - i,
    {
        let id: u32 = records[i].info.id;
        proof {
            lemma_ids_where_step(all, i as int, at_top);
            assert forall|id: u32|
                ids_where(all.take(i + 1), #[trigger] under(id)) == (if under(id)(all[i as int]) {
                    ids_where(all.take(i as int), under(id)).push(all[i as int].info.id)
                } else {
                    ids_where(all.take(i as int), under(id))
                }) by {
                lemma_ids_where_step(all, i as int, under(id));
            }
        }
        match records[i].parent_id {
            Some(parent_id) => {
                if info_by_id.contains_key(&parent_id) {
                    let mut ids = match child_ids_by_parent.remove(&parent_id) {
                        Some(ids) => ids,
                        None => Vec::new(),
                    };
                    assert(ids@ == ids_where(all.take(i as int), under(parent_id)));
                    ids.push(id);
                    child_ids_by_parent.insert(parent_id, ids);
                } else {
                    roots.push(id);
                }
            },
            None => {
                roots.push(id);
            },
        }
        i = i + 1;
    }
    proof {
        assert(all.take(all.len() as int) =~= all);
        assert(roots@ == root_ids(all));
        assert forall|id: u32| ids_where(all, #[trigger] under(id)) == child_ids(all, id) by {}
    }
    let mut visiting: HashSet<u32> = HashSet::new();
    build_nodes(
        &roots,
        &info_by_id,
        &child_ids_by_parent,
        options,
        &mut visiting,
        Ghost(all),
    )
}

/// Removes what stands under each window of a list.
pub fn clear_nested_children(windows: &mut Vec<WindowInfo>)
    ensures
        nodes(final(windows)@) == without_children(nodes(old(windows)@)),
{
    let mut i: usize = 0;
    while i < windows.len()
        invariant
            i <= windows.len(),
            windows.len() == old(windows).len(),
            forall|k: int|
                0 <= k < i ==> (#[trigger] windows@[k])@ == old(windows)@[k]@.with_children(
                    Seq::empty(),
                ),
            forall|k: int| i <= k < windows.len() ==> #[trigger] windows@[k] == old(windows)@[k],
        decreases windows.len() - i,
    {
        let ghost before = windows@[i as int];
        windows[i].children = Vec::new();
        proof {
            windows@[i as int].lemma_children();
            assert(nodes(windows@[i as int].children@) =~= Seq::empty());
            assert(windows@[i as int]@ == before@.with_children(Seq::empty()));
        }
        i = i + 1;
    }
    assert(nodes(windows@) =~= without_children(nodes(old(windows)@)));
}

/// Each window of a list with nothing under it.
pub open spec fn without_children(windows: Seq<WindowNode>) -> Seq<WindowNode> {
    windows.map_values(|window: WindowNode| window.with_children(Seq::empty()))
}

/// What stands under the first window of a list that has this id; nothing where there is none.
pub open spec fn children_of(windows: Seq<WindowNode>, id: u32) -> Seq<WindowNode>
    decreases windows.len(),
{
    if windows.len() == 0 {
        Seq::empty()
    } else if windows.first().id == id {
        windows.first().children
    } else {
        children_of(windows.drop_first(), id)
    }
}

/// What stands under `root` once its descendants are known.
pub open spec fn expanded_children(
    root: WindowNode,
    descendants: Seq<Found>,
    options: WindowQueryOptions,
) -> Seq<WindowNode> {
    let records = seq![Found { info: root, parent_id: None }] + descendants;
    let children = children_of(
        window_tree(records, options.including_children(true)),
        root.id,
    );
    if options.include_children {
        children
    } else {
        without_children(children)
    }
}

/// What stands under `root` once its descendants are known: the whole tree under it, or only its
/// first level where the query is not to report children.
pub fn build_expanded_children(
    root: WindowInfo,
    descendants: Vec<WindowInfoRecord>,
    options: &WindowQueryOptions,
) -> (children: Vec<WindowInfo>)
    ensures
        nodes(children@) == expanded_children(root@, found(descendants@), *options),
{
    let root_id: u32 = root.id;
    let ghost top = Found { info: root@, parent_id: None };
    let ghost below = found(descendants@);
    let mut descendants = descendants;
    let mut records: Vec<WindowInfoRecord> = Vec::new();
    records.push(WindowInfoRecord { info: root, parent_id: None });
    records.append(&mut descendants);
    assert(found(records@) =~= seq![top] + below);
    let mut tree_options = options.clone();
    tree_options.include_children = true;
    let tree = build_window_info_tree(records, &tree_options);
    let mut children = take_children_of(tree, root_id);
    if !options.include_children {
        clear_nested_children(&mut children);
    }
    children
}

/// What stands under the first window of a list that has this id.
fn take_children_of(windows: Vec<WindowInfo>, id: u32) -> (children: Vec<WindowInfo>)
    ensures
        nodes(children@) == children_of(nodes(windows@), id),
{
    let ghost all = nodes(windows@);
    let mut rest = windows;
    let mut i: usize = 0;
    assert(all.skip(0) =~= all);
    while i < rest.len()
        invariant
            i <= rest.len(),
            all == nodes(windows@),
            all == nodes(rest@),
            children_of(all, id) == children_of(all.skip(i as int), id),
        decreases rest.len() - i,
    {
        assert(all.skip(i as int).first() == rest@[i as int]@);
        if rest[i].id == id {
            proof {
                rest@[i as int].lemma_children();
            }
            return rest.swap_remove(i).children;
        }
        assert(all.skip(i as int).drop_first() =~= all.skip(i + 1));
        i = i + 1;
    }
    let none: Vec<WindowInfo> = Vec::new();
    assert(nodes(none@) =~= Seq::empty());
    none
}

/// A window on the desktop.
#[derive(Debug)]
pub struct Window {
    pub impl_window: ImplWindow,
}

impl Clone for Window {
    fn clone(&self) -> (copy: Self)
        ensures
            copy.impl_window.same_as(self.impl_window),
    {
        Window { impl_window: self.impl_window.clone() }
    }
}

impl Window {
    /// The window that the system tells of.
    pub fn new(impl_window: ImplWindow) -> (window: Window)
        ensures
            window.impl_window == impl_window,
    {
        Window { impl_window }
    }

    /// All windows on the desktop that are reported, in the order in which the system tells of
    /// them: from the topmost down.
    pub fn all(found: XCapResult<Vec<ImplWindow>>) -> (result: XCapResult<Vec<Window>>)
        ensures
            match found {
                Ok(found) => result matches Ok(windows) && windows@ == found@.map_values(
                    |impl_window: ImplWindow| (Window { impl_window }),
                ),
                Err(failure) => result == Err::<Vec<Window>, XCapError>(failure),
            },
    {
        let found = match found {
            Ok(found) => found,
            Err(failure) => {
                return Err(failure);
            },
        };
        let ghost wrapped = found@.map_values(|impl_window: ImplWindow| Window { impl_window });
        let mut windows: Vec<Window> = Vec::new();
        for impl_window in it: found
            invariant
                it.seq().len() == wrapped.len(),
                forall|i: int|
                    0 <= i < wrapped.len() ==> #[trigger] wrapped[i] == (Window {
                        impl_window: it.seq()[i],
                    }),
                windows@ == wrapped.take(it.index() as int),
        {
            windows.push(Window::new(impl_window));
            assert(windows@ =~= wrapped.take(it.index() + 1));
        }
        assert(windows@ =~= wrapped);
        Ok(windows)
    }

    /// Begins a query with custom options.
    pub fn query(hwnds: XCapResult<Vec<usize>>, options: &WindowQueryOptions) -> (result:
        XCapResult<RecordWalk>)
        requires
            hwnds matches Ok(hwnds) ==> hwnds@.len() <= i32::MAX,
        ensures
            match hwnds {
                Ok(hwnds) => {
                    &&& result matches Ok(walk)
                    &&& walk@ == RecordState::over(hwnds@, *options)
                    &&& walk@.well_formed()
                },
                Err(failure) => result == Err::<RecordWalk, XCapError>(failure),
            },
    {
        ImplWindow::query(hwnds, options)
    }

    /// Begins a query for the windows on the desktop alone.
    pub fn query_roots(hwnds: XCapResult<Vec<usize>>, options: &WindowQueryOptions) -> (result:
        XCapResult<RecordWalk>)
        requires
            hwnds matches Ok(hwnds) ==> hwnds@.len() <= i32::MAX,
        ensures
            match hwnds {
                Ok(hwnds) => {
                    &&& result matches Ok(walk)
                    &&& walk@ == RecordState::over(hwnds@, options.including_children(false))
                    &&& walk@.well_formed()
                },
                Err(failure) => result == Err::<RecordWalk, XCapError>(failure),
            },
    {
        ImplWindow::query_roots(hwnds, options)
    }

    /// Begins to expand the window.
    pub fn expand_children(&self, options: &WindowQueryOptions) -> (result: XCapResult<Expansion>)
        requires
            self.impl_window.measurable(),
        ensures
            match self.impl_window.description(self.impl_window.height_among_others()) {
                Ok(root) => {
                    &&& result matches Ok(expansion)
                    &&& expansion.root@ == root
                    &&& expansion.walk@ == RecordState::under(self.impl_window.hwnd, root, *options)
                    &&& expansion.walk@.well_formed()
                },
                Err(failure) => result matches Err(met) && met@ == failure,
            },
    {
        self.impl_window.expand_children(options)
    }

    /// The lines that tell which windows under the windows on the desktop are left out, and why.
    pub fn debug_windows_children(
        windows: XCapResult<Vec<WindowReading>>,
        options: &WindowQueryOptions,
    ) -> (result: XCapResult<Vec<String>>)
        ensures
            match windows {
                Ok(windows) => result matches Ok(lines) && text::texts(lines@)
                    == debug_lines::all_lines(windows@, *options),
                Err(failure) => result == Err::<Vec<String>, XCapError>(failure),
            },
    {
        debug_lines::debug_windows_children(windows, options)
    }

    /// The lines about the accessibility elements of all windows, or the one that tells that
    /// accessibility is not granted.
    pub fn debug_macos_accessibility(
        trusted: bool,
        windows: XCapResult<Vec<Vec<String>>>,
    ) -> (result: XCapResult<Vec<String>>)
        ensures
            match windows {
                Ok(windows) => result matches Ok(lines) && text::texts(lines@) == (if trusted {
                    accessibility::all_texts(windows@)
                } else {
                    seq![accessibility::permission_line()]
                }),
                Err(failure) => result == Err::<Vec<String>, XCapError>(failure),
            },
    {
        match windows {
            Ok(windows) => Ok(accessibility::debug_lines_for_windows(trusted, windows)),
            Err(failure) => Err(failure),
        }
    }

    /// The id of the window.
    pub fn id(&self) -> (result: XCapResult<u32>)
        ensures
            result == Ok::<u32, XCapError>(self.impl_window.window_id()),
    {
        self.impl_window.id()
    }

    /// The process that the window belongs to.
    pub fn pid(&self) -> (result: XCapResult<u32>)
        ensures
            result == Ok::<u32, XCapError>(self.impl_window.pid),
    {
        self.impl_window.pid()
    }

    /// The name of the application that the window belongs to.
    pub fn app_name(&self) -> (result: XCapResult<String>)
        ensures
            error::text_outcome(result) == error::text_outcome(self.impl_window.app_name),
    {
        self.impl_window.app_name()
    }

    /// The title of the window.
    pub fn title(&self) -> (result: XCapResult<String>)
        ensures
            error::text_outcome(result) == error::text_outcome(self.impl_window.title),
    {
        self.impl_window.title()
    }

    /// The monitor that the window is on, which the system has found.
    pub fn current_monitor(&self, found: XCapResult<ImplMonitor>) -> (result: XCapResult<Monitor>)
        ensures
            match found {
                Ok(impl_monitor) => result == Ok::<Monitor, XCapError>(Monitor { impl_monitor }),
                Err(failure) => result == Err::<Monitor, XCapError>(failure),
            },
    {
        match found {
            Ok(impl_monitor) => Ok(Monitor::new(impl_monitor)),
            Err(failure) => Err(failure),
        }
    }

    /// The left edge.
    pub fn x(&self) -> (result: XCapResult<i32>)
        ensures
            match self.impl_window.bounds {
                Ok(rect) => result == Ok::<i32, XCapError>(rect.left),
                Err(failure) => result matches Err(met) && met@ == failure@,
            },
    {
        self.impl_window.x()
    }

    /// The top edge.
    pub fn y(&self) -> (result: XCapResult<i32>)
        ensures
            match self.impl_window.bounds {
                Ok(rect) => result == Ok::<i32, XCapError>(rect.top),
                Err(failure) => result matches Err(met) && met@ == failure@,
            },
    {
        self.impl_window.y()
    }

    /// How many windows are below this one.
    pub fn z(&self) -> (result: XCapResult<i32>)
        requires
            self.impl_window.order matches Ok(order) ==> order@.len() <= i32::MAX,
        ensures
            error::outcome(result) == self.impl_window.height_among_others(),
    {
        self.impl_window.z()
    }

    /// The width in pixels.
    pub fn width(&self) -> (result: XCapResult<u32>)
        requires
            self.impl_window.bounds matches Ok(rect) ==> rect.measurable(),
        ensures
            match self.impl_window.bounds {
                Ok(rect) => result == Ok::<u32, XCapError>(
                    impl_window::pixels(rect.right - rect.left),
                ),
                Err(failure) => result matches Err(met) && met@ == failure@,
            },
    {
        self.impl_window.width()
    }

    /// The height in pixels.
    pub fn height(&self) -> (result: XCapResult<u32>)
        requires
            self.impl_window.bounds matches Ok(rect) ==> rect.measurable(),
        ensures
            match self.impl_window.bounds {
                Ok(rect) => result == Ok::<u32, XCapError>(
                    impl_window::pixels(rect.bottom - rect.top),
                ),
                Err(failure) => result matches Err(met) && met@ == failure@,
            },
    {
        self.impl_window.height()
    }

    /// Whether the window is minimized.
    pub fn is_minimized(&self) -> (result: XCapResult<bool>)
        ensures
            result == Ok::<bool, XCapError>(self.impl_window.is_iconic),
    {
        self.impl_window.is_minimized()
    }

    /// Whether the window is maximized.
    pub fn is_maximized(&self) -> (result: XCapResult<bool>)
        ensures
            result == Ok::<bool, XCapError>(self.impl_window.is_zoomed),
    {
        self.impl_window.is_maximized()
    }

    /// Whether this is the window that the user works with.
    pub fn is_focused(&self) -> (result: XCapResult<bool>)
        ensures
            result == Ok::<bool, XCapError>(
                self.impl_window.foreground == self.impl_window.hwnd,
            ),
    {
        self.impl_window.is_focused()
    }
}

} // verus!
