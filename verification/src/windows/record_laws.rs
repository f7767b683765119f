//! What walks over windows come to.

use vstd::prelude::*;

use crate::error;
use crate::rooted;
use crate::tree_laws;
use crate::window;
use crate::window::{Found, WindowNode, WindowQueryOptions};
use crate::windows::accessibility::MAX_UIA_NODES_PER_WINDOW;
use crate::windows::impl_window::ImplWindow;
use crate::windows::record_walk;
use crate::windows::record_walk::{RecordState, Row, Wanted, WindowStep, EXPANSION_IDS};
use crate::windows::uia_laws;
use crate::windows::uia_probe::Collected;

verus! {

/// A window with the windows under it that are reported.
pub struct WindowTree {
    pub window: ImplWindow,
    pub children: Seq<WindowTree>,
    /// What gathering the elements under the window comes to, from what has been collected before;
    /// none where it fails.
    pub elements: spec_fn(Collected) -> Option<Collected>,
}

/// What is collected of a window and what is under it, when it is recorded under `parent_id` and
/// stands this high; or the first thing that went wrong.
pub open spec fn gather_window(
    tree: WindowTree,
    options: WindowQueryOptions,
    out: Collected,
    parent_id: Option<u32>,
    z: int,
) -> Result<Collected, error::Failure>
    decreases tree, 0nat,
{
    match tree.window.description(Ok(z as i32)) {
        Err(failure) => Err(failure),
        Ok(info) => {
            let out = record_walk::with_window(out, info, parent_id);
            if !options.include_children {
                Ok(out)
            } else if tree.children.len() == 0 {
                Ok(gather_elements(tree, out))
            } else {
                gather_windows(tree.children, options, out, Some(info.id), 0)
            }
        },
    }
}

/// What is collected of windows from one on, and of what is under them.
pub open spec fn gather_windows(
    trees: Seq<WindowTree>,
    options: WindowQueryOptions,
    out: Collected,
    parent_id: Option<u32>,
    index: nat,
) -> Result<Collected, error::Failure>
    decreases trees, trees.len() - index,
{
    if index >= trees.len() {
        Ok(out)
    } else {
        match gather_window(trees[index as int], options, out, parent_id, trees.len() - index - 1) {
            Err(failure) => Err(failure),
            Ok(out) => gather_windows(trees, options, out, parent_id, index + 1),
        }
    }
}

/// What is collected of the elements under a window. A failure leaves it without any.
pub open spec fn gather_elements(tree: WindowTree, out: Collected) -> Collected {
    match (tree.elements)(out) {
        Some(best) => record_walk::with_elements(out, best),
        None => out,
    }
}

/// What is collected under a window that is expanded.
pub open spec fn gather_expansion(
    tree: WindowTree,
    options: WindowQueryOptions,
    out: Collected,
    id: u32,
) -> Result<Collected, error::Failure> {
    if tree.children.len() == 0 {
        Ok(gather_elements(tree, out))
    } else {
        gather_windows(tree.children, options, out, Some(id), 0)
    }
}

/// The windows by their handles.
pub struct Desktop {
    pub trees: spec_fn(usize) -> WindowTree,
}

impl Desktop {
    /// Whether every handle stands for the window that has it, also among the windows under
    /// another.
    pub open spec fn is_consistent(self) -> bool {
        &&& forall|hwnd: usize| (#[trigger] (self.trees)(hwnd)).window.hwnd == hwnd
        &&& forall|hwnd: usize, i: int|
            #![trigger (self.trees)(hwnd).children[i]]
            0 <= i < (self.trees)(hwnd).children.len() ==> (self.trees)(hwnd).children[i]
                == (self.trees)((self.trees)(hwnd).children[i].window.hwnd)
        &&& forall|hwnd: usize| (#[trigger] (self.trees)(hwnd)).children.len() <= i32::MAX
    }

    /// The windows that have these handles.
    pub open spec fn windows(self, hwnds: Seq<usize>) -> Seq<WindowTree> {
        hwnds.map_values(|hwnd: usize| (self.trees)(hwnd))
    }

    /// The handles of the windows under a window.
    pub open spec fn children(self, hwnd: usize) -> Seq<usize> {
        (self.trees)(hwnd).children.map_values(|tree: WindowTree| tree.window.hwnd)
    }

    /// What is reported of the window that a walk reads next.
    pub open spec fn answer(self, walk: RecordState, hwnd: usize) -> Result<
        WindowNode,
        error::Failure,
    > {
        let row = walk.rows.last();
        (self.trees)(hwnd).window.description(Ok((row.hwnds.len() - row.index - 1) as i32))
    }

    /// Whether `after` follows `before` when the next step is done as it should be.
    pub open spec fn proceeds(self, before: RecordState, after: RecordState) -> bool {
        let (walk, step) = before.next();
        match step {
            WindowStep::Again => after == walk,
            WindowStep::Read { hwnd } => match self.answer(walk, hwnd) {
                Ok(info) => after == walk.after_read((self.trees)(hwnd).window, info),
                Err(_) => false,
            },
            WindowStep::List { hwnd } => after == walk.after_list(self.children(hwnd)),
            WindowStep::Probe { hwnd } => after == walk.after_probe(
                ((self.trees)(hwnd).elements)(walk.out),
            ),
            WindowStep::Done => false,
        }
    }

    /// What is gathered from the rest of a stack of lists, the innermost first.
    spec fn gather_rows(
        self,
        options: WindowQueryOptions,
        out: Result<Collected, error::Failure>,
        rows: Seq<Row>,
    ) -> Result<Collected, error::Failure>
        decreases rows.len(),
    {
        match out {
            Err(failure) => Err(failure),
            Ok(collected) => if rows.len() == 0 {
                out
            } else {
                let row = rows.last();
                self.gather_rows(
                    options,
                    gather_windows(
                        self.windows(row.hwnds),
                        options,
                        collected,
                        row.parent_id,
                        row.index,
                    ),
                    rows.drop_last(),
                )
            },
        }
    }

    /// What a walk will have collected when it is over.
    spec fn outlook(self, walk: RecordState) -> Result<Collected, error::Failure> {
        let here = match walk.wanted {
            Wanted::Nothing => Ok(walk.out),
            Wanted::Window => Ok(walk.out),
            Wanted::Children(above) => gather_expansion(
                (self.trees)(above.hwnd),
                walk.options,
                walk.out,
                above.id,
            ),
            Wanted::Elements(above) => Ok(
                gather_elements((self.trees)(above.hwnd), walk.out),
            ),
        };
        self.gather_rows(walk.options, here, walk.rows)
    }

    proof fn lemma_proceeds(self, before: RecordState, after: RecordState)
        requires
            self.is_consistent(),
            before.well_formed(),
            self.proceeds(before, after),
        ensures
            after.well_formed(),
            after.options == before.options,
            self.outlook(after) == self.outlook(before),
    {
        reveal_with_fuel(gather_windows, 2);
        let (walk, step) = before.next();
        let rows = before.rows;
        match step {
            WindowStep::Read { hwnd } => {
                let row = rows.last();
                let trees = self.windows(row.hwnds);
                let info = self.answer(walk, hwnd)->Ok_0;
                assert(trees[row.index as int] == (self.trees)(hwnd));
                assert(after.rows.drop_last() =~= rows.drop_last());
                let tree = (self.trees)(hwnd);
                let out = record_walk::with_window(before.out, info, row.parent_id);
                let here = gather_window(
                    tree,
                    before.options,
                    before.out,
                    row.parent_id,
                    trees.len() - row.index - 1,
                );
                if before.options.include_children {
                    assert(here == gather_expansion(tree, before.options, out, info.id));
                } else {
                    assert(here == Ok::<Collected, error::Failure>(out));
                }
                assert forall|i: int| 0 <= i < after.rows.len() implies (
                #[trigger] after.rows[i]).hwnds.len() <= i32::MAX by {
                    assert(rows[i].hwnds == after.rows[i].hwnds);
                }
                let rest = match here {
                    Ok(below) => gather_windows(
                        trees,
                        before.options,
                        below,
                        row.parent_id,
                        row.index + 1,
                    ),
                    Err(failure) => Err(failure),
                };
                let before_rows = rows.drop_last();
                assert(self.outlook(before) == self.gather_rows(before.options, rest, before_rows));
                assert(self.gather_rows(before.options, here, after.rows) == self.gather_rows(
                    before.options,
                    rest,
                    before_rows,
                ));
            },
            WindowStep::List { hwnd } => {
                let children = self.children(hwnd);
                let tree = (self.trees)(hwnd);
                if children.len() > 0 {
                    assert(after.rows.drop_last() =~= rows);
                    assert(self.windows(children) =~= tree.children) by {
                        assert forall|i: int| 0 <= i < children.len() implies self.windows(
                            children,
                        )[i] == tree.children[i] by {
                            assert((self.trees)(hwnd).children[i] == tree.children[i]);
                        }
                    }
                }
            },
            _ => {},
        }
    }

    proof fn lemma_run(self, run: Seq<RecordState>, i: int)
        requires
            self.is_consistent(),
            self.is_run(run),
            0 <= i < run.len(),
        ensures
            run[i].well_formed(),
            run[i].options == run[0].options,
            self.outlook(run[i]) == self.outlook(run[0]),
        decreases i,
    {
        if i > 0 {
            self.lemma_run(run, i - 1);
            assert(self.proceeds(run[i - 1], run[i - 1 + 1]));
            self.lemma_proceeds(run[i - 1], run[i]);
        }
    }

    /// Whether `run` is a walk, step by step.
    pub open spec fn is_run(self, run: Seq<RecordState>) -> bool {
        &&& run.len() > 0
        &&& run[0].well_formed()
        &&& forall|i: int| 0 <= i < run.len() - 1 ==> self.proceeds(#[trigger] run[i], run[i + 1])
    }

    /// Whether a walk stops at what went wrong.
    pub open spec fn stops_at(self, walk: RecordState, failure: error::Failure) -> bool {
        let (walk, step) = walk.next();
        step matches WindowStep::Read { hwnd } && self.answer(walk, hwnd) == Err::<
            WindowNode,
            error::Failure,
        >(failure)
    }

    proof fn lemma_end(self, walk: RecordState)
        requires
            self.is_consistent(),
            walk.well_formed(),
        ensures
            walk.next().1 is Done ==> self.outlook(walk) == Ok::<Collected, error::Failure>(walk.out),
            forall|failure: error::Failure|
                self.stops_at(walk, failure) ==> self.outlook(walk) == Err::<
                    Collected,
                    error::Failure,
                >(failure),
    {
        assert forall|failure: error::Failure| self.stops_at(walk, failure) implies self.outlook(
            walk,
        ) == Err::<Collected, error::Failure>(failure) by {
            let row = walk.rows.last();
            let hwnd = row.hwnds[row.index as int];
            let trees = self.windows(row.hwnds);
            assert(trees[row.index as int] == (self.trees)(hwnd));
            let here = gather_windows(trees, walk.options, walk.out, row.parent_id, row.index);
            reveal_with_fuel(gather_windows, 2);
            assert(here == Err::<Collected, error::Failure>(failure));
            assert(self.gather_rows(walk.options, here, walk.rows.drop_last()) == here);
        }
    }
}

/// A walk over the desktop that is over has collected what is collected by going from each window
/// down to those under it. It stops at what went wrong only where going down meets the same.
pub proof fn law_query_goes_down_every_window(
    desktop: Desktop,
    hwnds: Seq<usize>,
    options: WindowQueryOptions,
    run: Seq<RecordState>,
)
    requires
        desktop.is_consistent(),
        hwnds.len() <= i32::MAX,
        desktop.is_run(run),
        run[0] == RecordState::over(hwnds, options),
    ensures
        ({
            let all = gather_windows(desktop.windows(hwnds), options, run[0].out, None, 0);
            &&& run.last().next().1 is Done ==> all == Ok::<Collected, error::Failure>(
                run.last().out,
            )
            &&& forall|failure: error::Failure|
                desktop.stops_at(run.last(), failure) ==> all == Err::<Collected, error::Failure>(
                    failure,
                )
        }),
{
    desktop.lemma_run(run, run.len() - 1);
    desktop.lemma_end(run.last());
    let start = run[0];
    let all = gather_windows(desktop.windows(hwnds), options, start.out, None, 0);
    assert(start.rows.last() == start.rows[0]);
    assert(start.rows.drop_last() =~= Seq::empty());
    assert(desktop.gather_rows(options, all, Seq::empty()) == all);
    assert(desktop.outlook(start) == all);
}

/// A walk under a window that is over has collected what is collected by going down to each window
/// under it, or its elements where there are none. It stops at what went wrong only where going
/// down meets the same.
pub proof fn law_expansion_goes_down_every_window(
    desktop: Desktop,
    hwnd: usize,
    root: WindowNode,
    options: WindowQueryOptions,
    run: Seq<RecordState>,
)
    requires
        desktop.is_consistent(),
        desktop.is_run(run),
        run[0] == RecordState::under(hwnd, root, options),
    ensures
        ({
            let all = gather_expansion((desktop.trees)(hwnd), options, run[0].out, root.id);
            &&& run.last().next().1 is Done ==> all == Ok::<Collected, error::Failure>(
                run.last().out,
            )
            &&& forall|failure: error::Failure|
                desktop.stops_at(run.last(), failure) ==> all == Err::<Collected, error::Failure>(
                    failure,
                )
        }),
{
    desktop.lemma_run(run, run.len() - 1);
    desktop.lemma_end(run.last());
    let start = run[0];
    let all = gather_expansion((desktop.trees)(hwnd), options, start.out, root.id);
    assert(desktop.gather_rows(options, all, Seq::empty()) == all);
    assert(desktop.outlook(start) == all);
}

/// A query without children makes one record of each window on the desktop, in their order, and
/// asks for nothing under them.
pub proof fn law_query_roots_has_the_desktop_alone(
    trees: Seq<WindowTree>,
    options: WindowQueryOptions,
    out: Collected,
    index: nat,
)
    requires
        !options.include_children,
        index <= trees.len(),
        gather_windows(trees, options, out, None, index) is Ok,
    ensures
        ({
            let records = gather_windows(trees, options, out, None, index)->Ok_0.records;
            &&& records.len() == out.records.len() + trees.len() - index
            &&& forall|i: int|
                0 <= i < out.records.len() ==> #[trigger] records[i] == out.records[i]
            &&& forall|i: int|
                out.records.len() <= i < records.len() ==> {
                    let k = i - out.records.len() + index;
                    &&& (#[trigger] records[i]).parent_id is None
                    &&& trees[k].window.description(Ok((trees.len() - k - 1) as i32)) == Ok::<
                        WindowNode,
                        error::Failure,
                    >(records[i].info)
                }
        }),
    decreases trees.len() - index,
{
    reveal_with_fuel(gather_windows, 2);
    if index < trees.len() {
        let tree = trees[index as int];
        let z = trees.len() - index - 1;
        let info = tree.window.description(Ok(z as i32))->Ok_0;
        let next = record_walk::with_window(out, info, None);
        law_query_roots_has_the_desktop_alone(trees, options, next, index + 1);
        let records = gather_windows(trees, options, out, None, index)->Ok_0.records;
        assert(records[out.records.len() as int] == next.records[out.records.len() as int]);
        assert forall|i: int| 0 <= i < out.records.len() implies #[trigger] records[i]
            == out.records[i] by {
            assert(next.records[i] == out.records[i]);
        }
    }
}

impl Desktop {
    /// Whether elements are recorded under their window or under an element before them, under ids
    /// that are their own.
    pub open spec fn elements_are_sound(self) -> bool {
        forall|hwnd: usize, out: Collected|
            #![trigger ((self.trees)(hwnd).elements)(out)]
            ((self.trees)(hwnd).elements)(out) matches Some(best) ==> uia_laws::is_sound(
                uia_laws::as_gathered(best),
                (self.trees)(hwnd).window.window_id(),
                out.used_ids,
            )
    }

    spec fn is_rooted_walk(self, walk: RecordState, root: Option<u32>) -> bool {
        let records = walk.out.records;
        &&& rooted::are_rooted(records, root)
        &&& forall|i: int|
            0 <= i < walk.rows.len() ==> rooted::is_rooted(
                records,
                root,
                (#[trigger] walk.rows[i]).parent_id,
            )
        &&& walk.wanted matches Wanted::Children(above) ==> rooted::is_rooted(records, root, Some(above.id))
            && above.id == (self.trees)(above.hwnd).window.window_id()
        &&& walk.wanted matches Wanted::Elements(above) ==> rooted::is_rooted(records, root, Some(above.id))
            && above.id == (self.trees)(above.hwnd).window.window_id()
    }

    proof fn lemma_rooted_proceeds(
        self,
        before: RecordState,
        after: RecordState,
        root: Option<u32>,
    )
        requires
            self.is_consistent(),
            self.elements_are_sound(),
            before.well_formed(),
            self.is_rooted_walk(before, root),
            self.proceeds(before, after),
        ensures
            self.is_rooted_walk(after, root),
    {
        let (walk, step) = before.next();
        let rows = before.rows;
        let records = before.out.records;
        match step {
            WindowStep::Read { hwnd } => {
                let row = rows[rows.len() - 1];
                let info = self.answer(walk, hwnd)->Ok_0;
                let added = seq![Found { info, parent_id: row.parent_id }];
                assert(after.out.records =~= records + added);
                rooted::lemma_rooted_more(records, added, root);
                assert(window::known(after.out.records, info.id)) by {
                    assert(after.out.records[records.len() as int].info.id == info.id);
                }
                assert(added.take(0) =~= Seq::empty());
                assert forall|i: int| 0 <= i < after.rows.len() implies rooted::is_rooted(
                    after.out.records,
                    root,
                    (#[trigger] after.rows[i]).parent_id,
                ) by {
                    assert(rows[i].parent_id == after.rows[i].parent_id);
                }
            },
            WindowStep::List { .. } => {
                assert forall|i: int| 0 <= i < after.rows.len() implies rooted::is_rooted(
                    after.out.records,
                    root,
                    (#[trigger] after.rows[i]).parent_id,
                ) by {
                    if i < rows.len() {
                        assert(rows[i] == after.rows[i]);
                    }
                }
            },
            WindowStep::Probe { hwnd } => {
                let above = before.wanted->Elements_0;
                if let Some(best) = ((self.trees)(hwnd).elements)(before.out) {
                    let added = best.records;
                    assert forall|i: int| 0 <= i < added.len() implies rooted::is_rooted(
                        records + added.take(i),
                        root,
                        (#[trigger] added[i]).parent_id,
                    ) by {
                        let parent = added[i].parent_id->0;
                        assert(uia_laws::is_known(added.take(i), above.id, parent));
                        let all = records + added.take(i);
                        if parent == above.id {
                            rooted::lemma_known_more(records, added.take(i), above.id);
                        } else {
                            let k = choose|k: int|
                                0 <= k < i && (#[trigger] added.take(i)[k]).info.id == parent;
                            assert(all[records.len() + k].info.id == parent);
                        }
                    }
                    rooted::lemma_rooted_more(records, added, root);
                }
            },
            WindowStep::Again => {
                assert forall|i: int| 0 <= i < after.rows.len() implies rooted::is_rooted(
                    after.out.records,
                    root,
                    (#[trigger] after.rows[i]).parent_id,
                ) by {
                    assert(rows[i] == after.rows[i]);
                }
            },
            WindowStep::Done => {},
        }
    }

    proof fn lemma_rooted_run(self, run: Seq<RecordState>, i: int, root: Option<u32>)
        requires
            self.is_consistent(),
            self.elements_are_sound(),
            self.is_run(run),
            self.is_rooted_walk(run[0], root),
            0 <= i < run.len(),
        ensures
            self.is_rooted_walk(run[i], root),
        decreases i,
    {
        if i > 0 {
            self.lemma_rooted_run(run, i - 1, root);
            self.lemma_run(run, i - 1);
            assert(self.proceeds(run[i - 1], run[i - 1 + 1]));
            self.lemma_rooted_proceeds(run[i - 1], run[i], root);
        }
    }
}

/// At any time of a walk over the desktop every record stands at the top or under a record before
/// it.
pub proof fn law_query_records_are_rooted(
    desktop: Desktop,
    hwnds: Seq<usize>,
    options: WindowQueryOptions,
    run: Seq<RecordState>,
)
    requires
        desktop.is_consistent(),
        desktop.elements_are_sound(),
        hwnds.len() <= i32::MAX,
        desktop.is_run(run),
        run[0] == RecordState::over(hwnds, options),
    ensures
        rooted::are_rooted(run.last().out.records, None),
{
    desktop.lemma_rooted_run(run, run.len() - 1, None);
}

/// At any time of a walk under a window every record stands under the window or under a record
/// before it.
pub proof fn law_expansion_records_are_rooted(
    desktop: Desktop,
    hwnd: usize,
    root: WindowNode,
    options: WindowQueryOptions,
    run: Seq<RecordState>,
)
    requires
        desktop.is_consistent(),
        desktop.elements_are_sound(),
        root.id == (desktop.trees)(hwnd).window.window_id(),
        desktop.is_run(run),
        run[0] == RecordState::under(hwnd, root, options),
    ensures
        rooted::are_rooted(run.last().out.records, Some(root.id)),
{
    desktop.lemma_rooted_run(run, run.len() - 1, Some(root.id));
}

/// How many steps a walk over a window and what is under it takes at most.
pub open spec fn steps_of(tree: WindowTree) -> nat
    decreases tree, 0nat,
{
    4 + steps_in(tree.children, 0)
}

/// How many steps a walk over windows from one on takes at most.
pub open spec fn steps_in(trees: Seq<WindowTree>, index: nat) -> nat
    decreases trees, trees.len() - index,
{
    if index >= trees.len() {
        1
    } else {
        steps_of(trees[index as int]) + steps_in(trees, index + 1)
    }
}

impl Desktop {
    spec fn steps_over(self, rows: Seq<Row>) -> nat
        decreases rows.len(),
    {
        if rows.len() == 0 {
            0
        } else {
            steps_in(self.windows(rows.last().hwnds), rows.last().index) + self.steps_over(
                rows.drop_last(),
            )
        }
    }

    spec fn steps_left(self, walk: RecordState) -> nat {
        let here = match walk.wanted {
            Wanted::Nothing => 0,
            Wanted::Window => 0,
            Wanted::Children(above) => 2 + steps_in((self.trees)(above.hwnd).children, 0),
            Wanted::Elements(_) => 1,
        };
        here + self.steps_over(walk.rows)
    }

    proof fn lemma_steps(self, before: RecordState, after: RecordState)
        requires
            self.is_consistent(),
            before.well_formed(),
            self.proceeds(before, after),
        ensures
            self.steps_left(after) < self.steps_left(before),
    {
        reveal_with_fuel(steps_in, 2);
        let (walk, step) = before.next();
        let rows = before.rows;
        match step {
            WindowStep::Read { hwnd } => {
                let row = rows.last();
                assert(self.windows(row.hwnds)[row.index as int] == (self.trees)(hwnd));
                assert(after.rows.drop_last() =~= rows.drop_last());
            },
            WindowStep::List { hwnd } => {
                let children = self.children(hwnd);
                let tree = (self.trees)(hwnd);
                if children.len() > 0 {
                    assert(after.rows.drop_last() =~= rows);
                    assert(self.windows(children) =~= tree.children) by {
                        assert forall|i: int| 0 <= i < children.len() implies self.windows(
                            children,
                        )[i] == tree.children[i] by {
                            assert((self.trees)(hwnd).children[i] == tree.children[i]);
                        }
                    }
                }
            },
            _ => {},
        }
    }

    proof fn lemma_steps_of_run(self, run: Seq<RecordState>, i: int)
        requires
            self.is_consistent(),
            self.is_run(run),
            0 <= i < run.len(),
        ensures
            i + self.steps_left(run[i]) <= self.steps_left(run[0]),
        decreases i,
    {
        if i > 0 {
            self.lemma_steps_of_run(run, i - 1);
            self.lemma_run(run, i - 1);
            assert(self.proceeds(run[i - 1], run[i - 1 + 1]));
            self.lemma_steps(run[i - 1], run[i]);
        }
    }
}

/// Every query comes to an end: it takes no more steps than the windows allow.
pub proof fn law_query_ends(
    desktop: Desktop,
    hwnds: Seq<usize>,
    options: WindowQueryOptions,
    run: Seq<RecordState>,
)
    requires
        desktop.is_consistent(),
        hwnds.len() <= i32::MAX,
        desktop.is_run(run),
        run[0] == RecordState::over(hwnds, options),
    ensures
        run.len() <= 1 + steps_in(desktop.windows(hwnds), 0),
{
    desktop.lemma_steps_of_run(run, run.len() - 1);
    assert(run[0].rows.drop_last() =~= Seq::empty());
    assert(desktop.steps_over(run[0].rows.drop_last()) == 0);
}

/// Every expansion comes to an end: it takes no more steps than the windows allow.
pub proof fn law_expansion_ends(
    desktop: Desktop,
    hwnd: usize,
    root: WindowNode,
    options: WindowQueryOptions,
    run: Seq<RecordState>,
)
    requires
        desktop.is_consistent(),
        desktop.is_run(run),
        run[0] == RecordState::under(hwnd, root, options),
    ensures
        run.len() <= 3 + steps_in((desktop.trees)(hwnd).children, 0),
{
    desktop.lemma_steps_of_run(run, run.len() - 1);
}

impl Desktop {
    /// Whether elements take the ids from the next one on, one after the other, where no id in use
    /// comes after it.
    pub open spec fn elements_are_consecutive(self) -> bool {
        forall|hwnd: usize, out: Collected|
            #![trigger ((self.trees)(hwnd).elements)(out)]
            (((self.trees)(hwnd).elements)(out) matches Some(best) && out.next_id
                + MAX_UIA_NODES_PER_WINDOW <= u32::MAX && (forall|id: u32|
                out.used_ids.contains(id) ==> id < out.next_id)) ==> ({
                let best = ((self.trees)(hwnd).elements)(out)->0;
                &&& uia_laws::are_consecutive(best.records, out.next_id, best.next_id)
                &&& forall|id: u32| best.used_ids.contains(id) ==> id < best.next_id
            })
    }

    /// Whether the windows that a walk reads have ids of their own, apart from that of the window
    /// that is expanded, and below those that elements are given.
    pub open spec fn windows_are_apart(self, run: Seq<RecordState>, root: u32) -> bool {
        &&& forall|i: int|
            0 <= i < run.len() ==> ((#[trigger] run[i]).next().1 matches WindowStep::Read { hwnd }
                ==> self.id_of(hwnd) < EXPANSION_IDS && self.id_of(hwnd) != root)
        &&& forall|i: int, j: int|
            0 <= i < j < run.len() ==> (((#[trigger] run[i]).next().1 matches WindowStep::Read {
                hwnd: one,
            } && (#[trigger] run[j]).next().1 matches WindowStep::Read { hwnd: other })
                ==> self.id_of(run[i].next().1->Read_hwnd) != self.id_of(
                run[j].next().1->Read_hwnd,
            ))
    }

    /// The id of a window.
    pub open spec fn id_of(self, hwnd: usize) -> u32 {
        (self.trees)(hwnd).window.window_id()
    }

    /// Whether a window with this id is read before step `i`.
    spec fn is_read_before(self, run: Seq<RecordState>, id: u32, i: int) -> bool {
        exists|k: int|
            0 <= k < i && (#[trigger] run[k]).next().1 is Read && self.id_of(
                run[k].next().1->Read_hwnd,
            ) == id
    }

    proof fn lemma_distinct(self, run: Seq<RecordState>, root: u32, i: int)
        requires
            self.is_consistent(),
            self.elements_are_sound(),
            self.elements_are_consecutive(),
            self.is_run(run),
            self.windows_are_apart(run, root),
            root < EXPANSION_IDS,
            run[0].out.records.len() == 0,
            run[0].out.next_id == EXPANSION_IDS,
            run[0].out.used_ids == set![root],
            0 <= i < run.len(),
            i * MAX_UIA_NODES_PER_WINDOW < 0x7fff_fe00,
        ensures
            ({
                let out = run[i].out;
                &&& EXPANSION_IDS <= out.next_id <= EXPANSION_IDS + i * MAX_UIA_NODES_PER_WINDOW
                &&& forall|id: u32| out.used_ids.contains(id) ==> id < out.next_id
                &&& forall|id: u32|
                    out.used_ids.contains(id) && id < EXPANSION_IDS ==> id == root
                        || self.is_read_before(run, id, i)
                &&& out.used_ids.contains(root)
                &&& forall|k: int|
                    0 <= k < out.records.len() ==> out.used_ids.contains(
                        (#[trigger] out.records[k]).info.id,
                    ) && out.records[k].info.id != root
                &&& tree_laws::distinct_ids(out.records)
            }),
        decreases i,
    {
        if i > 0 {
            assert((i - 1) * MAX_UIA_NODES_PER_WINDOW < i * MAX_UIA_NODES_PER_WINDOW)
                by (nonlinear_arith);
            self.lemma_distinct(run, root, i - 1);
            self.lemma_run(run, i - 1);
            let before = run[i - 1];
            let after = run[i];
            let (walk, step) = before.next();
            assert(self.proceeds(run[i - 1], run[i - 1 + 1]));
            assert((i - 1) * MAX_UIA_NODES_PER_WINDOW + MAX_UIA_NODES_PER_WINDOW == i
                * MAX_UIA_NODES_PER_WINDOW) by (nonlinear_arith);
            assert forall|id: u32|
                self.is_read_before(run, id, i - 1) implies self.is_read_before(run, id, i) by {
                let k = choose|k: int|
                    0 <= k < i - 1 && (#[trigger] run[k]).next().1 is Read && self.id_of(
                        run[k].next().1->Read_hwnd,
                    ) == id;
                assert(run[k].next().1 is Read);
            }
            match step {
                WindowStep::Read { hwnd } => {
                    let id = self.id_of(hwnd);
                    let info = self.answer(walk, hwnd)->Ok_0;
                    assert(info.id == id);
                    assert(run[i - 1].next().1 matches WindowStep::Read { hwnd: read }
                        && read == hwnd);
                    assert(!before.out.used_ids.contains(id)) by {
                        if self.is_read_before(run, id, i - 1) {
                            let k = choose|k: int|
                                0 <= k < i - 1 && (#[trigger] run[k]).next().1 is Read
                                    && self.id_of(run[k].next().1->Read_hwnd) == id;
                            assert(run[k].next().1 is Read && run[i - 1].next().1 is Read);
                        }
                    }
                    assert(self.is_read_before(run, id, i)) by {
                        assert(run[i - 1].next().1 is Read);
                    }
                    let records = before.out.records;
                    assert forall|a: int, b: int|
                        0 <= a < b < after.out.records.len() implies (
                    #[trigger] after.out.records[a]).info.id != (
                    #[trigger] after.out.records[b]).info.id by {
                        assert(after.out.records[a] == records[a]);
                        if b < records.len() {
                            assert(after.out.records[b] == records[b]);
                        }
                    }
                },
                WindowStep::Probe { hwnd } => {
                    if let Some(best) = ((self.trees)(hwnd).elements)(before.out) {
                        let records = before.out.records;
                        let added = best.records;
                        assert(after.out.records == records + added);
                        assert(uia_laws::are_consecutive(
                            added,
                            before.out.next_id,
                            best.next_id,
                        ));
                        assert forall|id: u32|
                            best.used_ids.contains(id) && id
                                < EXPANSION_IDS implies before.out.used_ids.contains(id) by {
                            if !before.out.used_ids.contains(id) {
                                let k = choose|k: int|
                                    0 <= k < added.len() && (#[trigger] added[k]).info.id == id;
                                assert(added[k].info.id >= EXPANSION_IDS);
                            }
                        }
                        assert forall|k: int| 0 <= k < after.out.records.len() implies best
                            .used_ids.contains((#[trigger] after.out.records[k]).info.id)
                            && after.out.records[k].info.id != root by {
                            if k < records.len() {
                                assert(after.out.records[k] == records[k]);
                            } else {
                                assert(after.out.records[k] == added[k - records.len()]);
                                assert(added[k - records.len()].info.id
                                    == before.out.next_id + (k - records.len()));
                            }
                        }
                        assert forall|a: int, b: int|
                            0 <= a < b < after.out.records.len() implies (
                        #[trigger] after.out.records[a]).info.id != (
                        #[trigger] after.out.records[b]).info.id by {
                            if b < records.len() {
                                assert(after.out.records[a] == records[a]);
                                assert(after.out.records[b] == records[b]);
                            } else {
                                assert(after.out.records[b] == added[b - records.len()]);
                                if a < records.len() {
                                    assert(after.out.records[a] == records[a]);
                                } else {
                                    assert(after.out.records[a] == added[a - records.len()]);
                                }
                            }
                        }
                    }
                },
                _ => {},
            }
        }
    }
}

/// Where a window and the windows under it have ids of their own, below those that elements are
/// given, no two records of an expansion have the same id, and none has that of the window:
/// elements never take the id of a window. That is as long as the ids for elements do not run out.
pub proof fn law_expansion_ids_are_distinct(
    desktop: Desktop,
    hwnd: usize,
    root: WindowNode,
    options: WindowQueryOptions,
    run: Seq<RecordState>,
)
    requires
        desktop.is_consistent(),
        desktop.elements_are_sound(),
        desktop.elements_are_consecutive(),
        desktop.is_run(run),
        run[0] == RecordState::under(hwnd, root, options),
        root.id < EXPANSION_IDS,
        desktop.windows_are_apart(run, root.id),
        run.len() * MAX_UIA_NODES_PER_WINDOW < 0x7fff_fe00,
    ensures
        tree_laws::distinct_ids(
            seq![Found { info: root, parent_id: None }] + run.last().out.records,
        ),
{
    let last = run.len() - 1;
    assert(last * MAX_UIA_NODES_PER_WINDOW <= run.len() * MAX_UIA_NODES_PER_WINDOW)
        by (nonlinear_arith)
        requires
            last == run.len() - 1,
    ;
    desktop.lemma_distinct(run, root.id, last);
    let records = run.last().out.records;
    let all = seq![Found { info: root, parent_id: None }] + records;
    assert forall|a: int, b: int| 0 <= a < b < all.len() implies (#[trigger] all[a]).info.id != (
    #[trigger] all[b]).info.id by {
        assert(all[b] == records[b - 1]);
        if a > 0 {
            assert(all[a] == records[a - 1]);
        }
    }
}

} // verus!
