//! Elements gathered in several attempts, of which the most fruitful counts.

use std::collections::HashSet;

use vstd::prelude::*;

use crate::error::{XCapError, XCapResult};
use crate::window;
use crate::window::{Found, WindowInfoRecord, WindowQueryOptions};
use crate::windows::accessibility;
use crate::windows::accessibility::{
    UiaContext, UiaQueryOptions, UiaState, UiaWalk, MAX_UIA_NODES_PER_WINDOW,
};

verus! {

broadcast use vstd::std_specs::hash::group_hash_axioms;

/// How long to wait before elements are probed again, in milliseconds.
pub const UIA_PROBE_INTERVAL_MS: u64 = 75;

/// How many nanoseconds a millisecond has.
pub const NANOSECONDS: u128 = 1_000_000;

/// Records, the id that is tried next, and the ids in use.
pub struct Collected {
    pub records: Seq<Found>,
    pub next_id: u32,
    pub used_ids: Set<u32>,
}

/// What a walk has collected.
pub open spec fn collected(walk: UiaState) -> Collected {
    Collected {
        records: walk.out.records,
        next_id: walk.out.next_id,
        used_ids: walk.out.used_ids,
    }
}

/// The one of two collections that has more records; the first where they have equally many.
pub open spec fn better(best: Collected, attempt: Collected) -> Collected {
    if attempt.records.len() > best.records.len() {
        attempt
    } else {
        best
    }
}

/// When probing ends, where it goes on after the first attempt.
pub open spec fn probe_deadline(timeout_ms: Option<u64>, now: u128) -> Option<int> {
    match timeout_ms {
        Some(timeout_ms) => if timeout_ms > 0 {
            Some(now + timeout_ms * NANOSECONDS)
        } else {
            None
        },
        None => None,
    }
}

/// What is to be done after an attempt.
#[derive(Debug, Clone, Copy, PartialEq, Eq, Structural)]
pub enum ProbeStep {
    /// Wait for so many milliseconds, and make another attempt.
    Wait { milliseconds: u64 },
    /// Nothing: the best attempt is there.
    Done,
}

/// How far probing has got.
pub struct ProbeState {
    pub context: UiaContext,
    pub element: usize,
    pub parent_id: u32,
    /// What every attempt starts from.
    pub base: Collected,
    pub deadline: Option<int>,
    /// What the best attempt has collected.
    pub best: Collected,
}

/// How probing starts under `element`, which is the window `hwnd`.
pub open spec fn probe_start(
    hwnd: usize,
    element: usize,
    parent_id: u32,
    root_pid: u32,
    root_app_name: Seq<char>,
    options: WindowQueryOptions,
    next_id: u32,
    used_ids: Set<u32>,
    now: u128,
) -> ProbeState {
    let base = Collected { records: Seq::empty(), next_id, used_ids };
    ProbeState {
        context: UiaContext {
            root_hwnd: hwnd,
            root_pid,
            root_app_name,
            options: UiaQueryOptions {
                deep_children: options.deep_children,
                relaxed_filtering: options.relaxed_filtering,
                probe_timeout_ms: options.probe_timeout_ms,
            },
        },
        element,
        parent_id,
        base,
        deadline: probe_deadline(options.probe_timeout_ms, now),
        best: base,
    }
}

/// The attempts to gather the elements under a window. Times are in nanoseconds.
#[derive(Debug)]
pub struct UiaProbe {
    root_hwnd: usize,
    root_pid: u32,
    root_app_name: String,
    options: UiaQueryOptions,
    element: usize,
    parent_id: u32,
    base_next_id: u32,
    base_used_ids: HashSet<u32>,
    deadline: Option<u128>,
    best_records: Vec<WindowInfoRecord>,
    best_next_id: u32,
    best_used_ids: HashSet<u32>,
}

impl View for UiaProbe {
    type V = ProbeState;

    closed spec fn view(&self) -> ProbeState {
        ProbeState {
            context: UiaContext {
                root_hwnd: self.root_hwnd,
                root_pid: self.root_pid,
                root_app_name: self.root_app_name@,
                options: self.options,
            },
            element: self.element,
            parent_id: self.parent_id,
            base: Collected {
                records: Seq::empty(),
                next_id: self.base_next_id,
                used_ids: self.base_used_ids@,
            },
            deadline: match self.deadline {
                Some(deadline) => Some(deadline as int),
                None => None,
            },
            best: Collected {
                records: window::found(self.best_records@),
                next_id: self.best_next_id,
                used_ids: self.best_used_ids@,
            },
        }
    }
}

impl UiaProbe {
    /// Sets out to gather the elements under `element`, which is the window `hwnd`. What is right
    /// under it is recorded under `parent_id`.
    pub fn new(
        hwnd: usize,
        element: usize,
        parent_id: u32,
        root_pid: u32,
        root_app_name: &str,
        options: &WindowQueryOptions,
        next_id: u32,
        used_ids: &HashSet<u32>,
        now: u128,
    ) -> (probe: UiaProbe)
        requires
            probe_deadline(options.probe_timeout_ms, now) matches Some(deadline) ==> deadline
                <= u128::MAX,
        ensures
            probe@ == probe_start(
                hwnd,
                element,
                parent_id,
                root_pid,
                root_app_name@,
                *options,
                next_id,
                used_ids@,
                now,
            ),
    {
        let deadline: Option<u128> = match options.probe_timeout_ms {
            Some(timeout_ms) => if timeout_ms > 0 {
                Some(now + timeout_ms as u128 * NANOSECONDS)
            } else {
                None
            },
            None => None,
        };
        let probe = UiaProbe {
            root_hwnd: hwnd,
            root_pid,
            root_app_name: root_app_name.to_owned(),
            options: UiaQueryOptions::from(options),
            element,
            parent_id,
            base_next_id: next_id,
            base_used_ids: accessibility::copy_ids(used_ids),
            deadline,
            best_records: Vec::new(),
            best_next_id: next_id,
            best_used_ids: accessibility::copy_ids(used_ids),
        };
        assert(window::found(probe.best_records@) =~= Seq::empty());
        probe
    }

    /// Whether there are ids enough for an attempt.
    pub fn has_room(&self) -> (yes: bool)
        ensures
            yes == (self@.base.used_ids.len() + MAX_UIA_NODES_PER_WINDOW < 0x1_0000_0000),
    {
        (self.base_used_ids.len() as u64) < 0x1_0000_0000 - MAX_UIA_NODES_PER_WINDOW as u64
    }

    /// Starts an attempt.
    pub fn attempt(&self) -> (walk: UiaWalk)
        requires
            self@.base.used_ids.len() + MAX_UIA_NODES_PER_WINDOW < 0x1_0000_0000,
        ensures
            walk.well_formed(),
            walk@ == UiaState::start(
                self@.context,
                self@.element,
                self@.parent_id,
                self@.base.next_id,
                self@.base.used_ids,
            ),
    {
        UiaWalk::new(
            self.root_hwnd,
            self.root_pid,
            self.root_app_name.as_str(),
            self.options,
            self.element,
            self.parent_id,
            self.base_next_id,
            &self.base_used_ids,
        )
    }

    /// Takes up an attempt that is over, and says what is to be done next. Only an attempt with
    /// more records than all before it counts.
    pub fn attempted(&mut self, walk: UiaWalk, now: u128) -> (step: ProbeStep)
        requires
            walk@.next().1 is Done,
        ensures
            final(self)@ == (ProbeState {
                best: better(old(self)@.best, collected(walk@)),
                ..old(self)@
            }),
            match old(self)@.deadline {
                Some(deadline) => if now >= deadline {
                    step == ProbeStep::Done
                } else {
                    step == (ProbeStep::Wait { milliseconds: UIA_PROBE_INTERVAL_MS })
                },
                None => step == ProbeStep::Done,
            },
    {
        let (records, next_id, used_ids) = walk.finish();
        if records.len() > self.best_records.len() {
            self.best_records = records;
            self.best_next_id = next_id;
            self.best_used_ids = used_ids;
        }
        match self.deadline {
            Some(deadline) => {
                if now >= deadline {
                    ProbeStep::Done
                } else {
                    ProbeStep::Wait { milliseconds: UIA_PROBE_INTERVAL_MS }
                }
            },
            None => ProbeStep::Done,
        }
    }
}

/// Adds what the best attempt has collected, and says how many records that is. Where probing has
/// failed, nothing changes.
pub fn collect_uia_children(
    outcome: XCapResult<UiaProbe>,
    next_id: &mut u32,
    used_ids: &mut HashSet<u32>,
    records: &mut Vec<WindowInfoRecord>,
) -> (result: XCapResult<usize>)
    ensures
        match outcome {
            Ok(probe) => {
                &&& result matches Ok(added) && added == probe@.best.records.len()
                &&& *final(next_id) == probe@.best.next_id
                &&& final(used_ids)@ == probe@.best.used_ids
                &&& window::found(final(records)@) == window::found(old(records)@)
                    + probe@.best.records
            },
            Err(failure) => {
                &&& result == Err::<usize, XCapError>(failure)
                &&& *final(next_id) == *old(next_id)
                &&& *final(used_ids) == *old(used_ids)
                &&& *final(records) == *old(records)
            },
        },
{
    match outcome {
        Err(failure) => Err(failure),
        Ok(probe) => {
            *next_id = probe.best_next_id;
            *used_ids = probe.best_used_ids;
            let added: usize = probe.best_records.len();
            let mut best = probe.best_records;
            records.append(&mut best);
            assert(window::found(records@) =~= window::found(old(records)@) + probe@.best.records);
            Ok(added)
        },
    }
}

/// What is left of attempts one after the other.
spec fn best_of(base: Collected, attempts: Seq<Collected>) -> Collected
    decreases attempts.len(),
{
    if attempts.len() == 0 {
        base
    } else {
        better(best_of(base, attempts.drop_last()), attempts.last())
    }
}

proof fn lemma_best_of(base: Collected, attempts: Seq<Collected>)
    requires
        base.records.len() == 0,
    ensures
        ({
            let best = best_of(base, attempts);
            &&& forall|i: int|
                0 <= i < attempts.len() ==> (#[trigger] attempts[i]).records.len()
                    <= best.records.len()
            &&& best.records.len() == 0 ==> best == base
            &&& best.records.len() > 0 ==> exists|k: int|
                {
                    &&& 0 <= k < attempts.len()
                    &&& #[trigger] attempts[k] == best
                    &&& forall|i: int|
                        0 <= i < k ==> (#[trigger] attempts[i]).records.len() < best.records.len()
                }
        }),
    decreases attempts.len(),
{
    if attempts.len() > 0 {
        let before = attempts.drop_last();
        lemma_best_of(base, before);
        let kept = best_of(base, before);
        let best = best_of(base, attempts);
        assert forall|i: int| 0 <= i < attempts.len() implies (
        #[trigger] attempts[i]).records.len() <= best.records.len() by {
            if i < before.len() {
                assert(before[i] == attempts[i]);
            }
        }
        if attempts.last().records.len() > kept.records.len() {
            let k = attempts.len() - 1;
            assert(attempts[k] == best);
            assert forall|i: int| 0 <= i < k implies (#[trigger] attempts[i]).records.len()
                < best.records.len() by {
                assert(before[i] == attempts[i]);
            }
        } else if best.records.len() > 0 {
            let k = choose|k: int|
                {
                    &&& 0 <= k < before.len()
                    &&& #[trigger] before[k] == kept
                    &&& forall|i: int|
                        0 <= i < k ==> (#[trigger] before[i]).records.len() < kept.records.len()
                };
            assert(attempts[k] == best);
            assert forall|i: int| 0 <= i < k implies (#[trigger] attempts[i]).records.len()
                < best.records.len() by {
                assert(before[i] == attempts[i]);
            }
        }
    }
}

/// What is left of any number of attempts is the first of those with the most records; or what they
/// started from, where none has a record.
pub proof fn law_first_best_attempt_counts(run: Seq<ProbeState>, attempts: Seq<Collected>)
    requires
        run.len() == attempts.len() + 1,
        run[0].best == run[0].base,
        run[0].base.records.len() == 0,
        forall|i: int|
            0 <= i < attempts.len() ==> run[i + 1] == (ProbeState {
                best: better(run[i].best, #[trigger] attempts[i]),
                ..run[i]
            }),
    ensures
        ({
            let best = run.last().best;
            &&& forall|i: int|
                0 <= i < attempts.len() ==> (#[trigger] attempts[i]).records.len()
                    <= best.records.len()
            &&& best.records.len() == 0 ==> best == run[0].base
            &&& best.records.len() > 0 ==> exists|k: int|
                {
                    &&& 0 <= k < attempts.len()
                    &&& #[trigger] attempts[k] == best
                    &&& forall|i: int|
                        0 <= i < k ==> (#[trigger] attempts[i]).records.len() < best.records.len()
                }
        }),
{
    lemma_run(run, attempts);
    lemma_best_of(run[0].base, attempts);
}

proof fn lemma_run(run: Seq<ProbeState>, attempts: Seq<Collected>)
    requires
        run.len() == attempts.len() + 1,
        run[0].best == run[0].base,
        forall|i: int|
            0 <= i < attempts.len() ==> run[i + 1] == (ProbeState {
                best: better(run[i].best, #[trigger] attempts[i]),
                ..run[i]
            }),
    ensures
        run.last().best == best_of(run[0].base, attempts),
    decreases attempts.len(),
{
    if attempts.len() > 0 {
        let before = attempts.drop_last();
        assert forall|i: int| 0 <= i < before.len() implies run.drop_last()[i + 1] == (ProbeState {
            best: better(run.drop_last()[i].best, #[trigger] before[i]),
            ..run.drop_last()[i]
        }) by {
            assert(before[i] == attempts[i]);
        }
        lemma_run(run.drop_last(), before);
        assert(attempts[attempts.len() - 1] == attempts.last());
    }
}

} // verus!
