//! The walk over the elements of an accessibility tree.
//!
//! The elements can only be listed and read outside of this crate, one at a time. A [`Traversal`]
//! says at every moment what is to be done next and takes up the answer. It goes down before it
//! goes on, goes no deeper than it is told to, passes over elements that it has seen, and stops at
//! a limit of elements.

use std::collections::HashSet;

use vstd::prelude::*;

verus! {

broadcast use vstd::std_specs::hash::group_hash_axioms;

/// How many elements of a window are visited at most.
pub const MAX_AX_NODES_PER_WINDOW: usize = 1024;

/// An element that is to be read, and where it stands.
#[derive(Debug, Clone, Copy, PartialEq, Eq, Structural)]
pub struct Reading {
    pub element: usize,
    /// What the element above it was tagged with.
    pub tag: u32,
    /// How many levels are above the list that it stands in.
    pub depth: usize,
    /// How many elements are in that list.
    pub siblings: usize,
    /// Which of them it is.
    pub index: usize,
}

/// An element whose list is wanted, and the tag that it was given.
#[derive(Debug, Clone, Copy, PartialEq, Eq, Structural)]
pub struct Target {
    pub element: usize,
    pub tag: u32,
}

/// What is to be done next.
#[derive(Debug, Clone, Copy, PartialEq, Eq, Structural)]
pub enum Step {
    /// Nothing: ask again.
    Again,
    /// Nothing: an element of a list at this depth has been seen before.
    Skipped { element: usize, depth: usize },
    /// Nothing: the limit of elements was reached in a list at this depth.
    Stopped { depth: usize },
    /// List the elements under this one, and answer with [`Traversal::listed`].
    List { element: usize },
    /// Read this element, and answer with [`Traversal::visited`].
    Read(Reading),
    /// Nothing: the walk is over.
    Done,
}

/// A list of elements, and how far it has been gone through.
#[derive(Debug)]
pub struct Frame {
    pub children: Vec<usize>,
    pub index: usize,
    pub tag: u32,
}

/// The mathematical content of a [`Frame`].
pub struct Level {
    pub children: Seq<usize>,
    pub index: nat,
    pub tag: u32,
}

impl View for Frame {
    type V = Level;

    open spec fn view(&self) -> Level {
        Level { children: self.children@, index: self.index as nat, tag: self.tag }
    }
}

/// A walk in progress.
#[derive(Debug)]
pub struct Traversal {
    max_depth: usize,
    visited: HashSet<usize>,
    visited_count: usize,
    frames: Vec<Frame>,
    pending: Option<Target>,
    reading: Option<Reading>,
}

/// The mathematical content of a [`Traversal`].
pub struct Walk {
    pub max_depth: nat,
    /// The elements seen so far.
    pub visited: Set<usize>,
    /// How many elements have been counted.
    pub visited_count: nat,
    /// The lists that are being gone through, each under an element of the one before it.
    pub levels: Seq<Level>,
    /// The element whose list is wanted.
    pub pending: Option<Target>,
    /// The element that is wanted.
    pub reading: Option<Reading>,
}

impl View for Traversal {
    type V = Walk;

    closed spec fn view(&self) -> Walk {
        Walk {
            max_depth: self.max_depth as nat,
            visited: self.visited@,
            visited_count: self.visited_count as nat,
            levels: Seq::new(self.frames@.len(), |i: int| self.frames@[i]@),
            pending: self.pending,
            reading: self.reading,
        }
    }
}

impl Walk {
    /// The bounds that a walk keeps.
    pub open spec fn well_formed(self) -> bool {
        &&& self.max_depth + MAX_AX_NODES_PER_WINDOW <= usize::MAX
        &&& self.levels.len() <= self.max_depth
        &&& self.reading is Some ==> self.pending is None
        &&& forall|i: int|
            0 <= i < self.levels.len() ==> (#[trigger] self.levels[i]).children.len() <= i32::MAX
        &&& self.reading matches Some(reading) ==> {
            &&& reading.index < reading.siblings <= i32::MAX
            &&& reading.depth + 1 == self.levels.len()
        }
        &&& self.visited_count <= MAX_AX_NODES_PER_WINDOW || self.visited_count
            + self.levels.len() <= MAX_AX_NODES_PER_WINDOW + self.max_depth
    }

    /// The walk with the list that is gone through now taken one element further.
    pub open spec fn advanced(self) -> Walk {
        let level = self.levels.last();
        Walk {
            levels: self.levels.drop_last().push(Level { index: level.index + 1, ..level }),
            ..self
        }
    }

    /// The walk with one more element seen and counted.
    pub open spec fn counted(self, element: usize) -> Walk {
        Walk {
            visited: self.visited.insert(element),
            visited_count: self.visited_count + 1,
            ..self
        }
    }

    /// What is to be done next, and the walk from there.
    pub open spec fn next(self) -> (Walk, Step) {
        let depth = (self.levels.len() - 1) as usize;
        if self.reading is Some {
            (self, Step::Read(self.reading->0))
        } else if self.pending is Some {
            if self.levels.len() >= self.max_depth || self.visited_count
                >= MAX_AX_NODES_PER_WINDOW {
                (Walk { pending: None, ..self }, Step::Again)
            } else {
                (self, Step::List { element: self.pending->0.element })
            }
        } else if self.levels.len() == 0 {
            (self, Step::Done)
        } else {
            let level = self.levels.last();
            if level.index >= level.children.len() {
                (Walk { levels: self.levels.drop_last(), ..self }, Step::Again)
            } else {
                let element = level.children[level.index as int];
                if self.visited.contains(element) {
                    (self.advanced(), Step::Skipped { element, depth })
                } else if self.visited_count + 1 > MAX_AX_NODES_PER_WINDOW {
                    (
                        Walk { levels: self.levels.drop_last(), ..self.counted(element) },
                        Step::Stopped { depth },
                    )
                } else {
                    let reading = Reading {
                        element,
                        tag: level.tag,
                        depth,
                        siblings: level.children.len() as usize,
                        index: level.index as usize,
                    };
                    (
                        Walk { reading: Some(reading), ..self.advanced().counted(element) },
                        Step::Read(reading),
                    )
                }
            }
        }
    }

    /// The walk once the list that is wanted is there.
    pub open spec fn after_list(self, children: Seq<usize>) -> Walk {
        Walk {
            pending: None,
            levels: self.levels.push(Level { children, index: 0, tag: self.pending->0.tag }),
            ..self
        }
    }

    /// The walk once the element that is wanted has been read: where it is given a tag, the list
    /// under it is wanted next.
    pub open spec fn after_read(self, descend: Option<u32>) -> Walk {
        Walk {
            reading: None,
            pending: match descend {
                Some(tag) => Some(Target { element: self.reading->0.element, tag }),
                None => None,
            },
            ..self
        }
    }

    /// The start of a walk under an element that counts as seen.
    pub open spec fn start(element: usize, tag: u32, max_depth: nat) -> Walk {
        Walk {
            max_depth,
            visited: set![element],
            visited_count: 1,
            levels: Seq::empty(),
            pending: Some(Target { element, tag }),
            reading: None,
        }
    }
}

impl Traversal {
    /// Starts a walk under an element that counts as seen.
    pub fn new(element: usize, tag: u32, max_depth: usize) -> (walk: Traversal)
        requires
            max_depth + MAX_AX_NODES_PER_WINDOW <= usize::MAX,
        ensures
            walk@ == Walk::start(element, tag, max_depth as nat),
            walk@.well_formed(),
    {
        let mut visited: HashSet<usize> = HashSet::new();
        visited.insert(element);
        let walk = Traversal {
            max_depth,
            visited,
            visited_count: 1,
            frames: Vec::new(),
            pending: Some(Target { element, tag }),
            reading: None,
        };
        assert(walk@.visited =~= set![element]);
        assert(walk@.levels =~= Seq::empty());
        walk
    }

    /// Says what is to be done next.
    pub fn step(&mut self) -> (step: Step)
        requires
            old(self)@.well_formed(),
        ensures
            (final(self)@, step) == old(self)@.next(),
            final(self)@.well_formed(),
    {
        let ghost before = self@;
        if let Some(reading) = self.reading {
            return Step::Read(reading);
        }
        if let Some(target) = self.pending {
            if self.frames.len() >= self.max_depth || self.visited_count
                >= MAX_AX_NODES_PER_WINDOW {
                self.pending = None;
                assert(self@.levels =~= before.levels);
                return Step::Again;
            }
            return Step::List { element: target.element };
        }
        if self.frames.len() == 0 {
            return Step::Done;
        }
        let last: usize = self.frames.len() - 1;
        let depth: usize = last;
        let index: usize = self.frames[last].index;
        let siblings: usize = self.frames[last].children.len();
        let tag: u32 = self.frames[last].tag;
        assert(before.levels.last() == self.frames@[last as int]@);
        if index >= siblings {
            self.frames.pop();
            assert(self@.levels =~= before.levels.drop_last());
            return Step::Again;
        }
        let element: usize = self.frames[last].children[index];
        let is_new: bool = self.visited.insert(element);
        if !is_new {
            assert(self.visited@ =~= before.visited);
            self.frames[last].index = index + 1;
            assert(self@.levels =~= before.advanced().levels);
            return Step::Skipped { element, depth };
        }
        self.visited_count = self.visited_count + 1;
        if self.visited_count > MAX_AX_NODES_PER_WINDOW {
            self.frames.pop();
            assert(self@.levels =~= before.levels.drop_last());
            return Step::Stopped { depth };
        }
        self.frames[last].index = index + 1;
        let reading = Reading { element, tag, depth, siblings, index };
        self.reading = Some(reading);
        assert(self@.levels =~= before.advanced().levels);
        Step::Read(reading)
    }

    /// Takes up the list of the elements under the element that was to be listed.
    pub fn listed(&mut self, children: Vec<usize>)
        requires
            old(self)@.well_formed(),
            old(self)@.next().1 is List,
            children@.len() <= i32::MAX,
        ensures
            final(self)@ == old(self)@.after_list(children@),
            final(self)@.well_formed(),
    {
        let ghost before = self@;
        if let Some(target) = self.pending {
            self.pending = None;
            self.frames.push(Frame { children, index: 0, tag: target.tag });
            assert(self@.levels =~= before.after_list(children@).levels);
        }
    }

    /// Takes up that the element that was to be read has been read. Where it is given a tag, the
    /// walk goes on under it.
    pub fn visited(&mut self, descend: Option<u32>)
        requires
            old(self)@.well_formed(),
            old(self)@.reading is Some,
        ensures
            final(self)@ == old(self)@.after_read(descend),
            final(self)@.well_formed(),
    {
        let ghost before = self@;
        if let Some(reading) = self.reading {
            self.reading = None;
            self.pending = match descend {
                Some(tag) => Some(Target { element: reading.element, tag }),
                None => None,
            };
            assert(self@.levels =~= before.levels);
        }
    }

    /// The element that is to be read, where there is one.
    pub fn wanted(&self) -> (reading: Option<Reading>)
        ensures
            reading == self@.reading,
    {
        self.reading
    }
}

/// What is made of the elements of a walk, where `A` is what is gathered.
#[verifier::reject_recursive_types(A)]
pub struct Visitor<A> {
    /// What an element adds, and the tag that it is given where the walk goes on under it.
    pub read: spec_fn(A, Reading) -> (A, Option<u32>),
    /// What an element adds that has been seen before.
    pub skipped: spec_fn(A, usize, usize) -> A,
    /// What reaching the limit of elements adds.
    pub stopped: spec_fn(A, usize) -> A,
}

/// What has been gathered, and which elements have been seen and counted.
pub struct Gathered<A> {
    pub visited: Set<usize>,
    pub visited_count: nat,
    pub out: A,
}

/// What the walk gathers under `element`, which stands `depth` levels deep and has the given tag,
/// where `lists` tells the elements under each element.
pub open spec fn gather<A>(
    lists: spec_fn(usize) -> Seq<usize>,
    visitor: Visitor<A>,
    max_depth: nat,
    seen: Gathered<A>,
    target: Target,
    depth: nat,
) -> Gathered<A>
    decreases 2 * (max_depth - depth) + 1, 0nat,
{
    if depth >= max_depth || seen.visited_count >= MAX_AX_NODES_PER_WINDOW {
        seen
    } else {
        gather_list(
            lists,
            visitor,
            max_depth,
            seen,
            Level { children: lists(target.element), index: 0, tag: target.tag },
            depth,
        )
    }
}

/// What the walk gathers from the rest of a list.
pub open spec fn gather_list<A>(
    lists: spec_fn(usize) -> Seq<usize>,
    visitor: Visitor<A>,
    max_depth: nat,
    seen: Gathered<A>,
    level: Level,
    depth: nat,
) -> Gathered<A>
    decreases 2 * (max_depth - depth), level.children.len() - level.index,
{
    if level.index >= level.children.len() || depth >= max_depth {
        seen
    } else {
        let element = level.children[level.index as int];
        let rest = Level { index: level.index + 1, ..level };
        if seen.visited.contains(element) {
            let out = (visitor.skipped)(seen.out, element, depth as usize);
            gather_list(lists, visitor, max_depth, Gathered { out, ..seen }, rest, depth)
        } else {
            let visited = seen.visited.insert(element);
            let visited_count = seen.visited_count + 1;
            if visited_count > MAX_AX_NODES_PER_WINDOW {
                let out = (visitor.stopped)(seen.out, depth as usize);
                Gathered { visited, visited_count, out }
            } else {
                let reading = Reading {
                    element,
                    tag: level.tag,
                    depth: depth as usize,
                    siblings: level.children.len() as usize,
                    index: level.index as usize,
                };
                let (out, descend) = (visitor.read)(seen.out, reading);
                let here = Gathered { visited, visited_count, out };
                let below = match descend {
                    None => here,
                    Some(tag) => gather(
                        lists,
                        visitor,
                        max_depth,
                        here,
                        Target { element, tag },
                        depth + 1,
                    ),
                };
                gather_list(lists, visitor, max_depth, below, rest, depth)
            }
        }
    }
}

/// A walk and what it has gathered so far.
pub struct Progress<A> {
    pub walk: Walk,
    pub out: A,
}

/// Whether `after` follows `before` when the next step is done as it should be: lists are answered
/// by `lists`, and what is read or passed over goes to the visitor.
pub open spec fn proceeds<A>(
    lists: spec_fn(usize) -> Seq<usize>,
    visitor: Visitor<A>,
    before: Progress<A>,
    after: Progress<A>,
) -> bool {
    let (walk, step) = before.walk.next();
    match step {
        Step::Again => after == (Progress { walk, out: before.out }),
        Step::Skipped { element, depth } => after == (Progress {
            walk,
            out: (visitor.skipped)(before.out, element, depth),
        }),
        Step::Stopped { depth } => after == (Progress {
            walk,
            out: (visitor.stopped)(before.out, depth),
        }),
        Step::List { element } => after == (Progress {
            walk: walk.after_list(lists(element)),
            out: before.out,
        }),
        Step::Read(reading) => {
            let (out, descend) = (visitor.read)(before.out, reading);
            after == (Progress { walk: walk.after_read(descend), out })
        },
        Step::Done => false,
    }
}

/// What is gathered from the rest of a stack of lists, the innermost first.
spec fn gather_levels<A>(
    lists: spec_fn(usize) -> Seq<usize>,
    visitor: Visitor<A>,
    max_depth: nat,
    seen: Gathered<A>,
    levels: Seq<Level>,
) -> Gathered<A>
    decreases levels.len(),
{
    if levels.len() == 0 {
        seen
    } else {
        gather_levels(
            lists,
            visitor,
            max_depth,
            gather_list(
                lists,
                visitor,
                max_depth,
                seen,
                levels.last(),
                (levels.len() - 1) as nat,
            ),
            levels.drop_last(),
        )
    }
}

/// What a walk will have gathered when it is over.
spec fn outlook<A>(
    lists: spec_fn(usize) -> Seq<usize>,
    visitor: Visitor<A>,
    progress: Progress<A>,
) -> Gathered<A> {
    let walk = progress.walk;
    let depth = walk.levels.len();
    let seen = Gathered {
        visited: walk.visited,
        visited_count: walk.visited_count,
        out: progress.out,
    };
    let (seen, pending) = match walk.reading {
        None => (seen, walk.pending),
        Some(reading) => {
            let (out, descend) = (visitor.read)(progress.out, reading);
            (
                Gathered { out, ..seen },
                match descend {
                    None => None,
                    Some(tag) => Some(Target { element: reading.element, tag }),
                },
            )
        },
    };
    let seen = match pending {
        None => seen,
        Some(target) => gather(lists, visitor, walk.max_depth, seen, target, depth),
    };
    gather_levels(lists, visitor, walk.max_depth, seen, walk.levels)
}

proof fn lemma_proceeds<A>(
    lists: spec_fn(usize) -> Seq<usize>,
    visitor: Visitor<A>,
    before: Progress<A>,
    after: Progress<A>,
)
    requires
        forall|element: usize| (#[trigger] lists(element)).len() <= i32::MAX,
        before.walk.well_formed(),
        proceeds(lists, visitor, before, after),
    ensures
        after.walk.well_formed(),
        after.walk.max_depth == before.walk.max_depth,
        outlook(lists, visitor, after) == outlook(lists, visitor, before),
{
    let walk = before.walk;
    let levels = walk.levels;
    if walk.reading is Some {
    } else if walk.pending is Some {
        let pushed = walk.after_list(lists(walk.pending->0.element)).levels;
        assert(pushed.drop_last() =~= levels);
    } else if levels.len() > 0 {
        let advanced = walk.advanced().levels;
        assert(advanced.drop_last() =~= levels.drop_last());
    }
}

/// Whatever order of steps the answers lead to, a walk that is over has gathered what is gathered
/// by going down the tree from the element that it started under.
pub proof fn law_walk_gathers_the_tree<A>(
    lists: spec_fn(usize) -> Seq<usize>,
    visitor: Visitor<A>,
    element: usize,
    tag: u32,
    max_depth: nat,
    out: A,
    run: Seq<Progress<A>>,
)
    requires
        max_depth + MAX_AX_NODES_PER_WINDOW <= usize::MAX,
        forall|element: usize| (#[trigger] lists(element)).len() <= i32::MAX,
        run.len() > 0,
        run[0] == (Progress { walk: Walk::start(element, tag, max_depth), out }),
        forall|i: int|
            0 <= i < run.len() - 1 ==> proceeds(lists, visitor, #[trigger] run[i], run[i + 1]),
        run.last().walk.next().1 is Done,
    ensures
        run.last().out == gather(
            lists,
            visitor,
            max_depth,
            Gathered { visited: set![element], visited_count: 1, out },
            Target { element, tag },
            0,
        ).out,
{
    lemma_run(lists, visitor, run, run.len() - 1);
    let start = run[0];
    assert(start.walk.well_formed());
    let seen = Gathered { visited: set![element], visited_count: 1nat, out };
    let all = gather(lists, visitor, max_depth, seen, Target { element, tag }, 0);
    assert(outlook(lists, visitor, start) == all);
}

proof fn lemma_run<A>(
    lists: spec_fn(usize) -> Seq<usize>,
    visitor: Visitor<A>,
    run: Seq<Progress<A>>,
    i: int,
)
    requires
        forall|element: usize| (#[trigger] lists(element)).len() <= i32::MAX,
        0 <= i < run.len(),
        run[0].walk.well_formed(),
        forall|i: int|
            0 <= i < run.len() - 1 ==> proceeds(lists, visitor, #[trigger] run[i], run[i + 1]),
    ensures
        run[i].walk.well_formed(),
        outlook(lists, visitor, run[i]) == outlook(lists, visitor, run[0]),
    decreases i,
{
    if i > 0 {
        lemma_run(lists, visitor, run, i - 1);
        assert(proceeds(lists, visitor, run[i - 1], run[i - 1 + 1]));
        lemma_proceeds(lists, visitor, run[i - 1], run[i]);
    }
}

} // verus!
