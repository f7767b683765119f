//! The UI automation elements under a window.

use std::collections::HashSet;

use vstd::prelude::*;
use vstd::string::StringExecFns;

use crate::error::{XCapError, XCapResult};
use crate::error;
use crate::text;
use crate::window;
use crate::window::{Found, WindowInfo, WindowInfoRecord, WindowNode, WindowQueryOptions};

verus! {

broadcast use vstd::std_specs::hash::group_hash_axioms;

/// How deep elements are walked by default.
pub const BASE_MAX_UIA_DEPTH: usize = 5;

/// How deep elements are walked on request.
pub const DEEP_MAX_UIA_DEPTH: usize = 8;

/// How many elements of a window are recorded at most.
pub const MAX_UIA_NODES_PER_WINDOW: usize = 512;

/// How elements are gathered.
#[derive(Debug, Clone, Copy, PartialEq, Eq)]
pub struct UiaQueryOptions {
    pub deep_children: bool,
    pub relaxed_filtering: bool,
    pub probe_timeout_ms: Option<u64>,
}

impl From<&WindowQueryOptions> for UiaQueryOptions {
    fn from(options: &WindowQueryOptions) -> (result: Self) {
        UiaQueryOptions {
            deep_children: options.deep_children,
            relaxed_filtering: options.relaxed_filtering,
            probe_timeout_ms: options.probe_timeout_ms,
        }
    }
}

impl vstd::std_specs::convert::FromSpecImpl<&WindowQueryOptions> for UiaQueryOptions {
    open spec fn obeys_from_spec() -> bool {
        true
    }

    open spec fn from_spec(options: &WindowQueryOptions) -> Self {
        UiaQueryOptions {
            deep_children: options.deep_children,
            relaxed_filtering: options.relaxed_filtering,
            probe_timeout_ms: options.probe_timeout_ms,
        }
    }
}

/// How deep elements are walked.
pub open spec fn depth_limit(options: UiaQueryOptions) -> nat {
    if options.deep_children {
        DEEP_MAX_UIA_DEPTH as nat
    } else {
        BASE_MAX_UIA_DEPTH as nat
    }
}

/// How deep elements are walked.
pub fn max_uia_depth(options: UiaQueryOptions) -> (depth: usize)
    ensures
        depth == depth_limit(options),
{
    if options.deep_children {
        DEEP_MAX_UIA_DEPTH
    } else {
        BASE_MAX_UIA_DEPTH
    }
}

/// The code by which COM tells that the thread is set up in another mode.
pub const CHANGED_MODE: i32 = -2147417850;

/// What initialising COM obliges to.
#[derive(Debug)]
pub struct ComInitGuard {
    pub should_uninitialize: bool,
}

impl ComInitGuard {
    /// Reads the answer to the initialisation of COM: it has to be undone where it succeeded, and
    /// not where the thread was set up before in another mode; any other answer is an error, which
    /// `description` describes.
    pub fn new(answer: i32, description: &str) -> (result: XCapResult<ComInitGuard>)
        ensures
            match result {
                Ok(guard) => {
                    &&& answer >= 0 || answer == CHANGED_MODE
                    &&& guard.should_uninitialize == (answer >= 0)
                },
                Err(failure) => {
                    &&& answer < 0 && answer != CHANGED_MODE
                    &&& failure@ == error::Failure::Error(
                        "CoInitializeEx failed: "@ + description@,
                    )
                },
            },
    {
        if answer >= 0 {
            Ok(ComInitGuard { should_uninitialize: true })
        } else if answer == CHANGED_MODE {
            Ok(ComInitGuard { should_uninitialize: false })
        } else {
            let message = "CoInitializeEx failed: ".to_owned().concat(description);
            Err(XCapError::new(message.as_str()))
        }
    }
}

/// The text of a property, without the white space around it; empty where there is none.
pub open spec fn property_text(value: Option<String>) -> Seq<char> {
    match value {
        Some(value) => text::trimmed(value@),
        None => Seq::empty(),
    }
}

/// The text of a property, without the white space around it; empty where there is none.
pub fn bstr_to_string(value: &Option<String>) -> (result: String)
    ensures
        result@ == property_text(*value),
{
    match value {
        Some(value) => text::trim(value.as_str()),
        None => String::new(),
    }
}

/// A rectangle by its edges.
#[derive(Debug, Clone, Copy, PartialEq, Eq, Structural)]
pub struct Rect {
    pub left: i32,
    pub top: i32,
    pub right: i32,
    pub bottom: i32,
}

impl Rect {
    /// Whether the width and the height can be counted.
    pub open spec fn measurable(self) -> bool {
        &&& i32::MIN <= self.right - self.left <= i32::MAX
        &&& i32::MIN <= self.bottom - self.top <= i32::MAX
    }

    /// Whether the width and the height can be counted.
    pub fn is_measurable(&self) -> (yes: bool)
        ensures
            yes == self.measurable(),
    {
        let width: i64 = self.right as i64 - self.left as i64;
        let height: i64 = self.bottom as i64 - self.top as i64;
        i32::MIN as i64 <= width && width <= i32::MAX as i64 && i32::MIN as i64 <= height && height
            <= i32::MAX as i64
    }
}

/// The place and the size of a rectangle; none where it is empty.
pub open spec fn dimensions(rect: Rect) -> Option<(i32, i32, u32, u32)> {
    if rect.right <= rect.left || rect.bottom <= rect.top {
        None
    } else {
        Some(
            (
                rect.left,
                rect.top,
                (rect.right - rect.left) as u32,
                (rect.bottom - rect.top) as u32,
            ),
        )
    }
}

/// The place and the size of a rectangle; none where it is empty.
pub fn rect_dimensions(rect: &Rect) -> (result: Option<(i32, i32, u32, u32)>)
    requires
        rect.measurable(),
    ensures
        result == dimensions(*rect),
{
    let width: i32 = rect.right - rect.left;
    let height: i32 = rect.bottom - rect.top;
    if width <= 0 || height <= 0 {
        return None;
    }
    Some((rect.left, rect.top, width as u32, height as u32))
}

/// The id that is `steps` after `id`, where the first follows the last.
pub open spec fn id_after(id: u32, steps: nat) -> u32 {
    ((id + steps) % 0x1_0000_0000) as u32
}

/// Whether `id` is the first id from `next_id` on that is not used, `steps` after it.
pub open spec fn first_unused(next_id: u32, used_ids: Set<u32>, id: u32, steps: nat) -> bool {
    &&& steps < 0x1_0000_0000
    &&& id == id_after(next_id, steps)
    &&& !used_ids.contains(id)
    &&& forall|k: nat| k < steps ==> used_ids.contains(#[trigger] id_after(next_id, k))
}

/// Whether `id` is the first id from `next_id` on that is not used.
pub open spec fn is_first_unused(next_id: u32, used_ids: Set<u32>, id: u32) -> bool {
    exists|steps: nat| first_unused(next_id, used_ids, id, steps)
}

/// The first id from `next_id` on that is not used.
pub open spec fn free_id(next_id: u32, used_ids: Set<u32>) -> u32 {
    choose|id: u32| is_first_unused(next_id, used_ids, id)
}

/// There is only one first id that is not used.
pub proof fn lemma_free_id(next_id: u32, used_ids: Set<u32>, id: u32, steps: nat)
    requires
        first_unused(next_id, used_ids, id, steps),
    ensures
        id == free_id(next_id, used_ids),
{
    assert(is_first_unused(next_id, used_ids, id));
    let other = free_id(next_id, used_ids);
    let k = choose|k: nat| first_unused(next_id, used_ids, other, k);
    if k < steps {
        assert(used_ids.contains(id_after(next_id, k)));
    } else if steps < k {
        assert(used_ids.contains(id_after(next_id, steps)));
    }
}

/// Hands out the first id from `next_id` on that is not used yet. It is used from then on.
pub fn next_synthetic_id(next_id: &mut u32, used_ids: &mut HashSet<u32>) -> (id: u32)
    requires
        exists|free: u32| !old(used_ids)@.contains(free),
    ensures
        is_first_unused(*old(next_id), old(used_ids)@, id),
        id == free_id(*old(next_id), old(used_ids)@),
        final(used_ids)@ == old(used_ids)@.insert(id),
        *final(next_id) == id_after(id, 1),
{
    let ghost free = choose|free: u32| !old(used_ids)@.contains(free);
    let ghost start = *next_id;
    let ghost mut steps: nat = 0;
    let ghost distance: nat = ((free - start) % 0x1_0000_0000) as nat;
    proof {
        assert(id_after(start, distance) == free);
    }
    while used_ids.contains(next_id)
        invariant
            used_ids@ == old(used_ids)@,
            !used_ids@.contains(free),
            id_after(start, distance) == free,
            distance < 0x1_0000_0000,
            steps <= distance,
            *next_id == id_after(start, steps),
            forall|k: nat| k < steps ==> used_ids@.contains(#[trigger] id_after(start, k)),
        decreases distance - steps,
    {
        *next_id = next_id.wrapping_add(1);
        proof {
            steps = steps + 1;
        }
    }
    let id: u32 = *next_id;
    proof {
        assert(first_unused(start, old(used_ids)@, id, steps));
        lemma_free_id(start, old(used_ids)@, id, steps);
    }
    used_ids.insert(id);
    *next_id = next_id.wrapping_add(1);
    id
}

/// A copy of a set of ids.
pub fn copy_ids(ids: &HashSet<u32>) -> (copy: HashSet<u32>)
    ensures
        copy@ == ids@,
        copy@.finite(),
{
    let mut copy: HashSet<u32> = HashSet::new();
    for id in it: ids.iter()
        invariant
            it.seq().unref().to_set() == ids@,
            it.seq().unref().take(it.seq().len() as int) =~= it.seq().unref(),
            copy@ == it.seq().unref().take(it.index() as int).to_set(),
    {
        let ghost all = it.seq().unref();
        let ghost count = it.index() as int;
        proof {
            assert(all[count] == *id);
            assert(all.take(count + 1) =~= all.take(count).push(*id));
            assert forall|x: u32| #[trigger]
                all.take(count + 1).to_set().contains(x) <==> all.take(count).to_set().insert(
                    *id,
                ).contains(x) by {
                if all.take(count).contains(x) {
                    let k = choose|k: int|
                        0 <= k < all.take(count).len() && all.take(count)[k] == x;
                    assert(all.take(count + 1)[k] == x);
                }
                if x == *id {
                    assert(all.take(count + 1)[count] == x);
                }
            }
            assert(all.take(count + 1).to_set() =~= all.take(count).to_set().insert(*id));
        }
        copy.insert(*id);
    }
    copy
}

/// What could be read of an element.
#[derive(Debug)]
pub struct UiaElement {
    pub name: Option<String>,
    pub automation_id: Option<String>,
    pub class_name: Option<String>,
    pub control_type: Option<String>,
    pub hwnd: Option<usize>,
    pub rect: Option<Rect>,
    pub is_offscreen: Option<bool>,
    pub pid: Option<i32>,
    pub has_focus: Option<bool>,
}

/// The mathematical content of a [`UiaElement`].
pub struct UiaNode {
    pub name: Seq<char>,
    pub automation_id: Seq<char>,
    pub class_name: Seq<char>,
    pub control_type: Seq<char>,
    /// The window that the element is; zero where it is none.
    pub hwnd: usize,
    pub rect: Option<Rect>,
    pub is_offscreen: bool,
    pub pid: Option<i32>,
    pub has_focus: bool,
}

impl View for UiaElement {
    type V = UiaNode;

    open spec fn view(&self) -> UiaNode {
        UiaNode {
            name: property_text(self.name),
            automation_id: property_text(self.automation_id),
            class_name: property_text(self.class_name),
            control_type: property_text(self.control_type),
            hwnd: match self.hwnd {
                Some(hwnd) => hwnd,
                None => 0,
            },
            rect: self.rect,
            is_offscreen: self.is_offscreen == Some(true),
            pid: self.pid,
            has_focus: self.has_focus == Some(true),
        }
    }
}

/// What an element is called: the first of its name, automation id and class name that is not
/// empty, else its kind of control.
pub open spec fn element_title(element: UiaNode) -> Seq<char> {
    if element.name.len() > 0 {
        element.name
    } else if element.automation_id.len() > 0 {
        element.automation_id
    } else if element.class_name.len() > 0 {
        element.class_name
    } else {
        element.control_type
    }
}

/// What an element is called: the first of its name, automation id and class name that is not
/// empty, else its kind of control.
pub fn best_title(element: &UiaElement) -> (title: String)
    ensures
        title@ == element_title(element@),
{
    let name = bstr_to_string(&element.name);
    if !name.as_str().is_empty() {
        return name;
    }
    let automation_id = bstr_to_string(&element.automation_id);
    if !automation_id.as_str().is_empty() {
        return automation_id;
    }
    let class_name = bstr_to_string(&element.class_name);
    if !class_name.as_str().is_empty() {
        return class_name;
    }
    bstr_to_string(&element.control_type)
}

/// What tells elements apart: their window, their names and their edges.
pub open spec fn element_key(element: UiaNode) -> Seq<char> {
    let rect = match element.rect {
        Some(rect) => rect,
        None => Rect { left: 0, top: 0, right: 0, bottom: 0 },
    };
    text::decimal(element.hwnd as int) + "|"@ + element.automation_id + "|"@ + element.class_name
        + "|"@ + element.name + "|"@ + text::decimal(rect.left as int) + "|"@ + text::decimal(
        rect.top as int,
    ) + "|"@ + text::decimal(rect.right as int) + "|"@ + text::decimal(rect.bottom as int)
}

/// What tells elements apart: their window, their names and their edges.
pub fn node_key(element: &UiaElement) -> (key: String)
    ensures
        key@ == element_key(element@),
{
    let hwnd: usize = match element.hwnd {
        Some(hwnd) => hwnd,
        None => 0,
    };
    let rect = match element.rect {
        Some(rect) => rect,
        None => Rect { left: 0, top: 0, right: 0, bottom: 0 },
    };
    let mut key = String::new();
    text::push_count(&mut key, hwnd as u64);
    assert(key@ =~= text::decimal(hwnd as int));
    key.append("|");
    key.append(bstr_to_string(&element.automation_id).as_str());
    key.append("|");
    key.append(bstr_to_string(&element.class_name).as_str());
    key.append("|");
    key.append(bstr_to_string(&element.name).as_str());
    key.append("|");
    text::push_decimal(&mut key, rect.left as i64);
    key.append("|");
    text::push_decimal(&mut key, rect.top as i64);
    key.append("|");
    text::push_decimal(&mut key, rect.right as i64);
    key.append("|");
    text::push_decimal(&mut key, rect.bottom as i64);
    key
}

/// The keys of the elements seen so far, each once.
#[derive(Debug)]
pub struct SeenKeys {
    keys: Vec<String>,
}

impl View for SeenKeys {
    type V = Set<Seq<char>>;

    closed spec fn view(&self) -> Set<Seq<char>> {
        self.keys@.map_values(|key: String| key@).to_set()
    }
}

impl SeenKeys {
    /// No key is kept twice.
    pub closed spec fn well_formed(self) -> bool {
        self.keys@.map_values(|key: String| key@).no_duplicates()
    }

    /// No keys.
    pub fn new() -> (seen: SeenKeys)
        ensures
            seen@ == Set::<Seq<char>>::empty(),
            seen.well_formed(),
    {
        let seen = SeenKeys { keys: Vec::new() };
        assert(seen@ =~= Set::<Seq<char>>::empty());
        seen
    }

    /// Whether a key is among them.
    pub fn contains(&self, key: &String) -> (yes: bool)
        ensures
            yes == self@.contains(key@),
    {
        let ghost kept = self.keys@.map_values(|key: String| key@);
        let mut i: usize = 0;
        while i < self.keys.len()
            invariant
                i <= self.keys.len(),
                kept == self.keys@.map_values(|key: String| key@),
                forall|k: int| 0 <= k < i ==> kept[k] != key@,
            decreases self.keys.len() - i,
        {
            if self.keys[i] == *key {
                assert(kept[i as int] == key@);
                return true;
            }
            i = i + 1;
        }
        false
    }

    /// Adds a key, and says whether it is new.
    pub fn insert(&mut self, key: String) -> (is_new: bool)
        requires
            old(self).well_formed(),
        ensures
            is_new == !old(self)@.contains(key@),
            final(self)@ == old(self)@.insert(key@),
            final(self).well_formed(),
    {
        let ghost kept = self.keys@.map_values(|key: String| key@);
        if self.contains(&key) {
            assert(self@.insert(key@) =~= self@);
            return false;
        }
        self.keys.push(key);
        proof {
            let now = self.keys@.map_values(|key: String| key@);
            assert(now =~= kept.push(key@));
            assert forall|x: Seq<char>| #[trigger]
                now.to_set().contains(x) <==> kept.to_set().insert(key@).contains(x) by {
                if kept.contains(x) {
                    let k = choose|k: int| 0 <= k < kept.len() && kept[k] == x;
                    assert(now[k] == x);
                }
                if x == key@ {
                    assert(now[kept.len() as int] == x);
                }
            }
            assert(now.to_set() =~= kept.to_set().insert(key@));
        }
        true
    }
}

/// Under which window elements are gathered, and how.
pub struct UiaContext {
    pub root_hwnd: usize,
    pub root_pid: u32,
    pub root_app_name: Seq<char>,
    pub options: UiaQueryOptions,
}

/// Whether an element that has not been seen is passed over: it is off the screen, it is the window
/// itself, or it belongs to another process. Relaxed filtering lets all but the second through.
pub open spec fn is_passed_over(context: UiaContext, element: UiaNode) -> bool {
    ||| element.is_offscreen && !context.options.relaxed_filtering
    ||| element.hwnd == context.root_hwnd
    ||| (element.pid matches Some(pid) && pid > 0 && pid as u32 != context.root_pid
        && !context.options.relaxed_filtering)
}

/// Whether an element that has not been seen is passed over.
fn passes_over(
    element: &UiaElement,
    root_hwnd: usize,
    root_pid: u32,
    options: UiaQueryOptions,
) -> (yes: bool)
    ensures
        yes == is_passed_over(
            UiaContext { root_hwnd, root_pid, root_app_name: Seq::empty(), options },
            element@,
        ),
{
    let is_offscreen: bool = match element.is_offscreen {
        Some(is_offscreen) => is_offscreen,
        None => false,
    };
    if is_offscreen && !options.relaxed_filtering {
        return true;
    }
    let native_hwnd: usize = match element.hwnd {
        Some(hwnd) => hwnd,
        None => 0,
    };
    if native_hwnd == root_hwnd {
        return true;
    }
    if let Some(pid) = element.pid {
        if pid > 0 && pid as u32 != root_pid && !options.relaxed_filtering {
            return true;
        }
    }
    false
}

/// Whether an element is passed over, because it has been seen before or for what it is. It counts
/// as seen from then on.
pub fn should_skip_element(
    element: &UiaElement,
    root_hwnd: usize,
    root_pid: u32,
    options: UiaQueryOptions,
    visited: &mut SeenKeys,
) -> (skip: bool)
    requires
        old(visited).well_formed(),
    ensures
        final(visited).well_formed(),
        final(visited)@ == old(visited)@.insert(element_key(element@)),
        skip == (old(visited)@.contains(element_key(element@)) || is_passed_over(
            UiaContext { root_hwnd, root_pid, root_app_name: Seq::empty(), options },
            element@,
        )),
{
    let key = node_key(element);
    if !visited.insert(key) {
        return true;
    }
    passes_over(element, root_hwnd, root_pid, options)
}

/// An element whose list is wanted, and the id that the elements in it are recorded under.
#[derive(Debug, Clone, Copy, PartialEq, Eq, Structural)]
pub struct Descent {
    pub element: usize,
    pub parent_id: u32,
}

/// A list of elements, and how far it has been gone through.
#[derive(Debug, Clone, Copy, PartialEq, Eq, Structural)]
pub struct ElementList {
    pub list: usize,
    pub length: i32,
    pub index: i32,
    pub parent_id: u32,
}

/// What is to be done next.
#[derive(Debug, Clone, Copy, PartialEq, Eq, Structural)]
pub enum UiaStep {
    /// Nothing: ask again.
    Again,
    /// List the elements under this one, and answer with [`UiaWalk::listed`].
    List { element: usize },
    /// Read an element of a list, and answer with [`UiaWalk::read`].
    Read { list: usize, index: i32 },
    /// Nothing: the walk is over.
    Done,
}

/// What a walk gathers: records, the id that is tried next, the ids in use, and the keys of the
/// elements seen.
pub struct UiaOut {
    pub records: Seq<Found>,
    pub next_id: u32,
    pub used_ids: Set<u32>,
    pub seen: Set<Seq<char>>,
}

/// How far a walk has got.
pub struct UiaState {
    pub context: UiaContext,
    pub out: UiaOut,
    /// The lists that are being gone through, each under an element of the one before it.
    pub lists: Seq<ElementList>,
    /// The element whose list is wanted.
    pub pending: Option<Descent>,
    /// Whether an element of the last list is wanted.
    pub reading: bool,
}

/// What is recorded of an element.
pub open spec fn uia_info(
    context: UiaContext,
    element: UiaNode,
    place: (i32, i32, u32, u32),
    id: u32,
    z: int,
) -> WindowNode {
    WindowNode {
        id,
        pid: context.root_pid,
        app_name: context.root_app_name,
        title: element_title(element),
        x: place.0,
        y: place.1,
        z: z as i32,
        width: place.2,
        height: place.3,
        is_minimized: false,
        is_maximized: false,
        is_focused: element.has_focus,
        children: Seq::empty(),
    }
}

/// What an element of a list adds, and the id that the elements under it are recorded under, where
/// the walk goes on there. An element without an extent is not recorded; only a deep search looks
/// under it.
pub open spec fn uia_visit(
    context: UiaContext,
    out: UiaOut,
    element: UiaNode,
    parent_id: u32,
    z: int,
) -> (UiaOut, Option<u32>) {
    let key = element_key(element);
    let noted = UiaOut { seen: out.seen.insert(key), ..out };
    let place = match element.rect {
        Some(rect) => dimensions(rect),
        None => None,
    };
    if out.seen.contains(key) || is_passed_over(context, element) {
        (noted, None)
    } else {
        match place {
            Some(place) => {
                let id = free_id(out.next_id, out.used_ids);
                let info = uia_info(context, element, place, id, z);
                (
                    UiaOut {
                        records: out.records.push(Found { info, parent_id: Some(parent_id) }),
                        next_id: id_after(id, 1),
                        used_ids: out.used_ids.insert(id),
                        ..noted
                    },
                    Some(id),
                )
            },
            None => if context.options.deep_children {
                (noted, Some(parent_id))
            } else {
                (noted, None)
            },
        }
    }
}

impl UiaState {
    /// Whether the extent of an element is looked at: it has not been seen, and is not passed over.
    pub open spec fn measures(self, element: UiaNode) -> bool {
        !self.out.seen.contains(element_key(element)) && !is_passed_over(self.context, element)
    }

    /// The bounds that a walk keeps.
    pub open spec fn well_formed(self) -> bool {
        &&& self.lists.len() <= depth_limit(self.context.options)
        &&& self.out.records.len() <= MAX_UIA_NODES_PER_WINDOW
        &&& self.out.used_ids.finite()
        &&& self.out.used_ids.len() + MAX_UIA_NODES_PER_WINDOW - self.out.records.len()
            < 0x1_0000_0000
        &&& self.reading ==> {
            &&& self.pending is None
            &&& self.lists.len() > 0
            &&& 0 <= self.lists.last().index < self.lists.last().length
            &&& self.out.records.len() < MAX_UIA_NODES_PER_WINDOW
        }
        &&& forall|i: int| 0 <= i < self.lists.len() ==> 0 <= (#[trigger] self.lists[i]).index
    }

    /// What is to be done next, and the walk from there.
    pub open spec fn next(self) -> (UiaState, UiaStep) {
        let full = self.out.records.len() >= MAX_UIA_NODES_PER_WINDOW;
        let list = self.lists.last();
        if self.reading {
            (self, UiaStep::Read { list: list.list, index: list.index })
        } else if self.pending is Some {
            if self.lists.len() >= depth_limit(self.context.options) || full {
                (UiaState { pending: None, ..self }, UiaStep::Again)
            } else {
                (self, UiaStep::List { element: self.pending->0.element })
            }
        } else if self.lists.len() == 0 {
            (self, UiaStep::Done)
        } else if list.index >= list.length || full {
            (UiaState { lists: self.lists.drop_last(), ..self }, UiaStep::Again)
        } else {
            (
                UiaState { reading: true, ..self },
                UiaStep::Read { list: list.list, index: list.index },
            )
        }
    }

    /// The walk once the list that is wanted is there.
    pub open spec fn after_list(self, list: usize, length: i32) -> UiaState {
        UiaState {
            pending: None,
            lists: self.lists.push(
                ElementList { list, length, index: 0, parent_id: self.pending->0.parent_id },
            ),
            ..self
        }
    }

    /// The walk once the element that is wanted has been read.
    pub open spec fn after_read(self, element: usize, node: UiaNode) -> UiaState {
        let list = self.lists.last();
        let (out, descend) = uia_visit(
            self.context,
            self.out,
            node,
            list.parent_id,
            list.length - list.index - 1,
        );
        UiaState {
            out,
            lists: self.lists.drop_last().push(
                ElementList { index: (list.index + 1) as i32, ..list },
            ),
            pending: match descend {
                Some(parent_id) => Some(Descent { element, parent_id }),
                None => None,
            },
            reading: false,
            ..self
        }
    }

    /// The start of a walk under an element.
    pub open spec fn start(
        context: UiaContext,
        element: usize,
        parent_id: u32,
        next_id: u32,
        used_ids: Set<u32>,
    ) -> UiaState {
        UiaState {
            context,
            out: UiaOut { records: Seq::empty(), next_id, used_ids, seen: Set::empty() },
            lists: Seq::empty(),
            pending: Some(Descent { element, parent_id }),
            reading: false,
        }
    }
}

/// There is a free id as long as fewer ids are used than there are.
pub proof fn lemma_free_id_exists(used_ids: Set<u32>)
    requires
        used_ids.finite(),
        used_ids.len() < 0x1_0000_0000,
    ensures
        exists|free: u32| !used_ids.contains(free),
{
    if forall|free: u32| used_ids.contains(free) {
        let all = vstd::set_lib::set_int_range(0, 0x1_0000_0000);
        vstd::set_lib::lemma_int_range(0, 0x1_0000_0000);
        let image = used_ids.map(|id: u32| id as int);
        vstd::set_lib::lemma_map_size_bound(used_ids, image, |id: u32| id as int);
        assert forall|x: int| all.contains(x) implies image.contains(x) by {
            assert(used_ids.contains(x as u32));
            assert((x as u32) as int == x);
        }
        vstd::set_lib::lemma_len_subset(all, image);
    }
}

/// The first id that is not used is not used.
pub proof fn lemma_free_id_is_unused(next_id: u32, used_ids: Set<u32>)
    requires
        exists|free: u32| !used_ids.contains(free),
    ensures
        is_first_unused(next_id, used_ids, free_id(next_id, used_ids)),
        !used_ids.contains(free_id(next_id, used_ids)),
{
    let free = choose|free: u32| !used_ids.contains(free);
    let distance: nat = ((free - next_id) % 0x1_0000_0000) as nat;
    assert(id_after(next_id, distance) == free);
    lemma_first_unused_by(next_id, used_ids, distance);
}

proof fn lemma_first_unused_by(next_id: u32, used_ids: Set<u32>, distance: nat)
    requires
        distance < 0x1_0000_0000,
        !used_ids.contains(id_after(next_id, distance)),
    ensures
        exists|id: u32| is_first_unused(next_id, used_ids, id),
    decreases distance,
{
    if forall|k: nat| k < distance ==> used_ids.contains(#[trigger] id_after(next_id, k)) {
        let id = id_after(next_id, distance);
        assert(first_unused(next_id, used_ids, id, distance));
        assert(is_first_unused(next_id, used_ids, id));
    } else {
        let k = choose|k: nat| k < distance && !used_ids.contains(#[trigger] id_after(next_id, k));
        lemma_first_unused_by(next_id, used_ids, k);
    }
}

/// The walk that makes records of the elements under a window.
#[derive(Debug)]
pub struct UiaWalk {
    root_hwnd: usize,
    root_pid: u32,
    root_app_name: String,
    options: UiaQueryOptions,
    next_id: u32,
    used_ids: HashSet<u32>,
    visited: SeenKeys,
    records: Vec<WindowInfoRecord>,
    lists: Vec<ElementList>,
    pending: Option<Descent>,
    reading: bool,
}

impl View for UiaWalk {
    type V = UiaState;

    closed spec fn view(&self) -> UiaState {
        UiaState {
            context: UiaContext {
                root_hwnd: self.root_hwnd,
                root_pid: self.root_pid,
                root_app_name: self.root_app_name@,
                options: self.options,
            },
            out: UiaOut {
                records: window::found(self.records@),
                next_id: self.next_id,
                used_ids: self.used_ids@,
                seen: self.visited@,
            },
            lists: self.lists@,
            pending: self.pending,
            reading: self.reading,
        }
    }
}

impl UiaWalk {
    /// The bounds that the walk keeps.
    pub closed spec fn well_formed(self) -> bool {
        self@.well_formed() && self.visited.well_formed()
    }

    /// Starts a walk under `element`, which is the window `root_hwnd`; what is right under it is
    /// recorded under `parent_id`.
    pub fn new(
        root_hwnd: usize,
        root_pid: u32,
        root_app_name: &str,
        options: UiaQueryOptions,
        element: usize,
        parent_id: u32,
        next_id: u32,
        used_ids: &HashSet<u32>,
    ) -> (walk: UiaWalk)
        requires
            used_ids@.len() + MAX_UIA_NODES_PER_WINDOW < 0x1_0000_0000,
        ensures
            walk.well_formed(),
            walk@ == UiaState::start(
                UiaContext { root_hwnd, root_pid, root_app_name: root_app_name@, options },
                element,
                parent_id,
                next_id,
                used_ids@,
            ),
    {
        let walk = UiaWalk {
            root_hwnd,
            root_pid,
            root_app_name: root_app_name.to_owned(),
            options,
            next_id,
            used_ids: copy_ids(used_ids),
            visited: SeenKeys::new(),
            records: Vec::new(),
            lists: Vec::new(),
            pending: Some(Descent { element, parent_id }),
            reading: false,
        };
        assert(walk@.out.records =~= Seq::empty());
        assert(walk@.lists =~= Seq::empty());
        walk
    }

    /// Says what is to be done next.
    pub fn step(&mut self) -> (step: UiaStep)
        requires
            old(self).well_formed(),
        ensures
            final(self).well_formed(),
            (final(self)@, step) == old(self)@.next(),
    {
        if self.reading {
            let last: usize = self.lists.len() - 1;
            let list: ElementList = self.lists[last];
            return UiaStep::Read { list: list.list, index: list.index };
        }
        let full: bool = self.records.len() >= MAX_UIA_NODES_PER_WINDOW;
        if let Some(target) = self.pending {
            if self.lists.len() >= max_uia_depth(self.options) || full {
                self.pending = None;
                return UiaStep::Again;
            }
            return UiaStep::List { element: target.element };
        }
        if self.lists.len() == 0 {
            return UiaStep::Done;
        }
        let last: usize = self.lists.len() - 1;
        let list: ElementList = self.lists[last];
        if list.index >= list.length || full {
            self.lists.pop();
            return UiaStep::Again;
        }
        self.reading = true;
        UiaStep::Read { list: list.list, index: list.index }
    }

    /// Takes up the list of the elements under the element that was to be listed, with its length.
    /// An error ends the walk.
    pub fn listed(&mut self, answer: XCapResult<(usize, i32)>) -> (result: XCapResult<()>)
        requires
            old(self).well_formed(),
            old(self)@.next().1 is List,
        ensures
            final(self).well_formed(),
            match answer {
                Ok((list, length)) => {
                    &&& result == Ok::<(), XCapError>(())
                    &&& final(self)@ == old(self)@.after_list(list, length)
                },
                Err(failure) => {
                    &&& result == Err::<(), XCapError>(failure)
                    &&& final(self)@ == old(self)@
                },
            },
    {
        match answer {
            Err(failure) => Err(failure),
            Ok((list, length)) => {
                if let Some(target) = self.pending {
                    self.pending = None;
                    self.lists.push(
                        ElementList { list, length, index: 0, parent_id: target.parent_id },
                    );
                }
                Ok(())
            },
        }
    }

    /// Whether the extent of an element is looked at when the element is taken up.
    pub fn measures(&self, element: &UiaElement) -> (yes: bool)
        ensures
            yes == self@.measures(element@),
    {
        let key = node_key(element);
        !self.visited.contains(&key) && !passes_over(
            element,
            self.root_hwnd,
            self.root_pid,
            self.options,
        )
    }

    /// Takes up the element that was to be read, under the number by which it is listed later. An
    /// error ends the walk.
    pub fn read(&mut self, answer: XCapResult<(usize, UiaElement)>) -> (result: XCapResult<()>)
        requires
            old(self).well_formed(),
            old(self)@.next().1 is Read,
            old(self)@.reading,
            answer matches Ok((_, element)) ==> (old(self)@.measures(element@) ==> (
            element.rect matches Some(rect) ==> rect.measurable())),
        ensures
            final(self).well_formed(),
            match answer {
                Ok((number, element)) => {
                    &&& result == Ok::<(), XCapError>(())
                    &&& final(self)@ == old(self)@.after_read(number, element@)
                },
                Err(failure) => {
                    &&& result == Err::<(), XCapError>(failure)
                    &&& final(self)@ == old(self)@
                },
            },
    {
        let ghost before = self@;
        let (number, element) = match answer {
            Err(failure) => {
                return Err(failure);
            },
            Ok(read) => read,
        };
        let last: usize = self.lists.len() - 1;
        let list: ElementList = self.lists[last];
        self.reading = false;
        self.lists[last].index = list.index + 1;
        assert(self.lists@ =~= before.lists.drop_last().push(
            ElementList { index: (list.index + 1) as i32, ..list },
        ));
        if should_skip_element(
            &element,
            self.root_hwnd,
            self.root_pid,
            self.options,
            &mut self.visited,
        ) {
            return Ok(());
        }
        let place = match &element.rect {
            Some(rect) => rect_dimensions(rect),
            None => None,
        };
        match place {
            Some((x, y, width, height)) => {
                proof {
                    lemma_free_id_exists(self.used_ids@);
                }
                let id: u32 = next_synthetic_id(&mut self.next_id, &mut self.used_ids);
                let is_focused: bool = match element.has_focus {
                    Some(has_focus) => has_focus,
                    None => false,
                };
                let info = WindowInfo {
                    id,
                    pid: self.root_pid,
                    app_name: self.root_app_name.clone(),
                    title: best_title(&element),
                    x,
                    y,
                    z: list.length - list.index - 1,
                    width,
                    height,
                    is_minimized: false,
                    is_maximized: false,
                    is_focused,
                    children: Vec::new(),
                };
                proof {
                    info.lemma_children();
                    assert(info@.children =~= Seq::empty());
                }
                self.records.push(WindowInfoRecord { info, parent_id: Some(list.parent_id) });
                assert(window::found(self.records@) =~= before.out.records.push(
                    self.records@.last()@,
                ));
                self.pending = Some(Descent { element: number, parent_id: id });
            },
            None => {
                if self.options.deep_children {
                    self.pending = Some(
                        Descent { element: number, parent_id: list.parent_id },
                    );
                }
            },
        }
        Ok(())
    }

    /// Hands over the records, the id that is tried next and the ids in use.
    pub fn finish(self) -> (result: (Vec<WindowInfoRecord>, u32, HashSet<u32>))
        ensures
            window::found(result.0@) == self@.out.records,
            result.1 == self@.out.next_id,
            result.2@ == self@.out.used_ids,
    {
        (self.records, self.next_id, self.used_ids)
    }
}

} // verus!
