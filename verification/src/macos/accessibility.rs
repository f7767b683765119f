//! The accessibility elements under a window: which of an application's windows is meant, and what
//! is reported of the elements below it.

use std::collections::HashSet;

use vstd::prelude::*;
use vstd::string::StringExecFns;

use crate::macos::traversal::{Reading, Step, Traversal, Visitor, Walk, MAX_AX_NODES_PER_WINDOW};
use crate::text;
use crate::window;
use crate::window::{Found, WindowInfo, WindowInfoRecord, WindowNode};

verus! {

broadcast use vstd::std_specs::hash::group_hash_axioms;

/// How deep elements are walked by default.
pub const BASE_MAX_AX_DEPTH: usize = 6;

/// How deep elements are walked on request.
pub const DEEP_MAX_AX_DEPTH: usize = 9;

/// How many elements of one list are read at most.
pub const MAX_AX_CHILDREN_PER_NODE: usize = 128;

/// From this score on, a window of an application is not taken for the one that is meant.
pub const MATCH_LIMIT: i64 = 20000;

/// How elements are gathered.
#[derive(Debug, Clone, Copy, PartialEq, Eq, Structural)]
pub struct AccessibilityQueryOptions {
    pub deep_children: bool,
    pub relaxed_filtering: bool,
}

/// How deep elements are walked.
pub open spec fn depth_limit(options: AccessibilityQueryOptions) -> nat {
    if options.deep_children {
        DEEP_MAX_AX_DEPTH as nat
    } else {
        BASE_MAX_AX_DEPTH as nat
    }
}

/// How deep elements are walked.
pub fn max_ax_depth(options: AccessibilityQueryOptions) -> (depth: usize)
    ensures
        depth == depth_limit(options),
{
    if options.deep_children {
        DEEP_MAX_AX_DEPTH
    } else {
        BASE_MAX_AX_DEPTH
    }
}

/// The names of the attributes that list the elements under an element.
pub open spec fn listing_attributes(deep: bool) -> Seq<Seq<char>> {
    if deep {
        seq![
            "AXChildren"@,
            "AXContents"@,
            "AXVisibleChildren"@,
            "AXRows"@,
            "AXColumns"@,
            "AXTabs"@,
            "AXToolbar"@,
            "AXSheets"@,
            "AXDrawer"@,
        ]
    } else {
        seq!["AXChildren"@]
    }
}

/// The names of the attributes that list the elements under an element.
pub fn child_attributes(options: AccessibilityQueryOptions) -> (names: Vec<&'static str>)
    ensures
        names@.map_values(|name: &'static str| name@) == listing_attributes(options.deep_children),
{
    let mut names: Vec<&'static str> = Vec::new();
    names.push("AXChildren");
    if options.deep_children {
        names.push("AXContents");
        names.push("AXVisibleChildren");
        names.push("AXRows");
        names.push("AXColumns");
        names.push("AXTabs");
        names.push("AXToolbar");
        names.push("AXSheets");
        names.push("AXDrawer");
    }
    assert(names@.map_values(|name: &'static str| name@) =~= listing_attributes(
        options.deep_children,
    ));
    names
}

/// The deep search reads every list that the default search reads, and more.
pub proof fn law_deep_search_extends()
    ensures
        forall|name: Seq<char>|
            listing_attributes(false).contains(name) ==> #[trigger] listing_attributes(
                true,
            ).contains(name),
        listing_attributes(false).len() < listing_attributes(true).len(),
        depth_limit(
            AccessibilityQueryOptions { deep_children: false, relaxed_filtering: false },
        ) < depth_limit(
            AccessibilityQueryOptions { deep_children: true, relaxed_filtering: false },
        ),
{
    assert(listing_attributes(true)[0] == "AXChildren"@);
}

/// Hands out the next id. Ids grow by one until the last of them, which is handed out again.
pub fn next_synthetic_id(next_id: &mut u32) -> (id: u32)
    ensures
        id == *old(next_id),
        *final(next_id) == following_id(*old(next_id)),
{
    let id: u32 = *next_id;
    *next_id = next_id.saturating_add(1);
    id
}

/// The id after `id`.
pub open spec fn following_id(id: u32) -> u32 {
    if id < u32::MAX {
        (id + 1) as u32
    } else {
        u32::MAX
    }
}

/// The elements of a sequence without those that occurred before.
pub open spec fn first_occurrences<T>(items: Seq<T>) -> Seq<T>
    decreases items.len(),
{
    if items.len() == 0 {
        Seq::empty()
    } else {
        let before = first_occurrences(items.drop_last());
        if before.contains(items.last()) {
            before
        } else {
            before.push(items.last())
        }
    }
}

/// Each element occurs once among the first occurrences, and no element is lost.
pub proof fn law_first_occurrences<T>(items: Seq<T>)
    ensures
        first_occurrences(items).no_duplicates(),
        forall|item: T| #[trigger]
            first_occurrences(items).contains(item) <==> items.contains(item),
        first_occurrences(items).len() <= items.len(),
    decreases items.len(),
{
    if items.len() > 0 {
        let before = first_occurrences(items.drop_last());
        law_first_occurrences(items.drop_last());
        assert forall|item: T| #[trigger]
            first_occurrences(items).contains(item) <==> items.contains(item) by {
            if items.contains(item) && item != items.last() {
                let i = choose|i: int| 0 <= i < items.len() && items[i] == item;
                assert(items.drop_last()[i] == item);
                assert(before.contains(item));
                let k = choose|k: int| 0 <= k < before.len() && before[k] == item;
                assert(first_occurrences(items)[k] == item);
            }
            if first_occurrences(items).contains(item) && item != items.last() {
                let k = choose|k: int|
                    0 <= k < first_occurrences(items).len() && first_occurrences(items)[k] == item;
                assert(before[k] == item);
                assert(before.contains(item));
                let i = choose|i: int|
                    0 <= i < items.drop_last().len() && items.drop_last()[i] == item;
                assert(items[i] == item);
            }
            if item == items.last() {
                assert(items[items.len() - 1] == item);
                if !before.contains(item) {
                    assert(first_occurrences(items)[before.len() as int] == item);
                }
            }
        }
    }
}

/// The entries of a list that are elements, as far as the list is read.
pub open spec fn listed_elements(entries: Seq<Option<usize>>) -> Seq<usize> {
    let read = if entries.len() <= MAX_AX_CHILDREN_PER_NODE {
        entries
    } else {
        entries.take(MAX_AX_CHILDREN_PER_NODE as int)
    };
    read.filter_map(|entry: Option<usize>| entry)
}

/// How many entries are read of a list that says it has `count`.
pub fn entries_to_read(count: isize) -> (read: usize)
    ensures
        read == (if count <= 0 {
            0
        } else if count <= MAX_AX_CHILDREN_PER_NODE {
            count as int
        } else {
            MAX_AX_CHILDREN_PER_NODE as int
        }),
{
    if count <= 0 {
        0
    } else if (count as usize) <= MAX_AX_CHILDREN_PER_NODE {
        count as usize
    } else {
        MAX_AX_CHILDREN_PER_NODE
    }
}

/// The entries of a list that are elements, in order; an entry that is null or something else than
/// an element is passed over, and so is what is beyond the limit.
pub fn ax_array_attribute_elements(entries: &Vec<Option<usize>>) -> (elements: Vec<usize>)
    ensures
        elements@ == listed_elements(entries@),
        elements@.len() <= MAX_AX_CHILDREN_PER_NODE,
{
    let count: usize = if entries.len() <= MAX_AX_CHILDREN_PER_NODE {
        entries.len()
    } else {
        MAX_AX_CHILDREN_PER_NODE
    };
    let ghost read = entries@.take(count as int);
    let ghost keep = |entry: Option<usize>| entry;
    let mut elements: Vec<usize> = Vec::new();
    let mut i: usize = 0;
    while i < count
        invariant
            i <= count,
            count <= entries.len(),
            count <= MAX_AX_CHILDREN_PER_NODE,
            read == entries@.take(count as int),
            keep == (|entry: Option<usize>| entry),
            elements@.len() <= i,
            elements@ == read.take(i as int).filter_map(keep),
        decreases count - i,
    {
        assert(read.take(i + 1).drop_last() =~= read.take(i as int));
        assert(read.take(i + 1).last() == entries@[i as int]);
        if let Some(element) = entries[i] {
            elements.push(element);
        }
        assert(elements@ =~= read.take(i + 1).filter_map(keep));
        i = i + 1;
    }
    proof {
        assert(read.take(count as int) =~= read);
        if entries.len() <= MAX_AX_CHILDREN_PER_NODE {
            assert(read =~= entries@);
        }
    }
    elements
}

/// The elements under an element, from the lists of all its attributes: each where it occurs first.
pub fn ax_child_elements(lists: &Vec<Vec<usize>>) -> (children: Vec<usize>)
    ensures
        children@ == first_occurrences(concatenated(lists@)),
{
    let mut children: Vec<usize> = Vec::new();
    let mut seen: HashSet<usize> = HashSet::new();
    let mut i: usize = 0;
    assert(seen@ =~= children@.to_set());
    assert(lists@.take(0) =~= Seq::empty());
    while i < lists.len()
        invariant
            i <= lists.len(),
            seen@ == children@.to_set(),
            children@ == first_occurrences(concatenated(lists@.take(i as int))),
        decreases lists.len() - i,
    {
        let ghost before = concatenated(lists@.take(i as int));
        let list: &Vec<usize> = &lists[i];
        let mut k: usize = 0;
        assert(before + list@.take(0) =~= before);
        while k < list.len()
            invariant
                k <= list.len(),
                seen@ == children@.to_set(),
                children@ == first_occurrences(before + list@.take(k as int)),
            decreases list.len() - k,
        {
            let key: usize = list[k];
            let ghost items = before + list@.take(k + 1);
            let ghost had = children@;
            assert(items.drop_last() =~= before + list@.take(k as int));
            assert(items.last() == key);
            if seen.insert(key) {
                children.push(key);
                proof {
                    assert(!had.contains(key));
                    assert(children@ =~= first_occurrences(items));
                    assert forall|item: usize| #[trigger]
                        seen@.contains(item) <==> children@.to_set().contains(item) by {
                        if had.contains(item) {
                            let j = choose|j: int| 0 <= j < had.len() && had[j] == item;
                            assert(children@[j] == item);
                        }
                        if item == key {
                            assert(children@[had.len() as int] == item);
                        }
                    }
                    assert(seen@ =~= children@.to_set());
                }
            } else {
                proof {
                    assert(had.contains(key));
                    assert(seen@ =~= children@.to_set());
                }
            }
            k = k + 1;
        }
        proof {
            assert(list@.take(list@.len() as int) =~= list@);
            assert(lists@.take(i + 1).drop_last() =~= lists@.take(i as int));
        }
        i = i + 1;
    }
    assert(lists@.take(lists@.len() as int) =~= lists@);
    children
}

/// The elements of several lists, one list after the other.
pub open spec fn concatenated(lists: Seq<Vec<usize>>) -> Seq<usize>
    decreases lists.len(),
{
    if lists.len() == 0 {
        Seq::empty()
    } else {
        concatenated(lists.drop_last()) + lists.last()@
    }
}

/// A window of an application, as accessibility tells it.
#[derive(Debug)]
pub struct AccessibilityWindow {
    pub element: usize,
    pub title: String,
    pub x: i32,
    pub y: i32,
    pub width: u32,
    pub height: u32,
}

/// An application, as accessibility tells it.
#[derive(Debug)]
pub struct AccessibilityApp {
    pub windows: Vec<AccessibilityWindow>,
    pub focused_element_ptr: Option<usize>,
}

/// What could be read of a window.
#[derive(Debug)]
pub struct WindowReading {
    pub element: usize,
    pub title: Option<String>,
    pub position: Option<(i32, i32)>,
    pub size: Option<(u32, u32)>,
}

/// A text, or the empty text where there is none.
pub open spec fn or_empty(text: Option<String>) -> Seq<char> {
    match text {
        Some(text) => text@,
        None => Seq::empty(),
    }
}

/// A position, or the origin where there is none.
pub open spec fn or_origin(position: Option<(i32, i32)>) -> (i32, i32) {
    match position {
        Some(position) => position,
        None => (0i32, 0i32),
    }
}

/// A size, or the empty size where there is none.
pub open spec fn or_nothing(size: Option<(u32, u32)>) -> (u32, u32) {
    match size {
        Some(size) => size,
        None => (0u32, 0u32),
    }
}

fn text_or_empty(text: &Option<String>) -> (result: String)
    ensures
        result@ == or_empty(*text),
{
    match text {
        Some(text) => text.clone(),
        None => String::new(),
    }
}

/// Whether a window of an application is what a reading says, with what could not be read empty.
pub open spec fn read_as(window: AccessibilityWindow, reading: WindowReading) -> bool {
    &&& window.element == reading.element
    &&& window.title@ == or_empty(reading.title)
    &&& (window.x, window.y) == or_origin(reading.position)
    &&& (window.width, window.height) == or_nothing(reading.size)
}

/// The application whose windows and whose focused element were read.
pub fn application(readings: &Vec<WindowReading>, focused_element_ptr: Option<usize>) -> (app:
    AccessibilityApp)
    ensures
        app.focused_element_ptr == focused_element_ptr,
        app.windows@.len() == readings@.len(),
        forall|i: int|
            0 <= i < readings@.len() ==> read_as(#[trigger] app.windows@[i], readings@[i]),
{
    let mut windows: Vec<AccessibilityWindow> = Vec::new();
    let mut i: usize = 0;
    while i < readings.len()
        invariant
            i <= readings.len(),
            windows@.len() == i,
            forall|k: int| 0 <= k < i ==> read_as(#[trigger] windows@[k], readings@[k]),
        decreases readings.len() - i,
    {
        let reading = &readings[i];
        let (x, y) = match reading.position {
            Some(position) => position,
            None => (0i32, 0i32),
        };
        let (width, height) = match reading.size {
            Some(size) => size,
            None => (0u32, 0u32),
        };
        windows.push(
            AccessibilityWindow {
                element: reading.element,
                title: text_or_empty(&reading.title),
                x,
                y,
                width,
                height,
            },
        );
        i = i + 1;
    }
    AccessibilityApp { windows, focused_element_ptr }
}

/// What two titles count for: nothing where they agree or one of them is missing, little where one
/// contains the other, and much where they differ.
pub open spec fn title_score(root_title: Seq<char>, candidate_title: Seq<char>) -> int {
    if root_title.len() == 0 || candidate_title.len() == 0 || root_title == candidate_title {
        0
    } else if text::occurs_in(candidate_title, root_title) || text::occurs_in(
        root_title,
        candidate_title,
    ) {
        250
    } else {
        10000
    }
}

/// How far apart two numbers are.
pub open spec fn distance(a: int, b: int) -> int {
    if a < b {
        b - a
    } else {
        a - b
    }
}

/// How little a candidate looks like a window: what their titles count for, and how far apart their
/// positions and sizes are.
pub open spec fn score(
    root: WindowNode,
    candidate_title: Seq<char>,
    x: int,
    y: int,
    width: int,
    height: int,
) -> int {
    title_score(text::trimmed(root.title), candidate_title) + distance(root.x as int, x) + distance(
        root.y as int,
        y,
    ) + distance(root.width as int, width) + distance(root.height as int, height)
}

/// Whether positions are close enough for their distance to be counted.
pub open spec fn comparable(root: WindowNode, x: int, y: int) -> bool {
    distance(root.x as int, x) <= i32::MAX && distance(root.y as int, y) <= i32::MAX
}

/// How little a candidate looks like a window. The title of the candidate is taken as it is.
pub fn candidate_match_score(
    root: &WindowInfo,
    candidate_title: &str,
    candidate_x: i32,
    candidate_y: i32,
    candidate_width: u32,
    candidate_height: u32,
) -> (total: i64)
    requires
        comparable(root@, candidate_x as int, candidate_y as int),
    ensures
        total == score(
            root@,
            candidate_title@,
            candidate_x as int,
            candidate_y as int,
            candidate_width as int,
            candidate_height as int,
        ),
{
    let root_title = text::trim(root.title.as_str());
    let mut total: i64 = 0;
    if !root_title.as_str().is_empty() && !candidate_title.is_empty() {
        if root_title == candidate_title.to_owned() {
            total = 0;
        } else if text::contains(root_title.as_str(), candidate_title) || text::contains(
            candidate_title,
            root_title.as_str(),
        ) {
            total = 250;
        } else {
            total = 10000;
        }
    }
    total + apart(root.x as i64, candidate_x as i64) + apart(root.y as i64, candidate_y as i64)
        + apart(root.width as i64, candidate_width as i64) + apart(
        root.height as i64,
        candidate_height as i64,
    )
}

fn apart(a: i64, b: i64) -> (result: i64)
    requires
        i32::MIN <= a <= u32::MAX,
        i32::MIN <= b <= u32::MAX,
    ensures
        result == distance(a as int, b as int),
        0 <= result <= 2 * u32::MAX,
{
    if a < b {
        b - a
    } else {
        a - b
    }
}

/// How little a window of an application looks like `root`.
pub open spec fn window_score(root: WindowNode, candidate: AccessibilityWindow) -> int {
    score(
        root,
        text::trimmed(candidate.title@),
        candidate.x as int,
        candidate.y as int,
        candidate.width as int,
        candidate.height as int,
    )
}

/// Whether every window of an application can be compared with `root`.
pub open spec fn all_comparable(root: WindowNode, app: AccessibilityApp) -> bool {
    forall|i: int|
        0 <= i < app.windows@.len() ==> comparable(
            root,
            (#[trigger] app.windows@[i]).x as int,
            app.windows@[i].y as int,
        )
}

/// Whether every window of an application can be compared with `root`.
pub fn can_compare(root: &WindowInfo, app: &AccessibilityApp) -> (yes: bool)
    ensures
        yes == all_comparable(root@, *app),
{
    let mut i: usize = 0;
    while i < app.windows.len()
        invariant
            i <= app.windows.len(),
            forall|k: int|
                0 <= k < i ==> comparable(
                    root@,
                    (#[trigger] app.windows@[k]).x as int,
                    app.windows@[k].y as int,
                ),
        decreases app.windows.len() - i,
    {
        let window = &app.windows[i];
        if apart(root.x as i64, window.x as i64) > i32::MAX as i64 || apart(
            root.y as i64,
            window.y as i64,
        ) > i32::MAX as i64 {
            assert(!comparable(root@, app.windows@[i as int].x as int, window.y as int));
            return false;
        }
        i = i + 1;
    }
    true
}

/// How little a window of an application looks like `root`.
pub fn match_score(root: &WindowInfo, candidate: &AccessibilityWindow) -> (total: i64)
    requires
        comparable(root@, candidate.x as int, candidate.y as int),
    ensures
        total == window_score(root@, *candidate),
{
    let title = text::trim(candidate.title.as_str());
    candidate_match_score(
        root,
        title.as_str(),
        candidate.x,
        candidate.y,
        candidate.width,
        candidate.height,
    )
}

/// Whether window `i` is the one that is meant by `root`: it looks enough like it, no other looks
/// more like it, and none before it looks as much like it.
pub open spec fn is_match(root: WindowNode, windows: Seq<AccessibilityWindow>, i: int) -> bool {
    &&& 0 <= i < windows.len()
    &&& window_score(root, windows[i]) < MATCH_LIMIT
    &&& forall|j: int|
        0 <= j < windows.len() ==> window_score(root, windows[i]) <= window_score(
            root,
            #[trigger] windows[j],
        )
    &&& forall|j: int|
        0 <= j < i ==> window_score(root, windows[i]) < window_score(root, #[trigger] windows[j])
}

/// The window of an application that is meant by `root`; none where none looks enough like it.
pub fn match_window<'a>(root: &WindowInfo, app: &'a AccessibilityApp) -> (matched: Option<
    &'a AccessibilityWindow,
>)
    requires
        all_comparable(root@, *app),
    ensures
        match matched {
            Some(window) => exists|i: int| #[trigger]
                is_match(root@, app.windows@, i) && app.windows@[i] == *window,
            None => forall|i: int|
                0 <= i < app.windows@.len() ==> window_score(root@, #[trigger] app.windows@[i])
                    >= MATCH_LIMIT,
        },
{
    if app.windows.len() == 0 {
        return None;
    }
    let mut best: usize = 0;
    let mut best_score: i64 = match_score(root, &app.windows[0]);
    let mut i: usize = 1;
    while i < app.windows.len()
        invariant
            1 <= i <= app.windows.len(),
            best < i,
            all_comparable(root@, *app),
            best_score == window_score(root@, app.windows@[best as int]),
            forall|j: int|
                0 <= j < i ==> best_score <= window_score(root@, #[trigger] app.windows@[j]),
            forall|j: int|
                0 <= j < best ==> best_score < window_score(root@, #[trigger] app.windows@[j]),
        decreases app.windows.len() - i,
    {
        let next: i64 = match_score(root, &app.windows[i]);
        if next < best_score {
            best = i;
            best_score = next;
        }
        i = i + 1;
    }
    if best_score < MATCH_LIMIT {
        assert(is_match(root@, app.windows@, best as int));
        Some(&app.windows[best])
    } else {
        None
    }
}

/// A window with the same title, position and size is a perfect match, and no score is lower.
pub proof fn law_perfect_match(root: WindowNode)
    ensures
        score(
            root,
            text::trimmed(root.title),
            root.x as int,
            root.y as int,
            root.width as int,
            root.height as int,
        ) == 0,
        forall|title: Seq<char>, x: int, y: int, width: int, height: int|
            0 <= #[trigger] score(root, title, x, y, width, height),
{
}

/// Where two candidates lie alike, the one with the title of the window looks more like it than one
/// with a different title.
pub proof fn law_title_decides(
    root: WindowNode,
    other: Seq<char>,
    x: int,
    y: int,
    width: int,
    height: int,
)
    requires
        text::trimmed(root.title).len() > 0,
        other.len() > 0,
        other != text::trimmed(root.title),
    ensures
        score(root, text::trimmed(root.title), x, y, width, height) < score(
            root,
            other,
            x,
            y,
            width,
            height,
        ),
{
}

/// What could be read of an element.
#[derive(Debug)]
pub struct AxElement {
    pub title: Option<String>,
    pub identifier: Option<String>,
    pub role: Option<String>,
    pub subrole: Option<String>,
    pub position: Option<(i32, i32)>,
    pub size: Option<(u32, u32)>,
    pub minimized: Option<bool>,
    pub focused: Option<bool>,
}

/// The mathematical content of an [`AxElement`], with what could not be read empty or false.
pub struct AxNode {
    pub title: Seq<char>,
    pub identifier: Seq<char>,
    pub role: Seq<char>,
    pub subrole: Seq<char>,
    pub position: (i32, i32),
    pub size: (u32, u32),
    pub minimized: bool,
    pub focused: bool,
}

impl View for AxElement {
    type V = AxNode;

    open spec fn view(&self) -> AxNode {
        AxNode {
            title: or_empty(self.title),
            identifier: or_empty(self.identifier),
            role: or_empty(self.role),
            subrole: or_empty(self.subrole),
            position: or_origin(self.position),
            size: or_nothing(self.size),
            minimized: self.minimized == Some(true),
            focused: self.focused == Some(true),
        }
    }
}

/// What an element is called: its title, else its identifier, else its role with its subrole.
pub open spec fn display_title(element: AxNode) -> Seq<char> {
    if element.title.len() > 0 {
        element.title
    } else if element.identifier.len() > 0 {
        element.identifier
    } else if element.role.len() == 0 {
        Seq::empty()
    } else if element.subrole.len() == 0 {
        element.role
    } else {
        element.role + ":"@ + element.subrole
    }
}

/// What an element is called: its title, else its identifier, else its role with its subrole.
pub fn ax_display_title(element: &AxElement) -> (title: String)
    ensures
        title@ == display_title(element@),
{
    if let Some(title) = &element.title {
        if !title.as_str().is_empty() {
            return title.clone();
        }
    }
    if let Some(identifier) = &element.identifier {
        if !identifier.as_str().is_empty() {
            return identifier.clone();
        }
    }
    let role = text_or_empty(&element.role);
    let subrole = text_or_empty(&element.subrole);
    if role.as_str().is_empty() {
        String::new()
    } else if subrole.as_str().is_empty() {
        role
    } else {
        let mut title = role;
        title.append(":");
        title.append(subrole.as_str());
        title
    }
}

/// Whose elements are gathered, and how.
pub struct AxContext {
    pub pid: u32,
    pub app_name: Seq<char>,
    pub focused_element_ptr: Option<usize>,
    pub options: AccessibilityQueryOptions,
}

/// Whether an element is reported: it has an extent, or, where filtering is relaxed, a name or
/// role.
pub open spec fn is_reported(options: AccessibilityQueryOptions, element: AxNode) -> bool {
    let (width, height) = element.size;
    let has_geometry = width > 0 || height > 0;
    let has_label = display_title(element).len() > 0 || element.role.len() > 0;
    has_geometry || (options.relaxed_filtering && has_label)
}

/// What is reported of an element.
pub open spec fn ax_info(
    context: AxContext,
    key: usize,
    element: AxNode,
    id: u32,
    z: int,
) -> WindowNode {
    WindowNode {
        id,
        pid: context.pid,
        app_name: context.app_name,
        title: display_title(element),
        x: element.position.0,
        y: element.position.1,
        z: z as i32,
        width: element.size.0,
        height: element.size.1,
        is_minimized: element.minimized,
        is_maximized: false,
        is_focused: context.focused_element_ptr == Some(key) || element.focused,
        children: Seq::empty(),
    }
}

/// What is reported of an element, where it is reported. Only then does it take an id.
pub fn build_ax_info(
    key: usize,
    element: &AxElement,
    next_id: &mut u32,
    pid: u32,
    app_name: &str,
    z: i32,
    focused_element_ptr: Option<usize>,
    options: AccessibilityQueryOptions,
) -> (info: Option<WindowInfo>)
    ensures
        info is Some <==> is_reported(options, element@),
        info matches Some(info) ==> info@ == ax_info(
            AxContext { pid, app_name: app_name@, focused_element_ptr, options },
            key,
            element@,
            *old(next_id),
            z as int,
        ),
        *final(next_id) == (if is_reported(options, element@) {
            following_id(*old(next_id))
        } else {
            *old(next_id)
        }),
{
    let title = ax_display_title(element);
    let role = text_or_empty(&element.role);
    let (x, y) = match element.position {
        Some(position) => position,
        None => (0i32, 0i32),
    };
    let (width, height) = match element.size {
        Some(size) => size,
        None => (0u32, 0u32),
    };
    let has_geometry: bool = width > 0 || height > 0;
    let has_label: bool = !title.as_str().is_empty() || !role.as_str().is_empty();
    if !has_geometry && !has_label {
        return None;
    }
    if !options.relaxed_filtering && !has_geometry {
        return None;
    }
    let is_minimized: bool = match element.minimized {
        Some(minimized) => minimized,
        None => false,
    };
    let marked: bool = match element.focused {
        Some(focused) => focused,
        None => false,
    };
    let is_focused: bool = marked || match focused_element_ptr {
        Some(ptr) => ptr == key,
        None => false,
    };
    let info = WindowInfo {
        id: next_synthetic_id(next_id),
        pid,
        app_name: app_name.to_owned(),
        title,
        x,
        y,
        z,
        width,
        height,
        is_minimized,
        is_maximized: false,
        is_focused,
        children: Vec::new(),
    };
    proof {
        info.lemma_children();
        assert(info@.children =~= Seq::empty());
    }
    Some(info)
}

/// What a walk over the elements of a window gathers: records, and the id that comes next.
pub struct AxOut {
    pub records: Seq<Found>,
    pub next_id: u32,
}

/// What an element adds, and the id under which the elements below it are recorded. An element that
/// is not reported hands on the id above it, and only a deep search looks below it.
pub open spec fn ax_visit(context: AxContext, out: AxOut, reading: Reading, element: AxNode) -> (
    AxOut,
    Option<u32>,
) {
    if is_reported(context.options, element) {
        let id = out.next_id;
        let z = reading.siblings - reading.index - 1;
        let info = ax_info(context, reading.element, element, id, z);
        (
            AxOut {
                records: out.records.push(Found { info, parent_id: Some(reading.tag) }),
                next_id: following_id(id),
            },
            Some(id),
        )
    } else if context.options.deep_children {
        (out, Some(reading.tag))
    } else {
        (out, None)
    }
}

/// How a walk makes records of elements, where `elements` tells what each of them is.
pub open spec fn ax_visitor(context: AxContext, elements: spec_fn(usize) -> AxNode) -> Visitor<
    AxOut,
> {
    Visitor {
        read: |out: AxOut, reading: Reading|
            ax_visit(context, out, reading, elements(reading.element)),
        skipped: |out: AxOut, element: usize, depth: usize| out,
        stopped: |out: AxOut, depth: usize| out,
    }
}

/// The walk that makes records of the elements under a window.
#[derive(Debug)]
pub struct DescendantWalk {
    traversal: Traversal,
    pid: u32,
    app_name: String,
    focused_element_ptr: Option<usize>,
    options: AccessibilityQueryOptions,
    next_id: u32,
    records: Vec<WindowInfoRecord>,
}

impl DescendantWalk {
    /// How far the walk has got.
    pub closed spec fn walk(self) -> Walk {
        self.traversal@
    }

    /// Whose elements are gathered, and how.
    pub closed spec fn context(self) -> AxContext {
        AxContext {
            pid: self.pid,
            app_name: self.app_name@,
            focused_element_ptr: self.focused_element_ptr,
            options: self.options,
        }
    }

    /// What has been gathered so far.
    pub closed spec fn out(self) -> AxOut {
        AxOut { records: window::found(self.records@), next_id: self.next_id }
    }

    /// The bounds that the walk keeps.
    pub open spec fn well_formed(self) -> bool {
        self.walk().well_formed()
    }

    /// Says what is to be done next. Elements that are passed over add nothing.
    pub fn step(&mut self) -> (step: Step)
        requires
            old(self).well_formed(),
        ensures
            final(self).well_formed(),
            (final(self).walk(), step) == old(self).walk().next(),
            final(self).context() == old(self).context(),
            final(self).out() == old(self).out(),
    {
        self.traversal.step()
    }

    /// Takes up the list of the elements under the element that was to be listed.
    pub fn listed(&mut self, children: Vec<usize>)
        requires
            old(self).well_formed(),
            old(self).walk().next().1 is List,
            children@.len() <= i32::MAX,
        ensures
            final(self).well_formed(),
            final(self).walk() == old(self).walk().after_list(children@),
            final(self).context() == old(self).context(),
            final(self).out() == old(self).out(),
    {
        self.traversal.listed(children);
    }

    /// Takes up the element that was to be read.
    pub fn read(&mut self, element: &AxElement)
        requires
            old(self).well_formed(),
            old(self).walk().reading is Some,
        ensures
            final(self).well_formed(),
            final(self).context() == old(self).context(),
            ({
                let (out, descend) = ax_visit(
                    old(self).context(),
                    old(self).out(),
                    old(self).walk().reading->0,
                    element@,
                );
                final(self).out() == out && final(self).walk() == old(self).walk().after_read(
                    descend,
                )
            }),
    {
        if let Some(reading) = self.traversal.wanted() {
            let z: i32 = reading.siblings as i32 - reading.index as i32 - 1;
            let info = build_ax_info(
                reading.element,
                element,
                &mut self.next_id,
                self.pid,
                self.app_name.as_str(),
                z,
                self.focused_element_ptr,
                self.options,
            );
            match info {
                Some(info) => {
                    let id: u32 = info.id;
                    self.records.push(
                        WindowInfoRecord { info, parent_id: Some(reading.tag) },
                    );
                    self.traversal.visited(Some(id));
                    assert(window::found(self.records@) =~= window::found(
                        old(self).records@,
                    ).push(self.records@.last()@));
                },
                None => {
                    if self.options.deep_children {
                        self.traversal.visited(Some(reading.tag));
                    } else {
                        self.traversal.visited(None);
                    }
                },
            }
        }
    }

    /// The records that were gathered, and the id that comes next.
    pub fn finish(self) -> (gathered: (Vec<WindowInfoRecord>, u32))
        ensures
            window::found(gathered.0@) == self.out().records,
            gathered.1 == self.out().next_id,
    {
        (self.records, self.next_id)
    }
}

/// The walk under the window of an application that is meant by `root`; none where there is no such
/// window, and so no record. Ids are handed out from `next_id` on.
pub fn descendant_records_for_window(
    root: &WindowInfo,
    app: &AccessibilityApp,
    options: AccessibilityQueryOptions,
    next_id: u32,
) -> (walk: Option<DescendantWalk>)
    requires
        all_comparable(root@, *app),
    ensures
        match walk {
            Some(walk) => {
                &&& walk.well_formed()
                &&& exists|i: int| #[trigger]
                    is_match(root@, app.windows@, i) && walk.walk() == Walk::start(
                        app.windows@[i].element,
                        root@.id,
                        depth_limit(options),
                    )
                &&& walk.context() == (AxContext {
                    pid: root@.pid,
                    app_name: root@.app_name,
                    focused_element_ptr: app.focused_element_ptr,
                    options,
                })
                &&& walk.out() == (AxOut { records: Seq::empty(), next_id })
            },
            None => forall|i: int|
                0 <= i < app.windows@.len() ==> window_score(root@, #[trigger] app.windows@[i])
                    >= MATCH_LIMIT,
        },
{
    match match_window(root, app) {
        None => None,
        Some(window) => {
            let walk = DescendantWalk {
                traversal: Traversal::new(window.element, root.id, max_ax_depth(options)),
                pid: root.pid,
                app_name: root.app_name.clone(),
                focused_element_ptr: app.focused_element_ptr,
                options,
                next_id,
                records: Vec::new(),
            };
            assert(walk.out().records =~= Seq::empty());
            Some(walk)
        },
    }
}

/// A line about a window of the window server.
pub open spec fn window_line(root: WindowNode) -> Seq<char> {
    "CG window id="@ + text::decimal(root.id as int) + " pid="@ + text::decimal(root.pid as int)
        + " title="@ + text::quoted(root.title) + " app="@ + text::quoted(root.app_name) + " pos=("@
        + text::decimal(root.x as int) + ", "@ + text::decimal(root.y as int) + ") size="@
        + text::decimal(root.width as int) + "x"@ + text::decimal(root.height as int)
}

fn write_window_line(root: &WindowInfo) -> (line: String)
    ensures
        line@ == window_line(root@),
{
    let mut line = "CG window id=".to_owned();
    text::push_decimal(&mut line, root.id as i64);
    line.append(" pid=");
    text::push_decimal(&mut line, root.pid as i64);
    line.append(" title=");
    text::push_quoted(&mut line, root.title.as_str());
    line.append(" app=");
    text::push_quoted(&mut line, root.app_name.as_str());
    line.append(" pos=(");
    text::push_decimal(&mut line, root.x as i64);
    line.append(", ");
    text::push_decimal(&mut line, root.y as i64);
    line.append(") size=");
    text::push_decimal(&mut line, root.width as i64);
    line.append("x");
    text::push_decimal(&mut line, root.height as i64);
    line
}

/// A line about a window of an application, after the words that begin it.
pub open spec fn candidate_line(
    begin: Seq<char>,
    root: WindowNode,
    candidate: AccessibilityWindow,
) -> Seq<char> {
    begin + text::quoted(candidate.title@) + " pos=("@ + text::decimal(candidate.x as int) + ", "@
        + text::decimal(candidate.y as int) + ") size="@ + text::decimal(candidate.width as int)
        + "x"@ + text::decimal(candidate.height as int) + " score="@ + text::decimal(
        window_score(root, candidate),
    )
}

fn write_candidate_line(begin: &str, root: &WindowInfo, candidate: &AccessibilityWindow) -> (line:
    String)
    requires
        comparable(root@, candidate.x as int, candidate.y as int),
    ensures
        line@ == candidate_line(begin@, root@, *candidate),
{
    let mut line = begin.to_owned();
    text::push_quoted(&mut line, candidate.title.as_str());
    line.append(" pos=(");
    text::push_decimal(&mut line, candidate.x as i64);
    line.append(", ");
    text::push_decimal(&mut line, candidate.y as i64);
    line.append(") size=");
    text::push_decimal(&mut line, candidate.width as i64);
    line.append("x");
    text::push_decimal(&mut line, candidate.height as i64);
    line.append(" score=");
    text::push_decimal(&mut line, match_score(root, candidate));
    line
}

/// The line about an element of a list at this depth.
pub open spec fn element_line(element: AxNode, depth: nat) -> Seq<char> {
    text::margin(depth + 2) + "AX child role="@ + text::quoted(element.role) + " subrole="@
        + text::quoted(element.subrole) + " title="@ + text::quoted(element.title)
        + " identifier="@ + text::quoted(element.identifier) + " pos=("@ + text::decimal(
        element.position.0 as int,
    ) + ", "@ + text::decimal(element.position.1 as int) + ") size="@ + text::decimal(
        element.size.0 as int,
    ) + "x"@ + text::decimal(element.size.1 as int) + " focused="@ + text::truth(element.focused)
        + " minimized="@ + text::truth(element.minimized)
}

fn new_line(depth: usize) -> (line: String)
    requires
        depth + 2 <= usize::MAX,
    ensures
        line@ == text::margin((depth + 2) as nat),
{
    let mut line = String::new();
    text::push_margin(&mut line, depth + 2);
    assert(line@ =~= text::margin((depth + 2) as nat));
    line
}

fn write_element_line(element: &AxElement, depth: usize) -> (line: String)
    requires
        depth + 2 <= usize::MAX,
    ensures
        line@ == element_line(element@, depth as nat),
{
    let (x, y) = match element.position {
        Some(position) => position,
        None => (0i32, 0i32),
    };
    let (width, height) = match element.size {
        Some(size) => size,
        None => (0u32, 0u32),
    };
    let focused: bool = match element.focused {
        Some(focused) => focused,
        None => false,
    };
    let minimized: bool = match element.minimized {
        Some(minimized) => minimized,
        None => false,
    };
    let mut line = new_line(depth);
    line.append("AX child role=");
    text::push_quoted(&mut line, text_or_empty(&element.role).as_str());
    line.append(" subrole=");
    text::push_quoted(&mut line, text_or_empty(&element.subrole).as_str());
    line.append(" title=");
    text::push_quoted(&mut line, text_or_empty(&element.title).as_str());
    line.append(" identifier=");
    text::push_quoted(&mut line, text_or_empty(&element.identifier).as_str());
    line.append(" pos=(");
    text::push_decimal(&mut line, x as i64);
    line.append(", ");
    text::push_decimal(&mut line, y as i64);
    line.append(") size=");
    text::push_decimal(&mut line, width as i64);
    line.append("x");
    text::push_decimal(&mut line, height as i64);
    line.append(" focused=");
    text::push_truth(&mut line, focused);
    line.append(" minimized=");
    text::push_truth(&mut line, minimized);
    line
}

/// The line about an element that was seen before.
pub open spec fn skipped_line(element: usize, depth: nat) -> Seq<char> {
    text::margin(depth + 2) + "AX child skipped: cycle detected ptr=0x"@ + text::hexadecimal(
        element as nat,
    )
}

fn write_skipped_line(element: usize, depth: usize) -> (line: String)
    requires
        depth + 2 <= usize::MAX,
    ensures
        line@ == skipped_line(element, depth as nat),
{
    let mut line = new_line(depth);
    line.append("AX child skipped: cycle detected ptr=0x");
    text::push_hexadecimal(&mut line, element as u64);
    line
}

/// The line where the limit of elements was reached.
pub open spec fn stopped_line(depth: nat) -> Seq<char> {
    text::margin(depth + 2) + "AX child traversal stopped: node limit "@ + text::decimal(
        MAX_AX_NODES_PER_WINDOW as int,
    ) + " reached"@
}

fn write_stopped_line(depth: usize) -> (line: String)
    requires
        depth + 2 <= usize::MAX,
    ensures
        line@ == stopped_line(depth as nat),
{
    let mut line = new_line(depth);
    line.append("AX child traversal stopped: node limit ");
    text::push_decimal(&mut line, MAX_AX_NODES_PER_WINDOW as i64);
    line.append(" reached");
    line
}

/// How a walk writes lines about elements, where `elements` tells what each of them is.
pub open spec fn debug_visitor(elements: spec_fn(usize) -> AxNode) -> Visitor<Seq<Seq<char>>> {
    Visitor {
        read: |out: Seq<Seq<char>>, reading: Reading|
            (
                out.push(element_line(elements(reading.element), reading.depth as nat)),
                Some(reading.tag),
            ),
        skipped: |out: Seq<Seq<char>>, element: usize, depth: usize|
            out.push(skipped_line(element, depth as nat)),
        stopped: |out: Seq<Seq<char>>, depth: usize| out.push(stopped_line(depth as nat)),
    }
}

/// The walk that writes lines about the elements under a window.
#[derive(Debug)]
pub struct DebugWalk {
    traversal: Option<Traversal>,
    lines: Vec<String>,
}

impl DebugWalk {
    /// How far the walk has got, where there is a window to walk under.
    pub closed spec fn walk(self) -> Option<Walk> {
        match self.traversal {
            Some(traversal) => Some(traversal@),
            None => None,
        }
    }

    /// The lines so far.
    pub closed spec fn out(self) -> Seq<Seq<char>> {
        text::texts(self.lines@)
    }

    /// The bounds that the walk keeps.
    pub open spec fn well_formed(self) -> bool {
        self.walk() matches Some(walk) ==> walk.well_formed() && walk.max_depth
            == DEEP_MAX_AX_DEPTH
    }

    /// Says what is to be done next. An element that is passed over gets its line right away.
    pub fn step(&mut self) -> (step: Step)
        requires
            old(self).well_formed(),
        ensures
            final(self).well_formed(),
            match old(self).walk() {
                None => step is Done && *final(self) == *old(self),
                Some(before) => {
                    &&& final(self).walk() == Some(before.next().0)
                    &&& step == before.next().1
                    &&& final(self).out() == (match step {
                        Step::Skipped { element, depth } => old(self).out().push(
                            skipped_line(element, depth as nat),
                        ),
                        Step::Stopped { depth } => old(self).out().push(
                            stopped_line(depth as nat),
                        ),
                        _ => old(self).out(),
                    })
                },
            },
    {
        let ghost before = *self;
        match &mut self.traversal {
            None => Step::Done,
            Some(traversal) => {
                let step = traversal.step();
                match step {
                    Step::Skipped { element, depth } => {
                        self.lines.push(write_skipped_line(element, depth));
                        assert(self.out() =~= before.out().push(
                            skipped_line(element, depth as nat),
                        ));
                    },
                    Step::Stopped { depth } => {
                        self.lines.push(write_stopped_line(depth));
                        assert(self.out() =~= before.out().push(stopped_line(depth as nat)));
                    },
                    _ => {},
                }
                step
            },
        }
    }

    /// Takes up the list of the elements under the element that was to be listed.
    pub fn listed(&mut self, children: Vec<usize>)
        requires
            old(self).well_formed(),
            old(self).walk() is Some,
            old(self).walk()->0.next().1 is List,
            children@.len() <= i32::MAX,
        ensures
            final(self).well_formed(),
            final(self).walk() == Some(old(self).walk()->0.after_list(children@)),
            final(self).out() == old(self).out(),
    {
        match &mut self.traversal {
            None => {},
            Some(traversal) => {
                traversal.listed(children);
            },
        }
    }

    /// Takes up the element that was to be read: it gets a line, and the walk goes on under it.
    pub fn read(&mut self, element: &AxElement)
        requires
            old(self).well_formed(),
            old(self).walk() is Some,
            old(self).walk()->0.reading is Some,
        ensures
            final(self).well_formed(),
            ({
                let reading = old(self).walk()->0.reading->0;
                &&& final(self).walk() == Some(old(self).walk()->0.after_read(Some(reading.tag)))
                &&& final(self).out() == old(self).out().push(
                    element_line(element@, reading.depth as nat),
                )
            }),
    {
        let ghost before = *self;
        match &mut self.traversal {
            None => {},
            Some(traversal) => {
                if let Some(reading) = traversal.wanted() {
                    traversal.visited(Some(reading.tag));
                    self.lines.push(write_element_line(element, reading.depth));
                    assert(self.out() =~= before.out().push(
                        element_line(element@, reading.depth as nat),
                    ));
                }
            },
        }
    }

    /// The lines that were written.
    pub fn finish(self) -> (lines: Vec<String>)
        ensures
            text::texts(lines@) == self.out(),
    {
        self.lines
    }
}

/// The lines about the windows of an application, none of which is the one that is meant.
pub open spec fn unmatched_lines(root: WindowNode, windows: Seq<AccessibilityWindow>) -> Seq<
    Seq<char>,
> {
    seq![
        "  AX status: no matched AX window among "@ + text::decimal(windows.len() as int)
            + " AX windows"@,
    ] + windows.map_values(
        |candidate: AccessibilityWindow|
            candidate_line("    candidate title="@, root, candidate),
    )
}

/// The lines about a window, and the walk that adds those about the elements under it where the
/// application has a window that is meant by it.
pub fn debug_lines_for_window(root: &WindowInfo, app: Option<&AccessibilityApp>) -> (walk:
    DebugWalk)
    requires
        app matches Some(app) ==> all_comparable(root@, *app),
    ensures
        walk.well_formed(),
        match app {
            None => {
                &&& walk.walk() is None
                &&& walk.out() == seq![
                    window_line(root@),
                    "  AX status: app accessibility snapshot unavailable"@,
                ]
            },
            Some(app) => match walk.walk() {
                Some(start) => exists|i: int| #[trigger]
                    is_match(root@, app.windows@, i) && start == Walk::start(
                        app.windows@[i].element,
                        0,
                        DEEP_MAX_AX_DEPTH as nat,
                    ) && walk.out() == seq![
                        window_line(root@),
                        candidate_line("  AX match title="@, root@, app.windows@[i]),
                    ],
                None => {
                    &&& forall|i: int|
                        0 <= i < app.windows@.len() ==> window_score(
                            root@,
                            #[trigger] app.windows@[i],
                        ) >= MATCH_LIMIT
                    &&& walk.out() == seq![window_line(root@)] + unmatched_lines(
                        root@,
                        app.windows@,
                    )
                },
            },
        },
{
    let mut lines: Vec<String> = Vec::new();
    lines.push(write_window_line(root));
    let app = match app {
        Some(app) => app,
        None => {
            lines.push("  AX status: app accessibility snapshot unavailable".to_owned());
            let walk = DebugWalk { traversal: None, lines };
            assert(walk.out() =~= seq![
                window_line(root@),
                "  AX status: app accessibility snapshot unavailable"@,
            ]);
            return walk;
        },
    };
    match match_window(root, app) {
        Some(window) => {
            let ghost i = choose|i: int| #[trigger]
                is_match(root@, app.windows@, i) && app.windows@[i] == *window;
            lines.push(write_candidate_line("  AX match title=", root, window));
            let traversal = Traversal::new(window.element, 0, DEEP_MAX_AX_DEPTH);
            let walk = DebugWalk { traversal: Some(traversal), lines };
            assert(walk.out() =~= seq![
                window_line(root@),
                candidate_line("  AX match title="@, root@, app.windows@[i]),
            ]);
            walk
        },
        None => {
            let mut line = "  AX status: no matched AX window among ".to_owned();
            text::push_count(&mut line, app.windows.len() as u64);
            line.append(" AX windows");
            lines.push(line);
            let ghost all = seq![window_line(root@)] + unmatched_lines(root@, app.windows@);
            let mut i: usize = 0;
            assert(text::texts(lines@) =~= all.take(2));
            while i < app.windows.len()
                invariant
                    i <= app.windows.len(),
                    all_comparable(root@, *app),
                    all == seq![window_line(root@)] + unmatched_lines(root@, app.windows@),
                    text::texts(lines@) == all.take(i + 2),
                decreases app.windows.len() - i,
            {
                let ghost before = text::texts(lines@);
                lines.push(write_candidate_line("    candidate title=", root, &app.windows[i]));
                i = i + 1;
                assert(text::texts(lines@) =~= before.push(lines@.last()@));
                assert(all.take(i + 2) =~= all.take(i + 1).push(all[i + 1]));
            }
            assert(all.take(i + 2) =~= all);
            DebugWalk { traversal: None, lines }
        },
    }
}

/// The line that stands for everything where accessibility is not granted.
pub open spec fn permission_line() -> Seq<char> {
    "Accessibility permission not granted. Enable System Settings > Privacy & Security > Accessibility for this process."@
}

/// The lines of several windows, one window after the other.
pub open spec fn all_texts(lines: Seq<Vec<String>>) -> Seq<Seq<char>>
    decreases lines.len(),
{
    if lines.len() == 0 {
        Seq::empty()
    } else {
        all_texts(lines.drop_last()) + text::texts(lines.last()@)
    }
}

/// The lines about all windows, or the one that tells that accessibility is not granted.
pub fn debug_lines_for_windows(trusted: bool, windows: Vec<Vec<String>>) -> (lines: Vec<String>)
    ensures
        text::texts(lines@) == (if trusted {
            all_texts(windows@)
        } else {
            seq![permission_line()]
        }),
{
    let mut lines: Vec<String> = Vec::new();
    if !trusted {
        lines.push(
            "Accessibility permission not granted. Enable System Settings > Privacy & Security > Accessibility for this process.".to_owned(),
        );
        assert(text::texts(lines@) =~= seq![permission_line()]);
        return lines;
    }
    let mut i: usize = 0;
    assert(windows@.take(0) =~= Seq::empty());
    assert(text::texts(lines@) =~= Seq::empty());
    while i < windows.len()
        invariant
            i <= windows.len(),
            text::texts(lines@) == all_texts(windows@.take(i as int)),
        decreases windows.len() - i,
    {
        let mut k: usize = 0;
        let ghost before = text::texts(lines@);
        assert(before + text::texts(windows@[i as int]@.take(0)) =~= before);
        while k < windows[i].len()
            invariant
                i < windows.len(),
                k <= windows@[i as int]@.len(),
                text::texts(lines@) == before + text::texts(windows@[i as int]@.take(k as int)),
            decreases windows@[i as int]@.len() - k,
        {
            let ghost had = text::texts(lines@);
            lines.push(windows[i][k].clone());
            k = k + 1;
            assert(text::texts(lines@) =~= had.push(lines@.last()@));
            assert(text::texts(windows@[i as int]@.take(k as int)) =~= text::texts(
                windows@[i as int]@.take(k - 1),
            ).push(windows@[i as int]@[k - 1]@));
            assert(text::texts(lines@) =~= before + text::texts(windows@[i as int]@.take(k as int)));
        }
        proof {
            assert(windows@[i as int]@.take(k as int) =~= windows@[i as int]@);
            assert(windows@.take(i + 1).drop_last() =~= windows@.take(i as int));
        }
        i = i + 1;
    }
    assert(windows@.take(windows@.len() as int) =~= windows@);
    lines
}

/// The processes that are to be looked at through accessibility: each process of a window once, in
/// the order of the windows; none where accessibility is not granted.
pub fn accessibility_cache_for(windows: &Vec<WindowInfo>, trusted: bool) -> (pids: Vec<u32>)
    ensures
        pids@ == (if trusted {
            first_occurrences(windows@.map_values(|window: WindowInfo| window.pid))
        } else {
            Seq::empty()
        }),
{
    let mut pids: Vec<u32> = Vec::new();
    if !trusted {
        return pids;
    }
    let ghost all = windows@.map_values(|window: WindowInfo| window.pid);
    let mut seen: HashSet<u32> = HashSet::new();
    let mut i: usize = 0;
    assert(seen@ =~= pids@.to_set());
    assert(all.take(0) =~= Seq::empty());
    while i < windows.len()
        invariant
            i <= windows.len(),
            all == windows@.map_values(|window: WindowInfo| window.pid),
            seen@ == pids@.to_set(),
            pids@ == first_occurrences(all.take(i as int)),
        decreases windows.len() - i,
    {
        let pid: u32 = windows[i].pid;
        let ghost had = pids@;
        assert(all.take(i + 1).drop_last() =~= all.take(i as int));
        assert(all.take(i + 1).last() == pid);
        if seen.insert(pid) {
            pids.push(pid);
            proof {
                assert(!had.contains(pid));
                assert forall|item: u32| #[trigger]
                    seen@.contains(item) <==> pids@.to_set().contains(item) by {
                    if had.contains(item) {
                        let j = choose|j: int| 0 <= j < had.len() && had[j] == item;
                        assert(pids@[j] == item);
                    }
                    if item == pid {
                        assert(pids@[had.len() as int] == item);
                    }
                }
            }
        } else {
            assert(had.contains(pid));
        }
        assert(seen@ =~= pids@.to_set());
        i = i + 1;
    }
    assert(all.take(all.len() as int) =~= all);
    pids
}

} // verus!
