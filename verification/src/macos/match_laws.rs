//! Which window of an application is taken for the one that is meant, and what is told of elements.

use vstd::prelude::*;

use crate::macos::accessibility;
use crate::macos::accessibility::{
    AccessibilityQueryOptions, AccessibilityWindow, AxContext, AxElement, AxNode, AxOut,
    WindowReading,
};
use crate::macos::traversal::Reading;
use crate::text;
use crate::text_laws;
use crate::window::WindowNode;

verus! {

/// Whether one of two texts is the other with something before it or after it.
pub open spec fn are_related(a: Seq<char>, b: Seq<char>) -> bool {
    ||| exists|before: Seq<char>, after: Seq<char>| a == #[trigger] (before + b + after)
    ||| exists|before: Seq<char>, after: Seq<char>| b == #[trigger] (before + a + after)
}

/// The score at the place and of the size of the window itself.
pub open spec fn score_in_place(root: WindowNode, title: Seq<char>) -> int {
    accessibility::score(
        root,
        title,
        root.x as int,
        root.y as int,
        root.width as int,
        root.height as int,
    )
}

/// In the same place and of the same size, a candidate with the title of the window is a perfect
/// match, and so is any where one of the two has no title. One whose title contains that of the
/// window, or is contained in it, is a worse match, one with any other title is a worse one still, and
/// both are good enough.
pub proof fn law_titles_are_graded(root: WindowNode, related: Seq<char>, other: Seq<char>)
    requires
        ({
            let title = text::trimmed(root.title);
            &&& title.len() > 0
            &&& related.len() > 0
            &&& related != title
            &&& are_related(title, related)
            &&& other.len() > 0
            &&& !are_related(title, other)
        }),
    ensures
        score_in_place(root, text::trimmed(root.title)) == 0,
        score_in_place(root, Seq::empty()) == 0,
        0 < score_in_place(root, related),
        score_in_place(root, related) < score_in_place(root, other),
        score_in_place(root, other) < accessibility::MATCH_LIMIT,
        score_in_place(root, related) == 250,
        score_in_place(root, other) == 10000,
        accessibility::MATCH_LIMIT == 20000,
{
    let title = text::trimmed(root.title);
    text_laws::law_what_occurs_stands_between(title, related);
    text_laws::law_what_occurs_stands_between(related, title);
    text_laws::law_what_occurs_stands_between(title, other);
    text_laws::law_what_occurs_stands_between(other, title);
    assert(other != title) by {
        assert(title =~= Seq::empty() + title + Seq::empty());
    }
}

/// A window without a title is told apart by its place and size alone.
pub proof fn law_untitled_window_goes_by_its_place(root: WindowNode, title: Seq<char>)
    requires
        text::trimmed(root.title).len() == 0,
    ensures
        score_in_place(root, title) == 0,
{
}

/// Every pixel that a candidate is off to a side, or larger or smaller, counts for one, whatever its
/// title.
pub proof fn law_every_pixel_counts(
    root: WindowNode,
    title: Seq<char>,
    x: int,
    y: int,
    width: int,
    height: int,
)
    ensures
        accessibility::score(root, title, x, y, width, height) == score_in_place(root, title)
            + vstd::math::abs(x - root.x) + vstd::math::abs(y - root.y) + vstd::math::abs(
            width - root.width,
        ) + vstd::math::abs(height - root.height),
{
}

/// A window of an application is scored by its place and size, and by its title without the blanks
/// around it.
pub proof fn law_window_is_scored_as_it_is(root: WindowNode, candidate: AccessibilityWindow)
    ensures
        accessibility::window_score(root, candidate) == accessibility::score(
            root,
            text::trimmed(candidate.title@),
            candidate.x as int,
            candidate.y as int,
            candidate.width as int,
            candidate.height as int,
        ),
{
}

/// A window of an application is taken for the one that is meant where its score is below the limit,
/// none has a lower score, and it comes before all others with that score.
pub proof fn law_first_of_the_best_is_meant(
    root: WindowNode,
    windows: Seq<AccessibilityWindow>,
    i: int,
)
    requires
        0 <= i < windows.len(),
    ensures
        accessibility::is_match(root, windows, i) <==> accessibility::window_score(
            root,
            windows[i],
        ) < 20000 && forall|j: int|
            0 <= j < windows.len() && j != i ==> {
                let here = accessibility::window_score(root, windows[i]);
                let there = accessibility::window_score(root, #[trigger] windows[j]);
                if j < i {
                    here < there
                } else {
                    here <= there
                }
            },
{
    if accessibility::window_score(root, windows[i]) < 20000 && (forall|j: int|
        0 <= j < windows.len() && j != i ==> {
            let here = accessibility::window_score(root, windows[i]);
            let there = accessibility::window_score(root, #[trigger] windows[j]);
            if j < i {
                here < there
            } else {
                here <= there
            }
        }) {
        assert forall|j: int| 0 <= j < windows.len() implies accessibility::window_score(
            root,
            windows[i],
        ) <= accessibility::window_score(root, #[trigger] windows[j]) by {
            if j != i {
                assert(windows[j] == windows[j]);
            }
        }
    }
}

proof fn lemma_best(root: WindowNode, windows: Seq<AccessibilityWindow>) -> (best: int)
    requires
        windows.len() > 0,
    ensures
        0 <= best < windows.len(),
        forall|j: int|
            0 <= j < windows.len() ==> accessibility::window_score(root, windows[best])
                <= accessibility::window_score(root, #[trigger] windows[j]),
        forall|j: int|
            0 <= j < best ==> accessibility::window_score(root, windows[best])
                < accessibility::window_score(root, #[trigger] windows[j]),
    decreases windows.len(),
{
    let before = windows.drop_last();
    let last = windows.len() - 1;
    if before.len() == 0 {
        0
    } else {
        let best = lemma_best(root, before);
        assert(windows[best] == before[best]);
        assert forall|j: int| 0 <= j < last implies accessibility::window_score(
            root,
            windows[best],
        ) <= accessibility::window_score(root, #[trigger] windows[j]) by {
            assert(before[j] == windows[j]);
        }
        assert forall|j: int| 0 <= j < best implies accessibility::window_score(
            root,
            windows[best],
        ) < accessibility::window_score(root, #[trigger] windows[j]) by {
            assert(before[j] == windows[j]);
        }
        if accessibility::window_score(root, windows[last]) < accessibility::window_score(
            root,
            windows[best],
        ) {
            last
        } else {
            best
        }
    }
}

/// Where a window of an application scores below the limit, there is one that is taken for the one
/// that is meant.
pub proof fn law_good_window_is_found(
    root: WindowNode,
    windows: Seq<AccessibilityWindow>,
    good: int,
)
    requires
        0 <= good < windows.len(),
        accessibility::window_score(root, windows[good]) < 20000,
    ensures
        exists|i: int| #[trigger] accessibility::is_match(root, windows, i),
{
    let best = lemma_best(root, windows);
    assert(windows[good] == windows[good]);
    assert(accessibility::is_match(root, windows, best));
}

/// The only window of an application is taken for the one that is meant where it lies alike and the
/// title of one is the other's with something added, or one of them has no title.
pub proof fn law_only_window_is_meant(root: WindowNode, candidate: AccessibilityWindow)
    requires
        candidate.x == root.x,
        candidate.y == root.y,
        candidate.width == root.width,
        candidate.height == root.height,
        text::trimmed(root.title).len() == 0 || text::trimmed(candidate.title@).len() == 0
            || are_related(text::trimmed(root.title), text::trimmed(candidate.title@)),
    ensures
        accessibility::is_match(root, seq![candidate], 0),
{
    let title = text::trimmed(root.title);
    let other = text::trimmed(candidate.title@);
    text_laws::law_what_occurs_stands_between(title, other);
    text_laws::law_what_occurs_stands_between(other, title);
}

/// What could not be read of a window is empty or at the origin; all else is as it was read.
pub proof fn law_window_is_as_it_was_read(window: AccessibilityWindow, reading: WindowReading)
    requires
        accessibility::read_as(window, reading),
    ensures
        window.element == reading.element,
        reading.title matches Some(title) ==> window.title@ == title@,
        reading.title is None ==> window.title@.len() == 0,
        reading.position matches Some(position) ==> (window.x, window.y) == position,
        reading.position is None ==> window.x == 0 && window.y == 0,
        reading.size matches Some(size) ==> (window.width, window.height) == size,
        reading.size is None ==> window.width == 0 && window.height == 0,
{
}

/// A search reads the children of an element; a deep one also its contents, visible children, rows,
/// columns, tabs, toolbar, sheets and drawer, in this order.
pub proof fn law_lists_that_a_search_reads()
    ensures
        accessibility::listing_attributes(false).len() == 1,
        accessibility::listing_attributes(false)[0] == "AXChildren"@,
        accessibility::listing_attributes(true).len() == 9,
        accessibility::listing_attributes(true)[0] == "AXChildren"@,
        accessibility::listing_attributes(true)[1] == "AXContents"@,
        accessibility::listing_attributes(true)[2] == "AXVisibleChildren"@,
        accessibility::listing_attributes(true)[3] == "AXRows"@,
        accessibility::listing_attributes(true)[4] == "AXColumns"@,
        accessibility::listing_attributes(true)[5] == "AXTabs"@,
        accessibility::listing_attributes(true)[6] == "AXToolbar"@,
        accessibility::listing_attributes(true)[7] == "AXSheets"@,
        accessibility::listing_attributes(true)[8] == "AXDrawer"@,
{
}

/// Lists that are put one after the other keep their elements and their order: one list is itself, and
/// what comes of several is what comes of the first of them, followed by what comes of the rest.
pub proof fn law_lists_follow_each_other(
    list: Vec<usize>,
    first: Seq<Vec<usize>>,
    rest: Seq<Vec<usize>>,
)
    ensures
        accessibility::concatenated(seq![list]) == list@,
        accessibility::concatenated(first + rest) == accessibility::concatenated(first)
            + accessibility::concatenated(rest),
    decreases rest.len(),
{
    reveal_with_fuel(accessibility::concatenated, 2);
    assert(seq![list].drop_last() =~= Seq::empty());
    assert(accessibility::concatenated(seq![list]) =~= list@);
    if rest.len() == 0 {
        assert(first + rest =~= first);
        assert(accessibility::concatenated(first + rest) =~= accessibility::concatenated(first)
            + accessibility::concatenated(rest));
    } else {
        law_lists_follow_each_other(list, first, rest.drop_last());
        assert((first + rest).drop_last() =~= first + rest.drop_last());
        assert(accessibility::concatenated(first + rest) =~= accessibility::concatenated(first)
            + accessibility::concatenated(rest));
    }
}

/// The lines of several windows are those of each, one window after the other.
pub proof fn law_lines_follow_each_other(
    lines: Vec<String>,
    first: Seq<Vec<String>>,
    rest: Seq<Vec<String>>,
)
    ensures
        accessibility::all_texts(seq![lines]) == text::texts(lines@),
        accessibility::all_texts(first + rest) == accessibility::all_texts(first)
            + accessibility::all_texts(rest),
    decreases rest.len(),
{
    reveal_with_fuel(accessibility::all_texts, 2);
    assert(seq![lines].drop_last() =~= Seq::empty());
    assert(accessibility::all_texts(seq![lines]) =~= text::texts(lines@));
    if rest.len() == 0 {
        assert(first + rest =~= first);
        assert(accessibility::all_texts(first + rest) =~= accessibility::all_texts(first)
            + accessibility::all_texts(rest));
    } else {
        law_lines_follow_each_other(lines, first, rest.drop_last());
        assert((first + rest).drop_last() =~= first + rest.drop_last());
        assert(accessibility::all_texts(first + rest) =~= accessibility::all_texts(first)
            + accessibility::all_texts(rest));
    }
}

/// What could not be read of an element is empty, at the origin or false; all else is as it was read.
pub proof fn law_element_is_as_it_was_read(element: AxElement)
    ensures
        element@.title == (match element.title {
            Some(title) => title@,
            None => Seq::empty(),
        }),
        element@.identifier == (match element.identifier {
            Some(identifier) => identifier@,
            None => Seq::empty(),
        }),
        element@.role == (match element.role {
            Some(role) => role@,
            None => Seq::empty(),
        }),
        element@.subrole == (match element.subrole {
            Some(subrole) => subrole@,
            None => Seq::empty(),
        }),
        element.position matches Some(position) ==> element@.position == position,
        element.position is None ==> element@.position == (0i32, 0i32),
        element.size matches Some(size) ==> element@.size == size,
        element.size is None ==> element@.size == (0u32, 0u32),
        element@.minimized <==> element.minimized == Some(true),
        element@.focused <==> element.focused == Some(true),
{
}

/// An element is called by its title; without one by its identifier; without either by its role, with
/// a colon and its subrole where it has one; and by nothing where it has no role.
pub proof fn law_elements_are_called_by_what_they_have(element: AxNode)
    ensures
        element.title.len() > 0 ==> accessibility::display_title(element) == element.title,
        element.title.len() == 0 && element.identifier.len() > 0 ==> accessibility::display_title(
            element,
        ) == element.identifier,
        element.title.len() == 0 && element.identifier.len() == 0 ==> {
            &&& element.role.len() == 0 ==> accessibility::display_title(element).len() == 0
            &&& element.role.len() > 0 && element.subrole.len() == 0
                ==> accessibility::display_title(element) == element.role
            &&& element.role.len() > 0 && element.subrole.len() > 0
                ==> accessibility::display_title(element) == element.role + seq![':']
                + element.subrole
        },
{
    reveal_strlit(":");
    assert(":"@ =~= seq![':']);
}

/// An element that is wide or high is reported. One that is neither is reported only where filtering
/// is relaxed and it has a title, an identifier or a role.
pub proof fn law_which_elements_are_reported(
    options: AccessibilityQueryOptions,
    element: AxNode,
)
    ensures
        element.size.0 > 0 || element.size.1 > 0 ==> accessibility::is_reported(options, element),
        element.size == (0u32, 0u32) && !options.relaxed_filtering ==> !accessibility::is_reported(
            options,
            element,
        ),
        element.size == (0u32, 0u32) && options.relaxed_filtering ==> (accessibility::is_reported(
            options,
            element,
        ) <==> element.title.len() > 0 || element.identifier.len() > 0 || element.role.len() > 0),
{
}

/// An element is told with its own place and size, its own state and the process and application of
/// its window; it has the focus where it says so or is the element that has it.
pub proof fn law_elements_are_told_as_they_are(
    context: AxContext,
    key: usize,
    element: AxNode,
    id: u32,
    z: i32,
)
    ensures
        ({
            let info = accessibility::ax_info(context, key, element, id, z as int);
            &&& info.id == id
            &&& info.pid == context.pid
            &&& info.app_name == context.app_name
            &&& info.title == accessibility::display_title(element)
            &&& (info.x, info.y) == element.position
            &&& (info.width, info.height) == element.size
            &&& info.z == z
            &&& info.is_minimized == element.minimized
            &&& !info.is_maximized
            &&& info.is_focused <==> element.focused || context.focused_element_ptr == Some(key)
            &&& info.children.len() == 0
        }),
{
}

/// An element that is reported becomes the next record, under the element above it and with the next
/// id, and is as many from the last of its list as its height says; what is under it is recorded under
/// its id. One that is not adds nothing; what is under it is looked at only by a deep search, and is
/// recorded under the element above.
pub proof fn law_elements_become_records(
    context: AxContext,
    out: AxOut,
    reading: Reading,
    element: AxNode,
)
    requires
        reading.index < reading.siblings <= i32::MAX,
    ensures
        ({
            let (after, descend) = accessibility::ax_visit(context, out, reading, element);
            if accessibility::is_reported(context.options, element) {
                &&& after.records.len() == out.records.len() + 1
                &&& after.records.drop_last() == out.records
                &&& after.records.last().parent_id == Some(reading.tag)
                &&& after.records.last().info.id == out.next_id
                &&& after.records.last().info.z + reading.index + 1 == reading.siblings
                &&& after.records.last().info == accessibility::ax_info(
                    context,
                    reading.element,
                    element,
                    out.next_id,
                    reading.siblings - reading.index - 1,
                )
                &&& out.next_id < u32::MAX ==> after.next_id == out.next_id + 1
                &&& out.next_id == u32::MAX ==> after.next_id == u32::MAX
                &&& descend == Some(out.next_id)
            } else {
                &&& after == out
                &&& descend == (if context.options.deep_children {
                    Some(reading.tag)
                } else {
                    None
                })
            }
        }),
{
    let (after, descend) = accessibility::ax_visit(context, out, reading, element);
    if accessibility::is_reported(context.options, element) {
        assert(after.records.drop_last() =~= out.records);
    }
}

/// A search goes six levels deep, and a deep one nine. A list of more than 128 entries is read no
/// further, and what is read of a list are its entries that are elements, in order.
pub proof fn law_limits_of_a_search(
    options: AccessibilityQueryOptions,
    entries: Seq<Option<usize>>,
)
    ensures
        accessibility::depth_limit(options) == (if options.deep_children {
            9nat
        } else {
            6nat
        }),
        accessibility::listed_elements(entries).len() <= 128,
        entries.len() <= 128 ==> accessibility::listed_elements(entries) == entries.filter(
            |entry: Option<usize>| entry is Some,
        ).map_values(|entry: Option<usize>| entry->0),
        entries.len() > 128 ==> accessibility::listed_elements(entries)
            == accessibility::listed_elements(entries.take(128)),
{
    let keep = |entry: Option<usize>| entry;
    lemma_filter_map(entries);
    lemma_filter_map(entries.take(128));
}

proof fn lemma_filter_map(entries: Seq<Option<usize>>)
    ensures
        entries.filter_map(|entry: Option<usize>| entry).len() <= entries.len(),
        entries.filter_map(|entry: Option<usize>| entry) == entries.filter(
            |entry: Option<usize>| entry is Some,
        ).map_values(|entry: Option<usize>| entry->0),
    decreases entries.len(),
{
    reveal(Seq::filter);
    if entries.len() > 0 {
        lemma_filter_map(entries.drop_last());
    }
    assert(entries.filter_map(|entry: Option<usize>| entry) =~= entries.filter(
        |entry: Option<usize>| entry is Some,
    ).map_values(|entry: Option<usize>| entry->0));
}

/// Whether `a` occurs in a sequence before `b` does.
pub open spec fn occurs_before<T>(items: Seq<T>, a: T, b: T) -> bool {
    exists|i: int| is_before(items, a, b, i)
}

/// Whether `a` stands at the place `i` of a sequence, and `b` neither there nor before.
pub open spec fn is_before<T>(items: Seq<T>, a: T, b: T, i: int) -> bool {
    &&& 0 <= i < items.len()
    &&& items[i] == a
    &&& forall|j: int| 0 <= j <= i ==> #[trigger] items[j] != b
}

/// Without what occurred before, the items of a sequence come in the order in which each occurs first.
pub proof fn law_first_occurrences_keep_their_order<T>(items: Seq<T>)
    ensures
        forall|a: int, b: int|
            0 <= a < b < accessibility::first_occurrences(items).len() ==> occurs_before(
                items,
                #[trigger] accessibility::first_occurrences(items)[a],
                #[trigger] accessibility::first_occurrences(items)[b],
            ),
    decreases items.len(),
{
    if items.len() > 0 {
        let before = items.drop_last();
        let kept = accessibility::first_occurrences(before);
        let all = accessibility::first_occurrences(items);
        law_first_occurrences_keep_their_order(before);
        accessibility::law_first_occurrences(before);
        assert forall|a: int, b: int| 0 <= a < b < all.len() implies occurs_before(
            items,
            #[trigger] all[a],
            #[trigger] all[b],
        ) by {
            assert(all[a] == kept[a]);
            if b < kept.len() {
                assert(all[b] == kept[b]);
                assert(occurs_before(before, kept[a], kept[b]));
                let i = choose|i: int| is_before(before, kept[a], kept[b], i);
                assert forall|j: int| 0 <= j <= i implies #[trigger] items[j] != all[b] by {
                    assert(before[j] == items[j]);
                }
                assert(is_before(items, all[a], all[b], i));
            } else {
                assert(kept.contains(kept[a]));
                assert(before.contains(kept[a]));
                let i = choose|i: int| 0 <= i < before.len() && before[i] == kept[a];
                assert forall|j: int| 0 <= j <= i implies #[trigger] items[j] != all[b] by {
                    assert(before[j] == items[j]);
                    assert(before.contains(before[j]));
                }
                assert(is_before(items, all[a], all[b], i));
            }
        }
    }
}

/// The line about a window of the window server tells its id, process, title, application, place and
/// size, in this order.
pub proof fn law_line_tells_the_window(root: WindowNode)
    ensures
        accessibility::window_line(root) == text_laws::joined(
            seq![
                "CG window id="@,
                text::decimal(root.id as int),
                " pid="@,
                text::decimal(root.pid as int),
                " title="@,
                text::quoted(root.title),
                " app="@,
                text::quoted(root.app_name),
                " pos=("@,
                text::decimal(root.x as int),
                ", "@,
                text::decimal(root.y as int),
                ") size="@,
                text::decimal(root.width as int),
                "x"@,
                text::decimal(root.height as int),
            ],
        ),
{
    reveal_with_fuel(text_laws::joined_to, 17);
}

/// The line about a window of an application tells its title, place, size and score, in this order.
pub proof fn law_line_tells_the_candidate(
    begin: Seq<char>,
    root: WindowNode,
    candidate: AccessibilityWindow,
)
    ensures
        accessibility::candidate_line(begin, root, candidate) == text_laws::joined(
            seq![
                begin,
                text::quoted(candidate.title@),
                " pos=("@,
                text::decimal(candidate.x as int),
                ", "@,
                text::decimal(candidate.y as int),
                ") size="@,
                text::decimal(candidate.width as int),
                "x"@,
                text::decimal(candidate.height as int),
                " score="@,
                text::decimal(accessibility::window_score(root, candidate)),
            ],
        ),
{
    reveal_with_fuel(text_laws::joined_to, 13);
}

/// The line about an element tells its role, subrole, title, identifier, place, size and state, in this
/// order, and stands further to the right the deeper the element is.
pub proof fn law_line_tells_the_element(element: AxNode, depth: nat)
    ensures
        accessibility::element_line(element, depth) == text_laws::joined(
            seq![
                text::margin(depth + 2),
                "AX child role="@,
                text::quoted(element.role),
                " subrole="@,
                text::quoted(element.subrole),
                " title="@,
                text::quoted(element.title),
                " identifier="@,
                text::quoted(element.identifier),
                " pos=("@,
                text::decimal(element.position.0 as int),
                ", "@,
                text::decimal(element.position.1 as int),
                ") size="@,
                text::decimal(element.size.0 as int),
                "x"@,
                text::decimal(element.size.1 as int),
                " focused="@,
                text::truth(element.focused),
                " minimized="@,
                text::truth(element.minimized),
            ],
        ),
{
    reveal_with_fuel(text_laws::joined_to, 22);
}

/// An element that was seen before is told by where it is kept, and the limit of elements by how many
/// they are.
pub proof fn law_lines_tell_what_is_passed_over(element: usize, depth: nat)
    ensures
        accessibility::skipped_line(element, depth) == text_laws::joined(
            seq![
                text::margin(depth + 2),
                "AX child skipped: cycle detected ptr=0x"@,
                text::hexadecimal(element as nat),
            ],
        ),
        accessibility::stopped_line(depth) == text_laws::joined(
            seq![
                text::margin(depth + 2),
                "AX child traversal stopped: node limit "@,
                text::decimal(1024),
                " reached"@,
            ],
        ),
{
    reveal_with_fuel(text_laws::joined_to, 5);
}

/// Where no window of an application is the one that is meant, a line tells how many there are, and one
/// tells of each, in their order.
pub proof fn law_lines_tell_every_candidate(root: WindowNode, windows: Seq<AccessibilityWindow>)
    ensures
        ({
            let lines = accessibility::unmatched_lines(root, windows);
            &&& lines.len() == 1 + windows.len()
            &&& lines[0] == text_laws::joined(
                seq![
                    "  AX status: no matched AX window among "@,
                    text::decimal(windows.len() as int),
                    " AX windows"@,
                ],
            )
            &&& forall|i: int|
                0 <= i < windows.len() ==> lines[i + 1] == accessibility::candidate_line(
                    "    candidate title="@,
                    root,
                    #[trigger] windows[i],
                )
        }),
{
    reveal_with_fuel(text_laws::joined_to, 4);
}

} // verus!
