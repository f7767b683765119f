//! What is told of elements, which of them are recorded, and under which ids.

use vstd::prelude::*;

use crate::text;
use crate::text_laws;
use crate::window::WindowQueryOptions;
use crate::windows::accessibility;
use crate::windows::accessibility::{
    Rect, UiaContext, UiaElement, UiaNode, UiaOut, UiaQueryOptions,
};
use crate::windows::uia_probe;
use crate::windows::uia_probe::Collected;

verus! {

/// A text without the blanks around it; empty where there is none.
pub open spec fn plain(value: Option<String>) -> Seq<char> {
    if value is Some {
        text::trimmed(value->0@)
    } else {
        Seq::empty()
    }
}

/// What is known of an element is what could be read of it, its texts without the blanks around them.
pub proof fn law_element_is_as_it_was_read(element: UiaElement)
    ensures
        element@.name == plain(element.name),
        element@.automation_id == plain(element.automation_id),
        element@.class_name == plain(element.class_name),
        element@.control_type == plain(element.control_type),
        element.hwnd matches Some(hwnd) ==> element@.hwnd == hwnd,
        element.hwnd is None ==> element@.hwnd == 0,
        element@.rect == element.rect,
        element@.is_offscreen <==> element.is_offscreen == Some(true),
        element@.pid == element.pid,
        element@.has_focus <==> element.has_focus == Some(true),
{
}

/// An element is called by its name; without one by its automation id, without that by its class, and
/// without that by its kind.
pub proof fn law_elements_are_called_by_what_they_have(element: UiaNode)
    ensures
        ({
            let title = accessibility::element_title(element);
            &&& element.name.len() > 0 ==> title == element.name
            &&& element.name.len() == 0 ==> {
                &&& element.automation_id.len() > 0 ==> title == element.automation_id
                &&& element.automation_id.len() == 0 ==> {
                    &&& element.class_name.len() > 0 ==> title == element.class_name
                    &&& element.class_name.len() == 0 ==> title == element.control_type
                }
            }
        }),
{
}

/// A rectangle has an extent where it is wide and high: it begins at its left and upper edges, and
/// reaches to the other two.
pub proof fn law_rectangles_reach_to_their_edges(rect: Rect)
    ensures
        accessibility::dimensions(rect) is Some <==> rect.left < rect.right && rect.top
            < rect.bottom,
        (rect.measurable() && accessibility::dimensions(rect) is Some) ==> ({
            let (x, y, width, height) = accessibility::dimensions(rect)->0;
            &&& x == rect.left
            &&& y == rect.top
            &&& x + width == rect.right
            &&& y + height == rect.bottom
        }),
{
}

/// An element is passed over where it is the window itself. It is passed over where it cannot be seen
/// or belongs to another process too, unless filtering is relaxed; and for no other reason.
pub proof fn law_which_elements_are_passed_over(context: UiaContext, element: UiaNode)
    ensures
        element.hwnd == context.root_hwnd ==> accessibility::is_passed_over(context, element),
        element.hwnd != context.root_hwnd && context.options.relaxed_filtering
            ==> !accessibility::is_passed_over(context, element),
        element.hwnd != context.root_hwnd && !context.options.relaxed_filtering ==> {
            &&& element.is_offscreen ==> accessibility::is_passed_over(context, element)
            &&& !element.is_offscreen && element.pid is None ==> !accessibility::is_passed_over(
                context,
                element,
            )
            &&& (!element.is_offscreen && element.pid is Some) ==> (accessibility::is_passed_over(
                context,
                element,
            ) <==> element.pid->0 > 0 && element.pid->0 as int != context.root_pid as int)
        },
{
}

/// The edges of an element; all of them zero where they are not known.
pub open spec fn edges(element: UiaNode) -> (int, int, int, int) {
    match element.rect {
        Some(rect) => (
            rect.left as int,
            rect.top as int,
            rect.right as int,
            rect.bottom as int,
        ),
        None => (0int, 0int, 0int, 0int),
    }
}

/// Whether a text holds no bar.
pub open spec fn no_bar(text: Seq<char>) -> bool {
    forall|i: int| 0 <= i < text.len() ==> #[trigger] text[i] != '|'
}

proof fn lemma_split(a: Seq<char>, b: Seq<char>, c: Seq<char>, d: Seq<char>)
    requires
        no_bar(a),
        no_bar(c),
        a + (seq!['|'] + b) == c + (seq!['|'] + d),
    ensures
        a == c,
        b == d,
{
    let one = a + (seq!['|'] + b);
    let other = c + (seq!['|'] + d);
    assert(one[a.len() as int] == '|');
    assert(other[c.len() as int] == '|');
    if a.len() < c.len() {
        assert(other[a.len() as int] == c[a.len() as int]);
    } else if c.len() < a.len() {
        assert(one[c.len() as int] == a[c.len() as int]);
    }
    assert forall|i: int| 0 <= i < a.len() implies a[i] == c[i] by {
        assert(one[i] == a[i]);
        assert(other[i] == c[i]);
    }
    assert(a =~= c);
    assert(b =~= one.skip(a.len() as int + 1));
    assert(d =~= other.skip(c.len() as int + 1));
}

proof fn lemma_decimal_has_no_bar(value: int)
    ensures
        no_bar(text::decimal(value)),
{
    text_laws::law_written_numbers_read_back(value);
    let digits = text::decimal(value);
    assert forall|i: int| 0 <= i < digits.len() implies #[trigger] digits[i] != '|' by {
        if value >= 0 {
            assert(text_laws::digit_value(digits[i]) >= 0);
        } else if i > 0 {
            assert(digits.drop_first()[i - 1] == digits[i]);
            assert(text_laws::digit_value(digits.drop_first()[i - 1]) >= 0);
        }
    }
}

proof fn lemma_decimal_is_unique(one: int, other: int)
    requires
        text::decimal(one) == text::decimal(other),
    ensures
        one == other,
{
    text_laws::law_written_numbers_read_back(one);
    text_laws::law_written_numbers_read_back(other);
    let digits = text::decimal(one);
    if one >= 0 && other < 0 {
        assert(text_laws::digit_value(digits[0]) >= 0);
    }
    if one < 0 && other >= 0 {
        assert(text_laws::digit_value(digits[0]) >= 0);
    }
}

/// The parts of the key of an element, from one on.
spec fn key_from(element: UiaNode, part: nat) -> Seq<char>
    decreases 8 - part,
{
    let (left, top, right, bottom) = edges(element);
    if part >= 7 {
        text::decimal(bottom)
    } else {
        key_part(element, part) + (seq!['|'] + key_from(element, part + 1))
    }
}

spec fn key_part(element: UiaNode, part: nat) -> Seq<char> {
    let (left, top, right, bottom) = edges(element);
    if part == 0 {
        text::decimal(element.hwnd as int)
    } else if part == 1 {
        element.automation_id
    } else if part == 2 {
        element.class_name
    } else if part == 3 {
        element.name
    } else if part == 4 {
        text::decimal(left)
    } else if part == 5 {
        text::decimal(top)
    } else {
        text::decimal(right)
    }
}

proof fn lemma_regrouped(a: Seq<char>, b: Seq<char>, c: Seq<char>, d: Seq<char>)
    ensures
        a + (b + (c + d)) == ((a + b) + c) + d,
{
    assert(a + (b + (c + d)) =~= ((a + b) + c) + d);
}

proof fn lemma_key_parts(element: UiaNode)
    ensures
        accessibility::element_key(element) == key_from(element, 0),
{
    reveal_strlit("|");
    assert("|"@ =~= seq!['|']);
    let bar = seq!['|'];
    let (left, top, right, bottom) = edges(element);
    let to_id = text::decimal(element.hwnd as int) + bar;
    let to_class = (to_id + element.automation_id) + bar;
    let to_name = (to_class + element.class_name) + bar;
    let to_left = (to_name + element.name) + bar;
    let to_top = (to_left + text::decimal(left)) + bar;
    let to_right = (to_top + text::decimal(top)) + bar;
    let to_bottom = (to_right + text::decimal(right)) + bar;
    assert(accessibility::element_key(element) == to_bottom + text::decimal(bottom));
    lemma_regrouped(to_right, text::decimal(right), bar, key_from(element, 7));
    lemma_regrouped(to_top, text::decimal(top), bar, key_from(element, 6));
    lemma_regrouped(to_left, text::decimal(left), bar, key_from(element, 5));
    lemma_regrouped(to_name, element.name, bar, key_from(element, 4));
    lemma_regrouped(to_class, element.class_name, bar, key_from(element, 3));
    lemma_regrouped(to_id, element.automation_id, bar, key_from(element, 2));
    let first = text::decimal(element.hwnd as int);
    assert(first + (bar + key_from(element, 1)) =~= to_id + key_from(element, 1));
    assert(key_from(element, 7) == text::decimal(bottom));
    assert(key_from(element, 6) == text::decimal(right) + (bar + key_from(element, 7)));
    assert(key_from(element, 5) == text::decimal(top) + (bar + key_from(element, 6)));
    assert(key_from(element, 4) == text::decimal(left) + (bar + key_from(element, 5)));
    assert(key_from(element, 3) == element.name + (bar + key_from(element, 4)));
    assert(key_from(element, 2) == element.class_name + (bar + key_from(element, 3)));
    assert(key_from(element, 1) == element.automation_id + (bar + key_from(element, 2)));
    assert(key_from(element, 0) == first + (bar + key_from(element, 1)));
}

/// Whether no bar stands in the parts of a key.
spec fn no_bar_in_parts(element: UiaNode) -> bool {
    forall|part: nat| part < 7 ==> no_bar(#[trigger] key_part(element, part))
}

proof fn lemma_key_from(one: UiaNode, other: UiaNode, part: nat)
    requires
        part <= 7,
        no_bar_in_parts(one),
        no_bar_in_parts(other),
        key_from(one, part) == key_from(other, part),
    ensures
        forall|p: nat| part <= p < 7 ==> #[trigger] key_part(one, p) == key_part(other, p),
        edges(one).3 == edges(other).3,
    decreases 8 - part,
{
    if part >= 7 {
        lemma_decimal_is_unique(edges(one).3, edges(other).3);
    } else {
        assert(no_bar(key_part(one, part)));
        assert(no_bar(key_part(other, part)));
        lemma_split(
            key_part(one, part),
            key_from(one, part + 1),
            key_part(other, part),
            key_from(other, part + 1),
        );
        lemma_key_from(one, other, part + 1);
    }
}

proof fn lemma_no_bar_in_parts(element: UiaNode)
    requires
        no_bar(element.automation_id),
        no_bar(element.class_name),
        no_bar(element.name),
    ensures
        no_bar_in_parts(element),
{
    lemma_decimal_has_no_bar(element.hwnd as int);
    lemma_decimal_has_no_bar(edges(element).0);
    lemma_decimal_has_no_bar(edges(element).1);
    lemma_decimal_has_no_bar(edges(element).2);
}

/// Elements with the same window, names and edges have the same key. Where no bar stands in the names,
/// elements that differ in any of them have different keys.
pub proof fn law_keys_tell_elements_apart(one: UiaNode, other: UiaNode)
    ensures
        one.hwnd == other.hwnd && one.automation_id == other.automation_id && one.class_name
            == other.class_name && one.name == other.name && edges(one) == edges(other)
            ==> accessibility::element_key(one) == accessibility::element_key(other),
        (no_bar(one.automation_id) && no_bar(one.class_name) && no_bar(one.name) && no_bar(
            other.automation_id,
        ) && no_bar(other.class_name) && no_bar(other.name) && accessibility::element_key(one)
            == accessibility::element_key(other)) ==> {
            &&& one.hwnd == other.hwnd
            &&& one.automation_id == other.automation_id
            &&& one.class_name == other.class_name
            &&& one.name == other.name
            &&& edges(one) == edges(other)
        },
{
    lemma_key_parts(one);
    lemma_key_parts(other);
    if no_bar(one.automation_id) && no_bar(one.class_name) && no_bar(one.name) && no_bar(
        other.automation_id,
    ) && no_bar(other.class_name) && no_bar(other.name) && accessibility::element_key(one)
        == accessibility::element_key(other) {
        lemma_no_bar_in_parts(one);
        lemma_no_bar_in_parts(other);
        lemma_key_from(one, other, 0);
        assert(key_part(one, 0) == key_part(other, 0));
        assert(key_part(one, 1) == key_part(other, 1));
        assert(key_part(one, 2) == key_part(other, 2));
        assert(key_part(one, 3) == key_part(other, 3));
        assert(key_part(one, 4) == key_part(other, 4));
        assert(key_part(one, 5) == key_part(other, 5));
        assert(key_part(one, 6) == key_part(other, 6));
        lemma_decimal_is_unique(one.hwnd as int, other.hwnd as int);
        lemma_decimal_is_unique(edges(one).0, edges(other).0);
        lemma_decimal_is_unique(edges(one).1, edges(other).1);
        lemma_decimal_is_unique(edges(one).2, edges(other).2);
    }
}

/// The id that is handed out is not in use, and all from the next one up to it are; where the last of
/// all ids is reached, the search goes on from zero. The id that is tried next is the one after it.
pub proof fn law_first_free_id_is_handed_out(next_id: u32, used_ids: Set<u32>)
    requires
        exists|free: u32| !used_ids.contains(free),
    ensures
        ({
            let id = accessibility::free_id(next_id, used_ids);
            &&& !used_ids.contains(id)
            &&& next_id <= id ==> forall|k: u32| next_id <= k < id ==> used_ids.contains(k)
            &&& id < next_id ==> forall|k: u32| next_id <= k || k < id ==> used_ids.contains(k)
            &&& id < u32::MAX ==> accessibility::id_after(id, 1) == id + 1
            &&& id == u32::MAX ==> accessibility::id_after(id, 1) == 0
        }),
{
    accessibility::lemma_free_id_is_unused(next_id, used_ids);
    let id = accessibility::free_id(next_id, used_ids);
    let steps = choose|steps: nat| accessibility::first_unused(next_id, used_ids, id, steps);
    assert forall|k: u32|
        (next_id <= id && next_id <= k < id) || (id < next_id && (next_id <= k || k
            < id)) implies used_ids.contains(k) by {
        let distance: nat = if k >= next_id {
            (k - next_id) as nat
        } else {
            (k + 0x1_0000_0000 - next_id) as nat
        };
        assert(accessibility::id_after(next_id, distance) == k);
        assert(distance < steps);
    }
}

/// A search goes five levels deep, and a deep one eight; and at most 512 elements of a window are
/// recorded.
pub proof fn law_limits_of_a_search(options: UiaQueryOptions)
    ensures
        accessibility::depth_limit(options) == (if options.deep_children {
            8nat
        } else {
            5nat
        }),
        accessibility::MAX_UIA_NODES_PER_WINDOW == 512,
{
}

/// An element that has not been met, is not passed over and has an extent becomes the next record: it
/// is told with its own title, place and size, and with the process and application of its window,
/// stands under the element above it, takes the first free id, and what is under it is recorded under
/// that. Any other adds no record; what is under it is looked at only by a deep search, where it has
/// not been met and is not passed over, and is recorded under the element above. Either way it counts
/// as met.
pub proof fn law_elements_become_records(
    context: UiaContext,
    out: UiaOut,
    element: UiaNode,
    parent_id: u32,
    z: i32,
)
    requires
        element.rect matches Some(rect) ==> rect.measurable(),
    ensures
        ({
            let (after, descend) = accessibility::uia_visit(
                context,
                out,
                element,
                parent_id,
                z as int,
            );
            let key = accessibility::element_key(element);
            let is_met = out.seen.contains(key);
            let looked_at = !is_met && !accessibility::is_passed_over(context, element);
            let has_extent = element.rect matches Some(rect) && rect.left < rect.right && rect.top
                < rect.bottom;
            &&& after.seen == out.seen.insert(key)
            &&& if looked_at && has_extent {
                let id = accessibility::free_id(out.next_id, out.used_ids);
                let record = after.records.last();
                &&& after.records.len() == out.records.len() + 1
                &&& after.records.drop_last() == out.records
                &&& record.parent_id == Some(parent_id)
                &&& record.info.id == id
                &&& record.info.pid == context.root_pid
                &&& record.info.app_name == context.root_app_name
                &&& record.info.title == accessibility::element_title(element)
                &&& record.info.x == element.rect->0.left
                &&& record.info.y == element.rect->0.top
                &&& record.info.x + record.info.width == element.rect->0.right
                &&& record.info.y + record.info.height == element.rect->0.bottom
                &&& record.info.z == z
                &&& !record.info.is_minimized
                &&& !record.info.is_maximized
                &&& record.info.is_focused == element.has_focus
                &&& record.info.children.len() == 0
                &&& after.used_ids == out.used_ids.insert(id)
                &&& after.next_id == accessibility::id_after(id, 1)
                &&& descend == Some(id)
            } else {
                &&& after.records == out.records
                &&& after.used_ids == out.used_ids
                &&& after.next_id == out.next_id
                &&& descend == (if looked_at && context.options.deep_children {
                    Some(parent_id)
                } else {
                    None
                })
            }
        }),
{
    let (after, descend) = accessibility::uia_visit(context, out, element, parent_id, z as int);
    if after.records.len() > out.records.len() {
        assert(after.records.drop_last() =~= out.records);
    }
}

/// Of two attempts the one with more records counts, and the earlier one where they have equally many.
pub proof fn law_more_records_count(best: Collected, attempt: Collected)
    ensures
        attempt.records.len() > best.records.len() ==> uia_probe::better(best, attempt) == attempt,
        attempt.records.len() <= best.records.len() ==> uia_probe::better(best, attempt) == best,
{
}

/// Attempts are made until a time that is given in milliseconds, from now on; without one there is one
/// attempt. They start from the ids that are in use, under the window that the elements are of, and
/// search as the query asks for.
pub proof fn law_how_attempts_start(
    hwnd: usize,
    element: usize,
    parent_id: u32,
    root_pid: u32,
    root_app_name: Seq<char>,
    options: WindowQueryOptions,
    next_id: u32,
    used_ids: Set<u32>,
    now: u128,
)
    ensures
        ({
            let start = uia_probe::probe_start(
                hwnd,
                element,
                parent_id,
                root_pid,
                root_app_name,
                options,
                next_id,
                used_ids,
                now,
            );
            &&& start.element == element
            &&& start.parent_id == parent_id
            &&& start.context.root_hwnd == hwnd
            &&& start.context.root_pid == root_pid
            &&& start.context.root_app_name == root_app_name
            &&& start.context.options.deep_children == options.deep_children
            &&& start.context.options.relaxed_filtering == options.relaxed_filtering
            &&& start.base.records.len() == 0
            &&& start.base.next_id == next_id
            &&& start.base.used_ids == used_ids
            &&& start.best == start.base
            &&& match options.probe_timeout_ms {
                Some(timeout_ms) => if timeout_ms == 0 {
                    start.deadline is None
                } else {
                    start.deadline == Some(now + timeout_ms * 1_000_000)
                },
                None => start.deadline is None,
            }
        }),
{
}

} // verus!
