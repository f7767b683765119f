//! A tree of windows as lines of text.

use vstd::prelude::*;
use vstd::string::StringExecFns;

use crate::text;
use crate::text_laws;
use crate::tree_laws;
use crate::window;
use crate::window::{WindowInfo, WindowNode};

verus! {

/// The line about a window.
pub open spec fn window_line(window: WindowNode, margin: Seq<char>) -> Seq<char> {
    margin + "- id="@ + text::decimal(window.id as int) + " title="@ + text::quoted(window.title)
        + " app="@ + text::quoted(window.app_name) + " pos=("@ + text::decimal(window.x as int)
        + ", "@ + text::decimal(window.y as int) + ", "@ + text::decimal(window.z as int)
        + ") size="@ + text::decimal(window.width as int) + "x"@ + text::decimal(
        window.height as int,
    ) + " state=("@ + text::truth(window.is_minimized) + ", "@ + text::truth(window.is_maximized)
        + ", "@ + text::truth(window.is_focused) + ")"@
}

/// The lines about windows: one for each, followed by those about the windows under it, which stand
/// further to the right.
pub open spec fn tree_lines(windows: Seq<WindowNode>, margin: Seq<char>) -> Seq<Seq<char>>
    decreases windows,
{
    if windows.len() == 0 {
        Seq::empty()
    } else {
        tree_lines(windows.drop_last(), margin).push(window_line(windows.last(), margin))
            + tree_lines(windows.last().children, margin + "  "@)
    }
}

/// Writes the line about a window.
fn write_window_line(window: &WindowInfo, margin: &str) -> (line: String)
    ensures
        line@ == window_line(window@, margin@),
{
    let mut line = margin.to_owned();
    line.append("- id=");
    text::push_count(&mut line, window.id as u64);
    line.append(" title=");
    text::push_quoted(&mut line, window.title.as_str());
    line.append(" app=");
    text::push_quoted(&mut line, window.app_name.as_str());
    line.append(" pos=(");
    text::push_decimal(&mut line, window.x as i64);
    line.append(", ");
    text::push_decimal(&mut line, window.y as i64);
    line.append(", ");
    text::push_decimal(&mut line, window.z as i64);
    line.append(") size=");
    text::push_count(&mut line, window.width as u64);
    line.append("x");
    text::push_count(&mut line, window.height as u64);
    line.append(" state=(");
    text::push_truth(&mut line, window.is_minimized);
    line.append(", ");
    text::push_truth(&mut line, window.is_maximized);
    line.append(", ");
    text::push_truth(&mut line, window.is_focused);
    line.append(")");
    line
}

/// The lines about windows: one for each, followed by those about the windows under it, which stand
/// further to the right.
pub fn window_tree_lines(windows: &Vec<WindowInfo>, margin: &str) -> (lines: Vec<String>)
    ensures
        text::texts(lines@) == tree_lines(window::nodes(windows@), margin@),
    decreases *windows,
{
    let ghost all = window::nodes(windows@);
    let mut lines: Vec<String> = Vec::new();
    let mut i: usize = 0;
    assert(text::texts(lines@) =~= tree_lines(all.take(0), margin@));
    while i < windows.len()
        invariant
            i <= windows.len(),
            all == window::nodes(windows@),
            text::texts(lines@) == tree_lines(all.take(i as int), margin@),
        decreases windows.len() - i,
    {
        let ghost before = text::texts(lines@);
        let line = write_window_line(&windows[i], margin);
        lines.push(line);
        assert(text::texts(lines@) =~= before.push(line@));
        let wider = margin.to_owned().concat("  ");
        let mut below = window_tree_lines(&windows[i].children, wider.as_str());
        let ghost so_far = text::texts(lines@);
        let ghost under = text::texts(below@);
        lines.append(&mut below);
        proof {
            windows@[i as int].lemma_children();
            assert(text::texts(lines@) =~= so_far + under);
            assert(all.take(i + 1).drop_last() =~= all.take(i as int));
            assert(all.take(i + 1).last() == windows@[i as int]@);
        }
        i = i + 1;
    }
    assert(all.take(i as int) =~= all);
    lines
}

/// There is one line for each window of the tree.
pub proof fn law_one_line_for_each_window(windows: Seq<WindowNode>, margin: Seq<char>)
    ensures
        tree_lines(windows, margin).len() == tree_laws::preorder(windows).len(),
    decreases windows,
{
    if windows.len() > 0 {
        law_one_line_for_each_window(windows.drop_last(), margin);
        law_one_line_for_each_window(windows.last().children, margin + "  "@);
    }
}

/// How far to the right the windows of a tree stand, read from top to bottom.
pub open spec fn depths(windows: Seq<WindowNode>, depth: nat) -> Seq<nat>
    decreases windows,
{
    if windows.len() == 0 {
        Seq::empty()
    } else {
        depths(windows.drop_last(), depth).push(depth) + depths(
            windows.last().children,
            depth + 1,
        )
    }
}

/// Read from top to bottom, the lines are those of the windows of the tree, and each stands two spaces
/// further to the right for every window that its window is under.
pub proof fn law_lines_follow_the_tree(windows: Seq<WindowNode>, margin: Seq<char>, depth: nat)
    ensures
        ({
            let lines = tree_lines(windows, margin + text::margin(depth));
            let order = tree_laws::preorder(windows);
            let places = depths(windows, depth);
            &&& lines.len() == order.len()
            &&& lines.len() == places.len()
            &&& forall|k: int|
                0 <= k < lines.len() ==> #[trigger] lines[k] == window_line(
                    order[k],
                    margin + text::margin(places[k]),
                )
        }),
    decreases windows,
{
    if windows.len() > 0 {
        reveal_strlit("  ");
        let before = windows.drop_last();
        let last = windows.last();
        let here = margin + text::margin(depth);
        law_lines_follow_the_tree(before, margin, depth);
        law_lines_follow_the_tree(last.children, margin, depth + 1);
        assert(here + "  "@ =~= margin + text::margin(depth + 1));
        let lines = tree_lines(windows, here);
        let order = tree_laws::preorder(windows);
        let places = depths(windows, depth);
        let count = tree_lines(before, here).len() as int;
        assert forall|k: int| 0 <= k < lines.len() implies #[trigger] lines[k] == window_line(
            order[k],
            margin + text::margin(places[k]),
        ) by {
            if k < count {
                assert(lines[k] == tree_lines(before, here)[k]);
                assert(order[k] == tree_laws::preorder(before)[k]);
                assert(places[k] == depths(before, depth)[k]);
            } else if k == count {
                assert(order[k] == last.with_children(Seq::empty()));
                assert(places[k] == depth);
            } else {
                let j = k - count - 1;
                assert(lines[k] == tree_lines(last.children, here + "  "@)[j]);
                assert(order[k] == tree_laws::preorder(last.children)[j]);
                assert(places[k] == depths(last.children, depth + 1)[j]);
            }
        }
    }
}

/// The line about a window tells its id, title, application, place, size and state, in this order.
pub proof fn law_line_tells_the_window(window: WindowNode, margin: Seq<char>)
    ensures
        window_line(window, margin) == text_laws::joined(
            seq![
                margin,
                "- id="@,
                text::decimal(window.id as int),
                " title="@,
                text::quoted(window.title),
                " app="@,
                text::quoted(window.app_name),
                " pos=("@,
                text::decimal(window.x as int),
                ", "@,
                text::decimal(window.y as int),
                ", "@,
                text::decimal(window.z as int),
                ") size="@,
                text::decimal(window.width as int),
                "x"@,
                text::decimal(window.height as int),
                " state=("@,
                text::truth(window.is_minimized),
                ", "@,
                text::truth(window.is_maximized),
                ", "@,
                text::truth(window.is_focused),
                ")"@,
            ],
        ),
{
    reveal_with_fuel(text_laws::joined_to, 25);
}

} // verus!
