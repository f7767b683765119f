//! Lines that tell which windows are left out of a query, and why.

use vstd::prelude::*;
use vstd::string::StringExecFns;

use crate::error::{XCapError, XCapResult};
use crate::text;
use crate::text_laws;
use crate::window::WindowQueryOptions;
use crate::windows::accessibility::Rect;
use crate::windows::validity;
use crate::windows::validity::Standing;
use crate::windows::wide;

verus! {

/// What the system tells of a window under a window.
#[derive(Debug)]
pub struct ChildReading {
    pub hwnd: usize,
    /// The name of its class, as the system has written it.
    pub class_name: Vec<u16>,
    pub title: XCapResult<String>,
    pub standing: Standing,
}

/// What the system tells of a window on the desktop.
#[derive(Debug)]
pub struct WindowReading {
    pub hwnd: usize,
    pub title: XCapResult<String>,
    pub app_name: XCapResult<String>,
    pub bounds: XCapResult<Rect>,
    pub children: Vec<ChildReading>,
}

/// A text; empty in place of an error.
pub open spec fn or_empty(text: XCapResult<String>) -> Seq<char> {
    match text {
        Ok(text) => text@,
        Err(_) => Seq::empty(),
    }
}

/// Appends a text between quotation marks; an empty one in place of an error.
fn push_quoted_or_empty(line: &mut String, text: &XCapResult<String>)
    ensures
        final(line)@ == old(line)@ + text::quoted(or_empty(*text)),
{
    match text {
        Ok(text) => text::push_quoted(line, text.as_str()),
        Err(_) => {
            let none = String::new();
            assert(none@ =~= Seq::empty());
            text::push_quoted(line, none.as_str());
        },
    }
}

/// How a handle is written.
pub open spec fn handle_text(hwnd: usize) -> Seq<char> {
    "HWND(0x"@ + text::hexadecimal(hwnd as nat) + ")"@
}

/// Appends a handle.
fn push_handle(line: &mut String, hwnd: usize)
    ensures
        final(line)@ == old(line)@ + handle_text(hwnd),
{
    line.append("HWND(0x");
    text::push_hexadecimal(line, hwnd as u64);
    line.append(")");
    assert(line@ =~= old(line)@ + handle_text(hwnd));
}

/// How the edges of a window are written, where they are known.
pub open spec fn edges_text(bounds: XCapResult<Rect>) -> Seq<char> {
    match bounds {
        Ok(rect) => "Some(("@ + text::decimal(rect.left as int) + ", "@ + text::decimal(
            rect.top as int,
        ) + ", "@ + text::decimal(rect.right as int) + ", "@ + text::decimal(rect.bottom as int)
            + "))"@,
        Err(_) => "None"@,
    }
}

/// Appends the edges of a window, where they are known.
fn push_edges(line: &mut String, bounds: &XCapResult<Rect>)
    ensures
        final(line)@ == old(line)@ + edges_text(*bounds),
{
    match bounds {
        Ok(rect) => {
            line.append("Some((");
            text::push_decimal(line, rect.left as i64);
            line.append(", ");
            text::push_decimal(line, rect.top as i64);
            line.append(", ");
            text::push_decimal(line, rect.right as i64);
            line.append(", ");
            text::push_decimal(line, rect.bottom as i64);
            line.append("))");
        },
        Err(_) => {
            line.append("None");
        },
    }
    assert(line@ =~= old(line)@ + edges_text(*bounds));
}

/// How many of the windows under a window are reported.
pub open spec fn kept_count(children: Seq<ChildReading>) -> nat
    decreases children.len(),
{
    if children.len() == 0 {
        0
    } else {
        kept_count(children.drop_last()) + (if validity::filter_reason(
            children.last().standing,
        ) is None {
            1nat
        } else {
            0nat
        })
    }
}

/// How many of the windows under a window are reported.
fn count_kept(children: &Vec<ChildReading>) -> (count: usize)
    ensures
        count == kept_count(children@),
{
    let mut count: usize = 0;
    let mut i: usize = 0;
    while i < children.len()
        invariant
            count <= i <= children.len(),
            count == kept_count(children@.take(i as int)),
        decreases children.len() - i,
    {
        assert(children@.take(i + 1).drop_last() =~= children@.take(i as int));
        if validity::is_valid_child_window(&children[i].standing) {
            count = count + 1;
        }
        i = i + 1;
    }
    assert(children@.take(i as int) =~= children@);
    count
}

/// The line about a window on the desktop.
pub open spec fn top_line(window: WindowReading, options: WindowQueryOptions) -> Seq<char> {
    "top hwnd="@ + handle_text(window.hwnd) + " title="@ + text::quoted(or_empty(window.title))
        + " app="@ + text::quoted(or_empty(window.app_name)) + " bounds="@ + edges_text(
        window.bounds,
    ) + " include_children="@ + text::truth(options.include_children) + " total_children="@
        + text::decimal(window.children@.len() as int) + " kept_children="@ + text::decimal(
        kept_count(window.children@) as int,
    )
}

/// Writes the line about a window on the desktop.
fn write_top_line(window: &WindowReading, options: &WindowQueryOptions) -> (line: String)
    ensures
        line@ == top_line(*window, *options),
{
    let mut line = "top hwnd=".to_owned();
    push_handle(&mut line, window.hwnd);
    line.append(" title=");
    push_quoted_or_empty(&mut line, &window.title);
    line.append(" app=");
    push_quoted_or_empty(&mut line, &window.app_name);
    line.append(" bounds=");
    push_edges(&mut line, &window.bounds);
    line.append(" include_children=");
    text::push_truth(&mut line, options.include_children);
    line.append(" total_children=");
    text::push_count(&mut line, window.children.len() as u64);
    line.append(" kept_children=");
    text::push_count(&mut line, count_kept(&window.children) as u64);
    line
}

/// What a window under a window is marked with: why it is not reported, or that it is.
pub open spec fn verdict(standing: Standing) -> Seq<char> {
    match validity::filter_reason(standing) {
        Some(reason) => reason,
        None => "accepted"@,
    }
}

/// The line about a window under a window.
pub open spec fn child_line(child: ChildReading) -> Seq<char> {
    "  child hwnd="@ + handle_text(child.hwnd) + " class="@ + text::quoted(
        wide::written_or_empty(child.class_name@),
    ) + " title="@ + text::quoted(or_empty(child.title)) + " bounds="@ + edges_text(
        child.standing.bounds,
    ) + " kept="@ + text::truth(validity::filter_reason(child.standing) is None) + " reason="@
        + verdict(child.standing)
}

/// Writes the line about a window under a window.
fn write_child_line(child: &ChildReading) -> (line: String)
    ensures
        line@ == child_line(*child),
{
    let reason = validity::child_window_filter_reason(&child.standing);
    let mut line = "  child hwnd=".to_owned();
    push_handle(&mut line, child.hwnd);
    line.append(" class=");
    text::push_quoted(&mut line, validity::get_class_name(&child.class_name).as_str());
    line.append(" title=");
    push_quoted_or_empty(&mut line, &child.title);
    line.append(" bounds=");
    push_edges(&mut line, &child.standing.bounds);
    line.append(" kept=");
    text::push_truth(&mut line, reason.is_none());
    line.append(" reason=");
    line.append(
        match reason {
            Some(reason) => reason,
            None => "accepted",
        },
    );
    line
}

/// The lines about windows on the desktop: one for each, followed by one for each window under it.
pub open spec fn all_lines(windows: Seq<WindowReading>, options: WindowQueryOptions) -> Seq<Seq<char>>
    decreases windows.len(),
{
    if windows.len() == 0 {
        Seq::empty()
    } else {
        let window = windows.last();
        all_lines(windows.drop_last(), options).push(top_line(window, options))
            + window.children@.map_values(|child: ChildReading| child_line(child))
    }
}

/// The lines about the windows on the desktop: one for each, followed by one for each window under
/// it. An error in place of the windows is handed on.
pub fn debug_windows_children(
    windows: XCapResult<Vec<WindowReading>>,
    options: &WindowQueryOptions,
) -> (result: XCapResult<Vec<String>>)
    ensures
        match windows {
            Ok(windows) => result matches Ok(lines) && text::texts(lines@) == all_lines(
                windows@,
                *options,
            ),
            Err(failure) => result == Err::<Vec<String>, XCapError>(failure),
        },
{
    let windows = match windows {
        Ok(windows) => windows,
        Err(failure) => {
            return Err(failure);
        },
    };
    let mut lines: Vec<String> = Vec::new();
    let mut i: usize = 0;
    assert(text::texts(lines@) =~= all_lines(windows@.take(0), *options));
    while i < windows.len()
        invariant
            i <= windows.len(),
            text::texts(lines@) == all_lines(windows@.take(i as int), *options),
        decreases windows.len() - i,
    {
        let ghost before = text::texts(lines@);
        let window = &windows[i];
        let ghost about = window.children@.map_values(|child: ChildReading| child_line(child));
        let ghost top = before.push(top_line(*window, *options));
        lines.push(write_top_line(window, options));
        assert(text::texts(lines@) =~= top + about.take(0));
        let mut j: usize = 0;
        while j < window.children.len()
            invariant
                j <= window.children.len(),
                about == window.children@.map_values(|child: ChildReading| child_line(child)),
                text::texts(lines@) == top + about.take(j as int),
            decreases window.children.len() - j,
        {
            let ghost written = text::texts(lines@);
            let line = write_child_line(&window.children[j]);
            lines.push(line);
            assert(text::texts(lines@) =~= written.push(line@));
            assert(about.take(j + 1) =~= about.take(j as int).push(about[j as int]));
            j = j + 1;
            assert(text::texts(lines@) =~= top + about.take(j as int));
        }
        assert(about.take(j as int) =~= about);
        assert(windows@.take(i + 1).drop_last() =~= windows@.take(i as int));
        i = i + 1;
    }
    assert(windows@.take(i as int) =~= windows@);
    Ok(lines)
}

/// The line about a window on the desktop tells its handle, title, application, edges, whether windows
/// under it are asked for, how many there are, and how many of them are reported.
pub proof fn law_line_tells_the_window(window: WindowReading, options: WindowQueryOptions)
    ensures
        top_line(window, options) == text_laws::joined(
            seq![
                "top hwnd="@,
                handle_text(window.hwnd),
                " title="@,
                text::quoted(or_empty(window.title)),
                " app="@,
                text::quoted(or_empty(window.app_name)),
                " bounds="@,
                edges_text(window.bounds),
                " include_children="@,
                text::truth(options.include_children),
                " total_children="@,
                text::decimal(window.children@.len() as int),
                " kept_children="@,
                text::decimal(kept_count(window.children@) as int),
            ],
        ),
        window.title is Err ==> or_empty(window.title).len() == 0,
        window.title matches Ok(title) ==> or_empty(window.title) == title@,
{
    reveal_with_fuel(text_laws::joined_to, 15);
}

/// The line about a window under a window tells its handle, class, title and edges, whether it is
/// reported, and why it is not.
pub proof fn law_line_tells_the_child(child: ChildReading)
    ensures
        child_line(child) == text_laws::joined(
            seq![
                "  child hwnd="@,
                handle_text(child.hwnd),
                " class="@,
                text::quoted(wide::written_or_empty(child.class_name@)),
                " title="@,
                text::quoted(or_empty(child.title)),
                " bounds="@,
                edges_text(child.standing.bounds),
                " kept="@,
                text::truth(validity::filter_reason(child.standing) is None),
                " reason="@,
                verdict(child.standing),
            ],
        ),
        validity::filter_reason(child.standing) is None ==> verdict(child.standing) == "accepted"@,
        validity::filter_reason(child.standing) matches Some(reason) ==> verdict(child.standing)
            == reason,
{
    reveal_with_fuel(text_laws::joined_to, 13);
}

/// Handles are written in hexadecimal notation, and edges from the left one on around.
pub proof fn law_handles_and_edges_are_written(hwnd: usize, rect: Rect)
    ensures
        handle_text(hwnd) == text_laws::joined(
            seq!["HWND(0x"@, text::hexadecimal(hwnd as nat), ")"@],
        ),
        edges_text(Ok(rect)) == text_laws::joined(
            seq![
                "Some(("@,
                text::decimal(rect.left as int),
                ", "@,
                text::decimal(rect.top as int),
                ", "@,
                text::decimal(rect.right as int),
                ", "@,
                text::decimal(rect.bottom as int),
                "))"@,
            ],
        ),
        forall|failure: XCapError| #[trigger] edges_text(Err(failure)) == "None"@,
{
    reveal_with_fuel(text_laws::joined_to, 10);
}

/// As many windows under a window are told to be reported as there are with no reason to leave them
/// out.
pub proof fn law_reported_children_are_counted(children: Seq<ChildReading>)
    ensures
        kept_count(children) == children.filter(
            |child: ChildReading| validity::filter_reason(child.standing) is None,
        ).len(),
    decreases children.len(),
{
    reveal(Seq::filter);
    if children.len() > 0 {
        law_reported_children_are_counted(children.drop_last());
    }
}

/// The lines about windows are those about each of them, one window after the other: first the one
/// about the window, then one about each window under it, in their order.
pub proof fn law_lines_follow_each_other(
    window: WindowReading,
    first: Seq<WindowReading>,
    rest: Seq<WindowReading>,
    options: WindowQueryOptions,
)
    ensures
        ({
            let lines = all_lines(seq![window], options);
            &&& lines.len() == 1 + window.children@.len()
            &&& lines[0] == top_line(window, options)
            &&& forall|i: int|
                0 <= i < window.children@.len() ==> lines[i + 1] == child_line(
                    #[trigger] window.children@[i],
                )
        }),
        all_lines(first + rest, options) == all_lines(first, options) + all_lines(rest, options),
    decreases rest.len(),
{
    reveal_with_fuel(all_lines, 2);
    assert(seq![window].drop_last() =~= Seq::empty());
    if rest.len() == 0 {
        assert(first + rest =~= first);
        assert(all_lines(first + rest, options) =~= all_lines(first, options) + all_lines(
            rest,
            options,
        ));
    } else {
        law_lines_follow_each_other(window, first, rest.drop_last(), options);
        assert((first + rest).drop_last() =~= first + rest.drop_last());
        assert(all_lines(first + rest, options) =~= all_lines(first, options) + all_lines(
            rest,
            options,
        ));
    }
}

} // verus!
