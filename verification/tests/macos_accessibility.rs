use std::collections::HashSet;

use xcap::macos::accessibility::{
    accessibility_cache_for, application, ax_array_attribute_elements, ax_child_elements,
    ax_display_title, can_compare, candidate_match_score, child_attributes,
    debug_lines_for_window, debug_lines_for_windows, descendant_records_for_window,
    entries_to_read, match_window, max_ax_depth, next_synthetic_id, AccessibilityQueryOptions,
    AxElement, WindowReading, BASE_MAX_AX_DEPTH, DEEP_MAX_AX_DEPTH, MAX_AX_CHILDREN_PER_NODE,
};
use xcap::macos::traversal::{Step, Traversal, MAX_AX_NODES_PER_WINDOW};
use xcap::window::{WindowInfo, WindowInfoRecord};
use xcap::Window;

struct WindowMatchCandidate<'a> {
    title: &'a str,
    x: i32,
    y: i32,
    width: u32,
    height: u32,
}

fn root_window(title: &str, x: i32, y: i32, width: u32, height: u32) -> WindowInfo {
    WindowInfo {
        id: 1,
        pid: 2,
        app_name: String::from("app"),
        title: String::from(title),
        x,
        y,
        z: 0,
        width,
        height,
        is_minimized: false,
        is_maximized: false,
        is_focused: false,
        children: Vec::new(),
    }
}

fn candidate_score(root: &WindowInfo, candidate: WindowMatchCandidate<'_>) -> i64 {
    candidate_match_score(
        root,
        candidate.title,
        candidate.x,
        candidate.y,
        candidate.width,
        candidate.height,
    )
}

fn base_options() -> AccessibilityQueryOptions {
    AccessibilityQueryOptions {
        deep_children: false,
        relaxed_filtering: false,
    }
}

fn deep_options() -> AccessibilityQueryOptions {
    AccessibilityQueryOptions {
        deep_children: true,
        relaxed_filtering: false,
    }
}

#[test]
fn test_match_score_prefers_exact_title_and_bounds() {
    let root = root_window("Editor", 10, 20, 800, 600);

    assert!(
        candidate_score(
            &root,
            WindowMatchCandidate {
                title: "Editor",
                x: 10,
                y: 20,
                width: 800,
                height: 600,
            }
        ) < candidate_score(
            &root,
            WindowMatchCandidate {
                title: "Other",
                x: 10,
                y: 20,
                width: 800,
                height: 600,
            }
        )
    );
}

#[test]
fn test_cycle_detection_uses_pointer_keys() {
    let ptr = 0x12345usize;
    let mut visited = HashSet::new();

    assert!(visited.insert(ptr));
    assert!(!visited.insert(ptr));

    // An element that lists itself is passed over.
    let mut walk = Traversal::new(ptr, 1, 6);
    assert_eq!(walk.step(), Step::List { element: ptr });
    walk.listed(vec![ptr]);
    assert_eq!(
        walk.step(),
        Step::Skipped {
            element: ptr,
            depth: 0
        }
    );
    assert_eq!(walk.step(), Step::Again);
    assert_eq!(walk.step(), Step::Done);
}

#[test]
fn test_ax_node_limit_is_positive() {
    assert!(MAX_AX_NODES_PER_WINDOW > 0);
    assert!(MAX_AX_NODES_PER_WINDOW >= MAX_AX_CHILDREN_PER_NODE);
}

#[test]
fn test_deep_child_attributes_extend_base_attributes() {
    let base = child_attributes(base_options());
    let deep = child_attributes(deep_options());
    for attr in &base {
        assert!(deep.contains(attr));
    }
    assert!(deep.len() > base.len());
}

#[test]
fn test_next_synthetic_id_is_unique() {
    let mut next_id = 0x8000_0000;
    let first = next_synthetic_id(&mut next_id);
    let second = next_synthetic_id(&mut next_id);

    assert_ne!(first, second);
    assert_eq!(second, first + 1);
}

#[test]
fn test_max_ax_depth_respects_query_options() {
    assert_eq!(
        max_ax_depth(AccessibilityQueryOptions {
            deep_children: false,
            relaxed_filtering: false,
        }),
        BASE_MAX_AX_DEPTH
    );
    assert_eq!(
        max_ax_depth(AccessibilityQueryOptions {
            deep_children: true,
            relaxed_filtering: false,
        }),
        DEEP_MAX_AX_DEPTH
    );
}

#[test]
fn the_last_synthetic_id_is_handed_out_again() {
    let mut next_id = u32::MAX;
    assert_eq!(next_synthetic_id(&mut next_id), u32::MAX);
    assert_eq!(next_synthetic_id(&mut next_id), u32::MAX);
}

#[test]
fn a_perfect_candidate_scores_nothing() {
    let root = root_window(" Editor ", 10, 20, 800, 600);
    assert_eq!(candidate_match_score(&root, "Editor", 10, 20, 800, 600), 0);
    assert_eq!(candidate_match_score(&root, "", 10, 20, 800, 600), 0);
}

#[test]
fn every_pixel_of_difference_counts() {
    let root = root_window("Editor", 10, 20, 800, 600);
    assert_eq!(candidate_match_score(&root, "Editor", 13, 16, 805, 594), 18);
}

#[test]
fn lists_are_cut_and_gaps_are_passed_over() {
    assert_eq!(entries_to_read(-1), 0);
    assert_eq!(entries_to_read(5), 5);
    assert_eq!(entries_to_read(500), MAX_AX_CHILDREN_PER_NODE);
    assert_eq!(
        ax_array_attribute_elements(&vec![Some(3), None, Some(4)]),
        vec![3, 4]
    );
    assert_eq!(
        ax_child_elements(&vec![vec![3, 4], vec![4, 5], vec![3]]),
        vec![3, 4, 5]
    );
}

fn element(title: &str, size: Option<(u32, u32)>) -> AxElement {
    AxElement {
        title: Some(String::from(title)),
        identifier: None,
        role: Some(String::from("AXButton")),
        subrole: None,
        position: Some((5, 6)),
        size,
        minimized: None,
        focused: None,
    }
}

#[test]
fn elements_are_called_by_what_they_have() {
    let mut one = element("Save", Some((1, 1)));
    assert_eq!(ax_display_title(&one), "Save");
    one.title = Some(String::new());
    one.identifier = Some(String::from("save-button"));
    assert_eq!(ax_display_title(&one), "save-button");
    one.identifier = None;
    assert_eq!(ax_display_title(&one), "AXButton");
    one.subrole = Some(String::from("AXCloseButton"));
    assert_eq!(ax_display_title(&one), "AXButton:AXCloseButton");
    one.role = None;
    assert_eq!(ax_display_title(&one), "");
}

fn reading(element: usize, title: &str, x: i32) -> WindowReading {
    WindowReading {
        element,
        title: Some(String::from(title)),
        position: Some((x, 20)),
        size: Some((800, 600)),
    }
}

#[test]
fn the_window_that_looks_most_like_it_is_matched() {
    let root = root_window("Editor", 10, 20, 800, 600);
    let app = application(
        &vec![reading(100, "Other", 10), reading(101, "Editor", 12), reading(102, "Editor", 12)],
        None,
    );
    assert!(can_compare(&root, &app));
    assert_eq!(match_window(&root, &app).map(|window| window.element), Some(101));
    let far = application(&vec![reading(100, "Other", 30000)], None);
    assert!(match_window(&root, &far).is_none());
    assert!(match_window(&root, &application(&Vec::new(), None)).is_none());
}

/// Walks the elements under element 100: 200 and 201, where 201 has no extent and 300 is under it, and
/// 200 lists 100 again.
fn descendants(options: AccessibilityQueryOptions) -> (Vec<WindowInfoRecord>, u32) {
    let root = root_window("Editor", 10, 20, 800, 600);
    let app = application(&vec![reading(100, "Editor", 10)], Some(300));
    let mut walk = match descendant_records_for_window(&root, &app, options, 0x8000_0000) {
        Some(walk) => walk,
        None => panic!("no walk"),
    };
    loop {
        match walk.step() {
            Step::Done => return walk.finish(),
            Step::List { element } => walk.listed(match element {
                100 => vec![200, 201],
                200 => vec![100],
                201 => vec![300],
                _ => Vec::new(),
            }),
            Step::Read(wanted) => walk.read(&match wanted.element {
                201 => element("Group", None),
                _ => element("Button", Some((30, 10))),
            }),
            _ => {}
        }
    }
}

#[test]
fn elements_under_a_window_become_records() {
    let (records, next_id) = descendants(base_options());
    assert_eq!(records.len(), 1);
    assert_eq!(next_id, 0x8000_0001);
    assert_eq!(records[0].parent_id, Some(1));
    assert_eq!(records[0].info.id, 0x8000_0000);
    assert_eq!(records[0].info.pid, 2);
    assert_eq!(records[0].info.app_name, "app");
    assert_eq!(records[0].info.title, "Button");
    assert_eq!((records[0].info.x, records[0].info.y), (5, 6));
    assert_eq!((records[0].info.width, records[0].info.height), (30, 10));
    assert_eq!(records[0].info.z, 1);
    assert!(!records[0].info.is_focused);
}

#[test]
fn a_deep_search_looks_below_what_is_not_reported() {
    let (records, _) = descendants(deep_options());
    assert_eq!(records.len(), 2);
    assert_eq!(records[1].info.id, 0x8000_0001);
    assert_eq!(records[1].parent_id, Some(1));
    assert!(records[1].info.is_focused);
}

#[test]
fn relaxed_filtering_reports_what_has_a_name() {
    let (records, _) = descendants(AccessibilityQueryOptions {
        deep_children: false,
        relaxed_filtering: true,
    });
    assert_eq!(records.len(), 3);
    assert_eq!(records[1].info.title, "Group");
    assert_eq!(records[2].parent_id, Some(records[1].info.id));
}

#[test]
fn a_walk_stops_at_the_limit_of_elements() {
    let mut walk = Traversal::new(0, 1, 9);
    let mut read = 0;
    let mut stops = 0;
    let mut next = 1;
    loop {
        match walk.step() {
            Step::Done => break,
            Step::List { .. } => {
                let children: Vec<usize> = (next..next + 600).collect();
                next += 600;
                walk.listed(children);
            }
            Step::Read(_) => {
                read += 1;
                walk.visited(if read <= 2 { Some(1) } else { None });
            }
            Step::Stopped { .. } => stops += 1,
            _ => {}
        }
    }
    assert_eq!(read, MAX_AX_NODES_PER_WINDOW - 1);
    assert!(stops > 0);
}

#[test]
fn a_walk_goes_no_deeper_than_told() {
    let mut walk = Traversal::new(0, 7, 2);
    let mut depths = Vec::new();
    loop {
        match walk.step() {
            Step::Done => break,
            Step::List { element } => walk.listed(vec![element + 1]),
            Step::Read(wanted) => {
                depths.push((wanted.element, wanted.depth, wanted.tag));
                walk.visited(Some(8));
            }
            _ => {}
        }
    }
    assert_eq!(depths, vec![(1, 0, 7), (2, 1, 8)]);
}

#[test]
fn lines_tell_what_a_walk_sees() {
    let root = root_window("Editor", 10, 20, 800, 600);
    let app = application(&vec![reading(100, "Editor", 10)], None);
    let mut walk = debug_lines_for_window(&root, Some(&app));
    loop {
        match walk.step() {
            Step::Done => break,
            Step::List { element } => walk.listed(match element {
                100 => vec![200, 100],
                _ => Vec::new(),
            }),
            Step::Read(_) => walk.read(&element("A \"b\"", Some((30, 10)))),
            _ => {}
        }
    }
    let lines = walk.finish();
    let text = lines.join("\n");
    assert!(text.contains("\"Editor\""));
    assert!(text.contains("\"A \\\"b\\\"\""));
    let all = debug_lines_for_windows(true, vec![lines.clone(), lines.clone()]);
    assert_eq!(all.len(), 2 * lines.len());
    assert_eq!(Window::debug_macos_accessibility(true, Ok(vec![lines.clone()])), Ok(lines));
    assert_eq!(debug_lines_for_windows(false, Vec::new()).len(), 1);
}

#[test]
fn each_process_is_asked_once() {
    let mut other = root_window("Two", 0, 0, 1, 1);
    other.pid = 7;
    let windows = vec![root_window("One", 0, 0, 1, 1), other, root_window("Three", 0, 0, 1, 1)];
    assert_eq!(accessibility_cache_for(&windows, true), vec![2, 7]);
    assert!(accessibility_cache_for(&windows, false).is_empty());
}
