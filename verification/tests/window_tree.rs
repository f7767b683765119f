use xcap::outline::window_tree_lines;
use xcap::window::{
    build_expanded_children, build_window_info_tree, clear_nested_children, WindowInfo,
    WindowInfoRecord,
};
use xcap::{WindowQueryOptions, WindowSizeFilter};

fn window_info(id: u32, width: u32, height: u32) -> WindowInfo {
    WindowInfo {
        id,
        pid: id,
        app_name: format!("app-{id}"),
        title: format!("window-{id}"),
        x: 0,
        y: 0,
        z: id as i32,
        width,
        height,
        is_minimized: false,
        is_maximized: false,
        is_focused: false,
        children: Vec::new(),
    }
}

fn record(id: u32, width: u32, height: u32, parent_id: Option<u32>) -> WindowInfoRecord {
    WindowInfoRecord {
        info: window_info(id, width, height),
        parent_id,
    }
}

fn options(include_children: bool, size_filter: Option<WindowSizeFilter>) -> WindowQueryOptions {
    WindowQueryOptions {
        include_children,
        size_filter,
        deep_children: false,
        probe_timeout_ms: None,
        relaxed_filtering: false,
    }
}

fn ids(windows: &[WindowInfo]) -> Vec<u32> {
    let mut found = Vec::new();
    for window in windows {
        found.push(window.id);
        found.extend(ids(&window.children));
    }
    found
}

#[test]
fn test_build_window_info_tree_with_children() {
    let records = vec![
        WindowInfoRecord {
            info: window_info(1, 800, 600),
            parent_id: None,
        },
        WindowInfoRecord {
            info: window_info(2, 400, 300),
            parent_id: Some(1),
        },
        WindowInfoRecord {
            info: window_info(3, 200, 100),
            parent_id: Some(2),
        },
    ];

    let result = build_window_info_tree(
        records,
        &WindowQueryOptions {
            include_children: true,
            size_filter: None,
            deep_children: false,
            probe_timeout_ms: None,
            relaxed_filtering: false,
        },
    );

    assert_eq!(result.len(), 1);
    assert_eq!(result[0].id, 1);
    assert_eq!(result[0].children.len(), 1);
    assert_eq!(result[0].children[0].id, 2);
    assert_eq!(result[0].children[0].children.len(), 1);
    assert_eq!(result[0].children[0].children[0].id, 3);
}

#[test]
fn test_build_window_info_tree_without_children() {
    let records = vec![
        WindowInfoRecord {
            info: window_info(1, 800, 600),
            parent_id: None,
        },
        WindowInfoRecord {
            info: window_info(2, 400, 300),
            parent_id: Some(1),
        },
    ];

    let result = build_window_info_tree(
        records,
        &WindowQueryOptions {
            include_children: false,
            size_filter: None,
            deep_children: false,
            probe_timeout_ms: None,
            relaxed_filtering: false,
        },
    );

    assert_eq!(result.len(), 1);
    assert!(result[0].children.is_empty());
}

#[test]
fn test_build_window_info_tree_filters_by_size() {
    let records = vec![
        WindowInfoRecord {
            info: window_info(1, 300, 200),
            parent_id: None,
        },
        WindowInfoRecord {
            info: window_info(2, 800, 600),
            parent_id: None,
        },
    ];

    let result = build_window_info_tree(
        records,
        &WindowQueryOptions {
            include_children: false,
            size_filter: Some(WindowSizeFilter {
                min_width: Some(500),
                max_width: None,
                min_height: Some(400),
                max_height: None,
            }),
            deep_children: false,
            probe_timeout_ms: None,
            relaxed_filtering: false,
        },
    );

    assert_eq!(result.len(), 1);
    assert_eq!(result[0].id, 2);
}

#[test]
fn test_filtered_parent_promotes_matching_children() {
    let records = vec![
        WindowInfoRecord {
            info: window_info(1, 200, 100),
            parent_id: None,
        },
        WindowInfoRecord {
            info: window_info(2, 600, 400),
            parent_id: Some(1),
        },
        WindowInfoRecord {
            info: window_info(3, 700, 500),
            parent_id: Some(2),
        },
    ];

    let result = build_window_info_tree(
        records,
        &WindowQueryOptions {
            include_children: true,
            size_filter: Some(WindowSizeFilter {
                min_width: Some(500),
                max_width: None,
                min_height: Some(300),
                max_height: None,
            }),
            deep_children: false,
            probe_timeout_ms: None,
            relaxed_filtering: false,
        },
    );

    assert_eq!(result.len(), 1);
    assert_eq!(result[0].id, 2);
    assert_eq!(result[0].children.len(), 1);
    assert_eq!(result[0].children[0].id, 3);
}

#[test]
fn test_build_window_info_tree_skips_cycles() {
    let records = vec![
        WindowInfoRecord {
            info: window_info(1, 600, 400),
            parent_id: Some(2),
        },
        WindowInfoRecord {
            info: window_info(2, 500, 300),
            parent_id: Some(1),
        },
        WindowInfoRecord {
            info: window_info(3, 700, 500),
            parent_id: None,
        },
    ];

    let result = build_window_info_tree(
        records,
        &WindowQueryOptions {
            include_children: true,
            size_filter: None,
            deep_children: false,
            probe_timeout_ms: None,
            relaxed_filtering: false,
        },
    );

    assert_eq!(result.len(), 1);
    assert_eq!(result[0].id, 3);
}

#[test]
fn test_window_query_options_default_is_conservative() {
    assert_eq!(
        WindowQueryOptions::default(),
        WindowQueryOptions {
            include_children: false,
            size_filter: None,
            deep_children: false,
            probe_timeout_ms: None,
            relaxed_filtering: false,
        }
    );
}

#[test]
fn test_build_expanded_children_respects_include_children() {
    let root = window_info(1, 800, 600);
    let descendants = vec![
        WindowInfoRecord {
            info: window_info(2, 400, 300),
            parent_id: Some(1),
        },
        WindowInfoRecord {
            info: window_info(3, 200, 100),
            parent_id: Some(2),
        },
    ];

    let flat_children = build_expanded_children(
        root.clone(),
        descendants.clone(),
        &WindowQueryOptions {
            include_children: false,
            size_filter: None,
            deep_children: false,
            probe_timeout_ms: None,
            relaxed_filtering: false,
        },
    );
    assert_eq!(flat_children.len(), 1);
    assert!(flat_children[0].children.is_empty());

    let tree_children = build_expanded_children(
        root,
        descendants,
        &WindowQueryOptions {
            include_children: true,
            size_filter: None,
            deep_children: false,
            probe_timeout_ms: None,
            relaxed_filtering: false,
        },
    );
    assert_eq!(tree_children.len(), 1);
    assert_eq!(tree_children[0].children.len(), 1);
}

#[test]
fn siblings_keep_the_order_of_the_records() {
    let records = vec![
        record(5, 10, 10, Some(1)),
        record(1, 10, 10, None),
        record(4, 10, 10, Some(1)),
        record(2, 10, 10, None),
        record(3, 10, 10, Some(2)),
    ];
    let tree = build_window_info_tree(records, &options(true, None));
    assert_eq!(ids(&tree), vec![1, 5, 4, 2, 3]);
}

#[test]
fn a_parent_that_was_not_found_leaves_a_window_at_the_top() {
    let records = vec![record(7, 10, 10, Some(99)), record(8, 10, 10, Some(7))];
    let tree = build_window_info_tree(records, &options(true, None));
    assert_eq!(tree.len(), 1);
    assert_eq!(ids(&tree), vec![7, 8]);
}

#[test]
fn a_window_under_itself_is_left_out() {
    let records = vec![record(1, 10, 10, Some(1)), record(2, 10, 10, None)];
    let tree = build_window_info_tree(records, &options(true, None));
    assert_eq!(ids(&tree), vec![2]);
}

#[test]
fn the_last_of_two_records_with_one_id_describes_it() {
    let records = vec![record(1, 10, 10, None), record(1, 20, 20, None)];
    let tree = build_window_info_tree(records, &options(true, None));
    assert_eq!(tree.len(), 2);
    assert_eq!(tree[0].width, 20);
    assert_eq!(tree[1].width, 20);
}

#[test]
fn every_record_is_reported_once() {
    let records = vec![
        record(1, 10, 10, None),
        record(2, 10, 10, Some(1)),
        record(3, 10, 10, Some(2)),
        record(4, 10, 10, Some(1)),
        record(5, 10, 10, None),
    ];
    let mut found = ids(&build_window_info_tree(records, &options(true, None)));
    found.sort();
    assert_eq!(found, vec![1, 2, 3, 4, 5]);
}

#[test]
fn without_children_promoted_windows_are_not_reported() {
    let filter = WindowSizeFilter {
        min_width: Some(500),
        max_width: None,
        min_height: None,
        max_height: None,
    };
    let records = vec![record(1, 100, 100, None), record(2, 600, 100, Some(1))];
    assert!(build_window_info_tree(records, &options(false, Some(filter))).is_empty());
}

#[test]
fn size_filters_include_their_limits() {
    let filter = WindowSizeFilter {
        min_width: Some(100),
        max_width: Some(200),
        min_height: Some(10),
        max_height: Some(20),
    };
    assert!(filter.matches(100, 10));
    assert!(filter.matches(200, 20));
    assert!(!filter.matches(99, 10));
    assert!(!filter.matches(201, 10));
    assert!(!filter.matches(100, 9));
    assert!(!filter.matches(100, 21));
    assert!(WindowSizeFilter::default().matches(0, u32::MAX));
}

#[test]
fn expansion_of_a_window_that_is_filtered_out_is_empty() {
    let filter = WindowSizeFilter {
        min_width: Some(500),
        max_width: None,
        min_height: None,
        max_height: None,
    };
    let children = build_expanded_children(
        window_info(1, 100, 100),
        vec![record(2, 600, 100, Some(1))],
        &options(true, Some(filter)),
    );
    assert!(children.is_empty());
}

#[test]
fn expansion_reports_each_descendant_once() {
    let children = build_expanded_children(
        window_info(1, 100, 100),
        vec![
            record(2, 10, 10, Some(1)),
            record(3, 10, 10, Some(2)),
            record(4, 10, 10, Some(1)),
        ],
        &options(true, None),
    );
    assert_eq!(ids(&children), vec![2, 3, 4]);
}

#[test]
fn clearing_drops_only_what_is_below() {
    let mut windows = build_window_info_tree(
        vec![record(1, 10, 10, None), record(2, 10, 10, Some(1))],
        &options(true, None),
    );
    clear_nested_children(&mut windows);
    assert_eq!(ids(&windows), vec![1]);
}

#[test]
fn records_and_options_copy_as_they_are() {
    let one = record(3, 30, 40, Some(2));
    let copy = one.clone();
    assert_eq!(copy.info, one.info);
    assert_eq!(copy.parent_id, one.parent_id);
    let filter = WindowSizeFilter {
        min_width: Some(1),
        max_width: Some(2),
        min_height: Some(3),
        max_height: Some(4),
    };
    let wanted = WindowQueryOptions {
        include_children: true,
        size_filter: Some(filter),
        deep_children: true,
        probe_timeout_ms: Some(250),
        relaxed_filtering: true,
    };
    assert_eq!(wanted.clone(), wanted);
    assert!(wanted.keeps(2, 4));
    assert!(!wanted.keeps(3, 4));
}

#[test]
fn a_tree_is_told_line_by_line() {
    let mut tree = build_window_info_tree(
        vec![record(1, 800, 600, None), record(2, 400, 300, Some(1)), record(3, 9, 9, None)],
        &options(true, None),
    );
    tree[0].title = String::from("say \"hi\"");
    tree[0].x = -5;
    tree[0].is_focused = true;
    assert_eq!(
        window_tree_lines(&tree, ""),
        vec![
            String::from(
                "- id=1 title=\"say \\\"hi\\\"\" app=\"app-1\" pos=(-5, 0, 1) size=800x600 \
                 state=(false, false, true)"
            ),
            String::from(
                "  - id=2 title=\"window-2\" app=\"app-2\" pos=(0, 0, 2) size=400x300 \
                 state=(false, false, false)"
            ),
            String::from(
                "- id=3 title=\"window-3\" app=\"app-3\" pos=(0, 0, 3) size=9x9 \
                 state=(false, false, false)"
            ),
        ]
    );
}
