use std::collections::HashSet;

use xcap::window::{WindowInfoRecord, WindowQueryOptions};
use xcap::windows::accessibility::{
    best_title, bstr_to_string, max_uia_depth, next_synthetic_id, node_key, rect_dimensions,
    should_skip_element, ComInitGuard, Rect, SeenKeys, UiaElement, UiaQueryOptions, UiaStep,
    UiaWalk, BASE_MAX_UIA_DEPTH, CHANGED_MODE, DEEP_MAX_UIA_DEPTH, MAX_UIA_NODES_PER_WINDOW,
};
use xcap::windows::uia_probe::{collect_uia_children, ProbeStep, UiaProbe};
use xcap::XCapError;

#[test]
fn test_rect_dimensions_rejects_empty_rects() {
    assert_eq!(
        rect_dimensions(&Rect {
            left: 10,
            top: 10,
            right: 10,
            bottom: 30,
        }),
        None
    );
}

#[test]
fn test_rect_dimensions_returns_geometry() {
    assert_eq!(
        rect_dimensions(&Rect {
            left: 10,
            top: 20,
            right: 110,
            bottom: 220,
        }),
        Some((10, 20, 100, 200))
    );
}

#[test]
fn test_next_synthetic_id_skips_used_values() {
    let mut next_id = 42;
    let mut used_ids = HashSet::from([42, 43]);

    assert_eq!(next_synthetic_id(&mut next_id, &mut used_ids), 44);
    assert_eq!(next_synthetic_id(&mut next_id, &mut used_ids), 45);
}

#[test]
fn test_uia_limits_are_positive() {
    assert!(BASE_MAX_UIA_DEPTH > 0);
    assert!(DEEP_MAX_UIA_DEPTH >= BASE_MAX_UIA_DEPTH);
    assert!(MAX_UIA_NODES_PER_WINDOW > 0);
}

#[test]
fn test_max_uia_depth_respects_deep_mode() {
    assert_eq!(
        max_uia_depth(UiaQueryOptions {
            deep_children: false,
            relaxed_filtering: false,
            probe_timeout_ms: None,
        }),
        BASE_MAX_UIA_DEPTH
    );
    assert_eq!(
        max_uia_depth(UiaQueryOptions {
            deep_children: true,
            relaxed_filtering: false,
            probe_timeout_ms: Some(200),
        }),
        DEEP_MAX_UIA_DEPTH
    );
}

#[test]
fn ids_start_over_after_the_last() {
    let mut next_id = u32::MAX;
    let mut used_ids = HashSet::from([u32::MAX, 0]);
    assert_eq!(next_synthetic_id(&mut next_id, &mut used_ids), 1);
    assert_eq!(next_id, 2);
    assert!(used_ids.contains(&1));
}

#[test]
fn the_answer_of_com_decides_what_is_undone() {
    assert!(ComInitGuard::new(0, "S_OK").unwrap().should_uninitialize);
    assert!(ComInitGuard::new(1, "S_FALSE").unwrap().should_uninitialize);
    assert!(!ComInitGuard::new(CHANGED_MODE, "changed").unwrap().should_uninitialize);
    match ComInitGuard::new(-1, "HRESULT(0xFFFFFFFF)") {
        Err(XCapError::Error(message)) => {
            assert_eq!(message, "CoInitializeEx failed: HRESULT(0xFFFFFFFF)");
        }
        _ => panic!("an error was expected"),
    }
}

#[test]
fn rectangles_that_cannot_be_measured_are_told_apart() {
    let huge = Rect {
        left: i32::MIN,
        top: 0,
        right: i32::MAX,
        bottom: 1,
    };
    assert!(!huge.is_measurable());
    let plain = Rect {
        left: -5,
        top: 0,
        right: 5,
        bottom: 1,
    };
    assert!(plain.is_measurable());
}

fn element(name: &str, rect: Option<Rect>) -> UiaElement {
    UiaElement {
        name: Some(format!(" {name} ")),
        automation_id: Some(String::from("auto")),
        class_name: Some(String::from("Class")),
        control_type: Some(String::from("button")),
        hwnd: Some(0),
        rect,
        is_offscreen: Some(false),
        pid: Some(42),
        has_focus: None,
    }
}

fn square(at: i32) -> Option<Rect> {
    Some(Rect {
        left: at,
        top: at,
        right: at + 10,
        bottom: at + 20,
    })
}

fn base_options() -> UiaQueryOptions {
    UiaQueryOptions {
        deep_children: false,
        relaxed_filtering: false,
        probe_timeout_ms: None,
    }
}

#[test]
fn properties_are_trimmed_and_tried_in_order() {
    assert_eq!(bstr_to_string(&Some(String::from("  a b\t\n"))), "a b");
    assert_eq!(bstr_to_string(&None), "");
    let mut one = element("OK", None);
    assert_eq!(best_title(&one), "OK");
    one.name = None;
    assert_eq!(best_title(&one), "auto");
    one.automation_id = Some(String::from(" "));
    assert_eq!(best_title(&one), "Class");
    one.class_name = None;
    assert_eq!(best_title(&one), "button");
}

#[test]
fn keys_hold_what_tells_elements_apart() {
    let mut one = element("OK", square(-3));
    one.hwnd = Some(77);
    assert_eq!(node_key(&one), "77|auto|Class|OK|-3|-3|7|17");
    one.rect = None;
    one.hwnd = None;
    assert_eq!(node_key(&one), "0|auto|Class|OK|0|0|0|0");
}

#[test]
fn elements_are_passed_over_for_what_they_are() {
    let mut seen = SeenKeys::new();
    let one = element("A", square(1));
    assert!(!should_skip_element(&one, 9, 42, base_options(), &mut seen));
    assert!(should_skip_element(&one, 9, 42, base_options(), &mut seen));
    let mut hidden = element("B", square(2));
    hidden.is_offscreen = Some(true);
    assert!(should_skip_element(&hidden, 9, 42, base_options(), &mut seen));
    let mut root = element("C", square(3));
    root.hwnd = Some(9);
    assert!(should_skip_element(&root, 9, 42, base_options(), &mut seen));
    let mut foreign = element("D", square(4));
    foreign.pid = Some(43);
    assert!(should_skip_element(&foreign, 9, 42, base_options(), &mut seen));
    let mut unknown = element("E", square(5));
    unknown.pid = None;
    assert!(!should_skip_element(&unknown, 9, 42, base_options(), &mut seen));
    let relaxed = UiaQueryOptions {
        relaxed_filtering: true,
        ..base_options()
    };
    let mut fresh = SeenKeys::new();
    assert!(!should_skip_element(&hidden, 9, 42, relaxed, &mut fresh));
    assert!(should_skip_element(&root, 9, 42, relaxed, &mut fresh));
    assert!(!should_skip_element(&foreign, 9, 42, relaxed, &mut fresh));
}

fn run(walk: &mut UiaWalk, fails_at: Option<usize>) -> Result<(), XCapError> {
    loop {
        match walk.step() {
            UiaStep::Done => return Ok(()),
            UiaStep::Again => {}
            UiaStep::List { element } => walk.listed(match (element, fails_at) {
                (element, Some(at)) if element == at => Err(XCapError::new("gone")),
                (1, _) => Ok((10, 2)),
                (100, _) => Ok((11, 1)),
                (101, _) => Ok((12, 1)),
                _ => Ok((13, 0)),
            })?,
            UiaStep::Read { list, index } => walk.read(Ok(match (list, index) {
                (10, 0) => (100, element("A", square(1))),
                (10, 1) => (101, element("B", None)),
                (11, 0) => (102, element("C", square(3))),
                (12, 0) => (103, element("D", square(4))),
                _ => panic!("there is no such element"),
            }))?,
        }
    }
}

#[test]
fn elements_that_are_passed_over_are_not_measured() {
    let huge = Some(Rect {
        left: i32::MIN,
        top: 0,
        right: i32::MAX,
        bottom: 1,
    });
    let mut walk = walk_with(base_options());
    assert_eq!(walk.step(), UiaStep::List { element: 1 });
    assert!(walk.listed(Ok((10, 1))).is_ok());
    assert_eq!(walk.step(), UiaStep::Read { list: 10, index: 0 });
    let mut hidden = element("A", huge);
    assert!(walk.measures(&hidden));
    hidden.is_offscreen = Some(true);
    assert!(!walk.measures(&hidden));
    assert!(walk.read(Ok((100, hidden))).is_ok());
    let mut seen = element("A", None);
    assert!(walk.measures(&seen));
    seen.rect = Some(Rect {
        left: i32::MIN,
        top: 0,
        right: i32::MAX,
        bottom: 1,
    });
    assert!(!walk.measures(&seen));
    assert!(walk.finish().0.is_empty());
}

fn walk_with(options: UiaQueryOptions) -> UiaWalk {
    UiaWalk::new(9, 42, "App", options, 1, 9, 100, &HashSet::from([9, 101]))
}

fn summary(records: &[WindowInfoRecord]) -> Vec<(u32, Option<u32>, String, i32)> {
    records
        .iter()
        .map(|record| {
            (
                record.info.id,
                record.parent_id,
                record.info.title.clone(),
                record.info.z,
            )
        })
        .collect()
}

#[test]
fn elements_become_records_under_free_ids() {
    let mut walk = walk_with(base_options());
    run(&mut walk, None).unwrap();
    let (records, next_id, used_ids) = walk.finish();
    assert_eq!(
        summary(&records),
        vec![
            (100, Some(9), String::from("A"), 1),
            (102, Some(100), String::from("C"), 0),
        ]
    );
    assert_eq!(next_id, 103);
    assert_eq!(used_ids, HashSet::from([9, 100, 101, 102]));
    let info = &records[0].info;
    assert_eq!((info.pid, info.app_name.as_str()), (42, "App"));
    assert_eq!((info.x, info.y, info.width, info.height), (1, 1, 10, 20));
}

#[test]
fn a_deep_walk_looks_under_elements_without_an_extent() {
    let mut walk = walk_with(UiaQueryOptions {
        deep_children: true,
        ..base_options()
    });
    run(&mut walk, None).unwrap();
    let (records, _, _) = walk.finish();
    assert_eq!(
        summary(&records),
        vec![
            (100, Some(9), String::from("A"), 1),
            (102, Some(100), String::from("C"), 0),
            (103, Some(9), String::from("D"), 0),
        ]
    );
}

#[test]
fn a_walk_hands_on_what_went_wrong() {
    let mut walk = walk_with(base_options());
    assert_eq!(run(&mut walk, Some(100)), Err(XCapError::new("gone")));
}

#[test]
fn a_walk_makes_no_more_records_than_allowed() {
    let mut walk = walk_with(base_options());
    let mut read = 0;
    loop {
        match walk.step() {
            UiaStep::Done => break,
            UiaStep::Again => {}
            UiaStep::List { .. } => walk.listed(Ok((read as usize, 400))).unwrap(),
            UiaStep::Read { .. } => {
                read += 1;
                walk.read(Ok((read as usize, element("X", square(read))))).unwrap();
            }
        }
    }
    let (records, _, _) = walk.finish();
    assert_eq!(records.len(), MAX_UIA_NODES_PER_WINDOW);
    assert_eq!(read as usize, MAX_UIA_NODES_PER_WINDOW);
}

#[test]
fn a_walk_keeps_to_its_depth() {
    let mut walk = walk_with(base_options());
    let mut read = 0;
    loop {
        match walk.step() {
            UiaStep::Done => break,
            UiaStep::Again => {}
            UiaStep::List { .. } => walk.listed(Ok((read as usize, 1))).unwrap(),
            UiaStep::Read { .. } => {
                read += 1;
                walk.read(Ok((read as usize, element("X", square(read))))).unwrap();
            }
        }
    }
    assert_eq!(read as usize, BASE_MAX_UIA_DEPTH);
}

fn query_options(probe_timeout_ms: Option<u64>) -> WindowQueryOptions {
    WindowQueryOptions {
        include_children: true,
        size_filter: None,
        deep_children: false,
        probe_timeout_ms,
        relaxed_filtering: false,
    }
}

/// An attempt that finds so many elements, of this name.
fn attempt(probe: &UiaProbe, name: &str, count: i32) -> UiaWalk {
    let mut walk = probe.attempt();
    loop {
        match walk.step() {
            UiaStep::Done => return walk,
            UiaStep::Again => {}
            UiaStep::List { element } => {
                let length = if element == 1 { count } else { 0 };
                walk.listed(Ok((element, length))).unwrap();
            }
            UiaStep::Read { index, .. } => {
                walk.read(Ok((index as usize + 2, element(name, square(index))))).unwrap();
            }
        }
    }
}

#[test]
fn options_carry_over_to_elements() {
    let options = UiaQueryOptions::from(&query_options(Some(200)));
    assert_eq!(options.probe_timeout_ms, Some(200));
    assert!(!options.deep_children);
}

#[test]
fn one_attempt_is_enough_without_a_timeout() {
    for timeout in [None, Some(0)] {
        let used = HashSet::from([9]);
        let mut probe =
            UiaProbe::new(9, 1, 9, 42, "App", &query_options(timeout), 100, &used, 5);
        let walk = attempt(&probe, "A", 2);
        assert_eq!(probe.attempted(walk, 5), ProbeStep::Done);
    }
}

#[test]
fn the_first_best_attempt_counts() {
    let used = HashSet::from([9]);
    let mut probe =
        UiaProbe::new(9, 1, 9, 42, "App", &query_options(Some(2)), 100, &used, 1_000_000);
    let wait = ProbeStep::Wait { milliseconds: 75 };
    let first = attempt(&probe, "A", 1);
    assert_eq!(probe.attempted(first, 1_000_000), wait);
    let second = attempt(&probe, "B", 2);
    assert_eq!(probe.attempted(second, 2_999_999), wait);
    let third = attempt(&probe, "C", 2);
    assert_eq!(probe.attempted(third, 2_999_999), wait);
    let fourth = attempt(&probe, "D", 0);
    assert_eq!(probe.attempted(fourth, 3_000_000), ProbeStep::Done);
    let mut next_id = 100;
    let mut used_ids = HashSet::from([9]);
    let mut records = Vec::new();
    let added = collect_uia_children(Ok(probe), &mut next_id, &mut used_ids, &mut records);
    assert_eq!(added, Ok(2));
    assert_eq!(next_id, 102);
    assert_eq!(used_ids, HashSet::from([9, 100, 101]));
    assert_eq!(
        summary(&records),
        vec![
            (100, Some(9), String::from("B"), 1),
            (101, Some(9), String::from("B"), 0),
        ]
    );
}

#[test]
fn a_failed_probe_changes_nothing() {
    let mut next_id = 100;
    let mut used_ids = HashSet::from([9]);
    let mut records = Vec::new();
    let result = collect_uia_children(
        Err(XCapError::new("no service")),
        &mut next_id,
        &mut used_ids,
        &mut records,
    );
    assert_eq!(result, Err(XCapError::new("no service")));
    assert_eq!(next_id, 100);
    assert_eq!(used_ids, HashSet::from([9]));
    assert!(records.is_empty());
}
