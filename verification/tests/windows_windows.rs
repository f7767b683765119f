use std::collections::HashMap;

use xcap::window::{WindowInfo, WindowQueryOptions};
use xcap::windows::accessibility::{Rect, UiaElement, UiaStep};
use xcap::windows::app_name::{AppNameQuery, AppNameStep};
use xcap::windows::debug_lines::{ChildReading, WindowReading};
use xcap::windows::dxgi_capture::{
    clamp_region, AcquireAnswer, AcquireStep, FrameAcquisition, FrameRegion, OutputAnswer,
    OutputSearch, OutputStep, ACQUIRE_MAX_ATTEMPTS, ACQUIRE_TIMEOUT_MS,
};
use xcap::windows::impl_window::ImplWindow;
use xcap::windows::process::{
    basename_from_path, basename_of, file_stem, version_query, LangCodePage,
};
use xcap::windows::record_walk::{RecordWalk, WindowStep};
use xcap::windows::uia_probe::ProbeStep;
use xcap::windows::validity::{
    all_child_hwnds, child_hwnds, child_window_filter_reason, get_class_name, get_window_title,
    is_rect_empty, is_valid_child_window, is_valid_window, is_window_cloaked, next_sibling,
    title_buffer_length, valid_windows, Candidate, Sibling, Standing, WindowFacts,
    WS_EX_TOOLWINDOW,
};
use xcap::windows::wide::{decode, decode_or_default, encode};
use xcap::{Window, XCapError, XCapResult};

fn units(text: &str) -> Vec<u16> {
    text.encode_utf16().collect()
}

fn rect(left: i32, top: i32, right: i32, bottom: i32) -> Rect {
    Rect {
        left,
        top,
        right,
        bottom,
    }
}

#[test]
fn text_is_read_up_to_the_first_zero() {
    assert_eq!(decode(units("abc\0def")), Ok(String::from("abc")));
    assert_eq!(decode(units("h\u{e9} \u{1f600}")), Ok(String::from("h\u{e9} \u{1f600}")));
    assert_eq!(decode(Vec::new()), Ok(String::new()));
    assert_eq!(decode(vec![0x61, 0xd800, 0x62]), Err(XCapError::Utf16Error));
    assert_eq!(decode(vec![0x61, 0, 0xd800]), Ok(String::from("a")));
    assert_eq!(decode_or_default(vec![0xdc00]), "");
    assert_eq!(get_class_name(&units("Edit\0")), "Edit");
    assert_eq!(get_window_title(vec![0xd800]), Err(XCapError::Utf16Error));
    assert_eq!(get_window_title(units("T\0")), Ok(String::from("T")));
    assert_eq!(title_buffer_length(0), 1);
}

#[test]
fn text_is_handed_over_with_a_zero_at_its_end() {
    assert_eq!(encode("a\u{1f600}"), Ok(vec![0x61, 0xd83d, 0xde00, 0]));
    assert_eq!(encode("a\0"), Ok(vec![0x61, 0]));
    assert_eq!(
        encode("\u{1f600}\0b"),
        Err(XCapError::new("invalid nul value found at position 2"))
    );
    assert_eq!(decode(encode("x y").unwrap()), Ok(String::from("x y")));
}

#[test]
fn stems_drop_the_extension() {
    assert_eq!(file_stem("notepad.exe"), "notepad");
    assert_eq!(file_stem("a.b.c"), "a.b");
    assert_eq!(file_stem("plain"), "plain");
    assert_eq!(file_stem(".hidden"), ".hidden");
    assert_eq!(file_stem("trailing."), "trailing");
    assert_eq!(basename_of(&None), "");
    assert_eq!(basename_of(&Some(String::from("x.exe"))), "x");
    assert_eq!(basename_from_path("tool.exe"), "tool");
    assert_eq!(basename_from_path("dir/tool.exe"), "tool");
    assert_eq!(basename_from_path("/opt/app/Editor.v2.exe"), "Editor.v2");
    assert_eq!(basename_from_path("/opt/app/"), "app");
    assert_eq!(basename_from_path("/opt/app/./"), "app");
    assert_eq!(basename_from_path("//server/share/tool.exe"), "tool");
    assert_eq!(basename_from_path("dir/tool.exe."), "tool.exe");
    assert_eq!(basename_from_path("dir/.."), "");
    assert_eq!(basename_from_path("/"), "");
    assert_eq!(basename_from_path(""), "");
    let behind_backslash = basename_from_path("C:\\dir\\tool.exe");
    assert!(["tool", "C:\\dir\\tool"].contains(&behind_backslash.as_str()));
}

#[test]
fn version_queries_name_language_and_property() {
    let page = LangCodePage {
        w_language: 0x409,
        w_code_page: 0x4b0,
    };
    assert_eq!(version_query(page, 0), "\\StringFileInfo\\040904b0\\FileDescription");
    assert_eq!(version_query(page, 1), "\\StringFileInfo\\040904b0\\ProductName");
    assert_eq!(version_query(page, 2), "\\StringFileInfo\\040904b0\\ProductShortName");
    assert_eq!(version_query(page, 3), "\\StringFileInfo\\040904b0\\InternalName");
    assert_eq!(
        version_query(LangCodePage::default(), 4),
        "\\StringFileInfo\\00000000\\OriginalFilename"
    );
}

struct Process {
    opens: bool,
    image: Option<Vec<u16>>,
    module: Vec<u16>,
    name: Option<Vec<u16>>,
    replacement: Vec<u16>,
    size: u32,
    info: XCapResult<()>,
    pages: XCapResult<Vec<LangCodePage>>,
    values: HashMap<String, Vec<u16>>,
}

fn process() -> Process {
    Process {
        opens: true,
        image: Some(units("tool.exe")),
        module: units("module.exe"),
        name: Some(units("base.exe\0junk")),
        replacement: units("replacement.exe"),
        size: 8,
        info: Ok(()),
        pages: Ok(vec![
            LangCodePage {
                w_language: 1,
                w_code_page: 2,
            },
            LangCodePage {
                w_language: 3,
                w_code_page: 4,
            },
        ]),
        values: HashMap::new(),
    }
}

fn app_name(process: &Process) -> XCapResult<String> {
    let mut query = AppNameQuery::new();
    loop {
        match query.step() {
            AppNameStep::Open => query.opened(process.opens),
            AppNameStep::QueryImage => query.image_queried(process.image.clone()),
            AppNameStep::ReadModulePath => query.module_path_read(process.module.clone(), 5),
            AppNameStep::ReadModuleName => query.module_name_read(process.name.clone()),
            AppNameStep::ReplaceModuleName => {
                query.module_name_replaced(process.replacement.clone())
            }
            AppNameStep::Size { path } => {
                assert_eq!(path.last(), Some(&0));
                query.sized(process.size)
            }
            AppNameStep::Load { size } => {
                assert_eq!(size, process.size);
                query.loaded(process.info.clone())
            }
            AppNameStep::Translate => query.translated(process.pages.clone()),
            AppNameStep::ReadValue { query: text } => {
                query.value_read(process.values.get(&text).cloned())
            }
            AppNameStep::Done => return query.finish(),
        }
    }
}

fn ok(name: &str) -> XCapResult<String> {
    Ok(String::from(name))
}

#[test]
fn an_application_is_called_by_its_description() {
    let mut one = process();
    one.values.insert(
        String::from("\\StringFileInfo\\00010002\\ProductName"),
        units("Product"),
    );
    one.values.insert(
        String::from("\\StringFileInfo\\00030004\\FileDescription"),
        units("  The Tool \0"),
    );
    one.values.insert(
        String::from("\\StringFileInfo\\00010002\\FileDescription"),
        units("   "),
    );
    assert_eq!(app_name(&one), ok("The Tool"));
}

#[test]
fn an_application_without_a_description_is_called_by_its_file() {
    let mut one = process();
    assert_eq!(app_name(&one), ok("tool"));
    one.pages = Ok(Vec::new());
    assert_eq!(app_name(&one), ok("tool"));
    one.size = 0;
    assert_eq!(app_name(&one), ok("tool"));
    one.image = Some(units("/opt/app/Editor.v2.exe"));
    assert_eq!(app_name(&one), ok("Editor.v2"));
    one.image = Some(units(".."));
    assert_eq!(app_name(&one), ok(""));
    one.size = 8;
    assert_eq!(app_name(&one), ok("base.exe"));
}

#[test]
fn an_application_without_an_image_is_called_by_its_module() {
    let mut one = process();
    one.image = None;
    assert_eq!(app_name(&one), ok("module"));
    one.image = Some(Vec::new());
    assert_eq!(app_name(&one), ok("module"));
    one.module = Vec::new();
    assert_eq!(app_name(&one), ok("base.exe"));
    one.name = None;
    assert_eq!(app_name(&one), ok("replacement.exe"));
    one.replacement = vec![0xd800];
    assert_eq!(app_name(&one), Err(XCapError::Utf16Error));
    one.opens = false;
    assert_eq!(app_name(&one), ok(""));
}

#[test]
fn what_is_wrong_with_version_information_is_reported() {
    let mut one = process();
    one.values.insert(
        String::from("\\StringFileInfo\\00010002\\FileDescription"),
        vec![0xdc00],
    );
    assert_eq!(app_name(&one), Err(XCapError::Utf16Error));
    one.pages = Err(XCapError::new("no translation"));
    assert_eq!(app_name(&one), Err(XCapError::new("no translation")));
    one.info = Err(XCapError::new("no information"));
    assert_eq!(app_name(&one), Err(XCapError::new("no information")));
}

fn standing() -> Standing {
    Standing {
        exists: true,
        is_visible: true,
        pid: 42,
        current_pid: 7,
        cloaked: Some(0),
        bounds: Ok(rect(0, 0, 10, 10)),
    }
}

fn facts() -> WindowFacts {
    WindowFacts {
        standing: standing(),
        class_name: units("Notepad"),
        ex_style: 0,
        title: None,
    }
}

#[test]
fn windows_under_a_window_are_left_out_for_a_reason() {
    assert_eq!(child_window_filter_reason(&standing()), None);
    assert!(is_valid_child_window(&standing()));
    let mut one = standing();
    one.bounds = Err(XCapError::new("gone"));
    assert_eq!(child_window_filter_reason(&one), Some("bounds-unavailable"));
    one.bounds = Ok(rect(0, 0, 0, 10));
    assert_eq!(child_window_filter_reason(&one), Some("empty-bounds"));
    one.cloaked = Some(2);
    assert_eq!(child_window_filter_reason(&one), Some("cloaked"));
    one.pid = 7;
    assert_eq!(child_window_filter_reason(&one), Some("current-process"));
    one.is_visible = false;
    assert_eq!(child_window_filter_reason(&one), Some("not-visible-or-invalid"));
    one.is_visible = true;
    one.exists = false;
    assert_eq!(child_window_filter_reason(&one), Some("not-visible-or-invalid"));
    assert!(!is_window_cloaked(None));
    assert!(is_rect_empty(&rect(5, 5, 4, 9)));
}

#[test]
fn windows_on_the_desktop_are_left_out_for_what_they_are() {
    assert!(is_valid_window(&facts()));
    for class in ["", "Progman", "Button"] {
        let mut one = facts();
        one.class_name = units(class);
        assert!(!is_valid_window(&one));
    }
    let mut own = facts();
    own.standing.pid = 7;
    assert!(!is_valid_window(&own));
    let mut cloaked = facts();
    cloaked.standing.cloaked = Some(1);
    assert!(!is_valid_window(&cloaked));
    let mut unknown = facts();
    unknown.standing.bounds = Err(XCapError::new("gone"));
    assert!(!is_valid_window(&unknown));
    let mut invisible = facts();
    invisible.standing.is_visible = false;
    assert!(!is_valid_window(&invisible));
    let mut broken = facts();
    broken.class_name = vec![0xd800];
    assert!(!is_valid_window(&broken));
}

#[test]
fn the_windows_that_are_reported_keep_their_order() {
    let mut hidden = facts();
    hidden.standing.is_visible = false;
    let candidates = vec![
        Candidate {
            hwnd: 5,
            facts: facts(),
        },
        Candidate {
            hwnd: 4,
            facts: hidden,
        },
        Candidate {
            hwnd: 9,
            facts: facts(),
        },
    ];
    assert_eq!(valid_windows(&candidates), vec![5, 9]);
}

#[test]
fn tool_windows_need_a_title() {
    let mut tool = facts();
    assert!(!tool.asks_for_title());
    tool.ex_style = WS_EX_TOOLWINDOW | 1;
    assert!(tool.asks_for_title());
    tool.title = Some(Ok(String::new()));
    assert!(!is_valid_window(&tool));
    tool.title = Some(Err(XCapError::Utf16Error));
    assert!(!is_valid_window(&tool));
    tool.title = Some(ok("Palette"));
    assert!(is_valid_window(&tool));
    let mut bar = facts();
    bar.ex_style = WS_EX_TOOLWINDOW;
    bar.class_name = units("Shell_TrayWnd");
    bar.title = Some(Ok(String::new()));
    assert!(is_valid_window(&bar));
}

#[test]
fn siblings_end_at_null_or_an_error() {
    assert_eq!(next_sibling(Some(3)), Some(3));
    assert_eq!(next_sibling(Some(0)), None);
    assert_eq!(next_sibling(None), None);
    let mut hidden = standing();
    hidden.is_visible = false;
    let siblings = vec![
        Sibling {
            hwnd: 1,
            standing: standing(),
        },
        Sibling {
            hwnd: 2,
            standing: hidden,
        },
        Sibling {
            hwnd: 3,
            standing: standing(),
        },
    ];
    assert_eq!(child_hwnds(&siblings), vec![1, 3]);
    assert_eq!(all_child_hwnds(&siblings), vec![1, 2, 3]);
}

fn window(hwnd: usize) -> ImplWindow {
    ImplWindow {
        hwnd,
        pid: 42,
        app_name: ok("App"),
        title: Ok(format!("window-{hwnd}")),
        bounds: Ok(rect(10, 20, 110, 220)),
        order: Ok(vec![5, 3, hwnd, 9]),
        is_iconic: false,
        is_zoomed: true,
        foreground: hwnd,
    }
}

#[test]
fn windows_tell_what_the_system_tells() {
    let handle: usize = 0x1_0000_0011u64 as usize;
    let one = Window::new(window(handle));
    assert_eq!(one.id(), Ok(0x11));
    assert_eq!(one.pid(), Ok(42));
    assert_eq!(one.app_name(), ok("App"));
    assert_eq!(one.title(), Ok(format!("window-{handle}")));
    assert_eq!((one.x(), one.y()), (Ok(10), Ok(20)));
    assert_eq!((one.width(), one.height()), (Ok(100), Ok(200)));
    assert_eq!(one.z(), Ok(1));
    assert_eq!(one.is_minimized(), Ok(false));
    assert_eq!(one.is_maximized(), Ok(true));
    assert_eq!(one.is_focused(), Ok(true));
    assert!(one.impl_window.is_measurable());
    let all = Window::all(Ok(vec![window(2), window(3)])).unwrap();
    assert_eq!(all.len(), 2);
    assert_eq!(all[1].impl_window.hwnd, 3);
    assert!(Window::all(Err(XCapError::new("no desktop"))).is_err());
    let copy = one.clone();
    assert_eq!(copy.id(), one.id());
    assert_eq!(copy.title(), one.title());
    assert_eq!(copy.z(), one.z());
    assert_eq!(copy.width(), one.width());
}

#[test]
fn windows_come_from_the_topmost_down() {
    let mut hidden = facts();
    hidden.standing.is_visible = false;
    let mut candidates: Vec<Candidate> = [7, 4, 9]
        .into_iter()
        .map(|hwnd| Candidate {
            hwnd,
            facts: facts(),
        })
        .collect();
    candidates[1].facts = hidden;
    let found = valid_windows(&candidates)
        .into_iter()
        .map(|hwnd| {
            let mut one = window(hwnd);
            one.order = Ok(vec![7, 4, 9]);
            one
        })
        .collect();
    let heights: Vec<i32> = Window::all(Ok(found))
        .unwrap()
        .iter()
        .map(|one| one.z().unwrap())
        .collect();
    assert_eq!(heights, vec![2, 0]);
}

#[test]
fn the_extent_counts_only_where_it_is_told() {
    let mut one = window(8);
    one.bounds = Ok(rect(i32::MIN, 0, i32::MAX, 1));
    assert!(!one.is_measurable());
    one.order = Err(XCapError::new("order"));
    assert!(one.is_measurable());
    assert_eq!(one.window_info(), Err(XCapError::new("order")));
    one.order = Ok(vec![8]);
    one.title = Err(XCapError::new("title"));
    assert!(one.is_measurable());
    assert_eq!(one.window_info(), Err(XCapError::new("title")));
}

#[test]
fn a_title_takes_a_unit_more_than_its_length() {
    assert_eq!(title_buffer_length(7), 8);
    assert_eq!(title_buffer_length(-1), 0);
}

#[test]
fn a_window_that_is_not_listed_is_at_the_bottom() {
    let mut one = window(8);
    one.order = Ok(vec![1, 2]);
    assert_eq!(one.z(), Ok(0));
    one.order = Ok(Vec::new());
    assert_eq!(one.z(), Ok(0));
    one.order = Ok(vec![8, 8, 8]);
    assert_eq!(one.z(), Ok(2));
    one.order = Err(XCapError::new("no order"));
    assert_eq!(one.z(), Err(XCapError::new("no order")));
}

#[test]
fn negative_extents_wrap_around() {
    let mut one = window(8);
    one.bounds = Ok(rect(10, 10, 7, 10));
    assert_eq!(one.width(), Ok(u32::MAX - 2));
    assert_eq!(one.height(), Ok(0));
}

#[test]
fn the_first_thing_that_went_wrong_is_reported() {
    let mut one = window(8);
    one.order = Err(XCapError::new("order"));
    assert_eq!(one.window_info(), Err(XCapError::new("order")));
    one.bounds = Err(XCapError::new("bounds"));
    assert_eq!(one.window_info(), Err(XCapError::new("bounds")));
    one.title = Err(XCapError::new("title"));
    assert_eq!(one.window_info(), Err(XCapError::new("title")));
    one.app_name = Err(XCapError::new("name"));
    assert_eq!(one.window_info(), Err(XCapError::new("name")));
}

fn options(include_children: bool) -> WindowQueryOptions {
    WindowQueryOptions {
        include_children,
        size_filter: None,
        deep_children: false,
        probe_timeout_ms: None,
        relaxed_filtering: false,
    }
}

/// A desktop where 2 and 3 are under 1, and one element is under 3; what is under 4 cannot be had.
fn drive(walk: &mut RecordWalk) -> XCapResult<()> {
    loop {
        match walk.step() {
            WindowStep::Done => return Ok(()),
            WindowStep::Again => {}
            WindowStep::Read { hwnd } => {
                let mut read = window(hwnd);
                if hwnd == 66 {
                    read.title = Err(XCapError::new("no title"));
                }
                walk.read(read)?
            }
            WindowStep::List { hwnd } => walk.listed(match hwnd {
                1 => vec![2, 3],
                _ => Vec::new(),
            }),
            WindowStep::Probe { hwnd } => {
                if hwnd == 4 {
                    assert!(walk.probed(Err(XCapError::new("no service"))).is_err());
                    continue;
                }
                let mut probe = walk.probe(500, 0);
                let mut attempt = probe.attempt();
                loop {
                    match attempt.step() {
                        UiaStep::Done => break,
                        UiaStep::Again => {}
                        UiaStep::List { element } => {
                            let length = if element == 500 && hwnd == 3 { 1 } else { 0 };
                            attempt.listed(Ok((element, length)))?;
                        }
                        UiaStep::Read { .. } => attempt.read(Ok((
                            501,
                            UiaElement {
                                name: ok("Element").ok(),
                                automation_id: None,
                                class_name: None,
                                control_type: None,
                                hwnd: None,
                                rect: Some(rect(1, 2, 3, 4)),
                                is_offscreen: None,
                                pid: None,
                                has_focus: Some(true),
                            },
                        )))?,
                    }
                }
                assert_eq!(probe.attempted(attempt, 0), ProbeStep::Done);
                let expected = if hwnd == 3 { 1 } else { 0 };
                assert_eq!(walk.probed(Ok(probe)), Ok(expected));
            }
        }
    }
}

fn outline(windows: &[WindowInfo]) -> Vec<(u32, i32, usize)> {
    let mut lines = Vec::new();
    for one in windows {
        lines.push((one.id, one.z, one.children.len()));
        lines.extend(outline(&one.children));
    }
    lines
}

#[test]
fn a_query_goes_down_every_window() {
    let mut walk = Window::query(Ok(vec![1, 4]), &options(true)).unwrap();
    drive(&mut walk).unwrap();
    let tree = walk.into_tree();
    // The element under 3 takes the first id that no window has so far, which is that of the next one.
    assert_eq!(
        outline(&tree),
        vec![(1, 1, 2), (2, 1, 0), (3, 0, 1), (4, 0, 0), (4, 0, 0)]
    );
}

#[test]
fn a_query_for_the_desktop_stays_there() {
    let mut walk = Window::query_roots(Ok(vec![1, 4]), &options(true)).unwrap();
    drive(&mut walk).unwrap();
    assert_eq!(outline(&walk.into_tree()), vec![(1, 1, 0), (4, 0, 0)]);
    assert_eq!(
        Window::query(Err(XCapError::new("no desktop")), &options(true)).unwrap_err(),
        XCapError::new("no desktop")
    );
}

#[test]
fn a_query_stops_at_what_went_wrong() {
    let mut walk = Window::query(Ok(vec![1, 66]), &options(true)).unwrap();
    assert_eq!(drive(&mut walk), Err(XCapError::new("no title")));
}

#[test]
fn an_expansion_has_what_is_under_a_window() {
    let one = Window::new(window(1));
    let mut expansion = one.expand_children(&options(true)).unwrap();
    drive(&mut expansion.walk).unwrap();
    assert_eq!(
        outline(&expansion.finish()),
        vec![(2, 1, 0), (3, 0, 1), (0x8000_0000, 0, 0)]
    );
    let mut flat = one.expand_children(&options(false)).unwrap();
    drive(&mut flat.walk).unwrap();
    assert_eq!(outline(&flat.finish()), vec![(2, 1, 0), (3, 0, 0)]);
}

#[test]
fn an_expansion_of_a_window_without_windows_has_its_elements() {
    let mut expansion = Window::new(window(3)).expand_children(&options(false)).unwrap();
    drive(&mut expansion.walk).unwrap();
    assert_eq!(outline(&expansion.finish()), vec![(0x8000_0000, 0, 0)]);
}

#[test]
fn lines_tell_which_windows_are_left_out() {
    let mut hidden = standing();
    hidden.bounds = Ok(rect(-1, 0, -1, 5));
    let reading = WindowReading {
        hwnd: 0x1f,
        title: ok("A \"b\""),
        app_name: Err(XCapError::new("no name")),
        bounds: Err(XCapError::new("gone")),
        children: vec![
            ChildReading {
                hwnd: 0x2a,
                class_name: units("Edit"),
                title: Err(XCapError::Utf16Error),
                standing: standing(),
            },
            ChildReading {
                hwnd: 0,
                class_name: vec![0xd800],
                title: ok("t"),
                standing: hidden,
            },
        ],
    };
    let lines = Window::debug_windows_children(Ok(vec![reading]), &options(true)).unwrap();
    assert_eq!(
        lines,
        vec![
            String::from(
                "top hwnd=HWND(0x1f) title=\"A \\\"b\\\"\" app=\"\" bounds=None \
                 include_children=true total_children=2 kept_children=1"
            ),
            String::from(
                "  child hwnd=HWND(0x2a) class=\"Edit\" title=\"\" bounds=Some((0, 0, 10, 10)) \
                 kept=true reason=accepted"
            ),
            String::from(
                "  child hwnd=HWND(0x0) class=\"\" title=\"t\" bounds=Some((-1, 0, -1, 5)) \
                 kept=false reason=empty-bounds"
            ),
        ]
    );
    assert_eq!(
        Window::debug_windows_children(Err(XCapError::new("no desktop")), &options(true)),
        Err(XCapError::new("no desktop"))
    );
}

#[test]
fn the_first_output_that_shows_the_monitor_is_duplicated() {
    let mut search = OutputSearch::new(0xab);
    assert!(matches!(
        search.answered(OutputAnswer::Output { monitor: Ok(1) }),
        OutputStep::Enumerate { index: 1 }
    ));
    assert!(matches!(
        search.answered(OutputAnswer::Output { monitor: Ok(0xab) }),
        OutputStep::Duplicate { index: 1 }
    ));
    let mut none = OutputSearch::new(0xab);
    match none.answered(OutputAnswer::NotFound) {
        OutputStep::Fail { failure } => assert_eq!(
            failure,
            XCapError::new("DXGI output not found for h_monitor HMONITOR(0xab)")
        ),
        _ => panic!("an error was expected"),
    }
    match none.answered(OutputAnswer::Failed {
        description: String::from("E"),
    }) {
        OutputStep::Fail { failure } => {
            assert_eq!(failure, XCapError::new("EnumOutputs failed: E"))
        }
        _ => panic!("an error was expected"),
    }
    match none.answered(OutputAnswer::Output {
        monitor: Err(XCapError::new("no description")),
    }) {
        OutputStep::Fail { failure } => assert_eq!(failure, XCapError::new("no description")),
        _ => panic!("an error was expected"),
    }
}

#[test]
fn acquiring_a_frame_is_given_up_after_eight_attempts() {
    assert_eq!(ACQUIRE_TIMEOUT_MS * ACQUIRE_MAX_ATTEMPTS, 1000);
    let mut acquisition = FrameAcquisition::new();
    for attempt in 1..8 {
        let answer = if attempt % 2 == 0 {
            AcquireAnswer::TimedOut
        } else {
            AcquireAnswer::Acquired {
                has_resource: false,
                last_present_time: 1,
            }
        };
        assert!(matches!(acquisition.answered(answer), AcquireStep::Retry));
    }
    match acquisition.answered(AcquireAnswer::TimedOut) {
        AcquireStep::Fail { failure } => assert_eq!(
            failure,
            XCapError::new("DXGI acquire frame failed: no desktop resource after retries")
        ),
        _ => panic!("an error was expected"),
    }
}

#[test]
fn a_frame_that_was_not_presented_anew_is_used() {
    for last_present_time in [0, 1] {
        let mut acquisition = FrameAcquisition::new();
        assert!(matches!(
            acquisition.answered(AcquireAnswer::Acquired {
                has_resource: true,
                last_present_time,
            }),
            AcquireStep::Use
        ));
    }
    let mut failed = FrameAcquisition::new();
    match failed.answered(AcquireAnswer::Failed {
        description: String::from("lost"),
    }) {
        AcquireStep::Fail { failure } => {
            assert_eq!(failure, XCapError::new("AcquireNextFrame failed: lost"))
        }
        _ => panic!("an error was expected"),
    }
}

fn region(x: u32, y: u32, width: u32, height: u32) -> FrameRegion {
    FrameRegion {
        x,
        y,
        width,
        height,
    }
}

#[test]
fn regions_shrink_to_the_frame() {
    assert_eq!(clamp_region(region(1, 2, 3, 4), 10, 10), Ok(region(1, 2, 3, 4)));
    assert_eq!(clamp_region(region(8, 0, 5, 20), 10, 10), Ok(region(8, 0, 2, 10)));
    let empty = XCapError::new("DXGI capture region is empty");
    assert_eq!(clamp_region(region(10, 0, 5, 5), 10, 10), Err(empty.clone()));
    assert_eq!(clamp_region(region(0, 0, 0, 5), 10, 10), Err(empty.clone()));
    assert_eq!(clamp_region(region(0, u32::MAX, 5, u32::MAX), 10, 10), Err(empty));
}
