//! Open windows, the items that they belong to, and what a click goes to.

use featherdock::activation;
use featherdock::apps;
use featherdock::apps::Lookup;
use featherdock::config::ItemSpec;
use featherdock::content;
use featherdock::content::ContentKind;
use featherdock::dock::{DockItem, ItemRole, RunningWindowRef};
use featherdock::icons;
use featherdock::icons::{IconPlan, IconSource, Picture};
use featherdock::pins;
use featherdock::windows_list;
use featherdock::windows_list::{RunningGroup, RunningWindow, ScreenRect};

fn running(hwnd: isize, title: &str, exe_path: Option<&str>) -> RunningWindow {
    RunningWindow { hwnd, title: title.to_string(), exe_path: exe_path.map(str::to_string) }
}

fn running_window(hwnd: isize, title: &str, exe_path: &str) -> RunningWindow {
    running(hwnd, title, Some(exe_path))
}

fn running_ref(hwnd: isize, title: &str) -> RunningWindowRef {
    RunningWindowRef { hwnd, title: title.to_string() }
}

fn item_with_windows(label: &str, windows: Vec<RunningWindowRef>) -> DockItem {
    DockItem {
        label: label.to_string(),
        glyph: "",
        color: (0, 0, 0),
        path: None,
        icon: None,
        kind: ContentKind::Application,
        role: ItemRole::Running,
        hwnd: windows.first().map(|window| window.hwnd),
        group_key: None,
        windows,
    }
}

fn pinned_item(label: &str, path: &str) -> DockItem {
    DockItem {
        label: label.to_string(),
        glyph: "",
        color: (0, 0, 0),
        path: Some(path.to_string()),
        icon: None,
        kind: ContentKind::Application,
        role: ItemRole::Pinned,
        hwnd: None,
        group_key: None,
        windows: Vec::new(),
    }
}

fn running_group(key: &str, label: &str, windows: Vec<RunningWindow>) -> RunningGroup {
    RunningGroup {
        key: key.to_string(),
        label: label.to_string(),
        icon_path: Some(key.to_string()),
        windows,
    }
}

#[test]
fn builds_image_item_from_path_field() {
    let specs = vec![ItemSpec {
        label: Some("Photo".to_string()),
        path: Some(r"C:\Pictures\photo.png".to_string()),
        ..Default::default()
    }];

    let items = apps::from_config(&specs, &vec![Lookup { app_path: None, is_dir: false }]);
    assert_eq!(items.len(), 1);
    assert_eq!(items[0].path.as_deref(), Some(r"C:\Pictures\photo.png"));
    assert_eq!(items[0].kind, ContentKind::Image);
}

#[test]
fn launcher_helper_window_can_match_pinned_label_by_title() {
    let group = RunningGroup {
        key: r"c:\program files\wegame\browser.exe".to_string(),
        label: "Browser".to_string(),
        icon_path: Some(r"C:\Program Files\WeGame\browser.exe".to_string()),
        windows: vec![RunningWindow {
            hwnd: 42,
            title: "WeGame".to_string(),
            exe_path: Some(r"C:\Program Files\WeGame\browser.exe".to_string()),
        }],
    };

    assert!(apps::title_matches_label("WeGame", &group));
    assert!(!apps::title_matches_label("Game", &group));
    assert!(!apps::title_matches_label("", &group));
}

#[test]
fn classifies_supported_content_types() {
    assert_eq!(content::classify_path(r"C:\Tools", true), ContentKind::Folder);
    assert_eq!(content::classify_path(r"C:\Tools\app.exe", false), ContentKind::Application);
    assert_eq!(content::classify_path(r"C:\Links\site.url", false), ContentKind::Shortcut);
    assert_eq!(content::classify_path(r"C:\Pictures\photo.PNG", false), ContentKind::Image);
    assert_eq!(content::classify_path(r"C:\Docs\manual.pdf", false), ContentKind::File);
    assert_eq!(content::fallback_visual(ContentKind::Folder), ("\u{1F4C1}", (93, 66, 20)));
}

#[test]
fn only_borderless_monitor_fillers_retract_the_dock() {
    assert!(windows_list::fullscreen_should_retract_dock(true, false));
    assert!(!windows_list::fullscreen_should_retract_dock(true, true));
    assert!(!windows_list::fullscreen_should_retract_dock(false, false));
    assert!(!windows_list::fullscreen_should_retract_dock(false, true));
}

#[test]
fn only_captioned_zoomed_windows_count_as_maximized() {
    assert!(windows_list::maximized_should_retract_dock(true));
    assert!(!windows_list::maximized_should_retract_dock(false));
}

#[test]
fn running_windows_with_same_exe_are_grouped_for_one_dock_icon() {
    let groups = windows_list::group_by_application(&vec![
        running(30, "Inbox - Edge", Some(r"C:\Apps\Edge\msedge.exe")),
        running(10, "Docs - Edge", Some(r"c:\apps\edge\msedge.exe")),
        running(20, "Notes", Some(r"C:\Apps\Notes\notes.exe")),
    ]);

    assert_eq!(groups.len(), 2);
    assert_eq!(groups[0].label, "Edge");
    assert_eq!(groups[0].key, r"c:\apps\edge\msedge.exe");
    assert_eq!(
        groups[0]
            .windows
            .iter()
            .map(|window| (window.hwnd, window.title.as_str()))
            .collect::<Vec<_>>(),
        vec![(10, "Docs - Edge"), (30, "Inbox - Edge")]
    );
    assert_eq!(groups[1].label, "Notes");
    assert_eq!(groups[1].windows.len(), 1);
}

#[test]
fn windows_without_process_path_do_not_collapse_together() {
    let groups = windows_list::group_by_application(&vec![
        running(1, "Untitled", None),
        running(2, "Untitled", None),
    ]);

    assert_eq!(groups.len(), 2);
    assert_ne!(groups[0].key, groups[1].key);
}

#[test]
fn a_window_covers_a_monitor_that_it_contains() {
    let monitor = ScreenRect { left: 0, top: 0, right: 1920, bottom: 1080 };
    assert!(windows_list::covers_monitor(monitor, monitor));
    let wider = ScreenRect { left: -8, top: -8, right: 1928, bottom: 1088 };
    assert!(windows_list::covers_monitor(wider, monitor));
    let lower = ScreenRect { left: 0, top: 1, right: 1920, bottom: 1080 };
    assert!(!windows_list::covers_monitor(lower, monitor));
}

#[test]
fn running_signature_changes_when_window_title_changes() {
    let before = vec![running_window(42, "Loading", r"C:\Program Files\WeGame\browser.exe")];
    let after = vec![running_window(42, "WeGame", r"C:\Program Files\WeGame\browser.exe")];

    assert_ne!(activation::running_sig(&before), activation::running_sig(&after));
    assert!(!activation::same_sig(
        &activation::running_sig(&before),
        &activation::running_sig(&after)
    ));
    assert!(activation::same_sig(
        &activation::running_sig(&after),
        &activation::running_sig(&after)
    ));
}

#[test]
fn pinned_launcher_matches_helper_window_by_exact_title() {
    let item = pinned_item("WeGame", r"C:\Program Files\WeGame\wegame.exe");
    let group = running_group(
        r"c:\program files\wegame\browser.exe",
        "Browser",
        vec![running_window(42, "WeGame", r"C:\Program Files\WeGame\browser.exe")],
    );

    assert!(activation::pinned_matches_group(&item, &group));
}

#[test]
fn pinned_identity_match_ignores_stale_cached_windows() {
    let group = running_group(
        r"c:\program files\wegame\browser.exe",
        "Browser",
        vec![running_window(42, "WeGame", r"C:\Program Files\WeGame\browser.exe")],
    );

    assert!(activation::pinned_identity_matches_group(
        "WeGame",
        &Some(r"C:\Program Files\WeGame\wegame.exe".to_string()),
        &group
    ));
}

#[test]
fn activation_prefers_the_window_whose_title_matches_the_app_label() {
    let item = item_with_windows(
        "WeGame",
        vec![
            running_ref(10, "WeGame Helper"),
            running_ref(20, "WeGame"),
            running_ref(30, "Settings"),
        ],
    );

    assert_eq!(activation::activation_target(&item), Some(20));
}

#[test]
fn activation_falls_back_to_the_primary_running_window() {
    let item = item_with_windows(
        "Explorer",
        vec![running_ref(10, "Downloads"), running_ref(20, "Desktop")],
    );

    assert_eq!(activation::activation_target(&item), Some(10));
}

#[test]
fn activation_prefers_foreground_window_in_same_running_group() {
    let item = item_with_windows(
        "Browser",
        vec![running_ref(10, "Docs"), running_ref(20, "Mail")],
    );

    assert_eq!(activation::activation_order_with_foreground(&item, Some(20))[0], 20);
}

#[test]
fn activation_prefers_live_foreground_window_owned_by_same_app() {
    let item = item_with_windows(
        "Explorer",
        vec![running_ref(10, "Downloads"), running_ref(20, "Desktop")],
    );

    assert_eq!(
        activation::activation_order_with_foreground_owned(&item, Some(99), true)[0],
        99
    );
}

#[test]
fn a_running_program_is_merged_into_its_pinned_item() {
    let pinned = vec![pinned_item("Notes", r"C:\Apps\Notes\notes.exe")];
    let windows = vec![
        running_window(5, "todo", r"c:\apps\notes\NOTES.exe"),
        running_window(6, "song", r"C:\Apps\Player\player.exe"),
    ];
    let items = activation::compose_items(pinned, &windows, true);
    let roles: Vec<ItemRole> = items.iter().map(|item| item.role).collect();
    assert_eq!(
        roles,
        vec![
            ItemRole::Start,
            ItemRole::Drawer,
            ItemRole::Pinned,
            ItemRole::Divider,
            ItemRole::Running,
            ItemRole::Control
        ]
    );
    assert_eq!(items[2].windows, vec![running_ref(5, "todo")]);
    assert_eq!(items[4].windows, vec![running_ref(6, "song")]);
}

#[test]
fn a_pinned_item_has_the_icon_that_was_chosen_for_it() {
    let mut item = pinned_item("Notes", r"C:\notes.exe");
    assert!(matches!(
        icons::icon_plan(&item),
        IconPlan::File { path, kind: Some(ContentKind::Application) } if path == r"C:\notes.exe"
    ));
    item.icon = Some(r"C:\notes.png".to_string());
    assert!(matches!(
        icons::icon_plan(&item),
        IconPlan::File { path, kind: None } if path == r"C:\notes.png"
    ));
    let window = item_with_windows("W", vec![running_ref(7, "w")]);
    assert!(matches!(icons::icon_plan(&window), IconPlan::Window(7)));
    assert!(matches!(icons::icon_plan(&apps::start_item()), IconPlan::Nothing));
}

#[test]
fn pictures_are_tried_as_pictures_first() {
    assert_eq!(
        icons::icon_sources(ContentKind::Image),
        vec![
            IconSource::Picture,
            IconSource::Extracted,
            IconSource::Jumbo,
            IconSource::Shell
        ]
    );
    assert_eq!(
        icons::icon_sources(ContentKind::File),
        vec![IconSource::Extracted, IconSource::Jumbo, IconSource::Shell]
    );
    assert_eq!(icons::picture(ItemRole::Divider, true), Picture::Line);
    assert_eq!(icons::picture(ItemRole::Pinned, true), Picture::Icon);
    assert_eq!(icons::picture(ItemRole::Pinned, false), Picture::Tile);
    assert_eq!(
        icons::fresh_icons(&vec![Some(0), None, Some(7)], 2),
        vec![false, true, true]
    );
}

#[test]
fn previews_go_by_the_application_or_the_label() {
    let mut item = item_with_windows("Label", vec![running_ref(7, "w")]);
    assert_eq!(pins::preview_key(&item).as_deref(), Some("Label"));
    item.group_key = Some("app.exe".to_string());
    assert_eq!(pins::preview_key(&item).as_deref(), Some("app.exe"));
    item.windows.clear();
    assert_eq!(pins::preview_key(&item), None);
}

#[test]
fn default_items_stand_in_order() {
    let items = apps::default_items(&None, &None, &None, "Helper", &None);
    let labels: Vec<&str> = items.iter().map(|item| item.label.as_str()).collect();
    assert_eq!(labels, vec!["Edge", "Chrome", "VS Code", "Helper"]);
    assert!(items.iter().all(|item| item.path.is_none() && item.role == ItemRole::Pinned));
}

#[test]
fn names_are_written_with_capitals() {
    assert_eq!(windows_list::title_case_identifier("straßen_plan"), "Straßen Plan");
    assert_eq!(windows_list::title_case_identifier("ßa"), "SSa");
    assert_eq!(windows_list::title_case_identifier("ästhetik-app"), "Ästhetik App");
}
