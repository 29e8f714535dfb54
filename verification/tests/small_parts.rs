//! The smaller rules, each on values of its own.

use featherdock::activation;
use featherdock::apps;
use featherdock::apps::Dated;
use featherdock::categories::Categories;
use featherdock::command_palette;
use featherdock::command_palette::{CommandAction, CommandEntry};
use featherdock::config;
use featherdock::config::ItemSpec;
use featherdock::content::ContentKind;
use featherdock::desktop_scan as scan;
use featherdock::desktop_scan::DesktopEntry;
use featherdock::dock;
use featherdock::dock::{DockItem, ItemRole, RunningWindowRef};
use featherdock::drawer;
use featherdock::drawer::{Drag, DrawerEffect, DrawerEntry, DrawerState};
use featherdock::drawer_layout::Rect;
use featherdock::drawer_view;
use featherdock::folder_stack as stack;
use featherdock::folder_stack::StackEntry;
use featherdock::panel_layout as layout;
use featherdock::panel_layout::PanelAction;
use featherdock::panel_text;
use featherdock::repair;
use featherdock::repair::{Finding, ItemFindings, Neighbour};
use featherdock::settings::{Settings, TaskbarMode};
use featherdock::settings_window as window;
use featherdock::sysctl;
use featherdock::sysctl::{
    AudioFlow, BluetoothDeviceInfo, BluetoothDevices, InputMethodInfo, InputMethods,
};
use featherdock::taskbar;
use featherdock::taskbar::Step;
use featherdock::wifi;
use featherdock::wifi::{WifiNetworkInfo, WifiNetworks};
use featherdock::window_preview as preview;
use featherdock::windows_list as windows;
use featherdock::windows_list::{
    Change, FoundWindow, RunningGroup, RunningWindow, ScreenRect, WindowFacts, WindowStep,
};

fn s(text: &str) -> String {
    text.to_string()
}

fn pinned(label: &str, path: Option<&str>) -> DockItem {
    DockItem {
        label: s(label),
        glyph: "",
        color: (0, 0, 0),
        path: path.map(s),
        icon: None,
        kind: ContentKind::Application,
        role: ItemRole::Pinned,
        hwnd: None,
        group_key: None,
        windows: Vec::new(),
    }
}

fn notes() -> RunningGroup {
    RunningGroup {
        key: s(r"c:\apps\notes.exe"),
        label: s("Notes"),
        icon_path: Some(s(r"C:\apps\Notes.exe")),
        windows: vec![
            RunningWindow { hwnd: 3, title: s("a - Notes"), exe_path: None },
            RunningWindow { hwnd: 5, title: s("b - Notes"), exe_path: None },
        ],
    }
}

#[test]
fn titles_are_compared_with_labels() {
    assert!(activation::title_equals_label("  notes ", "Notes"));
    assert!(!activation::title_equals_label("notes 2", "Notes"));
    assert!(!activation::title_equals_label("", ""));
    assert!(activation::title_starts_with_label("NOTES - a", "Notes"));
    assert!(!activation::title_starts_with_label("Notes", "Notes"));
    assert!(!activation::title_starts_with_label("Notebook", "Note"));
    assert!(!activation::title_starts_with_label(" x", ""));
}

#[test]
fn the_window_in_front_may_belong_to_an_item() {
    let mut item = pinned("Notes", Some(r"C:\apps\notes.exe"));
    item.windows.push(RunningWindowRef { hwnd: 3, title: s("a") });
    let own = Some(s(r"D:\old\notes.exe"));
    let shouted = Some(s(r"D:\old\NOTES.EXE"));
    let other = Some(s(r"C:\apps\other.exe"));
    assert!(activation::foreground_window_belongs_to_item(&item, 3, false, &None));
    assert!(activation::foreground_window_belongs_to_item(&item, 9, true, &own));
    assert!(!activation::foreground_window_belongs_to_item(&item, 9, false, &own));
    assert!(!activation::foreground_window_belongs_to_item(&item, 9, true, &other));
    assert!(!activation::foreground_window_belongs_to_item(&item, 9, true, &shouted));
    assert!(!activation::foreground_window_belongs_to_item(&item, 9, true, &None));
    item.kind = ContentKind::File;
    assert!(!activation::foreground_window_belongs_to_item(&item, 9, true, &own));
    item.group_key = Some(s(r"c:\apps\notes.exe"));
    assert!(activation::foreground_window_belongs_to_item(&item, 9, true, &shouted));
}

#[test]
fn the_windows_of_an_item_are_found_anew() {
    let groups = vec![notes()];
    let path = Some(s(r"C:\apps\notes.exe"));
    assert_eq!(activation::find_group_for_pinned("Notes", &path, &groups), Some(0));
    let other = Some(s(r"C:\apps\other.exe"));
    assert_eq!(activation::find_group_for_pinned("Other", &other, &groups), None);
    let key = Some(s(r"c:\apps\notes.exe"));
    assert_eq!(activation::find_group_for_running("Notes", &key, &groups), Some(0));
    let gone = Some(s(r"c:\apps\gone.exe"));
    assert_eq!(activation::find_group_for_running("Gone", &gone, &groups), None);

    let mut item = pinned("Notes", Some(r"C:\apps\notes.exe"));
    apps::attach_running(&mut item, &groups[0]);
    assert_eq!(item.hwnd, Some(3));
    assert_eq!(item.group_key, key);
    assert_eq!(item.windows.len(), 2);
    assert_eq!(item.role, ItemRole::Pinned);
    let running = apps::running_item(&groups[0]);
    assert_eq!(running.role, ItemRole::Running);
    assert_eq!(running.label, "Notes");
    assert_eq!(running.path, None);
    assert_eq!(running.hwnd, Some(3));
    assert_eq!(running.windows[1].title, "b - Notes");
}

#[test]
fn an_empty_file_gives_the_built_in_items() {
    let built_in = || vec![pinned("Edge", Some(r"C:\edge.exe"))];
    let own = vec![pinned("Own", Some(r"C:\own.exe"))];
    assert_eq!(activation::pinned_or_default(own, built_in())[0].label, "Own");
    assert_eq!(activation::pinned_or_default(Vec::new(), built_in())[0].label, "Edge");
}

#[test]
fn a_program_is_launched_from_the_first_place_that_is_known() {
    let app = Some(s(r"C:\reg\x.exe"));
    let mut spec = ItemSpec { app: Some(s("x.exe")), ..Default::default() };
    assert_eq!(apps::resolve_launch_path(&spec, &app), app);
    spec.exe = Some(s(r"C:\exe.exe"));
    assert_eq!(apps::resolve_launch_path(&spec, &app).as_deref(), Some(r"C:\exe.exe"));
    spec.path = Some(s(r"C:\path.lnk"));
    assert_eq!(apps::resolve_launch_path(&spec, &app).as_deref(), Some(r"C:\path.lnk"));
    assert_eq!(apps::resolve_launch_path(&ItemSpec::default(), &app), None);

    assert!(apps::exe_matches(r"C:\Apps\Notes.exe", r"c:\apps\notes.exe"));
    assert!(apps::exe_matches(r"D:\x\Notes.exe", r"c:\apps\notes.exe"));
    assert!(!apps::exe_matches(r"C:\Apps\Other.exe", r"c:\apps\notes.exe"));
    assert_eq!(apps::label_from(&Some(s(r"C:\a\Some.App.exe"))), "Some.App");
    assert_eq!(apps::label_from(&None), "App");
}

#[test]
fn programs_are_looked_up_where_the_system_has_them() {
    assert_eq!(
        apps::app_paths_key("chrome.exe"),
        r"SOFTWARE\Microsoft\Windows\CurrentVersion\App Paths\chrome.exe"
    );
    assert_eq!(apps::registered_path("  \"C:\\a b\\c.exe\"  "), r"C:\a b\c.exe");
    assert_eq!(apps::newest_program(&vec![]), None);
    let found = vec![
        Dated { modified: 1, path: s("one") },
        Dated { modified: 9, path: s("two") },
        Dated { modified: 9, path: s("three") },
    ];
    assert_eq!(apps::newest_program(&found).as_deref(), Some("two"));
    assert_eq!(
        sysctl::keyboard_layout_key("00000804"),
        r"SYSTEM\CurrentControlSet\Control\Keyboard Layouts\00000804"
    );
}

#[test]
fn a_default_file_holds_the_items_with_a_path() {
    let items = vec![pinned("Edge", Some(r"C:\edge.exe")), pinned("Bare", None)];
    let read = config::parse(&config::write_default(&items)).items;
    assert_eq!(read.len(), 1);
    assert_eq!(read[0].label.as_deref(), Some("Edge"));
    assert_eq!(read[0].path.as_deref(), Some(r"C:\edge.exe"));
}

#[test]
fn comments_are_left_out_of_a_line() {
    assert_eq!(config::strip_comment("  # all of it"), "");
    assert_eq!(config::strip_comment("label = \"a # b\" # c"), "label = \"a # b\" ");
    assert_eq!(config::strip_comment("label = 1"), "label = 1");
}

#[test]
fn a_path_that_leads_somewhere_is_not_mended() {
    let old = r"C:\Program Files\WindowsApps\Vendor.App_1.0.0.0_x64__abc\App.exe";
    let packages = vec![s("Vendor.App_2.0.0.0_x64__abc")];
    let moved = r"C:\Program Files\WindowsApps\Vendor.App_2.0.0.0_x64__abc\App.exe";
    let there = vec![true];
    assert_eq!(repair::repair_launch_path(old, true, &packages, &there, &None), None);
    assert_eq!(
        repair::repair_launch_path(old, false, &packages, &there, &None).as_deref(),
        Some(moved)
    );
    let beside = Some(vec![Neighbour { path: s(r"C:\x\New.exe"), is_file: true }]);
    assert_eq!(
        repair::repair_launch_path(r"C:\x\Old.exe", false, &vec![], &vec![], &beside).as_deref(),
        Some(r"C:\x\New.exe")
    );
}

#[test]
fn a_file_is_mended_where_a_path_has_moved() {
    let fine = || Finding { exists: true, repaired: None };
    let moved = || Finding { exists: false, repaired: Some(s(r"C:\new.exe")) };
    let mut file = config::parse("[[item]]\npath = \"C:\\\\old.exe\"\nicon = \"C:\\\\i.ico\"\n");
    let found = vec![ItemFindings { path: fine(), exe: fine(), icon: fine() }];
    assert!(!repair::repair_config_paths(&mut file, &found));
    let found = vec![ItemFindings { path: moved(), exe: moved(), icon: fine() }];
    assert!(repair::repair_config_paths(&mut file, &found));
    assert_eq!(file.items[0].path.as_deref(), Some(r"C:\new.exe"));
    assert_eq!(file.items[0].exe, None);
    assert_eq!(file.items[0].icon.as_deref(), Some(r"C:\i.ico"));
}

#[test]
fn a_result_shows_its_detail() {
    let entry = CommandEntry {
        label: s("Notes"),
        detail: s("window"),
        action: CommandAction::ActivateWindow(4),
    };
    assert_eq!(command_palette::result_text(&entry), "Notes   window");
}

fn shown(label: &str, path: Option<&str>, kind: ContentKind) -> DesktopEntry {
    DesktopEntry { label: s(label), key: s(label), path: path.map(s), pidl: None, kind }
}

#[test]
fn the_drawer_shows_programs_and_fixed_places() {
    let scanned = vec![
        shown("b", Some(r"C:\b.exe"), ContentKind::Application),
        shown("text", Some(r"C:\t.txt"), ContentKind::File),
        shown("A", Some(r"C:\a.lnk"), ContentKind::Shortcut),
    ];
    let bin = || vec![shown("bin", None, ContentKind::File)];
    let labels = |all: Vec<DesktopEntry>| -> Vec<String> {
        all.into_iter().map(|entry| entry.label).collect()
    };
    assert_eq!(labels(scan::scan_programs(scanned, bin())), vec!["A", "b", "bin"]);
    let cached = vec![shown("bin", None, ContentKind::File)];
    assert_eq!(labels(scan::cached_programs(cached, bin())), vec!["bin"]);
}

#[test]
fn a_thing_on_the_desktop_is_known_by_its_path_or_its_name() {
    let file = scan::entry_from_names(Some(s("N")), Some(s(r"C:\N.exe")), false, None, 7).unwrap();
    assert_eq!(file.key, r"c:\n.exe");
    assert_eq!(file.kind, ContentKind::Application);
    assert_eq!(file.pidl, None);
    let place = scan::entry_from_names(Some(s("PC")), None, false, Some(s("::{1}")), 7).unwrap();
    assert_eq!(place.key, "::{1}");
    assert_eq!(place.path, None);
    assert_eq!(place.pidl, Some(7));
    let bare = scan::entry_from_names(Some(s("PC")), Some(s("")), false, None, 7).unwrap();
    assert_eq!(bare.key, "virt:PC");
    assert!(scan::entry_from_names(None, Some(s(r"C:\N.exe")), false, None, 7).is_none());
}

#[test]
fn a_divider_is_narrow() {
    assert_eq!(dock::role_base_width(ItemRole::Divider), 16);
    assert_eq!(dock::role_base_width(ItemRole::Pinned), 50);
}

#[test]
fn the_drawer_counts_what_it_shows() {
    assert_eq!(drawer::title_text(0), "桌面");
    assert_eq!(drawer::title_text(12), "桌面 · 12 个程序");
    assert_eq!(drawer::section_text("Work", 0), "Work");
    assert_eq!(drawer::section_text("Work", 3), "Work · 3");
}

#[test]
fn a_new_category_has_a_name_and_takes_programs() {
    let mut categories = Categories::default();
    assert_eq!(drawer::add_category(&mut categories), 0);
    assert_eq!(drawer::add_category(&mut categories), 1);
    assert_eq!(categories.categories[1].name, "新分类 2");
    let entries = vec![DrawerEntry {
        label: s("a"),
        key: s("a"),
        path: None,
        pidl: None,
        glyph: "",
        color: (0, 0, 0),
    }];
    assert!(drawer::move_entry_to_category(&entries, &mut categories, 0, Some(1)));
    assert_eq!(categories.categories[1].items, vec!["a"]);
    assert!(drawer::move_entry_to_category(&entries, &mut categories, 0, None));
    assert!(categories.categories[1].items.is_empty());
    assert!(!drawer::move_entry_to_category(&entries, &mut categories, 4, Some(0)));
}

#[test]
fn the_menus_of_the_drawer() {
    let lines = drawer::entry_menu(true, false);
    assert_eq!((lines[1].id, lines[1].text.as_str()), (3102, "固定到 Dock"));
    assert!(lines[1].enabled);
    let lines = drawer::entry_menu(true, true);
    assert_eq!(lines[1].text, "已固定到 Dock");
    assert!(!lines[1].enabled);
    assert!(!drawer::entry_menu(false, false)[1].enabled);
    assert!(!drawer::background_menu(false)[1].enabled);
    assert!(drawer::background_menu(true)[1].enabled);

    let file = Some(config::parse("[[item]]\npath = \"C:/X.exe\"\n"));
    assert!(drawer::path_is_pinned(&file, r"c:\x.EXE"));
    assert!(!drawer::path_is_pinned(&file, r"c:\y.exe"));
    assert!(!drawer::path_is_pinned(&None, r"c:\x.exe"));
}

#[test]
fn escape_gives_up_a_drag_and_then_the_drawer() {
    let drag = Some(Drag { entry: 2, active: true });
    let mut state = DrawerState { hovered: Some(1), drag, editing: false, closing: false };
    assert_eq!(
        drawer::on_escape(&mut state),
        vec![DrawerEffect::Release, DrawerEffect::Redraw]
    );
    assert!(state.drag.is_none() && !state.closing);
    assert_eq!(drawer::on_frame(&state, true), (false, None));
    assert_eq!(
        drawer::on_escape(&mut state),
        vec![DrawerEffect::Release, DrawerEffect::Animate]
    );
    assert!(state.closing && state.hovered.is_none());
    assert_eq!(drawer::start_close(&mut state), vec![]);
    assert_eq!(drawer::on_frame(&state, false), (true, None));
    assert_eq!(drawer::on_frame(&state, true), (false, Some(DrawerEffect::Destroy)));
}

#[test]
fn the_controls_of_a_heading_stand_at_its_right_end() {
    let header = Rect { left: 0, top: 0, right: 9600, bottom: 2880 };
    let (rename, delete) = drawer_view::header_action_rects(&header, 96);
    assert_eq!(rename, Rect { left: 4416, top: 384, right: 6528, bottom: 2496 });
    assert_eq!(delete, Rect { left: 6912, top: 384, right: 9024, bottom: 2496 });
}

#[test]
fn what_is_scrolled_away_is_not_in_sight() {
    let view = drawer_view::Scroller { dots: 96, viewport_h: 1000, scroll: 500, max_scroll: 900 };
    assert!(drawer_view::in_sight(&view, 0, 500));
    assert!(!drawer_view::in_sight(&view, 0, 499));
    assert!(drawer_view::in_sight(&view, 1500, 1600));
    assert!(!drawer_view::in_sight(&view, 1501, 1600));
}

#[test]
fn no_program_is_twice_in_the_drawer() {
    let mut rows = Categories::default();
    rows.add("a");
    rows.add("b");
    rows.move_item("x", Some(0), 0);
    rows.move_item("y", Some(0), 9);
    rows.move_item("x", Some(1), 0);
    rows.hide_item("y");
    rows.hide_item("y");
    rows.rename(0, "c");
    assert!(rows.categories[0].items.is_empty());
    assert_eq!(rows.categories[1].items, vec!["x"]);
    assert_eq!(rows.hidden, vec!["y"]);
    rows.move_item("y", Some(1), 0);
    rows.remove(0);
    assert_eq!(rows.categories[0].items, vec!["y", "x"]);
    assert!(rows.hidden.is_empty());
}

#[test]
fn folders_are_marked_in_a_menu() {
    assert_eq!(stack::entry_text(&StackEntry::new("src", true, "")), "▸ src");
    assert_eq!(stack::entry_text(&StackEntry::new("a.txt", false, "")), "  a.txt");
}

fn networks(count: usize) -> WifiNetworks {
    let one = WifiNetworkInfo {
        ssid: s("n"),
        secure: true,
        has_profile: false,
        signal: 40,
        connected: false,
        connectable: true,
        profile_name: String::new(),
        auth: s("WPA2PSK"),
        cipher: s("AES"),
    };
    WifiNetworks { available: true, networks: vec![one; count], status: None }
}

#[test]
fn lists_make_a_panel_higher() {
    assert_eq!(layout::network_panel_height(&networks(0)), 222 * 6);
    assert_eq!(layout::network_panel_height(&networks(5)), 366 * 6);
    assert_eq!(layout::network_panel_height(&networks(9)), 366 * 6);

    let device = BluetoothDeviceInfo {
        name: s("d"),
        address: String::new(),
        connected: false,
        remembered: true,
        authenticated: false,
    };
    let devices = |count: usize| BluetoothDevices {
        available: true,
        radio_name: None,
        devices: vec![device.clone(); count],
        status: None,
    };
    assert_eq!(layout::bluetooth_panel_height(&devices(0)), 270 * 6);
    assert_eq!(layout::bluetooth_panel_height(&devices(5)), 366 * 6);

    let method = InputMethodInfo { id: s("1"), label: s("m"), active: false, hkl: 1 };
    let methods = |count: usize| InputMethods { methods: vec![method.clone(); count], status: None };
    assert_eq!(layout::input_panel_height(&methods(0)), 292 * 6);
    assert_eq!(layout::input_panel_height(&methods(5)), 410 * 6);
}

#[test]
fn the_parts_of_the_panel_have_names() {
    assert_eq!(panel_text::section_title(AudioFlow::Output), "输出设备");
    assert_eq!(panel_text::audio_empty_text(AudioFlow::Input), "没有可用输入设备");
    assert_eq!(panel_text::button_action(0), PanelAction::ShowNetworkPanel);
    assert_eq!(panel_text::button_action(1), PanelAction::ShowBluetoothPanel);
    assert_eq!(panel_text::button_action(2), PanelAction::ShowInputPanel);
    assert_eq!(wifi::wlan_error("扫描失败", 5), "扫描失败（错误 5）");
}

#[test]
fn the_settings_are_checked_as_they_are() {
    let mut settings = Settings::default();
    settings.taskbar_mode = TaskbarMode::Hidden;
    let on: Vec<usize> =
        window::checks(&settings, true).into_iter().filter(|c| c.1).map(|c| c.0).collect();
    assert_eq!(
        on,
        vec![
            window::ID_TB_HIDDEN,
            window::ID_DOCK_ALWAYS,
            window::ID_FULLSCREEN,
            window::ID_MAXIMIZED,
            window::ID_DRAWER_ENABLED,
            window::ID_AUTOSTART,
        ]
    );
}

#[test]
fn the_pinned_items_are_listed_with_their_places() {
    let specs = vec![
        ItemSpec::default(),
        ItemSpec { path: Some(s(r"C:\x\Tool.exe")), ..Default::default() },
        ItemSpec { label: Some(s("App")), app: Some(s("a.exe")), ..Default::default() },
    ];
    let rows = window::pin_rows(&specs, &vec![None, None, Some(s(r"C:\a.exe"))]);
    assert_eq!(rows.len(), 2);
    assert_eq!((rows[0].index, rows[0].label.as_str()), (1, "Tool"));
    assert_eq!((rows[1].index, rows[1].label.as_str()), (2, "App"));
    assert_eq!(window::pin_label(r"C:\x\Tool.exe"), "Tool");
    assert_eq!(window::pin_label(""), "应用");
}

#[test]
fn the_window_of_the_settings_is_in_the_middle() {
    assert_eq!(window::centred((0, 0, 1920, 1040), 420, 740), Some((750, 150)));
    assert_eq!(window::centred((-100, 10, 101, 50), 100, 53), Some((-100, 9)));
    assert_eq!(window::centred((i32::MAX, 0, 10, 0), 0, 0), None);
}

#[test]
fn an_input_method_has_the_best_name_that_is_known() {
    let layout = Some(s("Pinyin"));
    let locale = Some(s("Chinese"));
    let named = |layout: &Option<String>, locale: &Option<String>| {
        sysctl::input_method(0x0804_0804, true, layout.clone(), locale.clone()).unwrap()
    };
    assert_eq!(named(&layout, &locale).label, "Pinyin");
    assert_eq!(named(&None, &locale).label, "Chinese");
    assert_eq!(named(&None, &None).label, "输入法 08040804");
    assert_eq!(named(&layout, &locale).hkl, 0x0804_0804);
    assert!(sysctl::input_method(0, true, layout, locale).is_none());
    let only = sysctl::current_input_method(None);
    assert!(only.methods.is_empty());
    assert_eq!(only.status.as_deref(), Some("Only the current input method was detected"));
}

#[test]
fn a_louder_level_ends_muting() {
    assert!(sysctl::unmutes(false, true));
    assert!(!sysctl::unmutes(true, true));
    assert!(!sysctl::unmutes(false, false));
}

#[test]
fn the_bar_is_shown_and_hidden_in_steps() {
    let back = vec![Step::Opaque, Step::SetAutohide(true), Step::Show];
    assert_eq!(taskbar::restore_to(true), back);
    assert_eq!(taskbar::reassert_hidden(true), vec![Step::Transparent]);
    assert_eq!(
        taskbar::reassert_hidden(false),
        vec![Step::SetAutohide(true), Step::Transparent]
    );
    assert_eq!(taskbar::reveal_for_start_invocation(TaskbarMode::Show), None);
    assert_eq!(
        taskbar::reveal_for_start_invocation(TaskbarMode::Hidden),
        Some(vec![Step::Opaque, Step::SetAutohide(false), Step::Show])
    );
    assert_eq!(
        taskbar::rehide_after_start_invocation(TaskbarMode::Hidden, false),
        vec![Step::Touch, Step::MarkGuard(false), Step::Transparent, Step::SetAutohide(true)]
    );
    assert_eq!(taskbar::rehide_after_start_invocation(TaskbarMode::Show, false), vec![]);
    assert!(taskbar::is_taskbar_window_class("Shell_TrayWnd"));
    assert!(!taskbar::is_taskbar_window_class("Progman"));
}

#[test]
fn the_preview_grows_with_the_density() {
    assert_eq!(preview::scaled(5, 144), 8);
    assert_eq!(preview::scaled(13, 120), 16);
    assert_eq!(preview::metrics_at(96), preview::base_metrics());
    let m = preview::metrics_at(144);
    assert_eq!((m.thumb_w, m.thumb_h, m.header_h, m.pad), (330, 186, 36, 15));
    let item = ScreenRect { left: 10, top: 34, right: 230, bottom: 158 };
    let base = preview::metrics_at(96);
    assert_eq!(
        preview::title_rect(&item, &base),
        ScreenRect { left: 18, top: 10, right: 204, bottom: 34 }
    );
    assert_eq!(preview::fallback_icon(&item, 56, 8), (92, 60, 56));
    assert_eq!(preview::fallback_icon(&item, 4, 8), (112, 80, 16));
    assert_eq!(preview::footer_text(3), "还有 3 个窗口…");
}

fn facts() -> WindowFacts {
    WindowFacts {
        visible: true,
        app_window: false,
        tool_window: false,
        has_owner: false,
        title_len: 4,
        class: s("Notepad"),
        cloaked: false,
    }
}

#[test]
fn the_windows_of_programs_belong_on_the_dock() {
    assert!(windows::is_alt_tab_window(&facts()));
    assert!(!windows::is_alt_tab_window(&WindowFacts { visible: false, ..facts() }));
    assert!(!windows::is_alt_tab_window(&WindowFacts { has_owner: true, ..facts() }));
    assert!(!windows::is_alt_tab_window(&WindowFacts { tool_window: true, ..facts() }));
    let forced = WindowFacts { has_owner: true, tool_window: true, app_window: true, ..facts() };
    assert!(windows::is_alt_tab_window(&forced));
    assert!(!windows::is_alt_tab_window(&WindowFacts { title_len: 0, ..facts() }));
    assert!(!windows::is_alt_tab_window(&WindowFacts { class: s("Progman"), ..facts() }));
    assert!(!windows::is_alt_tab_window(&WindowFacts { cloaked: true, ..facts() }));

    let found = |hwnd: isize, title: &str, visible: bool| FoundWindow {
        facts: WindowFacts { visible, ..facts() },
        window: RunningWindow { hwnd, title: s(title), exe_path: None },
    };
    let all = vec![found(9, "b", true), found(4, "a", true), found(1, "x", false), found(2, "", true)];
    let handles: Vec<isize> =
        windows::enumerate_sorted(&all).into_iter().map(|window| window.hwnd).collect();
    assert_eq!(handles, vec![4, 9]);
}

#[test]
fn the_window_in_front_covers_the_screen_or_is_maximized() {
    let monitor = Some(ScreenRect { left: 0, top: 0, right: 1920, bottom: 1080 });
    let smaller = Some(ScreenRect { left: 0, top: 0, right: 1920, bottom: 1079 });
    assert!(windows::is_fullscreen_present(true, "Game", true, monitor, monitor, false));
    assert!(!windows::is_fullscreen_present(true, "Game", true, monitor, monitor, true));
    assert!(!windows::is_fullscreen_present(true, "Game", true, smaller, monitor, false));
    assert!(!windows::is_fullscreen_present(true, "Game", false, monitor, monitor, false));
    assert!(!windows::is_fullscreen_present(true, "WorkerW", true, monitor, monitor, false));
    assert!(!windows::is_fullscreen_present(false, "Game", true, monitor, monitor, false));
    assert!(!windows::is_fullscreen_present(true, "Game", true, None, monitor, false));
    assert!(!windows::is_fullscreen_present(true, "Game", true, monitor, None, false));
    assert!(windows::is_maximized_present(true, "App", true, true, true));
    assert!(!windows::is_maximized_present(true, "App", true, true, false));
    assert!(!windows::is_maximized_present(true, "App", true, false, true));
    assert!(!windows::is_maximized_present(true, "App", false, true, true));
    assert_eq!(windows::toggle_maximize(true), WindowStep::Restore);
    assert_eq!(windows::toggle_maximize(false), WindowStep::Maximize);
}

#[test]
fn events_of_windows_are_told_apart() {
    let kind = |event: u32, in_front: bool| windows::classify_event(event, 0, 0, true, in_front);
    assert_eq!(kind(0x8000, false), Some(Change::Windows));
    assert_eq!(kind(0x8018, false), Some(Change::Windows));
    assert_eq!(kind(0x800B, true), Some(Change::Front));
    assert_eq!(kind(0x800B, false), None);
    assert_eq!(kind(0x0003, false), Some(Change::Front));
    assert_eq!(windows::classify_event(0x8000, -4, 0, true, true), None);
    assert_eq!(windows::classify_event(0x8000, 0, 1, true, true), None);
    assert_eq!(windows::classify_event(0x8000, 0, 0, false, true), None);
}
