//! The taskbar, the watchdog, the state of the dock, and what the system tells.

use featherdock::atomic;
use featherdock::autostart;
use featherdock::behavior;
use featherdock::behavior::{
    ClickStep, Clicked, Command, ContextMenu, ControlCommand, Effect, HitZone, LifeStep,
    TrayCommand, WatchdogPlan, WatchdogStep,
};
use featherdock::config;
use featherdock::content::ContentKind;
use featherdock::dock::ItemRole;
use featherdock::error_log;
use featherdock::paths;
use featherdock::settings::{DockMode, Settings, TaskbarMode};
use featherdock::sysctl;
use featherdock::sysctl::{
    AudioFlow, Battery, BluetoothDeviceInfo, FoundDevice, InputMethodInfo, KeyStroke, PowerStatus,
    SettingsPage,
};
use featherdock::taskbar;
use featherdock::taskbar::Step;
use featherdock::watchdog;
use featherdock::watchdog::{Restore, WatchdogArgs};
use featherdock::wifi;
use featherdock::wifi::{Auth, Cipher, ConnectPlan, FoundNetwork, WifiError, WifiNetworkInfo};
use featherdock::windows_list;
use featherdock::windows_list::ScreenRect;

fn args(items: &[&str]) -> Vec<String> {
    items.iter().map(|s| s.to_string()).collect()
}

#[test]
fn hidden_mode_reveals_taskbar_for_explicit_start_invocation() {
    assert!(taskbar::should_reveal_for_start_invocation(TaskbarMode::Hidden));
    assert!(!taskbar::should_reveal_for_start_invocation(TaskbarMode::Show));
    assert!(!taskbar::should_reveal_for_start_invocation(TaskbarMode::AutoHide));
}

#[test]
fn invoked_taskbar_rehides_only_after_grace_and_when_not_in_use() {
    assert!(taskbar::should_rehide_after_start_invocation(TaskbarMode::Hidden, true, false));
    assert!(!taskbar::should_rehide_after_start_invocation(TaskbarMode::Hidden, false, false));
    assert!(!taskbar::should_rehide_after_start_invocation(TaskbarMode::Hidden, true, true));
    assert!(!taskbar::should_rehide_after_start_invocation(TaskbarMode::Show, true, false));
}

#[test]
fn hidden_start_invocation_reveals_taskbar_without_synthesizing_win_key() {
    assert!(!taskbar::should_open_start_menu_for_start_invocation(TaskbarMode::Hidden));
    assert!(taskbar::should_open_start_menu_for_start_invocation(TaskbarMode::Show));
    assert!(taskbar::should_open_start_menu_for_start_invocation(TaskbarMode::AutoHide));
}

#[test]
fn hidden_and_autohide_free_the_work_area_via_shell_autohide() {
    assert!(taskbar::autohide_for_mode(TaskbarMode::Hidden, false));
    assert!(taskbar::autohide_for_mode(TaskbarMode::Hidden, true));
    assert!(taskbar::autohide_for_mode(TaskbarMode::AutoHide, false));
    assert!(taskbar::autohide_for_mode(TaskbarMode::AutoHide, true));
    assert!(!taskbar::autohide_for_mode(TaskbarMode::Show, false));
    assert!(taskbar::autohide_for_mode(TaskbarMode::Show, true));
}

#[test]
fn invisible_exstyle_is_layered_plus_click_through() {
    let layered: u32 = 0x0008_0000;
    let transparent: u32 = 0x20;
    assert_eq!(taskbar::EX_INVISIBLE, layered | transparent);
    assert_ne!(taskbar::EX_INVISIBLE & layered, 0);
    assert_ne!(taskbar::EX_INVISIBLE & transparent, 0);
    assert_eq!(taskbar::invisible_style(0x8), Some(0x0008_0028));
    assert_eq!(taskbar::invisible_style(0x0008_0028), None);
    assert_eq!(taskbar::visible_style(0x0008_0028), Some(0x8));
    assert_eq!(taskbar::visible_style(0x8), None);
}

#[test]
fn never_reflow_shell_or_dock_surfaces() {
    assert!(taskbar::is_shell_or_dock_window_class("Shell_TrayWnd"));
    assert!(taskbar::is_shell_or_dock_window_class("WorkerW"));
    assert!(taskbar::is_shell_or_dock_window_class("FeatherDockWindow"));
    assert!(!taskbar::is_shell_or_dock_window_class("Chrome_WidgetWin_1"));
    assert!(taskbar::reflows(true, true, "Chrome_WidgetWin_1"));
    assert!(!taskbar::reflows(true, true, "WorkerW"));
    assert!(!taskbar::reflows(true, false, "Chrome_WidgetWin_1"));
}

#[test]
fn the_taskbar_comes_back_as_it_was() {
    let hidden = taskbar::apply(TaskbarMode::Hidden, false);
    assert!(hidden.contains(&Step::Transparent));
    assert!(hidden.contains(&Step::SetAutohide(true)));
    let back = taskbar::restore(true, false);
    assert!(back.contains(&Step::SetAutohide(false)));
    assert!(back.contains(&Step::Opaque));
    assert!(taskbar::restore(false, false).is_empty());
    assert!(taskbar::recover_if_stranded(None).is_empty());
    assert!(taskbar::recover_if_stranded(Some("1")).contains(&Step::SetAutohide(true)));
    assert!(taskbar::guarded_original(taskbar::guard_text(true)));
    assert!(!taskbar::guarded_original(taskbar::guard_text(false)));
    assert!(taskbar::pointer_over_taskbar(&args(&["Button", "Shell_TrayWnd"])));
    assert!(!taskbar::pointer_over_taskbar(&args(&["Button"])));
}

#[test]
fn parses_watchdog_invocation() {
    let parsed = watchdog::parse_from(&args(&["--watchdog", "4321", "1", "1", "0"])).unwrap();
    assert_eq!(parsed.parent_pid, 4321);
    assert!(parsed.original_autohide);
    assert!(parsed.restore_taskbar);
    assert!(!parsed.restore_desktop_icons);
}

#[test]
fn original_autohide_is_false_unless_explicitly_one() {
    assert!(
        !watchdog::parse_from(&args(&["--watchdog", "10", "0", "0", "0"]))
            .unwrap()
            .original_autohide
    );
    assert!(!watchdog::parse_from(&args(&["--watchdog", "10"])).unwrap().original_autohide);
    assert!(!watchdog::parse_from(&args(&["--watchdog", "10"])).unwrap().restore_taskbar);
    assert!(!watchdog::parse_from(&args(&["--watchdog", "10"])).unwrap().restore_desktop_icons);
}

#[test]
fn parses_independent_restore_scopes() {
    let parsed = watchdog::parse_from(&args(&["--watchdog", "42", "0", "0", "1"])).unwrap();
    assert!(!parsed.original_autohide);
    assert!(!parsed.restore_taskbar);
    assert!(parsed.restore_desktop_icons);
}

#[test]
fn ignores_a_normal_launch() {
    assert!(watchdog::parse_from(&args(&[])).is_none());
    assert!(watchdog::parse_from(&args(&["C:/some/path.lnk"])).is_none());
    assert!(watchdog::parse_from(&args(&["--other", "1"])).is_none());
}

#[test]
fn rejects_a_non_numeric_pid() {
    assert!(watchdog::parse_from(&args(&["--watchdog", "notapid", "1"])).is_none());
}

#[test]
fn a_watchdog_reads_what_it_is_started_with() {
    let given = WatchdogArgs {
        parent_pid: 77,
        original_autohide: true,
        restore_taskbar: true,
        restore_desktop_icons: true,
    };
    let back = watchdog::parse_from(&watchdog::arguments(given)).unwrap();
    assert_eq!(back.parent_pid, 77);
    assert!(back.original_autohide && back.restore_taskbar && back.restore_desktop_icons);
    assert_eq!(
        watchdog::restore_steps(back),
        vec![Restore::Taskbar(true), Restore::ClearGuard, Restore::DesktopIcons]
    );
}

#[test]
fn the_watchdog_follows_the_settings() {
    let mut s = Settings::default();
    s.taskbar_mode = TaskbarMode::Show;
    s.hide_desktop_icons = false;
    assert_eq!(behavior::desired_watchdog_plan(&s), None);
    s.taskbar_mode = TaskbarMode::Hidden;
    let plan = WatchdogPlan { restore_taskbar: true, restore_desktop_icons: false };
    assert_eq!(behavior::desired_watchdog_plan(&s), Some(plan));
    assert_eq!(
        behavior::reconcile_watchdog(Some(plan), Some(plan), true),
        WatchdogStep::Keep
    );
    assert_eq!(
        behavior::reconcile_watchdog(Some(plan), Some(plan), false),
        WatchdogStep::Restart(plan)
    );
    assert_eq!(behavior::reconcile_watchdog(Some(plan), None, true), WatchdogStep::Stop);
}

#[test]
fn a_full_screen_application_is_left_alone() {
    let mut s = behavior::start(Settings::default(), true, false);
    assert!(behavior::fullscreen_suppressed(&s));
    assert_eq!(behavior::hit_zone(&s), HitZone::Nothing);
    assert!(!behavior::resting_target(&s));
    assert!(!behavior::on_scan(&mut s, true, true).contains(&Effect::RebuildScanned));
    assert!(s.pending_rebuild);
    let free = behavior::start(Settings::default(), false, false);
    assert!(behavior::resting_target(&free));
    let mut hiding = Settings::default();
    hiding.dock_mode = DockMode::AutoHide;
    assert!(!behavior::resting_target(&behavior::start(hiding, false, false)));
}

#[test]
fn the_mode_of_the_dock_is_toggled() {
    let mut s = behavior::start(Settings::default(), false, false);
    behavior::on_toggle_dock_mode(&mut s);
    assert_eq!(s.settings.dock_mode, DockMode::AutoHide);
    behavior::on_toggle_dock_mode(&mut s);
    assert_eq!(s.settings.dock_mode, DockMode::Always);
}

#[test]
fn clicks_try_windows_before_opening() {
    let pinned = Clicked {
        role: ItemRole::Pinned,
        kind: ContentKind::Application,
        has_path: true,
        has_window: true,
    };
    let first = behavior::first_click_step(&pinned);
    assert_ne!(first, ClickStep::OpenPath);
    let mut step = first;
    let mut seen = 0;
    while step != ClickStep::Done && seen < 20 {
        step = behavior::next_click_step(&pinned, step, false);
        seen += 1;
    }
    assert_eq!(step, ClickStep::Done);
    let control = Clicked { role: ItemRole::Control, ..pinned };
    assert_eq!(behavior::first_click_step(&control), ClickStep::ToggleControl);
}

#[test]
fn menus_name_their_commands() {
    assert_eq!(behavior::context_menu(ItemRole::Running, false), ContextMenu::Windows);
    assert_eq!(behavior::context_menu(ItemRole::Pinned, true), ContextMenu::Pinned);
    assert_eq!(behavior::context_menu(ItemRole::Start, false), ContextMenu::Tray);
    assert!(behavior::window_menu(1).contains(&Command::CloseWindow));
    assert!(behavior::window_menu(3).contains(&Command::CloseAllWindows));
    assert!(behavior::pinned_menu(0).contains(&Command::Unpin));
    let tray = behavior::tray_menu(true, false);
    let checked: Vec<TrayCommand> =
        tray.iter().filter(|entry| entry.checked).map(|entry| entry.command).collect();
    assert_eq!(checked, vec![TrayCommand::ToggleDockMode]);
    assert_eq!(behavior::label_of_tray_command(TrayCommand::Exit), "退出 FeatherDock");
    assert_eq!(behavior::explorer_select(r"C:\a b.txt"), "/select,\"C:\\a b.txt\"");
}

#[test]
fn what_was_taken_is_given_back() {
    let mut s = Settings::default();
    s.hide_desktop_icons = true;
    let last = behavior::cleanup(&s);
    assert_eq!(last[0], LifeStep::StopWatchdog);
    assert!(last.contains(&LifeStep::RestoreTaskbar));
    assert!(last.contains(&LifeStep::DesktopIcons(false)));
    assert_eq!(behavior::control_command(Some("--quit")), Some(ControlCommand::Quit));
    assert_eq!(behavior::control_command(Some("x")), None);
    assert_eq!(behavior::control_command(None), None);
    let monitor = ScreenRect { left: 100, top: 0, right: 2020, bottom: 1080 };
    assert_eq!(behavior::bottom_centre(monitor, 400, 145), Some((860, 935)));
    assert_eq!(behavior::unpacked_point(0xFFFE_0003), (3, -2));
}

#[test]
fn windows_are_brought_forward() {
    assert!(!windows_list::activate(true, false).is_empty());
    assert_eq!(windows_list::app_label_from_path(r"C:\Apps\Notes\my_notes.exe"), "My Notes");
    assert_eq!(windows_list::normalize_app_key(" \"C:/Apps/X.EXE\" "), "c:/apps/x.exe");
}

#[test]
fn a_battery_says_what_it_is() {
    let none = sysctl::battery(None);
    assert!(!none.present);
    assert_eq!(sysctl::battery_text(none), "未检测到电池");
    let charging = sysctl::battery(Some(PowerStatus {
        ac_line: 1,
        battery_flag: 8,
        battery_percent: 55,
    }));
    assert_eq!(charging, Battery { present: true, charging: true, percent: 55 });
    assert_eq!(sysctl::battery_text(charging), "充电中 55%");
    let alone = Battery { present: true, charging: false, percent: 7 };
    assert_eq!(sysctl::battery_text(alone), "电池 7%");
    assert_eq!(sysctl::clock(9, 5, 12, 3).0, "09:05");
}

#[test]
fn devices_have_names() {
    let found = vec![
        FoundDevice { id: Some("{0}.{a}".to_string()), name: Some("Speakers".to_string()) },
        FoundDevice { id: None, name: Some("lost".to_string()) },
        FoundDevice { id: Some("x".to_string()), name: None },
    ];
    let list = sysctl::audio_list(&found, AudioFlow::Output, &Some("{0}.{a}".to_string()));
    assert_eq!(list[0].name, "Speakers");
    assert!(list[0].is_default);
    assert!(list.iter().all(|device| !device.name.is_empty()));
    let many: Vec<FoundDevice> = (0..20)
        .map(|i| FoundDevice { id: Some(format!("d{i}")), name: Some(format!("n{i}")) })
        .collect();
    let first = sysctl::audio_list(&many, AudioFlow::Input, &None);
    assert_eq!(first.len(), 8);
    assert_eq!(first[7].name, "n7");
    assert_eq!(sysctl::bluetooth_address_string(0x0102_0304_0506), "010203040506");
    let device = |name: &str, connected: bool| BluetoothDeviceInfo {
        name: name.to_string(),
        address: String::new(),
        connected,
        remembered: true,
        authenticated: true,
    };
    let list = sysctl::bluetooth_list(vec![device("b", false), device("a", true)]);
    assert_eq!(list[0].name, "a");
    assert!(sysctl::bluetooth_device_info(String::new(), 0, true, true, true).is_none());
    assert_eq!(sysctl::page_uri(SettingsPage::Network), "ms-settings:network-status");
    assert_eq!(
        sysctl::held_tap(0x5B, 0x20),
        vec![
            KeyStroke { key: 0x5B, up: false },
            KeyStroke { key: 0x20, up: false },
            KeyStroke { key: 0x20, up: true },
            KeyStroke { key: 0x5B, up: true }
        ]
    );
    assert_eq!(sysctl::text_len(&[65, 66, 0, 67]), 2);
    assert_eq!(sysctl::text_len(&[65, 66]), 2);
}

#[test]
fn input_methods_are_listed_once() {
    let method = |hkl: isize| InputMethodInfo {
        id: sysctl::keyboard_layout_id(hkl),
        label: "x".to_string(),
        active: false,
        hkl,
    };
    assert_eq!(sysctl::keyboard_layout_id(0x0804_0804), "08040804");
    let list = sysctl::input_list(vec![method(0x409), method(0x804), method(0x409)]);
    assert_eq!(list.len(), 2);
    assert!(sysctl::selectable(&method(0x409)));
    assert!(!sysctl::selectable(&method(0)));
}

fn network(ssid: &str, secure: bool, has_profile: bool) -> WifiNetworkInfo {
    WifiNetworkInfo {
        ssid: ssid.to_string(),
        secure,
        has_profile,
        signal: 50,
        connected: false,
        connectable: true,
        profile_name: ssid.to_string(),
        auth: if secure { "WPA2PSK" } else { "open" }.to_string(),
        cipher: if secure { "AES" } else { "none" }.to_string(),
    }
}

#[test]
fn a_profile_holds_its_password_as_text() {
    let xml = wifi::wifi_profile_xml(&network("A&B", true, false), "<p\"'>").unwrap();
    assert!(xml.contains("A&amp;B"));
    assert!(!xml.contains("<p\""));
    assert_eq!(wifi::xml_escape("<a & 'b' \"c\">"), "&lt;a &amp; &apos;b&apos; &quot;c&quot;&gt;");
}

fn refusal(n: &WifiNetworkInfo, password: Option<&str>) -> Option<WifiError> {
    wifi::connection_plan(n, password).err()
}

#[test]
fn networks_are_refused_for_a_reason() {
    assert!(matches!(
        wifi::check_network(&network("", true, true)),
        Err(WifiError::NoName)
    ));
    let mut far = network("Far", true, true);
    far.connectable = false;
    assert!(matches!(wifi::check_network(&far), Err(WifiError::NotConnectable)));
    assert!(wifi::check_network(&network("Home", true, true)).is_ok());
    assert!(matches!(
        refusal(&network("Home", true, false), None),
        Some(WifiError::PasswordMissing)
    ));
    let long = "x".repeat(33);
    assert!(matches!(
        refusal(&network(&long, false, false), None),
        Some(WifiError::NameTooLong)
    ));
    let mut odd = network("Odd", true, false);
    odd.auth = "open".to_string();
    assert!(refusal(&odd, Some("pw")).is_some());
    let mut unknown = network("Odd", true, false);
    unknown.cipher = String::new();
    assert!(refusal(&unknown, Some("pw")).is_some());
    assert!(matches!(
        wifi::connection_plan(&network("Home", true, true), None),
        Ok(ConnectPlan::Saved(profile)) if profile == "Home"
    ));
    assert!(matches!(
        wifi::connection_plan(&network("Cafe", false, false), None),
        Ok(ConnectPlan::OpenNetwork(bytes)) if bytes == b"Cafe"
    ));
    assert!(matches!(
        wifi::connection_plan(&network("Home", true, false), Some("pw")),
        Ok(ConnectPlan::NewProfile(_, _))
    ));
    assert!(!WifiError::NoAdapter.message().is_empty());
}

#[test]
fn networks_are_listed_once_and_the_best_first() {
    let found = |ssid: &str, signal: u32, connected: bool| {
        wifi::wifi_network_info(FoundNetwork {
            ssid: ssid.to_string(),
            profile_name: String::new(),
            secure: true,
            has_profile: false,
            connected,
            connectable: true,
            signal,
            auth: Auth::Wpa2Psk,
            cipher: Cipher::Ccmp,
        })
    };
    assert!(found("", 10, false).is_none());
    let list = wifi::network_list(vec![
        found("weak", 20, false).unwrap(),
        found("home", 30, true).unwrap(),
        found("weak", 60, false).unwrap(),
        found("loud", 999, false).unwrap(),
    ]);
    let names: Vec<(&str, u8)> = list.iter().map(|n| (n.ssid.as_str(), n.signal)).collect();
    assert_eq!(names, vec![("home", 30), ("loud", 100), ("weak", 60)]);
    assert_eq!(wifi::auth_xml(Auth::Wpa3Sae, true), "WPA3SAE");
    assert_eq!([1, 4, 7, 9, 3].map(wifi::auth_of), [
        Auth::Open,
        Auth::WpaPsk,
        Auth::Wpa2Psk,
        Auth::Wpa3Sae,
        Auth::Other,
    ]);
    assert_eq!([0, 2, 4, 8, 9, 10, 1].map(wifi::cipher_of), [
        Cipher::Plain,
        Cipher::Tkip,
        Cipher::Ccmp,
        Cipher::Gcmp,
        Cipher::Gcmp256,
        Cipher::Ccmp256,
        Cipher::Other,
    ]);
    assert_eq!(wifi::cipher_xml(Cipher::Ccmp, true), "AES");
}

#[test]
fn texts_are_handed_to_the_system_with_a_zero() {
    assert_eq!(atomic::wide("a\u{1F600}"), vec![0x61, 0xD83D, 0xDE00, 0]);
    assert_eq!(atomic::wide_path(r"C:\a"), vec![0x43, 0x3A, 0x5C, 0x61, 0]);
    assert_eq!(atomic::temp_name(7, 9), ".featherdock-7-9.tmp");
}

#[test]
fn the_log_starts_anew_when_it_is_long() {
    assert!(!error_log::starts_anew(None));
    assert!(!error_log::starts_anew(Some(error_log::MAX_LOG_BYTES)));
    assert!(error_log::starts_anew(Some(error_log::MAX_LOG_BYTES + 1)));
    assert_eq!(error_log::log_line(12, "ctx", "bad"), "[12] ctx: bad\n");
}

#[test]
fn autostart_names_this_program() {
    let stored = Some(autostart::run_value(r"C:\Dock\FeatherDock.exe"));
    assert_eq!(stored.as_deref(), Some("\"C:\\Dock\\FeatherDock.exe\""));
    assert!(autostart::is_enabled(&stored, r"c:\dock\featherdock.EXE"));
    assert!(!autostart::is_enabled(&stored, r"C:\Other.exe"));
    assert!(!autostart::is_enabled(&None, r"C:\Other.exe"));
}

#[test]
fn paths_are_taken_apart() {
    assert_eq!(paths::file_name(r"C:\a\b.tar.gz").as_deref(), Some("b.tar.gz"));
    assert_eq!(paths::file_stem(r"C:\a\b.tar.gz").as_deref(), Some("b.tar"));
    assert_eq!(paths::extension(r"C:\a\b.tar.gz").as_deref(), Some("gz"));
    assert_eq!(paths::extension(r"C:\a\.hidden"), None);
    assert_eq!(paths::file_name(r"\\server\share"), None);
    assert_eq!(paths::file_name(r"\\server\share\a").as_deref(), Some("a"));
    assert_eq!(paths::file_name(r"\\server").as_deref(), Some("server"));
    assert_eq!(paths::file_name(r"\\.\COM4"), None);
    assert_eq!(paths::file_name(r"C:\a\.").as_deref(), Some("a"));
    assert_eq!(paths::file_name("C:/a/b/").as_deref(), Some("b"));
    assert_eq!(paths::file_name(r"C:\a\.."), None);
}

#[test]
fn verbatim_paths_are_taken_as_they_stand() {
    let name = |path: &str| paths::file_name(path);
    assert_eq!(name(r"\\?\UNC\server\share"), None);
    assert_eq!(name(r"\\?\UNC\server\share\a.exe").as_deref(), Some("a.exe"));
    assert_eq!(name(r"\\?\UNC\server"), None);
    assert_eq!(name(r"\\?\UNC\server\\a").as_deref(), Some("a"));
    assert_eq!(name(r"\\?\UNC"), None);
    assert_eq!(name(r"\\?\C:"), None);
    assert_eq!(name(r"\\?\C:\a.exe").as_deref(), Some("a.exe"));
    assert_eq!(name(r"\\?\C:\a/b.exe").as_deref(), Some("a/b.exe"));
    assert_eq!(name(r"\\?\C:/a/b.exe").as_deref(), Some("a/b.exe"));
    assert_eq!(name(r"\\?\C:\a\."), None);
    assert_eq!(name(r"\\?\C:\a\").as_deref(), Some("a"));
    assert_eq!(name(r"\\?\volume\a").as_deref(), Some("a"));
    assert_eq!(name(r"\\?\volume/a"), None);
    assert_eq!(name(r"//?/C:/a").as_deref(), Some("a"));
    assert_eq!(paths::extension(r"\\?\C:\a\b.txt").as_deref(), Some("txt"));
}

#[test]
fn the_items_file_stands_below_the_data_of_programs() {
    let place = |appdata: &str| config::config_path_from(appdata);
    assert_eq!(place(r"C:\d"), r"C:\d\FeatherDock\featherdock.toml");
    assert_eq!(place("C:/d/"), r"C:/d/FeatherDock\featherdock.toml");
    assert_eq!(place("C:"), r"C:FeatherDock\featherdock.toml");
    assert_eq!(place(""), r"FeatherDock\featherdock.toml");
    assert_eq!(place(r"\\?\C:/d"), r"\\?\C:\d\FeatherDock\featherdock.toml");
    assert_eq!(place(r"\\?\C:\d\\e\"), r"\\?\C:\d\e\FeatherDock\featherdock.toml");
    assert_eq!(place(r"\\?\C:"), r"\\?\C:\FeatherDock\featherdock.toml");
}

#[test]
fn a_key_does_not_depend_on_the_spelling() {
    let key = |path: &str| config::path_key(path);
    assert_eq!(key(r"C:/Users\Me/"), r"c:\users\me");
    assert_eq!(key(r"c:\USERS/mE\\"), key(r"C:/Users\Me"));
    assert_eq!(key(r"C:\\ΑΣ.EXE"), key(r"c:\\ΑΣ.exe"));
    assert_eq!(key("/"), "");
    // Every character, each after a separator and beside letters.
    let mut all = String::new();
    for c in '\0'..=char::MAX {
        all.push('\\');
        all.push(c);
        all.push('A');
    }
    let made = key(&all);
    assert_eq!(key(&made), made);
    assert_eq!(key(&all.to_ascii_lowercase()), made);
    assert_eq!(key(&all.to_ascii_uppercase()), made);
    assert!(!made.contains('/'));
    assert!(!made.contains(|c: char| c.is_ascii_uppercase()));
    for c in '\0'..=char::MAX {
        let lower: String = c.to_lowercase().collect();
        assert_eq!(lower.to_lowercase(), lower);
        assert!(!lower.is_empty());
        assert!(c == '\\' || !lower.ends_with('\\'));
    }
}
