//! The control center: its views, its state, and what it shows.

use featherdock::control_center as center;
use featherdock::control_center::{PanelEffect, PanelRequest, PanelState};
use featherdock::panel_layout as layout;
use featherdock::panel_layout::{PanelAction, PanelView, PANEL_W};
use featherdock::panel_text;
use featherdock::sysctl::{
    AudioDeviceInfo, AudioDevices, AudioFlow, Battery, BluetoothDeviceInfo, BluetoothDevices,
    InputMethodInfo, InputMethods, SettingsPage,
};
use featherdock::wifi::{WifiNetworkInfo, WifiNetworks};
use featherdock::windows_list::ScreenRect;

/// A logical pixel.
const PX: i32 = 6;

fn audio(id: &str, name: &str, is_default: bool) -> AudioDeviceInfo {
    AudioDeviceInfo { id: id.to_string(), name: name.to_string(), is_default }
}

fn network(
    ssid: &str,
    secure: bool,
    has_profile: bool,
    signal: u8,
    connected: bool,
) -> WifiNetworkInfo {
    WifiNetworkInfo {
        ssid: ssid.to_string(),
        secure,
        has_profile,
        signal,
        connected,
        connectable: true,
        profile_name: ssid.to_string(),
        auth: if secure { "WPA2PSK" } else { "open" }.to_string(),
        cipher: if secure { "AES" } else { "none" }.to_string(),
    }
}

fn bluetooth(name: &str, connected: bool, remembered: bool) -> BluetoothDeviceInfo {
    BluetoothDeviceInfo {
        name: name.to_string(),
        address: String::new(),
        connected,
        remembered,
        authenticated: remembered,
    }
}

fn method(id: &str, label: &str, active: bool) -> InputMethodInfo {
    InputMethodInfo {
        id: id.to_string(),
        label: label.to_string(),
        active,
        hkl: isize::from_str_radix(id, 16).unwrap_or_default(),
    }
}

fn networks(list: Vec<WifiNetworkInfo>) -> WifiNetworks {
    WifiNetworks { available: true, networks: list, status: None }
}

fn panel() -> PanelState {
    let battery = Battery { present: true, charging: false, percent: 80 };
    center::opened(AudioDevices::default(), battery)
}

#[test]
fn control_center_keeps_only_clear_system_quick_actions() {
    assert_eq!(layout::quick_button_count(), 3);
    let labels: Vec<&str> = (0..3).map(layout::button_label).collect();
    assert_eq!(labels, ["网络", "蓝牙", "输入法"]);
    assert!(!labels.contains(&"托盘"));
}

#[test]
fn main_panel_routes_first_phase_targets() {
    let (w, h) = layout::panel_size(PanelView::Main, 100);
    let lay = layout::layout(w, h);

    let at = |area: &layout::Area| layout::main_action_at(&lay, area.left + 4 * PX, area.top + 4 * PX);
    assert_eq!(at(&lay.buttons[0]), PanelAction::ShowNetworkPanel);
    assert_eq!(at(&lay.buttons[1]), PanelAction::ShowBluetoothPanel);
    assert_eq!(at(&lay.buttons[2]), PanelAction::ShowInputPanel);
    assert_eq!(at(&lay.audio_button), PanelAction::ShowAudioPanel);
    assert_eq!(at(&lay.battery_status), PanelAction::ShowBatteryPanel);
    assert_eq!(at(&lay.clock_status), PanelAction::OpenDateTimeSettings);
}

#[test]
fn subpanels_expand_and_return_to_compact_main_panel() {
    let (_, main_h) = layout::panel_size(PanelView::Main, 100);
    let (_, audio_h) = layout::panel_size(PanelView::Audio, 100);
    let (_, battery_h) = layout::panel_size(PanelView::Battery, 100);
    let (_, bluetooth_h) = layout::panel_size(PanelView::Bluetooth, 100);
    let (_, input_h) = layout::panel_size(PanelView::Input, 100);

    assert!(audio_h > main_h);
    assert!(battery_h > main_h);
    assert!(bluetooth_h > main_h);
    assert!(input_h > main_h);
    assert_eq!(layout::panel_size(PanelView::Main, 150).0, PANEL_W * 3 / 2);
}

#[test]
fn audio_device_rows_route_by_flow_and_index() {
    let devices = AudioDevices {
        outputs: vec![audio("out-1", "Speakers", true), audio("out-2", "Headphones", false)],
        inputs: vec![audio("in-1", "Microphone", true)],
    };
    let w = PANEL_W;
    let lay = layout::audio_panel_layout(&devices, w);

    assert_eq!(
        layout::audio_action_at(&devices, w, 20 * PX, lay.output_rows[1].top + 2 * PX),
        PanelAction::SelectAudioDevice { flow: AudioFlow::Output, index: 1 }
    );
    assert_eq!(
        layout::audio_action_at(&devices, w, 20 * PX, lay.input_rows[0].top + 2 * PX),
        PanelAction::SelectAudioDevice { flow: AudioFlow::Input, index: 0 }
    );
}

#[test]
fn views_are_entered_forth_and_left_back() {
    assert_eq!(center::view_switch_direction(PanelView::Main, PanelView::Bluetooth), 100);
    assert_eq!(center::view_switch_direction(PanelView::Bluetooth, PanelView::Main), -100);
    assert_eq!(center::view_switch_direction(PanelView::Input, PanelView::Network), 45);
}

#[test]
fn audio_layout_compacts_when_only_one_output_and_input_exist() {
    let devices = AudioDevices {
        outputs: vec![audio("out-1", "Speakers", true)],
        inputs: vec![audio("in-1", "Microphone", true)],
    };
    let lay = layout::audio_panel_layout(&devices, PANEL_W);
    let output_bottom = lay.output_rows[0].bottom;

    assert!(lay.input_title.top - output_bottom <= 20 * PX);
    assert!(lay.input_rows[0].bottom + 12 * PX <= lay.sound_settings.top);
    assert!(layout::audio_panel_height(&devices) < 374 * PX);
}

#[test]
fn network_rows_route_saved_and_secure_networks_differently() {
    let networks = networks(vec![
        network("Saved", true, true, 88, true),
        network("Needs password", true, false, 64, false),
    ]);
    let w = PANEL_W;
    let lay = layout::network_panel_layout(&networks, w);

    assert_eq!(
        layout::network_action_at(&networks, w, 20 * PX, lay.rows[0].top + 2 * PX),
        PanelAction::ConnectWifi { index: 0 }
    );
    assert_eq!(
        layout::network_action_at(&networks, w, 20 * PX, lay.rows[1].top + 2 * PX),
        PanelAction::SelectWifiForPassword { index: 1 }
    );
}

#[test]
fn network_password_state_masks_and_routes_connect_button() {
    let networks = networks(vec![network("Needs password", true, false, 64, false)]);
    let w = PANEL_W;
    let selected = Some(0);
    let lay = layout::network_panel_layout_for_selection(&networks, selected, w);

    assert_eq!(center::masked_password("secret123"), "•••••••••");
    assert_eq!(
        layout::network_action_at_for_selection(
            &networks,
            selected,
            w,
            lay.password.left + 2 * PX,
            lay.password.top + 2 * PX,
        ),
        PanelAction::FocusWifiPassword
    );
    assert_eq!(
        layout::network_action_at_for_selection(
            &networks,
            selected,
            w,
            lay.connect.left + 2 * PX,
            lay.connect.top + 2 * PX,
        ),
        PanelAction::ConnectSelectedWifi
    );
}

#[test]
fn bluetooth_rows_route_to_device_details_and_settings() {
    let devices = BluetoothDevices {
        available: true,
        radio_name: Some("Adapter".to_string()),
        devices: vec![bluetooth("Keyboard", true, true), bluetooth("Mouse", false, true)],
        status: None,
    };
    let w = PANEL_W;
    let lay = layout::bluetooth_panel_layout(&devices, w);

    assert_eq!(
        layout::bluetooth_action_at(&devices, w, 20 * PX, lay.rows[0].top + 2 * PX),
        PanelAction::OpenBluetoothDevice { index: 0 }
    );
    assert_eq!(
        layout::bluetooth_action_at(
            &devices,
            w,
            lay.bluetooth_settings.left + 2 * PX,
            lay.bluetooth_settings.top + 2 * PX,
        ),
        PanelAction::OpenBluetoothSettings
    );
}

#[test]
fn input_rows_route_to_specific_method_and_shortcut_fallback() {
    let methods = InputMethods {
        methods: vec![
            method("00000804", "中文", true),
            method("00000409", "English", false),
        ],
        status: None,
    };
    let w = PANEL_W;
    let lay = layout::input_panel_layout(&methods, w);

    assert_eq!(
        layout::input_action_at(&methods, w, 20 * PX, lay.rows[1].top + 2 * PX),
        PanelAction::SelectInputMethod { index: 1 }
    );
    assert_eq!(
        layout::input_action_at(
            &methods,
            w,
            lay.system_switch.left + 2 * PX,
            lay.system_switch.top + 2 * PX,
        ),
        PanelAction::CycleInputMethod
    );
}

#[test]
fn a_password_is_typed_tried_and_forgotten() {
    let mut s = panel();
    let (request, effects) = center::run_action(&mut s, PanelAction::ShowNetworkPanel);
    assert_eq!(request, PanelRequest::ScanWifi { refresh: false });
    assert!(effects.is_empty());
    center::on_wifi_scanned(&mut s, networks(vec![network("Home", true, false, 70, false)]), false);
    assert_eq!(s.view, PanelView::Network);

    center::run_action(&mut s, PanelAction::SelectWifiForPassword { index: 0 });
    assert_eq!(s.wifi_message.as_deref(), Some("输入 Home 的密码"));
    let (request, effects) = center::run_action(&mut s, PanelAction::ConnectSelectedWifi);
    assert_eq!(request, PanelRequest::Nothing);
    assert_eq!(effects, vec![PanelEffect::Redraw]);
    assert_eq!(s.wifi_message.as_deref(), Some("请输入网络密码"));

    assert!(!center::handle_wifi_password_char(&mut s, 0x1f));
    assert!(!center::handle_wifi_password_char(&mut s, 0x7f));
    assert!(!center::handle_wifi_password_char(&mut s, 0xD800));
    assert!(!center::handle_wifi_password_char(&mut s, 0x11_0000));
    for c in "pä\u{1F600}x".chars() {
        assert!(center::handle_wifi_password_char(&mut s, c as u32));
    }
    assert!(center::handle_wifi_password_backspace(&mut s));
    assert_eq!(s.wifi_password, "pä\u{1F600}");
    assert_eq!(center::password_text(&s.wifi_password), "•••");
    assert!(center::confirms_password(&s));

    let (request, _) = center::run_action(&mut s, PanelAction::ConnectSelectedWifi);
    assert_eq!(request, PanelRequest::ConnectWifi { index: 0, typed: true });
    center::on_wifi_refused(&mut s, true, "no".to_string());
    assert_eq!(s.wifi_password, "pä\u{1F600}");
    center::on_wifi_connecting(&mut s, 0, networks(vec![]));
    assert_eq!(s.wifi_message.as_deref(), Some("正在连接 Home"));
    assert_eq!(s.wifi_password, "");
    assert!(!center::handle_wifi_password_char(&mut s, 'x' as u32));
    assert!(!center::handle_wifi_password_backspace(&mut s));
}

#[test]
fn a_password_stops_growing() {
    let mut s = panel();
    center::on_wifi_scanned(&mut s, networks(vec![network("N", true, false, 1, false)]), false);
    center::run_action(&mut s, PanelAction::SelectWifiForPassword { index: 0 });
    for _ in 0..80 {
        assert!(center::handle_wifi_password_char(&mut s, 'a' as u32));
    }
    assert_eq!(s.wifi_password.len(), 63);
    assert_eq!(center::password_text(""), "输入网络密码");
}

#[test]
fn networks_are_looked_at_until_one_is_connected_or_looks_run_out() {
    let mut s = panel();
    let effects = center::on_wifi_scanned(&mut s, networks(vec![]), true);
    assert_eq!(effects, vec![PanelEffect::StartWifiTimer, PanelEffect::ShowView]);
    for left in (0..8).rev() {
        let (again, _) = center::on_wifi_timer(&mut s);
        assert!(again);
        let effects = center::on_wifi_polled(&mut s, networks(vec![]));
        assert_eq!(s.wifi_pending_refreshes, left);
        assert_eq!(effects.contains(&PanelEffect::StopWifiTimer), left == 0);
    }
    assert_eq!(s.wifi_message.as_deref(), Some("连接状态仍在更新，稍后可刷新确认"));
    assert_eq!(center::on_wifi_timer(&mut s), (false, vec![PanelEffect::StopWifiTimer]));

    center::on_wifi_scanned(&mut s, networks(vec![]), true);
    center::on_wifi_timer(&mut s);
    center::on_wifi_polled(&mut s, networks(vec![network("Home", true, true, 70, true)]));
    assert_eq!(s.wifi_pending_refreshes, 0);
}

#[test]
fn the_level_of_sound_is_dragged() {
    let mut s = panel();
    let (_, effects) = center::on_press(&mut s, PanelAction::StartVolumeDrag);
    assert_eq!(
        effects,
        vec![PanelEffect::Capture, PanelEffect::ApplySlider, PanelEffect::Redraw]
    );
    assert_eq!(
        center::on_move(&mut s, PanelAction::Nothing),
        vec![PanelEffect::ApplySlider, PanelEffect::Redraw]
    );
    let (request, effects) = center::on_release(&mut s, PanelAction::OpenPowerSettings);
    assert_eq!(request, PanelRequest::Nothing);
    assert_eq!(
        effects,
        vec![PanelEffect::Release, PanelEffect::ApplySlider, PanelEffect::Redraw]
    );
    let (_, effects) = center::on_release(&mut s, PanelAction::OpenPowerSettings);
    assert_eq!(effects, vec![PanelEffect::Open(SettingsPage::Power), PanelEffect::Close]);
    assert_eq!(
        center::on_press(&mut s, PanelAction::ToggleMute).0,
        PanelRequest::ToggleMute
    );
    assert_eq!(
        center::on_move(&mut s, PanelAction::ShowAudioPanel),
        vec![PanelEffect::Redraw]
    );
    assert!(center::on_move(&mut s, PanelAction::ShowAudioPanel).is_empty());
}

#[test]
fn answers_of_the_system_are_shown() {
    let mut s = panel();
    center::on_audio_scanned(
        &mut s,
        AudioDevices { outputs: vec![audio("a", "A", false)], inputs: vec![] },
    );
    assert_eq!(s.view, PanelView::Audio);
    assert_eq!(
        center::on_audio_set(&mut s, AudioFlow::Output, Some(AudioDevices::default())),
        vec![PanelEffect::ReopenAudio, PanelEffect::Redraw]
    );
    assert_eq!(
        center::on_audio_set(&mut s, AudioFlow::Input, None),
        vec![PanelEffect::Open(SettingsPage::Sound), PanelEffect::Close]
    );
    center::on_input_listed(
        &mut s,
        InputMethods { methods: vec![method("00000409", "English", false)], status: None },
    );
    center::on_input_selected(&mut s, 0, None);
    assert_eq!(
        s.input_message.as_deref(),
        Some("Input method switch failed; use the system switch")
    );
    center::on_input_selected(&mut s, 0, Some(InputMethods::default()));
    assert_eq!(s.input_message.as_deref(), Some("Switched to English"));
    center::on_input_cycled(&mut s, InputMethods::default());
    assert_eq!(s.input_message.as_deref(), Some("Triggered system input switch"));
    center::on_bluetooth_scanned(
        &mut s,
        BluetoothDevices {
            available: true,
            radio_name: Some("Adapter".to_string()),
            devices: vec![bluetooth("Mouse", true, true)],
            status: None,
        },
    );
    assert_eq!(center::bluetooth_status(&s).as_deref(), Some("Adapter"));
    let (_, effects) = center::run_action(&mut s, PanelAction::OpenBluetoothDevice { index: 0 });
    assert_eq!(effects, vec![PanelEffect::Open(SettingsPage::Bluetooth), PanelEffect::Close]);
    assert_eq!(
        center::bluetooth_status(&s).as_deref(),
        Some("Opening Bluetooth settings for Mouse")
    );
    center::on_battery_read(&mut s, Battery { present: false, charging: false, percent: 0 });
    assert_eq!(s.view, PanelView::Battery);
    center::run_action(&mut s, PanelAction::BackToMain);
    assert_eq!(s.view, PanelView::Main);
    assert_eq!(s.direction, -100);
}

#[test]
fn rows_say_what_is_in_use() {
    let mut s = panel();
    assert_eq!(center::default_output_name(&s.audio_devices), "打开声音设置");
    s.audio_devices = AudioDevices {
        outputs: vec![
            audio("1", "One", false),
            audio("2", "Two", true),
            audio("3", "Three", false),
            audio("4", "Four", false),
        ],
        inputs: vec![],
    };
    assert_eq!(center::default_output_name(&s.audio_devices), "Two");
    let hovered = PanelAction::SelectAudioDevice { flow: AudioFlow::Output, index: 0 };
    let rows = panel_text::audio_rows(&s.audio_devices.outputs, AudioFlow::Output, hovered);
    assert_eq!(rows.len(), 3);
    assert!(rows[0].hot && !rows[0].marked && rows[0].subtitle.is_none());
    assert_eq!(rows[1].subtitle.as_deref(), Some("当前输出"));
    assert!(rows[1].marked);

    let list: Vec<WifiNetworkInfo> =
        (0..7).map(|i| network(&format!("n{i}"), i == 1, false, 50, i == 0)).collect();
    s.wifi_networks = networks(list);
    s.selected_wifi = Some(1);
    let rows = panel_text::network_rows(&s);
    assert_eq!(rows.len(), 5);
    assert_eq!(rows[0].subtitle.as_deref(), Some("已连接 · 信号 50%"));
    assert_eq!(rows[1].subtitle.as_deref(), Some("需要密码 · 信号 50%"));
    assert!(rows[1].hot && !rows[0].hot);
    assert_eq!(
        center::network_status(&s).as_deref(),
        Some("还有更多网络，打开设置查看更多")
    );
    assert_eq!(panel_text::connect_row(&s).unwrap().subtitle.as_deref(), Some("n1"));
    s.wifi_networks.available = false;
    assert!(panel_text::network_rows(&s).is_empty());
    assert_eq!(center::network_empty_text(&s.wifi_networks), Some("未检测到 Wi-Fi 适配器"));

    s.bluetooth_devices.available = true;
    assert_eq!(
        center::bluetooth_empty_text(&s.bluetooth_devices),
        Some("No paired Bluetooth devices")
    );
    s.bluetooth_devices.devices = vec![bluetooth("Mouse", false, true)];
    assert_eq!(panel_text::bluetooth_rows(&s)[0].subtitle.as_deref(), Some("Paired"));
    s.input_methods.methods = vec![method("00000409", "English", true)];
    assert_eq!(panel_text::input_rows(&s)[0].subtitle.as_deref(), Some("00000409"));
    assert_eq!(panel_text::fixed_rows(PanelView::Input, PanelAction::CycleInputMethod).len(), 2);
    assert_eq!(panel_text::audio_button_row(&s).subtitle.as_deref(), Some("Two"));
    assert_eq!(panel_text::clock_text("09:05", "3月4日"), "09:05   3月4日");
    assert_eq!(panel_text::view_title(PanelView::Network), Some("网络"));
    assert_eq!(
        panel_text::refresh_button(PanelView::Bluetooth),
        Some(("Refresh", PanelAction::RefreshBluetooth))
    );
}

#[test]
fn a_panel_opens_above_its_button_and_grows_upwards() {
    let work = Some(ScreenRect { left: 0, top: 0, right: 1920, bottom: 1040 });
    assert_eq!(center::open_position(960, 900, 340, 222, 10, 8, work), (790, 668));
    assert_eq!(center::open_position(10, 100, 340, 222, 10, 8, work), (8, 8));
    assert_eq!(center::open_position(1900, 900, 340, 222, 10, 8, work), (1572, 668));
    assert_eq!(center::open_position(10, 100, 340, 222, 10, 8, None), (-160, -132));
    let window = ScreenRect { left: 790, top: 668, right: 1130, bottom: 890 };
    assert_eq!(center::resized_position(window, 340, 374, 8, work), (790, 516));
}

#[test]
fn the_pointer_finds_what_the_view_shows() {
    let mut s = panel();
    let h = layout::PANEL_H;
    let lay = layout::layout(PANEL_W, h);
    let b = &lay.buttons[1];
    assert_eq!(
        center::action_at(&s, PANEL_W, h, b.left + 1, b.top + 1),
        PanelAction::ShowBluetoothPanel
    );
    center::on_battery_read(&mut s, Battery { present: true, charging: true, percent: 9 });
    assert_eq!(
        center::action_at(&s, PANEL_W, h, lay.battery_saver.left + 1, lay.battery_saver.top + 1),
        PanelAction::OpenBatterySaverSettings
    );
    assert_eq!(
        center::action_at(&s, PANEL_W, h, lay.back.left + 1, lay.back.top + 1),
        PanelAction::BackToMain
    );
}
