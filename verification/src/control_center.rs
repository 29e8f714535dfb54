//! The control center: what its panel remembers, and what follows from what the user does
//! and what the system answers.

use vstd::prelude::*;
use crate::numbers;
use crate::panel_layout;
use crate::panel_layout::{PanelAction, PanelView, MAX_ROWS};
use crate::sysctl;
use crate::sysctl::{
    AudioDevices, AudioFlow, Battery, BluetoothDeviceInfo, BluetoothDevices, InputMethods,
    SettingsPage,
};
use crate::text;
use crate::wifi;
use crate::wifi::{WifiNetworkInfo, WifiNetworks};
use crate::windows_list::ScreenRect;

verus! {

/// How often the networks are looked at after an attempt to connect.
pub const WIFI_REFRESH_TICKS: u8 = 8;

/// The most characters of a password.
pub const MAX_PASSWORD: usize = 63;

/// What the panel remembers.
pub struct PanelState {
    pub view: PanelView,
    pub audio_devices: AudioDevices,
    pub wifi_networks: WifiNetworks,
    pub bluetooth_devices: BluetoothDevices,
    pub input_methods: InputMethods,
    pub selected_wifi: Option<usize>,
    pub wifi_password: String,
    pub wifi_password_active: bool,
    pub wifi_message: Option<String>,
    pub wifi_pending_refreshes: u8,
    pub bluetooth_message: Option<String>,
    pub input_message: Option<String>,
    pub battery: Battery,
    pub hovered: PanelAction,
    /// The user drags the level of sound.
    pub dragging: bool,
    /// Which way content moves in when the view changes, in hundredths.
    pub direction: i32,
}

pub ghost struct PanelModel {
    pub view: PanelView,
    pub audio_devices: AudioDevices,
    pub wifi_networks: WifiNetworks,
    pub bluetooth_devices: BluetoothDevices,
    pub input_methods: InputMethods,
    pub selected_wifi: Option<usize>,
    pub wifi_password: Seq<char>,
    pub wifi_password_active: bool,
    pub wifi_message: Option<Seq<char>>,
    pub wifi_pending_refreshes: u8,
    pub bluetooth_message: Option<Seq<char>>,
    pub input_message: Option<Seq<char>>,
    pub battery: Battery,
    pub hovered: PanelAction,
    pub dragging: bool,
    pub direction: i32,
}

impl View for PanelState {
    type V = PanelModel;

    open spec fn view(&self) -> PanelModel {
        PanelModel {
            view: self.view,
            audio_devices: self.audio_devices,
            wifi_networks: self.wifi_networks,
            bluetooth_devices: self.bluetooth_devices,
            input_methods: self.input_methods,
            selected_wifi: self.selected_wifi,
            wifi_password: self.wifi_password@,
            wifi_password_active: self.wifi_password_active,
            wifi_message: text::opt_text(self.wifi_message),
            wifi_pending_refreshes: self.wifi_pending_refreshes,
            bluetooth_message: text::opt_text(self.bluetooth_message),
            input_message: text::opt_text(self.input_message),
            battery: self.battery,
            hovered: self.hovered,
            dragging: self.dragging,
            direction: self.direction,
        }
    }
}

/// One thing done for the panel.
#[derive(Clone, Copy, Debug, PartialEq, Eq, Structural)]
pub enum PanelEffect {
    Redraw,
    /// Fit the window to the view and move its content in.
    ShowView,
    StartWifiTimer,
    StopWifiTimer,
    Open(SettingsPage),
    Close,
    /// Look at the level of the device that is now in use.
    ReopenAudio,
    Capture,
    Release,
    /// Set the level of sound to where the pointer is.
    ApplySlider,
}

/// What is asked of the system before the panel can go on.
#[derive(Clone, Copy, Debug, PartialEq, Eq, Structural)]
pub enum PanelRequest {
    Nothing,
    ToggleMute,
    ScanAudio,
    /// Whether the networks are looked at again and again afterwards.
    ScanWifi { refresh: bool },
    ScanBluetooth,
    ListInput,
    ReadBattery,
    /// Whether with the password that the user has typed.
    ConnectWifi { index: usize, typed: bool },
    SelectInput { index: usize },
    CycleInput,
    SetAudio { flow: AudioFlow, index: usize },
}

/// How deep a view lies.
pub open spec fn depth(v: PanelView) -> int {
    if v == PanelView::Main {
        0
    } else {
        1
    }
}

/// Which way content moves in when the view changes, in hundredths: forth, back, or a
/// little.
pub open spec fn turn(from: PanelView, to: PanelView) -> i32 {
    if depth(to) > depth(from) {
        100
    } else if depth(to) < depth(from) {
        -100i32
    } else {
        45
    }
}

/// Which way content moves in when the view changes, in hundredths.
pub fn view_switch_direction(from: PanelView, to: PanelView) -> (r: i32)
    ensures
        r == turn(from, to),
{
    let from_main: bool = from == PanelView::Main;
    let to_main: bool = to == PanelView::Main;
    if from_main && !to_main {
        100
    } else if to_main && !from_main {
        -100
    } else {
        45
    }
}

/// The state with another view.
pub open spec fn shown(m: PanelModel, view: PanelView) -> PanelModel {
    PanelModel {
        direction: turn(m.view, view),
        view,
        hovered: PanelAction::Nothing,
        dragging: false,
        ..m
    }
}

fn show(s: &mut PanelState, view: PanelView)
    ensures
        final(s)@ == shown(old(s)@, view),
{
    s.direction = view_switch_direction(s.view, view);
    s.view = view;
    s.hovered = PanelAction::Nothing;
    s.dragging = false;
}

/// The state without what the user has typed.
pub open spec fn forgotten(m: PanelModel) -> PanelModel {
    PanelModel { wifi_password: seq![], wifi_password_active: false, ..m }
}

fn forget(s: &mut PanelState)
    ensures
        final(s)@ == forgotten(old(s)@),
{
    s.wifi_password = String::new();
    s.wifi_password_active = false;
    assert(s.wifi_password@ =~= seq![]);
}

/// The panel as it opens.
pub fn opened(audio_devices: AudioDevices, battery: Battery) -> (r: PanelState)
    ensures
        r.view == PanelView::Main,
        r.audio_devices == audio_devices,
        r.wifi_networks.networks@.len() == 0,
        !r.wifi_networks.available,
        r.wifi_networks.status is None,
        r.bluetooth_devices.devices@.len() == 0,
        !r.bluetooth_devices.available,
        r.bluetooth_devices.radio_name is None,
        r.bluetooth_devices.status is None,
        r.input_methods.methods@.len() == 0,
        r.input_methods.status is None,
        r.selected_wifi is None,
        r.wifi_password@.len() == 0,
        !r.wifi_password_active,
        r.wifi_message is None,
        r.wifi_pending_refreshes == 0,
        r.bluetooth_message is None,
        r.input_message is None,
        r.battery == battery,
        r.hovered == PanelAction::Nothing,
        !r.dragging,
        r.direction == 100,
{
    PanelState {
        view: PanelView::Main,
        audio_devices,
        wifi_networks: WifiNetworks::default(),
        bluetooth_devices: BluetoothDevices::default(),
        input_methods: InputMethods::default(),
        selected_wifi: None,
        wifi_password: String::new(),
        wifi_password_active: false,
        wifi_message: None,
        wifi_pending_refreshes: 0,
        bluetooth_message: None,
        input_message: None,
        battery,
        hovered: PanelAction::Nothing,
        dragging: false,
        direction: 100,
    }
}

/// The page of the system's settings that an action opens.
pub open spec fn page_of(action: PanelAction) -> Option<SettingsPage> {
    match action {
        PanelAction::OpenBluetoothDevice { index: _ } => Some(SettingsPage::Bluetooth),
        PanelAction::OpenDateTimeSettings => Some(SettingsPage::DateTime),
        PanelAction::OpenNetworkSettings => Some(SettingsPage::Network),
        PanelAction::OpenBluetoothSettings => Some(SettingsPage::Bluetooth),
        PanelAction::OpenInputSettings => Some(SettingsPage::Typing),
        PanelAction::OpenSoundSettings => Some(SettingsPage::Sound),
        PanelAction::OpenBatterySaverSettings => Some(SettingsPage::BatterySaver),
        PanelAction::OpenPowerSettings => Some(SettingsPage::Power),
        _ => None,
    }
}

/// The page of the system's settings that an action opens.
fn page_for(action: PanelAction) -> (r: Option<SettingsPage>)
    ensures
        r == page_of(action),
{
    match action {
        PanelAction::OpenBluetoothDevice { index: _ } => Some(SettingsPage::Bluetooth),
        PanelAction::OpenDateTimeSettings => Some(SettingsPage::DateTime),
        PanelAction::OpenNetworkSettings => Some(SettingsPage::Network),
        PanelAction::OpenBluetoothSettings => Some(SettingsPage::Bluetooth),
        PanelAction::OpenInputSettings => Some(SettingsPage::Typing),
        PanelAction::OpenSoundSettings => Some(SettingsPage::Sound),
        PanelAction::OpenBatterySaverSettings => Some(SettingsPage::BatterySaver),
        PanelAction::OpenPowerSettings => Some(SettingsPage::Power),
        _ => None,
    }
}

pub open spec fn device_count(m: PanelModel, flow: AudioFlow) -> nat {
    match flow {
        AudioFlow::Output => m.audio_devices.outputs@.len(),
        AudioFlow::Input => m.audio_devices.inputs@.len(),
    }
}

/// The network that the user has selected, where there is one.
pub open spec fn chosen_network(m: PanelModel) -> Option<usize> {
    if m.selected_wifi is Some && m.selected_wifi->Some_0 < m.wifi_networks.networks@.len() {
        m.selected_wifi
    } else {
        None
    }
}

/// Nothing but white space has been typed.
pub open spec fn nothing_typed(m: PanelModel) -> bool {
    text::trimmed(m.wifi_password).len() == 0
}

/// What an action asks of the system.
pub open spec fn asked(m: PanelModel, action: PanelAction) -> PanelRequest {
    match action {
        PanelAction::ShowAudioPanel => PanelRequest::ScanAudio,
        PanelAction::ShowNetworkPanel => PanelRequest::ScanWifi { refresh: false },
        PanelAction::RefreshWifi => PanelRequest::ScanWifi { refresh: true },
        PanelAction::ShowBluetoothPanel => PanelRequest::ScanBluetooth,
        PanelAction::RefreshBluetooth => PanelRequest::ScanBluetooth,
        PanelAction::ShowInputPanel => PanelRequest::ListInput,
        PanelAction::ShowBatteryPanel => PanelRequest::ReadBattery,
        PanelAction::ConnectWifi { index } => if index < m.wifi_networks.networks@.len() {
            PanelRequest::ConnectWifi { index, typed: false }
        } else {
            PanelRequest::Nothing
        },
        PanelAction::ConnectSelectedWifi => if chosen_network(m) is Some && !nothing_typed(m) {
            PanelRequest::ConnectWifi { index: chosen_network(m)->Some_0, typed: true }
        } else {
            PanelRequest::Nothing
        },
        PanelAction::SelectInputMethod { index } => if index < m.input_methods.methods@.len() {
            PanelRequest::SelectInput { index }
        } else {
            PanelRequest::Nothing
        },
        PanelAction::CycleInputMethod => PanelRequest::CycleInput,
        PanelAction::SelectAudioDevice { flow, index } => if index < device_count(m, flow) {
            PanelRequest::SetAudio { flow, index }
        } else {
            PanelRequest::Nothing
        },
        _ => PanelRequest::Nothing,
    }
}

/// The state after an action.
pub open spec fn acted(m: PanelModel, action: PanelAction) -> PanelModel {
    match action {
        PanelAction::SelectWifiForPassword { index } => if index
            < m.wifi_networks.networks@.len() {
            shown(
                PanelModel {
                    selected_wifi: Some(index),
                    wifi_password: seq![],
                    wifi_password_active: true,
                    wifi_message: Some(
                        "输入 "@ + m.wifi_networks.networks@[index as int].ssid@ + " 的密码"@,
                    ),
                    ..m
                },
                PanelView::Network,
            )
        } else {
            m
        },
        PanelAction::FocusWifiPassword => PanelModel { wifi_password_active: true, ..m },
        PanelAction::ConnectSelectedWifi => if chosen_network(m) is Some && nothing_typed(m) {
            PanelModel {
                wifi_message: Some("请输入网络密码"@),
                wifi_password_active: true,
                ..m
            }
        } else {
            m
        },
        PanelAction::OpenBluetoothDevice { index } => if index
            < m.bluetooth_devices.devices@.len() {
            PanelModel {
                bluetooth_message: Some(
                    "Opening Bluetooth settings for "@
                        + m.bluetooth_devices.devices@[index as int].name@,
                ),
                ..m
            }
        } else {
            m
        },
        PanelAction::OpenNetworkSettings => forgotten(m),
        PanelAction::BackToMain => shown(
            PanelModel { selected_wifi: None, ..forgotten(m) },
            PanelView::Main,
        ),
        _ => m,
    }
}

/// What is done at once.
pub open spec fn done(m: PanelModel, action: PanelAction) -> Seq<PanelEffect> {
    match action {
        PanelAction::SelectWifiForPassword { index } => if index
            < m.wifi_networks.networks@.len() {
            seq![PanelEffect::ShowView]
        } else {
            seq![]
        },
        PanelAction::FocusWifiPassword => seq![PanelEffect::Redraw],
        PanelAction::ConnectSelectedWifi => if chosen_network(m) is Some && nothing_typed(m) {
            seq![PanelEffect::Redraw]
        } else {
            seq![]
        },
        PanelAction::BackToMain => seq![PanelEffect::ShowView],
        _ => match page_of(action) {
            Some(page) => seq![PanelEffect::Open(page), PanelEffect::Close],
            None => seq![],
        },
    }
}

fn one_effect(e: PanelEffect) -> (r: Vec<PanelEffect>)
    ensures
        r@ == seq![e],
{
    let mut out: Vec<PanelEffect> = Vec::new();
    out.push(e);
    assert(out@ =~= seq![e]);
    out
}

fn no_effect() -> (r: Vec<PanelEffect>)
    ensures
        r@ == Seq::<PanelEffect>::empty(),
{
    Vec::new()
}

fn three_parts(a: &str, b: &str, c: &str) -> (r: String)
    ensures
        r@ == a@ + b@ + c@,
{
    let mut out = text::chars_of(a);
    text::add_text(&mut out, b);
    text::add_text(&mut out, c);
    text::string_of(&out)
}

fn two_parts(a: &str, b: &str) -> (r: String)
    ensures
        r@ == a@ + b@,
{
    let mut out = text::chars_of(a);
    text::add_text(&mut out, b);
    text::string_of(&out)
}

/// The request that an action makes.
fn request_for(s: &PanelState, action: PanelAction) -> (r: PanelRequest)
    ensures
        r == asked(s@, action),
{
    match action {
        PanelAction::ShowAudioPanel => PanelRequest::ScanAudio,
        PanelAction::ShowNetworkPanel => PanelRequest::ScanWifi { refresh: false },
        PanelAction::RefreshWifi => PanelRequest::ScanWifi { refresh: true },
        PanelAction::ShowBluetoothPanel => PanelRequest::ScanBluetooth,
        PanelAction::RefreshBluetooth => PanelRequest::ScanBluetooth,
        PanelAction::ShowInputPanel => PanelRequest::ListInput,
        PanelAction::ShowBatteryPanel => PanelRequest::ReadBattery,
        PanelAction::ConnectWifi { index } => if index < s.wifi_networks.networks.len() {
            PanelRequest::ConnectWifi { index, typed: false }
        } else {
            PanelRequest::Nothing
        },
        PanelAction::ConnectSelectedWifi => match s.selected_wifi {
            Some(index) => if index < s.wifi_networks.networks.len() && !typed_nothing(s) {
                PanelRequest::ConnectWifi { index, typed: true }
            } else {
                PanelRequest::Nothing
            },
            None => PanelRequest::Nothing,
        },
        PanelAction::SelectInputMethod { index } => if index < s.input_methods.methods.len() {
            PanelRequest::SelectInput { index }
        } else {
            PanelRequest::Nothing
        },
        PanelAction::CycleInputMethod => PanelRequest::CycleInput,
        PanelAction::SelectAudioDevice { flow, index } => {
            let count: usize = match flow {
                AudioFlow::Output => s.audio_devices.outputs.len(),
                AudioFlow::Input => s.audio_devices.inputs.len(),
            };
            if index < count {
                PanelRequest::SetAudio { flow, index }
            } else {
                PanelRequest::Nothing
            }
        },
        _ => PanelRequest::Nothing,
    }
}

fn typed_nothing(s: &PanelState) -> (r: bool)
    ensures
        r == nothing_typed(s@),
{
    let chars = text::chars_of(s.wifi_password.as_str());
    text::trim(&chars).len() == 0
}

/// What an action does: changes the state, asks something of the system, and has things
/// done at once.
pub fn run_action(s: &mut PanelState, action: PanelAction) -> (r: (PanelRequest, Vec<PanelEffect>))
    ensures
        final(s)@ == acted(old(s)@, action),
        r.0 == asked(old(s)@, action),
        r.1@ == done(old(s)@, action),
{
    let request: PanelRequest = request_for(s, action);
    match action {
        PanelAction::SelectWifiForPassword { index } => {
            if index >= s.wifi_networks.networks.len() {
                return (request, no_effect());
            }
            let message = three_parts(
                "输入 ",
                s.wifi_networks.networks[index].ssid.as_str(),
                " 的密码",
            );
            forget(s);
            s.selected_wifi = Some(index);
            s.wifi_password_active = true;
            s.wifi_message = Some(message);
            show(s, PanelView::Network);
            (request, one_effect(PanelEffect::ShowView))
        },
        PanelAction::FocusWifiPassword => {
            s.wifi_password_active = true;
            (request, one_effect(PanelEffect::Redraw))
        },
        PanelAction::ConnectSelectedWifi => {
            let there: bool = match s.selected_wifi {
                Some(index) => index < s.wifi_networks.networks.len(),
                None => false,
            };
            if there && typed_nothing(s) {
                s.wifi_message = Some(text::copy_text("请输入网络密码"));
                s.wifi_password_active = true;
                return (request, one_effect(PanelEffect::Redraw));
            }
            (request, no_effect())
        },
        PanelAction::BackToMain => {
            forget(s);
            s.selected_wifi = None;
            show(s, PanelView::Main);
            (request, one_effect(PanelEffect::ShowView))
        },
        _ => {
            match action {
                PanelAction::OpenBluetoothDevice { index } => {
                    if index < s.bluetooth_devices.devices.len() {
                        let message = two_parts(
                            "Opening Bluetooth settings for ",
                            s.bluetooth_devices.devices[index].name.as_str(),
                        );
                        s.bluetooth_message = Some(message);
                    }
                },
                PanelAction::OpenNetworkSettings => {
                    forget(s);
                },
                _ => {},
            }
            match page_for(action) {
                Some(page) => {
                    let mut out: Vec<PanelEffect> = Vec::new();
                    out.push(PanelEffect::Open(page));
                    out.push(PanelEffect::Close);
                    assert(out@ =~= seq![PanelEffect::Open(page), PanelEffect::Close]);
                    (request, out)
                },
                None => (request, no_effect()),
            }
        },
    }
}

/// The sound devices have been scanned.
pub fn on_audio_scanned(s: &mut PanelState, devices: AudioDevices) -> (r: Vec<PanelEffect>)
    ensures
        final(s)@ == shown(
            PanelModel { audio_devices: devices, ..old(s)@ },
            PanelView::Audio,
        ),
        r@ == seq![PanelEffect::ShowView],
{
    s.audio_devices = devices;
    show(s, PanelView::Audio);
    one_effect(PanelEffect::ShowView)
}

/// The state with networks that have just been scanned.
pub open spec fn scanned(m: PanelModel, networks: WifiNetworks, refresh: bool) -> PanelModel {
    shown(
        PanelModel {
            wifi_networks: networks,
            selected_wifi: None,
            wifi_message: text::opt_text(networks.status),
            wifi_pending_refreshes: if refresh {
                WIFI_REFRESH_TICKS
            } else {
                m.wifi_pending_refreshes
            },
            ..forgotten(m)
        },
        PanelView::Network,
    )
}

/// The networks have been scanned; `refresh` says that they are looked at again.
pub fn on_wifi_scanned(s: &mut PanelState, networks: WifiNetworks, refresh: bool) -> (r: Vec<
    PanelEffect,
>)
    ensures
        final(s)@ == scanned(old(s)@, networks, refresh),
        r@ == (if refresh {
            seq![PanelEffect::StartWifiTimer, PanelEffect::ShowView]
        } else {
            seq![PanelEffect::ShowView]
        }),
{
    forget(s);
    s.wifi_message = text::copy_opt(&networks.status);
    s.wifi_networks = networks;
    s.selected_wifi = None;
    let mut out: Vec<PanelEffect> = Vec::new();
    if refresh {
        s.wifi_pending_refreshes = WIFI_REFRESH_TICKS;
        out.push(PanelEffect::StartWifiTimer);
    }
    show(s, PanelView::Network);
    out.push(PanelEffect::ShowView);
    assert(out@ =~= if refresh {
        seq![PanelEffect::StartWifiTimer, PanelEffect::ShowView]
    } else {
        seq![PanelEffect::ShowView]
    });
    out
}

/// The Bluetooth devices have been scanned.
pub fn on_bluetooth_scanned(s: &mut PanelState, devices: BluetoothDevices) -> (r: Vec<PanelEffect>)
    ensures
        final(s)@ == shown(
            PanelModel {
                bluetooth_devices: devices,
                bluetooth_message: text::opt_text(devices.status),
                ..old(s)@
            },
            PanelView::Bluetooth,
        ),
        r@ == seq![PanelEffect::ShowView],
{
    s.bluetooth_message = text::copy_opt(&devices.status);
    s.bluetooth_devices = devices;
    show(s, PanelView::Bluetooth);
    one_effect(PanelEffect::ShowView)
}

/// The input methods have been listed.
pub fn on_input_listed(s: &mut PanelState, methods: InputMethods) -> (r: Vec<PanelEffect>)
    ensures
        final(s)@ == shown(
            PanelModel {
                input_methods: methods,
                input_message: text::opt_text(methods.status),
                ..old(s)@
            },
            PanelView::Input,
        ),
        r@ == seq![PanelEffect::ShowView],
{
    s.input_message = text::copy_opt(&methods.status);
    s.input_methods = methods;
    show(s, PanelView::Input);
    one_effect(PanelEffect::ShowView)
}

/// The battery has been looked at.
pub fn on_battery_read(s: &mut PanelState, battery: Battery) -> (r: Vec<PanelEffect>)
    ensures
        final(s)@ == shown(PanelModel { battery, ..old(s)@ }, PanelView::Battery),
        r@ == seq![PanelEffect::ShowView],
{
    s.battery = battery;
    show(s, PanelView::Battery);
    one_effect(PanelEffect::ShowView)
}

/// The state while a network is connected to.
pub open spec fn connecting(m: PanelModel, ssid: Seq<char>, networks: WifiNetworks) -> PanelModel {
    shown(
        PanelModel {
            wifi_message: Some("正在连接 "@ + ssid),
            wifi_networks: networks,
            wifi_pending_refreshes: WIFI_REFRESH_TICKS,
            selected_wifi: None,
            ..forgotten(m)
        },
        PanelView::Network,
    )
}

/// The state after the system has refused to connect: with a typed password the user may
/// try again.
pub open spec fn refused(m: PanelModel, typed: bool, error: Seq<char>) -> PanelModel {
    if typed {
        PanelModel { wifi_message: Some(error), wifi_password_active: true, ..m }
    } else {
        shown(
            PanelModel { wifi_message: Some(error), selected_wifi: None, ..forgotten(m) },
            PanelView::Network,
        )
    }
}

/// The system connects to a network: the networks have been scanned again since.
pub fn on_wifi_connecting(s: &mut PanelState, index: usize, networks: WifiNetworks) -> (r: Vec<
    PanelEffect,
>)
    requires
        index < old(s).wifi_networks.networks@.len(),
    ensures
        final(s)@ == connecting(
            old(s)@,
            old(s).wifi_networks.networks@[index as int].ssid@,
            networks,
        ),
        r@ == seq![PanelEffect::StartWifiTimer, PanelEffect::ShowView],
{
    let message = two_parts("正在连接 ", s.wifi_networks.networks[index].ssid.as_str());
    forget(s);
    s.wifi_message = Some(message);
    s.wifi_networks = networks;
    s.wifi_pending_refreshes = WIFI_REFRESH_TICKS;
    s.selected_wifi = None;
    show(s, PanelView::Network);
    let mut out: Vec<PanelEffect> = Vec::new();
    out.push(PanelEffect::StartWifiTimer);
    out.push(PanelEffect::ShowView);
    assert(out@ =~= seq![PanelEffect::StartWifiTimer, PanelEffect::ShowView]);
    out
}

/// The system refuses to connect to a network.
pub fn on_wifi_refused(s: &mut PanelState, typed: bool, error: String) -> (r: Vec<PanelEffect>)
    ensures
        final(s)@ == refused(old(s)@, typed, error@),
        r@ == (if typed {
            seq![PanelEffect::Redraw]
        } else {
            seq![PanelEffect::ShowView]
        }),
{
    s.wifi_message = Some(error);
    if typed {
        s.wifi_password_active = true;
        return one_effect(PanelEffect::Redraw);
    }
    forget(s);
    s.selected_wifi = None;
    show(s, PanelView::Network);
    one_effect(PanelEffect::ShowView)
}

/// An input method has been selected, and the list read again; or it could not be.
pub fn on_input_selected(s: &mut PanelState, index: usize, methods: Option<InputMethods>) -> (r:
    Vec<PanelEffect>)
    requires
        index < old(s).input_methods.methods@.len(),
    ensures
        match methods {
            Some(ms) => final(s)@ == shown(
                PanelModel {
                    input_methods: ms,
                    input_message: Some(
                        "Switched to "@ + old(s).input_methods.methods@[index as int].label@,
                    ),
                    ..old(s)@
                },
                PanelView::Input,
            ) && r@ == seq![PanelEffect::ShowView],
            None => final(s)@ == (PanelModel {
                input_message: Some("Input method switch failed; use the system switch"@),
                ..old(s)@
            }) && r@ == seq![PanelEffect::Redraw],
        },
{
    match methods {
        Some(ms) => {
            let message = two_parts("Switched to ", s.input_methods.methods[index].label.as_str());
            s.input_message = Some(message);
            s.input_methods = ms;
            show(s, PanelView::Input);
            one_effect(PanelEffect::ShowView)
        },
        None => {
            s.input_message = Some(
                text::copy_text("Input method switch failed; use the system switch"),
            );
            one_effect(PanelEffect::Redraw)
        },
    }
}

/// The system has switched to the next input method.
pub fn on_input_cycled(s: &mut PanelState, methods: InputMethods) -> (r: Vec<PanelEffect>)
    ensures
        final(s)@ == shown(
            PanelModel {
                input_methods: methods,
                input_message: Some("Triggered system input switch"@),
                ..old(s)@
            },
            PanelView::Input,
        ),
        r@ == seq![PanelEffect::ShowView],
{
    s.input_methods = methods;
    s.input_message = Some(text::copy_text("Triggered system input switch"));
    show(s, PanelView::Input);
    one_effect(PanelEffect::ShowView)
}

/// A sound device has been selected, and the list read again; or it could not be, and the
/// user is sent to the settings.
pub fn on_audio_set(s: &mut PanelState, flow: AudioFlow, devices: Option<AudioDevices>) -> (r: Vec<
    PanelEffect,
>)
    ensures
        final(s)@ == (match devices {
            Some(d) => PanelModel { audio_devices: d, ..old(s)@ },
            None => old(s)@,
        }),
        r@ == (if devices is None {
            seq![PanelEffect::Open(SettingsPage::Sound), PanelEffect::Close]
        } else if flow == AudioFlow::Output {
            seq![PanelEffect::ReopenAudio, PanelEffect::Redraw]
        } else {
            seq![PanelEffect::Redraw]
        }),
        devices is Some ==> final(s)@.audio_devices == devices->0 && !r@.contains(PanelEffect::Close),
        devices is None ==> r@.contains(PanelEffect::Close) && final(s)@ == old(s)@,
        r@.contains(PanelEffect::ReopenAudio) <==> devices is Some && flow == AudioFlow::Output,
{
    let mut out: Vec<PanelEffect> = Vec::new();
    match devices {
        Some(d) => {
            s.audio_devices = d;
            if flow == AudioFlow::Output {
                out.push(PanelEffect::ReopenAudio);
                out.push(PanelEffect::Redraw);
                assert(out@ =~= seq![PanelEffect::ReopenAudio, PanelEffect::Redraw]);
            } else {
                out.push(PanelEffect::Redraw);
                assert(out@ =~= seq![PanelEffect::Redraw]);
            }
        },
        None => {
            out.push(PanelEffect::Open(SettingsPage::Sound));
            out.push(PanelEffect::Close);
            assert(out@ =~= seq![PanelEffect::Open(SettingsPage::Sound), PanelEffect::Close]);
        },
    }
    out
}

/// The networks are looked at once more, while the panel shows them and as long as there
/// are looks left.
pub open spec fn looks_again(m: PanelModel) -> bool {
    m.view == PanelView::Network && m.wifi_pending_refreshes > 0
}

/// The state after it was time to look at the networks.
pub open spec fn ticked(m: PanelModel) -> PanelModel {
    PanelModel {
        wifi_pending_refreshes: if looks_again(m) {
            (m.wifi_pending_refreshes - 1) as u8
        } else {
            0
        },
        ..m
    }
}

/// The state after it was time to look at the networks `n` times.
pub open spec fn ticked_times(m: PanelModel, n: nat) -> PanelModel
    decreases n,
{
    if n == 0 {
        m
    } else {
        ticked_times(ticked(m), (n - 1) as nat)
    }
}

/// It is time to look at the networks: whether they are scanned once more.
pub fn on_wifi_timer(s: &mut PanelState) -> (r: (bool, Vec<PanelEffect>))
    ensures
        r.0 == looks_again(old(s)@),
        final(s)@ == ticked(old(s)@),
        r.1@ == (if r.0 {
            seq![]
        } else {
            seq![PanelEffect::StopWifiTimer]
        }),
{
    if s.view != PanelView::Network || s.wifi_pending_refreshes == 0 {
        s.wifi_pending_refreshes = 0;
        return (false, one_effect(PanelEffect::StopWifiTimer));
    }
    s.wifi_pending_refreshes = s.wifi_pending_refreshes - 1;
    let out = no_effect();
    assert(out@ =~= seq![]);
    (true, out)
}

pub open spec fn any_connected(ns: Seq<wifi::NetworkView>) -> bool {
    exists|i: int| 0 <= i < ns.len() && (#[trigger] ns[i]).connected
}

fn is_any_connected(ns: &Vec<WifiNetworkInfo>) -> (r: bool)
    ensures
        r == any_connected(wifi::views(ns@)),
{
    let mut i: usize = 0;
    while i < ns.len()
        invariant
            i <= ns@.len(),
            forall|k: int| 0 <= k < i ==> !(#[trigger] wifi::views(ns@)[k]).connected,
        decreases ns@.len() - i,
    {
        if ns[i].connected {
            assert(wifi::views(ns@)[i as int].connected);
            return true;
        }
        i += 1;
    }
    false
}

/// The networks have been scanned once more: the looking ends when one is connected, or
/// when it was the last look.
pub fn on_wifi_polled(s: &mut PanelState, networks: WifiNetworks) -> (r: Vec<PanelEffect>)
    ensures
        ({
            let m = PanelModel { wifi_networks: networks, ..old(s)@ };
            if any_connected(wifi::views(networks.networks@)) {
                &&& final(s)@ == (PanelModel {
                    wifi_message: text::opt_text(networks.status),
                    wifi_pending_refreshes: 0,
                    ..m
                })
                &&& r@ == seq![PanelEffect::StopWifiTimer, PanelEffect::Redraw]
            } else if m.wifi_pending_refreshes == 0 {
                &&& final(s)@ == (PanelModel {
                    wifi_message: Some("连接状态仍在更新，稍后可刷新确认"@),
                    ..m
                })
                &&& r@ == seq![PanelEffect::StopWifiTimer, PanelEffect::Redraw]
            } else {
                final(s)@ == m && r@ == seq![PanelEffect::Redraw]
            }
        }),
        final(s)@.wifi_networks == networks,
        (exists|i: int|
            0 <= i < networks.networks@.len() && (#[trigger] networks.networks@[i])@.connected)
            ==> final(s)@.wifi_pending_refreshes == 0 && final(s)@.wifi_message == text::opt_text(
            networks.status,
        ),
        r@.contains(PanelEffect::StopWifiTimer) <==> final(s)@.wifi_pending_refreshes == 0,
        final(s)@.wifi_password == old(s)@.wifi_password && final(s)@.selected_wifi == old(
            s,
        )@.selected_wifi,
{
    assert(forall|i: int|
        0 <= i < networks.networks@.len() ==> wifi::views(networks.networks@)[i]
            == (#[trigger] networks.networks@[i])@);
    let mut out: Vec<PanelEffect> = Vec::new();
    if is_any_connected(&networks.networks) {
        s.wifi_message = text::copy_opt(&networks.status);
        s.wifi_pending_refreshes = 0;
        out.push(PanelEffect::StopWifiTimer);
    } else if s.wifi_pending_refreshes == 0 {
        s.wifi_message = Some(text::copy_text("连接状态仍在更新，稍后可刷新确认"));
        out.push(PanelEffect::StopWifiTimer);
    }
    s.wifi_networks = networks;
    out.push(PanelEffect::Redraw);
    assert(out@ =~= seq![PanelEffect::StopWifiTimer, PanelEffect::Redraw] || out@
        =~= seq![PanelEffect::Redraw]);
    out
}

/// The button goes down on something.
pub fn on_press(s: &mut PanelState, action: PanelAction) -> (r: (PanelRequest, Vec<PanelEffect>))
    ensures
        final(s)@ == (if action == PanelAction::StartVolumeDrag {
            PanelModel { dragging: true, ..old(s)@ }
        } else {
            old(s)@
        }),
        r.0 == (if action == PanelAction::ToggleMute {
            PanelRequest::ToggleMute
        } else {
            PanelRequest::Nothing
        }),
        r.1@ == (if action == PanelAction::StartVolumeDrag {
            seq![PanelEffect::Capture, PanelEffect::ApplySlider, PanelEffect::Redraw]
        } else if action == PanelAction::ToggleMute {
            seq![PanelEffect::Redraw]
        } else {
            seq![]
        }),
        final(s)@.dragging <==> old(s)@.dragging || action == PanelAction::StartVolumeDrag,
        r.0 == PanelRequest::ToggleMute <==> action == PanelAction::ToggleMute,
        r.1@.contains(PanelEffect::ApplySlider) <==> action == PanelAction::StartVolumeDrag,
        r.1@.contains(PanelEffect::Capture) <==> action == PanelAction::StartVolumeDrag,
{
    match action {
        PanelAction::StartVolumeDrag => {
            s.dragging = true;
            let mut out: Vec<PanelEffect> = Vec::new();
            out.push(PanelEffect::Capture);
            out.push(PanelEffect::ApplySlider);
            out.push(PanelEffect::Redraw);
            assert(out@ =~= seq![
                PanelEffect::Capture,
                PanelEffect::ApplySlider,
                PanelEffect::Redraw,
            ]);
            (PanelRequest::Nothing, out)
        },
        PanelAction::ToggleMute => (PanelRequest::ToggleMute, one_effect(PanelEffect::Redraw)),
        _ => {
            let out = no_effect();
            assert(out@ =~= seq![]);
            (PanelRequest::Nothing, out)
        },
    }
}

/// The button comes up: a drag of the level ends, or else what is under the pointer is
/// done.
pub fn on_release(s: &mut PanelState, action: PanelAction) -> (r: (PanelRequest, Vec<PanelEffect>))
    ensures
        old(s).dragging ==> {
            &&& final(s)@ == (PanelModel { dragging: false, ..old(s)@ })
            &&& r.0 == PanelRequest::Nothing
            &&& r.1@ == seq![PanelEffect::Release, PanelEffect::ApplySlider, PanelEffect::Redraw]
        },
        !old(s).dragging ==> {
            &&& final(s)@ == acted(old(s)@, action)
            &&& r.0 == asked(old(s)@, action)
            &&& r.1@ == done(old(s)@, action)
        },
{
    if s.dragging {
        s.dragging = false;
        let mut out: Vec<PanelEffect> = Vec::new();
        out.push(PanelEffect::Release);
        out.push(PanelEffect::ApplySlider);
        out.push(PanelEffect::Redraw);
        assert(out@ =~= seq![
            PanelEffect::Release,
            PanelEffect::ApplySlider,
            PanelEffect::Redraw,
        ]);
        return (PanelRequest::Nothing, out);
    }
    run_action(s, action)
}

/// The pointer moves onto something: a drag sets the level, or else what is under the
/// pointer is marked.
pub fn on_move(s: &mut PanelState, action: PanelAction) -> (r: Vec<PanelEffect>)
    ensures
        final(s)@ == (if old(s).dragging {
            old(s)@
        } else {
            PanelModel { hovered: action, ..old(s)@ }
        }),
        r@ == (if old(s).dragging {
            seq![PanelEffect::ApplySlider, PanelEffect::Redraw]
        } else if action == old(s).hovered {
            seq![]
        } else {
            seq![PanelEffect::Redraw]
        }),
        old(s)@.dragging <==> r@.contains(PanelEffect::ApplySlider),
        !old(s)@.dragging ==> final(s)@.hovered == action,
        !old(s)@.dragging ==> (r@.contains(PanelEffect::Redraw) <==> action != old(s)@.hovered),
        final(s)@.view == old(s)@.view && final(s)@.dragging == old(s)@.dragging,
{
    let mut out: Vec<PanelEffect> = Vec::new();
    if s.dragging {
        out.push(PanelEffect::ApplySlider);
        out.push(PanelEffect::Redraw);
        assert(out@ =~= seq![PanelEffect::ApplySlider, PanelEffect::Redraw]);
        return out;
    }
    if action != s.hovered {
        s.hovered = action;
        out.push(PanelEffect::Redraw);
        assert(out@ =~= seq![PanelEffect::Redraw]);
        assert(out@[0] == PanelEffect::Redraw);
    } else {
        assert(out@ =~= seq![]);
    }
    out
}

/// The user types into the field for a password.
pub open spec fn takes_typing(m: PanelModel) -> bool {
    m.view == PanelView::Network && m.wifi_password_active
}

/// A number that stands for a character that can be typed.
pub open spec fn typable(ch: u32) -> bool {
    ch >= 0x20 && ch != 0x7f && ch <= 0x10FFFF && !(0xD800 <= ch <= 0xDFFF)
}

/// The state after the user has typed a character.
pub open spec fn typed_in(m: PanelModel, ch: u32) -> PanelModel {
    if takes_typing(m) && typable(ch) && m.wifi_password.len() < MAX_PASSWORD {
        PanelModel { wifi_password: m.wifi_password.push(ch as char), wifi_message: None, ..m }
    } else {
        m
    }
}

/// The state after the user has taken back a character.
pub open spec fn taken_back(m: PanelModel) -> PanelModel {
    if takes_typing(m) {
        PanelModel {
            wifi_password: if m.wifi_password.len() > 0 {
                m.wifi_password.drop_last()
            } else {
                m.wifi_password
            },
            wifi_message: None,
            ..m
        }
    } else {
        m
    }
}

/// A character is the one with its number, which is that of a character.
proof fn lemma_numbered(c: char)
    ensures
        (c as u32) as char == c,
        c as u32 <= 0x10FFFF,
        !(0xD800 <= c as u32 <= 0xDFFF),
{
}

/// The user types a character: whether it is taken. A password that is long enough takes
/// no more.
pub fn handle_wifi_password_char(s: &mut PanelState, ch: u32) -> (r: bool)
    ensures
        r == (takes_typing(old(s)@) && typable(ch)),
        final(s)@ == typed_in(old(s)@, ch),
{
    if s.view != PanelView::Network || !s.wifi_password_active {
        return false;
    }
    if ch < 0x20 || ch == 0x7f {
        return false;
    }
    match char::from_u32(ch) {
        Some(c) => {
            proof {
                lemma_numbered(c);
            }
            let mut typed = text::chars_of(s.wifi_password.as_str());
            if typed.len() < MAX_PASSWORD {
                typed.push(c);
                s.wifi_password = text::string_of(&typed);
                s.wifi_message = None;
            }
            true
        },
        None => false,
    }
}

/// The user takes back a character: whether that is for the panel.
pub fn handle_wifi_password_backspace(s: &mut PanelState) -> (r: bool)
    ensures
        r == takes_typing(old(s)@),
        final(s)@ == taken_back(old(s)@),
{
    if s.view != PanelView::Network || !s.wifi_password_active {
        return false;
    }
    let mut typed = text::chars_of(s.wifi_password.as_str());
    let ghost was = typed@;
    let _ = typed.pop();
    proof {
        if was.len() > 0 {
            assert(typed@ =~= was.drop_last());
        } else {
            assert(typed@ =~= was);
        }
    }
    s.wifi_password = text::string_of(&typed);
    s.wifi_message = None;
    true
}

/// The user confirms: whether what was typed is tried.
pub fn confirms_password(s: &PanelState) -> (r: bool)
    ensures
        r == takes_typing(s@),
{
    s.view == PanelView::Network && s.wifi_password_active
}

/// A dot for each character of a password.
pub fn masked_password(password: &str) -> (r: String)
    ensures
        r@ == Seq::new(password@.len(), |i: int| '\u{2022}'),
{
    let chars = text::chars_of(password);
    let mut out: Vec<char> = Vec::new();
    let mut i: usize = 0;
    while i < chars.len()
        invariant
            chars@ == password@,
            i <= chars@.len(),
            out@ == Seq::new(i as nat, |k: int| '\u{2022}'),
        decreases chars@.len() - i,
    {
        out.push('\u{2022}');
        assert(out@ =~= Seq::new((i + 1) as nat, |k: int| '\u{2022}'));
        i += 1;
    }
    text::string_of(&out)
}

/// What the field for a password shows.
pub fn password_text(password: &str) -> (r: String)
    ensures
        r@ == (if password@.len() == 0 {
            "输入网络密码"@
        } else {
            Seq::new(password@.len(), |i: int| '\u{2022}')
        }),
{
    let chars = text::chars_of(password);
    if chars.len() == 0 {
        text::copy_text("输入网络密码")
    } else {
        masked_password(password)
    }
}

/// The first default device, or else the first.
pub open spec fn in_use(ds: Seq<sysctl::AudioView>) -> Option<sysctl::AudioView> {
    match first_default(ds) {
        Some(d) => Some(d),
        None => if ds.len() > 0 {
            Some(ds[0])
        } else {
            None
        },
    }
}

pub open spec fn first_default(ds: Seq<sysctl::AudioView>) -> Option<sysctl::AudioView>
    decreases ds.len(),
{
    if ds.len() == 0 {
        None
    } else if ds[0].is_default {
        Some(ds[0])
    } else {
        first_default(ds.skip(1))
    }
}

pub open spec fn output_name(devices: AudioDevices) -> Seq<char> {
    match in_use(sysctl::audio_views(devices.outputs@)) {
        Some(d) => d.name,
        None => "打开声音设置"@,
    }
}

/// The name of the device that sound comes from.
pub fn default_output_name(devices: &AudioDevices) -> (r: String)
    ensures
        r@ == output_name(*devices),
{
    let ghost all = sysctl::audio_views(devices.outputs@);
    let n: usize = devices.outputs.len();
    let mut i: usize = 0;
    assert(all.skip(0) =~= all);
    while i < n
        invariant
            n == devices.outputs@.len(),
            all == sysctl::audio_views(devices.outputs@),
            i <= n,
            first_default(all) == first_default(all.skip(i as int)),
        decreases n - i,
    {
        proof {
            assert(all.skip(i as int)[0] == devices.outputs@[i as int]@);
            assert(all.skip(i as int).skip(1) =~= all.skip(i as int + 1));
        }
        if devices.outputs[i].is_default {
            return text::copy_text(devices.outputs[i].name.as_str());
        }
        i += 1;
    }
    if n > 0 {
        assert(all[0] == devices.outputs@[0]@);
        text::copy_text(devices.outputs[0].name.as_str())
    } else {
        text::copy_text("打开声音设置")
    }
}

pub open spec fn network_state(n: wifi::NetworkView) -> Seq<char> {
    if n.connected {
        "已连接"@
    } else if !n.connectable {
        "不可连接"@
    } else if n.has_profile {
        "已保存"@
    } else if n.secure {
        "需要密码"@
    } else {
        "开放网络"@
    }
}

pub open spec fn network_line(n: wifi::NetworkView) -> Seq<char> {
    network_state(n) + " · 信号 "@ + numbers::decimal(n.signal as nat) + seq!['%']
}

/// What is said of a network below its name.
pub fn wifi_subtitle(network: &WifiNetworkInfo) -> (r: String)
    ensures
        r@ == network_line(network@),
{
    let state: &str = if network.connected {
        "已连接"
    } else if !network.connectable {
        "不可连接"
    } else if network.has_profile {
        "已保存"
    } else if network.secure {
        "需要密码"
    } else {
        "开放网络"
    };
    let mut out = text::chars_of(state);
    text::add_text(&mut out, " · 信号 ");
    numbers::add_decimal(&mut out, network.signal as u64);
    out.push('%');
    assert(out@ =~= network_line(network@));
    text::string_of(&out)
}

pub open spec fn bluetooth_line(d: sysctl::BluetoothView) -> Seq<char> {
    if d.connected {
        "Connected"@
    } else if d.authenticated {
        "Paired"@
    } else if d.remembered {
        "Saved"@
    } else {
        "Discovered"@
    }
}

/// What is said of a Bluetooth device below its name.
pub fn bluetooth_subtitle(device: &BluetoothDeviceInfo) -> (r: &'static str)
    ensures
        r@ == bluetooth_line(device@),
{
    if device.connected {
        "Connected"
    } else if device.authenticated {
        "Paired"
    } else if device.remembered {
        "Saved"
    } else {
        "Discovered"
    }
}

/// The first of these that is there.
pub open spec fn first_there(
    a: Option<Seq<char>>,
    b: Option<Seq<char>>,
    c: Option<Seq<char>>,
) -> Option<Seq<char>> {
    if a is Some {
        a
    } else if b is Some {
        b
    } else {
        c
    }
}

/// The line below the networks: what was said last, what is wrong, or that there are more.
pub fn network_status(s: &PanelState) -> (r: Option<String>)
    ensures
        text::opt_text(r) == first_there(
            s@.wifi_message,
            text::opt_text(s.wifi_networks.status),
            if s.wifi_networks.networks@.len() > MAX_ROWS {
                Some("还有更多网络，打开设置查看更多"@)
            } else {
                None
            },
        ),
{
    if s.wifi_message.is_some() {
        return text::copy_opt(&s.wifi_message);
    }
    if s.wifi_networks.status.is_some() {
        return text::copy_opt(&s.wifi_networks.status);
    }
    if s.wifi_networks.networks.len() > MAX_ROWS {
        Some(text::copy_text("还有更多网络，打开设置查看更多"))
    } else {
        None
    }
}

/// The line below the Bluetooth devices: what was said last, what is wrong, the name of
/// the radio, or that there are more.
pub fn bluetooth_status(s: &PanelState) -> (r: Option<String>)
    ensures
        text::opt_text(r) == first_there(
            s@.bluetooth_message,
            text::opt_text(s.bluetooth_devices.status),
            if s.bluetooth_devices.radio_name is Some {
                text::opt_text(s.bluetooth_devices.radio_name)
            } else if s.bluetooth_devices.devices@.len() > MAX_ROWS {
                Some("More devices are available in Settings"@)
            } else {
                None
            },
        ),
{
    if s.bluetooth_message.is_some() {
        return text::copy_opt(&s.bluetooth_message);
    }
    if s.bluetooth_devices.status.is_some() {
        return text::copy_opt(&s.bluetooth_devices.status);
    }
    if s.bluetooth_devices.radio_name.is_some() {
        return text::copy_opt(&s.bluetooth_devices.radio_name);
    }
    if s.bluetooth_devices.devices.len() > MAX_ROWS {
        Some(text::copy_text("More devices are available in Settings"))
    } else {
        None
    }
}

/// The line below the input methods: what was said last, what is wrong, or that there are
/// more.
pub fn input_status(s: &PanelState) -> (r: Option<String>)
    ensures
        text::opt_text(r) == first_there(
            s@.input_message,
            text::opt_text(s.input_methods.status),
            if s.input_methods.methods@.len() > MAX_ROWS {
                Some("More input methods are available in Settings"@)
            } else {
                None
            },
        ),
{
    if s.input_message.is_some() {
        return text::copy_opt(&s.input_message);
    }
    if s.input_methods.status.is_some() {
        return text::copy_opt(&s.input_methods.status);
    }
    if s.input_methods.methods.len() > MAX_ROWS {
        Some(text::copy_text("More input methods are available in Settings"))
    } else {
        None
    }
}

/// What stands in the first row where no network is listed.
pub fn network_empty_text(networks: &WifiNetworks) -> (r: Option<&'static str>)
    ensures
        text::opt_str(r) == (if !networks.available {
            Some("未检测到 Wi-Fi 适配器"@)
        } else if networks.networks@.len() == 0 {
            Some("未找到可用网络"@)
        } else {
            None
        }),
{
    if !networks.available {
        Some("未检测到 Wi-Fi 适配器")
    } else if networks.networks.len() == 0 {
        Some("未找到可用网络")
    } else {
        None
    }
}

/// What stands in the first row where no Bluetooth device is listed.
pub fn bluetooth_empty_text(devices: &BluetoothDevices) -> (r: Option<&'static str>)
    ensures
        text::opt_str(r) == (if !devices.available {
            Some("No Bluetooth adapter detected"@)
        } else if devices.devices@.len() == 0 {
            Some("No paired Bluetooth devices"@)
        } else {
            None
        }),
{
    if !devices.available {
        Some("No Bluetooth adapter detected")
    } else if devices.devices.len() == 0 {
        Some("No paired Bluetooth devices")
    } else {
        None
    }
}

pub open spec fn fits(n: int) -> bool {
    i32::MIN <= n <= i32::MAX
}

/// A panel of a width has room between the sides of a work area.
pub open spec fn roomy(work: ScreenRect, width: int, margin: int) -> bool {
    &&& work.left + margin <= work.right - width - margin
    &&& fits(work.right - width)
    &&& fits(work.right - width - margin)
    &&& fits(work.left + margin)
    &&& fits(work.top + margin)
}

/// The place nearest to a wanted one that keeps a panel inside the work area.
pub open spec fn placed(
    x: int,
    y: int,
    width: int,
    margin: int,
    work: Option<ScreenRect>,
) -> (int, int) {
    match work {
        Some(w) => (
            crate::window_preview::kept(x, w.left + margin, w.right - width - margin),
            if y < w.top + margin {
                w.top + margin
            } else {
                y
            },
        ),
        None => (x, y),
    }
}

fn place(x: i32, y: i32, width: i32, margin: i32, work: Option<ScreenRect>) -> (r: (i32, i32))
    requires
        work matches Some(w) ==> roomy(w, width as int, margin as int),
    ensures
        (r.0 as int, r.1 as int) == placed(x as int, y as int, width as int, margin as int, work),
{
    match work {
        Some(w) => {
            let low: i32 = w.left + margin;
            let high: i32 = w.right - width - margin;
            let top: i32 = w.top + margin;
            (
                if x < low {
                    low
                } else if x > high {
                    high
                } else {
                    x
                },
                if y < top {
                    top
                } else {
                    y
                },
            )
        },
        None => (x, y),
    }
}

/// Where a panel opens: above what it hangs on, in the middle of it, and inside the work
/// area.
pub fn open_position(
    anchor_x: i32,
    anchor_top: i32,
    width: i32,
    height: i32,
    gap: i32,
    margin: i32,
    work: Option<ScreenRect>,
) -> (r: (i32, i32))
    requires
        width >= 0,
        fits(anchor_x - width / 2),
        fits(anchor_top - height),
        fits(anchor_top - height - gap),
        work matches Some(w) ==> roomy(w, width as int, margin as int),
    ensures
        (r.0 as int, r.1 as int) == placed(
            anchor_x - width / 2,
            anchor_top - height - gap,
            width as int,
            margin as int,
            work,
        ),
{
    place(anchor_x - width / 2, anchor_top - height - gap, width, margin, work)
}

/// Where a panel that grows or shrinks stands: its lower side stays where it is, and it is
/// kept inside the work area.
pub fn resized_position(
    window: ScreenRect,
    width: i32,
    height: i32,
    margin: i32,
    work: Option<ScreenRect>,
) -> (r: (i32, i32))
    requires
        fits(window.bottom - height),
        work matches Some(w) ==> roomy(w, width as int, margin as int),
    ensures
        (r.0 as int, r.1 as int) == placed(
            window.left as int,
            window.bottom - height,
            width as int,
            margin as int,
            work,
        ),
{
    place(window.left, window.bottom - height, width, margin, work)
}

/// What is under the pointer.
pub open spec fn action_under(
    m: PanelModel,
    l: panel_layout::Layout,
    width: int,
    x: int,
    y: int,
) -> PanelAction {
    match m.view {
        PanelView::Main => panel_layout::main_action(l, x, y),
        PanelView::Audio => panel_layout::audio_action(
            m.audio_devices.outputs@.len(),
            m.audio_devices.inputs@.len(),
            width,
            x,
            y,
        ),
        PanelView::Battery => panel_layout::battery_action(l, x, y),
        PanelView::Network => panel_layout::network_action(
            wifi::views(m.wifi_networks.networks@),
            m.selected_wifi is Some,
            width,
            x,
            y,
        ),
        PanelView::Bluetooth => panel_layout::bluetooth_action(
            m.bluetooth_devices.devices@.len(),
            width,
            x,
            y,
        ),
        PanelView::Input => panel_layout::input_action(
            m.input_methods.methods@.len(),
            width,
            x,
            y,
        ),
    }
}

/// What is under the pointer in a panel of a size.
pub fn action_at(s: &PanelState, width: i32, height: i32, x: i32, y: i32) -> (r: PanelAction)
    requires
        panel_layout::usable(width, height),
    ensures
        forall|l: panel_layout::Layout| #[trigger]
            panel_layout::is_layout(l, width as int, height as int) ==> r == action_under(
                s@,
                l,
                width as int,
                x as int,
                y as int,
            ),
{
    match s.view {
        PanelView::Main => {
            let l = panel_layout::layout(width, height);
            panel_layout::main_action_at(&l, x, y)
        },
        PanelView::Audio => panel_layout::audio_action_at(&s.audio_devices, width, x, y),
        PanelView::Battery => {
            let l = panel_layout::layout(width, height);
            panel_layout::battery_action_at(&l, x, y)
        },
        PanelView::Network => panel_layout::network_action_at_for_selection(
            &s.wifi_networks,
            s.selected_wifi,
            width,
            x,
            y,
        ),
        PanelView::Bluetooth => panel_layout::bluetooth_action_at(
            &s.bluetooth_devices,
            width,
            x,
            y,
        ),
        PanelView::Input => panel_layout::input_action_at(&s.input_methods, width, x, y),
    }
}

/// What the user has typed is gone once the panel leaves the networks, and once the system
/// has taken it.
pub proof fn law_password_is_forgotten(
    m: PanelModel,
    ssid: Seq<char>,
    networks: WifiNetworks,
    refresh: bool,
)
    ensures
        acted(m, PanelAction::BackToMain).wifi_password.len() == 0,
        acted(m, PanelAction::OpenNetworkSettings).wifi_password.len() == 0,
        scanned(m, networks, refresh).wifi_password.len() == 0,
        connecting(m, ssid, networks).wifi_password.len() == 0,
        !acted(m, PanelAction::BackToMain).wifi_password_active,
        !connecting(m, ssid, networks).wifi_password_active,
{
}

/// A password never becomes too long.
pub proof fn law_password_is_bounded(m: PanelModel, action: PanelAction, ch: u32)
    requires
        m.wifi_password.len() <= MAX_PASSWORD,
    ensures
        acted(m, action).wifi_password.len() <= MAX_PASSWORD,
        typed_in(m, ch).wifi_password.len() <= MAX_PASSWORD,
        taken_back(m).wifi_password.len() <= MAX_PASSWORD,
{
}

/// Taking a character back undoes typing it.
pub proof fn law_taking_back_undoes(m: PanelModel, ch: u32)
    requires
        takes_typing(m),
        typable(ch),
        m.wifi_password.len() < MAX_PASSWORD,
    ensures
        taken_back(typed_in(m, ch)).wifi_password == m.wifi_password,
{
    assert(m.wifi_password.push(ch as char).drop_last() =~= m.wifi_password);
}

/// A password that was refused stays, so that the user can mend it.
pub proof fn law_refused_password_stays(m: PanelModel, error: Seq<char>)
    ensures
        refused(m, true, error).wifi_password == m.wifi_password,
        refused(m, true, error).wifi_password_active,
        refused(m, true, error).selected_wifi == m.selected_wifi,
{
}

/// The looking at networks comes to an end: there are no more looks than were left.
pub proof fn law_looking_ends(m: PanelModel, n: nat)
    requires
        n >= m.wifi_pending_refreshes,
    ensures
        !looks_again(ticked_times(m, n)),
    decreases n,
{
    if n > 0 {
        law_looking_ends(ticked(m), (n - 1) as nat);
    }
}

/// No action leads to a connection without a network that is listed, nor one with a typed
/// password without a password.
pub proof fn law_connection_has_network(m: PanelModel, action: PanelAction)
    ensures
        asked(m, action) matches PanelRequest::ConnectWifi { index, typed } ==> index
            < m.wifi_networks.networks@.len() && (typed ==> !nothing_typed(m)),
{
}

/// Going into a view and back again is going the opposite way.
pub proof fn law_turns_are_opposite(view: PanelView)
    requires
        view != PanelView::Main,
    ensures
        turn(PanelView::Main, view) == -turn(view, PanelView::Main),
{
}

} // verus!
