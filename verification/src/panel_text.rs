//! What the views of the control center show: their titles, their rows, and which of them
//! are marked or under the pointer.

use vstd::prelude::*;
use crate::control_center;
use crate::control_center::{bluetooth_subtitle, default_output_name, wifi_subtitle, PanelState};
use crate::panel_layout;
use crate::panel_layout::{
    network_row_action, PanelAction, PanelView, AUDIO_MAX_ROWS, MAX_ROWS,
};
use crate::sysctl;
use crate::sysctl::{AudioDeviceInfo, AudioFlow, BluetoothDeviceInfo, InputMethodInfo};
use crate::text;
use crate::wifi;

verus! {

/// A row with a title and, below it, something said of it.
#[derive(Clone, Debug)]
pub struct RowText {
    pub title: String,
    pub subtitle: Option<String>,
    /// It is the one in use.
    pub marked: bool,
    /// The pointer is on it.
    pub hot: bool,
}

pub ghost struct RowView {
    pub title: Seq<char>,
    pub subtitle: Option<Seq<char>>,
    pub marked: bool,
    pub hot: bool,
}

impl View for RowText {
    type V = RowView;

    open spec fn view(&self) -> RowView {
        RowView {
            title: self.title@,
            subtitle: text::opt_text(self.subtitle),
            marked: self.marked,
            hot: self.hot,
        }
    }
}

pub open spec fn row_views(v: Seq<RowText>) -> Seq<RowView> {
    Seq::new(v.len(), |i: int| v[i]@)
}

/// How many of a list of things get a row.
pub open spec fn row_count(count: nat, most: nat) -> nat {
    if count < most {
        count
    } else {
        most
    }
}

fn rows_of(count: usize, most: usize) -> (r: usize)
    ensures
        r == row_count(count as nat, most as nat),
{
    if count < most {
        count
    } else {
        most
    }
}

/// The title of a view; the first view has none.
pub fn view_title(view: PanelView) -> (r: Option<&'static str>)
    ensures
        text::opt_str(r) == (match view {
            PanelView::Main => None,
            PanelView::Audio => Some("声音"@),
            PanelView::Battery => Some("电池"@),
            PanelView::Network => Some("网络"@),
            PanelView::Bluetooth => Some("Bluetooth"@),
            PanelView::Input => Some("Input"@),
        }),
{
    match view {
        PanelView::Main => None,
        PanelView::Audio => Some("声音"),
        PanelView::Battery => Some("电池"),
        PanelView::Network => Some("网络"),
        PanelView::Bluetooth => Some("Bluetooth"),
        PanelView::Input => Some("Input"),
    }
}

/// What the button that refreshes a view is called, and what it does; only two views have
/// one.
pub fn refresh_button(view: PanelView) -> (r: Option<(&'static str, PanelAction)>)
    ensures
        r is Some == (view == PanelView::Network || view == PanelView::Bluetooth),
        view == PanelView::Network ==> r->Some_0.0@ == "刷新"@ && r->Some_0.1
            == PanelAction::RefreshWifi,
        view == PanelView::Bluetooth ==> r->Some_0.0@ == "Refresh"@ && r->Some_0.1
            == PanelAction::RefreshBluetooth,
{
    match view {
        PanelView::Network => Some(("刷新", PanelAction::RefreshWifi)),
        PanelView::Bluetooth => Some(("Refresh", PanelAction::RefreshBluetooth)),
        _ => None,
    }
}

/// What a section of sound devices is called.
pub fn section_title(flow: AudioFlow) -> (r: &'static str)
    ensures
        r@ == (match flow {
            AudioFlow::Output => "输出设备"@,
            AudioFlow::Input => "输入设备"@,
        }),
{
    match flow {
        AudioFlow::Output => "输出设备",
        AudioFlow::Input => "输入设备",
    }
}

/// What stands in a section without sound devices.
pub fn audio_empty_text(flow: AudioFlow) -> (r: &'static str)
    ensures
        r@ == (match flow {
            AudioFlow::Output => "没有可用输出设备"@,
            AudioFlow::Input => "没有可用输入设备"@,
        }),
{
    match flow {
        AudioFlow::Output => "没有可用输出设备",
        AudioFlow::Input => "没有可用输入设备",
    }
}

pub open spec fn in_use_text(flow: AudioFlow) -> Seq<char> {
    match flow {
        AudioFlow::Output => "当前输出"@,
        AudioFlow::Input => "当前输入"@,
    }
}

pub open spec fn audio_row(
    d: sysctl::AudioView,
    flow: AudioFlow,
    index: int,
    hovered: PanelAction,
) -> RowView {
    RowView {
        title: d.name,
        subtitle: if d.is_default {
            Some(in_use_text(flow))
        } else {
            None
        },
        marked: d.is_default,
        hot: hovered == (PanelAction::SelectAudioDevice { flow, index: index as usize }),
    }
}

/// The rows of a section of sound devices.
pub fn audio_rows(devices: &Vec<AudioDeviceInfo>, flow: AudioFlow, hovered: PanelAction) -> (r: Vec<
    RowText,
>)
    ensures
        row_views(r@) == Seq::new(
            row_count(devices@.len(), AUDIO_MAX_ROWS as nat),
            |i: int| audio_row(devices@[i]@, flow, i, hovered),
        ),
{
    let n: usize = rows_of(devices.len(), AUDIO_MAX_ROWS);
    let mut out: Vec<RowText> = Vec::new();
    let mut i: usize = 0;
    while i < n
        invariant
            n == row_count(devices@.len(), AUDIO_MAX_ROWS as nat),
            i <= n,
            row_views(out@) == Seq::new(
                i as nat,
                |k: int| audio_row(devices@[k]@, flow, k, hovered),
            ),
        decreases n - i,
    {
        let d = &devices[i];
        let subtitle: Option<String> = if d.is_default {
            Some(
                text::copy_text(
                    match flow {
                        AudioFlow::Output => "当前输出",
                        AudioFlow::Input => "当前输入",
                    },
                ),
            )
        } else {
            None
        };
        let row = RowText {
            title: text::copy_text(d.name.as_str()),
            subtitle,
            marked: d.is_default,
            hot: hovered == (PanelAction::SelectAudioDevice { flow, index: i }),
        };
        let ghost was = out@;
        out.push(row);
        assert(row_views(out@) =~= row_views(was).push(row@));
        assert(row_views(out@) =~= Seq::new(
            (i + 1) as nat,
            |k: int| audio_row(devices@[k]@, flow, k, hovered),
        ));
        i += 1;
    }
    out
}

pub open spec fn network_row(
    n: wifi::NetworkView,
    index: int,
    hovered: PanelAction,
    selected: Option<usize>,
) -> RowView {
    RowView {
        title: n.ssid,
        subtitle: Some(control_center::network_line(n)),
        marked: n.connected,
        hot: hovered == panel_layout::network_click(n, index as usize) || selected == Some(
            index as usize,
        ),
    }
}

/// The rows of the networks: one that is selected is marked like the one under the pointer.
pub fn network_rows(s: &PanelState) -> (r: Vec<RowText>)
    ensures
        row_views(r@) == (if s.wifi_networks.available {
            Seq::new(
                row_count(s.wifi_networks.networks@.len(), MAX_ROWS as nat),
                |i: int| network_row(
                    s.wifi_networks.networks@[i]@,
                    i,
                    s.hovered,
                    s.selected_wifi,
                ),
            )
        } else {
            Seq::empty()
        }),
{
    let mut out: Vec<RowText> = Vec::new();
    if !s.wifi_networks.available {
        assert(row_views(out@) =~= Seq::empty());
        return out;
    }
    let n: usize = rows_of(s.wifi_networks.networks.len(), MAX_ROWS);
    let mut i: usize = 0;
    while i < n
        invariant
            n == row_count(s.wifi_networks.networks@.len(), MAX_ROWS as nat),
            i <= n,
            row_views(out@) == Seq::new(
                i as nat,
                |k: int| network_row(
                    s.wifi_networks.networks@[k]@,
                    k,
                    s.hovered,
                    s.selected_wifi,
                ),
            ),
        decreases n - i,
    {
        let network = &s.wifi_networks.networks[i];
        let action = network_row_action(network, i);
        let selected: bool = match s.selected_wifi {
            Some(index) => index == i,
            None => false,
        };
        let row = RowText {
            title: text::copy_text(network.ssid.as_str()),
            subtitle: Some(wifi_subtitle(network)),
            marked: network.connected,
            hot: s.hovered == action || selected,
        };
        let ghost was = out@;
        out.push(row);
        assert(row_views(out@) =~= row_views(was).push(row@));
        assert(row_views(out@) =~= Seq::new(
            (i + 1) as nat,
            |k: int| network_row(
                s.wifi_networks.networks@[k]@,
                k,
                s.hovered,
                s.selected_wifi,
            ),
        ));
        i += 1;
    }
    out
}

pub open spec fn bluetooth_row(d: BluetoothDeviceInfo, index: int, hovered: PanelAction) -> RowView {
    RowView {
        title: d.name@,
        subtitle: Some(control_center::bluetooth_line(d@)),
        marked: d.connected,
        hot: hovered == (PanelAction::OpenBluetoothDevice { index: index as usize }),
    }
}

/// The rows of the Bluetooth devices.
pub fn bluetooth_rows(s: &PanelState) -> (r: Vec<RowText>)
    ensures
        row_views(r@) == (if s.bluetooth_devices.available {
            Seq::new(
                row_count(s.bluetooth_devices.devices@.len(), MAX_ROWS as nat),
                |i: int| bluetooth_row(s.bluetooth_devices.devices@[i], i, s.hovered),
            )
        } else {
            Seq::empty()
        }),
{
    let mut out: Vec<RowText> = Vec::new();
    if !s.bluetooth_devices.available {
        assert(row_views(out@) =~= Seq::empty());
        return out;
    }
    let n: usize = rows_of(s.bluetooth_devices.devices.len(), MAX_ROWS);
    let mut i: usize = 0;
    while i < n
        invariant
            n == row_count(s.bluetooth_devices.devices@.len(), MAX_ROWS as nat),
            i <= n,
            row_views(out@) == Seq::new(
                i as nat,
                |k: int| bluetooth_row(s.bluetooth_devices.devices@[k], k, s.hovered),
            ),
        decreases n - i,
    {
        let device = &s.bluetooth_devices.devices[i];
        let row = RowText {
            title: text::copy_text(device.name.as_str()),
            subtitle: Some(text::copy_text(bluetooth_subtitle(device))),
            marked: device.connected,
            hot: s.hovered == (PanelAction::OpenBluetoothDevice { index: i }),
        };
        let ghost was = out@;
        out.push(row);
        assert(row_views(out@) =~= row_views(was).push(row@));
        assert(row_views(out@) =~= Seq::new(
            (i + 1) as nat,
            |k: int| bluetooth_row(s.bluetooth_devices.devices@[k], k, s.hovered),
        ));
        i += 1;
    }
    out
}

pub open spec fn input_row(m: InputMethodInfo, index: int, hovered: PanelAction) -> RowView {
    RowView {
        title: m.label@,
        subtitle: Some(m.id@),
        marked: m.active,
        hot: hovered == (PanelAction::SelectInputMethod { index: index as usize }),
    }
}

/// The rows of the input methods.
pub fn input_rows(s: &PanelState) -> (r: Vec<RowText>)
    ensures
        row_views(r@) == Seq::new(
            row_count(s.input_methods.methods@.len(), MAX_ROWS as nat),
            |i: int| input_row(s.input_methods.methods@[i], i, s.hovered),
        ),
{
    let mut out: Vec<RowText> = Vec::new();
    let n: usize = rows_of(s.input_methods.methods.len(), MAX_ROWS);
    let mut i: usize = 0;
    while i < n
        invariant
            n == row_count(s.input_methods.methods@.len(), MAX_ROWS as nat),
            i <= n,
            row_views(out@) == Seq::new(
                i as nat,
                |k: int| input_row(s.input_methods.methods@[k], k, s.hovered),
            ),
        decreases n - i,
    {
        let method = &s.input_methods.methods[i];
        let row = RowText {
            title: text::copy_text(method.label.as_str()),
            subtitle: Some(text::copy_text(method.id.as_str())),
            marked: method.active,
            hot: s.hovered == (PanelAction::SelectInputMethod { index: i }),
        };
        let ghost was = out@;
        out.push(row);
        assert(row_views(out@) =~= row_views(was).push(row@));
        assert(row_views(out@) =~= Seq::new(
            (i + 1) as nat,
            |k: int| input_row(s.input_methods.methods@[k], k, s.hovered),
        ));
        i += 1;
    }
    out
}

pub open spec fn plain_row(title: Seq<char>, subtitle: Seq<char>, hot: bool) -> RowView {
    RowView { title, subtitle: Some(subtitle), marked: false, hot }
}

fn plain(title: &str, subtitle: &str, hot: bool) -> (r: RowText)
    ensures
        r@ == plain_row(title@, subtitle@, hot),
{
    RowText {
        title: text::copy_text(title),
        subtitle: Some(text::copy_text(subtitle)),
        marked: false,
        hot,
    }
}

/// The rows of a view that are always there, from above to below.
pub fn fixed_rows(view: PanelView, hovered: PanelAction) -> (r: Vec<RowText>)
    ensures
        row_views(r@) == (match view {
            PanelView::Main => Seq::empty(),
            PanelView::Audio => seq![
                plain_row(
                    "更多声音设置"@,
                    "应用音量、空间音效和高级设备"@,
                    hovered == PanelAction::OpenSoundSettings,
                ),
            ],
            PanelView::Battery => seq![
                plain_row(
                    "低电量模式"@,
                    "打开 Windows 节电设置"@,
                    hovered == PanelAction::OpenBatterySaverSettings,
                ),
                plain_row(
                    "电源设置"@,
                    "睡眠、屏幕和电源模式"@,
                    hovered == PanelAction::OpenPowerSettings,
                ),
            ],
            PanelView::Network => seq![
                plain_row(
                    "更多网络设置"@,
                    "飞行模式、代理和高级网络选项"@,
                    hovered == PanelAction::OpenNetworkSettings,
                ),
            ],
            PanelView::Bluetooth => seq![
                plain_row(
                    "More Bluetooth settings"@,
                    "Add devices and manage advanced options"@,
                    hovered == PanelAction::OpenBluetoothSettings,
                ),
            ],
            PanelView::Input => seq![
                plain_row(
                    "System input switch"@,
                    "Use Win + Space"@,
                    hovered == PanelAction::CycleInputMethod,
                ),
                plain_row(
                    "More input settings"@,
                    "Language, keyboard and typing options"@,
                    hovered == PanelAction::OpenInputSettings,
                ),
            ],
        }),
{
    let mut out: Vec<RowText> = Vec::new();
    match view {
        PanelView::Main => {},
        PanelView::Audio => {
            out.push(
                plain(
                    "更多声音设置",
                    "应用音量、空间音效和高级设备",
                    hovered == PanelAction::OpenSoundSettings,
                ),
            );
        },
        PanelView::Battery => {
            out.push(
                plain(
                    "低电量模式",
                    "打开 Windows 节电设置",
                    hovered == PanelAction::OpenBatterySaverSettings,
                ),
            );
            out.push(
                plain(
                    "电源设置",
                    "睡眠、屏幕和电源模式",
                    hovered == PanelAction::OpenPowerSettings,
                ),
            );
        },
        PanelView::Network => {
            out.push(
                plain(
                    "更多网络设置",
                    "飞行模式、代理和高级网络选项",
                    hovered == PanelAction::OpenNetworkSettings,
                ),
            );
        },
        PanelView::Bluetooth => {
            out.push(
                plain(
                    "More Bluetooth settings",
                    "Add devices and manage advanced options",
                    hovered == PanelAction::OpenBluetoothSettings,
                ),
            );
        },
        PanelView::Input => {
            out.push(
                plain(
                    "System input switch",
                    "Use Win + Space",
                    hovered == PanelAction::CycleInputMethod,
                ),
            );
            out.push(
                plain(
                    "More input settings",
                    "Language, keyboard and typing options",
                    hovered == PanelAction::OpenInputSettings,
                ),
            );
        },
    }
    out
}

/// The row of the first view that leads to the sound devices.
pub fn audio_button_row(s: &PanelState) -> (r: RowText)
    ensures
        r@ == plain_row(
            "声音设备"@,
            control_center::output_name(s.audio_devices),
            s.hovered == PanelAction::ShowAudioPanel,
        ),
{
    let name = default_output_name(&s.audio_devices);
    plain("声音设备", name.as_str(), s.hovered == PanelAction::ShowAudioPanel)
}

/// What a quick button of the first view does.
pub fn button_action(i: usize) -> (r: PanelAction)
    ensures
        r == (if i == 0 {
            PanelAction::ShowNetworkPanel
        } else if i == 1 {
            PanelAction::ShowBluetoothPanel
        } else {
            PanelAction::ShowInputPanel
        }),
{
    if i == 0 {
        PanelAction::ShowNetworkPanel
    } else if i == 1 {
        PanelAction::ShowBluetoothPanel
    } else {
        PanelAction::ShowInputPanel
    }
}

/// The row that connects to the selected network, while there is one.
pub fn connect_row(s: &PanelState) -> (r: Option<RowText>)
    ensures
        match control_center::chosen_network(s@) {
            Some(index) => r is Some && r->Some_0@ == plain_row(
                "连接"@,
                s.wifi_networks.networks@[index as int].ssid@,
                s.hovered == PanelAction::ConnectSelectedWifi,
            ),
            None => r is None,
        },
{
    match s.selected_wifi {
        Some(index) => if index < s.wifi_networks.networks.len() {
            Some(
                plain(
                    "连接",
                    s.wifi_networks.networks[index].ssid.as_str(),
                    s.hovered == PanelAction::ConnectSelectedWifi,
                ),
            )
        } else {
            None
        },
        None => None,
    }
}

/// The field for a password is lit.
pub fn password_lit(s: &PanelState) -> (r: bool)
    ensures
        r == (s.wifi_password_active || s.hovered == PanelAction::FocusWifiPassword),
{
    s.wifi_password_active || s.hovered == PanelAction::FocusWifiPassword
}

/// The time and the day, as the first view shows them.
pub fn clock_text(time: &str, day: &str) -> (r: String)
    ensures
        r@ == time@ + "   "@ + day@,
{
    let mut out = text::chars_of(time);
    text::add_text(&mut out, "   ");
    text::add_text(&mut out, day);
    text::string_of(&out)
}

/// What stands in the first row where no input method is listed.
pub fn input_empty_text(s: &PanelState) -> (r: Option<&'static str>)
    ensures
        text::opt_str(r) == (if s.input_methods.methods@.len() == 0 {
            Some("No switchable input methods detected"@)
        } else {
            None
        }),
{
    if s.input_methods.methods.len() == 0 {
        Some("No switchable input methods detected")
    } else {
        None
    }
}

/// Of the rows of a list at most one is under the pointer, unless one is selected.
pub proof fn law_one_row_is_hot(
    ns: Seq<wifi::NetworkView>,
    hovered: PanelAction,
    i: int,
    j: int,
)
    requires
        0 <= i < j < ns.len() <= usize::MAX,
        ns[i].connectable,
    ensures
        !(network_row(ns[i], i, hovered, None).hot && network_row(ns[j], j, hovered, None).hot),
{
}

} // verus!
