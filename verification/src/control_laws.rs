//! What is promised of the control center: what a click on its panel leads to, and what the
//! panel remembers of what the user did and the system answered.

use vstd::prelude::*;
use crate::control_center;
use crate::control_center::{PanelEffect, PanelModel, PanelRequest};
use crate::panel_layout;
use crate::panel_layout::{Layout, PanelAction, PanelView};
use crate::panel_text;
use crate::sysctl;
use crate::sysctl::{AudioFlow, SettingsPage};
use crate::text;
use crate::wifi;
use crate::wifi::WifiNetworks;
use crate::windows_list::ScreenRect;

verus! {

/// A point on the row of this number, of rows that begin at `start`.
pub open spec fn on_row(start: int, i: int, w: int, x: int, y: int) -> bool {
    &&& panel_layout::PAD <= x <= w - panel_layout::PAD
    &&& start + i * (panel_layout::ROW_H + panel_layout::ROW_GAP) <= y
    &&& y <= start + i * (panel_layout::ROW_H + panel_layout::ROW_GAP) + panel_layout::ROW_H
}

proof fn lemma_on_row(start: int, i: int, count: nat, most: nat, w: int, x: int, y: int)
    requires
        0 <= i < count,
        i < most <= panel_layout::MAX_ROWS,
        0 <= start <= 0x100_0000,
        0 <= w <= 0x100_0000,
        on_row(start, i, w, x, y),
    ensures
        panel_layout::row_at(
            panel_layout::row_areas(start, panel_layout::rows_shown(count, most), w),
            panel_layout::listed(count, most),
            x,
            y,
        ) == Some(i),
{
    let n = panel_layout::rows_shown(count, most);
    assert(0 <= i * (panel_layout::ROW_H + panel_layout::ROW_GAP) <= 2000) by (nonlinear_arith)
        requires
            0 <= i < 5,
            panel_layout::ROW_H == 228,
            panel_layout::ROW_GAP == 36,
    ;
    assert(panel_layout::holds(panel_layout::row_areas(start, n, w)[i], x, y));
    panel_layout::law_row_is_found(start, i, n, w, x, y);
}

/// A click on a network of the list joins it where the system can by itself, asks for the
/// password where one is needed, and leaves the rest to the settings of the system.
pub proof fn law_network_clicked(
    ns: Seq<wifi::NetworkView>,
    typing: bool,
    w: int,
    x: int,
    y: int,
    i: int,
)
    requires
        0 <= i < ns.len(),
        i < panel_layout::MAX_ROWS,
        0 <= w <= 0x100_0000,
        on_row(panel_layout::CONTENT_TOP as int, i, w, x, y),
    ensures
        ({
            let a = panel_layout::network_action(ns, typing, w, x, y);
            let n = ns[i];
            &&& n.connectable && (n.has_profile || !n.secure) ==> a == (PanelAction::ConnectWifi {
                index: i as usize,
            })
            &&& n.connectable && n.secure && !n.has_profile ==> a == (
            PanelAction::SelectWifiForPassword { index: i as usize })
            &&& !n.connectable ==> a == PanelAction::OpenNetworkSettings
        }),
{
    lemma_on_row(
        panel_layout::CONTENT_TOP as int,
        i,
        ns.len(),
        panel_layout::MAX_ROWS as nat,
        w,
        x,
        y,
    );
    assert(0 <= i * (panel_layout::ROW_H + panel_layout::ROW_GAP)) by (nonlinear_arith)
        requires
            i >= 0,
    ;
}

/// A click on a device of the list opens that device.
pub proof fn law_bluetooth_clicked(count: nat, w: int, x: int, y: int, i: int)
    requires
        0 <= i < count,
        i < panel_layout::MAX_ROWS,
        0 <= w <= 0x100_0000,
        on_row(panel_layout::CONTENT_TOP as int, i, w, x, y),
    ensures
        panel_layout::bluetooth_action(count, w, x, y) == (PanelAction::OpenBluetoothDevice {
            index: i as usize,
        }),
        panel_layout::input_action(count, w, x, y) == (PanelAction::SelectInputMethod {
            index: i as usize,
        }),
{
    lemma_on_row(
        panel_layout::CONTENT_TOP as int,
        i,
        count,
        panel_layout::MAX_ROWS as nat,
        w,
        x,
        y,
    );
    assert(0 <= i * (panel_layout::ROW_H + panel_layout::ROW_GAP)) by (nonlinear_arith)
        requires
            i >= 0,
    ;
}

/// A click on a device that plays sound chooses it for what is played, and one on a device
/// that records chooses it for what is recorded.
pub proof fn law_sound_clicked(outputs: nat, inputs: nat, w: int, x: int, y: int, i: int)
    requires
        0 <= i < panel_layout::AUDIO_MAX_ROWS,
        0 <= w <= 0x100_0000,
    ensures
        i < outputs && on_row(panel_layout::outputs_top(), i, w, x, y)
            ==> panel_layout::audio_action(outputs, inputs, w, x, y) == (
        PanelAction::SelectAudioDevice { flow: AudioFlow::Output, index: i as usize }),
        i < inputs && on_row(panel_layout::inputs_top(outputs), i, w, x, y)
            ==> panel_layout::audio_action(outputs, inputs, w, x, y) == (
        PanelAction::SelectAudioDevice { flow: AudioFlow::Input, index: i as usize }),
{
    let most = panel_layout::AUDIO_MAX_ROWS as nat;
    assert(0 <= i * (panel_layout::ROW_H + panel_layout::ROW_GAP)) by (nonlinear_arith)
        requires
            i >= 0,
    ;
    if i < outputs && on_row(panel_layout::outputs_top(), i, w, x, y) {
        lemma_on_row(panel_layout::outputs_top(), i, outputs, most, w, x, y);
    }
    if i < inputs && on_row(panel_layout::inputs_top(outputs), i, w, x, y) {
        let last = panel_layout::rows_shown(outputs, most) - 1;
        assert(0 <= last * (panel_layout::ROW_H + panel_layout::ROW_GAP) <= 1000)
            by (nonlinear_arith)
            requires
                0 <= last <= 2,
                panel_layout::ROW_H == 228,
                panel_layout::ROW_GAP == 36,
        ;
        lemma_on_row(panel_layout::inputs_top(outputs), i, inputs, most, w, x, y);
        let rows = panel_layout::row_areas(
            panel_layout::outputs_top(),
            panel_layout::rows_shown(outputs, most),
            w,
        );
        lemma_below_rows(rows, outputs, most, w, panel_layout::listed(outputs, most), x, y);
    }
}

proof fn lemma_below_rows(
    rows: Seq<panel_layout::Area>,
    outputs: nat,
    most: nat,
    w: int,
    n: int,
    x: int,
    y: int,
)
    requires
        most == panel_layout::AUDIO_MAX_ROWS,
        rows == panel_layout::row_areas(
            panel_layout::outputs_top(),
            panel_layout::rows_shown(outputs, most),
            w,
        ),
        0 <= n <= panel_layout::listed(outputs, most),
        0 <= w <= 0x100_0000,
        panel_layout::inputs_top(outputs) <= y,
    ensures
        panel_layout::row_at(rows, n, x, y) is None,
    decreases n,
{
    if n > 0 {
        lemma_below_rows(rows, outputs, most, w, n - 1, x, y);
        let k = n - 1;
        let last = panel_layout::rows_shown(outputs, most) - 1;
        assert(0 <= k * (panel_layout::ROW_H + panel_layout::ROW_GAP) <= last * (
        panel_layout::ROW_H + panel_layout::ROW_GAP) <= 1000) by (nonlinear_arith)
            requires
                0 <= k <= last <= 2,
                panel_layout::ROW_H == 228,
                panel_layout::ROW_GAP == 36,
        ;
        assert(!panel_layout::holds(rows[k], x, y));
    }
}

/// The three buttons of the first view lie side by side, with the same gap between.
pub proof fn law_buttons_side_by_side(width: i32, height: i32, i: int)
    requires
        panel_layout::usable(width, height),
        0 <= i < 3,
    ensures
        ({
            let a = panel_layout::button_area(i, width as int);
            let b = panel_layout::button_area(i + 1, width as int);
            &&& panel_layout::button_area(0, width as int).left == panel_layout::PAD
            &&& panel_layout::button_area(2, width as int).right <= width - panel_layout::PAD
            &&& i < 2 ==> b.left == a.right + panel_layout::BTN_GAP
            &&& i < 2 ==> b.right - b.left == a.right - a.left
        }),
{
    let step = panel_layout::button_width(width as int) + panel_layout::BTN_GAP;
    assert(0 * step == 0 && 1 * step == step && 2 * step == step + step) by (nonlinear_arith);
    assert((i + 1) * step == i * step + step) by (nonlinear_arith);
    assert(0 <= i * step <= 2 * step) by (nonlinear_arith)
        requires
            0 <= i <= 2,
            step >= 0,
    ;
}

/// What the parts of the first view do.
pub proof fn law_first_view(l: Layout, w: int, h: int, x: int, y: int)
    requires
        panel_layout::is_layout(l, w, h),
        2 * panel_layout::PAD + 2 * panel_layout::BTN_GAP <= w <= 0x100_0000,
        0 <= h <= 0x100_0000,
    ensures
        ({
            let a = panel_layout::main_action(l, x, y);
            &&& a is ToggleMute <==> panel_layout::holds(l.vol_glyph, x, y)
            &&& a is StartVolumeDrag <==> panel_layout::holds(l.vol_row, x, y)
                && !panel_layout::holds(l.vol_glyph, x, y)
            &&& a is ShowAudioPanel <==> panel_layout::holds(l.audio_button, x, y)
            &&& a is ShowNetworkPanel ==> panel_layout::holds(l.buttons@[0], x, y)
            &&& a is ShowBluetoothPanel ==> panel_layout::holds(l.buttons@[1], x, y)
            &&& a is ShowInputPanel ==> panel_layout::holds(l.buttons@[2], x, y)
            &&& a is ShowBatteryPanel ==> panel_layout::holds(l.battery_status, x, y)
            &&& a is OpenDateTimeSettings ==> panel_layout::holds(l.clock_status, x, y)
        }),
{
}

/// A device of sound is set for the use it was chosen for, where there is one.
pub proof fn law_device_is_set(m: PanelModel, index: usize)
    ensures
        control_center::asked(
            m,
            PanelAction::SelectAudioDevice { flow: AudioFlow::Output, index },
        ) == (if index < m.audio_devices.outputs@.len() {
            PanelRequest::SetAudio { flow: AudioFlow::Output, index }
        } else {
            PanelRequest::Nothing
        }),
        control_center::asked(
            m,
            PanelAction::SelectAudioDevice { flow: AudioFlow::Input, index },
        ) == (if index < m.audio_devices.inputs@.len() {
            PanelRequest::SetAudio { flow: AudioFlow::Input, index }
        } else {
            PanelRequest::Nothing
        }),
{
}

/// Choosing a network to type its password for: it is the chosen one, nothing is typed yet,
/// and the typing goes there. A network that is not listed changes nothing.
pub proof fn law_chosen_for_password(m: PanelModel, index: usize)
    ensures
        ({
            let r = control_center::acted(m, PanelAction::SelectWifiForPassword { index });
            &&& index < m.wifi_networks.networks@.len() ==> r.selected_wifi == Some(index)
                && r.wifi_password.len() == 0 && control_center::takes_typing(r) && r.wifi_message
                is Some
            &&& index >= m.wifi_networks.networks@.len() ==> r == m
            &&& control_center::asked(m, PanelAction::SelectWifiForPassword { index })
                == PanelRequest::Nothing
        }),
{
}

/// The network that was chosen is joined with what was typed, once something is typed; with
/// nothing typed the user is asked for it and nothing is tried.
pub proof fn law_typed_is_used(m: PanelModel, index: usize)
    requires
        m.selected_wifi == Some(index),
        index < m.wifi_networks.networks@.len(),
    ensures
        text::trimmed(m.wifi_password).len() > 0 ==> control_center::asked(
            m,
            PanelAction::ConnectSelectedWifi,
        ) == (PanelRequest::ConnectWifi { index, typed: true }) && control_center::acted(
            m,
            PanelAction::ConnectSelectedWifi,
        ) == m,
        text::trimmed(m.wifi_password).len() == 0 ==> control_center::asked(
            m,
            PanelAction::ConnectSelectedWifi,
        ) == PanelRequest::Nothing && control_center::acted(
            m,
            PanelAction::ConnectSelectedWifi,
        ).wifi_message is Some,
        text::trimmed(m.wifi_password).len() > 0 ==> control_center::done(
            m,
            PanelAction::ConnectSelectedWifi,
        ).len() == 0,
        text::trimmed(m.wifi_password).len() == 0 ==> control_center::done(
            m,
            PanelAction::ConnectSelectedWifi,
        ) == seq![PanelEffect::Redraw],
{
}

/// No action of the user changes what the system has told of itself.
pub proof fn law_actions_keep_lists(m: PanelModel, action: PanelAction)
    ensures
        ({
            let r = control_center::acted(m, action);
            &&& r.audio_devices == m.audio_devices && r.wifi_networks == m.wifi_networks
            &&& r.bluetooth_devices == m.bluetooth_devices && r.input_methods == m.input_methods
            &&& r.battery == m.battery && r.wifi_pending_refreshes == m.wifi_pending_refreshes
        }),
{
}

/// The panel closes where a page of the system's settings opens, and only there.
pub proof fn law_settings_close_panel(m: PanelModel, action: PanelAction)
    ensures
        control_center::done(m, action).contains(PanelEffect::Close) <==> exists|p: SettingsPage|
            #[trigger] control_center::done(m, action).contains(PanelEffect::Open(p)),
        action is OpenSoundSettings ==> control_center::done(m, action)[0] == PanelEffect::Open(
            SettingsPage::Sound,
        ),
        action is OpenNetworkSettings ==> control_center::done(m, action)[0] == PanelEffect::Open(
            SettingsPage::Network,
        ),
        action is OpenBluetoothSettings || action is OpenBluetoothDevice ==> control_center::done(
            m,
            action,
        )[0] == PanelEffect::Open(SettingsPage::Bluetooth),
        action is OpenInputSettings ==> control_center::done(m, action)[0] == PanelEffect::Open(
            SettingsPage::Typing,
        ),
        action is OpenDateTimeSettings ==> control_center::done(m, action)[0] == PanelEffect::Open(
            SettingsPage::DateTime,
        ),
        action is OpenPowerSettings ==> control_center::done(m, action)[0] == PanelEffect::Open(
            SettingsPage::Power,
        ),
        action is OpenBatterySaverSettings ==> control_center::done(m, action)[0]
            == PanelEffect::Open(SettingsPage::BatterySaver),
{
    let d = control_center::done(m, action);
    match control_center::page_of(action) {
        Some(page) => {
            assert(d[0] == PanelEffect::Open(page) && d[1] == PanelEffect::Close);
            assert(d.contains(PanelEffect::Open(page)));
        },
        None => {
            assert forall|p: SettingsPage| !#[trigger] d.contains(PanelEffect::Open(p)) by {}
        },
    }
}

/// What the system asked for is looked up: each view asks for what it lists.
pub proof fn law_views_ask(m: PanelModel)
    ensures
        control_center::asked(m, PanelAction::ShowAudioPanel) == PanelRequest::ScanAudio,
        control_center::asked(m, PanelAction::ShowNetworkPanel) == (PanelRequest::ScanWifi {
            refresh: false,
        }),
        control_center::asked(m, PanelAction::RefreshWifi) == (PanelRequest::ScanWifi {
            refresh: true,
        }),
        control_center::asked(m, PanelAction::ShowBluetoothPanel) == PanelRequest::ScanBluetooth,
        control_center::asked(m, PanelAction::RefreshBluetooth) == PanelRequest::ScanBluetooth,
        control_center::asked(m, PanelAction::ShowInputPanel) == PanelRequest::ListInput,
        control_center::asked(m, PanelAction::ShowBatteryPanel) == PanelRequest::ReadBattery,
        control_center::asked(m, PanelAction::CycleInputMethod) == PanelRequest::CycleInput,
{
}

/// The networks that were found are those that the panel shows; what was typed and chosen
/// among the old ones is gone, and what it knows of other things stays.
pub proof fn law_scanned(m: PanelModel, networks: WifiNetworks, refresh: bool)
    ensures
        ({
            let r = control_center::scanned(m, networks, refresh);
            &&& r.view == PanelView::Network && r.wifi_networks == networks
            &&& r.selected_wifi is None && r.wifi_password.len() == 0 && !r.wifi_password_active
            &&& r.wifi_message == text::opt_text(networks.status)
            &&& refresh ==> r.wifi_pending_refreshes == control_center::WIFI_REFRESH_TICKS
            &&& !refresh ==> r.wifi_pending_refreshes == m.wifi_pending_refreshes
            &&& r.audio_devices == m.audio_devices && r.bluetooth_devices == m.bluetooth_devices
            &&& r.input_methods == m.input_methods && r.battery == m.battery
        }),
{
}

/// While a network is joined the panel shows the networks as they are, forgets the password
/// and looks again a number of times.
pub proof fn law_connecting(m: PanelModel, ssid: Seq<char>, networks: WifiNetworks, i: int)
    ensures
        ({
            let r = control_center::connecting(m, ssid, networks);
            &&& r.view == PanelView::Network && r.wifi_networks == networks
            &&& r.selected_wifi is None && r.wifi_password.len() == 0 && !r.wifi_password_active
            &&& r.wifi_pending_refreshes == control_center::WIFI_REFRESH_TICKS
            &&& r.wifi_message is Some && r.wifi_message->0.len() >= ssid.len()
            &&& 0 <= i < ssid.len() ==> r.wifi_message->0[r.wifi_message->0.len() - ssid.len() + i]
                == ssid[i]
        }),
{
}

/// What the system says of a connection that failed is shown.
pub proof fn law_refusal_is_shown(m: PanelModel, typed: bool, error: Seq<char>)
    ensures
        control_center::refused(m, typed, error).wifi_message == Some(error),
        typed ==> control_center::refused(m, typed, error).selected_wifi == m.selected_wifi
            && control_center::refused(m, typed, error).wifi_password_active,
        !typed ==> control_center::refused(m, typed, error).selected_wifi is None
            && control_center::refused(m, typed, error).view == PanelView::Network,
        control_center::refused(m, typed, error).wifi_networks == m.wifi_networks,
{
}

/// Each tick with the networks in view uses up one look; in another view there are none
/// left.
pub proof fn law_tick(m: PanelModel)
    ensures
        m.view == PanelView::Network && m.wifi_pending_refreshes > 0
            ==> control_center::looks_again(m) && control_center::ticked(m).wifi_pending_refreshes
            == m.wifi_pending_refreshes - 1,
        m.view != PanelView::Network ==> !control_center::looks_again(m) && control_center::ticked(
            m,
        ).wifi_pending_refreshes == 0,
        m.wifi_pending_refreshes == 0 ==> !control_center::looks_again(m),
        control_center::ticked(m) == (PanelModel {
            wifi_pending_refreshes: control_center::ticked(m).wifi_pending_refreshes,
            ..m
        }),
{
}

/// What is typed goes to the end of the password, where the password is typed and there is
/// room, and a key that is no character does nothing.
pub proof fn law_typing(m: PanelModel, ch: u32)
    ensures
        ({
            let r = control_center::typed_in(m, ch);
            let takes = m.view == PanelView::Network && m.wifi_password_active && m.wifi_password.len()
                < control_center::MAX_PASSWORD;
            &&& takes && control_center::typable(ch) ==> r.wifi_password.len()
                == m.wifi_password.len() + 1 && r.wifi_password.last() == ch as char
                && r.wifi_password.drop_last() == m.wifi_password
            &&& !takes || !control_center::typable(ch) ==> r == m
            &&& ch < 32 || ch == 127 ==> !control_center::typable(ch)
            &&& 32 <= ch < 127 ==> control_center::typable(ch)
        }),
{
    assert(m.wifi_password.push(ch as char).drop_last() =~= m.wifi_password);
}

/// The device that is in use is the first that the system uses by default, or else the
/// first there is.
pub proof fn law_in_use(ds: Seq<sysctl::AudioView>)
    ensures
        ds.len() == 0 <==> control_center::in_use(ds) is None,
        ds.len() > 0 ==> exists|i: int|
            0 <= i < ds.len() && #[trigger] ds[i] == control_center::in_use(ds)->0 && ((
            ds[i].is_default && forall|j: int| 0 <= j < i ==> !(#[trigger] ds[j]).is_default) || (i
                == 0 && forall|j: int| 0 <= j < ds.len() ==> !(#[trigger] ds[j]).is_default)),
{
    lemma_first_default(ds);
    if ds.len() > 0 {
        if control_center::first_default(ds) is Some {
            let d = control_center::first_default(ds)->0;
            let i = choose|i: int|
                0 <= i < ds.len() && #[trigger] ds[i] == d && ds[i].is_default && forall|j: int|
                    0 <= j < i ==> !(#[trigger] ds[j]).is_default;
            assert(ds[i] == control_center::in_use(ds)->0);
        } else {
            assert(ds[0] == control_center::in_use(ds)->0);
        }
    }
}

proof fn lemma_first_default(ds: Seq<sysctl::AudioView>)
    ensures
        match control_center::first_default(ds) {
            Some(d) => exists|i: int|
                0 <= i < ds.len() && #[trigger] ds[i] == d && ds[i].is_default && forall|j: int|
                    0 <= j < i ==> !(#[trigger] ds[j]).is_default,
            None => forall|j: int| 0 <= j < ds.len() ==> !(#[trigger] ds[j]).is_default,
        },
    decreases ds.len(),
{
    if ds.len() > 0 && !ds[0].is_default {
        let t = ds.skip(1);
        lemma_first_default(t);
        match control_center::first_default(ds) {
            Some(d) => {
                let i = choose|i: int|
                    0 <= i < t.len() && #[trigger] t[i] == d && t[i].is_default && forall|j: int|
                        0 <= j < i ==> !(#[trigger] t[j]).is_default;
                assert(ds[i + 1] == d);
                assert forall|j: int| 0 <= j < i + 1 implies !(#[trigger] ds[j]).is_default by {
                    if j > 0 {
                        assert(t[j - 1] == ds[j]);
                    }
                }
            },
            None => {
                assert forall|j: int| 0 <= j < ds.len() implies !(#[trigger] ds[j]).is_default by {
                    if j > 0 {
                        assert(t[j - 1] == ds[j]);
                    }
                }
            },
        }
    } else if ds.len() > 0 {
        assert(ds[0] == control_center::first_default(ds)->0);
    }
}

/// What a network's row says: that it is connected before all else, then that it cannot be
/// joined, then that the system knows it, then whether it wants a password.
pub proof fn law_network_state(n: wifi::NetworkView)
    ensures
        n.connected ==> control_center::network_state(n) == "已连接"@,
        !n.connected && !n.connectable ==> control_center::network_state(n) == "不可连接"@,
        !n.connected && n.connectable && n.has_profile ==> control_center::network_state(n)
            == "已保存"@,
        !n.connected && n.connectable && !n.has_profile && n.secure
            ==> control_center::network_state(n) == "需要密码"@,
        !n.connected && n.connectable && !n.has_profile && !n.secure
            ==> control_center::network_state(n) == "开放网络"@,
        control_center::network_line(n).take(control_center::network_state(n).len() as int)
            == control_center::network_state(n),
        control_center::network_line(n).last() == '%',
{
    assert(control_center::network_line(n).take(control_center::network_state(n).len() as int)
        =~= control_center::network_state(n));
}

/// A row of the panel is named after what it stands for, and marked where that is in use.
pub proof fn law_rows_named(
    d: sysctl::AudioView,
    n: wifi::NetworkView,
    flow: AudioFlow,
    index: int,
    hovered: PanelAction,
    selected: Option<usize>,
)
    requires
        0 <= index <= usize::MAX,
    ensures
        panel_text::audio_row(d, flow, index, hovered).title == d.name,
        panel_text::audio_row(d, flow, index, hovered).marked == d.is_default,
        panel_text::audio_row(d, flow, index, hovered).subtitle is Some == d.is_default,
        panel_text::network_row(n, index, hovered, selected).title == n.ssid,
        panel_text::network_row(n, index, hovered, selected).marked == n.connected,
        selected == Some(index as usize) ==> panel_text::network_row(n, index, hovered, selected).hot,
{
}

/// The panel stays inside the screen, where that is wide enough, and keeps its place where
/// it is inside.
pub proof fn law_placed(x: int, y: int, width: int, margin: int, w: ScreenRect)
    requires
        control_center::roomy(w, width, margin),
    ensures
        ({
            let (px, py) = control_center::placed(x, y, width, margin, Some(w));
            &&& w.left + margin <= px && px + width + margin <= w.right
            &&& w.left + margin <= x && x + width + margin <= w.right ==> px == x
            &&& py >= w.top + margin
            &&& y >= w.top + margin ==> py == y
        }),
{
}

/// Going deeper and coming back turn the panel opposite ways; a view beside another turns
/// it less.
pub proof fn law_turn(from: PanelView, to: PanelView)
    ensures
        from is Main && !(to is Main) ==> control_center::turn(from, to) == 100,
        !(from is Main) && to is Main ==> control_center::turn(from, to) == -100,
        (from is Main) == (to is Main) ==> 0 < control_center::turn(from, to) < 100,
{
}

/// Of three things that may be said the first that is there is said.
pub proof fn law_first_there(a: Option<Seq<char>>, b: Option<Seq<char>>, c: Option<Seq<char>>)
    ensures
        a is Some ==> control_center::first_there(a, b, c) == a,
        a is None && b is Some ==> control_center::first_there(a, b, c) == b,
        a is None && b is None ==> control_center::first_there(a, b, c) == c,
{
}

/// A device is said to be connected before all else, then paired, then saved.
pub proof fn law_bluetooth_line(d: sysctl::BluetoothView)
    ensures
        d.connected ==> control_center::bluetooth_line(d) == "Connected"@,
        !d.connected && d.authenticated ==> control_center::bluetooth_line(d) == "Paired"@,
        !d.connected && !d.authenticated && d.remembered ==> control_center::bluetooth_line(d)
            == "Saved"@,
        !d.connected && !d.authenticated && !d.remembered ==> control_center::bluetooth_line(d)
            == "Discovered"@,
{
}

/// The first view names the device that sound is played on.
pub proof fn law_output_name(devices: sysctl::AudioDevices, i: int)
    requires
        0 <= i < devices.outputs@.len(),
        devices.outputs@[i]@.is_default,
        forall|j: int| 0 <= j < i ==> !(#[trigger] devices.outputs@[j])@.is_default,
    ensures
        control_center::output_name(devices) == devices.outputs@[i]@.name,
{
    let ds = sysctl::audio_views(devices.outputs@);
    law_in_use(ds);
    let k = choose|k: int|
        0 <= k < ds.len() && #[trigger] ds[k] == control_center::in_use(ds)->0 && ((
        ds[k].is_default && forall|j: int| 0 <= j < k ==> !(#[trigger] ds[j]).is_default) || (k == 0
            && forall|j: int| 0 <= j < ds.len() ==> !(#[trigger] ds[j]).is_default));
    assert(ds[i] == devices.outputs@[i]@);
    assert(ds[k] == devices.outputs@[k]@);
    assert(!(i < k));
    assert(!(k < i));
}

/// A click goes to what the view that is open shows there.
pub proof fn law_action_of_view(m: PanelModel, l: Layout, width: int, x: int, y: int)
    ensures
        ({
            let a = control_center::action_under(m, l, width, x, y);
            &&& m.view is Main ==> a == panel_layout::main_action(l, x, y)
            &&& m.view is Battery ==> a == panel_layout::battery_action(l, x, y)
            &&& m.view is Bluetooth ==> a == panel_layout::bluetooth_action(
                m.bluetooth_devices.devices@.len(),
                width,
                x,
                y,
            )
            &&& m.view is Input ==> a == panel_layout::input_action(
                m.input_methods.methods@.len(),
                width,
                x,
                y,
            )
            &&& m.view is Audio ==> a == panel_layout::audio_action(
                m.audio_devices.outputs@.len(),
                m.audio_devices.inputs@.len(),
                width,
                x,
                y,
            )
        }),
{
}

/// What the parts of the view of the battery do.
pub proof fn law_battery_view(l: Layout, w: int, h: int, x: int, y: int)
    requires
        panel_layout::is_layout(l, w, h),
        2 * panel_layout::PAD <= w <= 0x100_0000,
    ensures
        panel_layout::battery_action(l, x, y) is BackToMain <==> panel_layout::holds(l.back, x, y),
        panel_layout::battery_action(l, x, y) is OpenBatterySaverSettings
            <==> panel_layout::holds(l.battery_saver, x, y),
        panel_layout::battery_action(l, x, y) is OpenPowerSettings <==> panel_layout::holds(
            l.power_settings,
            x,
            y,
        ),
{
}

/// A row of a device or of an input method is named after it, and marked where it is in use.
pub proof fn law_more_rows_named(
    d: sysctl::BluetoothDeviceInfo,
    m: sysctl::InputMethodInfo,
    index: int,
    hovered: PanelAction,
)
    requires
        0 <= index <= usize::MAX,
    ensures
        panel_text::bluetooth_row(d, index, hovered).title == d.name@,
        panel_text::bluetooth_row(d, index, hovered).marked == d.connected,
        panel_text::bluetooth_row(d, index, hovered).hot <==> hovered == (
        PanelAction::OpenBluetoothDevice { index: index as usize }),
        panel_text::input_row(m, index, hovered).title == m.label@,
        panel_text::input_row(m, index, hovered).marked == m.active,
        panel_text::input_row(m, index, hovered).hot <==> hovered == (
        PanelAction::SelectInputMethod { index: index as usize }),
{
}

/// The rows that are listed are the first ones, as many as there is room for.
pub proof fn law_rows_listed(count: nat, most: nat)
    ensures
        panel_text::row_count(count, most) <= count,
        panel_text::row_count(count, most) <= most,
        panel_text::row_count(count, most) == count || panel_text::row_count(count, most) == most,
        panel_layout::listed(count, most) == panel_text::row_count(count, most),
        count > 0 && most > 0 ==> panel_layout::rows_shown(count, most) == panel_text::row_count(
            count,
            most,
        ),
{
}

proof fn lemma_no_row(start: int, count: nat, most: nat, w: int, n: int, x: int, y: int)
    requires
        0 < most <= panel_layout::MAX_ROWS,
        0 <= n <= panel_layout::listed(count, most),
        0 <= start <= 0x100_0000,
        0 <= w <= 0x100_0000,
        panel_layout::rows_end(start, panel_layout::rows_shown(count, most) as int) < y,
    ensures
        panel_layout::row_at(
            panel_layout::row_areas(start, panel_layout::rows_shown(count, most), w),
            n,
            x,
            y,
        ) is None,
    decreases n,
{
    if n > 0 {
        lemma_no_row(start, count, most, w, n - 1, x, y);
        let rows = panel_layout::row_areas(start, panel_layout::rows_shown(count, most), w);
        let k = n - 1;
        let last = panel_layout::rows_shown(count, most) - 1;
        assert(0 <= k * (panel_layout::ROW_H + panel_layout::ROW_GAP) <= last * (
        panel_layout::ROW_H + panel_layout::ROW_GAP) <= 2000) by (nonlinear_arith)
            requires
                0 <= k <= last <= 4,
                panel_layout::ROW_H == 228,
                panel_layout::ROW_GAP == 36,
        ;
        assert(!panel_layout::holds(rows[k], x, y));
    }
}

proof fn lemma_list_end(count: nat, w: int, x: int, y: int)
    requires
        0 <= w <= 0x100_0000,
        panel_layout::list_end(count) <= y,
    ensures
        0 <= panel_layout::list_end(count) <= 4000,
        panel_layout::row_at(
            panel_layout::row_areas(
                panel_layout::CONTENT_TOP as int,
                panel_layout::rows_shown(count, panel_layout::MAX_ROWS as nat),
                w,
            ),
            panel_layout::listed(count, panel_layout::MAX_ROWS as nat),
            x,
            y,
        ) is None,
{
    let most = panel_layout::MAX_ROWS as nat;
    let last = panel_layout::rows_shown(count, most) - 1;
    assert(0 <= last * (panel_layout::ROW_H + panel_layout::ROW_GAP) <= 2000) by (nonlinear_arith)
        requires
            0 <= last <= 4,
            panel_layout::ROW_H == 228,
            panel_layout::ROW_GAP == 36,
    ;
    lemma_no_row(
        panel_layout::CONTENT_TOP as int,
        count,
        most,
        w,
        panel_layout::listed(count, most),
        x,
        y,
    );
}

/// What is drawn below the networks is what a click there does: the field for the password,
/// the button that joins with it, and the settings of the system.
pub proof fn law_network_drawn(
    l: panel_layout::NetworkPanelLayout,
    ns: Seq<wifi::NetworkView>,
    typing: bool,
    w: int,
    x: int,
    y: int,
)
    requires
        panel_layout::is_network_layout(l, ns.len(), typing, w),
        0 <= w <= 0x100_0000,
    ensures
        ({
            let a = panel_layout::network_action(ns, typing, w, x, y);
            &&& typing && panel_layout::holds(l.password, x, y)
                ==> a == PanelAction::FocusWifiPassword
            &&& typing && panel_layout::holds(l.connect, x, y)
                ==> a == PanelAction::ConnectSelectedWifi
            &&& panel_layout::holds(l.network_settings, x, y)
                ==> a == PanelAction::OpenNetworkSettings
            &&& panel_layout::holds(l.refresh, x, y) && !panel_layout::holds(
                panel_layout::back_area(),
                x,
                y,
            ) ==> a == PanelAction::RefreshWifi
            &&& panel_layout::holds(panel_layout::back_area(), x, y)
                ==> a == PanelAction::BackToMain
        }),
{
    let c = ns.len();
    lemma_list_end(c, w, x, panel_layout::list_end(c));
    if panel_layout::list_end(c) <= y {
        lemma_list_end(c, w, x, y);
    }
}

/// What is drawn below the devices and the input methods is what a click there does.
pub proof fn law_lists_drawn(
    b: panel_layout::BluetoothPanelLayout,
    n: panel_layout::InputPanelLayout,
    count: nat,
    w: int,
    x: int,
    y: int,
)
    requires
        panel_layout::is_bluetooth_layout(b, count, w),
        panel_layout::is_input_layout(n, count, w),
        0 <= w <= 0x100_0000,
    ensures
        panel_layout::holds(b.bluetooth_settings, x, y) ==> panel_layout::bluetooth_action(
            count,
            w,
            x,
            y,
        ) == PanelAction::OpenBluetoothSettings,
        panel_layout::holds(n.system_switch, x, y) ==> panel_layout::input_action(count, w, x, y)
            == PanelAction::CycleInputMethod,
        panel_layout::holds(n.input_settings, x, y) ==> panel_layout::input_action(count, w, x, y)
            == PanelAction::OpenInputSettings,
        panel_layout::holds(b.refresh, x, y) && !panel_layout::holds(
            panel_layout::back_area(),
            x,
            y,
        ) ==> panel_layout::bluetooth_action(count, w, x, y) == PanelAction::RefreshBluetooth,
        panel_layout::holds(panel_layout::back_area(), x, y) ==> panel_layout::bluetooth_action(
            count,
            w,
            x,
            y,
        ) == PanelAction::BackToMain && panel_layout::input_action(count, w, x, y)
            == PanelAction::BackToMain,
{
    lemma_list_end(count, w, x, panel_layout::list_end(count));
    if panel_layout::list_end(count) <= y {
        lemma_list_end(count, w, x, y);
    }
}

/// The three buttons of the first view show the networks, the devices and the input methods.
pub proof fn law_first_view_buttons(l: Layout, width: i32, height: i32, x: int, y: int)
    requires
        panel_layout::usable(width, height),
        panel_layout::is_layout(l, width as int, height as int),
    ensures
        panel_layout::holds(l.buttons@[0], x, y) ==> panel_layout::main_action(l, x, y)
            == PanelAction::ShowNetworkPanel,
        panel_layout::holds(l.buttons@[1], x, y) ==> panel_layout::main_action(l, x, y)
            == PanelAction::ShowBluetoothPanel,
        panel_layout::holds(l.buttons@[2], x, y) ==> panel_layout::main_action(l, x, y)
            == PanelAction::ShowInputPanel,
        panel_layout::BTN_TOP + panel_layout::BTN_H < y && panel_layout::holds(
            l.battery_status,
            x,
            y,
        ) ==> panel_layout::main_action(l, x, y) == PanelAction::ShowBatteryPanel,
        panel_layout::BTN_TOP + panel_layout::BTN_H < y && panel_layout::holds(l.clock_status, x, y)
            && !panel_layout::holds(l.battery_status, x, y) ==> panel_layout::main_action(l, x, y)
            == PanelAction::OpenDateTimeSettings,
{
    law_buttons_side_by_side(width, height, 0);
    law_buttons_side_by_side(width, height, 1);
    law_buttons_side_by_side(width, height, 2);
    assert(l.buttons@[0] == panel_layout::button_area(0, width as int));
    assert(l.buttons@[1] == panel_layout::button_area(1, width as int));
    assert(l.buttons@[2] == panel_layout::button_area(2, width as int));
}

/// An input method that is listed is the one that is switched to.
pub proof fn law_method_is_set(m: PanelModel, index: usize)
    ensures
        index < m.input_methods.methods@.len() ==> control_center::asked(
            m,
            PanelAction::SelectInputMethod { index },
        ) == (PanelRequest::SelectInput { index }),
        index >= m.input_methods.methods@.len() ==> control_center::asked(
            m,
            PanelAction::SelectInputMethod { index },
        ) == PanelRequest::Nothing,
        index < m.wifi_networks.networks@.len() ==> control_center::asked(
            m,
            PanelAction::ConnectWifi { index },
        ) == (PanelRequest::ConnectWifi { index, typed: false }),
        index >= m.wifi_networks.networks@.len() ==> control_center::asked(
            m,
            PanelAction::ConnectWifi { index },
        ) == PanelRequest::Nothing,
{
}

/// A point is in a part of the panel where it is between its sides, which belong to it.
pub proof fn law_holds(a: panel_layout::Area, x: int, y: int)
    ensures
        panel_layout::holds(a, x, y) ==> a.left <= x && x <= a.right,
        panel_layout::holds(a, x, y) ==> a.top <= y && y <= a.bottom,
        a.left <= a.right && a.top <= a.bottom ==> panel_layout::holds(
            a,
            a.left as int,
            a.bottom as int,
        ) && panel_layout::holds(a, a.right as int, a.top as int),
{
}

} // verus!
