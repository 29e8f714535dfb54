//! Where things stand on the panel of the control center, and what the pointer is on.
//! Lengths are in sixths of a pixel at a scale of one, so that thirds and halves of a pixel
//! are whole numbers.

use vstd::prelude::*;
use crate::sysctl::{AudioDevices, AudioFlow, BluetoothDevices, InputMethods};
use crate::wifi::WifiNetworks;

verus! {

pub const PANEL_W: i32 = 2040;

pub const PANEL_H: i32 = 1332;

pub const PANEL_BATTERY_H: i32 = 1560;

pub const PANEL_BLUETOOTH_H: i32 = 1620;

pub const PANEL_INPUT_H: i32 = 1752;

pub const PAD: i32 = 84;

pub const VOL_TOP: i32 = 96;

pub const VOL_H: i32 = 192;

pub const GLYPH_W: i32 = 180;

pub const AUDIO_BUTTON_TOP: i32 = 336;

pub const AUDIO_BUTTON_H: i32 = 204;

pub const BTN_TOP: i32 = 612;

pub const BTN_H: i32 = 348;

pub const BTN_GAP: i32 = 60;

pub const STATUS_H: i32 = 132;

pub const HEADER_TOP: i32 = 72;

pub const HEADER_H: i32 = 204;

pub const SECTION_H: i32 = 132;

pub const ROW_H: i32 = 228;

pub const ROW_GAP: i32 = 36;

/// Where the content below the heading begins.
pub const CONTENT_TOP: i32 = 348;

/// Between what is listed and what stands below it.
pub const SECTION_GAP: i32 = 84;

pub const AUDIO_SETTINGS_GAP: i32 = 108;

/// The most sound devices of one kind that are shown.
pub const AUDIO_MAX_ROWS: usize = 3;

/// The most networks, Bluetooth devices or input methods that are shown.
pub const MAX_ROWS: usize = 5;

/// What the panel shows.
#[derive(Clone, Copy, Debug, PartialEq, Eq, Structural)]
pub enum PanelView {
    Main,
    Audio,
    Battery,
    Network,
    Bluetooth,
    Input,
}

/// What a click does.
#[derive(Clone, Copy, Debug, PartialEq, Eq, Structural)]
pub enum PanelAction {
    Nothing,
    ToggleMute,
    StartVolumeDrag,
    ShowAudioPanel,
    ShowNetworkPanel,
    ShowBluetoothPanel,
    ShowInputPanel,
    ShowBatteryPanel,
    RefreshWifi,
    RefreshBluetooth,
    ConnectWifi { index: usize },
    SelectWifiForPassword { index: usize },
    FocusWifiPassword,
    ConnectSelectedWifi,
    OpenBluetoothDevice { index: usize },
    SelectInputMethod { index: usize },
    CycleInputMethod,
    OpenDateTimeSettings,
    OpenNetworkSettings,
    OpenBluetoothSettings,
    OpenInputSettings,
    BackToMain,
    OpenSoundSettings,
    OpenBatterySaverSettings,
    OpenPowerSettings,
    SelectAudioDevice { flow: AudioFlow, index: usize },
}

/// A part of the panel.
#[derive(Clone, Copy, Debug, PartialEq, Eq, Structural)]
pub struct Area {
    pub left: i32,
    pub top: i32,
    pub right: i32,
    pub bottom: i32,
}

pub open spec fn area(left: int, top: int, right: int, bottom: int) -> Area {
    Area { left: left as i32, top: top as i32, right: right as i32, bottom: bottom as i32 }
}

pub open spec fn holds(a: Area, x: int, y: int) -> bool {
    a.left <= x <= a.right && a.top <= y <= a.bottom
}

/// Whether a point is on a part of the panel.
pub fn in_rect(a: &Area, x: i32, y: i32) -> (r: bool)
    ensures
        r == holds(*a, x as int, y as int),
{
    x >= a.left && x <= a.right && y >= a.top && y <= a.bottom
}

/// A size that a panel can have.
pub open spec fn usable(width: i32, height: i32) -> bool {
    2 * PAD + 2 * BTN_GAP <= width <= 0x100_0000 && 0 <= height <= 0x100_0000
}

/// Where the parts of the panel stand that no list moves.
#[derive(Clone, Debug)]
pub struct Layout {
    pub vol_glyph: Area,
    pub vol_row: Area,
    pub vol_bar: Area,
    pub audio_button: Area,
    pub buttons: Vec<Area>,
    pub status: Area,
    pub battery_status: Area,
    pub clock_status: Area,
    pub back: Area,
    pub battery_saver: Area,
    pub power_settings: Area,
}

pub open spec fn button_width(width: int) -> int {
    (width - 2 * PAD - 2 * BTN_GAP) / 3
}

pub open spec fn button_area(i: int, width: int) -> Area {
    let left = PAD + i * (button_width(width) + BTN_GAP);
    area(left, BTN_TOP as int, left + button_width(width), BTN_TOP + BTN_H)
}

pub open spec fn status_top(height: int) -> int {
    height - PAD - STATUS_H
}

/// The left side of the clock.
pub open spec fn clock_left(width: int) -> int {
    if 768 < width - 2 * PAD {
        width - PAD - 768
    } else {
        PAD as int
    }
}

pub open spec fn is_layout(l: Layout, w: int, h: int) -> bool {
    &&& l.vol_row == area(PAD as int, VOL_TOP as int, w - PAD, VOL_TOP + VOL_H)
    &&& l.vol_glyph == area(PAD as int, VOL_TOP as int, PAD + GLYPH_W, VOL_TOP + VOL_H)
    &&& l.vol_bar == area(
        PAD + GLYPH_W + 36,
        VOL_TOP + VOL_H / 2 - 15,
        w - PAD,
        VOL_TOP + VOL_H / 2 + 15,
    )
    &&& l.audio_button == area(
        PAD as int,
        AUDIO_BUTTON_TOP as int,
        w - PAD,
        AUDIO_BUTTON_TOP + AUDIO_BUTTON_H,
    )
    &&& l.buttons@ == seq![button_area(0, w), button_area(1, w), button_area(2, w)]
    &&& l.status == area(PAD as int, status_top(h), w - PAD, status_top(h) + STATUS_H)
    &&& l.clock_status == area(clock_left(w), status_top(h), w - PAD, status_top(h) + STATUS_H)
    &&& l.battery_status == area(
        PAD as int,
        status_top(h),
        clock_left(w) - 48,
        status_top(h) + STATUS_H,
    )
    &&& l.back == back_area()
    &&& l.battery_saver == area(PAD as int, 516, w - PAD, 516 + ROW_H)
    &&& l.power_settings == area(PAD as int, 792, w - PAD, 792 + ROW_H)
}

pub open spec fn back_area() -> Area {
    area(PAD as int, HEADER_TOP as int, PAD + 204, HEADER_TOP + HEADER_H)
}

/// The button that refreshes a list.
pub open spec fn refresh_area(w: int) -> Area {
    area(w - PAD - 408, HEADER_TOP as int, w - PAD, HEADER_TOP + HEADER_H)
}

/// Where the parts of the panel stand that no list moves.
pub fn layout(width: i32, height: i32) -> (r: Layout)
    requires
        usable(width, height),
    ensures
        is_layout(r, width as int, height as int),
{
    let cl: i32 = PAD;
    let cr: i32 = width - PAD;
    let mid: i32 = VOL_TOP + VOL_H / 2;
    let bw: i32 = (width - 2 * PAD - 2 * BTN_GAP) / 3;
    let mut buttons: Vec<Area> = Vec::new();
    buttons.push(Area { left: cl, top: BTN_TOP, right: cl + bw, bottom: BTN_TOP + BTN_H });
    let second: i32 = cl + (bw + BTN_GAP);
    buttons.push(
        Area { left: second, top: BTN_TOP, right: second + bw, bottom: BTN_TOP + BTN_H },
    );
    let third: i32 = cl + 2 * (bw + BTN_GAP);
    buttons.push(Area { left: third, top: BTN_TOP, right: third + bw, bottom: BTN_TOP + BTN_H });
    let top: i32 = height - PAD - STATUS_H;
    let clock: i32 = if 768 < cr - cl {
        cr - 768
    } else {
        cl
    };
    assert(buttons@ =~= seq![
        button_area(0, width as int),
        button_area(1, width as int),
        button_area(2, width as int),
    ]);
    Layout {
        vol_glyph: Area { left: cl, top: VOL_TOP, right: cl + GLYPH_W, bottom: VOL_TOP + VOL_H },
        vol_row: Area { left: cl, top: VOL_TOP, right: cr, bottom: VOL_TOP + VOL_H },
        vol_bar: Area { left: cl + GLYPH_W + 36, top: mid - 15, right: cr, bottom: mid + 15 },
        audio_button: Area {
            left: cl,
            top: AUDIO_BUTTON_TOP,
            right: cr,
            bottom: AUDIO_BUTTON_TOP + AUDIO_BUTTON_H,
        },
        buttons,
        status: Area { left: cl, top, right: cr, bottom: top + STATUS_H },
        battery_status: Area { left: cl, top, right: clock - 48, bottom: top + STATUS_H },
        clock_status: Area { left: clock, top, right: cr, bottom: top + STATUS_H },
        back: back(),
        battery_saver: Area { left: cl, top: 516, right: cr, bottom: 516 + ROW_H },
        power_settings: Area { left: cl, top: 792, right: cr, bottom: 792 + ROW_H },
    }
}

fn back() -> (r: Area)
    ensures
        r == back_area(),
{
    Area { left: PAD, top: HEADER_TOP, right: PAD + 204, bottom: HEADER_TOP + HEADER_H }
}

fn refresh(width: i32) -> (r: Area)
    requires
        usable(width, 0),
    ensures
        r == refresh_area(width as int),
{
    Area {
        left: width - PAD - 408,
        top: HEADER_TOP,
        right: width - PAD,
        bottom: HEADER_TOP + HEADER_H,
    }
}

/// A row across the panel.
pub open spec fn row_area(top: int, w: int) -> Area {
    area(PAD as int, top, w - PAD, top + ROW_H)
}

/// The upper side of a row of a list that begins at `start`.
pub open spec fn row_top(start: int, i: int) -> int {
    start + i * (ROW_H + ROW_GAP)
}

/// The lower side of the last row.
pub open spec fn rows_end(start: int, count: int) -> int {
    row_top(start, count - 1) + ROW_H
}

/// The rows of a list.
pub open spec fn row_areas(start: int, count: nat, w: int) -> Seq<Area> {
    Seq::new(count, |i: int| row_area(row_top(start, i), w))
}

fn row(top: i32, width: i32) -> (r: Area)
    requires
        usable(width, 0),
        0 <= top <= 0x1000_0000,
    ensures
        r == row_area(top as int, width as int),
{
    Area { left: PAD, top, right: width - PAD, bottom: top + ROW_H }
}

fn rows(start: i32, count: usize, width: i32) -> (r: Vec<Area>)
    requires
        usable(width, 0),
        0 <= start <= 0x100_0000,
        count <= MAX_ROWS,
    ensures
        r@ == row_areas(start as int, count as nat, width as int),
{
    let mut out: Vec<Area> = Vec::new();
    let mut i: usize = 0;
    let ghost all = row_areas(start as int, count as nat, width as int);
    assert(out@ =~= all.take(0));
    while i < count
        invariant
            usable(width, 0),
            0 <= start <= 0x100_0000,
            count <= MAX_ROWS,
            all == row_areas(start as int, count as nat, width as int),
            i <= count,
            out@ == all.take(i as int),
        decreases count - i,
    {
        out.push(row(start + i as i32 * (ROW_H + ROW_GAP), width));
        assert(all.take(i as int + 1) =~= all.take(i as int).push(all[i as int]));
        i += 1;
    }
    assert(all.take(i as int) =~= all);
    out
}

fn end_of_rows(start: i32, count: usize) -> (r: i32)
    requires
        0 <= start <= 0x100_0000,
        1 <= count <= MAX_ROWS,
    ensures
        r == rows_end(start as int, count as int),
{
    let steps: i32 = count as i32 - 1;
    let step: i32 = ROW_H + ROW_GAP;
    assert(0 <= steps * step <= 4 * 264) by (nonlinear_arith)
        requires
            0 <= steps <= 4,
            step == 264,
    ;
    start + steps * step + ROW_H
}

/// How many rows a list takes: one where it is empty, and no more than there is room for.
pub open spec fn rows_shown(count: nat, most: nat) -> nat {
    if count == 0 {
        1
    } else if count < most {
        count
    } else {
        most
    }
}

/// How many rows a list takes.
pub fn simple_visible_row_count(count: usize, most: usize) -> (r: usize)
    requires
        most >= 1,
    ensures
        r == rows_shown(count as nat, most as nat),
{
    if count == 0 {
        1
    } else if count < most {
        count
    } else {
        most
    }
}

/// Where the sound devices stand.
#[derive(Clone, Debug)]
pub struct AudioPanelLayout {
    pub output_title: Area,
    pub output_rows: Vec<Area>,
    pub input_title: Area,
    pub input_rows: Vec<Area>,
    pub sound_settings: Area,
}

pub open spec fn outputs_top() -> int {
    CONTENT_TOP + SECTION_H
}

pub open spec fn input_title_top(outputs: nat) -> int {
    rows_end(outputs_top(), rows_shown(outputs, AUDIO_MAX_ROWS as nat) as int) + SECTION_GAP
}

pub open spec fn inputs_top(outputs: nat) -> int {
    input_title_top(outputs) + SECTION_H
}

pub open spec fn sound_top(outputs: nat, inputs: nat) -> int {
    rows_end(inputs_top(outputs), rows_shown(inputs, AUDIO_MAX_ROWS as nat) as int)
        + AUDIO_SETTINGS_GAP
}

pub open spec fn section_area(top: int, w: int) -> Area {
    area(PAD as int, top, w - PAD, top + SECTION_H)
}

pub open spec fn is_audio_layout(l: AudioPanelLayout, outputs: nat, inputs: nat, w: int) -> bool {
    &&& l.output_title == section_area(CONTENT_TOP as int, w)
    &&& l.output_rows@ == row_areas(
        outputs_top(),
        rows_shown(outputs, AUDIO_MAX_ROWS as nat),
        w,
    )
    &&& l.input_title == section_area(input_title_top(outputs), w)
    &&& l.input_rows@ == row_areas(
        inputs_top(outputs),
        rows_shown(inputs, AUDIO_MAX_ROWS as nat),
        w,
    )
    &&& l.sound_settings == row_area(sound_top(outputs, inputs), w)
}

/// Where the sound devices stand.
pub fn audio_panel_layout(devices: &AudioDevices, width: i32) -> (r: AudioPanelLayout)
    requires
        usable(width, 0),
    ensures
        is_audio_layout(
            r,
            devices.outputs@.len(),
            devices.inputs@.len(),
            width as int,
        ),
{
    let outputs: usize = simple_visible_row_count(devices.outputs.len(), AUDIO_MAX_ROWS);
    let inputs: usize = simple_visible_row_count(devices.inputs.len(), AUDIO_MAX_ROWS);
    let start: i32 = CONTENT_TOP + SECTION_H;
    let title: i32 = end_of_rows(start, outputs) + SECTION_GAP;
    let below: i32 = title + SECTION_H;
    let end: i32 = end_of_rows(below, inputs) + AUDIO_SETTINGS_GAP;
    AudioPanelLayout {
        output_title: Area {
            left: PAD,
            top: CONTENT_TOP,
            right: width - PAD,
            bottom: CONTENT_TOP + SECTION_H,
        },
        output_rows: rows(start, outputs, width),
        input_title: Area { left: PAD, top: title, right: width - PAD, bottom: title + SECTION_H },
        input_rows: rows(below, inputs, width),
        sound_settings: row(end, width),
    }
}

pub open spec fn at_least(h: int, least: int) -> int {
    if h > least {
        h
    } else {
        least
    }
}

pub open spec fn audio_height(outputs: nat, inputs: nat) -> int {
    at_least(sound_top(outputs, inputs) + ROW_H + PAD, PANEL_H as int)
}

/// The height of the panel with the sound devices.
pub fn audio_panel_height(devices: &AudioDevices) -> (r: i32)
    ensures
        r == audio_height(devices.outputs@.len(), devices.inputs@.len()),
{
    let l = audio_panel_layout(devices, PANEL_W);
    let h: i32 = l.sound_settings.bottom + PAD;
    if h > PANEL_H {
        h
    } else {
        PANEL_H
    }
}

/// Where the networks stand.
#[derive(Clone, Debug)]
pub struct NetworkPanelLayout {
    pub rows: Vec<Area>,
    pub password: Area,
    pub connect: Area,
    pub refresh: Area,
    pub status: Area,
    pub network_settings: Area,
}

pub open spec fn list_end(count: nat) -> int {
    rows_end(CONTENT_TOP as int, rows_shown(count, MAX_ROWS as nat) as int) + SECTION_GAP
}

/// Where the status stands: below the field for a password where there is one.
pub open spec fn network_status_top(count: nat, typing: bool) -> int {
    if typing {
        list_end(count) + ROW_H + ROW_GAP + ROW_H + SECTION_GAP
    } else {
        list_end(count)
    }
}

pub open spec fn network_settings_top(count: nat, typing: bool) -> int {
    network_status_top(count, typing) + STATUS_H + ROW_GAP
}

pub open spec fn status_area(top: int, w: int) -> Area {
    area(PAD as int, top, w - PAD, top + STATUS_H)
}

pub open spec fn is_network_layout(l: NetworkPanelLayout, count: nat, typing: bool, w: int) -> bool {
    &&& l.rows@ == row_areas(CONTENT_TOP as int, rows_shown(count, MAX_ROWS as nat), w)
    &&& l.password == (if typing {
        row_area(list_end(count), w)
    } else {
        area(0, 0, 0, 0)
    })
    &&& l.connect == (if typing {
        row_area(list_end(count) + ROW_H + ROW_GAP, w)
    } else {
        area(0, 0, 0, 0)
    })
    &&& l.refresh == refresh_area(w)
    &&& l.status == status_area(network_status_top(count, typing), w)
    &&& l.network_settings == row_area(network_settings_top(count, typing), w)
}

/// Where the networks stand; a selected one has a field for its password.
pub fn network_panel_layout_for_selection(
    networks: &WifiNetworks,
    selected: Option<usize>,
    width: i32,
) -> (r: NetworkPanelLayout)
    requires
        usable(width, 0),
    ensures
        is_network_layout(r, networks.networks@.len(), selected is Some, width as int),
{
    let count: usize = simple_visible_row_count(networks.networks.len(), MAX_ROWS);
    let mut top: i32 = end_of_rows(CONTENT_TOP, count) + SECTION_GAP;
    let mut password = Area { left: 0, top: 0, right: 0, bottom: 0 };
    let mut connect = Area { left: 0, top: 0, right: 0, bottom: 0 };
    if selected.is_some() {
        password = row(top, width);
        connect = row(top + ROW_H + ROW_GAP, width);
        top = top + ROW_H + ROW_GAP + ROW_H + SECTION_GAP;
    }
    NetworkPanelLayout {
        rows: rows(CONTENT_TOP, count, width),
        password,
        connect,
        refresh: refresh(width),
        status: Area { left: PAD, top, right: width - PAD, bottom: top + STATUS_H },
        network_settings: row(top + STATUS_H + ROW_GAP, width),
    }
}

/// Where the networks stand while none is selected.
pub fn network_panel_layout(networks: &WifiNetworks, width: i32) -> (r: NetworkPanelLayout)
    requires
        usable(width, 0),
    ensures
        is_network_layout(r, networks.networks@.len(), false, width as int),
{
    network_panel_layout_for_selection(networks, None, width)
}

pub open spec fn network_height(count: nat, typing: bool) -> int {
    at_least(network_settings_top(count, typing) + ROW_H + PAD, PANEL_H as int)
}

/// The height of the panel with the networks.
pub fn network_panel_height_for_selection(networks: &WifiNetworks, selected: Option<usize>) -> (r:
    i32)
    ensures
        r == network_height(networks.networks@.len(), selected is Some),
{
    let l = network_panel_layout_for_selection(networks, selected, PANEL_W);
    let h: i32 = l.network_settings.bottom + PAD;
    if h > PANEL_H {
        h
    } else {
        PANEL_H
    }
}

/// The height of the panel with the networks while none is selected.
pub fn network_panel_height(networks: &WifiNetworks) -> (r: i32)
    ensures
        r == network_height(networks.networks@.len(), false),
{
    network_panel_height_for_selection(networks, None)
}

/// Where the Bluetooth devices stand.
#[derive(Clone, Debug)]
pub struct BluetoothPanelLayout {
    pub rows: Vec<Area>,
    pub refresh: Area,
    pub status: Area,
    pub bluetooth_settings: Area,
}

pub open spec fn below_status(count: nat) -> int {
    list_end(count) + STATUS_H + ROW_GAP
}

pub open spec fn is_bluetooth_layout(l: BluetoothPanelLayout, count: nat, w: int) -> bool {
    &&& l.rows@ == row_areas(CONTENT_TOP as int, rows_shown(count, MAX_ROWS as nat), w)
    &&& l.refresh == refresh_area(w)
    &&& l.status == status_area(list_end(count), w)
    &&& l.bluetooth_settings == row_area(below_status(count), w)
}

/// Where the Bluetooth devices stand.
pub fn bluetooth_panel_layout(devices: &BluetoothDevices, width: i32) -> (r: BluetoothPanelLayout)
    requires
        usable(width, 0),
    ensures
        is_bluetooth_layout(r, devices.devices@.len(), width as int),
{
    let count: usize = simple_visible_row_count(devices.devices.len(), MAX_ROWS);
    let top: i32 = end_of_rows(CONTENT_TOP, count) + SECTION_GAP;
    BluetoothPanelLayout {
        rows: rows(CONTENT_TOP, count, width),
        refresh: refresh(width),
        status: Area { left: PAD, top, right: width - PAD, bottom: top + STATUS_H },
        bluetooth_settings: row(top + STATUS_H + ROW_GAP, width),
    }
}

pub open spec fn bluetooth_height(count: nat) -> int {
    at_least(below_status(count) + ROW_H + PAD, PANEL_BLUETOOTH_H as int)
}

/// The height of the panel with the Bluetooth devices.
pub fn bluetooth_panel_height(devices: &BluetoothDevices) -> (r: i32)
    ensures
        r == bluetooth_height(devices.devices@.len()),
{
    let l = bluetooth_panel_layout(devices, PANEL_W);
    let h: i32 = l.bluetooth_settings.bottom + PAD;
    if h > PANEL_BLUETOOTH_H {
        h
    } else {
        PANEL_BLUETOOTH_H
    }
}

/// Where the input methods stand.
#[derive(Clone, Debug)]
pub struct InputPanelLayout {
    pub rows: Vec<Area>,
    pub status: Area,
    pub system_switch: Area,
    pub input_settings: Area,
}

pub open spec fn is_input_layout(l: InputPanelLayout, count: nat, w: int) -> bool {
    &&& l.rows@ == row_areas(CONTENT_TOP as int, rows_shown(count, MAX_ROWS as nat), w)
    &&& l.status == status_area(list_end(count), w)
    &&& l.system_switch == row_area(below_status(count), w)
    &&& l.input_settings == row_area(below_status(count) + ROW_H + ROW_GAP, w)
}

/// Where the input methods stand.
pub fn input_panel_layout(methods: &InputMethods, width: i32) -> (r: InputPanelLayout)
    requires
        usable(width, 0),
    ensures
        is_input_layout(r, methods.methods@.len(), width as int),
{
    let count: usize = simple_visible_row_count(methods.methods.len(), MAX_ROWS);
    let top: i32 = end_of_rows(CONTENT_TOP, count) + SECTION_GAP;
    let below: i32 = top + STATUS_H + ROW_GAP;
    InputPanelLayout {
        rows: rows(CONTENT_TOP, count, width),
        status: Area { left: PAD, top, right: width - PAD, bottom: top + STATUS_H },
        system_switch: row(below, width),
        input_settings: row(below + ROW_H + ROW_GAP, width),
    }
}

pub open spec fn input_height(count: nat) -> int {
    at_least(below_status(count) + ROW_H + ROW_GAP + ROW_H + PAD, PANEL_INPUT_H as int)
}

/// The height of the panel with the input methods.
pub fn input_panel_height(methods: &InputMethods) -> (r: i32)
    ensures
        r == input_height(methods.methods@.len()),
{
    let l = input_panel_layout(methods, PANEL_W);
    let h: i32 = l.input_settings.bottom + PAD;
    if h > PANEL_INPUT_H {
        h
    } else {
        PANEL_INPUT_H
    }
}

/// How much the panel holds, by which its height goes.
pub ghost struct Counts {
    pub outputs: nat,
    pub inputs: nat,
    pub networks: nat,
    pub typing: bool,
    pub devices: nat,
    pub methods: nat,
}

pub open spec fn view_height(view: PanelView, c: Counts) -> int {
    match view {
        PanelView::Main => PANEL_H as int,
        PanelView::Audio => audio_height(c.outputs, c.inputs),
        PanelView::Battery => PANEL_BATTERY_H as int,
        PanelView::Network => network_height(c.networks, c.typing),
        PanelView::Bluetooth => bluetooth_height(c.devices),
        PanelView::Input => input_height(c.methods),
    }
}

pub open spec fn no_counts() -> Counts {
    Counts { outputs: 0, inputs: 0, networks: 0, typing: false, devices: 0, methods: 0 }
}

/// A length at a scale in hundredths.
pub open spec fn at_scale(n: int, scale: int) -> int {
    n * scale / 100
}

fn scaled_by(n: i32, scale: u32) -> (r: i32)
    requires
        0 <= n <= 0x1_0000,
        scale <= 0x4000,
    ensures
        r == at_scale(n as int, scale as int),
{
    assert(0 <= n * scale <= 0x1_0000 * 0x4000) by (nonlinear_arith)
        requires
            0 <= n <= 0x1_0000,
            0 <= scale <= 0x4000,
    ;
    (n as i64 * scale as i64 / 100) as i32
}

/// The size of the panel with nothing listed, at a scale in hundredths.
pub fn panel_size(view: PanelView, scale: u32) -> (r: (i32, i32))
    requires
        scale <= 0x4000,
    ensures
        r.0 == at_scale(PANEL_W as int, scale as int),
        r.1 == at_scale(view_height(view, no_counts()), scale as int),
{
    panel_size_for_view(
        view,
        scale,
        &AudioDevices::default(),
        &WifiNetworks::default(),
        None,
        &BluetoothDevices::default(),
        &InputMethods::default(),
    )
}

/// The size of the panel, at a scale in hundredths.
pub fn panel_size_for_view(
    view: PanelView,
    scale: u32,
    audio_devices: &AudioDevices,
    wifi_networks: &WifiNetworks,
    selected_wifi: Option<usize>,
    bluetooth_devices: &BluetoothDevices,
    input_methods: &InputMethods,
) -> (r: (i32, i32))
    requires
        scale <= 0x4000,
    ensures
        r.0 == at_scale(PANEL_W as int, scale as int),
        r.1 == at_scale(
            view_height(
                view,
                Counts {
                    outputs: audio_devices.outputs@.len(),
                    inputs: audio_devices.inputs@.len(),
                    networks: wifi_networks.networks@.len(),
                    typing: selected_wifi is Some,
                    devices: bluetooth_devices.devices@.len(),
                    methods: input_methods.methods@.len(),
                },
            ),
            scale as int,
        ),
{
    let h: i32 = match view {
        PanelView::Main => PANEL_H,
        PanelView::Audio => audio_panel_height(audio_devices),
        PanelView::Battery => PANEL_BATTERY_H,
        PanelView::Network => network_panel_height_for_selection(wifi_networks, selected_wifi),
        PanelView::Bluetooth => bluetooth_panel_height(bluetooth_devices),
        PanelView::Input => input_panel_height(input_methods),
    };
    (scaled_by(PANEL_W, scale), scaled_by(h, scale))
}

/// The first of a list's rows that a point is on.
pub open spec fn row_at(rows: Seq<Area>, count: int, x: int, y: int) -> Option<int>
    decreases count,
{
    if count <= 0 {
        None
    } else {
        match row_at(rows, count - 1, x, y) {
            Some(i) => Some(i),
            None => if holds(rows[count - 1], x, y) {
                Some(count - 1)
            } else {
                None
            },
        }
    }
}

fn find_row(rows: &Vec<Area>, count: usize, x: i32, y: i32) -> (r: Option<usize>)
    requires
        count <= rows@.len(),
    ensures
        match r {
            Some(i) => row_at(rows@, count as int, x as int, y as int) == Some(i as int) && i
                < count,
            None => row_at(rows@, count as int, x as int, y as int) is None,
        },
{
    let mut i: usize = 0;
    while i < count
        invariant
            count <= rows@.len(),
            i <= count,
            row_at(rows@, i as int, x as int, y as int) is None,
        decreases count - i,
    {
        if in_rect(&rows[i], x, y) {
            proof {
                lemma_row_at(rows@, i as int + 1, count as int, x as int, y as int);
            }
            return Some(i);
        }
        i += 1;
    }
    None
}

proof fn lemma_row_at(rows: Seq<Area>, k: int, count: int, x: int, y: int)
    requires
        0 <= k <= count,
        row_at(rows, k, x, y) is Some,
    ensures
        row_at(rows, count, x, y) == row_at(rows, k, x, y),
    decreases count,
{
    if k < count {
        lemma_row_at(rows, k, count - 1, x, y);
    }
}

/// How many of a list stand in rows.
pub open spec fn listed(count: nat, most: nat) -> int {
    if count < most {
        count as int
    } else {
        most as int
    }
}

fn listed_rows(count: usize, most: usize) -> (r: usize)
    ensures
        r == listed(count as nat, most as nat),
{
    if count < most {
        count
    } else {
        most
    }
}

pub open spec fn main_action(l: Layout, x: int, y: int) -> PanelAction {
    if holds(l.vol_glyph, x, y) {
        PanelAction::ToggleMute
    } else if holds(l.vol_row, x, y) {
        PanelAction::StartVolumeDrag
    } else if holds(l.audio_button, x, y) {
        PanelAction::ShowAudioPanel
    } else if holds(l.buttons@[0], x, y) {
        PanelAction::ShowNetworkPanel
    } else if holds(l.buttons@[1], x, y) {
        PanelAction::ShowBluetoothPanel
    } else if holds(l.buttons@[2], x, y) {
        PanelAction::ShowInputPanel
    } else if holds(l.battery_status, x, y) {
        PanelAction::ShowBatteryPanel
    } else if holds(l.clock_status, x, y) {
        PanelAction::OpenDateTimeSettings
    } else {
        PanelAction::Nothing
    }
}

/// What the pointer is on in the first view.
pub fn main_action_at(l: &Layout, x: i32, y: i32) -> (r: PanelAction)
    requires
        l.buttons@.len() == 3,
    ensures
        r == main_action(*l, x as int, y as int),
{
    if in_rect(&l.vol_glyph, x, y) {
        PanelAction::ToggleMute
    } else if in_rect(&l.vol_row, x, y) {
        PanelAction::StartVolumeDrag
    } else if in_rect(&l.audio_button, x, y) {
        PanelAction::ShowAudioPanel
    } else if in_rect(&l.buttons[0], x, y) {
        PanelAction::ShowNetworkPanel
    } else if in_rect(&l.buttons[1], x, y) {
        PanelAction::ShowBluetoothPanel
    } else if in_rect(&l.buttons[2], x, y) {
        PanelAction::ShowInputPanel
    } else if in_rect(&l.battery_status, x, y) {
        PanelAction::ShowBatteryPanel
    } else if in_rect(&l.clock_status, x, y) {
        PanelAction::OpenDateTimeSettings
    } else {
        PanelAction::Nothing
    }
}

/// What the pointer is on among the sound devices.
pub open spec fn audio_action(outputs: nat, inputs: nat, w: int, x: int, y: int) -> PanelAction {
    let most = AUDIO_MAX_ROWS as nat;
    let out = row_areas(outputs_top(), rows_shown(outputs, most), w);
    let inp = row_areas(inputs_top(outputs), rows_shown(inputs, most), w);
    if holds(back_area(), x, y) {
        PanelAction::BackToMain
    } else if row_at(out, listed(outputs, most), x, y) is Some {
        PanelAction::SelectAudioDevice {
            flow: AudioFlow::Output,
            index: row_at(out, listed(outputs, most), x, y)->Some_0 as usize,
        }
    } else if row_at(inp, listed(inputs, most), x, y) is Some {
        PanelAction::SelectAudioDevice {
            flow: AudioFlow::Input,
            index: row_at(inp, listed(inputs, most), x, y)->Some_0 as usize,
        }
    } else if holds(row_area(sound_top(outputs, inputs), w), x, y) {
        PanelAction::OpenSoundSettings
    } else {
        PanelAction::Nothing
    }
}

/// What the pointer is on among the sound devices.
pub fn audio_action_at(devices: &AudioDevices, width: i32, x: i32, y: i32) -> (r: PanelAction)
    requires
        usable(width, 0),
    ensures
        r == audio_action(
            devices.outputs@.len(),
            devices.inputs@.len(),
            width as int,
            x as int,
            y as int,
        ),
{
    let l = audio_panel_layout(devices, width);
    if in_rect(&back(), x, y) {
        return PanelAction::BackToMain;
    }
    let outputs: usize = listed_rows(devices.outputs.len(), AUDIO_MAX_ROWS);
    if let Some(index) = find_row(&l.output_rows, outputs, x, y) {
        return PanelAction::SelectAudioDevice { flow: AudioFlow::Output, index };
    }
    let inputs: usize = listed_rows(devices.inputs.len(), AUDIO_MAX_ROWS);
    if let Some(index) = find_row(&l.input_rows, inputs, x, y) {
        return PanelAction::SelectAudioDevice { flow: AudioFlow::Input, index };
    }
    if in_rect(&l.sound_settings, x, y) {
        return PanelAction::OpenSoundSettings;
    }
    PanelAction::Nothing
}

pub open spec fn battery_action(l: Layout, x: int, y: int) -> PanelAction {
    if holds(l.back, x, y) {
        PanelAction::BackToMain
    } else if holds(l.battery_saver, x, y) {
        PanelAction::OpenBatterySaverSettings
    } else if holds(l.power_settings, x, y) {
        PanelAction::OpenPowerSettings
    } else {
        PanelAction::Nothing
    }
}

/// What the pointer is on in the view of the battery.
pub fn battery_action_at(l: &Layout, x: i32, y: i32) -> (r: PanelAction)
    ensures
        r == battery_action(*l, x as int, y as int),
{
    if in_rect(&l.back, x, y) {
        PanelAction::BackToMain
    } else if in_rect(&l.battery_saver, x, y) {
        PanelAction::OpenBatterySaverSettings
    } else if in_rect(&l.power_settings, x, y) {
        PanelAction::OpenPowerSettings
    } else {
        PanelAction::Nothing
    }
}

/// What a click on a network does: one without a saved profile may need a password.
pub open spec fn network_click(n: crate::wifi::NetworkView, index: usize) -> PanelAction {
    if !n.connectable {
        PanelAction::OpenNetworkSettings
    } else if n.secure && !n.has_profile {
        PanelAction::SelectWifiForPassword { index }
    } else {
        PanelAction::ConnectWifi { index }
    }
}

/// What a click on a network does.
pub fn network_row_action(n: &crate::wifi::WifiNetworkInfo, index: usize) -> (r: PanelAction)
    ensures
        r == network_click(n@, index),
{
    if !n.connectable {
        PanelAction::OpenNetworkSettings
    } else if n.secure && !n.has_profile {
        PanelAction::SelectWifiForPassword { index }
    } else {
        PanelAction::ConnectWifi { index }
    }
}

/// What the pointer is on among the networks.
pub open spec fn network_action(
    ns: Seq<crate::wifi::NetworkView>,
    typing: bool,
    w: int,
    x: int,
    y: int,
) -> PanelAction {
    let most = MAX_ROWS as nat;
    let count = ns.len();
    let rows = row_areas(CONTENT_TOP as int, rows_shown(count, most), w);
    let at = row_at(rows, listed(count, most), x, y);
    if holds(back_area(), x, y) {
        PanelAction::BackToMain
    } else if holds(refresh_area(w), x, y) {
        PanelAction::RefreshWifi
    } else if at is Some {
        network_click(ns[at->Some_0], at->Some_0 as usize)
    } else if typing && holds(row_area(list_end(count), w), x, y) {
        PanelAction::FocusWifiPassword
    } else if typing && holds(row_area(list_end(count) + ROW_H + ROW_GAP, w), x, y) {
        PanelAction::ConnectSelectedWifi
    } else if holds(row_area(network_settings_top(count, typing), w), x, y) {
        PanelAction::OpenNetworkSettings
    } else {
        PanelAction::Nothing
    }
}

/// What the pointer is on among the networks.
pub fn network_action_at_for_selection(
    networks: &WifiNetworks,
    selected: Option<usize>,
    width: i32,
    x: i32,
    y: i32,
) -> (r: PanelAction)
    requires
        usable(width, 0),
    ensures
        r == network_action(
            crate::wifi::views(networks.networks@),
            selected is Some,
            width as int,
            x as int,
            y as int,
        ),
{
    let l = network_panel_layout_for_selection(networks, selected, width);
    if in_rect(&back(), x, y) {
        return PanelAction::BackToMain;
    }
    if in_rect(&l.refresh, x, y) {
        return PanelAction::RefreshWifi;
    }
    let count: usize = listed_rows(networks.networks.len(), MAX_ROWS);
    if let Some(index) = find_row(&l.rows, count, x, y) {
        assert(crate::wifi::views(networks.networks@)[index as int]
            == networks.networks@[index as int]@);
        return network_row_action(&networks.networks[index], index);
    }
    if selected.is_some() && in_rect(&l.password, x, y) {
        return PanelAction::FocusWifiPassword;
    }
    if selected.is_some() && in_rect(&l.connect, x, y) {
        return PanelAction::ConnectSelectedWifi;
    }
    if in_rect(&l.network_settings, x, y) {
        return PanelAction::OpenNetworkSettings;
    }
    PanelAction::Nothing
}

/// What the pointer is on among the networks while none is selected.
pub fn network_action_at(networks: &WifiNetworks, width: i32, x: i32, y: i32) -> (r: PanelAction)
    requires
        usable(width, 0),
    ensures
        r == network_action(
            crate::wifi::views(networks.networks@),
            false,
            width as int,
            x as int,
            y as int,
        ),
{
    network_action_at_for_selection(networks, None, width, x, y)
}

/// What the pointer is on among the Bluetooth devices.
pub open spec fn bluetooth_action(count: nat, w: int, x: int, y: int) -> PanelAction {
    let most = MAX_ROWS as nat;
    let rows = row_areas(CONTENT_TOP as int, rows_shown(count, most), w);
    let at = row_at(rows, listed(count, most), x, y);
    if holds(back_area(), x, y) {
        PanelAction::BackToMain
    } else if holds(refresh_area(w), x, y) {
        PanelAction::RefreshBluetooth
    } else if at is Some {
        PanelAction::OpenBluetoothDevice { index: at->Some_0 as usize }
    } else if holds(row_area(below_status(count), w), x, y) {
        PanelAction::OpenBluetoothSettings
    } else {
        PanelAction::Nothing
    }
}

/// What the pointer is on among the Bluetooth devices.
pub fn bluetooth_action_at(devices: &BluetoothDevices, width: i32, x: i32, y: i32) -> (r:
    PanelAction)
    requires
        usable(width, 0),
    ensures
        r == bluetooth_action(devices.devices@.len(), width as int, x as int, y as int),
{
    let l = bluetooth_panel_layout(devices, width);
    if in_rect(&back(), x, y) {
        return PanelAction::BackToMain;
    }
    if in_rect(&l.refresh, x, y) {
        return PanelAction::RefreshBluetooth;
    }
    let count: usize = listed_rows(devices.devices.len(), MAX_ROWS);
    if let Some(index) = find_row(&l.rows, count, x, y) {
        return PanelAction::OpenBluetoothDevice { index };
    }
    if in_rect(&l.bluetooth_settings, x, y) {
        return PanelAction::OpenBluetoothSettings;
    }
    PanelAction::Nothing
}

/// What the pointer is on among the input methods.
pub open spec fn input_action(count: nat, w: int, x: int, y: int) -> PanelAction {
    let most = MAX_ROWS as nat;
    let rows = row_areas(CONTENT_TOP as int, rows_shown(count, most), w);
    let at = row_at(rows, listed(count, most), x, y);
    if holds(back_area(), x, y) {
        PanelAction::BackToMain
    } else if at is Some {
        PanelAction::SelectInputMethod { index: at->Some_0 as usize }
    } else if holds(row_area(below_status(count), w), x, y) {
        PanelAction::CycleInputMethod
    } else if holds(row_area(below_status(count) + ROW_H + ROW_GAP, w), x, y) {
        PanelAction::OpenInputSettings
    } else {
        PanelAction::Nothing
    }
}

/// What the pointer is on among the input methods.
pub fn input_action_at(methods: &InputMethods, width: i32, x: i32, y: i32) -> (r: PanelAction)
    requires
        usable(width, 0),
    ensures
        r == input_action(methods.methods@.len(), width as int, x as int, y as int),
{
    let l = input_panel_layout(methods, width);
    if in_rect(&back(), x, y) {
        return PanelAction::BackToMain;
    }
    let count: usize = listed_rows(methods.methods.len(), MAX_ROWS);
    if let Some(index) = find_row(&l.rows, count, x, y) {
        return PanelAction::SelectInputMethod { index };
    }
    if in_rect(&l.system_switch, x, y) {
        return PanelAction::CycleInputMethod;
    }
    if in_rect(&l.input_settings, x, y) {
        return PanelAction::OpenInputSettings;
    }
    PanelAction::Nothing
}

/// How many buttons the first view has.
pub fn quick_button_count() -> (r: usize)
    ensures
        r == 3,
{
    3
}

/// What is written on a button of the first view.
pub fn button_label(i: usize) -> (r: &'static str)
    ensures
        r@ == (if i == 0 {
            "网络"@
        } else if i == 1 {
            "蓝牙"@
        } else {
            "输入法"@
        }),
{
    if i == 0 {
        "网络"
    } else if i == 1 {
        "蓝牙"
    } else {
        "输入法"
    }
}

/// A point of a row is on no other row of its list.
pub proof fn law_rows_apart(start: int, i: int, j: int, count: nat, w: int, x: int, y: int)
    requires
        0 <= i < j < count,
        0 <= start <= 0x100_0000,
        count <= MAX_ROWS,
        0 <= w <= 0x100_0000,
    ensures
        !(holds(row_areas(start, count, w)[i], x, y) && holds(row_areas(start, count, w)[j], x, y)),
{
    assert(i * (ROW_H + ROW_GAP) + ROW_H + ROW_GAP <= j * (ROW_H + ROW_GAP)) by (nonlinear_arith)
        requires
            i < j,
    ;
    assert(0 <= i * (ROW_H + ROW_GAP)) by (nonlinear_arith)
        requires
            0 <= i,
    ;
    assert(j * (ROW_H + ROW_GAP) <= 5 * (ROW_H + ROW_GAP)) by (nonlinear_arith)
        requires
            j <= 5,
    ;
}

/// A point of a row is found to be on that row.
pub proof fn law_row_is_found(start: int, i: int, count: nat, w: int, x: int, y: int)
    requires
        0 <= i < count,
        0 <= start <= 0x100_0000,
        count <= MAX_ROWS,
        0 <= w <= 0x100_0000,
        holds(row_areas(start, count, w)[i], x, y),
    ensures
        row_at(row_areas(start, count, w), count as int, x, y) == Some(i),
{
    let rows = row_areas(start, count, w);
    lemma_found(rows, i, count as int, x, y, start, count, w);
}

proof fn lemma_found(
    rows: Seq<Area>,
    i: int,
    k: int,
    x: int,
    y: int,
    start: int,
    count: nat,
    w: int,
)
    requires
        rows == row_areas(start, count, w),
        0 <= i < count,
        0 <= k <= count,
        0 <= start <= 0x100_0000,
        count <= MAX_ROWS,
        0 <= w <= 0x100_0000,
        holds(rows[i], x, y),
    ensures
        row_at(rows, k, x, y) == (if i < k {
            Some(i)
        } else {
            None::<int>
        }),
    decreases k,
{
    if k > 0 {
        lemma_found(rows, i, k - 1, x, y, start, count, w);
        if k - 1 < i {
            law_rows_apart(start, k - 1, i, count, w, x, y);
        } else if k - 1 > i {
            law_rows_apart(start, i, k - 1, count, w, x, y);
        }
    }
}

/// No row of a list reaches what stands below the list, and all of it is on the panel.
pub proof fn law_panels_hold_their_rows(outputs: nat, inputs: nat, count: nat, typing: bool)
    ensures
        rows_end(outputs_top(), rows_shown(outputs, AUDIO_MAX_ROWS as nat) as int)
            < input_title_top(outputs),
        rows_end(inputs_top(outputs), rows_shown(inputs, AUDIO_MAX_ROWS as nat) as int)
            < sound_top(outputs, inputs),
        sound_top(outputs, inputs) + ROW_H + PAD <= audio_height(outputs, inputs),
        rows_end(CONTENT_TOP as int, rows_shown(count, MAX_ROWS as nat) as int) < list_end(count),
        network_settings_top(count, typing) + ROW_H + PAD <= network_height(count, typing),
        below_status(count) + ROW_H + PAD <= bluetooth_height(count),
        below_status(count) + ROW_H + ROW_GAP + ROW_H + PAD <= input_height(count),
{
}

/// Every view but the first is at least as high as the first.
pub proof fn law_subpanels_are_higher(view: PanelView, c: Counts)
    ensures
        view_height(view, c) >= view_height(PanelView::Main, c),
        view == PanelView::Battery || view == PanelView::Bluetooth || view == PanelView::Input
            ==> view_height(view, c) > view_height(PanelView::Main, c),
{
}

} // verus!
