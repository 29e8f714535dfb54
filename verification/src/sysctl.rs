//! What the control center shows of the system: sound devices, the battery, the clock,
//! Bluetooth devices and input methods.

use vstd::prelude::*;
use crate::numbers;
use crate::order;
use crate::text;
use crate::words;

verus! {

/// Which way sound goes.
#[derive(Clone, Copy, Debug, PartialEq, Eq, Structural)]
pub enum AudioFlow {
    Output,
    Input,
}

#[derive(Clone, Debug, PartialEq, Eq)]
pub struct AudioDeviceInfo {
    pub id: String,
    pub name: String,
    pub is_default: bool,
}

#[verifier::ext_equal]
pub ghost struct AudioView {
    pub id: Seq<char>,
    pub name: Seq<char>,
    pub is_default: bool,
}

impl View for AudioDeviceInfo {
    type V = AudioView;

    open spec fn view(&self) -> AudioView {
        AudioView { id: self.id@, name: self.name@, is_default: self.is_default }
    }
}

pub open spec fn audio_views(v: Seq<AudioDeviceInfo>) -> Seq<AudioView> {
    v.map_values(|d: AudioDeviceInfo| d@)
}

#[derive(Clone, Debug, PartialEq, Eq)]
pub struct AudioDevices {
    pub outputs: Vec<AudioDeviceInfo>,
    pub inputs: Vec<AudioDeviceInfo>,
}

impl Default for AudioDevices {
    fn default() -> (r: AudioDevices)
        ensures
            r.outputs@.len() == 0,
            r.inputs@.len() == 0,
    {
        AudioDevices { outputs: Vec::new(), inputs: Vec::new() }
    }
}

#[derive(Clone, Debug, PartialEq, Eq)]
pub struct BluetoothDeviceInfo {
    pub name: String,
    pub address: String,
    pub connected: bool,
    pub remembered: bool,
    pub authenticated: bool,
}

#[verifier::ext_equal]
pub ghost struct BluetoothView {
    pub name: Seq<char>,
    pub address: Seq<char>,
    pub connected: bool,
    pub remembered: bool,
    pub authenticated: bool,
}

impl View for BluetoothDeviceInfo {
    type V = BluetoothView;

    open spec fn view(&self) -> BluetoothView {
        BluetoothView {
            name: self.name@,
            address: self.address@,
            connected: self.connected,
            remembered: self.remembered,
            authenticated: self.authenticated,
        }
    }
}

pub open spec fn bluetooth_views(v: Seq<BluetoothDeviceInfo>) -> Seq<BluetoothView> {
    v.map_values(|d: BluetoothDeviceInfo| d@)
}

#[derive(Clone, Debug, PartialEq, Eq)]
pub struct BluetoothDevices {
    pub available: bool,
    pub radio_name: Option<String>,
    pub devices: Vec<BluetoothDeviceInfo>,
    pub status: Option<String>,
}

impl Default for BluetoothDevices {
    fn default() -> (r: BluetoothDevices)
        ensures
            !r.available,
            r.radio_name is None,
            r.devices@.len() == 0,
            r.status is None,
    {
        BluetoothDevices { available: false, radio_name: None, devices: Vec::new(), status: None }
    }
}

#[derive(Clone, Debug, PartialEq, Eq)]
pub struct InputMethodInfo {
    pub id: String,
    pub label: String,
    pub active: bool,
    pub hkl: isize,
}

#[verifier::ext_equal]
pub ghost struct MethodView {
    pub id: Seq<char>,
    pub label: Seq<char>,
    pub active: bool,
    pub hkl: isize,
}

impl View for InputMethodInfo {
    type V = MethodView;

    open spec fn view(&self) -> MethodView {
        MethodView { id: self.id@, label: self.label@, active: self.active, hkl: self.hkl }
    }
}

pub open spec fn method_views(v: Seq<InputMethodInfo>) -> Seq<MethodView> {
    v.map_values(|m: InputMethodInfo| m@)
}

#[derive(Clone, Debug, PartialEq, Eq)]
pub struct InputMethods {
    pub methods: Vec<InputMethodInfo>,
    pub status: Option<String>,
}

impl Default for InputMethods {
    fn default() -> (r: InputMethods)
        ensures
            r.methods@.len() == 0,
            r.status is None,
    {
        InputMethods { methods: Vec::new(), status: None }
    }
}

/// The last of these that is not empty.
pub open spec fn last_filled(ps: Seq<Seq<char>>) -> Seq<char>
    decreases ps.len(),
{
    if ps.len() == 0 {
        seq![]
    } else if ps.last().len() > 0 {
        ps.last()
    } else {
        last_filled(ps.drop_last())
    }
}

/// What a sound device without a name is called.
pub open spec fn stand_in_name(id: Seq<char>, flow: AudioFlow, index: nat) -> Seq<char> {
    let prefix = match flow {
        AudioFlow::Output => "输出设备"@,
        AudioFlow::Input => "输入设备"@,
    };
    let tail = last_filled(words::parts(id, words::marker()));
    prefix + seq![' '] + (if tail.len() == 0 {
        numbers::decimal(index + 1)
    } else {
        tail
    })
}

/// What a sound device without a name is called: by the last part of its id, or by its
/// place.
pub fn fallback_device_name(id: &str, flow: AudioFlow, index: u32) -> (r: String)
    ensures
        r@ == stand_in_name(id@, flow, index as nat),
{
    let chars = text::chars_of(id);
    let ps = words::split_marks(&chars);
    let ghost all = words::parts(id@, words::marker());
    let mut out = match flow {
        AudioFlow::Output => text::chars_of("输出设备"),
        AudioFlow::Input => text::chars_of("输入设备"),
    };
    out.push(' ');
    let ghost head = out@;
    let mut i: usize = ps.len();
    assert(all.take(i as int) =~= all);
    while i > 0
        invariant
            text::rows(ps@) == all,
            all == words::parts(id@, words::marker()),
            i <= ps@.len(),
            last_filled(all) == last_filled(all.take(i as int)),
            out@ == head,
            head == (match flow {
                AudioFlow::Output => "输出设备"@,
                AudioFlow::Input => "输入设备"@,
            }).push(' '),
        decreases i,
    {
        proof {
            assert(all.take(i as int).last() == ps@[i - 1]@);
            assert(all.take(i as int).drop_last() =~= all.take(i - 1));
        }
        if ps[i - 1].len() > 0 {
            text::add_chars(&mut out, &ps[i - 1]);
            assert(out@ =~= stand_in_name(id@, flow, index as nat));
            return text::string_of(&out);
        }
        i -= 1;
    }
    assert(all.take(0) =~= seq![]);
    numbers::add_decimal(&mut out, index as u64 + 1);
    assert(out@ =~= stand_in_name(id@, flow, index as nat));
    text::string_of(&out)
}

/// What the system says of a sound device.
#[derive(Debug)]
pub struct FoundDevice {
    pub id: Option<String>,
    pub name: Option<String>,
}

/// A device of the list; one without an id has no place in it.
pub open spec fn device_of(f: FoundDevice, flow: AudioFlow, index: nat, default_id: Option<
    Seq<char>,
>) -> Seq<AudioView> {
    match text::opt_text(f.id) {
        None => seq![],
        Some(id) => {
            let name = match text::opt_text(f.name) {
                Some(n) => text::trimmed(n),
                None => seq![],
            };
            seq![
                AudioView {
                    id,
                    name: if name.len() > 0 {
                        name
                    } else {
                        stand_in_name(id, flow, index)
                    },
                    is_default: default_id == Some(id),
                },
            ]
        },
    }
}

pub open spec fn devices_of(fs: Seq<FoundDevice>, flow: AudioFlow, default_id: Option<
    Seq<char>,
>) -> Seq<AudioView>
    decreases fs.len(),
{
    if fs.len() == 0 {
        seq![]
    } else {
        devices_of(fs.drop_last(), flow, default_id) + device_of(
            fs.last(),
            flow,
            (fs.len() - 1) as nat,
            default_id,
        )
    }
}

/// The most sound devices that are listed.
pub const MAX_AUDIO_DEVICES: usize = 8;

fn one_device(f: &FoundDevice, flow: AudioFlow, index: u32, default_id: &Option<String>) -> (r:
    Option<AudioDeviceInfo>)
    ensures
        ({
            let d = device_of(*f, flow, index as nat, text::opt_text(*default_id));
            match r {
                Some(x) => d == seq![x@],
                None => d.len() == 0,
            }
        }),
{
    let id: String = match &f.id {
        Some(s) => text::copy_text(s.as_str()),
        None => {
            return None;
        },
    };
    let given: Vec<char> = match &f.name {
        Some(n) => {
            let chars = text::chars_of(n.as_str());
            text::own(text::trim(&chars))
        },
        None => Vec::new(),
    };
    let name: String = if given.len() > 0 {
        text::string_of(&given)
    } else {
        fallback_device_name(id.as_str(), flow, index)
    };
    let is_default: bool = match default_id {
        Some(d) => text::same(d.as_str(), id.as_str()),
        None => false,
    };
    let r = AudioDeviceInfo { id, name, is_default };
    proof {
        let d = device_of(*f, flow, index as nat, text::opt_text(*default_id));
        if f.name is None {
            assert(given@ =~= seq![]);
        }
        assert(d =~= seq![r@]);
    }
    Some(r)
}

/// Those of the devices that are listed: the first ones.
pub open spec fn first_devices(fs: Seq<FoundDevice>) -> Seq<FoundDevice> {
    if fs.len() <= MAX_AUDIO_DEVICES {
        fs
    } else {
        fs.take(MAX_AUDIO_DEVICES as int)
    }
}

/// The sound devices of the list, in the order of the system.
pub fn audio_list(found: &Vec<FoundDevice>, flow: AudioFlow, default_id: &Option<String>) -> (r:
    Vec<AudioDeviceInfo>)
    ensures
        audio_views(r@) == devices_of(first_devices(found@), flow, text::opt_text(*default_id)),
{
    let ghost def = text::opt_text(*default_id);
    let mut out: Vec<AudioDeviceInfo> = Vec::new();
    let mut i: usize = 0;
    assert(audio_views(out@) =~= devices_of(found@.take(0), flow, def));
    while i < found.len() && i < MAX_AUDIO_DEVICES
        invariant
            def == text::opt_text(*default_id),
            i <= found@.len(),
            i <= MAX_AUDIO_DEVICES,
            audio_views(out@) == devices_of(found@.take(i as int), flow, def),
        decreases found@.len() - i,
    {
        let ghost was = out@;
        let ghost d = device_of(found@[i as int], flow, i as nat, def);
        proof {
            assert(found@.take(i as int + 1).drop_last() =~= found@.take(i as int));
        }
        match one_device(&found[i], flow, i as u32, default_id) {
            Some(x) => {
                out.push(x);
                assert(audio_views(out@) =~= audio_views(was) + d);
            },
            None => {
                assert(audio_views(out@) =~= audio_views(was) + d);
            },
        }
        i += 1;
    }
    assert(found@.take(i as int) =~= first_devices(found@));
    out
}

/// Whether a new level of sound ends muting: any but silence does.
pub fn unmutes(silent: bool, muted: bool) -> (r: bool)
    ensures
        r == (!silent && muted),
{
    !silent && muted
}

/// The battery, as the control center shows it.
#[derive(Clone, Copy, Debug, PartialEq, Eq, Structural)]
pub struct Battery {
    pub present: bool,
    pub charging: bool,
    pub percent: u8,
}

/// What the system says of its power.
#[derive(Clone, Copy, Debug, PartialEq, Eq, Structural)]
pub struct PowerStatus {
    pub ac_line: u8,
    pub battery_flag: u8,
    pub battery_percent: u8,
}

/// The battery, from what the system says of its power: a flag of 128 and above says that
/// there is none or that nothing is known of it, and a percentage above a hundred is
/// unknown.
pub fn battery(status: Option<PowerStatus>) -> (r: Battery)
    ensures
        r == (match status {
            None => Battery { present: false, charging: false, percent: 0 },
            Some(s) => Battery {
                present: s.battery_flag < 128,
                charging: s.ac_line == 1,
                percent: if s.battery_percent <= 100 {
                    s.battery_percent
                } else {
                    0
                },
            },
        }),
        r.percent <= 100,
        status is None ==> !r.present,
        status is Some ==> (r.present <==> status->0.battery_flag < 128) && (r.charging <==> status->0.ac_line
            == 1),
        status is Some && status->0.battery_percent <= 100 ==> r.percent == status->0.battery_percent,
{
    match status {
        None => Battery { present: false, charging: false, percent: 0 },
        Some(s) => {
            let flag: u8 = s.battery_flag;
            assert((flag & 128 == 0 && flag != 255) <==> flag < 128) by (bit_vector);
            Battery {
                present: flag & 128 == 0 && flag != 255,
                charging: s.ac_line == 1,
                percent: if s.battery_percent <= 100 {
                    s.battery_percent
                } else {
                    0
                },
            }
        },
    }
}

/// What is said of the battery.
pub open spec fn battery_line(b: Battery) -> Seq<char> {
    if !b.present {
        "未检测到电池"@
    } else if b.charging {
        "充电中 "@ + numbers::decimal(b.percent as nat) + seq!['%']
    } else {
        "电池 "@ + numbers::decimal(b.percent as nat) + seq!['%']
    }
}

/// What is said of the battery.
pub fn battery_text(b: Battery) -> (r: String)
    ensures
        r@ == battery_line(b),
{
    if !b.present {
        return text::copy_text("未检测到电池");
    }
    let mut out = if b.charging {
        text::chars_of("充电中 ")
    } else {
        text::chars_of("电池 ")
    };
    numbers::add_decimal(&mut out, b.percent as u64);
    out.push('%');
    assert(out@ =~= battery_line(b));
    text::string_of(&out)
}

/// A number in two digits, or in more where it takes more.
pub open spec fn padded(n: nat) -> Seq<char> {
    if n < 100 {
        numbers::two_digits(n)
    } else {
        numbers::decimal(n)
    }
}

fn add_padded(out: &mut Vec<char>, n: u16)
    ensures
        final(out)@ == old(out)@ + padded(n as nat),
{
    if n < 100 {
        numbers::add_two_digits(out, n as u32);
    } else {
        numbers::add_decimal(out, n as u64);
    }
}

/// The time and the date, as the control center shows them.
pub fn clock(hour: u16, minute: u16, month: u16, day: u16) -> (r: (String, String))
    ensures
        r.0@ == padded(hour as nat) + seq![':'] + padded(minute as nat),
        r.1@ == numbers::decimal(month as nat) + seq!['月'] + numbers::decimal(day as nat) + seq!['日'],
{
    let mut time: Vec<char> = Vec::new();
    add_padded(&mut time, hour);
    time.push(':');
    add_padded(&mut time, minute);
    assert(time@ =~= padded(hour as nat) + seq![':'] + padded(minute as nat));
    let mut date: Vec<char> = Vec::new();
    numbers::add_decimal(&mut date, month as u64);
    date.push('月');
    numbers::add_decimal(&mut date, day as u64);
    date.push('日');
    assert(date@ =~= numbers::decimal(month as nat) + seq!['月'] + numbers::decimal(day as nat)
        + seq!['日']);
    (text::string_of(&time), text::string_of(&date))
}

/// The address of a Bluetooth device: the lower 48 bits, or nothing where they are zero.
pub open spec fn address_text(raw: u64) -> Seq<char> {
    let low = raw as int % 0x1_0000_0000_0000;
    if low == 0 {
        seq![]
    } else {
        numbers::hex(low as nat, 12)
    }
}

/// The address of a Bluetooth device.
pub fn bluetooth_address_string(raw: u64) -> (r: String)
    ensures
        r@ == address_text(raw),
{
    let low: u64 = raw % 0x1_0000_0000_0000;
    let mut out: Vec<char> = Vec::new();
    if low != 0 {
        numbers::add_hex(&mut out, low, 12);
    }
    assert(out@ =~= address_text(raw));
    text::string_of(&out)
}

/// A Bluetooth device of the list; one without a name has no place in it.
pub fn bluetooth_device_info(
    name: String,
    raw_address: u64,
    connected: bool,
    remembered: bool,
    authenticated: bool,
) -> (r: Option<BluetoothDeviceInfo>)
    ensures
        match r {
            Some(d) => name@.len() > 0 && d@ == (BluetoothView {
                name: name@,
                address: address_text(raw_address),
                connected,
                remembered,
                authenticated,
            }),
            None => name@.len() == 0,
        },
{
    let chars = text::chars_of(name.as_str());
    if chars.len() == 0 {
        return None;
    }
    Some(
        BluetoothDeviceInfo {
            name,
            address: bluetooth_address_string(raw_address),
            connected,
            remembered,
            authenticated,
        },
    )
}

/// Connected devices come first, then known ones, then names decide.
pub open spec fn device_first(a: BluetoothView, b: BluetoothView) -> bool {
    if a.connected != b.connected {
        a.connected
    } else if a.remembered != b.remembered {
        a.remembered
    } else {
        text::before(a.name, b.name)
    }
}

pub open spec fn by_presence() -> spec_fn(BluetoothView, BluetoothView) -> bool {
    |a: BluetoothView, b: BluetoothView| device_first(a, b)
}

/// Without those with the address of the one before them.
pub open spec fn distinct(ds: Seq<BluetoothView>) -> Seq<BluetoothView>
    decreases ds.len(),
{
    if ds.len() == 0 {
        seq![]
    } else {
        let front = distinct(ds.drop_last());
        if front.len() > 0 && ds.last().address.len() > 0 && ds.last().address
            == front.last().address {
            front
        } else {
            front.push(ds.last())
        }
    }
}

/// The Bluetooth devices of the list.
pub open spec fn listed_devices(ds: Seq<BluetoothView>) -> Seq<BluetoothView> {
    distinct(order::arranged(ds, by_presence()))
}

fn comes_first(a: &BluetoothDeviceInfo, b: &BluetoothDeviceInfo) -> (r: bool)
    ensures
        r == device_first(a@, b@),
{
    if a.connected != b.connected {
        a.connected
    } else if a.remembered != b.remembered {
        a.remembered
    } else {
        let x = text::chars_of(a.name.as_str());
        let y = text::chars_of(b.name.as_str());
        text::is_before(&x, &y)
    }
}

/// The Bluetooth devices of the list: connected ones first, each once.
pub fn bluetooth_list(found: Vec<BluetoothDeviceInfo>) -> (r: Vec<BluetoothDeviceInfo>)
    ensures
        bluetooth_views(r@) == listed_devices(bluetooth_views(found@)),
{
    let ghost unsorted = found@;
    let ghost lt = |a: BluetoothDeviceInfo, b: BluetoothDeviceInfo| device_first(a@, b@);
    let sorted = order::stable_sort(found, comes_first, Ghost(lt));
    let ghost all = bluetooth_views(sorted@);
    proof {
        order::lemma_arranged_map(unsorted, lt, |d: BluetoothDeviceInfo| d@, by_presence());
    }
    let ghost items = sorted@;
    let n: usize = sorted.len();
    let mut rest = order::reversed(sorted);
    let mut out: Vec<BluetoothDeviceInfo> = Vec::new();
    let mut i: usize = 0;
    assert(bluetooth_views(out@) =~= distinct(all.take(0)));
    while i < n
        invariant
            n == all.len(),
            all == bluetooth_views(items),
            i <= n,
            rest@.len() == n - i,
            rest@ == items.skip(i as int).reverse(),
            bluetooth_views(out@) == distinct(all.take(i as int)),
        decreases n - i,
    {
        let ghost was = rest@;
        match rest.pop() {
            Some(d) => {
                let ghost kept = out@;
                proof {
                    assert(was.last() == items[i as int]);
                    assert(rest@ =~= items.skip(i as int + 1).reverse());
                    assert(all.take(i as int + 1).drop_last() =~= all.take(i as int));
                    assert(all.take(i as int + 1).last() == d@);
                    assert(bluetooth_views(out@).len() == out@.len());
                }
                let k: usize = out.len();
                let twin: bool = if k > 0 {
                    let mine = text::chars_of(d.address.as_str());
                    assert(bluetooth_views(kept).last() == kept[k - 1]@);
                    mine.len() > 0 && text::same(d.address.as_str(), out[k - 1].address.as_str())
                } else {
                    false
                };
                if !twin {
                    out.push(d);
                    assert(bluetooth_views(out@) =~= bluetooth_views(kept).push(d@));
                }
                i += 1;
            },
            None => {
                return out;
            },
        }
    }
    assert(all.take(i as int) =~= all);
    out
}

/// The lower 32 bits of a handle.
pub open spec fn low_word(n: int) -> int {
    n % 0x1_0000_0000
}

fn low_bits(n: isize) -> (r: u64)
    ensures
        r == low_word(n as int),
{
    if n >= 0 {
        n as u64 % 0x1_0000_0000
    } else {
        let k: u64 = (-(n + 1)) as u64;
        0xFFFF_FFFF - k % 0x1_0000_0000
    }
}

/// The id under which the system knows a keyboard layout.
pub fn keyboard_layout_id(hkl: isize) -> (r: String)
    ensures
        r@ == numbers::hex(low_word(hkl as int) as nat, 8),
{
    let mut out: Vec<char> = Vec::new();
    numbers::add_hex(&mut out, low_bits(hkl), 8);
    assert(out@ =~= numbers::hex(low_word(hkl as int) as nat, 8));
    text::string_of(&out)
}

/// Where the registry keeps the name of a keyboard layout.
pub fn keyboard_layout_key(id: &str) -> (r: String)
    ensures
        r@ == "SYSTEM\\CurrentControlSet\\Control\\Keyboard Layouts\\"@ + id@,
{
    let mut out = text::chars_of("SYSTEM\\CurrentControlSet\\Control\\Keyboard Layouts\\");
    text::add_text(&mut out, id);
    text::string_of(&out)
}

pub open spec fn filled(s: Option<Seq<char>>) -> bool {
    s is Some && s->Some_0.len() > 0
}

/// An input method of the list: under the name of its layout, or that of its language, or
/// its number. The handle zero stands for none.
pub open spec fn method_of(
    hkl: isize,
    active: bool,
    layout: Option<Seq<char>>,
    locale: Option<Seq<char>>,
) -> Option<MethodView> {
    if hkl == 0 {
        None
    } else {
        Some(
            MethodView {
                id: numbers::hex(low_word(hkl as int) as nat, 8),
                label: if filled(layout) {
                    layout->Some_0
                } else if filled(locale) {
                    locale->Some_0
                } else {
                    "输入法 "@ + numbers::hex(low_word(hkl as int) as nat, 8)
                },
                active,
                hkl,
            },
        )
    }
}

fn kept_text(s: Option<String>) -> (r: Option<String>)
    ensures
        text::opt_text(r) == (if filled(text::opt_text(s)) {
            text::opt_text(s)
        } else {
            None
        }),
{
    match s {
        Some(t) => {
            let chars = text::chars_of(t.as_str());
            if chars.len() > 0 {
                Some(t)
            } else {
                None
            }
        },
        None => None,
    }
}

/// An input method of the list.
pub fn input_method(hkl: isize, active: bool, layout: Option<String>, locale: Option<String>) -> (r:
    Option<InputMethodInfo>)
    ensures
        ({
            let m = method_of(hkl, active, text::opt_text(layout), text::opt_text(locale));
            match r {
                Some(x) => m == Some(x@),
                None => m is None,
            }
        }),
{
    if hkl == 0 {
        return None;
    }
    let id = keyboard_layout_id(hkl);
    let label: String = match kept_text(layout) {
        Some(t) => t,
        None => match kept_text(locale) {
            Some(t) => t,
            None => {
                let mut out = text::chars_of("输入法 ");
                numbers::add_hex(&mut out, low_bits(hkl), 8);
                text::string_of(&out)
            },
        },
    };
    Some(InputMethodInfo { id, label, active, hkl })
}

pub open spec fn has_handle(ms: Seq<MethodView>, hkl: isize) -> bool {
    exists|i: int| 0 <= i < ms.len() && (#[trigger] ms[i]).hkl == hkl
}

/// The first of each handle.
pub open spec fn first_of_each(ms: Seq<MethodView>) -> Seq<MethodView>
    decreases ms.len(),
{
    if ms.len() == 0 {
        seq![]
    } else {
        let front = first_of_each(ms.drop_last());
        if has_handle(front, ms.last().hkl) {
            front
        } else {
            front.push(ms.last())
        }
    }
}

/// The input methods of the list, each once.
pub fn input_list(found: Vec<InputMethodInfo>) -> (r: Vec<InputMethodInfo>)
    ensures
        method_views(r@) == first_of_each(method_views(found@)),
{
    let ghost all = method_views(found@);
    let n: usize = found.len();
    let mut rest = order::reversed(found);
    let mut out: Vec<InputMethodInfo> = Vec::new();
    let mut i: usize = 0;
    assert(method_views(out@) =~= first_of_each(all.take(0)));
    while i < n
        invariant
            n == all.len(),
            all == method_views(found@),
            i <= n,
            rest@.len() == n - i,
            rest@ == found@.skip(i as int).reverse(),
            method_views(out@) == first_of_each(all.take(i as int)),
        decreases n - i,
    {
        let ghost was = rest@;
        match rest.pop() {
            Some(m) => {
                let ghost kept = out@;
                proof {
                    assert(was.last() == found@[i as int]);
                    assert(rest@ =~= found@.skip(i as int + 1).reverse());
                    assert(all.take(i as int + 1).drop_last() =~= all.take(i as int));
                    assert(all.take(i as int + 1).last() == m@);
                }
                let mut there: bool = false;
                let mut k: usize = 0;
                while k < out.len() && !there
                    invariant
                        out@ == kept,
                        k <= out@.len(),
                        there ==> has_handle(method_views(kept), m.hkl),
                        !there ==> forall|j: int|
                            0 <= j < k ==> (#[trigger] method_views(kept)[j]).hkl != m.hkl,
                    decreases out@.len() - k + (if there {
                        0int
                    } else {
                        1
                    }),
                {
                    if out[k].hkl == m.hkl {
                        assert(method_views(kept)[k as int].hkl == m.hkl);
                        there = true;
                    } else {
                        k += 1;
                    }
                }
                if !there {
                    out.push(m);
                    assert(method_views(out@) =~= method_views(kept).push(m@));
                }
                i += 1;
            },
            None => {
                return out;
            },
        }
    }
    assert(all.take(i as int) =~= all);
    out
}

/// The input methods, of which the system has told none but the current one.
pub fn current_input_method(method: Option<InputMethodInfo>) -> (r: InputMethods)
    ensures
        method_views(r.methods@) == (match method {
            Some(m) => seq![m@],
            None => seq![],
        }),
        text::opt_text(r.status) == Some("Only the current input method was detected"@),
{
    let mut methods: Vec<InputMethodInfo> = Vec::new();
    match method {
        Some(m) => {
            methods.push(m);
            assert(method_views(methods@) =~= seq![m@]);
        },
        None => {
            assert(method_views(methods@) =~= seq![]);
        },
    }
    InputMethods {
        methods,
        status: Some(text::copy_text("Only the current input method was detected")),
    }
}

/// Whether an input method can be selected.
pub fn selectable(method: &InputMethodInfo) -> (r: bool)
    ensures
        r == (method.hkl != 0),
{
    method.hkl != 0
}

/// How many of the first code units stand before a zero.
pub open spec fn before_zero(units: Seq<u16>) -> nat
    decreases units.len(),
{
    if units.len() == 0 || units[0] == 0 {
        0
    } else {
        1 + before_zero(units.skip(1))
    }
}

/// How many of the first code units of a buffer stand before a zero.
pub fn text_len(units: &[u16]) -> (r: usize)
    ensures
        r == before_zero(units@),
{
    let mut i: usize = 0;
    assert(units@.skip(0) =~= units@);
    while i < units.len() && units[i] != 0
        invariant
            i <= units@.len(),
            before_zero(units@) == i + before_zero(units@.skip(i as int)),
        decreases units@.len() - i,
    {
        assert(units@.skip(i as int).skip(1) =~= units@.skip(i as int + 1));
        i += 1;
    }
    i
}

/// A page of the system's settings.
#[derive(Clone, Copy, Debug, PartialEq, Eq, Structural)]
pub enum SettingsPage {
    Sound,
    Bluetooth,
    Typing,
    BatterySaver,
    Power,
    DateTime,
    Network,
}

/// The address of a page of the system's settings.
pub fn page_uri(page: SettingsPage) -> (r: &'static str)
    ensures
        r@ == (match page {
            SettingsPage::Sound => "ms-settings:sound"@,
            SettingsPage::Bluetooth => "ms-settings:bluetooth"@,
            SettingsPage::Typing => "ms-settings:typing"@,
            SettingsPage::BatterySaver => "ms-settings:batterysaver"@,
            SettingsPage::Power => "ms-settings:powersleep"@,
            SettingsPage::DateTime => "ms-settings:dateandtime"@,
            SettingsPage::Network => "ms-settings:network-status"@,
        }),
{
    match page {
        SettingsPage::Sound => "ms-settings:sound",
        SettingsPage::Bluetooth => "ms-settings:bluetooth",
        SettingsPage::Typing => "ms-settings:typing",
        SettingsPage::BatterySaver => "ms-settings:batterysaver",
        SettingsPage::Power => "ms-settings:powersleep",
        SettingsPage::DateTime => "ms-settings:dateandtime",
        SettingsPage::Network => "ms-settings:network-status",
    }
}

/// A key that goes down or comes up.
#[derive(Clone, Copy, Debug, PartialEq, Eq, Structural)]
pub struct KeyStroke {
    pub key: u16,
    pub up: bool,
}

/// The strokes of a key while another is held.
pub fn held_tap(held: u16, key: u16) -> (r: Vec<KeyStroke>)
    ensures
        r@ == seq![
            KeyStroke { key: held, up: false },
            KeyStroke { key, up: false },
            KeyStroke { key, up: true },
            KeyStroke { key: held, up: true },
        ],
{
    let mut out: Vec<KeyStroke> = Vec::new();
    out.push(KeyStroke { key: held, up: false });
    out.push(KeyStroke { key, up: false });
    out.push(KeyStroke { key, up: true });
    out.push(KeyStroke { key: held, up: true });
    out
}

proof fn lemma_device_order(a: BluetoothView, b: BluetoothView, c: BluetoothView)
    ensures
        !device_first(a, a),
        device_first(a, b) && device_first(b, c) ==> device_first(a, c),
        !device_first(a, b) && !device_first(b, c) ==> !device_first(a, c),
{
    text::lemma_before_total(a.name, a.name);
    if text::before(a.name, b.name) && text::before(b.name, c.name) {
        text::lemma_before_trans(a.name, b.name, c.name);
    }
    if !text::before(a.name, b.name) && !text::before(b.name, c.name) {
        text::lemma_not_before_trans(a.name, b.name, c.name);
    }
}

/// Before those that are there twice are left out, the devices stand in order: no
/// connected one after one that is not.
pub proof fn law_connected_first(ds: Seq<BluetoothView>)
    ensures
        order::in_order(order::arranged(ds, by_presence()), by_presence()),
        forall|i: int, j: int|
            0 <= i < j < ds.len() && (#[trigger] order::arranged(ds, by_presence())[j]).connected
                ==> (#[trigger] order::arranged(ds, by_presence())[i]).connected,
{
    let lt = by_presence();
    assert(order::strict_weak(lt)) by {
        assert forall|a: BluetoothView| !#[trigger] lt(a, a) by {
            lemma_device_order(a, a, a);
        }
        assert forall|a: BluetoothView, b: BluetoothView, c: BluetoothView| #[trigger] lt(a, b)
            && #[trigger] lt(b, c) implies lt(a, c) by {
            lemma_device_order(a, b, c);
        }
        assert forall|a: BluetoothView, b: BluetoothView, c: BluetoothView| !#[trigger] lt(a, b)
            && !#[trigger] lt(b, c) implies !lt(a, c) by {
            lemma_device_order(a, b, c);
        }
    }
    order::lemma_arranged_in_order(ds, lt);
    order::lemma_arranged_len(ds, lt);
    let r = order::arranged(ds, lt);
    assert forall|i: int, j: int| 0 <= i < j < ds.len() && (#[trigger] r[j]).connected implies (
    #[trigger] r[i]).connected by {
        assert(!lt(r[j], r[i]));
    }
}

/// Every input method is listed, and none twice.
pub proof fn law_methods_once(ms: Seq<MethodView>)
    ensures
        forall|i: int|
            0 <= i < ms.len() ==> has_handle(first_of_each(ms), (#[trigger] ms[i]).hkl),
        forall|i: int, j: int|
            0 <= i < j < first_of_each(ms).len() ==> (#[trigger] first_of_each(ms)[i]).hkl != (
            #[trigger] first_of_each(ms)[j]).hkl,
    decreases ms.len(),
{
    if ms.len() > 0 {
        let front = first_of_each(ms.drop_last());
        let r = first_of_each(ms);
        law_methods_once(ms.drop_last());
        assert forall|i: int| 0 <= i < ms.len() implies has_handle(
            r,
            (#[trigger] ms[i]).hkl,
        ) by {
            if i < ms.len() - 1 {
                assert(ms.drop_last()[i] == ms[i]);
                let k = choose|k: int| 0 <= k < front.len() && (#[trigger] front[k]).hkl
                    == ms[i].hkl;
                assert(r[k].hkl == ms[i].hkl);
            } else if !has_handle(front, ms.last().hkl) {
                assert(r[r.len() - 1].hkl == ms[i].hkl);
            }
        }
        assert forall|i: int, j: int| 0 <= i < j < r.len() implies (#[trigger] r[i]).hkl != (
        #[trigger] r[j]).hkl by {
            assert(front[i] == r[i]);
            if j < front.len() {
                assert(front[j] == r[j]);
            }
        }
    }
}

} // verus!
