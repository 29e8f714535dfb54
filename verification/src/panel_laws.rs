//! What is promised of the settings and of what the control center lists: each line changes
//! the one setting that it names, and devices and input methods are listed once, in order.

use vstd::prelude::*;
use crate::numbers;
use crate::order;
use crate::settings;
use crate::settings::{DockMode, Settings, TaskbarMode};
use crate::sysctl;
use crate::sysctl::{AudioFlow, BluetoothView, FoundDevice, MethodView};
use crate::text;
use crate::theme;
use crate::theme::ThemePreset;

verus! {

proof fn lemma_setting_keys()
    ensures
        "dock_mode"@ != "hide_on_fullscreen"@,
        "dock_mode"@ != "hide_on_maximized"@,
        "hide_on_fullscreen"@ != "hide_on_maximized"@,
        "taskbar_mode"@ != "dock_mode"@,
        "taskbar_mode"@ != "hide_on_fullscreen"@,
        "taskbar_mode"@ != "hide_on_maximized"@,
        "drawer_enabled"@ != "dock_mode"@,
        "drawer_enabled"@ != "hide_on_fullscreen"@,
        "drawer_enabled"@ != "hide_on_maximized"@,
        "drawer_enabled"@ != "taskbar_mode"@,
        "hide_desktop_icons"@ != "dock_mode"@,
        "hide_desktop_icons"@ != "hide_on_fullscreen"@,
        "hide_desktop_icons"@ != "hide_on_maximized"@,
        "hide_desktop_icons"@ != "taskbar_mode"@,
        "hide_desktop_icons"@ != "drawer_enabled"@,
        "theme"@ != "dock_mode"@,
        "theme"@ != "hide_on_fullscreen"@,
        "theme"@ != "hide_on_maximized"@,
        "theme"@ != "taskbar_mode"@,
        "theme"@ != "drawer_enabled"@,
        "theme"@ != "hide_desktop_icons"@,
{
    reveal_strlit("dock_mode");
    reveal_strlit("hide_on_fullscreen");
    reveal_strlit("hide_on_maximized");
    reveal_strlit("taskbar_mode");
    reveal_strlit("drawer_enabled");
    reveal_strlit("hide_desktop_icons");
    reveal_strlit("theme");
    assert("dock_mode"@.len() == 9);
    assert("hide_on_fullscreen"@.len() == 18);
    assert("hide_on_maximized"@.len() == 17);
    assert("taskbar_mode"@.len() == 12);
    assert("drawer_enabled"@.len() == 14);
    assert("hide_desktop_icons"@.len() == 18);
    assert("theme"@.len() == 5);
    assert("hide_desktop_icons"@[5] == 'd' && "hide_on_fullscreen"@[5] == 'o');
}

/// A pair changes the one setting that its key names, and nothing else; a flag is on where
/// its value is "true" in any case of letters.
pub proof fn law_pair_changes_one(s: Settings, value: Seq<char>)
    ensures
        settings::with_pair(s, "hide_on_fullscreen"@, value) == (Settings {
            hide_on_fullscreen: text::lower(value) == "true"@,
            ..s
        }),
        settings::with_pair(s, "hide_on_maximized"@, value) == (Settings {
            hide_on_maximized: text::lower(value) == "true"@,
            ..s
        }),
        settings::with_pair(s, "drawer_enabled"@, value) == (Settings {
            drawer_enabled: text::lower(value) == "true"@,
            ..s
        }),
        settings::with_pair(s, "hide_desktop_icons"@, value) == (Settings {
            hide_desktop_icons: text::lower(value) == "true"@,
            ..s
        }),
        settings::with_pair(s, "dock_mode"@, value) == (Settings {
            dock_mode: settings::with_pair(s, "dock_mode"@, value).dock_mode,
            ..s
        }),
        settings::with_pair(s, "taskbar_mode"@, value) == (Settings {
            taskbar_mode: settings::with_pair(s, "taskbar_mode"@, value).taskbar_mode,
            ..s
        }),
        settings::with_pair(s, "theme"@, value) == (Settings {
            theme: settings::with_pair(s, "theme"@, value).theme,
            ..s
        }),
{
    lemma_setting_keys();
}

/// A mode is set by its name, whatever the case of its letters and the white space around
/// it; what is no name of a mode leaves the mode as it is.
pub proof fn law_modes_by_name(s: Settings, value: Seq<char>)
    ensures
        ({
            let w = text::lower(text::trimmed(value));
            let d = settings::with_pair(s, "dock_mode"@, value).dock_mode;
            let t = settings::with_pair(s, "taskbar_mode"@, value).taskbar_mode;
            let auto = w == "autohide"@ || w == "auto-hide"@ || w == "auto_hide"@;
            &&& w == "always"@ ==> d == DockMode::Always
            &&& auto ==> d == DockMode::AutoHide && t == TaskbarMode::AutoHide
            &&& w != "always"@ && !auto ==> d == s.dock_mode
            &&& w == "show"@ || w == "none"@ ==> t == TaskbarMode::Show
            &&& w == "hidden"@ || w == "hide"@ ==> t == TaskbarMode::Hidden
            &&& w != "show"@ && w != "none"@ && w != "hidden"@ && w != "hide"@ && !auto ==> t
                == s.taskbar_mode
        }),
{
    lemma_setting_keys();
    reveal_strlit("always");
    reveal_strlit("autohide");
    reveal_strlit("auto-hide");
    reveal_strlit("auto_hide");
    reveal_strlit("show");
    reveal_strlit("none");
    reveal_strlit("hidden");
    reveal_strlit("hide");
    assert("always"@[1] == 'l' && "autohide"@[1] == 'u' && "auto-hide"@[1] == 'u' && "auto_hide"@[1]
        == 'u');
    assert("show"@[0] == 's' && "none"@[0] == 'n' && "hidden"@[0] == 'h' && "hide"@[0] == 'h');
    assert("autohide"@[0] == 'a' && "auto-hide"@[0] == 'a' && "auto_hide"@[0] == 'a');
}

/// What no file says otherwise: the dock is there always and makes way for full-screen and
/// maximized windows, the taskbar and the icons of the desktop stay, and the drawer is on.
pub proof fn law_defaults()
    ensures
        settings::parsed(seq![]) == settings::defaults(),
        settings::defaults().dock_mode == DockMode::Always,
        settings::defaults().hide_on_fullscreen && settings::defaults().hide_on_maximized,
        settings::defaults().taskbar_mode == TaskbarMode::Show,
        settings::defaults().drawer_enabled && !settings::defaults().hide_desktop_icons,
        settings::defaults().theme == ThemePreset::Glass,
{
    assert(text::lines(Seq::<char>::empty()) =~= Seq::empty());
}

/// A line that gives a key a value sets it, whatever stood before; the last line of two
/// for one flag counts.
pub proof fn law_last_line_counts(s: Settings, ls: Seq<Seq<char>>, l: Seq<char>)
    ensures
        settings::after_lines(s, ls.push(l)) == settings::after_line(
            settings::after_lines(s, ls),
            l,
        ),
{
    assert(ls.push(l).drop_last() =~= ls);
}

/// A theme is set by its name; what names none leaves the theme as it is.
pub proof fn law_theme_by_name(s: Settings, t: ThemePreset, value: Seq<char>)
    ensures
        settings::with_pair(s, "theme"@, theme::name_of(t)).theme == t,
        theme::named(value) is None ==> settings::with_pair(s, "theme"@, value) == s,
{
    lemma_setting_keys();
    theme::law_named_by_own_name(t);
}

proof fn lemma_distinct(ds: Seq<BluetoothView>)
    ensures
        forall|k: int|
            0 <= k < sysctl::distinct(ds).len() ==> from_list(
                ds,
                ds.len() as int,
                #[trigger] sysctl::distinct(ds)[k],
            ),
        forall|i: int| 0 <= i < ds.len() ==> is_shown(sysctl::distinct(ds), #[trigger] ds[i]),
        order::in_order(ds, sysctl::by_presence()) ==> order::in_order(
            sysctl::distinct(ds),
            sysctl::by_presence(),
        ),
    decreases ds.len(),
{
    if ds.len() > 0 {
        let f = ds.drop_last();
        let d = sysctl::distinct(f);
        let r = sysctl::distinct(ds);
        lemma_distinct(f);
        assert forall|k: int| 0 <= k < r.len() implies from_list(
            ds,
            ds.len() as int,
            #[trigger] r[k],
        ) by {
            if k < d.len() {
                assert(r[k] == d[k]);
                assert(from_list(f, f.len() as int, d[k]));
                let i = choose|i: int| 0 <= i < f.len() && i < f.len() && f[i] == d[k];
                assert(ds[i] == d[k]);
            } else {
                assert(ds[ds.len() - 1] == r[k]);
            }
        }
        assert forall|i: int| 0 <= i < ds.len() implies is_shown(r, #[trigger] ds[i]) by {
            if i < f.len() {
                assert(f[i] == ds[i]);
                assert(is_shown(d, f[i]));
                let k = choose|k: int|
                    0 <= k < d.len() && (#[trigger] d[k] == f[i] || (f[i].address.len() > 0
                        && d[k].address == f[i].address));
                assert(r[k] == d[k]);
            } else {
                assert(r[r.len() - 1] == ds[i] || r[r.len() - 1].address == ds[i].address);
            }
        }
        let lt = sysctl::by_presence();
        if order::in_order(ds, lt) {
            assert(order::in_order(f, lt)) by {
                assert forall|i: int, j: int| 0 <= i < j < f.len() implies !#[trigger] lt(
                    f[j],
                    f[i],
                ) by {
                    assert(!lt(ds[j], ds[i]));
                }
            }
            assert forall|i: int, j: int| 0 <= i < j < r.len() implies !#[trigger] lt(r[j], r[i]) by {
                assert(r[i] == d[i]);
                if j < d.len() {
                    assert(r[j] == d[j]);
                    assert(!lt(d[j], d[i]));
                } else {
                    assert(from_list(f, f.len() as int, d[i]));
                    let m = choose|m: int| 0 <= m < f.len() && m < f.len() && f[m] == d[i];
                    assert(ds[m] == d[i]);
                    assert(!lt(ds[ds.len() - 1], ds[m]));
                }
            }
        }
    }
}

/// One of the first `n` of a list.
pub open spec fn from_list(ds: Seq<BluetoothView>, n: int, d: BluetoothView) -> bool {
    exists|i: int| 0 <= i < n && i < ds.len() && ds[i] == d
}

/// A device is listed, itself or by another entry with its address.
pub open spec fn is_shown(r: Seq<BluetoothView>, d: BluetoothView) -> bool {
    exists|k: int|
        0 <= k < r.len() && (#[trigger] r[k] == d || (d.address.len() > 0 && r[k].address
            == d.address))
}

/// Every device that was found is listed, and each that is listed was found. Connected ones
/// stand first, then those that the system remembers, and of these the names are in order.
pub proof fn law_devices_listed(ds: Seq<BluetoothView>)
    ensures
        ({
            let r = sysctl::listed_devices(ds);
            &&& forall|i: int| 0 <= i < ds.len() ==> is_shown(r, #[trigger] ds[i])
            &&& forall|k: int| 0 <= k < r.len() ==> ds.contains(#[trigger] r[k])
            &&& forall|j: int, k: int|
                0 <= j < k < r.len() ==> {
                    &&& (#[trigger] r[k]).connected ==> (#[trigger] r[j]).connected
                    &&& r[j].connected == r[k].connected && r[k].remembered ==> r[j].remembered
                    &&& r[j].connected == r[k].connected && r[j].remembered == r[k].remembered
                        ==> !text::before(r[k].name, r[j].name)
                }
        }),
{
    let lt = sysctl::by_presence();
    let a = order::arranged(ds, lt);
    let r = sysctl::listed_devices(ds);
    sysctl::law_connected_first(ds);
    lemma_distinct(a);
    assert forall|i: int| 0 <= i < ds.len() implies is_shown(r, #[trigger] ds[i]) by {
        order::lemma_arranged_contains(ds, lt, ds[i]);
        assert(ds.contains(ds[i]));
        let k = choose|k: int| 0 <= k < a.len() && a[k] == ds[i];
        assert(is_shown(r, a[k]));
    }
    assert forall|k: int| 0 <= k < r.len() implies ds.contains(#[trigger] r[k]) by {
        assert(from_list(a, a.len() as int, r[k]));
        let i = choose|i: int| 0 <= i < a.len() && i < a.len() && a[i] == r[k];
        assert(a.contains(a[i]));
        order::lemma_arranged_contains(ds, lt, r[k]);
    }
    assert forall|j: int, k: int| 0 <= j < k < r.len() implies {
        &&& (#[trigger] r[k]).connected ==> (#[trigger] r[j]).connected
        &&& r[j].connected == r[k].connected && r[k].remembered ==> r[j].remembered
        &&& r[j].connected == r[k].connected && r[j].remembered == r[k].remembered
            ==> !text::before(r[k].name, r[j].name)
    } by {
        assert(!lt(r[k], r[j]));
    }
}

/// A device of sound is listed where the system names it: under its own name, or one made
/// up for it, and as the default where it is.
pub proof fn law_audio_device(
    f: FoundDevice,
    flow: AudioFlow,
    index: nat,
    default_id: Option<Seq<char>>,
)
    ensures
        ({
            let r = sysctl::device_of(f, flow, index, default_id);
            &&& f.id is None <==> r.len() == 0
            &&& f.id matches Some(id) ==> {
                &&& r.len() == 1 && r[0].id == id@
                &&& r[0].is_default <==> default_id == Some(id@)
                &&& f.name is Some && text::trimmed(f.name->0@).len() > 0 ==> r[0].name
                    == text::trimmed(f.name->0@)
                &&& r[0].name.len() > 0
            }
        }),
{
    if let Some(id) = f.id {
        let tail = sysctl::last_filled(crate::words::parts(id@, crate::words::marker()));
        let n = sysctl::stand_in_name(id@, flow, index);
        let p = match flow {
            AudioFlow::Output => "输出设备"@,
            AudioFlow::Input => "输入设备"@,
        };
        assert((p + seq![' ']).len() > 0);
    }
}

/// How many of the first devices are listed.
pub open spec fn named_before(fs: Seq<FoundDevice>, i: int) -> int
    decreases i,
{
    if i <= 0 {
        0
    } else {
        named_before(fs, i - 1) + (if fs[i - 1].id is Some {
            1int
        } else {
            0
        })
    }
}

proof fn lemma_named_before(fs: Seq<FoundDevice>, last: FoundDevice, i: int)
    requires
        i <= fs.len(),
    ensures
        named_before(fs.push(last), i) == named_before(fs, i),
        named_before(fs, i) >= 0,
    decreases i,
{
    if i > 0 {
        lemma_named_before(fs, last, i - 1);
    }
}

/// The devices of sound are listed in the order of the system, each that it names once.
pub proof fn law_audio_devices(fs: Seq<FoundDevice>, flow: AudioFlow, default_id: Option<Seq<char>>)
    ensures
        sysctl::devices_of(fs, flow, default_id).len() == named_before(fs, fs.len() as int),
        forall|i: int|
            0 <= i < fs.len() && (#[trigger] fs[i]).id is Some ==> {
                let k = named_before(fs, i);
                let r = sysctl::devices_of(fs, flow, default_id);
                0 <= k < r.len() && r[k].id == fs[i].id->0@ && (r[k].is_default <==> default_id
                    == Some(fs[i].id->0@))
            },
    decreases fs.len(),
{
    if fs.len() > 0 {
        let f = fs.drop_last();
        assert(fs =~= f.push(fs.last()));
        law_audio_devices(f, flow, default_id);
        lemma_named_before(f, fs.last(), f.len() as int);
        law_audio_device(fs.last(), flow, (fs.len() - 1) as nat, default_id);
        let r = sysctl::devices_of(fs, flow, default_id);
        let q = sysctl::devices_of(f, flow, default_id);
        assert forall|i: int| 0 <= i < fs.len() && (#[trigger] fs[i]).id is Some implies {
            let k = named_before(fs, i);
            0 <= k < r.len() && r[k].id == fs[i].id->0@ && (r[k].is_default <==> default_id == Some(
                fs[i].id->0@,
            ))
        } by {
            lemma_named_before(f, fs.last(), i);
            if i < f.len() {
                assert(f[i] == fs[i]);
                let k = named_before(f, i);
                assert(r[k] == q[k]);
            }
        }
    }
}

/// An input method is called by its layout, or else by its language, or else by its number;
/// a handle of zero is none.
pub proof fn law_method(
    hkl: isize,
    active: bool,
    layout: Option<Seq<char>>,
    locale: Option<Seq<char>>,
)
    ensures
        hkl == 0 <==> sysctl::method_of(hkl, active, layout, locale) is None,
        sysctl::method_of(hkl, active, layout, locale) matches Some(m) ==> {
            &&& m.hkl == hkl && m.active == active
            &&& layout is Some && layout->0.len() > 0 ==> m.label == layout->0
            &&& !(layout is Some && layout->0.len() > 0) && locale is Some && locale->0.len() > 0
                ==> m.label == locale->0
            &&& m.id == numbers::hex((hkl as int % 0x1_0000_0000) as nat, 8)
        },
{
}

/// Of each input method the first that was found is listed.
pub proof fn law_first_methods(ms: Seq<MethodView>)
    ensures
        forall|k: int|
            0 <= k < sysctl::first_of_each(ms).len() ==> is_first(
                ms,
                #[trigger] sysctl::first_of_each(ms)[k],
            ),
    decreases ms.len(),
{
    if ms.len() > 0 {
        let f = ms.drop_last();
        let q = sysctl::first_of_each(f);
        let r = sysctl::first_of_each(ms);
        law_first_methods(f);
        sysctl::law_methods_once(f);
        assert forall|k: int| 0 <= k < r.len() implies is_first(ms, #[trigger] r[k]) by {
            if k < q.len() {
                assert(r[k] == q[k]);
                assert(is_first(f, q[k]));
                let i = choose|i: int|
                    0 <= i < f.len() && #[trigger] f[i] == q[k] && forall|j: int|
                        0 <= j < i ==> (#[trigger] f[j]).hkl != q[k].hkl;
                assert(ms[i] == q[k]);
                assert forall|j: int| 0 <= j < i implies (#[trigger] ms[j]).hkl != r[k].hkl by {
                    assert(f[j] == ms[j]);
                }
            } else {
                let n = ms.len() - 1;
                assert(ms[n] == r[k]);
                assert forall|j: int| 0 <= j < n implies (#[trigger] ms[j]).hkl != r[k].hkl by {
                    assert(f[j] == ms[j]);
                    assert(sysctl::has_handle(q, f[j].hkl));
                }
            }
        }
    }
}

/// The first of a list that has its handle.
pub open spec fn is_first(ms: Seq<MethodView>, m: MethodView) -> bool {
    exists|i: int|
        0 <= i < ms.len() && #[trigger] ms[i] == m && forall|j: int|
            0 <= j < i ==> (#[trigger] ms[j]).hkl != m.hkl
}

/// A text of the system ends at the first zero, or at its end.
pub proof fn law_before_zero(units: Seq<u16>)
    ensures
        sysctl::before_zero(units) <= units.len(),
        sysctl::before_zero(units) < units.len() ==> units[sysctl::before_zero(units) as int] == 0,
        forall|i: int| 0 <= i < sysctl::before_zero(units) ==> #[trigger] units[i] != 0,
    decreases units.len(),
{
    if units.len() > 0 && units[0] != 0 {
        let t = units.skip(1);
        law_before_zero(t);
        assert forall|i: int| 0 <= i < sysctl::before_zero(units) implies #[trigger] units[i]
            != 0 by {
            if i > 0 {
                assert(t[i - 1] == units[i]);
            }
        }
    }
}

/// An address is written in twelve digits, by its lower bits alone; none is written of one
/// that is zero.
pub proof fn law_address(raw: u64)
    ensures
        raw as int % 0x1_0000_0000_0000 == 0 ==> sysctl::address_text(raw).len() == 0,
        raw as int % 0x1_0000_0000_0000 != 0 ==> sysctl::address_text(raw) == numbers::hex(
            (raw as int % 0x1_0000_0000_0000) as nat,
            12,
        ),
{
}

/// What is said of the battery: that there is none, or how full it is and whether it is
/// being charged.
pub proof fn law_battery_line(a: sysctl::Battery, b: sysctl::Battery)
    requires
        a.present,
        b.present,
        a.charging == b.charging,
        sysctl::battery_line(a) == sysctl::battery_line(b),
    ensures
        a.percent == b.percent,
        sysctl::battery_line(a).last() == '%',
{
    let p = if a.charging {
        "充电中 "@
    } else {
        "电池 "@
    };
    let da = numbers::decimal(a.percent as nat);
    let db = numbers::decimal(b.percent as nat);
    let x = sysctl::battery_line(a);
    let y = sysctl::battery_line(b);
    assert(x.subrange(p.len() as int, x.len() - 1) =~= da);
    assert(y.subrange(p.len() as int, y.len() - 1) =~= db);
    numbers::lemma_decimal_digits(a.percent as nat);
    numbers::lemma_decimal_digits(b.percent as nat);
}

/// The first devices of sound are listed, and no more than there is room for.
pub proof fn law_first_devices(fs: Seq<FoundDevice>)
    ensures
        sysctl::first_devices(fs).len() <= sysctl::MAX_AUDIO_DEVICES,
        fs.len() <= sysctl::MAX_AUDIO_DEVICES ==> sysctl::first_devices(fs).len() == fs.len(),
        fs.len() > sysctl::MAX_AUDIO_DEVICES ==> sysctl::first_devices(fs).len()
            == sysctl::MAX_AUDIO_DEVICES,
        forall|i: int|
            0 <= i < sysctl::first_devices(fs).len() ==> #[trigger] sysctl::first_devices(fs)[i]
                == fs[i],
{
}

/// A device without a name is called by the last part of its identity that is not empty.
pub proof fn law_last_filled(ps: Seq<Seq<char>>)
    ensures
        sysctl::last_filled(ps).len() == 0 ==> forall|j: int|
            0 <= j < ps.len() ==> (#[trigger] ps[j]).len() == 0,
        sysctl::last_filled(ps).len() > 0 ==> exists|k: int|
            0 <= k < ps.len() && #[trigger] ps[k] == sysctl::last_filled(ps) && forall|j: int|
                k < j < ps.len() ==> (#[trigger] ps[j]).len() == 0,
    decreases ps.len(),
{
    if ps.len() > 0 {
        let f = ps.drop_last();
        law_last_filled(f);
        if ps.last().len() > 0 {
            assert(ps[ps.len() - 1] == sysctl::last_filled(ps));
        } else if sysctl::last_filled(f).len() > 0 {
            let k = choose|k: int|
                0 <= k < f.len() && #[trigger] f[k] == sysctl::last_filled(f) && forall|j: int|
                    k < j < f.len() ==> (#[trigger] f[j]).len() == 0;
            assert(ps[k] == sysctl::last_filled(ps));
            assert forall|j: int| k < j < ps.len() implies (#[trigger] ps[j]).len() == 0 by {
                if j < f.len() {
                    assert(f[j] == ps[j]);
                }
            }
        } else {
            assert forall|j: int| 0 <= j < ps.len() implies (#[trigger] ps[j]).len() == 0 by {
                if j < f.len() {
                    assert(f[j] == ps[j]);
                }
            }
        }
    }
}

} // verus!
