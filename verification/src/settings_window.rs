//! The window of the settings: what stands where, and what each control does.

use vstd::prelude::*;
use crate::apps;
use crate::behavior;
use crate::command_palette;
use crate::config;
use crate::config::ItemSpec;
use crate::settings::{DockMode, Settings, TaskbarMode};
use crate::text;
use crate::theme;
use crate::theme::ThemePreset;

verus! {

pub const ID_TB_SHOW: usize = 101;

pub const ID_TB_AUTOHIDE: usize = 102;

pub const ID_TB_HIDDEN: usize = 103;

pub const ID_DOCK_ALWAYS: usize = 111;

pub const ID_DOCK_AUTOHIDE: usize = 112;

pub const ID_FULLSCREEN: usize = 121;

pub const ID_MAXIMIZED: usize = 122;

pub const ID_PIN_LIST: usize = 131;

pub const ID_PIN_ADD: usize = 132;

pub const ID_PIN_REMOVE: usize = 133;

pub const ID_AUTOSTART: usize = 141;

pub const ID_DRAWER_ENABLED: usize = 142;

pub const ID_HIDE_DESKTOP_ICONS: usize = 143;

pub const ID_THEME: usize = 144;

pub const ID_CLOSE: usize = 151;

/// The code with which a list reports that another row is selected.
pub const CODE_SELECTED: usize = 1;

/// The size of the window's inside, before scaling.
pub const CLIENT_WIDTH: i32 = 420;

pub const CLIENT_HEIGHT: i32 = 708;

/// What a control is.
#[derive(Clone, Copy, Debug, PartialEq, Eq, Structural)]
pub enum ControlKind {
    Group,
    Radio,
    Check,
    Push,
    Combo,
    List,
}

/// One control of the window, before scaling.
#[derive(Clone, Copy, Debug)]
pub struct ControlSpec {
    pub kind: ControlKind,
    pub text: &'static str,
    pub id: usize,
    pub x: i32,
    pub y: i32,
    pub w: i32,
    pub h: i32,
}

/// How many controls there are.
pub const CONTROL_COUNT: usize = 21;

/// What a control is, its number, and where it stands.
pub open spec fn control_at(i: int) -> (ControlKind, usize, (i32, i32, i32, i32)) {
    if i == 0 {
        (ControlKind::Group, 0, (12, 6, 396, 116))
    } else if i == 1 {
        (ControlKind::Radio, ID_TB_SHOW, (26, 30, 366, 24))
    } else if i == 2 {
        (ControlKind::Radio, ID_TB_AUTOHIDE, (26, 58, 366, 24))
    } else if i == 3 {
        (ControlKind::Radio, ID_TB_HIDDEN, (26, 86, 366, 24))
    } else if i == 4 {
        (ControlKind::Group, 0, (12, 130, 396, 144))
    } else if i == 5 {
        (ControlKind::Radio, ID_DOCK_ALWAYS, (26, 154, 366, 24))
    } else if i == 6 {
        (ControlKind::Radio, ID_DOCK_AUTOHIDE, (26, 182, 366, 24))
    } else if i == 7 {
        (ControlKind::Check, ID_FULLSCREEN, (26, 210, 366, 24))
    } else if i == 8 {
        (ControlKind::Check, ID_MAXIMIZED, (26, 238, 366, 24))
    } else if i == 9 {
        (ControlKind::Group, 0, (12, 282, 396, 56))
    } else if i == 10 {
        (ControlKind::Combo, ID_THEME, (26, 306, 180, 160))
    } else if i == 11 {
        (ControlKind::Group, 0, (12, 350, 396, 150))
    } else if i == 12 {
        (ControlKind::List, ID_PIN_LIST, (26, 374, 288, 116))
    } else if i == 13 {
        (ControlKind::Push, ID_PIN_ADD, (322, 374, 74, 26))
    } else if i == 14 {
        (ControlKind::Push, ID_PIN_REMOVE, (322, 406, 74, 26))
    } else if i == 15 {
        (ControlKind::Group, 0, (12, 506, 396, 88))
    } else if i == 16 {
        (ControlKind::Check, ID_DRAWER_ENABLED, (26, 530, 366, 24))
    } else if i == 17 {
        (ControlKind::Check, ID_HIDE_DESKTOP_ICONS, (26, 558, 366, 24))
    } else if i == 18 {
        (ControlKind::Group, 0, (12, 602, 396, 50))
    } else if i == 19 {
        (ControlKind::Check, ID_AUTOSTART, (26, 624, 366, 24))
    } else {
        (ControlKind::Push, ID_CLOSE, (332, 660, 76, 28))
    }
}

/// What is written on a control.
pub open spec fn control_text(i: int) -> Seq<char> {
    if i == 0 {
        "系统任务栏"@
    } else if i == 1 {
        "不隐藏（保留系统任务栏）"@
    } else if i == 2 {
        "自动隐藏（推荐：腾出空间，移到边缘弹出）"@
    } else if i == 3 {
        "完全隐藏（最纯净；退出时自动恢复）"@
    } else if i == 4 {
        "Dock 显示"@
    } else if i == 5 {
        "常驻屏幕底部"@
    } else if i == 6 {
        "自动隐藏（鼠标到底部唤出）"@
    } else if i == 7 {
        "出现全屏应用时自动隐藏"@
    } else if i == 8 {
        "出现最大化窗口时收起到边缘"@
    } else if i == 9 {
        "外观"@
    } else if i == 10 {
        ""@
    } else if i == 11 {
        "常驻应用（Dock 左侧固定项）"@
    } else if i == 12 {
        ""@
    } else if i == 13 {
        "添加…"@
    } else if i == 14 {
        "移除"@
    } else if i == 15 {
        "程序抽屉 / 桌面"@
    } else if i == 16 {
        "启用程序抽屉（Dock 上的应用网格按钮）"@
    } else if i == 17 {
        "隐藏桌面图标（退出时自动恢复）"@
    } else if i == 18 {
        "启动"@
    } else if i == 19 {
        "开机自启"@
    } else {
        "关闭"@
    }
}

spec fn as_planned(c: ControlSpec, i: int) -> bool {
    c.text@ == control_text(i) && (c.kind, c.id, (c.x, c.y, c.w, c.h)) == control_at(i)
}

fn put(
    out: &mut Vec<ControlSpec>,
    kind: ControlKind,
    text: &'static str,
    id: usize,
    place: (i32, i32, i32, i32),
)
    requires
        forall|i: int| 0 <= i < old(out)@.len() ==> as_planned(#[trigger] old(out)@[i], i),
        text@ == control_text(old(out)@.len() as int),
        (kind, id, place) == control_at(old(out)@.len() as int),
    ensures
        final(out)@.len() == old(out)@.len() + 1,
        forall|i: int| 0 <= i < final(out)@.len() ==> as_planned(#[trigger] final(out)@[i], i),
{
    out.push(ControlSpec { kind, text, id, x: place.0, y: place.1, w: place.2, h: place.3 });
}

/// The controls of the window, in the order in which they are made.
pub fn controls() -> (r: Vec<ControlSpec>)
    ensures
        r@.len() == CONTROL_COUNT,
        forall|i: int|
            0 <= i < r@.len() ==> (#[trigger] r@[i]).text@ == control_text(i) && (
            r@[i].kind,
            r@[i].id,
            (r@[i].x, r@[i].y, r@[i].w, r@[i].h),
        ) == control_at(i),
{
    let mut v: Vec<ControlSpec> = Vec::new();
    put(&mut v, ControlKind::Group, "系统任务栏", 0, (12, 6, 396, 116));
    put(&mut v, ControlKind::Radio, "不隐藏（保留系统任务栏）", ID_TB_SHOW, (26, 30, 366, 24));
    put(
        &mut v,
        ControlKind::Radio,
        "自动隐藏（推荐：腾出空间，移到边缘弹出）",
        ID_TB_AUTOHIDE,
        (26, 58, 366, 24),
    );
    put(
        &mut v,
        ControlKind::Radio,
        "完全隐藏（最纯净；退出时自动恢复）",
        ID_TB_HIDDEN,
        (26, 86, 366, 24),
    );
    put(&mut v, ControlKind::Group, "Dock 显示", 0, (12, 130, 396, 144));
    put(&mut v, ControlKind::Radio, "常驻屏幕底部", ID_DOCK_ALWAYS, (26, 154, 366, 24));
    put(
        &mut v,
        ControlKind::Radio,
        "自动隐藏（鼠标到底部唤出）",
        ID_DOCK_AUTOHIDE,
        (26, 182, 366, 24),
    );
    put(&mut v, ControlKind::Check, "出现全屏应用时自动隐藏", ID_FULLSCREEN, (26, 210, 366, 24));
    put(
        &mut v,
        ControlKind::Check,
        "出现最大化窗口时收起到边缘",
        ID_MAXIMIZED,
        (26, 238, 366, 24),
    );
    put(&mut v, ControlKind::Group, "外观", 0, (12, 282, 396, 56));
    put(&mut v, ControlKind::Combo, "", ID_THEME, (26, 306, 180, 160));
    put(&mut v, ControlKind::Group, "常驻应用（Dock 左侧固定项）", 0, (12, 350, 396, 150));
    put(&mut v, ControlKind::List, "", ID_PIN_LIST, (26, 374, 288, 116));
    put(&mut v, ControlKind::Push, "添加…", ID_PIN_ADD, (322, 374, 74, 26));
    put(&mut v, ControlKind::Push, "移除", ID_PIN_REMOVE, (322, 406, 74, 26));
    put(&mut v, ControlKind::Group, "程序抽屉 / 桌面", 0, (12, 506, 396, 88));
    put(
        &mut v,
        ControlKind::Check,
        "启用程序抽屉（Dock 上的应用网格按钮）",
        ID_DRAWER_ENABLED,
        (26, 530, 366, 24),
    );
    put(
        &mut v,
        ControlKind::Check,
        "隐藏桌面图标（退出时自动恢复）",
        ID_HIDE_DESKTOP_ICONS,
        (26, 558, 366, 24),
    );
    put(&mut v, ControlKind::Group, "启动", 0, (12, 602, 396, 50));
    put(&mut v, ControlKind::Check, "开机自启", ID_AUTOSTART, (26, 624, 366, 24));
    put(&mut v, ControlKind::Push, "关闭", ID_CLOSE, (332, 660, 76, 28));
    v
}

/// What a command asks for, in order.
#[derive(Clone, Copy, Debug, PartialEq, Eq, Structural)]
pub enum SettingsStep {
    /// Mark this one of the taskbar's choices, and no other.
    SelectTaskbar(usize),
    /// Mark this one of the dock's choices, and no other.
    SelectDock(usize),
    ApplyTaskbar(TaskbarMode),
    DesktopIcons(bool),
    /// Write the settings down.
    Save,
    /// Tell the dock that the settings have changed.
    NotifySettings,
    /// Tell the dock that the pinned items have changed.
    NotifyPins,
    /// Let the user pick a file and pin it.
    PickPin,
    /// Unpin the item at this place in the file.
    RemovePin(usize),
    SetAutostart(bool),
    Close,
}

/// The settings after a command.
pub open spec fn changed(
    s: Settings,
    id: usize,
    code: usize,
    checked: bool,
    selection: Option<usize>,
) -> Settings {
    if id == ID_TB_SHOW {
        Settings { taskbar_mode: TaskbarMode::Show, ..s }
    } else if id == ID_TB_AUTOHIDE {
        Settings { taskbar_mode: TaskbarMode::AutoHide, ..s }
    } else if id == ID_TB_HIDDEN {
        Settings { taskbar_mode: TaskbarMode::Hidden, ..s }
    } else if id == ID_DOCK_ALWAYS {
        Settings { dock_mode: DockMode::Always, ..s }
    } else if id == ID_DOCK_AUTOHIDE {
        Settings { dock_mode: DockMode::AutoHide, ..s }
    } else if id == ID_FULLSCREEN {
        Settings { hide_on_fullscreen: checked, ..s }
    } else if id == ID_MAXIMIZED {
        Settings { hide_on_maximized: checked, ..s }
    } else if id == ID_THEME && code == CODE_SELECTED && selection is Some
        && selection->Some_0 < theme::presets().len() {
        Settings { theme: theme::presets()[selection->Some_0 as int], ..s }
    } else if id == ID_DRAWER_ENABLED {
        Settings { drawer_enabled: checked, ..s }
    } else if id == ID_HIDE_DESKTOP_ICONS {
        Settings { hide_desktop_icons: checked, ..s }
    } else {
        s
    }
}

pub open spec fn saved_and_told() -> Seq<SettingsStep> {
    seq![SettingsStep::Save, SettingsStep::NotifySettings]
}

/// What a command asks for.
pub open spec fn steps(
    id: usize,
    code: usize,
    checked: bool,
    selection: Option<usize>,
    pins: Seq<usize>,
) -> Seq<SettingsStep> {
    if id == ID_TB_SHOW {
        seq![SettingsStep::SelectTaskbar(0), SettingsStep::ApplyTaskbar(TaskbarMode::Show)]
            + saved_and_told()
    } else if id == ID_TB_AUTOHIDE {
        seq![SettingsStep::SelectTaskbar(1), SettingsStep::ApplyTaskbar(TaskbarMode::AutoHide)]
            + saved_and_told()
    } else if id == ID_TB_HIDDEN {
        seq![SettingsStep::SelectTaskbar(2), SettingsStep::ApplyTaskbar(TaskbarMode::Hidden)]
            + saved_and_told()
    } else if id == ID_DOCK_ALWAYS {
        seq![SettingsStep::SelectDock(0)] + saved_and_told()
    } else if id == ID_DOCK_AUTOHIDE {
        seq![SettingsStep::SelectDock(1)] + saved_and_told()
    } else if id == ID_FULLSCREEN || id == ID_MAXIMIZED {
        saved_and_told()
    } else if id == ID_THEME {
        if code == CODE_SELECTED && selection is Some && selection->Some_0
            < theme::presets().len() {
            saved_and_told()
        } else {
            seq![]
        }
    } else if id == ID_PIN_ADD {
        seq![SettingsStep::PickPin]
    } else if id == ID_PIN_REMOVE {
        if selection is Some && selection->Some_0 < pins.len() {
            seq![SettingsStep::RemovePin(pins[selection->Some_0 as int])]
        } else {
            seq![]
        }
    } else if id == ID_AUTOSTART {
        seq![SettingsStep::SetAutostart(checked)]
    } else if id == ID_DRAWER_ENABLED {
        seq![SettingsStep::Save, SettingsStep::NotifyPins]
    } else if id == ID_HIDE_DESKTOP_ICONS {
        seq![SettingsStep::DesktopIcons(checked)] + saved_and_told()
    } else if id == ID_CLOSE {
        seq![SettingsStep::Close]
    } else {
        seq![]
    }
}

/// A command from a control: changes the settings and says what is to be done. `checked`
/// is the state of the control, `selection` the selected row of its list, and `pins` the
/// place in the file of each row of the pinned items.
pub fn on_command(
    s: &mut Settings,
    id: usize,
    code: usize,
    checked: bool,
    selection: Option<usize>,
    pins: &Vec<usize>,
) -> (r: Vec<SettingsStep>)
    ensures
        *final(s) == changed(*old(s), id, code, checked, selection),
        r@ == steps(id, code, checked, selection, pins@),
{
    let mut out: Vec<SettingsStep> = Vec::new();
    let mut told: bool = true;
    if id == ID_TB_SHOW {
        s.taskbar_mode = TaskbarMode::Show;
        out.push(SettingsStep::SelectTaskbar(0));
        out.push(SettingsStep::ApplyTaskbar(TaskbarMode::Show));
    } else if id == ID_TB_AUTOHIDE {
        s.taskbar_mode = TaskbarMode::AutoHide;
        out.push(SettingsStep::SelectTaskbar(1));
        out.push(SettingsStep::ApplyTaskbar(TaskbarMode::AutoHide));
    } else if id == ID_TB_HIDDEN {
        s.taskbar_mode = TaskbarMode::Hidden;
        out.push(SettingsStep::SelectTaskbar(2));
        out.push(SettingsStep::ApplyTaskbar(TaskbarMode::Hidden));
    } else if id == ID_DOCK_ALWAYS {
        s.dock_mode = DockMode::Always;
        out.push(SettingsStep::SelectDock(0));
    } else if id == ID_DOCK_AUTOHIDE {
        s.dock_mode = DockMode::AutoHide;
        out.push(SettingsStep::SelectDock(1));
    } else if id == ID_FULLSCREEN {
        s.hide_on_fullscreen = checked;
    } else if id == ID_MAXIMIZED {
        s.hide_on_maximized = checked;
    } else if id == ID_THEME {
        told = false;
        if code == CODE_SELECTED {
            if let Some(row) = selection {
                if let Some(theme) = ThemePreset::at(row) {
                    s.theme = theme;
                    told = true;
                }
            }
        }
    } else if id == ID_HIDE_DESKTOP_ICONS {
        s.hide_desktop_icons = checked;
        out.push(SettingsStep::DesktopIcons(checked));
    } else {
        told = false;
        if id == ID_PIN_ADD {
            out.push(SettingsStep::PickPin);
        } else if id == ID_PIN_REMOVE {
            if let Some(row) = selection {
                if row < pins.len() {
                    out.push(SettingsStep::RemovePin(pins[row]));
                }
            }
        } else if id == ID_AUTOSTART {
            out.push(SettingsStep::SetAutostart(checked));
        } else if id == ID_DRAWER_ENABLED {
            s.drawer_enabled = checked;
            out.push(SettingsStep::Save);
            out.push(SettingsStep::NotifyPins);
        } else if id == ID_CLOSE {
            out.push(SettingsStep::Close);
        }
    }
    if told {
        out.push(SettingsStep::Save);
        out.push(SettingsStep::NotifySettings);
    }
    assert(out@ =~= steps(id, code, checked, selection, pins@));
    out
}

/// Which controls are checked: those that stand for a setting, and that for the start with
/// the system.
pub open spec fn checks_of(s: Settings, autostart: bool) -> Seq<(usize, bool)> {
    seq![
        (ID_TB_SHOW, s.taskbar_mode == TaskbarMode::Show),
        (ID_TB_AUTOHIDE, s.taskbar_mode == TaskbarMode::AutoHide),
        (ID_TB_HIDDEN, s.taskbar_mode == TaskbarMode::Hidden),
        (ID_DOCK_ALWAYS, s.dock_mode == DockMode::Always),
        (ID_DOCK_AUTOHIDE, s.dock_mode == DockMode::AutoHide),
        (ID_FULLSCREEN, s.hide_on_fullscreen),
        (ID_MAXIMIZED, s.hide_on_maximized),
        (ID_DRAWER_ENABLED, s.drawer_enabled),
        (ID_HIDE_DESKTOP_ICONS, s.hide_desktop_icons),
        (ID_AUTOSTART, autostart),
    ]
}

/// Which controls are checked when the window opens.
pub fn checks(s: &Settings, autostart: bool) -> (r: Vec<(usize, bool)>)
    ensures
        r@ == checks_of(*s, autostart),
{
    let mut out: Vec<(usize, bool)> = Vec::new();
    out.push((ID_TB_SHOW, s.taskbar_mode == TaskbarMode::Show));
    out.push((ID_TB_AUTOHIDE, s.taskbar_mode == TaskbarMode::AutoHide));
    out.push((ID_TB_HIDDEN, s.taskbar_mode == TaskbarMode::Hidden));
    out.push((ID_DOCK_ALWAYS, s.dock_mode == DockMode::Always));
    out.push((ID_DOCK_AUTOHIDE, s.dock_mode == DockMode::AutoHide));
    out.push((ID_FULLSCREEN, s.hide_on_fullscreen));
    out.push((ID_MAXIMIZED, s.hide_on_maximized));
    out.push((ID_DRAWER_ENABLED, s.drawer_enabled));
    out.push((ID_HIDE_DESKTOP_ICONS, s.hide_desktop_icons));
    out.push((ID_AUTOSTART, autostart));
    assert(out@ =~= checks_of(*s, autostart));
    out
}

/// A row of the list of pinned items: its place in the file, and what it is called.
#[derive(Debug)]
pub struct PinRow {
    pub index: usize,
    pub label: String,
}

pub open spec fn row_views(v: Seq<PinRow>) -> Seq<(int, Seq<char>)> {
    v.map_values(|r: PinRow| (r.index as int, r.label@))
}

/// The row of an item, where there is something to launch.
pub open spec fn row_of(index: int, spec: config::ItemView, app_path: Option<Seq<char>>) -> Seq<
    (int, Seq<char>),
> {
    match apps::resolved_of(spec, app_path) {
        Some(p) => seq![
            (
                index,
                match spec.label {
                    Some(l) => l,
                    None => command_palette::name_for(p, "应用"@),
                },
            ),
        ],
        None => seq![],
    }
}

pub open spec fn rows_of(
    specs: Seq<config::ItemView>,
    app_paths: Seq<Option<Seq<char>>>,
) -> Seq<(int, Seq<char>)>
    decreases specs.len(),
{
    if specs.len() == 0 {
        seq![]
    } else {
        rows_of(specs.drop_last(), app_paths.drop_last()) + row_of(
            specs.len() - 1,
            specs.last(),
            app_paths.last(),
        )
    }
}

/// What a pinned file is called.
pub fn pin_label(path: &str) -> (r: String)
    ensures
        r@ == command_palette::name_for(path@, "应用"@),
{
    command_palette::label_for_path(path, "应用")
}

/// The rows of the list of pinned items: those that launch something, each with its place
/// in the file.
pub fn pin_rows(specs: &Vec<ItemSpec>, app_paths: &Vec<Option<String>>) -> (r: Vec<PinRow>)
    requires
        specs@.len() == app_paths@.len(),
    ensures
        row_views(r@) == rows_of(
            config::views(specs@),
            command_palette::opt_texts(app_paths@),
        ),
{
    let ghost all = config::views(specs@);
    let ghost found = command_palette::opt_texts(app_paths@);
    let mut out: Vec<PinRow> = Vec::new();
    let mut i: usize = 0;
    assert(row_views(out@) =~= rows_of(all.take(0), found.take(0)));
    while i < specs.len()
        invariant
            specs@.len() == app_paths@.len(),
            all == config::views(specs@),
            found == command_palette::opt_texts(app_paths@),
            i <= specs@.len(),
            row_views(out@) == rows_of(all.take(i as int), found.take(i as int)),
        decreases specs@.len() - i,
    {
        let ghost was = out@;
        proof {
            assert(all.take(i as int + 1).drop_last() =~= all.take(i as int));
            assert(found.take(i as int + 1).drop_last() =~= found.take(i as int));
            assert(all.take(i as int + 1).last() == specs@[i as int]@);
            assert(found.take(i as int + 1).last() == text::opt_text(app_paths@[i as int]));
        }
        let ghost one = row_of(i as int, specs@[i as int]@, text::opt_text(app_paths@[i as int]));
        match apps::resolve_launch_path(&specs[i], &app_paths[i]) {
            Some(path) => {
                let label: String = match &specs[i].label {
                    Some(l) => text::copy_text(l.as_str()),
                    None => pin_label(path.as_str()),
                };
                out.push(PinRow { index: i, label });
                assert(row_views(out@) =~= row_views(was) + one);
            },
            None => {
                assert(row_views(out@) =~= row_views(was) + one);
            },
        }
        i += 1;
    }
    assert(all.take(i as int) =~= all);
    assert(found.take(i as int) =~= found);
    out
}

/// Where a window stands in the middle of an area, as far as that is a position.
pub fn centred(area: (i32, i32, i32, i32), win_w: i32, win_h: i32) -> (r: Option<(i32, i32)>)
    ensures
        ({
            let x = area.0 + behavior::half(area.2 - win_w);
            let y = area.1 + behavior::half(area.3 - win_h);
            if i32::MIN <= x <= i32::MAX && i32::MIN <= y <= i32::MAX {
                r == Some((x as i32, y as i32))
            } else {
                r is None
            }
        }),
{
    let dx: i64 = area.2 as i64 - win_w as i64;
    let dy: i64 = area.3 as i64 - win_h as i64;
    let hx: i64 = if dx >= 0 {
        dx / 2
    } else {
        -((-dx) / 2)
    };
    let hy: i64 = if dy >= 0 {
        dy / 2
    } else {
        -((-dy) / 2)
    };
    let x: i64 = area.0 as i64 + hx;
    let y: i64 = area.1 as i64 + hy;
    if x < i32::MIN as i64 || x > i32::MAX as i64 || y < i32::MIN as i64 || y > i32::MAX as i64 {
        return None;
    }
    Some((x as i32, y as i32))
}

/// A colour as the system writes it.
pub fn rgb(r: u8, g: u8, b: u8) -> (c: u32)
    ensures
        c == r + 256 * g + 65536 * b,
{
    r as u32 + 256 * g as u32 + 65536 * b as u32
}

/// Every control stands inside the window, and no two controls that the user works share
/// a number.
pub proof fn law_controls_fit(i: int, j: int)
    requires
        0 <= i < CONTROL_COUNT,
        0 <= j < CONTROL_COUNT,
    ensures
        ({
            let (kind, id, (x, y, w, h)) = control_at(i);
            &&& 0 <= x && x + w <= CLIENT_WIDTH
            &&& 0 <= y && y + h <= CLIENT_HEIGHT
            &&& kind == ControlKind::Group <==> id == 0
            &&& i != j && id != 0 ==> id != control_at(j).1
        }),
{
}

/// A command changes one setting at most, and a changed setting is written down and told
/// to the dock.
pub proof fn law_change_is_saved_and_told(
    s: Settings,
    id: usize,
    code: usize,
    checked: bool,
    selection: Option<usize>,
    pins: Seq<usize>,
)
    requires
        changed(s, id, code, checked, selection) != s,
    ensures
        ({
            let todo = steps(id, code, checked, selection, pins);
            &&& todo.len() >= 2
            &&& todo[todo.len() - 2] == SettingsStep::Save
            &&& todo.last() == SettingsStep::NotifySettings || todo.last()
                == SettingsStep::NotifyPins
        }),
{
}

/// The rows of the pinned items stand for different places in the file, in order, and each
/// place is in the file.
pub proof fn law_rows_in_order(specs: Seq<config::ItemView>, app_paths: Seq<Option<Seq<char>>>)
    requires
        specs.len() == app_paths.len(),
    ensures
        forall|i: int|
            0 <= i < rows_of(specs, app_paths).len() ==> 0 <= (#[trigger] rows_of(
                specs,
                app_paths,
            )[i]).0 < specs.len(),
        forall|i: int, j: int|
            0 <= i < j < rows_of(specs, app_paths).len() ==> (#[trigger] rows_of(
                specs,
                app_paths,
            )[i]).0 < (#[trigger] rows_of(specs, app_paths)[j]).0,
    decreases specs.len(),
{
    if specs.len() > 0 {
        law_rows_in_order(specs.drop_last(), app_paths.drop_last());
        let front = rows_of(specs.drop_last(), app_paths.drop_last());
        let r = rows_of(specs, app_paths);
        assert forall|i: int| 0 <= i < r.len() implies 0 <= (#[trigger] r[i]).0
            < specs.len() by {
            if i < front.len() {
                assert(front[i] == r[i]);
            }
        }
        assert forall|i: int, j: int| 0 <= i < j < r.len() implies (#[trigger] r[i]).0 < (
        #[trigger] r[j]).0 by {
            assert(front[i] == r[i]);
            if j < front.len() {
                assert(front[j] == r[j]);
            }
        }
    }
}

} // verus!
