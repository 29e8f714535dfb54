//! What is promised of the preview of windows and of the window with the settings.

use vstd::prelude::*;
use crate::apps;
use crate::config;
use crate::settings::{DockMode, Settings, TaskbarMode};
use crate::settings_window;
use crate::settings_window::SettingsStep;
use crate::theme;
use crate::window_preview;
use crate::window_preview::PreviewMetrics;
use crate::windows_list::ScreenRect;
use crate::dock::{DockItem, ItemRole, RunningWindowRef};
use crate::fitting;
use crate::icons;
use crate::icons::IconPlanView;
use crate::row_layout;

verus! {

/// The cards stand as one reads: each beside the one before it, or at the left of the next
/// line.
pub proof fn law_cards_in_reading_order(
    a: ScreenRect,
    b: ScreenRect,
    i: int,
    count: nat,
    m: PreviewMetrics,
)
    requires
        0 <= i,
        window_preview::stands_at(a, i, count, m),
        window_preview::stands_at(b, i + 1, count, m),
    ensures
        i == 0 ==> a.left == m.pad && a.top == m.pad + m.header_h,
        a.right - a.left == m.thumb_w && a.bottom - a.top == m.thumb_h,
        (i + 1) % window_preview::columns_for(count) as int != 0 ==> b.top == a.top && b.left
            == a.right + m.gap,
        (i + 1) % window_preview::columns_for(count) as int == 0 ==> b.left == m.pad && b.top
            == a.bottom + m.gap + m.header_h,
{
    let c = window_preview::columns_for(count) as int;
    let row = i / c;
    let col = i % c;
    let w = m.thumb_w + m.gap;
    let h = window_preview::cell_height(m) + m.gap;
    vstd::arithmetic::div_mod::lemma_fundamental_div_mod(i, c);
    vstd::arithmetic::div_mod::lemma_mod_bound(i, c);
    if i == 0 {
        vstd::arithmetic::div_mod::lemma_fundamental_div_mod_converse(0, c, 0, 0);
    }
    assert(0 * w == 0 && 0 * h == 0) by (nonlinear_arith);
    if col + 1 < c {
        assert(i + 1 == c * row + (col + 1));
        vstd::arithmetic::div_mod::lemma_fundamental_div_mod_converse(i + 1, c, row, col + 1);
        assert((col + 1) * w == col * w + w) by (nonlinear_arith);
    } else {
        assert(i + 1 == c * (row + 1) + 0) by (nonlinear_arith)
            requires
                i == c * row + col,
                col + 1 == c,
        ;
        vstd::arithmetic::div_mod::lemma_fundamental_div_mod_converse(i + 1, c, row + 1, 0);
        assert((row + 1) * h == row * h + h) by (nonlinear_arith);
    }
}

/// There are as many lines of cards as are needed, and no more columns than cards.
pub proof fn law_lines_of_cards(count: nat)
    ensures
        ({
            let c = window_preview::columns_for(count);
            let r = window_preview::rows_for(count);
            &&& 1 <= c <= window_preview::MAX_COLUMNS
            &&& 0 < count <= window_preview::MAX_COLUMNS ==> c == count && r == 1
            &&& count > window_preview::MAX_COLUMNS ==> c == window_preview::MAX_COLUMNS
            &&& r * c >= count
            &&& count > 0 ==> (r - 1) * c < count
        }),
{
    let c = window_preview::columns_for(count) as int;
    let n = window_preview::cards_for(count) as int;
    let r = (n + c - 1) / c;
    vstd::arithmetic::div_mod::lemma_fundamental_div_mod(n + c - 1, c);
    vstd::arithmetic::div_mod::lemma_mod_bound(n + c - 1, c);
    let rest = (n + c - 1) % c;
    assert(r >= 0) by (nonlinear_arith)
        requires
            c * r + rest == n + c - 1,
            0 <= rest < c,
            n >= 1,
    ;
    assert(r * c == c * r && (r - 1) * c == c * r - c) by (nonlinear_arith);
    if 0 < count <= window_preview::MAX_COLUMNS {
        vstd::arithmetic::div_mod::lemma_fundamental_div_mod_converse(n + c - 1, c, 1, c - 1);
    }
}

/// A length on the screen is the nearest to what it is at the normal density.
pub proof fn law_nearest_length(length: int, dots: int)
    ensures
        ({
            let r = window_preview::at_density(length, dots);
            -96 <= 192 * r - 2 * (length * dots) <= 96
        }),
{
}

/// The button that closes a window is at the right of its card, in the middle of the strip
/// above the picture.
pub proof fn law_close_place(item: ScreenRect, m: PreviewMetrics)
    requires
        window_preview::sound(m),
        window_preview::on_card(item, m),
    ensures
        ({
            let b = window_preview::close_of(item, m);
            let above = b.top - (item.top - m.header_h);
            let below = item.top - b.bottom;
            &&& b.right + m.close_margin == item.right
            &&& b.right - b.left == m.close_d && b.bottom - b.top == m.close_d
            &&& above == below || below == above + 1
            &&& window_preview::card_of(item, m).bottom == item.bottom
            &&& window_preview::card_of(item, m).top + m.header_h == item.top
            &&& window_preview::title_of(item, m).left == item.left + m.title_inset
            &&& window_preview::title_of(item, m).right + m.title_gap == b.left
        }),
{
}

/// The card under the pointer is the first that it is on, and none where it is on none; and
/// so with the buttons.
pub proof fn law_hit(items: Seq<ScreenRect>, m: PreviewMetrics, close: bool, x: int, y: int)
    requires
        items.len() <= usize::MAX,
    ensures
        match window_preview::hit(items, m, close, x, y) {
            Some(i) => i < items.len() && touched(items[i as int], m, close, x, y) && forall|j: int|
                0 <= j < i ==> !touched(#[trigger] items[j], m, close, x, y),
            None => forall|j: int|
                0 <= j < items.len() ==> !touched(#[trigger] items[j], m, close, x, y),
        },
    decreases items.len(),
{
    if items.len() > 0 {
        let f = items.drop_last();
        law_hit(f, m, close, x, y);
        assert(forall|j: int| 0 <= j < f.len() ==> f[j] == items[j]);
        assert(items.last() == items[items.len() - 1]);
        match window_preview::hit(f, m, close, x, y) {
            Some(i) => {
                assert forall|j: int| 0 <= j < i implies !touched(
                    #[trigger] items[j],
                    m,
                    close,
                    x,
                    y,
                ) by {
                    assert(!touched(f[j], m, close, x, y));
                }
            },
            None => {
                assert forall|j: int| 0 <= j < f.len() implies !touched(
                    #[trigger] items[j],
                    m,
                    close,
                    x,
                    y,
                ) by {
                    assert(!touched(f[j], m, close, x, y));
                }
            },
        }
    }
}

/// The pointer is on a card, or on its button.
pub open spec fn touched(item: ScreenRect, m: PreviewMetrics, close: bool, x: int, y: int) -> bool {
    let r = if close {
        window_preview::close_of(item, m)
    } else {
        window_preview::card_of(item, m)
    };
    r.left <= x <= r.right && r.top <= y <= r.bottom
}

/// What is kept between two bounds stays where it is inside them, and goes no farther than
/// the nearer one.
pub proof fn law_kept(x: int, low: int, high: int)
    requires
        low <= high,
    ensures
        low <= window_preview::kept(x, low, high) <= high,
        low <= x <= high ==> window_preview::kept(x, low, high) == x,
        x <= low ==> window_preview::kept(x, low, high) == low,
        x >= high ==> window_preview::kept(x, low, high) == high,
{
}

/// The settings that two agree on but for the dock's, or the taskbar's, or one of the rest.
pub open spec fn same_but(a: Settings, b: Settings, dock: bool, taskbar: bool, other: bool) -> bool {
    &&& !dock ==> a.dock_mode == b.dock_mode
    &&& !taskbar ==> a.taskbar_mode == b.taskbar_mode
    &&& !other ==> a.hide_on_fullscreen == b.hide_on_fullscreen && a.hide_on_maximized
        == b.hide_on_maximized && a.drawer_enabled == b.drawer_enabled && a.hide_desktop_icons
        == b.hide_desktop_icons && a.theme == b.theme
}

/// Of the choices for the taskbar the one that was made is made and shown as such, the bar
/// follows, and nothing else changes.
pub proof fn law_taskbar_choice(
    s: Settings,
    k: int,
    code: usize,
    checked: bool,
    selection: Option<usize>,
    pins: Seq<usize>,
    autostart: bool,
)
    requires
        0 <= k < 3,
    ensures
        ({
            let id = settings_window::checks_of(s, autostart)[k].0;
            let r = settings_window::changed(s, id, code, checked, selection);
            let shown = settings_window::checks_of(r, autostart);
            let todo = settings_window::steps(id, code, checked, selection, pins);
            &&& forall|j: int| 0 <= j < 3 ==> ((#[trigger] shown[j]).1 <==> j == k)
            &&& forall|j: int|
                3 <= j < shown.len() ==> #[trigger] shown[j] == settings_window::checks_of(
                    s,
                    autostart,
                )[j]
            &&& same_but(r, s, false, true, false)
            &&& todo[0] == SettingsStep::SelectTaskbar(k as usize)
            &&& todo[1] == SettingsStep::ApplyTaskbar(r.taskbar_mode)
            &&& k == 0 ==> r.taskbar_mode == TaskbarMode::Show
            &&& k == 2 ==> r.taskbar_mode == TaskbarMode::Hidden
        }),
{
}

/// Of the choices for the dock the one that was made is made and shown as such, and nothing
/// else changes.
pub proof fn law_dock_choice(
    s: Settings,
    k: int,
    code: usize,
    checked: bool,
    selection: Option<usize>,
    pins: Seq<usize>,
    autostart: bool,
)
    requires
        3 <= k < 5,
    ensures
        ({
            let id = settings_window::checks_of(s, autostart)[k].0;
            let r = settings_window::changed(s, id, code, checked, selection);
            let shown = settings_window::checks_of(r, autostart);
            let todo = settings_window::steps(id, code, checked, selection, pins);
            &&& forall|j: int| 3 <= j < 5 ==> ((#[trigger] shown[j]).1 <==> j == k)
            &&& same_but(r, s, true, false, false)
            &&& todo[0] == SettingsStep::SelectDock((k - 3) as usize)
            &&& k == 3 ==> r.dock_mode == DockMode::Always
        }),
{
}

/// A box that was ticked is ticked, one that was not is not, and no other box changes.
pub proof fn law_box(
    s: Settings,
    k: int,
    code: usize,
    checked: bool,
    selection: Option<usize>,
    autostart: bool,
)
    requires
        5 <= k < 9,
    ensures
        ({
            let was = settings_window::checks_of(s, autostart);
            let r = settings_window::changed(s, was[k].0, code, checked, selection);
            let shown = settings_window::checks_of(r, autostart);
            &&& shown[k].1 == checked
            &&& forall|j: int| 0 <= j < shown.len() && j != k ==> #[trigger] shown[j] == was[j]
            &&& r.theme == s.theme
        }),
{
}

/// The boxes show what the settings are.
pub proof fn law_boxes_show(s: Settings, autostart: bool)
    ensures
        ({
            let c = settings_window::checks_of(s, autostart);
            &&& c.len() == 10
            &&& c.contains((settings_window::ID_FULLSCREEN, s.hide_on_fullscreen))
            &&& c.contains((settings_window::ID_MAXIMIZED, s.hide_on_maximized))
            &&& c.contains((settings_window::ID_DRAWER_ENABLED, s.drawer_enabled))
            &&& c.contains((settings_window::ID_HIDE_DESKTOP_ICONS, s.hide_desktop_icons))
            &&& c.contains((settings_window::ID_AUTOSTART, autostart))
        }),
{
    let c = settings_window::checks_of(s, autostart);
    assert(c[5] == (settings_window::ID_FULLSCREEN, s.hide_on_fullscreen));
    assert(c[6] == (settings_window::ID_MAXIMIZED, s.hide_on_maximized));
    assert(c[7] == (settings_window::ID_DRAWER_ENABLED, s.drawer_enabled));
    assert(c[8] == (settings_window::ID_HIDE_DESKTOP_ICONS, s.hide_desktop_icons));
    assert(c[9] == (settings_window::ID_AUTOSTART, autostart));
}

/// A theme that was picked from the list is the theme, and nothing else changes; without a
/// pick nothing does.
pub proof fn law_theme_picked(s: Settings, i: usize, code: usize, checked: bool)
    ensures
        i < theme::presets().len() ==> settings_window::changed(
            s,
            settings_window::ID_THEME,
            settings_window::CODE_SELECTED,
            checked,
            Some(i),
        ) == (Settings { theme: theme::presets()[i as int], ..s }),
        settings_window::changed(s, settings_window::ID_THEME, code, checked, None) == s,
        code != settings_window::CODE_SELECTED ==> settings_window::changed(
            s,
            settings_window::ID_THEME,
            code,
            checked,
            Some(i),
        ) == s,
{
}

/// The icons of the desktop follow the box, starting with the system follows its own, and
/// the pinned item that was picked is the one that goes.
pub proof fn law_steps_follow(code: usize, checked: bool, selection: Option<usize>, pins: Seq<usize>)
    ensures
        settings_window::steps(
            settings_window::ID_HIDE_DESKTOP_ICONS,
            code,
            checked,
            selection,
            pins,
        )[0] == SettingsStep::DesktopIcons(checked),
        settings_window::steps(settings_window::ID_AUTOSTART, code, checked, selection, pins)
            == seq![SettingsStep::SetAutostart(checked)],
        selection is Some && selection->0 < pins.len() ==> settings_window::steps(
            settings_window::ID_PIN_REMOVE,
            code,
            checked,
            selection,
            pins,
        ) == seq![SettingsStep::RemovePin(pins[selection->0 as int])],
        !(selection is Some && selection->0 < pins.len()) ==> settings_window::steps(
            settings_window::ID_PIN_REMOVE,
            code,
            checked,
            selection,
            pins,
        ).len() == 0,
        settings_window::steps(settings_window::ID_DRAWER_ENABLED, code, checked, selection, pins)
            .contains(SettingsStep::NotifyPins),
{
    let d = settings_window::steps(
        settings_window::ID_DRAWER_ENABLED,
        code,
        checked,
        selection,
        pins,
    );
    assert(d[1] == SettingsStep::NotifyPins);
}

/// Every pinned item that leads somewhere has a row, under its own label where it has one.
pub proof fn law_pinned_rows(specs: Seq<config::ItemView>, app_paths: Seq<Option<Seq<char>>>, i: int)
    requires
        specs.len() == app_paths.len(),
        0 <= i < specs.len(),
    ensures
        apps::resolved_of(specs[i], app_paths[i]) is Some <==> has_row(
            settings_window::rows_of(specs, app_paths),
            i,
        ),
        forall|k: int|
            0 <= k < settings_window::rows_of(specs, app_paths).len() && (
            #[trigger] settings_window::rows_of(specs, app_paths)[k]).0 == i && specs[i].label
                is Some ==> settings_window::rows_of(specs, app_paths)[k].1 == specs[i].label->0,
    decreases specs.len(),
{
    let fs = specs.drop_last();
    let fa = app_paths.drop_last();
    let front = settings_window::rows_of(fs, fa);
    let r = settings_window::rows_of(specs, app_paths);
    settings_window::law_rows_in_order(fs, fa);
    if i < fs.len() {
        law_pinned_rows(fs, fa, i);
        if has_row(front, i) {
            let k = choose|k: int| 0 <= k < front.len() && (#[trigger] front[k]).0 == i;
            assert(r[k] == front[k]);
        }
        if has_row(r, i) {
            let k = choose|k: int| 0 <= k < r.len() && (#[trigger] r[k]).0 == i;
            assert(r[k] == front[k]);
        }
        assert forall|k: int| 0 <= k < r.len() && (#[trigger] r[k]).0 == i && specs[i].label
            is Some implies r[k].1 == specs[i].label->0 by {
            assert(r[k] == front[k]);
        }
    } else {
        assert forall|k: int| 0 <= k < front.len() implies (#[trigger] r[k]).0 != i by {
            assert(r[k] == front[k]);
        }
        if apps::resolved_of(specs[i], app_paths[i]) is Some {
            assert(r[front.len() as int].0 == i);
        }
    }
}

/// One of the rows stands for the item at this place.
pub open spec fn has_row(rows: Seq<(int, Seq<char>)>, i: int) -> bool {
    exists|k: int| 0 <= k < rows.len() && (#[trigger] rows[k]).0 == i
}

/// An item shows the icon that was chosen for it, or that of what it opens; an open window
/// shows its own.
pub proof fn law_icon_shown(item: DockItem)
    ensures
        item.role == ItemRole::Pinned && item.icon is Some ==> (icons::plan_of(item)
            matches IconPlanView::File { path, kind } && path == item.icon->0@),
        item.role == ItemRole::Pinned && item.icon is None && item.path is Some ==> (
        icons::plan_of(item) matches IconPlanView::File { path, kind } && path == item.path->0@
            && kind == Some(item.kind)),
        item.role == ItemRole::Running && item.hwnd is Some ==> icons::plan_of(item)
            == IconPlanView::Window(item.hwnd->0),
        item.role != ItemRole::Running && item.role != ItemRole::Pinned ==> icons::plan_of(item)
            is Nothing,
{
}

/// An icon is loaded for every slot that does not take over one.
pub proof fn law_icons_loaded(remap: Seq<Option<usize>>, old_count: nat, i: int)
    requires
        0 <= i < remap.len(),
    ensures
        icons::needs_icon(remap, old_count).len() == remap.len(),
        remap[i] is None ==> icons::needs_icon(remap, old_count)[i],
        remap[i] is Some && remap[i]->0 < old_count ==> !icons::needs_icon(remap, old_count)[i],
        remap[i] is Some && remap[i]->0 >= old_count ==> icons::needs_icon(remap, old_count)[i],
{
}

/// A picture that is small enough is loaded as it is; a larger one is made to fit, with one
/// of its sides as long as can be.
pub proof fn law_loaded_size(w: int, h: int, size: int)
    requires
        0 < w,
        0 < h,
        0 < size,
    ensures
        ({
            let (lw, lh) = fitting::loaded_size(w, h, size);
            &&& 0 < lw <= size && 0 < lh <= size
            &&& w <= size && h <= size ==> lw == w && lh == h
            &&& w > size || h > size ==> lw == size || lh == size
            &&& w > size && w >= h ==> lw == size
            &&& h > size && h >= w ==> lh == size
        }),
{
    fitting::lemma_fitted_size(size, size, w, h, true);
    if w >= h {
        assert(size * h <= size * w) by (nonlinear_arith)
            requires
                h <= w,
                size > 0,
        ;
    }
    if h > w {
        assert(size * h > size * w) by (nonlinear_arith)
            requires
                h > w,
                size > 0,
        ;
    }
    if w == h {
        assert(2 * (h * size) + w == (2 * w) * size + w) by (nonlinear_arith)
            requires
                w == h,
        ;
        vstd::arithmetic::div_mod::lemma_fundamental_div_mod_converse(
            2 * (h * size) + w,
            2 * w,
            size,
            w,
        );
    }
}

/// A length on the screen is rounded up.
pub proof fn law_rounded_up(n: int, dots: int)
    ensures
        ({
            let r = row_layout::rounded_up(n, dots);
            n * dots <= 96 * r && 96 * (r - 1) < n * dots
        }),
{
}

/// The pointer is in an icon where it is no farther from its middle than half its width, and
/// no higher than the icon.
pub proof fn law_in_icon(place: int, width: int, bottom: int, x: int, y: int)
    ensures
        row_layout::in_icon(place, width, bottom, x, y) ==> -width <= x - place <= width && y
            <= bottom,
        width >= 0 ==> row_layout::in_icon(place, width, bottom, place, bottom),
        row_layout::in_icon(place, width, bottom, x, y) <==> row_layout::in_icon(
            place,
            width,
            bottom,
            2 * place - x,
            y,
        ),
        y < bottom - width || y > bottom ==> !row_layout::in_icon(place, width, bottom, x, y),
        row_layout::in_icon(place, width, bottom, x, y) <== -width <= x - place <= width && 0
            <= bottom - y <= width,
{
}

/// A card stands for the window at its place.
pub proof fn law_card_window(windows: Seq<RunningWindowRef>, i: usize)
    ensures
        i < windows.len() ==> window_preview::handle_at(windows, i) == Some(windows[i as int].hwnd),
        i >= windows.len() ==> window_preview::handle_at(windows, i) is None,
{
}

/// The line for the windows without a card takes its own room below the cards.
pub proof fn law_footer(count: nat, overflow: nat, m: PreviewMetrics)
    ensures
        overflow > 0 ==> window_preview::height_for(count, overflow, m)
            == window_preview::height_for(count, 0, m) + m.footer_h,
        overflow == 0 ==> window_preview::height_for(count, overflow, m)
            == window_preview::height_for(count, 0, m),
{
}

/// While the dock is hidden only a strip at the edge of the screen takes the mouse, as wide
/// as while it is shown.
pub proof fn law_hidden_zone(items: Seq<DockItem>, size: (u32, u32), dots: int)
    requires
        0 < dots <= 0x1_0000,
    ensures
        ({
            let z = row_layout::zone_of(items, size, dots, false);
            let s = row_layout::zone_of(items, size, dots, true);
            &&& z.bottom == size.1 * row_layout::ZONE_UNITS
            &&& z.bottom - z.top == 2 * (row_layout::TRIGGER_PX * dots)
            &&& z.left == s.left && z.right == s.right && z.bottom == s.bottom
        }),
{
    assert(0 <= row_layout::TRIGGER_PX * dots <= 0x10_0000) by (nonlinear_arith)
        requires
            0 < dots <= 0x1_0000,
            row_layout::TRIGGER_PX == 4,
    ;
}

} // verus!
