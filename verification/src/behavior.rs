//! How the window of the dock behaves: what follows from pointer, timers, settings and
//! the windows in front. While a full-screen application is in front the dock stays
//! passive, so that it never takes such an application off the screen.

use vstd::prelude::*;
use crate::content::ContentKind;
use crate::dock::ItemRole;
use crate::settings::{DockMode, Settings, TaskbarMode};
use crate::taskbar;
use crate::text;
use crate::watchdog::WatchdogArgs;
use crate::windows_list::{Change, ScreenRect};

verus! {

/// What the window of the dock remembers.
#[derive(Clone, Copy, Debug, PartialEq, Eq, Structural)]
pub struct DockState {
    pub settings: Settings,
    /// A full-screen application is in front.
    pub fullscreen_active: bool,
    /// A maximized window is in front.
    pub maximized_active: bool,
    pub animating: bool,
    /// The system reports when the pointer leaves.
    pub tracking: bool,
    /// The pointer is over the dock.
    pub hovering: bool,
    /// Whether the dock eases into sight, or out of it.
    pub revealing: bool,
    /// The window has its whole size, or that of the strip at the edge.
    pub expanded: bool,
    /// The window is off the screen altogether.
    pub window_hidden: bool,
    /// The whole window takes input, or the visible part alone.
    pub region_full: bool,
    /// The window is to be fitted once the row is at rest.
    pub pending_relayout: bool,
    /// The row is to be rebuilt once no full-screen application is in front.
    pub pending_rebuild: bool,
    /// The user has brought the taskbar back for a while.
    pub taskbar_invoked: bool,
}

/// One thing done to the system.
#[derive(Clone, Copy, Debug, PartialEq, Eq, Structural)]
pub enum Effect {
    /// Show the window without activating it.
    ShowWindow,
    HideWindow,
    /// Give the window its whole size.
    Expand,
    /// Give the window the size of the strip.
    Collapse,
    /// Let the whole window take input.
    RegionFull,
    /// Let the visible part alone take input.
    RegionPill,
    /// Show the preview of what is under the pointer, or none.
    UpdatePreview,
    HidePreview,
    /// Ask the system to report when the pointer leaves.
    TrackLeave,
    RestoreTray,
    /// Hide the taskbar and maximize windows anew.
    EnterHidden,
    ReassertHidden,
    ReflowMaximized,
    /// Scan the windows and rebuild the row.
    Rebuild,
    /// Rebuild the row from the windows that were just scanned.
    RebuildScanned,
    /// Fit the window to the row.
    Relayout,
    ArmScanTimer,
    StopScanTimer,
    StopRehideTimer,
    Rehide,
    /// Put the dock on top of all windows.
    RaiseDock,
    DesktopIcons(bool),
    ReconcileWatchdog,
}

/// The part of the window that takes the pointer.
#[derive(Clone, Copy, Debug, PartialEq, Eq, Structural)]
pub enum HitZone {
    Nothing,
    /// The visible part, or where icons grow to while the pointer is there.
    Dock,
    /// The strip at the edge.
    Strip,
}

/// The dock yields to a full-screen application.
pub open spec fn suppressed(s: DockState) -> bool {
    s.settings.hide_on_fullscreen && s.fullscreen_active
}

/// The dock yields to a maximized window.
pub open spec fn retracted(s: DockState) -> bool {
    s.settings.hide_on_maximized && s.maximized_active
}

/// Whether the dock is in sight without the pointer over it.
pub open spec fn rests_shown(s: DockState) -> bool {
    !(s.settings.dock_mode == DockMode::AutoHide || suppressed(s) || retracted(s))
}

/// The taskbar is to be hidden and the user has not brought it back.
pub open spec fn holds_hidden(s: DockState) -> bool {
    s.settings.taskbar_mode == TaskbarMode::Hidden && !s.taskbar_invoked
}

pub fn fullscreen_suppressed(s: &DockState) -> (r: bool)
    ensures
        r == suppressed(*s),
{
    s.settings.hide_on_fullscreen && s.fullscreen_active
}

pub fn maximized_retracted(s: &DockState) -> (r: bool)
    ensures
        r == retracted(*s),
{
    s.settings.hide_on_maximized && s.maximized_active
}

/// Whether the dock is in sight without the pointer over it: not in auto-hide mode, nor
/// while it yields to the window in front.
pub fn resting_target(s: &DockState) -> (r: bool)
    ensures
        r == rests_shown(*s),
{
    !(s.settings.dock_mode == DockMode::AutoHide || fullscreen_suppressed(s)
        || maximized_retracted(s))
}

fn taskbar_held_hidden(s: &DockState) -> (r: bool)
    ensures
        r == holds_hidden(*s),
{
    s.settings.taskbar_mode == TaskbarMode::Hidden && !s.taskbar_invoked
}

/// The state at the start, before anything is shown.
pub open spec fn initial(settings: Settings, fullscreen: bool, maximized: bool) -> DockState {
    let s = DockState {
        settings,
        fullscreen_active: fullscreen,
        maximized_active: maximized,
        animating: true,
        tracking: false,
        hovering: false,
        revealing: true,
        expanded: true,
        window_hidden: false,
        region_full: true,
        pending_relayout: false,
        pending_rebuild: false,
        taskbar_invoked: false,
    };
    DockState { revealing: rests_shown(s), window_hidden: suppressed(s), ..s }
}

/// The state at the start, and whether the window is shown: not over a full-screen
/// application.
pub fn start(settings: Settings, fullscreen: bool, maximized: bool) -> (r: DockState)
    ensures
        r == initial(settings, fullscreen, maximized),
{
    let mut s = DockState {
        settings,
        fullscreen_active: fullscreen,
        maximized_active: maximized,
        animating: true,
        tracking: false,
        hovering: false,
        revealing: true,
        expanded: true,
        window_hidden: false,
        region_full: true,
        pending_relayout: false,
        pending_rebuild: false,
        taskbar_invoked: false,
    };
    s.revealing = resting_target(&s);
    s.window_hidden = fullscreen_suppressed(&s);
    s
}

/// What follows when the system's shell starts anew: the icon in the tray comes back,
/// and the taskbar is hidden again.
pub fn on_taskbar_created(s: &DockState) -> (r: Vec<Effect>)
    ensures
        r@ == (if holds_hidden(*s) {
            seq![Effect::RestoreTray, Effect::EnterHidden]
        } else {
            seq![Effect::RestoreTray]
        }),
{
    let mut out: Vec<Effect> = Vec::new();
    out.push(Effect::RestoreTray);
    if taskbar_held_hidden(s) {
        out.push(Effect::EnterHidden);
        assert(out@ =~= seq![Effect::RestoreTray, Effect::EnterHidden]);
    } else {
        assert(out@ =~= seq![Effect::RestoreTray]);
    }
    out
}

/// What a move of the pointer over the dock brings about.
pub open spec fn moved_effects(s: DockState) -> Seq<Effect> {
    if suppressed(s) {
        seq![]
    } else {
        (if s.region_full {
            seq![]
        } else {
            seq![Effect::RegionFull]
        }) + (if s.expanded {
            seq![]
        } else {
            seq![Effect::Expand]
        }) + seq![Effect::UpdatePreview] + (if s.tracking {
            seq![]
        } else {
            seq![Effect::TrackLeave]
        })
    }
}

pub open spec fn moved_state(s: DockState) -> DockState {
    if suppressed(s) {
        s
    } else {
        DockState {
            region_full: true,
            hovering: true,
            revealing: true,
            animating: true,
            tracking: true,
            ..s
        }
    }
}

/// The pointer moves over the dock: the dock comes into sight, unless it yields to a
/// full-screen application.
pub fn on_mouse_move(s: &mut DockState) -> (r: Vec<Effect>)
    ensures
        *final(s) == moved_state(*old(s)),
        r@ == moved_effects(*old(s)),
{
    let ghost was = *s;
    let mut out: Vec<Effect> = Vec::new();
    if fullscreen_suppressed(s) {
        assert(out@ =~= seq![]);
        return out;
    }
    if !s.region_full {
        out.push(Effect::RegionFull);
        s.region_full = true;
    }
    if !s.expanded {
        out.push(Effect::Expand);
    }
    s.hovering = true;
    s.revealing = true;
    s.animating = true;
    out.push(Effect::UpdatePreview);
    if !s.tracking {
        out.push(Effect::TrackLeave);
        s.tracking = true;
    }
    assert(out@ =~= moved_effects(was));
    out
}

/// The window has been given its whole size, or that of the strip.
pub fn on_resized(s: &mut DockState, expanded: bool)
    ensures
        *final(s) == (DockState { expanded, ..*old(s) }),
{
    s.expanded = expanded;
}

/// The pointer leaves the dock: the dock goes to rest, unless the pointer is over the
/// preview.
pub fn on_mouse_leave(s: &mut DockState, over_preview: bool) -> (r: Vec<Effect>)
    ensures
        *final(s) == (DockState {
            hovering: false,
            revealing: over_preview || rests_shown(*old(s)),
            animating: true,
            tracking: false,
            ..*old(s)
        }),
        r@ == (if over_preview {
            seq![]
        } else {
            seq![Effect::HidePreview]
        }),
{
    let mut out: Vec<Effect> = Vec::new();
    s.hovering = false;
    if !over_preview {
        out.push(Effect::HidePreview);
        assert(out@ =~= seq![Effect::HidePreview]);
    } else {
        assert(out@ =~= seq![]);
    }
    s.revealing = over_preview || resting_target(s);
    s.animating = true;
    s.tracking = false;
    out
}

/// The part of the window that takes the pointer: none while the dock yields to a
/// full-screen application.
pub fn hit_zone(s: &DockState) -> (r: HitZone)
    ensures
        r == (if suppressed(*s) {
            HitZone::Nothing
        } else if s.expanded {
            HitZone::Dock
        } else {
            HitZone::Strip
        }),
{
    if fullscreen_suppressed(s) {
        HitZone::Nothing
    } else if s.expanded {
        HitZone::Dock
    } else {
        HitZone::Strip
    }
}

/// Another start of the program brings this one into sight.
pub fn on_show_existing(s: &mut DockState) -> (r: Vec<Effect>)
    ensures
        *final(s) == (DockState {
            window_hidden: false,
            revealing: true,
            animating: true,
            ..*old(s)
        }),
        r@ == (if old(s).window_hidden {
            seq![Effect::ShowWindow]
        } else {
            seq![]
        }) + (if old(s).expanded {
            seq![]
        } else {
            seq![Effect::Expand]
        }) + seq![Effect::RaiseDock],
        !final(s).window_hidden && final(s).revealing && final(s).animating,
        r@.contains(Effect::ShowWindow) <==> old(s).window_hidden,
        r@.contains(Effect::Expand) <==> !old(s).expanded,
        r@.last() == Effect::RaiseDock,
{
    let ghost was = *s;
    let mut out: Vec<Effect> = Vec::new();
    if s.window_hidden {
        out.push(Effect::ShowWindow);
        s.window_hidden = false;
    }
    if !s.expanded {
        out.push(Effect::Expand);
    }
    s.revealing = true;
    s.animating = true;
    out.push(Effect::RaiseDock);
    assert(out@ =~= (if was.window_hidden {
        seq![Effect::ShowWindow]
    } else {
        seq![]
    }) + (if was.expanded {
        seq![]
    } else {
        seq![Effect::Expand]
    }) + seq![Effect::RaiseDock]);
    assert(was.window_hidden ==> out@[0] == Effect::ShowWindow);
    assert(!was.expanded ==> out@[out@.len() - 2] == Effect::Expand);
    out
}

/// The state once it is known what is in front.
pub open spec fn fronted(s: DockState, fullscreen: bool, maximized: bool) -> DockState {
    if fullscreen == s.fullscreen_active && maximized == s.maximized_active {
        s
    } else {
        let t = DockState { fullscreen_active: fullscreen, maximized_active: maximized, ..s };
        DockState {
            window_hidden: s.window_hidden && suppressed(t),
            revealing: (s.hovering && !suppressed(t)) || rests_shown(t),
            animating: true,
            ..t
        }
    }
}

pub open spec fn changed_state(s: DockState, fullscreen: bool, maximized: bool) -> DockState {
    let t = fronted(s, fullscreen, maximized);
    DockState { pending_rebuild: t.pending_rebuild && fullscreen, ..t }
}

/// The window comes back on the screen.
pub open spec fn shown_again(s: DockState, t: DockState) -> Seq<Effect> {
    if s.window_hidden && !t.window_hidden {
        seq![Effect::ShowWindow]
    } else {
        seq![]
    }
}

/// What was put off while a full-screen application was in front.
pub open spec fn caught_up(s: DockState, fullscreen: bool) -> Seq<Effect> {
    if s.pending_rebuild && !fullscreen {
        if holds_hidden(s) {
            seq![Effect::Rebuild, Effect::ReassertHidden]
        } else {
            seq![Effect::Rebuild]
        }
    } else {
        seq![]
    }
}

pub open spec fn changed_effects(
    s: DockState,
    change: Change,
    fullscreen: bool,
    maximized: bool,
) -> Seq<Effect> {
    shown_again(s, fronted(s, fullscreen, maximized)) + caught_up(s, fullscreen) + (if change
        == Change::Windows {
        seq![Effect::ArmScanTimer]
    } else {
        seq![]
    })
}

/// Takes up what is in front.
fn front(s: &mut DockState, fullscreen: bool, maximized: bool) -> (r: Vec<Effect>)
    ensures
        *final(s) == fronted(*old(s), fullscreen, maximized),
        r@ == shown_again(*old(s), *final(s)),
{
    let ghost was = *s;
    let mut out: Vec<Effect> = Vec::new();
    if fullscreen == s.fullscreen_active && maximized == s.maximized_active {
        assert(out@ =~= shown_again(was, *s));
        return out;
    }
    let t: DockState = DockState {
        fullscreen_active: fullscreen,
        maximized_active: maximized,
        ..*s
    };
    let yields: bool = fullscreen_suppressed(&t);
    let rests: bool = resting_target(&t);
    if t.window_hidden && !yields {
        out.push(Effect::ShowWindow);
    }
    *s = DockState {
        window_hidden: t.window_hidden && yields,
        revealing: (t.hovering && !yields) || rests,
        animating: true,
        ..t
    };
    assert(out@ =~= shown_again(was, *s));
    out
}

/// Windows have come or gone, or another is in front. What was put off while a
/// full-screen application was in front is done once it is not.
pub fn on_windows_changed(s: &mut DockState, change: Change, fullscreen: bool, maximized: bool) -> (r:
    Vec<Effect>)
    ensures
        *final(s) == changed_state(*old(s), fullscreen, maximized),
        r@ == changed_effects(*old(s), change, fullscreen, maximized),
{
    let was: DockState = *s;
    let due: bool = was.pending_rebuild && !fullscreen;
    let held: bool = taskbar_held_hidden(&was);
    let mut out: Vec<Effect> = front(s, fullscreen, maximized);
    let t: DockState = *s;
    if due {
        out.push(Effect::Rebuild);
        if held {
            out.push(Effect::ReassertHidden);
        }
    }
    assert(out@ =~= shown_again(was, t) + caught_up(was, fullscreen));
    if change == Change::Windows {
        out.push(Effect::ArmScanTimer);
    }
    assert(out@ =~= changed_effects(was, change, fullscreen, maximized));
    *s = DockState { pending_rebuild: t.pending_rebuild && fullscreen, ..t };
    out
}

pub open spec fn scan_effects(differs: bool, fullscreen: bool) -> Seq<Effect> {
    if differs && !fullscreen {
        seq![Effect::StopScanTimer, Effect::RebuildScanned]
    } else {
        seq![Effect::StopScanTimer]
    }
}

/// The windows have been scanned: if they differ from before, the row is rebuilt, or that
/// is put off while a full-screen application is in front.
pub fn on_scan(s: &mut DockState, differs: bool, fullscreen: bool) -> (r: Vec<Effect>)
    ensures
        *final(s) == (if differs && fullscreen {
            DockState { pending_rebuild: true, ..*old(s) }
        } else {
            *old(s)
        }),
        r@ == scan_effects(differs, fullscreen),
{
    let mut out: Vec<Effect> = Vec::new();
    out.push(Effect::StopScanTimer);
    if differs {
        if fullscreen {
            s.pending_rebuild = true;
            assert(out@ =~= seq![Effect::StopScanTimer]);
        } else {
            out.push(Effect::RebuildScanned);
            assert(out@ =~= seq![Effect::StopScanTimer, Effect::RebuildScanned]);
        }
    } else {
        assert(out@ =~= seq![Effect::StopScanTimer]);
    }
    out
}

/// The row is about to be rebuilt: the preview goes, and the whole window takes input, so
/// that nothing is cut off while icons come and go.
pub fn on_rebuilding(s: &mut DockState) -> (r: Vec<Effect>)
    ensures
        *final(s) == (DockState { region_full: true, ..*old(s) }),
        r@ == seq![Effect::HidePreview] + regioned(*old(s), true),
{
    let ghost was = *s;
    let mut out: Vec<Effect> = Vec::new();
    out.push(Effect::HidePreview);
    if !s.region_full {
        s.region_full = true;
        out.push(Effect::RegionFull);
    }
    assert(out@ =~= seq![Effect::HidePreview] + regioned(was, true));
    out
}

/// The row has been rebuilt.
pub fn on_rebuilt(s: &mut DockState)
    ensures
        *final(s) == (DockState {
            region_full: true,
            revealing: rests_shown(*old(s)),
            expanded: true,
            pending_relayout: true,
            animating: true,
            ..*old(s)
        }),
{
    s.region_full = true;
    s.revealing = resting_target(s);
    s.expanded = true;
    s.pending_relayout = true;
    s.animating = true;
}

/// It is time to see whether the taskbar that the user brought back is hidden again.
pub fn on_rehide_timer(s: &mut DockState, grace_elapsed: bool, pointer_over: bool) -> (r: Vec<
    Effect,
>)
    ensures
        ({
            let hides = old(s).settings.taskbar_mode == TaskbarMode::Hidden && grace_elapsed
                && !pointer_over;
            let ends = old(s).settings.taskbar_mode != TaskbarMode::Hidden;
            if !old(s).taskbar_invoked {
                *final(s) == *old(s) && r@ == seq![Effect::StopRehideTimer]
            } else if hides {
                *final(s) == (DockState { taskbar_invoked: false, ..*old(s) }) && r@ == seq![
                    Effect::StopRehideTimer,
                    Effect::Rehide,
                    Effect::RaiseDock,
                ]
            } else if ends {
                *final(s) == (DockState { taskbar_invoked: false, ..*old(s) }) && r@ == seq![
                    Effect::StopRehideTimer,
                    Effect::RaiseDock,
                ]
            } else {
                *final(s) == *old(s) && r@ == Seq::<Effect>::empty()
            }
        }),
        final(s).taskbar_invoked <==> old(s).taskbar_invoked && old(s).settings.taskbar_mode
            == TaskbarMode::Hidden && (!grace_elapsed || pointer_over),
        r@.contains(Effect::Rehide) <==> old(s).taskbar_invoked && grace_elapsed && !pointer_over
            && old(s).settings.taskbar_mode == TaskbarMode::Hidden,
        r@.contains(Effect::StopRehideTimer) <==> !final(s).taskbar_invoked,
{
    let mut out: Vec<Effect> = Vec::new();
    if s.taskbar_invoked {
        if taskbar::should_rehide_after_start_invocation(
            s.settings.taskbar_mode,
            grace_elapsed,
            pointer_over,
        ) {
            out.push(Effect::StopRehideTimer);
            s.taskbar_invoked = false;
            out.push(Effect::Rehide);
            out.push(Effect::RaiseDock);
            assert(out@ =~= seq![Effect::StopRehideTimer, Effect::Rehide, Effect::RaiseDock]);
        } else if s.settings.taskbar_mode != TaskbarMode::Hidden {
            out.push(Effect::StopRehideTimer);
            s.taskbar_invoked = false;
            out.push(Effect::RaiseDock);
            assert(out@ =~= seq![Effect::StopRehideTimer, Effect::RaiseDock]);
        } else {
            assert(out@ =~= seq![]);
        }
    } else {
        out.push(Effect::StopRehideTimer);
        assert(out@ =~= seq![Effect::StopRehideTimer]);
    }
    assert(out@.len() > 0 ==> out@[0] == Effect::StopRehideTimer);
    out
}

pub open spec fn resettled(s: DockState, settings: Settings) -> DockState {
    let t = DockState { settings, ..s };
    DockState { revealing: s.hovering || rests_shown(t), animating: true, ..t }
}

/// Takes up settings and goes where they say.
fn settle(s: &mut DockState, settings: Settings)
    ensures
        *final(s) == resettled(*old(s), settings),
{
    s.settings = settings;
    s.revealing = s.hovering || resting_target(s);
    s.animating = true;
}

/// The settings have changed.
pub fn on_settings_changed(s: &mut DockState, settings: Settings) -> (r: Vec<Effect>)
    ensures
        *final(s) == resettled(*old(s), settings),
        r@ == (if settings.taskbar_mode == TaskbarMode::Hidden && !old(s).taskbar_invoked {
            seq![Effect::EnterHidden]
        } else {
            seq![]
        }) + seq![Effect::DesktopIcons(settings.hide_desktop_icons), Effect::ReconcileWatchdog],
{
    let mut out: Vec<Effect> = Vec::new();
    s.settings = settings;
    if taskbar_held_hidden(s) {
        out.push(Effect::EnterHidden);
    }
    out.push(Effect::DesktopIcons(settings.hide_desktop_icons));
    out.push(Effect::ReconcileWatchdog);
    s.revealing = s.hovering || resting_target(s);
    s.animating = true;
    assert(out@ =~= (if settings.taskbar_mode == TaskbarMode::Hidden && !old(s).taskbar_invoked {
        seq![Effect::EnterHidden]
    } else {
        seq![]
    }) + seq![Effect::DesktopIcons(settings.hide_desktop_icons), Effect::ReconcileWatchdog]);
    out
}

/// The preview has been closed: the dock goes to rest, unless the pointer is over it.
pub fn on_preview_closed(s: &mut DockState)
    ensures
        *final(s) == (if old(s).hovering {
            *old(s)
        } else {
            DockState { revealing: rests_shown(*old(s)), animating: true, ..*old(s) }
        }),
{
    if !s.hovering {
        s.revealing = resting_target(s);
        s.animating = true;
    }
}

/// The pinned items have changed.
pub fn on_pins_changed(s: &mut DockState, settings: Settings) -> (r: Vec<Effect>)
    ensures
        *final(s) == (DockState { settings, ..*old(s) }),
        r@ == seq![Effect::Rebuild],
{
    s.settings = settings;
    let mut out: Vec<Effect> = Vec::new();
    out.push(Effect::Rebuild);
    assert(out@ =~= seq![Effect::Rebuild]);
    out
}

pub open spec fn display_effects(s: DockState, resolution: bool, fullscreen: bool) -> Seq<Effect> {
    if fullscreen {
        seq![]
    } else if !holds_hidden(s) {
        seq![Effect::Rebuild]
    } else if resolution {
        seq![Effect::Rebuild, Effect::ReassertHidden, Effect::ReflowMaximized]
    } else {
        seq![Effect::Rebuild, Effect::ReassertHidden]
    }
}

/// The display has changed. Nothing is done while a full-screen application is in front:
/// it may have changed the display itself.
pub fn on_display_changed(s: &mut DockState, resolution: bool, fullscreen: bool) -> (r: Vec<Effect>)
    ensures
        *final(s) == (if fullscreen {
            DockState { pending_rebuild: true, ..*old(s) }
        } else {
            *old(s)
        }),
        r@ == display_effects(*old(s), resolution, fullscreen),
{
    let ghost was = *s;
    let mut out: Vec<Effect> = Vec::new();
    if fullscreen {
        s.pending_rebuild = true;
        assert(out@ =~= seq![]);
        return out;
    }
    out.push(Effect::Rebuild);
    if taskbar_held_hidden(s) {
        out.push(Effect::ReassertHidden);
        if resolution {
            out.push(Effect::ReflowMaximized);
        }
    }
    assert(out@ =~= display_effects(was, resolution, fullscreen));
    out
}

/// The settings with the other of the two modes of the dock.
pub open spec fn other_mode(s: Settings) -> Settings {
    Settings {
        dock_mode: if s.dock_mode == DockMode::Always {
            DockMode::AutoHide
        } else {
            DockMode::Always
        },
        ..s
    }
}

fn toggled(s: &Settings) -> (r: Settings)
    ensures
        r == other_mode(*s),
{
    let dock_mode: DockMode = match s.dock_mode {
        DockMode::Always => DockMode::AutoHide,
        DockMode::AutoHide => DockMode::Always,
    };
    Settings { dock_mode, ..*s }
}

/// The user toggles between the two modes of the dock.
pub fn on_toggle_dock_mode(s: &mut DockState)
    ensures
        *final(s) == resettled(*old(s), other_mode(old(s).settings)),
{
    let settings: Settings = toggled(&s.settings);
    settle(s, settings);
}

/// Whether the window is given its whole size before a frame is drawn: it is a strip and
/// some of the dock shows or is about to.
pub fn needs_expanding(s: &DockState, showing: bool, about_to_show: bool) -> (r: bool)
    ensures
        r <==> !s.expanded && (showing || about_to_show),
{
    !s.expanded && (showing || about_to_show)
}

/// The row is at rest and the pointer is away.
pub open spec fn at_rest(s: DockState, moving: bool) -> bool {
    !moving && !s.hovering
}

pub open spec fn rested_state(s: DockState, moving: bool, showing: bool) -> DockState {
    if !at_rest(s, moving) {
        s
    } else {
        DockState {
            pending_relayout: false,
            window_hidden: s.window_hidden || (!showing && suppressed(s)),
            region_full: !showing,
            animating: false,
            ..s
        }
    }
}

/// The window is fitted to the row.
pub open spec fn fitted(s: DockState) -> Seq<Effect> {
    if s.pending_relayout {
        seq![Effect::Relayout]
    } else {
        seq![]
    }
}

/// The window leaves the screen or becomes a strip.
pub open spec fn put_away(s: DockState) -> Seq<Effect> {
    if suppressed(s) {
        if s.window_hidden {
            seq![]
        } else {
            seq![Effect::HideWindow]
        }
    } else if s.expanded {
        seq![Effect::Collapse]
    } else {
        seq![]
    }
}

/// The part that takes input changes.
pub open spec fn regioned(s: DockState, full: bool) -> Seq<Effect> {
    if s.region_full == full {
        seq![]
    } else if full {
        seq![Effect::RegionFull]
    } else {
        seq![Effect::RegionPill]
    }
}

pub open spec fn rested_effects(s: DockState, moving: bool, showing: bool) -> Seq<Effect> {
    if !at_rest(s, moving) {
        seq![]
    } else if showing {
        fitted(s) + regioned(s, false)
    } else {
        fitted(s) + put_away(s) + regioned(s, true)
    }
}

/// A frame has been drawn. Once the row is at rest the window is fitted; out of sight it
/// becomes a strip, or leaves the screen where it yields to a full-screen application;
/// in sight its visible part alone takes input.
pub fn on_frame(s: &mut DockState, moving: bool, showing: bool) -> (r: Vec<Effect>)
    ensures
        *final(s) == rested_state(*old(s), moving, showing),
        r@ == rested_effects(*old(s), moving, showing),
{
    let was: DockState = *s;
    let mut out: Vec<Effect> = Vec::new();
    if moving || was.hovering {
        assert(out@ =~= seq![]);
        return out;
    }
    let yields: bool = fullscreen_suppressed(&was);
    if was.pending_relayout {
        out.push(Effect::Relayout);
    }
    assert(out@ =~= fitted(was));
    if showing {
        if was.region_full {
            out.push(Effect::RegionPill);
        }
        assert(out@ =~= fitted(was) + regioned(was, false));
    } else {
        if yields {
            if !was.window_hidden {
                out.push(Effect::HideWindow);
            }
        } else if was.expanded {
            out.push(Effect::Collapse);
        }
        assert(out@ =~= fitted(was) + put_away(was));
        if !was.region_full {
            out.push(Effect::RegionFull);
        }
        assert(out@ =~= fitted(was) + put_away(was) + regioned(was, true));
    }
    *s = DockState {
        pending_relayout: false,
        window_hidden: was.window_hidden || (!showing && yields),
        region_full: !showing,
        animating: false,
        ..was
    };
    out
}

/// One step of what a click on an icon does.
#[derive(Clone, Copy, Debug, PartialEq, Eq, Structural)]
pub enum ClickStep {
    /// Bring back the taskbar or open the Start menu, as the mode asks.
    Start,
    /// Go to the best of the item's windows that will come to the front.
    Activate,
    /// Look for the windows of an open application anew, and go to one. This does what it
    /// is for where there are any.
    ActivateLiveRunning,
    /// Look for the windows of a pinned application anew, and go to one. This does what it
    /// is for where there are any.
    ActivateLivePinned,
    /// Go to the item's first window, whether it comes or not.
    ActivateFirst,
    ShowPreview,
    ShowFolder,
    OpenPath,
    ToggleControl,
    ToggleDrawer,
    Done,
}

/// What a click has to do with.
#[derive(Clone, Copy, Debug, PartialEq, Eq, Structural)]
pub struct Clicked {
    pub role: ItemRole,
    pub kind: ContentKind,
    pub has_path: bool,
    pub has_window: bool,
}

/// The first step of a click.
pub open spec fn click_start(c: Clicked) -> ClickStep {
    match c.role {
        ItemRole::Start => ClickStep::Start,
        ItemRole::Running => ClickStep::Activate,
        ItemRole::Pinned => ClickStep::Activate,
        ItemRole::Control => ClickStep::ToggleControl,
        ItemRole::Drawer => ClickStep::ToggleDrawer,
        ItemRole::Divider => ClickStep::Done,
    }
}

/// The step after a step, by whether that did what it is for.
pub open spec fn click_after(c: Clicked, step: ClickStep, ok: bool) -> ClickStep {
    if ok {
        ClickStep::Done
    } else {
        match step {
            ClickStep::Activate => if c.role == ItemRole::Running {
                ClickStep::ActivateLiveRunning
            } else {
                ClickStep::ActivateLivePinned
            },
            ClickStep::ActivateLiveRunning => if c.has_window {
                ClickStep::ActivateFirst
            } else {
                ClickStep::ShowPreview
            },
            ClickStep::ActivateLivePinned => if !c.has_path {
                ClickStep::Done
            } else if c.kind == ContentKind::Folder {
                ClickStep::ShowFolder
            } else {
                ClickStep::OpenPath
            },
            _ => ClickStep::Done,
        }
    }
}

/// Whether the icon hops after a step: not where nothing was opened.
pub open spec fn click_hops(step: ClickStep, ok: bool) -> bool {
    match step {
        ClickStep::Start => true,
        ClickStep::Activate => ok,
        ClickStep::ActivateLiveRunning => ok,
        ClickStep::ActivateLivePinned => ok,
        ClickStep::ActivateFirst => true,
        ClickStep::ShowFolder => true,
        ClickStep::OpenPath => ok,
        ClickStep::ToggleControl => true,
        ClickStep::ToggleDrawer => true,
        _ => false,
    }
}

/// The first step of a click.
pub fn first_click_step(c: &Clicked) -> (r: ClickStep)
    ensures
        r == click_start(*c),
{
    match c.role {
        ItemRole::Start => ClickStep::Start,
        ItemRole::Running => ClickStep::Activate,
        ItemRole::Pinned => ClickStep::Activate,
        ItemRole::Control => ClickStep::ToggleControl,
        ItemRole::Drawer => ClickStep::ToggleDrawer,
        ItemRole::Divider => ClickStep::Done,
    }
}

/// The step after a step, by whether that did what it is for.
pub fn next_click_step(c: &Clicked, step: ClickStep, ok: bool) -> (r: ClickStep)
    ensures
        r == click_after(*c, step, ok),
{
    if ok {
        return ClickStep::Done;
    }
    match step {
        ClickStep::Activate => if c.role == ItemRole::Running {
            ClickStep::ActivateLiveRunning
        } else {
            ClickStep::ActivateLivePinned
        },
        ClickStep::ActivateLiveRunning => if c.has_window {
            ClickStep::ActivateFirst
        } else {
            ClickStep::ShowPreview
        },
        ClickStep::ActivateLivePinned => if !c.has_path {
            ClickStep::Done
        } else if c.kind == ContentKind::Folder {
            ClickStep::ShowFolder
        } else {
            ClickStep::OpenPath
        },
        _ => ClickStep::Done,
    }
}

/// Whether the icon hops after a step.
pub fn hops_after(step: ClickStep, ok: bool) -> (r: bool)
    ensures
        r == click_hops(step, ok),
{
    match step {
        ClickStep::Start => true,
        ClickStep::Activate => ok,
        ClickStep::ActivateLiveRunning => ok,
        ClickStep::ActivateLivePinned => ok,
        ClickStep::ActivateFirst => true,
        ClickStep::ShowFolder => true,
        ClickStep::OpenPath => ok,
        ClickStep::ToggleControl => true,
        ClickStep::ToggleDrawer => true,
        _ => false,
    }
}

/// What becomes of the preview.
#[derive(Clone, Copy, Debug, PartialEq, Eq, Structural)]
pub enum PreviewStep {
    Keep,
    Hide,
    Show,
}

/// What becomes of the preview after a step of a click; `came` says whether a window came
/// to the front.
pub fn preview_after(step: ClickStep, ok: bool, came: bool) -> (r: PreviewStep)
    ensures
        r == (match step {
            ClickStep::Activate => if ok {
                PreviewStep::Hide
            } else {
                PreviewStep::Keep
            },
            ClickStep::ActivateLiveRunning | ClickStep::ActivateLivePinned => if !ok {
                PreviewStep::Keep
            } else if came {
                PreviewStep::Hide
            } else {
                PreviewStep::Show
            },
            ClickStep::ActivateFirst => PreviewStep::Hide,
            ClickStep::ShowPreview => PreviewStep::Show,
            _ => PreviewStep::Keep,
        }),
        r == PreviewStep::Hide ==> step == ClickStep::ActivateFirst || ok,
        r == PreviewStep::Show ==> step == ClickStep::ShowPreview || (ok && !came),
        step == ClickStep::OpenPath || step == ClickStep::ShowFolder || step == ClickStep::Start ==> r
            == PreviewStep::Keep,
{
    match step {
        ClickStep::Activate => if ok {
            PreviewStep::Hide
        } else {
            PreviewStep::Keep
        },
        ClickStep::ActivateLiveRunning | ClickStep::ActivateLivePinned => if !ok {
            PreviewStep::Keep
        } else if came {
            PreviewStep::Hide
        } else {
            PreviewStep::Show
        },
        ClickStep::ActivateFirst => PreviewStep::Hide,
        ClickStep::ShowPreview => PreviewStep::Show,
        _ => PreviewStep::Keep,
    }
}

/// The user has pressed Start: whether the taskbar is brought back, which the state
/// remembers.
pub fn on_start_pressed(s: &mut DockState) -> (r: bool)
    ensures
        r == (old(s).settings.taskbar_mode == TaskbarMode::Hidden),
        *final(s) == (DockState { taskbar_invoked: old(s).taskbar_invoked || r, ..*old(s) }),
        final(s).taskbar_invoked <==> old(s).taskbar_invoked || old(s).settings.taskbar_mode
            == TaskbarMode::Hidden,
{
    if taskbar::should_reveal_for_start_invocation(s.settings.taskbar_mode) {
        s.taskbar_invoked = true;
        return true;
    }
    false
}

/// What a right click on an icon opens.
#[derive(Clone, Copy, Debug, PartialEq, Eq, Structural)]
pub enum ContextMenu {
    Windows,
    Pinned,
    Tray,
    Nothing,
}

/// What a right click on an icon opens; a pinned item without a path has no menu.
pub fn context_menu(role: ItemRole, has_path: bool) -> (r: ContextMenu)
    ensures
        r == (match role {
            ItemRole::Running => ContextMenu::Windows,
            ItemRole::Pinned => if has_path {
                ContextMenu::Pinned
            } else {
                ContextMenu::Nothing
            },
            ItemRole::Start => ContextMenu::Tray,
            _ => ContextMenu::Nothing,
        }),
        r == ContextMenu::Windows <==> role == ItemRole::Running,
        r == ContextMenu::Pinned <==> role == ItemRole::Pinned && has_path,
        r == ContextMenu::Tray <==> role == ItemRole::Start,
{
    match role {
        ItemRole::Running => ContextMenu::Windows,
        ItemRole::Pinned => if has_path {
            ContextMenu::Pinned
        } else {
            ContextMenu::Nothing
        },
        ItemRole::Start => ContextMenu::Tray,
        _ => ContextMenu::Nothing,
    }
}

/// A command of a menu.
#[derive(Clone, Copy, Debug, PartialEq, Eq, Structural)]
pub enum Command {
    Separator,
    OpenNew,
    Open,
    ShowLocation,
    ToggleMaximize,
    Minimize,
    Pin,
    Unpin,
    CloseWindow,
    CloseAllWindows,
}

pub open spec fn close_command(count: nat) -> Command {
    if count > 1 {
        Command::CloseAllWindows
    } else {
        Command::CloseWindow
    }
}

/// The menu of an open application; none where it has no windows.
pub open spec fn window_commands(count: nat) -> Seq<Command> {
    if count == 0 {
        seq![]
    } else {
        (if count == 1 {
            seq![Command::ToggleMaximize, Command::Minimize]
        } else {
            seq![]
        }) + seq![
            Command::Separator,
            Command::Pin,
            Command::Separator,
            close_command(count),
        ]
    }
}

/// The menu of a pinned item, by the number of its windows.
pub open spec fn pinned_commands(count: nat) -> Seq<Command> {
    seq![
        if count == 0 {
            Command::Open
        } else {
            Command::OpenNew
        },
        Command::ShowLocation,
    ] + (if count == 0 {
        seq![]
    } else if count == 1 {
        seq![
            Command::Separator,
            Command::ToggleMaximize,
            Command::Minimize,
            Command::CloseWindow,
        ]
    } else {
        seq![Command::Separator, Command::CloseAllWindows]
    }) + seq![Command::Separator, Command::Unpin]
}

/// The menu of an open application.
pub fn window_menu(count: usize) -> (r: Vec<Command>)
    ensures
        r@ == window_commands(count as nat),
{
    let mut out: Vec<Command> = Vec::new();
    if count == 0 {
        assert(out@ =~= seq![]);
        return out;
    }
    if count == 1 {
        out.push(Command::ToggleMaximize);
        out.push(Command::Minimize);
    }
    out.push(Command::Separator);
    out.push(Command::Pin);
    out.push(Command::Separator);
    if count > 1 {
        out.push(Command::CloseAllWindows);
    } else {
        out.push(Command::CloseWindow);
    }
    assert(out@ =~= window_commands(count as nat));
    out
}

/// The menu of a pinned item.
pub fn pinned_menu(count: usize) -> (r: Vec<Command>)
    ensures
        r@ == pinned_commands(count as nat),
{
    let mut out: Vec<Command> = Vec::new();
    if count == 0 {
        out.push(Command::Open);
    } else {
        out.push(Command::OpenNew);
    }
    out.push(Command::ShowLocation);
    if count == 1 {
        out.push(Command::Separator);
        out.push(Command::ToggleMaximize);
        out.push(Command::Minimize);
        out.push(Command::CloseWindow);
    } else if count > 1 {
        out.push(Command::Separator);
        out.push(Command::CloseAllWindows);
    }
    out.push(Command::Separator);
    out.push(Command::Unpin);
    assert(out@ =~= pinned_commands(count as nat));
    out
}

pub open spec fn command_label(c: Command) -> Seq<char> {
    match c {
        Command::Separator => ""@,
        Command::OpenNew => "打开新实例"@,
        Command::Open => "打开"@,
        Command::ShowLocation => "打开文件所在位置"@,
        Command::ToggleMaximize => "最大化 / 还原"@,
        Command::Minimize => "最小化"@,
        Command::Pin => "固定在 Dock"@,
        Command::Unpin => "从 Dock 移除"@,
        Command::CloseWindow => "关闭窗口"@,
        Command::CloseAllWindows => "关闭全部窗口"@,
    }
}

/// What a command is called in a menu.
pub fn label_of_command(c: Command) -> (r: &'static str)
    ensures
        r@ == command_label(c),
{
    match c {
        Command::Separator => "",
        Command::OpenNew => "打开新实例",
        Command::Open => "打开",
        Command::ShowLocation => "打开文件所在位置",
        Command::ToggleMaximize => "最大化 / 还原",
        Command::Minimize => "最小化",
        Command::Pin => "固定在 Dock",
        Command::Unpin => "从 Dock 移除",
        Command::CloseWindow => "关闭窗口",
        Command::CloseAllWindows => "关闭全部窗口",
    }
}

/// A command of the menu of the tray.
#[derive(Clone, Copy, Debug, PartialEq, Eq, Structural)]
pub enum TrayCommand {
    Separator,
    AddFile,
    AddFolder,
    ToggleDockMode,
    Autostart,
    Settings,
    Exit,
}

/// One entry of the menu of the tray.
#[derive(Clone, Copy, Debug, PartialEq, Eq, Structural)]
pub struct TrayEntry {
    pub command: TrayCommand,
    pub checked: bool,
}

pub open spec fn plain_entry(command: TrayCommand) -> TrayEntry {
    TrayEntry { command, checked: false }
}

/// The menu of the tray; a check stands beside what is on.
pub fn tray_menu(always_mode: bool, autostart: bool) -> (r: Vec<TrayEntry>)
    ensures
        r@ == seq![
            plain_entry(TrayCommand::AddFile),
            plain_entry(TrayCommand::AddFolder),
            plain_entry(TrayCommand::Separator),
            (TrayEntry { command: TrayCommand::ToggleDockMode, checked: always_mode }),
            (TrayEntry { command: TrayCommand::Autostart, checked: autostart }),
            plain_entry(TrayCommand::Settings),
            plain_entry(TrayCommand::Separator),
            plain_entry(TrayCommand::Exit),
        ],
{
    let mut out: Vec<TrayEntry> = Vec::new();
    out.push(TrayEntry { command: TrayCommand::AddFile, checked: false });
    out.push(TrayEntry { command: TrayCommand::AddFolder, checked: false });
    out.push(TrayEntry { command: TrayCommand::Separator, checked: false });
    out.push(TrayEntry { command: TrayCommand::ToggleDockMode, checked: always_mode });
    out.push(TrayEntry { command: TrayCommand::Autostart, checked: autostart });
    out.push(TrayEntry { command: TrayCommand::Settings, checked: false });
    out.push(TrayEntry { command: TrayCommand::Separator, checked: false });
    out.push(TrayEntry { command: TrayCommand::Exit, checked: false });
    out
}

/// What a command of the tray is called in the menu.
pub fn label_of_tray_command(c: TrayCommand) -> (r: &'static str)
    ensures
        r@ == (match c {
            TrayCommand::Separator => ""@,
            TrayCommand::AddFile => "添加文件或应用…"@,
            TrayCommand::AddFolder => "添加文件夹…"@,
            TrayCommand::ToggleDockMode => "常驻底部（非全屏时）"@,
            TrayCommand::Autostart => "开机自启"@,
            TrayCommand::Settings => "设置…"@,
            TrayCommand::Exit => "退出 FeatherDock"@,
        }),
{
    match c {
        TrayCommand::Separator => "",
        TrayCommand::AddFile => "添加文件或应用…",
        TrayCommand::AddFolder => "添加文件夹…",
        TrayCommand::ToggleDockMode => "常驻底部（非全屏时）",
        TrayCommand::Autostart => "开机自启",
        TrayCommand::Settings => "设置…",
        TrayCommand::Exit => "退出 FeatherDock",
    }
}

/// What the helper process is armed for.
#[derive(Clone, Copy, Debug, PartialEq, Eq, Structural)]
pub struct WatchdogPlan {
    pub restore_taskbar: bool,
    pub restore_desktop_icons: bool,
}

/// What is done to the helper process.
#[derive(Clone, Copy, Debug, PartialEq, Eq, Structural)]
pub enum WatchdogStep {
    /// Leave it as it is.
    Keep,
    /// Stop it, and start none.
    Stop,
    /// Stop it, and start one that is armed for this.
    Restart(WatchdogPlan),
}

impl WatchdogPlan {
    /// Whether there is anything to restore.
    pub fn needed(self) -> (r: bool)
        ensures
            r <==> self.restore_taskbar || self.restore_desktop_icons,
    {
        self.restore_taskbar || self.restore_desktop_icons
    }
}

/// What the helper is to be armed for under these settings.
pub open spec fn plan_for(s: Settings) -> Option<WatchdogPlan> {
    if s.taskbar_mode == TaskbarMode::Show && !s.hide_desktop_icons {
        None
    } else {
        Some(
            WatchdogPlan {
                restore_taskbar: s.taskbar_mode != TaskbarMode::Show,
                restore_desktop_icons: s.hide_desktop_icons,
            },
        )
    }
}

/// What the helper is to be armed for under these settings: nothing where the system is
/// as it was.
pub fn desired_watchdog_plan(settings: &Settings) -> (r: Option<WatchdogPlan>)
    ensures
        r == plan_for(*settings),
{
    let plan = WatchdogPlan {
        restore_taskbar: settings.taskbar_mode != TaskbarMode::Show,
        restore_desktop_icons: settings.hide_desktop_icons,
    };
    if plan.needed() {
        Some(plan)
    } else {
        None
    }
}

/// What is done to the helper, given what it is armed for now and whether it is alive.
pub fn reconcile_watchdog(
    current: Option<WatchdogPlan>,
    desired: Option<WatchdogPlan>,
    alive: bool,
) -> (r: WatchdogStep)
    ensures
        r == (if current == desired && alive {
            WatchdogStep::Keep
        } else {
            match desired {
                Some(p) => WatchdogStep::Restart(p),
                None => WatchdogStep::Stop,
            }
        }),
        alive ==> (r == WatchdogStep::Keep <==> current == desired),
        !alive && desired is None ==> r == WatchdogStep::Stop,
        !alive && desired is Some ==> r == WatchdogStep::Restart(desired->0),
        r matches WatchdogStep::Restart(p) ==> desired == Some(p),
{
    let same: bool = match (current, desired) {
        (Some(a), Some(b)) => a == b,
        (None, None) => true,
        _ => false,
    };
    if same && alive {
        return WatchdogStep::Keep;
    }
    match desired {
        Some(p) => WatchdogStep::Restart(p),
        None => WatchdogStep::Stop,
    }
}

/// The command line of a helper that is armed for this.
pub fn watchdog_args(plan: WatchdogPlan, parent_pid: u32, original_autohide: bool) -> (r:
    WatchdogArgs)
    ensures
        r.parent_pid == parent_pid,
        r.original_autohide == original_autohide,
        r.restore_taskbar == plan.restore_taskbar,
        r.restore_desktop_icons == plan.restore_desktop_icons,
{
    WatchdogArgs {
        parent_pid,
        original_autohide,
        restore_taskbar: plan.restore_taskbar,
        restore_desktop_icons: plan.restore_desktop_icons,
    }
}

/// One step of the start or the end of the dock.
#[derive(Clone, Copy, Debug, PartialEq, Eq, Structural)]
pub enum LifeStep {
    /// Put back a taskbar that an earlier run left behind.
    RecoverTaskbar,
    /// Remember the user's auto-hide preference.
    CaptureTaskbar,
    /// See to it that the taskbar comes back if the dock fails.
    GuardTaskbar,
    ApplyTaskbar,
    ReconcileWatchdog,
    ReflowMaximized,
    DesktopIcons(bool),
    ShowWindow,
    WarmDrawer,
    StopWatchdog,
    RestoreTaskbar,
    RemoveHooks,
    RemoveTray,
}

/// The start of the dock. The taskbar is put back before the user's preference is read.
pub open spec fn opening(s: Settings, suppressed: bool) -> Seq<LifeStep> {
    seq![
        LifeStep::RecoverTaskbar,
        LifeStep::CaptureTaskbar,
        LifeStep::GuardTaskbar,
        LifeStep::ApplyTaskbar,
        LifeStep::ReconcileWatchdog,
    ] + (if s.taskbar_mode == TaskbarMode::Hidden {
        seq![LifeStep::ReflowMaximized]
    } else {
        seq![]
    }) + (if s.hide_desktop_icons {
        seq![LifeStep::DesktopIcons(true)]
    } else {
        seq![]
    }) + (if suppressed {
        seq![]
    } else {
        seq![LifeStep::ShowWindow]
    }) + (if s.drawer_enabled {
        seq![LifeStep::WarmDrawer]
    } else {
        seq![]
    })
}

/// The end of the dock. The helper is stopped first, so that it does not restore as well.
pub open spec fn closing(s: Settings) -> Seq<LifeStep> {
    seq![LifeStep::StopWatchdog, LifeStep::RestoreTaskbar] + (if s.hide_desktop_icons {
        seq![LifeStep::DesktopIcons(false)]
    } else {
        seq![]
    }) + seq![LifeStep::RemoveHooks, LifeStep::RemoveTray]
}

/// The start of the dock.
pub fn startup(settings: &Settings, suppressed: bool) -> (r: Vec<LifeStep>)
    ensures
        r@ == opening(*settings, suppressed),
{
    let mut out: Vec<LifeStep> = Vec::new();
    out.push(LifeStep::RecoverTaskbar);
    out.push(LifeStep::CaptureTaskbar);
    out.push(LifeStep::GuardTaskbar);
    out.push(LifeStep::ApplyTaskbar);
    out.push(LifeStep::ReconcileWatchdog);
    if settings.taskbar_mode == TaskbarMode::Hidden {
        out.push(LifeStep::ReflowMaximized);
    }
    if settings.hide_desktop_icons {
        out.push(LifeStep::DesktopIcons(true));
    }
    if !suppressed {
        out.push(LifeStep::ShowWindow);
    }
    if settings.drawer_enabled {
        out.push(LifeStep::WarmDrawer);
    }
    assert(out@ =~= opening(*settings, suppressed));
    out
}

/// The end of the dock.
pub fn cleanup(settings: &Settings) -> (r: Vec<LifeStep>)
    ensures
        r@ == closing(*settings),
{
    let mut out: Vec<LifeStep> = Vec::new();
    out.push(LifeStep::StopWatchdog);
    out.push(LifeStep::RestoreTaskbar);
    if settings.hide_desktop_icons {
        out.push(LifeStep::DesktopIcons(false));
    }
    out.push(LifeStep::RemoveHooks);
    out.push(LifeStep::RemoveTray);
    assert(out@ =~= closing(*settings));
    out
}

/// What the first argument of the command line asks for.
#[derive(Clone, Copy, Debug, PartialEq, Eq, Structural)]
pub enum ControlCommand {
    Quit,
    RestoreSystem,
}

/// What the first argument of the command line asks for.
pub fn control_command(arg: Option<&str>) -> (r: Option<ControlCommand>)
    ensures
        r == (match arg {
            Some(a) => if a@ == "--quit"@ {
                Some(ControlCommand::Quit)
            } else if a@ == "--restore-system"@ {
                Some(ControlCommand::RestoreSystem)
            } else {
                None
            },
            None => None,
        }),
{
    match arg {
        Some(a) => if text::same(a, "--quit") {
            Some(ControlCommand::Quit)
        } else if text::same(a, "--restore-system") {
            Some(ControlCommand::RestoreSystem)
        } else {
            None
        },
        None => None,
    }
}

/// Half of a length, towards zero.
pub open spec fn half(n: int) -> int {
    if n >= 0 {
        n / 2
    } else {
        -((-n) / 2)
    }
}

/// Where a window of this size stands at the bottom of a monitor, in the middle.
pub fn bottom_centre(monitor: ScreenRect, width: u32, height: u32) -> (r: Option<(i32, i32)>)
    ensures
        ({
            let x = monitor.left + half(monitor.right - monitor.left - width);
            let y = monitor.bottom - height;
            if i32::MIN <= x <= i32::MAX && i32::MIN <= y <= i32::MAX {
                r == Some((x as i32, y as i32))
            } else {
                r is None
            }
        }),
{
    let slack: i64 = monitor.right as i64 - monitor.left as i64 - width as i64;
    let part: i64 = if slack >= 0 {
        slack / 2
    } else {
        -((-slack) / 2)
    };
    let x: i64 = monitor.left as i64 + part;
    let y: i64 = monitor.bottom as i64 - height as i64;
    if x < i32::MIN as i64 || x > i32::MAX as i64 || y < i32::MIN as i64 || y > i32::MAX as i64 {
        return None;
    }
    Some((x as i32, y as i32))
}

/// A number of sixteen bits, with its sign.
pub open spec fn signed(n: int) -> int {
    if n >= 0x8000 {
        n - 0x10000
    } else {
        n
    }
}

/// The two coordinates that a message of the pointer packs into one word.
pub fn unpacked_point(word: u64) -> (r: (i32, i32))
    ensures
        r.0 == signed(word as int % 0x10000),
        r.1 == signed(word as int / 0x10000 % 0x10000),
{
    let low: i32 = (word % 0x10000) as i32;
    let high: i32 = (word / 0x10000 % 0x10000) as i32;
    let x: i32 = if low >= 0x8000 {
        low - 0x10000
    } else {
        low
    };
    let y: i32 = if high >= 0x8000 {
        high - 0x10000
    } else {
        high
    };
    (x, y)
}

/// The arguments with which the file manager shows a path.
pub fn explorer_select(path: &str) -> (r: String)
    ensures
        r@ == "/select,\""@ + path@ + seq!['"'],
{
    let mut out = text::chars_of("/select,\"");
    text::add_text(&mut out, path);
    out.push('"');
    assert(out@ =~= "/select,\""@ + path@ + seq!['"']);
    text::string_of(&out)
}

/// An effect that puts the window of the dock, or another window, in front of others.
pub open spec fn restacks(e: Effect) -> bool {
    match e {
        Effect::ShowWindow => true,
        Effect::Expand => true,
        Effect::Rebuild => true,
        Effect::RebuildScanned => true,
        Effect::Relayout => true,
        Effect::RaiseDock => true,
        Effect::ReflowMaximized => true,
        Effect::EnterHidden => true,
        _ => false,
    }
}

pub open spec fn stays_put(es: Seq<Effect>) -> bool {
    forall|i: int| 0 <= i < es.len() ==> !restacks(#[trigger] es[i])
}

/// While the dock yields to a full-screen application, a move of the pointer changes
/// nothing.
pub proof fn law_suppressed_ignores_pointer(s: DockState)
    requires
        suppressed(s),
    ensures
        moved_state(s) == s,
        moved_effects(s) == Seq::<Effect>::empty(),
{
}

/// A full-screen application in front is not disturbed by a scan or a change of the
/// display: no window is put in front of others, and the rebuilding is put off.
pub proof fn law_fullscreen_is_not_disturbed(s: DockState, resolution: bool, differs: bool)
    ensures
        stays_put(display_effects(s, resolution, true)),
        stays_put(scan_effects(differs, true)),
{
}

/// Nor by what is learnt of the windows in front, where the dock yields to it.
pub proof fn law_fullscreen_front_is_not_disturbed(s: DockState, change: Change, maximized: bool)
    requires
        s.settings.hide_on_fullscreen,
    ensures
        stays_put(changed_effects(s, change, true, maximized)),
        !changed_state(s, true, maximized).revealing || s.fullscreen_active,
        changed_state(s, true, maximized).pending_rebuild == s.pending_rebuild,
{
    let t = fronted(s, true, maximized);
    assert(suppressed(t));
    if s.window_hidden {
        assert(t.window_hidden);
    }
}

/// What was put off is done once no full-screen application is in front.
pub proof fn law_deferred_rebuild_happens(s: DockState, change: Change, maximized: bool)
    requires
        s.pending_rebuild,
    ensures
        changed_effects(s, change, false, maximized).contains(Effect::Rebuild),
        !changed_state(s, false, maximized).pending_rebuild,
{
    let t = fronted(s, false, maximized);
    let a = if s.window_hidden && !t.window_hidden {
        seq![Effect::ShowWindow]
    } else {
        seq![]
    };
    let es = changed_effects(s, change, false, maximized);
    assert(es[a.len() as int] == Effect::Rebuild);
}

/// At rest out of sight, a window that yields to a full-screen application is off the
/// screen.
pub proof fn law_suppressed_window_leaves(s: DockState)
    requires
        suppressed(s),
        !s.hovering,
    ensures
        rested_state(s, false, false).window_hidden,
        !rested_state(s, false, false).animating,
{
}

/// The helper is armed for all that the dock has changed, and for nothing else.
pub proof fn law_watchdog_covers_settings(s: Settings)
    ensures
        plan_for(s) is None <==> s.taskbar_mode == TaskbarMode::Show && !s.hide_desktop_icons,
        plan_for(s) matches Some(p) ==> p.restore_taskbar == (s.taskbar_mode != TaskbarMode::Show)
            && p.restore_desktop_icons == s.hide_desktop_icons,
{
}

/// A taskbar that an earlier run left behind is put back before the user's preference is
/// read, and that is read before the taskbar is changed.
pub proof fn law_recovery_precedes_capture(s: Settings, suppressed: bool)
    ensures
        opening(s, suppressed)[0] == LifeStep::RecoverTaskbar,
        opening(s, suppressed)[1] == LifeStep::CaptureTaskbar,
        opening(s, suppressed)[3] == LifeStep::ApplyTaskbar,
{
}

/// The end of the dock puts back the taskbar and the icons of the desktop, after the
/// helper is stopped.
pub proof fn law_cleanup_restores(s: Settings)
    ensures
        closing(s)[0] == LifeStep::StopWatchdog,
        closing(s)[1] == LifeStep::RestoreTaskbar,
        s.hide_desktop_icons ==> closing(s).contains(LifeStep::DesktopIcons(false)),
{
    if s.hide_desktop_icons {
        assert(closing(s)[2] == LifeStep::DesktopIcons(false));
    }
}

/// A click comes to an end after three steps at most, whatever they bring about.
pub proof fn law_click_ends(c: Clicked, a: bool, b: bool, d: bool)
    ensures
        click_after(
            c,
            click_after(c, click_after(c, click_start(c), a), b),
            d,
        ) == ClickStep::Done,
{
}

/// A pinned application with a window is not opened a second time.
pub proof fn law_running_pinned_is_not_reopened(c: Clicked)
    requires
        c.role == ItemRole::Pinned,
    ensures
        click_after(c, click_start(c), true) == ClickStep::Done,
        click_after(c, click_after(c, click_start(c), false), true) == ClickStep::Done,
{
}

} // verus!
