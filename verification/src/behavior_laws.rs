//! What the window of the dock promises: when it is in sight and when it is not, what a
//! click comes to, and what is done at the start and the end.

use vstd::prelude::*;
use crate::behavior;
use crate::behavior::{ClickStep, Clicked, Command, DockState, Effect, LifeStep};
use crate::content::ContentKind;
use crate::dock::ItemRole;
use crate::settings::{DockMode, Settings, TaskbarMode};
use crate::windows_list::Change;

verus! {

/// The settings ask the dock to make way for what is in front.
pub open spec fn makes_way(s: Settings, fullscreen: bool, maximized: bool) -> bool {
    (s.hide_on_fullscreen && fullscreen) || (s.hide_on_maximized && maximized)
}

/// Left alone, the dock is in sight where it is to be there always and need not make way.
pub proof fn law_rests_in_sight(s: DockState)
    ensures
        behavior::rests_shown(s) <==> s.settings.dock_mode == DockMode::Always && !makes_way(
            s.settings,
            s.fullscreen_active,
            s.maximized_active,
        ),
{
}

/// The dock starts where it rests: in sight only where nothing asks it to make way, and off
/// the screen over a full-screen application that it yields to. Nothing is put off yet.
pub proof fn law_start(settings: Settings, fullscreen: bool, maximized: bool)
    ensures
        ({
            let s = behavior::initial(settings, fullscreen, maximized);
            &&& s.settings == settings && s.fullscreen_active == fullscreen && s.maximized_active
                == maximized
            &&& s.revealing <==> settings.dock_mode == DockMode::Always && !makes_way(
                settings,
                fullscreen,
                maximized,
            )
            &&& s.window_hidden <==> settings.hide_on_fullscreen && fullscreen
            &&& s.animating && s.expanded && s.region_full
            &&& !s.hovering && !s.tracking && !s.pending_relayout && !s.pending_rebuild
                && !s.taskbar_invoked
        }),
{
}

/// The pointer brings the dock into sight: it is revealed and the whole window takes the
/// pointer, it is made whole where it was a strip, and the system is asked once to report
/// when the pointer leaves. Nothing else changes.
pub proof fn law_pointer_reveals(s: DockState)
    requires
        !(s.settings.hide_on_fullscreen && s.fullscreen_active),
    ensures
        ({
            let t = behavior::moved_state(s);
            let es = behavior::moved_effects(s);
            &&& t.revealing && t.hovering && t.animating && t.region_full && t.tracking
            &&& t == (DockState {
                revealing: t.revealing,
                hovering: t.hovering,
                animating: t.animating,
                region_full: t.region_full,
                tracking: t.tracking,
                ..s
            })
            &&& es.contains(Effect::UpdatePreview)
            &&& es.contains(Effect::Expand) <==> !s.expanded
            &&& es.contains(Effect::RegionFull) <==> !s.region_full
            &&& es.contains(Effect::TrackLeave) <==> !s.tracking
            &&& forall|e: Effect| #[trigger]
                es.contains(e) ==> e == Effect::UpdatePreview || e == Effect::Expand || e
                    == Effect::RegionFull || e == Effect::TrackLeave
        }),
{
    let es = behavior::moved_effects(s);
    let a = if s.region_full {
        0int
    } else {
        1
    };
    let b = a + if s.expanded {
        0int
    } else {
        1
    };
    if !s.region_full {
        assert(es[0] == Effect::RegionFull);
    }
    if !s.expanded {
        assert(es[a] == Effect::Expand);
    }
    assert(es[b] == Effect::UpdatePreview);
    if !s.tracking {
        assert(es[b + 1] == Effect::TrackLeave);
    }
}

/// The dock remembers what is in front. Where that changes, it goes where that asks it to
/// be: in sight where it rests there, or where the pointer is over it and it does not yield
/// to a full-screen application; and a window that was off the screen comes back as soon as
/// it need not yield. Where nothing changes, nothing does.
pub proof fn law_front_decides(s: DockState, fullscreen: bool, maximized: bool)
    ensures
        ({
            let t = behavior::changed_state(s, fullscreen, maximized);
            let yields = s.settings.hide_on_fullscreen && fullscreen;
            let same = fullscreen == s.fullscreen_active && maximized == s.maximized_active;
            &&& t.fullscreen_active == fullscreen && t.maximized_active == maximized
            &&& same ==> t.revealing == s.revealing && t.window_hidden == s.window_hidden
                && t.animating == s.animating
            &&& !same ==> t.animating && (t.revealing <==> (s.hovering && !yields) || (
            s.settings.dock_mode == DockMode::Always && !makes_way(
                s.settings,
                fullscreen,
                maximized,
            )))
            &&& !same ==> (t.window_hidden <==> s.window_hidden && yields)
            &&& t.pending_rebuild <==> s.pending_rebuild && fullscreen
            &&& t == (DockState {
                fullscreen_active: t.fullscreen_active,
                maximized_active: t.maximized_active,
                revealing: t.revealing,
                window_hidden: t.window_hidden,
                animating: t.animating,
                pending_rebuild: t.pending_rebuild,
                ..s
            })
        }),
{
}

/// What follows when windows change: the window is shown where it comes back on the screen;
/// a rebuilding that was put off is done once no full-screen application is in front, and a
/// taskbar that is held hidden is hidden anew with it; and windows that come or go are
/// scanned for.
pub proof fn law_change_effects(s: DockState, change: Change, fullscreen: bool, maximized: bool)
    ensures
        ({
            let es = behavior::changed_effects(s, change, fullscreen, maximized);
            let t = behavior::changed_state(s, fullscreen, maximized);
            let due = s.pending_rebuild && !fullscreen;
            &&& es.contains(Effect::ShowWindow) <==> s.window_hidden && !t.window_hidden
            &&& es.contains(Effect::Rebuild) <==> due
            &&& es.contains(Effect::ReassertHidden) <==> due && s.settings.taskbar_mode
                == TaskbarMode::Hidden && !s.taskbar_invoked
            &&& es.contains(Effect::ArmScanTimer) <==> change == Change::Windows
            &&& forall|e: Effect| #[trigger]
                es.contains(e) ==> e == Effect::ShowWindow || e == Effect::Rebuild || e
                    == Effect::ReassertHidden || e == Effect::ArmScanTimer
        }),
{
    let es = behavior::changed_effects(s, change, fullscreen, maximized);
    let a = behavior::shown_again(s, behavior::fronted(s, fullscreen, maximized));
    let b = behavior::caught_up(s, fullscreen);
    if a.len() > 0 {
        assert(es[0] == Effect::ShowWindow);
    }
    if b.len() > 0 {
        assert(es[a.len() as int] == Effect::Rebuild);
    }
    if b.len() > 1 {
        assert(es[a.len() as int + 1] == Effect::ReassertHidden);
    }
    if change == Change::Windows {
        assert(es[(a.len() + b.len()) as int] == Effect::ArmScanTimer);
    }
}

/// A scan that finds other windows has the row rebuilt, unless a full-screen application is
/// in front; one that finds the same does not.
pub proof fn law_scan(differs: bool, fullscreen: bool)
    ensures
        behavior::scan_effects(differs, fullscreen).contains(Effect::StopScanTimer),
        behavior::scan_effects(differs, fullscreen).contains(Effect::RebuildScanned) <==> differs
            && !fullscreen,
{
    let es = behavior::scan_effects(differs, fullscreen);
    assert(es[0] == Effect::StopScanTimer);
    if differs && !fullscreen {
        assert(es[1] == Effect::RebuildScanned);
    }
}

/// New settings are taken up at once: the dock goes where it rests under them, or stays in
/// sight while the pointer is over it.
pub proof fn law_settings_taken_up(s: DockState, settings: Settings)
    ensures
        ({
            let t = behavior::resettled(s, settings);
            &&& t.settings == settings && t.animating
            &&& t.revealing <==> s.hovering || (settings.dock_mode == DockMode::Always
                && !makes_way(settings, s.fullscreen_active, s.maximized_active))
            &&& t == (DockState {
                settings: t.settings,
                revealing: t.revealing,
                animating: t.animating,
                ..s
            })
        }),
{
}

/// Toggling changes the mode of the dock and nothing else; twice brings the first mode back.
pub proof fn law_toggle(s: Settings)
    ensures
        behavior::other_mode(s).dock_mode != s.dock_mode,
        behavior::other_mode(behavior::other_mode(s)) == s,
{
}

/// A change of the display has the row rebuilt, unless a full-screen application is in
/// front; a taskbar that is held hidden is hidden anew, and windows are maximized anew only
/// then and only for another resolution.
pub proof fn law_display(s: DockState, resolution: bool, fullscreen: bool)
    ensures
        ({
            let es = behavior::display_effects(s, resolution, fullscreen);
            let held = s.settings.taskbar_mode == TaskbarMode::Hidden && !s.taskbar_invoked;
            &&& fullscreen ==> es.len() == 0
            &&& es.contains(Effect::Rebuild) <==> !fullscreen
            &&& es.contains(Effect::ReassertHidden) <==> !fullscreen && held
            &&& es.contains(Effect::ReflowMaximized) <==> !fullscreen && held && resolution
        }),
{
    let es = behavior::display_effects(s, resolution, fullscreen);
    if !fullscreen {
        assert(es[0] == Effect::Rebuild);
        if behavior::holds_hidden(s) {
            assert(es[1] == Effect::ReassertHidden);
            if resolution {
                assert(es[2] == Effect::ReflowMaximized);
            }
        }
    }
}

/// While the row moves or the pointer is over it nothing is put away. At rest, the window
/// is fitted where that is due; in sight its visible part alone takes the pointer; out of
/// sight it leaves the screen where it yields to a full-screen application, and is a strip
/// otherwise.
pub proof fn law_rest(s: DockState, moving: bool, showing: bool)
    ensures
        ({
            let t = behavior::rested_state(s, moving, showing);
            let es = behavior::rested_effects(s, moving, showing);
            let still = !moving && !s.hovering;
            let yields = s.settings.hide_on_fullscreen && s.fullscreen_active;
            &&& !still ==> t == s && es.len() == 0
            &&& still ==> !t.animating && !t.pending_relayout
            &&& still ==> (t.region_full <==> !showing)
            &&& still ==> (t.window_hidden <==> s.window_hidden || (!showing && yields))
            &&& es.contains(Effect::Relayout) <==> still && s.pending_relayout
            &&& es.contains(Effect::HideWindow) <==> still && !showing && yields && !s.window_hidden
            &&& es.contains(Effect::Collapse) <==> still && !showing && !yields && s.expanded
            &&& es.contains(Effect::RegionPill) <==> still && showing && s.region_full
            &&& es.contains(Effect::RegionFull) <==> still && !showing && !s.region_full
        }),
{
    let es = behavior::rested_effects(s, moving, showing);
    let a = behavior::fitted(s);
    let b = behavior::put_away(s);
    if !moving && !s.hovering {
        if a.len() > 0 {
            assert(es[0] == Effect::Relayout);
        }
        if showing {
            if s.region_full {
                assert(es[a.len() as int] == Effect::RegionPill);
            }
        } else {
            if b.len() > 0 {
                assert(es[a.len() as int] == b[0]);
            }
            if !s.region_full {
                assert(es[(a.len() + b.len()) as int] == Effect::RegionFull);
            }
        }
    }
}

/// What a click comes to where nothing it tries first is there: a pinned program is opened
/// and a pinned folder shown; an open application has its first window called, or its
/// preview shown; Start, the drawer and the control center do what they are for, and the
/// divider nothing.
pub proof fn law_click_comes_to(c: Clicked)
    ensures
        ({
            let first = behavior::click_start(c);
            let second = behavior::click_after(c, first, false);
            let third = behavior::click_after(c, second, false);
            &&& c.role == ItemRole::Pinned && c.has_path && c.kind != ContentKind::Folder ==> third
                == ClickStep::OpenPath
            &&& c.role == ItemRole::Pinned && c.has_path && c.kind == ContentKind::Folder ==> third
                == ClickStep::ShowFolder
            &&& c.role == ItemRole::Pinned && !c.has_path ==> third == ClickStep::Done
            &&& c.role == ItemRole::Pinned ==> first == ClickStep::Activate && second
                == ClickStep::ActivateLivePinned
            &&& c.role == ItemRole::Running ==> first == ClickStep::Activate && second
                == ClickStep::ActivateLiveRunning
            &&& c.role == ItemRole::Running && c.has_window ==> third == ClickStep::ActivateFirst
            &&& c.role == ItemRole::Running && !c.has_window ==> third == ClickStep::ShowPreview
            &&& c.role == ItemRole::Start ==> first == ClickStep::Start && second == ClickStep::Done
            &&& c.role == ItemRole::Control ==> first == ClickStep::ToggleControl && second
                == ClickStep::Done
            &&& c.role == ItemRole::Drawer ==> first == ClickStep::ToggleDrawer && second
                == ClickStep::Done
            &&& c.role == ItemRole::Divider ==> first == ClickStep::Done
        }),
{
}

/// A step that did what it is for is the last.
pub proof fn law_click_stops(c: Clicked, step: ClickStep)
    ensures
        behavior::click_after(c, step, true) == ClickStep::Done,
{
}

/// An icon hops where something was opened or called, and not where a try came to nothing.
pub proof fn law_hops(step: ClickStep, ok: bool)
    ensures
        behavior::click_hops(ClickStep::Start, ok) && behavior::click_hops(
            ClickStep::ActivateFirst,
            ok,
        ),
        behavior::click_hops(ClickStep::ShowFolder, ok) && behavior::click_hops(
            ClickStep::ToggleControl,
            ok,
        ) && behavior::click_hops(ClickStep::ToggleDrawer, ok),
        behavior::click_hops(ClickStep::Activate, ok) == ok,
        behavior::click_hops(ClickStep::ActivateLiveRunning, ok) == ok,
        behavior::click_hops(ClickStep::ActivateLivePinned, ok) == ok,
        behavior::click_hops(ClickStep::OpenPath, ok) == ok,
        !behavior::click_hops(ClickStep::ShowPreview, ok) && !behavior::click_hops(
            ClickStep::Done,
            ok,
        ),
{
}

/// The menu of an open application offers to pin it and to close its window, or all of
/// them where there are more; one window alone can be maximized and minimized from it. An
/// application without windows has none.
pub proof fn law_window_menu(count: nat)
    ensures
        ({
            let m = behavior::window_commands(count);
            &&& count == 0 <==> m.len() == 0
            &&& m.contains(Command::Pin) <==> count > 0
            &&& m.contains(Command::CloseWindow) <==> count == 1
            &&& m.contains(Command::CloseAllWindows) <==> count > 1
            &&& m.contains(Command::ToggleMaximize) <==> count == 1
            &&& m.contains(Command::Minimize) <==> count == 1
            &&& !m.contains(Command::Unpin) && !m.contains(Command::Open) && !m.contains(
                Command::OpenNew,
            )
            &&& count > 0 ==> m.last() == (if count == 1 {
                Command::CloseWindow
            } else {
                Command::CloseAllWindows
            })
        }),
{
    let m = behavior::window_commands(count);
    if count == 1 {
        assert(m[0] == Command::ToggleMaximize && m[1] == Command::Minimize && m[3] == Command::Pin
            && m[5] == Command::CloseWindow);
    } else if count > 1 {
        assert(m[1] == Command::Pin && m[3] == Command::CloseAllWindows);
    }
}

/// The menu of a pinned item opens it, or opens it anew where it runs, shows where it is,
/// and removes it from the dock; what is said of its windows goes by how many it has.
pub proof fn law_pinned_menu(count: nat)
    ensures
        ({
            let m = behavior::pinned_commands(count);
            &&& m.len() > 0 && m.last() == Command::Unpin
            &&& m[0] == (if count == 0 {
                Command::Open
            } else {
                Command::OpenNew
            })
            &&& m.contains(Command::Open) <==> count == 0
            &&& m.contains(Command::OpenNew) <==> count > 0
            &&& m.contains(Command::ShowLocation)
            &&& m.contains(Command::CloseWindow) <==> count == 1
            &&& m.contains(Command::CloseAllWindows) <==> count > 1
            &&& m.contains(Command::ToggleMaximize) <==> count == 1
            &&& m.contains(Command::Minimize) <==> count == 1
            &&& !m.contains(Command::Pin)
        }),
{
    let m = behavior::pinned_commands(count);
    assert(m[1] == Command::ShowLocation);
    if count == 1 {
        assert(m[3] == Command::ToggleMaximize && m[4] == Command::Minimize && m[5]
            == Command::CloseWindow);
    } else if count > 1 {
        assert(m[3] == Command::CloseAllWindows);
    }
}

/// At the start the taskbar is guarded before it is changed, and the helper is armed right
/// after; the rest goes by the settings, and the window is shown unless it yields.
pub proof fn law_opening(s: Settings, suppressed: bool)
    ensures
        ({
            let l = behavior::opening(s, suppressed);
            &&& l[2] == LifeStep::GuardTaskbar && l[3] == LifeStep::ApplyTaskbar && l[4]
                == LifeStep::ReconcileWatchdog
            &&& l.contains(LifeStep::ReflowMaximized) <==> s.taskbar_mode == TaskbarMode::Hidden
            &&& l.contains(LifeStep::DesktopIcons(true)) <==> s.hide_desktop_icons
            &&& !l.contains(LifeStep::DesktopIcons(false))
            &&& l.contains(LifeStep::ShowWindow) <==> !suppressed
            &&& l.contains(LifeStep::WarmDrawer) <==> s.drawer_enabled
        }),
{
    let l = behavior::opening(s, suppressed);
    let a = 5 + if s.taskbar_mode == TaskbarMode::Hidden {
        1int
    } else {
        0
    };
    let b = a + if s.hide_desktop_icons {
        1int
    } else {
        0
    };
    let c = b + if suppressed {
        0int
    } else {
        1
    };
    if s.taskbar_mode == TaskbarMode::Hidden {
        assert(l[5] == LifeStep::ReflowMaximized);
    }
    if s.hide_desktop_icons {
        assert(l[a] == LifeStep::DesktopIcons(true));
    }
    if !suppressed {
        assert(l[b] == LifeStep::ShowWindow);
    }
    if s.drawer_enabled {
        assert(l[c] == LifeStep::WarmDrawer);
    }
}

/// At the end the icons of the desktop come back where they were hidden, and nothing else
/// is hidden; hooks and the icon in the tray go.
pub proof fn law_closing(s: Settings)
    ensures
        ({
            let l = behavior::closing(s);
            &&& l.contains(LifeStep::DesktopIcons(false)) <==> s.hide_desktop_icons
            &&& !l.contains(LifeStep::DesktopIcons(true))
            &&& l.contains(LifeStep::RemoveHooks) && l.last() == LifeStep::RemoveTray
        }),
{
    let l = behavior::closing(s);
    if s.hide_desktop_icons {
        assert(l[2] == LifeStep::DesktopIcons(false) && l[3] == LifeStep::RemoveHooks);
    } else {
        assert(l[2] == LifeStep::RemoveHooks);
    }
}

/// Half of a length leaves as much on one side as on the other, but for one; and a length
/// below zero is halved as one above.
pub proof fn law_half(n: int)
    ensures
        n >= 0 ==> 0 <= n - 2 * behavior::half(n) <= 1,
        behavior::half(-n) == -behavior::half(n),
{
}

/// A coordinate keeps its sixteen bits and is between the least and the greatest that these
/// write.
pub proof fn law_signed(n: int)
    requires
        0 <= n < 0x10000,
    ensures
        -0x8000 <= behavior::signed(n) < 0x8000,
        (behavior::signed(n) - n) % 0x10000 == 0,
{
}

} // verus!
