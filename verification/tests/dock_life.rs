//! How the window of the dock behaves from its start to its end.

use featherdock::behavior;
use featherdock::behavior::{
    ClickStep, Clicked, Command, DockState, Effect, LifeStep, PreviewStep, WatchdogPlan,
};
use featherdock::content::ContentKind;
use featherdock::dock::ItemRole;
use featherdock::settings::{DockMode, Settings, TaskbarMode};
use featherdock::windows_list::Change;

fn settings(dock_mode: DockMode, taskbar_mode: TaskbarMode) -> Settings {
    Settings { dock_mode, taskbar_mode, ..Settings::default() }
}

fn resting() -> DockState {
    behavior::start(settings(DockMode::Always, TaskbarMode::Show), false, false)
}

fn hidden_bar() -> DockState {
    behavior::start(settings(DockMode::AutoHide, TaskbarMode::Hidden), false, false)
}

#[test]
fn a_new_dock_is_in_sight_unless_it_yields() {
    let s = resting();
    assert!(s.revealing && s.expanded && s.region_full && s.animating && !s.window_hidden);
    let s = behavior::start(Settings::default(), true, false);
    assert!(!s.revealing && s.window_hidden);
    let s = behavior::start(Settings::default(), false, true);
    assert!(!s.revealing && !s.window_hidden);
    assert!(!hidden_bar().revealing);
}

#[test]
fn a_new_shell_gets_the_tray_icon_and_a_hidden_bar() {
    assert_eq!(behavior::on_taskbar_created(&resting()), vec![Effect::RestoreTray]);
    assert_eq!(
        behavior::on_taskbar_created(&hidden_bar()),
        vec![Effect::RestoreTray, Effect::EnterHidden]
    );
    let mut back = hidden_bar();
    assert!(behavior::on_start_pressed(&mut back));
    assert_eq!(behavior::on_taskbar_created(&back), vec![Effect::RestoreTray]);
}

#[test]
fn the_pointer_brings_the_dock_into_sight() {
    let mut s = hidden_bar();
    s.expanded = false;
    s.region_full = false;
    s.animating = false;
    assert_eq!(
        behavior::on_mouse_move(&mut s),
        vec![Effect::RegionFull, Effect::Expand, Effect::UpdatePreview, Effect::TrackLeave]
    );
    assert!(s.hovering && s.revealing && s.animating && s.tracking && s.region_full);
    assert!(!s.expanded);
    behavior::on_resized(&mut s, true);
    assert!(s.expanded);
    assert_eq!(behavior::on_mouse_move(&mut s), vec![Effect::UpdatePreview]);

    let mut game = behavior::start(Settings::default(), true, false);
    let before = game;
    assert_eq!(behavior::on_mouse_move(&mut game), vec![]);
    assert_eq!(game, before);
}

#[test]
fn the_dock_goes_to_rest_when_the_pointer_leaves() {
    let mut s = hidden_bar();
    behavior::on_mouse_move(&mut s);
    assert_eq!(behavior::on_mouse_leave(&mut s, true), vec![]);
    assert!(s.revealing && !s.hovering && !s.tracking);
    behavior::on_preview_closed(&mut s);
    assert!(!s.revealing);

    behavior::on_mouse_move(&mut s);
    behavior::on_preview_closed(&mut s);
    assert!(s.revealing);
    assert_eq!(behavior::on_mouse_leave(&mut s, false), vec![Effect::HidePreview]);
    assert!(!s.revealing);
}

#[test]
fn a_second_start_shows_the_first() {
    let mut s = behavior::start(Settings::default(), true, false);
    s.expanded = false;
    assert_eq!(
        behavior::on_show_existing(&mut s),
        vec![Effect::ShowWindow, Effect::Expand, Effect::RaiseDock]
    );
    assert!(!s.window_hidden && s.revealing && s.animating);
    let mut s = resting();
    assert_eq!(behavior::on_show_existing(&mut s), vec![Effect::RaiseDock]);
}

#[test]
fn what_was_put_off_is_done_after_the_full_screen() {
    let mut s = hidden_bar();
    assert_eq!(behavior::on_display_changed(&mut s, true, true), vec![]);
    assert!(s.pending_rebuild);
    assert_eq!(behavior::on_windows_changed(&mut s, Change::Front, true, false), vec![]);
    assert!(s.pending_rebuild && s.fullscreen_active);
    assert_eq!(
        behavior::on_windows_changed(&mut s, Change::Windows, false, false),
        vec![Effect::Rebuild, Effect::ReassertHidden, Effect::ArmScanTimer]
    );
    assert!(!s.pending_rebuild && !s.fullscreen_active);
}

#[test]
fn the_window_comes_back_after_the_full_screen() {
    let mut s = behavior::start(Settings::default(), true, false);
    assert_eq!(
        behavior::on_windows_changed(&mut s, Change::Front, false, false),
        vec![Effect::ShowWindow]
    );
    assert!(s.revealing && !s.window_hidden);
    assert_eq!(behavior::on_windows_changed(&mut s, Change::Front, false, false), vec![]);
    assert_eq!(behavior::on_windows_changed(&mut s, Change::Front, false, true), vec![]);
    assert!(!s.revealing && s.maximized_active);
}

#[test]
fn a_scan_rebuilds_where_windows_differ() {
    let mut s = resting();
    assert_eq!(behavior::on_scan(&mut s, false, false), vec![Effect::StopScanTimer]);
    assert_eq!(
        behavior::on_scan(&mut s, true, false),
        vec![Effect::StopScanTimer, Effect::RebuildScanned]
    );
    assert!(!s.pending_rebuild);
    assert_eq!(behavior::on_scan(&mut s, true, true), vec![Effect::StopScanTimer]);
    assert!(s.pending_rebuild);
}

#[test]
fn a_rebuilt_row_is_fitted_at_rest() {
    let mut s = resting();
    s.region_full = false;
    assert_eq!(
        behavior::on_rebuilding(&mut s),
        vec![Effect::HidePreview, Effect::RegionFull]
    );
    assert_eq!(behavior::on_rebuilding(&mut s), vec![Effect::HidePreview]);
    s.expanded = false;
    behavior::on_rebuilt(&mut s);
    assert!(s.expanded && s.pending_relayout && s.animating && s.revealing);
    assert_eq!(behavior::on_frame(&mut s, true, true), vec![]);
    assert!(s.animating);
    assert_eq!(
        behavior::on_frame(&mut s, false, true),
        vec![Effect::Relayout, Effect::RegionPill]
    );
    assert!(!s.animating && !s.pending_relayout && !s.region_full);
}

#[test]
fn out_of_sight_the_window_is_a_strip_or_gone() {
    let mut s = hidden_bar();
    assert_eq!(behavior::on_frame(&mut s, false, false), vec![Effect::Collapse]);
    assert!(!s.window_hidden && !s.animating);
    behavior::on_resized(&mut s, false);
    assert!(!behavior::needs_expanding(&s, false, false));
    assert!(behavior::needs_expanding(&s, true, false));
    assert!(behavior::needs_expanding(&s, false, true));

    let mut game = resting();
    behavior::on_windows_changed(&mut game, Change::Front, true, false);
    assert_eq!(behavior::on_frame(&mut game, false, false), vec![Effect::HideWindow]);
    assert!(game.window_hidden);

    let mut held = resting();
    behavior::on_mouse_move(&mut held);
    assert_eq!(behavior::on_frame(&mut held, false, true), vec![]);
    assert!(held.animating);
}

#[test]
fn a_bar_that_was_brought_back_is_hidden_again() {
    let mut s = hidden_bar();
    assert_eq!(
        behavior::on_rehide_timer(&mut s, true, false),
        vec![Effect::StopRehideTimer]
    );
    assert!(behavior::on_start_pressed(&mut s));
    assert!(s.taskbar_invoked);
    assert_eq!(behavior::on_rehide_timer(&mut s, false, false), vec![]);
    assert_eq!(behavior::on_rehide_timer(&mut s, true, true), vec![]);
    assert!(s.taskbar_invoked);
    assert_eq!(
        behavior::on_rehide_timer(&mut s, true, false),
        vec![Effect::StopRehideTimer, Effect::Rehide, Effect::RaiseDock]
    );
    assert!(!s.taskbar_invoked);

    assert!(behavior::on_start_pressed(&mut s));
    behavior::on_settings_changed(&mut s, settings(DockMode::Always, TaskbarMode::Show));
    assert_eq!(
        behavior::on_rehide_timer(&mut s, false, false),
        vec![Effect::StopRehideTimer, Effect::RaiseDock]
    );
    assert!(!behavior::on_start_pressed(&mut s));
    assert!(!s.taskbar_invoked);
}

#[test]
fn changed_settings_take_effect() {
    let mut s = resting();
    let mut chosen = settings(DockMode::AutoHide, TaskbarMode::Hidden);
    chosen.hide_desktop_icons = true;
    assert_eq!(
        behavior::on_settings_changed(&mut s, chosen),
        vec![Effect::EnterHidden, Effect::DesktopIcons(true), Effect::ReconcileWatchdog]
    );
    assert_eq!(s.settings, chosen);
    assert!(!s.revealing && s.animating);
    assert_eq!(
        behavior::on_settings_changed(&mut s, Settings::default()),
        vec![Effect::DesktopIcons(false), Effect::ReconcileWatchdog]
    );
    assert!(s.revealing);
    behavior::on_toggle_dock_mode(&mut s);
    assert_eq!(s.settings.dock_mode, DockMode::AutoHide);
    assert!(!s.revealing);
    behavior::on_toggle_dock_mode(&mut s);
    assert_eq!(s.settings, Settings::default());
    assert_eq!(behavior::on_pins_changed(&mut s, chosen), vec![Effect::Rebuild]);
    assert_eq!(s.settings, chosen);
}

#[test]
fn a_changed_display_rebuilds() {
    let mut s = resting();
    assert_eq!(behavior::on_display_changed(&mut s, true, false), vec![Effect::Rebuild]);
    let mut s = hidden_bar();
    assert_eq!(
        behavior::on_display_changed(&mut s, true, false),
        vec![Effect::Rebuild, Effect::ReassertHidden, Effect::ReflowMaximized]
    );
    assert_eq!(
        behavior::on_display_changed(&mut s, false, false),
        vec![Effect::Rebuild, Effect::ReassertHidden]
    );
}

fn steps_of(c: &Clicked, answers: &[bool]) -> Vec<ClickStep> {
    let mut step = behavior::first_click_step(c);
    let mut out = vec![step];
    for ok in answers {
        step = behavior::next_click_step(c, step, *ok);
        out.push(step);
    }
    out
}

#[test]
fn a_click_tries_windows_before_it_opens() {
    let pinned = Clicked {
        role: ItemRole::Pinned,
        kind: ContentKind::Application,
        has_path: true,
        has_window: false,
    };
    assert_eq!(
        steps_of(&pinned, &[false, false, true]),
        vec![
            ClickStep::Activate,
            ClickStep::ActivateLivePinned,
            ClickStep::OpenPath,
            ClickStep::Done,
        ]
    );
    assert_eq!(steps_of(&pinned, &[true]), vec![ClickStep::Activate, ClickStep::Done]);
    let folder = Clicked { kind: ContentKind::Folder, ..pinned };
    assert_eq!(steps_of(&folder, &[false, false])[2], ClickStep::ShowFolder);
    let bare = Clicked { has_path: false, ..pinned };
    assert_eq!(steps_of(&bare, &[false, false])[2], ClickStep::Done);
    let running = Clicked { role: ItemRole::Running, has_window: true, ..pinned };
    assert_eq!(
        steps_of(&running, &[false, false]),
        vec![ClickStep::Activate, ClickStep::ActivateLiveRunning, ClickStep::ActivateFirst]
    );
    let gone = Clicked { has_window: false, ..running };
    assert_eq!(steps_of(&gone, &[false, false])[2], ClickStep::ShowPreview);
}

#[test]
fn an_icon_hops_and_the_preview_follows_a_click() {
    assert!(behavior::hops_after(ClickStep::Activate, true));
    assert!(!behavior::hops_after(ClickStep::Activate, false));
    assert!(!behavior::hops_after(ClickStep::OpenPath, false));
    assert!(behavior::hops_after(ClickStep::ShowFolder, false));
    assert!(!behavior::hops_after(ClickStep::ShowPreview, true));

    assert_eq!(
        behavior::preview_after(ClickStep::Activate, true, true),
        PreviewStep::Hide
    );
    assert_eq!(
        behavior::preview_after(ClickStep::ActivateLivePinned, true, false),
        PreviewStep::Show
    );
    assert_eq!(
        behavior::preview_after(ClickStep::ActivateLiveRunning, true, true),
        PreviewStep::Hide
    );
    assert_eq!(
        behavior::preview_after(ClickStep::ActivateLivePinned, false, false),
        PreviewStep::Keep
    );
    assert_eq!(
        behavior::preview_after(ClickStep::OpenPath, true, false),
        PreviewStep::Keep
    );
}

#[test]
fn commands_have_names() {
    assert_eq!(behavior::label_of_command(Command::Open), "打开");
    assert_eq!(behavior::label_of_command(Command::OpenNew), "打开新实例");
    assert_eq!(behavior::label_of_command(Command::Unpin), "从 Dock 移除");
    assert_eq!(behavior::label_of_command(Command::Separator), "");
}

#[test]
fn the_helper_is_told_what_to_restore() {
    let plan = WatchdogPlan { restore_taskbar: true, restore_desktop_icons: false };
    let args = behavior::watchdog_args(plan, 7, true);
    assert_eq!(args.parent_pid, 7);
    assert!(args.original_autohide && args.restore_taskbar && !args.restore_desktop_icons);
}

#[test]
fn the_start_has_its_steps_in_order() {
    let mut chosen = settings(DockMode::Always, TaskbarMode::Hidden);
    chosen.hide_desktop_icons = true;
    let steps = behavior::startup(&chosen, false);
    assert_eq!(
        steps[..6],
        [
            LifeStep::RecoverTaskbar,
            LifeStep::CaptureTaskbar,
            LifeStep::GuardTaskbar,
            LifeStep::ApplyTaskbar,
            LifeStep::ReconcileWatchdog,
            LifeStep::ReflowMaximized,
        ]
    );
    assert!(steps.contains(&LifeStep::DesktopIcons(true)));
    assert!(steps.contains(&LifeStep::ShowWindow));
    let quiet = behavior::startup(&Settings::default(), true);
    assert!(!quiet.contains(&LifeStep::ShowWindow));
    assert!(!quiet.contains(&LifeStep::ReflowMaximized));
}
