//! Popups: the search, the previews of windows, and the settings.

use featherdock::command_palette as palette;
use featherdock::command_palette::{CommandAction, CommandEntry};
use featherdock::config::ItemSpec;
use featherdock::content::ContentKind;
use featherdock::desktop_scan::DesktopEntry;
use featherdock::dock::RunningWindowRef;
use featherdock::fitting;
use featherdock::settings::{DockMode, Settings, TaskbarMode};
use featherdock::settings_window as window;
use featherdock::settings_window::SettingsStep;
use featherdock::theme::ThemePreset;
use featherdock::window_preview as preview;
use featherdock::window_preview::{PreviewClick, PreviewVisual, FOOTER_H, MAX_THUMBS};
use featherdock::windows_list::{RunningWindow, ScreenRect};

#[test]
fn query_matches_label_words_and_detail() {
    let entry = CommandEntry::open_path("Visual Studio Code", "C:\\Tools\\Code.exe");
    assert!(palette::matches_query(&entry, "code"));
    assert!(palette::matches_query(&entry, "visual code"));
    assert!(palette::matches_query(&entry, "tools code"));
    assert!(!palette::matches_query(&entry, "photos"));
}

#[test]
fn filter_prefers_label_prefixes_then_substrings() {
    let entries = vec![
        CommandEntry::open_path("Chrome", "C:\\Chrome.exe"),
        CommandEntry::open_path("Visual Studio Code", "C:\\Code.exe"),
        CommandEntry::open_path("Code Notes", "C:\\Notes.txt"),
    ];

    let filtered = palette::filter_entries(&entries, "code", 10);
    let labels: Vec<&str> = filtered.iter().map(|entry| entry.label.as_str()).collect();
    assert_eq!(labels, vec!["Code Notes", "Visual Studio Code"]);
}

#[test]
fn letters_of_any_script_match_in_either_case() {
    let entry = CommandEntry::open_path("ÄPFEL", "C:\\x");
    assert!(palette::matches_query(&entry, "äpfel"));
}

#[test]
fn entries_are_collected_once() {
    let specs = vec![ItemSpec {
        label: Some("Notes".to_string()),
        path: Some(r"C:\notes.exe".to_string()),
        ..Default::default()
    }];
    let windows = vec![RunningWindow { hwnd: 4, title: "todo".to_string(), exe_path: None }];
    let programs = vec![DesktopEntry {
        label: "Notes".to_string(),
        key: "k".to_string(),
        path: Some(r"C:\NOTES.exe".to_string()),
        pidl: None,
        kind: ContentKind::Application,
    }];
    let entries = palette::collect_entries(&specs, &vec![None], &windows, &programs);
    assert_eq!(entries.len(), 2);
    assert_eq!(palette::filter_entries(&entries, "", 1).len(), 1);
    assert!(matches!(
        palette::selected(&entries, 0),
        Some(CommandAction::OpenPath(_)) | Some(CommandAction::ActivateWindow(_))
    ));
    assert!(palette::selected(&entries, -1).is_none());
    assert!(palette::selected(&entries, 2).is_none());
}

#[test]
fn preview_layout_wraps_after_four_windows() {
    let layout = preview::preview_layout(5, 0, &preview::base_metrics());

    assert_eq!(layout.columns, 4);
    assert_eq!(layout.rows, 2);
    assert_eq!(layout.items.len(), 5);
    assert!(layout.width > layout.items[3].right);
    assert!(layout.items[4].top > layout.items[0].top);
}

#[test]
fn preview_layout_adds_a_footer_strip_only_when_capped() {
    let no_overflow = preview::preview_layout(MAX_THUMBS, 0, &preview::base_metrics());
    let with_overflow = preview::preview_layout(MAX_THUMBS, 3, &preview::base_metrics());
    assert_eq!(with_overflow.items.len(), no_overflow.items.len());
    assert_eq!(with_overflow.height - no_overflow.height, FOOTER_H);
}

#[test]
fn minimized_hidden_or_cloaked_windows_use_the_designed_fallback() {
    assert_eq!(
        preview::preview_visual(true, true, false, false),
        PreviewVisual::LiveThumbnail
    );
    assert_eq!(preview::preview_visual(true, true, true, false), PreviewVisual::IconFallback);
    assert_eq!(preview::preview_visual(true, false, false, false), PreviewVisual::IconFallback);
    assert_eq!(preview::preview_visual(true, true, false, true), PreviewVisual::IconFallback);
    assert_eq!(preview::preview_visual(false, true, false, false), PreviewVisual::IconFallback);
}

fn refs(handles: &[isize]) -> Vec<RunningWindowRef> {
    handles.iter().map(|h| RunningWindowRef { hwnd: *h, title: format!("w{h}") }).collect()
}

#[test]
fn a_click_on_a_card_goes_to_its_window() {
    let m = preview::base_metrics();
    let layout = preview::preview_layout(2, 0, &m);
    let card = preview::card_rect(&layout.items[1], &m);
    let close = preview::close_rect(&layout.items[1], &m);
    assert_eq!(preview::hit_test(&layout.items, &m, card.left + 1, card.bottom - 1), Some(1));
    assert_eq!(
        preview::close_hit_test(&layout.items, &m, close.left + 1, close.top + 1),
        Some(1)
    );
    let windows = refs(&[7, 8]);
    assert_eq!(
        preview::on_click(&windows, Some(1), Some(1)),
        PreviewClick::CloseWindow(1, Some(8))
    );
    assert_eq!(
        preview::on_click(&windows, None, Some(0)),
        PreviewClick::Dismiss(Some(7))
    );
    let mut windows = windows;
    assert!(preview::remove_window(&mut windows, 0).is_some());
    assert_eq!(windows, refs(&[8]));
    assert!(preview::remove_window(&mut windows, 0).is_none());
    assert_eq!(preview::shown_and_left(15), (12, 3));
    assert!(preview::already_shown("k", &refs(&[1]), "k", &refs(&[1])));
    assert!(!preview::already_shown("k", &refs(&[1]), "k", &refs(&[2])));
}

#[test]
fn a_preview_stands_above_its_icon() {
    let work = Some(ScreenRect { left: 0, top: 0, right: 1920, bottom: 1040 });
    assert_eq!(preview::preview_origin(960, 900, 400, 200, work), (760, 688));
    let (x, _) = preview::preview_origin(0, 900, 400, 200, work);
    assert_eq!(x, 8);
}

#[test]
fn fits_wide_thumbnail_without_distortion() {
    let container = ScreenRect { left: 0, top: 0, right: 100, bottom: 100 };
    let rect = fitting::fit_rect(container, 200, 100);
    assert_eq!(rect.left, 0);
    assert_eq!(rect.right, 100);
    assert_eq!(rect.top, 25);
    assert_eq!(rect.bottom, 75);
    assert_eq!(fitting::fit_rect(container, 0, 100), container);
}

#[test]
fn thumbnails_are_rounded_to_pixels() {
    let bounds = ScreenRect { left: 10, top: 20, right: 110, bottom: 70 };
    let rect = fitting::fit_thumbnail_rect(bounds, 1920, 1080);
    assert_eq!((rect.right - rect.left, rect.bottom - rect.top), (89, 50));
    assert_eq!((rect.left, rect.top), (15, 20));
    assert_eq!(fitting::load_size(100, 50, 256), Some((100, 50)));
    assert_eq!(fitting::load_size(1000, 1, 256), Some((256, 1)));
    assert_eq!(fitting::load_size(300, 600, 256), Some((128, 256)));
    assert_eq!(fitting::load_size(0, 5, 256), None);
}

#[test]
fn settings_follow_their_controls() {
    let mut s = Settings::default();
    let none: Vec<usize> = vec![];
    let steps = window::on_command(&mut s, window::ID_TB_HIDDEN, 0, true, None, &none);
    assert_eq!(s.taskbar_mode, TaskbarMode::Hidden);
    assert!(steps.contains(&SettingsStep::ApplyTaskbar(TaskbarMode::Hidden)));
    assert!(steps.contains(&SettingsStep::Save));
    window::on_command(&mut s, window::ID_DOCK_AUTOHIDE, 0, true, None, &none);
    assert_eq!(s.dock_mode, DockMode::AutoHide);
    window::on_command(&mut s, window::ID_FULLSCREEN, 0, false, None, &none);
    assert!(!s.hide_on_fullscreen);
    window::on_command(&mut s, window::ID_THEME, window::CODE_SELECTED, false, Some(1), &none);
    assert_eq!(Some(s.theme), ThemePreset::at(1));
    let steps = window::on_command(&mut s, window::ID_PIN_REMOVE, 0, false, Some(1), &vec![4, 9]);
    assert!(steps.contains(&SettingsStep::RemovePin(9)));
    let before = s;
    assert!(window::on_command(&mut s, 9999, 0, false, None, &none).is_empty());
    assert_eq!(s, before);
    assert_eq!(window::controls().len(), window::CONTROL_COUNT);
    assert_eq!(window::rgb(1, 2, 3), 0x0003_0201);
}
