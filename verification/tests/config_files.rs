//! The files that the user edits: pinned items, categories, settings, themes.

use featherdock::categories;
use featherdock::categories::Categories;
use featherdock::config;
use featherdock::config::{AddError, ItemSpec};
use featherdock::pins;
use featherdock::repair;
use featherdock::repair::Neighbour;
use featherdock::settings;
use featherdock::settings::{DockMode, Settings, TaskbarMode};
use featherdock::theme::ThemePreset;

fn s(text: &str) -> String {
    text.to_string()
}

#[test]
fn round_trips_names_and_members_with_backslashes() {
    let mut cats = Categories::default();
    let g = cats.add("游戏");
    cats.move_item(r"c:\games\lol.lnk", Some(g), 0);
    cats.move_item("::{645ff040-5081-101b-9f08-00aa002f954e}", Some(g), 1);
    let w = cats.add("工作");
    cats.move_item(r"c:\tools\code.exe", Some(w), 0);

    let mut body = String::new();
    for cat in &cats.categories {
        body.push_str("[[category]]\n");
        body.push_str(&format!("name = \"{}\"\n", categories::quote(&cat.name)));
        for key in &cat.items {
            body.push_str(&format!("item = \"{}\"\n", categories::quote(key)));
        }
    }

    let back = categories::parse(&body);
    assert_eq!(back.categories.len(), 2);
    assert_eq!(back.categories[0].name, "游戏");
    assert_eq!(back.categories[0].items[0], r"c:\games\lol.lnk");
    assert_eq!(
        back.categories[0].items[1],
        "::{645ff040-5081-101b-9f08-00aa002f954e}"
    );
    assert_eq!(back.categories[1].name, "工作");
}

#[test]
fn saved_categories_parse_to_the_same() {
    let mut cats = Categories::default();
    let g = cats.add("a \"quoted\" name");
    cats.move_item(r"c:\x\y.lnk", Some(g), 0);
    cats.hide_item("virt:control-panel");
    let back = categories::parse(&categories::save(&cats));
    assert_eq!(back.categories.len(), 1);
    assert_eq!(back.categories[0].name, "a \"quoted\" name");
    assert_eq!(back.categories[0].items, vec![s(r"c:\x\y.lnk")]);
    assert_eq!(back.hidden, vec![s("virt:control-panel")]);
}

#[test]
fn move_item_is_exclusive_and_clamps_index() {
    let mut cats = Categories::default();
    let a = cats.add("A");
    let b = cats.add("B");
    cats.move_item("x", Some(a), 99);
    assert_eq!(cats.categories[a].items, vec!["x".to_string()]);
    cats.move_item("x", Some(b), 0);
    assert!(cats.categories[a].items.is_empty());
    assert_eq!(cats.categories[b].items, vec!["x".to_string()]);
    assert_eq!(cats.category_of("x"), Some(b));
    cats.move_item("x", None, 0);
    assert_eq!(cats.category_of("x"), None);
}

#[test]
fn hidden_items_are_detached_and_can_be_restored() {
    let mut cats = Categories::default();
    let games = cats.add("Games");
    cats.move_item("steam", Some(games), 0);

    cats.hide_item("steam");

    assert!(cats.is_hidden("steam"));
    assert_eq!(cats.category_of("steam"), None);
    assert!(cats.categories[games].items.is_empty());

    cats.restore_hidden();

    assert!(!cats.is_hidden("steam"));
}

#[test]
fn parses_hidden_items_outside_category_tables() {
    let cats = categories::parse(
        r#"
hidden = "virt:control-panel"

[[category]]
name = "Work"
item = "code"
"#,
    );

    assert!(cats.is_hidden("virt:control-panel"));
    assert_eq!(cats.categories.len(), 1);
    assert_eq!(cats.categories[0].items, vec!["code".to_string()]);
}

#[test]
fn categories_are_renamed_and_removed_by_index() {
    let mut cats = Categories::default();
    let a = cats.add("A");
    let b = cats.add("B");
    cats.rename(b, "C");
    cats.rename(9, "nobody");
    assert_eq!(cats.categories[b].name, "C");
    cats.remove(a);
    cats.remove(9);
    assert_eq!(cats.categories.len(), 1);
    assert_eq!(cats.categories[0].name, "C");
}

#[test]
fn add_item_creates_config_when_file_missing() {
    let result = config::add_item_at(None, "My App", r"C:\app.exe");

    let text = result.unwrap();
    assert!(text.contains("label = \"My App\""));
    assert!(text.contains("path = \"C:\\\\app.exe\""));
}

#[test]
fn parses_path_and_preserves_hash_inside_quotes() {
    let cfg = config::parse(
        r#"
[[item]]
label = "C # Tools"
path = "C:\\Apps\\C # Tools\\tool.exe" # trailing comment
"#,
    );

    assert_eq!(cfg.items.len(), 1);
    assert_eq!(cfg.items[0].label.as_deref(), Some("C # Tools"));
    assert_eq!(
        cfg.items[0].path.as_deref(),
        Some(r"C:\Apps\C # Tools\tool.exe")
    );
}

#[test]
fn parses_escaped_quotes_and_backslashes() {
    let cfg = config::parse(
        r#"
[[item]]
label = "A \"quoted\" item"
path = "C:\\Tools\\app.exe"
"#,
    );
    assert_eq!(cfg.items[0].label.as_deref(), Some("A \"quoted\" item"));
    assert_eq!(cfg.items[0].path.as_deref(), Some(r"C:\Tools\app.exe"));
}

#[test]
fn appdata_config_path_is_stable() {
    assert_eq!(
        config::config_path_from(r"C:\Users\Test\AppData\Roaming"),
        r"C:\Users\Test\AppData\Roaming\FeatherDock\featherdock.toml"
    );
}

#[test]
fn add_item_writes_path_and_rejects_duplicate_case_insensitively() {
    let item = r"C:\temp\featherdock\Photo.PNG";

    let text = config::add_item_at(None, "Photo", item).unwrap();
    let upper = item.to_uppercase();
    assert!(config::add_item_at(Some(text.as_str()), "Photo duplicate", &upper).is_none());

    assert!(text.contains("path = "));
    assert_eq!(config::parse(&text).items.len(), 1);
}

#[test]
fn remove_item_drops_only_the_matching_path() {
    let a = r"C:\temp\featherdock\A.exe";
    let b = r"C:\temp\featherdock\B.exe";
    let one = config::add_item_at(None, "A", a).unwrap();
    let both = config::add_item_at(Some(one.as_str()), "B", b).unwrap();

    let upper = a.to_uppercase();
    let text = config::remove_item(Some(both.as_str()), &upper).unwrap();
    let remaining = config::parse(&text);
    assert_eq!(remaining.items.len(), 1);
    assert_eq!(
        config::path_key(remaining.items[0].path.as_deref().unwrap()),
        config::path_key(b)
    );
    assert!(config::remove_item(Some(text.as_str()), a).is_none());
}

#[test]
fn remove_item_at_index_drops_app_entry_with_no_path() {
    let text = "[[item]]\nlabel = \"Chrome\"\napp = \"chrome.exe\"\n\n[[item]]\nlabel = \"B\"\npath = \"C:\\\\B.exe\"\n";
    assert_eq!(config::parse(text).items.len(), 2);

    let left = config::remove_item_at_index(Some(text), 0).unwrap();
    let remaining = config::parse(&left);
    assert_eq!(remaining.items.len(), 1);
    assert_eq!(remaining.items[0].label.as_deref(), Some("B"));
    assert_eq!(remaining.items[0].path.as_deref(), Some(r"C:\B.exe"));

    assert!(config::remove_item_at_index(Some(left.as_str()), 5).is_none());
    assert_eq!(config::parse(&left).items.len(), 1);
}

#[test]
fn windowsapps_repair_candidates_keep_subpath_on_newest_matching_package() {
    let old = r"C:\Program Files\WindowsApps\OpenAI.Codex_26.623.9142.0_x64__2p2nqsd0c76g0\app\Codex.exe";
    let packages = vec![
        "OpenAI.Codex_26.623.9142.0_x64__2p2nqsd0c76g0".to_string(),
        "OpenAI.Codex_26.623.13972.0_x64__2p2nqsd0c76g0".to_string(),
        "OpenAI.Codex_26.623.15000.0_arm64__2p2nqsd0c76g0".to_string(),
        "Other.App_99.0.0.0_x64__2p2nqsd0c76g0".to_string(),
    ];

    let candidates = repair::windowsapps_repair_candidates(old, &packages);

    assert_eq!(
        candidates.first().map(String::as_str),
        Some(
            r"C:\Program Files\WindowsApps\OpenAI.Codex_26.623.13972.0_x64__2p2nqsd0c76g0\app\Codex.exe"
        )
    );
    assert_eq!(candidates.len(), 2);
}

#[test]
fn sibling_exe_repair_ignores_uninstaller() {
    let dir = r"C:\temp\sibling-exe";
    let app = format!("{dir}\\Bilibili.exe");
    let found = Some(vec![
        Neighbour { path: app.clone(), is_file: true },
        Neighbour { path: format!("{dir}\\\u{5378}\u{8f7d}Bilibili.exe"), is_file: true },
    ]);

    let repaired = repair::repair_sibling_exe_path(&format!("{dir}\\garbled.exe"), &found);

    assert_eq!(repaired, Some(app));
}

#[test]
fn sibling_exe_repair_needs_a_single_program() {
    let found = Some(vec![
        Neighbour { path: s(r"C:\x\One.exe"), is_file: true },
        Neighbour { path: s(r"C:\x\Two.exe"), is_file: true },
        Neighbour { path: s(r"C:\x\Three.exe"), is_file: false },
    ]);
    assert_eq!(repair::repair_sibling_exe_path(r"C:\x\gone.exe", &found), None);
    assert_eq!(repair::repair_sibling_exe_path(r"C:\x\gone.exe", &None), None);
}

#[test]
fn migrates_legacy_config_without_overwriting_existing_target() {
    assert!(config::needs_migration(false, true, false));
    assert!(!config::needs_migration(true, true, false));
    assert!(!config::needs_migration(false, false, false));
    assert!(!config::needs_migration(false, true, true));
}

#[test]
fn adding_a_missing_path_is_an_error() {
    match config::add_item(None, "Gone", r"C:\gone.exe", false) {
        Err(AddError::PathMissing(path)) => assert_eq!(path, r"C:\gone.exe"),
        _ => panic!("a missing path must be refused"),
    }
    assert!(matches!(
        config::add_item(None, "Here", r"C:\here.exe", true),
        Ok(Some(_))
    ));
}

#[test]
fn pinning_stops_at_the_first_missing_path() {
    let paths = vec![s(r"C:\a.exe"), s(r"C:\A.EXE"), s(r"C:\gone.exe"), s(r"C:\b.exe")];
    let exist = vec![true, true, false, true];
    let done = pins::add_contents(None, &paths, &exist);
    assert_eq!(done.count, 1);
    assert_eq!(done.missing.as_deref(), Some(r"C:\gone.exe"));
    let cfg = config::parse(done.content.as_deref().unwrap());
    assert_eq!(cfg.items.len(), 1);
    assert_eq!(cfg.items[0].label.as_deref(), Some("a"));
    assert_eq!(pins::missing_text(r"C:\gone.exe"), r"路径不存在：C:\gone.exe");
}

#[test]
fn the_system_answers_with_a_number() {
    assert_eq!(pins::open_error(33), None);
    assert_eq!(
        pins::open_error(2).as_deref(),
        Some("Windows 无法打开此内容（ShellExecute=2）")
    );
}

#[test]
fn rendered_items_parse_to_the_same() {
    let cfg = config::parse(
        "[[item]]\nlabel = \"Chrome\"\napp = \"chrome.exe\"\nicon = \"C:\\\\i.ico\"\n",
    );
    let back = config::parse(&config::render(&cfg));
    assert_eq!(back.items.len(), 1);
    assert_eq!(back.items[0].label.as_deref(), Some("Chrome"));
    assert_eq!(back.items[0].app.as_deref(), Some("chrome.exe"));
    assert_eq!(back.items[0].icon.as_deref(), Some(r"C:\i.ico"));
    assert_eq!(back.items[0].path, None);
}

const MIXED: &str = r#"
[[item]]
label = "Gone"
path = "C:\\gone.exe"

[[item]]
label = "a\nb"
path = "C:\\kept.lnk"
exe = "C:\\kept.exe"
app = "kept.exe"
icon = 'C:\icons # 1\kept.ico'

[[item]]
exe = "C:\\last.exe"
"#;

fn assert_kept(spec: &ItemSpec) {
    assert_eq!(spec.label.as_deref(), Some("a\nb"));
    assert_eq!(spec.path.as_deref(), Some(r"C:\kept.lnk"));
    assert_eq!(spec.exe.as_deref(), Some(r"C:\kept.exe"));
    assert_eq!(spec.app.as_deref(), Some("kept.exe"));
    assert_eq!(spec.icon.as_deref(), Some(r"C:\icons # 1\kept.ico"));
}

#[test]
fn removing_one_item_leaves_the_others_as_they_are() {
    let before = config::parse(MIXED);
    assert_eq!(before.items.len(), 3);
    assert_kept(&before.items[1]);

    let text = config::remove_item(Some(MIXED), r"c:/GONE.exe").unwrap();
    let left = config::parse(&text);
    assert_eq!(left.items.len(), 2);
    assert_kept(&left.items[0]);
    assert_eq!(left.items[1].label, None);
    assert_eq!(left.items[1].path, None);
    assert_eq!(left.items[1].exe.as_deref(), Some(r"C:\last.exe"));

    let text = config::remove_item_at_index(Some(MIXED), 2).unwrap();
    let left = config::parse(&text);
    assert_eq!(left.items.len(), 2);
    assert_eq!(left.items[0].path.as_deref(), Some(r"C:\gone.exe"));
    assert_kept(&left.items[1]);

    let text =
        config::replace_launch_path(Some(MIXED), r"C:\gone.exe", r"C:\found.exe").unwrap();
    let left = config::parse(&text);
    assert_eq!(left.items.len(), 3);
    assert_eq!(left.items[0].path.as_deref(), Some(r"C:\found.exe"));
    assert_kept(&left.items[1]);
}

#[test]
fn a_line_feed_in_a_value_is_written_as_an_escape() {
    assert_eq!(config::quote("a\nb\\\"c\r"), "a\\nb\\\\\\\"c\r");
    assert_eq!(categories::quote("a\nb"), "a\nb");
    let text = config::add_item_at(None, "two\nlines \\n", "C:\\a\nb.exe").unwrap();
    assert!(text.ends_with("label = \"two\\nlines \\\\n\"\npath = \"C:\\\\a\\nb.exe\"\n"));
    let cfg = config::parse(&text);
    assert_eq!(cfg.items.len(), 1);
    assert_eq!(cfg.items[0].label.as_deref(), Some("two\nlines \\n"));
    assert_eq!(cfg.items[0].path.as_deref(), Some("C:\\a\nb.exe"));
    assert!(config::add_item_at(Some(text.as_str()), "Again", "c:/A\nB.exe").is_none());
}

#[test]
fn a_moved_program_is_launched_from_its_new_place() {
    let text = config::add_item_at(None, "App", r"C:\old\app.exe").unwrap();
    let moved =
        config::replace_launch_path(Some(text.as_str()), r"c:\OLD\app.exe", r"C:\new\app.exe")
            .unwrap();
    assert_eq!(config::parse(&moved).items[0].path.as_deref(), Some(r"C:\new\app.exe"));
    let untouched: Option<String> =
        config::replace_launch_path(Some(text.as_str()), r"C:\else.exe", r"C:\new\app.exe");
    assert_eq!(untouched, None);
}

#[test]
fn an_item_without_fields_is_empty() {
    let spec = ItemSpec::default();
    assert!(spec.label.is_none() && spec.path.is_none() && spec.exe.is_none());
    assert!(config::item_path(&spec).is_none());
}

#[test]
fn parses_mode_and_flag() {
    assert!(matches!(Settings::default().dock_mode, DockMode::Always));
    assert!(Settings::default().hide_on_fullscreen);
    assert!(Settings::default().hide_on_maximized);
    assert_eq!(Settings::default().theme, ThemePreset::Glass);

    assert_eq!(DockMode::parse("autohide"), Some(DockMode::AutoHide));
    assert_eq!(DockMode::parse("ALWAYS"), Some(DockMode::Always));
    assert_eq!(DockMode::parse("nonsense"), None);
}

#[test]
fn parses_theme_preset_without_disturbing_other_settings() {
    let mut settings = Settings::default();
    for line in "theme = \"compact\"\nhide_on_fullscreen = false".lines() {
        settings::parse_line_into(&mut settings, line);
    }

    assert_eq!(settings.theme, ThemePreset::Compact);
    assert!(!settings.hide_on_fullscreen);
}

#[test]
fn saved_settings_parse_to_the_same() {
    let mut chosen = Settings::default();
    chosen.dock_mode = DockMode::AutoHide;
    chosen.taskbar_mode = TaskbarMode::Hidden;
    chosen.theme = ThemePreset::Macos;
    chosen.hide_desktop_icons = true;
    chosen.hide_on_maximized = false;
    assert_eq!(settings::parse(&settings::save(&chosen)), chosen);
    assert_eq!(settings::parse("nothing of use\n= 3\n"), Settings::default());
}

#[test]
fn parses_known_theme_names_case_insensitively() {
    assert_eq!(ThemePreset::parse("glass"), Some(ThemePreset::Glass));
    assert_eq!(ThemePreset::parse("COMPACT"), Some(ThemePreset::Compact));
    assert_eq!(ThemePreset::parse("solid"), Some(ThemePreset::Solid));
    assert_eq!(ThemePreset::parse("macos"), Some(ThemePreset::Macos));
    assert_eq!(ThemePreset::parse("contrast"), Some(ThemePreset::Contrast));
    assert_eq!(ThemePreset::parse("unknown"), None);
}

#[test]
fn compact_theme_has_smaller_visual_density_than_glass() {
    let glass = ThemePreset::Glass.visual();
    let compact = ThemePreset::Compact.visual();
    assert!(compact.pill_alpha >= glass.pill_alpha);
    assert!(compact.border_alpha <= glass.border_alpha);
}

#[test]
fn adjacent_theme_pills_are_obviously_distinct() {
    let all: Vec<ThemePreset> = (0..5).filter_map(ThemePreset::at).collect();
    assert_eq!(all.len(), 5);
    assert_eq!(ThemePreset::at(5), None);
    for pair in all.windows(2) {
        let a = pair[0].visual();
        let b = pair[1].visual();
        let part = |x: u8, y: u8| (x as f32 - y as f32).abs() / 100.0;
        let rgb_delta = part(a.pill_rgb.0, b.pill_rgb.0)
            + part(a.pill_rgb.1, b.pill_rgb.1)
            + part(a.pill_rgb.2, b.pill_rgb.2);
        let alpha_delta = part(a.pill_alpha, b.pill_alpha);
        assert!(
            rgb_delta >= 0.18 || alpha_delta >= 0.25,
            "{:?} and {:?} are too similar: rgb_delta={rgb_delta:.3}, alpha_delta={alpha_delta:.3}",
            pair[0],
            pair[1]
        );
    }
}
