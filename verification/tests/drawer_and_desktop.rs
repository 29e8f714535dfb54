//! The drawer: what the desktop holds, its sections, its grid, and its commands.

use featherdock::categories::Categories;
use featherdock::content::ContentKind;
use featherdock::desktop_icons;
use featherdock::desktop_scan as scan;
use featherdock::desktop_scan::{CachedScan, DesktopEntry, FolderStamp, Launch, Place};
use featherdock::drawer;
use featherdock::drawer::{
    BackgroundCommand, DrawerEffect, DrawerState, EntryCommand, HeaderAction, ToggleStep,
};
use featherdock::drawer_input;
use featherdock::drawer_input::PromptStep;
use featherdock::drawer_layout as grid;
use featherdock::drawer_layout::{Metrics, Section, SectionKind};
use featherdock::drawer_view as view;
use featherdock::folder_stack as stack;
use featherdock::folder_stack::{StackChoice, StackEntry};

fn entry(label: &str, key: &str, path: Option<&str>, kind: ContentKind) -> DesktopEntry {
    DesktopEntry {
        label: label.to_string(),
        key: key.to_string(),
        path: path.map(str::to_string),
        pidl: None,
        kind,
    }
}

fn strings(items: &[&str]) -> Vec<String> {
    items.iter().map(|s| s.to_string()).collect()
}

fn metrics() -> Metrics {
    Metrics {
        width: 100,
        cols: 5,
        lpad: 0,
        cell_w: 20,
        cell_h: 20,
        gap_x: 0,
        gap_y: 0,
        header_h: 10,
        section_gap: 0,
        add_h: 10,
    }
}

#[test]
fn sectionize_orders_custom_first_then_uncategorized() {
    let keys: Vec<String> = ["a", "b", "c", "d"].iter().map(|s| s.to_string()).collect();
    let mut cats = Categories::default();
    let g = cats.add("games");
    cats.move_item("c", Some(g), 0);
    cats.move_item("a", Some(g), 1);

    let sections = grid::sectionize(&keys, &cats);
    assert_eq!(sections.len(), 2);
    assert_eq!(sections[0].kind, SectionKind::Custom(0));
    assert_eq!(sections[0].entries, vec![2, 0]);
    assert_eq!(sections[1].kind, SectionKind::Uncategorized);
    assert_eq!(sections[1].entries, vec![1, 3]);
}

#[test]
fn empty_uncategorized_kept_as_drop_target_when_categories_exist() {
    let keys: Vec<String> = vec!["a".to_string()];
    let mut cats = Categories::default();
    let g = cats.add("games");
    cats.move_item("a", Some(g), 0);
    let sections = grid::sectionize(&keys, &cats);
    assert_eq!(sections.len(), 2);
    assert!(sections[1].entries.is_empty());
}

#[test]
fn drop_target_maps_into_the_right_section_and_slot() {
    let keys: Vec<String> = ["a", "b", "c"].iter().map(|s| s.to_string()).collect();
    let cats = Categories::default();
    let sections = grid::sectionize(&keys, &cats);
    let m = metrics();
    let layout = grid::compute(&sections, &m);
    let (sec, idx) = grid::drop_target(&sections, &layout, &m, 5, 20).unwrap();
    assert_eq!(sec, 0);
    assert_eq!(idx, 0);
    let (_, idx_after) = grid::drop_target(&sections, &layout, &m, 18, 20).unwrap();
    assert_eq!(idx_after, 1);
}

#[test]
fn sections_stand_below_each_other() {
    let sections = vec![
        Section { name: "A".to_string(), kind: SectionKind::Custom(0), entries: (0..7).collect() },
        Section { name: "B".to_string(), kind: SectionKind::Custom(1), entries: vec![] },
        Section { name: "C".to_string(), kind: SectionKind::Uncategorized, entries: vec![7] },
    ];
    let m = Metrics { gap_x: 2, gap_y: 3, section_gap: 4, lpad: 1, ..metrics() };
    let layout = grid::compute(&sections, &m);
    assert_eq!(layout.cells.len(), 8);
    let sixth = layout.cells[5].rect;
    assert_eq!((sixth.left, sixth.top, sixth.right, sixth.bottom), (1, 33, 21, 53));
    assert_eq!(layout.bands[0].grid_bottom, 53);
    assert_eq!(layout.bands[1].header.top, 57);
    assert_eq!(layout.bands[1].grid_bottom, 87);
    assert_eq!(layout.add_button.top, 125);
    assert_eq!(layout.content_h, 135);
    assert_eq!(grid::hit_cell(&layout, 5, 40), Some(5));
    assert_eq!(grid::hit_cell(&layout, 22, 40), None);
    assert_eq!(grid::drop_target(&sections, &layout, &m, 5, 60), Some((1, 0)));
    assert_eq!(grid::drop_target(&sections, &layout, &m, 99, 999), Some((2, 1)));
    assert_eq!(grid::drop_target(&vec![], &grid::compute(&vec![], &m), &m, 1, 1), None);
    assert_eq!(grid::rows_for(0, 5), 1);
    assert_eq!(grid::rows_for(11, 5), 3);
}

#[test]
fn the_drawer_scrolls_between_its_ends() {
    let m = view::metrics(96);
    assert_eq!(m.width, 512 * 96);
    assert_eq!((m.lpad, m.cell_w), (14 * 96, 92 * 96));
    let mut v = view::opened(1000 * 96, 600, 0, 96);
    assert_eq!(v.viewport_h, (600 - 8 - 10 - 32 - 14) * 96);
    assert_eq!(v.max_scroll, (1000 - 536) * 96);
    assert_eq!(view::window_size(&v), (512, 582));
    assert!(view::handle_scroll(&mut v, -120));
    assert_eq!(v.scroll, 100 * 96);
    assert!(view::handle_scroll(&mut v, 120));
    assert_eq!(v.scroll, 0);
    view::handle_scroll(&mut v, 32000);
    assert_eq!(v.scroll, 0);
    view::handle_scroll(&mut v, -32000);
    assert_eq!(v.scroll, v.max_scroll);
    view::refit(&mut v, 600 * 96);
    assert_eq!(v.scroll, 64 * 96);
    view::refit(&mut v, 100 * 96);
    assert_eq!((v.scroll, v.max_scroll), (0, 0));
    assert!(!view::handle_scroll(&mut v, -120));
    let small = view::opened(50 * 96, 100, 0, 96);
    assert_eq!(small.viewport_h, 50 * 96);
    assert_eq!(view::content_y(&v, 10 * 96), None);
    assert_eq!(view::content_y(&v, 40 * 96), Some(8 * 96));
}

#[test]
fn the_controls_of_a_heading_are_found() {
    let mut cats = Categories::default();
    cats.add("games");
    let sections = grid::sectionize(&strings(&["a"]), &cats);
    let layout = grid::compute(&sections, &view::metrics(96));
    let v = view::opened(layout.content_h, 900, 0, 96);
    let y = (32 + 15) * 96;
    let right = (512 - 14) * 96;
    assert_eq!(
        view::hit_header_action(&sections, &layout, &v, right - 10 * 96, y),
        Some((0, HeaderAction::Delete))
    );
    assert_eq!(
        view::hit_header_action(&sections, &layout, &v, right - 40 * 96, y),
        Some((0, HeaderAction::Rename))
    );
    assert_eq!(view::hit_header_action(&sections, &layout, &v, right - 30 * 96, y), None);
    let add = layout.add_button.top + 32 * 96 + 5;
    assert!(view::hit_add_button(&layout, &v, 100 * 96, add));
    let cell = layout.cells[0].rect;
    assert_eq!(view::cell_at(&layout, &v, cell.left + 1, cell.top + 32 * 96 + 1), Some(0));
    assert_eq!(view::drop_place(&sections, &layout, &v, cell.left, 0), None);
    assert_eq!(
        view::drop_place(&sections, &layout, &v, cell.left, 70 * 96),
        Some((0, 0))
    );
    assert!(!view::is_drag(4, 4, 96));
    assert!(!view::is_drag(6, 0, 96));
    assert!(view::is_drag(5, 4, 96));
    assert!(!view::is_drag(8, 0, 144));
}

#[test]
fn a_program_is_dragged_or_launched() {
    let mut s = DrawerState { hovered: None, drag: None, editing: false, closing: false };
    assert_eq!(drawer::on_down(&mut s, Some(3)), vec![DrawerEffect::Capture]);
    assert!(drawer::on_move(&mut s, false, None).is_empty());
    assert_eq!(drawer::on_move(&mut s, true, None), vec![DrawerEffect::Redraw]);
    assert_eq!(
        drawer::on_up(&mut s, None, false),
        vec![DrawerEffect::Release, DrawerEffect::Drop(3), DrawerEffect::Redraw]
    );
    drawer::on_down(&mut s, Some(4));
    let effects = drawer::on_up(&mut s, None, false);
    assert_eq!(effects[..2], [DrawerEffect::Release, DrawerEffect::Launch(4)]);
    assert!(s.closing);

    let mut s = DrawerState { hovered: None, drag: None, editing: false, closing: false };
    assert_eq!(
        drawer::on_up(&mut s, Some((1, HeaderAction::Delete)), true),
        vec![DrawerEffect::DeleteCategory(1)]
    );
    assert_eq!(drawer::on_up(&mut s, None, true), vec![DrawerEffect::AddCategory]);
    assert_eq!(drawer::on_right_up(&s, Some(2)), Some(DrawerEffect::EntryMenu(2)));
    s.editing = true;
    assert!(drawer::on_deactivate(&mut s).is_empty());
}

#[test]
fn the_drawer_does_not_reopen_at_once() {
    assert_eq!(drawer::toggle(true, 0, 1_000), ToggleStep::Close);
    assert_eq!(drawer::toggle(false, 1_000, 1_219), ToggleStep::Ignore);
    assert_eq!(drawer::toggle(false, 1_000, 1_220), ToggleStep::Open);
    assert_eq!(drawer::toggle(false, u32::MAX - 9, 90), ToggleStep::Ignore);
    assert_eq!(drawer::toggle(false, u32::MAX - 9, 300), ToggleStep::Open);
}

#[test]
fn menus_lead_to_their_commands() {
    let mut cats = Categories::default();
    cats.add("games");
    let lines = drawer::category_menu(&cats);
    let games = lines.iter().find(|line| line.text == "games").unwrap();
    assert_eq!(drawer::entry_command(games.id, 1), EntryCommand::MoveTo(Some(0)));
    assert_eq!(lines[0].text, "未分类");
    assert_eq!(drawer::entry_command(lines[0].id, 1), EntryCommand::MoveTo(None));
    assert_eq!(drawer::entry_command(drawer::ID_CTX_OPEN, 1), EntryCommand::Open);
    assert_eq!(drawer::entry_command(drawer::ID_CTX_PIN, 1), EntryCommand::Pin);
    assert_eq!(drawer::entry_command(drawer::ID_CTX_HIDE, 1), EntryCommand::Hide);
    assert_eq!(
        drawer::entry_command(drawer::ID_CTX_UNCATEGORIZED, 1),
        EntryCommand::MoveTo(None)
    );
    assert_eq!(drawer::entry_command(drawer::ID_CTX_NEW_CATEGORY, 1), EntryCommand::MoveToNew);
    assert_eq!(
        drawer::entry_command(drawer::ID_CTX_CATEGORY_BASE + 1, 1),
        EntryCommand::Nothing
    );
    assert_eq!(
        drawer::background_command(drawer::ID_CTX_RESTORE),
        BackgroundCommand::Restore
    );
    assert_eq!(
        drawer::background_command(drawer::ID_CTX_REFRESH),
        BackgroundCommand::Refresh
    );
    assert_eq!(drawer::background_command(0), BackgroundCommand::Nothing);
}

#[test]
fn programs_move_between_categories() {
    let scanned = vec![
        entry("B", "b", Some(r"C:\b.lnk"), ContentKind::Shortcut),
        entry("A", "a", Some(r"C:\a.exe"), ContentKind::Application),
    ];
    let mut cats = Categories::default();
    let mut entries = drawer::build_entries(scanned, &cats);
    assert_eq!(drawer::entry_keys(&entries).len(), 2);
    let index = drawer::move_entry_to_new_category(&entries, &mut cats, 0).unwrap();
    assert_eq!(cats.categories[index].name, "新分类 1");
    assert_eq!(cats.categories[index].items, vec![entries[0].key.clone()]);
    assert!(drawer::finish_rename(&mut cats, index, &Some("Mine".to_string())));
    assert_eq!(cats.categories[index].name, "Mine");
    assert!(!drawer::finish_rename(&mut cats, index, &Some(String::new())));
    assert!(!drawer::finish_rename(&mut cats, index, &None));
    let key = entries[0].key.clone();
    assert!(drawer::hide_entry(&mut entries, &mut cats, 0));
    assert_eq!(entries.len(), 1);
    assert!(cats.is_hidden(&key));
    assert!(cats.categories[index].items.is_empty());
    let keys = drawer::entry_keys(&entries);
    let sections = grid::sectionize(&keys, &cats);
    assert!(drawer::commit_drop(&entries, &sections, &mut cats, 0, Some((0, 0))));
    assert_eq!(cats.categories[index].items, keys);
    assert!(!drawer::commit_drop(&entries, &sections, &mut cats, 0, None));
}

#[test]
fn a_prompt_ends_with_what_was_typed() {
    assert!(matches!(drawer_input::on_command(1, "  x "), PromptStep::Done(Some(_))));
    assert!(matches!(drawer_input::on_command(2, "x"), PromptStep::Done(None)));
    assert!(matches!(drawer_input::on_command(77, "x"), PromptStep::Stay));
}

#[test]
fn scan_cache_is_reused_only_when_fresh_and_signature_matches() {
    let second: u128 = 1_000_000_000;
    let written = 1_000 * second;
    let now = 1_120 * second;

    assert!(scan::cache_is_fresh(written, now, "desktop-a", "desktop-a"));
    assert!(!scan::cache_is_fresh(written, now, "desktop-a", "desktop-b"));
    assert!(!scan::cache_is_fresh(
        written,
        (1_000 + scan::CACHE_TTL_SECS as u128 + 1) * second,
        "desktop-a",
        "desktop-a"
    ));
}

#[test]
fn required_virtual_items_are_appended_without_duplicates() {
    let mut entries = vec![entry("此电脑", "knownfolder:computer", None, ContentKind::Folder)];
    let virtuals = vec![
        entry("此电脑", "knownfolder:computer", None, ContentKind::Folder),
        entry("回收站", "knownfolder:recycle-bin", None, ContentKind::Folder),
        entry("控制面板", "knownfolder:control-panel", None, ContentKind::Folder),
    ];

    scan::append_missing_entries(&mut entries, virtuals);

    let keys: Vec<&str> = entries.iter().map(|entry| entry.key.as_str()).collect();
    assert_eq!(keys.len(), 3);
    assert!(keys.contains(&"knownfolder:computer"));
    assert!(keys.contains(&"knownfolder:recycle-bin"));
    assert!(keys.contains(&"knownfolder:control-panel"));
}

#[test]
fn a_written_cache_reads_back() {
    let entries = vec![
        entry("Tab\tand\\line\n", "k1", Some(r"C:\x.lnk"), ContentKind::Shortcut),
        entry("回收站", "k2", None, ContentKind::Folder),
    ];
    let text = scan::render_cache(77, "sig", &entries);
    let back = scan::parse_cache(&text).unwrap();
    assert_eq!(back.written, Some(77));
    assert_eq!(back.signature.as_deref(), Some("sig"));
    let labels: Vec<&str> = back.entries.iter().map(|e| e.label.as_str()).collect();
    assert!(labels.contains(&"Tab\tand\\line\n"));
    assert_eq!(scan::unescape(&scan::escape("a\tb\\c\nd\r")), "a\tb\\c\nd\r");
    assert_eq!(
        scan::kind_from_code(scan::kind_code(ContentKind::Image)),
        Some(ContentKind::Image)
    );
    assert_eq!(scan::kind_from_code("?"), None);
}

#[test]
fn a_cache_is_used_while_its_programs_exist() {
    let cache = |present: bool| {
        scan::usable_cache(
            CachedScan {
                written: Some(10),
                signature: Some("s".to_string()),
                entries: vec![entry("x", "k", Some(r"C:\x.lnk"), ContentKind::Shortcut)],
            },
            &vec![present],
            20_000_000_000,
            "s",
        )
    };
    assert_eq!(cache(true).unwrap().len(), 1);
    assert!(cache(false).map(|list| list.len()).unwrap_or(0) == 0);
}

#[test]
fn shell_places_are_launched_by_what_is_known_of_them() {
    assert!(matches!(
        scan::launch(Some(r"C:\x.lnk"), Some(9), None),
        Launch::Open(path) if path == r"C:\x.lnk"
    ));
    assert!(matches!(scan::launch(None, Some(9), None), Launch::Invoke(9)));
    assert!(matches!(scan::launch(None, None, None), Launch::Nothing));
    let place = scan::required_virtual_entry(Place::RecycleBin, None, None, 5);
    assert_eq!(place.label, "回收站");
    assert!(scan::known_virtual_shell_uri(&place.key).is_some());
    assert!(matches!(
        scan::launch(None, None, Some(place.key.as_str())),
        Launch::Explore(_)
    ));
    let first = scan::desktop_signature(&vec![FolderStamp {
        path: r"C:\Desktop".to_string(),
        stamp: Some((1, 2)),
    }]);
    let second = scan::desktop_signature(&vec![FolderStamp {
        path: r"C:\Desktop".to_string(),
        stamp: Some((1, 3)),
    }]);
    assert_ne!(first, second);
}

#[test]
fn each_home_gives_its_desktop_once() {
    let folders = |homes: &[&str]| {
        scan::desktop_folders(&homes.iter().map(|home| home.to_string()).collect())
    };
    assert_eq!(
        folders(&[r"C:\Users\me", r"C:\Users\me\OneDrive", r"C:\Users\Public"]),
        vec![
            r"C:\Users\Public\Desktop",
            r"C:\Users\me\Desktop",
            r"C:\Users\me\OneDrive\Desktop",
        ]
    );
    assert_eq!(
        folders(&[r"c:\Users\me\", r"C:/Users//me", r"C:\Users\.\me", r"C:\Users\Me"]),
        vec![r"C:\Users\Me\Desktop", r"c:\Users\me\Desktop"]
    );
    assert_eq!(
        folders(&[r"b", r"C:x", r"C:\x", r"\\server\share", r"\\?\C:\x", r"..", r".", r"\x"]),
        vec![
            r"\\?\C:\x\Desktop",
            r"\\server\share\Desktop",
            r"C:\x\Desktop",
            r"C:x\Desktop",
            r"\x\Desktop",
            r".\Desktop",
            r"..\Desktop",
            r"b\Desktop",
        ]
    );
    assert_eq!(
        folders(&[
            r"\\server/share\",
            r"\\server\share",
            r"\\.\disk",
            r"\\?\UNC\server\share",
            r"\\?\vol",
        ]),
        vec![
            r"\\?\vol\Desktop",
            r"\\?\UNC\server\share\Desktop",
            r"\\.\disk\Desktop",
            r"\\server/share\Desktop",
        ]
    );
    assert!(folders(&[]).is_empty());
}

#[test]
fn desktop_icons_change_only_where_they_must() {
    assert_eq!(desktop_icons::set_hidden(true, true), Some(false));
    assert_eq!(desktop_icons::set_hidden(false, true), None);
    assert_eq!(desktop_icons::set_hidden(false, false), Some(true));
    assert_eq!(desktop_icons::set_hidden(true, false), None);
    assert_eq!(desktop_icons::desktop_view(None, &vec![None, Some(4), Some(5)]), Some(4));
    assert_eq!(desktop_icons::desktop_view(Some(1), &vec![Some(4)]), Some(1));
}

#[test]
fn stack_entries_sort_folders_first_then_names() {
    let entries = stack::normalize_entries_for_menu(vec![
        StackEntry::new("zeta.txt", false, "C:\\zeta.txt"),
        StackEntry::new("Alpha", true, "C:\\Alpha"),
        StackEntry::new("beta.txt", false, "C:\\beta.txt"),
        StackEntry::new("Tools", true, "C:\\Tools"),
    ]);

    let labels: Vec<&str> = entries.iter().map(|entry| entry.label.as_str()).collect();
    assert_eq!(labels, vec!["Alpha", "Tools", "beta.txt", "zeta.txt"]);
}

#[test]
fn stack_entries_are_limited_for_fast_popups() {
    let entries: Vec<StackEntry> = (0..40)
        .map(|i| StackEntry::new(&format!("file-{i:02}.txt"), false, &format!("C:\\{i}.txt")))
        .collect();

    assert_eq!(stack::normalize_entries_for_menu(entries).len(), stack::MAX_STACK_ITEMS);
}

#[test]
fn a_stack_menu_leads_to_its_entries() {
    assert_eq!(stack::chosen(0, 3), StackChoice::Nothing);
    assert_eq!(stack::chosen(stack::ID_OPEN_FOLDER, 3), StackChoice::OpenFolder);
}
