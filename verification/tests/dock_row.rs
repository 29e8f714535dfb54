//! The row of the dock: merging, leaving, and where icons stand.

use featherdock::behavior;
use featherdock::behavior::HitZone;
use featherdock::content::ContentKind;
use featherdock::dock;
use featherdock::dock::{Dock, DockItem, ItemKey, ItemRole, RunningWindowRef};
use featherdock::row_layout;
use featherdock::row_layout::{Row, Zone};
use featherdock::settings::Settings;

fn item(role: ItemRole, hwnd: Option<isize>, path: Option<&str>) -> DockItem {
    DockItem {
        label: String::new(),
        glyph: "",
        color: (0, 0, 0),
        path: path.map(str::to_string),
        icon: None,
        kind: ContentKind::Application,
        role,
        hwnd,
        group_key: hwnd.map(|value| format!("hwnd:{value}")),
        windows: hwnd
            .map(|value| vec![RunningWindowRef { hwnd: value, title: String::new() }])
            .unwrap_or_default(),
    }
}

fn start() -> DockItem {
    item(ItemRole::Start, None, None)
}

fn divider() -> DockItem {
    item(ItemRole::Divider, None, None)
}

fn running(hwnd: isize) -> DockItem {
    item(ItemRole::Running, Some(hwnd), None)
}

fn running_group(key: &str, hwnd: isize) -> DockItem {
    let mut item = running(hwnd);
    item.group_key = Some(key.to_string());
    item
}

fn pinned(path: &str, hwnd: Option<isize>) -> DockItem {
    let mut item = item(ItemRole::Pinned, None, Some(path));
    item.hwnd = hwnd;
    item.windows = hwnd
        .map(|value| vec![RunningWindowRef { hwnd: value, title: "Pinned app".to_string() }])
        .unwrap_or_default();
    item
}

fn keys(dock: &Dock) -> Vec<ItemKey> {
    dock.items.iter().map(DockItem::key).collect()
}

fn presence(dock: &Dock, i: usize) -> f32 {
    f32::from_bits(dock.slots[i].presence)
}

#[test]
fn opening_a_window_inserts_an_entering_slot_keeping_others() {
    let mut dock = Dock::new(vec![start(), running(10)]);
    let remap = dock.reconcile(vec![start(), divider(), running(10), running(20)]);
    assert_eq!(
        keys(&dock),
        vec![
            ItemKey::Start,
            ItemKey::Divider,
            ItemKey::Running("hwnd:10".to_string()),
            ItemKey::Running("hwnd:20".to_string())
        ]
    );
    assert_eq!(remap, vec![Some(0), None, Some(1), None]);
    assert_eq!(presence(&dock, 2), 1.0);
    assert_eq!(presence(&dock, 3), 0.0);
    assert!(dock.slots[3].staying);
}

#[test]
fn closing_a_window_keeps_it_exiting_then_drops_it() {
    let mut dock = Dock::new(vec![start(), divider(), running(10), running(20)]);
    dock.reconcile(vec![start(), divider(), running(10)]);
    assert_eq!(keys(&dock).len(), 4);
    let exiting = keys(&dock)
        .iter()
        .position(|k| *k == ItemKey::Running("hwnd:20".to_string()))
        .unwrap();
    assert!(!dock.slots[exiting].staying);
    assert!(dock.take_finished_exits().is_empty());

    dock.slots[exiting].presence = 0.0f32.to_bits();
    assert_eq!(dock.take_finished_exits(), vec![exiting]);
    assert_eq!(
        keys(&dock),
        vec![
            ItemKey::Start,
            ItemKey::Divider,
            ItemKey::Running("hwnd:10".to_string())
        ]
    );
}

#[test]
fn reordering_running_groups_reuses_icons_by_key() {
    let mut dock = Dock::new(vec![
        start(),
        divider(),
        running_group("explorer.exe", 10),
        running_group("mihoyo.exe", 20),
    ]);

    let remap = dock.reconcile(vec![
        start(),
        divider(),
        running_group("mihoyo.exe", 20),
        running_group("explorer.exe", 10),
    ]);

    assert_eq!(
        keys(&dock),
        vec![
            ItemKey::Start,
            ItemKey::Divider,
            ItemKey::Running("mihoyo.exe".to_string()),
            ItemKey::Running("explorer.exe".to_string())
        ]
    );
    assert_eq!(remap, vec![Some(0), Some(1), Some(3), Some(2)]);
}

#[test]
fn middle_insertion_lands_between_the_right_neighbours() {
    let mut dock = Dock::new(vec![start(), divider(), running(10), running(30)]);
    let remap = dock.reconcile(vec![
        start(),
        divider(),
        running(10),
        running(20),
        running(30),
    ]);
    assert_eq!(
        keys(&dock),
        vec![
            ItemKey::Start,
            ItemKey::Divider,
            ItemKey::Running("hwnd:10".to_string()),
            ItemKey::Running("hwnd:20".to_string()),
            ItemKey::Running("hwnd:30".to_string())
        ]
    );
    assert_eq!(remap, vec![Some(0), Some(1), Some(2), None, Some(3)]);
}

#[test]
fn reopening_a_closing_window_revives_it() {
    let mut dock = Dock::new(vec![start(), divider(), running(10)]);
    dock.reconcile(vec![start()]);
    let r = keys(&dock)
        .iter()
        .position(|k| *k == ItemKey::Running("hwnd:10".to_string()))
        .unwrap();
    dock.slots[r].presence = 0.4f32.to_bits();
    dock.reconcile(vec![start(), divider(), running(10)]);
    let r = keys(&dock)
        .iter()
        .position(|k| *k == ItemKey::Running("hwnd:10".to_string()))
        .unwrap();
    assert!(dock.slots[r].staying);
    assert_eq!(presence(&dock, r), 0.4);
}

#[test]
fn closing_a_pinned_app_turns_off_its_running_indicator() {
    let path = r"C:\Apps\Pinned.exe";
    let mut dock = Dock::new(vec![pinned(path, Some(42))]);
    dock.reconcile(vec![pinned(path, None)]);
    assert_eq!(f32::from_bits(dock.slots[0].running_presence), 1.0);
    assert!(!dock.slots[0].running);
}

#[test]
fn a_slot_is_dropped_at_the_least_presence_and_not_above() {
    let mut dock = Dock::new(vec![start(), running(10)]);
    dock.reconcile(vec![start()]);
    dock.slots[1].presence = 0.0151f32.to_bits();
    assert!(dock.take_finished_exits().is_empty());
    dock.slots[1].presence = 0.015f32.to_bits();
    assert_eq!(dock.take_finished_exits(), vec![1]);
    assert_eq!(dock.items.len(), 1);
    assert_eq!(dock.slots.len(), 1);
}

#[test]
fn clicks_go_to_icons_that_stay() {
    let mut dock = Dock::new(vec![start(), divider(), running(10)]);
    assert_eq!(dock.hit_test(&vec![false, true, false]), None);
    assert_eq!(dock.hit_test(&vec![false, true, true]), Some(2));
    dock.reconcile(vec![start()]);
    assert_eq!(dock.hit_test(&vec![false, false, true]), None);
    dock.bump(0);
    assert_eq!(f32::from_bits(dock.slots[0].bounce), 1.0);
    dock.bump(9);
}

/// Units to the pixel in the rows below.
const UNIT: f64 = 1024.0;

fn row(scales: &[f64]) -> Row {
    let n = scales.len();
    let mut gaps = vec![(14.0 * UNIT) as u32; n];
    gaps[0] = 0;
    Row {
        rest: vec![(50.0 * UNIT) as u32; n],
        wide: scales.iter().map(|s| (50.0 * UNIT * s) as u32).collect(),
        gaps,
    }
}

/// How much the icons are magnified around a place.
fn bell(places: &[i64], cursor: i64) -> Vec<f64> {
    places
        .iter()
        .map(|place| {
            let d = (cursor - place).abs() as f64 / (2.0 * UNIT);
            if d >= 130.0 {
                1.0
            } else {
                1.0 + 0.9 * 0.5 * (1.0 + (std::f64::consts::PI * d / 130.0).cos())
            }
        })
        .collect()
}

const WIN: u32 = 1200 * 1024;

#[test]
fn cursor_anchored_icon_stays_at_resting_centre() {
    let rest = row_layout::rest_centers(&row(&[1.0; 5]), WIN);
    let hovered = 2;
    let scales = bell(&rest, rest[hovered]);
    let places = row_layout::centers(&row(&scales), WIN, Some(rest[hovered]));

    assert_eq!(places[hovered], rest[hovered]);
    assert!(places[0] < rest[0]);
    assert!(places[4] > rest[4]);
}

#[test]
fn frame_lays_out_against_the_smoothed_cursor_not_the_raw_pointer() {
    let magnified = row(&[1.5; 3]);
    let rest = row_layout::rest_centers(&magnified, WIN);

    let anchor_pose = row_layout::centers(&magnified, WIN, Some(rest[0]));
    let shifted_pose = row_layout::centers(&magnified, WIN, Some(rest[1]));
    let total: f64 = anchor_pose
        .iter()
        .zip(&shifted_pose)
        .map(|(a, b)| (a - b).abs() as f64 / (2.0 * UNIT))
        .sum();
    assert!(total > 1.0, "the cursor must drive the row shift, got {total}px");

    let mid_pose = row_layout::centers(&magnified, WIN, Some((rest[0] + rest[1]) / 2));
    for ((m, a), b) in mid_pose.iter().zip(&anchor_pose).zip(&shifted_pose) {
        assert!(
            (*m as f64 - (a + b) as f64 / 2.0).abs() / (2.0 * UNIT) < 1e-3,
            "mid-point cursor must interpolate half-way between the poses"
        );
    }
}

#[test]
fn cursor_sweep_never_snaps_the_row_sideways() {
    let resting = row(&[1.0; 7]);
    let rest = row_layout::rest_centers(&resting, WIN);
    let span = rest[1] - rest[0];

    let mut max_jump = 0.0f64;
    let first = rest[0] - span / 2;
    let mut prev = row_layout::centers(&row(&bell(&rest, first)), WIN, Some(first));
    let steps = 400;
    for step in 1..=steps {
        let cx = first + span * 3 * step / (2 * steps);
        let now = row_layout::centers(&row(&bell(&rest, cx)), WIN, Some(cx));
        for (a, b) in now.iter().zip(&prev) {
            max_jump = max_jump.max((a - b).abs() as f64 / (2.0 * UNIT));
        }
        prev = now;
    }

    assert!(max_jump < 2.0, "row snapped by {max_jump}px during a cursor sweep");
}

#[test]
fn a_row_without_a_pointer_is_in_the_middle() {
    let three = row(&[1.0, 1.9, 1.0]);
    let places = row_layout::centers(&three, WIN, None);
    let (left, right) = row_layout::pill_sides(&three, &places, 16 * 1024);
    assert_eq!(left, 2 * WIN as i64 - right);
    assert_eq!(row_layout::rest_centers(&row(&[1.0]), WIN), vec![WIN as i64]);
    let none = Row { rest: vec![], wide: vec![], gaps: vec![] };
    assert!(row_layout::centers(&none, WIN, Some(5)).is_empty());
    assert_eq!(row_layout::pill_sides(&none, &vec![], 3), (0, 0));
}

#[test]
fn the_pointer_is_in_the_icons_around_it() {
    let two = row(&[1.0, 1.0]);
    let places = row_layout::rest_centers(&two, WIN);
    let bottoms = vec![100 * 1024, 100 * 1024];
    let under = row_layout::icons_under(&two, &places, &bottoms, places[1], 80 * 1024);
    assert_eq!(under, vec![false, true]);
    let above = row_layout::icons_under(&two, &places, &bottoms, places[1], 40 * 1024);
    assert_eq!(above, vec![false, false]);
}

#[test]
fn the_window_holds_the_row() {
    let items = vec![start(), divider(), running(1)];
    assert_eq!(row_layout::window_size(&items, 96), (376, 145));
    assert_eq!(row_layout::window_size(&items, 144), (564, 218));
    assert_eq!(row_layout::dock_span_x(&items, 376), (150, 602));
    assert_eq!(row_layout::strip_height(96), 6);
    assert_eq!(row_layout::strip_height(24), 4);
}

/// The pill of a dock at rest in a window of a size in logical pixels.
fn pill_at_rest(dock: &Dock, size: (u32, u32)) -> Zone {
    let widths: Vec<u32> =
        dock.items.iter().map(|item| 192 * dock::role_base_width(item.role)).collect();
    let gaps = (0..widths.len()).map(|i| if i == 0 { 0 } else { 192 * row_layout::GAP }).collect();
    let row = Row { rest: widths.clone(), wide: widths, gaps };
    let places = row_layout::centers(&row, 192 * size.0, None);
    let (left, right) = row_layout::pill_sides(&row, &places, 192 * row_layout::PILL_PAD_X);
    Zone {
        left: left / 2,
        top: 192 * row_layout::pill_top(size.1),
        right: right / 2,
        bottom: 192 * (size.1 - row_layout::SHOWN_GAP) as i64,
    }
}

#[test]
fn hit_zone_tightens_to_the_pill_at_rest_and_expands_on_hover() {
    let dock = Dock::new(vec![start(), running(10)]);
    let size = (1200, 140);
    let shown = 1.0f32.to_bits();
    let pill = pill_at_rest(&dock, size);
    let zone = |hovered: bool| dock.pointer_hit_zone(size, 96, shown, hovered, pill);
    assert_eq!(zone(false), pill);
    assert_eq!(zone(true), dock.interactive_hit_zone(size, 96, shown));
    assert!(zone(false).top > zone(true).top);
    assert_eq!(pill, Zone { left: 192 * 527, top: 192 * 64, right: 192 * 673, bottom: 192 * 132 });
    let all = Zone { left: 192 * 502, top: 192 * 27, right: 192 * 698, bottom: 192 * 140 };
    assert_eq!(zone(true), all);
    let state = behavior::start(Settings::default(), false, false);
    assert_eq!(behavior::hit_zone(&state), HitZone::Dock);
}

#[test]
fn visible_hide_animation_keeps_full_interactive_zone() {
    let dock = Dock::new(vec![start(), running(10)]);
    let size = (1200, 140);
    let zone = |reveal: f32| dock.interactive_hit_zone(size, 96, reveal.to_bits());
    assert_eq!(zone(0.5), dock.hit_zone(size, 96, true));
    assert_eq!(zone(0.0), dock.hit_zone(size, 96, false));
    assert_eq!(zone(0.02).top, 192 * 136);
    assert_eq!(dock.hit_zone((1200, 100), 96, true).top, 0);
    assert_eq!(dock.hit_zone((1200, 140), 144, true).left, 96 * 1200 - 144 * 196);
}

#[test]
fn rest_never_becomes_motion() {
    assert_eq!(row_layout::animation_dt(1_000_000_000, false), 0);
    assert_eq!(row_layout::animation_dt(80_000_000, true), 0);
    assert_eq!(row_layout::animation_dt(7_000_000, false), 7_000_000);
    assert_eq!(row_layout::animation_dt(80_000_000, false), 33_333_333);
}
