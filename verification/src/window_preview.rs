//! The preview of an application's windows: a grid of cards above its icon.

use vstd::prelude::*;
use crate::dock::RunningWindowRef;
use crate::numbers;
use crate::text;
use crate::windows_list::ScreenRect;

verus! {

/// The most cards in a row.
pub const MAX_COLUMNS: usize = 4;

/// The most cards.
pub const MAX_THUMBS: usize = 12;

/// The height of the strip that says how many windows have no card.
pub const FOOTER_H: i32 = 22;

/// Lengths of the preview, scaled for the display.
#[derive(Clone, Copy, Debug, PartialEq, Eq, Structural)]
pub struct PreviewMetrics {
    pub thumb_w: i32,
    pub thumb_h: i32,
    /// The strip with the title above a thumbnail.
    pub header_h: i32,
    pub pad: i32,
    pub gap: i32,
    pub footer_h: i32,
    /// The diameter of the close button.
    pub close_d: i32,
    /// Between the close button and the side of the card.
    pub close_margin: i32,
    /// Before the title.
    pub title_inset: i32,
    /// Between the title and the close button.
    pub title_gap: i32,
}

/// The lengths without scaling.
pub fn base_metrics() -> (r: PreviewMetrics)
    ensures
        r == (PreviewMetrics {
            thumb_w: 220,
            thumb_h: 124,
            header_h: 24,
            pad: 10,
            gap: 10,
            footer_h: FOOTER_H,
            close_d: 16,
            close_margin: 4,
            title_inset: 8,
            title_gap: 6,
        }),
{
    PreviewMetrics {
        thumb_w: 220,
        thumb_h: 124,
        header_h: 24,
        pad: 10,
        gap: 10,
        footer_h: FOOTER_H,
        close_d: 16,
        close_margin: 4,
        title_inset: 8,
        title_gap: 6,
    }
}

/// A length in pixels at a density of dots per inch, rounded to the nearest pixel.
pub open spec fn at_density(length: int, dots: int) -> int {
    (2 * (length * dots) + 96) / 192
}

/// A length in pixels at a density of dots per inch, rounded to the nearest pixel.
pub fn scaled(length: i32, dots: u32) -> (r: i32)
    requires
        0 <= length <= 0x1000,
        dots <= 0x1_0000,
    ensures
        r == at_density(length as int, dots as int),
{
    assert(0 <= length * dots <= 0x1000 * 0x1_0000) by (nonlinear_arith)
        requires
            0 <= length <= 0x1000,
            0 <= dots <= 0x1_0000,
    ;
    ((2 * (length as i64 * dots as i64) + 96) / 192) as i32
}

/// The lengths at a density of dots per inch.
pub open spec fn metrics_of(dots: int) -> PreviewMetrics {
    PreviewMetrics {
        thumb_w: at_density(220, dots) as i32,
        thumb_h: at_density(124, dots) as i32,
        header_h: at_density(24, dots) as i32,
        pad: at_density(10, dots) as i32,
        gap: at_density(10, dots) as i32,
        footer_h: at_density(FOOTER_H as int, dots) as i32,
        close_d: at_density(16, dots) as i32,
        close_margin: at_density(4, dots) as i32,
        title_inset: at_density(8, dots) as i32,
        title_gap: at_density(6, dots) as i32,
    }
}

/// How a window is shown on its card.
#[derive(Clone, Copy, Debug, PartialEq, Eq, Structural)]
pub enum PreviewVisual {
    LiveThumbnail,
    IconFallback,
}

/// How a window is shown: live where there is something to see of it.
pub fn preview_visual(is_window: bool, is_visible: bool, is_iconic: bool, is_cloaked: bool) -> (r:
    PreviewVisual)
    ensures
        r == (if is_window && is_visible && !is_iconic && !is_cloaked {
            PreviewVisual::LiveThumbnail
        } else {
            PreviewVisual::IconFallback
        }),
{
    if is_window && is_visible && !is_iconic && !is_cloaked {
        PreviewVisual::LiveThumbnail
    } else {
        PreviewVisual::IconFallback
    }
}

/// Where the cards stand. `items` are the thumbnails.
#[derive(Clone, Debug)]
pub struct PreviewLayout {
    pub columns: usize,
    pub rows: usize,
    pub width: i32,
    pub height: i32,
    pub items: Vec<ScreenRect>,
}

/// How many cards stand in a row; there is always room for one.
pub open spec fn columns_for(count: nat) -> nat {
    if count == 0 {
        1
    } else if count < MAX_COLUMNS {
        count
    } else {
        MAX_COLUMNS as nat
    }
}

/// How many cards there is room for.
pub open spec fn cards_for(count: nat) -> nat {
    if count == 0 {
        1
    } else {
        count
    }
}

pub open spec fn rows_for(count: nat) -> nat {
    ((cards_for(count) + columns_for(count) - 1) / columns_for(count) as int) as nat
}

pub open spec fn cell_height(m: PreviewMetrics) -> int {
    m.header_h + m.thumb_h
}

pub open spec fn width_for(count: nat, m: PreviewMetrics) -> int {
    m.pad * 2 + columns_for(count) * m.thumb_w + (columns_for(count) - 1) * m.gap
}

pub open spec fn height_for(count: nat, overflow: nat, m: PreviewMetrics) -> int {
    m.pad * 2 + rows_for(count) * cell_height(m) + (rows_for(count) - 1) * m.gap + (if overflow
        > 0 {
        m.footer_h as int
    } else {
        0
    })
}

/// The left side of a column.
pub open spec fn left_of(col: int, m: PreviewMetrics) -> int {
    m.pad + col * (m.thumb_w + m.gap)
}

/// The upper side of the card in a row.
pub open spec fn top_of(row: int, m: PreviewMetrics) -> int {
    m.pad + row * (cell_height(m) + m.gap)
}

/// A thumbnail stands where it belongs.
pub open spec fn stands_at(r: ScreenRect, i: int, count: nat, m: PreviewMetrics) -> bool {
    let left = left_of(i % columns_for(count) as int, m);
    let top = top_of(i / columns_for(count) as int, m) + m.header_h;
    r.left == left && r.top == top && r.right == left + m.thumb_w && r.bottom == top + m.thumb_h
}

/// No length is negative.
pub open spec fn lengths(m: PreviewMetrics) -> bool {
    0 <= m.thumb_w && 0 <= m.thumb_h && 0 <= m.header_h && 0 <= m.pad && 0 <= m.gap && 0
        <= m.footer_h
}

/// The size of the preview is a length of the screen.
pub open spec fn fits(count: nat, overflow: nat, m: PreviewMetrics) -> bool {
    lengths(m) && width_for(count, m) <= i32::MAX && height_for(count, overflow, m) <= i32::MAX
        && count <= i32::MAX
}

proof fn lemma_place(k: int, n: int, size: int, gap: int)
    requires
        0 <= k < n,
        0 <= size,
        0 <= gap,
    ensures
        0 <= k * (size + gap),
        k * (size + gap) + size <= n * size + (n - 1) * gap,
{
    assert(0 <= k * (size + gap)) by (nonlinear_arith)
        requires
            0 <= k,
            0 <= size,
            0 <= gap,
    ;
    assert(k * (size + gap) + size <= n * size + (n - 1) * gap) by (nonlinear_arith)
        requires
            0 <= k < n,
            0 <= size,
            0 <= gap,
    ;
}

proof fn lemma_product(n: int, size: int, gap: int)
    requires
        1 <= n,
        0 <= size,
        0 <= gap,
    ensures
        0 <= n * size,
        0 <= (n - 1) * gap,
{
    assert(0 <= n * size) by (nonlinear_arith)
        requires
            1 <= n,
            0 <= size,
    ;
    assert(0 <= (n - 1) * gap) by (nonlinear_arith)
        requires
            1 <= n,
            0 <= gap,
    ;
}

proof fn lemma_grid(i: int, count: nat)
    requires
        0 <= i < cards_for(count),
    ensures
        0 <= i % columns_for(count) as int,
        (i % columns_for(count) as int) < columns_for(count),
        0 <= i / columns_for(count) as int,
        i / (columns_for(count) as int) < rows_for(count),
        rows_for(count) >= 1,
{
    let c = columns_for(count) as int;
    let n = cards_for(count) as int;
    assert(1 <= c <= n);
    assert(i / c <= (n - 1) / c) by (nonlinear_arith)
        requires
            0 <= i <= n - 1,
            1 <= c,
    ;
    assert((n - 1 + c) / c == (n - 1) / c + 1) by (nonlinear_arith)
        requires
            1 <= c,
            0 <= n - 1,
    ;
    assert(0 <= i / c) by (nonlinear_arith)
        requires
            0 <= i,
            1 <= c,
    ;
    assert(0 <= i % c < c) by (nonlinear_arith)
        requires
            1 <= c,
    ;
    assert((n + c - 1) == (n - 1 + c));
}

/// Where the cards for this many windows stand, four in a row. With `overflow` there is a
/// strip below them.
pub fn preview_layout(count: usize, overflow: usize, m: &PreviewMetrics) -> (r: PreviewLayout)
    requires
        fits(count as nat, overflow as nat, *m),
    ensures
        r.columns == columns_for(count as nat),
        r.rows == rows_for(count as nat),
        r.width == width_for(count as nat, *m),
        r.height == height_for(count as nat, overflow as nat, *m),
        r.items@.len() == cards_for(count as nat),
        forall|i: int|
            0 <= i < r.items@.len() ==> stands_at(#[trigger] r.items@[i], i, count as nat, *m),
{
    let n: usize = if count == 0 {
        1
    } else {
        count
    };
    let columns: usize = if n < MAX_COLUMNS {
        n
    } else {
        MAX_COLUMNS
    };
    let rows: usize = (n - 1) / columns + 1;
    proof {
        let a = n - 1;
        let c = columns as int;
        assert((a + c) / c == a / c + 1) by (nonlinear_arith)
            requires
                1 <= c,
                0 <= a,
        ;
        assert(rows == rows_for(count as nat));
        assert(rows <= n) by (nonlinear_arith)
            requires
                rows == (n - 1) / columns as int + 1,
                1 <= columns,
                1 <= n,
        ;
        lemma_product(columns as int, m.thumb_w as int, m.gap as int);
        lemma_product(rows as int, cell_height(*m), m.gap as int);
        lemma_place(0, rows as int, cell_height(*m), m.gap as int);
        assert(cell_height(*m) <= rows * cell_height(*m)) by (nonlinear_arith)
            requires
                1 <= rows,
                0 <= cell_height(*m),
        ;
    }
    let cell_h: i32 = m.header_h + m.thumb_h;
    let width: i32 = m.pad * 2 + columns as i32 * m.thumb_w + (columns as i32 - 1) * m.gap;
    let mut height: i32 = m.pad * 2 + rows as i32 * cell_h + (rows as i32 - 1) * m.gap;
    if overflow > 0 {
        height = height + m.footer_h;
    }
    let mut items: Vec<ScreenRect> = Vec::new();
    let mut i: usize = 0;
    while i < n
        invariant
            fits(count as nat, overflow as nat, *m),
            n == cards_for(count as nat),
            columns == columns_for(count as nat),
            rows == rows_for(count as nat),
            rows <= n,
            cell_h == cell_height(*m),
            i <= n,
            items@.len() == i,
            forall|k: int|
                0 <= k < items@.len() ==> stands_at(#[trigger] items@[k], k, count as nat, *m),
        decreases n - i,
    {
        let col: usize = i % columns;
        let row: usize = i / columns;
        proof {
            lemma_grid(i as int, count as nat);
            lemma_product(columns as int, m.thumb_w as int, m.gap as int);
            lemma_product(rows as int, cell_height(*m), m.gap as int);
            lemma_place(col as int, columns as int, m.thumb_w as int, m.gap as int);
            lemma_place(row as int, rows as int, cell_height(*m), m.gap as int);
            if columns > 1 {
                assert(m.gap <= (columns - 1) * m.gap) by (nonlinear_arith)
                    requires
                        columns > 1,
                        0 <= m.gap,
                ;
                assert(m.thumb_w <= columns * m.thumb_w) by (nonlinear_arith)
                    requires
                        columns >= 1,
                        0 <= m.thumb_w,
                ;
            }
            if rows > 1 {
                assert(m.gap <= (rows - 1) * m.gap) by (nonlinear_arith)
                    requires
                        rows > 1,
                        0 <= m.gap,
                ;
                assert(cell_height(*m) <= rows * cell_height(*m)) by (nonlinear_arith)
                    requires
                        rows >= 1,
                        0 <= cell_height(*m),
                ;
            }
        }
        let left: i32 = if col == 0 {
            m.pad
        } else {
            m.pad + col as i32 * (m.thumb_w + m.gap)
        };
        let cell_top: i32 = if row == 0 {
            m.pad
        } else {
            m.pad + row as i32 * (cell_h + m.gap)
        };
        let top: i32 = cell_top + m.header_h;
        proof {
            let a = m.thumb_w + m.gap;
            let b = cell_h + m.gap;
            assert(0 * a == 0 && 0 * b == 0) by (nonlinear_arith);
            assert(left == left_of(col as int, *m));
            assert(cell_top == top_of(row as int, *m));
        }
        let ghost was = items@;
        items.push(
            ScreenRect { left, top, right: left + m.thumb_w, bottom: top + m.thumb_h },
        );
        proof {
            assert(stands_at(items@[i as int], i as int, count as nat, *m));
            assert forall|k: int| 0 <= k < items@.len() implies stands_at(
                #[trigger] items@[k],
                k,
                count as nat,
                *m,
            ) by {
                if k < i {
                    assert(was[k] == items@[k]);
                }
            }
        }
        i += 1;
    }
    PreviewLayout { columns, rows, width, height, items }
}

/// The close button has room in the strip above the thumbnail, and the title beside it.
pub open spec fn sound(m: PreviewMetrics) -> bool {
    lengths(m) && 0 <= m.close_d <= m.header_h && 0 <= m.close_margin && m.close_d
        + m.close_margin <= m.thumb_w && 0 <= m.title_inset <= m.thumb_w && 0 <= m.title_gap
        <= m.thumb_w
}

/// A thumbnail with a strip above it.
pub open spec fn on_card(item: ScreenRect, m: PreviewMetrics) -> bool {
    0 <= item.left && item.left + m.thumb_w == item.right && m.header_h <= item.top && item.top
        + m.thumb_h == item.bottom
}

proof fn lemma_rows(count: nat)
    requires
        count <= MAX_THUMBS,
    ensures
        1 <= rows_for(count) <= 3,
        1 <= columns_for(count) <= 4,
{
    let n = cards_for(count) as int;
    let c = columns_for(count) as int;
    if count < MAX_COLUMNS {
        assert(n == c);
        assert((n + n - 1) / n == 1) by (nonlinear_arith)
            requires
                n >= 1,
        ;
    } else {
        assert(c == 4);
        assert(rows_for(count) == (n + 3) / 4);
    }
}

/// The lengths of a screen are sound, and the cards that are shown at most have room.
pub proof fn law_metrics_are_sound(dots: int, count: nat, overflow: nat)
    requires
        96 <= dots <= 0x1_0000,
        count <= MAX_THUMBS,
    ensures
        sound(metrics_of(dots)),
        fits(count, overflow, metrics_of(dots)),
{
    let m = metrics_of(dots);
    lemma_rows(count);
    let c = columns_for(count) as int;
    let r = rows_for(count) as int;
    assert(c * m.thumb_w <= 4 * m.thumb_w) by (nonlinear_arith)
        requires
            c <= 4,
            0 <= m.thumb_w,
    ;
    assert((c - 1) * m.gap <= 3 * m.gap) by (nonlinear_arith)
        requires
            c <= 4,
            0 <= m.gap,
    ;
    let h = cell_height(m);
    assert(r * h <= 3 * h) by (nonlinear_arith)
        requires
            r <= 3,
            0 <= h,
    ;
    assert((r - 1) * m.gap <= 2 * m.gap) by (nonlinear_arith)
        requires
            r <= 3,
            0 <= m.gap,
    ;
}

/// The lengths at a density of dots per inch; they have room for all cards.
pub fn metrics_at(dots: u32) -> (r: PreviewMetrics)
    requires
        96 <= dots <= 0x1_0000,
    ensures
        r == metrics_of(dots as int),
        sound(r),
        forall|count: nat, overflow: nat| count <= MAX_THUMBS ==> #[trigger] fits(count, overflow, r),
{
    let base = base_metrics();
    let r = PreviewMetrics {
        thumb_w: scaled(base.thumb_w, dots),
        thumb_h: scaled(base.thumb_h, dots),
        header_h: scaled(base.header_h, dots),
        pad: scaled(base.pad, dots),
        gap: scaled(base.gap, dots),
        footer_h: scaled(base.footer_h, dots),
        close_d: scaled(base.close_d, dots),
        close_margin: scaled(base.close_margin, dots),
        title_inset: scaled(base.title_inset, dots),
        title_gap: scaled(base.title_gap, dots),
    };
    proof {
        law_metrics_are_sound(dots as int, 0, 0);
        assert forall|count: nat, overflow: nat| count <= MAX_THUMBS implies #[trigger] fits(
            count,
            overflow,
            r,
        ) by {
            law_metrics_are_sound(dots as int, count, overflow);
        }
    }
    r
}

pub open spec fn card_of(item: ScreenRect, m: PreviewMetrics) -> ScreenRect {
    ScreenRect { top: (item.top - m.header_h) as i32, ..item }
}

pub open spec fn close_of(item: ScreenRect, m: PreviewMetrics) -> ScreenRect {
    let top = item.top - m.header_h + (m.header_h - m.close_d) / 2;
    ScreenRect {
        left: (item.right - m.close_d - m.close_margin) as i32,
        top: top as i32,
        right: (item.right - m.close_margin) as i32,
        bottom: (top + m.close_d) as i32,
    }
}

pub open spec fn title_of(item: ScreenRect, m: PreviewMetrics) -> ScreenRect {
    ScreenRect {
        left: (item.left + m.title_inset) as i32,
        top: (item.top - m.header_h) as i32,
        right: (close_of(item, m).left - m.title_gap) as i32,
        bottom: item.top,
    }
}

/// The whole card of a thumbnail.
pub fn card_rect(item: &ScreenRect, m: &PreviewMetrics) -> (r: ScreenRect)
    requires
        sound(*m),
        on_card(*item, *m),
    ensures
        r == card_of(*item, *m),
{
    ScreenRect {
        left: item.left,
        top: item.top - m.header_h,
        right: item.right,
        bottom: item.bottom,
    }
}

/// The close button of a card, in the upper right corner.
pub fn close_rect(item: &ScreenRect, m: &PreviewMetrics) -> (r: ScreenRect)
    requires
        sound(*m),
        on_card(*item, *m),
    ensures
        r == close_of(*item, *m),
{
    let top: i32 = item.top - m.header_h + (m.header_h - m.close_d) / 2;
    ScreenRect {
        left: item.right - m.close_d - m.close_margin,
        top,
        right: item.right - m.close_margin,
        bottom: top + m.close_d,
    }
}

/// Where the title of a card stands.
pub fn title_rect(item: &ScreenRect, m: &PreviewMetrics) -> (r: ScreenRect)
    requires
        sound(*m),
        on_card(*item, *m),
    ensures
        r == title_of(*item, *m),
{
    let close = close_rect(item, m);
    ScreenRect {
        left: item.left + m.title_inset,
        top: item.top - m.header_h,
        right: close.left - m.title_gap,
        bottom: item.top,
    }
}

pub open spec fn within(r: ScreenRect, x: int, y: int) -> bool {
    r.left <= x <= r.right && r.top <= y <= r.bottom
}

pub fn in_rect(r: &ScreenRect, x: i32, y: i32) -> (b: bool)
    ensures
        b == within(*r, x as int, y as int),
{
    x >= r.left && x <= r.right && y >= r.top && y <= r.bottom
}

/// The first card, or the first close button, at a point.
pub open spec fn hit(items: Seq<ScreenRect>, m: PreviewMetrics, close: bool, x: int, y: int) -> Option<
    usize,
>
    decreases items.len(),
{
    if items.len() == 0 {
        None
    } else {
        let last = items.last();
        let r = if close {
            close_of(last, m)
        } else {
            card_of(last, m)
        };
        match hit(items.drop_last(), m, close, x, y) {
            Some(i) => Some(i),
            None => if within(r, x, y) {
                Some((items.len() - 1) as usize)
            } else {
                None
            },
        }
    }
}

proof fn lemma_hit(items: Seq<ScreenRect>, m: PreviewMetrics, close: bool, x: int, y: int, k: int)
    requires
        0 <= k <= items.len(),
        hit(items.take(k), m, close, x, y) is Some,
    ensures
        hit(items, m, close, x, y) == hit(items.take(k), m, close, x, y),
    decreases items.len(),
{
    if k == items.len() {
        assert(items.take(k) =~= items);
    } else {
        assert(items.drop_last().take(k) =~= items.take(k));
        lemma_hit(items.drop_last(), m, close, x, y, k);
    }
}

fn find_hit(items: &Vec<ScreenRect>, m: &PreviewMetrics, close: bool, x: i32, y: i32) -> (r:
    Option<usize>)
    requires
        sound(*m),
        forall|i: int| 0 <= i < items@.len() ==> on_card(#[trigger] items@[i], *m),
    ensures
        r == hit(items@, *m, close, x as int, y as int),
{
    let mut i: usize = 0;
    assert(items@.take(0) =~= seq![]);
    while i < items.len()
        invariant
            sound(*m),
            forall|i: int| 0 <= i < items@.len() ==> on_card(#[trigger] items@[i], *m),
            i <= items@.len(),
            hit(items@.take(i as int), *m, close, x as int, y as int) is None,
        decreases items@.len() - i,
    {
        let r = if close {
            close_rect(&items[i], m)
        } else {
            card_rect(&items[i], m)
        };
        let inside: bool = in_rect(&r, x, y);
        proof {
            assert(items@.take(i as int + 1).drop_last() =~= items@.take(i as int));
            assert(items@.take(i as int + 1).last() == items@[i as int]);
        }
        if inside {
            proof {
                lemma_hit(items@, *m, close, x as int, y as int, i as int + 1);
            }
            return Some(i);
        }
        i += 1;
    }
    assert(items@.take(i as int) =~= items@);
    None
}

/// The card at a point.
pub fn hit_test(items: &Vec<ScreenRect>, m: &PreviewMetrics, x: i32, y: i32) -> (r: Option<usize>)
    requires
        sound(*m),
        forall|i: int| 0 <= i < items@.len() ==> on_card(#[trigger] items@[i], *m),
    ensures
        r == hit(items@, *m, false, x as int, y as int),
{
    find_hit(items, m, false, x, y)
}

/// The close button at a point.
pub fn close_hit_test(items: &Vec<ScreenRect>, m: &PreviewMetrics, x: i32, y: i32) -> (r: Option<
    usize,
>)
    requires
        sound(*m),
        forall|i: int| 0 <= i < items@.len() ==> on_card(#[trigger] items@[i], *m),
    ensures
        r == hit(items@, *m, true, x as int, y as int),
{
    find_hit(items, m, true, x, y)
}

pub open spec fn handles(v: Seq<RunningWindowRef>) -> Seq<isize> {
    v.map_values(|w: RunningWindowRef| w.hwnd)
}

/// Whether two lists name the same windows in the same order.
pub fn same_windows(a: &Vec<RunningWindowRef>, b: &Vec<RunningWindowRef>) -> (r: bool)
    ensures
        r == (handles(a@) == handles(b@)),
{
    if a.len() != b.len() {
        assert(handles(a@).len() != handles(b@).len());
        return false;
    }
    let mut i: usize = 0;
    while i < a.len()
        invariant
            a@.len() == b@.len(),
            i <= a@.len(),
            forall|k: int| 0 <= k < i ==> (#[trigger] a@[k]).hwnd == b@[k].hwnd,
        decreases a@.len() - i,
    {
        if a[i].hwnd != b[i].hwnd {
            assert(handles(a@)[i as int] != handles(b@)[i as int]);
            return false;
        }
        i += 1;
    }
    assert(handles(a@) =~= handles(b@));
    true
}

/// Whether the preview shows these windows already.
pub fn already_shown(
    shown_key: &str,
    shown: &Vec<RunningWindowRef>,
    key: &str,
    windows: &Vec<RunningWindowRef>,
) -> (r: bool)
    ensures
        r == (shown_key@ == key@ && handles(shown@) == handles(windows@)),
{
    text::same(shown_key, key) && same_windows(shown, windows)
}

/// How many windows have a card, and how many have none.
pub fn shown_and_left(count: usize) -> (r: (usize, usize))
    ensures
        r.0 == (if count < MAX_THUMBS {
            count
        } else {
            MAX_THUMBS
        }),
        r.0 + r.1 == count,
        r.0 <= MAX_THUMBS,
        r.1 > 0 ==> r.0 == MAX_THUMBS,
{
    if count < MAX_THUMBS {
        (count, 0)
    } else {
        (MAX_THUMBS, count - MAX_THUMBS)
    }
}

/// Takes a window off the preview: how many of the rest have a card and how many have
/// none, or nothing where no window is left.
pub fn remove_window(windows: &mut Vec<RunningWindowRef>, index: usize) -> (r: Option<
    (usize, usize),
>)
    ensures
        final(windows)@ == (if index < old(windows)@.len() {
            old(windows)@.remove(index as int)
        } else {
            old(windows)@
        }),
        match r {
            None => final(windows)@.len() == 0,
            Some((shown, left)) => {
                &&& final(windows)@.len() > 0
                &&& shown == (if final(windows)@.len() < MAX_THUMBS {
                    final(windows)@.len()
                } else {
                    MAX_THUMBS as nat
                })
                &&& shown + left == final(windows)@.len()
            },
        },
        index < old(windows)@.len() ==> final(windows)@ == old(windows)@.take(index as int) + old(
            windows,
        )@.skip(index + 1),
{
    if index < windows.len() {
        windows.remove(index);
    }
    if windows.len() == 0 {
        return None;
    }
    Some(shown_and_left(windows.len()))
}

/// What a click on the preview does.
#[derive(Clone, Copy, Debug, PartialEq, Eq, Structural)]
pub enum PreviewClick {
    /// Close this window, if any, and take the card off; the preview stays.
    CloseWindow(usize, Option<isize>),
    /// Go to this window, if any, and dismiss the preview.
    Dismiss(Option<isize>),
}

pub open spec fn handle_at(windows: Seq<RunningWindowRef>, i: usize) -> Option<isize> {
    if i < windows.len() {
        Some(windows[i as int].hwnd)
    } else {
        None
    }
}

/// What a click does: the close button goes before the card that it is on.
pub fn on_click(
    windows: &Vec<RunningWindowRef>,
    close: Option<usize>,
    card: Option<usize>,
) -> (r: PreviewClick)
    ensures
        r == (match close {
            Some(i) => PreviewClick::CloseWindow(i, handle_at(windows@, i)),
            None => PreviewClick::Dismiss(
                match card {
                    Some(i) => handle_at(windows@, i),
                    None => None,
                },
            ),
        }),
        close is Some && close->0 < windows@.len() ==> r == PreviewClick::CloseWindow(
            close->0,
            Some(windows@[close->0 as int].hwnd),
        ),
        close is None && card is Some && card->0 < windows@.len() ==> r == PreviewClick::Dismiss(
            Some(windows@[card->0 as int].hwnd),
        ),
        close is None && card is None ==> r == PreviewClick::Dismiss(None),
{
    match close {
        Some(i) => PreviewClick::CloseWindow(
            i,
            if i < windows.len() {
                Some(windows[i].hwnd)
            } else {
                None
            },
        ),
        None => PreviewClick::Dismiss(
            match card {
                Some(i) => if i < windows.len() {
                    Some(windows[i].hwnd)
                } else {
                    None
                },
                None => None,
            },
        ),
    }
}

/// The distance from the work area's edge.
pub const MARGIN: i32 = 8;

/// The distance from the icon.
pub const DISTANCE: i32 = 12;

/// `x` kept between two bounds.
pub open spec fn kept(x: int, low: int, high: int) -> int {
    if x < low {
        low
    } else if x > high {
        high
    } else {
        x
    }
}

/// Where the preview stands: above the icon and inside the work area, or below the icon
/// where there is no room above. The work area is wide enough for the preview.
pub fn preview_origin(
    anchor_x: i32,
    anchor_y: i32,
    width: i32,
    height: i32,
    work: Option<ScreenRect>,
) -> (r: (i32, i32))
    requires
        0 <= width,
        0 <= height,
        i32::MIN <= anchor_x - width / 2,
        i32::MIN <= anchor_y - height - DISTANCE,
        anchor_y + DISTANCE <= i32::MAX,
        work matches Some(w) ==> w.left + MARGIN <= w.right - width - MARGIN && w.top + MARGIN
            <= i32::MAX && i32::MIN <= w.right - width - MARGIN && w.left + MARGIN <= i32::MAX,
    ensures
        r.0 == (match work {
            Some(w) => kept(
                anchor_x - width / 2,
                w.left + MARGIN,
                w.right - width - MARGIN,
            ),
            None => anchor_x - width / 2,
        }),
        r.1 == (match work {
            Some(w) => if anchor_y - height - DISTANCE < w.top + MARGIN {
                anchor_y + DISTANCE
            } else {
                anchor_y - height - DISTANCE
            },
            None => anchor_y - height - DISTANCE,
        }),
{
    let x: i32 = anchor_x - width / 2;
    let y: i32 = anchor_y - height - DISTANCE;
    match work {
        Some(w) => {
            let low: i32 = w.left + MARGIN;
            let high: i32 = w.right - width - MARGIN;
            let kx: i32 = if x < low {
                low
            } else if x > high {
                high
            } else {
                x
            };
            let ky: i32 = if y < w.top + MARGIN {
                anchor_y + DISTANCE
            } else {
                y
            };
            (kx, ky)
        },
        None => (x, y),
    }
}

/// The text of the strip below the cards.
pub fn footer_text(left: usize) -> (r: String)
    ensures
        r@ == "还有 "@ + numbers::decimal(left as nat) + " 个窗口…"@,
{
    let mut out = text::chars_of("还有 ");
    numbers::add_decimal(&mut out, left as u64);
    text::add_text(&mut out, " 个窗口…");
    text::string_of(&out)
}

/// Where the icon stands that is shown in place of a thumbnail: its left and upper side
/// and its size. `lift` is how far it stands above the middle.
pub fn fallback_icon(bounds: &ScreenRect, size: i32, lift: i32) -> (r: (i32, i32, i32))
    requires
        0 <= bounds.left <= bounds.right,
        0 <= bounds.top <= bounds.bottom,
        0 <= lift <= 0x1000_0000,
    ensures
        ({
            let w = bounds.right - bounds.left;
            let h = bounds.bottom - bounds.top;
            let a = if size < w {
                size as int
            } else {
                w
            };
            let b = if a < h {
                a
            } else {
                h
            };
            let s = if b > 16 {
                b
            } else {
                16
            };
            &&& r.2 == s
            &&& r.0 == bounds.left + (if w >= s {
                (w - s) / 2
            } else {
                -((s - w) / 2)
            })
            &&& r.1 == bounds.top + (if h >= s {
                (h - s) / 2
            } else {
                -((s - h) / 2)
            }) - lift
        }),
        ({
            let w = bounds.right - bounds.left;
            let h = bounds.bottom - bounds.top;
            let gap = r.1 + lift - bounds.top;
            &&& r.2 >= 16
            &&& w >= 16 && h >= 16 ==> r.2 <= w && r.2 <= h
            &&& 16 <= size <= w && size <= h ==> r.2 == size
            &&& r.2 <= w ==> 0 <= (bounds.right - r.0 - r.2) - (r.0 - bounds.left) <= 1
            &&& r.2 <= h ==> 0 <= (h - gap - r.2) - gap <= 1
        }),
{
    let w: i32 = bounds.right - bounds.left;
    let h: i32 = bounds.bottom - bounds.top;
    let a: i32 = if size < w {
        size
    } else {
        w
    };
    let b: i32 = if a < h {
        a
    } else {
        h
    };
    let s: i32 = if b > 16 {
        b
    } else {
        16
    };
    let dx: i32 = if w >= s {
        (w - s) / 2
    } else {
        -((s - w) / 2)
    };
    let dy: i32 = if h >= s {
        (h - s) / 2
    } else {
        -((s - h) / 2)
    };
    (bounds.left + dx, bounds.top + dy - lift, s)
}

/// Every thumbnail of a layout has its strip, and every card lies inside the preview.
pub proof fn law_cards_inside(item: ScreenRect, i: int, count: nat, overflow: nat, m: PreviewMetrics)
    requires
        fits(count, overflow, m),
        0 <= i < cards_for(count),
        stands_at(item, i, count, m),
    ensures
        on_card(item, m),
        0 <= card_of(item, m).left,
        card_of(item, m).right <= width_for(count, m),
        0 <= card_of(item, m).top,
        card_of(item, m).bottom <= height_for(count, overflow, m),
{
    lemma_grid(i, count);
    let col = i % columns_for(count) as int;
    let row = i / columns_for(count) as int;
    lemma_place(col, columns_for(count) as int, m.thumb_w as int, m.gap as int);
    lemma_place(row, rows_for(count) as int, cell_height(m), m.gap as int);
}

/// The close button lies on its card, above the thumbnail and right of the title.
pub proof fn law_close_on_card(item: ScreenRect, m: PreviewMetrics)
    requires
        sound(m),
        on_card(item, m),
    ensures
        card_of(item, m).left <= close_of(item, m).left,
        close_of(item, m).right <= card_of(item, m).right,
        card_of(item, m).top <= close_of(item, m).top,
        close_of(item, m).bottom <= item.top,
        title_of(item, m).right <= close_of(item, m).left,
{
}

proof fn lemma_apart(a: int, b: int, size: int, gap: int)
    requires
        0 <= a < b,
        0 <= size,
        0 <= gap,
    ensures
        a * (size + gap) + size + gap <= b * (size + gap),
{
    assert(a * (size + gap) + size + gap <= b * (size + gap)) by (nonlinear_arith)
        requires
            0 <= a < b,
            0 <= size,
            0 <= gap,
    ;
}

/// Two cards have no point in common, where there is a gap between cards.
pub proof fn law_cards_apart(
    a: ScreenRect,
    i: int,
    b: ScreenRect,
    j: int,
    count: nat,
    m: PreviewMetrics,
    x: int,
    y: int,
)
    requires
        sound(m),
        m.gap > 0,
        fits(count, 0, m),
        0 <= i < j < cards_for(count),
        stands_at(a, i, count, m),
        stands_at(b, j, count, m),
    ensures
        !(within(card_of(a, m), x, y) && within(card_of(b, m), x, y)),
{
    lemma_grid(i, count);
    lemma_grid(j, count);
    let c = columns_for(count) as int;
    law_cards_inside(a, i, count, 0, m);
    law_cards_inside(b, j, count, 0, m);
    let ci = i % c;
    let cj = j % c;
    let ri = i / c;
    let rj = j / c;
    assert(ri <= rj) by (nonlinear_arith)
        requires
            ri == i / c,
            rj == j / c,
            0 <= i < j,
            1 <= c,
    ;
    if ri == rj {
        assert(ci < cj) by (nonlinear_arith)
            requires
                ri == i / c,
                rj == j / c,
                ci == i % c,
                cj == j % c,
                ri == rj,
                0 <= i < j,
                1 <= c,
        ;
        lemma_apart(ci, cj, m.thumb_w as int, m.gap as int);
    } else {
        lemma_apart(ri, rj, cell_height(m), m.gap as int);
    }
}

/// Every window stays reachable: those without a card take the place of those that are
/// closed.
pub proof fn law_rest_moves_up(windows: Seq<RunningWindowRef>, index: int)
    requires
        0 <= index < windows.len(),
    ensures
        windows.remove(index).len() == windows.len() - 1,
        forall|i: int|
            0 <= i < windows.len() && i != index ==> windows.remove(index).contains(
                #[trigger] windows[i],
            ),
{
    assert forall|i: int| 0 <= i < windows.len() && i != index implies windows.remove(
        index,
    ).contains(#[trigger] windows[i]) by {
        if i < index {
            assert(windows.remove(index)[i] == windows[i]);
        } else {
            assert(windows.remove(index)[i - 1] == windows[i]);
        }
    }
}

} // verus!
