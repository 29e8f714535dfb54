//! How the drawer stands on the screen: the sizes of its parts, how far its content is
//! scrolled, and what the pointer is on.
//!
//! A length is in ninety-sixths of a pixel: a logical pixel is then as many of them as
//! there are dots per inch.

use vstd::prelude::*;
use crate::drawer::{HeaderAction, COLS};
use crate::drawer_layout;
use crate::drawer_layout::{drop_target, hit_cell, Layout, Metrics, Rect, Section, SectionKind};

verus! {

/// The padding at the sides and below, in logical pixels.
pub const LPAD: u32 = 14;

/// The height of the title, in logical pixels.
pub const HEADER_H: u32 = 32;

/// The size of the cell of a program, in logical pixels.
pub const CELL_W: u32 = 92;

pub const CELL_H: u32 = 94;

/// The gap between cells, in logical pixels.
pub const CELL_GAP: u32 = 6;

/// The height of the heading of a section, in logical pixels.
pub const SECTION_H: u32 = 30;

/// The gap between sections, in logical pixels.
pub const SECTION_GAP: u32 = 6;

/// The height of the button that adds a category, in logical pixels.
pub const ADD_H: u32 = 34;

/// The width of the drawer, in logical pixels.
pub const DRAWER_W: u32 = 512;

/// How far the pointer moves before a click becomes a drag, in logical pixels.
pub const DRAG_THRESHOLD: u32 = 6;

/// The distance between the drawer and what it hangs on, in logical pixels.
pub const ANCHOR_GAP: u32 = 10;

/// The distance between the drawer and the sides of the work area, in logical pixels.
pub const MARGIN: u32 = 8;

/// The least height of what scrolls, in logical pixels.
pub const LEAST_VIEW: u32 = 120;

/// A density that a screen can have.
pub open spec fn dense(dots: u32) -> bool {
    96 <= dots <= 0x1_0000
}

/// What scrolls below the title.
#[derive(Clone, Copy, Debug, PartialEq, Eq, Structural)]
pub struct Scroller {
    pub dots: u32,
    /// The height of the part that is seen.
    pub viewport_h: i64,
    pub scroll: i64,
    pub max_scroll: i64,
}

impl Scroller {
    pub open spec fn wf(&self) -> bool {
        &&& dense(self.dots)
        &&& 0 <= self.viewport_h <= 0x0C00_0000_0000_0000
        &&& 0 <= self.scroll <= self.max_scroll <= 0x0C00_0000_0000_0000
    }
}

/// The lengths of the drawer at a density.
pub open spec fn metrics_of(dots: u32) -> Metrics {
    Metrics {
        width: (DRAWER_W * dots) as u32,
        cols: COLS,
        lpad: (LPAD * dots) as u32,
        cell_w: (CELL_W * dots) as u32,
        cell_h: (CELL_H * dots) as u32,
        gap_x: (CELL_GAP * dots) as u32,
        gap_y: (CELL_GAP * dots) as u32,
        header_h: (SECTION_H * dots) as u32,
        section_gap: (SECTION_GAP * dots) as u32,
        add_h: (ADD_H * dots) as u32,
    }
}

/// The lengths of the drawer at a density.
pub fn metrics(dots: u32) -> (r: Metrics)
    requires
        dense(dots),
    ensures
        r == metrics_of(dots),
{
    Metrics {
        width: DRAWER_W * dots,
        cols: COLS,
        lpad: LPAD * dots,
        cell_w: CELL_W * dots,
        cell_h: CELL_H * dots,
        gap_x: CELL_GAP * dots,
        gap_y: CELL_GAP * dots,
        header_h: SECTION_H * dots,
        section_gap: SECTION_GAP * dots,
        add_h: ADD_H * dots,
    }
}

pub open spec fn larger(a: int, b: int) -> int {
    if a < b {
        b
    } else {
        a
    }
}

pub open spec fn smaller(a: int, b: int) -> int {
    if a < b {
        a
    } else {
        b
    }
}

fn larger_of(a: i64, b: i64) -> (r: i64)
    ensures
        r == larger(a as int, b as int),
{
    if a < b {
        b
    } else {
        a
    }
}

/// The room above what the drawer hangs on; a little at least.
pub open spec fn room_above(anchor_top: int, work_top: int, dots: int) -> int {
    larger(
        96 * (anchor_top - work_top) - MARGIN * dots - ANCHOR_GAP * dots,
        LEAST_VIEW * dots,
    )
}

/// The height of the part of the content that is seen.
pub open spec fn view_height(content_h: int, anchor_top: int, work_top: int, dots: int) -> int {
    smaller(
        content_h,
        larger(
            room_above(anchor_top, work_top, dots) - HEADER_H * dots - LPAD * dots,
            LEAST_VIEW * dots,
        ),
    )
}

/// A logical length.
fn long(v: u32, dots: u32) -> (r: i64)
    requires
        dense(dots),
        v <= 0x1000,
    ensures
        r == v * dots,
        0 <= r <= 0x1000_0000,
{
    assert(0 <= v * dots <= 0x1000_0000) by (nonlinear_arith)
        requires
            0 <= v <= 0x1000,
            0 <= dots <= 0x1_0000,
    ;
    v as i64 * dots as i64
}

/// The drawer opens with content of a height, above what it hangs on; `work_top` is the
/// upper side of the work area.
pub fn opened(content_h: i64, anchor_top: i32, work_top: i32, dots: u32) -> (r: Scroller)
    requires
        dense(dots),
        0 <= content_h <= 0x0C00_0000_0000_0000,
    ensures
        r.wf(),
        r.dots == dots,
        r.viewport_h == view_height(
            content_h as int,
            anchor_top as int,
            work_top as int,
            dots as int,
        ),
        r.scroll == 0,
        r.max_scroll == content_h - r.viewport_h,
{
    let free: i64 = 96 * (anchor_top as i64 - work_top as i64) - long(MARGIN, dots) - long(
        ANCHOR_GAP,
        dots,
    );
    let least: i64 = long(LEAST_VIEW, dots);
    let above: i64 = larger_of(free, least);
    let most: i64 = larger_of(above - long(HEADER_H, dots) - long(LPAD, dots), least);
    let viewport_h: i64 = if content_h < most {
        content_h
    } else {
        most
    };
    Scroller { dots, viewport_h, scroll: 0, max_scroll: content_h - viewport_h }
}

/// The size of the window, in pixels.
pub fn window_size(v: &Scroller) -> (r: (i64, i64))
    requires
        v.wf(),
    ensures
        r.0 == (DRAWER_W * v.dots) / 96,
        r.1 == (HEADER_H * v.dots + v.viewport_h + LPAD * v.dots) / 96,
{
    (
        long(DRAWER_W, v.dots) / 96,
        (long(HEADER_H, v.dots) + v.viewport_h + long(LPAD, v.dots)) / 96,
    )
}

/// The state of the scroller when the content has another height.
pub open spec fn refitted(v: Scroller, content_h: int) -> Scroller {
    let most = larger(content_h - v.viewport_h, 0);
    Scroller {
        scroll: smaller(v.scroll as int, most) as i64,
        max_scroll: most as i64,
        ..v
    }
}

/// The content has another height: it stays where it is, as far as it can.
pub fn refit(v: &mut Scroller, content_h: i64)
    requires
        old(v).wf(),
        0 <= content_h <= 0x0C00_0000_0000_0000,
    ensures
        final(v).wf(),
        *final(v) == refitted(*old(v), content_h as int),
{
    let most: i64 = larger_of(content_h - v.viewport_h, 0);
    let scroll: i64 = if v.scroll < most {
        v.scroll
    } else {
        most
    };
    v.scroll = scroll;
    v.max_scroll = most;
}

/// How far a turn of the wheel moves the content: a notch is a row of programs.
pub open spec fn turned(delta: int, dots: int) -> int {
    let size = (if delta < 0 {
        -delta
    } else {
        delta
    }) * ((CELL_H + CELL_GAP) * dots) / 120;
    if delta < 0 {
        size
    } else {
        -size
    }
}

pub open spec fn scrolled(v: Scroller, delta: int) -> Scroller {
    Scroller {
        scroll: larger(
            smaller(v.scroll + turned(delta, v.dots as int), v.max_scroll as int),
            0,
        ) as i64,
        ..v
    }
}

/// The user turns the wheel: whether the drawer is drawn again.
pub fn handle_scroll(v: &mut Scroller, delta: i16) -> (r: bool)
    requires
        old(v).wf(),
    ensures
        final(v).wf(),
        r == (old(v).max_scroll > 0),
        *final(v) == scrolled(*old(v), delta as int),
{
    if v.max_scroll <= 0 {
        return false;
    }
    let d: i64 = delta as i64;
    let size: i64 = if d < 0 {
        -d
    } else {
        d
    };
    let row: i64 = long(CELL_H + CELL_GAP, v.dots);
    proof {
        assert(0 <= size * row <= 0x1_0000 * 0x1_0000_0000) by (nonlinear_arith)
            requires
                0 <= size <= 0x1_0000,
                0 <= row <= 0x1_0000_0000,
        ;
    }
    let by: i64 = size * row / 120;
    let wanted: i64 = if d < 0 {
        v.scroll + by
    } else {
        v.scroll - by
    };
    v.scroll = if wanted < 0 {
        0
    } else if wanted > v.max_scroll {
        v.max_scroll
    } else {
        wanted
    };
    true
}

/// Where in the content a height of the window is; the title is not part of it.
pub open spec fn content_at(v: Scroller, y: int) -> Option<int> {
    let top = HEADER_H * v.dots;
    if y < top || y > top + v.viewport_h {
        None
    } else {
        Some(y - top + v.scroll)
    }
}

/// Where in the content a height of the window is; the title is not part of it.
pub fn content_y(v: &Scroller, y: i64) -> (r: Option<i64>)
    requires
        v.wf(),
    ensures
        match r {
            Some(c) => content_at(*v, y as int) == Some(c as int) && drawer_layout::near(c) && c
                >= 0,
            None => content_at(*v, y as int) is None,
        },
{
    let top: i64 = long(HEADER_H, v.dots);
    if y < top || y > top + v.viewport_h {
        None
    } else {
        Some(y - top + v.scroll)
    }
}

/// Whether something between two heights of the content can be seen.
pub fn in_sight(v: &Scroller, top: i64, bottom: i64) -> (r: bool)
    requires
        v.wf(),
    ensures
        r == (bottom >= v.scroll && top <= v.scroll + v.viewport_h),
{
    bottom >= v.scroll && top <= v.scroll + v.viewport_h
}

/// The cell under the pointer.
pub fn cell_at(layout: &Layout, v: &Scroller, x: i64, y: i64) -> (r: Option<usize>)
    requires
        v.wf(),
    ensures
        match r {
            Some(i) => content_at(*v, y as int) is Some && i < layout.cells@.len()
                && drawer_layout::holds(
                layout.cells@[i as int].rect,
                x as int,
                content_at(*v, y as int)->Some_0,
            ) && forall|j: int|
                0 <= j < i ==> !drawer_layout::holds(
                    (#[trigger] layout.cells@[j]).rect,
                    x as int,
                    content_at(*v, y as int)->Some_0,
                ),
            None => content_at(*v, y as int) is None || forall|j: int|
                0 <= j < layout.cells@.len() ==> !drawer_layout::holds(
                    (#[trigger] layout.cells@[j]).rect,
                    x as int,
                    content_at(*v, y as int)->Some_0,
                ),
        },
{
    match content_y(v, y) {
        Some(c) => hit_cell(layout, x, c),
        None => None,
    }
}

/// The pointer is on the button that adds a category.
pub fn hit_add_button(layout: &Layout, v: &Scroller, x: i64, y: i64) -> (r: bool)
    requires
        v.wf(),
    ensures
        r == (content_at(*v, y as int) is Some && drawer_layout::holds(
            layout.add_button,
            x as int,
            content_at(*v, y as int)->Some_0,
        )),
{
    match content_y(v, y) {
        Some(c) => {
            let a = &layout.add_button;
            x >= a.left && x <= a.right && c >= a.top && c <= a.bottom
        },
        None => false,
    }
}

/// The control that deletes a category, at the right end of its heading.
pub open spec fn delete_area(header: Rect, dots: int) -> Rect {
    let mid = (header.top + header.bottom) / 2;
    drawer_layout::rect(
        header.right - 28 * dots,
        mid - 11 * dots,
        header.right - 6 * dots,
        mid + 11 * dots,
    )
}

/// The control that renames a category, on the left of the one that deletes it.
pub open spec fn rename_area(header: Rect, dots: int) -> Rect {
    let mid = (header.top + header.bottom) / 2;
    drawer_layout::rect(
        header.right - 54 * dots,
        mid - 11 * dots,
        header.right - 32 * dots,
        mid + 11 * dots,
    )
}

/// A heading that is not absurdly far away.
pub open spec fn near_header(h: Rect) -> bool {
    &&& 0 <= h.top <= h.bottom <= 0x1000_0000_0000_0000
    &&& -0x1_0000_0000 <= h.right <= 0x1_0000_0000
}

/// The controls that rename and delete a category.
pub fn header_action_rects(header: &Rect, dots: u32) -> (r: (Rect, Rect))
    requires
        dense(dots),
        near_header(*header),
    ensures
        r.0 == rename_area(*header, dots as int),
        r.1 == delete_area(*header, dots as int),
{
    let d: i64 = dots as i64;
    let mid: i64 = (header.top + header.bottom) / 2;
    (
        Rect {
            left: header.right - 54 * d,
            top: mid - 11 * d,
            right: header.right - 32 * d,
            bottom: mid + 11 * d,
        },
        Rect {
            left: header.right - 28 * d,
            top: mid - 11 * d,
            right: header.right - 6 * d,
            bottom: mid + 11 * d,
        },
    )
}

/// What the pointer is on in the heading of a section: only a category of the user has
/// controls.
pub open spec fn control_in(kind: SectionKind, header: Rect, dots: int, x: int, y: int) -> Option<
    (usize, HeaderAction),
> {
    match kind {
        SectionKind::Uncategorized => None,
        SectionKind::Custom(c) => if drawer_layout::holds(delete_area(header, dots), x, y) {
            Some((c, HeaderAction::Delete))
        } else if drawer_layout::holds(rename_area(header, dots), x, y) {
            Some((c, HeaderAction::Rename))
        } else {
            None
        },
    }
}

/// The first control under a point of the content, from section `n` on.
pub open spec fn control_at(
    s: Seq<drawer_layout::SectionView>,
    m: Metrics,
    dots: int,
    x: int,
    y: int,
    n: int,
) -> Option<(usize, HeaderAction)>
    decreases s.len() - n,
{
    if n >= s.len() {
        None
    } else {
        let here = control_in(s[n].kind, drawer_layout::band(s, m, n).header, dots, x, y);
        if here is Some {
            here
        } else {
            control_at(s, m, dots, x, y, n + 1)
        }
    }
}

/// The control of a heading that the pointer is on.
pub fn hit_header_action(
    sections: &Vec<Section>,
    layout: &Layout,
    v: &Scroller,
    x: i64,
    y: i64,
) -> (r: Option<(usize, HeaderAction)>)
    requires
        v.wf(),
        drawer_layout::can_lay_out(drawer_layout::views(sections@), metrics_of(v.dots)),
        drawer_layout::is_layout(
            *layout,
            drawer_layout::views(sections@),
            metrics_of(v.dots),
        ),
    ensures
        r == (match content_at(*v, y as int) {
            Some(c) => control_at(
                drawer_layout::views(sections@),
                metrics_of(v.dots),
                v.dots as int,
                x as int,
                c,
                0,
            ),
            None => None,
        }),
{
    let c: i64 = match content_y(v, y) {
        Some(c) => c,
        None => {
            return None;
        },
    };
    let ghost s = drawer_layout::views(sections@);
    let ghost m = metrics_of(v.dots);
    let mut i: usize = 0;
    while i < sections.len()
        invariant
            v.wf(),
            content_at(*v, y as int) == Some(c as int),
            s == drawer_layout::views(sections@),
            m == metrics_of(v.dots),
            drawer_layout::can_lay_out(s, m),
            drawer_layout::is_layout(*layout, s, m),
            i <= sections@.len(),
            control_at(s, m, v.dots as int, x as int, c as int, 0) == control_at(
                s,
                m,
                v.dots as int,
                x as int,
                c as int,
                i as int,
            ),
        decreases sections@.len() - i,
    {
        proof {
            drawer_layout::lemma_bottom(s, m, i as int);
            assert(layout.bands@[i as int] == drawer_layout::band(s, m, i as int));
            assert(s[i as int].kind == sections@[i as int].kind);
        }
        if let SectionKind::Custom(category) = sections[i].kind {
            let (rename, delete) = header_action_rects(&layout.bands[i].header, v.dots);
            if x >= delete.left && x <= delete.right && c >= delete.top && c <= delete.bottom {
                return Some((category, HeaderAction::Delete));
            }
            if x >= rename.left && x <= rename.right && c >= rename.top && c <= rename.bottom {
                return Some((category, HeaderAction::Rename));
            }
        }
        i += 1;
    }
    None
}

/// The section and the index there that a program goes to when it is dropped at a point of
/// the window.
pub fn drop_place(
    sections: &Vec<Section>,
    layout: &Layout,
    v: &Scroller,
    x: i64,
    y: i64,
) -> (r: Option<(usize, usize)>)
    requires
        v.wf(),
        drawer_layout::near(x),
        drawer_layout::can_lay_out(drawer_layout::views(sections@), metrics_of(v.dots)),
        drawer_layout::is_layout(
            *layout,
            drawer_layout::views(sections@),
            metrics_of(v.dots),
        ),
    ensures
        r is Some == (content_at(*v, y as int) is Some && sections@.len() > 0),
        r matches Some((section, index)) ==> (section as int, index as int)
            == drawer_layout::drop_of(
            drawer_layout::views(sections@),
            metrics_of(v.dots),
            x as int,
            content_at(*v, y as int)->Some_0,
        ),
{
    match content_y(v, y) {
        Some(c) => drop_target(sections, layout, &metrics(v.dots), x, c),
        None => None,
    }
}

/// The pointer has moved so far, in pixels, that this is a drag and no click.
pub fn is_drag(dx: i16, dy: i16, dots: u32) -> (r: bool)
    requires
        dense(dots),
    ensures
        r == (9216 * (dx * dx + dy * dy) > (DRAG_THRESHOLD * dots) * (DRAG_THRESHOLD * dots)),
{
    let x: i64 = dx as i64;
    let y: i64 = dy as i64;
    let t: i64 = DRAG_THRESHOLD as i64 * dots as i64;
    proof {
        assert(0 <= x * x <= 0x4000_0000) by (nonlinear_arith)
            requires
                -0x8000 <= x <= 0x8000,
        ;
        assert(0 <= y * y <= 0x4000_0000) by (nonlinear_arith)
            requires
                -0x8000 <= y <= 0x8000,
        ;
        assert(0 <= t * t <= 0x100_0000_0000) by (nonlinear_arith)
            requires
                0 <= t <= 0x10_0000,
        ;
    }
    9216 * (x * x + y * y) > t * t
}

/// The content is never scrolled past its ends: at the most, its lower end is at the lower
/// end of what is seen.
pub proof fn law_scroll_stays_inside(v: Scroller, delta: int, content_h: int)
    requires
        v.wf(),
        0 <= content_h <= 0x0C00_0000_0000_0000,
    ensures
        0 <= scrolled(v, delta).scroll <= v.max_scroll,
        0 <= refitted(v, content_h).scroll,
        refitted(v, content_h).scroll + v.viewport_h <= larger(
            content_h,
            v.viewport_h as int,
        ),
{
}

/// Turning the wheel back undoes turning it, where no end was reached.
pub proof fn law_scroll_back(v: Scroller, delta: int)
    requires
        v.wf(),
        delta != 0,
        0 <= v.scroll + turned(delta, v.dots as int) <= v.max_scroll,
    ensures
        scrolled(scrolled(v, delta), -delta) == v,
{
}

/// The two controls of a heading lie inside it and do not touch each other.
pub proof fn law_controls_apart(s: Seq<drawer_layout::SectionView>, dots: u32, n: int)
    requires
        dense(dots),
        drawer_layout::can_lay_out(s, metrics_of(dots)),
        0 <= n < s.len(),
    ensures
        ({
            let header = drawer_layout::band(s, metrics_of(dots), n).header;
            let rename = rename_area(header, dots as int);
            let delete = delete_area(header, dots as int);
            &&& rename.right < delete.left
            &&& header.left <= rename.left
            &&& delete.right <= header.right
            &&& header.top <= delete.top
            &&& delete.bottom <= header.bottom
        }),
{
    drawer_layout::lemma_bottom(s, metrics_of(dots), n);
}

/// Nothing of the content is under the pointer while it is on the title.
pub proof fn law_title_is_not_content(v: Scroller, y: int)
    requires
        v.wf(),
        y < HEADER_H * v.dots,
    ensures
        content_at(v, y) is None,
{
}

} // verus!
