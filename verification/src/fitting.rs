//! How pictures are fitted into the room that they get, without being distorted.

use vstd::prelude::*;
use crate::windows_list::ScreenRect;

verus! {

/// A rectangle whose size can be told.
pub open spec fn measurable(r: ScreenRect) -> bool {
    0 <= r.right - r.left <= i32::MAX && 0 <= r.bottom - r.top <= i32::MAX
}

/// The width is what limits a picture of a size in a room.
pub open spec fn width_limits(w: int, h: int, cx: int, cy: int) -> bool {
    w * cy <= h * cx
}

/// `a * b / c`, rounded to the nearest whole number, or down.
pub open spec fn share(a: int, b: int, c: int, nearest: bool) -> int {
    if nearest {
        (2 * (a * b) + c) / (2 * c)
    } else {
        (a * b) / c
    }
}

/// The size of a picture that is as large as a room lets it be.
pub open spec fn fitted_size(w: int, h: int, cx: int, cy: int, nearest: bool) -> (int, int) {
    if width_limits(w, h, cx, cy) {
        (w, share(cy, w, cx, nearest))
    } else {
        (share(cx, h, cy, nearest), h)
    }
}

/// The place of a picture in the middle of a room; a picture without a size fills it.
pub open spec fn fitted(room: ScreenRect, cx: int, cy: int, nearest: bool) -> ScreenRect {
    if cx <= 0 || cy <= 0 {
        room
    } else {
        let w = room.right - room.left;
        let h = room.bottom - room.top;
        let (fw, fh) = fitted_size(w, h, cx, cy, nearest);
        let left = room.left + (w - fw) / 2;
        let top = room.top + (h - fh) / 2;
        ScreenRect {
            left: left as i32,
            top: top as i32,
            right: (left + fw) as i32,
            bottom: (top + fh) as i32,
        }
    }
}

proof fn lemma_share(a: int, b: int, c: int, most: int, nearest: bool)
    requires
        0 <= a,
        0 <= b,
        0 < c,
        0 <= most,
        a * b <= most * c,
    ensures
        0 <= share(a, b, c, nearest) <= most,
        0 <= a * b,
{
    let p = a * b;
    assert(0 <= p) by (nonlinear_arith)
        requires
            p == a * b,
            0 <= a,
            0 <= b,
    ;
    if nearest {
        let q = (2 * p + c) / (2 * c);
        assert(0 <= q <= most) by (nonlinear_arith)
            requires
                q == (2 * p + c) / (2 * c),
                0 <= p <= most * c,
                0 < c,
                0 <= most,
        ;
    } else {
        let q = p / c;
        assert(0 <= q <= most) by (nonlinear_arith)
            requires
                q == p / c,
                0 <= p <= most * c,
                0 < c,
                0 <= most,
        ;
    }
}

pub proof fn lemma_fitted_size(w: int, h: int, cx: int, cy: int, nearest: bool)
    requires
        0 <= w,
        0 <= h,
        0 < cx,
        0 < cy,
    ensures
        0 <= fitted_size(w, h, cx, cy, nearest).0 <= w,
        0 <= fitted_size(w, h, cx, cy, nearest).1 <= h,
{
    if width_limits(w, h, cx, cy) {
        assert(cy * w <= h * cx) by (nonlinear_arith)
            requires
                w * cy <= h * cx,
        ;
        lemma_share(cy, w, cx, h, nearest);
    } else {
        assert(cx * h <= w * cy) by (nonlinear_arith)
            requires
                w * cy > h * cx,
        ;
        lemma_share(cx, h, cy, w, nearest);
    }
}

fn product(a: i32, b: i32) -> (r: i128)
    requires
        0 <= a,
        0 <= b,
    ensures
        r == a * b,
        0 <= r <= 0x4000_0000_0000_0000,
{
    assert(0 <= a * b <= 0x4000_0000_0000_0000) by (nonlinear_arith)
        requires
            0 <= a <= 0x7fff_ffff,
            0 <= b <= 0x7fff_ffff,
    ;
    a as i128 * b as i128
}

fn share_of(a: i32, b: i32, c: i32, nearest: bool) -> (r: i128)
    requires
        0 <= a,
        0 <= b,
        0 < c,
    ensures
        r == share(a as int, b as int, c as int, nearest),
{
    let p: i128 = product(a, b);
    if nearest {
        (2 * p + c as i128) / (2 * c as i128)
    } else {
        p / c as i128
    }
}

fn place(room: ScreenRect, cx: i32, cy: i32, nearest: bool) -> (r: ScreenRect)
    requires
        measurable(room),
    ensures
        r == fitted(room, cx as int, cy as int, nearest),
{
    if cx <= 0 || cy <= 0 {
        return room;
    }
    let w: i32 = room.right - room.left;
    let h: i32 = room.bottom - room.top;
    proof {
        lemma_fitted_size(w as int, h as int, cx as int, cy as int, nearest);
    }
    let (fw, fh): (i32, i32) = if product(w, cy) <= product(h, cx) {
        (w, share_of(cy, w, cx, nearest) as i32)
    } else {
        (share_of(cx, h, cy, nearest) as i32, h)
    };
    let left: i32 = room.left + (w - fw) / 2;
    let top: i32 = room.top + (h - fh) / 2;
    ScreenRect { left, top, right: left + fw, bottom: top + fh }
}

/// The place of a picture in a room that is measured in a small unit.
pub fn fit_rect(container: ScreenRect, source_w: i32, source_h: i32) -> (r: ScreenRect)
    requires
        measurable(container),
    ensures
        r == fitted(container, source_w as int, source_h as int, false),
{
    place(container, source_w, source_h, false)
}

/// The place of a thumbnail in the room of its card, in pixels.
pub fn fit_thumbnail_rect(bounds: ScreenRect, source_w: i32, source_h: i32) -> (r: ScreenRect)
    requires
        measurable(bounds),
    ensures
        r == fitted(bounds, source_w as int, source_h as int, true),
{
    place(bounds, source_w, source_h, true)
}

/// The size that a picture is loaded in: no larger than it is, nor than a square of a size;
/// it keeps a pixel at least.
pub open spec fn loaded_size(w: int, h: int, size: int) -> (int, int) {
    if w <= size && h <= size {
        (w, h)
    } else {
        let (fw, fh) = fitted_size(size, size, w, h, true);
        (
            if fw < 1 {
                1
            } else {
                fw
            },
            if fh < 1 {
                1
            } else {
                fh
            },
        )
    }
}

/// The size that a picture is loaded in; one without pixels is not loaded.
pub fn load_size(w: i32, h: i32, size: i32) -> (r: Option<(i32, i32)>)
    requires
        0 <= w,
        0 <= h,
        0 <= size,
    ensures
        match r {
            Some((fw, fh)) => w > 0 && h > 0 && (fw as int, fh as int) == loaded_size(
                w as int,
                h as int,
                size as int,
            ),
            None => w == 0 || h == 0,
        },
{
    if w == 0 || h == 0 {
        return None;
    }
    if w <= size && h <= size {
        return Some((w, h));
    }
    proof {
        lemma_fitted_size(size as int, size as int, w as int, h as int, true);
    }
    let (fw, fh): (i32, i32) = if product(size, h) <= product(size, w) {
        (size, share_of(h, size, w, true) as i32)
    } else {
        (share_of(w, size, h, true) as i32, size)
    };
    Some(
        (
            if fw < 1 {
                1
            } else {
                fw
            },
            if fh < 1 {
                1
            } else {
                fh
            },
        ),
    )
}

/// A picture stays inside its room, and fills it in one direction.
pub proof fn law_picture_inside(room: ScreenRect, cx: int, cy: int, nearest: bool)
    requires
        measurable(room),
    ensures
        ({
            let r = fitted(room, cx, cy, nearest);
            &&& room.left <= r.left <= r.right <= room.right
            &&& room.top <= r.top <= r.bottom <= room.bottom
            &&& r.right - r.left == room.right - room.left || r.bottom - r.top == room.bottom
                - room.top
        }),
{
    if cx > 0 && cy > 0 {
        lemma_fitted_size(
            room.right - room.left,
            room.bottom - room.top,
            cx,
            cy,
            nearest,
        );
    }
}

/// A picture keeps its proportions, but for less than a unit.
pub proof fn law_picture_not_distorted(w: int, h: int, cx: int, cy: int)
    requires
        0 <= w,
        0 <= h,
        0 < cx,
        0 < cy,
    ensures
        ({
            let (fw, fh) = fitted_size(w, h, cx, cy, false);
            if width_limits(w, h, cx, cy) {
                0 <= fw * cy - fh * cx < cx
            } else {
                0 <= fh * cx - fw * cy < cy
            }
        }),
{
    if width_limits(w, h, cx, cy) {
        let q = (cy * w) / cx;
        assert(0 <= w * cy - q * cx < cx) by (nonlinear_arith)
            requires
                q == (cy * w) / cx,
                0 < cx,
        ;
    } else {
        let q = (cx * h) / cy;
        assert(0 <= h * cx - q * cy < cy) by (nonlinear_arith)
            requires
                q == (cx * h) / cy,
                0 < cy,
        ;
    }
}

} // verus!
