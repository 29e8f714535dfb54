//! Where the icons of the row stand while some of them are magnified.
//!
//! Lengths are in any small unit. A place is twice its distance from the left side of the
//! window, so that the middle of an icon is a whole number.

use vstd::prelude::*;
use crate::dock::{role_base_width, Dock, DockItem, ItemRole, BASE_ICON, DIVIDER_W};

verus! {

/// The most slots of a row.
pub const MAX_SLOTS: usize = 0x200_0000;

/// The distance between two icons, in logical pixels.
pub const GAP: u32 = 14;

/// What the pill leaves at the sides of the row, in logical pixels.
pub const PILL_PAD_X: u32 = 16;

/// What the pill leaves above and below the row, in logical pixels.
pub const PILL_PAD_Y: u32 = 9;

/// What the window leaves above a magnified icon, in logical pixels.
pub const TOP_PAD: u32 = 12;

/// How far the pill floats above the lower side of the window, in logical pixels.
pub const SHOWN_GAP: u32 = 8;

/// The size of an icon that is magnified as much as can be, in logical pixels.
pub const FULL_ICON: u32 = 95;

/// How high an icon hops, in logical pixels.
pub const HOP: u32 = 21;

/// How high the strip is that brings back a hidden dock, in logical pixels.
pub const TRIGGER_PX: u32 = 4;

/// The widths of the slots of a row.
pub struct Row {
    /// The width of each slot at rest.
    pub rest: Vec<u32>,
    /// The width of each slot as it is magnified.
    pub wide: Vec<u32>,
    /// The gap before each slot; the first has none.
    pub gaps: Vec<u32>,
}

impl Row {
    pub open spec fn wf(&self) -> bool {
        &&& self.rest@.len() == self.wide@.len()
        &&& self.rest@.len() == self.gaps@.len()
        &&& self.rest@.len() <= MAX_SLOTS
    }
}

/// How far the left side of a slot is from the left side of the first.
pub open spec fn offset(w: Seq<u32>, g: Seq<u32>, i: int) -> int
    decreases i,
{
    if i <= 0 {
        0
    } else {
        offset(w, g, i - 1) + w[i - 1] + g[i]
    }
}

/// The middle of a slot, as a place in a row that begins at the left.
pub open spec fn middle(w: Seq<u32>, g: Seq<u32>, i: int) -> int {
    2 * offset(w, g, i) + w[i]
}

/// How long a row is.
pub open spec fn length(w: Seq<u32>, g: Seq<u32>) -> int {
    if w.len() == 0 {
        0
    } else {
        offset(w, g, w.len() - 1) + w[w.len() - 1]
    }
}

/// The middle of a slot of a row in the middle of the window.
pub open spec fn centred(w: Seq<u32>, g: Seq<u32>, win: int, i: int) -> int {
    win - length(w, g) + middle(w, g, i)
}

/// The slot whose resting place is the last that the pointer has reached, among those from
/// `j` on.
pub open spec fn reached(r: Seq<u32>, g: Seq<u32>, win: int, cursor: int, j: int) -> int
    decreases r.len() - j,
{
    if j + 1 < r.len() && cursor >= centred(r, g, win, j + 1) {
        reached(r, g, win, cursor, j + 1)
    } else {
        j
    }
}

/// The middle of a slot when the row is pinned so that slot `a` is at its resting place.
pub open spec fn pinned(row: Row, win: int, a: int, i: int) -> int {
    centred(row.rest@, row.gaps@, win, a) + middle(row.wide@, row.gaps@, i) - middle(
        row.wide@,
        row.gaps@,
        a,
    )
}

/// How far the row moves from being pinned at slot `a` to being pinned at the next.
pub open spec fn step(row: Row, a: int) -> int {
    row.wide@[a] - row.rest@[a] + row.wide@[a + 1] - row.rest@[a + 1]
}

/// The part `num` of `den` of a distance.
pub open spec fn part(distance: int, num: int, den: int) -> int {
    if distance >= 0 {
        (distance * num) / den
    } else {
        -(((-distance) * num) / den)
    }
}

/// How far the row has moved when the pointer is on the way from slot `a` to the next.
pub open spec fn moved(row: Row, win: int, cursor: int, a: int) -> int {
    let from = centred(row.rest@, row.gaps@, win, a);
    let to = centred(row.rest@, row.gaps@, win, a + 1);
    if a + 1 >= row.rest@.len() || cursor <= from {
        0
    } else if cursor >= to {
        step(row, a)
    } else {
        part(step(row, a), cursor - from, to - from)
    }
}

/// The middle of a slot. Without a pointer the row stands in the middle of the window.
/// With one, the row slides from the place where one slot is pinned to the place where the
/// next is.
pub open spec fn centre(row: Row, win: int, cursor: Option<int>, i: int) -> int {
    match cursor {
        None => centred(row.wide@, row.gaps@, win, i),
        Some(c) => {
            let a = reached(row.rest@, row.gaps@, win, c, 0);
            pinned(row, win, a, i) - moved(row, win, c, a)
        },
    }
}

proof fn lemma_offset_bound(w: Seq<u32>, g: Seq<u32>, i: int)
    requires
        0 <= i < w.len(),
        w.len() == g.len(),
    ensures
        0 <= offset(w, g, i) <= i * 0x2_0000_0000,
    decreases i,
{
    if i > 0 {
        lemma_offset_bound(w, g, i - 1);
    }
}

/// The places of a row of slots that begins at the left.
fn middles(w: &Vec<u32>, g: &Vec<u32>) -> (r: Vec<i64>)
    requires
        w@.len() == g@.len() <= MAX_SLOTS,
    ensures
        r@.len() == w@.len(),
        forall|i: int| 0 <= i < w@.len() ==> #[trigger] r@[i] == middle(w@, g@, i),
        forall|i: int| 0 <= i < w@.len() ==> 0 <= #[trigger] r@[i] <= 0x1000_0000_0000_0000,
{
    let mut out: Vec<i64> = Vec::new();
    let mut at: i64 = 0;
    let mut i: usize = 0;
    while i < w.len()
        invariant
            w@.len() == g@.len() <= MAX_SLOTS,
            i <= w@.len(),
            out@.len() == i,
            at == (if i == 0 {
                0
            } else {
                offset(w@, g@, i - 1) + w@[i - 1]
            }),
            0 <= at <= i * 0x2_0000_0000,
            forall|k: int| 0 <= k < i ==> #[trigger] out@[k] == middle(w@, g@, k),
            forall|k: int| 0 <= k < i ==> 0 <= #[trigger] out@[k] <= 0x1000_0000_0000_0000,
        decreases w@.len() - i,
    {
        if i > 0 {
            at += g[i] as i64;
        }
        assert(at == offset(w@, g@, i as int));
        proof {
            lemma_offset_bound(w@, g@, i as int);
        }
        out.push(2 * at + w[i] as i64);
        at += w[i] as i64;
        i += 1;
    }
    out
}

/// How long a row is, given its places.
fn long(w: &Vec<u32>, g: &Vec<u32>, m: &Vec<i64>) -> (r: i64)
    requires
        w@.len() == g@.len() <= MAX_SLOTS,
        m@.len() == w@.len(),
        forall|i: int| 0 <= i < w@.len() ==> #[trigger] m@[i] == middle(w@, g@, i),
        forall|i: int| 0 <= i < w@.len() ==> 0 <= #[trigger] m@[i] <= 0x1000_0000_0000_0000,
    ensures
        r == length(w@, g@),
        0 <= r <= 0x1000_0000_0000_0000,
{
    let n: usize = w.len();
    if n == 0 {
        return 0;
    }
    proof {
        lemma_offset_bound(w@, g@, n - 1);
    }
    let last: i64 = m[n - 1];
    (last - w[n - 1] as i64) / 2 + w[n - 1] as i64
}

/// The resting places of the slots, in the middle of the window.
pub fn rest_centers(row: &Row, win: u32) -> (r: Vec<i64>)
    requires
        row.wf(),
    ensures
        r@.len() == row.rest@.len(),
        forall|i: int|
            0 <= i < r@.len() ==> #[trigger] r@[i] == centred(row.rest@, row.gaps@, win as int, i),
{
    in_the_middle(&row.rest, &row.gaps, win)
}

fn in_the_middle(w: &Vec<u32>, g: &Vec<u32>, win: u32) -> (r: Vec<i64>)
    requires
        w@.len() == g@.len() <= MAX_SLOTS,
    ensures
        r@.len() == w@.len(),
        forall|i: int|
            0 <= i < r@.len() ==> #[trigger] r@[i] == centred(w@, g@, win as int, i),
        forall|i: int|
            0 <= i < r@.len() ==> -0x1000_0000_0000_0000 <= #[trigger] r@[i]
                <= 0x1000_0001_0000_0000,
{
    let m = middles(w, g);
    let from: i64 = win as i64 - long(w, g, &m);
    let mut out: Vec<i64> = Vec::new();
    let mut i: usize = 0;
    while i < m.len()
        invariant
            w@.len() == g@.len() == m@.len(),
            i <= m@.len(),
            out@.len() == i,
            from == win - length(w@, g@),
            -0x1000_0000_0000_0000 <= from <= 0x1_0000_0000,
            forall|k: int| 0 <= k < m@.len() ==> #[trigger] m@[k] == middle(w@, g@, k),
            forall|k: int| 0 <= k < m@.len() ==> 0 <= #[trigger] m@[k] <= 0x1000_0000_0000_0000,
            forall|k: int|
                0 <= k < i ==> #[trigger] out@[k] == centred(w@, g@, win as int, k),
            forall|k: int|
                0 <= k < i ==> -0x1000_0000_0000_0000 <= #[trigger] out@[k]
                    <= 0x1000_0001_0000_0000,
        decreases m@.len() - i,
    {
        out.push(from + m[i]);
        i += 1;
    }
    out
}

/// The slot whose resting place is the last that the pointer has reached; the first where
/// it has reached none.
fn anchor_index(places: &Vec<i64>, cursor: i64, Ghost(row): Ghost<Row>, win: u32) -> (r: usize)
    requires
        places@.len() == row.rest@.len(),
        0 < places@.len() <= MAX_SLOTS,
        forall|i: int|
            0 <= i < places@.len() ==> #[trigger] places@[i] == centred(
                row.rest@,
                row.gaps@,
                win as int,
                i,
            ),
    ensures
        r < places@.len(),
        r == reached(row.rest@, row.gaps@, win as int, cursor as int, 0),
{
    let mut j: usize = 0;
    while j + 1 < places.len() && cursor >= places[j + 1]
        invariant
            j < places@.len() <= MAX_SLOTS,
            places@.len() == row.rest@.len(),
            forall|i: int|
                0 <= i < places@.len() ==> #[trigger] places@[i] == centred(
                    row.rest@,
                    row.gaps@,
                    win as int,
                    i,
                ),
            reached(row.rest@, row.gaps@, win as int, cursor as int, 0) == reached(
                row.rest@,
                row.gaps@,
                win as int,
                cursor as int,
                j as int,
            ),
        decreases places@.len() - j,
    {
        assert(places@[j + 1] == centred(row.rest@, row.gaps@, win as int, j + 1));
        j += 1;
    }
    assert(j + 1 < places@.len() ==> places@[j + 1] == centred(
        row.rest@,
        row.gaps@,
        win as int,
        j + 1,
    ));
    j
}

proof fn lemma_part(distance: int, num: int, den: int)
    requires
        0 <= distance,
        0 <= num < den,
    ensures
        0 <= (distance * num) / den <= distance,
        0 <= distance * num,
{
    assert(0 <= distance * num <= distance * den) by (nonlinear_arith)
        requires
            0 <= distance,
            0 <= num < den,
    ;
    let q = (distance * num) / den;
    assert(0 <= q <= distance) by (nonlinear_arith)
        requires
            q == (distance * num) / den,
            0 <= distance * num <= distance * den,
            0 < den,
    ;
}

/// The part `num` of `den` of a distance.
fn part_of(distance: i64, num: i64, den: i64) -> (r: i64)
    requires
        0 <= num < den,
        -0x8_0000_0000 <= distance <= 0x8_0000_0000,
    ensures
        r == part(distance as int, num as int, den as int),
        -0x8_0000_0000 <= r <= 0x8_0000_0000,
{
    let size: i64 = if distance >= 0 {
        distance
    } else {
        -distance
    };
    proof {
        lemma_part(size as int, num as int, den as int);
        assert(size * num <= 0x8_0000_0000 * 0x8000_0000_0000_0000) by (nonlinear_arith)
            requires
                0 <= size <= 0x8_0000_0000,
                0 <= num < 0x8000_0000_0000_0000,
        ;
    }
    let product: i128 = size as i128 * num as i128;
    let q: i128 = product / den as i128;
    if distance >= 0 {
        q as i64
    } else {
        -(q as i64)
    }
}

/// The middle of each slot. With a pointer, the slot that it has reached stays at its
/// resting place and the others make room; on the way to the next slot the row slides.
pub fn centers(row: &Row, win: u32, cursor: Option<i64>) -> (r: Vec<i64>)
    requires
        row.wf(),
        cursor matches Some(c) ==> -0x4000_0000_0000_0000 <= c <= 0x4000_0000_0000_0000,
    ensures
        r@.len() == row.rest@.len(),
        forall|i: int|
            0 <= i < r@.len() ==> #[trigger] r@[i] == centre(
                *row,
                win as int,
                match cursor {
                    Some(c) => Some(c as int),
                    None => None,
                },
                i,
            ),
{
    let c: i64 = match cursor {
        Some(c) => c,
        None => {
            return in_the_middle(&row.wide, &row.gaps, win);
        },
    };
    let n: usize = row.rest.len();
    let mut out: Vec<i64> = Vec::new();
    if n == 0 {
        return out;
    }
    let places = in_the_middle(&row.rest, &row.gaps, win);
    let a: usize = anchor_index(&places, c, Ghost(*row), win);
    let m = middles(&row.wide, &row.gaps);
    let mut slid: i64 = 0;
    if a + 1 < n && c > places[a] {
        let whole: i64 = row.wide[a] as i64 - row.rest[a] as i64 + row.wide[a + 1] as i64
            - row.rest[a + 1] as i64;
        if c >= places[a + 1] {
            slid = whole;
        } else {
            slid = part_of(whole, c - places[a], places[a + 1] - places[a]);
        }
    }
    assert(slid == moved(*row, win as int, c as int, a as int)) by {
        assert(places@[a as int] == centred(row.rest@, row.gaps@, win as int, a as int));
        if a + 1 < n {
            assert(places@[a + 1] == centred(row.rest@, row.gaps@, win as int, a + 1));
        }
    }
    let pin: i64 = places[a];
    let anchor: i64 = m[a];
    let mut i: usize = 0;
    while i < n
        invariant
            n == row.rest@.len() == row.wide@.len() == row.gaps@.len() == m@.len(),
            i <= n,
            a < n,
            out@.len() == i,
            cursor == Some(c),
            a == reached(row.rest@, row.gaps@, win as int, c as int, 0),
            slid == moved(*row, win as int, c as int, a as int),
            -0x8_0000_0000 <= slid <= 0x8_0000_0000,
            pin == centred(row.rest@, row.gaps@, win as int, a as int),
            -0x1000_0000_0000_0000 <= pin <= 0x1000_0001_0000_0000,
            anchor == middle(row.wide@, row.gaps@, a as int),
            0 <= anchor <= 0x1000_0000_0000_0000,
            forall|k: int| 0 <= k < n ==> #[trigger] m@[k] == middle(row.wide@, row.gaps@, k),
            forall|k: int| 0 <= k < n ==> 0 <= #[trigger] m@[k] <= 0x1000_0000_0000_0000,
            forall|k: int|
                0 <= k < i ==> #[trigger] out@[k] == centre(*row, win as int, Some(c as int), k),
        decreases n - i,
    {
        out.push(pin + m[i] - anchor - slid);
        i += 1;
    }
    out
}

/// The sides of the pill around the icons, as places.
pub fn pill_sides(row: &Row, places: &Vec<i64>, pad: u32) -> (r: (i64, i64))
    requires
        row.wf(),
        places@.len() == row.wide@.len(),
        forall|i: int|
            0 <= i < places@.len() ==> -0x4000_0000_0000_0000 <= #[trigger] places@[i]
                <= 0x4000_0000_0000_0000,
    ensures
        places@.len() == 0 ==> r == (0i64, 0i64),
        places@.len() > 0 ==> r.0 == places@[0] - row.wide@[0] - 2 * pad && r.1 == places@.last()
            + row.wide@.last() + 2 * pad,
{
    let n: usize = places.len();
    if n == 0 {
        return (0, 0);
    }
    (
        places[0] - row.wide[0] as i64 - 2 * pad as i64,
        places[n - 1] + row.wide[n - 1] as i64 + 2 * pad as i64,
    )
}

/// The pointer is in an icon: `bottom` is where the icon stands, `y` where the pointer is.
pub open spec fn in_icon(place: int, width: int, bottom: int, x: int, y: int) -> bool {
    place - width <= x <= place + width && bottom - width <= y <= bottom
}

/// Which icons the pointer is in. `x` is a place.
pub fn icons_under(row: &Row, places: &Vec<i64>, bottoms: &Vec<i64>, x: i64, y: i64) -> (r: Vec<
    bool,
>)
    requires
        row.wf(),
        places@.len() == row.wide@.len(),
        bottoms@.len() == row.wide@.len(),
        forall|i: int|
            0 <= i < places@.len() ==> -0x4000_0000_0000_0000 <= #[trigger] places@[i]
                <= 0x4000_0000_0000_0000,
        forall|i: int|
            0 <= i < bottoms@.len() ==> -0x4000_0000_0000_0000 <= #[trigger] bottoms@[i]
                <= 0x4000_0000_0000_0000,
    ensures
        r@ == Seq::new(
            places@.len(),
            |i: int|
                in_icon(
                    places@[i] as int,
                    row.wide@[i] as int,
                    bottoms@[i] as int,
                    x as int,
                    y as int,
                ),
        ),
{
    let mut out: Vec<bool> = Vec::new();
    let mut i: usize = 0;
    while i < places.len()
        invariant
            places@.len() == row.wide@.len(),
            bottoms@.len() == row.wide@.len(),
            i <= places@.len(),
            forall|k: int|
                0 <= k < places@.len() ==> -0x4000_0000_0000_0000 <= #[trigger] places@[k]
                    <= 0x4000_0000_0000_0000,
            forall|k: int|
                0 <= k < bottoms@.len() ==> -0x4000_0000_0000_0000 <= #[trigger] bottoms@[k]
                    <= 0x4000_0000_0000_0000,
            out@ == Seq::new(
                i as nat,
                |k: int|
                    in_icon(
                        places@[k] as int,
                        row.wide@[k] as int,
                        bottoms@[k] as int,
                        x as int,
                        y as int,
                    ),
            ),
        decreases places@.len() - i,
    {
        let w: i64 = row.wide[i] as i64;
        let p: i64 = places[i];
        let b: i64 = bottoms[i];
        out.push(p - w <= x && x <= p + w && b - w <= y && y <= b);
        i += 1;
        assert(out@ =~= Seq::new(
            i as nat,
            |k: int|
                in_icon(
                    places@[k] as int,
                    row.wide@[k] as int,
                    bottoms@[k] as int,
                    x as int,
                    y as int,
                ),
        ));
    }
    out
}

pub open spec fn base_width(role: ItemRole) -> nat {
    if role == ItemRole::Divider {
        DIVIDER_W as nat
    } else {
        BASE_ICON as nat
    }
}

/// How wide all the slots of these items are together, in logical pixels.
pub open spec fn widths(items: Seq<DockItem>) -> nat
    decreases items.len(),
{
    if items.len() == 0 {
        0
    } else {
        widths(items.drop_last()) + base_width(items.last().role)
    }
}

/// How long the row of these items is at rest, in logical pixels.
pub open spec fn row_length(items: Seq<DockItem>) -> nat {
    widths(items) + GAP as nat * (if items.len() == 0 {
        0nat
    } else {
        (items.len() - 1) as nat
    })
}

proof fn lemma_row_length(items: Seq<DockItem>)
    requires
        items.len() <= MAX_SLOTS,
    ensures
        widths(items) <= items.len() * 50,
        row_length(items) <= 0x10_0000_0000,
    decreases items.len(),
{
    if items.len() > 0 {
        lemma_row_length(items.drop_last());
    }
}

/// How long the row of these items is at rest, in logical pixels.
fn rest_length(items: &Vec<DockItem>) -> (r: u64)
    requires
        items@.len() <= MAX_SLOTS,
    ensures
        r == row_length(items@),
        r <= 0x10_0000_0000,
{
    let mut sum: u64 = 0;
    let mut i: usize = 0;
    assert(items@.take(0) =~= Seq::empty());
    while i < items.len()
        invariant
            items@.len() <= MAX_SLOTS,
            i <= items@.len(),
            sum == widths(items@.take(i as int)),
            sum <= i * 50,
        decreases items@.len() - i,
    {
        assert(items@.take(i + 1).drop_last() =~= items@.take(i as int));
        sum += role_base_width(items[i].role) as u64;
        i += 1;
    }
    assert(items@.take(items@.len() as int) =~= items@);
    if i == 0 {
        sum
    } else {
        sum + GAP as u64 * (i as u64 - 1)
    }
}

/// A logical length at a density of dots per inch, rounded up.
pub open spec fn rounded_up(n: int, dots: int) -> int {
    (n * dots + 95) / 96
}

fn at_density(n: u64, dots: u32) -> (r: u64)
    requires
        n <= 0x20_0000_0000,
        dots <= 0x1_0000,
    ensures
        r == rounded_up(n as int, dots as int),
{
    assert(0 <= n * dots <= 0x20_0000_0000 * 0x1_0000) by (nonlinear_arith)
        requires
            0 <= n <= 0x20_0000_0000,
            0 <= dots <= 0x1_0000,
    ;
    (n * dots as u64 + 95) / 96
}

/// The width that a window needs for a row, in logical pixels: there is room for icons that
/// push each other aside.
pub open spec fn window_width(items: Seq<DockItem>) -> int {
    row_length(items) + 2 * PILL_PAD_X + 4 * BASE_ICON
}

/// The height that a window needs, in logical pixels: an icon that is magnified and hops is
/// never cut off.
pub open spec fn window_height() -> int {
    FULL_ICON + HOP + PILL_PAD_Y + TOP_PAD + SHOWN_GAP
}

/// The size of the window of a row, in pixels at a density of dots per inch.
pub fn window_size(items: &Vec<DockItem>, dots: u32) -> (r: (u64, u64))
    requires
        items@.len() <= MAX_SLOTS,
        dots <= 0x1_0000,
    ensures
        r.0 == rounded_up(window_width(items@), dots as int),
        r.1 == rounded_up(window_height(), dots as int),
{
    let w: u64 = rest_length(items) + 2 * PILL_PAD_X as u64 + 4 * BASE_ICON as u64;
    let h: u64 = (FULL_ICON + HOP + PILL_PAD_Y + TOP_PAD + SHOWN_GAP) as u64;
    (at_density(w, dots), at_density(h, dots))
}

/// The sides of the part of the window that the row can reach, as places in logical
/// pixels, for a window of a width in logical pixels.
pub fn dock_span_x(items: &Vec<DockItem>, win: u32) -> (r: (i64, i64))
    requires
        items@.len() <= MAX_SLOTS,
    ensures
        r.0 == win - (row_length(items@) + 2 * PILL_PAD_X + BASE_ICON),
        r.1 == win + (row_length(items@) + 2 * PILL_PAD_X + BASE_ICON),
{
    let row: i64 = rest_length(items) as i64 + 2 * PILL_PAD_X as i64 + BASE_ICON as i64;
    (win as i64 - row, win as i64 + row)
}

/// How far the upper side of the pill is above the lower side of the window while the dock is
/// shown, in logical pixels.
pub open spec fn pill_rise() -> int {
    2 * PILL_PAD_Y + SHOWN_GAP + BASE_ICON
}

/// The upper side of the pill while the dock is shown, in logical pixels, for a window of a
/// height in logical pixels.
pub fn pill_top(win_h: u32) -> (r: i64)
    ensures
        r == win_h - pill_rise(),
{
    win_h as i64 - (2 * PILL_PAD_Y + SHOWN_GAP + BASE_ICON) as i64
}

/// The bits of 0.02: a dock that is shown no further counts as hidden.
pub const HIDDEN_BELOW: u32 = 0x3CA3_D70A;

/// The bits of a float that is positive and not beyond all numbers.
pub open spec fn is_number(bits: u32) -> bool {
    bits <= 0x7F80_0000
}

/// The dock takes the mouse as one that is shown: `reveal` is how far it is shown, as the
/// bits of a float.
pub fn is_shown(reveal: u32) -> (r: bool)
    ensures
        r == (is_number(reveal) && reveal > HIDDEN_BELOW),
{
    HIDDEN_BELOW < reveal && reveal <= 0x7F80_0000
}

/// A part of the window. Lengths are in parts of a pixel so small that half a logical pixel
/// is as many of them as there are dots per inch.
#[derive(Clone, Copy, Debug, PartialEq, Eq, Structural)]
pub struct Zone {
    pub left: i64,
    pub top: i64,
    pub right: i64,
    pub bottom: i64,
}

/// How many of the lengths of a zone a pixel is.
pub const ZONE_UNITS: i64 = 192;

/// How far the row of these items can reach, in logical pixels.
pub open spec fn reach(items: Seq<DockItem>) -> int {
    row_length(items) + 2 * PILL_PAD_X + BASE_ICON
}

/// The part of a window of a size in pixels that takes the mouse: all that a magnified icon
/// can cover while the dock is shown, a strip while it is hidden.
pub open spec fn zone_of(items: Seq<DockItem>, size: (u32, u32), dots: int, shown: bool) -> Zone {
    let height = size.1 * ZONE_UNITS;
    let head = height - 2 * ((FULL_ICON + 2 * PILL_PAD_Y) * dots);
    let top = if !shown {
        height - 2 * (TRIGGER_PX * dots)
    } else if head > 0 {
        head
    } else {
        0
    };
    Zone {
        left: (size.0 * (ZONE_UNITS / 2) - reach(items) * dots) as i64,
        top: top as i64,
        right: (size.0 * (ZONE_UNITS / 2) + reach(items) * dots) as i64,
        bottom: height as i64,
    }
}

impl Dock {
    /// The part of a window of a size in pixels that takes the mouse: all that a magnified
    /// icon can cover while the dock is shown, a strip while it is hidden.
    pub fn hit_zone(&self, size: (u32, u32), dots: u32, shown: bool) -> (r: Zone)
        requires
            self.items@.len() <= MAX_SLOTS,
            dots <= 0x1_0000,
        ensures
            r == zone_of(self.items@, size, dots as int, shown),
            r.left + r.right == size.0 * ZONE_UNITS,
            r.right - r.left == 2 * (reach(self.items@) * dots),
            r.bottom == size.1 * ZONE_UNITS,
    {
        let row: i64 = rest_length(&self.items) as i64 + 2 * PILL_PAD_X as i64 + BASE_ICON as i64;
        let d: i64 = dots as i64;
        assert(0 <= row * d <= 0x20_0000_0000 * 0x1_0000) by (nonlinear_arith)
            requires
                0 <= row <= 0x20_0000_0000,
                0 <= d <= 0x1_0000,
        ;
        let middle: i64 = size.0 as i64 * (ZONE_UNITS / 2);
        let height: i64 = size.1 as i64 * ZONE_UNITS;
        let tall: i64 = (FULL_ICON + 2 * PILL_PAD_Y) as i64;
        let strip: i64 = TRIGGER_PX as i64;
        assert(tall * d <= 0x80 * 0x1_0000 && strip * d <= 0x80 * 0x1_0000 && 0 <= tall * d && 0
            <= strip * d) by (nonlinear_arith)
            requires
                0 <= tall <= 0x80,
                0 <= strip <= 0x80,
                0 <= d <= 0x1_0000,
        ;
        let head: i64 = height - 2 * (tall * d);
        let top: i64 = if !shown {
            height - 2 * (strip * d)
        } else if head > 0 {
            head
        } else {
            0
        };
        Zone { left: middle - row * d, top, right: middle + row * d, bottom: height }
    }

    /// The part that takes the mouse; `reveal` is how far the dock is shown, as the bits of a
    /// float.
    pub fn interactive_hit_zone(&self, size: (u32, u32), dots: u32, reveal: u32) -> (r: Zone)
        requires
            self.items@.len() <= MAX_SLOTS,
            dots <= 0x1_0000,
        ensures
            r == zone_of(
                self.items@,
                size,
                dots as int,
                is_number(reveal) && reveal > HIDDEN_BELOW,
            ),
    {
        self.hit_zone(size, dots, is_shown(reveal))
    }

    /// The part that takes the mouse: all that icons can grow to while the pointer is over the
    /// dock, so that it stays over it; the visible pill at rest, so that what stands above or
    /// beside the dock can be clicked.
    pub fn pointer_hit_zone(
        &self,
        size: (u32, u32),
        dots: u32,
        reveal: u32,
        hovered: bool,
        pill: Zone,
    ) -> (r: Zone)
        requires
            self.items@.len() <= MAX_SLOTS,
            dots <= 0x1_0000,
        ensures
            r == (if hovered {
                zone_of(
                    self.items@,
                    size,
                    dots as int,
                    is_number(reveal) && reveal > HIDDEN_BELOW,
                )
            } else {
                pill
            }),
    {
        if hovered {
            self.interactive_hit_zone(size, dots, reveal)
        } else {
            pill
        }
    }
}

/// The height of the strip that a hidden dock leaves, in pixels at a density of dots per
/// inch: some logical pixels, rounded, but a few pixels at least.
pub fn strip_height(dots: u32) -> (r: u32)
    requires
        dots <= 0x1_0000,
    ensures
        r == (if (12 * dots + 96) / 192 < 4 {
            4
        } else {
            (12 * dots + 96) / 192
        }),
{
    let h: u32 = (12 * dots + 96) / 192;
    if h < 4 {
        4
    } else {
        h
    }
}

/// After a rest of this length, in nanoseconds, an animation goes on where it was.
pub const IDLE_GAP: u64 = 100_000_000;

/// The most that an animation moves on in one frame, in nanoseconds.
pub const MAX_FRAME: u64 = 33_333_333;

/// How far an animation moves on, in nanoseconds: a rest never becomes a jump, and the frame
/// after one moves nothing.
pub fn animation_dt(elapsed: u64, resumed: bool) -> (r: u64)
    ensures
        r == (if resumed || elapsed >= IDLE_GAP {
            0
        } else if elapsed < MAX_FRAME {
            elapsed
        } else {
            MAX_FRAME
        }),
{
    if resumed || elapsed >= IDLE_GAP {
        0
    } else if elapsed < MAX_FRAME {
        elapsed
    } else {
        MAX_FRAME
    }
}

pub proof fn lemma_reached(r: Seq<u32>, g: Seq<u32>, win: int, cursor: int, j: int)
    requires
        0 <= j < r.len(),
        r.len() == g.len(),
    ensures
        j <= reached(r, g, win, cursor, j) < r.len(),
        forall|k: int|
            j < k <= reached(r, g, win, cursor, j) ==> cursor >= #[trigger] centred(r, g, win, k),
        reached(r, g, win, cursor, j) + 1 < r.len() ==> cursor < centred(
            r,
            g,
            win,
            reached(r, g, win, cursor, j) + 1,
        ),
    decreases r.len() - j,
{
    if j + 1 < r.len() && cursor >= centred(r, g, win, j + 1) {
        lemma_reached(r, g, win, cursor, j + 1);
    }
}

proof fn lemma_offset_order(w: Seq<u32>, g: Seq<u32>, i: int, j: int)
    requires
        0 <= i < j < w.len(),
        w.len() == g.len(),
        forall|k: int| 0 <= k < w.len() ==> #[trigger] w[k] > 0,
    ensures
        middle(w, g, i) < middle(w, g, j),
    decreases j - i,
{
    if j > i + 1 {
        lemma_offset_order(w, g, i, j - 1);
    }
}

/// The icon that the pointer is in the middle of stays where it is at rest, however much
/// it and its neighbours are magnified.
pub proof fn law_hovered_icon_stays(row: Row, win: int, j: int)
    requires
        row.wf(),
        0 <= j < row.rest@.len(),
        forall|k: int| 0 <= k < row.rest@.len() ==> #[trigger] row.rest@[k] > 0,
    ensures
        centre(row, win, Some(centred(row.rest@, row.gaps@, win, j)), j) == centred(
            row.rest@,
            row.gaps@,
            win,
            j,
        ),
{
    let c = centred(row.rest@, row.gaps@, win, j);
    let a = reached(row.rest@, row.gaps@, win, c, 0);
    lemma_reached(row.rest@, row.gaps@, win, c, 0);
    if a < j {
        if a + 1 < j {
            lemma_offset_order(row.rest@, row.gaps@, a + 1, j);
        }
    } else if a > j {
        lemma_offset_order(row.rest@, row.gaps@, j, a);
        assert(c >= centred(row.rest@, row.gaps@, win, a));
    }
    assert(a == j);
}

/// The other icons make room: those before the one under the pointer are at rest or move
/// to the left of it, those after it to the right.
pub proof fn law_neighbours_make_room(row: Row, win: int, a: int, i: int)
    requires
        row.wf(),
        0 <= a < row.rest@.len(),
        0 <= i < row.rest@.len(),
        forall|k: int|
            0 <= k < row.rest@.len() ==> #[trigger] row.wide@[k] >= row.rest@[k],
    ensures
        i < a ==> pinned(row, win, a, i) <= centred(row.rest@, row.gaps@, win, i),
        i > a ==> pinned(row, win, a, i) >= centred(row.rest@, row.gaps@, win, i),
{
    if i < a {
        lemma_wider(row, i, a);
    } else if i > a {
        lemma_wider(row, a, i);
    }
}

proof fn lemma_wider(row: Row, i: int, j: int)
    requires
        row.wf(),
        0 <= i < j < row.rest@.len(),
        forall|k: int|
            0 <= k < row.rest@.len() ==> #[trigger] row.wide@[k] >= row.rest@[k],
    ensures
        middle(row.wide@, row.gaps@, j) - middle(row.wide@, row.gaps@, i) >= middle(
            row.rest@,
            row.gaps@,
            j,
        ) - middle(row.rest@, row.gaps@, i),
    decreases j - i,
{
    assert(row.wide@[j] >= row.rest@[j]);
    assert(row.wide@[j - 1] >= row.rest@[j - 1]);
    if j > i + 1 {
        lemma_wider(row, i, j - 1);
    } else {
        assert(row.wide@[i] >= row.rest@[i]);
    }
}

/// Where the pointer reaches the next icon, the row is exactly where that icon pins it: it
/// never jumps.
pub proof fn law_row_never_jumps(row: Row, win: int, a: int, i: int)
    requires
        row.wf(),
        0 <= a,
        a + 1 < row.rest@.len(),
        0 <= i < row.rest@.len(),
        row.rest@[a] > 0,
    ensures
        pinned(row, win, a, i) - moved(
            row,
            win,
            centred(row.rest@, row.gaps@, win, a + 1),
            a,
        ) == pinned(row, win, a + 1, i),
        pinned(row, win, a, i) - moved(row, win, centred(row.rest@, row.gaps@, win, a), a)
            == pinned(row, win, a, i),
{
}

/// On the way from one icon to the next the row is between the two places where they pin
/// it.
pub proof fn law_row_slides_between(row: Row, win: int, cursor: int, a: int, i: int)
    requires
        row.wf(),
        0 <= a,
        a + 1 < row.rest@.len(),
        0 <= i < row.rest@.len(),
        row.rest@[a] > 0,
        step(row, a) >= 0,
    ensures
        pinned(row, win, a + 1, i) <= pinned(row, win, a, i) - moved(row, win, cursor, a)
            <= pinned(row, win, a, i),
{
    let from = centred(row.rest@, row.gaps@, win, a);
    let to = centred(row.rest@, row.gaps@, win, a + 1);
    if from < cursor < to {
        lemma_part(step(row, a), cursor - from, to - from);
    }
}

/// The gap between two neighbours is the one before the right one, whatever the pointer
/// does: icons never cover each other.
pub proof fn law_gaps_are_kept(row: Row, win: int, cursor: Option<int>, i: int)
    requires
        row.wf(),
        0 <= i,
        i + 1 < row.rest@.len(),
    ensures
        centre(row, win, cursor, i + 1) - centre(row, win, cursor, i) == row.wide@[i]
            + 2 * row.gaps@[i + 1] + row.wide@[i + 1],
{
}

/// Without a pointer as much is left free on the left of the row as on the right.
pub proof fn law_row_is_centred(row: Row, win: int)
    requires
        row.wf(),
        row.rest@.len() > 0,
    ensures
        centre(row, win, None, 0) - row.wide@[0] == 2 * win - (centre(
            row,
            win,
            None,
            row.rest@.len() - 1,
        ) + row.wide@.last()),
{
}

/// While the pointer is over a dock that is shown, the part that takes the mouse holds the
/// whole pill at rest: it reaches higher, wherever the window does, and wider.
pub proof fn law_hovered_zone_holds_pill(items: Seq<DockItem>, size: (u32, u32), dots: int)
    requires
        items.len() <= MAX_SLOTS,
        0 < dots <= 0x1_0000,
        size.1 * ZONE_UNITS > 2 * (pill_rise() * dots),
    ensures
        ({
            let z = zone_of(items, size, dots, true);
            &&& z.top < size.1 * ZONE_UNITS - 2 * (pill_rise() * dots)
            &&& z.bottom == size.1 * ZONE_UNITS
            &&& z.right - z.left > 2 * ((row_length(items) + 2 * PILL_PAD_X) * dots)
        }),
{
    lemma_row_length(items);
    let full: int = FULL_ICON + 2 * PILL_PAD_Y;
    let pill = pill_rise();
    let row: int = row_length(items) + 2 * PILL_PAD_X;
    assert(full * dots > pill * dots && full * dots <= 0x80 * 0x1_0000) by (nonlinear_arith)
        requires
            0x80 >= full > pill,
            0 < dots <= 0x1_0000,
    ;
    assert(0 <= row * dots < (row + BASE_ICON) * dots <= 0x20_0000_0000 * 0x1_0000)
        by (nonlinear_arith)
        requires
            0 <= row < row + BASE_ICON <= 0x20_0000_0000,
            0 < dots <= 0x1_0000,
    ;
}

/// The window has room for the row with four icons magnified as much as can be, and for one
/// that hops.
pub proof fn law_window_has_room(items: Seq<DockItem>)
    ensures
        window_width(items) >= row_length(items) + 2 * PILL_PAD_X + 4 * (FULL_ICON - BASE_ICON),
        window_height() >= FULL_ICON + HOP + PILL_PAD_Y + SHOWN_GAP,
{
}

} // verus!
