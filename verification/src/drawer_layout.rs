//! The sections of the app drawer and the places of programs in its grid.

use vstd::prelude::*;
use crate::categories::{Categories, CategoryView};
use crate::text;

verus! {

#[derive(Clone, Copy, Debug, PartialEq, Eq, Structural)]
pub enum SectionKind {
    /// One of the user's rows, by its index.
    Custom(usize),
    /// The programs that are in no row.
    Uncategorized,
}

/// A section of the drawer.
pub struct Section {
    pub name: String,
    pub kind: SectionKind,
    /// Indices into the list of programs.
    pub entries: Vec<usize>,
}

#[verifier::ext_equal]
pub struct SectionView {
    pub name: Seq<char>,
    pub kind: SectionKind,
    pub entries: Seq<usize>,
}

impl View for Section {
    type V = SectionView;

    open spec fn view(&self) -> SectionView {
        SectionView { name: self.name@, kind: self.kind, entries: self.entries@ }
    }
}

/// The most programs and sections together that are laid out.
pub const MAX_CELLS: usize = 0x100_0000;

/// The lengths that the drawer is laid out with, in any small unit.
#[derive(Clone, Copy, Debug)]
pub struct Metrics {
    pub width: u32,
    pub cols: usize,
    pub lpad: u32,
    pub cell_w: u32,
    pub cell_h: u32,
    pub gap_x: u32,
    pub gap_y: u32,
    pub header_h: u32,
    pub section_gap: u32,
    pub add_h: u32,
}

#[derive(Clone, Copy, Debug, PartialEq, Eq, Structural)]
pub struct Rect {
    pub left: i64,
    pub top: i64,
    pub right: i64,
    pub bottom: i64,
}

/// The place of a program.
#[derive(Clone, Copy, Debug, PartialEq, Eq, Structural)]
pub struct Cell {
    pub entry: usize,
    pub rect: Rect,
}

/// How far a section reaches: its header, and the grid below it.
#[derive(Clone, Copy, Debug, PartialEq, Eq, Structural)]
pub struct Band {
    pub section: usize,
    pub header: Rect,
    pub grid_top: i64,
    pub grid_bottom: i64,
}

/// Where everything in the drawer is.
pub struct Layout {
    pub cells: Vec<Cell>,
    pub bands: Vec<Band>,
    pub add_button: Rect,
    pub content_h: i64,
}

pub open spec fn views(v: Seq<Section>) -> Seq<SectionView> {
    Seq::new(v.len(), |i: int| v[i]@)
}

/// The index of the first `key`, or the number of keys.
pub open spec fn place_of(keys: Seq<Seq<char>>, key: Seq<char>) -> int
    decreases keys.len(),
{
    if keys.len() == 0 || keys[0] == key {
        0
    } else {
        1 + place_of(keys.skip(1), key)
    }
}

/// The programs that a row takes, in the row's order, and what is taken then. A key
/// without a program is passed over, and so is a program that is taken already.
pub open spec fn taken(keys: Seq<Seq<char>>, items: Seq<Seq<char>>, claimed: Seq<bool>) -> (
    Seq<usize>,
    Seq<bool>,
)
    decreases items.len(),
{
    if items.len() == 0 {
        (seq![], claimed)
    } else {
        let (entries, marks) = taken(keys, items.drop_last(), claimed);
        let at = place_of(keys, items.last());
        if at < keys.len() && !marks[at] {
            (entries.push(at as usize), marks.update(at, true))
        } else {
            (entries, marks)
        }
    }
}

/// The sections of the user's rows, and what is taken then.
pub open spec fn custom(keys: Seq<Seq<char>>, cats: Seq<CategoryView>) -> (
    Seq<SectionView>,
    Seq<bool>,
)
    decreases cats.len(),
{
    if cats.len() == 0 {
        (seq![], Seq::new(keys.len(), |i: int| false))
    } else {
        let (front, marks) = custom(keys, cats.drop_last());
        let (entries, after) = taken(keys, cats.last().items, marks);
        (
            front.push(
                SectionView {
                    name: cats.last().name,
                    kind: SectionKind::Custom((cats.len() - 1) as usize),
                    entries,
                },
            ),
            after,
        )
    }
}

/// The indices that are not marked, in order.
pub open spec fn unmarked(marks: Seq<bool>) -> Seq<usize>
    decreases marks.len(),
{
    if marks.len() == 0 {
        seq![]
    } else {
        let front = unmarked(marks.drop_last());
        if marks.last() {
            front
        } else {
            front.push((marks.len() - 1) as usize)
        }
    }
}

/// All sections: the user's rows, and the programs in none. The latter section is there
/// if it holds any or if there are rows.
pub open spec fn sections_of(keys: Seq<Seq<char>>, cats: Seq<CategoryView>) -> Seq<SectionView> {
    let (rows, marks) = custom(keys, cats);
    let left = unmarked(marks);
    if left.len() > 0 || cats.len() > 0 {
        rows.push(
            SectionView { name: "未分类"@, kind: SectionKind::Uncategorized, entries: left },
        )
    } else {
        rows
    }
}

/// The entries of all sections, one section after the other.
pub open spec fn flat(s: Seq<SectionView>) -> Seq<usize>
    decreases s.len(),
{
    if s.len() == 0 {
        seq![]
    } else {
        flat(s.drop_last()) + s.last().entries
    }
}

/// How many rows of the grid a section takes: one at least, to drop programs into.
pub open spec fn row_count(count: nat, cols: nat) -> nat {
    if count == 0 {
        1
    } else {
        ((count + cols - 1) / cols as int) as nat
    }
}

pub open spec fn rect(left: int, top: int, right: int, bottom: int) -> Rect {
    Rect { left: left as i64, top: top as i64, right: right as i64, bottom: bottom as i64 }
}

/// The height of the grid of a section.
pub open spec fn grid_height(m: Metrics, count: nat) -> int {
    row_count(count, m.cols as nat) * m.cell_h + (row_count(count, m.cols as nat) - 1) * m.gap_y
}

/// How many programs the first `n` sections hold.
pub open spec fn held(s: Seq<SectionView>, n: int) -> nat
    decreases n,
{
    if n <= 0 {
        0
    } else {
        held(s, n - 1) + s[n - 1].entries.len()
    }
}

/// The upper side of a section.
pub open spec fn top_of(s: Seq<SectionView>, m: Metrics, n: int) -> int
    decreases n,
{
    if n <= 0 {
        0
    } else {
        top_of(s, m, n - 1) + m.header_h + grid_height(m, s[n - 1].entries.len()) + m.section_gap
    }
}

pub open spec fn grid_top(s: Seq<SectionView>, m: Metrics, n: int) -> int {
    top_of(s, m, n) + m.header_h
}

pub open spec fn grid_bottom(s: Seq<SectionView>, m: Metrics, n: int) -> int {
    grid_top(s, m, n) + grid_height(m, s[n].entries.len())
}

pub open spec fn cell_left(m: Metrics, i: int) -> int {
    m.lpad + (i % m.cols as int) * (m.cell_w + m.gap_x)
}

pub open spec fn cell_top(s: Seq<SectionView>, m: Metrics, n: int, i: int) -> int {
    grid_top(s, m, n) + (i / m.cols as int) * (m.cell_h + m.gap_y)
}

/// The place of the program at index `i` of section `n`.
pub open spec fn cell_rect(s: Seq<SectionView>, m: Metrics, n: int, i: int) -> Rect {
    rect(
        cell_left(m, i),
        cell_top(s, m, n, i),
        cell_left(m, i) + m.cell_w,
        cell_top(s, m, n, i) + m.cell_h,
    )
}

/// The places of the programs of a section.
pub open spec fn placed(s: Seq<SectionView>, m: Metrics, n: int) -> Seq<Cell> {
    Seq::new(
        s[n].entries.len(),
        |i: int| Cell { entry: s[n].entries[i], rect: cell_rect(s, m, n, i) },
    )
}

/// The places of the programs of the first `n` sections.
pub open spec fn grid(s: Seq<SectionView>, m: Metrics, n: int) -> Seq<Cell>
    decreases n,
{
    if n <= 0 {
        seq![]
    } else {
        grid(s, m, n - 1) + placed(s, m, n - 1)
    }
}

pub open spec fn band(s: Seq<SectionView>, m: Metrics, n: int) -> Band {
    Band {
        section: n as usize,
        header: rect(
            m.lpad as int,
            top_of(s, m, n),
            m.width - m.lpad,
            top_of(s, m, n) + m.header_h,
        ),
        grid_top: grid_top(s, m, n) as i64,
        grid_bottom: grid_bottom(s, m, n) as i64,
    }
}

/// The sections stand one below the other, and below them the button that adds one.
pub open spec fn is_layout(l: Layout, s: Seq<SectionView>, m: Metrics) -> bool {
    let end = top_of(s, m, s.len() as int);
    &&& l.cells@ == grid(s, m, s.len() as int)
    &&& l.bands@ == Seq::new(s.len(), |n: int| band(s, m, n))
    &&& l.add_button == rect(m.lpad as int, end, m.width - m.lpad, end + m.add_h)
    &&& l.content_h == end + m.add_h
}

/// There are columns, and not more programs and sections than are laid out.
pub open spec fn can_lay_out(s: Seq<SectionView>, m: Metrics) -> bool {
    m.cols > 0 && held(s, s.len() as int) + s.len() <= MAX_CELLS
}

pub open spec fn holds(r: Rect, x: int, y: int) -> bool {
    r.left <= x <= r.right && r.top <= y <= r.bottom
}

/// The first section from `n` on that a point is above the lower end of, or the last
/// section; half of the room between two sections belongs to each.
pub open spec fn section_at(s: Seq<SectionView>, m: Metrics, y: int, n: int) -> int
    decreases s.len() - n,
{
    if n + 1 >= s.len() || 2 * y < 2 * grid_bottom(s, m, n) + m.section_gap {
        n
    } else {
        section_at(s, m, y, n + 1)
    }
}

/// The column that a drop goes to: the right half of a cell belongs to the next.
pub open spec fn column_at(m: Metrics, x: int) -> int {
    let col = (2 * (x - m.lpad) + m.cell_w) / (2 * (m.cell_w + m.gap_x));
    if col < 0 {
        0
    } else if col > m.cols {
        m.cols as int
    } else {
        col
    }
}

/// The row of a grid that a drop goes to.
pub open spec fn row_at(m: Metrics, grid_top: int, y: int) -> int {
    (if y < grid_top {
        0
    } else {
        y - grid_top
    }) / (m.cell_h + m.gap_y)
}

/// The section and the index there that a drop goes to.
pub open spec fn drop_of(s: Seq<SectionView>, m: Metrics, x: int, y: int) -> (int, int) {
    let section = section_at(s, m, y, 0);
    let slot = row_at(m, grid_top(s, m, section), y) * m.cols + column_at(m, x);
    let count = s[section].entries.len();
    (
        section,
        if slot < count {
            slot
        } else {
            count as int
        },
    )
}

pub proof fn lemma_place_of(keys: Seq<Seq<char>>, key: Seq<char>)
    ensures
        0 <= place_of(keys, key) <= keys.len(),
        place_of(keys, key) < keys.len() ==> keys[place_of(keys, key)] == key,
        forall|i: int| 0 <= i < place_of(keys, key) ==> keys[i] != key,
    decreases keys.len(),
{
    if keys.len() > 0 && keys[0] != key {
        lemma_place_of(keys.skip(1), key);
        assert forall|i: int| 0 <= i < place_of(keys, key) implies keys[i] != key by {
            if i > 0 {
                assert(keys.skip(1)[i - 1] == keys[i]);
            }
        }
    }
}

proof fn lemma_place_of_is(keys: Seq<Seq<char>>, key: Seq<char>, at: int)
    requires
        0 <= at <= keys.len(),
        forall|i: int| 0 <= i < at ==> keys[i] != key,
        at < keys.len() ==> keys[at] == key,
    ensures
        place_of(keys, key) == at,
{
    lemma_place_of(keys, key);
}

pub proof fn lemma_taken_len(keys: Seq<Seq<char>>, items: Seq<Seq<char>>, claimed: Seq<bool>)
    requires
        claimed.len() == keys.len(),
    ensures
        taken(keys, items, claimed).1.len() == claimed.len(),
    decreases items.len(),
{
    if items.len() > 0 {
        lemma_taken_len(keys, items.drop_last(), claimed);
        lemma_place_of(keys, items.last());
    }
}

pub proof fn lemma_custom_len(keys: Seq<Seq<char>>, cats: Seq<CategoryView>)
    ensures
        custom(keys, cats).0.len() == cats.len(),
        custom(keys, cats).1.len() == keys.len(),
    decreases cats.len(),
{
    if cats.len() > 0 {
        lemma_custom_len(keys, cats.drop_last());
        lemma_taken_len(keys, cats.last().items, custom(keys, cats.drop_last()).1);
    }
}

fn find_key(keys: &Vec<String>, key: &str) -> (r: usize)
    ensures
        r == place_of(text::texts(keys@), key@),
        r <= keys@.len(),
{
    let ghost all = text::texts(keys@);
    let mut i: usize = 0;
    while i < keys.len() && !text::same(keys[i].as_str(), key)
        invariant
            i <= keys@.len(),
            all == text::texts(keys@),
            forall|j: int| 0 <= j < i ==> all[j] != key@,
        decreases keys@.len() - i,
    {
        i += 1;
    }
    proof {
        lemma_place_of_is(all, key@, i as int);
    }
    i
}

fn take_row(keys: &Vec<String>, items: &Vec<String>, claimed: &mut Vec<bool>) -> (r: Vec<usize>)
    requires
        old(claimed)@.len() == keys@.len(),
    ensures
        (r@, final(claimed)@) == taken(text::texts(keys@), text::texts(items@), old(claimed)@),
{
    let ghost ks = text::texts(keys@);
    let ghost all = text::texts(items@);
    let ghost start = claimed@;
    let mut out: Vec<usize> = Vec::new();
    let mut i: usize = 0;
    assert((out@, claimed@) == taken(ks, all.take(0), start));
    while i < items.len()
        invariant
            i <= items@.len(),
            ks == text::texts(keys@),
            all == text::texts(items@),
            claimed@.len() == keys@.len(),
            (out@, claimed@) == taken(ks, all.take(i as int), start),
        decreases items@.len() - i,
    {
        proof {
            assert(all.take(i as int + 1).drop_last() =~= all.take(i as int));
            assert(all.take(i as int + 1).last() == items@[i as int]@);
        }
        let at: usize = find_key(keys, items[i].as_str());
        if at < keys.len() && !claimed[at] {
            claimed.set(at, true);
            out.push(at);
        }
        i += 1;
    }
    assert(all.take(i as int) =~= all);
    out
}

/// The sections of the drawer for these programs and rows.
pub fn sectionize(entry_keys: &Vec<String>, categories: &Categories) -> (r: Vec<Section>)
    ensures
        views(r@) == sections_of(text::texts(entry_keys@), categories@.categories),
{
    let ghost ks = text::texts(entry_keys@);
    let ghost cats = categories@.categories;
    let n: usize = entry_keys.len();
    let mut claimed: Vec<bool> = Vec::new();
    let mut k: usize = 0;
    while k < n
        invariant
            k <= n,
            claimed@ == Seq::new(k as nat, |i: int| false),
        decreases n - k,
    {
        claimed.push(false);
        k += 1;
        assert(claimed@ =~= Seq::new(k as nat, |i: int| false));
    }
    let mut out: Vec<Section> = Vec::new();
    let mut i: usize = 0;
    proof {
        assert(claimed@ =~= custom(ks, cats.take(0)).1);
        assert(views(out@) =~= custom(ks, cats.take(0)).0);
    }
    while i < categories.categories.len()
        invariant
            i <= categories.categories@.len(),
            ks == text::texts(entry_keys@),
            cats == categories@.categories,
            claimed@.len() == entry_keys@.len(),
            (views(out@), claimed@) == custom(ks, cats.take(i as int)),
        decreases categories.categories@.len() - i,
    {
        proof {
            assert(cats.take(i as int + 1).drop_last() =~= cats.take(i as int));
            assert(cats.take(i as int + 1).last() == categories.categories@[i as int]@);
            lemma_custom_len(ks, cats.take(i as int + 1));
        }
        let entries = take_row(entry_keys, &categories.categories[i].items, &mut claimed);
        let s = Section {
            name: text::copy_text(categories.categories[i].name.as_str()),
            kind: SectionKind::Custom(i),
            entries,
        };
        let ghost was = out@;
        out.push(s);
        assert(views(out@) =~= views(was).push(s@));
        i += 1;
    }
    assert(cats.take(i as int) =~= cats);
    let mut left: Vec<usize> = Vec::new();
    let mut j: usize = 0;
    assert(left@ =~= unmarked(claimed@.take(0)));
    while j < claimed.len()
        invariant
            j <= claimed@.len(),
            left@ == unmarked(claimed@.take(j as int)),
        decreases claimed@.len() - j,
    {
        proof {
            assert(claimed@.take(j as int + 1).drop_last() =~= claimed@.take(j as int));
            assert(claimed@.take(j as int + 1).last() == claimed@[j as int]);
        }
        if !claimed[j] {
            left.push(j);
        }
        j += 1;
    }
    assert(claimed@.take(j as int) =~= claimed@);
    if left.len() > 0 || categories.categories.len() > 0 {
        let s = Section {
            name: text::copy_text("未分类"),
            kind: SectionKind::Uncategorized,
            entries: left,
        };
        let ghost was = out@;
        out.push(s);
        assert(views(out@) =~= views(was).push(s@));
    }
    out
}

/// How many rows of the grid a section takes.
pub fn rows_for(count: usize, cols: usize) -> (r: usize)
    requires
        cols > 0,
    ensures
        r == row_count(count as nat, cols as nat),
{
    if count == 0 {
        return 1;
    }
    let whole: usize = count / cols;
    let rest: usize = count % cols;
    proof {
        let c = count as int;
        let k = cols as int;
        let q = whole as int;
        let m = rest as int;
        vstd::arithmetic::div_mod::lemma_fundamental_div_mod(c, k);
        assert(c == k * q + m && 0 <= m < k);
        if m == 0 {
            vstd::arithmetic::div_mod::lemma_fundamental_div_mod_converse(c + k - 1, k, q, k - 1);
        } else {
            assert(k * (q + 1) == k * q + k) by (nonlinear_arith);
            vstd::arithmetic::div_mod::lemma_fundamental_div_mod_converse(
                c + k - 1,
                k,
                q + 1,
                m - 1,
            );
            assert(q < c) by (nonlinear_arith)
                requires
                    c == k * q + m,
                    m > 0,
                    k >= 1,
                    q >= 0,
            ;
        }
    }
    if rest == 0 {
        whole
    } else {
        whole + 1
    }
}

proof fn lemma_rows(count: nat, cols: nat)
    requires
        cols > 0,
    ensures
        1 <= row_count(count, cols) <= count + 1,
        forall|i: int| 0 <= i < count ==> #[trigger] (i / cols as int) < row_count(count, cols),
{
    if count > 0 {
        let k = cols as int;
        let c = count as int;
        let q = (c + k - 1) / k;
        assert(1 <= q <= c) by (nonlinear_arith)
            requires
                q == (c + k - 1) / k,
                c >= 1,
                k >= 1,
        ;
        assert forall|i: int| 0 <= i < count implies #[trigger] (i / k) < row_count(
            count,
            cols,
        ) by {
            let p = i / k;
            assert(p < q) by (nonlinear_arith)
                requires
                    p == i / k,
                    q == (c + k - 1) / k,
                    0 <= i < c,
                    k >= 1,
            ;
        }
    }
}

proof fn lemma_product(a: int, b: int, limit: int)
    requires
        0 <= a <= limit,
        0 <= b <= 0x2_0000_0000,
    ensures
        0 <= a * b <= limit * 0x2_0000_0000,
{
    assert(0 <= a * b <= limit * 0x2_0000_0000) by (nonlinear_arith)
        requires
            0 <= a <= limit,
            0 <= b <= 0x2_0000_0000,
    ;
}

proof fn lemma_grid_height(m: Metrics, count: nat)
    requires
        m.cols > 0,
    ensures
        0 <= grid_height(m, count) <= (count + 1) * 0x4_0000_0000,
{
    lemma_rows(count, m.cols as nat);
    let rows = row_count(count, m.cols as nat) as int;
    lemma_product(rows, m.cell_h as int, count as int + 1);
    lemma_product(rows - 1, m.gap_y as int, count as int + 1);
}

proof fn lemma_top_bound(s: Seq<SectionView>, m: Metrics, n: int)
    requires
        0 <= n <= s.len(),
        m.cols > 0,
    ensures
        0 <= top_of(s, m, n) <= (held(s, n) + n) * 0x8_0000_0000,
    decreases n,
{
    if n > 0 {
        lemma_top_bound(s, m, n - 1);
        lemma_grid_height(m, s[n - 1].entries.len());
    }
}

proof fn lemma_held(s: Seq<SectionView>, i: int, n: int)
    requires
        0 <= i <= n <= s.len(),
    ensures
        held(s, i) <= held(s, n),
    decreases n - i,
{
    if i < n {
        lemma_held(s, i, n - 1);
    }
}

/// A number of equal lengths.
fn lengths(n: usize, length: u64) -> (r: i64)
    requires
        n <= MAX_CELLS + 1,
        length <= 0x2_0000_0000,
    ensures
        r == n * length,
        0 <= r <= 0x0400_0000_0000_0000,
{
    proof {
        lemma_product(n as int, length as int, MAX_CELLS + 1);
    }
    n as i64 * length as i64
}

/// Places the programs of a section.
fn place_section(
    section: &Section,
    m: &Metrics,
    top: i64,
    out: &mut Vec<Cell>,
    Ghost(s): Ghost<Seq<SectionView>>,
    Ghost(n): Ghost<int>,
)
    requires
        m.cols > 0,
        0 <= n < s.len(),
        s[n] == section@,
        section.entries@.len() <= MAX_CELLS,
        top == grid_top(s, *m, n),
        0 <= top <= 0x0900_0000_0000_0000,
    ensures
        final(out)@ == old(out)@ + placed(s, *m, n),
{
    let ghost base = out@;
    let mut j: usize = 0;
    assert(out@ =~= base + placed(s, *m, n).take(0));
    while j < section.entries.len()
        invariant
            m.cols > 0,
            0 <= n < s.len(),
            s[n] == section@,
            section.entries@.len() <= MAX_CELLS,
            top == grid_top(s, *m, n),
            0 <= top <= 0x0900_0000_0000_0000,
            j <= section.entries@.len(),
            out@ == base + placed(s, *m, n).take(j as int),
        decreases section.entries@.len() - j,
    {
        let col: usize = j % m.cols;
        let row: usize = j / m.cols;
        proof {
            let k = m.cols as int;
            assert(0 <= j as int / k <= j) by (nonlinear_arith)
                requires
                    k >= 1,
                    j >= 0,
            ;
            assert(0 <= j as int % k <= j) by (nonlinear_arith)
                requires
                    k >= 1,
                    j >= 0,
            ;
        }
        let left: i64 = m.lpad as i64 + lengths(col, m.cell_w as u64 + m.gap_x as u64);
        let cell_top: i64 = top + lengths(row, m.cell_h as u64 + m.gap_y as u64);
        let cell = Cell {
            entry: section.entries[j],
            rect: Rect {
                left,
                top: cell_top,
                right: left + m.cell_w as i64,
                bottom: cell_top + m.cell_h as i64,
            },
        };
        out.push(cell);
        proof {
            let p = placed(s, *m, n);
            assert(cell.rect == cell_rect(s, *m, n, j as int));
            assert(p[j as int] == cell);
            assert(p.take(j as int + 1) =~= p.take(j as int).push(p[j as int]));
            assert(out@ =~= base + p.take(j as int + 1));
        }
        j += 1;
    }
    assert(placed(s, *m, n).take(j as int) =~= placed(s, *m, n));
}

/// Lays the sections out from above to below.
pub fn compute(sections: &Vec<Section>, m: &Metrics) -> (r: Layout)
    requires
        can_lay_out(views(sections@), *m),
    ensures
        is_layout(r, views(sections@), *m),
{
    let ghost s = views(sections@);
    let mut cells: Vec<Cell> = Vec::new();
    let mut bands: Vec<Band> = Vec::new();
    let mut y: i64 = 0;
    let right: i64 = m.width as i64 - m.lpad as i64;
    let mut i: usize = 0;
    while i < sections.len()
        invariant
            s == views(sections@),
            can_lay_out(s, *m),
            i <= sections@.len(),
            right == m.width - m.lpad,
            y == top_of(s, *m, i as int),
            0 <= y <= 0x0800_0000_0000_0000,
            cells@ == grid(s, *m, i as int),
            bands@ == Seq::new(i as nat, |n: int| band(s, *m, n)),
        decreases sections@.len() - i,
    {
        let section = &sections[i];
        proof {
            assert(s[i as int] == section@);
            lemma_held(s, i as int, s.len() as int);
            lemma_held(s, i + 1, s.len() as int);
            assert(held(s, i + 1) == held(s, i as int) + section.entries@.len());
            lemma_top_bound(s, *m, i as int);
            lemma_top_bound(s, *m, i + 1);
            lemma_rows(section.entries@.len(), m.cols as nat);
        }
        let header = Rect {
            left: m.lpad as i64,
            top: y,
            right,
            bottom: y + m.header_h as i64,
        };
        let top: i64 = y + m.header_h as i64;
        place_section(section, m, top, &mut cells, Ghost(s), Ghost(i as int));
        let rows: usize = rows_for(section.entries.len(), m.cols);
        let bottom: i64 = top + lengths(rows, m.cell_h as u64) + lengths(
            rows - 1,
            m.gap_y as u64,
        );
        let b = Band { section: i, header, grid_top: top, grid_bottom: bottom };
        bands.push(b);
        assert(bottom == grid_bottom(s, *m, i as int));
        assert(b == band(s, *m, i as int));
        assert(bands@ =~= Seq::new((i + 1) as nat, |n: int| band(s, *m, n)));
        y = bottom + m.section_gap as i64;
        i += 1;
    }
    proof {
        lemma_top_bound(s, *m, s.len() as int);
    }
    Layout {
        cells,
        bands,
        add_button: Rect { left: m.lpad as i64, top: y, right, bottom: y + m.add_h as i64 },
        content_h: y + m.add_h as i64,
    }
}

fn inside(r: &Rect, x: i64, y: i64) -> (b: bool)
    ensures
        b == holds(*r, x as int, y as int),
{
    x >= r.left && x <= r.right && y >= r.top && y <= r.bottom
}

/// The first of the cells that a point is in.
pub fn hit_cell(layout: &Layout, x: i64, y: i64) -> (r: Option<usize>)
    ensures
        match r {
            Some(i) => i < layout.cells@.len() && holds(
                layout.cells@[i as int].rect,
                x as int,
                y as int,
            ) && forall|j: int|
                0 <= j < i ==> !holds((#[trigger] layout.cells@[j]).rect, x as int, y as int),
            None => forall|j: int|
                0 <= j < layout.cells@.len() ==> !holds(
                    (#[trigger] layout.cells@[j]).rect,
                    x as int,
                    y as int,
                ),
        },
{
    let mut i: usize = 0;
    while i < layout.cells.len()
        invariant
            i <= layout.cells@.len(),
            forall|j: int|
                0 <= j < i ==> !holds((#[trigger] layout.cells@[j]).rect, x as int, y as int),
        decreases layout.cells@.len() - i,
    {
        if inside(&layout.cells[i].rect, x, y) {
            return Some(i);
        }
        i += 1;
    }
    None
}

/// A point that is not absurdly far away.
pub open spec fn near(n: i64) -> bool {
    -0x2000_0000_0000_0000 <= n <= 0x2000_0000_0000_0000
}

fn column(m: &Metrics, x: i64) -> (r: usize)
    requires
        m.cell_w + m.gap_x > 0,
        near(x),
    ensures
        r == column_at(*m, x as int),
        r <= m.cols,
{
    let den: i64 = 2 * (m.cell_w as i64 + m.gap_x as i64);
    let num: i64 = 2 * (x - m.lpad as i64) + m.cell_w as i64;
    if num < 0 {
        proof {
            let q = num as int / den as int;
            assert(q < 0) by (nonlinear_arith)
                requires
                    q == num as int / den as int,
                    num < 0,
                    den > 0,
            ;
        }
        return 0;
    }
    let col: i64 = num / den;
    assert(col >= 0) by (nonlinear_arith)
        requires
            col == num as int / den as int,
            num >= 0,
            den > 0,
    ;
    if col as u64 > m.cols as u64 {
        m.cols
    } else {
        col as usize
    }
}

/// The section and the index there that a drop goes to: the section that the point is
/// nearest to, and there the slot that the point is over, or the end.
pub fn drop_target(
    sections: &Vec<Section>,
    layout: &Layout,
    m: &Metrics,
    x: i64,
    y: i64,
) -> (r: Option<(usize, usize)>)
    requires
        can_lay_out(views(sections@), *m),
        is_layout(*layout, views(sections@), *m),
        m.cell_w + m.gap_x > 0,
        m.cell_h + m.gap_y > 0,
        near(x),
        near(y),
    ensures
        sections@.len() == 0 <==> r is None,
        r matches Some((section, index)) ==> (section as int, index as int) == drop_of(
            views(sections@),
            *m,
            x as int,
            y as int,
        ),
{
    let ghost s = views(sections@);
    let n: usize = layout.bands.len();
    if n == 0 {
        return None;
    }
    let mut at: usize = 0;
    assert forall|k: int| 0 <= k < n implies 0 <= (#[trigger] layout.bands@[k]).grid_bottom
        <= 0x0800_0000_0000_0000 && layout.bands@[k].grid_bottom == grid_bottom(s, *m, k) by {
        lemma_bottom(s, *m, k);
    }
    while at + 1 < n && !(2 * y < 2 * layout.bands[at].grid_bottom + m.section_gap as i64)
        invariant
            s == views(sections@),
            can_lay_out(s, *m),
            is_layout(*layout, s, *m),
            n == s.len() == layout.bands@.len(),
            at < n,
            near(y),
            section_at(s, *m, y as int, 0) == section_at(s, *m, y as int, at as int),
            forall|k: int|
                0 <= k < n ==> 0 <= (#[trigger] layout.bands@[k]).grid_bottom
                    <= 0x0800_0000_0000_0000 && layout.bands@[k].grid_bottom == grid_bottom(
                    s,
                    *m,
                    k,
                ),
        decreases n - at,
    {
        at += 1;
    }
    proof {
        lemma_bottom(s, *m, at as int);
        lemma_held(s, at + 1, s.len() as int);
        assert(s[at as int] == sections@[at as int]@);
    }
    let top: i64 = layout.bands[at].grid_top;
    let below: i64 = if y < top {
        0
    } else {
        y - top
    };
    let stride: i64 = m.cell_h as i64 + m.gap_y as i64;
    let row: i64 = below / stride;
    let col: usize = column(m, x);
    let count: usize = sections[at].entries.len();
    proof {
        let q = row as int;
        assert(0 <= q <= below) by (nonlinear_arith)
            requires
                q == below as int / stride as int,
                below >= 0,
                stride >= 1,
        ;
        assert(0 <= row * m.cols <= 0x7fff_ffff_ffff_ffff * 0xffff_ffff_ffff_ffff)
            by (nonlinear_arith)
            requires
                0 <= row <= 0x7fff_ffff_ffff_ffff,
                0 <= m.cols <= 0xffff_ffff_ffff_ffff,
        ;
    }
    let slot: u128 = row as u128 * m.cols as u128 + col as u128;
    let index: usize = if slot < count as u128 {
        slot as usize
    } else {
        count
    };
    Some((at, index))
}

pub proof fn lemma_bottom(s: Seq<SectionView>, m: Metrics, n: int)
    requires
        can_lay_out(s, m),
        0 <= n < s.len(),
    ensures
        0 <= top_of(s, m, n) <= grid_top(s, m, n) <= grid_bottom(s, m, n) <= 0x0800_0000_0000_0000,
        grid_bottom(s, m, n) + m.section_gap == top_of(s, m, n + 1),
{
    lemma_held(s, n + 1, s.len() as int);
    lemma_top_bound(s, m, n);
    lemma_top_bound(s, m, n + 1);
    lemma_grid_height(m, s[n].entries.len());
}

/// Every program lies inside the grid of its section, and inside the width that the columns
/// take.
pub proof fn law_cells_inside(s: Seq<SectionView>, m: Metrics, n: int, i: int)
    requires
        can_lay_out(s, m),
        0 <= n < s.len(),
        0 <= i < s[n].entries.len(),
    ensures
        grid_top(s, m, n) <= cell_top(s, m, n, i),
        cell_top(s, m, n, i) + m.cell_h <= grid_bottom(s, m, n),
        m.lpad <= cell_left(m, i),
        cell_left(m, i) + m.cell_w <= m.lpad + m.cols * (m.cell_w + m.gap_x),
{
    let cols = m.cols as int;
    let rows = row_count(s[n].entries.len(), m.cols as nat) as int;
    let row = i / cols;
    let col = i % cols;
    lemma_rows(s[n].entries.len(), m.cols as nat);
    assert(0 <= row <= rows - 1) by {
        assert(i / cols < rows);
        assert(row >= 0) by (nonlinear_arith)
            requires
                row == i / cols,
                i >= 0,
                cols >= 1,
        ;
    }
    let h = m.cell_h as int;
    let g = m.gap_y as int;
    assert(0 <= row * (h + g) && row * (h + g) + h <= rows * h + (rows - 1) * g)
        by (nonlinear_arith)
        requires
            0 <= row <= rows - 1,
            h >= 0,
            g >= 0,
    ;
    let w = m.cell_w as int;
    let x = m.gap_x as int;
    assert(0 <= col < cols) by (nonlinear_arith)
        requires
            col == i % cols,
            cols >= 1,
    ;
    assert(0 <= col * (w + x) && col * (w + x) + w <= cols * (w + x)) by (nonlinear_arith)
        requires
            0 <= col < cols,
            w >= 0,
            x >= 0,
    ;
}

/// A section ends before the next begins.
pub proof fn law_sections_apart(s: Seq<SectionView>, m: Metrics, n: int)
    requires
        can_lay_out(s, m),
        0 <= n,
        n + 1 < s.len(),
    ensures
        grid_bottom(s, m, n) + m.section_gap == top_of(s, m, n + 1),
        grid_bottom(s, m, n) <= grid_top(s, m, n + 1),
{
    lemma_bottom(s, m, n);
}

proof fn lemma_section_at(s: Seq<SectionView>, m: Metrics, y: int, n: int, from: int)
    requires
        can_lay_out(s, m),
        0 <= from <= n < s.len(),
        top_of(s, m, n) <= y < grid_bottom(s, m, n),
    ensures
        section_at(s, m, y, from) == n,
    decreases n - from,
{
    if from < n {
        lemma_bottom(s, m, from);
        lemma_tops(s, m, from + 1, n);
        lemma_section_at(s, m, y, n, from + 1);
    } else {
        lemma_bottom(s, m, n);
    }
}

proof fn lemma_tops(s: Seq<SectionView>, m: Metrics, i: int, n: int)
    requires
        can_lay_out(s, m),
        0 <= i <= n < s.len(),
    ensures
        top_of(s, m, i) <= top_of(s, m, n),
    decreases n - i,
{
    if i < n {
        lemma_bottom(s, m, n - 1);
        lemma_tops(s, m, i, n - 1);
    }
}

/// A program that is dropped on the left half of another goes before it, and one that is
/// dropped on the right half goes behind it; the gap between two columns counts with the
/// left half.
pub proof fn law_drop_by_halves(s: Seq<SectionView>, m: Metrics, n: int, i: int, x: int, y: int)
    requires
        can_lay_out(s, m),
        m.cell_w > 0,
        m.cell_h > 0,
        0 <= n < s.len(),
        0 <= i < s[n].entries.len(),
        cell_left(m, i) <= x < cell_left(m, i) + m.cell_w,
        cell_top(s, m, n, i) <= y < cell_top(s, m, n, i) + m.cell_h,
    ensures
        2 * (x - cell_left(m, i)) < m.cell_w + 2 * m.gap_x ==> drop_of(s, m, x, y) == (n, i),
        2 * (x - cell_left(m, i)) >= m.cell_w + 2 * m.gap_x ==> drop_of(s, m, x, y) == (n, i + 1),
{
    law_cells_inside(s, m, n, i);
    lemma_bottom(s, m, n);
    lemma_section_at(s, m, y, n, 0);
    let cols = m.cols as int;
    let row = i / cols;
    let col = i % cols;
    assert(i == cols * row + col && 0 <= col < cols && row >= 0) by (nonlinear_arith)
        requires
            row == i / cols,
            col == i % cols,
            i >= 0,
            cols >= 1,
    ;
    let stride = m.cell_h + m.gap_y;
    let into = y - grid_top(s, m, n);
    let below = into - row * stride;
    assert(into == stride * row + below) by (nonlinear_arith)
        requires
            below == into - row * stride,
    ;
    vstd::arithmetic::div_mod::lemma_fundamental_div_mod_converse(into, stride, row, below);
    assert(row_at(m, grid_top(s, m, n), y) == row);
    let pitch = m.cell_w + m.gap_x;
    let along = x - cell_left(m, i);
    let num = 2 * (x - m.lpad) + m.cell_w;
    assert(num == (2 * pitch) * col + (2 * along + m.cell_w)) by (nonlinear_arith)
        requires
            num == 2 * (x - m.lpad) + m.cell_w,
            along == x - (m.lpad + col * pitch),
    ;
    if 2 * along < m.cell_w + 2 * m.gap_x {
        vstd::arithmetic::div_mod::lemma_fundamental_div_mod_converse(
            num,
            2 * pitch,
            col,
            2 * along + m.cell_w,
        );
        assert(column_at(m, x) == col);
        assert(row * cols + col == i) by (nonlinear_arith)
            requires
                i == cols * row + col,
        ;
    } else {
        let rest = 2 * along + m.cell_w - 2 * pitch;
        assert(num == (2 * pitch) * (col + 1) + rest) by (nonlinear_arith)
            requires
                num == (2 * pitch) * col + (2 * along + m.cell_w),
                rest == 2 * along + m.cell_w - 2 * pitch,
        ;
        vstd::arithmetic::div_mod::lemma_fundamental_div_mod_converse(
            num,
            2 * pitch,
            col + 1,
            rest,
        );
        assert(column_at(m, x) == col + 1);
        assert(row * cols + (col + 1) == i + 1) by (nonlinear_arith)
            requires
                i == cols * row + col,
        ;
    }
}

/// Indices that are taken are those that are marked, each once.
pub open spec fn agrees(entries: Seq<usize>, marks: Seq<bool>) -> bool {
    &&& entries.no_duplicates()
    &&& forall|i: usize| #[trigger] entries.contains(i) <==> i < marks.len() && marks[i as int]
}

proof fn lemma_agrees_push(entries: Seq<usize>, marks: Seq<bool>, at: int)
    requires
        agrees(entries, marks),
        0 <= at < marks.len(),
        at <= usize::MAX,
        !marks[at],
    ensures
        agrees(entries.push(at as usize), marks.update(at, true)),
{
    let e = entries.push(at as usize);
    assert forall|i: usize| #[trigger] e.contains(i) <==> i < marks.len() && marks.update(
        at,
        true,
    )[i as int] by {
        if i == at {
            assert(e[entries.len() as int] == i);
        } else {
            if e.contains(i) {
                let k = choose|k: int| 0 <= k < e.len() && e[k] == i;
                assert(entries[k] == i);
                assert(entries.contains(i));
            }
            if i < marks.len() && marks[i as int] {
                assert(entries.contains(i));
                let k = choose|k: int| 0 <= k < entries.len() && entries[k] == i;
                assert(e[k] == i);
            }
        }
    }
    assert forall|a: int, b: int| 0 <= a < e.len() && 0 <= b < e.len() && a != b implies e[a]
        != e[b] by {
        if a == entries.len() {
            assert(entries.contains(entries[b]));
        } else if b == entries.len() {
            assert(entries.contains(entries[a]));
        }
    }
}

proof fn lemma_taken_agrees(
    base: Seq<usize>,
    keys: Seq<Seq<char>>,
    items: Seq<Seq<char>>,
    claimed: Seq<bool>,
)
    requires
        agrees(base, claimed),
        claimed.len() == keys.len(),
        keys.len() <= usize::MAX,
    ensures
        agrees(base + taken(keys, items, claimed).0, taken(keys, items, claimed).1),
    decreases items.len(),
{
    if items.len() == 0 {
        assert(base + taken(keys, items, claimed).0 =~= base);
    } else {
        lemma_taken_agrees(base, keys, items.drop_last(), claimed);
        lemma_taken_len(keys, items.drop_last(), claimed);
        lemma_place_of(keys, items.last());
        let (entries, marks) = taken(keys, items.drop_last(), claimed);
        let at = place_of(keys, items.last());
        if at < keys.len() && !marks[at] {
            lemma_agrees_push(base + entries, marks, at);
            assert((base + entries).push(at as usize) =~= base + entries.push(at as usize));
        }
    }
}

proof fn lemma_custom_agrees(keys: Seq<Seq<char>>, cats: Seq<CategoryView>)
    requires
        keys.len() <= usize::MAX,
    ensures
        agrees(flat(custom(keys, cats).0), custom(keys, cats).1),
    decreases cats.len(),
{
    if cats.len() > 0 {
        let (front, marks) = custom(keys, cats.drop_last());
        lemma_custom_agrees(keys, cats.drop_last());
        lemma_custom_len(keys, cats.drop_last());
        lemma_taken_agrees(flat(front), keys, cats.last().items, marks);
        assert(custom(keys, cats).0.drop_last() =~= front);
    }
}

pub proof fn lemma_unmarked(marks: Seq<bool>)
    requires
        marks.len() <= usize::MAX,
    ensures
        unmarked(marks).no_duplicates(),
        forall|i: usize| #[trigger]
            unmarked(marks).contains(i) <==> i < marks.len() && !marks[i as int],
        forall|a: int, b: int|
            0 <= a < b < unmarked(marks).len() ==> unmarked(marks)[a] < unmarked(marks)[b],
    decreases marks.len(),
{
    if marks.len() > 0 {
        let front = marks.drop_last();
        let f = unmarked(front);
        let r = unmarked(marks);
        lemma_unmarked(front);
        let last = (marks.len() - 1) as usize;
        assert forall|i: usize| #[trigger] r.contains(i) <==> i < marks.len() && !marks[i as int] by {
            if r.contains(i) {
                let k = choose|k: int| 0 <= k < r.len() && r[k] == i;
                if k < f.len() {
                    assert(f[k] == i);
                    assert(f.contains(i));
                }
            }
            if i < marks.len() && !marks[i as int] {
                if i == last {
                    assert(r[r.len() - 1] == i);
                } else {
                    assert(front[i as int] == marks[i as int]);
                    assert(f.contains(i));
                    let k = choose|k: int| 0 <= k < f.len() && f[k] == i;
                    assert(r[k] == i);
                }
            }
        }
        assert forall|a: int, b: int| 0 <= a < b < r.len() implies r[a] < r[b] by {
            if b == f.len() {
                assert(f.contains(f[a]));
            }
        }
    }
}

/// Every program is in one section, once, and nothing else is in any.
pub proof fn law_sections_partition(keys: Seq<Seq<char>>, cats: Seq<CategoryView>)
    requires
        keys.len() <= usize::MAX,
    ensures
        flat(sections_of(keys, cats)).no_duplicates(),
        forall|i: usize| #[trigger]
            flat(sections_of(keys, cats)).contains(i) <==> i < keys.len(),
{
    let (rows, marks) = custom(keys, cats);
    lemma_custom_agrees(keys, cats);
    lemma_custom_len(keys, cats);
    lemma_unmarked(marks);
    let base = flat(rows);
    let left = unmarked(marks);
    let s = sections_of(keys, cats);
    if left.len() > 0 || cats.len() > 0 {
        assert(s.drop_last() =~= rows);
    } else {
        assert(base + left =~= base);
    }
    let all = base + left;
    assert(flat(s) == all);
    assert forall|i: usize| #[trigger] all.contains(i) <==> i < keys.len() by {
        if all.contains(i) {
            let k = choose|k: int| 0 <= k < all.len() && all[k] == i;
            if k < base.len() {
                assert(base.contains(base[k]));
            } else {
                assert(left.contains(left[k - base.len()]));
            }
        }
        if i < keys.len() {
            if marks[i as int] {
                assert(base.contains(i));
                let k = choose|k: int| 0 <= k < base.len() && base[k] == i;
                assert(all[k] == i);
            } else {
                assert(left.contains(i));
                let k = choose|k: int| 0 <= k < left.len() && left[k] == i;
                assert(all[base.len() + k] == i);
            }
        }
    }
    assert forall|a: int, b: int| 0 <= a < all.len() && 0 <= b < all.len() && a != b implies all[a]
        != all[b] by {
        if a < base.len() {
            assert(base.contains(all[a]));
        } else {
            assert(left.contains(all[a]));
        }
        if b < base.len() {
            assert(base.contains(all[b]));
        } else {
            assert(left.contains(all[b]));
        }
        if a >= base.len() && b >= base.len() {
            assert(left[a - base.len()] != left[b - base.len()]);
        }
    }
}

/// The user's rows come first, in their order and under their names; the section of the
/// programs in no row is last, in the order of the programs, and is there whenever there
/// are rows.
pub proof fn law_sections_order(keys: Seq<Seq<char>>, cats: Seq<CategoryView>)
    requires
        keys.len() <= usize::MAX,
        cats.len() <= usize::MAX,
    ensures
        sections_of(keys, cats).len() == cats.len() || sections_of(keys, cats).len() == cats.len()
            + 1,
        cats.len() > 0 ==> sections_of(keys, cats).len() == cats.len() + 1,
        forall|i: int|
            0 <= i < cats.len() ==> (#[trigger] sections_of(keys, cats)[i]).kind
                == SectionKind::Custom(i as usize) && sections_of(keys, cats)[i].name
                == cats[i].name,
        sections_of(keys, cats).len() == cats.len() + 1 ==> ({
            let last = sections_of(keys, cats).last();
            last.kind == SectionKind::Uncategorized && forall|a: int, b: int|
                0 <= a < b < last.entries.len() ==> last.entries[a] < last.entries[b]
        }),
{
    lemma_custom_len(keys, cats);
    lemma_custom_kinds(keys, cats);
    lemma_unmarked(custom(keys, cats).1);
}

proof fn lemma_custom_kinds(keys: Seq<Seq<char>>, cats: Seq<CategoryView>)
    requires
        cats.len() <= usize::MAX,
    ensures
        custom(keys, cats).0.len() == cats.len(),
        forall|i: int|
            0 <= i < cats.len() ==> (#[trigger] custom(keys, cats).0[i]).kind
                == SectionKind::Custom(i as usize) && custom(keys, cats).0[i].name == cats[i].name,
    decreases cats.len(),
{
    if cats.len() > 0 {
        lemma_custom_kinds(keys, cats.drop_last());
    }
}

} // verus!
