//! The rows of the app drawer: the user's own categories of programs, and the programs
//! that are hidden from it. Programs are named by stable keys.

use vstd::prelude::*;
use crate::categories_laws;
use crate::facts;
use crate::quoting;
use crate::text;

verus! {

/// A row of the drawer.
pub struct Category {
    pub name: String,
    /// The keys of its programs, in the order the user gave them.
    pub items: Vec<String>,
}

/// All rows, and the keys of the programs that the drawer leaves out.
pub struct Categories {
    pub categories: Vec<Category>,
    pub hidden: Vec<String>,
}

#[verifier::ext_equal]
pub struct CategoryView {
    pub name: Seq<char>,
    pub items: Seq<Seq<char>>,
}

#[verifier::ext_equal]
pub struct CategoriesView {
    pub categories: Seq<CategoryView>,
    pub hidden: Seq<Seq<char>>,
}

impl View for Category {
    type V = CategoryView;

    open spec fn view(&self) -> CategoryView {
        CategoryView { name: self.name@, items: text::texts(self.items@) }
    }
}

pub open spec fn views(v: Seq<Category>) -> Seq<CategoryView> {
    Seq::new(v.len(), |i: int| v[i]@)
}

impl View for Categories {
    type V = CategoriesView;

    open spec fn view(&self) -> CategoriesView {
        CategoriesView {
            categories: views(self.categories@),
            hidden: text::texts(self.hidden@),
        }
    }
}

/// No rows and nothing hidden.
pub open spec fn none() -> CategoriesView {
    CategoriesView { categories: seq![], hidden: seq![] }
}

impl Default for Categories {
    fn default() -> (r: Categories)
        ensures
            r@ == none(),
    {
        let r = Categories { categories: Vec::new(), hidden: Vec::new() };
        assert(r@ =~= none());
        r
    }
}

/// These keys without `key`, in order.
pub open spec fn without(s: Seq<Seq<char>>, key: Seq<char>) -> Seq<Seq<char>>
    decreases s.len(),
{
    if s.len() == 0 {
        seq![]
    } else {
        let front = without(s.drop_last(), key);
        if s.last() == key {
            front
        } else {
            front.push(s.last())
        }
    }
}

/// The rows without `key`.
pub open spec fn detached(v: Seq<CategoryView>, key: Seq<char>) -> Seq<CategoryView> {
    Seq::new(
        v.len(),
        |i: int| CategoryView { name: v[i].name, items: without(v[i].items, key) },
    )
}

/// `key` put at `index` of these keys, or at their end.
pub open spec fn put(s: Seq<Seq<char>>, key: Seq<char>, index: int) -> Seq<Seq<char>> {
    s.insert(
        if index <= s.len() {
            index
        } else {
            s.len() as int
        },
        key,
    )
}

/// The rows after `key` is moved: it leaves every row and the hidden programs, and goes
/// to the target row where there is one.
pub open spec fn moved(
    v: CategoriesView,
    key: Seq<char>,
    target: Option<usize>,
    index: usize,
) -> CategoriesView {
    let rows = detached(v.categories, key);
    CategoriesView {
        categories: if target is Some && target->0 < rows.len() {
            let t = target->0 as int;
            rows.update(
                t,
                CategoryView {
                    name: rows[t].name,
                    items: put(rows[t].items, key, index as int),
                },
            )
        } else {
            rows
        },
        hidden: without(v.hidden, key),
    }
}

/// The rows after one is appended.
pub open spec fn added(v: CategoriesView, name: Seq<char>) -> CategoriesView {
    CategoriesView {
        categories: v.categories.push(CategoryView { name, items: seq![] }),
        hidden: v.hidden,
    }
}

/// The rows after one is deleted.
pub open spec fn removed(v: CategoriesView, index: usize) -> CategoriesView {
    if index < v.categories.len() {
        CategoriesView { categories: v.categories.remove(index as int), hidden: v.hidden }
    } else {
        v
    }
}

/// The rows after nothing is hidden any more.
pub open spec fn restored(v: CategoriesView) -> CategoriesView {
    CategoriesView { categories: v.categories, hidden: seq![] }
}

/// The rows after one is renamed.
pub open spec fn renamed(v: CategoriesView, index: usize, name: Seq<char>) -> CategoriesView {
    if index < v.categories.len() {
        CategoriesView {
            categories: v.categories.update(
                index as int,
                CategoryView { name, items: v.categories[index as int].items },
            ),
            hidden: v.hidden,
        }
    } else {
        v
    }
}

/// The rows after `key` is hidden.
pub open spec fn concealed(v: CategoriesView, key: Seq<char>) -> CategoriesView {
    CategoriesView {
        categories: detached(v.categories, key),
        hidden: if v.hidden.contains(key) {
            v.hidden
        } else {
            v.hidden.push(key)
        },
    }
}

/// The first row that holds `key`.
pub open spec fn owner(v: Seq<CategoryView>, key: Seq<char>) -> Option<int>
    decreases v.len(),
{
    if v.len() == 0 {
        None
    } else {
        match owner(v.drop_last(), key) {
            Some(i) => Some(i),
            None => if v.last().items.contains(key) {
                Some(v.len() - 1)
            } else {
                None
            },
        }
    }
}

/// Keeps all but `key`.
fn drop_key(v: &mut Vec<String>, key: &str)
    ensures
        text::texts(final(v)@) == without(text::texts(old(v)@), key@),
{
    let ghost all = text::texts(v@);
    let mut out: Vec<String> = Vec::new();
    let mut i: usize = 0;
    assert(text::texts(out@) =~= without(all.take(0), key@));
    while i < v.len()
        invariant
            i <= v@.len(),
            all == text::texts(v@),
            text::texts(out@) == without(all.take(i as int), key@),
        decreases v@.len() - i,
    {
        proof {
            assert(all.take(i as int + 1).drop_last() =~= all.take(i as int));
            assert(all.take(i as int + 1).last() == v@[i as int]@);
        }
        if !text::same(v[i].as_str(), key) {
            let ghost was = out@;
            let t = text::copy_text(v[i].as_str());
            out.push(t);
            proof {
                text::lemma_texts_push(was, t);
            }
        }
        i += 1;
    }
    assert(all.take(i as int) =~= all);
    *v = out;
}

impl Categories {
    /// The first row that holds `key`.
    pub fn category_of(&self, key: &str) -> (r: Option<usize>)
        ensures
            match r {
                Some(i) => owner(self@.categories, key@) == Some(i as int),
                None => owner(self@.categories, key@) is None,
            },
            match r {
                Some(i) => i < self@.categories.len() && self@.categories[i as int].items.contains(
                    key@,
                ) && forall|j: int|
                    0 <= j < i ==> !(#[trigger] self@.categories[j]).items.contains(key@),
                None => forall|j: int|
                    0 <= j < self@.categories.len() ==> !(
                    #[trigger] self@.categories[j]).items.contains(key@),
            },
    {
        let ghost all = self@.categories;
        let mut i: usize = 0;
        while i < self.categories.len()
            invariant
                i <= self.categories@.len(),
                all == self@.categories,
                owner(all.take(i as int), key@) is None,
            decreases self.categories@.len() - i,
        {
            proof {
                assert(all.take(i as int + 1).drop_last() =~= all.take(i as int));
                assert(all.take(i as int + 1).last() == self.categories@[i as int]@);
            }
            if text::listed(&self.categories[i].items, key) {
                proof {
                    categories_laws::law_owner(all, key@);
                    lemma_owner_take(all, key@, i as int + 1);
                }
                return Some(i);
            }
            i += 1;
        }
        proof {
            assert(all.take(i as int) =~= all);
            categories_laws::law_owner(all, key@);
        }
        None
    }

    /// Appends a row and returns its index.
    pub fn add(&mut self, name: &str) -> (r: usize)
        ensures
            r == old(self)@.categories.len(),
            final(self)@ == added(old(self)@, name@),
    {
        let ghost was = self.categories@;
        let c = Category { name: text::copy_text(name), items: Vec::new() };
        assert(text::texts(c.items@) =~= seq![]);
        self.categories.push(c);
        proof {
            assert(views(self.categories@) =~= views(was).push(c@));
        }
        self.categories.len() - 1
    }

    /// Renames a row; an index that names none does nothing.
    pub fn rename(&mut self, index: usize, name: &str)
        ensures
            final(self)@ == renamed(old(self)@, index, name@),
    {
        if index < self.categories.len() {
            let ghost was = self@.categories;
            self.categories[index].name = text::copy_text(name);
            assert(self@.categories =~= was.update(
                index as int,
                CategoryView { name: name@, items: was[index as int].items },
            ));
        }
    }

    /// Deletes a row; its programs are in no row then.
    pub fn remove(&mut self, index: usize)
        ensures
            final(self)@ == removed(old(self)@, index),
    {
        if index < self.categories.len() {
            let ghost was = self@.categories;
            self.categories.remove(index);
            assert(self@.categories =~= was.remove(index as int));
        }
    }

    /// Takes `key` out of every row.
    fn detach(&mut self, key: &str)
        ensures
            final(self)@ == (CategoriesView {
                categories: detached(old(self)@.categories, key@),
                hidden: old(self)@.hidden,
            }),
    {
        let ghost all = self@.categories;
        let ghost hidden = self.hidden@;
        let mut i: usize = 0;
        while i < self.categories.len()
            invariant
                i <= self.categories@.len(),
                self.categories@.len() == all.len(),
                self.hidden@ == hidden,
                forall|j: int|
                    0 <= j < i ==> #[trigger] self.categories@[j]@ == detached(all, key@)[j],
                forall|j: int| i <= j < all.len() ==> #[trigger] self.categories@[j]@ == all[j],
            decreases all.len() - i,
        {
            let ghost was = self.categories@;
            assert(was[i as int]@ == all[i as int]);
            drop_key(&mut self.categories[i].items, key);
            proof {
                assert(self.categories@[i as int]@ =~= detached(all, key@)[i as int]);
                assert forall|j: int| 0 <= j < all.len() && j != i implies self.categories@[j]@
                    == was[j]@ by {
                    assert(self.categories@[j] == was[j]);
                }
            }
            i += 1;
        }
        assert(self@.categories =~= detached(all, key@));
    }

    /// Moves `key` to a row, at `index` or at its end; to no row where `target` names
    /// none. It leaves the row it was in, and is not hidden any more.
    pub fn move_item(&mut self, key: &str, target: Option<usize>, index: usize)
        ensures
            final(self)@ == moved(old(self)@, key@, target, index),
            target matches Some(t) ==> t < old(self)@.categories.len() ==> ({
                let rest = old(self)@.categories[t as int].items.filter(categories_laws::all_but(key@));
                let items = final(self)@.categories[t as int].items;
                let at = if index <= rest.len() {
                    index as int
                } else {
                    rest.len() as int
                };
                &&& items.len() == rest.len() + 1
                &&& items[at] == key@
                &&& items.take(at) == rest.take(at)
                &&& items.skip(at + 1) == rest.skip(at)
            }),
            final(self)@.categories.len() == old(self)@.categories.len(),
            final(self)@.hidden == old(self)@.hidden.filter(categories_laws::all_but(key@)),
            forall|i: int|
                0 <= i < old(self)@.categories.len() ==> (
                #[trigger] final(self)@.categories[i]).name == old(self)@.categories[i].name,
            forall|i: int|
                0 <= i < old(self)@.categories.len() && !(target is Some && target->0 == i) ==> (
                #[trigger] final(self)@.categories[i]).items == old(
                    self,
                )@.categories[i].items.filter(categories_laws::all_but(key@)),
    {
        proof {
            categories_laws::law_moved_leaves_other_rows(self@, key@, target, index);
            if target is Some && target->0 < self@.categories.len() {
                categories_laws::law_moved_lands_at_index(self@, key@, target->0, index);
            }
        }
        self.detach(key);
        drop_key(&mut self.hidden, key);
        if let Some(t) = target {
            if t < self.categories.len() {
                let ghost rows = self@.categories;
                let ghost before = text::texts(self.categories@[t as int].items@);
                let n: usize = self.categories[t].items.len();
                let at: usize = if index <= n {
                    index
                } else {
                    n
                };
                let copy = text::copy_text(key);
                self.categories[t].items.insert(at, copy);
                proof {
                    assert(text::texts(self.categories@[t as int].items@) =~= before.insert(
                        at as int,
                        key@,
                    ));
                    assert(self@.categories =~= rows.update(
                        t as int,
                        CategoryView {
                            name: rows[t as int].name,
                            items: put(rows[t as int].items, key@, index as int),
                        },
                    ));
                }
            }
        }
    }

    /// Hides a program from the drawer; it leaves the row it was in.
    pub fn hide_item(&mut self, key: &str)
        ensures
            final(self)@ == concealed(old(self)@, key@),
    {
        self.detach(key);
        if !text::listed(&self.hidden, key) {
            let ghost was = self.hidden@;
            let copy = text::copy_text(key);
            self.hidden.push(copy);
            proof {
                text::lemma_texts_push(was, copy);
            }
        }
    }

    /// Whether a program is hidden.
    pub fn is_hidden(&self, key: &str) -> (r: bool)
        ensures
            r == self@.hidden.contains(key@),
    {
        text::listed(&self.hidden, key)
    }

    /// Hides no program any more.
    pub fn restore_hidden(&mut self)
        ensures
            final(self)@ == restored(old(self)@),
    {
        self.hidden.clear();
        assert(text::texts(self.hidden@) =~= seq![]);
    }
}

proof fn lemma_owner_take(v: Seq<CategoryView>, key: Seq<char>, n: int)
    requires
        0 <= n <= v.len(),
        owner(v.take(n), key) is Some,
    ensures
        owner(v, key) == owner(v.take(n), key),
    decreases v.len() - n,
{
    if n == v.len() {
        assert(v.take(n) =~= v);
    } else {
        assert(v.take(n + 1).drop_last() =~= v.take(n));
        lemma_owner_take(v, key, n + 1);
    }
}

/// The comment that a written file starts with.
pub open spec fn header_lines() -> Seq<Seq<char>> {
    seq![
        "# FeatherDock app-drawer customisation."@,
        "# `hidden` lines hide programs from the drawer without deleting the shortcut/app."@,
        "# One [[category]] per row; `item` lines list member programs by stable key."@,
    ]
}

/// A line for each key.
pub open spec fn key_lines(name: Seq<char>, keys: Seq<Seq<char>>) -> Seq<Seq<char>> {
    Seq::new(keys.len(), |i: int| quoting::pair_line(name, keys[i], false))
}

/// The lines for one row.
pub open spec fn row_lines(c: CategoryView) -> Seq<Seq<char>> {
    seq![Seq::empty(), "[[category]]"@, quoting::pair_line("name"@, c.name, false)] + key_lines(
        "item"@,
        c.items,
    )
}

pub open spec fn rows_lines(v: Seq<CategoryView>) -> Seq<Seq<char>>
    decreases v.len(),
{
    if v.len() == 0 {
        seq![]
    } else {
        rows_lines(v.drop_last()) + row_lines(v.last())
    }
}

/// The text of a file with these rows and hidden programs.
pub open spec fn rendered(v: CategoriesView) -> Seq<char> {
    text::unlines(header_lines() + key_lines("hidden"@, v.hidden) + rows_lines(v.categories))
}

/// The rows after the last one gets a name.
pub open spec fn with_name(v: Seq<CategoryView>, name: Seq<char>) -> Seq<CategoryView> {
    if v.len() == 0 {
        v
    } else {
        v.drop_last().push(CategoryView { name, items: v.last().items })
    }
}

/// The rows after the last one gets a program.
pub open spec fn with_item(v: Seq<CategoryView>, key: Seq<char>) -> Seq<CategoryView> {
    if v.len() == 0 || key.len() == 0 {
        v
    } else {
        v.drop_last().push(CategoryView { name: v.last().name, items: v.last().items.push(key) })
    }
}

/// The hidden programs after one more, unless it is nothing or hidden already.
pub open spec fn with_hidden(v: Seq<Seq<char>>, key: Seq<char>) -> Seq<Seq<char>> {
    if key.len() == 0 || v.contains(key) {
        v
    } else {
        v.push(key)
    }
}

/// What is read after one more line.
pub open spec fn after_line(v: CategoriesView, raw: Seq<char>) -> CategoriesView {
    let line = text::trimmed(raw);
    if line.len() == 0 || line[0] == '#' {
        v
    } else if line == "[[category]]"@ {
        CategoriesView {
            categories: v.categories.push(CategoryView { name: seq![], items: seq![] }),
            hidden: v.hidden,
        }
    } else {
        match text::cut(line, '=') {
            Some((k, value)) => {
                let key = text::trimmed(k);
                let x = quoting::simple_value(value);
                if key == "hidden"@ {
                    CategoriesView { hidden: with_hidden(v.hidden, x), ..v }
                } else if key == "name"@ {
                    CategoriesView { categories: with_name(v.categories, x), ..v }
                } else if key == "item"@ {
                    CategoriesView { categories: with_item(v.categories, x), ..v }
                } else {
                    v
                }
            },
            None => v,
        }
    }
}

/// What these lines describe.
pub open spec fn read_lines(v: CategoriesView, ls: Seq<Seq<char>>) -> CategoriesView
    decreases ls.len(),
{
    if ls.len() == 0 {
        v
    } else {
        after_line(read_lines(v, ls.drop_last()), ls.last())
    }
}

/// What a text describes.
pub open spec fn parsed(s: Seq<char>) -> CategoriesView {
    read_lines(none(), text::lines(s))
}

/// A text as it is written between double quotes.
pub fn quote(value: &str) -> (r: String)
    ensures
        r@ == quoting::quoted(value@, false),
{
    quoting::quote(value, false)
}

/// The value that a text writes.
pub fn unquote(s: &str) -> (r: String)
    ensures
        r@ == quoting::simple_value(s@),
{
    let v = text::chars_of(s);
    quoting::simple_unquote(&v)
}

fn read_line(c: &mut Categories, raw: &[char])
    ensures
        final(c)@ == after_line(old(c)@, raw@),
{
    let line = text::trim(raw);
    if line.len() == 0 || line[0] == '#' {
        return;
    }
    if text::spells(line, "[[category]]") {
        let ghost was = c.categories@;
        let fresh = Category { name: String::new(), items: Vec::new() };
        proof {
            assert(fresh@ =~= (CategoryView { name: seq![], items: seq![] }));
        }
        c.categories.push(fresh);
        assert(views(c.categories@) =~= views(was).push(fresh@));
        return;
    }
    if let Some((k, value)) = text::split_once(line, '=') {
        let key = text::trim(k);
        if text::spells(key, "hidden") {
            let v = quoting::simple_unquote(value);
            if !v.as_str().is_empty() && !text::listed(&c.hidden, v.as_str()) {
                let ghost was = c.hidden@;
                c.hidden.push(v);
                proof {
                    text::lemma_texts_push(was, v);
                }
            }
        } else if text::spells(key, "name") {
            let n: usize = c.categories.len();
            if n > 0 {
                let ghost was = views(c.categories@);
                c.categories[n - 1].name = quoting::simple_unquote(value);
                assert(views(c.categories@) =~= with_name(was, quoting::simple_value(value@)));
            }
        } else if text::spells(key, "item") {
            let v = quoting::simple_unquote(value);
            let n: usize = c.categories.len();
            if n > 0 && !v.as_str().is_empty() {
                let ghost was = views(c.categories@);
                let ghost items = c.categories@[n - 1].items@;
                c.categories[n - 1].items.push(v);
                proof {
                    text::lemma_texts_push(items, v);
                    assert(views(c.categories@) =~= with_item(was, v@));
                }
            }
        }
    }
}

/// The rows and hidden programs that a text describes.
pub fn parse(text: &str) -> (r: Categories)
    ensures
        r@ == parsed(text@),
{
    let chars = text::chars_of(text);
    let ls = text::split_lines(&chars);
    let ghost all = text::lines(text@);
    let mut c: Categories = Categories::default();
    let mut i: usize = 0;
    while i < ls.len()
        invariant
            i <= ls@.len(),
            text::rows(ls@) == all,
            c@ == read_lines(none(), all.take(i as int)),
        decreases ls@.len() - i,
    {
        read_line(&mut c, &ls[i]);
        proof {
            assert(all.take(i as int + 1).drop_last() =~= all.take(i as int));
            assert(all.take(i as int + 1).last() == ls@[i as int]@);
        }
        i += 1;
    }
    assert(all.take(i as int) =~= all);
    c
}

fn add_keys(out: &mut Vec<char>, name: &str, keys: &Vec<String>)
    ensures
        final(out)@ == old(out)@ + text::unlines(key_lines(name@, text::texts(keys@))),
{
    let ghost start = out@;
    let ghost all = key_lines(name@, text::texts(keys@));
    let mut i: usize = 0;
    assert(all.take(0) =~= Seq::empty());
    assert(out@ =~= start + text::unlines(all.take(0)));
    while i < keys.len()
        invariant
            i <= keys@.len(),
            all == key_lines(name@, text::texts(keys@)),
            out@ == start + text::unlines(all.take(i as int)),
        decreases keys@.len() - i,
    {
        quoting::add_pair(out, name, keys[i].as_str(), false);
        proof {
            let l = all[i as int];
            text::lemma_unlines_push(all.take(i as int), l);
            assert(all.take(i as int + 1) =~= all.take(i as int).push(l));
            assert(out@ =~= start + text::unlines(all.take(i as int + 1)));
        }
        i += 1;
    }
    assert(all.take(i as int) =~= all);
}

fn add_row(out: &mut Vec<char>, c: &Category)
    ensures
        final(out)@ == old(out)@ + text::unlines(row_lines(c@)),
{
    let ghost start = out@;
    out.push('\n');
    text::add_line(out, "[[category]]");
    quoting::add_pair(out, "name", c.name.as_str(), false);
    add_keys(out, "item", &c.items);
    proof {
        let e = Seq::<Seq<char>>::empty();
        let n = quoting::pair_line("name"@, c@.name, false);
        let head = seq![Seq::empty(), "[[category]]"@, n];
        text::lemma_unlines_push(e, Seq::empty());
        text::lemma_unlines_push(e.push(Seq::empty()), "[[category]]"@);
        text::lemma_unlines_push(e.push(Seq::empty()).push("[[category]]"@), n);
        assert(head =~= e.push(Seq::empty()).push("[[category]]"@).push(n));
        facts::lemma_unlines_concat(head, key_lines("item"@, c@.items));
        assert(out@ =~= start + text::unlines(row_lines(c@)));
    }
}

/// The text of a file with these rows and hidden programs.
pub fn save(categories: &Categories) -> (r: String)
    ensures
        r@ == rendered(categories@),
{
    let mut out: Vec<char> = Vec::new();
    text::add_line(&mut out, "# FeatherDock app-drawer customisation.");
    text::add_line(
        &mut out,
        "# `hidden` lines hide programs from the drawer without deleting the shortcut/app.",
    );
    text::add_line(
        &mut out,
        "# One [[category]] per row; `item` lines list member programs by stable key.",
    );
    let ghost h = header_lines();
    let ghost hid = key_lines("hidden"@, categories@.hidden);
    proof {
        let e = Seq::<Seq<char>>::empty();
        text::lemma_unlines_push(e, h[0]);
        text::lemma_unlines_push(e.push(h[0]), h[1]);
        text::lemma_unlines_push(e.push(h[0]).push(h[1]), h[2]);
        assert(h =~= e.push(h[0]).push(h[1]).push(h[2]));
        assert(out@ =~= text::unlines(h));
    }
    add_keys(&mut out, "hidden", &categories.hidden);
    let ghost all = categories@.categories;
    let mut i: usize = 0;
    proof {
        facts::lemma_unlines_concat(h, hid);
        assert(rows_lines(all.take(0)) =~= Seq::empty());
        assert(h + hid + rows_lines(all.take(0)) =~= h + hid);
    }
    while i < categories.categories.len()
        invariant
            i <= categories.categories@.len(),
            all == categories@.categories,
            out@ == text::unlines(h + hid + rows_lines(all.take(i as int))),
        decreases categories.categories@.len() - i,
    {
        add_row(&mut out, &categories.categories[i]);
        proof {
            let front = all.take(i as int);
            let more = all.take(i as int + 1);
            assert(more.drop_last() =~= front);
            assert(more.last() == categories.categories@[i as int]@);
            facts::lemma_unlines_concat(h + hid + rows_lines(front), row_lines(more.last()));
            assert(h + hid + rows_lines(front) + row_lines(more.last()) =~= h + hid + rows_lines(
                more,
            ));
        }
        i += 1;
    }
    assert(all.take(i as int) =~= all);
    text::string_of(&out)
}

} // verus!
