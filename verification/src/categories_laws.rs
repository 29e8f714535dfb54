//! What the rows of the drawer promise: a program is in one row at most, a hidden one in
//! none, and what is saved reads back.

use vstd::prelude::*;
use crate::categories;
use crate::categories::{CategoriesView, CategoryView};
use crate::facts;
use crate::quoting;
use crate::text;

verus! {

/// No row holds `key`.
pub open spec fn in_no_row(v: CategoriesView, key: Seq<char>) -> bool {
    forall|i: int| 0 <= i < v.categories.len() ==> !(#[trigger] v.categories[i]).items.contains(key)
}

/// The row `t` holds `key` once and no other row holds it.
pub open spec fn only_in(v: CategoriesView, key: Seq<char>, t: int) -> bool {
    &&& forall|i: int|
        0 <= i < v.categories.len() && i != t ==> !(#[trigger] v.categories[i]).items.contains(key)
    &&& exists|k: int|
        0 <= k < v.categories[t].items.len() && #[trigger] v.categories[t].items[k] == key && (
        forall|j: int|
            0 <= j < v.categories[t].items.len() && j != k ==> #[trigger] v.categories[t].items[j]
                != key)
}

/// No key occurs twice in these.
pub open spec fn distinct(s: Seq<Seq<char>>) -> bool {
    forall|i: int, j: int| 0 <= i < j < s.len() ==> #[trigger] s[i] != #[trigger] s[j]
}

pub proof fn lemma_without(s: Seq<Seq<char>>, key: Seq<char>)
    ensures
        !categories::without(s, key).contains(key),
        forall|x: Seq<char>| #[trigger]
            categories::without(s, key).contains(x) <==> s.contains(x) && x != key,
    decreases s.len(),
{
    if s.len() > 0 {
        let f = s.drop_last();
        let w = categories::without(f, key);
        let r = categories::without(s, key);
        lemma_without(f, key);
        assert forall|x: Seq<char>| #[trigger] r.contains(x) <==> s.contains(x) && x != key by {
            if r.contains(x) {
                let k = choose|k: int| 0 <= k < r.len() && r[k] == x;
                if k < w.len() {
                    assert(w.contains(w[k]));
                    let m = choose|m: int| 0 <= m < f.len() && f[m] == x;
                    assert(s[m] == x);
                } else {
                    assert(s[s.len() - 1] == x);
                }
            }
            if s.contains(x) && x != key {
                let m = choose|m: int| 0 <= m < s.len() && s[m] == x;
                if m < f.len() {
                    assert(f[m] == x);
                    assert(w.contains(x));
                    let k = choose|k: int| 0 <= k < w.len() && w[k] == x;
                    assert(r[k] == x);
                } else {
                    assert(r[r.len() - 1] == x);
                }
            }
        }
    }
}

/// A moved program is in the row it was moved to, once, in no other row, and not hidden.
pub proof fn law_moved_is_exclusive(v: CategoriesView, key: Seq<char>, t: usize, index: usize)
    requires
        t < v.categories.len(),
    ensures
        only_in(categories::moved(v, key, Some(t), index), key, t as int),
        !categories::moved(v, key, Some(t), index).hidden.contains(key),
{
    let r = categories::moved(v, key, Some(t), index);
    let rows = categories::detached(v.categories, key);
    lemma_without(v.hidden, key);
    assert forall|i: int| 0 <= i < r.categories.len() && i != t implies !(
    #[trigger] r.categories[i]).items.contains(key) by {
        lemma_without(v.categories[i].items, key);
        assert(r.categories[i] == rows[i]);
    }
    let base = rows[t as int].items;
    lemma_without(v.categories[t as int].items, key);
    let at = if index <= base.len() {
        index as int
    } else {
        base.len() as int
    };
    let items = r.categories[t as int].items;
    assert(items == base.insert(at, key));
    assert(items[at] == key);
    assert forall|j: int| 0 <= j < items.len() && j != at implies #[trigger] items[j] != key by {
        if j < at {
            assert(items[j] == base[j]);
            assert(base.contains(base[j]));
        } else {
            assert(items[j] == base[j - 1]);
            assert(base.contains(base[j - 1]));
        }
    }
}

/// A program that is moved to no row is in none, and not hidden.
pub proof fn law_moved_out(v: CategoriesView, key: Seq<char>, index: usize)
    ensures
        in_no_row(categories::moved(v, key, None, index), key),
        !categories::moved(v, key, None, index).hidden.contains(key),
{
    let r = categories::moved(v, key, None, index);
    lemma_without(v.hidden, key);
    assert forall|i: int| 0 <= i < r.categories.len() implies !(
    #[trigger] r.categories[i]).items.contains(key) by {
        lemma_without(v.categories[i].items, key);
    }
}

proof fn lemma_without_insert(s: Seq<Seq<char>>, key: Seq<char>, at: int)
    requires
        0 <= at <= s.len(),
    ensures
        categories::without(s.insert(at, key), key) == categories::without(s, key),
    decreases s.len() - at,
{
    let t = s.insert(at, key);
    if at == s.len() {
        assert(t.drop_last() =~= s);
        assert(t.last() == key);
    } else {
        assert(t.drop_last() =~= s.drop_last().insert(at, key));
        assert(t.last() == s.last());
        lemma_without_insert(s.drop_last(), key, at);
    }
}

proof fn lemma_without_twice(s: Seq<Seq<char>>, key: Seq<char>)
    ensures
        categories::without(categories::without(s, key), key) == categories::without(s, key),
    decreases s.len(),
{
    if s.len() > 0 {
        lemma_without_twice(s.drop_last(), key);
        let f = categories::without(s.drop_last(), key);
        if s.last() != key {
            assert(f.push(s.last()).drop_last() =~= f);
        }
    }
}

/// A move leaves every other program where it was, in its order, and keeps the names.
pub proof fn law_moved_keeps_others(
    v: CategoriesView,
    key: Seq<char>,
    target: Option<usize>,
    index: usize,
)
    ensures
        ({
            let r = categories::moved(v, key, target, index);
            &&& r.categories.len() == v.categories.len()
            &&& categories::detached(r.categories, key) == categories::detached(v.categories, key)
            &&& r.hidden == categories::without(v.hidden, key)
        }),
{
    let r = categories::moved(v, key, target, index);
    let rows = categories::detached(v.categories, key);
    assert forall|i: int| 0 <= i < rows.len() implies categories::detached(r.categories, key)[i]
        == rows[i] by {
        lemma_without_twice(v.categories[i].items, key);
        if target is Some && target->0 < rows.len() && i == target->0 {
            let base = rows[i].items;
            let at = if index <= base.len() {
                index as int
            } else {
                base.len() as int
            };
            lemma_without_insert(base, key, at);
        }
    }
    assert(categories::detached(r.categories, key) =~= rows);
}

/// A hidden program is in no row.
pub proof fn law_concealed_is_in_no_row(v: CategoriesView, key: Seq<char>)
    ensures
        in_no_row(categories::concealed(v, key), key),
        categories::concealed(v, key).hidden.contains(key),
        categories::owner(categories::concealed(v, key).categories, key) is None,
{
    let r = categories::concealed(v, key);
    assert forall|i: int| 0 <= i < r.categories.len() implies !(
    #[trigger] r.categories[i]).items.contains(key) by {
        lemma_without(v.categories[i].items, key);
    }
    if !v.hidden.contains(key) {
        assert(r.hidden[r.hidden.len() - 1] == key);
    }
    law_owner(r.categories, key);
}

/// The row that a program is found in holds it, and no earlier row does; it is found in
/// none where no row holds it.
pub proof fn law_owner(v: Seq<CategoryView>, key: Seq<char>)
    ensures
        match categories::owner(v, key) {
            Some(i) => 0 <= i < v.len() && v[i].items.contains(key) && forall|j: int|
                0 <= j < i ==> !(#[trigger] v[j]).items.contains(key),
            None => forall|j: int| 0 <= j < v.len() ==> !(#[trigger] v[j]).items.contains(key),
        },
    decreases v.len(),
{
    if v.len() > 0 {
        let f = v.drop_last();
        law_owner(f, key);
        assert(forall|j: int| 0 <= j < f.len() ==> f[j] == v[j]);
        match categories::owner(f, key) {
            Some(i) => {
                assert forall|j: int| 0 <= j < i implies !(#[trigger] v[j]).items.contains(key) by {
                    assert(!f[j].items.contains(key));
                }
            },
            None => {
                assert forall|j: int| 0 <= j < f.len() implies !(#[trigger] v[j]).items.contains(
                    key,
                ) by {
                    assert(!f[j].items.contains(key));
                }
            },
        }
    }
}

/// A moved program is found in the row it was moved to, a program moved to no row in
/// none.
pub proof fn law_moved_is_found(v: CategoriesView, key: Seq<char>, target: Option<usize>, index: usize)
    ensures
        categories::owner(categories::moved(v, key, target, index).categories, key) == (
        if target is Some && target->0 < v.categories.len() {
            Some(target->0 as int)
        } else {
            None
        }),
{
    let r = categories::moved(v, key, target, index);
    law_owner(r.categories, key);
    if target is Some && target->0 < v.categories.len() {
        law_moved_is_exclusive(v, key, target->0, index);
    } else {
        assert(r == categories::moved(v, key, None, index));
        law_moved_out(v, key, index);
    }
}

/// No program is twice in the drawer: it is in one row at most, once, and in none where it
/// is hidden; and it is hidden once at most.
pub open spec fn each_once(v: CategoriesView) -> bool {
    &&& distinct(v.hidden)
    &&& forall|i: int| 0 <= i < v.categories.len() ==> distinct((#[trigger] v.categories[i]).items)
    &&& forall|i: int, key: Seq<char>|
        0 <= i < v.categories.len() && #[trigger] v.categories[i].items.contains(key)
            ==> !v.hidden.contains(key)
    &&& forall|i: int, j: int, key: Seq<char>|
        0 <= i < j < v.categories.len() && #[trigger] v.categories[i].items.contains(key)
            ==> !#[trigger] v.categories[j].items.contains(key)
}

proof fn lemma_without_distinct(s: Seq<Seq<char>>, key: Seq<char>)
    requires
        distinct(s),
    ensures
        distinct(categories::without(s, key)),
    decreases s.len(),
{
    if s.len() > 0 {
        let f = s.drop_last();
        let w = categories::without(f, key);
        let r = categories::without(s, key);
        lemma_without_distinct(f, key);
        lemma_without(f, key);
        assert forall|i: int, j: int| 0 <= i < j < r.len() implies #[trigger] r[i]
            != #[trigger] r[j] by {
            if j == w.len() {
                assert(w.contains(w[i]));
                let m = choose|m: int| 0 <= m < f.len() && f[m] == w[i];
                assert(s[m] == w[i]);
                assert(s[m] != s[s.len() - 1]);
            }
        }
    }
}

proof fn lemma_detached_once(v: CategoriesView, key: Seq<char>, hidden: Seq<Seq<char>>)
    requires
        each_once(v),
        distinct(hidden),
        forall|x: Seq<char>| #[trigger] hidden.contains(x) ==> x == key || v.hidden.contains(x),
    ensures
        each_once(CategoriesView { categories: categories::detached(v.categories, key), hidden }),
        forall|i: int|
            0 <= i < v.categories.len() ==> !(#[trigger] categories::detached(
                v.categories,
                key,
            )[i]).items.contains(key),
{
    let rows = categories::detached(v.categories, key);
    let r = CategoriesView { categories: rows, hidden };
    assert forall|i: int| 0 <= i < rows.len() implies distinct((#[trigger] rows[i]).items)
        && !rows[i].items.contains(key) by {
        lemma_without_distinct(v.categories[i].items, key);
        lemma_without(v.categories[i].items, key);
    }
    assert forall|i: int, x: Seq<char>|
        0 <= i < rows.len() && #[trigger] rows[i].items.contains(x) implies !hidden.contains(
        x,
    ) by {
        lemma_without(v.categories[i].items, key);
        assert(v.categories[i].items.contains(x));
    }
    assert forall|i: int, j: int, x: Seq<char>|
        0 <= i < j < rows.len()
            && #[trigger] rows[i].items.contains(x) implies !#[trigger] rows[j].items.contains(
        x,
    ) by {
        lemma_without(v.categories[i].items, key);
        lemma_without(v.categories[j].items, key);
        assert(v.categories[i].items.contains(x));
    }
}

proof fn lemma_put_contains(s: Seq<Seq<char>>, key: Seq<char>, index: int)
    requires
        0 <= index,
        distinct(s),
        !s.contains(key),
    ensures
        distinct(categories::put(s, key, index)),
        forall|x: Seq<char>| #[trigger]
            categories::put(s, key, index).contains(x) ==> x == key || s.contains(x),
{
    let at = if index <= s.len() {
        index
    } else {
        s.len() as int
    };
    let r = s.insert(at, key);
    assert(forall|k: int| 0 <= k < s.len() ==> s.contains(#[trigger] s[k]));
    assert forall|k: int| 0 <= k < r.len() implies #[trigger] r[k] == (if k < at {
        s[k]
    } else if k == at {
        key
    } else {
        s[k - 1]
    }) by {}
    assert forall|i: int, j: int| 0 <= i < j < r.len() implies #[trigger] r[i]
        != #[trigger] r[j] by {
        if i == at {
            assert(s.contains(s[j - 1]));
        } else if j == at {
            assert(s.contains(s[i]));
        }
    }
}

/// A move puts no program twice in the drawer.
pub proof fn law_move_keeps_each_once(
    v: CategoriesView,
    key: Seq<char>,
    target: Option<usize>,
    index: usize,
)
    requires
        each_once(v),
    ensures
        each_once(categories::moved(v, key, target, index)),
{
    let hidden = categories::without(v.hidden, key);
    lemma_without_distinct(v.hidden, key);
    lemma_without(v.hidden, key);
    lemma_detached_once(v, key, hidden);
    let rows = categories::detached(v.categories, key);
    let base = CategoriesView { categories: rows, hidden };
    let r = categories::moved(v, key, target, index);
    if target is Some && target->0 < rows.len() {
        let t = target->0 as int;
        assert(distinct(base.categories[t].items));
        lemma_put_contains(rows[t].items, key, index as int);
        assert forall|i: int| 0 <= i < rows.len() implies distinct(
            (#[trigger] r.categories[i]).items,
        ) by {
            assert(distinct(base.categories[i].items));
        }
        assert(forall|i: int|
            0 <= i < rows.len() && i != t ==> #[trigger] r.categories[i] == rows[i]);
        assert forall|i: int, x: Seq<char>|
            0 <= i < rows.len() && #[trigger] r.categories[i].items.contains(
                x,
            ) implies !hidden.contains(x) by {
            if x != key {
                assert(base.categories[i].items.contains(x));
            }
        }
        assert forall|i: int, j: int, x: Seq<char>|
            0 <= i < j < rows.len() && #[trigger] r.categories[i].items.contains(
                x,
            ) implies !#[trigger] r.categories[j].items.contains(x) by {
            if x == key {
                assert(!rows[i].items.contains(key) && !rows[j].items.contains(key));
            } else {
                assert(base.categories[i].items.contains(x));
                assert(!base.categories[j].items.contains(x));
            }
        }
    } else {
        assert(r == base);
    }
}

/// Hiding a program puts none twice in the drawer.
pub proof fn law_hide_keeps_each_once(v: CategoriesView, key: Seq<char>)
    requires
        each_once(v),
    ensures
        each_once(categories::concealed(v, key)),
{
    let r = categories::concealed(v, key);
    assert(forall|k: int| 0 <= k < v.hidden.len() ==> v.hidden.contains(#[trigger] v.hidden[k]));
    assert(distinct(r.hidden));
    assert forall|x: Seq<char>| #[trigger] r.hidden.contains(x) implies x == key
        || v.hidden.contains(x) by {
        let k = choose|k: int| 0 <= k < r.hidden.len() && r.hidden[k] == x;
        if k < v.hidden.len() {
            assert(v.hidden[k] == x);
        }
    }
    lemma_detached_once(v, key, r.hidden);
}

/// An empty drawer has no program twice; and adding, renaming and deleting a row, and hiding
/// nothing any more, put none twice in it.
pub proof fn law_rows_keep_each_once(v: CategoriesView, index: usize, name: Seq<char>)
    requires
        each_once(v),
    ensures
        each_once(categories::none()),
        each_once(categories::added(v, name)),
        each_once(categories::renamed(v, index, name)),
        each_once(categories::removed(v, index)),
        each_once(categories::restored(v)),
{
    let a = categories::added(v, name);
    assert forall|i: int| 0 <= i < a.categories.len() implies (#[trigger] a.categories[i]).items
        == (if i < v.categories.len() {
        v.categories[i].items
    } else {
        seq![]
    }) by {}
    assert(each_once(a)) by {
        assert forall|i: int, j: int, x: Seq<char>|
            0 <= i < j < a.categories.len() && #[trigger] a.categories[i].items.contains(
                x,
            ) implies !#[trigger] a.categories[j].items.contains(x) by {
            assert(v.categories[i].items.contains(x));
        }
    }
    let n = categories::renamed(v, index, name);
    assert forall|i: int| 0 <= i < n.categories.len() implies (#[trigger] n.categories[i]).items
        == v.categories[i].items by {}
    let d = categories::removed(v, index);
    if index < v.categories.len() {
        assert forall|i: int| 0 <= i < d.categories.len() implies #[trigger] d.categories[i] == (
        if i < index {
            v.categories[i]
        } else {
            v.categories[i + 1]
        }) by {}
        assert(each_once(d)) by {
            assert forall|i: int, j: int, x: Seq<char>|
                0 <= i < j < d.categories.len() && #[trigger] d.categories[i].items.contains(
                    x,
                ) implies !#[trigger] d.categories[j].items.contains(x) by {
                let p = if i < index {
                    i
                } else {
                    i + 1
                };
                let q = if j < index {
                    j
                } else {
                    j + 1
                };
                assert(v.categories[p].items.contains(x));
                assert(!v.categories[q].items.contains(x));
            }
        }
    }
}

/// Keys that can be saved: none is empty and each has one line.
pub open spec fn savable_keys(s: Seq<Seq<char>>) -> bool {
    forall|i: int| 0 <= i < s.len() ==> (#[trigger] s[i]).len() > 0 && facts::lacks(s[i], '\n')
}

/// Rows that can be saved.
pub open spec fn savable_rows(v: Seq<CategoryView>) -> bool {
    forall|i: int|
        0 <= i < v.len() ==> facts::lacks((#[trigger] v[i]).name, '\n') && savable_keys(v[i].items)
}

/// Names and keys have one line each, no key is empty, and no key is hidden twice.
pub open spec fn savable(v: CategoriesView) -> bool {
    savable_rows(v.categories) && savable_keys(v.hidden) && distinct(v.hidden)
}

proof fn lemma_read_concat(v: CategoriesView, a: Seq<Seq<char>>, b: Seq<Seq<char>>)
    ensures
        categories::read_lines(v, a + b) == categories::read_lines(
            categories::read_lines(v, a),
            b,
        ),
    decreases b.len(),
{
    if b.len() == 0 {
        assert(a + b =~= a);
    } else {
        lemma_read_concat(v, a, b.drop_last());
        assert((a + b).drop_last() =~= a + b.drop_last());
    }
}

proof fn lemma_names()
    ensures
        facts::snug("hidden"@) && facts::plain("hidden"@),
        facts::snug("name"@) && facts::plain("name"@),
        facts::snug("item"@) && facts::plain("item"@),
        "hidden"@ != "name"@,
        "hidden"@ != "item"@,
        "name"@ != "item"@,
        "hidden"@[0] == 'h',
        "name"@[0] == 'n',
        "item"@[0] == 'i',
{
    reveal_strlit("hidden");
    reveal_strlit("name");
    reveal_strlit("item");
    reveal_with_fuel(facts::plain_upto, 8);
    facts::lemma_plain("hidden"@, 6);
    facts::lemma_plain("name"@, 4);
    facts::lemma_plain("item"@, 4);
    assert("hidden"@[0] != "name"@[0]);
    assert("hidden"@[0] != "item"@[0]);
    assert("name"@[0] != "item"@[0]);
}

proof fn lemma_after_pair(v: CategoriesView, key: Seq<char>, x: Seq<char>)
    requires
        key == "hidden"@ || key == "name"@ || key == "item"@,
    ensures
        categories::after_line(v, quoting::pair_line(key, x, false)) == (if key == "hidden"@ {
            CategoriesView { hidden: categories::with_hidden(v.hidden, x), ..v }
        } else if key == "name"@ {
            CategoriesView { categories: categories::with_name(v.categories, x), ..v }
        } else {
            CategoriesView { categories: categories::with_item(v.categories, x), ..v }
        }),
        facts::lacks(x, '\n') ==> facts::is_line(quoting::pair_line(key, x, false)),
{
    lemma_names();
    quoting::lemma_pair_line(key, x, false);
    quoting::law_value_of_quoted(x);
    reveal_strlit("[[category]]");
    assert(quoting::pair_line(key, x, false)[0] != "[[category]]"@[0]);
}

proof fn lemma_after_open(v: CategoriesView)
    ensures
        categories::after_line(v, Seq::empty()) == v,
        categories::after_line(v, "[[category]]"@) == (CategoriesView {
            categories: v.categories.push(CategoryView { name: seq![], items: seq![] }),
            hidden: v.hidden,
        }),
        facts::is_line("[[category]]"@),
        facts::is_line(Seq::empty()),
{
    reveal_strlit("[[category]]");
    let l = "[[category]]"@;
    let e = Seq::<char>::empty();
    assert(text::trimmed(e) =~= e);
    facts::lemma_trim_snug(l);
    reveal_with_fuel(facts::one_line_upto, 14);
    facts::lemma_one_line(l, 12);
}

proof fn lemma_read_items(v: CategoriesView, c: CategoryView)
    requires
        savable_keys(c.items),
        v.categories.len() > 0,
        v.categories.last().items == Seq::<Seq<char>>::empty(),
    ensures
        categories::read_lines(v, categories::key_lines("item"@, c.items)) == (CategoriesView {
            categories: v.categories.drop_last().push(
                CategoryView { name: v.categories.last().name, items: c.items },
            ),
            hidden: v.hidden,
        }),
        facts::are_lines(categories::key_lines("item"@, c.items)),
    decreases c.items.len(),
{
    lemma_names();
    let ls = categories::key_lines("item"@, c.items);
    if c.items.len() == 0 {
        assert(c.items =~= v.categories.last().items);
        assert(v.categories =~= v.categories.drop_last().push(
            CategoryView { name: v.categories.last().name, items: c.items },
        ));
    } else {
        let f = CategoryView { name: c.name, items: c.items.drop_last() };
        assert forall|i: int| 0 <= i < f.items.len() implies (#[trigger] f.items[i]).len() > 0
            && facts::lacks(f.items[i], '\n') by {
            assert(f.items[i] == c.items[i]);
        }
        lemma_read_items(v, f);
        assert(ls.drop_last() =~= categories::key_lines("item"@, f.items));
        let w = categories::read_lines(v, ls.drop_last());
        let x = c.items[c.items.len() - 1];
        lemma_after_pair(w, "item"@, x);
        assert(w.categories.drop_last() =~= v.categories.drop_last());
        assert(f.items.push(x) =~= c.items);
        assert forall|i: int| 0 <= i < ls.len() implies facts::is_line(#[trigger] ls[i]) by {
            if i < ls.len() - 1 {
                assert(ls[i] == ls.drop_last()[i]);
            }
        }
    }
}

proof fn lemma_read_row(v: CategoriesView, c: CategoryView)
    requires
        savable_keys(c.items),
        facts::lacks(c.name, '\n'),
    ensures
        categories::read_lines(v, categories::row_lines(c)) == (CategoriesView {
            categories: v.categories.push(c),
            hidden: v.hidden,
        }),
        facts::are_lines(categories::row_lines(c)),
{
    lemma_names();
    let n = quoting::pair_line("name"@, c.name, false);
    let head = seq![Seq::empty(), "[[category]]"@, n];
    let items = categories::key_lines("item"@, c.items);
    lemma_after_open(v);
    let w = CategoriesView {
        categories: v.categories.push(CategoryView { name: seq![], items: seq![] }),
        hidden: v.hidden,
    };
    lemma_after_pair(w, "name"@, c.name);
    reveal_with_fuel(categories::read_lines, 4);
    assert(head.drop_last().drop_last().drop_last() =~= Seq::empty());
    assert(head.drop_last().drop_last().last() == Seq::<char>::empty());
    assert(head.drop_last().last() == "[[category]]"@);
    let u = categories::read_lines(v, head);
    assert(u.categories =~= v.categories.push(CategoryView { name: c.name, items: seq![] }));
    lemma_read_concat(v, head, items);
    lemma_read_items(u, c);
    assert(u.categories.drop_last() =~= v.categories);
    let all = categories::row_lines(c);
    assert forall|i: int| 0 <= i < all.len() implies facts::is_line(#[trigger] all[i]) by {
        if i < 3 {
            assert(all[i] == head[i]);
        } else {
            assert(all[i] == items[i - 3]);
        }
    }
}

proof fn lemma_read_rows(v: CategoriesView, more: Seq<CategoryView>)
    requires
        savable_rows(more),
    ensures
        categories::read_lines(v, categories::rows_lines(more)) == (CategoriesView {
            categories: v.categories + more,
            hidden: v.hidden,
        }),
        facts::are_lines(categories::rows_lines(more)),
    decreases more.len(),
{
    if more.len() == 0 {
        assert(v.categories + more =~= v.categories);
    } else {
        let f = more.drop_last();
        assert forall|i: int| 0 <= i < f.len() implies facts::lacks((#[trigger] f[i]).name, '\n')
            && savable_keys(f[i].items) by {
            assert(f[i] == more[i]);
        }
        lemma_read_rows(v, f);
        let a = categories::rows_lines(f);
        let b = categories::row_lines(more.last());
        assert(more.last() == more[more.len() - 1]);
        lemma_read_concat(v, a, b);
        lemma_read_row(categories::read_lines(v, a), more.last());
        assert((v.categories + f).push(more.last()) =~= v.categories + more);
        assert forall|i: int| 0 <= i < (a + b).len() implies facts::is_line(
            #[trigger] (a + b)[i],
        ) by {
            if i < a.len() {
                assert((a + b)[i] == a[i]);
            } else {
                assert((a + b)[i] == b[i - a.len()]);
            }
        }
    }
}

proof fn lemma_read_hidden(v: CategoriesView, keys: Seq<Seq<char>>)
    requires
        savable_keys(keys),
        distinct(keys),
        v.hidden == Seq::<Seq<char>>::empty(),
    ensures
        categories::read_lines(v, categories::key_lines("hidden"@, keys)) == (CategoriesView {
            categories: v.categories,
            hidden: keys,
        }),
        facts::are_lines(categories::key_lines("hidden"@, keys)),
    decreases keys.len(),
{
    lemma_names();
    let ls = categories::key_lines("hidden"@, keys);
    if keys.len() == 0 {
        assert(keys =~= v.hidden);
    } else {
        let f = keys.drop_last();
        assert forall|i: int| 0 <= i < f.len() implies (#[trigger] f[i]).len() > 0 && facts::lacks(
            f[i],
            '\n',
        ) by {
            assert(f[i] == keys[i]);
        }
        assert forall|i: int, j: int| 0 <= i < j < f.len() implies #[trigger] f[i]
            != #[trigger] f[j] by {
            assert(keys[i] != keys[j]);
        }
        lemma_read_hidden(v, f);
        assert(ls.drop_last() =~= categories::key_lines("hidden"@, f));
        let x = keys[keys.len() - 1];
        let w = categories::read_lines(v, ls.drop_last());
        lemma_after_pair(w, "hidden"@, x);
        if f.contains(x) {
            let k = choose|k: int| 0 <= k < f.len() && f[k] == x;
            assert(keys[k] != keys[keys.len() - 1]);
        }
        assert(f.push(x) =~= keys);
        assert forall|i: int| 0 <= i < ls.len() implies facts::is_line(#[trigger] ls[i]) by {
            if i < ls.len() - 1 {
                assert(ls[i] == ls.drop_last()[i]);
            }
        }
    }
}

proof fn lemma_comment(l: Seq<char>, v: CategoriesView)
    requires
        l.len() > 0,
        l[0] == '#',
        l.last() == '.',
        facts::one_line_upto(l, l.len()),
    ensures
        categories::after_line(v, l) == v,
        facts::is_line(l),
{
    facts::lemma_one_line(l, l.len());
    facts::lemma_trim_snug(l);
}

proof fn lemma_header_0(v: CategoriesView)
    ensures
        categories::after_line(v, "# FeatherDock app-drawer customisation."@) == v,
        facts::is_line("# FeatherDock app-drawer customisation."@),
{
    reveal_strlit("# FeatherDock app-drawer customisation.");
    reveal_with_fuel(facts::one_line_upto, 100);
    lemma_comment("# FeatherDock app-drawer customisation."@, v);
}

proof fn lemma_header_1(v: CategoriesView)
    ensures
        categories::after_line(
            v,
            "# `hidden` lines hide programs from the drawer without deleting the shortcut/app."@,
        ) == v,
        facts::is_line(
            "# `hidden` lines hide programs from the drawer without deleting the shortcut/app."@,
        ),
{
    reveal_strlit(
        "# `hidden` lines hide programs from the drawer without deleting the shortcut/app.",
    );
    reveal_with_fuel(facts::one_line_upto, 100);
    lemma_comment(
        "# `hidden` lines hide programs from the drawer without deleting the shortcut/app."@,
        v,
    );
}

proof fn lemma_header_2(v: CategoriesView)
    ensures
        categories::after_line(
            v,
            "# One [[category]] per row; `item` lines list member programs by stable key."@,
        ) == v,
        facts::is_line(
            "# One [[category]] per row; `item` lines list member programs by stable key."@,
        ),
{
    reveal_strlit("# One [[category]] per row; `item` lines list member programs by stable key.");
    reveal_with_fuel(facts::one_line_upto, 100);
    lemma_comment(
        "# One [[category]] per row; `item` lines list member programs by stable key."@,
        v,
    );
}

/// What is saved reads back.
pub proof fn law_rendered_parses(v: CategoriesView)
    requires
        savable(v),
    ensures
        categories::parsed(categories::rendered(v)) == v,
{
    let h = categories::header_lines();
    let hid = categories::key_lines("hidden"@, v.hidden);
    let rows = categories::rows_lines(v.categories);
    let start = categories::none();
    lemma_header_0(start);
    lemma_header_1(start);
    lemma_header_2(start);
    reveal_with_fuel(categories::read_lines, 4);
    assert(h.drop_last().drop_last().drop_last() =~= Seq::empty());
    assert(categories::read_lines(start, h) == start);
    lemma_read_hidden(start, v.hidden);
    lemma_read_concat(start, h, hid);
    let mid = categories::read_lines(start, h + hid);
    lemma_read_rows(mid, v.categories);
    lemma_read_concat(start, h + hid, rows);
    assert(mid.categories + v.categories =~= v.categories);
    let all = h + hid + rows;
    assert forall|i: int| 0 <= i < all.len() implies facts::is_line(#[trigger] all[i]) by {
        if i < h.len() {
            assert(all[i] == h[i]);
        } else if i < h.len() + hid.len() {
            assert(all[i] == hid[i - h.len()]);
        } else {
            assert(all[i] == rows[i - h.len() - hid.len()]);
        }
    }
    facts::lemma_lines_of_unlines(all);
}

/// Every program but this one.
pub open spec fn all_but(key: Seq<char>) -> spec_fn(Seq<char>) -> bool {
    |x: Seq<char>| x != key
}

/// What is left of a row without a program is its other programs, in their order.
pub proof fn law_without_is_the_rest(s: Seq<Seq<char>>, key: Seq<char>)
    ensures
        categories::without(s, key) == s.filter(all_but(key)),
    decreases s.len(),
{
    reveal(Seq::filter);
    if s.len() > 0 {
        law_without_is_the_rest(s.drop_last(), key);
    } else {
        assert(categories::without(s, key) =~= s.filter(all_but(key)));
    }
}

/// A program lands where it is dropped: in the row it is moved to it stands at the index,
/// or at the end where the row is shorter; the other programs of that row stand before and
/// behind it in their order.
pub proof fn law_moved_lands_at_index(v: CategoriesView, key: Seq<char>, t: usize, index: usize)
    requires
        t < v.categories.len(),
    ensures
        ({
            let rest = v.categories[t as int].items.filter(all_but(key));
            let items = categories::moved(v, key, Some(t), index).categories[t as int].items;
            let at = if index <= rest.len() {
                index as int
            } else {
                rest.len() as int
            };
            &&& items.len() == rest.len() + 1
            &&& items[at] == key
            &&& items.take(at) == rest.take(at)
            &&& items.skip(at + 1) == rest.skip(at)
        }),
{
    let rest = v.categories[t as int].items.filter(all_but(key));
    law_without_is_the_rest(v.categories[t as int].items, key);
    let items = categories::moved(v, key, Some(t), index).categories[t as int].items;
    let at = if index <= rest.len() {
        index as int
    } else {
        rest.len() as int
    };
    assert(items == rest.insert(at, key));
    assert(items.take(at) =~= rest.take(at));
    assert(items.skip(at + 1) =~= rest.skip(at));
}

/// A move takes a program out of every other row and out of the hidden ones, and changes
/// nothing else: the names stay, and all other programs stay in their order.
pub proof fn law_moved_leaves_other_rows(
    v: CategoriesView,
    key: Seq<char>,
    target: Option<usize>,
    index: usize,
)
    ensures
        ({
            let r = categories::moved(v, key, target, index);
            &&& r.categories.len() == v.categories.len()
            &&& r.hidden == v.hidden.filter(all_but(key))
            &&& forall|i: int|
                0 <= i < v.categories.len() ==> (#[trigger] r.categories[i]).name
                    == v.categories[i].name
            &&& forall|i: int|
                0 <= i < v.categories.len() && !(target is Some && target->0 == i) ==> (
                #[trigger] r.categories[i]).items == v.categories[i].items.filter(all_but(key))
        }),
{
    let r = categories::moved(v, key, target, index);
    law_without_is_the_rest(v.hidden, key);
    assert forall|i: int|
        0 <= i < v.categories.len() && !(target is Some && target->0 == i) implies (
    #[trigger] r.categories[i]).items == v.categories[i].items.filter(all_but(key)) by {
        law_without_is_the_rest(v.categories[i].items, key);
    }
}

/// Hiding a program takes it out of every row and adds it to the hidden ones, once; all
/// other programs, and the names, stay as they are.
pub proof fn law_concealed(v: CategoriesView, key: Seq<char>)
    ensures
        ({
            let r = categories::concealed(v, key);
            &&& r.categories.len() == v.categories.len()
            &&& v.hidden.contains(key) ==> r.hidden == v.hidden
            &&& !v.hidden.contains(key) ==> r.hidden.len() == v.hidden.len() + 1 && r.hidden.last()
                == key && r.hidden.drop_last() == v.hidden
            &&& forall|i: int|
                0 <= i < v.categories.len() ==> (#[trigger] r.categories[i]).name
                    == v.categories[i].name && r.categories[i].items
                    == v.categories[i].items.filter(all_but(key))
        }),
{
    let r = categories::concealed(v, key);
    if !v.hidden.contains(key) {
        assert(r.hidden.drop_last() =~= v.hidden);
    }
    assert forall|i: int| 0 <= i < v.categories.len() implies (#[trigger] r.categories[i]).name
        == v.categories[i].name && r.categories[i].items == v.categories[i].items.filter(all_but(key)) by {
        law_without_is_the_rest(v.categories[i].items, key);
    }
}

/// A new row stands behind the others, has its name and is empty; a renamed row keeps its
/// programs; a deleted one is gone, with the others in their order; nothing of this changes
/// what is hidden, and restoring changes nothing else.
pub proof fn law_rows_change_one(v: CategoriesView, index: usize, name: Seq<char>)
    ensures
        ({
            let n = v.categories.len();
            let a = categories::added(v, name);
            let c = categories::renamed(v, index, name);
            let d = categories::removed(v, index);
            let e = categories::restored(v);
            &&& a.hidden == v.hidden && c.hidden == v.hidden && d.hidden == v.hidden
            &&& e.hidden.len() == 0 && e.categories == v.categories
            &&& a.categories.len() == n + 1 && a.categories[n as int].name == name
                && a.categories[n as int].items.len() == 0
            &&& forall|i: int| 0 <= i < n ==> #[trigger] a.categories[i] == v.categories[i]
            &&& c.categories.len() == n
            &&& forall|i: int|
                0 <= i < n ==> (#[trigger] c.categories[i]).items == v.categories[i].items
                    && c.categories[i].name == (if i == index {
                    name
                } else {
                    v.categories[i].name
                })
            &&& index >= n ==> d.categories == v.categories
            &&& index < n ==> d.categories.len() == n - 1 && forall|i: int|
                0 <= i < n - 1 ==> #[trigger] d.categories[i] == v.categories[if i < index {
                    i
                } else {
                    i + 1
                }]
        }),
{
}

/// No key is empty.
pub open spec fn all_filled(s: Seq<Seq<char>>) -> bool {
    forall|i: int| 0 <= i < s.len() ==> (#[trigger] s[i]).len() > 0
}

/// What is read from a file hides no program twice, and an empty key is passed over.
pub proof fn law_read_filled(v: CategoriesView, ls: Seq<Seq<char>>)
    requires
        distinct(v.hidden),
        all_filled(v.hidden),
        forall|i: int| 0 <= i < v.categories.len() ==> all_filled((#[trigger] v.categories[i]).items),
    ensures
        ({
            let r = categories::read_lines(v, ls);
            &&& distinct(r.hidden)
            &&& all_filled(r.hidden)
            &&& forall|i: int|
                0 <= i < r.categories.len() ==> all_filled((#[trigger] r.categories[i]).items)
        }),
    decreases ls.len(),
{
    if ls.len() > 0 {
        law_read_filled(v, ls.drop_last());
        let a = categories::read_lines(v, ls.drop_last());
        let r = categories::read_lines(v, ls);
        assert(forall|k: int| 0 <= k < a.hidden.len() ==> a.hidden.contains(#[trigger] a.hidden[k]));
        assert forall|i: int| 0 <= i < r.categories.len() implies all_filled(
            (#[trigger] r.categories[i]).items,
        ) by {
            if i < a.categories.len() {
                assert(all_filled(a.categories[i].items));
            }
        }
    }
}

} // verus!
