//! What the items file promises: what is written reads back, an added item is there and
//! is not added twice, and a removed one is gone.

use vstd::prelude::*;
use crate::config;
use crate::config::ItemView;
use crate::facts;
use crate::paths;
use crate::quoting;
use crate::text;

verus! {

/// The items after more lines.
pub open spec fn after_lines(items: Seq<ItemView>, ls: Seq<Seq<char>>) -> Seq<ItemView>
    decreases ls.len(),
{
    if ls.len() == 0 {
        items
    } else {
        config::after_line(after_lines(items, ls.drop_last()), ls.last())
    }
}

proof fn lemma_items_of_concat(a: Seq<Seq<char>>, b: Seq<Seq<char>>)
    ensures
        config::items_of(a + b) == after_lines(config::items_of(a), b),
    decreases b.len(),
{
    if b.len() == 0 {
        assert(a + b =~= a);
    } else {
        lemma_items_of_concat(a, b.drop_last());
        assert((a + b).drop_last() =~= a + b.drop_last());
    }
}

proof fn lemma_after_lines_concat(items: Seq<ItemView>, a: Seq<Seq<char>>, b: Seq<Seq<char>>)
    ensures
        after_lines(items, a + b) == after_lines(after_lines(items, a), b),
    decreases b.len(),
{
    if b.len() == 0 {
        assert(a + b =~= a);
    } else {
        lemma_after_lines_concat(items, a, b.drop_last());
        assert((a + b).drop_last() =~= a + b.drop_last());
    }
}

proof fn lemma_before_comment_bounds(s: Seq<char>, quote: Option<char>, escaped: bool)
    ensures
        0 <= config::before_comment(s, quote, escaped) <= s.len(),
    decreases s.len(),
{
    if s.len() > 0 {
        let rest = s.skip(1);
        lemma_before_comment_bounds(rest, quote, false);
        lemma_before_comment_bounds(rest, quote, true);
        lemma_before_comment_bounds(rest, None, false);
        lemma_before_comment_bounds(rest, Some(s[0]), false);
    }
}

proof fn lemma_before_comment_plain(a: Seq<char>, b: Seq<char>)
    requires
        facts::plain(a) || (forall|i: int|
            0 <= i < a.len() ==> a[i] != '"' && a[i] != '\'' && a[i] != '#'),
    ensures
        config::before_comment(a + b, None, false) == a.len() + config::before_comment(
            b,
            None,
            false,
        ),
    decreases a.len(),
{
    if a.len() == 0 {
        assert(a + b =~= b);
    } else {
        let rest = a.skip(1);
        assert((a + b).skip(1) =~= rest + b);
        assert forall|i: int| 0 <= i < rest.len() implies rest[i] != '"' && rest[i] != '\''
            && rest[i] != '#' by {
            assert(rest[i] == a[i + 1]);
        }
        assert(a[0] != '"' && a[0] != '\'' && a[0] != '#');
        lemma_before_comment_plain(rest, b);
    }
}

proof fn lemma_before_comment_quoted(v: Seq<char>, b: Seq<char>)
    ensures
        config::before_comment(quoting::quoted(v, true) + b, Some('"'), false) == quoting::quoted(
            v,
            true,
        ).len() + config::before_comment(b, Some('"'), false),
    decreases v.len(),
{
    if v.len() == 0 {
        assert(quoting::quoted(v, true) + b =~= b);
    } else {
        let rest = v.skip(1);
        let q = quoting::quoted(rest, true);
        let s = quoting::quoted(v, true) + b;
        lemma_before_comment_quoted(rest, b);
        if quoting::quote_of(v[0], true).len() == 2 {
            assert(s.skip(1).skip(1) =~= q + b);
            assert(s[0] == '\\');
            assert(config::before_comment(s, Some('"'), false) == 1 + config::before_comment(
                s.skip(1),
                Some('"'),
                true,
            ));
        } else {
            assert(s.skip(1) =~= q + b);
            assert(s[0] == v[0]);
        }
    }
}

proof fn lemma_pair_uncommented(key: Seq<char>, v: Seq<char>)
    requires
        facts::snug(key),
        facts::plain(key),
    ensures
        config::uncommented(quoting::pair_line(key, v, true)) == quoting::pair_line(
            key,
            v,
            true,
        ),
{
    let l = quoting::pair_line(key, v, true);
    let a = key + seq![' ', '=', ' '];
    let q = quoting::quoted(v, true);
    let end = seq!['"'];
    assert(l =~= a + (seq!['"'] + (q + end)));
    assert forall|i: int| 0 <= i < a.len() implies a[i] != '"' && a[i] != '\'' && a[i] != '#' by {
        if i < key.len() {
            assert(a[i] == key[i]);
        }
    }
    lemma_before_comment_plain(a, seq!['"'] + (q + end));
    let t = seq!['"'] + (q + end);
    assert(t.skip(1) =~= q + end);
    assert(config::before_comment(t, None, false) == 1 + config::before_comment(
        q + end,
        Some('"'),
        false,
    ));
    lemma_before_comment_quoted(v, end);
    assert(end.skip(1) =~= Seq::<char>::empty());
    assert(config::before_comment(end.skip(1), None, false) == 0);
    assert(config::before_comment(end, Some('"'), false) == 1);
    assert(config::before_comment(l, None, false) == l.len());
    assert(l.take(l.len() as int) =~= l);
    assert(l[0] == key[0]);
    assert(text::trim_front(l) == l);
}

/// What a pair does to the table that is open.
proof fn lemma_after_pair(items: Seq<ItemView>, key: Seq<char>, v: Seq<char>)
    requires
        facts::snug(key),
        facts::plain(key),
        key[0] != '[',
        items.len() > 0,
    ensures
        config::after_line(items, quoting::pair_line(key, v, true)) == items.drop_last().push(
            config::with_field(items.last(), key, v),
        ),
{
    lemma_pair_uncommented(key, v);
    quoting::lemma_pair_line(key, v, true);
    quoting::law_value_of_quoted(v);
    reveal_strlit("[[item]]");
}

proof fn lemma_after_open(items: Seq<ItemView>)
    ensures
        config::after_line(items, Seq::empty()) == items,
        config::after_line(items, "[[item]]"@) == items.push(config::blank()),
        facts::is_line("[[item]]"@),
        facts::is_line(Seq::empty()),
{
    reveal_strlit("[[item]]");
    let l = "[[item]]"@;
    let e = Seq::<char>::empty();
    assert(text::trim_front(e) == e);
    assert(e.take(0) =~= e);
    assert(text::trimmed(config::uncommented(e)) =~= e);
    assert(forall|i: int| 0 <= i < l.len() ==> l[i] != '"' && l[i] != '\'' && l[i] != '#' && l[i]
        != '\n') by {
        assert(l.len() == 8);
    }
    assert(l + e =~= l);
    lemma_before_comment_plain(l, e);
    assert(l.take(l.len() as int) =~= l);
    assert(text::trim_front(l) == l);
    facts::lemma_trim_snug(l);
}

proof fn lemma_keys()
    ensures
        facts::snug("label"@) && facts::plain("label"@) && "label"@[0] != '[',
        facts::snug("path"@) && facts::plain("path"@) && "path"@[0] != '[',
        facts::snug("exe"@) && facts::plain("exe"@) && "exe"@[0] != '[',
        facts::snug("app"@) && facts::plain("app"@) && "app"@[0] != '[',
        facts::snug("icon"@) && facts::plain("icon"@) && "icon"@[0] != '[',
        "label"@ != "path"@,
        "label"@ != "exe"@,
        "path"@ != "exe"@,
        "label"@ != "app"@,
        "path"@ != "app"@,
        "exe"@ != "app"@,
        "label"@ != "icon"@,
        "path"@ != "icon"@,
        "exe"@ != "icon"@,
        "app"@ != "icon"@,
{
    reveal_strlit("label");
    reveal_strlit("path");
    reveal_strlit("exe");
    reveal_strlit("app");
    reveal_strlit("icon");
    reveal_with_fuel(facts::plain_upto, 6);
    facts::lemma_plain("label"@, 5);
    facts::lemma_plain("path"@, 4);
    facts::lemma_plain("exe"@, 3);
    facts::lemma_plain("app"@, 3);
    facts::lemma_plain("icon"@, 4);
    assert("label"@[0] != "path"@[0]);
    assert("label"@[0] != "exe"@[0]);
    assert("path"@[0] != "exe"@[0]);
    assert("label"@[0] != "app"@[0]);
    assert("path"@[0] != "app"@[0]);
    assert("exe"@[0] != "app"@[0]);
    assert("label"@[0] != "icon"@[0]);
    assert("path"@[0] != "icon"@[0]);
    assert("exe"@[0] != "icon"@[0]);
    assert("app"@[0] != "icon"@[0]);
}

/// What the line of an optional value does to the table that is open.
proof fn lemma_after_field(items: Seq<ItemView>, key: Seq<char>, v: Option<Seq<char>>)
    requires
        facts::snug(key),
        facts::plain(key),
        key[0] != '[',
        items.len() > 0,
    ensures
        after_lines(items, config::field_lines(key, v)) == (match v {
            Some(x) => items.drop_last().push(config::with_field(items.last(), key, x)),
            None => items,
        }),
        facts::are_lines(config::field_lines(key, v)),
{
    reveal_with_fuel(after_lines, 2);
    if let Some(x) = v {
        let ls = config::field_lines(key, v);
        assert(ls.drop_last() =~= Seq::empty());
        lemma_after_pair(items, key, x);
        quoting::lemma_pair_line(key, x, true);
    }
}

/// What the lines of an item do: one more item.
proof fn lemma_after_item(items: Seq<ItemView>, item: ItemView)
    ensures
        after_lines(items, config::item_lines(item)) == items.push(item),
        facts::are_lines(config::item_lines(item)),
{
    lemma_keys();
    let t = seq![Seq::empty(), "[[item]]"@];
    let b = config::field_lines("label"@, item.label);
    let c = config::field_lines("path"@, item.path);
    let d = config::field_lines("exe"@, item.exe);
    let e = config::field_lines("app"@, item.app);
    let f = config::field_lines("icon"@, item.icon);
    let open = items.push(config::blank());
    assert(after_lines(items, t) == open) by {
        lemma_after_open(items);
        reveal_with_fuel(after_lines, 3);
        assert(t.drop_last().drop_last() =~= Seq::empty());
        assert(t.drop_last().last() == Seq::<char>::empty());
    }
    let x1 = ItemView { label: item.label, ..config::blank() };
    let x2 = ItemView { path: item.path, ..x1 };
    let x3 = ItemView { exe: item.exe, ..x2 };
    let x4 = ItemView { app: item.app, ..x3 };
    let x5 = ItemView { icon: item.icon, ..x4 };
    lemma_after_lines_concat(items, t, b);
    lemma_after_field(open, "label"@, item.label);
    assert(after_lines(items, t + b) =~= items.push(x1));
    lemma_after_lines_concat(items, t + b, c);
    lemma_after_field(items.push(x1), "path"@, item.path);
    assert(after_lines(items, t + b + c) =~= items.push(x2));
    lemma_after_lines_concat(items, t + b + c, d);
    lemma_after_field(items.push(x2), "exe"@, item.exe);
    assert(after_lines(items, t + b + c + d) =~= items.push(x3));
    lemma_after_lines_concat(items, t + b + c + d, e);
    lemma_after_field(items.push(x3), "app"@, item.app);
    assert(after_lines(items, t + b + c + d + e) =~= items.push(x4));
    lemma_after_lines_concat(items, t + b + c + d + e, f);
    lemma_after_field(items.push(x4), "icon"@, item.icon);
    assert(after_lines(items, t + b + c + d + e + f) =~= items.push(x5));
    assert(x5 =~= item);
    lemma_after_open(items);
    assert(facts::are_lines(t));
    lemma_are_lines_concat(t, b);
    lemma_are_lines_concat(t + b, c);
    lemma_are_lines_concat(t + b + c, d);
    lemma_are_lines_concat(t + b + c + d, e);
    lemma_are_lines_concat(t + b + c + d + e, f);
}

proof fn lemma_are_lines_concat(a: Seq<Seq<char>>, b: Seq<Seq<char>>)
    requires
        facts::are_lines(a),
        facts::are_lines(b),
    ensures
        facts::are_lines(a + b),
{
    assert forall|i: int| 0 <= i < (a + b).len() implies facts::is_line(#[trigger] (a + b)[i]) by {
        if i < a.len() {
            assert((a + b)[i] == a[i]);
        } else {
            assert((a + b)[i] == b[i - a.len()]);
        }
    }
}

proof fn lemma_after_body(items: Seq<ItemView>, more: Seq<ItemView>)
    ensures
        after_lines(items, config::body_lines(more)) == items + more,
        facts::are_lines(config::body_lines(more)),
    decreases more.len(),
{
    if more.len() == 0 {
        assert(items + more =~= items);
    } else {
        let front = more.drop_last();
        lemma_after_body(items, front);
        let a = config::body_lines(front);
        let b = config::item_lines(more.last());
        lemma_after_lines_concat(items, a, b);
        lemma_after_item(items + front, more.last());
        lemma_are_lines_concat(a, b);
        assert((items + front).push(more.last()) =~= items + more);
    }
}

proof fn lemma_comment_line(l: Seq<char>, items: Seq<ItemView>)
    requires
        l.len() > 0,
        l[0] == '#',
    ensures
        config::after_line(items, l) == items,
{
    assert(text::trim_front(l) == l);
    assert(text::trimmed(Seq::<char>::empty()) =~= Seq::<char>::empty());
}

proof fn lemma_header_line(l: Seq<char>)
    requires
        l.len() > 0,
        l[0] == '#',
        l.last() == '.' || l.last() == ')',
        facts::one_line_upto(l, l.len()),
    ensures
        facts::is_line(l),
{
    facts::lemma_one_line(l, l.len());
}

proof fn lemma_header_0()
    ensures
        facts::is_line("# FeatherDock config - edit then restart the dock."@),
        "# FeatherDock config - edit then restart the dock."@.len() > 0,
        "# FeatherDock config - edit then restart the dock."@[0] == '#',
{
    reveal_strlit("# FeatherDock config - edit then restart the dock.");
    reveal_with_fuel(facts::one_line_upto, 100);
    lemma_header_line("# FeatherDock config - edit then restart the dock."@);
}

proof fn lemma_header_1()
    ensures
        facts::is_line("# One [[item]] per icon. Provide `path` (file, folder, shortcut, or application)"@),
        "# One [[item]] per icon. Provide `path` (file, folder, shortcut, or application)"@.len() > 0,
        "# One [[item]] per icon. Provide `path` (file, folder, shortcut, or application)"@[0] == '#',
{
    reveal_strlit("# One [[item]] per icon. Provide `path` (file, folder, shortcut, or application)");
    reveal_with_fuel(facts::one_line_upto, 100);
    lemma_header_line("# One [[item]] per icon. Provide `path` (file, folder, shortcut, or application)"@);
}

proof fn lemma_header_2()
    ensures
        facts::is_line("# OR `app` (resolved via Windows \"App Paths\", e.g. chrome.exe)."@),
        "# OR `app` (resolved via Windows \"App Paths\", e.g. chrome.exe)."@.len() > 0,
        "# OR `app` (resolved via Windows \"App Paths\", e.g. chrome.exe)."@[0] == '#',
{
    reveal_strlit("# OR `app` (resolved via Windows \"App Paths\", e.g. chrome.exe).");
    reveal_with_fuel(facts::one_line_upto, 100);
    lemma_header_line("# OR `app` (resolved via Windows \"App Paths\", e.g. chrome.exe)."@);
}

proof fn lemma_header_3()
    ensures
        facts::is_line("# Legacy `exe` is still accepted. `label` and `icon` are optional."@),
        "# Legacy `exe` is still accepted. `label` and `icon` are optional."@.len() > 0,
        "# Legacy `exe` is still accepted. `label` and `icon` are optional."@[0] == '#',
{
    reveal_strlit("# Legacy `exe` is still accepted. `label` and `icon` are optional.");
    reveal_with_fuel(facts::one_line_upto, 100);
    lemma_header_line("# Legacy `exe` is still accepted. `label` and `icon` are optional."@);
}

proof fn lemma_header_4()
    ensures
        facts::is_line("# Backslashes in double-quoted paths must be doubled, e.g. \"C:\\\\Tools\\\\app.exe\"."@),
        "# Backslashes in double-quoted paths must be doubled, e.g. \"C:\\\\Tools\\\\app.exe\"."@.len() > 0,
        "# Backslashes in double-quoted paths must be doubled, e.g. \"C:\\\\Tools\\\\app.exe\"."@[0] == '#',
{
    reveal_strlit("# Backslashes in double-quoted paths must be doubled, e.g. \"C:\\\\Tools\\\\app.exe\".");
    reveal_with_fuel(facts::one_line_upto, 100);
    lemma_header_line("# Backslashes in double-quoted paths must be doubled, e.g. \"C:\\\\Tools\\\\app.exe\"."@);
}

/// The comment that a file starts with consists of lines and describes no item.
proof fn lemma_header()
    ensures
        facts::are_lines(config::header_lines()),
        config::items_of(config::header_lines()) == Seq::<ItemView>::empty(),
{
    let h = config::header_lines();
    lemma_header_0();
    lemma_header_1();
    lemma_header_2();
    lemma_header_3();
    lemma_header_4();
    let e = Seq::<ItemView>::empty();
    reveal_with_fuel(config::items_of, 6);
    assert(h.drop_last().drop_last().drop_last().drop_last().drop_last() =~= Seq::empty());
    lemma_comment_line(h[0], e);
    lemma_comment_line(h[1], e);
    lemma_comment_line(h[2], e);
    lemma_comment_line(h[3], e);
    lemma_comment_line(h[4], e);
}

/// What is written reads back: a file written for items describes exactly those items,
/// in the same order and with every value of each unchanged.
pub proof fn law_rendered_parses(items: Seq<ItemView>)
    ensures
        config::parsed(config::rendered(items)) == items,
{
    lemma_header();
    let h = config::header_lines();
    let b = config::body_lines(items);
    lemma_after_body(Seq::empty(), items);
    lemma_are_lines_concat(h, b);
    facts::lemma_lines_of_unlines(h + b);
    lemma_items_of_concat(h, b);
    assert(Seq::<ItemView>::empty() + items =~= items);
}

/// A carriage return at the end of a line makes no difference.
proof fn lemma_after_return(items: Seq<ItemView>, l: Seq<char>)
    requires
        facts::lacks(l, '\n'),
    ensures
        config::after_line(items, text::chomp(l)) == config::after_line(items, l),
{
    if l.len() > 0 && l.last() == '\r' {
        let s = l.drop_last();
        assert(l =~= s.push('\r'));
        lemma_trim_front_push(s, '\r');
        lemma_comment_push(s, None, false);
        let n = config::before_comment(s, None, false);
        lemma_before_comment_bounds(s, None, false);
        let ts = text::trim_front(s);
        if ts.len() > 0 && ts[0] == '#' {
            assert(config::uncommented(l) =~= config::uncommented(s));
        } else if n < s.len() {
            assert(l.take(n) =~= s.take(n));
            assert(config::uncommented(l) =~= config::uncommented(s));
        } else {
            assert(s.take(n) =~= s);
            assert(l.take(n + 1) =~= l);
            assert(config::uncommented(s) == s);
            assert(config::uncommented(l) == l);
            facts::lemma_trim_white_after(s, '\r');
        }
    }
}

proof fn lemma_trim_front_push(s: Seq<char>, c: char)
    requires
        text::is_white(c),
    ensures
        text::trim_front(s).len() > 0 ==> text::trim_front(s.push(c)).len() > 0 && text::trim_front(
            s.push(c),
        )[0] == text::trim_front(s)[0],
        text::trim_front(s).len() == 0 ==> text::trim_front(s.push(c)).len() == 0,
    decreases s.len(),
{
    if s.len() > 0 && text::is_white(s[0]) {
        lemma_trim_front_push(s.skip(1), c);
        assert(s.push(c).skip(1) =~= s.skip(1).push(c));
    } else if s.len() == 0 {
        assert(s.push(c).skip(1) =~= Seq::<char>::empty());
        assert(text::trim_front(s.push(c)) == text::trim_front(s.push(c).skip(1)));
    }
}

proof fn lemma_comment_push(s: Seq<char>, quote: Option<char>, escaped: bool)
    ensures
        ({
            let n = config::before_comment(s, quote, escaped);
            let m = config::before_comment(s.push('\r'), quote, escaped);
            if n < s.len() {
                m == n
            } else {
                m == n + 1
            }
        }),
    decreases s.len(),
{
    let t = s.push('\r');
    lemma_before_comment_bounds(s, quote, escaped);
    if s.len() == 0 {
        assert(t.skip(1) =~= Seq::<char>::empty());
        assert(config::before_comment(t.skip(1), quote, false) == 0);
    } else {
        let rest = s.skip(1);
        assert(t.skip(1) =~= rest.push('\r'));
        lemma_comment_push(rest, quote, false);
        lemma_comment_push(rest, quote, true);
        lemma_comment_push(rest, None, false);
        lemma_comment_push(rest, Some(s[0]), false);
        lemma_before_comment_bounds(rest, quote, false);
        lemma_before_comment_bounds(rest, quote, true);
        lemma_before_comment_bounds(rest, None, false);
        lemma_before_comment_bounds(rest, Some(s[0]), false);
    }
}

/// A line feed put at the end of a text makes no difference to its items.
proof fn lemma_parsed_fed(s: Seq<char>)
    ensures
        config::parsed(config::fed(s)) == config::parsed(s),
        config::fed(s).last() == '\n',
{
    if s.len() == 0 {
        let e = Seq::<char>::empty();
        facts::lemma_lines_after_feed(e, e);
        assert(e.push('\n') + e =~= config::fed(s));
        assert(text::lines(config::fed(s)) =~= seq![e]);
        lemma_after_open(Seq::empty());
        reveal_with_fuel(config::items_of, 2);
        assert(seq![e].drop_last() =~= Seq::empty());
    } else if s.last() != '\n' {
        facts::lemma_lines_push_feed(s);
        let ls = text::lines(s);
        let front = ls.drop_last();
        lemma_after_return(config::items_of(front), ls.last());
        assert(front.push(text::chomp(ls.last())).drop_last() =~= front);
    }
}

/// An added item is there: it stands behind the items that the text describes, whatever
/// that text is.
pub proof fn law_added_is_last(s: Seq<char>, label: Seq<char>, path: Seq<char>)
    ensures
        config::parsed(config::appended(s, label, path)) == config::parsed(s).push(
            config::new_item(label, path),
        ),
{
    let item = config::new_item(label, path);
    let ls = config::new_item_lines(label, path);
    assert(ls =~= config::item_lines(item));
    lemma_parsed_fed(s);
    lemma_after_item(config::parsed(s), item);
    facts::lemma_lines_concat(config::fed(s), text::unlines(ls));
    facts::lemma_lines_of_unlines(ls);
    lemma_items_of_concat(text::lines(config::fed(s)), ls);
}

/// An item is not added twice: once it has been added, an item launches its path.
pub proof fn law_added_is_found(s: Seq<char>, label: Seq<char>, path: Seq<char>)
    ensures
        config::has_launch(
            config::parsed(config::appended(s, label, path)),
            paths::key_of(path),
        ),
{
    law_added_is_last(s, label, path);
    let items = config::parsed(config::appended(s, label, path));
    assert(config::launches(items[items.len() - 1], paths::key_of(path)));
}

/// A removed item is gone, and no other: what is left launches other paths, and every
/// item that does is left.
pub proof fn law_others(items: Seq<ItemView>, key: Seq<char>)
    ensures
        !config::has_launch(config::others(items, key), key),
        forall|i: int|
            0 <= i < items.len() && !config::launches(#[trigger] items[i], key) ==> config::others(
                items,
                key,
            ).contains(items[i]),
        forall|x: ItemView| #[trigger]
            config::others(items, key).contains(x) ==> items.contains(x),
        config::others(items, key).len() <= items.len(),
    decreases items.len(),
{
    if items.len() > 0 {
        let front = items.drop_last();
        let o = config::others(front, key);
        let r = config::others(items, key);
        law_others(front, key);
        assert forall|i: int| 0 <= i < r.len() implies !config::launches(#[trigger] r[i], key) by {
            if i < o.len() {
                assert(r[i] == o[i]);
            }
        }
        assert forall|i: int|
            0 <= i < items.len() && !config::launches(#[trigger] items[i], key) implies r.contains(
            items[i],
        ) by {
            if i < front.len() {
                assert(front[i] == items[i]);
                assert(o.contains(front[i]));
                let k = choose|k: int| 0 <= k < o.len() && o[k] == front[i];
                assert(r[k] == items[i]);
            } else {
                assert(r[r.len() - 1] == items[i]);
            }
        }
        assert forall|x: ItemView| #[trigger] r.contains(x) implies items.contains(x) by {
            let k = choose|k: int| 0 <= k < r.len() && r[k] == x;
            if k < o.len() {
                assert(o.contains(o[k]));
                assert(front.contains(x));
                let m = choose|m: int| 0 <= m < front.len() && front[m] == x;
                assert(items[m] == x);
            } else {
                assert(items[items.len() - 1] == x);
            }
        }
    }
}

/// A removal leaves the other items as they are: afterwards the file describes exactly
/// the items that do not launch the path, in order and unchanged, and none that does.
pub proof fn law_removed_is_gone(s: Seq<char>, key: Seq<char>)
    ensures
        config::parsed(config::rendered(config::others(config::parsed(s), key)))
            == config::others(config::parsed(s), key),
        !config::has_launch(
            config::parsed(config::rendered(config::others(config::parsed(s), key))),
            key,
        ),
{
    law_others(config::parsed(s), key);
    law_rendered_parses(config::others(config::parsed(s), key));
}

} // verus!
