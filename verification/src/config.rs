//! The items file: a list of `[[item]]` tables with quoted values and comments, a
//! small subset of TOML, and the edits that the dock makes to it.

use vstd::prelude::*;
use vstd::slice::slice_subrange;
use crate::casing;
use crate::config_laws;
use crate::dock;
use crate::dock::DockItem;
use crate::facts;
use crate::paths;
use crate::quoting;
use crate::text;

verus! {

/// One `[[item]]` table.
pub struct ItemSpec {
    pub label: Option<String>,
    /// A file, folder, shortcut or application.
    pub path: Option<String>,
    /// An application to launch and to take the icon from.
    pub exe: Option<String>,
    /// A name under "App Paths", such as chrome.exe.
    pub app: Option<String>,
    /// Where to take the icon from, if not from what is launched.
    pub icon: Option<String>,
}

/// The items of the dock, in the order of the file.
pub struct Config {
    pub items: Vec<ItemSpec>,
}

/// What an `[[item]]` table says.
#[verifier::ext_equal]
pub struct ItemView {
    pub label: Option<Seq<char>>,
    pub path: Option<Seq<char>>,
    pub exe: Option<Seq<char>>,
    pub app: Option<Seq<char>>,
    pub icon: Option<Seq<char>>,
}

impl View for ItemSpec {
    type V = ItemView;

    open spec fn view(&self) -> ItemView {
        ItemView {
            label: text::opt_text(self.label),
            path: text::opt_text(self.path),
            exe: text::opt_text(self.exe),
            app: text::opt_text(self.app),
            icon: text::opt_text(self.icon),
        }
    }
}

impl View for Config {
    type V = Seq<ItemView>;

    open spec fn view(&self) -> Seq<ItemView> {
        views(self.items@)
    }
}

pub open spec fn views(items: Seq<ItemSpec>) -> Seq<ItemView> {
    Seq::new(items.len(), |i: int| items[i]@)
}

/// A table that says nothing.
pub open spec fn blank() -> ItemView {
    ItemView { label: None, path: None, exe: None, app: None, icon: None }
}

impl Default for ItemSpec {
    fn default() -> (r: ItemSpec)
        ensures
            r@ == blank(),
    {
        ItemSpec { label: None, path: None, exe: None, app: None, icon: None }
    }
}

/// How many characters of a line precede its comment: a number sign outside quotes
/// starts one; in double quotes a backslash hides the character behind it.
pub open spec fn before_comment(s: Seq<char>, quote: Option<char>, escaped: bool) -> int
    decreases s.len(),
{
    if s.len() == 0 {
        0
    } else {
        let c = s[0];
        let rest = s.skip(1);
        if escaped {
            1 + before_comment(rest, quote, false)
        } else if c == '\\' && quote == Some('"') {
            1 + before_comment(rest, quote, true)
        } else if c == '"' || c == '\'' {
            if quote == Some(c) {
                1 + before_comment(rest, None, false)
            } else if quote is None {
                1 + before_comment(rest, Some(c), false)
            } else {
                1 + before_comment(rest, quote, false)
            }
        } else if c == '#' && quote is None {
            0
        } else {
            1 + before_comment(rest, quote, false)
        }
    }
}

/// A line without its comment.
pub open spec fn uncommented(s: Seq<char>) -> Seq<char> {
    let t = text::trim_front(s);
    if t.len() > 0 && t[0] == '#' {
        seq![]
    } else {
        s.take(before_comment(s, None, false))
    }
}

/// `item` after one pair of a key and a value; unknown keys say nothing.
pub open spec fn with_field(item: ItemView, key: Seq<char>, value: Seq<char>) -> ItemView {
    if key == "label"@ {
        ItemView { label: Some(value), ..item }
    } else if key == "path"@ {
        ItemView { path: Some(value), ..item }
    } else if key == "exe"@ {
        ItemView { exe: Some(value), ..item }
    } else if key == "app"@ {
        ItemView { app: Some(value), ..item }
    } else if key == "icon"@ {
        ItemView { icon: Some(value), ..item }
    } else {
        item
    }
}

/// The items after one more line: `[[item]]` opens a table, a pair goes to the table
/// that is open, and anything else is passed over.
pub open spec fn after_line(items: Seq<ItemView>, raw: Seq<char>) -> Seq<ItemView> {
    let line = text::trimmed(uncommented(raw));
    if line.len() == 0 {
        items
    } else if line == "[[item]]"@ {
        items.push(blank())
    } else if line[0] == '[' {
        items
    } else {
        match text::cut(line, '=') {
            Some((k, v)) => if items.len() > 0 {
                items.drop_last().push(
                    with_field(items.last(), text::trimmed(k), quoting::rich_value(v)),
                )
            } else {
                items
            },
            None => items,
        }
    }
}

/// The items that these lines describe.
pub open spec fn items_of(ls: Seq<Seq<char>>) -> Seq<ItemView>
    decreases ls.len(),
{
    if ls.len() == 0 {
        seq![]
    } else {
        after_line(items_of(ls.drop_last()), ls.last())
    }
}

/// The items that a text describes.
pub open spec fn parsed(s: Seq<char>) -> Seq<ItemView> {
    items_of(text::lines(s))
}

/// The comment that a written file starts with.
pub open spec fn header_lines() -> Seq<Seq<char>> {
    seq![
        "# FeatherDock config - edit then restart the dock."@,
        "# One [[item]] per icon. Provide `path` (file, folder, shortcut, or application)"@,
        "# OR `app` (resolved via Windows \"App Paths\", e.g. chrome.exe)."@,
        "# Legacy `exe` is still accepted. `label` and `icon` are optional."@,
        "# Backslashes in double-quoted paths must be doubled, e.g. \"C:\\\\Tools\\\\app.exe\"."@,
    ]
}

/// The line for an optional value.
pub open spec fn field_lines(key: Seq<char>, value: Option<Seq<char>>) -> Seq<Seq<char>> {
    match value {
        Some(v) => seq![quoting::pair_line(key, v, true)],
        None => seq![],
    }
}

/// The lines for one item: one for each of its values.
pub open spec fn item_lines(item: ItemView) -> Seq<Seq<char>> {
    seq![Seq::empty(), "[[item]]"@] + field_lines("label"@, item.label) + field_lines(
        "path"@,
        item.path,
    ) + field_lines("exe"@, item.exe) + field_lines("app"@, item.app) + field_lines(
        "icon"@,
        item.icon,
    )
}

/// The lines for these items.
pub open spec fn body_lines(items: Seq<ItemView>) -> Seq<Seq<char>>
    decreases items.len(),
{
    if items.len() == 0 {
        seq![]
    } else {
        body_lines(items.drop_last()) + item_lines(items.last())
    }
}

/// The text of a file with these items.
pub open spec fn rendered(items: Seq<ItemView>) -> Seq<char> {
    text::unlines(header_lines() + body_lines(items))
}

/// What an item launches: its path, or else its executable.
pub open spec fn launch_of(item: ItemView) -> Option<Seq<char>> {
    if item.path is Some {
        item.path
    } else {
        item.exe
    }
}

/// `item` launches the path with this key.
pub open spec fn launches(item: ItemView, key: Seq<char>) -> bool {
    launch_of(item) is Some && paths::key_of(launch_of(item)->0) == key
}

/// Some item launches the path with this key.
pub open spec fn has_launch(items: Seq<ItemView>, key: Seq<char>) -> bool {
    exists|i: int| 0 <= i < items.len() && launches(#[trigger] items[i], key)
}

/// The items that do not launch the path with this key, in order.
pub open spec fn others(items: Seq<ItemView>, key: Seq<char>) -> Seq<ItemView>
    decreases items.len(),
{
    if items.len() == 0 {
        seq![]
    } else {
        let front = others(items.drop_last(), key);
        if launches(items.last(), key) {
            front
        } else {
            front.push(items.last())
        }
    }
}

/// A text that ends with a line feed, one added where there is none.
pub open spec fn fed(s: Seq<char>) -> Seq<char> {
    if s.len() > 0 && s.last() == '\n' {
        s
    } else {
        s.push('\n')
    }
}

/// An item that has a label and a path and nothing else.
pub open spec fn new_item(label: Seq<char>, path: Seq<char>) -> ItemView {
    ItemView { label: Some(label), path: Some(path), ..blank() }
}

/// The lines of an item that has a label and a path.
pub open spec fn new_item_lines(label: Seq<char>, path: Seq<char>) -> Seq<Seq<char>> {
    seq![
        Seq::empty(),
        "[[item]]"@,
        quoting::pair_line("label"@, label, true),
        quoting::pair_line("path"@, path, true),
    ]
}

/// The text of the file after an item is added to it.
pub open spec fn appended(s: Seq<char>, label: Seq<char>, path: Seq<char>) -> Seq<char> {
    fed(s) + text::unlines(new_item_lines(label, path))
}

/// The items of the file that these items of the dock make: those with a path.
pub open spec fn pinned_items(items: Seq<dock::ItemView>) -> Seq<ItemView>
    decreases items.len(),
{
    if items.len() == 0 {
        seq![]
    } else {
        let front = pinned_items(items.drop_last());
        match items.last().path {
            Some(p) => front.push(new_item(items.last().label, p)),
            None => front,
        }
    }
}

/// What a file that may be missing holds: without one, the comment alone.
pub open spec fn content_of(content: Option<Seq<char>>) -> Seq<char> {
    match content {
        Some(s) => s,
        None => text::unlines(header_lines()),
    }
}

/// An optional path with the one of this key replaced.
pub open spec fn swapped(field: Option<Seq<char>>, key: Seq<char>, new: Seq<char>) -> Option<
    Seq<char>,
> {
    match field {
        Some(v) => if paths::key_of(v) == key {
            Some(new)
        } else {
            field
        },
        None => None,
    }
}

/// A field that holds the path with this key.
pub open spec fn field_has(field: Option<Seq<char>>, key: Seq<char>) -> bool {
    field is Some && paths::key_of(field->0) == key
}

/// An item with the path of this key replaced wherever it launches it.
pub open spec fn relinked(item: ItemView, key: Seq<char>, new: Seq<char>) -> ItemView {
    ItemView { path: swapped(item.path, key, new), exe: swapped(item.exe, key, new), ..item }
}

pub open spec fn relinked_all(items: Seq<ItemView>, key: Seq<char>, new: Seq<char>) -> Seq<
    ItemView,
> {
    Seq::new(items.len(), |i: int| relinked(items[i], key, new))
}

/// Some item names the path with this key as its path or its executable.
pub open spec fn has_link(items: Seq<ItemView>, key: Seq<char>) -> bool {
    exists|i: int|
        0 <= i < items.len() && (field_has((#[trigger] items[i]).path, key) || field_has(
            items[i].exe,
            key,
        ))
}

pub proof fn lemma_views_push(items: Seq<ItemSpec>, x: ItemSpec)
    ensures
        views(items.push(x)) == views(items).push(x@),
{
    assert(views(items.push(x)) =~= views(items).push(x@));
}

/// Where the items file of a user is kept, given their application data directory.
pub fn config_path_from(appdata: &str) -> (r: String)
    ensures
        r@ == paths::joined(paths::joined(appdata@, "FeatherDock"@), "featherdock.toml"@),
{
    let dir = paths::join(appdata, "FeatherDock");
    paths::join(dir.as_str(), "featherdock.toml")
}

/// What two paths are compared by: backslashes alone, none at the end, lower case. A key is
/// its own key, and other spellings of the path have the same one.
pub fn path_key(path: &str) -> (r: String)
    ensures
        r@ == casing::lowercased(paths::plain_path(path@)),
        r@ == paths::key_of(path@),
        paths::in_key_form(r@),
        paths::key_of(r@) == r@,
        forall|q: Seq<char>| #[trigger]
            paths::respelled(path@, q) ==> paths::key_of(q) == r@,
{
    let t = paths::tidy(path);
    let r = casing::to_lowercase(t.as_str());
    proof {
        paths::lemma_plain_path(path@);
        paths::lemma_key_form(r@);
        assert forall|q: Seq<char>| #[trigger] paths::respelled(path@, q) implies paths::key_of(q)
            == r@ by {
            paths::law_key_ignores_spelling(path@, q);
        }
    }
    r
}

/// A text as it is written between double quotes.
pub fn quote(value: &str) -> (r: String)
    ensures
        r@ == quoting::quoted(value@, true),
{
    quoting::quote(value, true)
}

/// The value that a text writes.
pub fn unquote(s: &str) -> (r: String)
    ensures
        r@ == quoting::rich_value(s@),
{
    let v = text::chars_of(s);
    quoting::rich_unquote(&v)
}

/// A line without its comment.
pub fn strip_comment(s: &str) -> (r: String)
    ensures
        r@ == uncommented(s@),
{
    let v = text::chars_of(s);
    text::string_of(strip_comment_chars(&v))
}

fn starts_as_comment(s: &[char]) -> (r: bool)
    ensures
        r == ({
            let t = text::trim_front(s@);
            t.len() > 0 && t[0] == '#'
        }),
{
    let mut i: usize = 0;
    assert(s@.skip(0) =~= s@);
    while i < s.len() && text::is_whitespace(s[i])
        invariant
            i <= s@.len(),
            text::trim_front(s@) == text::trim_front(s@.skip(i as int)),
        decreases s@.len() - i,
    {
        assert(s@.skip(i as int).skip(1) =~= s@.skip(i as int + 1));
        i += 1;
    }
    i < s.len() && s[i] == '#'
}

fn strip_comment_chars(s: &[char]) -> (r: &[char])
    ensures
        r@ == uncommented(s@),
{
    if starts_as_comment(s) {
        let r = slice_subrange(s, 0, 0);
        assert(r@ =~= Seq::<char>::empty());
        return r;
    }
    let mut quote: Option<char> = None;
    let mut escaped: bool = false;
    let mut i: usize = 0;
    assert(s@.skip(0) =~= s@);
    while i < s.len()
        invariant
            i <= s@.len(),
            uncommented(s@) == s@.take(before_comment(s@, None, false)),
            before_comment(s@, None, false) == i + before_comment(s@.skip(i as int), quote, escaped),
        decreases s@.len() - i,
    {
        let ch = s[i];
        let ghost rest = s@.skip(i as int);
        assert(rest.skip(1) =~= s@.skip(i as int + 1));
        if escaped {
            escaped = false;
        } else if ch == '\\' && is_mark(quote, '"') {
            escaped = true;
        } else if ch == '"' || ch == '\'' {
            if is_mark(quote, ch) {
                quote = None;
            } else if quote.is_none() {
                quote = Some(ch);
            }
        } else if ch == '#' && quote.is_none() {
            let r = slice_subrange(s, 0, i);
            assert(r@ =~= s@.take(i as int));
            return r;
        }
        i += 1;
    }
    assert(s@.skip(i as int) =~= Seq::<char>::empty());
    assert(s@.take(i as int) =~= s@);
    s
}

fn is_mark(quote: Option<char>, c: char) -> (r: bool)
    ensures
        r == (quote == Some(c)),
{
    match quote {
        Some(q) => q == c,
        None => false,
    }
}

/// Sets the field that `key` names.
fn set_field(item: &mut ItemSpec, key: &[char], value: String)
    ensures
        final(item)@ == with_field(old(item)@, key@, value@),
{
    if text::spells(key, "label") {
        item.label = Some(value);
    } else if text::spells(key, "path") {
        item.path = Some(value);
    } else if text::spells(key, "exe") {
        item.exe = Some(value);
    } else if text::spells(key, "app") {
        item.app = Some(value);
    } else if text::spells(key, "icon") {
        item.icon = Some(value);
    }
}

/// Takes one more line into account.
fn read_line(items: &mut Vec<ItemSpec>, raw: &[char])
    ensures
        views(final(items)@) == after_line(views(old(items)@), raw@),
{
    let body = strip_comment_chars(raw);
    let line = text::trim(body);
    if line.len() == 0 {
        return;
    }
    if text::spells(line, "[[item]]") {
        let ghost was = items@;
        let fresh: ItemSpec = ItemSpec::default();
        items.push(fresh);
        proof {
            lemma_views_push(was, fresh);
        }
        return;
    }
    if line[0] == '[' {
        return;
    }
    if let Some((k, v)) = text::split_once(line, '=') {
        let value = quoting::rich_unquote(v);
        let key = text::trim(k);
        match items.pop() {
            Some(it) => {
                let ghost front = items@;
                let mut it = it;
                set_field(&mut it, key, value);
                items.push(it);
                proof {
                    lemma_views_push(front, it);
                    assert(views(old(items)@).drop_last() =~= views(front));
                }
            },
            None => {},
        }
    }
}

/// The items that a text describes.
pub fn parse(text: &str) -> (r: Config)
    ensures
        r@ == parsed(text@),
{
    let chars = text::chars_of(text);
    let ls = text::split_lines(&chars);
    let ghost all = text::lines(text@);
    let mut items: Vec<ItemSpec> = Vec::new();
    let mut i: usize = 0;
    assert(views(items@) =~= items_of(all.take(0)));
    while i < ls.len()
        invariant
            i <= ls@.len(),
            text::rows(ls@) == all,
            views(items@) == items_of(all.take(i as int)),
        decreases ls@.len() - i,
    {
        read_line(&mut items, &ls[i]);
        proof {
            assert(all.take(i as int + 1).drop_last() =~= all.take(i as int));
            assert(all.take(i as int + 1).last() == ls@[i as int]@);
        }
        i += 1;
    }
    assert(all.take(i as int) =~= all);
    Config { items }
}

fn add_header(out: &mut Vec<char>)
    ensures
        final(out)@ == old(out)@ + text::unlines(header_lines()),
{
    let ghost start = out@;
    text::add_line(out, "# FeatherDock config - edit then restart the dock.");
    text::add_line(
        out,
        "# One [[item]] per icon. Provide `path` (file, folder, shortcut, or application)",
    );
    text::add_line(out, "# OR `app` (resolved via Windows \"App Paths\", e.g. chrome.exe).");
    text::add_line(out, "# Legacy `exe` is still accepted. `label` and `icon` are optional.");
    text::add_line(
        out,
        "# Backslashes in double-quoted paths must be doubled, e.g. \"C:\\\\Tools\\\\app.exe\".",
    );
    proof {
        let h = header_lines();
        let l0 = Seq::<Seq<char>>::empty();
        text::lemma_unlines_push(l0, h[0]);
        text::lemma_unlines_push(l0.push(h[0]), h[1]);
        text::lemma_unlines_push(l0.push(h[0]).push(h[1]), h[2]);
        text::lemma_unlines_push(l0.push(h[0]).push(h[1]).push(h[2]), h[3]);
        text::lemma_unlines_push(l0.push(h[0]).push(h[1]).push(h[2]).push(h[3]), h[4]);
        assert(h =~= l0.push(h[0]).push(h[1]).push(h[2]).push(h[3]).push(h[4]));
        assert(out@ =~= start + text::unlines(h));
    }
}

fn add_field(out: &mut Vec<char>, key: &str, value: &Option<String>)
    ensures
        final(out)@ == old(out)@ + text::unlines(field_lines(key@, text::opt_text(*value))),
{
    let ghost start = out@;
    match value {
        Some(v) => {
            quoting::add_pair(out, key, v.as_str(), true);
            proof {
                let l = quoting::pair_line(key@, v@, true);
                text::lemma_unlines_push(Seq::empty(), l);
                assert(field_lines(key@, text::opt_text(*value)) =~= Seq::empty().push(l));
                assert(out@ =~= start + text::unlines(Seq::empty().push(l)));
            }
        },
        None => {
            assert(out@ =~= start + text::unlines(Seq::empty()));
        },
    }
}

fn add_table(out: &mut Vec<char>)
    ensures
        final(out)@ == old(out)@ + text::unlines(seq![Seq::empty(), "[[item]]"@]),
{
    let ghost start = out@;
    out.push('\n');
    text::add_line(out, "[[item]]");
    proof {
        let e = Seq::<Seq<char>>::empty();
        text::lemma_unlines_push(e, Seq::empty());
        text::lemma_unlines_push(e.push(Seq::empty()), "[[item]]"@);
        assert(e.push(Seq::empty()).push("[[item]]"@) =~= seq![Seq::empty(), "[[item]]"@]);
        assert(out@ =~= start + text::unlines(seq![Seq::empty(), "[[item]]"@]));
    }
}

/// Appends the lines for one item.
pub fn write_spec(out: &mut Vec<char>, spec: &ItemSpec)
    ensures
        final(out)@ == old(out)@ + text::unlines(item_lines(spec@)),
{
    let ghost start = out@;
    add_table(out);
    add_field(out, "label", &spec.label);
    add_field(out, "path", &spec.path);
    add_field(out, "exe", &spec.exe);
    add_field(out, "app", &spec.app);
    add_field(out, "icon", &spec.icon);
    proof {
        let v = spec@;
        let a = seq![Seq::empty(), "[[item]]"@];
        let b = field_lines("label"@, v.label);
        let c = field_lines("path"@, v.path);
        let d = field_lines("exe"@, v.exe);
        let e = field_lines("app"@, v.app);
        let f = field_lines("icon"@, v.icon);
        facts::lemma_unlines_concat(a, b);
        facts::lemma_unlines_concat(a + b, c);
        facts::lemma_unlines_concat(a + b + c, d);
        facts::lemma_unlines_concat(a + b + c + d, e);
        facts::lemma_unlines_concat(a + b + c + d + e, f);
        assert(out@ =~= start + text::unlines(a + b + c + d + e + f));
    }
}

/// The text of a file with these items. It reads back as the same items.
pub fn render(config: &Config) -> (r: String)
    ensures
        r@ == rendered(config@),
        parsed(r@) == config@,
{
    proof {
        config_laws::law_rendered_parses(config@);
    }
    let mut out: Vec<char> = Vec::new();
    add_header(&mut out);
    let ghost all = config@;
    let mut i: usize = 0;
    proof {
        assert(body_lines(all.take(0)) =~= Seq::empty());
        assert(header_lines() + body_lines(all.take(0)) =~= header_lines());
    }
    while i < config.items.len()
        invariant
            i <= config.items@.len(),
            all == config@,
            out@ == text::unlines(header_lines() + body_lines(all.take(i as int))),
        decreases config.items@.len() - i,
    {
        write_spec(&mut out, &config.items[i]);
        proof {
            let front = all.take(i as int);
            let more = all.take(i as int + 1);
            assert(more.drop_last() =~= front);
            assert(more.last() == config.items@[i as int]@);
            facts::lemma_unlines_concat(header_lines() + body_lines(front), item_lines(more.last()));
            assert(header_lines() + body_lines(front) + item_lines(more.last()) =~= header_lines()
                + body_lines(more));
        }
        i += 1;
    }
    assert(all.take(i as int) =~= all);
    text::string_of(&out)
}

/// Why an item cannot be added.
pub enum AddError {
    /// There is nothing at this path.
    PathMissing(String),
}

impl AddError {
    /// The error in words.
    pub fn message(&self) -> (r: String)
        ensures
            self matches AddError::PathMissing(p) ==> r@ == "path does not exist: "@ + p@,
    {
        match self {
            AddError::PathMissing(p) => {
                let mut out = text::chars_of("path does not exist: ");
                text::add_text(&mut out, p.as_str());
                text::string_of(&out)
            },
        }
    }
}

/// What an item launches: its path, or else its executable.
pub fn item_path(spec: &ItemSpec) -> (r: Option<&String>)
    ensures
        r is Some <==> launch_of(spec@) is Some,
        r matches Some(p) ==> launch_of(spec@) == Some(p@),
{
    match &spec.path {
        Some(p) => Some(p),
        None => match &spec.exe {
            Some(p) => Some(p),
            None => None,
        },
    }
}

/// Whether an item launches the path with this key.
fn item_launches(spec: &ItemSpec, key: &str) -> (r: bool)
    ensures
        r == launches(spec@, key@),
{
    match item_path(spec) {
        Some(p) => {
            let k = path_key(p.as_str());
            text::same(k.as_str(), key)
        },
        None => false,
    }
}

fn some_item_launches(items: &Vec<ItemSpec>, key: &str) -> (r: bool)
    ensures
        r == has_launch(views(items@), key@),
{
    let mut i: usize = 0;
    while i < items.len()
        invariant
            i <= items@.len(),
            forall|j: int| 0 <= j < i ==> !launches(#[trigger] views(items@)[j], key@),
        decreases items@.len() - i,
    {
        if item_launches(&items[i], key) {
            assert(launches(views(items@)[i as int], key@));
            return true;
        }
        i += 1;
    }
    false
}

/// The text of the file after an item is added at the end, or nothing where an item
/// launches the same path already. Without a file the text starts with the comment. The
/// items that were there stay as they are.
pub fn add_item_at(content: Option<&str>, label: &str, item_path_value: &str) -> (r: Option<String>)
    ensures
        ({
            let s = content_of(text::opt_str(content));
            if has_launch(parsed(s), paths::key_of(item_path_value@)) {
                r is None
            } else {
                &&& r is Some
                &&& r->0@ == appended(s, label@, item_path_value@)
                &&& parsed(r->0@) == parsed(s).push(new_item(label@, item_path_value@))
            }
        }),
{
    let mut out: Vec<char> = Vec::new();
    match content {
        Some(s) => text::add_text(&mut out, s),
        None => add_header(&mut out),
    }
    let ghost s = content_of(text::opt_str(content));
    assert(out@ =~= s);
    let current = text::string_of(&out);
    let config = parse(current.as_str());
    let key = path_key(item_path_value);
    if some_item_launches(&config.items, key.as_str()) {
        return None;
    }
    if out.len() == 0 || out[out.len() - 1] != '\n' {
        out.push('\n');
    }
    let ghost base = out@;
    assert(base == fed(s));
    add_table(&mut out);
    quoting::add_pair(&mut out, "label", label, true);
    quoting::add_pair(&mut out, "path", item_path_value, true);
    proof {
        let t = seq![Seq::empty(), "[[item]]"@];
        let a = quoting::pair_line("label"@, label@, true);
        let b = quoting::pair_line("path"@, item_path_value@, true);
        text::lemma_unlines_push(t, a);
        text::lemma_unlines_push(t.push(a), b);
        assert(new_item_lines(label@, item_path_value@) =~= t.push(a).push(b));
        assert(out@ =~= appended(s, label@, item_path_value@));
        config_laws::law_added_is_last(s, label@, item_path_value@);
    }
    Some(text::string_of(&out))
}

/// Adds an item to the file: an error where there is nothing at its path, nothing where
/// an item launches the same path already, or else the new text of the file.
pub fn add_item(content: Option<&str>, label: &str, item_path_value: &str, exists: bool) -> (r:
    Result<Option<String>, AddError>)
    ensures
        !exists <==> r is Err,
        r matches Err(AddError::PathMissing(p)) ==> p@ == item_path_value@,
        r matches Ok(t) ==> ({
            let s = content_of(text::opt_str(content));
            if has_launch(parsed(s), paths::key_of(item_path_value@)) {
                t is None
            } else {
                &&& t is Some
                &&& t->0@ == appended(s, label@, item_path_value@)
                &&& parsed(t->0@) == parsed(s).push(new_item(label@, item_path_value@))
            }
        }),
{
    if !exists {
        return Err(AddError::PathMissing(text::copy_text(item_path_value)));
    }
    Ok(add_item_at(content, label, item_path_value))
}

fn copy_spec(spec: &ItemSpec) -> (r: ItemSpec)
    ensures
        r@ == spec@,
{
    ItemSpec {
        label: text::copy_opt(&spec.label),
        path: text::copy_opt(&spec.path),
        exe: text::copy_opt(&spec.exe),
        app: text::copy_opt(&spec.app),
        icon: text::copy_opt(&spec.icon),
    }
}

/// The text of the file without the items that launch this path, or nothing where there
/// is no file or no such item. The other items stay as they are.
pub fn remove_item(content: Option<&str>, item_path_value: &str) -> (r: Option<String>)
    ensures
        match content {
            Some(s) => if has_launch(parsed(s@), paths::key_of(item_path_value@)) {
                &&& r is Some
                &&& r->0@ == rendered(others(parsed(s@), paths::key_of(item_path_value@)))
                &&& parsed(r->0@) == others(parsed(s@), paths::key_of(item_path_value@))
            } else {
                r is None
            },
            None => r is None,
        },
{
    let s = match content {
        Some(s) => s,
        None => {
            return None;
        },
    };
    let config = parse(s);
    let key = path_key(item_path_value);
    if !some_item_launches(&config.items, key.as_str()) {
        return None;
    }
    let ghost all = config@;
    let mut kept: Vec<ItemSpec> = Vec::new();
    let mut i: usize = 0;
    assert(views(kept@) =~= others(all.take(0), key@));
    while i < config.items.len()
        invariant
            i <= config.items@.len(),
            all == config@,
            views(kept@) == others(all.take(i as int), key@),
        decreases config.items@.len() - i,
    {
        proof {
            assert(all.take(i as int + 1).drop_last() =~= all.take(i as int));
            assert(all.take(i as int + 1).last() == config.items@[i as int]@);
        }
        if !item_launches(&config.items[i], key.as_str()) {
            let ghost was = kept@;
            let c = copy_spec(&config.items[i]);
            kept.push(c);
            proof {
                lemma_views_push(was, c);
            }
        }
        i += 1;
    }
    assert(all.take(i as int) =~= all);
    let left = Config { items: kept };
    Some(render(&left))
}

/// The text of the file without the item at this index, or nothing where there is no
/// file or no such item. The other items stay as they are.
pub fn remove_item_at_index(content: Option<&str>, index: usize) -> (r: Option<String>)
    ensures
        match content {
            Some(s) => if index < parsed(s@).len() {
                &&& r is Some
                &&& r->0@ == rendered(parsed(s@).remove(index as int))
                &&& parsed(r->0@) == parsed(s@).remove(index as int)
            } else {
                r is None
            },
            None => r is None,
        },
{
    let s = match content {
        Some(s) => s,
        None => {
            return None;
        },
    };
    let mut config = parse(s);
    if index >= config.items.len() {
        return None;
    }
    let ghost all = config@;
    config.items.remove(index);
    assert(config@ =~= all.remove(index as int));
    Some(render(&config))
}

/// Replaces the path in a field that has this key, and says whether it did.
fn swap_field(field: &mut Option<String>, key: &str, new: &str) -> (r: bool)
    ensures
        r == field_has(text::opt_text(*old(field)), key@),
        text::opt_text(*final(field)) == swapped(text::opt_text(*old(field)), key@, new@),
{
    let hit: bool = match field {
        Some(v) => {
            let k = path_key(v.as_str());
            text::same(k.as_str(), key)
        },
        None => false,
    };
    if hit {
        *field = Some(text::copy_text(new));
    }
    hit
}

/// The text of the file with a path replaced wherever an item launches it, or nothing
/// where there is no file or no such item.
pub fn replace_launch_path(content: Option<&str>, old_path: &str, new_path: &str) -> (r: Option<
    String,
>)
    ensures
        match content {
            Some(s) => if has_link(parsed(s@), paths::key_of(old_path@)) {
                &&& r is Some
                &&& r->0@ == rendered(
                    relinked_all(parsed(s@), paths::key_of(old_path@), new_path@),
                )
                &&& parsed(r->0@) == relinked_all(
                    parsed(s@),
                    paths::key_of(old_path@),
                    new_path@,
                )
            } else {
                r is None
            },
            None => r is None,
        },
{
    let s = match content {
        Some(s) => s,
        None => {
            return None;
        },
    };
    let config = parse(s);
    let key = path_key(old_path);
    let ghost all = config@;
    let mut changed: bool = false;
    let mut out: Vec<ItemSpec> = Vec::new();
    let mut i: usize = 0;
    assert(views(out@) =~= relinked_all(all, key@, new_path@).take(0));
    while i < config.items.len()
        invariant
            i <= config.items@.len(),
            all == config@,
            changed <==> exists|j: int|
                0 <= j < i && (field_has((#[trigger] all[j]).path, key@) || field_has(
                    all[j].exe,
                    key@,
                )),
            views(out@) == relinked_all(all, key@, new_path@).take(i as int),
        decreases config.items@.len() - i,
    {
        let mut c = copy_spec(&config.items[i]);
        let ghost item = all[i as int];
        let a: bool = swap_field(&mut c.path, key.as_str(), new_path);
        let b: bool = swap_field(&mut c.exe, key.as_str(), new_path);
        if a || b {
            changed = true;
        }
        let ghost was = out@;
        out.push(c);
        proof {
            lemma_views_push(was, c);
            assert(c@ =~= relinked(item, key@, new_path@));
            assert(relinked_all(all, key@, new_path@).take(i as int + 1) =~= relinked_all(
                all,
                key@,
                new_path@,
            ).take(i as int).push(relinked(item, key@, new_path@)));
        }
        i += 1;
    }
    assert(relinked_all(all, key@, new_path@).take(i as int) =~= relinked_all(
        all,
        key@,
        new_path@,
    ));
    if !changed {
        return None;
    }
    let next = Config { items: out };
    Some(render(&next))
}

/// Whether the file of an earlier version is to be taken over: there is one, there is
/// none in its new place, and the two places differ.
pub fn needs_migration(target_exists: bool, legacy_exists: bool, same_place: bool) -> (r: bool)
    ensures
        r <==> !target_exists && legacy_exists && !same_place,
{
    !(target_exists || !legacy_exists || same_place)
}

/// The text of a file with the items of the dock that have a path.
pub fn write_default(items: &Vec<DockItem>) -> (r: String)
    ensures
        r@ == rendered(pinned_items(dock::item_views(items@))),
        parsed(r@) == pinned_items(dock::item_views(items@)),
{
    let ghost all = dock::item_views(items@);
    let mut specs: Vec<ItemSpec> = Vec::new();
    let mut i: usize = 0;
    assert(views(specs@) =~= pinned_items(all.take(0)));
    while i < items.len()
        invariant
            i <= items@.len(),
            all == dock::item_views(items@),
            views(specs@) == pinned_items(all.take(i as int)),
        decreases items@.len() - i,
    {
        proof {
            assert(all.take(i as int + 1).drop_last() =~= all.take(i as int));
            assert(all.take(i as int + 1).last() == items@[i as int]@);
        }
        match &items[i].path {
            Some(p) => {
                let ghost was = specs@;
                let spec = ItemSpec {
                    label: Some(text::copy_text(items[i].label.as_str())),
                    path: Some(text::copy_text(p.as_str())),
                    exe: None,
                    app: None,
                    icon: None,
                };
                specs.push(spec);
                proof {
                    lemma_views_push(was, spec);
                }
            },
            None => {},
        }
        i += 1;
    }
    assert(all.take(i as int) =~= all);
    let config = Config { items: specs };
    render(&config)
}

} // verus!
