//! The programs on the desktop, and the file that remembers them between openings of the
//! drawer.

use vstd::prelude::*;
use crate::casing;
use crate::config;
use crate::content;
use crate::content::ContentKind;
use crate::numbers;
use crate::order;
use crate::path_order;
use crate::paths;
use crate::text;

verus! {

/// How long a remembered scan is good for.
pub const CACHE_TTL_SECS: u64 = 300;

/// One thing on the desktop.
#[derive(Debug)]
pub struct DesktopEntry {
    pub label: String,
    pub key: String,
    /// Its path, where it is a file.
    pub path: Option<String>,
    /// The handle by which the shell knows it, where it is not.
    pub pidl: Option<isize>,
    pub kind: ContentKind,
}

pub ghost struct EntryView {
    pub label: Seq<char>,
    pub key: Seq<char>,
    pub path: Option<Seq<char>>,
    pub pidl: Option<isize>,
    pub kind: ContentKind,
}

impl View for DesktopEntry {
    type V = EntryView;

    open spec fn view(&self) -> EntryView {
        EntryView {
            label: self.label@,
            key: self.key@,
            path: text::opt_text(self.path),
            pidl: self.pidl,
            kind: self.kind,
        }
    }
}

pub open spec fn views(v: Seq<DesktopEntry>) -> Seq<EntryView> {
    v.map_values(|e: DesktopEntry| e@)
}

/// A file that runs a program or points to one.
pub open spec fn is_program(e: EntryView) -> bool {
    e.path is Some && (e.kind == ContentKind::Application || e.kind == ContentKind::Shortcut)
}

/// The programs among these.
pub open spec fn programs(es: Seq<EntryView>) -> Seq<EntryView>
    decreases es.len(),
{
    if es.len() == 0 {
        seq![]
    } else if is_program(es.last()) {
        programs(es.drop_last()).push(es.last())
    } else {
        programs(es.drop_last())
    }
}

pub open spec fn by_label() -> spec_fn(EntryView, EntryView) -> bool {
    |a: EntryView, b: EntryView|
        text::before(casing::lowercased(a.label), casing::lowercased(b.label))
}

/// These in the order of their labels; letter case does not matter.
pub open spec fn sorted(es: Seq<EntryView>) -> Seq<EntryView> {
    order::arranged(es, by_label())
}

pub open spec fn has_key(es: Seq<EntryView>, key: Seq<char>) -> bool {
    exists|i: int| 0 <= i < es.len() && (#[trigger] es[i]).key == key
}

/// These, and those of the others whose key is not there yet.
pub open spec fn with_missing(es: Seq<EntryView>, more: Seq<EntryView>) -> Seq<EntryView>
    decreases more.len(),
{
    if more.len() == 0 {
        es
    } else {
        let front = with_missing(es, more.drop_last());
        if has_key(front, more.last().key) {
            front
        } else {
            front.push(more.last())
        }
    }
}

/// How a character is written in the file.
pub open spec fn escape_of(c: char) -> Seq<char> {
    if c == '\\' {
        seq!['\\', '\\']
    } else if c == '\t' {
        seq!['\\', 't']
    } else if c == '\n' {
        seq!['\\', 'n']
    } else if c == '\r' {
        seq!['\\', 'r']
    } else {
        seq![c]
    }
}

/// How a text is written in the file.
pub open spec fn escaped(s: Seq<char>) -> Seq<char>
    decreases s.len(),
{
    if s.len() == 0 {
        seq![]
    } else {
        escaped(s.drop_last()) + escape_of(s.last())
    }
}

/// What a backslash and `c` stand for.
pub open spec fn meaning_of(c: char) -> char {
    if c == 't' {
        '\t'
    } else if c == 'n' {
        '\n'
    } else if c == 'r' {
        '\r'
    } else {
        c
    }
}

/// The text that stands in the file as `s`.
pub open spec fn unescaped(s: Seq<char>) -> Seq<char>
    decreases s.len(),
{
    if s.len() == 0 {
        seq![]
    } else if s[0] != '\\' {
        seq![s[0]] + unescaped(s.skip(1))
    } else if s.len() == 1 {
        seq!['\\']
    } else {
        seq![meaning_of(s[1])] + unescaped(s.skip(2))
    }
}

pub open spec fn code_of(kind: ContentKind) -> Seq<char> {
    match kind {
        ContentKind::Application => "app"@,
        ContentKind::Shortcut => "shortcut"@,
        ContentKind::Folder => "folder"@,
        ContentKind::Image => "image"@,
        ContentKind::File => "file"@,
    }
}

pub open spec fn kind_for(code: Seq<char>) -> Option<ContentKind> {
    if code == "app"@ {
        Some(ContentKind::Application)
    } else if code == "shortcut"@ {
        Some(ContentKind::Shortcut)
    } else if code == "folder"@ {
        Some(ContentKind::Folder)
    } else if code == "image"@ {
        Some(ContentKind::Image)
    } else if code == "file"@ {
        Some(ContentKind::File)
    } else {
        None
    }
}

/// What the file says.
#[derive(Debug)]
pub struct CachedScan {
    /// When it was written, in seconds.
    pub written: Option<u64>,
    pub signature: Option<String>,
    pub entries: Vec<DesktopEntry>,
}

#[verifier::ext_equal]
pub ghost struct ScanView {
    pub written: Option<nat>,
    pub signature: Option<Seq<char>>,
    pub entries: Seq<EntryView>,
}

impl View for CachedScan {
    type V = ScanView;

    open spec fn view(&self) -> ScanView {
        ScanView {
            written: match self.written {
                Some(n) => Some(n as nat),
                None => None,
            },
            signature: text::opt_text(self.signature),
            entries: views(self.entries@),
        }
    }
}

/// What is known after a line whose pieces are `p`; nothing where the file is broken.
pub open spec fn after_line(was: ScanView, p: Seq<Seq<char>>) -> Option<ScanView> {
    if p[0] == "written"@ {
        if p.len() > 1 && numbers::number(p[1], u64::MAX as nat) is Some {
            Some(ScanView { written: numbers::number(p[1], u64::MAX as nat), ..was })
        } else {
            None
        }
    } else if p[0] == "signature"@ {
        Some(
            ScanView {
                signature: if p.len() > 1 {
                    Some(unescaped(p[1]))
                } else {
                    None
                },
                ..was
            },
        )
    } else if p[0] == "entry"@ {
        if p.len() > 4 && kind_for(p[4]) is Some {
            Some(
                ScanView {
                    entries: was.entries.push(
                        EntryView {
                            label: unescaped(p[1]),
                            key: unescaped(p[2]),
                            path: Some(unescaped(p[3])),
                            pidl: None,
                            kind: kind_for(p[4])->Some_0,
                        },
                    ),
                    ..was
                },
            )
        } else {
            None
        }
    } else {
        Some(was)
    }
}

pub open spec fn nothing_read() -> ScanView {
    ScanView { written: None, signature: None, entries: seq![] }
}

/// What the lines of the file say.
pub open spec fn read_lines(ls: Seq<Seq<char>>) -> Option<ScanView>
    decreases ls.len(),
{
    if ls.len() == 0 {
        Some(nothing_read())
    } else {
        match read_lines(ls.drop_last()) {
            Some(was) => after_line(was, text::pieces(ls.last(), '\t')),
            None => None,
        }
    }
}

/// What the file says.
pub open spec fn parsed(s: Seq<char>) -> Option<ScanView> {
    read_lines(text::lines(s))
}

pub open spec fn entry_line(e: EntryView) -> Seq<char> {
    "entry\t"@ + escaped(e.label) + seq!['\t'] + escaped(e.key) + seq!['\t'] + escaped(
        e.path->Some_0,
    ) + seq!['\t'] + code_of(e.kind)
}

/// The lines for the files among these.
pub open spec fn entry_lines(es: Seq<EntryView>) -> Seq<Seq<char>>
    decreases es.len(),
{
    if es.len() == 0 {
        seq![]
    } else if es.last().path is Some {
        entry_lines(es.drop_last()).push(entry_line(es.last()))
    } else {
        entry_lines(es.drop_last())
    }
}

pub open spec fn cache_lines(seconds: nat, signature: Seq<char>, es: Seq<EntryView>) -> Seq<
    Seq<char>,
> {
    seq![
        "# FeatherDock drawer scan cache"@,
        "written\t"@ + numbers::decimal(seconds),
        "signature\t"@ + escaped(signature),
    ] + entry_lines(es)
}

/// The file that remembers a scan.
pub open spec fn rendered(seconds: nat, signature: Seq<char>, es: Seq<EntryView>) -> Seq<char> {
    text::unlines(cache_lines(seconds, signature, es))
}

/// A scan that was written at this time is still good; the times are in nanoseconds.
pub open spec fn fresh(written: nat, now: nat, cached: Seq<char>, current: Seq<char>) -> bool {
    cached == current && written <= now && now - written <= CACHE_TTL_SECS * 1_000_000_000
}

/// Those of these that are still there.
pub open spec fn still_there(es: Seq<EntryView>, present: Seq<bool>) -> Seq<EntryView>
    decreases es.len(),
{
    if es.len() == 0 {
        seq![]
    } else if present.last() {
        still_there(es.drop_last(), present.drop_last()).push(es.last())
    } else {
        still_there(es.drop_last(), present.drop_last())
    }
}

/// Whether an entry belongs in the drawer.
pub fn is_drawer_program(entry: &DesktopEntry) -> (r: bool)
    ensures
        r == is_program(entry@),
{
    entry.path.is_some() && (entry.kind == ContentKind::Application || entry.kind
        == ContentKind::Shortcut)
}

fn label_before(a: &DesktopEntry, b: &DesktopEntry) -> (r: bool)
    ensures
        r == by_label()(a@, b@),
{
    let x = text::chars_of(casing::to_lowercase(a.label.as_str()).as_str());
    let y = text::chars_of(casing::to_lowercase(b.label.as_str()).as_str());
    text::is_before(&x, &y)
}

/// Puts entries in the order of their labels; letter case does not matter, and entries
/// that differ in nothing else keep their order.
pub fn sort_entries(entries: &mut Vec<DesktopEntry>)
    ensures
        views(final(entries)@) == sorted(views(old(entries)@)),
{
    let mut all: Vec<DesktopEntry> = Vec::new();
    std::mem::swap(&mut all, entries);
    let ghost was = all@;
    let ghost lt = |a: DesktopEntry, b: DesktopEntry| by_label()(a@, b@);
    let mut r = order::stable_sort(all, label_before, Ghost(lt));
    proof {
        order::lemma_arranged_map(was, lt, |e: DesktopEntry| e@, by_label());
    }
    std::mem::swap(&mut r, entries);
}

fn key_listed(entries: &Vec<DesktopEntry>, key: &str) -> (r: bool)
    ensures
        r == has_key(views(entries@), key@),
{
    let mut i: usize = 0;
    while i < entries.len()
        invariant
            i <= entries@.len(),
            forall|j: int| 0 <= j < i ==> #[trigger] views(entries@)[j].key != key@,
        decreases entries@.len() - i,
    {
        if text::same(entries[i].key.as_str(), key) {
            assert(views(entries@)[i as int].key == key@);
            return true;
        }
        i += 1;
    }
    false
}

/// Adds those of the additions whose key is not there yet.
pub fn append_missing_entries(entries: &mut Vec<DesktopEntry>, additions: Vec<DesktopEntry>)
    ensures
        views(final(entries)@) == with_missing(views(old(entries)@), views(additions@)),
{
    let ghost start = views(entries@);
    let ghost all = views(additions@);
    let n: usize = additions.len();
    let mut rest = order::reversed(additions);
    let mut i: usize = 0;
    assert(all.take(0) =~= seq![]);
    while i < n
        invariant
            n == all.len(),
            all == views(additions@),
            i <= n,
            rest@.len() == n - i,
            rest@ == additions@.skip(i as int).reverse(),
            views(entries@) == with_missing(start, all.take(i as int)),
        decreases n - i,
    {
        let ghost was = rest@;
        match rest.pop() {
            Some(e) => {
                proof {
                    assert(was.last() == additions@[i as int]);
                    assert(rest@ =~= additions@.skip(i as int + 1).reverse());
                    assert(all.take(i as int + 1).drop_last() =~= all.take(i as int));
                    assert(all.take(i as int + 1).last() == e@);
                }
                if !key_listed(entries, e.key.as_str()) {
                    let ghost before = entries@;
                    entries.push(e);
                    assert(views(entries@) =~= views(before).push(e@));
                }
                i += 1;
            },
            None => {
                return ;
            },
        }
    }
    assert(all.take(i as int) =~= all);
}

/// The programs among entries.
pub fn drawer_programs(entries: Vec<DesktopEntry>) -> (r: Vec<DesktopEntry>)
    ensures
        views(r@) == programs(views(entries@)),
{
    let ghost all = views(entries@);
    let n: usize = entries.len();
    let mut rest = order::reversed(entries);
    let mut out: Vec<DesktopEntry> = Vec::new();
    let mut i: usize = 0;
    assert(all.take(0) =~= seq![]);
    assert(views(out@) =~= seq![]);
    while i < n
        invariant
            n == all.len(),
            all == views(entries@),
            i <= n,
            rest@.len() == n - i,
            rest@ == entries@.skip(i as int).reverse(),
            views(out@) == programs(all.take(i as int)),
        decreases n - i,
    {
        let ghost was = rest@;
        match rest.pop() {
            Some(e) => {
                proof {
                    assert(was.last() == entries@[i as int]);
                    assert(rest@ =~= entries@.skip(i as int + 1).reverse());
                    assert(all.take(i as int + 1).drop_last() =~= all.take(i as int));
                    assert(all.take(i as int + 1).last() == e@);
                }
                if is_drawer_program(&e) {
                    let ghost before = out@;
                    out.push(e);
                    assert(views(out@) =~= views(before).push(e@));
                }
                i += 1;
            },
            None => {
                return out;
            },
        }
    }
    assert(all.take(i as int) =~= all);
    out
}

/// What the drawer shows of a new scan: the programs in the order of their labels, and
/// the places that it always shows.
pub open spec fn scan_shown(scanned: Seq<EntryView>, places: Seq<EntryView>) -> Seq<EntryView> {
    sorted(with_missing(programs(sorted(scanned)), places))
}

/// What the drawer shows of a new scan.
pub fn scan_programs(scanned: Vec<DesktopEntry>, places: Vec<DesktopEntry>) -> (r: Vec<
    DesktopEntry,
>)
    ensures
        views(r@) == scan_shown(views(scanned@), views(places@)),
{
    let mut all = scanned;
    sort_entries(&mut all);
    let mut out = drawer_programs(all);
    append_missing_entries(&mut out, places);
    sort_entries(&mut out);
    out
}

/// What the drawer shows of a remembered scan.
pub fn cached_programs(cached: Vec<DesktopEntry>, places: Vec<DesktopEntry>) -> (r: Vec<
    DesktopEntry,
>)
    ensures
        views(r@) == sorted(with_missing(views(cached@), views(places@))),
{
    let mut out = cached;
    append_missing_entries(&mut out, places);
    sort_entries(&mut out);
    out
}

/// A place that the drawer always shows.
#[derive(Clone, Copy, Debug, PartialEq, Eq, Structural)]
pub enum Place {
    Computer,
    RecycleBin,
    ControlPanel,
}

pub open spec fn place_key(p: Place) -> Seq<char> {
    match p {
        Place::Computer => "knownfolder:computer"@,
        Place::RecycleBin => "knownfolder:recycle-bin"@,
        Place::ControlPanel => "knownfolder:control-panel"@,
    }
}

pub open spec fn place_label(p: Place) -> Seq<char> {
    match p {
        Place::Computer => "此电脑"@,
        Place::RecycleBin => "回收站"@,
        Place::ControlPanel => "控制面板"@,
    }
}

/// The entry for a place, under the names that the shell has for it or else our own.
pub fn required_virtual_entry(
    place: Place,
    label: Option<String>,
    key: Option<String>,
    pidl: isize,
) -> (r: DesktopEntry)
    ensures
        r@ == (EntryView {
            label: match text::opt_text(label) {
                Some(s) => s,
                None => place_label(place),
            },
            key: match text::opt_text(key) {
                Some(s) => s,
                None => place_key(place),
            },
            path: None,
            pidl: Some(pidl),
            kind: ContentKind::Folder,
        }),
{
    let label: String = match label {
        Some(s) => s,
        None => match place {
            Place::Computer => text::copy_text("此电脑"),
            Place::RecycleBin => text::copy_text("回收站"),
            Place::ControlPanel => text::copy_text("控制面板"),
        },
    };
    let key: String = match key {
        Some(s) => s,
        None => match place {
            Place::Computer => text::copy_text("knownfolder:computer"),
            Place::RecycleBin => text::copy_text("knownfolder:recycle-bin"),
            Place::ControlPanel => text::copy_text("knownfolder:control-panel"),
        },
    };
    DesktopEntry { label, key, path: None, pidl: Some(pidl), kind: ContentKind::Folder }
}

/// The entry for a thing that the shell shows; none where it has no name. A file has its
/// path; anything else is known by its parsing name.
pub open spec fn found_entry(
    label: Option<Seq<char>>,
    path: Option<Seq<char>>,
    is_dir: bool,
    parsing: Option<Seq<char>>,
    pidl: isize,
) -> Option<EntryView> {
    match label {
        None => None,
        Some(l) => Some(
            if path is Some && path->Some_0.len() > 0 {
                EntryView {
                    label: l,
                    key: paths::key_of(path->Some_0),
                    path,
                    pidl: None,
                    kind: content::kind_of(path->Some_0, is_dir),
                }
            } else {
                EntryView {
                    label: l,
                    key: match parsing {
                        Some(p) => p,
                        None => "virt:"@ + l,
                    },
                    path: None,
                    pidl: Some(pidl),
                    kind: ContentKind::Folder,
                }
            },
        ),
    }
}

/// The entry for a thing that the shell shows.
pub fn entry_from_names(
    label: Option<String>,
    path: Option<String>,
    is_dir: bool,
    parsing: Option<String>,
    pidl: isize,
) -> (r: Option<DesktopEntry>)
    ensures
        ({
            let made = found_entry(
                text::opt_text(label),
                text::opt_text(path),
                is_dir,
                text::opt_text(parsing),
                pidl,
            );
            match r {
                Some(e) => made == Some(e@),
                None => made is None,
            }
        }),
{
    let label: String = match label {
        Some(l) => l,
        None => {
            return None;
        },
    };
    match path {
        Some(p) => {
            let chars = text::chars_of(p.as_str());
            if chars.len() > 0 {
                let kind = content::classify_path(p.as_str(), is_dir);
                let key = config::path_key(p.as_str());
                return Some(DesktopEntry { label, key, path: Some(p), pidl: None, kind });
            }
        },
        None => {},
    }
    let key: String = match parsing {
        Some(p) => p,
        None => {
            let mut out = text::chars_of("virt:");
            text::add_text(&mut out, label.as_str());
            text::string_of(&out)
        },
    };
    Some(DesktopEntry { label, key, path: None, pidl: Some(pidl), kind: ContentKind::Folder })
}

fn add_escaped(out: &mut Vec<char>, value: &str)
    ensures
        final(out)@ == old(out)@ + escaped(value@),
{
    let ghost start = out@;
    let v = text::chars_of(value);
    let mut i: usize = 0;
    assert(v@.take(0) =~= seq![]);
    assert(out@ =~= start + escaped(v@.take(0)));
    while i < v.len()
        invariant
            i <= v@.len(),
            out@ == start + escaped(v@.take(i as int)),
        decreases v@.len() - i,
    {
        let ghost was = out@;
        let c: char = v[i];
        if c == '\\' {
            out.push('\\');
            out.push('\\');
        } else if c == '\t' {
            out.push('\\');
            out.push('t');
        } else if c == '\n' {
            out.push('\\');
            out.push('n');
        } else if c == '\r' {
            out.push('\\');
            out.push('r');
        } else {
            out.push(c);
        }
        proof {
            assert(out@ =~= was + escape_of(c));
            assert(v@.take(i as int + 1).drop_last() =~= v@.take(i as int));
            assert(out@ =~= start + escaped(v@.take(i as int + 1)));
        }
        i += 1;
    }
    assert(v@.take(i as int) =~= v@);
}

/// A text as it is written in the file.
pub fn escape(value: &str) -> (r: String)
    ensures
        r@ == escaped(value@),
{
    let mut out: Vec<char> = Vec::new();
    add_escaped(&mut out, value);
    assert(out@ =~= escaped(value@));
    text::string_of(&out)
}

fn unescape_chars(v: &[char]) -> (r: String)
    ensures
        r@ == unescaped(v@),
{
    let mut out: Vec<char> = Vec::new();
    let mut i: usize = 0;
    assert(v@.skip(0) =~= v@);
    assert(out@ + unescaped(v@.skip(0)) =~= unescaped(v@));
    while i < v.len()
        invariant
            i <= v@.len(),
            out@ + unescaped(v@.skip(i as int)) == unescaped(v@),
        decreases v@.len() - i,
    {
        let c: char = v[i];
        let ghost was = out@;
        let ghost rest = v@.skip(i as int);
        if c != '\\' {
            out.push(c);
            proof {
                assert(rest.skip(1) =~= v@.skip(i as int + 1));
                assert(out@ + unescaped(rest.skip(1)) =~= was + unescaped(rest));
            }
            i += 1;
        } else if i + 1 == v.len() {
            out.push('\\');
            proof {
                assert(rest =~= seq!['\\']);
                assert(v@.skip(i as int + 1) =~= seq![]);
                assert(out@ + unescaped(v@.skip(i as int + 1)) =~= was + unescaped(rest));
            }
            i += 1;
        } else {
            let d: char = v[i + 1];
            if d == 't' {
                out.push('\t');
            } else if d == 'n' {
                out.push('\n');
            } else if d == 'r' {
                out.push('\r');
            } else {
                out.push(d);
            }
            proof {
                assert(rest.skip(2) =~= v@.skip(i as int + 2));
                assert(out@ + unescaped(rest.skip(2)) =~= was + unescaped(rest));
            }
            i += 2;
        }
    }
    assert(v@.skip(i as int) =~= seq![]);
    assert(out@ + Seq::<char>::empty() =~= out@);
    text::string_of(&out)
}

/// The text that stands in the file as `value`.
pub fn unescape(value: &str) -> (r: String)
    ensures
        r@ == unescaped(value@),
{
    let v = text::chars_of(value);
    unescape_chars(&v)
}

/// What a kind is called in the file.
pub fn kind_code(kind: ContentKind) -> (r: &'static str)
    ensures
        r@ == code_of(kind),
{
    match kind {
        ContentKind::Application => "app",
        ContentKind::Shortcut => "shortcut",
        ContentKind::Folder => "folder",
        ContentKind::Image => "image",
        ContentKind::File => "file",
    }
}

fn kind_of_code(code: &[char]) -> (r: Option<ContentKind>)
    ensures
        r == kind_for(code@),
{
    if text::spells(code, "app") {
        Some(ContentKind::Application)
    } else if text::spells(code, "shortcut") {
        Some(ContentKind::Shortcut)
    } else if text::spells(code, "folder") {
        Some(ContentKind::Folder)
    } else if text::spells(code, "image") {
        Some(ContentKind::Image)
    } else if text::spells(code, "file") {
        Some(ContentKind::File)
    } else {
        None
    }
}

/// The kind that is called so in the file.
pub fn kind_from_code(code: &str) -> (r: Option<ContentKind>)
    ensures
        r == kind_for(code@),
{
    let v = text::chars_of(code);
    kind_of_code(&v)
}

fn take_line(state: &mut CachedScan, line: &[char]) -> (r: bool)
    ensures
        ({
            let next = after_line(old(state)@, text::pieces(line@, '\t'));
            if r {
                next is Some && final(state)@ == next->Some_0
            } else {
                next is None
            }
        }),
{
    let ghost was = *state;
    let p = text::split_on(line, '\t');
    let ghost q = text::pieces(line@, '\t');
    proof {
        lemma_pieces_some(line@, '\t');
        assert(p@.len() == q.len());
        assert forall|k: int| 0 <= k < q.len() implies #[trigger] p@[k]@ == q[k] by {
            assert(text::rows(p@)[k] == p@[k]@);
        }
    }
    if text::spells(&p[0], "written") {
        if p.len() < 2 {
            return false;
        }
        match numbers::read_u64(&p[1]) {
            Some(n) => {
                state.written = Some(n);
                true
            },
            None => false,
        }
    } else if text::spells(&p[0], "signature") {
        if p.len() < 2 {
            state.signature = None;
        } else {
            state.signature = Some(unescape_chars(&p[1]));
        }
        true
    } else if text::spells(&p[0], "entry") {
        if p.len() < 5 {
            return false;
        }
        match kind_of_code(&p[4]) {
            Some(kind) => {
                let e = DesktopEntry {
                    label: unescape_chars(&p[1]),
                    key: unescape_chars(&p[2]),
                    path: Some(unescape_chars(&p[3])),
                    pidl: None,
                    kind,
                };
                let ghost view = e@;
                state.entries.push(e);
                proof {
                    assert(views(state.entries@) =~= views(was.entries@).push(view));
                    assert(state@ =~= after_line(was@, q)->Some_0);
                }
                true
            },
            None => false,
        }
    } else {
        true
    }
}

proof fn lemma_pieces_some(s: Seq<char>, c: char)
    ensures
        text::pieces(s, c).len() >= 1,
{
}

/// What the file says; nothing where it is broken.
pub fn parse_cache(content: &str) -> (r: Option<CachedScan>)
    ensures
        match r {
            Some(c) => parsed(content@) == Some(c@),
            None => parsed(content@) is None,
        },
{
    let chars = text::chars_of(content);
    let rows = text::split_lines(&chars);
    let ghost all = text::lines(content@);
    let mut state = CachedScan { written: None, signature: None, entries: Vec::new() };
    let mut i: usize = 0;
    proof {
        assert(all.take(0) =~= seq![]);
        assert(state@ =~= nothing_read());
    }
    while i < rows.len()
        invariant
            text::rows(rows@) == all,
            all == text::lines(content@),
            i <= rows@.len(),
            read_lines(all.take(i as int)) == Some(state@),
        decreases rows@.len() - i,
    {
        proof {
            assert(all.take(i as int + 1).drop_last() =~= all.take(i as int));
            assert(all.take(i as int + 1).last() == rows@[i as int]@);
        }
        let ok: bool = take_line(&mut state, &rows[i]);
        if !ok {
            proof {
                assert(read_lines(all.take(i as int + 1)) is None);
                lemma_broken(all, i as int + 1);
            }
            return None;
        }
        i += 1;
    }
    assert(all.take(i as int) =~= all);
    Some(state)
}

proof fn lemma_broken(ls: Seq<Seq<char>>, k: int)
    requires
        0 <= k <= ls.len(),
        read_lines(ls.take(k)) is None,
    ensures
        read_lines(ls) is None,
    decreases ls.len(),
{
    if k == ls.len() {
        assert(ls.take(k) =~= ls);
    } else {
        assert(ls.drop_last().take(k) =~= ls.take(k));
        lemma_broken(ls.drop_last(), k);
    }
}

/// The file that remembers a scan.
pub fn render_cache(seconds: u64, signature: &str, entries: &Vec<DesktopEntry>) -> (r: String)
    ensures
        r@ == rendered(seconds as nat, signature@, views(entries@)),
{
    let ghost es = views(entries@);
    let mut out: Vec<char> = Vec::new();
    let ghost head = seq![
        "# FeatherDock drawer scan cache"@,
        "written\t"@ + numbers::decimal(seconds as nat),
        "signature\t"@ + escaped(signature@),
    ];
    text::add_line(&mut out, "# FeatherDock drawer scan cache");
    text::add_text(&mut out, "written\t");
    numbers::add_decimal(&mut out, seconds);
    out.push('\n');
    text::add_text(&mut out, "signature\t");
    add_escaped(&mut out, signature);
    out.push('\n');
    proof {
        reveal_with_fuel(text::unlines, 4);
        assert(head.drop_last() =~= seq![head[0], head[1]]);
        assert(head.drop_last().drop_last() =~= seq![head[0]]);
        assert(head.drop_last().drop_last().drop_last() =~= seq![]);
        assert(out@ =~= text::unlines(head));
        assert(head + entry_lines(es.take(0)) =~= head);
    }
    let mut i: usize = 0;
    while i < entries.len()
        invariant
            es == views(entries@),
            i <= entries@.len(),
            out@ == text::unlines(head + entry_lines(es.take(i as int))),
        decreases entries@.len() - i,
    {
        let ghost was = out@;
        proof {
            assert(es.take(i as int + 1).drop_last() =~= es.take(i as int));
            assert(es.take(i as int + 1).last() == entries@[i as int]@);
        }
        match &entries[i].path {
            Some(path) => {
                text::add_text(&mut out, "entry\t");
                add_escaped(&mut out, entries[i].label.as_str());
                out.push('\t');
                add_escaped(&mut out, entries[i].key.as_str());
                out.push('\t');
                add_escaped(&mut out, path.as_str());
                out.push('\t');
                text::add_text(&mut out, kind_code(entries[i].kind));
                out.push('\n');
                proof {
                    let line = entry_line(entries@[i as int]@);
                    assert(out@ =~= was + line.push('\n'));
                    text::lemma_unlines_push(head + entry_lines(es.take(i as int)), line);
                    assert((head + entry_lines(es.take(i as int))).push(line) =~= head
                        + entry_lines(es.take(i as int + 1)));
                }
            },
            None => {},
        }
        i += 1;
    }
    assert(es.take(i as int) =~= es);
    text::string_of(&out)
}

/// Whether a remembered scan is still good: the desktop is the same and little time has
/// passed. The times are in nanoseconds.
pub fn cache_is_fresh(written: u128, now: u128, cached: &str, current: &str) -> (r: bool)
    ensures
        r == fresh(written as nat, now as nat, cached@, current@),
{
    text::same(cached, current) && written <= now && now - written <= CACHE_TTL_SECS as u128
        * 1_000_000_000
}

/// What a remembered scan still gives: nothing where it is not good any more. Files that
/// are gone are left out.
pub fn usable_cache(
    cache: CachedScan,
    present: &Vec<bool>,
    now: u128,
    current: &str,
) -> (r: Option<Vec<DesktopEntry>>)
    requires
        present@.len() == cache.entries@.len(),
    ensures
        ({
            let good = cache.written is Some && cache.signature is Some && fresh(
                (cache.written->Some_0 * 1_000_000_000) as nat,
                now as nat,
                cache.signature->Some_0@,
                current@,
            );
            match r {
                Some(v) => good && views(v@) == still_there(views(cache.entries@), present@),
                None => !good,
            }
        }),
{
    let written: u64 = match cache.written {
        Some(n) => n,
        None => {
            return None;
        },
    };
    match &cache.signature {
        Some(s) => {
            if !cache_is_fresh(written as u128 * 1_000_000_000, now, s.as_str(), current) {
                return None;
            }
        },
        None => {
            return None;
        },
    }
    let entries = cache.entries;
    let ghost all = views(entries@);
    let n: usize = entries.len();
    let mut rest = order::reversed(entries);
    let mut out: Vec<DesktopEntry> = Vec::new();
    let mut i: usize = 0;
    assert(all.take(0) =~= seq![]);
    assert(views(out@) =~= seq![]);
    while i < n
        invariant
            n == all.len(),
            n == present@.len(),
            all == views(entries@),
            i <= n,
            rest@.len() == n - i,
            rest@ == entries@.skip(i as int).reverse(),
            views(out@) == still_there(all.take(i as int), present@.take(i as int)),
        decreases n - i,
    {
        let ghost was = rest@;
        match rest.pop() {
            Some(e) => {
                proof {
                    assert(was.last() == entries@[i as int]);
                    assert(rest@ =~= entries@.skip(i as int + 1).reverse());
                    assert(all.take(i as int + 1).drop_last() =~= all.take(i as int));
                    assert(present@.take(i as int + 1).drop_last() =~= present@.take(i as int));
                    assert(all.take(i as int + 1).last() == e@);
                }
                if present[i] {
                    let ghost before = out@;
                    out.push(e);
                    assert(views(out@) =~= views(before).push(e@));
                }
                i += 1;
            },
            None => {
                return Some(out);
            },
        }
    }
    assert(all.take(i as int) =~= all);
    assert(present@.take(i as int) =~= present@);
    Some(out)
}

/// The folder of the desktop in a home directory.
pub open spec fn desktop_of(home: Seq<char>) -> Seq<char> {
    paths::joined(home, "Desktop"@)
}

/// `folder` is the desktop of the home at index `k`, and of none before that.
pub open spec fn first_desktop(homes: Seq<Seq<char>>, k: int, folder: Seq<char>) -> bool {
    &&& 0 <= k < homes.len()
    &&& folder == desktop_of(homes[k])
    &&& forall|j: int|
        0 <= j < k ==> !path_order::same_path(desktop_of(#[trigger] homes[j]), folder)
}

/// `folder` is the desktop of a home, spelled as for the first that it belongs to.
pub open spec fn is_desktop(folder: Seq<char>, homes: Seq<Seq<char>>) -> bool {
    exists|k: int| first_desktop(homes, k, folder)
}

/// Each comes before all that follow it.
pub open spec fn rising(folders: Seq<Seq<char>>) -> bool {
    forall|i: int, j: int|
        0 <= i < j < folders.len() ==> path_order::sooner(
            #[trigger] folders[i],
            #[trigger] folders[j],
        )
}

/// `folder` is among these, however it is spelled.
pub open spec fn lists(folders: Seq<Seq<char>>, folder: Seq<char>) -> bool {
    exists|i: int| 0 <= i < folders.len() && path_order::same_path(#[trigger] folders[i], folder)
}

/// These are the desktops of the homes: each home has its own there, there is nothing else,
/// and each is there once, in order.
pub open spec fn are_desktops(folders: Seq<Seq<char>>, homes: Seq<Seq<char>>) -> bool {
    &&& forall|k: int| 0 <= k < homes.len() ==> lists(folders, desktop_of(#[trigger] homes[k]))
    &&& forall|i: int| 0 <= i < folders.len() ==> is_desktop(#[trigger] folders[i], homes)
    &&& rising(folders)
}

/// Puts a folder among others in order, unless it is there.
fn list_folder(out: &mut Vec<String>, folder: String)
    requires
        rising(text::texts(old(out)@)),
    ensures
        ({
            let was = text::texts(old(out)@);
            let now = text::texts(final(out)@);
            if lists(was, folder@) {
                now == was
            } else {
                &&& rising(now)
                &&& exists|at: int|
                    0 <= at <= was.len() && now == #[trigger] was.insert(at, folder@)
            }
        }),
{
    let ghost was = text::texts(out@);
    let f = path_order::route(folder.as_str());
    let mut at: usize = 0;
    while at < out.len()
        invariant
            at <= out@.len(),
            was == text::texts(out@),
            rising(was),
            text::rows(f@) == path_order::route_of(folder@),
            forall|i: int| 0 <= i < at ==> path_order::sooner(#[trigger] was[i], folder@),
        ensures
            at <= out@.len(),
            was == text::texts(out@),
            forall|i: int| 0 <= i < at ==> path_order::sooner(#[trigger] was[i], folder@),
            forall|i: int| at <= i < was.len() ==> path_order::sooner(folder@, #[trigger] was[i]),
        decreases out@.len() - at,
    {
        let g = path_order::route(out[at].as_str());
        assert(out@[at as int]@ == was[at as int]);
        if !path_order::is_ahead(&g, &f) {
            if !path_order::is_ahead(&f, &g) {
                proof {
                    path_order::law_sooner_is_an_order(was[at as int], folder@, folder@);
                    assert(path_order::same_path(was[at as int], folder@));
                }
                return;
            }
            proof {
                assert forall|i: int| at <= i < was.len() implies path_order::sooner(
                    folder@,
                    #[trigger] was[i],
                ) by {
                    path_order::law_sooner_is_an_order(folder@, was[at as int], was[i]);
                }
            }
            break;
        }
        at += 1;
    }
    proof {
        assert forall|i: int| 0 <= i < was.len() implies !path_order::same_path(
            #[trigger] was[i],
            folder@,
        ) by {
            path_order::law_sooner_is_an_order(was[i], folder@, folder@);
            path_order::law_sooner_is_an_order(folder@, was[i], folder@);
        }
    }
    out.insert(at, folder);
    proof {
        let now = text::texts(out@);
        assert(now =~= was.insert(at as int, folder@));
        assert forall|i: int, j: int| 0 <= i < j < now.len() implies path_order::sooner(
            #[trigger] now[i],
            #[trigger] now[j],
        ) by {
            if i != at {
                assert(now[i] == was[if i < at { i } else { i - 1 }]);
            }
            if j != at {
                assert(now[j] == was[if j < at { j } else { j - 1 }]);
            }
        }
    }
}

/// The folders of the desktop: the one in each of these homes, once, in order.
pub fn desktop_folders(homes: &Vec<String>) -> (r: Vec<String>)
    ensures
        are_desktops(text::texts(r@), text::texts(homes@)),
        forall|i: int, j: int|
            0 <= i < j < r@.len() ==> !path_order::same_path(#[trigger] r@[i]@, #[trigger] r@[j]@),
{
    let ghost all = text::texts(homes@);
    let mut out: Vec<String> = Vec::new();
    let mut i: usize = 0;
    while i < homes.len()
        invariant
            i <= homes@.len(),
            all == text::texts(homes@),
            are_desktops(text::texts(out@), all.take(i as int)),
        decreases homes@.len() - i,
    {
        let folder = paths::join(homes[i].as_str(), "Desktop");
        let ghost f = folder@;
        let ghost was = text::texts(out@);
        list_folder(&mut out, folder);
        proof {
            if lists(was, f) {
                lemma_desktop_again(was, all, i as int);
            } else {
                let at = choose|at: int|
                    0 <= at <= was.len() && text::texts(out@) == #[trigger] was.insert(at, f);
                lemma_desktop_added(was, at, all, i as int);
            }
        }
        i += 1;
    }
    proof {
        assert(all.take(i as int) =~= all);
        assert forall|i: int, j: int| 0 <= i < j < out@.len() implies !path_order::same_path(
            #[trigger] out@[i]@,
            #[trigger] out@[j]@,
        ) by {
            let folders = text::texts(out@);
            assert(path_order::sooner(folders[i], folders[j]));
            path_order::law_sooner_is_an_order(out@[i]@, out@[j]@, out@[j]@);
        }
    }
    out
}

/// What is the desktop of a home stays so when another home follows.
proof fn lemma_still_desktop(folder: Seq<char>, homes: Seq<Seq<char>>, n: int)
    requires
        0 <= n < homes.len(),
        is_desktop(folder, homes.take(n)),
    ensures
        is_desktop(folder, homes.take(n + 1)),
{
    let a = homes.take(n);
    let b = homes.take(n + 1);
    let k = choose|k: int| first_desktop(a, k, folder);
    assert(a[k] == b[k]);
    assert forall|j: int| 0 <= j < k implies !path_order::same_path(
        desktop_of(#[trigger] b[j]),
        folder,
    ) by {
        assert(a[j] == b[j]);
    }
    assert(first_desktop(b, k, folder));
}

/// A home whose desktop is listed adds nothing.
proof fn lemma_desktop_again(folders: Seq<Seq<char>>, homes: Seq<Seq<char>>, n: int)
    requires
        0 <= n < homes.len(),
        are_desktops(folders, homes.take(n)),
        lists(folders, desktop_of(homes[n])),
    ensures
        are_desktops(folders, homes.take(n + 1)),
{
    let a = homes.take(n);
    let b = homes.take(n + 1);
    assert forall|k: int| 0 <= k < b.len() implies lists(folders, desktop_of(#[trigger] b[k])) by {
        if k < n {
            assert(a[k] == b[k]);
        }
    }
    assert forall|i: int| 0 <= i < folders.len() implies is_desktop(#[trigger] folders[i], b) by {
        lemma_still_desktop(folders[i], homes, n);
    }
}

proof fn lemma_still_listed(was: Seq<Seq<char>>, at: int, f: Seq<char>, d: Seq<char>)
    requires
        0 <= at <= was.len(),
        lists(was, d),
    ensures
        lists(was.insert(at, f), d),
{
    let now = was.insert(at, f);
    let i = choose|i: int| 0 <= i < was.len() && path_order::same_path(#[trigger] was[i], d);
    let k = if i < at {
        i
    } else {
        i + 1
    };
    assert(now[k] == was[i]);
}

proof fn lemma_new_desktop(was: Seq<Seq<char>>, homes: Seq<Seq<char>>, n: int)
    requires
        0 <= n < homes.len(),
        are_desktops(was, homes.take(n)),
        !lists(was, desktop_of(homes[n])),
    ensures
        is_desktop(desktop_of(homes[n]), homes.take(n + 1)),
{
    let a = homes.take(n);
    let b = homes.take(n + 1);
    let f = desktop_of(homes[n]);
    assert(b[n] == homes[n]);
    assert forall|j: int| 0 <= j < n implies !path_order::same_path(
        desktop_of(#[trigger] b[j]),
        f,
    ) by {
        let d = desktop_of(a[j]);
        assert(a[j] == b[j]);
        assert(lists(was, d));
        let i = choose|i: int| 0 <= i < was.len() && path_order::same_path(#[trigger] was[i], d);
        assert(!path_order::same_path(was[i], f));
    }
    assert(first_desktop(b, n, f));
}

/// A home whose desktop is not listed adds it.
proof fn lemma_desktop_added(was: Seq<Seq<char>>, at: int, homes: Seq<Seq<char>>, n: int)
    requires
        0 <= n < homes.len(),
        0 <= at <= was.len(),
        are_desktops(was, homes.take(n)),
        !lists(was, desktop_of(homes[n])),
        rising(was.insert(at, desktop_of(homes[n]))),
    ensures
        are_desktops(was.insert(at, desktop_of(homes[n])), homes.take(n + 1)),
{
    let a = homes.take(n);
    let b = homes.take(n + 1);
    let f = desktop_of(homes[n]);
    let now = was.insert(at, f);
    assert(now[at] == f);
    assert forall|k: int| 0 <= k < b.len() implies lists(now, desktop_of(#[trigger] b[k])) by {
        if k < n {
            assert(a[k] == b[k]);
            lemma_still_listed(was, at, f, desktop_of(a[k]));
        } else {
            assert(path_order::same_path(now[at], f));
        }
    }
    assert forall|i: int| 0 <= i < now.len() implies is_desktop(#[trigger] now[i], b) by {
        if i == at {
            lemma_new_desktop(was, homes, n);
        } else {
            let m = if i < at {
                i
            } else {
                i - 1
            };
            assert(now[i] == was[m]);
            assert(is_desktop(was[m], a));
            lemma_still_desktop(was[m], homes, n);
        }
    }
}

/// A folder of the desktop: its path, and its size and time of change where it is there.
#[derive(Debug)]
pub struct FolderStamp {
    pub path: String,
    pub stamp: Option<(u64, u64)>,
}

pub open spec fn stamp_text(stamp: Option<(u64, u64)>) -> Seq<char> {
    match stamp {
        None => "missing"@,
        Some((size, modified)) => numbers::decimal(size as nat) + seq![':'] + numbers::decimal(
            modified as nat,
        ),
    }
}

pub open spec fn folder_text(f: FolderStamp) -> Seq<char> {
    "dir:"@ + text::lower(f.path@) + seq![':'] + stamp_text(f.stamp)
}

/// The texts of these folders with a bar between them.
pub open spec fn folders_text(fs: Seq<FolderStamp>) -> Seq<char>
    decreases fs.len(),
{
    if fs.len() == 0 {
        seq![]
    } else if fs.len() == 1 {
        folder_text(fs[0])
    } else {
        folders_text(fs.drop_last()) + seq!['|'] + folder_text(fs.last())
    }
}

fn add_folder(out: &mut Vec<char>, f: &FolderStamp)
    ensures
        final(out)@ == old(out)@ + folder_text(*f),
{
    let ghost start = out@;
    text::add_text(out, "dir:");
    let path = text::chars_of(f.path.as_str());
    let low = text::lower_chars(&path);
    text::add_chars(out, &low);
    out.push(':');
    match f.stamp {
        None => {
            text::add_text(out, "missing");
        },
        Some((size, modified)) => {
            numbers::add_decimal(out, size);
            out.push(':');
            numbers::add_decimal(out, modified);
        },
    }
    assert(out@ =~= start + folder_text(*f));
}

/// What the folders of the desktop look like, to tell whether anything has changed.
pub fn desktop_signature(folders: &Vec<FolderStamp>) -> (r: String)
    ensures
        r@ == folders_text(folders@),
{
    let ghost all = folders@;
    let mut out: Vec<char> = Vec::new();
    let mut i: usize = 0;
    assert(all.take(0) =~= seq![]);
    assert(out@ =~= folders_text(all.take(0)));
    while i < folders.len()
        invariant
            all == folders@,
            i <= folders@.len(),
            out@ == folders_text(all.take(i as int)),
        decreases folders@.len() - i,
    {
        proof {
            assert(all.take(i as int + 1).drop_last() =~= all.take(i as int));
        }
        if i > 0 {
            out.push('|');
        }
        add_folder(&mut out, &folders[i]);
        proof {
            assert(out@ =~= folders_text(all.take(i as int + 1)));
        }
        i += 1;
    }
    assert(all.take(i as int) =~= all);
    text::string_of(&out)
}

/// How a thing on the desktop is opened.
#[derive(Debug)]
pub enum Launch {
    /// Open the file.
    Open(String),
    /// Let the file manager open this address.
    Explore(&'static str),
    /// Let the shell open it by its handle.
    Invoke(isize),
    Nothing,
}

pub open spec fn uri_for(key: Seq<char>) -> Option<Seq<char>> {
    if key == "knownfolder:recycle-bin"@ {
        Some("shell:RecycleBinFolder"@)
    } else if key == "knownfolder:computer"@ {
        Some("shell:MyComputerFolder"@)
    } else if key == "knownfolder:control-panel"@ {
        Some("shell:ControlPanelFolder"@)
    } else {
        None
    }
}

/// The address under which the file manager opens a place.
pub fn known_virtual_shell_uri(key: &str) -> (r: Option<&'static str>)
    ensures
        text::opt_str(r) == uri_for(key@),
{
    if text::same(key, "knownfolder:recycle-bin") {
        Some("shell:RecycleBinFolder")
    } else if text::same(key, "knownfolder:computer") {
        Some("shell:MyComputerFolder")
    } else if text::same(key, "knownfolder:control-panel") {
        Some("shell:ControlPanelFolder")
    } else {
        None
    }
}

/// How a thing on the desktop is opened: a file by its path, a known place by the file
/// manager, anything else by the shell.
pub fn launch(path: Option<&str>, pidl: Option<isize>, key: Option<&str>) -> (r: Launch)
    ensures
        ({
            let uri = match key {
                Some(k) => uri_for(k@),
                None => None,
            };
            match r {
                Launch::Open(p) => path is Some && p@ == path->Some_0@,
                Launch::Explore(u) => path is None && uri == Some(u@),
                Launch::Invoke(h) => path is None && uri is None && pidl == Some(h),
                Launch::Nothing => path is None && uri is None && pidl is None,
            }
        }),
{
    match path {
        Some(p) => {
            return Launch::Open(text::copy_text(p));
        },
        None => {},
    }
    let uri: Option<&'static str> = match key {
        Some(k) => known_virtual_shell_uri(k),
        None => None,
    };
    match uri {
        Some(u) => Launch::Explore(u),
        None => match pidl {
            Some(h) => Launch::Invoke(h),
            None => Launch::Nothing,
        },
    }
}

} // verus!
