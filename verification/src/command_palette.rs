//! Searching pinned items, open windows and programs by what the user types.

use vstd::prelude::*;
use crate::apps;
use crate::casing;
use crate::config;
use crate::config::ItemSpec;
use crate::desktop_scan;
use crate::desktop_scan::DesktopEntry;
use crate::order;
use crate::paths;
use crate::text;
use crate::windows_list;
use crate::windows_list::RunningWindow;
use crate::words;

verus! {

/// The most results that are shown.
pub const MAX_RESULTS: usize = 18;

/// What a result does.
#[derive(Clone, Debug, PartialEq, Eq)]
pub enum CommandAction {
    OpenPath(String),
    ActivateWindow(isize),
}

/// One thing that can be found.
#[derive(Clone, Debug, PartialEq, Eq)]
pub struct CommandEntry {
    pub label: String,
    pub detail: String,
    pub action: CommandAction,
}

pub ghost enum ActionView {
    OpenPath(Seq<char>),
    ActivateWindow(isize),
}

pub ghost struct CommandView {
    pub label: Seq<char>,
    pub detail: Seq<char>,
    pub action: ActionView,
}

impl View for CommandEntry {
    type V = CommandView;

    open spec fn view(&self) -> CommandView {
        CommandView {
            label: self.label@,
            detail: self.detail@,
            action: match self.action {
                CommandAction::OpenPath(p) => ActionView::OpenPath(p@),
                CommandAction::ActivateWindow(h) => ActionView::ActivateWindow(h),
            },
        }
    }
}

pub open spec fn views(v: Seq<CommandEntry>) -> Seq<CommandView> {
    v.map_values(|e: CommandEntry| e@)
}

/// The entry that opens a path.
pub open spec fn opens(label: Seq<char>, path: Seq<char>) -> CommandView {
    CommandView { label, detail: path, action: ActionView::OpenPath(path) }
}

/// The entry that goes to a window.
pub open spec fn goes_to(label: Seq<char>, hwnd: isize) -> CommandView {
    CommandView { label, detail: "运行中的窗口"@, action: ActionView::ActivateWindow(hwnd) }
}

/// What is searched of an entry.
pub open spec fn searched(e: CommandView) -> Seq<char> {
    casing::lowercased(e.label + seq![' '] + e.detail)
}

/// Each word of the query occurs in the entry; letter case does not matter.
pub open spec fn matched(e: CommandView, query: Seq<char>) -> bool {
    forall|i: int|
        0 <= i < words::parts(query, words::white()).len() ==> {
            let w = #[trigger] words::parts(query, words::white())[i];
            w.len() == 0 || text::holds(searched(e), casing::lowercased(w))
        }
}

/// A word of the label begins with the query.
pub open spec fn word_begins(label: Seq<char>, query: Seq<char>) -> bool {
    exists|i: int|
        0 <= i < words::parts(label, words::joiner()).len() && text::begins(
            #[trigger] words::parts(label, words::joiner())[i],
            query,
        )
}

/// How well an entry fits: the less, the better. The label may begin with the query, a
/// word of it may, or the query may stand elsewhere in it.
pub open spec fn rank(e: CommandView, query: Seq<char>) -> nat {
    let q = casing::lowercased(text::trimmed(query));
    let l = casing::lowercased(e.label);
    if q.len() == 0 || text::begins(l, q) {
        0
    } else if word_begins(l, q) {
        1
    } else if text::holds(l, q) {
        2
    } else {
        3
    }
}

/// `a` is shown before `b`.
pub open spec fn better(a: CommandView, b: CommandView, query: Seq<char>) -> bool {
    if rank(a, query) != rank(b, query) {
        rank(a, query) < rank(b, query)
    } else {
        text::before(casing::lowercased(a.label), casing::lowercased(b.label))
    }
}

pub open spec fn by_rank(query: Seq<char>) -> spec_fn(CommandView, CommandView) -> bool {
    |a: CommandView, b: CommandView| better(a, b, query)
}

/// The entries that match.
pub open spec fn matches_of(es: Seq<CommandView>, query: Seq<char>) -> Seq<CommandView>
    decreases es.len(),
{
    if es.len() == 0 {
        seq![]
    } else if matched(es.last(), query) {
        matches_of(es.drop_last(), query).push(es.last())
    } else {
        matches_of(es.drop_last(), query)
    }
}

/// The best matches, and no more than `limit`.
pub open spec fn results(es: Seq<CommandView>, query: Seq<char>, limit: nat) -> Seq<CommandView> {
    let all = order::arranged(matches_of(es, query), by_rank(query));
    if all.len() > limit {
        all.take(limit as int)
    } else {
        all
    }
}

impl CommandEntry {
    pub fn open_path(label: &str, path: &str) -> (r: CommandEntry)
        ensures
            r@ == opens(label@, path@),
    {
        CommandEntry {
            label: text::copy_text(label),
            detail: text::copy_text(path),
            action: CommandAction::OpenPath(text::copy_text(path)),
        }
    }

    pub fn activate_window(label: &str, hwnd: isize) -> (r: CommandEntry)
        ensures
            r@ == goes_to(label@, hwnd),
    {
        CommandEntry {
            label: text::copy_text(label),
            detail: text::copy_text("运行中的窗口"),
            action: CommandAction::ActivateWindow(hwnd),
        }
    }

    fn copy(&self) -> (r: CommandEntry)
        ensures
            r@ == self@,
    {
        CommandEntry {
            label: text::copy_text(self.label.as_str()),
            detail: text::copy_text(self.detail.as_str()),
            action: match &self.action {
                CommandAction::OpenPath(p) => CommandAction::OpenPath(text::copy_text(p.as_str())),
                CommandAction::ActivateWindow(h) => CommandAction::ActivateWindow(*h),
            },
        }
    }
}

fn lower_text(s: &[char]) -> (r: Vec<char>)
    ensures
        r@ == casing::lowercased(s@),
{
    let t = text::string_of(s);
    text::chars_of(casing::to_lowercase(t.as_str()).as_str())
}

fn haystack(entry: &CommandEntry) -> (r: Vec<char>)
    ensures
        r@ == searched(entry@),
{
    let mut out = text::chars_of(entry.label.as_str());
    out.push(' ');
    text::add_text(&mut out, entry.detail.as_str());
    assert(out@ =~= entry.label@ + seq![' '] + entry.detail@);
    lower_text(&out)
}

/// Whether each word of the query occurs in the entry.
pub fn matches_query(entry: &CommandEntry, query: &str) -> (r: bool)
    ensures
        r == matched(entry@, query@),
{
    let hay = haystack(entry);
    let q = text::chars_of(query);
    let ws = words::split_white(&q);
    let ghost all = words::parts(query@, words::white());
    let mut i: usize = 0;
    while i < ws.len()
        invariant
            hay@ == searched(entry@),
            text::rows(ws@) == all,
            all == words::parts(query@, words::white()),
            i <= ws@.len(),
            forall|j: int|
                0 <= j < i ==> (#[trigger] all[j]).len() == 0 || text::holds(
                    searched(entry@),
                    casing::lowercased(all[j]),
                ),
        decreases ws@.len() - i,
    {
        assert(all[i as int] == ws@[i as int]@);
        if ws[i].len() > 0 {
            let w = lower_text(&ws[i]);
            if !text::holds_part(&hay, &w) {
                return false;
            }
        }
        i += 1;
    }
    true
}

fn any_word_begins(label: &[char], query: &[char]) -> (r: bool)
    ensures
        r == word_begins(label@, query@),
{
    let ws = words::split_label(label);
    let ghost all = words::parts(label@, words::joiner());
    let mut i: usize = 0;
    while i < ws.len()
        invariant
            text::rows(ws@) == all,
            all == words::parts(label@, words::joiner()),
            i <= ws@.len(),
            forall|j: int| 0 <= j < i ==> !text::begins(#[trigger] all[j], query@),
        decreases ws@.len() - i,
    {
        assert(all[i as int] == ws@[i as int]@);
        if text::begins_with(&ws[i], query) {
            return true;
        }
        i += 1;
    }
    false
}

/// How well an entry fits: the less, the better.
pub fn score(entry: &CommandEntry, query: &str) -> (r: u32)
    ensures
        r == rank(entry@, query@),
{
    let typed = text::chars_of(query);
    let q = lower_text(text::trim(&typed));
    let name = text::chars_of(entry.label.as_str());
    let l = lower_text(&name);
    if q.len() == 0 || text::begins_with(&l, &q) {
        0
    } else if any_word_begins(&l, &q) {
        1
    } else if text::holds_part(&l, &q) {
        2
    } else {
        3
    }
}

/// An entry with what it is ordered by.
struct Ranked {
    score: u32,
    name: Vec<char>,
    entry: CommandEntry,
}

spec fn keyed(r: Ranked) -> (nat, Seq<char>, CommandView) {
    (r.score as nat, r.name@, r.entry@)
}

spec fn keys_of(e: CommandView, query: Seq<char>) -> (nat, Seq<char>, CommandView) {
    (rank(e, query), casing::lowercased(e.label), e)
}

spec fn by_key() -> spec_fn(
    (nat, Seq<char>, CommandView),
    (nat, Seq<char>, CommandView),
) -> bool {
    |a: (nat, Seq<char>, CommandView), b: (nat, Seq<char>, CommandView)|
        if a.0 != b.0 {
            a.0 < b.0
        } else {
            text::before(a.1, b.1)
        }
}

fn ranked_before(a: &Ranked, b: &Ranked) -> (r: bool)
    ensures
        r == by_key()(keyed(*a), keyed(*b)),
{
    if a.score != b.score {
        a.score < b.score
    } else {
        text::is_before(&a.name, &b.name)
    }
}

fn rank_matches(entries: &Vec<CommandEntry>, query: &str) -> (r: Vec<Ranked>)
    ensures
        r@.map_values(|x: Ranked| keyed(x)) == matches_of(views(entries@), query@).map_values(
            |e: CommandView| keys_of(e, query@),
        ),
{
    let ghost all = views(entries@);
    let ghost f = |x: Ranked| keyed(x);
    let ghost g = |e: CommandView| keys_of(e, query@);
    let mut out: Vec<Ranked> = Vec::new();
    let mut i: usize = 0;
    assert(all.take(0) =~= seq![]);
    assert(out@.map_values(f) =~= matches_of(all.take(0), query@).map_values(g));
    while i < entries.len()
        invariant
            all == views(entries@),
            f == (|x: Ranked| keyed(x)),
            g == (|e: CommandView| keys_of(e, query@)),
            i <= entries@.len(),
            out@.map_values(f) == matches_of(all.take(i as int), query@).map_values(g),
        decreases entries@.len() - i,
    {
        let ghost was = out@;
        let ghost head = matches_of(all.take(i as int), query@);
        proof {
            assert(all.take(i as int + 1).drop_last() =~= all.take(i as int));
            assert(all.take(i as int + 1).last() == entries@[i as int]@);
        }
        if matches_query(&entries[i], query) {
            let label = text::chars_of(entries[i].label.as_str());
            let item = Ranked {
                score: score(&entries[i], query),
                name: lower_text(&label),
                entry: entries[i].copy(),
            };
            let ghost key = keyed(item);
            out.push(item);
            proof {
                assert(out@.map_values(f) =~= was.map_values(f).push(key));
                assert(head.push(entries@[i as int]@).map_values(g) =~= head.map_values(g).push(
                    keys_of(entries@[i as int]@, query@),
                ));
            }
        }
        i += 1;
    }
    assert(all.take(i as int) =~= all);
    out
}

/// The best matches of a query, best first, and no more than `limit`.
pub fn filter_entries(entries: &Vec<CommandEntry>, query: &str, limit: usize) -> (r: Vec<
    CommandEntry,
>)
    ensures
        views(r@) == results(views(entries@), query@, limit as nat),
{
    let ghost hits = matches_of(views(entries@), query@);
    let ghost f = |x: Ranked| keyed(x);
    let ghost g = |e: CommandView| keys_of(e, query@);
    let ghost all = order::arranged(hits, by_rank(query@));
    let ghost lt = |a: Ranked, b: Ranked| by_key()(keyed(a), keyed(b));
    let ranked = rank_matches(entries, query);
    let ghost unsorted = ranked@;
    let mut sorted = order::stable_sort(ranked, ranked_before, Ghost(lt));
    proof {
        order::lemma_arranged_map(unsorted, lt, f, by_key());
        order::lemma_arranged_map(hits, by_rank(query@), g, by_key());
        assert(sorted@.map_values(f) == all.map_values(g));
        assert(sorted@.map_values(f).len() == sorted@.len());
        assert(all.map_values(g).len() == all.len());
    }
    let n: usize = if sorted.len() > limit {
        limit
    } else {
        sorted.len()
    };
    let mut out: Vec<CommandEntry> = Vec::new();
    let mut i: usize = 0;
    assert(views(out@) =~= all.take(0));
    while i < n
        invariant
            i <= n,
            n <= sorted@.len(),
            sorted@.len() == all.len(),
            f == (|x: Ranked| keyed(x)),
            g == (|e: CommandView| keys_of(e, query@)),
            sorted@.map_values(f) == all.map_values(g),
            views(out@) == all.take(i as int),
        decreases n - i,
    {
        let ghost was = out@;
        proof {
            assert(sorted@.map_values(f)[i as int] == keyed(sorted@[i as int]));
            assert(all.map_values(g)[i as int] == keys_of(all[i as int], query@));
        }
        out.push(sorted[i].entry.copy());
        proof {
            assert(views(out@) =~= views(was).push(all[i as int]));
            assert(all.take(i as int + 1) =~= all.take(i as int).push(all[i as int]));
        }
        i += 1;
    }
    proof {
        if all.len() <= limit {
            assert(all.take(i as int) =~= all);
        }
    }
    out
}

/// What an entry without a label is called: the name of its file, without the extension
/// where it has one.
pub open spec fn name_for(path: Seq<char>, otherwise: Seq<char>) -> Seq<char> {
    match paths::stem_of(path) {
        Some(s) => s,
        None => match paths::name_of(path) {
            Some(n) => n,
            None => otherwise,
        },
    }
}

/// What an entry without a label is called.
pub fn label_for_path(path: &str, otherwise: &str) -> (r: String)
    ensures
        r@ == name_for(path@, otherwise@),
{
    match paths::file_stem(path) {
        Some(s) => s,
        None => match paths::file_name(path) {
            Some(n) => n,
            None => text::copy_text(otherwise),
        },
    }
}

/// The entry of a pinned item, where there is something to open.
pub open spec fn pinned_entry(spec: config::ItemView, app_path: Option<Seq<char>>) -> Seq<
    CommandView,
> {
    match apps::resolved_of(spec, app_path) {
        Some(p) => seq![
            opens(
                match spec.label {
                    Some(l) => l,
                    None => name_for(p, "Item"@),
                },
                p,
            ),
        ],
        None => seq![],
    }
}

pub open spec fn pinned_entries(
    specs: Seq<config::ItemView>,
    app_paths: Seq<Option<Seq<char>>>,
) -> Seq<CommandView>
    decreases specs.len(),
{
    if specs.len() == 0 {
        seq![]
    } else {
        pinned_entries(specs.drop_last(), app_paths.drop_last()) + pinned_entry(
            specs.last(),
            app_paths.last(),
        )
    }
}

pub open spec fn window_entries(ws: Seq<windows_list::WindowView>) -> Seq<CommandView> {
    ws.map_values(|w: windows_list::WindowView| goes_to(w.title, w.hwnd))
}

pub open spec fn program_entries(es: Seq<desktop_scan::EntryView>) -> Seq<CommandView>
    decreases es.len(),
{
    if es.len() == 0 {
        seq![]
    } else {
        let front = program_entries(es.drop_last());
        match es.last().path {
            Some(p) => front.push(opens(es.last().label, p)),
            None => front,
        }
    }
}

/// Two entries that differ in letter case alone.
pub open spec fn alike(a: CommandView, b: CommandView) -> bool {
    text::lower(a.label) == text::lower(b.label) && text::lower(a.detail) == text::lower(b.detail)
}

/// Without those that are like the one before them.
pub open spec fn deduped(es: Seq<CommandView>) -> Seq<CommandView>
    decreases es.len(),
{
    if es.len() == 0 {
        seq![]
    } else {
        let front = deduped(es.drop_last());
        if front.len() > 0 && alike(es.last(), front.last()) {
            front
        } else {
            front.push(es.last())
        }
    }
}

pub open spec fn by_name() -> spec_fn(CommandView, CommandView) -> bool {
    |a: CommandView, b: CommandView|
        text::before(casing::lowercased(a.label), casing::lowercased(b.label))
}

/// All that can be found.
pub open spec fn collected(
    specs: Seq<config::ItemView>,
    app_paths: Seq<Option<Seq<char>>>,
    ws: Seq<windows_list::WindowView>,
    programs: Seq<desktop_scan::EntryView>,
) -> Seq<CommandView> {
    deduped(
        order::arranged(
            pinned_entries(specs, app_paths) + window_entries(ws) + program_entries(programs),
            by_name(),
        ),
    )
}

fn name_before(a: &CommandEntry, b: &CommandEntry) -> (r: bool)
    ensures
        r == by_name()(a@, b@),
{
    let x = text::chars_of(a.label.as_str());
    let y = text::chars_of(b.label.as_str());
    let x = lower_text(&x);
    let y = lower_text(&y);
    text::is_before(&x, &y)
}

fn same_but_case(a: &str, b: &str) -> (r: bool)
    ensures
        r == (text::lower(a@) == text::lower(b@)),
{
    let x = text::chars_of(a);
    let y = text::chars_of(b);
    let x = text::lower_chars(&x);
    let y = text::lower_chars(&y);
    text::same_chars(&x, &y)
}

pub open spec fn opt_texts(v: Seq<Option<String>>) -> Seq<Option<Seq<char>>> {
    v.map_values(|o: Option<String>| text::opt_text(o))
}

fn add_pinned(out: &mut Vec<CommandEntry>, specs: &Vec<ItemSpec>, app_paths: &Vec<Option<String>>)
    requires
        specs@.len() == app_paths@.len(),
    ensures
        views(final(out)@) == views(old(out)@) + pinned_entries(
            config::views(specs@),
            opt_texts(app_paths@),
        ),
{
    let ghost start = views(out@);
    let ghost all = config::views(specs@);
    let ghost found = opt_texts(app_paths@);
    let mut i: usize = 0;
    assert(views(out@) =~= start + pinned_entries(all.take(0), found.take(0)));
    while i < specs.len()
        invariant
            specs@.len() == app_paths@.len(),
            all == config::views(specs@),
            found == opt_texts(app_paths@),
            i <= specs@.len(),
            views(out@) == start + pinned_entries(all.take(i as int), found.take(i as int)),
        decreases specs@.len() - i,
    {
        let ghost was = out@;
        proof {
            assert(all.take(i as int + 1).drop_last() =~= all.take(i as int));
            assert(found.take(i as int + 1).drop_last() =~= found.take(i as int));
            assert(all.take(i as int + 1).last() == specs@[i as int]@);
            assert(found.take(i as int + 1).last() == text::opt_text(app_paths@[i as int]));
        }
        let ghost one = pinned_entry(specs@[i as int]@, text::opt_text(app_paths@[i as int]));
        match apps::resolve_launch_path(&specs[i], &app_paths[i]) {
            Some(path) => {
                let label: String = match &specs[i].label {
                    Some(l) => text::copy_text(l.as_str()),
                    None => label_for_path(path.as_str(), "Item"),
                };
                out.push(CommandEntry::open_path(label.as_str(), path.as_str()));
                assert(views(out@) =~= views(was) + one);
            },
            None => {
                assert(views(out@) =~= views(was) + one);
            },
        }
        assert(views(out@) =~= start + pinned_entries(
            all.take(i as int + 1),
            found.take(i as int + 1),
        ));
        i += 1;
    }
    assert(all.take(i as int) =~= all);
    assert(found.take(i as int) =~= found);
}

fn add_windows(out: &mut Vec<CommandEntry>, ws: &Vec<RunningWindow>)
    ensures
        views(final(out)@) == views(old(out)@) + window_entries(windows_list::window_views(ws@)),
{
    let ghost start = views(out@);
    let ghost all = windows_list::window_views(ws@);
    let mut i: usize = 0;
    assert(views(out@) =~= start + window_entries(all.take(0)));
    while i < ws.len()
        invariant
            all == windows_list::window_views(ws@),
            i <= ws@.len(),
            views(out@) == start + window_entries(all.take(i as int)),
        decreases ws@.len() - i,
    {
        let ghost was = out@;
        out.push(CommandEntry::activate_window(ws[i].title.as_str(), ws[i].hwnd));
        proof {
            assert(all[i as int] == ws@[i as int]@);
            assert(views(out@) =~= views(was).push(goes_to(all[i as int].title, all[i as int].hwnd)));
            assert(window_entries(all.take(i as int + 1)) =~= window_entries(
                all.take(i as int),
            ).push(goes_to(all[i as int].title, all[i as int].hwnd)));
            assert(views(out@) =~= start + window_entries(all.take(i as int + 1)));
        }
        i += 1;
    }
    assert(all.take(i as int) =~= all);
}

fn add_programs(out: &mut Vec<CommandEntry>, programs: &Vec<DesktopEntry>)
    ensures
        views(final(out)@) == views(old(out)@) + program_entries(desktop_scan::views(programs@)),
{
    let ghost start = views(out@);
    let ghost all = desktop_scan::views(programs@);
    let mut i: usize = 0;
    assert(views(out@) =~= start + program_entries(all.take(0)));
    while i < programs.len()
        invariant
            all == desktop_scan::views(programs@),
            i <= programs@.len(),
            views(out@) == start + program_entries(all.take(i as int)),
        decreases programs@.len() - i,
    {
        let ghost was = out@;
        proof {
            assert(all.take(i as int + 1).drop_last() =~= all.take(i as int));
            assert(all.take(i as int + 1).last() == programs@[i as int]@);
        }
        match &programs[i].path {
            Some(p) => {
                out.push(CommandEntry::open_path(programs[i].label.as_str(), p.as_str()));
                proof {
                    assert(views(out@) =~= views(was).push(
                        opens(programs@[i as int]@.label, programs@[i as int]@.path->Some_0),
                    ));
                }
            },
            None => {},
        }
        assert(views(out@) =~= start + program_entries(all.take(i as int + 1)));
        i += 1;
    }
    assert(all.take(i as int) =~= all);
}

fn dedup_entries(entries: Vec<CommandEntry>) -> (r: Vec<CommandEntry>)
    ensures
        views(r@) == deduped(views(entries@)),
{
    let ghost all = views(entries@);
    let mut out: Vec<CommandEntry> = Vec::new();
    let mut i: usize = 0;
    assert(views(out@) =~= deduped(all.take(0)));
    while i < entries.len()
        invariant
            all == views(entries@),
            i <= entries@.len(),
            views(out@) == deduped(all.take(i as int)),
        decreases entries@.len() - i,
    {
        let ghost was = out@;
        proof {
            assert(all.take(i as int + 1).drop_last() =~= all.take(i as int));
            assert(all.take(i as int + 1).last() == entries@[i as int]@);
            assert(views(out@).len() == out@.len());
        }
        let n: usize = out.len();
        let twin: bool = n > 0 && same_but_case(
            entries[i].label.as_str(),
            out[n - 1].label.as_str(),
        ) && same_but_case(entries[i].detail.as_str(), out[n - 1].detail.as_str());
        proof {
            if n > 0 {
                assert(views(was).last() == was[n - 1]@);
            }
        }
        if !twin {
            out.push(entries[i].copy());
            assert(views(out@) =~= views(was).push(entries@[i as int]@));
        }
        i += 1;
    }
    assert(all.take(i as int) =~= all);
    out
}

/// All that can be found: pinned items, open windows and programs, in the order of their
/// labels, without those that are like the one before them.
pub fn collect_entries(
    specs: &Vec<ItemSpec>,
    app_paths: &Vec<Option<String>>,
    ws: &Vec<RunningWindow>,
    programs: &Vec<DesktopEntry>,
) -> (r: Vec<CommandEntry>)
    requires
        specs@.len() == app_paths@.len(),
    ensures
        views(r@) == collected(
            config::views(specs@),
            opt_texts(app_paths@),
            windows_list::window_views(ws@),
            desktop_scan::views(programs@),
        ),
{
    let mut all: Vec<CommandEntry> = Vec::new();
    assert(views(all@) =~= seq![]);
    add_pinned(&mut all, specs, app_paths);
    add_windows(&mut all, ws);
    add_programs(&mut all, programs);
    let ghost unsorted = all@;
    let ghost lt = |a: CommandEntry, b: CommandEntry| by_name()(a@, b@);
    let sorted = order::stable_sort(all, name_before, Ghost(lt));
    proof {
        order::lemma_arranged_map(unsorted, lt, |e: CommandEntry| e@, by_name());
        assert(views(unsorted) =~= pinned_entries(config::views(specs@), opt_texts(app_paths@))
            + window_entries(windows_list::window_views(ws@)) + program_entries(
            desktop_scan::views(programs@),
        ));
    }
    dedup_entries(sorted)
}

/// How a result is shown.
pub fn result_text(entry: &CommandEntry) -> (r: String)
    ensures
        r@ == entry.label@ + "   "@ + entry.detail@,
{
    let mut out = text::chars_of(entry.label.as_str());
    text::add_text(&mut out, "   ");
    text::add_text(&mut out, entry.detail.as_str());
    text::string_of(&out)
}

/// What the user's choice does, where a result is selected.
pub fn selected(results: &Vec<CommandEntry>, selection: isize) -> (r: Option<CommandAction>)
    ensures
        match r {
            Some(a) => 0 <= selection < results@.len() && results@[selection as int]@.action
                == (match a {
                CommandAction::OpenPath(p) => ActionView::OpenPath(p@),
                CommandAction::ActivateWindow(h) => ActionView::ActivateWindow(h),
            }),
            None => selection < 0 || selection >= results@.len(),
        },
{
    if selection < 0 || selection as usize >= results.len() {
        return None;
    }
    match &results[selection as usize].action {
        CommandAction::OpenPath(p) => Some(CommandAction::OpenPath(text::copy_text(p.as_str()))),
        CommandAction::ActivateWindow(h) => Some(CommandAction::ActivateWindow(*h)),
    }
}

proof fn lemma_better(a: CommandView, b: CommandView, c: CommandView, q: Seq<char>)
    ensures
        !better(a, a, q),
        better(a, b, q) && better(b, c, q) ==> better(a, c, q),
        !better(a, b, q) && !better(b, c, q) ==> !better(a, c, q),
{
    let x = casing::lowercased(a.label);
    let y = casing::lowercased(b.label);
    let z = casing::lowercased(c.label);
    text::lemma_before_total(x, x);
    if text::before(x, y) && text::before(y, z) {
        text::lemma_before_trans(x, y, z);
    }
    if !text::before(x, y) && !text::before(y, z) {
        text::lemma_not_before_trans(x, y, z);
    }
}

proof fn lemma_by_rank(q: Seq<char>)
    ensures
        order::strict_weak(by_rank(q)),
{
    let lt = by_rank(q);
    assert forall|a: CommandView| !#[trigger] lt(a, a) by {
        lemma_better(a, a, a, q);
    }
    assert forall|a: CommandView, b: CommandView, c: CommandView| #[trigger] lt(a, b)
        && #[trigger] lt(b, c) implies lt(a, c) by {
        lemma_better(a, b, c, q);
    }
    assert forall|a: CommandView, b: CommandView, c: CommandView| !#[trigger] lt(a, b)
        && !#[trigger] lt(b, c) implies !lt(a, c) by {
        lemma_better(a, b, c, q);
    }
}

/// The results are entries that match, best first, and no more than asked for; all matches
/// are among them where there are no more.
pub proof fn law_results(es: Seq<CommandView>, query: Seq<char>, limit: nat)
    ensures
        results(es, query, limit).len() <= limit,
        order::in_order(results(es, query, limit), by_rank(query)),
        forall|e: CommandView| #[trigger]
            results(es, query, limit).contains(e) ==> es.contains(e) && matched(e, query),
        forall|e: CommandView|
            matches_of(es, query).len() <= limit && es.contains(e) && matched(e, query)
                ==> #[trigger] results(es, query, limit).contains(e),
{
    let hits = matches_of(es, query);
    let all = order::arranged(hits, by_rank(query));
    let r = results(es, query, limit);
    lemma_by_rank(query);
    order::lemma_arranged_in_order(hits, by_rank(query));
    order::lemma_arranged_len(hits, by_rank(query));
    assert forall|i: int, j: int| 0 <= i < j < r.len() implies !#[trigger] by_rank(query)(
        r[j],
        r[i],
    ) by {
        assert(!by_rank(query)(all[j], all[i]));
    }
    assert forall|e: CommandView| #[trigger] r.contains(e) implies es.contains(e) && matched(
        e,
        query,
    ) by {
        let k = choose|k: int| 0 <= k < r.len() && r[k] == e;
        assert(all[k] == e);
        order::lemma_arranged_contains(hits, by_rank(query), e);
        lemma_matches_of(es, query, e);
    }
    assert forall|e: CommandView|
        hits.len() <= limit && es.contains(e) && matched(e, query) implies #[trigger] r.contains(
        e,
    ) by {
        lemma_matches_of(es, query, e);
        order::lemma_arranged_contains(hits, by_rank(query), e);
    }
}

proof fn lemma_matches_of(es: Seq<CommandView>, query: Seq<char>, e: CommandView)
    ensures
        matches_of(es, query).contains(e) <==> es.contains(e) && matched(e, query),
    decreases es.len(),
{
    if es.len() > 0 {
        let front = es.drop_last();
        let m = matches_of(front, query);
        lemma_matches_of(front, query, e);
        assert(es =~= front.push(es.last()));
        lemma_push(front, es.last(), e);
        lemma_push(m, es.last(), e);
    }
}

proof fn lemma_push(s: Seq<CommandView>, x: CommandView, e: CommandView)
    ensures
        s.push(x).contains(e) <==> s.contains(e) || x == e,
{
    let t = s.push(x);
    if s.contains(e) {
        let k = choose|k: int| 0 <= k < s.len() && s[k] == e;
        assert(t[k] == e);
    }
    if x == e {
        assert(t[s.len() as int] == e);
    }
    if t.contains(e) {
        let k = choose|k: int| 0 <= k < t.len() && t[k] == e;
        if k < s.len() {
            assert(s[k] == e);
        }
    }
}

/// An empty query finds everything.
pub proof fn law_empty_query_finds_all(e: CommandView)
    ensures
        matched(e, seq![]),
{
    assert(words::parts(seq![], words::white()) =~= seq![Seq::<char>::empty()]);
}

/// No two neighbours among all that can be found are alike.
pub proof fn law_deduped(es: Seq<CommandView>)
    ensures
        forall|i: int|
            0 <= i < deduped(es).len() - 1 ==> !alike(
                deduped(es)[i + 1],
                #[trigger] deduped(es)[i],
            ),
    decreases es.len(),
{
    if es.len() > 0 {
        law_deduped(es.drop_last());
        let front = deduped(es.drop_last());
        let r = deduped(es);
        assert forall|i: int| 0 <= i < r.len() - 1 implies !alike(r[i + 1], #[trigger] r[i]) by {
            if i + 1 < front.len() {
                assert(!alike(front[i + 1], front[i]));
            }
        }
    }
}

} // verus!
