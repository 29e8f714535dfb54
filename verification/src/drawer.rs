//! The drawer: a panel with the programs of the desktop, by category.

use vstd::prelude::*;
use crate::categories;
use crate::categories::Categories;
use crate::categories_laws;
use crate::config;
use crate::config::Config;
use crate::content;
use crate::desktop_scan;
use crate::desktop_scan::DesktopEntry;
use crate::drawer_layout::{Section, SectionKind};
use crate::numbers;
use crate::order;
use crate::paths;
use crate::text;

verus! {

/// How many programs stand in a row.
pub const COLS: usize = 5;

/// How long after it was closed the drawer does not open again, in milliseconds.
pub const REOPEN_GUARD_MS: u32 = 220;

pub const ID_CTX_OPEN: usize = 3101;

pub const ID_CTX_PIN: usize = 3102;

pub const ID_CTX_HIDE: usize = 3103;

pub const ID_CTX_UNCATEGORIZED: usize = 3104;

pub const ID_CTX_NEW_CATEGORY: usize = 3105;

pub const ID_CTX_RESTORE: usize = 3106;

pub const ID_CTX_REFRESH: usize = 3107;

pub const ID_CTX_CATEGORY_BASE: usize = 3200;

/// One program of the drawer.
#[derive(Debug)]
pub struct DrawerEntry {
    pub label: String,
    pub key: String,
    pub path: Option<String>,
    pub pidl: Option<isize>,
    /// What is shown where there is no icon.
    pub glyph: &'static str,
    pub color: (u8, u8, u8),
}

pub ghost struct DrawerView {
    pub label: Seq<char>,
    pub key: Seq<char>,
    pub path: Option<Seq<char>>,
    pub pidl: Option<isize>,
    pub glyph: Seq<char>,
    pub color: (u8, u8, u8),
}

impl View for DrawerEntry {
    type V = DrawerView;

    open spec fn view(&self) -> DrawerView {
        DrawerView {
            label: self.label@,
            key: self.key@,
            path: text::opt_text(self.path),
            pidl: self.pidl,
            glyph: self.glyph@,
            color: self.color,
        }
    }
}

pub open spec fn views(v: Seq<DrawerEntry>) -> Seq<DrawerView> {
    v.map_values(|e: DrawerEntry| e@)
}

pub open spec fn entry_of(d: desktop_scan::EntryView) -> DrawerView {
    DrawerView {
        label: d.label,
        key: d.key,
        path: d.path,
        pidl: d.pidl,
        glyph: content::stand_in(d.kind).0,
        color: content::stand_in(d.kind).1,
    }
}

/// The entries of the drawer: all but those that the user has taken off.
pub open spec fn built(ds: Seq<desktop_scan::EntryView>, hidden: Seq<Seq<char>>) -> Seq<DrawerView>
    decreases ds.len(),
{
    if ds.len() == 0 {
        seq![]
    } else if hidden.contains(ds.last().key) {
        built(ds.drop_last(), hidden)
    } else {
        built(ds.drop_last(), hidden).push(entry_of(ds.last()))
    }
}

/// The entries of the drawer.
pub fn build_entries(scanned: Vec<DesktopEntry>, categories: &Categories) -> (r: Vec<DrawerEntry>)
    ensures
        views(r@) == built(desktop_scan::views(scanned@), categories@.hidden),
{
    let ghost all = desktop_scan::views(scanned@);
    let ghost gone = categories@.hidden;
    let n: usize = scanned.len();
    let mut rest = order::reversed(scanned);
    let mut out: Vec<DrawerEntry> = Vec::new();
    let mut i: usize = 0;
    assert(all.take(0) =~= seq![]);
    assert(views(out@) =~= built(all.take(0), gone));
    while i < n
        invariant
            n == all.len(),
            all == desktop_scan::views(scanned@),
            gone == categories@.hidden,
            i <= n,
            rest@.len() == n - i,
            rest@ == scanned@.skip(i as int).reverse(),
            views(out@) == built(all.take(i as int), gone),
        decreases n - i,
    {
        let ghost was = rest@;
        match rest.pop() {
            Some(d) => {
                proof {
                    assert(was.last() == scanned@[i as int]);
                    assert(rest@ =~= scanned@.skip(i as int + 1).reverse());
                    assert(all.take(i as int + 1).drop_last() =~= all.take(i as int));
                    assert(all.take(i as int + 1).last() == d@);
                }
                if !categories.is_hidden(d.key.as_str()) {
                    let ghost before = out@;
                    let ghost view = entry_of(d@);
                    let (glyph, color) = content::fallback_visual(d.kind);
                    out.push(
                        DrawerEntry {
                            label: d.label,
                            key: d.key,
                            path: d.path,
                            pidl: d.pidl,
                            glyph,
                            color,
                        },
                    );
                    assert(views(out@) =~= views(before).push(view));
                }
                i += 1;
            },
            None => {
                return out;
            },
        }
    }
    assert(all.take(i as int) =~= all);
    out
}

pub open spec fn keys_of(es: Seq<DrawerView>) -> Seq<Seq<char>> {
    es.map_values(|e: DrawerView| e.key)
}

/// The keys of the entries, by which they are put into categories.
pub fn entry_keys(entries: &Vec<DrawerEntry>) -> (r: Vec<String>)
    ensures
        text::texts(r@) == keys_of(views(entries@)),
{
    let ghost all = keys_of(views(entries@));
    let mut out: Vec<String> = Vec::new();
    let mut i: usize = 0;
    assert(text::texts(out@) =~= all.take(0));
    while i < entries.len()
        invariant
            all == keys_of(views(entries@)),
            i <= entries@.len(),
            text::texts(out@) == all.take(i as int),
        decreases entries@.len() - i,
    {
        let ghost was = out@;
        let key = text::copy_text(entries[i].key.as_str());
        proof {
            assert(all[i as int] == key@);
            text::lemma_texts_push(was, key);
            assert(all.take(i as int + 1) =~= all.take(i as int).push(key@));
        }
        out.push(key);
        i += 1;
    }
    assert(all.take(i as int) =~= all);
    out
}

/// The title of the drawer.
pub fn title_text(count: usize) -> (r: String)
    ensures
        r@ == (if count == 0 {
            "桌面"@
        } else {
            "桌面 · "@ + numbers::decimal(count as nat) + " 个程序"@
        }),
{
    if count == 0 {
        return text::copy_text("桌面");
    }
    let mut out = text::chars_of("桌面 · ");
    numbers::add_decimal(&mut out, count as u64);
    text::add_text(&mut out, " 个程序");
    text::string_of(&out)
}

/// The heading of a category.
pub fn section_text(name: &str, count: usize) -> (r: String)
    ensures
        r@ == (if count == 0 {
            name@
        } else {
            name@ + " · "@ + numbers::decimal(count as nat)
        }),
{
    let mut out = text::chars_of(name);
    if count > 0 {
        text::add_text(&mut out, " · ");
        numbers::add_decimal(&mut out, count as u64);
    }
    text::string_of(&out)
}

/// What a new category is called until the user names it, after this many others.
pub open spec fn fresh_name(count: nat) -> Seq<char> {
    "新分类 "@ + numbers::decimal(count + 1)
}

fn new_category_name(count: usize) -> (r: String)
    ensures
        r@ == fresh_name(count as nat),
{
    let mut out = text::chars_of("新分类 ");
    numbers::add_large(&mut out, count as u128 + 1);
    text::string_of(&out)
}

/// Adds a category with a name to be changed: its place.
pub fn add_category(categories: &mut Categories) -> (r: usize)
    ensures
        r == old(categories)@.categories.len(),
        final(categories)@ == (categories::CategoriesView {
            categories: old(categories)@.categories.push(
                categories::CategoryView {
                    name: fresh_name(old(categories)@.categories.len()),
                    items: seq![],
                },
            ),
            ..old(categories)@
        }),
{
    let name = new_category_name(categories.categories.len());
    categories.add(name.as_str())
}

/// Whether a path is pinned to the dock.
pub fn path_is_pinned(config: &Option<Config>, path: &str) -> (r: bool)
    ensures
        r == (match *config {
            Some(c) => config::has_launch(config::views(c.items@), paths::key_of(path@)),
            None => false,
        }),
{
    let c = match config {
        Some(c) => c,
        None => {
            return false;
        },
    };
    let target = config::path_key(path);
    let mut i: usize = 0;
    while i < c.items.len()
        invariant
            *config == Some(*c),
            target@ == paths::key_of(path@),
            i <= c.items@.len(),
            forall|k: int|
                0 <= k < i ==> !config::launches(#[trigger] config::views(c.items@)[k], target@),
        decreases c.items@.len() - i,
    {
        assert(config::views(c.items@)[i as int] == c.items@[i as int]@);
        match config::item_path(&c.items[i]) {
            Some(v) => {
                let key = config::path_key(v.as_str());
                if text::same(key.as_str(), target.as_str()) {
                    assert(config::launches(config::views(c.items@)[i as int], target@));
                    return true;
                }
            },
            None => {},
        }
        i += 1;
    }
    false
}

/// A line of a menu; an empty text is a line between.
#[derive(Debug)]
pub struct MenuLine {
    pub id: usize,
    pub text: String,
    pub enabled: bool,
}

pub open spec fn line_views(v: Seq<MenuLine>) -> Seq<(usize, Seq<char>, bool)> {
    v.map_values(|l: MenuLine| (l.id, l.text@, l.enabled))
}

pub open spec fn between() -> (usize, Seq<char>, bool) {
    (0, ""@, false)
}

fn add_menu_line(out: &mut Vec<MenuLine>, id: usize, text: &str, enabled: bool)
    ensures
        line_views(final(out)@) == line_views(old(out)@).push((id, text@, enabled)),
{
    let ghost was = out@;
    out.push(MenuLine { id, text: text::copy_text(text), enabled });
    assert(line_views(out@) =~= line_views(was).push((id, text@, enabled)));
}

/// The menu of a program.
pub fn entry_menu(has_path: bool, pinned: bool) -> (r: Vec<MenuLine>)
    ensures
        line_views(r@) == seq![
            (ID_CTX_OPEN, "打开"@, true),
            (
                ID_CTX_PIN,
                if pinned {
                    "已固定到 Dock"@
                } else {
                    "固定到 Dock"@
                },
                has_path && !pinned,
            ),
            between(),
            (ID_CTX_HIDE, "移除该程序"@, true),
        ],
{
    let mut out: Vec<MenuLine> = Vec::new();
    assert(line_views(out@) =~= seq![]);
    add_menu_line(&mut out, ID_CTX_OPEN, "打开", true);
    let pin: &str = if pinned {
        "已固定到 Dock"
    } else {
        "固定到 Dock"
    };
    add_menu_line(&mut out, ID_CTX_PIN, pin, has_path && !pinned);
    add_menu_line(&mut out, 0, "", false);
    add_menu_line(&mut out, ID_CTX_HIDE, "移除该程序", true);
    out
}

/// The lines for the categories, in order.
pub open spec fn category_lines(cats: Seq<categories::CategoryView>) -> Seq<
    (usize, Seq<char>, bool),
> {
    Seq::new(
        cats.len(),
        |i: int| ((ID_CTX_CATEGORY_BASE + i) as usize, cats[i].name, true),
    )
}

/// The menu of the categories into which a program can go.
pub open spec fn category_menu_of(cats: Seq<categories::CategoryView>) -> Seq<
    (usize, Seq<char>, bool),
> {
    seq![(ID_CTX_UNCATEGORIZED, "未分类"@, true)] + (if cats.len() > 0 {
        seq![between()]
    } else {
        seq![]
    }) + category_lines(cats) + seq![between(), (ID_CTX_NEW_CATEGORY, "新建分类..."@, true)]
}

/// The menu of the categories into which a program can go.
pub fn category_menu(categories: &Categories) -> (r: Vec<MenuLine>)
    requires
        categories.categories@.len() <= usize::MAX - ID_CTX_CATEGORY_BASE,
    ensures
        line_views(r@) == category_menu_of(categories@.categories),
{
    let ghost cats = categories@.categories;
    let n: usize = categories.categories.len();
    let mut out: Vec<MenuLine> = Vec::new();
    assert(line_views(out@) =~= seq![]);
    add_menu_line(&mut out, ID_CTX_UNCATEGORIZED, "未分类", true);
    if n > 0 {
        add_menu_line(&mut out, 0, "", false);
    }
    let ghost head = line_views(out@);
    let mut i: usize = 0;
    assert(line_views(out@) =~= head + category_lines(cats).take(0));
    while i < n
        invariant
            n == categories.categories@.len(),
            n <= usize::MAX - ID_CTX_CATEGORY_BASE,
            cats == categories@.categories,
            i <= n,
            line_views(out@) == head + category_lines(cats).take(i as int),
        decreases n - i,
    {
        assert(cats[i as int] == categories.categories@[i as int]@);
        add_menu_line(
            &mut out,
            ID_CTX_CATEGORY_BASE + i,
            categories.categories[i].name.as_str(),
            true,
        );
        proof {
            assert(category_lines(cats).take(i as int + 1) =~= category_lines(cats).take(
                i as int,
            ).push(category_lines(cats)[i as int]));
            assert(line_views(out@) =~= head + category_lines(cats).take(i as int + 1));
        }
        i += 1;
    }
    assert(category_lines(cats).take(i as int) =~= category_lines(cats));
    add_menu_line(&mut out, 0, "", false);
    add_menu_line(&mut out, ID_CTX_NEW_CATEGORY, "新建分类...", true);
    assert(line_views(out@) =~= category_menu_of(cats));
    out
}

/// The menu of the drawer itself.
pub fn background_menu(any_hidden: bool) -> (r: Vec<MenuLine>)
    ensures
        line_views(r@) == seq![
            (ID_CTX_NEW_CATEGORY, "新建分类"@, true),
            (ID_CTX_RESTORE, "恢复已移除项目"@, any_hidden),
            (ID_CTX_REFRESH, "刷新程序列表"@, true),
        ],
{
    let mut out: Vec<MenuLine> = Vec::new();
    assert(line_views(out@) =~= seq![]);
    add_menu_line(&mut out, ID_CTX_NEW_CATEGORY, "新建分类", true);
    add_menu_line(&mut out, ID_CTX_RESTORE, "恢复已移除项目", any_hidden);
    add_menu_line(&mut out, ID_CTX_REFRESH, "刷新程序列表", true);
    out
}

/// What a choice from the menu of a program asks for.
#[derive(Clone, Copy, Debug, PartialEq, Eq, Structural)]
pub enum EntryCommand {
    Open,
    Pin,
    Hide,
    /// Into this category, or out of all.
    MoveTo(Option<usize>),
    MoveToNew,
    Nothing,
}

pub open spec fn entry_choice(id: usize, categories: nat) -> EntryCommand {
    if id == ID_CTX_OPEN {
        EntryCommand::Open
    } else if id == ID_CTX_PIN {
        EntryCommand::Pin
    } else if id == ID_CTX_HIDE {
        EntryCommand::Hide
    } else if id == ID_CTX_UNCATEGORIZED {
        EntryCommand::MoveTo(None)
    } else if id == ID_CTX_NEW_CATEGORY {
        EntryCommand::MoveToNew
    } else if ID_CTX_CATEGORY_BASE <= id && id - ID_CTX_CATEGORY_BASE < categories {
        EntryCommand::MoveTo(Some((id - ID_CTX_CATEGORY_BASE) as usize))
    } else {
        EntryCommand::Nothing
    }
}

/// What a choice from the menu of a program asks for, with this many categories.
pub fn entry_command(id: usize, categories: usize) -> (r: EntryCommand)
    ensures
        r == entry_choice(id, categories as nat),
{
    if id == ID_CTX_OPEN {
        EntryCommand::Open
    } else if id == ID_CTX_PIN {
        EntryCommand::Pin
    } else if id == ID_CTX_HIDE {
        EntryCommand::Hide
    } else if id == ID_CTX_UNCATEGORIZED {
        EntryCommand::MoveTo(None)
    } else if id == ID_CTX_NEW_CATEGORY {
        EntryCommand::MoveToNew
    } else if id >= ID_CTX_CATEGORY_BASE && id - ID_CTX_CATEGORY_BASE < categories {
        EntryCommand::MoveTo(Some(id - ID_CTX_CATEGORY_BASE))
    } else {
        EntryCommand::Nothing
    }
}

/// What a choice from the menu of the drawer asks for.
#[derive(Clone, Copy, Debug, PartialEq, Eq, Structural)]
pub enum BackgroundCommand {
    NewCategory,
    Restore,
    Refresh,
    Nothing,
}

/// What a choice from the menu of the drawer asks for.
pub fn background_command(id: usize) -> (r: BackgroundCommand)
    ensures
        r == (if id == ID_CTX_NEW_CATEGORY {
            BackgroundCommand::NewCategory
        } else if id == ID_CTX_RESTORE {
            BackgroundCommand::Restore
        } else if id == ID_CTX_REFRESH {
            BackgroundCommand::Refresh
        } else {
            BackgroundCommand::Nothing
        }),
{
    if id == ID_CTX_NEW_CATEGORY {
        BackgroundCommand::NewCategory
    } else if id == ID_CTX_RESTORE {
        BackgroundCommand::Restore
    } else if id == ID_CTX_REFRESH {
        BackgroundCommand::Refresh
    } else {
        BackgroundCommand::Nothing
    }
}

/// Takes a program off the drawer: whether there was one.
pub fn hide_entry(entries: &mut Vec<DrawerEntry>, categories: &mut Categories, entry: usize) -> (r:
    bool)
    ensures
        r == (entry < old(entries)@.len()),
        r ==> final(entries)@ == old(entries)@.remove(entry as int) && final(categories)@
            == categories::concealed(old(categories)@, old(entries)@[entry as int].key@),
        !r ==> final(entries)@ == old(entries)@ && final(categories)@ == old(categories)@,
        r ==> final(categories)@.hidden.contains(old(entries)@[entry as int].key@),
        r ==> forall|i: int|
            0 <= i < final(categories)@.categories.len() ==> !(
            #[trigger] final(categories)@.categories[i]).items.contains(
                old(entries)@[entry as int].key@,
            ),
        r ==> final(entries)@.len() == old(entries)@.len() - 1,
{
    if entry >= entries.len() {
        return false;
    }
    let key = text::copy_text(entries[entry].key.as_str());
    proof {
        categories_laws::law_concealed_is_in_no_row(categories@, key@);
    }
    categories.hide_item(key.as_str());
    entries.remove(entry);
    true
}

/// Puts a program at the end of a category, or out of all: whether there was one.
pub fn move_entry_to_category(
    entries: &Vec<DrawerEntry>,
    categories: &mut Categories,
    entry: usize,
    target: Option<usize>,
) -> (r: bool)
    ensures
        r == (entry < entries@.len()),
        final(categories)@ == (if r {
            categories::moved(
                old(categories)@,
                entries@[entry as int].key@,
                target,
                usize::MAX,
            )
        } else {
            old(categories)@
        }),
        r && target is Some && target->0 < old(categories)@.categories.len() ==> ({
            let items = final(categories)@.categories[target->0 as int].items;
            items.len() > 0 && items.last() == entries@[entry as int].key@
        }),
        r && target is None ==> forall|i: int|
            0 <= i < final(categories)@.categories.len() ==> !(
            #[trigger] final(categories)@.categories[i]).items.contains(
                entries@[entry as int].key@,
            ),
        r ==> !final(categories)@.hidden.contains(entries@[entry as int].key@),
{
    if entry >= entries.len() {
        return false;
    }
    categories.move_item(entries[entry].key.as_str(), target, usize::MAX);
    proof {
        if target is Some && target->0 < categories@.categories.len() {
            let t = target->0 as int;
            assert(categories@.categories[t].items.len() == categories.categories@[t].items.len());
        }
    }
    true
}

/// Puts a program into a new category: the category's place, where there was a program.
pub fn move_entry_to_new_category(
    entries: &Vec<DrawerEntry>,
    categories: &mut Categories,
    entry: usize,
) -> (r: Option<usize>)
    ensures
        match r {
            None => entry >= entries@.len() && final(categories)@ == old(categories)@,
            Some(place) => {
                &&& entry < entries@.len()
                &&& place == old(categories)@.categories.len()
                &&& final(categories)@ == categories::moved(
                    categories::CategoriesView {
                        categories: old(categories)@.categories.push(
                            categories::CategoryView {
                                name: fresh_name(old(categories)@.categories.len()),
                                items: seq![],
                            },
                        ),
                        ..old(categories)@
                    },
                    entries@[entry as int].key@,
                    Some(place),
                    0,
                )
            },
        },
        r is Some ==> final(categories)@.categories.len() == old(categories)@.categories.len() + 1
            && final(categories)@.categories.last().items == seq![entries@[entry as int].key@],
{
    if entry >= entries.len() {
        return None;
    }
    let place: usize = add_category(categories);
    categories.move_item(entries[entry].key.as_str(), Some(place), 0);
    Some(place)
}

/// The category that a section stands for; none for the programs without one.
pub open spec fn category_of_section(kind: SectionKind) -> Option<usize> {
    match kind {
        SectionKind::Custom(c) => Some(c),
        SectionKind::Uncategorized => None,
    }
}

/// Puts a program where the user has dropped it.
pub fn commit_drop(
    entries: &Vec<DrawerEntry>,
    sections: &Vec<Section>,
    categories: &mut Categories,
    entry: usize,
    target: Option<(usize, usize)>,
) -> (r: bool)
    requires
        entry < entries@.len(),
        target matches Some((section, _)) ==> section < sections@.len(),
    ensures
        r == (target is Some),
        final(categories)@ == (match target {
            Some((section, index)) => categories::moved(
                old(categories)@,
                entries@[entry as int].key@,
                category_of_section(sections@[section as int].kind),
                index,
            ),
            None => old(categories)@,
        }),
        target matches Some((section, index)) ==> (match sections@[section as int].kind {
            SectionKind::Custom(c) => c < old(categories)@.categories.len() ==> ({
                let items = final(categories)@.categories[c as int].items;
                let at = if index < items.len() {
                    index as int
                } else {
                    items.len() - 1
                };
                items.len() > 0 && items[at] == entries@[entry as int].key@
            }),
            SectionKind::Uncategorized => forall|i: int|
                0 <= i < final(categories)@.categories.len() ==> !(
                #[trigger] final(categories)@.categories[i]).items.contains(
                    entries@[entry as int].key@,
                ),
        }),
{
    match target {
        Some((section, index)) => {
            let into: Option<usize> = match sections[section].kind {
                SectionKind::Custom(c) => Some(c),
                SectionKind::Uncategorized => None,
            };
            categories.move_item(entries[entry].key.as_str(), into, index);
            true
        },
        None => false,
    }
}

/// Renames a category as the user has typed it; an empty name and a cancelled prompt
/// change nothing.
pub fn finish_rename(categories: &mut Categories, category: usize, typed: &Option<String>) -> (r:
    bool)
    ensures
        r == (text::opt_text(*typed) matches Some(n) && n.len() > 0),
        final(categories)@ == (if r {
            categories::renamed(old(categories)@, category, typed->Some_0@)
        } else {
            old(categories)@
        }),
{
    match typed {
        Some(name) => {
            let chars = text::chars_of(name.as_str());
            if chars.len() == 0 {
                return false;
            }
            categories.rename(category, name.as_str());
            true
        },
        None => false,
    }
}

/// A program that the user drags.
#[derive(Clone, Copy, Debug, PartialEq, Eq, Structural)]
pub struct Drag {
    pub entry: usize,
    /// The pointer has moved far enough for this not to be a click.
    pub active: bool,
}

/// What the drawer remembers.
#[derive(Clone, Copy, Debug, PartialEq, Eq, Structural)]
pub struct DrawerState {
    pub hovered: Option<usize>,
    pub drag: Option<Drag>,
    /// The user is naming a category.
    pub editing: bool,
    pub closing: bool,
}

/// One thing done for the drawer.
#[derive(Clone, Copy, Debug, PartialEq, Eq, Structural)]
pub enum DrawerEffect {
    Redraw,
    /// Follow the pointer outside the window too.
    Capture,
    Release,
    /// Start the animation, and see that it runs.
    Animate,
    Launch(usize),
    Drop(usize),
    DeleteCategory(usize),
    Rename(usize),
    AddCategory,
    EntryMenu(usize),
    BackgroundMenu,
    Destroy,
}

/// A control in the heading of a category.
#[derive(Clone, Copy, Debug, PartialEq, Eq, Structural)]
pub enum HeaderAction {
    Rename,
    Delete,
}

/// The drawer begins to close, unless it is closing.
pub open spec fn closed_state(s: DrawerState) -> DrawerState {
    if s.closing {
        s
    } else {
        DrawerState { closing: true, hovered: None, drag: None, ..s }
    }
}

pub open spec fn closed_effects(s: DrawerState) -> Seq<DrawerEffect> {
    if s.closing {
        seq![]
    } else {
        seq![DrawerEffect::Release, DrawerEffect::Animate]
    }
}

/// The drawer begins to close, unless it is closing.
pub fn start_close(s: &mut DrawerState) -> (r: Vec<DrawerEffect>)
    ensures
        *final(s) == closed_state(*old(s)),
        r@ == closed_effects(*old(s)),
{
    let mut out: Vec<DrawerEffect> = Vec::new();
    if s.closing {
        assert(out@ =~= seq![]);
        return out;
    }
    *s = DrawerState { closing: true, hovered: None, drag: None, editing: s.editing };
    out.push(DrawerEffect::Release);
    out.push(DrawerEffect::Animate);
    assert(out@ =~= seq![DrawerEffect::Release, DrawerEffect::Animate]);
    out
}

/// The button goes down, on a program or beside.
pub fn on_down(s: &mut DrawerState, entry: Option<usize>) -> (r: Vec<DrawerEffect>)
    ensures
        *final(s) == (match entry {
            Some(e) => DrawerState { drag: Some(Drag { entry: e, active: false }), ..*old(s) },
            None => *old(s),
        }),
        r@ == (if entry is Some {
            seq![DrawerEffect::Capture]
        } else {
            seq![]
        }),
        entry is Some
            ==> final(s).drag is Some && final(s).drag->0.entry == entry->0 && !final(s).drag->0.active,
        entry is None ==> r@.len() == 0,
        final(s).closing == old(s).closing && final(s).editing == old(s).editing,
{
    let mut out: Vec<DrawerEffect> = Vec::new();
    match entry {
        Some(e) => {
            s.drag = Some(Drag { entry: e, active: false });
            out.push(DrawerEffect::Capture);
            assert(out@ =~= seq![DrawerEffect::Capture]);
        },
        None => {
            assert(out@ =~= seq![]);
        },
    }
    out
}

pub open spec fn drag_on(d: Drag, far: bool) -> Drag {
    Drag { active: d.active || far, ..d }
}

/// The pointer moves: a program is dragged once it is far enough from where the button
/// went down; without a drag the program under the pointer is marked.
pub fn on_move(s: &mut DrawerState, far: bool, cell: Option<usize>) -> (r: Vec<DrawerEffect>)
    ensures
        *final(s) == (match old(s).drag {
            Some(d) => DrawerState { drag: Some(drag_on(d, far)), ..*old(s) },
            None => DrawerState { hovered: cell, ..*old(s) },
        }),
        r@ == (match old(s).drag {
            Some(d) => if drag_on(d, far).active {
                seq![DrawerEffect::Redraw]
            } else {
                seq![]
            },
            None => if cell == old(s).hovered {
                seq![]
            } else {
                seq![DrawerEffect::Redraw]
            },
        }),
        old(s).drag is Some ==> final(s).drag is Some && final(s).drag->0.entry == old(
            s,
        ).drag->0.entry && (final(s).drag->0.active <==> old(s).drag->0.active || far),
        old(s).drag is None ==> final(s).drag is None && final(s).hovered == cell,
        old(s).drag is None ==> (r@.len() > 0 <==> cell != old(s).hovered),
        final(s).closing == old(s).closing,
{
    let mut out: Vec<DrawerEffect> = Vec::new();
    let draws: bool = match s.drag {
        Some(d) => {
            let active: bool = d.active || far;
            s.drag = Some(Drag { entry: d.entry, active });
            active
        },
        None => {
            let same: bool = match (cell, s.hovered) {
                (Some(a), Some(b)) => a == b,
                (None, None) => true,
                _ => false,
            };
            s.hovered = cell;
            !same
        },
    };
    if draws {
        out.push(DrawerEffect::Redraw);
        assert(out@ =~= seq![DrawerEffect::Redraw]);
    } else {
        assert(out@ =~= seq![]);
    }
    out
}

pub open spec fn released_state(s: DrawerState) -> DrawerState {
    match s.drag {
        Some(d) => if d.active {
            DrawerState { drag: None, hovered: None, ..s }
        } else {
            closed_state(DrawerState { drag: None, ..s })
        },
        None => s,
    }
}

pub open spec fn released_effects(
    s: DrawerState,
    header: Option<(usize, HeaderAction)>,
    on_add: bool,
) -> Seq<DrawerEffect> {
    match s.drag {
        Some(d) => if d.active {
            seq![DrawerEffect::Release, DrawerEffect::Drop(d.entry), DrawerEffect::Redraw]
        } else {
            seq![DrawerEffect::Release, DrawerEffect::Launch(d.entry)] + closed_effects(s)
        },
        None => match header {
            Some((c, HeaderAction::Delete)) => seq![DrawerEffect::DeleteCategory(c)],
            Some((c, HeaderAction::Rename)) => seq![DrawerEffect::Rename(c)],
            None => if on_add {
                seq![DrawerEffect::AddCategory]
            } else {
                seq![]
            },
        },
    }
}

/// The button comes up: a dragged program is dropped, a clicked one is opened and the
/// drawer closes; otherwise a control of a heading or the button for a new category may
/// have been clicked.
pub fn on_up(s: &mut DrawerState, header: Option<(usize, HeaderAction)>, on_add: bool) -> (r: Vec<
    DrawerEffect,
>)
    ensures
        *final(s) == released_state(*old(s)),
        r@ == released_effects(*old(s), header, on_add),
{
    let was: DrawerState = *s;
    let mut out: Vec<DrawerEffect> = Vec::new();
    match was.drag {
        Some(d) => {
            out.push(DrawerEffect::Release);
            if d.active {
                *s = DrawerState {
                    hovered: None,
                    drag: None,
                    editing: was.editing,
                    closing: was.closing,
                };
                out.push(DrawerEffect::Drop(d.entry));
                out.push(DrawerEffect::Redraw);
                assert(out@ =~= released_effects(was, header, on_add));
            } else {
                s.drag = None;
                out.push(DrawerEffect::Launch(d.entry));
                let mut more = start_close(s);
                out.append(&mut more);
                assert(out@ =~= released_effects(was, header, on_add));
            }
        },
        None => {
            match header {
                Some((c, HeaderAction::Delete)) => {
                    out.push(DrawerEffect::DeleteCategory(c));
                },
                Some((c, HeaderAction::Rename)) => {
                    out.push(DrawerEffect::Rename(c));
                },
                None => {
                    if on_add {
                        out.push(DrawerEffect::AddCategory);
                    }
                },
            }
            assert(out@ =~= released_effects(was, header, on_add));
        },
    }
    out
}

/// The right button comes up, on a program or beside; nothing happens while the drawer
/// closes.
pub fn on_right_up(s: &DrawerState, entry: Option<usize>) -> (r: Option<DrawerEffect>)
    ensures
        r == (if s.closing {
            None
        } else {
            Some(
                match entry {
                    Some(e) => DrawerEffect::EntryMenu(e),
                    None => DrawerEffect::BackgroundMenu,
                },
            )
        }),
        r is None <==> s.closing,
        !s.closing && entry is Some ==> r == Some(DrawerEffect::EntryMenu(entry->0)),
{
    if s.closing {
        return None;
    }
    Some(
        match entry {
            Some(e) => DrawerEffect::EntryMenu(e),
            None => DrawerEffect::BackgroundMenu,
        },
    )
}

/// Another window comes to the front: the drawer closes, unless the user is naming a
/// category.
pub fn on_deactivate(s: &mut DrawerState) -> (r: Vec<DrawerEffect>)
    ensures
        *final(s) == (if old(s).editing {
            *old(s)
        } else {
            closed_state(*old(s))
        }),
        r@ == (if old(s).editing {
            seq![]
        } else {
            closed_effects(*old(s))
        }),
        old(s).editing ==> final(s).closing == old(s).closing && r@.len() == 0,
        !old(s).editing ==> final(s).closing,
        r@.contains(DrawerEffect::Animate) <==> !old(s).editing && !old(s).closing,
{
    if s.editing {
        let out: Vec<DrawerEffect> = Vec::new();
        assert(out@ =~= seq![]);
        return out;
    }
    start_close(s)
}

/// Escape: a drag is given up, or else the drawer closes.
pub fn on_escape(s: &mut DrawerState) -> (r: Vec<DrawerEffect>)
    ensures
        *final(s) == (if old(s).drag is Some {
            DrawerState { drag: None, ..*old(s) }
        } else {
            closed_state(*old(s))
        }),
        r@ == (if old(s).drag is Some {
            seq![DrawerEffect::Release, DrawerEffect::Redraw]
        } else {
            closed_effects(*old(s))
        }),
        final(s).closing <==> old(s).closing || old(s).drag is None,
        final(s).drag is None,
        old(s).drag is Some ==> !r@.contains(DrawerEffect::Animate),
        old(s).drag is None && !old(s).closing ==> r@.contains(DrawerEffect::Animate),
{
    if s.drag.is_some() {
        let mut out: Vec<DrawerEffect> = Vec::new();
        s.drag = None;
        out.push(DrawerEffect::Release);
        out.push(DrawerEffect::Redraw);
        assert(out@ =~= seq![DrawerEffect::Release, DrawerEffect::Redraw]);
        return out;
    }
    start_close(s)
}

/// A frame of the animation has been drawn: whether another follows, and whether the
/// window goes. `over` says that the time of the animation has passed.
pub fn on_frame(s: &DrawerState, over: bool) -> (r: (bool, Option<DrawerEffect>))
    ensures
        r.0 == !over,
        r.1 == (if s.closing && over {
            Some(DrawerEffect::Destroy)
        } else {
            None
        }),
        r.1 is Some ==> !r.0,
        r.1 is Some <==> over && s.closing,
{
    if s.closing && over {
        return (false, Some(DrawerEffect::Destroy));
    }
    (!over, None)
}

/// What the button of a panel does.
#[derive(Clone, Copy, Debug, PartialEq, Eq, Structural)]
pub enum ToggleStep {
    Close,
    Open,
    Ignore,
}

/// The time from one tick to another, of a clock that starts over.
pub open spec fn ticks_between(last: u32, now: u32) -> int {
    if now >= last {
        now - last
    } else {
        now - last + 0x1_0000_0000
    }
}

/// What the button of a panel does: it closes an open panel, and opens a closed one unless
/// that has closed just now. A click on the button closes the panel by itself.
pub fn toggle(open: bool, last_closed: u32, now: u32) -> (r: ToggleStep)
    ensures
        r == (if open {
            ToggleStep::Close
        } else if ticks_between(last_closed, now) < REOPEN_GUARD_MS {
            ToggleStep::Ignore
        } else {
            ToggleStep::Open
        }),
        r == ToggleStep::Close <==> open,
        !open && now >= last_closed ==> (r == ToggleStep::Open <==> now - last_closed
            >= REOPEN_GUARD_MS),
        !open && now < last_closed ==> (r == ToggleStep::Open <==> now + 0x1_0000_0000 - last_closed
            >= REOPEN_GUARD_MS),
{
    if open {
        return ToggleStep::Close;
    }
    let since: u32 = if now >= last_closed {
        now - last_closed
    } else {
        u32::MAX - last_closed + now + 1
    };
    if since < REOPEN_GUARD_MS {
        ToggleStep::Ignore
    } else {
        ToggleStep::Open
    }
}

/// The menu of categories chooses the category that it names.
pub proof fn law_category_is_chosen(cats: Seq<categories::CategoryView>, i: int)
    requires
        0 <= i < cats.len(),
        cats.len() <= usize::MAX - ID_CTX_CATEGORY_BASE,
    ensures
        category_lines(cats)[i].1 == cats[i].name,
        entry_choice(category_lines(cats)[i].0, cats.len()) == EntryCommand::MoveTo(
            Some(i as usize),
        ),
{
}

/// Nothing that the user has taken off is shown, and everything else is.
pub proof fn law_hidden_is_not_shown(
    ds: Seq<desktop_scan::EntryView>,
    hidden: Seq<Seq<char>>,
    d: desktop_scan::EntryView,
)
    ensures
        forall|i: int|
            0 <= i < built(ds, hidden).len() ==> !hidden.contains(
                (#[trigger] built(ds, hidden)[i]).key,
            ),
        ds.contains(d) && !hidden.contains(d.key) ==> built(ds, hidden).contains(entry_of(d)),
    decreases ds.len(),
{
    if ds.len() > 0 {
        let front = ds.drop_last();
        law_hidden_is_not_shown(front, hidden, d);
        let b = built(front, hidden);
        let r = built(ds, hidden);
        assert forall|i: int| 0 <= i < r.len() implies !hidden.contains((#[trigger] r[i]).key) by {
            if i < b.len() {
                assert(r[i] == b[i]);
            }
        }
        if ds.contains(d) && !hidden.contains(d.key) {
            let k = choose|k: int| 0 <= k < ds.len() && ds[k] == d;
            if k < front.len() {
                assert(front[k] == d);
                let j = choose|j: int| 0 <= j < b.len() && b[j] == entry_of(d);
                assert(r[j] == entry_of(d));
            } else {
                assert(r[r.len() - 1] == entry_of(d));
            }
        }
    }
}

/// A drawer that closes stays closing, and no program is dragged in it.
pub proof fn law_closing_lasts(s: DrawerState)
    ensures
        closed_state(s).closing,
        closed_state(closed_state(s)) == closed_state(s),
        closed_effects(closed_state(s)) == Seq::<DrawerEffect>::empty(),
        released_state(s).drag is None,
{
}

} // verus!
