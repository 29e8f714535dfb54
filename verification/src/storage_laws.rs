//! What is promised of what the dock keeps and finds again: pins, paths that went stale,
//! and the programs of the desktop.

use vstd::prelude::*;
use crate::casing;
use crate::config;
use crate::config_laws;
use crate::desktop_scan;
use crate::desktop_scan::{EntryView, Place};
use crate::desktop_scan_laws;
use crate::facts;
use crate::folder_stack;
use crate::folder_stack::StackView;
use crate::numbers;
use crate::order;
use crate::paths;
use crate::pins;
use crate::repair;
use crate::repair::{CandidateView, Finding, IdentityView, ItemFindings, Neighbour, PackagePath};
use crate::text;
use crate::dock;
use crate::text_laws;

verus! {

/// What a removal keeps is every item that launches something else, in order and unchanged.
pub proof fn law_others_are_the_rest(items: Seq<config::ItemView>, key: Seq<char>)
    ensures
        config::others(items, key) == items.filter(|x: config::ItemView| !config::launches(x, key)),
    decreases items.len(),
{
    reveal(Seq::filter);
    if items.len() > 0 {
        law_others_are_the_rest(items.drop_last(), key);
    } else {
        assert(config::others(items, key) =~= items.filter(
            |x: config::ItemView| !config::launches(x, key),
        ));
    }
}

/// An item launches its path, or its executable where it has no path; one with neither
/// launches nothing.
pub proof fn law_launches(item: config::ItemView, key: Seq<char>)
    ensures
        item.path matches Some(p) ==> (config::launches(item, key) <==> paths::key_of(p) == key),
        item.path is None && item.exe is Some ==> (config::launches(item, key) <==> paths::key_of(
            item.exe->0,
        ) == key),
        item.path is None && item.exe is None ==> !config::launches(item, key),
{
}

/// Replacing a path changes it wherever it stands, as a path or an executable, and nothing
/// else of any item.
pub proof fn law_relinked(items: Seq<config::ItemView>, key: Seq<char>, new: Seq<char>, i: int)
    requires
        0 <= i < items.len(),
    ensures
        ({
            let r = config::relinked_all(items, key, new);
            let a = items[i];
            let b = r[i];
            &&& r.len() == items.len()
            &&& b.label == a.label && b.app == a.app && b.icon == a.icon
            &&& a.path matches Some(p) ==> b.path == Some(if paths::key_of(p) == key {
                new
            } else {
                p
            })
            &&& a.exe matches Some(p) ==> b.exe == Some(if paths::key_of(p) == key {
                new
            } else {
                p
            })
            &&& a.path is None ==> b.path is None
            &&& a.exe is None ==> b.exe is None
        }),
{
}

proof fn lemma_launch_stays(
    items: Seq<config::ItemView>,
    item: config::ItemView,
    key: Seq<char>,
)
    requires
        config::has_launch(items, key),
    ensures
        config::has_launch(items.push(item), key),
{
    let i = choose|i: int| 0 <= i < items.len() && config::launches(#[trigger] items[i], key);
    assert(items.push(item)[i] == items[i]);
}

/// The path at `k` exists and is launched by one of these items.
pub open spec fn is_pinned(
    list: Seq<Seq<char>>,
    exist: Seq<bool>,
    items: Seq<config::ItemView>,
    k: int,
) -> bool {
    exist[k] && config::has_launch(items, paths::key_of(list[k]))
}

/// The path at `j` is the first that does not exist, and all before it are pinned.
pub open spec fn ended_at(
    list: Seq<Seq<char>>,
    exist: Seq<bool>,
    items: Seq<config::ItemView>,
    missing: Seq<char>,
    j: int,
) -> bool {
    &&& 0 <= j < list.len() && list[j] == missing && !exist[j]
    &&& forall|k: int| 0 <= k < j ==> #[trigger] is_pinned(list, exist, items, k)
}

/// Pinning keeps what is pinned, in its order; after it every path of the list up to the
/// first that does not exist is launched by an item, and as many items are new as are
/// counted.
pub proof fn law_pinned(content: Option<Seq<char>>, list: Seq<Seq<char>>, exist: Seq<bool>)
    requires
        list.len() == exist.len(),
    ensures
        config::parsed(config::content_of(pins::pinned_all(content, list, exist).content)).len()
            == config::parsed(config::content_of(content)).len() + pins::pinned_all(
            content,
            list,
            exist,
        ).count,
        config::parsed(config::content_of(pins::pinned_all(content, list, exist).content)).take(
            config::parsed(config::content_of(content)).len() as int,
        ) == config::parsed(config::content_of(content)),
        pins::pinned_all(content, list, exist).missing is None ==> forall|j: int|
            0 <= j < list.len() ==> #[trigger] is_pinned(
                list,
                exist,
                config::parsed(config::content_of(pins::pinned_all(content, list, exist).content)),
                j,
            ),
        pins::pinned_all(content, list, exist).missing is Some ==> exists|j: int| #[trigger]
            ended_at(
                list,
                exist,
                config::parsed(config::content_of(pins::pinned_all(content, list, exist).content)),
                pins::pinned_all(content, list, exist).missing->0,
                j,
            ),
    decreases list.len(),
{
    let r = pins::pinned_all(content, list, exist);
    let before = config::parsed(config::content_of(content));
    if list.len() == 0 {
        assert(before.take(before.len() as int) =~= before);
    } else {
        let fl = list.drop_last();
        let fe = exist.drop_last();
        law_pinned(content, fl, fe);
        pins::law_content_changes_by_pinning(content, fl, fe);
        let p = pins::pinned_all(content, fl, fe);
        let mid = config::parsed(config::content_of(p.content));
        let after = config::parsed(config::content_of(r.content));
        let path = list.last();
        let n = list.len() - 1;
        assert(list[n] == path && exist[n] == exist.last());
        assert forall|k: int|
            0 <= k < n && is_pinned(fl, fe, mid, k) implies #[trigger] is_pinned(
            list,
            exist,
            mid,
            k,
        ) by {
            assert(fl[k] == list[k] && fe[k] == exist[k]);
        }
        if p.missing is Some {
            let j = choose|j: int| ended_at(fl, fe, mid, p.missing->0, j);
            assert(ended_at(fl, fe, mid, p.missing->0, j));
            assert(list[j] == fl[j] && exist[j] == fe[j]);
            assert(after == mid);
            assert forall|k: int| 0 <= k < j implies #[trigger] is_pinned(list, exist, after, k) by {
                assert(is_pinned(fl, fe, mid, k));
            }
            assert(ended_at(list, exist, after, p.missing->0, j));
            assert(r == p);
            assert(ended_at(list, exist, after, r.missing->0, j));
        } else if !exist.last() {
            assert(after == mid);
            assert forall|k: int| 0 <= k < n implies #[trigger] is_pinned(list, exist, after, k) by {
                assert(is_pinned(fl, fe, mid, k));
            }
            assert(ended_at(list, exist, after, path, n));
            assert(r.missing == Some(path) && r.count == p.count);
            assert(ended_at(list, exist, after, r.missing->0, n));
        } else {
            let c = config::content_of(p.content);
            let added = !config::has_launch(config::parsed(c), paths::key_of(path));
            let label = crate::command_palette::name_for(path, "Item"@);
            if added {
                config_laws::law_added_is_last(c, label, path);
                config_laws::law_added_is_found(c, label, path);
                assert(after == mid.push(config::new_item(label, path)));
                assert(after.take(before.len() as int) =~= mid.take(before.len() as int));
            }
            assert forall|j: int| 0 <= j < list.len() implies #[trigger] is_pinned(
                list,
                exist,
                after,
                j,
            ) by {
                if j < n {
                    assert(is_pinned(fl, fe, mid, j));
                    assert(is_pinned(list, exist, mid, j));
                    if added {
                        lemma_launch_stays(
                            mid,
                            config::new_item(label, path),
                            paths::key_of(list[j]),
                        );
                    }
                }
            }
            assert(r.missing is None);
            assert(after.len() == before.len() + r.count);
            assert(after.take(before.len() as int) == before);
        }
    }
}

/// Numbers in which versions differ first decide which is newer, and a version that only
/// goes on is newer.
pub proof fn law_version_before(a: Seq<u64>, b: Seq<u64>)
    ensures
        repair::version_before(a, b) <==> exists|k: int| #[trigger] version_differs(a, b, k),
    decreases a.len(),
{
    if a.len() > 0 && b.len() > 0 && a[0] == b[0] {
        let x = a.skip(1);
        let y = b.skip(1);
        law_version_before(x, y);
        if repair::version_before(x, y) {
            let k = choose|k: int| #[trigger] version_differs(x, y, k);
            assert forall|i: int| 0 <= i < k + 1 implies #[trigger] a[i] == b[i] by {
                if i > 0 {
                    assert(x[i - 1] == y[i - 1]);
                }
            }
            assert(version_differs(a, b, k + 1));
        }
        if exists|k: int| #[trigger] version_differs(a, b, k) {
            let k = choose|k: int| #[trigger] version_differs(a, b, k);
            assert forall|i: int| 0 <= i < k - 1 implies #[trigger] x[i] == y[i] by {
                assert(a[i + 1] == b[i + 1]);
            }
            assert(version_differs(x, y, k - 1));
        }
    } else {
        if repair::version_before(a, b) {
            assert(version_differs(a, b, 0));
        }
        if exists|k: int| #[trigger] version_differs(a, b, k) {
            let k = choose|k: int| #[trigger] version_differs(a, b, k);
            if k > 0 {
                assert(a[0] == b[0]);
            }
        }
    }
}

/// Two versions are the same up to `k`, and there the first ends or has the lesser number.
pub open spec fn version_differs(a: Seq<u64>, b: Seq<u64>, k: int) -> bool {
    &&& 0 <= k <= a.len() && k < b.len()
    &&& forall|i: int| 0 <= i < k ==> #[trigger] a[i] == b[i]
    &&& k == a.len() || a[k] < b[k]
}

/// A number in a version counts as it is written, and what is none counts nothing.
pub proof fn law_version_part(n: u64, s: Seq<char>)
    ensures
        repair::version_part(numbers::decimal(n as nat)) == n,
        numbers::number(s, u64::MAX as nat) is None ==> repair::version_part(s) == 0,
        repair::version_of(s).len() == text::pieces(s, '.').len(),
        forall|i: int|
            0 <= i < repair::version_of(s).len() ==> #[trigger] repair::version_of(s)[i]
                == repair::version_part(text::pieces(s, '.')[i]),
{
    numbers::law_number_of_decimal(n as nat, u64::MAX as nat);
}

proof fn lemma_last_pair(s: Seq<char>, p: Seq<char>)
    requires
        facts::lacks(p, '_'),
    ensures
        repair::last_pair(s.push('_').push('_') + p) == s.len(),
    decreases p.len(),
{
    let t = s.push('_').push('_') + p;
    if p.len() == 0 {
        assert(t =~= s.push('_').push('_'));
    } else {
        let q = p.drop_last();
        assert(t.drop_last() =~= s.push('_').push('_') + q);
        assert(t.last() == p[p.len() - 1]);
        assert forall|i: int| 0 <= i < q.len() implies #[trigger] q[i] != '_' by {
            assert(p[i] != '_');
        }
        lemma_last_pair(s, q);
    }
}

proof fn lemma_pieces_front(a: Seq<char>, b: Seq<char>, c: char)
    requires
        facts::lacks(a, c),
    ensures
        text::pieces(a.push(c) + b, c) == seq![a] + text::pieces(b, c),
{
    let s = a.push(c) + b;
    assert forall|i: int| 0 <= i < a.len() implies s[i] != c by {
        assert(s[i] == a[i]);
    }
    text::lemma_first_of_is(s, c, a.len() as int);
    assert(s.take(a.len() as int) =~= a);
    assert(s.skip(a.len() as int + 1) =~= b);
}

proof fn lemma_pieces_one(a: Seq<char>, c: char)
    requires
        facts::lacks(a, c),
    ensures
        text::pieces(a, c) == seq![a],
{
    text::lemma_first_of_is(a, c, a.len() as int);
}

/// A package is known by the name of its directory: name, version and architecture with
/// underscores between them, and the publisher behind two.
pub proof fn law_identity(id: IdentityView)
    requires
        facts::lacks(id.name, '_'),
        facts::lacks(id.version, '_'),
        facts::lacks(id.arch, '_'),
        facts::lacks(id.publisher, '_'),
    ensures
        repair::identity_of(
            id.name.push('_') + id.version.push('_') + id.arch.push('_').push('_') + id.publisher,
        ) == Some(id),
{
    let front = id.name.push('_') + id.version.push('_') + id.arch;
    let dir = id.name.push('_') + id.version.push('_') + id.arch.push('_').push('_') + id.publisher;
    assert(dir =~= front.push('_').push('_') + id.publisher);
    lemma_last_pair(front, id.publisher);
    assert(dir.take(front.len() as int) =~= front);
    assert(dir.skip(front.len() as int + 2) =~= id.publisher);
    let rest = id.version.push('_') + id.arch;
    assert(front =~= id.name.push('_') + rest);
    lemma_pieces_front(id.name, rest, '_');
    lemma_pieces_front(id.version, id.arch, '_');
    lemma_pieces_one(id.arch, '_');
    let ps = text::pieces(front, '_');
    assert(ps =~= seq![id.name, id.version, id.arch]);
}

/// A directory holds the same package as a path that went stale: it goes by the same name,
/// architecture and publisher, whatever the case of letters and whatever its version.
pub open spec fn same_package(dir: Seq<char>, old: IdentityView) -> bool {
    repair::identity_of(dir) matches Some(id) && text::lower(id.name) == text::lower(old.name)
        && text::lower(id.arch) == text::lower(old.arch) && text::lower(id.publisher) == text::lower(
        old.publisher,
    )
}

/// Where the stale path would be in a directory.
pub open spec fn place_in(p: PackagePath, dir: Seq<char>) -> Seq<char> {
    p.root + dir + seq!['\\'] + p.rest
}

/// A place is that of the stale path in a directory of the same package.
pub open spec fn is_place_in(
    c: CandidateView,
    p: PackagePath,
    old: IdentityView,
    dir: Seq<char>,
) -> bool {
    same_package(dir, old) && c.path == place_in(p, dir) && c.version == repair::version_of(
        repair::identity_of(dir)->0.version,
    )
}

/// A place is that of the stale path in one of these directories.
pub open spec fn is_place(
    c: CandidateView,
    p: PackagePath,
    old: IdentityView,
    dirs: Seq<Seq<char>>,
) -> bool {
    exists|i: int| 0 <= i < dirs.len() && is_place_in(c, p, old, #[trigger] dirs[i])
}

/// One of these places has this path.
pub open spec fn has_place(cs: Seq<CandidateView>, path: Seq<char>) -> bool {
    exists|k: int| 0 <= k < cs.len() && (#[trigger] cs[k]).path == path
}

proof fn lemma_moved_one(p: PackagePath, old: IdentityView, dir: Seq<char>)
    ensures
        repair::moved(p, old, dir).len() == (if same_package(dir, old) {
            1int
        } else {
            0
        }),
        same_package(dir, old) ==> is_place_in(repair::moved(p, old, dir)[0], p, old, dir),
{
}

proof fn lemma_moved_all(p: PackagePath, old: IdentityView, dirs: Seq<Seq<char>>)
    ensures
        forall|k: int|
            0 <= k < repair::moved_all(p, old, dirs).len() ==> is_place(
                #[trigger] repair::moved_all(p, old, dirs)[k],
                p,
                old,
                dirs,
            ),
        forall|i: int|
            0 <= i < dirs.len() && same_package(#[trigger] dirs[i], old) ==> has_place(
                repair::moved_all(p, old, dirs),
                place_in(p, dirs[i]),
            ),
    decreases dirs.len(),
{
    if dirs.len() > 0 {
        let f = dirs.drop_last();
        let a = repair::moved_all(p, old, f);
        let m = repair::moved(p, old, dirs.last());
        let r = repair::moved_all(p, old, dirs);
        lemma_moved_all(p, old, f);
        lemma_moved_one(p, old, dirs.last());
        assert(r == a + m);
        assert forall|k: int| 0 <= k < r.len() implies is_place(#[trigger] r[k], p, old, dirs) by {
            if k < a.len() {
                assert(r[k] == a[k]);
                assert(is_place(a[k], p, old, f));
                let i = choose|i: int|
                    0 <= i < f.len() && is_place_in(a[k], p, old, #[trigger] f[i]);
                assert(dirs[i] == f[i]);
            } else {
                assert(r[k] == m[0]);
                assert(is_place_in(r[k], p, old, dirs[dirs.len() - 1]));
            }
        }
        assert forall|i: int|
            0 <= i < dirs.len() && same_package(#[trigger] dirs[i], old) implies has_place(
            r,
            place_in(p, dirs[i]),
        ) by {
            if i < f.len() {
                assert(f[i] == dirs[i]);
                assert(has_place(a, place_in(p, f[i])));
                let k = choose|k: int|
                    0 <= k < a.len() && (#[trigger] a[k]).path == place_in(p, f[i]);
                assert(r[k] == a[k]);
            } else {
                assert(r[a.len() as int] == m[0]);
            }
        }
    }
}

/// A program of a package that moved is looked for where the same package is now, in every
/// directory that holds it, below the same root and under the same name; the newer version
/// is tried first.
pub proof fn law_candidates(path: Seq<char>, dirs: Seq<Seq<char>>)
    requires
        repair::package_path(path) is Some,
        repair::identity_of(repair::package_path(path)->0.package) is Some,
    ensures
        ({
            let p = repair::package_path(path)->0;
            let old = repair::identity_of(p.package)->0;
            let cs = order::arranged(repair::moved_all(p, old, dirs), repair::newer_first());
            let r = repair::candidates_of(path, dirs);
            &&& r.len() == cs.len()
            &&& forall|k: int|
                0 <= k < r.len() ==> #[trigger] r[k] == cs[k].path && is_place(cs[k], p, old, dirs)
            &&& forall|i: int|
                0 <= i < dirs.len() && same_package(#[trigger] dirs[i], old) ==> r.contains(
                    place_in(p, dirs[i]),
                )
            &&& forall|j: int, k: int|
                0 <= j < k < cs.len() ==> !repair::version_before(
                    (#[trigger] cs[j]).version,
                    (#[trigger] cs[k]).version,
                )
        }),
{
    let p = repair::package_path(path)->0;
    let old = repair::identity_of(p.package)->0;
    let all = repair::moved_all(p, old, dirs);
    let lt = repair::newer_first();
    let cs = order::arranged(all, lt);
    let r = repair::candidates_of(path, dirs);
    lemma_moved_all(p, old, dirs);
    order::lemma_arranged_len(all, lt);
    lemma_newer();
    order::lemma_arranged_in_order(all, lt);
    assert forall|k: int| 0 <= k < r.len() implies #[trigger] r[k] == cs[k].path && is_place(
        cs[k],
        p,
        old,
        dirs,
    ) by {
        order::lemma_arranged_contains(all, lt, cs[k]);
        assert(cs.contains(cs[k]));
        let m = choose|m: int| 0 <= m < all.len() && all[m] == cs[k];
        assert(is_place(all[m], p, old, dirs));
    }
    assert forall|i: int| 0 <= i < dirs.len() && same_package(#[trigger] dirs[i], old) implies r.contains(
        place_in(p, dirs[i]),
    ) by {
        let x = place_in(p, dirs[i]);
        assert(has_place(all, x));
        let k = choose|k: int| 0 <= k < all.len() && (#[trigger] all[k]).path == x;
        order::lemma_arranged_contains(all, lt, all[k]);
        assert(all.contains(all[k]));
        let m = choose|m: int| 0 <= m < cs.len() && cs[m] == all[k];
        assert(r[m] == x);
    }
    assert forall|j: int, k: int| 0 <= j < k < cs.len() implies !repair::version_before(
        (#[trigger] cs[j]).version,
        (#[trigger] cs[k]).version,
    ) by {
        assert(!lt(cs[k], cs[j]));
    }
}

proof fn lemma_version_total(a: Seq<u64>, b: Seq<u64>)
    ensures
        !(repair::version_before(a, b) && repair::version_before(b, a)),
        !repair::version_before(a, b) && !repair::version_before(b, a) ==> a == b,
        a == b ==> !repair::version_before(a, b),
    decreases a.len(),
{
    if a.len() > 0 && b.len() > 0 {
        lemma_version_total(a.skip(1), b.skip(1));
        if a[0] == b[0] && a.skip(1) == b.skip(1) {
            assert(a =~= seq![a[0]] + a.skip(1));
            assert(b =~= seq![b[0]] + b.skip(1));
        }
    } else if a.len() == 0 && b.len() == 0 {
        assert(a =~= b);
    }
}

proof fn lemma_version_trans(a: Seq<u64>, b: Seq<u64>, c: Seq<u64>)
    requires
        repair::version_before(a, b),
        repair::version_before(b, c),
    ensures
        repair::version_before(a, c),
    decreases a.len(),
{
    if a.len() > 0 && a[0] == b[0] && b[0] == c[0] {
        lemma_version_trans(a.skip(1), b.skip(1), c.skip(1));
    }
}

proof fn lemma_newer()
    ensures
        order::strict_weak(repair::newer_first()),
{
    let lt = repair::newer_first();
    assert forall|a: CandidateView| !#[trigger] lt(a, a) by {
        lemma_version_total(a.version, a.version);
    }
    assert forall|a: CandidateView, b: CandidateView, c: CandidateView| #[trigger] lt(a, b)
        && #[trigger] lt(b, c) implies lt(a, c) by {
        lemma_version_trans(c.version, b.version, a.version);
    }
    assert forall|a: CandidateView, b: CandidateView, c: CandidateView| !#[trigger] lt(a, b)
        && !#[trigger] lt(b, c) implies !lt(a, c) by {
        lemma_version_total(a.version, b.version);
        lemma_version_total(b.version, c.version);
        lemma_version_total(a.version, c.version);
        if repair::version_before(a.version, b.version) && repair::version_before(
            b.version,
            c.version,
        ) {
            lemma_version_trans(a.version, b.version, c.version);
        }
    }
}

/// Of what may stand in for a missing path the first that is there is taken.
pub proof fn law_first_marked(items: Seq<Seq<char>>, marks: Seq<bool>)
    requires
        items.len() == marks.len(),
    ensures
        match repair::first_marked(items, marks) {
            Some(x) => exists|i: int|
                0 <= i < items.len() && x == #[trigger] items[i] && marks[i] && forall|j: int|
                    0 <= j < i ==> !#[trigger] marks[j],
            None => forall|i: int| 0 <= i < marks.len() ==> !#[trigger] marks[i],
        },
    decreases items.len(),
{
    if items.len() > 0 {
        if marks[0] {
            assert(items[0] == repair::first_marked(items, marks)->0);
        } else {
            let a = items.skip(1);
            let b = marks.skip(1);
            law_first_marked(a, b);
            match repair::first_marked(items, marks) {
                Some(x) => {
                    let i = choose|i: int|
                        0 <= i < a.len() && x == #[trigger] a[i] && b[i] && forall|j: int|
                            0 <= j < i ==> !#[trigger] b[j];
                    assert(items[i + 1] == x && marks[i + 1]);
                    assert forall|j: int| 0 <= j < i + 1 implies !#[trigger] marks[j] by {
                        if j > 0 {
                            assert(!b[j - 1]);
                        }
                    }
                },
                None => {
                    assert forall|i: int| 0 <= i < marks.len() implies !#[trigger] marks[i] by {
                        if i > 0 {
                            assert(!b[i - 1]);
                        }
                    }
                },
            }
        }
    }
}

/// A file that may stand in for a missing program: it runs, and is no uninstaller.
pub open spec fn stands_in() -> spec_fn(Neighbour) -> bool {
    |n: Neighbour|
        n.is_file && paths::extension_of(n.path@) is Some && text::lower(
            paths::extension_of(n.path@)->0,
        ) == "exe"@ && !repair::is_uninstaller(n.path@)
}

pub open spec fn path_of() -> spec_fn(Neighbour) -> Seq<char> {
    |n: Neighbour| n.path@
}

/// The programs in a directory are its files that run and are no uninstallers, in order.
pub proof fn law_applications(ns: Seq<Neighbour>)
    ensures
        repair::applications(ns) == ns.filter(stands_in()).map_values(path_of()),
    decreases ns.len(),
{
    reveal(Seq::filter);
    if ns.len() > 0 {
        law_applications(ns.drop_last());
        assert(repair::applications(ns) =~= ns.filter(stands_in()).map_values(path_of()));
    } else {
        assert(repair::applications(ns) =~= ns.filter(stands_in()).map_values(path_of()));
    }
}

/// A name is an uninstaller's where it says so anywhere, in either language.
pub proof fn law_uninstaller(lower: Seq<char>)
    ensures
        text::holds(lower, "unins"@) ==> repair::uninstaller_name(lower),
        text::holds(lower, "\u{5378}\u{8f7d}"@) ==> repair::uninstaller_name(lower),
        text::holds(lower, "uninstall"@) ==> repair::uninstaller_name(lower),
        repair::uninstaller_name(lower) ==> text::holds(lower, "unins"@) || text::holds(
            lower,
            "\u{5378}\u{8f7d}"@,
        ) || text::holds(lower, "uninstall"@),
{
}

/// A missing program is repaired by where its package is now, or else by the one program
/// beside it; two beside it are no repair, and a path that is there is none either.
pub proof fn law_repair(
    path: Seq<char>,
    dirs: Seq<Seq<char>>,
    present: Seq<bool>,
    siblings: Option<Vec<Neighbour>>,
)
    ensures
        ({
            let moved = repair::first_marked(repair::candidates_of(path, dirs), present);
            let r = repair::repair_of(path, dirs, present, siblings);
            let ends_in_exe = paths::extension_of(path) is Some && text::lower(
                paths::extension_of(path)->0,
            ) == "exe"@;
            &&& moved is Some ==> r == moved
            &&& moved is None && (siblings is None || !ends_in_exe) ==> r is None
            &&& moved is None && siblings is Some ==> {
                let apps = siblings->0@.filter(stands_in());
                &&& ends_in_exe && apps.len() == 1 ==> r == Some(apps[0].path@)
                &&& apps.len() != 1 ==> r is None
            }
        }),
{
    if let Some(ns) = siblings {
        law_applications(ns@);
    }
}

/// A field is mended where its path is gone and is known to be elsewhere, and stays as it
/// is otherwise; what is known of one field changes no other.
pub proof fn law_mended(item: config::ItemView, found: ItemFindings)
    ensures
        ({
            let r = repair::mended_item(item, found);
            &&& r.label == item.label && r.app == item.app
            &&& mended_as(item.path, found.path, r.path)
            &&& mended_as(item.exe, found.exe, r.exe)
            &&& mended_as(item.icon, found.icon, r.icon)
            &&& repair::item_needs_mending(item, found) <==> (item.path is Some
                && !found.path.exists && found.path.repaired is Some) || (item.exe is Some
                && !found.exe.exists && found.exe.repaired is Some) || (item.icon is Some
                && !found.icon.exists && found.icon.repaired is Some)
        }),
{
}

/// What becomes of a field by what the disk shows of it.
pub open spec fn mended_as(
    was: Option<Seq<char>>,
    found: Finding,
    now: Option<Seq<char>>,
) -> bool {
    &&& was is None ==> now is None
    &&& found.exists ==> now == was
    &&& found.repaired is None ==> now == was
    &&& was is Some && !found.exists && found.repaired is Some ==> now == Some(
        found.repaired->0@,
    )
}

/// The entries of the desktop stand in the order of their labels, whatever the case of
/// letters.
pub proof fn law_desktop_in_order(es: Seq<EntryView>, i: int, j: int)
    requires
        0 <= i < j < desktop_scan::sorted(es).len(),
    ensures
        !text::before(
            casing::lowercased(desktop_scan::sorted(es)[j].label),
            casing::lowercased(desktop_scan::sorted(es)[i].label),
        ),
{
    desktop_scan_laws::law_sorted(es);
    assert(!desktop_scan::by_label()(desktop_scan::sorted(es)[j], desktop_scan::sorted(es)[i]));
}

/// A program is a file that runs or points to something: a folder, a picture or a document
/// is none, nor is what has no path.
pub proof fn law_is_program(e: EntryView)
    ensures
        e.path is None ==> !desktop_scan::is_program(e),
        e.kind == crate::content::ContentKind::Folder || e.kind
            == crate::content::ContentKind::Image || e.kind == crate::content::ContentKind::File
            ==> !desktop_scan::is_program(e),
        e.path is Some && (e.kind == crate::content::ContentKind::Application || e.kind
            == crate::content::ContentKind::Shortcut) ==> desktop_scan::is_program(e),
{
}

/// The programs of a list are those entries of it that are programs, in order.
pub proof fn law_programs(es: Seq<EntryView>)
    ensures
        desktop_scan::programs(es) == es.filter(|e: EntryView| desktop_scan::is_program(e)),
    decreases es.len(),
{
    reveal(Seq::filter);
    if es.len() > 0 {
        law_programs(es.drop_last());
    } else {
        assert(desktop_scan::programs(es) =~= es.filter(|e: EntryView| desktop_scan::is_program(e)));
    }
}

/// What the drawer shows stands in the order of its labels.
pub proof fn law_drawer_in_order(scanned: Seq<EntryView>, places: Seq<EntryView>, i: int, j: int)
    requires
        0 <= i < j < desktop_scan::scan_shown(scanned, places).len(),
    ensures
        !text::before(
            casing::lowercased(desktop_scan::scan_shown(scanned, places)[j].label),
            casing::lowercased(desktop_scan::scan_shown(scanned, places)[i].label),
        ),
{
    law_desktop_in_order(
        desktop_scan::with_missing(
            desktop_scan::programs(desktop_scan::sorted(scanned)),
            places,
        ),
        i,
        j,
    );
}

/// A remembered scan is good for five minutes, and only while the desktop looks as it did;
/// one from the future is not.
pub proof fn law_fresh(written: nat, now: nat, cached: Seq<char>, current: Seq<char>)
    ensures
        cached != current ==> !desktop_scan::fresh(written, now, cached, current),
        now < written ==> !desktop_scan::fresh(written, now, cached, current),
        now > written + 300_000_000_000 ==> !desktop_scan::fresh(written, now, cached, current),
        cached == current && written <= now <= written + 300_000_000_000 ==> desktop_scan::fresh(
            written,
            now,
            cached,
            current,
        ),
{
}

/// How many of the first entries are still there.
pub open spec fn there_before(present: Seq<bool>, i: int) -> int
    decreases i,
{
    if i <= 0 {
        0
    } else {
        there_before(present, i - 1) + (if present[i - 1] {
            1int
        } else {
            0
        })
    }
}

proof fn lemma_there_before(present: Seq<bool>, last: bool, i: int)
    requires
        i <= present.len(),
    ensures
        there_before(present.push(last), i) == there_before(present, i),
        there_before(present, i) >= 0,
    decreases i,
{
    if i > 0 {
        lemma_there_before(present, last, i - 1);
    }
}

/// What is remembered of the desktop is shown where it is still there, in its order, and
/// nothing else.
pub proof fn law_still_there(es: Seq<EntryView>, present: Seq<bool>)
    requires
        es.len() == present.len(),
    ensures
        desktop_scan::still_there(es, present).len() == there_before(present, es.len() as int),
        forall|i: int|
            0 <= i < es.len() && #[trigger] present[i] ==> 0 <= there_before(present, i)
                < desktop_scan::still_there(es, present).len() && desktop_scan::still_there(
                es,
                present,
            )[there_before(present, i)] == es[i],
    decreases es.len(),
{
    if es.len() > 0 {
        let f = es.drop_last();
        let p = present.drop_last();
        assert(present =~= p.push(present.last()));
        law_still_there(f, p);
        lemma_there_before(p, present.last(), p.len() as int);
        let r = desktop_scan::still_there(es, present);
        let q = desktop_scan::still_there(f, p);
        assert forall|i: int| 0 <= i < es.len() && #[trigger] present[i] implies 0
            <= there_before(present, i) < r.len() && r[there_before(present, i)] == es[i] by {
            lemma_there_before(p, present.last(), i);
            if i < f.len() {
                assert(p[i] == present[i]);
                assert(r[there_before(p, i)] == q[there_before(p, i)]);
            }
        }
    }
}

/// Each place of the system that the drawer always shows opens the folder that it is
/// called after, and no two have the same key.
pub proof fn law_places(p: Place, q: Place)
    ensures
        desktop_scan::uri_for(desktop_scan::place_key(Place::Computer)) == Some(
            "shell:MyComputerFolder"@,
        ),
        desktop_scan::uri_for(desktop_scan::place_key(Place::RecycleBin)) == Some(
            "shell:RecycleBinFolder"@,
        ),
        desktop_scan::uri_for(desktop_scan::place_key(Place::ControlPanel)) == Some(
            "shell:ControlPanelFolder"@,
        ),
        p != q ==> desktop_scan::place_key(p) != desktop_scan::place_key(q),
{
    reveal_strlit("knownfolder:computer");
    reveal_strlit("knownfolder:recycle-bin");
    reveal_strlit("knownfolder:control-panel");
    assert("knownfolder:computer"@.len() == 20);
    assert("knownfolder:recycle-bin"@.len() == 23);
    assert("knownfolder:control-panel"@.len() == 25);
}

/// The menu of a folder has its folders first; of two folders or two files the labels
/// decide, then the paths, whatever the case of letters.
pub proof fn law_stack_in_order(es: Seq<StackView>, i: int, j: int)
    requires
        0 <= i < j < folder_stack::shown(es).len(),
    ensures
        ({
            let a = folder_stack::shown(es)[i];
            let b = folder_stack::shown(es)[j];
            &&& b.is_dir ==> a.is_dir
            &&& a.is_dir == b.is_dir ==> !text::before(
                casing::lowercased(b.label),
                casing::lowercased(a.label),
            )
            &&& a.is_dir == b.is_dir && casing::lowercased(a.label) == casing::lowercased(b.label)
                ==> !text::before(casing::lowercased(b.path), casing::lowercased(a.path))
        }),
{
    let a = folder_stack::shown(es)[i];
    let b = folder_stack::shown(es)[j];
    folder_stack::law_shown(es);
    assert(!folder_stack::stack_order()(b, a));
    text::lemma_before_total(casing::lowercased(b.label), casing::lowercased(a.label));
}

/// All entries of a folder are in its menu where it has no more than the menu holds, and
/// each that is there is one of them.
pub proof fn law_stack_holds(es: Seq<StackView>, e: StackView)
    ensures
        folder_stack::shown(es).contains(e) ==> es.contains(e),
        es.len() <= folder_stack::MAX_STACK_ITEMS && es.contains(e) ==> folder_stack::shown(
            es,
        ).contains(e),
{
    let all = order::arranged(es, folder_stack::stack_order());
    order::lemma_arranged_contains(es, folder_stack::stack_order(), e);
    order::lemma_arranged_len(es, folder_stack::stack_order());
    let r = folder_stack::shown(es);
    if r.contains(e) {
        let k = choose|k: int| 0 <= k < r.len() && r[k] == e;
        assert(all[k] == e);
    }
}

/// What the shell shows on the desktop is known by its path where it has one, and by its
/// identity where it has none; what has no name is left out.
pub proof fn law_found_entry(
    label: Option<Seq<char>>,
    path: Option<Seq<char>>,
    is_dir: bool,
    parsing: Option<Seq<char>>,
    pidl: isize,
)
    ensures
        ({
            let r = desktop_scan::found_entry(label, path, is_dir, parsing, pidl);
            let there = path is Some && path->0.len() > 0;
            &&& label is None <==> r is None
            &&& label is Some ==> r->0.label == label->0
            &&& label is Some && there ==> r->0.path == path && r->0.pidl is None && r->0.key
                == paths::key_of(path->0)
            &&& label is Some && !there ==> r->0.path is None && r->0.pidl == Some(pidl)
            &&& label is Some && !there && parsing is Some ==> r->0.key == parsing->0
        }),
{
}

/// The items of the dock that open something are written down, each under its label and
/// with its path, in their order.
pub proof fn law_pinned_items(items: Seq<dock::ItemView>)
    ensures
        ({
            let kept = items.filter(opens());
            let r = config::pinned_items(items);
            &&& r.len() == kept.len()
            &&& forall|k: int|
                0 <= k < r.len() ==> (#[trigger] r[k]).label == Some(kept[k].label) && r[k].path
                    == kept[k].path
        }),
    decreases items.len(),
{
    reveal(Seq::filter);
    if items.len() > 0 {
        law_pinned_items(items.drop_last());
    }
}

/// Whether an item of the dock opens something.
pub open spec fn opens() -> spec_fn(dock::ItemView) -> bool {
    |i: dock::ItemView| i.path is Some
}

proof fn lemma_digits_first(x: Seq<char>, u: Seq<char>, y: Seq<char>, v: Seq<char>)
    requires
        numbers::all_digits(x),
        numbers::all_digits(y),
        x + seq![':'] + u == y + seq![':'] + v,
    ensures
        x == y,
        u == v,
{
    let s = x + seq![':'] + u;
    let t = y + seq![':'] + v;
    assert(s[x.len() as int] == ':');
    assert(t[y.len() as int] == ':');
    if x.len() < y.len() {
        assert(t[x.len() as int] == y[x.len() as int]);
        assert(numbers::is_digit(y[x.len() as int]));
    }
    if y.len() < x.len() {
        assert(s[y.len() as int] == x[y.len() as int]);
        assert(numbers::is_digit(x[y.len() as int]));
    }
    assert(s.take(x.len() as int) =~= x);
    assert(t.take(y.len() as int) =~= y);
    assert(s.skip(x.len() as int + 1) =~= u);
    assert(t.skip(y.len() as int + 1) =~= v);
}

/// The sign of a folder tells every change of its size and of the time of its last change,
/// and whether it is there.
pub proof fn law_stamps_tell(a: Option<(u64, u64)>, b: Option<(u64, u64)>)
    requires
        desktop_scan::stamp_text(a) == desktop_scan::stamp_text(b),
    ensures
        a == b,
{
    reveal_strlit("missing");
    if let Some((n, m)) = a {
        numbers::lemma_decimal_digits(n as nat);
        numbers::lemma_decimal_digits(m as nat);
        assert(numbers::is_digit(numbers::decimal(n as nat)[0]));
        assert(desktop_scan::stamp_text(a)[0] == numbers::decimal(n as nat)[0]);
    }
    if let Some((p, q)) = b {
        numbers::lemma_decimal_digits(p as nat);
        numbers::lemma_decimal_digits(q as nat);
        assert(numbers::is_digit(numbers::decimal(p as nat)[0]));
        assert(desktop_scan::stamp_text(b)[0] == numbers::decimal(p as nat)[0]);
    }
    if let (Some((n, m)), Some((p, q))) = (a, b) {
        lemma_digits_first(
            numbers::decimal(n as nat),
            numbers::decimal(m as nat),
            numbers::decimal(p as nat),
            numbers::decimal(q as nat),
        );
    }
}

/// The sign of the desktop changes where a folder of it does.
pub proof fn law_desktop_sign(
    fs: Seq<desktop_scan::FolderStamp>,
    f: desktop_scan::FolderStamp,
    g: desktop_scan::FolderStamp,
)
    requires
        f.path@ == g.path@,
        desktop_scan::folders_text(fs.push(f)) == desktop_scan::folders_text(fs.push(g)),
    ensures
        f.stamp == g.stamp,
{
    let a = desktop_scan::folder_text(f);
    let b = desktop_scan::folder_text(g);
    let x = desktop_scan::folders_text(fs.push(f));
    let y = desktop_scan::folders_text(fs.push(g));
    assert(fs.push(f).drop_last() =~= fs && fs.push(g).drop_last() =~= fs);
    if fs.len() == 0 {
        assert(fs.push(f)[0] == f && fs.push(g)[0] == g);
    } else {
        let n = desktop_scan::folders_text(fs).len() + 1;
        assert(x.skip(n as int) =~= a);
        assert(y.skip(n as int) =~= b);
    }
    let h = "dir:"@ + text::lower(f.path@) + seq![':'];
    assert(a.skip(h.len() as int) =~= desktop_scan::stamp_text(f.stamp));
    assert(b.skip(h.len() as int) =~= desktop_scan::stamp_text(g.stamp));
    law_stamps_tell(f.stamp, g.stamp);
}

/// A path into a package is the directory of all packages, the package and what is below it,
/// in that order.
pub proof fn law_package_path(path: Seq<char>)
    ensures
        repair::package_path(path) matches Some(p) ==> {
            &&& path == p.root + p.package.push('\\') + p.rest
            &&& facts::lacks(p.package, '\\')
            &&& text::lower(p.root).len() >= "\\windowsapps\\"@.len()
            &&& text::lower(p.root).skip(p.root.len() - "\\windowsapps\\"@.len())
                == "\\windowsapps\\"@
        },
{
    let mark = "\\windowsapps\\"@;
    let low = text::lower(path);
    let at = text::find_from(low, mark, 0);
    text_laws::law_find(low, mark, 0);
    if at >= 0 {
        let start = at + mark.len();
        text_laws::law_cut(path.skip(start), '\\');
        if let Some((package, rest)) = text::cut(path.skip(start), '\\') {
            let root = path.take(start);
            assert(path =~= root + path.skip(start));
            assert(path =~= root + package.push('\\') + rest);
            assert(text::lower(root).skip(root.len() - mark.len()) =~= low.subrange(at, start));
        }
    }
}

/// A directory without two underscores in a row is no package.
pub proof fn law_no_identity(dir: Seq<char>)
    requires
        forall|i: int| 0 <= i < dir.len() - 1 ==> !(#[trigger] dir[i] == '_' && dir[i + 1] == '_'),
    ensures
        repair::identity_of(dir) is None,
{
    lemma_no_pair(dir);
}

proof fn lemma_no_pair(s: Seq<char>)
    requires
        forall|i: int| 0 <= i < s.len() - 1 ==> !(#[trigger] s[i] == '_' && s[i + 1] == '_'),
    ensures
        repair::last_pair(s) < 0,
    decreases s.len(),
{
    if s.len() >= 2 {
        assert(s[s.len() - 2] == '_' ==> s[s.len() - 2 + 1] != '_');
        lemma_no_pair(s.drop_last());
    }
}

} // verus!
