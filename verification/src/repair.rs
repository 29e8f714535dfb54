//! Launch paths that went stale: packages that moved with an update, executables that
//! were renamed in place.

use vstd::prelude::*;
use vstd::slice::slice_subrange;
use crate::casing;
use crate::config::Config;
use crate::config;
use crate::numbers;
use crate::order;
use crate::paths;
use crate::text;

verus! {

/// The parts of the directory name of an installed package.
pub struct AppxIdentity {
    pub name: String,
    pub version: String,
    pub arch: String,
    pub publisher: String,
}

/// What the directory name of an installed package says.
#[verifier::ext_equal]
pub struct IdentityView {
    pub name: Seq<char>,
    pub version: Seq<char>,
    pub arch: Seq<char>,
    pub publisher: Seq<char>,
}

impl View for AppxIdentity {
    type V = IdentityView;

    open spec fn view(&self) -> IdentityView {
        IdentityView {
            name: self.name@,
            version: self.version@,
            arch: self.arch@,
            publisher: self.publisher@,
        }
    }
}

/// A place where a package may be now.
pub struct Candidate {
    pub version: Vec<u64>,
    pub path: String,
}

/// A place where a package may be now: the numbers of its version, and the path.
#[verifier::ext_equal]
pub struct CandidateView {
    pub version: Seq<u64>,
    pub path: Seq<char>,
}

impl View for Candidate {
    type V = CandidateView;

    open spec fn view(&self) -> CandidateView {
        CandidateView { version: self.version@, path: self.path@ }
    }
}

/// Something found in the directory of a missing file.
pub struct Neighbour {
    pub path: String,
    pub is_file: bool,
}

/// What the disk shows of one field: whether something is at its path, and, if not,
/// where that is now.
pub struct Finding {
    pub exists: bool,
    pub repaired: Option<String>,
}

/// What the disk shows of the paths of one item.
pub struct ItemFindings {
    pub path: Finding,
    pub exe: Finding,
    pub icon: Finding,
}

/// The index of the last pair of underscores, or -1.
pub open spec fn last_pair(s: Seq<char>) -> int
    decreases s.len(),
{
    if s.len() < 2 {
        -1
    } else if s.last() == '_' && s[s.len() - 2] == '_' {
        s.len() - 2
    } else {
        last_pair(s.drop_last())
    }
}

/// The identity in a directory name: name, version and architecture with underscores
/// between them, and behind the last pair of underscores the publisher.
pub open spec fn identity_of(dir: Seq<char>) -> Option<IdentityView> {
    let at = last_pair(dir);
    if at < 0 {
        None
    } else {
        let parts = text::pieces(dir.take(at), '_');
        if parts.len() < 3 {
            None
        } else {
            Some(
                IdentityView {
                    name: parts[0],
                    version: parts[1],
                    arch: parts[2],
                    publisher: dir.skip(at + 2),
                },
            )
        }
    }
}

/// The number in one part of a version; 0 where there is none.
pub open spec fn version_part(s: Seq<char>) -> u64 {
    match numbers::number(s, u64::MAX as nat) {
        Some(n) => n as u64,
        None => 0,
    }
}

/// The numbers of a version.
pub open spec fn version_of(s: Seq<char>) -> Seq<u64> {
    let parts = text::pieces(s, '.');
    Seq::new(parts.len(), |i: int| version_part(parts[i]))
}

/// `a` comes before `b`, number by number; what `b` goes on with makes it later.
pub open spec fn version_before(a: Seq<u64>, b: Seq<u64>) -> bool
    decreases a.len(),
{
    if b.len() == 0 {
        false
    } else if a.len() == 0 {
        true
    } else if a[0] != b[0] {
        a[0] < b[0]
    } else {
        version_before(a.skip(1), b.skip(1))
    }
}

/// The same package, whatever its version; letter case makes no difference.
pub open spec fn same_package(a: IdentityView, b: IdentityView) -> bool {
    &&& text::lower(a.name) == text::lower(b.name)
    &&& text::lower(a.arch) == text::lower(b.arch)
    &&& text::lower(a.publisher) == text::lower(b.publisher)
}

/// A path below the directory of packages: what precedes the package, the package, and
/// what follows its backslash.
#[verifier::ext_equal]
pub struct PackagePath {
    pub root: Seq<char>,
    pub package: Seq<char>,
    pub rest: Seq<char>,
}

pub open spec fn package_path(path: Seq<char>) -> Option<PackagePath> {
    let at = text::find_from(text::lower(path), "\\windowsapps\\"@, 0);
    if at < 0 {
        None
    } else {
        let start = at + "\\windowsapps\\"@.len();
        match text::cut(path.skip(start), '\\') {
            Some((package, rest)) => Some(PackagePath { root: path.take(start), package, rest }),
            None => None,
        }
    }
}

/// Where `path` would be in this package directory, if it is the same package.
pub open spec fn moved(path: PackagePath, old: IdentityView, dir: Seq<char>) -> Seq<CandidateView> {
    match identity_of(dir) {
        Some(id) => if same_package(old, id) {
            seq![
                CandidateView {
                    version: version_of(id.version),
                    path: path.root + dir + seq!['\\'] + path.rest,
                },
            ]
        } else {
            seq![]
        },
        None => seq![],
    }
}

pub open spec fn moved_all(path: PackagePath, old: IdentityView, dirs: Seq<Seq<char>>) -> Seq<
    CandidateView,
>
    decreases dirs.len(),
{
    if dirs.len() == 0 {
        seq![]
    } else {
        moved_all(path, old, dirs.drop_last()) + moved(path, old, dirs.last())
    }
}

/// The newer version first.
pub open spec fn newer_first() -> spec_fn(CandidateView, CandidateView) -> bool {
    |a: CandidateView, b: CandidateView| version_before(b.version, a.version)
}

/// Where a path below the directory of packages may be now: the same package in the
/// directories given, newest first, and in their order where versions are equal.
pub open spec fn candidates_of(path: Seq<char>, dirs: Seq<Seq<char>>) -> Seq<Seq<char>> {
    match package_path(path) {
        Some(p) => match identity_of(p.package) {
            Some(old) => order::arranged(moved_all(p, old, dirs), newer_first()).map_values(
                |c: CandidateView| c.path,
            ),
            None => seq![],
        },
        None => seq![],
    }
}

/// The first of these that is marked.
pub open spec fn first_marked(items: Seq<Seq<char>>, marks: Seq<bool>) -> Option<Seq<char>>
    decreases items.len(),
{
    if items.len() == 0 || marks.len() == 0 {
        None
    } else if marks[0] {
        Some(items[0])
    } else {
        first_marked(items.skip(1), marks.skip(1))
    }
}

/// `path` has the extension of an application, whatever its letter case.
pub open spec fn is_exe(path: Seq<char>) -> bool {
    paths::extension_of(path) is Some && text::lower(paths::extension_of(path)->0) == "exe"@
}

/// A name, in lower case, that an uninstaller goes by.
pub open spec fn uninstaller_name(lower: Seq<char>) -> bool {
    text::holds(lower, "uninstall"@) || text::holds(lower, "unins"@) || text::holds(
        lower,
        "\u{5378}\u{8f7d}"@,
    )
}

/// The file at `path` is named like an uninstaller.
pub open spec fn is_uninstaller(path: Seq<char>) -> bool {
    uninstaller_name(
        casing::lowercased(
            match paths::name_of(path) {
                Some(n) => n,
                None => seq![],
            },
        ),
    )
}

/// An application that is not an uninstaller.
pub open spec fn is_application(n: Neighbour) -> bool {
    n.is_file && is_exe(n.path@) && !is_uninstaller(n.path@)
}

/// The applications among these, in order.
pub open spec fn applications(ns: Seq<Neighbour>) -> Seq<Seq<char>>
    decreases ns.len(),
{
    if ns.len() == 0 {
        seq![]
    } else {
        let front = applications(ns.drop_last());
        if is_application(ns.last()) {
            front.push(ns.last().path@)
        } else {
            front
        }
    }
}

/// What stands in for a missing application: the one application beside it.
pub open spec fn sibling_of(path: Seq<char>, siblings: Option<Vec<Neighbour>>) -> Option<Seq<char>> {
    match siblings {
        Some(ns) => if is_exe(path) && applications(ns@).len() == 1 {
            Some(applications(ns@)[0])
        } else {
            None
        },
        None => None,
    }
}

/// Where a missing path is now.
pub open spec fn repair_of(
    path: Seq<char>,
    dirs: Seq<Seq<char>>,
    present: Seq<bool>,
    siblings: Option<Vec<Neighbour>>,
) -> Option<Seq<char>> {
    let moved = first_marked(candidates_of(path, dirs), present);
    if moved is Some {
        moved
    } else {
        sibling_of(path, siblings)
    }
}

/// A field after what the disk shows of it.
pub open spec fn mended(field: Option<Seq<char>>, found: Finding) -> Option<Seq<char>> {
    if needs_mending(field, found) {
        text::opt_text(found.repaired)
    } else {
        field
    }
}

/// A field whose path is gone and is known to be elsewhere.
pub open spec fn needs_mending(field: Option<Seq<char>>, found: Finding) -> bool {
    field is Some && !found.exists && found.repaired is Some
}

pub open spec fn item_needs_mending(item: config::ItemView, found: ItemFindings) -> bool {
    needs_mending(item.path, found.path) || needs_mending(item.exe, found.exe) || needs_mending(
        item.icon,
        found.icon,
    )
}

pub open spec fn mended_item(item: config::ItemView, found: ItemFindings) -> config::ItemView {
    config::ItemView {
        path: mended(item.path, found.path),
        exe: mended(item.exe, found.exe),
        icon: mended(item.icon, found.icon),
        ..item
    }
}

fn find_last_pair(s: &[char]) -> (r: Option<usize>)
    ensures
        r is Some <==> last_pair(s@) >= 0,
        r matches Some(i) ==> i == last_pair(s@) && i + 2 <= s@.len(),
{
    let mut n: usize = s.len();
    assert(s@.take(n as int) =~= s@);
    while n >= 2
        invariant
            n <= s@.len(),
            last_pair(s@) == last_pair(s@.take(n as int)),
        decreases n,
    {
        if s[n - 1] == '_' && s[n - 2] == '_' {
            return Some(n - 2);
        }
        assert(s@.take(n as int).drop_last() =~= s@.take(n as int - 1));
        n -= 1;
    }
    None
}

/// The identity in the directory name of a package.
pub fn appx_identity(package_dir: &str) -> (r: Option<AppxIdentity>)
    ensures
        r is Some <==> identity_of(package_dir@) is Some,
        r matches Some(id) ==> identity_of(package_dir@) == Some(id@),
{
    let dir = text::chars_of(package_dir);
    let n: usize = dir.len();
    match find_last_pair(&dir) {
        Some(at) => {
            let head = slice_subrange(&dir, 0, at);
            let tail = slice_subrange(&dir, at + 2, n);
            assert(head@ =~= dir@.take(at as int));
            assert(tail@ =~= dir@.skip(at as int + 2));
            let parts = text::split_on(head, '_');
            assert(text::rows(parts@).len() == parts@.len());
            if parts.len() < 3 {
                return None;
            }
            let id = AppxIdentity {
                name: text::string_of(&parts[0]),
                version: text::string_of(&parts[1]),
                arch: text::string_of(&parts[2]),
                publisher: text::string_of(tail),
            };
            assert(id@ =~= identity_of(package_dir@)->0);
            Some(id)
        },
        None => None,
    }
}

/// The numbers of a version.
pub fn version_key(version: &str) -> (r: Vec<u64>)
    ensures
        r@ == version_of(version@),
{
    let v = text::chars_of(version);
    let parts = text::split_on(&v, '.');
    let ghost ps = text::pieces(version@, '.');
    let mut out: Vec<u64> = Vec::new();
    let mut i: usize = 0;
    while i < parts.len()
        invariant
            i <= parts@.len(),
            text::rows(parts@) == ps,
            ps == text::pieces(version@, '.'),
            out@ == version_of(version@).take(i as int),
        decreases parts@.len() - i,
    {
        let n: u64 = match numbers::read_u64(&parts[i]) {
            Some(n) => n,
            None => 0,
        };
        out.push(n);
        proof {
            assert(ps[i as int] == parts@[i as int]@);
            assert(out@ =~= version_of(version@).take(i as int + 1));
        }
        i += 1;
    }
    assert(out@ =~= version_of(version@));
    out
}

fn same_folded(a: &str, b: &str) -> (r: bool)
    ensures
        r == (text::lower(a@) == text::lower(b@)),
{
    let x = text::chars_of(a);
    let y = text::chars_of(b);
    let p = text::lower_chars(&x);
    let q = text::lower_chars(&y);
    text::same_chars(&p, &q)
}

/// Whether two identities are of the same package.
pub fn appx_identity_matches(old: &AppxIdentity, current: &AppxIdentity) -> (r: bool)
    ensures
        r == same_package(old@, current@),
{
    same_folded(old.name.as_str(), current.name.as_str()) && same_folded(
        old.arch.as_str(),
        current.arch.as_str(),
    ) && same_folded(old.publisher.as_str(), current.publisher.as_str())
}

fn is_version_before(a: &Vec<u64>, b: &Vec<u64>) -> (r: bool)
    ensures
        r == version_before(a@, b@),
{
    let mut i: usize = 0;
    assert(a@.skip(0) =~= a@);
    assert(b@.skip(0) =~= b@);
    loop
        invariant
            i <= a@.len(),
            i <= b@.len(),
            version_before(a@, b@) == version_before(a@.skip(i as int), b@.skip(i as int)),
        decreases a@.len() - i,
    {
        if i >= b.len() {
            return false;
        }
        if i >= a.len() {
            return true;
        }
        if a[i] != b[i] {
            return a[i] < b[i];
        }
        assert(a@.skip(i as int).skip(1) =~= a@.skip(i as int + 1));
        assert(b@.skip(i as int).skip(1) =~= b@.skip(i as int + 1));
        i += 1;
    }
}

fn is_newer(a: &Candidate, b: &Candidate) -> (r: bool)
    ensures
        r == version_before(b@.version, a@.version),
{
    is_version_before(&b.version, &a.version)
}

pub open spec fn candidate_views(cs: Seq<Candidate>) -> Seq<CandidateView> {
    cs.map_values(|c: Candidate| c@)
}

/// Where a path below the directory of packages may be now, newest version first.
pub fn windowsapps_repair_candidates(path: &str, package_dirs: &Vec<String>) -> (r: Vec<String>)
    ensures
        text::texts(r@) == candidates_of(path@, text::texts(package_dirs@)),
{
    let none: Vec<String> = Vec::new();
    assert(text::texts(none@) =~= Seq::empty());
    let p = text::chars_of(path);
    let len: usize = p.len();
    let lowered = text::lower_chars(&p);
    let marker = text::chars_of("\\windowsapps\\");
    let at: usize = match text::find_part(&lowered, &marker) {
        Some(at) => at,
        None => {
            return none;
        },
    };
    assert(lowered@.len() == p@.len());
    let start: usize = at + marker.len();
    let root = slice_subrange(&p, 0, start);
    let after = slice_subrange(&p, start, len);
    assert(root@ =~= p@.take(start as int));
    assert(after@ =~= p@.skip(start as int));
    let (old_package, rest) = match text::split_once(after, '\\') {
        Some(pair) => pair,
        None => {
            return none;
        },
    };
    let old_text = text::string_of(old_package);
    let old_id = match appx_identity(old_text.as_str()) {
        Some(id) => id,
        None => {
            return none;
        },
    };
    let ghost pp = PackagePath { root: root@, package: old_package@, rest: rest@ };
    assert(package_path(path@) == Some(pp));
    let ghost dirs = text::texts(package_dirs@);
    let mut found: Vec<Candidate> = Vec::new();
    let mut i: usize = 0;
    assert(candidate_views(found@) =~= moved_all(pp, old_id@, dirs.take(0)));
    while i < package_dirs.len()
        invariant
            i <= package_dirs@.len(),
            dirs == text::texts(package_dirs@),
            pp.root == root@,
            pp.rest == rest@,
            candidate_views(found@) == moved_all(pp, old_id@, dirs.take(i as int)),
        decreases package_dirs@.len() - i,
    {
        let dir = package_dirs[i].as_str();
        let ghost was = found@;
        proof {
            assert(dirs.take(i as int + 1).drop_last() =~= dirs.take(i as int));
            assert(dirs.take(i as int + 1).last() == dir@);
        }
        let mut hit: bool = false;
        if let Some(id) = appx_identity(dir) {
            if appx_identity_matches(&old_id, &id) {
                hit = true;
                let mut full = text::own(root);
                text::add_text(&mut full, dir);
                full.push('\\');
                text::add_chars(&mut full, rest);
                let c = Candidate {
                    version: version_key(id.version.as_str()),
                    path: text::string_of(&full),
                };
                found.push(c);
                proof {
                    assert(c@ =~= moved(pp, old_id@, dir@)[0]);
                    assert(candidate_views(found@) =~= candidate_views(was) + moved(
                        pp,
                        old_id@,
                        dir@,
                    ));
                }
            }
        }
        if !hit {
            assert(candidate_views(found@) =~= candidate_views(was) + moved(pp, old_id@, dir@));
        }
        i += 1;
    }
    assert(dirs.take(i as int) =~= dirs);
    let ghost lt = |a: Candidate, b: Candidate| version_before(b@.version, a@.version);
    let ghost before_sort = found@;
    let sorted = order::stable_sort(found, is_newer, Ghost(lt));
    proof {
        let f = |c: Candidate| c@;
        order::lemma_arranged_map(before_sort, lt, f, newer_first());
        assert(candidate_views(sorted@) == order::arranged(
            moved_all(pp, old_id@, dirs),
            newer_first(),
        ));
    }
    let mut out: Vec<String> = Vec::new();
    let mut j: usize = 0;
    let ghost want = candidates_of(path@, dirs);
    assert(want.len() == sorted@.len());
    while j < sorted.len()
        invariant
            j <= sorted@.len(),
            want.len() == sorted@.len(),
            forall|k: int| 0 <= k < sorted@.len() ==> #[trigger] want[k] == sorted@[k].path@,
            text::texts(out@) == want.take(j as int),
        decreases sorted@.len() - j,
    {
        let ghost was = out@;
        let t = text::copy_text(sorted[j].path.as_str());
        out.push(t);
        proof {
            text::lemma_texts_push(was, t);
            assert(want.take(j as int + 1) =~= want.take(j as int).push(want[j as int]));
        }
        j += 1;
    }
    assert(want.take(j as int) =~= want);
    out
}

/// Whether a name in lower case is one that an uninstaller goes by.
pub fn names_uninstaller(lower: &str) -> (r: bool)
    ensures
        r == uninstaller_name(lower@),
{
    let n = text::chars_of(lower);
    let a = text::chars_of("uninstall");
    let b = text::chars_of("unins");
    let c = text::chars_of("\u{5378}\u{8f7d}");
    text::holds_part(&n, &a) || text::holds_part(&n, &b) || text::holds_part(&n, &c)
}

/// Whether the file at a path is named like an uninstaller.
pub fn looks_like_uninstaller(path: &str) -> (r: bool)
    ensures
        r == is_uninstaller(path@),
{
    let name = match paths::file_name(path) {
        Some(n) => n,
        None => {
            let e = String::new();
            assert(e@ =~= Seq::<char>::empty());
            e
        },
    };
    let lower = casing::to_lowercase(name.as_str());
    names_uninstaller(lower.as_str())
}

fn has_exe_extension(path: &str) -> (r: bool)
    ensures
        r == is_exe(path@),
{
    match paths::extension(path) {
        Some(e) => {
            let x = text::chars_of(e.as_str());
            let y = text::lower_chars(&x);
            text::spells(&y, "exe")
        },
        None => false,
    }
}

/// What stands in for a missing application: the one application beside it, uninstallers
/// left out.
pub fn repair_sibling_exe_path(path: &str, siblings: &Option<Vec<Neighbour>>) -> (r: Option<String>)
    ensures
        text::opt_text(r) == sibling_of(path@, *siblings),
{
    if !has_exe_extension(path) {
        return None;
    }
    let ns = match siblings {
        Some(ns) => ns,
        None => {
            return None;
        },
    };
    let mut found: Vec<String> = Vec::new();
    let mut i: usize = 0;
    assert(text::texts(found@) =~= applications(ns@.take(0)));
    while i < ns.len()
        invariant
            i <= ns@.len(),
            text::texts(found@) == applications(ns@.take(i as int)),
        decreases ns@.len() - i,
    {
        assert(ns@.take(i as int + 1).drop_last() =~= ns@.take(i as int));
        let p = ns[i].path.as_str();
        if ns[i].is_file && has_exe_extension(p) && !looks_like_uninstaller(p) {
            let ghost was = found@;
            let t = text::copy_text(p);
            found.push(t);
            proof {
                text::lemma_texts_push(was, t);
            }
        }
        i += 1;
    }
    assert(ns@.take(i as int) =~= ns@);
    assert(text::texts(found@).len() == found@.len());
    if found.len() == 1 {
        assert(applications(ns@)[0] == found@[0]@);
        Some(text::copy_text(found[0].as_str()))
    } else {
        None
    }
}

fn first_present(items: &Vec<String>, present: &Vec<bool>) -> (r: Option<String>)
    ensures
        text::opt_text(r) == first_marked(text::texts(items@), present@),
{
    let ghost all = text::texts(items@);
    let both: usize = if items.len() <= present.len() {
        items.len()
    } else {
        present.len()
    };
    let mut i: usize = 0;
    assert(all.skip(0) =~= all);
    assert(present@.skip(0) =~= present@);
    while i < both
        invariant
            i <= both,
            both <= items@.len(),
            both <= present@.len(),
            both == items@.len() || both == present@.len(),
            all == text::texts(items@),
            first_marked(all, present@) == first_marked(all.skip(i as int), present@.skip(i as int)),
        decreases both - i,
    {
        if present[i] {
            return Some(text::copy_text(items[i].as_str()));
        }
        assert(all.skip(i as int).skip(1) =~= all.skip(i as int + 1));
        assert(present@.skip(i as int).skip(1) =~= present@.skip(i as int + 1));
        i += 1;
    }
    None
}

/// Where a missing path is now: the first candidate that is present, or else what stands
/// in for it beside it. `present` marks the candidates that are there, in their order.
pub fn repair_missing_path(
    path: &str,
    package_dirs: &Vec<String>,
    present: &Vec<bool>,
    siblings: &Option<Vec<Neighbour>>,
) -> (r: Option<String>)
    ensures
        text::opt_text(r) == repair_of(path@, text::texts(package_dirs@), present@, *siblings),
{
    let candidates = windowsapps_repair_candidates(path, package_dirs);
    match first_present(&candidates, present) {
        Some(p) => Some(p),
        None => repair_sibling_exe_path(path, siblings),
    }
}

/// Where a launch path is now; nothing where it still leads somewhere or no repair is
/// safe.
pub fn repair_launch_path(
    path: &str,
    exists: bool,
    package_dirs: &Vec<String>,
    present: &Vec<bool>,
    siblings: &Option<Vec<Neighbour>>,
) -> (r: Option<String>)
    ensures
        exists ==> r is None,
        !exists ==> text::opt_text(r) == repair_of(
            path@,
            text::texts(package_dirs@),
            present@,
            *siblings,
        ),
{
    if exists {
        return None;
    }
    repair_missing_path(path, package_dirs, present, siblings)
}

/// Replaces a path that is gone and is known to be elsewhere; says whether it did.
pub fn repair_spec_field(field: &mut Option<String>, found: &Finding) -> (r: bool)
    ensures
        r == needs_mending(text::opt_text(*old(field)), *found),
        text::opt_text(*final(field)) == mended(text::opt_text(*old(field)), *found),
{
    if field.is_none() {
        return false;
    }
    if found.exists {
        return false;
    }
    match &found.repaired {
        Some(p) => {
            *field = Some(text::copy_text(p.as_str()));
            true
        },
        None => false,
    }
}

/// Replaces the paths of all items that are gone and are known to be elsewhere; says
/// whether there were any.
pub fn repair_config_paths(config: &mut Config, findings: &Vec<ItemFindings>) -> (r: bool)
    requires
        findings@.len() == old(config).items@.len(),
    ensures
        r <==> exists|i: int|
            0 <= i < findings@.len() && item_needs_mending(
                #[trigger] old(config)@[i],
                findings@[i],
            ),
        final(config)@ == Seq::new(
            old(config)@.len(),
            |i: int| mended_item(old(config)@[i], findings@[i]),
        ),
{
    let ghost all = config@;
    let mut changed: bool = false;
    let mut i: usize = 0;
    while i < config.items.len()
        invariant
            i <= config.items@.len(),
            config.items@.len() == findings@.len(),
            all.len() == findings@.len(),
            changed <==> exists|j: int|
                0 <= j < i && item_needs_mending(#[trigger] all[j], findings@[j]),
            forall|j: int|
                0 <= j < i ==> #[trigger] config.items@[j]@ == mended_item(all[j], findings@[j]),
            forall|j: int| i <= j < all.len() ==> #[trigger] config.items@[j]@ == all[j],
        decreases findings@.len() - i,
    {
        let ghost was = config.items@;
        let a: bool = repair_spec_field(&mut config.items[i].path, &findings[i].path);
        let b: bool = repair_spec_field(&mut config.items[i].exe, &findings[i].exe);
        let c: bool = repair_spec_field(&mut config.items[i].icon, &findings[i].icon);
        if a || b || c {
            changed = true;
        }
        proof {
            assert(was[i as int]@ == all[i as int]);
            assert(config.items@[i as int]@ =~= mended_item(all[i as int], findings@[i as int]));
            assert forall|j: int| 0 <= j < all.len() && j != i implies config.items@[j]@
                == was[j]@ by {
                assert(config.items@[j] == was[j]);
            }
            assert((a || b || c) == item_needs_mending(all[i as int], findings@[i as int]));
        }
        i += 1;
    }
    assert(config@ =~= Seq::new(all.len(), |i: int| mended_item(all[i], findings@[i])));
    changed
}

} // verus!
