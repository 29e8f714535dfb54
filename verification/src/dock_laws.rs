//! What merging promises: the new items stand in their order, no old slot is lost or
//! doubled, and what leaves is dropped once.

use vstd::prelude::*;
use crate::dock;
use crate::dock::{DockItem, ItemRole, KeyView, Origin, Slot};
use crate::numbers;

verus! {

/// The new items of a merged row, in the order of their slots.
pub open spec fn news(p: Seq<Origin>) -> Seq<usize>
    decreases p.len(),
{
    if p.len() == 0 {
        seq![]
    } else {
        let front = news(p.drop_last());
        match p.last() {
            Origin::Exiting(_) => front,
            Origin::Kept(_, j) => front.push(j),
            Origin::Entering(j) => front.push(j),
        }
    }
}

/// The old slots of a merged row, in the order of its slots.
pub open spec fn olds(p: Seq<Origin>) -> Seq<usize>
    decreases p.len(),
{
    if p.len() == 0 {
        seq![]
    } else {
        let front = olds(p.drop_last());
        match dock::reused(p.last()) {
            Some(i) => front.push(i),
            None => front,
        }
    }
}

proof fn lemma_news_concat(a: Seq<Origin>, b: Seq<Origin>)
    ensures
        news(a + b) == news(a) + news(b),
    decreases b.len(),
{
    if b.len() == 0 {
        assert(a + b =~= a);
        assert(news(a) + news(b) =~= news(a));
    } else {
        lemma_news_concat(a, b.drop_last());
        assert((a + b).drop_last() =~= a + b.drop_last());
        assert(news(a + b) =~= news(a) + news(b));
    }
}

proof fn lemma_olds_concat(a: Seq<Origin>, b: Seq<Origin>)
    ensures
        olds(a + b) == olds(a) + olds(b),
    decreases b.len(),
{
    if b.len() == 0 {
        assert(a + b =~= a);
        assert(olds(a) + olds(b) =~= olds(a));
    } else {
        lemma_olds_concat(a, b.drop_last());
        assert((a + b).drop_last() =~= a + b.drop_last());
        assert(olds(a + b) =~= olds(a) + olds(b));
    }
}

proof fn lemma_exits(used: Seq<bool>, from: int, to: int)
    requires
        0 <= from,
        to <= usize::MAX,
    ensures
        news(dock::exits(used, from, to)) == Seq::<usize>::empty(),
        olds(dock::exits(used, from, to)).no_duplicates(),
        forall|i: usize| #[trigger]
            olds(dock::exits(used, from, to)).contains(i) <==> from <= i < to && !used[i as int],
    decreases to - from,
{
    if from < to {
        lemma_exits(used, from, to - 1);
        let e = dock::exits(used, from, to);
        let f = dock::exits(used, from, to - 1);
        if !used[to - 1] {
            assert(e.drop_last() =~= f);
            let last = (to - 1) as usize;
            let o = olds(e);
            let q = olds(f);
            assert(o == q.push(last));
            assert forall|i: usize| #[trigger] o.contains(i) <==> from <= i < to && !used[i as int] by {
                if o.contains(i) {
                    let k = choose|k: int| 0 <= k < o.len() && o[k] == i;
                    if k < q.len() {
                        assert(q.contains(q[k]));
                    }
                }
                if from <= i < to && !used[i as int] {
                    if i == last {
                        assert(o[q.len() as int] == i);
                    } else {
                        assert(q.contains(i));
                        let k = choose|k: int| 0 <= k < q.len() && q[k] == i;
                        assert(o[k] == i);
                    }
                }
            }
            assert forall|a: int, b: int|
                0 <= a < o.len() && 0 <= b < o.len() && a != b implies o[a] != o[b] by {
                if a == q.len() {
                    assert(q.contains(q[b]));
                } else if b == q.len() {
                    assert(q.contains(q[a]));
                }
            }
        }
    }
}

/// Each new item takes over another old item, with its key, and these are those that are
/// taken.
pub proof fn lemma_matching(old: Seq<KeyView>, new: Seq<KeyView>)
    requires
        old.len() <= usize::MAX,
    ensures
        ({
            let (ms, used) = dock::matching(old, new);
            &&& ms.len() == new.len()
            &&& used.len() == old.len()
            &&& forall|j: int|
                0 <= j < new.len() && (#[trigger] ms[j]) is Some ==> ms[j]->0 < old.len()
                    && old[ms[j]->0 as int] == new[j]
            &&& forall|j: int, k: int|
                0 <= j < k < new.len() && (#[trigger] ms[j]) is Some ==> ms[j] != #[trigger] ms[k]
            &&& forall|i: int|
                0 <= i < old.len() ==> (#[trigger] used[i] <==> ms.contains(Some(i as usize)))
        }),
    decreases new.len(),
{
    dock::lemma_matching_lens(old, new);
    let (ms, used) = dock::matching(old, new);
    if new.len() == 0 {
        assert forall|i: int| 0 <= i < old.len() implies (#[trigger] used[i] <==> ms.contains(
            Some(i as usize),
        )) by {}
    } else {
        let f = new.drop_last();
        lemma_matching(old, f);
        let (fm, fu) = dock::matching(old, f);
        let at = dock::free_match(old, fu, new.last(), 0);
        dock::lemma_free_match(old, fu, new.last(), 0);
        assert forall|j: int| 0 <= j < new.len() && (#[trigger] ms[j]) is Some implies ms[j]->0
            < old.len() && old[ms[j]->0 as int] == new[j] by {
            if j < f.len() {
                assert(fm[j] == ms[j]);
            }
        }
        assert forall|j: int, k: int|
            0 <= j < k < new.len() && (#[trigger] ms[j]) is Some implies ms[j]
            != #[trigger] ms[k] by {
            assert(fm[j] == ms[j]);
            if k < f.len() {
                assert(fm[k] == ms[k]);
            } else if ms[k] is Some {
                let i = ms[j]->0 as int;
                assert(fm.contains(fm[j]));
                assert(fm[j] == Some(i as usize));
                assert(fu[i]);
            }
        }
        assert forall|i: int| 0 <= i < old.len() implies (#[trigger] used[i] <==> ms.contains(
            Some(i as usize),
        )) by {
            let x: Option<usize> = Some(i as usize);
            if fm.contains(x) {
                let k = choose|k: int| 0 <= k < fm.len() && fm[k] == x;
                assert(ms[k] == x);
            }
            if ms.contains(x) {
                let k = choose|k: int| 0 <= k < ms.len() && ms[k] == x;
                if k < fm.len() {
                    assert(fm[k] == x);
                    assert(fm.contains(x));
                }
            }
            if at < old.len() && i == at {
                assert(ms[ms.len() - 1] == x);
            }
            assert(fu[i] <==> fm.contains(x));
        }
    }
}

proof fn lemma_merged_news(ms: Seq<Option<usize>>, used: Seq<bool>)
    requires
        ms.len() <= usize::MAX,
        used.len() <= usize::MAX,
        forall|j: int| 0 <= j < ms.len() && (#[trigger] ms[j]) is Some ==> ms[j]->0 < used.len(),
    ensures
        news(dock::merged_upto(ms, used).0) == Seq::new(ms.len(), |i: int| i as usize),
        0 <= dock::merged_upto(ms, used).1 <= used.len(),
    decreases ms.len(),
{
    if ms.len() == 0 {
        assert(news(dock::merged_upto(ms, used).0) =~= Seq::new(ms.len(), |i: int| i as usize));
    } else {
        let f = ms.drop_last();
        assert forall|j: int| 0 <= j < f.len() && (#[trigger] f[j]) is Some implies f[j]->0
            < used.len() by {
            assert(f[j] == ms[j]);
        }
        lemma_merged_news(f, used);
        let (front, next) = dock::merged_upto(f, used);
        let p = dock::merged_upto(ms, used).0;
        match ms.last() {
            Some(old) => {
                assert(ms[ms.len() - 1] is Some);
                let e = dock::exits(used, next, old as int);
                lemma_exits(used, next, old as int);
                lemma_news_concat(front, e);
                assert(p.drop_last() =~= front + e);
                assert(news(front) + news(e) =~= news(front));
            },
            None => {
                assert(p.drop_last() =~= front);
            },
        }
        assert(news(p) =~= Seq::new(ms.len(), |i: int| i as usize));
    }
}

/// The new items stand in the merged row in their own order, each once.
pub proof fn law_new_items_in_order(old: Seq<KeyView>, new: Seq<KeyView>)
    requires
        old.len() <= usize::MAX,
        new.len() <= usize::MAX,
    ensures
        news(dock::merged(old, new)) == Seq::new(new.len(), |i: int| i as usize),
{
    let (ms, used) = dock::matching(old, new);
    lemma_matching(old, new);
    lemma_merged_news(ms, used);
    let (front, next) = dock::merged_upto(ms, used);
    let e = dock::exits(used, next, old.len() as int);
    lemma_exits(used, next, old.len() as int);
    lemma_news_concat(front, e);
    assert(news(front) + news(e) =~= news(front));
}

proof fn lemma_append(a: Seq<usize>, b: Seq<usize>)
    requires
        a.no_duplicates(),
        b.no_duplicates(),
        forall|i: usize| #[trigger] a.contains(i) ==> !b.contains(i),
    ensures
        (a + b).no_duplicates(),
        forall|i: usize| #[trigger] (a + b).contains(i) <==> a.contains(i) || b.contains(i),
{
    let r = a + b;
    assert forall|x: int, y: int| 0 <= x < r.len() && 0 <= y < r.len() && x != y implies r[x]
        != r[y] by {
        if x < a.len() {
            assert(a.contains(r[x]));
        } else {
            assert(b.contains(r[x]));
        }
        if y < a.len() {
            assert(a.contains(r[y]));
        } else {
            assert(b.contains(r[y]));
        }
        if x >= a.len() && y >= a.len() {
            assert(b[x - a.len()] != b[y - a.len()]);
        }
    }
    assert forall|i: usize| #[trigger] r.contains(i) <==> a.contains(i) || b.contains(i) by {
        if a.contains(i) {
            let k = choose|k: int| 0 <= k < a.len() && a[k] == i;
            assert(r[k] == i);
        }
        if b.contains(i) {
            let k = choose|k: int| 0 <= k < b.len() && b[k] == i;
            assert(r[a.len() + k] == i);
        }
        if r.contains(i) {
            let k = choose|k: int| 0 <= k < r.len() && r[k] == i;
            if k < a.len() {
                assert(a[k] == i);
            } else {
                assert(b[k - a.len()] == i);
            }
        }
    }
}

/// What the first part of a merged row has of the old slots.
spec fn covers(o: Seq<usize>, ms: Seq<Option<usize>>, used: Seq<bool>, next: int) -> bool {
    &&& o.no_duplicates()
    &&& forall|i: usize| #[trigger]
        o.contains(i) <==> (i < next && !used[i as int]) || ms.contains(Some(i))
}

proof fn lemma_merged_olds(ms: Seq<Option<usize>>, used: Seq<bool>, all: Seq<Option<usize>>)
    requires
        used.len() <= usize::MAX,
        ms.len() <= all.len(),
        ms == all.take(ms.len() as int),
        forall|j: int| 0 <= j < all.len() && (#[trigger] all[j]) is Some ==> all[j]->0 < used.len(),
        forall|j: int, k: int|
            0 <= j < k < all.len() && (#[trigger] all[j]) is Some ==> all[j] != #[trigger] all[k],
        forall|i: int|
            0 <= i < used.len() ==> (#[trigger] used[i] <==> all.contains(Some(i as usize))),
    ensures
        covers(
            olds(dock::merged_upto(ms, used).0),
            ms,
            used,
            dock::merged_upto(ms, used).1,
        ),
        0 <= dock::merged_upto(ms, used).1 <= used.len(),
    decreases ms.len(),
{
    let (p, after) = dock::merged_upto(ms, used);
    if ms.len() == 0 {
        assert(covers(olds(p), ms, used, after));
    } else {
        let f = ms.drop_last();
        assert(f =~= all.take(f.len() as int));
        lemma_merged_olds(f, used, all);
        let (front, next) = dock::merged_upto(f, used);
        let x = ms.last();
        assert(x == all[ms.len() - 1]);
        assert forall|i: usize| #[trigger] ms.contains(Some(i)) <==> f.contains(Some(i)) || x
            == Some(i) by {
            if f.contains(Some(i)) {
                let k = choose|k: int| 0 <= k < f.len() && f[k] == Some(i);
                assert(ms[k] == Some(i));
            }
            if x == Some(i) {
                assert(ms[ms.len() - 1] == Some(i));
            }
            if ms.contains(Some(i)) {
                let k = choose|k: int| 0 <= k < ms.len() && ms[k] == Some(i);
                if k < f.len() {
                    assert(f[k] == Some(i));
                }
            }
        }
        match x {
            Some(old) => {
                let e = dock::exits(used, next, old as int);
                lemma_exits(used, next, old as int);
                lemma_olds_concat(front, e);
                assert(p.drop_last() =~= front + e);
                assert forall|i: usize| #[trigger] olds(front).contains(i) implies !olds(
                    e,
                ).contains(i) by {
                    if f.contains(Some(i)) {
                        let k = choose|k: int| 0 <= k < f.len() && f[k] == Some(i);
                        assert(all[k] == Some(i));
                        assert(all.contains(Some(i)));
                        assert(used[i as int]);
                    }
                }
                lemma_append(olds(front), olds(e));
                let q = olds(front) + olds(e);
                assert(all.contains(Some(old)));
                assert(used[old as int]);
                assert(!q.contains(old)) by {
                    if f.contains(Some(old)) {
                        let k = choose|k: int| 0 <= k < f.len() && f[k] == Some(old);
                        assert(all[k] == Some(old));
                        assert(all[k] != all[ms.len() - 1]);
                    }
                }
                let one = seq![old];
                assert(one.no_duplicates());
                assert forall|i: usize| #[trigger] q.contains(i) implies !one.contains(i) by {
                    if one.contains(i) {
                        assert(i == old);
                    }
                }
                lemma_append(q, one);
                assert(olds(p) =~= q + one);
                assert forall|i: usize| #[trigger] olds(p).contains(i) <==> (i < after
                    && !used[i as int]) || ms.contains(Some(i)) by {
                    assert(one.contains(i) <==> i == old) by {
                        if i == old {
                            assert(one[0] == i);
                        }
                    }
                    assert(q.contains(i) <==> olds(front).contains(i) || olds(e).contains(i));
                    assert((q + one).contains(i) <==> q.contains(i) || one.contains(i));
                }
            },
            None => {
                assert(p.drop_last() =~= front);
                assert(olds(p) == olds(front));
                assert forall|i: usize| #[trigger] olds(p).contains(i) <==> (i < after
                    && !used[i as int]) || ms.contains(Some(i)) by {}
            },
        }
    }
}

/// No old slot is lost, and none is doubled: each stays or leaves, once.
pub proof fn law_old_slots_once(old: Seq<KeyView>, new: Seq<KeyView>)
    requires
        old.len() <= usize::MAX,
    ensures
        olds(dock::merged(old, new)).no_duplicates(),
        forall|i: usize| #[trigger] olds(dock::merged(old, new)).contains(i) <==> i < old.len(),
{
    let (ms, used) = dock::matching(old, new);
    lemma_matching(old, new);
    assert(ms =~= ms.take(ms.len() as int));
    lemma_merged_olds(ms, used, ms);
    let (front, next) = dock::merged_upto(ms, used);
    let e = dock::exits(used, next, old.len() as int);
    lemma_exits(used, next, old.len() as int);
    lemma_olds_concat(front, e);
    assert forall|i: usize| #[trigger] olds(front).contains(i) implies !olds(e).contains(i) by {
        if ms.contains(Some(i)) {
            let k = choose|k: int| 0 <= k < ms.len() && ms[k] == Some(i);
            assert(ms[k]->0 < old.len());
            assert(used[i as int]);
        }
    }
    lemma_append(olds(front), olds(e));
    assert forall|i: usize| #[trigger] olds(dock::merged(old, new)).contains(i) <==> i
        < old.len() by {
        assert((olds(front) + olds(e)).contains(i) <==> olds(front).contains(i) || olds(
            e,
        ).contains(i));
        if ms.contains(Some(i)) {
            let k = choose|k: int| 0 <= k < ms.len() && ms[k] == Some(i);
            assert(ms[k]->0 < old.len());
        }
        if i < old.len() {
            assert(used[i as int] <==> ms.contains(Some(i)));
        }
    }
}

proof fn lemma_kept(ms: Seq<Option<usize>>, used: Seq<bool>, k: int)
    requires
        ms.len() <= usize::MAX,
        0 <= k < dock::merged_upto(ms, used).0.len(),
    ensures
        dock::merged_upto(ms, used).0[k] matches Origin::Kept(i, j) ==> j < ms.len() && ms[j as int]
            == Some(i),
    decreases ms.len(),
{
    if ms.len() > 0 {
        let f = ms.drop_last();
        let (front, next) = dock::merged_upto(f, used);
        let p = dock::merged_upto(ms, used).0;
        if k < front.len() {
            lemma_kept(f, used, k);
            assert(p[k] == front[k]);
        } else if let Some(old) = ms.last() {
            let e = dock::exits(used, next, old as int);
            if k < front.len() + e.len() {
                lemma_exits_exit(used, next, old as int, k - front.len());
                assert(p[k] == e[k - front.len()]);
            }
        }
    }
}

proof fn lemma_exits_exit(used: Seq<bool>, from: int, to: int, k: int)
    requires
        0 <= k < dock::exits(used, from, to).len(),
    ensures
        dock::exits(used, from, to)[k] is Exiting,
    decreases to - from,
{
    if from < to {
        let f = dock::exits(used, from, to - 1);
        if k < f.len() {
            lemma_exits_exit(used, from, to - 1, k);
        }
    }
}

/// A slot that stays holds an item with the key that it had.
pub proof fn law_kept_keys(old: Seq<KeyView>, new: Seq<KeyView>, k: int)
    requires
        old.len() <= usize::MAX,
        new.len() <= usize::MAX,
        0 <= k < dock::merged(old, new).len(),
    ensures
        dock::merged(old, new)[k] matches Origin::Kept(i, j) ==> i < old.len() && j < new.len()
            && old[i as int] == new[j as int],
{
    let (ms, used) = dock::matching(old, new);
    lemma_matching(old, new);
    let (front, next) = dock::merged_upto(ms, used);
    let e = dock::exits(used, next, old.len() as int);
    if k < front.len() {
        lemma_kept(ms, used, k);
        assert(dock::merged(old, new)[k] == front[k]);
        if let Origin::Kept(i, j) = front[k] {
            assert(ms[j as int] is Some);
        }
    } else {
        lemma_exits_exit(used, next, old.len() as int, k - front.len());
    }
}

proof fn lemma_self_matching(keys: Seq<KeyView>, n: nat)
    requires
        n <= keys.len(),
        keys.len() <= usize::MAX,
    ensures
        dock::matching(keys, keys.take(n as int)).0 == Seq::new(n, |i: int| Some(i as usize)),
        dock::matching(keys, keys.take(n as int)).1 == Seq::new(keys.len(), |i: int| i < n),
    decreases n,
{
    let t = keys.take(n as int);
    if n == 0 {
        assert(dock::matching(keys, t).0 =~= Seq::new(n, |i: int| Some(i as usize)));
        assert(dock::matching(keys, t).1 =~= Seq::new(keys.len(), |i: int| i < n));
    } else {
        let m = (n - 1) as nat;
        lemma_self_matching(keys, m);
        assert(t.drop_last() =~= keys.take(m as int));
        let used = dock::matching(keys, t.drop_last()).1;
        dock::lemma_free_match(keys, used, t.last(), 0);
        let at = dock::free_match(keys, used, t.last(), 0);
        assert(keys[m as int] == t.last());
        assert(!used[m as int]);
        assert(at == m) by {
            if at < m {
                assert(used[at]);
            } else if at > m {
                assert(used[m as int] || keys[m as int] != t.last());
            }
        }
        assert(dock::matching(keys, t).0 =~= Seq::new(n, |i: int| Some(i as usize)));
        assert(dock::matching(keys, t).1 =~= Seq::new(keys.len(), |i: int| i < n));
    }
}

proof fn lemma_self_merged(n: nat, used: Seq<bool>)
    requires
        n <= used.len(),
        used.len() <= usize::MAX,
        forall|i: int| 0 <= i < used.len() ==> used[i],
    ensures
        ({
            let ms = Seq::new(n, |i: int| Some(i as usize));
            &&& dock::merged_upto(ms, used).0 == Seq::new(
                n,
                |i: int| Origin::Kept(i as usize, i as usize),
            )
            &&& dock::merged_upto(ms, used).1 == (if n == 0 {
                0
            } else {
                n - 1
            })
        }),
    decreases n,
{
    let ms = Seq::new(n, |i: int| Some(i as usize));
    if n == 0 {
        assert(dock::merged_upto(ms, used).0 =~= Seq::new(
            n,
            |i: int| Origin::Kept(i as usize, i as usize),
        ));
    } else {
        let m = (n - 1) as nat;
        lemma_self_merged(m, used);
        assert(ms.drop_last() =~= Seq::new(m, |i: int| Some(i as usize)));
        let (front, next) = dock::merged_upto(ms.drop_last(), used);
        lemma_exits_none(used, next, m as int);
        assert(front + dock::exits(used, next, m as int) =~= front);
        assert(dock::merged_upto(ms, used).0 =~= Seq::new(
            n,
            |i: int| Origin::Kept(i as usize, i as usize),
        ));
    }
}

proof fn lemma_exits_none(used: Seq<bool>, from: int, to: int)
    requires
        0 <= from,
        to <= used.len(),
        forall|i: int| 0 <= i < used.len() ==> used[i],
    ensures
        dock::exits(used, from, to) == Seq::<Origin>::empty(),
    decreases to - from,
{
    if from < to {
        lemma_exits_none(used, from, to - 1);
    }
}

/// Merging the items that are there already leaves every slot in its place.
pub proof fn law_same_items_stay(keys: Seq<KeyView>)
    requires
        keys.len() <= usize::MAX,
    ensures
        dock::merged(keys, keys) == Seq::new(
            keys.len(),
            |i: int| Origin::Kept(i as usize, i as usize),
        ),
{
    lemma_self_matching(keys, keys.len());
    assert(keys.take(keys.len() as int) =~= keys);
    let (ms, used) = dock::matching(keys, keys);
    lemma_self_merged(keys.len(), used);
    let (front, next) = dock::merged_upto(ms, used);
    lemma_exits_none(used, next, keys.len() as int);
    assert(front + dock::exits(used, next, keys.len() as int) =~= front);
}

/// The slots that are dropped are those that have left and shrunk, in order; the rest
/// stay, so that the lists that run along the slots keep running along them.
pub proof fn law_finished<T>(list: Seq<T>, slots: Seq<Slot>)
    requires
        list.len() == slots.len(),
        slots.len() <= usize::MAX,
    ensures
        forall|i: usize| #[trigger]
            dock::finished(slots).contains(i) <==> i < slots.len() && dock::is_finished(
                slots[i as int],
            ),
        forall|a: int, b: int|
            0 <= a < b < dock::finished(slots).len() ==> dock::finished(slots)[a]
                < dock::finished(slots)[b],
        dock::left(list, slots).len() + dock::finished(slots).len() == slots.len(),
        dock::left(slots, slots).len() == dock::left(list, slots).len(),
        forall|i: int|
            0 <= i < dock::left(slots, slots).len() ==> !dock::is_finished(
                #[trigger] dock::left(slots, slots)[i],
            ),
    decreases slots.len(),
{
    if slots.len() > 0 {
        let f = slots.drop_last();
        law_finished(list.drop_last(), f);
        let r = dock::finished(slots);
        let q = dock::finished(f);
        let last = (slots.len() - 1) as usize;
        assert forall|i: usize| #[trigger] r.contains(i) <==> i < slots.len() && dock::is_finished(
            slots[i as int],
        ) by {
            if r.contains(i) {
                let k = choose|k: int| 0 <= k < r.len() && r[k] == i;
                if k < q.len() {
                    assert(q[k] == i);
                    assert(q.contains(i));
                    assert(f[i as int] == slots[i as int]);
                }
            }
            if i < slots.len() && dock::is_finished(slots[i as int]) {
                if i == last {
                    assert(r[r.len() - 1] == i);
                } else {
                    assert(f[i as int] == slots[i as int]);
                    assert(q.contains(i));
                    let k = choose|k: int| 0 <= k < q.len() && q[k] == i;
                    assert(r[k] == i);
                }
            }
        }
        assert forall|a: int, b: int| 0 <= a < b < r.len() implies r[a] < r[b] by {
            if b == q.len() {
                assert(q.contains(q[a]));
            }
        }
        let l = dock::left(slots, slots);
        let lf = dock::left(f, f);
        assert forall|i: int| 0 <= i < l.len() implies !dock::is_finished(#[trigger] l[i]) by {
            if i < lf.len() {
                assert(l[i] == lf[i]);
            }
        }
    }
}

/// The items of the slots that stay, in the order of the row.
pub open spec fn stayers(items: Seq<DockItem>, slots: Seq<Slot>) -> Seq<DockItem>
    decreases slots.len(),
{
    if slots.len() == 0 {
        seq![]
    } else {
        let front = stayers(items.drop_last(), slots.drop_last());
        if slots.last().staying {
            front.push(items.last())
        } else {
            front
        }
    }
}

/// A new item passes over an old one with its key only where an earlier new item has it.
proof fn lemma_passed_over(old: Seq<KeyView>, new: Seq<KeyView>, j: int, i: int)
    requires
        old.len() <= usize::MAX,
        0 <= j < new.len(),
        0 <= i < old.len(),
        old[i] == new[j],
        dock::matching(old, new).0[j] matches Some(m) ==> i < m,
    ensures
        exists|e: int| 0 <= e < j && #[trigger] dock::matching(old, new).0[e] == Some(i as usize),
    decreases new.len(),
{
    let f = new.drop_last();
    dock::lemma_matching_lens(old, new);
    dock::lemma_matching_lens(old, f);
    let (fm, fu) = dock::matching(old, f);
    let ms = dock::matching(old, new).0;
    if j < f.len() {
        assert(fm[j] == ms[j]);
        lemma_passed_over(old, f, j, i);
        let e = choose|e: int| 0 <= e < j && #[trigger] fm[e] == Some(i as usize);
        assert(ms[e] == Some(i as usize));
    } else {
        let at = dock::free_match(old, fu, new.last(), 0);
        dock::lemma_free_match(old, fu, new.last(), 0);
        assert(fu[i]);
        lemma_matching(old, f);
        assert(fm.contains(Some(i as usize)));
        let e = choose|e: int| 0 <= e < fm.len() && fm[e] == Some(i as usize);
        assert(ms[e] == fm[e]);
    }
}

/// What the slots of the first part of a merged row are, and how they stand to each other.
spec fn tidy(p: Seq<Origin>, ms: Seq<Option<usize>>, used: Seq<bool>, next: int) -> bool {
    &&& forall|k: int|
        0 <= k < p.len() ==> match #[trigger] p[k] {
            Origin::Exiting(i) => i < next && !used[i as int],
            Origin::Kept(i, j) => i <= next && j < ms.len() && ms[j as int] == Some(i),
            Origin::Entering(j) => j < ms.len() && ms[j as int] is None,
        }
    &&& forall|k: int, l: int|
        0 <= k < l < p.len() ==> match (#[trigger] p[k], #[trigger] p[l]) {
            (Origin::Exiting(i), Origin::Exiting(m)) => i < m,
            (Origin::Kept(i, _), Origin::Exiting(m)) => i <= m,
            _ => true,
        }
    &&& forall|k: int, l: int|
        0 <= k < l < p.len() && new_at(p, k) is Some && new_at(p, l) is Some ==> #[trigger] new_at(
            p,
            k,
        )->0 < #[trigger] new_at(p, l)->0
}

/// The new item of a slot of a merged row.
spec fn new_at(p: Seq<Origin>, k: int) -> Option<usize> {
    match p[k] {
        Origin::Exiting(_) => None,
        Origin::Kept(_, j) => Some(j),
        Origin::Entering(j) => Some(j),
    }
}

/// What leaves stands right before what leaves too, or before an old slot behind it.
spec fn followed(p: Seq<Origin>) -> bool {
    forall|k: int|
        0 <= k < p.len() - 1 ==> ((#[trigger] p[k]) matches Origin::Exiting(i) ==> match p[k + 1] {
            Origin::Exiting(_) => true,
            Origin::Kept(m, _) => i < m,
            Origin::Entering(_) => false,
        })
}

proof fn lemma_exits_tidy(used: Seq<bool>, from: int, to: int)
    requires
        0 <= from,
        to <= usize::MAX,
    ensures
        forall|k: int|
            0 <= k < dock::exits(used, from, to).len() ==> ((#[trigger] dock::exits(
                used,
                from,
                to,
            )[k]) matches Origin::Exiting(i) && from <= i < to && !used[i as int]),
        forall|k: int, l: int|
            0 <= k < l < dock::exits(used, from, to).len() ==> (#[trigger] dock::exits(
                used,
                from,
                to,
            )[k])->Exiting_0 < (#[trigger] dock::exits(used, from, to)[l])->Exiting_0,
    decreases to - from,
{
    if from < to {
        lemma_exits_tidy(used, from, to - 1);
        let e = dock::exits(used, from, to);
        let f = dock::exits(used, from, to - 1);
        assert forall|k: int| 0 <= k < e.len() implies ((#[trigger] e[k]) matches Origin::Exiting(i)
            && from <= i < to && !used[i as int]) by {
            if k < f.len() {
                assert(e[k] == f[k]);
            }
        }
        assert forall|k: int, l: int| 0 <= k < l < e.len() implies (#[trigger] e[k])->Exiting_0 < (
        #[trigger] e[l])->Exiting_0 by {
            assert(e[k] == f[k]);
            if l < f.len() {
                assert(e[l] == f[l]);
            }
        }
    }
}

/// Slots that leave may follow a tidy part of a row.
proof fn lemma_tidy_exits(
    p: Seq<Origin>,
    ms: Seq<Option<usize>>,
    used: Seq<bool>,
    next: int,
    to: int,
)
    requires
        tidy(p, ms, used, next),
        0 <= next <= to <= usize::MAX,
    ensures
        tidy(p + dock::exits(used, next, to), ms, used, to),
{
    let e = dock::exits(used, next, to);
    let r = p + e;
    lemma_exits_tidy(used, next, to);
    assert forall|k: int| 0 <= k < r.len() implies match #[trigger] r[k] {
        Origin::Exiting(i) => i < to && !used[i as int],
        Origin::Kept(i, j) => i <= to && j < ms.len() && ms[j as int] == Some(i),
        Origin::Entering(j) => j < ms.len() && ms[j as int] is None,
    } by {
        if k < p.len() {
            assert(r[k] == p[k]);
        } else {
            assert(r[k] == e[k - p.len()]);
        }
    }
    assert forall|k: int, l: int| 0 <= k < l < r.len() implies match (
        #[trigger] r[k],
        #[trigger] r[l],
    ) {
        (Origin::Exiting(i), Origin::Exiting(m)) => i < m,
        (Origin::Kept(i, _), Origin::Exiting(m)) => i <= m,
        _ => true,
    } by {
        if l < p.len() {
            assert(r[k] == p[k] && r[l] == p[l]);
        } else {
            assert(r[l] == e[l - p.len()]);
            if k < p.len() {
                assert(r[k] == p[k]);
            } else {
                assert(r[k] == e[k - p.len()]);
            }
        }
    }
    assert forall|k: int, l: int|
        0 <= k < l < r.len() && new_at(r, k) is Some && new_at(r, l) is Some implies #[trigger] new_at(
        r,
        k,
    )->0 < #[trigger] new_at(r, l)->0 by {
        if l < p.len() {
            assert(r[k] == p[k] && r[l] == p[l]);
            assert(new_at(p, k) == new_at(r, k) && new_at(p, l) == new_at(r, l));
        } else {
            assert(r[l] == e[l - p.len()]);
        }
    }
}

/// One more new item may follow a tidy part of a row.
proof fn lemma_tidy_push(
    p: Seq<Origin>,
    ms: Seq<Option<usize>>,
    used: Seq<bool>,
    next: int,
    o: Origin,
)
    requires
        ms.len() > 0,
        ms.len() <= usize::MAX,
        tidy(p, ms.drop_last(), used, next),
        o == (match ms.last() {
            Some(i) => Origin::Kept(i, (ms.len() - 1) as usize),
            None => Origin::Entering((ms.len() - 1) as usize),
        }),
        ms.last() matches Some(i) ==> i <= next,
    ensures
        tidy(p.push(o), ms, used, next),
{
    let r = p.push(o);
    let f = ms.drop_last();
    assert forall|k: int| 0 <= k < r.len() implies match #[trigger] r[k] {
        Origin::Exiting(i) => i < next && !used[i as int],
        Origin::Kept(i, j) => i <= next && j < ms.len() && ms[j as int] == Some(i),
        Origin::Entering(j) => j < ms.len() && ms[j as int] is None,
    } by {
        if k < p.len() {
            assert(r[k] == p[k]);
        }
    }
    assert forall|k: int, l: int| 0 <= k < l < r.len() implies match (
        #[trigger] r[k],
        #[trigger] r[l],
    ) {
        (Origin::Exiting(i), Origin::Exiting(m)) => i < m,
        (Origin::Kept(i, _), Origin::Exiting(m)) => i <= m,
        _ => true,
    } by {
        if l < p.len() {
            assert(r[k] == p[k] && r[l] == p[l]);
        }
    }
    assert forall|k: int, l: int|
        0 <= k < l < r.len() && new_at(r, k) is Some && new_at(r, l) is Some implies #[trigger] new_at(
        r,
        k,
    )->0 < #[trigger] new_at(r, l)->0 by {
        assert(r[k] == p[k]);
        if l < p.len() {
            assert(r[l] == p[l]);
            assert(new_at(p, k) == new_at(r, k) && new_at(p, l) == new_at(r, l));
        }
    }
}

/// Behind what leaves stands what leaves after it, or the slot that it stood in front of.
proof fn lemma_followed_push(front: Seq<Origin>, e: Seq<Origin>, old: int, o: Origin)
    requires
        followed(front),
        front.len() > 0 ==> !(front.last() is Exiting),
        forall|k: int|
            0 <= k < e.len() ==> ((#[trigger] e[k]) matches Origin::Exiting(i) && i < old),
        o matches Origin::Kept(m, _) && m == old,
    ensures
        followed((front + e).push(o)),
{
    let p = (front + e).push(o);
    assert forall|k: int| 0 <= k < p.len() - 1 implies ((
    #[trigger] p[k]) matches Origin::Exiting(i) ==> match p[k + 1] {
        Origin::Exiting(_) => true,
        Origin::Kept(m, _) => i < m,
        Origin::Entering(_) => false,
    }) by {
        if k < front.len() {
            assert(p[k] == front[k]);
            if k + 1 < front.len() {
                assert(p[k + 1] == front[k + 1]);
            }
        } else {
            assert(p[k] == e[k - front.len()]);
            if k + 1 < front.len() + e.len() {
                assert(p[k + 1] == e[k + 1 - front.len()]);
            }
        }
    }
}

proof fn lemma_tidy(ms: Seq<Option<usize>>, used: Seq<bool>)
    requires
        ms.len() <= usize::MAX,
        used.len() <= usize::MAX,
        forall|j: int| 0 <= j < ms.len() && (#[trigger] ms[j]) is Some ==> ms[j]->0 < used.len(),
    ensures
        tidy(dock::merged_upto(ms, used).0, ms, used, dock::merged_upto(ms, used).1),
        0 <= dock::merged_upto(ms, used).1 <= used.len(),
        followed(dock::merged_upto(ms, used).0),
        dock::merged_upto(ms, used).0.len() > 0 ==> !(dock::merged_upto(ms, used).0.last()
            is Exiting),
    decreases ms.len(),
{
    if ms.len() > 0 {
        let f = ms.drop_last();
        assert forall|j: int| 0 <= j < f.len() && (#[trigger] f[j]) is Some implies f[j]->0
            < used.len() by {
            assert(f[j] == ms[j]);
        }
        lemma_tidy(f, used);
        let (front, next) = dock::merged_upto(f, used);
        let p = dock::merged_upto(ms, used).0;
        match ms.last() {
            Some(old) => {
                assert(ms[ms.len() - 1] is Some);
                let e = dock::exits(used, next, old as int);
                if next <= old {
                    lemma_tidy_exits(front, f, used, next, old as int);
                    lemma_tidy_push(front + e, ms, used, old as int, p.last());
                } else {
                    assert(front + e =~= front);
                    lemma_tidy_push(front, ms, used, next, p.last());
                }
                lemma_exits_tidy(used, next, old as int);
                lemma_followed_push(front, e, old as int, p.last());
                assert(p =~= (front + e).push(p.last()));
            },
            None => {
                lemma_tidy_push(front, ms, used, next, p.last());
                assert forall|k: int| 0 <= k < p.len() - 1 implies ((
                #[trigger] p[k]) matches Origin::Exiting(i) ==> match p[k + 1] {
                    Origin::Exiting(_) => true,
                    Origin::Kept(m, _) => i < m,
                    Origin::Entering(_) => false,
                }) by {
                    assert(p[k] == front[k]);
                    if k + 1 < front.len() {
                        assert(p[k + 1] == front[k + 1]);
                    }
                }
            },
        }
    }
}

/// The whole of a merged row.
proof fn lemma_merged_tidy(old: Seq<KeyView>, new: Seq<KeyView>)
    requires
        old.len() <= usize::MAX,
        new.len() <= usize::MAX,
    ensures
        tidy(
            dock::merged(old, new),
            dock::matching(old, new).0,
            dock::matching(old, new).1,
            old.len() as int,
        ),
        followed(dock::merged(old, new)),
{
    let (ms, used) = dock::matching(old, new);
    lemma_matching(old, new);
    lemma_tidy(ms, used);
    let (front, next) = dock::merged_upto(ms, used);
    let e = dock::exits(used, next, old.len() as int);
    lemma_tidy_exits(front, ms, used, next, old.len() as int);
    lemma_exits_tidy(used, next, old.len() as int);
    let p = dock::merged(old, new);
    assert forall|k: int| 0 <= k < p.len() - 1 implies ((#[trigger] p[k]) matches Origin::Exiting(
        i,
    ) ==> match p[k + 1] {
        Origin::Exiting(_) => true,
        Origin::Kept(m, _) => i < m,
        Origin::Entering(_) => false,
    }) by {
        if k < front.len() {
            assert(p[k] == front[k]);
            if k + 1 < front.len() {
                assert(p[k + 1] == front[k + 1]);
            } else {
                assert(p[k] == front.last());
            }
        } else {
            assert(p[k + 1] == e[k + 1 - front.len()]);
        }
    }
}

proof fn lemma_stayers(
    p: Seq<Origin>,
    old_items: Seq<DockItem>,
    old_slots: Seq<Slot>,
    new: Seq<DockItem>,
)
    ensures
        stayers(dock::merged_items(p, old_items, new), dock::merged_slots(p, old_slots, new))
            == news(p).map_values(|j: usize| new[j as int]),
    decreases p.len(),
{
    let items = dock::merged_items(p, old_items, new);
    let slots = dock::merged_slots(p, old_slots, new);
    if p.len() == 0 {
        assert(stayers(items, slots) =~= news(p).map_values(|j: usize| new[j as int]));
    } else {
        let f = p.drop_last();
        lemma_stayers(f, old_items, old_slots, new);
        assert(items.drop_last() =~= dock::merged_items(f, old_items, new));
        assert(slots.drop_last() =~= dock::merged_slots(f, old_slots, new));
        assert(stayers(items, slots) =~= news(p).map_values(|j: usize| new[j as int]));
    }
}

/// A rebuilt row shows the new items and nothing but them in the slots that stay, in their
/// order. A slot that stays shows its item as running where that has a window, whatever it
/// showed before; one that leaves shows nothing as running and still holds an old item.
pub proof fn law_row_shows_new_items(
    old_items: Seq<DockItem>,
    old_slots: Seq<Slot>,
    new: Seq<DockItem>,
)
    requires
        old_items.len() == old_slots.len(),
        old_items.len() <= usize::MAX,
        new.len() <= usize::MAX,
    ensures
        ({
            let p = dock::merged(dock::keys_of(old_items), dock::keys_of(new));
            let items = dock::merged_items(p, old_items, new);
            let slots = dock::merged_slots(p, old_slots, new);
            let r = dock::reused_all(p);
            &&& stayers(items, slots) == new
            &&& forall|k: int|
                0 <= k < slots.len() && (#[trigger] slots[k]).staying ==> slots[k].running == (
                items[k].windows@.len() > 0)
            &&& forall|k: int|
                0 <= k < slots.len() && !(#[trigger] slots[k]).staying ==> !slots[k].running
                    && r[k] is Some && r[k]->0 < old_items.len() && items[k]
                    == old_items[r[k]->0 as int]
        }),
{
    let ko = dock::keys_of(old_items);
    let kn = dock::keys_of(new);
    let p = dock::merged(ko, kn);
    lemma_merged_tidy(ko, kn);
    lemma_stayers(p, old_items, old_slots, new);
    law_new_items_in_order(ko, kn);
    assert(news(p).map_values(|j: usize| new[j as int]) =~= new);
}

/// Icons keep their slots. A slot that goes on from an old one holds an item with the same
/// key and looks as it did; one that does not starts from nothing. Each old slot goes on
/// in one slot of the row, so that none is lost or doubled.
pub proof fn law_row_keeps_slots(
    old_items: Seq<DockItem>,
    old_slots: Seq<Slot>,
    new: Seq<DockItem>,
)
    requires
        old_items.len() == old_slots.len(),
        old_items.len() <= usize::MAX,
        new.len() <= usize::MAX,
    ensures
        ({
            let p = dock::merged(dock::keys_of(old_items), dock::keys_of(new));
            let items = dock::merged_items(p, old_items, new);
            let slots = dock::merged_slots(p, old_slots, new);
            let r = dock::reused_all(p);
            &&& forall|k: int|
                0 <= k < slots.len() ==> match #[trigger] r[k] {
                    Some(i) => {
                        &&& i < old_items.len()
                        &&& dock::key_of(items[k]) == dock::key_of(old_items[i as int])
                        &&& slots[k].scale == old_slots[i as int].scale
                        &&& slots[k].bounce == old_slots[i as int].bounce
                        &&& slots[k].presence == old_slots[i as int].presence
                        &&& slots[k].running_presence == old_slots[i as int].running_presence
                    },
                    None => {
                        &&& slots[k].staying
                        &&& slots[k].scale == dock::ONE
                        &&& slots[k].bounce == dock::ZERO
                        &&& slots[k].presence == dock::ZERO
                        &&& slots[k].running_presence == dock::ZERO
                    },
                }
            &&& forall|i: usize| i < old_items.len() ==> #[trigger] r.contains(Some(i))
            &&& forall|k: int, l: int|
                0 <= k < l < r.len() && r[k] is Some ==> #[trigger] r[k] != #[trigger] r[l]
        }),
{
    let ko = dock::keys_of(old_items);
    let kn = dock::keys_of(new);
    let p = dock::merged(ko, kn);
    let slots = dock::merged_slots(p, old_slots, new);
    let r = dock::reused_all(p);
    lemma_merged_tidy(ko, kn);
    lemma_matching(ko, kn);
    assert forall|k: int| 0 <= k < slots.len() implies match #[trigger] r[k] {
        Some(i) => {
            &&& i < old_items.len()
            &&& dock::key_of(dock::merged_items(p, old_items, new)[k]) == dock::key_of(
                old_items[i as int],
            )
            &&& slots[k].scale == old_slots[i as int].scale
            &&& slots[k].bounce == old_slots[i as int].bounce
            &&& slots[k].presence == old_slots[i as int].presence
            &&& slots[k].running_presence == old_slots[i as int].running_presence
        },
        None => {
            &&& slots[k].staying
            &&& slots[k].scale == dock::ONE
            &&& slots[k].bounce == dock::ZERO
            &&& slots[k].presence == dock::ZERO
            &&& slots[k].running_presence == dock::ZERO
        },
    } by {
        let o = p[k];
        law_kept_keys(ko, kn, k);
        if let Origin::Kept(i, j) = o {
            assert(ko[i as int] == kn[j as int]);
        }
    }
    law_old_slots_once(ko, kn);
    lemma_reused(p);
    assert forall|i: usize| i < old_items.len() implies #[trigger] r.contains(Some(i)) by {
        assert(olds(p).contains(i));
    }
}

/// The old slots of a merged row are those that its slots reuse.
proof fn lemma_reused(p: Seq<Origin>)
    ensures
        forall|i: usize| #[trigger]
            olds(p).contains(i) ==> dock::reused_all(p).contains(Some(i)),
        olds(p).no_duplicates() ==> forall|k: int, l: int|
            0 <= k < l < p.len() && dock::reused_all(p)[k] is Some
                ==> #[trigger] dock::reused_all(p)[k] != #[trigger] dock::reused_all(p)[l],
        forall|k: int|
            0 <= k < p.len() && (#[trigger] dock::reused_all(p)[k]) is Some ==> olds(p).contains(
                dock::reused_all(p)[k]->0,
            ),
    decreases p.len(),
{
    if p.len() > 0 {
        let f = p.drop_last();
        lemma_reused(f);
        let r = dock::reused_all(p);
        let q = dock::reused_all(f);
        assert(q =~= r.drop_last());
        assert forall|i: usize| #[trigger] olds(p).contains(i) implies r.contains(Some(i)) by {
            let x = choose|x: int| 0 <= x < olds(p).len() && olds(p)[x] == i;
            if x < olds(f).len() {
                assert(olds(f)[x] == i);
                assert(olds(f).contains(i));
                let k = choose|k: int| 0 <= k < q.len() && q[k] == Some(i);
                assert(r[k] == Some(i));
            } else {
                assert(r[r.len() - 1] == Some(i));
            }
        }
        assert forall|k: int|
            0 <= k < p.len() && (#[trigger] r[k]) is Some implies olds(p).contains(r[k]->0) by {
            if k < f.len() {
                assert(q[k] == r[k]);
                assert(olds(f).contains(q[k]->0));
                let x = choose|x: int| 0 <= x < olds(f).len() && olds(f)[x] == q[k]->0;
                assert(olds(p)[x] == r[k]->0);
            } else {
                assert(olds(p)[olds(p).len() - 1] == r[k]->0);
            }
        }
        if olds(p).no_duplicates() {
            assert forall|a: int, b: int|
                0 <= a < olds(f).len() && 0 <= b < olds(f).len() && a != b implies olds(f)[a]
                != olds(f)[b] by {
                assert(olds(p)[a] == olds(f)[a] && olds(p)[b] == olds(f)[b]);
            }
            assert forall|k: int, l: int| 0 <= k < l < p.len() && r[k] is Some implies #[trigger] r[k]
                != #[trigger] r[l] by {
                assert(q[k] == r[k]);
                if l < f.len() {
                    assert(q[l] == r[l]);
                } else if r[l] is Some {
                    assert(olds(f).contains(q[k]->0));
                    let x = choose|x: int| 0 <= x < olds(f).len() && olds(f)[x] == q[k]->0;
                    assert(olds(p)[x] == r[k]->0);
                    assert(olds(p)[olds(p).len() - 1] == r[l]->0);
                }
            }
        }
    }
}

/// No icon leaves and enters at once: where a slot starts from nothing, no slot with its key
/// leaves. Of slots with one key those in front go on first, and what leaves stays where it
/// was: behind what left before it, in front of all that stood behind it and stays, and
/// right in front of such a slot or at the end of the row.
pub proof fn law_row_moves_little(
    old_items: Seq<DockItem>,
    old_slots: Seq<Slot>,
    new: Seq<DockItem>,
)
    requires
        old_items.len() == old_slots.len(),
        old_items.len() <= usize::MAX,
        new.len() <= usize::MAX,
    ensures
        ({
            let p = dock::merged(dock::keys_of(old_items), dock::keys_of(new));
            let items = dock::merged_items(p, old_items, new);
            let slots = dock::merged_slots(p, old_slots, new);
            let r = dock::reused_all(p);
            &&& forall|k: int, l: int|
                0 <= k < r.len() && 0 <= l < r.len() && #[trigger] r[k] is None && !(
                #[trigger] slots[l]).staying ==> dock::key_of(items[k]) != dock::key_of(items[l])
            &&& forall|k: int, l: int|
                0 <= k < r.len() && 0 <= l < r.len() && slots[k].staying && (k < l
                    || !slots[l].staying) && k != l && #[trigger] r[k] is Some
                    && #[trigger] r[l] is Some && dock::key_of(items[k]) == dock::key_of(items[l])
                    ==> r[k]->0 < r[l]->0
            &&& forall|k: int, l: int|
                0 <= k < r.len() && 0 <= l < r.len() && !slots[k].staying && #[trigger] r[k] is Some
                    && #[trigger] r[l] is Some && r[k]->0 < r[l]->0 ==> k < l
            &&& forall|k: int|
                0 <= k < r.len() - 1 && !(#[trigger] slots[k]).staying && slots[k + 1].staying
                    ==> r[k] is Some && r[k + 1] is Some && r[k]->0 < r[k + 1]->0
        }),
{
    let ko = dock::keys_of(old_items);
    let kn = dock::keys_of(new);
    let p = dock::merged(ko, kn);
    let items = dock::merged_items(p, old_items, new);
    let slots = dock::merged_slots(p, old_slots, new);
    let r = dock::reused_all(p);
    let (ms, used) = dock::matching(ko, kn);
    lemma_merged_tidy(ko, kn);
    lemma_matching(ko, kn);
    assert forall|k: int, l: int|
        0 <= k < r.len() && 0 <= l < r.len() && #[trigger] r[k] is None && !(
        #[trigger] slots[l]).staying implies dock::key_of(items[k]) != dock::key_of(items[l]) by {
        let j = p[k]->Entering_0;
        let i = p[l]->Exiting_0;
        assert(p[k] is Entering && p[l] is Exiting);
        if kn[j as int] == ko[i as int] {
            lemma_passed_over(ko, kn, j as int, i as int);
            let e = choose|e: int| 0 <= e < j && #[trigger] ms[e] == Some(i);
            assert(ms.contains(Some(i)));
            assert(used[i as int]);
        }
    }
    assert forall|k: int, l: int|
        0 <= k < r.len() && 0 <= l < r.len() && slots[k].staying && (k < l || !slots[l].staying) && k
            != l && #[trigger] r[k] is Some && #[trigger] r[l] is Some && dock::key_of(items[k])
            == dock::key_of(items[l]) implies r[k]->0 < r[l]->0 by {
        assert(p[k] is Kept);
        let i = p[k]->Kept_0;
        let j = p[k]->Kept_1;
        let m = r[l]->0;
        assert(ms[j as int] == Some(i));
        law_kept_keys(ko, kn, k);
        law_kept_keys(ko, kn, l);
        law_row_keeps_slots(old_items, old_slots, new);
        assert(r[k] == Some(i) && r[l] == Some(m));
        assert(ko[m as int] == kn[j as int]);
        assert(i != m) by {
            if k < l {
                assert(r[k] != r[l]);
            } else {
                assert(r[l] != r[k]);
            }
        }
        if m < i {
            lemma_passed_over(ko, kn, j as int, m as int);
            let e = choose|e: int| 0 <= e < j && #[trigger] ms[e] == Some(m);
            assert(ms.contains(Some(m)));
            assert(used[m as int]);
            match p[l] {
                Origin::Exiting(_) => {},
                Origin::Kept(_, b) => {
                    assert(new_at(p, k) == Some(j) && new_at(p, l) == Some(b));
                    assert(new_at(p, k)->0 < new_at(p, l)->0);
                    assert(ms[b as int] == Some(m));
                    assert(ms[e] != ms[b as int]);
                },
                Origin::Entering(_) => {},
            }
        }
    }
    assert forall|k: int, l: int|
        0 <= k < r.len() && 0 <= l < r.len() && !slots[k].staying && #[trigger] r[k] is Some
            && #[trigger] r[l] is Some && r[k]->0 < r[l]->0 implies k < l by {
        assert(p[k] is Exiting);
        if l < k {
            let a = p[l];
            let b = p[k];
        }
    }
    assert forall|k: int|
        0 <= k < r.len() - 1 && !(#[trigger] slots[k]).staying && slots[k + 1].staying implies r[k]
        is Some && r[k + 1] is Some && r[k]->0 < r[k + 1]->0 by {
        assert(p[k] is Exiting);
    }
}

/// How many of the first `i` slots are there to stay or have not shrunk.
pub open spec fn kept_before(slots: Seq<Slot>, i: int) -> int
    decreases i,
{
    if i <= 0 {
        0
    } else {
        kept_before(slots, i - 1) + (if !slots[i - 1].staying && dock::is_gone(
            slots[i - 1].presence,
        ) {
            0int
        } else {
            1
        })
    }
}

proof fn lemma_kept_before(slots: Seq<Slot>, more: Slot, i: int)
    requires
        i <= slots.len(),
    ensures
        kept_before(slots.push(more), i) == kept_before(slots, i),
    decreases i,
{
    if i > 0 {
        lemma_kept_before(slots, more, i - 1);
    }
}

/// A slot is dropped only once it leaves and has shrunk; all others stay, with what runs
/// along them, and close up in their order.
pub proof fn law_rest_closes_up<T>(list: Seq<T>, slots: Seq<Slot>)
    requires
        list.len() == slots.len(),
    ensures
        dock::left(list, slots).len() == kept_before(slots, slots.len() as int),
        forall|i: int|
            0 <= i < slots.len() && ((#[trigger] slots[i]).staying || !dock::is_gone(
                slots[i].presence,
            )) ==> 0 <= kept_before(slots, i) < dock::left(list, slots).len() && dock::left(
                list,
                slots,
            )[kept_before(slots, i)] == list[i],
    decreases slots.len(),
{
    if slots.len() > 0 {
        let f = slots.drop_last();
        let l = list.drop_last();
        law_rest_closes_up(l, f);
        assert(slots =~= f.push(slots.last()));
        lemma_kept_before(f, slots.last(), f.len() as int);
        assert forall|i: int|
            0 <= i < slots.len() && ((#[trigger] slots[i]).staying || !dock::is_gone(
                slots[i].presence,
            )) implies 0 <= kept_before(slots, i) < dock::left(list, slots).len() && dock::left(
            list,
            slots,
        )[kept_before(slots, i)] == list[i] by {
            lemma_kept_before(f, slots.last(), i);
            if i < f.len() {
                assert(f[i] == slots[i] && l[i] == list[i]);
            }
        }
    }
}

/// What has shrunk stays so when it shrinks on: of two presences that are not negative the
/// smaller is gone where the larger is. Nothing is gone, and a full icon is not.
pub proof fn law_gone(a: u32, b: u32)
    requires
        a <= b < 0x8000_0000,
    ensures
        dock::is_gone(b) ==> dock::is_gone(a),
        dock::is_gone(dock::ZERO),
        !dock::is_gone(dock::ONE),
{
}

proof fn lemma_signed_decimal(a: int, b: int)
    requires
        numbers::signed_decimal(a) == numbers::signed_decimal(b),
    ensures
        a == b,
{
    let p = if a < 0 {
        -a
    } else {
        a
    };
    let q = if b < 0 {
        -b
    } else {
        b
    };
    numbers::lemma_decimal_digits(p as nat);
    numbers::lemma_decimal_digits(q as nat);
    let x = numbers::signed_decimal(a);
    let y = numbers::signed_decimal(b);
    assert(numbers::is_digit(numbers::decimal(p as nat)[0]));
    assert(numbers::is_digit(numbers::decimal(q as nat)[0]));
    if a < 0 {
        assert(x[0] == '-');
        assert(x.skip(1) =~= numbers::decimal(p as nat));
    }
    if b < 0 {
        assert(y[0] == '-');
        assert(y.skip(1) =~= numbers::decimal(q as nat));
    }
}

/// What makes two items the same: pinned ones open the same path, whatever they are called;
/// open ones are of the same application, or else the same window. Items of two kinds are
/// never the same.
pub proof fn law_item_keys(a: DockItem, b: DockItem)
    ensures
        ({
            let same = dock::key_of(a) == dock::key_of(b);
            let pinned = a.role == ItemRole::Pinned && b.role == ItemRole::Pinned;
            let open = a.role == ItemRole::Running && b.role == ItemRole::Running;
            &&& a.role != b.role ==> !same
            &&& a.role == b.role && a.role != ItemRole::Pinned && a.role != ItemRole::Running ==> same
            &&& pinned && a.path is Some && b.path is Some ==> (same <==> a.path->0@ == b.path->0@)
            &&& pinned && a.path is None && b.path is None && a.icon is Some && b.icon is Some ==> (
            same <==> a.icon->0@ == b.icon->0@)
            &&& pinned && a.path is None && b.path is None && a.icon is None && b.icon is None ==> (
            same <==> a.label@ == b.label@)
            &&& open && a.group_key is Some && b.group_key is Some ==> (same <==> a.group_key->0@
                == b.group_key->0@)
            &&& open && a.group_key is None && b.group_key is None && a.hwnd is Some && b.hwnd
                is Some ==> (same <==> a.hwnd == b.hwnd)
        }),
{
    if a.role == ItemRole::Running && b.role == ItemRole::Running && a.group_key is None
        && b.group_key is None && a.hwnd is Some && b.hwnd is Some && dock::key_of(a)
        == dock::key_of(b) {
        let h = "hwnd:"@;
        let x = numbers::signed_decimal(a.hwnd->0 as int);
        let y = numbers::signed_decimal(b.hwnd->0 as int);
        assert((h + x).skip(h.len() as int) =~= x);
        assert((h + y).skip(h.len() as int) =~= y);
        lemma_signed_decimal(a.hwnd->0 as int, b.hwnd->0 as int);
    }
}

} // verus!
