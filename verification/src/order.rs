//! Stable sorting by a strict order, with the result stated outright.

use vstd::prelude::*;

verus! {

/// `x` placed after every element that it does not come before.
pub open spec fn placed<T>(s: Seq<T>, x: T, lt: spec_fn(T, T) -> bool) -> Seq<T>
    decreases s.len(),
{
    if s.len() == 0 || !lt(x, s.last()) {
        s.push(x)
    } else {
        placed(s.drop_last(), x, lt).push(s.last())
    }
}

/// The stable sort of `s` by `lt`: elements that neither comes before the other keep
/// their order.
pub open spec fn arranged<T>(s: Seq<T>, lt: spec_fn(T, T) -> bool) -> Seq<T>
    decreases s.len(),
{
    if s.len() == 0 {
        s
    } else {
        placed(arranged(s.drop_last(), lt), s.last(), lt)
    }
}

/// No element comes before an earlier one.
pub open spec fn in_order<T>(s: Seq<T>, lt: spec_fn(T, T) -> bool) -> bool {
    forall|i: int, j: int| 0 <= i < j < s.len() ==> !#[trigger] lt(s[j], s[i])
}

/// A strict weak order: irreflexive, transitive, and with a transitive "not after".
pub open spec fn strict_weak<T>(lt: spec_fn(T, T) -> bool) -> bool {
    &&& forall|a: T| !#[trigger] lt(a, a)
    &&& forall|a: T, b: T, c: T| #[trigger] lt(a, b) && #[trigger] lt(b, c) ==> lt(a, c)
    &&& forall|a: T, b: T, c: T|
        !#[trigger] lt(a, b) && !#[trigger] lt(b, c) ==> !lt(a, c)
}

/// The elements of `s` that are neither before nor after `x`, in order.
pub open spec fn peers<T>(s: Seq<T>, x: T, lt: spec_fn(T, T) -> bool) -> Seq<T>
    decreases s.len(),
{
    if s.len() == 0 {
        s
    } else {
        let front = peers(s.drop_last(), x, lt);
        if !lt(x, s.last()) && !lt(s.last(), x) {
            front.push(s.last())
        } else {
            front
        }
    }
}

pub proof fn lemma_placed_len<T>(s: Seq<T>, x: T, lt: spec_fn(T, T) -> bool)
    ensures
        placed(s, x, lt).len() == s.len() + 1,
    decreases s.len(),
{
    if s.len() > 0 && lt(x, s.last()) {
        lemma_placed_len(s.drop_last(), x, lt);
    }
}

pub proof fn lemma_arranged_len<T>(s: Seq<T>, lt: spec_fn(T, T) -> bool)
    ensures
        arranged(s, lt).len() == s.len(),
    decreases s.len(),
{
    if s.len() > 0 {
        lemma_arranged_len(s.drop_last(), lt);
        lemma_placed_len(arranged(s.drop_last(), lt), s.last(), lt);
    }
}

proof fn lemma_placed_multiset<T>(s: Seq<T>, x: T, lt: spec_fn(T, T) -> bool)
    ensures
        placed(s, x, lt).to_multiset() == s.to_multiset().insert(x),
    decreases s.len(),
{
    broadcast use vstd::seq_lib::group_to_multiset_ensures;

    if s.len() == 0 || !lt(x, s.last()) {
        assert(s.push(x).to_multiset() =~= s.to_multiset().insert(x));
    } else {
        lemma_placed_multiset(s.drop_last(), x, lt);
        assert(s =~= s.drop_last().push(s.last()));
        assert(s.to_multiset() =~= s.drop_last().to_multiset().insert(s.last()));
        assert(placed(s, x, lt).to_multiset() =~= placed(s.drop_last(), x, lt).to_multiset().insert(
            s.last(),
        ));
        assert(placed(s, x, lt).to_multiset() =~= s.to_multiset().insert(x));
    }
}

/// Sorting keeps the elements: each occurs as often as before.
pub proof fn lemma_arranged_multiset<T>(s: Seq<T>, lt: spec_fn(T, T) -> bool)
    ensures
        arranged(s, lt).to_multiset() == s.to_multiset(),
    decreases s.len(),
{
    broadcast use vstd::seq_lib::group_to_multiset_ensures;

    if s.len() > 0 {
        lemma_arranged_multiset(s.drop_last(), lt);
        lemma_placed_multiset(arranged(s.drop_last(), lt), s.last(), lt);
        assert(s =~= s.drop_last().push(s.last()));
        assert(s.to_multiset() =~= s.drop_last().to_multiset().insert(s.last()));
    }
}

/// Where the elements of a sorted sequence come from.
pub proof fn lemma_arranged_contains<T>(s: Seq<T>, lt: spec_fn(T, T) -> bool, x: T)
    ensures
        arranged(s, lt).contains(x) <==> s.contains(x),
{
    broadcast use vstd::seq_lib::group_to_multiset_ensures;

    lemma_arranged_multiset(s, lt);
    assert(arranged(s, lt).to_multiset().count(x) == s.to_multiset().count(x));
    arranged(s, lt).to_multiset_ensures();
    s.to_multiset_ensures();
}

proof fn lemma_placed_in_order<T>(s: Seq<T>, x: T, lt: spec_fn(T, T) -> bool)
    requires
        strict_weak(lt),
        in_order(s, lt),
    ensures
        in_order(placed(s, x, lt), lt),
        forall|i: int|
            0 <= i < placed(s, x, lt).len() ==> #[trigger] placed(s, x, lt)[i] == x || s.contains(
                placed(s, x, lt)[i],
            ),
    decreases s.len(),
{
    let r = placed(s, x, lt);
    if s.len() == 0 || !lt(x, s.last()) {
        assert forall|i: int, j: int| 0 <= i < j < r.len() implies !#[trigger] lt(r[j], r[i]) by {
            if j == s.len() {
                if i < s.len() - 1 {
                    assert(!lt(s[s.len() - 1], s[i]));
                    assert(!lt(x, s.last()));
                }
            } else {
                assert(!lt(s[j], s[i]));
            }
        }
        assert forall|i: int| 0 <= i < r.len() implies #[trigger] r[i] == x || s.contains(r[i]) by {
            if i < s.len() {
                assert(s[i] == r[i]);
            }
        }
    } else {
        let front = s.drop_last();
        assert(in_order(front, lt)) by {
            assert forall|i: int, j: int| 0 <= i < j < front.len() implies !#[trigger] lt(
                front[j],
                front[i],
            ) by {
                assert(!lt(s[j], s[i]));
            }
        }
        lemma_placed_in_order(front, x, lt);
        let p = placed(front, x, lt);
        assert forall|i: int| 0 <= i < p.len() implies s.contains(p[i]) || p[i] == x by {
            if p[i] != x {
                assert(front.contains(p[i]));
                let k = choose|k: int| 0 <= k < front.len() && front[k] == p[i];
                assert(s[k] == p[i]);
            }
        }
        assert forall|i: int, j: int| 0 <= i < j < r.len() implies !#[trigger] lt(r[j], r[i]) by {
            if j == r.len() - 1 {
                assert(r[i] == p[i]);
                if p[i] == x {
                    if lt(s.last(), x) {
                        assert(lt(s.last(), x) && lt(x, s.last()));
                        assert(lt(s.last(), s.last()));
                    }
                } else {
                    assert(front.contains(p[i]));
                    let k = choose|k: int| 0 <= k < front.len() && front[k] == p[i];
                    assert(!lt(s[s.len() - 1], s[k]));
                }
            } else {
                assert(!lt(p[j], p[i]));
            }
        }
        assert forall|i: int| 0 <= i < r.len() implies #[trigger] r[i] == x || s.contains(r[i]) by {
            if i < p.len() {
                assert(r[i] == p[i]);
            } else {
                assert(r[i] == s[s.len() - 1]);
            }
        }
    }
}

/// A sorted sequence is in order.
pub proof fn lemma_arranged_in_order<T>(s: Seq<T>, lt: spec_fn(T, T) -> bool)
    requires
        strict_weak(lt),
    ensures
        in_order(arranged(s, lt), lt),
    decreases s.len(),
{
    if s.len() > 0 {
        lemma_arranged_in_order(s.drop_last(), lt);
        lemma_placed_in_order(arranged(s.drop_last(), lt), s.last(), lt);
    }
}

proof fn lemma_placed_peers<T>(s: Seq<T>, x: T, y: T, lt: spec_fn(T, T) -> bool)
    requires
        strict_weak(lt),
    ensures
        peers(placed(s, x, lt), y, lt) == peers(s.push(x), y, lt),
    decreases s.len(),
{
    reveal_with_fuel(peers, 3);
    if s.len() > 0 && lt(x, s.last()) {
        let front = s.drop_last();
        lemma_placed_len(front, x, lt);
        lemma_placed_peers(front, x, y, lt);
        assert(placed(s, x, lt).drop_last() =~= placed(front, x, lt));
        assert(s.push(x).drop_last() =~= s);
        assert(front.push(x).drop_last() =~= front);
        let x_in = !lt(y, x) && !lt(x, y);
        let l_in = !lt(y, s.last()) && !lt(s.last(), y);
        if x_in && l_in {
            assert(!lt(x, y) && !lt(y, s.last()));
            assert(!lt(x, s.last()));
            assert(false);
        }
    }
}

/// Sorting is stable: elements that neither comes before the other keep their order.
pub proof fn law_sorting_is_stable<T>(s: Seq<T>, y: T, lt: spec_fn(T, T) -> bool)
    requires
        strict_weak(lt),
    ensures
        peers(arranged(s, lt), y, lt) == peers(s, y, lt),
    decreases s.len(),
{
    if s.len() > 0 {
        law_sorting_is_stable(s.drop_last(), y, lt);
        let front = arranged(s.drop_last(), lt);
        lemma_placed_peers(front, s.last(), y, lt);
        assert(front.push(s.last()).drop_last() =~= front);
    }
}

proof fn lemma_placed_map<T, U>(
    s: Seq<T>,
    x: T,
    lt: spec_fn(T, T) -> bool,
    f: spec_fn(T) -> U,
    ltu: spec_fn(U, U) -> bool,
)
    requires
        forall|a: T, b: T| #[trigger] lt(a, b) == ltu(f(a), f(b)),
    ensures
        placed(s, x, lt).map_values(f) == placed(s.map_values(f), f(x), ltu),
    decreases s.len(),
{
    if s.len() == 0 || !lt(x, s.last()) {
        assert(s.push(x).map_values(f) =~= s.map_values(f).push(f(x)));
    } else {
        lemma_placed_map(s.drop_last(), x, lt, f, ltu);
        assert(s.map_values(f).drop_last() =~= s.drop_last().map_values(f));
        assert(placed(s, x, lt).map_values(f) =~= placed(s.drop_last(), x, lt).map_values(f).push(
            f(s.last()),
        ));
    }
}

/// Sorting by what a function shows of the elements, and then showing it, is showing it
/// and then sorting.
pub proof fn lemma_arranged_map<T, U>(
    s: Seq<T>,
    lt: spec_fn(T, T) -> bool,
    f: spec_fn(T) -> U,
    ltu: spec_fn(U, U) -> bool,
)
    requires
        forall|a: T, b: T| #[trigger] lt(a, b) == ltu(f(a), f(b)),
    ensures
        arranged(s, lt).map_values(f) == arranged(s.map_values(f), ltu),
    decreases s.len(),
{
    if s.len() == 0 {
        assert(s.map_values(f) =~= Seq::<U>::empty());
    } else {
        lemma_arranged_map(s.drop_last(), lt, f, ltu);
        lemma_placed_map(arranged(s.drop_last(), lt), s.last(), lt, f, ltu);
        assert(s.map_values(f).drop_last() =~= s.drop_last().map_values(f));
    }
}

/// Sorts by a strict order; elements that neither comes before the other keep their
/// order.
pub(crate) fn stable_sort<T, F: Fn(&T, &T) -> bool>(
    items: Vec<T>,
    before: F,
    Ghost(lt): Ghost<spec_fn(T, T) -> bool>,
) -> (r: Vec<T>)
    requires
        forall|a: &T, b: &T| call_requires(before, (a, b)),
        forall|a: &T, b: &T, o: bool| call_ensures(before, (a, b), o) ==> o == lt(*a, *b),
    ensures
        r@ == arranged(items@, lt),
{
    let ghost all = items@;
    let mut rest = items;
    let mut out: Vec<T> = Vec::new();
    let n: usize = rest.len();
    let mut done: usize = 0;
    rest = reversed(rest);
    assert(all.take(0) =~= Seq::<T>::empty());
    while done < n
        invariant
            n == all.len(),
            done <= n,
            rest@.len() == n - done,
            rest@ == all.skip(done as int).reverse(),
            out@ == arranged(all.take(done as int), lt),
            out@.len() == done,
            forall|a: &T, b: &T| call_requires(before, (a, b)),
            forall|a: &T, b: &T, o: bool| call_ensures(before, (a, b), o) ==> o == lt(*a, *b),
        decreases n - done,
    {
        let ghost was = rest@;
        match rest.pop() {
            Some(x) => {
                proof {
                    assert(was.last() == all[done as int]);
                    assert(rest@ =~= all.skip(done as int + 1).reverse());
                    assert(all.take(done as int + 1).drop_last() =~= all.take(done as int));
                }
                place(&mut out, x, &before, Ghost(lt));
                proof {
                    lemma_arranged_len(all.take(done as int + 1), lt);
                }
                done += 1;
            },
            None => {
                return out;
            },
        }
    }
    assert(all.take(done as int) =~= all);
    out
}

/// The elements from last to first.
pub(crate) fn reversed<T>(items: Vec<T>) -> (r: Vec<T>)
    ensures
        r@ == items@.reverse(),
{
    let ghost all = items@;
    let mut rest = items;
    let mut out: Vec<T> = Vec::new();
    while rest.len() > 0
        invariant
            rest@.len() <= all.len(),
            rest@ == all.take(rest@.len() as int),
            out@ == all.skip(rest@.len() as int).reverse(),
        decreases rest@.len(),
    {
        let ghost k = rest@.len() as int;
        match rest.pop() {
            Some(x) => {
                out.push(x);
                assert(out@ =~= all.skip(k - 1).reverse());
                assert(rest@ =~= all.take(k - 1));
            },
            None => {},
        }
    }
    assert(all.skip(0) =~= all);
    out
}

fn place<T, F: Fn(&T, &T) -> bool>(
    out: &mut Vec<T>,
    x: T,
    before: &F,
    Ghost(lt): Ghost<spec_fn(T, T) -> bool>,
)
    requires
        forall|a: &T, b: &T| call_requires(*before, (a, b)),
        forall|a: &T, b: &T, o: bool| call_ensures(*before, (a, b), o) ==> o == lt(*a, *b),
    ensures
        final(out)@ == placed(old(out)@, x, lt),
{
    let ghost s = out@;
    let mut at: usize = out.len();
    assert(s.take(at as int) =~= s);
    assert(s.skip(at as int) =~= Seq::<T>::empty());
    assert(placed(s, x, lt) =~= placed(s.take(at as int), x, lt) + s.skip(at as int));
    while at > 0 && before(&x, &out[at - 1])
        invariant
            at <= s.len(),
            out@ == s,
            placed(s, x, lt) == placed(s.take(at as int), x, lt) + s.skip(at as int),
            forall|a: &T, b: &T| call_requires(*before, (a, b)),
            forall|a: &T, b: &T, o: bool| call_ensures(*before, (a, b), o) ==> o == lt(*a, *b),
        decreases at,
    {
        proof {
            let head = s.take(at as int);
            assert(head.last() == s[at - 1]);
            assert(head.drop_last() =~= s.take(at - 1));
            assert(placed(head.drop_last(), x, lt).push(s[at - 1]) + s.skip(at as int) =~= placed(
                s.take(at - 1),
                x,
                lt,
            ) + s.skip(at - 1));
        }
        at -= 1;
    }
    out.insert(at, x);
    proof {
        if at > 0 {
            assert(s.take(at as int).last() == s[at - 1]);
        }
        assert(s.take(at as int).push(x) + s.skip(at as int) =~= s.insert(at as int, x));
    }
}

} // verus!
