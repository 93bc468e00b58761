//! Facts about sequences that the rest of the crate leans on.

use vstd::prelude::*;

verus! {

/// Filtering after a push is a push, or nothing, after the filtering.
pub proof fn lemma_filter_push<A>(s: Seq<A>, x: A, pred: spec_fn(A) -> bool)
    ensures
        s.push(x).filter(pred) == if pred(x) {
            s.filter(pred).push(x)
        } else {
            s.filter(pred)
        },
{
    reveal(Seq::filter);
    assert(s.push(x).drop_last() =~= s);
}

/// Filtering the empty sequence leaves it empty.
pub proof fn lemma_filter_empty<A>(pred: spec_fn(A) -> bool)
    ensures
        Seq::<A>::empty().filter(pred) == Seq::<A>::empty(),
{
    reveal(Seq::filter);
}

/// Filtering one more element of `s`: the step of a loop that walks `s`.
pub proof fn lemma_filter_take_step<A>(s: Seq<A>, i: int, pred: spec_fn(A) -> bool)
    requires
        0 <= i < s.len(),
    ensures
        s.take(i + 1).filter(pred) == if pred(s[i]) {
            s.take(i).filter(pred).push(s[i])
        } else {
            s.take(i).filter(pred)
        },
{
    assert(s.take(i + 1) =~= s.take(i).push(s[i]));
    lemma_filter_push(s.take(i), s[i], pred);
}

/// The first position at which `x` stands in `s`, or the length of `s` if it
/// stands nowhere.
pub open spec fn position<A>(s: Seq<A>, x: A) -> int
    decreases s.len(),
{
    if s.len() == 0 {
        0
    } else if s[0] == x {
        0
    } else {
        1 + position(s.drop_first(), x)
    }
}

/// `position` is in range, finds `x` exactly when `s` holds it, and nothing
/// before it equals `x`.
pub proof fn lemma_position<A>(s: Seq<A>, x: A)
    ensures
        0 <= position(s, x) <= s.len(),
        position(s, x) < s.len() <==> s.contains(x),
        position(s, x) < s.len() ==> s[position(s, x)] == x,
        forall|j: int| 0 <= j < position(s, x) ==> s[j] != x,
    decreases s.len(),
{
    if s.len() == 0 {
    } else if s[0] == x {
        assert(s.contains(x));
    } else {
        let t = s.drop_first();
        lemma_position(t, x);
        if s.contains(x) {
            let i = choose|i: int| 0 <= i < s.len() && s[i] == x;
            assert(t[i - 1] == x);
        }
        if position(t, x) < t.len() {
            assert(s[position(t, x) + 1] == x);
        }
        assert forall|j: int| 0 <= j < position(s, x) implies s[j] != x by {
            if j > 0 {
                assert(t[j - 1] != x);
            }
        }
    }
}

/// In a sequence without repetition, each element stands at its own position.
pub proof fn lemma_position_unique<A>(s: Seq<A>, i: int)
    requires
        s.no_duplicates(),
        0 <= i < s.len(),
    ensures
        position(s, s[i]) == i,
{
    lemma_position(s, s[i]);
    assert(s.contains(s[i]));
}

/// `s` without repetitions: each element where it stands first.
pub open spec fn distinct<A>(s: Seq<A>) -> Seq<A>
    decreases s.len(),
{
    if s.len() == 0 {
        s
    } else {
        let before = distinct(s.drop_last());
        if before.contains(s.last()) {
            before
        } else {
            before.push(s.last())
        }
    }
}

/// `distinct` holds nothing twice, holds what the sequence holds, and
/// leaves a sequence without repetitions as it is.
pub proof fn lemma_distinct<A>(s: Seq<A>)
    ensures
        distinct(s).no_duplicates(),
        forall|x: A| distinct(s).contains(x) <==> s.contains(x),
        distinct(s).to_set() == s.to_set(),
        distinct(s).len() <= s.len(),
        s.no_duplicates() ==> distinct(s) == s,
    decreases s.len(),
{
    if s.len() > 0 {
        let t = s.drop_last();
        let last = s.last();
        let before = distinct(t);
        let after = distinct(s);
        lemma_distinct(t);
        assert forall|x: A| after.contains(x) <==> s.contains(x) by {
            assert(before.contains(x) <==> t.contains(x));
            if after.contains(x) && x != last {
                let i = choose|i: int| 0 <= i < after.len() && after[i] == x;
                assert(before[i] == x);
                assert(before.contains(x));
            }
            if t.contains(x) {
                let k = choose|k: int| 0 <= k < t.len() && t[k] == x;
                assert(s[k] == x);
                let i = choose|i: int| 0 <= i < before.len() && before[i] == x;
                assert(after[i] == x);
            }
            if s.contains(x) && x != last {
                let k = choose|k: int| 0 <= k < s.len() && s[k] == x;
                assert(t[k] == x);
            }
            if x == last {
                assert(s[s.len() - 1] == x);
                if before.contains(x) {
                    let i = choose|i: int| 0 <= i < before.len() && before[i] == x;
                    assert(after[i] == x);
                } else {
                    assert(after[before.len() as int] == x);
                }
            }
        }
        assert(after.to_set() =~= s.to_set());
        assert forall|a: int, b: int| 0 <= a < b < after.len() implies after[a] != after[b] by {
            if b == before.len() {
                assert(before.contains(before[a]));
            }
        }
        if s.no_duplicates() {
            assert(t.no_duplicates());
            if t.contains(last) {
                let k = choose|k: int| 0 <= k < t.len() && t[k] == last;
                assert(s[k] == s[s.len() - 1]);
            }
            assert(after =~= s);
        }
    } else {
        assert(distinct(s).to_set() =~= s.to_set());
    }
}

/// Taking one more key out of a map from which the keys of `keys` were
/// taken is taking out the keys of `keys` with that key behind them.
pub proof fn lemma_remove_one_more<K, V>(map: Map<K, V>, keys: Seq<K>, key: K)
    ensures
        map.remove_keys(keys.to_set()).remove(key) == map.remove_keys(keys.push(key).to_set()),
{
    let more = keys.push(key);
    assert forall|k: K| more.to_set().contains(k) == (keys.to_set().contains(k) || k == key) by {
        if more.contains(k) {
            let i = choose|i: int| 0 <= i < more.len() && more[i] == k;
            if i < keys.len() {
                assert(keys[i] == k);
            }
        }
        if keys.contains(k) {
            let i = choose|i: int| 0 <= i < keys.len() && keys[i] == k;
            assert(more[i] == k);
        }
        if k == key {
            assert(more[keys.len() as int] == k);
        }
    }
    assert(map.remove_keys(keys.to_set()).remove(key) =~= map.remove_keys(more.to_set()));
}

/// The elements of two sequences joined are those of either.
pub proof fn lemma_concat_to_set<A>(a: Seq<A>, b: Seq<A>)
    ensures
        (a + b).to_set() == a.to_set().union(b.to_set()),
{
    assert forall|x: A| (a + b).contains(x) == (a.contains(x) || b.contains(x)) by {
        if (a + b).contains(x) {
            let i = choose|i: int| 0 <= i < (a + b).len() && (a + b)[i] == x;
            if i < a.len() {
                assert(a[i] == x);
            } else {
                assert(b[i - a.len()] == x);
            }
        }
        if a.contains(x) {
            let i = choose|i: int| 0 <= i < a.len() && a[i] == x;
            assert((a + b)[i] == x);
        }
        if b.contains(x) {
            let i = choose|i: int| 0 <= i < b.len() && b[i] == x;
            assert((a + b)[a.len() + i] == x);
        }
    }
    assert((a + b).to_set() =~= a.to_set().union(b.to_set()));
}

} // verus!
