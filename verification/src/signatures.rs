//! A set of signatures, at most one for each public key.

use crate::crypto::{PublicKey, Signature};
use crate::seqs::{lemma_filter_empty, lemma_filter_take_step};
use vstd::prelude::*;

verus! {

/// No two signatures of `s` come from the same public key.
pub open spec fn distinct_keys(s: Seq<Signature>) -> bool {
    forall|i: int, j: int| 0 <= i < j < s.len() ==> s[i].public_key != s[j].public_key
}

/// Whether some signature of `s` comes from `key`.
pub open spec fn has_key(s: Seq<Signature>, key: PublicKey) -> bool {
    exists|i: int| 0 <= i < s.len() && #[trigger] s[i].public_key == key
}

/// The public keys that signed in `s`.
pub open spec fn signers(s: Seq<Signature>) -> Set<PublicKey> {
    Set::new(|key: PublicKey| has_key(s, key))
}

/// The position of the first signature of `s` that comes from `key`, or the
/// length of `s` if there is none.
pub open spec fn key_index(s: Seq<Signature>, key: PublicKey) -> int
    decreases s.len(),
{
    if s.len() == 0 {
        0
    } else if s[0].public_key == key {
        0
    } else {
        1 + key_index(s.drop_first(), key)
    }
}

/// `s` with `signature` put in: in place of the one that its key already
/// has there, or else at the end.
pub open spec fn with_signature(s: Seq<Signature>, signature: Signature) -> Seq<Signature> {
    let i = key_index(s, signature.public_key);
    if i < s.len() {
        s.update(i, signature)
    } else {
        s.push(signature)
    }
}

/// `a` with every signature of `b` put in, in the order of `b`.
pub open spec fn merged(a: Seq<Signature>, b: Seq<Signature>) -> Seq<Signature>
    decreases b.len(),
{
    if b.len() == 0 {
        a
    } else {
        merged(with_signature(a, b[0]), b.drop_first())
    }
}

/// The signatures of `s` that verify for `payload`, in their order in `s`.
pub open spec fn verified(s: Seq<Signature>, payload: Seq<u8>) -> Seq<Signature> {
    s.filter(|x: Signature| x.valid_for(payload))
}

/// `key_index` is in range and points at `key` exactly when `key` signed.
pub proof fn lemma_key_index(s: Seq<Signature>, key: PublicKey)
    ensures
        0 <= key_index(s, key) <= s.len(),
        key_index(s, key) < s.len() <==> has_key(s, key),
        key_index(s, key) < s.len() ==> s[key_index(s, key)].public_key == key,
        forall|j: int| 0 <= j < key_index(s, key) ==> s[j].public_key != key,
    decreases s.len(),
{
    if s.len() == 0 {
    } else if s[0].public_key == key {
    } else {
        let t = s.drop_first();
        lemma_key_index(t, key);
        if has_key(s, key) {
            let i = choose|i: int| 0 <= i < s.len() && #[trigger] s[i].public_key == key;
            assert(t[i - 1].public_key == key);
        }
        if key_index(t, key) < t.len() {
            assert(s[key_index(t, key) + 1].public_key == key);
        }
        assert forall|j: int| 0 <= j < key_index(s, key) implies s[j].public_key != key by {
            if j > 0 {
                assert(t[j - 1].public_key != key);
            }
        }
    }
}

/// Putting a signature in keeps the keys distinct and adds its key.
pub proof fn lemma_with_signature(s: Seq<Signature>, signature: Signature)
    requires
        distinct_keys(s),
    ensures
        distinct_keys(with_signature(s, signature)),
        signers(with_signature(s, signature)) == signers(s).insert(signature.public_key),
        has_key(s, signature.public_key) ==> with_signature(s, signature).len() == s.len(),
        !has_key(s, signature.public_key) ==> with_signature(s, signature) == s.push(signature),
{
    let r = with_signature(s, signature);
    let i = key_index(s, signature.public_key);
    lemma_key_index(s, signature.public_key);
    assert forall|key: PublicKey|
        has_key(r, key) == (has_key(s, key) || key == signature.public_key) by {
        if has_key(r, key) {
            let j = choose|j: int| 0 <= j < r.len() && #[trigger] r[j].public_key == key;
            if j != i {
                assert(s[j].public_key == key);
            }
        }
        if has_key(s, key) {
            let j = choose|j: int| 0 <= j < s.len() && #[trigger] s[j].public_key == key;
            if j == i {
                assert(r[i].public_key == key);
            } else {
                assert(r[j].public_key == key);
            }
        }
        if key == signature.public_key {
            assert(r[i].public_key == key);
        }
    }
    assert(signers(r) =~= signers(s).insert(signature.public_key));
    assert forall|a: int, b: int| 0 <= a < b < r.len() implies r[a].public_key
        != r[b].public_key by {
        if i < s.len() {
            if a == i {
                assert(s[a].public_key != s[b].public_key);
            } else if b == i {
                assert(s[a].public_key != s[b].public_key);
            }
        } else {
            if b == s.len() {
                assert(s[a].public_key != signature.public_key);
            }
        }
    }
}

/// Whether a key signed does not depend on the order of the signatures:
/// two lists that hold the same signatures, each as often as the other,
/// hold signatures of the same keys.
pub proof fn lemma_has_key_rearranged(a: Seq<Signature>, b: Seq<Signature>, key: PublicKey)
    requires
        a.to_multiset() == b.to_multiset(),
    ensures
        has_key(a, key) == has_key(b, key),
{
    if has_key(a, key) {
        let i = choose|i: int| 0 <= i < a.len() && #[trigger] a[i].public_key == key;
        assert(a.contains(a[i]));
        vstd::seq_lib::to_multiset_contains(a, a[i]);
        vstd::seq_lib::to_multiset_contains(b, a[i]);
        let j = choose|j: int| 0 <= j < b.len() && b[j] == a[i];
        assert(b[j].public_key == key);
    }
    if has_key(b, key) {
        let i = choose|i: int| 0 <= i < b.len() && #[trigger] b[i].public_key == key;
        assert(b.contains(b[i]));
        vstd::seq_lib::to_multiset_contains(b, b[i]);
        vstd::seq_lib::to_multiset_contains(a, b[i]);
        let j = choose|j: int| 0 <= j < a.len() && a[j] == b[i];
        assert(a[j].public_key == key);
    }
}

/// Merging keeps the keys distinct, and the signers of the result are those
/// of either part.
pub proof fn lemma_merged(a: Seq<Signature>, b: Seq<Signature>)
    requires
        distinct_keys(a),
    ensures
        distinct_keys(merged(a, b)),
        signers(merged(a, b)) == signers(a).union(signers(b)),
    decreases b.len(),
{
    if b.len() == 0 {
        assert(signers(b) =~= Set::empty());
        assert(signers(a).union(signers(b)) =~= signers(a));
    } else {
        let a1 = with_signature(a, b[0]);
        let b1 = b.drop_first();
        lemma_with_signature(a, b[0]);
        lemma_merged(a1, b1);
        assert forall|key: PublicKey| has_key(b, key) == (key == b[0].public_key || has_key(
            b1,
            key,
        )) by {
            if has_key(b, key) {
                let j = choose|j: int| 0 <= j < b.len() && #[trigger] b[j].public_key == key;
                if j > 0 {
                    assert(b1[j - 1].public_key == key);
                }
            }
            if has_key(b1, key) {
                let j = choose|j: int| 0 <= j < b1.len() && #[trigger] b1[j].public_key == key;
                assert(b[j + 1].public_key == key);
            }
            if key == b[0].public_key {
                assert(b[0].public_key == key);
            }
        }
        assert(signers(merged(a, b)) =~= signers(a).union(signers(b)));
    }
}

/// Merging `b` into `a` one signature at a time from the front is merging
/// the first `n + 1` after the first `n`.
proof fn lemma_merged_take(a: Seq<Signature>, b: Seq<Signature>, n: int)
    requires
        0 <= n < b.len(),
    ensures
        merged(a, b.take(n + 1)) == with_signature(merged(a, b.take(n)), b[n]),
    decreases n,
{
    let t1 = b.take(n + 1);
    if n == 0 {
        assert(t1.drop_first() =~= Seq::<Signature>::empty());
        assert(b.take(0) =~= Seq::<Signature>::empty());
        assert(merged(with_signature(a, b[0]), t1.drop_first()) == with_signature(a, b[0]));
    } else {
        let a1 = with_signature(a, b[0]);
        let b1 = b.drop_first();
        lemma_merged_take(a1, b1, n - 1);
        assert(b1.take(n) =~= t1.drop_first());
        assert(b1.take(n - 1) =~= b.take(n).drop_first());
        assert(b1[n - 1] == b[n]);
    }
}

/// A set of signatures that holds at most one signature for each public key.
#[derive(Debug)]
pub struct Signatures {
    signatures: Vec<Signature>,
}

impl View for Signatures {
    type V = Seq<Signature>;

    closed spec fn view(&self) -> Seq<Signature> {
        self.signatures@
    }
}

impl Clone for Signatures {
    fn clone(&self) -> (r: Self)
        ensures
            r@ == self@,
    {
        Signatures { signatures: self.values() }
    }
}

impl Signatures {
    /// The invariant of the set: no public key occurs twice.
    pub open spec fn wf(&self) -> bool {
        distinct_keys(self@)
    }

    /// The empty set.
    pub fn new() -> (r: Self)
        ensures
            r@ == Seq::<Signature>::empty(),
            r.wf(),
    {
        Signatures { signatures: Vec::new() }
    }

    /// How many signatures the set holds.
    pub fn len(&self) -> (n: usize)
        ensures
            n == self@.len(),
    {
        self.signatures.len()
    }

    /// Whether the set holds nothing.
    pub fn is_empty(&self) -> (r: bool)
        ensures
            r == (self@.len() == 0),
    {
        self.signatures.len() == 0
    }

    /// Whether `public_key` has a signature in the set.
    pub fn contains(&self, public_key: &PublicKey) -> (r: bool)
        ensures
            r == has_key(self@, *public_key),
    {
        let i = self.position(public_key);
        proof {
            lemma_key_index(self@, *public_key);
        }
        i < self.signatures.len()
    }

    fn position(&self, public_key: &PublicKey) -> (i: usize)
        ensures
            i == key_index(self@, *public_key),
    {
        let mut i: usize = 0;
        proof {
            lemma_key_index(self@, *public_key);
        }
        while i < self.signatures.len()
            invariant
                i <= self.signatures.len(),
                forall|j: int| 0 <= j < i ==> self@[j].public_key != *public_key,
                0 <= key_index(self@, *public_key) <= self@.len(),
                key_index(self@, *public_key) < self@.len() ==> self@[key_index(
                    self@,
                    *public_key,
                )].public_key == *public_key,
                forall|j: int|
                    0 <= j < key_index(self@, *public_key) ==> self@[j].public_key != *public_key,
            decreases self.signatures.len() - i,
        {
            if self.signatures[i].public_key == *public_key {
                return i;
            }
            i += 1;
        }
        i
    }

    /// Puts `signature` in, in place of the one its key already has, if any.
    pub fn add(&mut self, signature: Signature)
        requires
            old(self).wf(),
        ensures
            final(self)@ == with_signature(old(self)@, signature),
            final(self).wf(),
    {
        let i = self.position(&signature.public_key);
        proof {
            lemma_with_signature(self@, signature);
        }
        if i < self.signatures.len() {
            self.signatures[i] = signature;
        } else {
            self.signatures.push(signature);
        }
    }

    /// Puts every signature of `signatures` in, one after the other.
    pub fn append(&mut self, signatures: &[Signature])
        requires
            old(self).wf(),
        ensures
            final(self)@ == merged(old(self)@, signatures@),
            final(self).wf(),
    {
        let mut i: usize = 0;
        assert(signatures@.take(0) =~= Seq::<Signature>::empty());
        while i < signatures.len()
            invariant
                i <= signatures.len(),
                self.wf(),
                self@ == merged(old(self)@, signatures@.take(i as int)),
            decreases signatures.len() - i,
        {
            proof {
                lemma_merged_take(old(self)@, signatures@, i as int);
            }
            self.add(signatures[i]);
            i += 1;
        }
        assert(signatures@.take(signatures.len() as int) =~= signatures@);
    }

    /// The signatures of the set, in the order in which their keys came in.
    pub fn values(&self) -> (r: Vec<Signature>)
        ensures
            r@ == self@,
    {
        let mut r: Vec<Signature> = Vec::new();
        let mut i: usize = 0;
        while i < self.signatures.len()
            invariant
                i <= self.signatures.len(),
                r@ == self@.take(i as int),
            decreases self.signatures.len() - i,
        {
            r.push(self.signatures[i]);
            assert(self@.take(i as int + 1) =~= self@.take(i as int).push(self@[i as int]));
            i += 1;
        }
        assert(self@.take(self@.len() as int) =~= self@);
        r
    }

    /// The signatures of the set that verify for `payload`.
    pub fn verified(&self, payload: &[u8]) -> (r: Vec<Signature>)
        ensures
            r@ == verified(self@, payload@),
    {
        let mut r: Vec<Signature> = Vec::new();
        let mut i: usize = 0;
        let ghost keep = |x: Signature| x.valid_for(payload@);
        proof {
            assert(self@.take(0) =~= Seq::<Signature>::empty());
            lemma_filter_empty(keep);
        }
        while i < self.signatures.len()
            invariant
                i <= self.signatures.len(),
                keep == |x: Signature| x.valid_for(payload@),
                r@ == self@.take(i as int).filter(keep),
            decreases self.signatures.len() - i,
        {
            let s = self.signatures[i];
            proof {
                lemma_filter_take_step(self@, i as int, keep);
            }
            if s.verify(payload) {
                r.push(s);
            }
            i += 1;
        }
        assert(self@.take(self@.len() as int) =~= self@);
        r
    }

    /// Removes every signature.
    pub fn clear(&mut self)
        ensures
            final(self)@ == Seq::<Signature>::empty(),
            final(self).wf(),
    {
        self.signatures = Vec::new();
    }
}

/// The set that holds the signatures of `signatures`, later ones replacing
/// earlier ones of the same key.
pub fn signatures_from(signatures: &[Signature]) -> (r: Signatures)
    ensures
        r@ == merged(Seq::<Signature>::empty(), signatures@),
        r.wf(),
{
    let mut r = Signatures::new();
    r.append(signatures);
    r
}

} // verus!
