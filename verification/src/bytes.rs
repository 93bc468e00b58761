//! Byte strings: equality, lexicographic order and the encoding primitives
//! from which hashed payloads are assembled.

use parity_scale_codec::Encode;
use vstd::bytes::{spec_u128_to_le_bytes, spec_u64_to_le_bytes};
use vstd::prelude::*;

verus! {

/// Strict lexicographic order on byte strings; a proper prefix comes first.
pub open spec fn lex_lt(a: Seq<u8>, b: Seq<u8>) -> bool
    decreases a.len(),
{
    if b.len() == 0 {
        false
    } else if a.len() == 0 {
        true
    } else if a[0] != b[0] {
        a[0] < b[0]
    } else {
        lex_lt(a.drop_first(), b.drop_first())
    }
}

/// The lexicographic order is irreflexive.
pub proof fn lemma_lex_irreflexive(a: Seq<u8>)
    ensures
        !lex_lt(a, a),
    decreases a.len(),
{
    if a.len() > 0 {
        lemma_lex_irreflexive(a.drop_first());
    }
}

/// The lexicographic order is transitive.
pub proof fn lemma_lex_transitive(a: Seq<u8>, b: Seq<u8>, c: Seq<u8>)
    requires
        lex_lt(a, b),
        lex_lt(b, c),
    ensures
        lex_lt(a, c),
    decreases a.len(),
{
    if a.len() > 0 && a[0] == b[0] && b[0] == c[0] {
        lemma_lex_transitive(a.drop_first(), b.drop_first(), c.drop_first());
    }
}

/// Any two byte strings are equal or ordered one way round.
pub proof fn lemma_lex_total(a: Seq<u8>, b: Seq<u8>)
    ensures
        lex_lt(a, b) || lex_lt(b, a) || a == b,
    decreases a.len(),
{
    if a.len() == 0 || b.len() == 0 {
        if a.len() == 0 && b.len() == 0 {
            assert(a =~= b);
        }
    } else if a[0] == b[0] {
        lemma_lex_total(a.drop_first(), b.drop_first());
        if a.drop_first() == b.drop_first() {
            assert(a =~= seq![a[0]] + a.drop_first());
            assert(b =~= seq![b[0]] + b.drop_first());
        }
    }
}

/// `lex_lt` once a common prefix of length `k` has been skipped.
proof fn lemma_lex_skip(a: Seq<u8>, b: Seq<u8>, k: int)
    requires
        0 <= k <= a.len(),
        k <= b.len(),
        forall|j: int| 0 <= j < k ==> a[j] == b[j],
    ensures
        lex_lt(a, b) == lex_lt(a.skip(k), b.skip(k)),
    decreases k,
{
    if k > 0 {
        lemma_lex_skip(a.drop_first(), b.drop_first(), k - 1);
        assert(a.drop_first().skip(k - 1) =~= a.skip(k));
        assert(b.drop_first().skip(k - 1) =~= b.skip(k));
    } else {
        assert(a.skip(0) =~= a);
        assert(b.skip(0) =~= b);
    }
}

/// Whether two byte strings hold the same bytes.
pub fn bytes_equal(a: &[u8], b: &[u8]) -> (r: bool)
    ensures
        r == (a@ == b@),
{
    if a.len() != b.len() {
        return false;
    }
    let mut i: usize = 0;
    while i < a.len()
        invariant
            i <= a.len(),
            a.len() == b.len(),
            forall|j: int| 0 <= j < i ==> a@[j] == b@[j],
        decreases a.len() - i,
    {
        if a[i] != b[i] {
            return false;
        }
        i += 1;
    }
    assert(a@ =~= b@);
    true
}

/// Whether `a` comes strictly before `b` in lexicographic order.
pub fn bytes_less(a: &[u8], b: &[u8]) -> (r: bool)
    ensures
        r == lex_lt(a@, b@),
{
    let mut i: usize = 0;
    while i < a.len() && i < b.len()
        invariant
            i <= a.len(),
            i <= b.len(),
            forall|j: int| 0 <= j < i ==> a@[j] == b@[j],
        decreases a.len() - i,
    {
        if a[i] != b[i] {
            proof {
                lemma_lex_skip(a@, b@, i as int);
            }
            return a[i] < b[i];
        }
        i += 1;
    }
    proof {
        lemma_lex_skip(a@, b@, i as int);
    }
    i < b.len()
}

/// Appends `src` to `dst`.
pub fn append_bytes(dst: &mut Vec<u8>, src: &[u8])
    ensures
        final(dst)@ == old(dst)@ + src@,
{
    let mut i: usize = 0;
    while i < src.len()
        invariant
            i <= src.len(),
            dst@ == old(dst)@ + src@.take(i as int),
        decreases src.len() - i,
    {
        dst.push(src[i]);
        assert(src@.take(i as int + 1) =~= src@.take(i as int).push(src@[i as int]));
        i += 1;
    }
    assert(src@.take(src.len() as int) =~= src@);
}

/// The eight bytes that stand for `x` in a hashed payload: little-endian.
pub open spec fn encoded_u64(x: u64) -> Seq<u8> {
    spec_u64_to_le_bytes(x)
}

/// The sixteen bytes that stand for `x` in a hashed payload: little-endian.
pub open spec fn encoded_u128(x: u128) -> Seq<u8> {
    spec_u128_to_le_bytes(x)
}

/// Calls `parity_scale_codec::Encode::encode` on a `u64`. The codec writes a
/// fixed-width integer as its little-endian bytes, which is what is claimed.
#[verifier::external_body]
pub(crate) fn encode_u64(x: u64) -> (r: Vec<u8>)
    ensures
        r@ == encoded_u64(x),
{
    x.encode()
}

/// Calls `parity_scale_codec::Encode::encode` on a `u128`. The codec writes a
/// fixed-width integer as its little-endian bytes, which is what is claimed.
#[verifier::external_body]
pub(crate) fn encode_u128(x: u128) -> (r: Vec<u8>)
    ensures
        r@ == encoded_u128(x),
{
    x.encode()
}

/// A byte string behind its length: how variable-length fields enter a payload.
pub open spec fn framed(bytes: Seq<u8>) -> Seq<u8> {
    encoded_u64(bytes.len() as u64) + bytes
}

/// Appends the length of `bytes` and then `bytes` to `dst`.
pub fn append_framed(dst: &mut Vec<u8>, bytes: &[u8])
    ensures
        final(dst)@ == old(dst)@ + framed(bytes@),
{
    let len: u64 = bytes.len() as u64;
    let prefix = encode_u64(len);
    append_bytes(dst, prefix.as_slice());
    append_bytes(dst, bytes);
    assert(dst@ =~= old(dst)@ + framed(bytes@));
}

} // verus!
