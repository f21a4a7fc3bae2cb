//! Variable-length little-endian (base-256) integer codec.
//!
//! Validator indexes and the validator count are stored as unbounded
//! little-endian byte strings with no leading zero bytes; zero encodes as
//! the empty sequence.

use vstd::arithmetic::div_mod::lemma_fundamental_div_mod;
use vstd::prelude::*;

verus! {

/// The canonical variable-width little-endian encoding of `v`:
/// least-significant byte first, no trailing zero bytes; zero encodes as
/// the empty sequence.
pub open spec fn encode_le(v: nat) -> Seq<u8>
    decreases v,
{
    if v == 0 {
        Seq::empty()
    } else {
        seq![(v % 256) as u8] + encode_le(v / 256)
    }
}

/// The value a byte sequence denotes when read as a little-endian
/// base-256 integer.
pub open spec fn decode_le(s: Seq<u8>) -> nat
    decreases s.len(),
{
    if s.len() == 0 {
        0nat
    } else {
        s[0] as nat + 256 * decode_le(s.subrange(1, s.len() as int))
    }
}

/// Appends the little-endian encoding of `value` to `initial` and returns
/// the result; used to build composite storage keys and the stored count.
pub fn value_vec(value: usize, initial: Vec<u8>) -> (r: Vec<u8>)
    ensures
        r@ == initial@ + encode_le(value as nat),
{
    let ghost full: Seq<u8> = initial@ + encode_le(value as nat);
    let mut acc = initial;
    let mut v = value;
    while v > 0
        invariant
            acc@ + encode_le(v as nat) == full,
        decreases v,
    {
        let ghost pre = acc@;
        let ghost vpre = v as nat;
        let b: u8 = (v % 256) as u8;
        acc.push(b);
        v = v / 256;
        proof {
            assert(encode_le(vpre) == seq![b] + encode_le(vpre / 256));
            assert(acc@ =~= pre + seq![b]);
            assert(acc@ + encode_le(v as nat) =~= pre + encode_le(vpre));
        }
    }
    proof {
        assert(acc@ + encode_le(0) =~= acc@);
    }
    acc
}

proof fn lemma_decode_unfold(s: Seq<u8>, i: int)
    requires
        0 <= i < s.len(),
    ensures
        decode_le(s.subrange(i, s.len() as int)) == s[i] as nat + 256 * decode_le(
            s.subrange(i + 1, s.len() as int),
        ),
{
    let t = s.subrange(i, s.len() as int);
    assert(t.subrange(1, t.len() as int) =~= s.subrange(i + 1, s.len() as int));
}

proof fn lemma_decode_suffix_le(s: Seq<u8>, i: int)
    requires
        0 <= i <= s.len(),
    ensures
        decode_le(s.subrange(i, s.len() as int)) <= decode_le(s),
    decreases i,
{
    if i > 0 {
        lemma_decode_unfold(s, i - 1);
        lemma_decode_suffix_le(s, i - 1);
    } else {
        assert(s.subrange(0, s.len() as int) =~= s);
    }
}

/// Reads a stored byte string back as a little-endian base-256 integer,
/// iterating from the most significant (last) byte down.
pub fn decode_bytes(bytes: &[u8]) -> (r: usize)
    requires
        decode_le(bytes@) <= usize::MAX,
    ensures
        r as nat == decode_le(bytes@),
{
    let mut i: usize = bytes.len();
    let mut acc: usize = 0;
    proof {
        assert(bytes@.subrange(i as int, bytes@.len() as int) =~= Seq::empty());
    }
    while i > 0
        invariant
            i <= bytes@.len(),
            decode_le(bytes@) <= usize::MAX,
            acc as nat == decode_le(bytes@.subrange(i as int, bytes@.len() as int)),
        decreases i,
    {
        proof {
            lemma_decode_unfold(bytes@, i as int - 1);
            lemma_decode_suffix_le(bytes@, i as int - 1);
        }
        i = i - 1;
        acc = acc * 256 + (bytes[i] as usize);
    }
    proof {
        assert(bytes@.subrange(0, bytes@.len() as int) =~= bytes@);
    }
    acc
}

/// Law: decoding an encoding recovers the encoded value, and zero
/// encodes as the empty sequence.
pub proof fn lemma_decode_encode(v: nat)
    ensures
        decode_le(encode_le(v)) == v,
        encode_le(0) == Seq::<u8>::empty(),
    decreases v,
{
    if v > 0 {
        lemma_decode_encode(v / 256);
        let e = encode_le(v);
        let b = (v % 256) as u8;
        assert(e == seq![b] + encode_le(v / 256));
        assert(e.subrange(1, e.len() as int) =~= encode_le(v / 256));
        lemma_fundamental_div_mod(v as int, 256);
    }
}

/// Law: the encoding is injective, so distinct integers address distinct
/// storage slots.
pub proof fn lemma_encode_injective(a: nat, b: nat)
    requires
        encode_le(a) == encode_le(b),
    ensures
        a == b,
{
    lemma_decode_encode(a);
    lemma_decode_encode(b);
}

} // verus!
