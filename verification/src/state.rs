//! The storage abstraction: an opaque byte-keyed, byte-valued store with
//! reserved slots for the module's code, the validator count, and one slot
//! per validator index.

use crate::codec::{decode_le, encode_le, lemma_decode_encode, lemma_encode_injective};
use crate::codec::{decode_bytes, value_vec};
use vstd::prelude::*;

verus! {

/// The value a store maps a key to: the stored bytes, or the empty
/// sequence when the key was never written.
pub open spec fn lookup(m: Map<Seq<u8>, Seq<u8>>, k: Seq<u8>) -> Seq<u8> {
    if m.contains_key(k) {
        m[k]
    } else {
        Seq::empty()
    }
}

/// The 5-byte sentinel key of the `code` slot: NUL followed by "code".
pub open spec fn code_key() -> Seq<u8> {
    seq![0u8, 99u8, 111u8, 100u8, 101u8]
}

/// The sentinel prefix of every validator slot key: NUL followed by
/// "validator".
pub open spec fn validator_prefix() -> Seq<u8> {
    seq![0u8, 118u8, 97u8, 108u8, 105u8, 100u8, 97u8, 116u8, 111u8, 114u8]
}

/// The key of the validator-count slot: the validator prefix followed by
/// "_count".
pub open spec fn count_key() -> Seq<u8> {
    validator_prefix() + seq![95u8, 99u8, 111u8, 117u8, 110u8, 116u8]
}

/// The key of validator slot `i`: the validator prefix followed by the
/// little-endian encoding of `i` (index 0's key is the bare prefix).
pub open spec fn validator_key(i: nat) -> Seq<u8> {
    validator_prefix() + encode_le(i)
}

/// The validator count a store holds: the little-endian value of the
/// count slot; an unwritten (empty) slot denotes count 0.
pub open spec fn count_of(m: Map<Seq<u8>, Seq<u8>>) -> nat {
    decode_le(lookup(m, count_key()))
}

/// The store after validator slots `lo..hi` have been overwritten with
/// the empty byte string, in ascending index order.
pub open spec fn cleared(m: Map<Seq<u8>, Seq<u8>>, lo: nat, hi: nat) -> Map<Seq<u8>, Seq<u8>>
    decreases hi - lo,
{
    if hi <= lo {
        m
    } else {
        cleared(m, lo, (hi - 1) as nat).insert(validator_key((hi - 1) as nat), Seq::empty())
    }
}

/// The store after the validator count has been set to `c`: slots
/// `c..count_of(m)` are cleared first (reading the old count), then the
/// count slot is overwritten with the encoding of `c`.
pub open spec fn with_count(m: Map<Seq<u8>, Seq<u8>>, c: nat) -> Map<Seq<u8>, Seq<u8>> {
    cleared(m, c, count_of(m)).insert(count_key(), encode_le(c))
}

/// The store after validator slots `0..vs.len()` have been overwritten
/// positionally with `vs`, in ascending index order.
pub open spec fn written(m: Map<Seq<u8>, Seq<u8>>, vs: Seq<Seq<u8>>) -> Map<Seq<u8>, Seq<u8>>
    decreases vs.len(),
{
    if vs.len() == 0 {
        m
    } else {
        written(m, vs.drop_last()).insert(validator_key((vs.len() - 1) as nat), vs.last())
    }
}

/// The byte strings of each element of a sequence of byte vectors.
pub open spec fn views_of(vs: Seq<Vec<u8>>) -> Seq<Seq<u8>> {
    vs.map_values(|v: Vec<u8>| v@)
}

/// Law: distinct validator indexes address distinct storage slots.
pub proof fn lemma_validator_key_injective(a: nat, b: nat)
    requires
        validator_key(a) == validator_key(b),
    ensures
        a == b,
{
    let p = validator_prefix();
    assert(encode_le(a) =~= validator_key(a).subrange(p.len() as int, validator_key(a).len() as int));
    assert(encode_le(b) =~= validator_key(b).subrange(p.len() as int, validator_key(b).len() as int));
    lemma_encode_injective(a, b);
}

fn code_key_vec() -> (r: Vec<u8>)
    ensures
        r@ == code_key(),
{
    let mut v: Vec<u8> = Vec::new();
    v.push(0);
    v.push(99);
    v.push(111);
    v.push(100);
    v.push(101);
    proof {
        assert(v@ =~= code_key());
    }
    v
}

fn validator_prefix_vec() -> (r: Vec<u8>)
    ensures
        r@ == validator_prefix(),
{
    let mut v: Vec<u8> = Vec::new();
    v.push(0);
    v.push(118);
    v.push(97);
    v.push(108);
    v.push(105);
    v.push(100);
    v.push(97);
    v.push(116);
    v.push(111);
    v.push(114);
    proof {
        assert(v@ =~= validator_prefix());
    }
    v
}

fn count_key_vec() -> (r: Vec<u8>)
    ensures
        r@ == count_key(),
{
    let mut v = validator_prefix_vec();
    v.push(95);
    v.push(99);
    v.push(111);
    v.push(117);
    v.push(110);
    v.push(116);
    proof {
        assert(v@ =~= count_key());
    }
    v
}

fn validator_key_vec(index: usize) -> (r: Vec<u8>)
    ensures
        r@ == validator_key(index as nat),
{
    value_vec(index, validator_prefix_vec())
}

/// A key-value store of byte strings. A key with no stored value reads as
/// the empty byte sequence: absence and emptiness are indistinguishable.
pub struct Store {
    entries: Vec<(Vec<u8>, Vec<u8>)>,
}

spec fn entries_map(s: Seq<(Vec<u8>, Vec<u8>)>) -> Map<Seq<u8>, Seq<u8>>
    decreases s.len(),
{
    if s.len() == 0 {
        Map::empty()
    } else {
        entries_map(s.drop_last()).insert(s.last().0@, s.last().1@)
    }
}

impl View for Store {
    type V = Map<Seq<u8>, Seq<u8>>;

    closed spec fn view(&self) -> Map<Seq<u8>, Seq<u8>> {
        entries_map(self.entries@)
    }
}

/// The key "input" the data-passing exercise stages its input under.
pub open spec fn input_key() -> Seq<u8> {
    seq![105u8, 110u8, 112u8, 117u8, 116u8]
}

/// The bare key "code" (no sentinel prefix; distinct from the code
/// slot's key) the data-passing exercise copies the stored code to.
pub open spec fn plain_code_key() -> Seq<u8> {
    seq![99u8, 111u8, 100u8, 101u8]
}

/// The reply "all ok!" the data-passing exercise returns.
pub open spec fn ok_message() -> Seq<u8> {
    seq![97u8, 108u8, 108u8, 32u8, 111u8, 107u8, 33u8]
}

/// The current validator slots of a store, in index order.
pub open spec fn validators_of(m: Map<Seq<u8>, Seq<u8>>) -> Seq<Seq<u8>> {
    Seq::new(count_of(m), |i: int| lookup(m, validator_key(i as nat)))
}

/// The store after the data-passing exercise ran on it with `input`:
/// the input staged under "input", the stored code copied to the bare
/// "code" key, the input installed as the code, and the validator set
/// replaced by the old set with the staged input appended.
pub open spec fn test_data_in_post(m: Map<Seq<u8>, Seq<u8>>, input: Seq<u8>) -> Map<
    Seq<u8>,
    Seq<u8>,
> {
    let m1 = m.insert(input_key(), input);
    let m2 = m1.insert(plain_code_key(), lookup(m1, code_key()));
    let m3 = m2.insert(code_key(), input);
    let vs = validators_of(m3).push(lookup(m3, input_key()));
    written(with_count(m3, vs.len()), vs)
}

/// Law: in a store with nothing written, every key reads as the empty
/// byte string.
pub proof fn lemma_read_fresh(k: Seq<u8>)
    ensures
        lookup(Map::<Seq<u8>, Seq<u8>>::empty(), k) == Seq::<u8>::empty(),
{
}

/// Law: a write to one key leaves what every other key reads unchanged.
pub proof fn lemma_read_other(m: Map<Seq<u8>, Seq<u8>>, k: Seq<u8>, k2: Seq<u8>, v: Seq<u8>)
    requires
        k2 != k,
    ensures
        lookup(m.insert(k2, v), k) == lookup(m, k),
{
}

/// Law: a key read immediately after it was written returns exactly the
/// written value.
pub proof fn lemma_write_read(m: Map<Seq<u8>, Seq<u8>>, k: Seq<u8>, v: Seq<u8>)
    ensures
        lookup(m.insert(k, v), k) == v,
{
}

/// What clearing a range of validator slots does to an arbitrary key:
/// a key addressed by some index in the range reads empty, every other
/// key is unchanged.
pub proof fn lemma_cleared_lookup(m: Map<Seq<u8>, Seq<u8>>, lo: nat, hi: nat, k: Seq<u8>)
    ensures
        lookup(cleared(m, lo, hi), k) == if exists|i: nat| lo <= i < hi && k == validator_key(i) {
            Seq::<u8>::empty()
        } else {
            lookup(m, k)
        },
    decreases hi - lo,
{
    if hi > lo {
        lemma_cleared_lookup(m, lo, (hi - 1) as nat, k);
        let h1 = (hi - 1) as nat;
        if k == validator_key(h1) {
            assert(lo <= h1 < hi && k == validator_key(h1));
        } else if exists|i: nat| lo <= i < hi && k == validator_key(i) {
            let w = choose|i: nat| lo <= i < hi && k == validator_key(i);
            assert(w < h1 && k == validator_key(w));
        }
    }
}

/// Law: setting the validator count to `c` makes the stored count `c`,
/// clears every slot whose index is in `[c, old count)` to empty, and
/// leaves every other validator slot unchanged. The one slot this cannot
/// be said of is the one whose composite key collides with the count
/// slot's own key, which the final count write overwrites.
pub proof fn lemma_set_count_effect(m: Map<Seq<u8>, Seq<u8>>, c: nat, j: nat)
    requires
        validator_key(j) != count_key(),
    ensures
        count_of(with_count(m, c)) == c,
        lookup(with_count(m, c), validator_key(j)) == if c <= j < count_of(m) {
            Seq::<u8>::empty()
        } else {
            lookup(m, validator_key(j))
        },
{
    lemma_decode_encode(c);
    lemma_cleared_lookup(m, c, count_of(m), validator_key(j));
    if exists|i: nat| c <= i < count_of(m) && validator_key(j) == validator_key(i) {
        let w = choose|i: nat| c <= i < count_of(m) && validator_key(j) == validator_key(i);
        lemma_validator_key_injective(j, w);
    }
    if c <= j < count_of(m) {
        assert(c <= j < count_of(m) && validator_key(j) == validator_key(j));
    }
}

proof fn lemma_written_at(m0: Map<Seq<u8>, Seq<u8>>, vs: Seq<Seq<u8>>, i: int)
    requires
        0 <= i < vs.len(),
    ensures
        lookup(written(m0, vs), validator_key(i as nat)) == vs[i],
    decreases vs.len(),
{
    if i < vs.len() - 1 {
        lemma_written_at(m0, vs.drop_last(), i);
        if validator_key((vs.len() - 1) as nat) == validator_key(i as nat) {
            lemma_validator_key_injective((vs.len() - 1) as nat, i as nat);
        }
    }
}

proof fn lemma_written_other(m0: Map<Seq<u8>, Seq<u8>>, vs: Seq<Seq<u8>>, k: Seq<u8>)
    requires
        forall|i: nat| i < vs.len() ==> validator_key(i) != k,
    ensures
        lookup(written(m0, vs), k) == lookup(m0, k),
    decreases vs.len(),
{
    if vs.len() > 0 {
        lemma_written_other(m0, vs.drop_last(), k);
        assert(validator_key((vs.len() - 1) as nat) != k);
    }
}

/// Law: after the validator set is replaced by `vs`, the stored count is
/// `vs.len()` and slot `i` holds exactly `vs[i]`, in order. The indexes
/// `vs` covers must not include the one whose composite key collides
/// with the count slot's own key.
pub proof fn lemma_set_get_validators(m: Map<Seq<u8>, Seq<u8>>, vs: Seq<Seq<u8>>)
    requires
        forall|i: nat| i < vs.len() ==> validator_key(i) != count_key(),
    ensures
        count_of(written(with_count(m, vs.len()), vs)) == vs.len(),
        forall|i: int|
            0 <= i < vs.len() ==> lookup(written(with_count(m, vs.len()), vs), validator_key(i as nat))
                == vs[i],
{
    lemma_written_other(with_count(m, vs.len()), vs, count_key());
    lemma_decode_encode(vs.len());
    assert forall|i: int| 0 <= i < vs.len() implies lookup(
        written(with_count(m, vs.len()), vs),
        validator_key(i as nat),
    ) == vs[i] by {
        lemma_written_at(with_count(m, vs.len()), vs, i);
    }
}

/// Byte-wise equality of two byte strings.
fn bytes_eq(a: &[u8], b: &[u8]) -> (r: bool)
    ensures
        r == (a@ == b@),
{
    if a.len() != b.len() {
        return false;
    }
    let mut i: usize = 0;
    while i < a.len()
        invariant
            i <= a@.len(),
            a@.len() == b@.len(),
            forall|j: int| 0 <= j < i ==> a@[j] == b@[j],
        decreases a@.len() - i,
    {
        if a[i] != b[i] {
            return false;
        }
        i = i + 1;
    }
    proof {
        assert(a@ =~= b@);
    }
    true
}

proof fn lemma_entries_map_found(s: Seq<(Vec<u8>, Vec<u8>)>, i: int)
    requires
        0 <= i < s.len(),
        forall|j: int| i < j < s.len() ==> s[j].0@ != s[i].0@,
    ensures
        entries_map(s).contains_key(s[i].0@),
        entries_map(s)[s[i].0@] == s[i].1@,
    decreases s.len(),
{
    if i < s.len() - 1 {
        lemma_entries_map_found(s.drop_last(), i);
    }
}

proof fn lemma_entries_map_absent(s: Seq<(Vec<u8>, Vec<u8>)>, k: Seq<u8>)
    requires
        forall|j: int| 0 <= j < s.len() ==> s[j].0@ != k,
    ensures
        !entries_map(s).contains_key(k),
    decreases s.len(),
{
    if s.len() > 0 {
        lemma_entries_map_absent(s.drop_last(), k);
    }
}

impl Store {
    /// A store with nothing written yet.
    pub fn new() -> (r: Store)
        ensures
            r@ == Map::<Seq<u8>, Seq<u8>>::empty(),
    {
        Store { entries: Vec::new() }
    }

    /// Overwrites the value stored under `key`.
    pub fn set_storage(&mut self, key: &[u8], value: &[u8])
        ensures
            final(self)@ == old(self)@.insert(key@, value@),
    {
        let ghost pre = self.entries@;
        let k = vstd::slice::slice_to_vec(key);
        let v = vstd::slice::slice_to_vec(value);
        self.entries.push((k, v));
        proof {
            assert(self.entries@.drop_last() =~= pre);
        }
    }

    /// Fetches the value stored under `key`, or the empty byte string when
    /// the key was never written; an absent key is not an error.
    pub fn storage(&self, key: &[u8]) -> (r: Vec<u8>)
        ensures
            r@ == lookup(self@, key@),
    {
        let mut i: usize = self.entries.len();
        while i > 0
            invariant
                i <= self.entries@.len(),
                forall|j: int| i <= j < self.entries@.len() ==> self.entries@[j].0@ != key@,
            decreases i,
        {
            i = i - 1;
            if bytes_eq(self.entries[i].0.as_slice(), key) {
                proof {
                    lemma_entries_map_found(self.entries@, i as int);
                }
                return vstd::slice::slice_to_vec(self.entries[i].1.as_slice());
            }
        }
        proof {
            lemma_entries_map_absent(self.entries@, key@);
        }
        Vec::new()
    }

    /// Fetches the module's stored code, or the empty byte string when
    /// none was stored.
    pub fn code(&self) -> (r: Vec<u8>)
        ensures
            r@ == lookup(self@, code_key()),
    {
        let k = code_key_vec();
        self.storage(k.as_slice())
    }

    /// Overwrites the module's stored code.
    pub fn set_code(&mut self, new: &[u8])
        ensures
            final(self)@ == old(self)@.insert(code_key(), new@),
    {
        let k = code_key_vec();
        self.set_storage(k.as_slice(), new)
    }

    /// Fetches validator slot `index`, or the empty byte string when the
    /// slot was never written.
    pub fn validator(&self, index: usize) -> (r: Vec<u8>)
        ensures
            r@ == lookup(self@, validator_key(index as nat)),
    {
        let k = validator_key_vec(index);
        self.storage(k.as_slice())
    }

    /// Overwrites validator slot `index`.
    pub fn set_validator(&mut self, index: usize, validator: &[u8])
        ensures
            final(self)@ == old(self)@.insert(validator_key(index as nat), validator@),
    {
        let k = validator_key_vec(index);
        self.set_storage(k.as_slice(), validator)
    }

    /// Decodes the validator count from its slot; an empty (unwritten)
    /// slot decodes to 0.
    pub fn validator_count(&self) -> (r: usize)
        requires
            count_of(self@) <= usize::MAX,
        ensures
            r as nat == count_of(self@),
    {
        let k = count_key_vec();
        let v = self.storage(k.as_slice());
        decode_bytes(v.as_slice())
    }

    /// Sets the validator count: clears every slot in
    /// `[count, old count)` to the empty byte string (reading the old
    /// count before the count slot is touched), then overwrites the count
    /// slot with the encoding of `count`.
    pub fn set_validator_count(&mut self, count: usize)
        requires
            count_of(old(self)@) <= usize::MAX,
        ensures
            final(self)@ == with_count(old(self)@, count as nat),
    {
        let old_count = self.validator_count();
        let mut i = count;
        if i > old_count {
            i = old_count;
        }
        proof {
            assert(self@ == cleared(old(self)@, count as nat, i as nat));
        }
        while i < old_count
            invariant
                count <= i <= old_count || (count > old_count && i == old_count),
                old_count as nat == count_of(old(self)@),
                self@ == cleared(old(self)@, count as nat, i as nat),
            decreases old_count - i,
        {
            let empty: Vec<u8> = Vec::new();
            self.set_validator(i, empty.as_slice());
            i = i + 1;
            proof {
                assert(self@ == cleared(old(self)@, count as nat, (i - 1) as nat).insert(
                    validator_key((i - 1) as nat),
                    Seq::empty(),
                ));
            }
        }
        let k = count_key_vec();
        let enc = value_vec(count, Vec::new());
        proof {
            assert(enc@ =~= encode_le(count as nat));
        }
        self.set_storage(k.as_slice(), enc.as_slice());
    }

    /// Returns validator slots `0..count` in index order.
    pub fn validators(&self) -> (r: Vec<Vec<u8>>)
        requires
            count_of(self@) <= usize::MAX,
        ensures
            r@.len() == count_of(self@),
            forall|i: int| 0 <= i < r@.len() ==> r@[i]@ == lookup(self@, validator_key(i as nat)),
    {
        let n = self.validator_count();
        let mut out: Vec<Vec<u8>> = Vec::new();
        let mut i: usize = 0;
        while i < n
            invariant
                i <= n,
                n as nat == count_of(self@),
                out@.len() == i,
                forall|j: int| 0 <= j < i ==> out@[j]@ == lookup(self@, validator_key(j as nat)),
            decreases n - i,
        {
            let v = self.validator(i);
            out.push(v);
            i = i + 1;
        }
        out
    }

    /// Replaces the validator set: sets the count to `validators.len()`
    /// (clearing now out-of-range slots against the previous count), then
    /// writes each slot positionally.
    pub fn set_validators(&mut self, validators: &Vec<Vec<u8>>)
        requires
            count_of(old(self)@) <= usize::MAX,
        ensures
            final(self)@ == written(
                with_count(old(self)@, validators@.len() as nat),
                views_of(validators@),
            ),
    {
        self.set_validator_count(validators.len());
        let ghost m0 = self@;
        let mut i: usize = 0;
        proof {
            assert(views_of(validators@).take(0) =~= Seq::<Seq<u8>>::empty());
        }
        while i < validators.len()
            invariant
                i <= validators@.len(),
                self@ == written(m0, views_of(validators@).take(i as int)),
            decreases validators@.len() - i,
        {
            self.set_validator(i, validators[i].as_slice());
            i = i + 1;
            proof {
                let vs = views_of(validators@);
                assert(vs.take(i as int).drop_last() =~= vs.take(i as int - 1));
                assert(vs.take(i as int).last() == validators@[i - 1]@);
            }
        }
        proof {
            assert(views_of(validators@).take(validators@.len() as int) =~= views_of(validators@));
        }
    }
}

fn input_key_vec() -> (r: Vec<u8>)
    ensures
        r@ == input_key(),
{
    let mut v: Vec<u8> = Vec::new();
    v.push(105);
    v.push(110);
    v.push(112);
    v.push(117);
    v.push(116);
    proof {
        assert(v@ =~= input_key());
    }
    v
}

fn plain_code_key_vec() -> (r: Vec<u8>)
    ensures
        r@ == plain_code_key(),
{
    let mut v: Vec<u8> = Vec::new();
    v.push(99);
    v.push(111);
    v.push(100);
    v.push(101);
    proof {
        assert(v@ =~= plain_code_key());
    }
    v
}

fn ok_message_vec() -> (r: Vec<u8>)
    ensures
        r@ == ok_message(),
{
    let mut v: Vec<u8> = Vec::new();
    v.push(97);
    v.push(108);
    v.push(108);
    v.push(32);
    v.push(111);
    v.push(107);
    v.push(33);
    proof {
        assert(v@ =~= ok_message());
    }
    v
}

/// The data-passing exercise behind the externally callable entry point:
/// stages the input under "input", copies the stored code to the bare
/// "code" key, installs the input as the code, reads the staged copy
/// back, appends it to the validator set, and reports success.
pub fn test_data_in(store: &mut Store, input: Vec<u8>) -> (r: Vec<u8>)
    requires
        count_of(old(store)@) < usize::MAX,
    ensures
        final(store)@ == test_data_in_post(old(store)@, input@),
        r@ == ok_message(),
{
    proof {
        assert(count_key().len() == 16);
    }
    let ik = input_key_vec();
    store.set_storage(ik.as_slice(), input.as_slice());
    let c = store.code();
    let pk = plain_code_key_vec();
    store.set_storage(pk.as_slice(), c.as_slice());
    store.set_code(input.as_slice());
    let ghost m3 = store@;
    let copy = store.storage(ik.as_slice());
    let mut v = store.validators();
    proof {
        assert(views_of(v@) =~= validators_of(m3));
    }
    v.push(copy);
    proof {
        assert(views_of(v@) =~= validators_of(m3).push(lookup(m3, input_key())));
    }
    store.set_validators(&v);
    ok_message_vec()
}

} // verus!
