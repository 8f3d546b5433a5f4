//! A Bloom filter using enhanced double hashing over two keyed SipHash-1-3 digests.
use std::hash::Hash;
use std::hash::Hasher;
use std::marker::PhantomData;

use siphasher::sip::SipHasher13;
use vstd::arithmetic::div_mod::lemma_add_mod_noop;
use vstd::arithmetic::div_mod::lemma_mul_mod_noop_left;
use vstd::arithmetic::div_mod::lemma_mul_mod_noop_right;
use vstd::prelude::*;
use vstd::wrapping::u64_specs;

use crate::bitvec::count_true;
use crate::bitvec::BitVec;

verus! {

/// The two 64-bit keys of one SipHash-1-3 hasher.
#[derive(Clone, Copy, Debug, PartialEq, Eq, Structural)]
pub struct SipKey {
    pub k0: u64,
    pub k1: u64,
}

/// First key of the first hasher (the little-endian reading of its seed's first eight bytes).
pub const SEED1_K0: u64 = 0x2645ef8dfb1ca888;

/// Second key of the first hasher.
pub const SEED1_K1: u64 = 0xaa92a902c962d1a6;

/// First key of the second hasher.
pub const SEED2_K0: u64 = 0x05420b36d4b1ec67;

/// Second key of the second hasher.
pub const SEED2_K1: u64 = 0x25cb5d52fe0656c2;

/// The seed pair shared by every filter: it is what makes two filters comparable.
pub open spec fn seed_keys() -> (SipKey, SipKey) {
    (SipKey { k0: SEED1_K0, k1: SEED1_K1 }, SipKey { k0: SEED2_K0, k1: SEED2_K1 })
}

/// 2^64, the modulus of `u64` arithmetic.
pub const WORD: u128 = 0x1_0000_0000_0000_0000;

/// ln 2 as a 64-bit binary fraction, rounded up.
pub const LN2_Q64: u128 = 0xb172_17f7_d1cf_79ac;

/// ln(100) / (ln 2)^2 − 9, the bits per item at a 1% false-positive rate
/// beyond the first nine, as a 64-bit binary fraction, rounded up.
pub const DEFAULT_BITS_FRAC_Q64: u128 = 0x95c6_62c5_0b42_1a31;

/// (ln 2)^2 / ln(100), the items per bit at a 1% false-positive rate, as a
/// 64-bit binary fraction, rounded to nearest.
pub const DEFAULT_CAPACITY_Q64: u128 = 0x1ab5_4ef2_38be_df60;

/// `a / d` rounded up.
pub open spec fn ceil_div(a: int, d: int) -> int {
    (a + d - 1) / d
}

/// Number of hash positions per item for `nbits` bits and `capacity` items:
/// `ceil((nbits / capacity) * ln 2)`, with integer division for the ratio.
pub open spec fn hashes_for(nbits: nat, capacity: nat) -> int {
    ceil_div((nbits / capacity) * LN2_Q64, WORD as int)
}

/// Bit-vector length for `capacity` items at a 1% false-positive rate:
/// `ceil(capacity * ln(100) / (ln 2)^2)`.
pub open spec fn default_bits_for(capacity: nat) -> int {
    9 * capacity + ceil_div(capacity * DEFAULT_BITS_FRAC_Q64, WORD as int)
}

/// Items that `nbits` bits hold at a 1% false-positive rate:
/// `round(nbits * (ln 2)^2 / ln(100))`.
pub open spec fn default_capacity_for(nbits: nat) -> int {
    (nbits * DEFAULT_CAPACITY_Q64 + WORD / 2) / (WORD as int)
}

/// The `i`-th position of an item with digests `h1`, `h2` in `m` bits:
/// `(h1 + i*h2 + i^3) mod 2^64 mod m` (enhanced double hashing).
pub open spec fn probe(h1: u64, h2: u64, i: int, m: nat) -> int {
    ((h1 + i * h2 + i * i * i) % (WORD as int)) % (m as int)
}

/// Position `j` is one of the first `k` positions of the item.
pub open spec fn is_probe(h1: u64, h2: u64, k: nat, m: nat, j: int) -> bool {
    exists|i: int| 0 <= i < k && #[trigger] probe(h1, h2, i, m) == j
}

/// The bits after inserting the item with digests `h1`, `h2` using `k` positions.
pub open spec fn with_item(bits: Seq<bool>, h1: u64, h2: u64, k: nat) -> Seq<bool> {
    Seq::new(bits.len(), |j: int| bits[j] || is_probe(h1, h2, k, bits.len(), j))
}

/// All `k` positions of the item with digests `h1`, `h2` are set.
pub open spec fn holds_item(bits: Seq<bool>, h1: u64, h2: u64, k: nat) -> bool {
    forall|i: int| 0 <= i < k ==> #[trigger] bits[probe(h1, h2, i, bits.len())]
}

/// Bitwise `OR` of two bit sequences of one length.
pub open spec fn or_bits(a: Seq<bool>, b: Seq<bool>) -> Seq<bool> {
    Seq::new(a.len(), |i: int| a[i] || b[i])
}

/// Bitwise `AND` of two bit sequences of one length.
pub open spec fn and_bits(a: Seq<bool>, b: Seq<bool>) -> Seq<bool> {
    Seq::new(a.len(), |i: int| a[i] && b[i])
}

/// The chained wrapping operations of the position formula compute it modulo 2^64.
proof fn lemma_wrapping_probe(h1: u64, h2: u64, i: u64)
    ensures
        u64_specs::wrapping_add(
            u64_specs::wrapping_add(h1, u64_specs::wrapping_mul(i, h2)),
            u64_specs::wrapping_mul(u64_specs::wrapping_mul(i, i), i),
        ) == (h1 + i * h2 + i * i * i) % (WORD as int),
{
    let w = WORD as int;
    let a = u64_specs::wrapping_mul(i, h2);
    let s1 = u64_specs::wrapping_add(h1, a);
    let c1 = u64_specs::wrapping_mul(i, i);
    let c = u64_specs::wrapping_mul(c1, i);
    assert(s1 == (h1 + a) % w);
    assert(u64_specs::wrapping_add(s1, c) == (s1 + c) % w);
    lemma_add_mod_noop(h1 + a, c as int, w);
    assert(a == (i * h2) % w);
    assert(c1 == (i * i) % w);
    assert(c == (c1 * i) % w);
    lemma_mul_mod_noop_left(i * i, i as int, w);
    lemma_add_mod_noop(h1 + a, c1 * i, w);
    lemma_add_mod_noop(h1 + a, i * i * i, w);
    lemma_add_mod_noop(h1 as int, a as int, w);
    lemma_add_mod_noop(h1 as int, i * h2, w);
    lemma_add_mod_noop(h1 + i * h2, i * i * i, w);
}

/// Every position of an item is set once it is inserted.
pub proof fn lemma_with_item_holds(bits: Seq<bool>, h1: u64, h2: u64, k: nat)
    requires
        bits.len() > 0,
    ensures
        holds_item(with_item(bits, h1, h2, k), h1, h2, k),
{
    let m = bits.len();
    assert forall|i: int| 0 <= i < k implies #[trigger] with_item(bits, h1, h2, k)[probe(
        h1,
        h2,
        i,
        m,
    )] by {
        assert(is_probe(h1, h2, k, m, probe(h1, h2, i, m)));
    }
}

/// An inserted item stays a member after its filter is unioned with another
/// filter of the same length, on either side.
pub proof fn lemma_member_survives_union(a: Seq<bool>, b: Seq<bool>, h1: u64, h2: u64, k: nat)
    requires
        a.len() == b.len(),
        a.len() > 0,
    ensures
        holds_item(a, h1, h2, k) ==> holds_item(or_bits(a, b), h1, h2, k),
        holds_item(b, h1, h2, k) ==> holds_item(or_bits(a, b), h1, h2, k),
{
    let m = a.len();
    assert forall|i: int| 0 <= i < k && holds_item(a, h1, h2, k) implies #[trigger] or_bits(
        a,
        b,
    )[probe(h1, h2, i, m)] by {
        assert(a[probe(h1, h2, i, m)]);
    }
    assert forall|i: int| 0 <= i < k && holds_item(b, h1, h2, k) implies #[trigger] or_bits(
        a,
        b,
    )[probe(h1, h2, i, m)] by {
        assert(b[probe(h1, h2, i, m)]);
    }
}

/// No false negatives: an inserted item is a member, and stays one in the
/// union of its filter with any other filter of the same length.
pub proof fn lemma_no_false_negatives(bits: Seq<bool>, other: Seq<bool>, h1: u64, h2: u64, k: nat)
    requires
        bits.len() > 0,
        other.len() == bits.len(),
    ensures
        holds_item(with_item(bits, h1, h2, k), h1, h2, k),
        holds_item(or_bits(with_item(bits, h1, h2, k), other), h1, h2, k),
        holds_item(or_bits(other, with_item(bits, h1, h2, k)), h1, h2, k),
{
    lemma_with_item_holds(bits, h1, h2, k);
    lemma_member_survives_union(with_item(bits, h1, h2, k), other, h1, h2, k);
    lemma_member_survives_union(other, with_item(bits, h1, h2, k), h1, h2, k);
}

/// Inserting an item a second time leaves the bits as the first insertion
/// left them; by induction, so does inserting it any number of times.
pub proof fn lemma_insert_idempotent(bits: Seq<bool>, h1: u64, h2: u64, k: nat)
    ensures
        with_item(with_item(bits, h1, h2, k), h1, h2, k) == with_item(bits, h1, h2, k),
{
    assert(with_item(with_item(bits, h1, h2, k), h1, h2, k) =~= with_item(bits, h1, h2, k));
}

/// The union of two bit sequences of one length has at least as many set bits
/// as either; their intersection has at most as many as either.
pub proof fn lemma_union_intersection_counts(a: Seq<bool>, b: Seq<bool>)
    requires
        a.len() == b.len(),
    ensures
        count_true(or_bits(a, b)) >= count_true(a),
        count_true(or_bits(a, b)) >= count_true(b),
        count_true(and_bits(a, b)) <= count_true(a),
        count_true(and_bits(a, b)) <= count_true(b),
{
    crate::bitvec::lemma_count_true_mono(a, or_bits(a, b));
    crate::bitvec::lemma_count_true_mono(b, or_bits(a, b));
    crate::bitvec::lemma_count_true_mono(and_bits(a, b), a);
    crate::bitvec::lemma_count_true_mono(and_bits(a, b), b);
}

/// Relies on siphasher's `SipHasher13::new_with_keys` and `finish`: the
/// digest of `item`, fed through its `Hash` impl to a hasher keyed with `key`.
/// Nothing is stated of it, since the item's `Hash` impl decides what is fed.
#[verifier::external_body]
fn sip13_digest<K: Hash>(key: SipKey, item: &K) -> u64 {
    let mut hasher = SipHasher13::new_with_keys(key.k0, key.k1);
    item.hash(&mut hasher);
    hasher.finish()
}

/// Return the optimal number of hash functions for a Bloom filter given a
/// bit vector size and an approximate set size: `ceil((nbits / capacity) * ln 2)`.
///
/// Also called `k`.
pub fn optimal_hashes(nbits: usize, capacity: usize) -> (r: usize)
    requires
        capacity > 0,
    ensures
        r == hashes_for(nbits as nat, capacity as nat),
{
    let q = (nbits / capacity) as u128;
    proof {
        assert(q * LN2_Q64 + (WORD - 1) <= q * WORD + (WORD - 1)) by (nonlinear_arith)
            requires
                q < WORD,
        ;
        assert(q * WORD + (WORD - 1) < WORD * WORD) by (nonlinear_arith)
            requires
                q < WORD,
        ;
    }
    let r = (q * LN2_Q64 + (WORD - 1)) / WORD;
    proof {
        assert((q * WORD + (WORD - 1)) / (WORD as int) == q) by (nonlinear_arith)
            requires
                q < WORD,
        ;
        vstd::arithmetic::div_mod::lemma_div_is_ordered(
            (q * LN2_Q64 + (WORD - 1)) as int,
            (q * WORD + (WORD - 1)) as int,
            WORD as int,
        );
    }
    r as usize
}

/// Return the bit-vector size for `capacity` items at the default 1%
/// false-positive rate: `ceil(capacity * ln(100) / (ln 2)^2)`.
pub fn optimal_bits_default(capacity: usize) -> (r: usize)
    requires
        default_bits_for(capacity as nat) <= usize::MAX,
    ensures
        r == default_bits_for(capacity as nat),
{
    let c = capacity as u128;
    proof {
        assert(c * DEFAULT_BITS_FRAC_Q64 + (WORD - 1) < WORD * WORD) by (nonlinear_arith)
            requires
                c < WORD,
        ;
    }
    let frac = (c * DEFAULT_BITS_FRAC_Q64 + (WORD - 1)) / WORD;
    (9 * c + frac) as usize
}

/// Return the item capacity of `nbits` bits at the default 1% false-positive
/// rate: `round(nbits * (ln 2)^2 / ln(100))`.
pub fn optimal_capacity_default(nbits: usize) -> (r: usize)
    ensures
        r == default_capacity_for(nbits as nat),
        nbits >= 8 ==> r >= 1,
{
    let n = nbits as u128;
    proof {
        if n >= 1 {
            assert(n * DEFAULT_CAPACITY_Q64 + WORD / 2 <= n * WORD) by (nonlinear_arith)
                requires
                    n >= 1,
            ;
        }
        assert(n * WORD < WORD * WORD) by (nonlinear_arith)
            requires
                n < WORD,
        ;
        assert(nbits >= 8 ==> n * DEFAULT_CAPACITY_Q64 + WORD / 2 >= WORD) by (nonlinear_arith)
            requires
                n == nbits,
        ;
    }
    let r = (n * DEFAULT_CAPACITY_Q64 + WORD / 2) / WORD;
    proof {
        if n >= 1 {
            vstd::arithmetic::div_mod::lemma_div_is_ordered(
                (n * DEFAULT_CAPACITY_Q64 + WORD / 2) as int,
                (n * WORD) as int,
                WORD as int,
            );
            vstd::arithmetic::div_mod::lemma_div_by_multiple(n as int, WORD as int);
        }
    }
    r as usize
}

/// A Bloom filter that keeps track of items of type `K`.
#[derive(Debug)]
pub struct BloomFilter<K> {
    bits: BitVec,
    nhashes: usize,
    first_key: SipKey,
    second_key: SipKey,
    key: PhantomData<K>,
}

impl<K> Clone for BloomFilter<K> {
    fn clone(&self) -> Self {
        BloomFilter {
            bits: self.bits.clone(),
            nhashes: self.nhashes,
            first_key: self.first_key,
            second_key: self.second_key,
            key: PhantomData,
        }
    }
}

impl<K> BloomFilter<K> {
    /// The filter's bits.
    pub closed spec fn bits_view(&self) -> Seq<bool> {
        self.bits@
    }

    /// The number of positions per item (`k`).
    pub closed spec fn hashes_view(&self) -> nat {
        self.nhashes as nat
    }

    /// The keys of the two hashers.
    pub closed spec fn keys_view(&self) -> (SipKey, SipKey) {
        (self.first_key, self.second_key)
    }

    /// The bit vector is well formed and not empty.
    pub closed spec fn wf(&self) -> bool {
        self.bits.wf() && self.bits@.len() > 0
    }

    /// Same bit storage and same hash count.
    pub closed spec fn same_state(&self, other: &Self) -> bool {
        self.bits.same_storage(&other.bits) && self.nhashes == other.nhashes
    }

    /// Two filters of one configuration: bit length, hash count and keys.
    pub open spec fn comparable(&self, other: &Self) -> bool {
        &&& self.hashes_view() == other.hashes_view()
        &&& self.bits_view().len() == other.bits_view().len()
        &&& self.keys_view() == other.keys_view()
    }

    /// A filter of `nbits` zero bits and `nhashes` positions per item.
    fn from_parts(bits: BitVec, nhashes: usize) -> (r: Self)
        requires
            bits.wf(),
            bits@.len() > 0,
        ensures
            r.wf(),
            r.bits_view() == bits@,
            r.hashes_view() == nhashes,
            r.keys_view() == seed_keys(),
    {
        BloomFilter {
            bits,
            nhashes,
            first_key: SipKey { k0: SEED1_K0, k1: SEED1_K1 },
            second_key: SipKey { k0: SEED2_K0, k1: SEED2_K1 },
            key: PhantomData,
        }
    }

    /// Return a new, empty Bloom filter of `nbits` bits provisioned for
    /// `capacity` items: it uses `optimal_hashes(nbits, capacity)` positions per item.
    pub fn with_bits(nbits: usize, capacity: usize) -> (r: Self)
        requires
            nbits > 0,
            capacity > 0,
        ensures
            r.wf(),
            r.bits_view() == Seq::new(nbits as nat, |i: int| false),
            r.hashes_view() == hashes_for(nbits as nat, capacity as nat),
            r.keys_view() == seed_keys(),
    {
        let nhashes = optimal_hashes(nbits, capacity);
        Self::from_parts(BitVec::new(nbits), nhashes)
    }

    /// Return a new Bloom filter with a given approximate item capacity, at
    /// the default false positive rate of 1%.
    pub fn new(capacity: usize) -> (r: Self)
        requires
            capacity > 0,
            default_bits_for(capacity as nat) <= usize::MAX,
        ensures
            r.wf(),
            r.bits_view() == Seq::new(default_bits_for(capacity as nat) as nat, |i: int| false),
            r.hashes_view() == hashes_for(default_bits_for(capacity as nat) as nat, capacity as nat),
            r.keys_view() == seed_keys(),
    {
        let nbits = optimal_bits_default(capacity);
        Self::with_bits(nbits, capacity)
    }

    /// Return a new Bloom filter given a size in bytes for the filter; its
    /// capacity is the one those bits hold at the default rate of 1%.
    pub fn with_size(nbytes: usize) -> (r: Self)
        requires
            nbytes > 0,
            nbytes * 8 <= usize::MAX,
        ensures
            r.wf(),
            r.bits_view() == Seq::new(nbytes as nat * 8, |i: int| false),
            r.hashes_view() == hashes_for(
                nbytes as nat * 8,
                default_capacity_for(nbytes as nat * 8) as nat,
            ),
            r.keys_view() == seed_keys(),
    {
        let nbits = nbytes * 8;
        let capacity = optimal_capacity_default(nbits);
        Self::with_bits(nbits, capacity)
    }

    /// Rebuild a filter from its raw bytes, assuming the default rate of 1%:
    /// the bit length is eight bits per byte and the hash count is the one
    /// `with_size` derives for it.
    pub fn from_bytes(bytes: Vec<u8>) -> (r: Self)
        requires
            bytes@.len() > 0,
            bytes@.len() * 8 <= usize::MAX,
        ensures
            r.wf(),
            crate::bitvec::packs(bytes@, r.bits_view()),
            r.bits_view().len() == bytes@.len() * 8,
            r.hashes_view() == hashes_for(
                bytes@.len() * 8,
                default_capacity_for(bytes@.len() * 8) as nat,
            ),
            r.keys_view() == seed_keys(),
    {
        let bits = BitVec::from_bytes(bytes);
        let nbits = bits.len();
        let capacity = optimal_capacity_default(nbits);
        let nhashes = optimal_hashes(nbits, capacity);
        Self::from_parts(bits, nhashes)
    }

    /// Hand back the raw bytes of the filter's bit vector.
    pub fn into_bytes(self) -> (r: Vec<u8>)
        requires
            self.wf(),
        ensures
            crate::bitvec::packs(r@, self.bits_view()),
    {
        self.bits.into_bytes()
    }

    /// Return the underlying bytes storage.
    pub fn as_bytes(&self) -> (r: &[u8])
        requires
            self.wf(),
        ensures
            crate::bitvec::packs(r@, self.bits_view()),
    {
        self.bits.as_bytes()
    }

    /// Set all bits to zero.
    pub fn clear(&mut self)
        requires
            old(self).wf(),
        ensures
            final(self).wf(),
            final(self).bits_view() == Seq::new(old(self).bits_view().len(), |i: int| false),
            final(self).hashes_view() == old(self).hashes_view(),
            final(self).keys_view() == old(self).keys_view(),
    {
        self.bits.clear();
    }

    /// Return the number of bits in this filter.
    pub fn bits(&self) -> (r: usize)
        requires
            self.wf(),
        ensures
            r == self.bits_view().len(),
    {
        self.bits.len()
    }

    /// Number of hashes used (`k` parameter).
    pub fn hashes(&self) -> (r: usize)
        ensures
            r == self.hashes_view(),
    {
        self.nhashes
    }

    /// Number of bits that are set.
    pub fn count_ones(&self) -> (r: usize)
        requires
            self.wf(),
        ensures
            r == count_true(self.bits_view()),
    {
        self.bits.count_ones()
    }

    /// The `i`-th bit position of the item with digests `h1`, `h2`.
    fn bloom_hash(&self, h1: u64, h2: u64, i: u64) -> (r: usize)
        requires
            self.wf(),
        ensures
            r == probe(h1, h2, i as int, self.bits_view().len()),
            r < self.bits_view().len(),
    {
        let r = h1.wrapping_add(i.wrapping_mul(h2)).wrapping_add(i.wrapping_mul(i).wrapping_mul(i));
        proof {
            lemma_wrapping_probe(h1, h2, i);
        }
        let m = self.bits.len();
        (r % (m as u64)) as usize
    }

    /// Insert the item whose two digests are `h1` and `h2`: set each of its
    /// `k` positions. Inserting an item again changes nothing.
    pub fn insert_digests(&mut self, h1: u64, h2: u64)
        requires
            old(self).wf(),
        ensures
            final(self).wf(),
            final(self).bits_view() == with_item(
                old(self).bits_view(),
                h1,
                h2,
                old(self).hashes_view(),
            ),
            final(self).hashes_view() == old(self).hashes_view(),
            final(self).keys_view() == old(self).keys_view(),
            holds_item(final(self).bits_view(), h1, h2, final(self).hashes_view()),
    {
        let ghost start = self.bits@;
        let ghost m = start.len();
        let mut i: usize = 0;
        proof {
            assert(start =~= with_item(start, h1, h2, 0));
        }
        while i < self.nhashes
            invariant
                self.wf(),
                self.nhashes == old(self).nhashes,
                self.first_key == old(self).first_key,
                self.second_key == old(self).second_key,
                start == old(self).bits@,
                m == start.len(),
                i <= self.nhashes,
                self.bits@ == with_item(start, h1, h2, i as nat),
            decreases self.nhashes - i,
        {
            let index = self.bloom_hash(h1, h2, i as u64);
            self.bits.set(index);
            proof {
                let prev = with_item(start, h1, h2, i as nat);
                let next = with_item(start, h1, h2, (i + 1) as nat);
                assert forall|j: int| 0 <= j < m implies #[trigger] next[j] == prev.update(
                    index as int,
                    true,
                )[j] by {
                    if j == index as int {
                        assert(probe(h1, h2, i as int, m) == j);
                    }
                    if is_probe(h1, h2, (i + 1) as nat, m, j) {
                        let w = choose|w: int| 0 <= w < i + 1 && #[trigger] probe(h1, h2, w, m) == j;
                        if w < i {
                            assert(is_probe(h1, h2, i as nat, m, j));
                        }
                    }
                    if is_probe(h1, h2, i as nat, m, j) {
                        let w = choose|w: int| 0 <= w < i && #[trigger] probe(h1, h2, w, m) == j;
                        assert(probe(h1, h2, w, m) == j);
                    }
                }
                assert(self.bits@ =~= next);
            }
            i = i + 1;
        }
        proof {
            lemma_with_item_holds(start, h1, h2, self.nhashes as nat);
        }
    }

    /// Whether the item whose two digests are `h1` and `h2` may be in the
    /// filter: true iff all of its `k` positions are set.
    pub fn contains_digests(&self, h1: u64, h2: u64) -> (r: bool)
        requires
            self.wf(),
        ensures
            r == holds_item(self.bits_view(), h1, h2, self.hashes_view()),
    {
        let mut i: usize = 0;
        while i < self.nhashes
            invariant
                self.wf(),
                i <= self.nhashes,
                forall|w: int| 0 <= w < i ==> #[trigger] self.bits@[probe(h1, h2, w, self.bits@.len())],
            decreases self.nhashes - i,
        {
            let index = self.bloom_hash(h1, h2, i as u64);
            if !self.bits.is_set(index) {
                return false;
            }
            i = i + 1;
        }
        true
    }

    /// Check whether two filters can be compared, intersected and unioned.
    pub fn is_comparable(&self, other: &Self) -> (r: bool)
        requires
            self.wf(),
            other.wf(),
        ensures
            r == self.comparable(other),
    {
        self.nhashes == other.nhashes && self.bits.len() == other.bits.len() && self.first_key
            == other.first_key && self.second_key == other.second_key
    }

    /// Compute the union of two Bloom filters of one configuration.
    pub fn union(&self, other: &Self) -> (r: Self)
        requires
            self.wf(),
            other.wf(),
            self.comparable(other),
        ensures
            r.wf(),
            r.bits_view() == or_bits(self.bits_view(), other.bits_view()),
            r.hashes_view() == self.hashes_view(),
            r.keys_view() == self.keys_view(),
    {
        let bits = self.bits.union(&other.bits);
        BloomFilter {
            bits,
            nhashes: self.nhashes,
            first_key: self.first_key,
            second_key: self.second_key,
            key: PhantomData,
        }
    }

    /// Compute the intersection of two Bloom filters of one configuration.
    pub fn intersection(&self, other: &Self) -> (r: Self)
        requires
            self.wf(),
            other.wf(),
            self.comparable(other),
        ensures
            r.wf(),
            r.bits_view() == and_bits(self.bits_view(), other.bits_view()),
            r.hashes_view() == self.hashes_view(),
            r.keys_view() == self.keys_view(),
    {
        let bits = self.bits.intersection(&other.bits);
        BloomFilter {
            bits,
            nhashes: self.nhashes,
            first_key: self.first_key,
            second_key: self.second_key,
            key: PhantomData,
        }
    }
}

/// Byte round trip: a filter configured at the default rate, as `with_size`
/// configures it (a whole number of bytes, and the hash count derived from
/// them), is rebuilt by `from_bytes` from its bytes with the same bits and
/// the same hash count.
pub proof fn lemma_bytes_round_trip<K>(f: BloomFilter<K>, bytes: Seq<u8>, g: BloomFilter<K>)
    requires
        f.wf(),
        f.bits_view().len() % 8 == 0,
        f.hashes_view() == hashes_for(
            f.bits_view().len(),
            default_capacity_for(f.bits_view().len()) as nat,
        ),
        crate::bitvec::packs(bytes, f.bits_view()),
        crate::bitvec::packs(bytes, g.bits_view()),
        g.bits_view().len() == bytes.len() * 8,
        g.hashes_view() == hashes_for(bytes.len() * 8, default_capacity_for(bytes.len() * 8) as nat),
    ensures
        g.bits_view() == f.bits_view(),
        g.hashes_view() == f.hashes_view(),
{
    let n = f.bits_view().len();
    assert(bytes.len() * 8 == n);
    assert forall|i: int| 0 <= i < n implies g.bits_view()[i] == f.bits_view()[i] by {
        assert(crate::bitvec::bit_of(bytes, i) == f.bits_view()[i]);
        assert(crate::bitvec::bit_of(bytes, i) == g.bits_view()[i]);
    }
    assert(g.bits_view() =~= f.bits_view());
}

impl<K> PartialEq for BloomFilter<K> {
    fn eq(&self, other: &Self) -> (r: bool) {
        self.bits == other.bits && self.nhashes == other.nhashes
    }
}

impl<K> vstd::std_specs::cmp::PartialEqSpecImpl for BloomFilter<K> {
    open spec fn obeys_eq_spec() -> bool {
        true
    }

    open spec fn eq_spec(&self, other: &Self) -> bool {
        self.same_state(other)
    }
}

impl<K: Hash> BloomFilter<K> {
    /// The two digests of `item`, one from each keyed hasher.
    fn sip_hashes(&self, item: &K) -> (u64, u64) {
        let h1 = sip13_digest(self.first_key, item);
        let h2 = sip13_digest(self.second_key, item);
        (h1, h2)
    }

    /// Set an item in the Bloom filter: its two digests pick the bits, as in
    /// `insert_digests`. This operation is idempotent with regards to each
    /// unique item.
    pub fn insert(&mut self, item: &K)
        requires
            old(self).wf(),
        ensures
            final(self).wf(),
            exists|h1: u64, h2: u64|
                final(self).bits_view() == #[trigger] with_item(
                    old(self).bits_view(),
                    h1,
                    h2,
                    old(self).hashes_view(),
                ),
            final(self).hashes_view() == old(self).hashes_view(),
            final(self).keys_view() == old(self).keys_view(),
    {
        let (h1, h2) = self.sip_hashes(item);
        self.insert_digests(h1, h2);
    }

    /// Return whether or not a given item is likely in the Bloom filter: its
    /// two digests are tested as in `contains_digests`. A false positive is
    /// possible, a false negative is not.
    pub fn contains(&self, item: &K) -> (r: bool)
        requires
            self.wf(),
        ensures
            exists|h1: u64, h2: u64|
                r == #[trigger] holds_item(self.bits_view(), h1, h2, self.hashes_view()),
    {
        let (h1, h2) = self.sip_hashes(item);
        self.contains_digests(h1, h2)
    }
}

} // verus!
