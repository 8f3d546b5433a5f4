//! A fixed-length packed bit vector.
use vstd::prelude::*;

verus! {

/// Whether bit `k` (counting from the least significant bit) of `b` is set.
pub open spec fn byte_bit(b: u8, k: u8) -> bool {
    (b >> k) & 1u8 == 1u8
}

/// Bit `i` of a packed buffer: bit `i % 8` of byte `i / 8`.
pub open spec fn bit_of(bytes: Seq<u8>, i: int) -> bool {
    byte_bit(bytes[i / 8], (i % 8) as u8)
}

/// Number of bytes needed to hold `nbits` bits.
pub open spec fn byte_len(nbits: nat) -> nat {
    (nbits + 7) / 8
}

/// `bytes` is the packed form of `bits`: one bit per position, least
/// significant bit first, and every padding bit of the tail byte is zero.
pub open spec fn packs(bytes: Seq<u8>, bits: Seq<bool>) -> bool {
    &&& bytes.len() == byte_len(bits.len())
    &&& forall|i: int|
        0 <= i < bytes.len() * 8 ==> #[trigger] bit_of(bytes, i) == (i < bits.len() && bits[i])
}

/// Number of `true` entries of `s`.
pub open spec fn count_true(s: Seq<bool>) -> nat
    decreases s.len(),
{
    if s.len() == 0 {
        0
    } else {
        count_true(s.drop_last()) + if s.last() {
            1nat
        } else {
            0nat
        }
    }
}

/// A packed bit vector.
#[derive(Clone, Debug)]
pub struct BitVec {
    bytes: Vec<u8>,
    nbits: usize,
}

impl View for BitVec {
    type V = Seq<bool>;

    closed spec fn view(&self) -> Seq<bool> {
        Seq::new(self.nbits as nat, |i: int| bit_of(self.bytes@, i))
    }
}

impl PartialEq for BitVec {
    fn eq(&self, other: &Self) -> (r: bool) {
        if self.nbits != other.nbits || self.bytes.len() != other.bytes.len() {
            return false;
        }
        let n = self.bytes.len();
        let mut j: usize = 0;
        while j < n
            invariant
                n == self.bytes@.len(),
                n == other.bytes@.len(),
                self.nbits == other.nbits,
                0 <= j <= n,
                forall|b: int| 0 <= b < j ==> self.bytes@[b] == other.bytes@[b],
            decreases n - j,
        {
            if self.bytes[j] != other.bytes[j] {
                return false;
            }
            j = j + 1;
        }
        assert(self.bytes@ =~= other.bytes@);
        assert(self@ =~= other@);
        true
    }
}

impl vstd::std_specs::cmp::PartialEqSpecImpl for BitVec {
    open spec fn obeys_eq_spec() -> bool {
        true
    }

    open spec fn eq_spec(&self, other: &Self) -> bool {
        self.same_storage(other)
    }
}

impl BitVec {
    /// Same length and same bytes, padding included.
    pub closed spec fn same_storage(&self, other: &Self) -> bool {
        self.nbits == other.nbits && self.bytes@ == other.bytes@
    }

    /// The buffer has exactly the bytes the bits need, and its padding is zero.
    pub closed spec fn wf(&self) -> bool {
        packs(self.bytes@, self@)
    }

    /// Create a new bit vector of the given capacity, in bits, with every bit zero.
    pub fn new(capacity: usize) -> (r: Self)
        ensures
            r.wf(),
            r@ == Seq::new(capacity as nat, |i: int| false),
    {
        let byte_length: usize = if capacity % 8 == 0 {
            capacity / 8
        } else {
            1 + capacity / 8
        };
        let r = BitVec { nbits: capacity, bytes: vec![0u8; byte_length] };
        assert forall|i: int| 0 <= i < r.bytes@.len() * 8 implies !#[trigger] bit_of(r.bytes@, i) by {
            lemma_zero_bits((i % 8) as u8);
        }
        assert(r@ =~= Seq::new(capacity as nat, |i: int| false));
        r
    }

    /// Get the length in bits of the vector.
    pub fn len(&self) -> (r: usize)
        ensures
            r == self@.len(),
    {
        self.nbits
    }

    /// Check whether this vector is empty, ie. has a length of zero.
    pub fn is_empty(&self) -> (r: bool)
        ensures
            r == (self@.len() == 0),
    {
        self.nbits == 0
    }

    /// Set all bits to zero.
    pub fn clear(&mut self)
        requires
            old(self).wf(),
        ensures
            final(self).wf(),
            final(self)@ == Seq::new(old(self)@.len(), |i: int| false),
    {
        let n = self.bytes.len();
        let mut j: usize = 0;
        while j < n
            invariant
                self.nbits == old(self).nbits,
                self.bytes@.len() == n,
                n == byte_len(self.nbits as nat),
                0 <= j <= n,
                forall|b: int| 0 <= b < j ==> self.bytes@[b] == 0u8,
            decreases n - j,
        {
            self.bytes.set(j, 0u8);
            j = j + 1;
        }
        assert forall|i: int| 0 <= i < self.bytes@.len() * 8 implies !#[trigger] bit_of(
            self.bytes@,
            i,
        ) by {
            lemma_zero_bits((i % 8) as u8);
        }
        assert(self@ =~= Seq::new(old(self)@.len(), |i: int| false));
    }

    /// Set a single bit to `1`. Setting a bit that is already set changes nothing.
    pub fn set(&mut self, index: usize)
        requires
            old(self).wf(),
            index < old(self)@.len(),
        ensures
            final(self).wf(),
            final(self)@ == old(self)@.update(index as int, true),
    {
        let byte_index = index / 8;
        let k = (index % 8) as u8;
        let old_byte = self.bytes[byte_index];
        let new_byte = old_byte | (1u8 << k);
        self.bytes.set(byte_index, new_byte);
        let ghost pre = old(self).bytes@;
        assert forall|i: int| 0 <= i < self.bytes@.len() * 8 implies #[trigger] bit_of(self.bytes@, i)
            == (i == index || bit_of(pre, i)) by {
            if i / 8 == byte_index as int {
                lemma_set_bit(old_byte, k, (i % 8) as u8);
            }
        }
        assert(self@ =~= old(self)@.update(index as int, true));
    }

    /// Check whether a bit is set.
    pub fn is_set(&self, index: usize) -> (r: bool)
        requires
            self.wf(),
            index < self@.len(),
        ensures
            r == self@[index as int],
    {
        let byte_index = index / 8;
        let k = (index % 8) as u8;
        let mask = 1u8 << k;
        let b = self.bytes[byte_index];
        proof {
            lemma_test_bit(b, k);
        }
        b & mask == mask
    }

    /// Count the number of `1` bits.
    pub fn count_ones(&self) -> (r: usize)
        requires
            self.wf(),
        ensures
            r == count_true(self@),
    {
        let mut count: usize = 0;
        let mut i: usize = 0;
        while i < self.nbits
            invariant
                self.wf(),
                i <= self.nbits,
                count == count_true(self@.take(i as int)),
                count <= i,
            decreases self.nbits - i,
        {
            let one = self.is_set(i);
            proof {
                assert(self@.take(i + 1).drop_last() =~= self@.take(i as int));
            }
            if one {
                count = count + 1;
            }
            i = i + 1;
        }
        assert(self@.take(i as int) =~= self@);
        count
    }

    /// Count the number of `0` bits.
    pub fn count_zeros(&self) -> (r: usize)
        requires
            self.wf(),
        ensures
            r == self@.len() - count_true(self@),
    {
        let ones = self.count_ones();
        proof {
            lemma_count_true_le_len(self@);
        }
        self.nbits - ones
    }

    /// Return the union of two bit vectors of the same length: a bitwise `OR`.
    pub fn union(&self, other: &Self) -> (r: Self)
        requires
            self.wf(),
            other.wf(),
            self@.len() == other@.len(),
        ensures
            r.wf(),
            r@ == Seq::new(self@.len(), |i: int| self@[i] || other@[i]),
    {
        let n = self.bytes.len();
        let mut bytes: Vec<u8> = Vec::with_capacity(n);
        let mut j: usize = 0;
        while j < n
            invariant
                n == self.bytes@.len(),
                n == other.bytes@.len(),
                0 <= j <= n,
                bytes@.len() == j,
                forall|b: int| 0 <= b < j ==> bytes@[b] == (self.bytes@[b] | other.bytes@[b]),
            decreases n - j,
        {
            bytes.push(self.bytes[j] | other.bytes[j]);
            j = j + 1;
        }
        let r = BitVec { bytes, nbits: self.nbits };
        assert forall|i: int| 0 <= i < r.bytes@.len() * 8 implies #[trigger] bit_of(r.bytes@, i) == (
        bit_of(self.bytes@, i) || bit_of(other.bytes@, i)) by {
            lemma_or_bit(self.bytes@[i / 8], other.bytes@[i / 8], (i % 8) as u8);
        }
        assert(r@ =~= Seq::new(self@.len(), |i: int| self@[i] || other@[i]));
        r
    }

    /// Return the intersection of two bit vectors of the same length: a bitwise `AND`.
    pub fn intersection(&self, other: &Self) -> (r: Self)
        requires
            self.wf(),
            other.wf(),
            self@.len() == other@.len(),
        ensures
            r.wf(),
            r@ == Seq::new(self@.len(), |i: int| self@[i] && other@[i]),
    {
        let n = self.bytes.len();
        let mut bytes: Vec<u8> = Vec::with_capacity(n);
        let mut j: usize = 0;
        while j < n
            invariant
                n == self.bytes@.len(),
                n == other.bytes@.len(),
                0 <= j <= n,
                bytes@.len() == j,
                forall|b: int| 0 <= b < j ==> bytes@[b] == (self.bytes@[b] & other.bytes@[b]),
            decreases n - j,
        {
            bytes.push(self.bytes[j] & other.bytes[j]);
            j = j + 1;
        }
        let r = BitVec { bytes, nbits: self.nbits };
        assert forall|i: int| 0 <= i < r.bytes@.len() * 8 implies #[trigger] bit_of(r.bytes@, i) == (
        bit_of(self.bytes@, i) && bit_of(other.bytes@, i)) by {
            lemma_and_bit(self.bytes@[i / 8], other.bytes@[i / 8], (i % 8) as u8);
        }
        assert(r@ =~= Seq::new(self@.len(), |i: int| self@[i] && other@[i]));
        r
    }

    /// Return the underlying bytes storage, padding bits included.
    pub fn as_bytes(&self) -> (r: &[u8])
        requires
            self.wf(),
        ensures
            packs(r@, self@),
    {
        self.bytes.as_slice()
    }

    /// Build a bit vector from raw bytes: its length is eight bits per byte.
    pub fn from_bytes(bytes: Vec<u8>) -> (r: Self)
        requires
            bytes@.len() * 8 <= usize::MAX,
        ensures
            r.wf(),
            packs(bytes@, r@),
            r@.len() == bytes@.len() * 8,
    {
        let nbits = bytes.len() * 8;
        let r = BitVec { bytes, nbits };
        assert(packs(r.bytes@, r@));
        r
    }

    /// Hand back the underlying bytes storage, padding bits included.
    pub fn into_bytes(self) -> (r: Vec<u8>)
        requires
            self.wf(),
        ensures
            packs(r@, self@),
    {
        self.bytes
    }
}

/// The number of set bits never exceeds the length.
pub proof fn lemma_count_true_le_len(s: Seq<bool>)
    ensures
        count_true(s) <= s.len(),
    decreases s.len(),
{
    if s.len() > 0 {
        lemma_count_true_le_len(s.drop_last());
    }
}

/// A sequence whose set bits are all set in another of the same length has
/// no more set bits than it.
pub proof fn lemma_count_true_mono(a: Seq<bool>, b: Seq<bool>)
    requires
        a.len() == b.len(),
        forall|i: int| 0 <= i < a.len() && #[trigger] a[i] ==> b[i],
    ensures
        count_true(a) <= count_true(b),
    decreases a.len(),
{
    if a.len() > 0 {
        lemma_count_true_mono(a.drop_last(), b.drop_last());
    }
}

proof fn lemma_set_bit(b: u8, k: u8, j: u8)
    requires
        k < 8,
        j < 8,
    ensures
        byte_bit(b | (1u8 << k), j) == (j == k || byte_bit(b, j)),
{
    assert(byte_bit(b | (1u8 << k), j) == (j == k || byte_bit(b, j))) by (bit_vector)
        requires
            k < 8,
            j < 8,
    ;
}

proof fn lemma_test_bit(b: u8, k: u8)
    requires
        k < 8,
    ensures
        (b & (1u8 << k) == (1u8 << k)) == byte_bit(b, k),
{
    assert((b & (1u8 << k) == (1u8 << k)) == byte_bit(b, k)) by (bit_vector)
        requires
            k < 8,
    ;
}

proof fn lemma_or_bit(a: u8, b: u8, j: u8)
    requires
        j < 8,
    ensures
        byte_bit(a | b, j) == (byte_bit(a, j) || byte_bit(b, j)),
{
    assert(byte_bit(a | b, j) == (byte_bit(a, j) || byte_bit(b, j))) by (bit_vector)
        requires
            j < 8,
    ;
}

proof fn lemma_and_bit(a: u8, b: u8, j: u8)
    requires
        j < 8,
    ensures
        byte_bit(a & b, j) == (byte_bit(a, j) && byte_bit(b, j)),
{
    assert(byte_bit(a & b, j) == (byte_bit(a, j) && byte_bit(b, j))) by (bit_vector)
        requires
            j < 8,
    ;
}

proof fn lemma_zero_bits(k: u8)
    requires
        k < 8,
    ensures
        !byte_bit(0u8, k),
{
    assert(!byte_bit(0u8, k)) by (bit_vector)
        requires
            k < 8,
    ;
}

} // verus!
