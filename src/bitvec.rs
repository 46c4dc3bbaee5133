use vstd::prelude::*;

use crate::error::VecError;

verus! {

/// Number of bits held by one storage word.
pub const BITS_PER_WORD: usize = 64;

/// Whether bit `b` (counted from the least-significant end) of `w` is set.
pub open spec fn word_bit(w: u64, b: u64) -> bool {
    (w >> b) & 1u64 == 1u64
}

/// Dense bit storage for a bloom filter, addressed bit by bit and combined
/// word by word. The capacity is fixed at construction.
#[derive(Debug, Clone)]
pub struct BloomBitVec {
    storage: Vec<u64>,
}

impl View for BloomBitVec {
    type V = Seq<bool>;

    /// Bit `i` lives in word `i / 64`, at position `i % 64` of that word.
    closed spec fn view(&self) -> Seq<bool> {
        Seq::new(
            (self.storage@.len() * 64) as nat,
            |i: int| word_bit(self.storage@[i / 64], (i % 64) as u64),
        )
    }
}

proof fn lemma_zero_word_bit(b: u64)
    by (bit_vector)
    requires
        b < 64,
    ensures
        !word_bit(0u64, b),
        word_bit(!0u64, b),
{
}

proof fn lemma_word_index(i: int, n: int)
    requires
        0 <= i < n * 64,
    ensures
        0 <= i / 64 < n,
        0 <= i % 64 < 64,
{
}


/// Bit-wise union: a bit is set where it is set in either operand.
pub open spec fn bits_or(a: Seq<bool>, b: Seq<bool>) -> Seq<bool> {
    Seq::new(a.len(), |i: int| a[i] || b[i])
}

/// Bit-wise intersection: a bit is set where it is set in both operands.
pub open spec fn bits_and(a: Seq<bool>, b: Seq<bool>) -> Seq<bool> {
    Seq::new(a.len(), |i: int| a[i] && b[i])
}

/// Bit-wise symmetric difference: a bit is set where the operands differ.
pub open spec fn bits_xor(a: Seq<bool>, b: Seq<bool>) -> Seq<bool> {
    Seq::new(a.len(), |i: int| a[i] != b[i])
}

/// Bit-wise complement of the intersection.
pub open spec fn bits_nand(a: Seq<bool>, b: Seq<bool>) -> Seq<bool> {
    Seq::new(a.len(), |i: int| !(a[i] && b[i]))
}

/// Bit-wise complement of the union.
pub open spec fn bits_nor(a: Seq<bool>, b: Seq<bool>) -> Seq<bool> {
    Seq::new(a.len(), |i: int| !(a[i] || b[i]))
}

/// Bit-wise equivalence: a bit is set where the operands agree.
pub open spec fn bits_xnor(a: Seq<bool>, b: Seq<bool>) -> Seq<bool> {
    Seq::new(a.len(), |i: int| a[i] == b[i])
}

/// The bits of `a` that are not set in `b`.
pub open spec fn bits_difference(a: Seq<bool>, b: Seq<bool>) -> Seq<bool> {
    Seq::new(a.len(), |i: int| a[i] && !b[i])
}

/// Every bit flipped.
pub open spec fn bits_not(a: Seq<bool>) -> Seq<bool> {
    Seq::new(a.len(), |i: int| !a[i])
}

/// The word-wise operations by which two vectors are combined.
#[derive(Clone, Copy)]
enum WordOp {
    Or,
    And,
    Xor,
    Nand,
    Nor,
    Xnor,
    Difference,
}

impl WordOp {
    spec fn word(self, a: u64, b: u64) -> u64 {
        match self {
            WordOp::Or => a | b,
            WordOp::And => a & b,
            WordOp::Xor => a ^ b,
            WordOp::Nand => !(a & b),
            WordOp::Nor => !(a | b),
            WordOp::Xnor => !(a ^ b),
            WordOp::Difference => a & !b,
        }
    }

    spec fn bits(self, a: Seq<bool>, b: Seq<bool>) -> Seq<bool> {
        match self {
            WordOp::Or => bits_or(a, b),
            WordOp::And => bits_and(a, b),
            WordOp::Xor => bits_xor(a, b),
            WordOp::Nand => bits_nand(a, b),
            WordOp::Nor => bits_nor(a, b),
            WordOp::Xnor => bits_xnor(a, b),
            WordOp::Difference => bits_difference(a, b),
        }
    }

    fn apply(self, a: u64, b: u64) -> (r: u64)
        ensures
            r == self.word(a, b),
    {
        match self {
            WordOp::Or => a | b,
            WordOp::And => a & b,
            WordOp::Xor => a ^ b,
            WordOp::Nand => !(a & b),
            WordOp::Nor => !(a | b),
            WordOp::Xnor => !(a ^ b),
            WordOp::Difference => a & !b,
        }
    }
}

proof fn lemma_word_ops(a: u64, b: u64, k: u64)
    by (bit_vector)
    requires
        k < 64,
    ensures
        word_bit(a | b, k) == (word_bit(a, k) || word_bit(b, k)),
        word_bit(a & b, k) == (word_bit(a, k) && word_bit(b, k)),
        word_bit(a ^ b, k) == (word_bit(a, k) != word_bit(b, k)),
        word_bit(!(a & b), k) == !(word_bit(a, k) && word_bit(b, k)),
        word_bit(!(a | b), k) == !(word_bit(a, k) || word_bit(b, k)),
        word_bit(!(a ^ b), k) == (word_bit(a, k) == word_bit(b, k)),
        word_bit(a & !b, k) == (word_bit(a, k) && !word_bit(b, k)),
{
}

proof fn lemma_set_word_bit(w: u64, b: u64, k: u64)
    by (bit_vector)
    requires
        b < 64,
        k < 64,
    ensures
        word_bit(w | (1u64 << b), k) == (k == b || word_bit(w, k)),
{
}

/// Setting bit `i` makes it read true and leaves every other bit as it was.
pub proof fn lemma_set_then_get(v: BloomBitVec, i: int)
    requires
        0 <= i < v@.len(),
    ensures
        v@.update(i, true)[i],
        forall|j: int| 0 <= j < v@.len() && j != i ==> #[trigger] v@.update(i, true)[j] == v@[j],
{
}

/// The complemented operations are the complements of the plain ones, and
/// the difference of `a` and `b` is the intersection of `a` with the
/// complement of `b`.
pub proof fn lemma_complement_ops(a: BloomBitVec, b: BloomBitVec)
    requires
        a@.len() == b@.len(),
    ensures
        bits_xnor(a@, b@) == bits_not(bits_xor(a@, b@)),
        bits_nand(a@, b@) == bits_not(bits_and(a@, b@)),
        bits_nor(a@, b@) == bits_not(bits_or(a@, b@)),
        bits_difference(a@, b@) == bits_and(a@, bits_not(b@)),
{
    assert(bits_xnor(a@, b@) =~= bits_not(bits_xor(a@, b@)));
    assert(bits_nand(a@, b@) =~= bits_not(bits_and(a@, b@)));
    assert(bits_nor(a@, b@) =~= bits_not(bits_or(a@, b@)));
    assert(bits_difference(a@, b@) =~= bits_and(a@, bits_not(b@)));
}

/// A vector's bit count is a whole number of words: 64 bits for each.
pub proof fn lemma_whole_words(v: BloomBitVec)
    ensures
        v@.len() % 64 == 0,
{
}

impl BloomBitVec {
    /// A vector of `slots` words with every bit false.
    pub fn new(slots: usize) -> (r: Self)
        ensures
            r@ == Seq::new((slots * 64) as nat, |i: int| false),
    {
        Self::from_elem(slots, false)
    }

    /// A vector of `slots` words with every bit equal to `bit`.
    pub fn from_elem(slots: usize, bit: bool) -> (r: Self)
        ensures
            r@ == Seq::new((slots * 64) as nat, |i: int| bit),
    {
        let word: u64 = if bit { !0u64 } else { 0u64 };
        let mut storage: Vec<u64> = Vec::new();
        let mut k: usize = 0;
        while k < slots
            invariant
                k <= slots,
                storage@ == Seq::new(k as nat, |j: int| word),
            decreases slots - k,
        {
            storage.push(word);
            k = k + 1;
            assert(storage@ =~= Seq::new(k as nat, |j: int| word));
        }
        let r = BloomBitVec { storage };
        assert forall|i: int| 0 <= i < slots * 64 implies #[trigger] r@[i] == bit by {
            lemma_word_index(i, slots as int);
            lemma_zero_word_bit((i % 64) as u64);
        }
        assert(r@ =~= Seq::new((slots * 64) as nat, |i: int| bit));
        r
    }

    /// The bit at `index`, or `IndexOutOfRange` where `index` lies past the
    /// last word.
    pub fn get(&self, index: usize) -> (r: Result<bool, VecError>)
        ensures
            index < self@.len() ==> r == Ok::<bool, VecError>(self@[index as int]),
            index >= self@.len() ==> r == Err::<bool, VecError>(VecError::IndexOutOfRange),
    {
        let w = index / BITS_PER_WORD;
        if w >= self.storage.len() {
            return Err(VecError::IndexOutOfRange);
        }
        let b = (index % BITS_PER_WORD) as u64;
        let flag: u64 = 1u64 << b;
        let word = self.storage[w];
        let r = (word & flag) != 0;
        assert(r == word_bit(word, b)) by (bit_vector)
            requires
                r == ((word & (1u64 << b)) != 0),
                b < 64,
        ;
        Ok(r)
    }

    /// Sets the bit at `index`, or returns `IndexOutOfRange` and leaves the
    /// vector unchanged where `index` lies past the last word.
    pub fn set(&mut self, index: usize) -> (r: Result<(), VecError>)
        ensures
            index < old(self)@.len() ==> r == Ok::<(), VecError>(()) && final(self)@ == old(
                self,
            )@.update(index as int, true),
            index >= old(self)@.len() ==> r == Err::<(), VecError>(VecError::IndexOutOfRange)
                && final(self)@ == old(self)@,
    {
        let w = index / BITS_PER_WORD;
        if w >= self.storage.len() {
            return Err(VecError::IndexOutOfRange);
        }
        let b = (index % BITS_PER_WORD) as u64;
        let flag: u64 = 1u64 << b;
        let word = self.storage[w] | flag;
        self.storage.set(w, word);
        proof {
            let n = old(self).storage@.len() as int;
            assert forall|i: int| 0 <= i < n * 64 implies #[trigger] self@[i] == old(self)@.update(
                index as int,
                true,
            )[i] by {
                lemma_word_index(i, n);
                lemma_set_word_bit(old(self).storage@[w as int], b, (i % 64) as u64);
            }
            assert(self@ =~= old(self)@.update(index as int, true));
        }
        Ok(())
    }

    /// Combines `other` into `self` word by word, where both hold the same
    /// number of words.
    fn combine(&mut self, other: &BloomBitVec, op: WordOp) -> (r: Result<(), VecError>)
        ensures
            old(self)@.len() == other@.len() ==> r == Ok::<(), VecError>(()) && final(self)@
                == op.bits(old(self)@, other@),
            old(self)@.len() != other@.len() ==> r == Err::<(), VecError>(VecError::LengthMismatch)
                && final(self)@ == old(self)@,
    {
        let n = self.storage.len();
        if n != other.storage.len() {
            return Err(VecError::LengthMismatch);
        }
        let mut k: usize = 0;
        while k < n
            invariant
                k <= n,
                n == self.storage@.len(),
                n == other.storage@.len(),
                n == old(self).storage@.len(),
                forall|j: int|
                    0 <= j < k ==> #[trigger] self.storage@[j] == op.word(
                        old(self).storage@[j],
                        other.storage@[j],
                    ),
                forall|j: int| k <= j < n ==> #[trigger] self.storage@[j] == old(self).storage@[j],
            decreases n - k,
        {
            let word = op.apply(self.storage[k], other.storage[k]);
            self.storage.set(k, word);
            k = k + 1;
        }
        proof {
            assert forall|i: int| 0 <= i < n * 64 implies #[trigger] self@[i] == op.bits(
                old(self)@,
                other@,
            )[i] by {
                lemma_word_index(i, n as int);
                lemma_word_ops(
                    old(self).storage@[i / 64],
                    other.storage@[i / 64],
                    (i % 64) as u64,
                );
            }
            assert(self@ =~= op.bits(old(self)@, other@));
        }
        Ok(())
    }

    /// Sets every bit to false; the word count stays as it was.
    pub fn clear(&mut self)
        ensures
            final(self)@ == Seq::new(old(self)@.len(), |i: int| false),
    {
        let n = self.storage.len();
        let mut k: usize = 0;
        while k < n
            invariant
                k <= n,
                n == self.storage@.len(),
                n == old(self).storage@.len(),
                forall|j: int| 0 <= j < k ==> #[trigger] self.storage@[j] == 0u64,
            decreases n - k,
        {
            self.storage.set(k, 0u64);
            k = k + 1;
        }
        proof {
            assert forall|i: int| 0 <= i < n * 64 implies #[trigger] self@[i] == false by {
                lemma_word_index(i, n as int);
                lemma_zero_word_bit((i % 64) as u64);
            }
            assert(self@ =~= Seq::new(old(self)@.len(), |i: int| false));
        }
    }

    /// Whether the vector holds no words at all. This depends on the
    /// capacity alone, never on which bits are set.
    pub fn is_empty(&self) -> (r: bool)
        ensures
            r == (self@.len() == 0),
    {
        self.storage.len() == 0
    }

    /// Union: sets each bit that is set in `other`. Returns `LengthMismatch`, and leaves `self` unchanged, where the
    /// two vectors differ in word count.
    pub fn or(&mut self, other: &BloomBitVec) -> (r: Result<(), VecError>)
        ensures
            old(self)@.len() == other@.len() ==> r == Ok::<(), VecError>(()) && final(self)@
                == bits_or(old(self)@, other@),
            old(self)@.len() != other@.len() ==> r == Err::<(), VecError>(VecError::LengthMismatch)
                && final(self)@ == old(self)@,
    {
        self.combine(other, WordOp::Or)
    }

    /// Symmetric difference: keeps a bit set where exactly one of the two has it. Returns `LengthMismatch`, and leaves `self` unchanged, where the
    /// two vectors differ in word count.
    pub fn xor(&mut self, other: &BloomBitVec) -> (r: Result<(), VecError>)
        ensures
            old(self)@.len() == other@.len() ==> r == Ok::<(), VecError>(()) && final(self)@
                == bits_xor(old(self)@, other@),
            old(self)@.len() != other@.len() ==> r == Err::<(), VecError>(VecError::LengthMismatch)
                && final(self)@ == old(self)@,
    {
        self.combine(other, WordOp::Xor)
    }

    /// Complement of the union. Returns `LengthMismatch`, and leaves `self` unchanged, where the
    /// two vectors differ in word count.
    pub fn nor(&mut self, other: &BloomBitVec) -> (r: Result<(), VecError>)
        ensures
            old(self)@.len() == other@.len() ==> r == Ok::<(), VecError>(()) && final(self)@
                == bits_nor(old(self)@, other@),
            old(self)@.len() != other@.len() ==> r == Err::<(), VecError>(VecError::LengthMismatch)
                && final(self)@ == old(self)@,
    {
        self.combine(other, WordOp::Nor)
    }

    /// Complement of the symmetric difference. Returns `LengthMismatch`, and leaves `self` unchanged, where the
    /// two vectors differ in word count.
    pub fn xnor(&mut self, other: &BloomBitVec) -> (r: Result<(), VecError>)
        ensures
            old(self)@.len() == other@.len() ==> r == Ok::<(), VecError>(()) && final(self)@
                == bits_xnor(old(self)@, other@),
            old(self)@.len() != other@.len() ==> r == Err::<(), VecError>(VecError::LengthMismatch)
                && final(self)@ == old(self)@,
    {
        self.combine(other, WordOp::Xnor)
    }

    /// Intersection: keeps the bits that `other` has set too. Returns `LengthMismatch`, and leaves `self` unchanged, where the
    /// two vectors differ in word count.
    pub fn and(&mut self, other: &BloomBitVec) -> (r: Result<(), VecError>)
        ensures
            old(self)@.len() == other@.len() ==> r == Ok::<(), VecError>(()) && final(self)@
                == bits_and(old(self)@, other@),
            old(self)@.len() != other@.len() ==> r == Err::<(), VecError>(VecError::LengthMismatch)
                && final(self)@ == old(self)@,
    {
        self.combine(other, WordOp::And)
    }

    /// Complement of the intersection. Returns `LengthMismatch`, and leaves `self` unchanged, where the
    /// two vectors differ in word count.
    pub fn nand(&mut self, other: &BloomBitVec) -> (r: Result<(), VecError>)
        ensures
            old(self)@.len() == other@.len() ==> r == Ok::<(), VecError>(()) && final(self)@
                == bits_nand(old(self)@, other@),
            old(self)@.len() != other@.len() ==> r == Err::<(), VecError>(VecError::LengthMismatch)
                && final(self)@ == old(self)@,
    {
        self.combine(other, WordOp::Nand)
    }

    /// Removes each bit that is set in `other`. Returns `LengthMismatch`, and leaves `self` unchanged, where the
    /// two vectors differ in word count.
    pub fn difference(&mut self, other: &BloomBitVec) -> (r: Result<(), VecError>)
        ensures
            old(self)@.len() == other@.len() ==> r == Ok::<(), VecError>(()) && final(self)@
                == bits_difference(old(self)@, other@),
            old(self)@.len() != other@.len() ==> r == Err::<(), VecError>(VecError::LengthMismatch)
                && final(self)@ == old(self)@,
    {
        self.combine(other, WordOp::Difference)
    }
}

} // verus!
