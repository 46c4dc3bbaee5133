use vstd::prelude::*;

use crate::error::VecError;
use crate::storage::{Storage, StorageMut};

verus! {

/// Number of 4-bit counters packed into one storage word.
pub const COUNTERS_PER_WORD: usize = 16;

/// The largest value a counter can hold.
pub const COUNTER_MAX: u64 = 15;

/// How far counter `b` of a word (`b < 16`) is shifted from the
/// least-significant end: counter 0 takes the four most-significant bits.
pub open spec fn nibble_shift(b: u64) -> u64 {
    ((15 - b) * 4) as u64
}

/// The value of counter `b` within word `w`.
pub open spec fn nibble(w: u64, b: u64) -> u64 {
    (w >> nibble_shift(b)) & 15u64
}

/// Word `w` with counter `b` replaced by `v` and every other counter kept.
pub open spec fn with_nibble(w: u64, b: u64, v: u64) -> u64 {
    (w & !(15u64 << nibble_shift(b))) | (v << nibble_shift(b))
}

/// The counters that a sequence of words holds, sixteen per word in order.
pub open spec fn counters_of(words: Seq<u64>) -> Seq<nat> {
    Seq::new(words.len() * 16, |i: int| nibble(words[i / 16], (i % 16) as u64) as nat)
}

/// Counter `i` raised by one, unless it already holds the maximum.
pub open spec fn increment_counter(s: Seq<nat>, i: int) -> Seq<nat> {
    s.update(i, if s[i] < 15 { s[i] + 1 } else { s[i] })
}

/// Counter `i` lowered by one, unless it already holds zero.
pub open spec fn decrement_counter(s: Seq<nat>, i: int) -> Seq<nat> {
    s.update(i, if s[i] > 0 { (s[i] - 1) as nat } else { s[i] })
}

/// Counter `i` incremented `n` times in a row.
pub open spec fn increment_times(s: Seq<nat>, i: int, n: nat) -> Seq<nat>
    decreases n,
{
    if n == 0 {
        s
    } else {
        increment_counter(increment_times(s, i, (n - 1) as nat), i)
    }
}

/// The replacement for a word when its counter `b` is incremented; `None`
/// where that counter is saturated.
spec fn bumped_word(w: u64, b: u64) -> Option<u64> {
    if nibble(w, b) < 15 {
        Some(with_nibble(w, b, (nibble(w, b) + 1) as u64))
    } else {
        None
    }
}

/// The replacement for a word when its counter `b` is decremented; `None`
/// where that counter is zero.
spec fn dropped_word(w: u64, b: u64) -> Option<u64> {
    if nibble(w, b) > 0 {
        Some(with_nibble(w, b, (nibble(w, b) - 1) as u64))
    } else {
        None
    }
}

proof fn lemma_nibble(w: u64, b: u64, c: u64, v: u64)
    by (bit_vector)
    requires
        b < 16,
        c < 16,
        v < 16,
    ensures
        nibble(w, b) < 16,
        nibble(with_nibble(w, b, v), b) == v,
        c != b ==> nibble(with_nibble(w, b, v), c) == nibble(w, c),
{
}

proof fn lemma_zero_nibble(b: u64)
    by (bit_vector)
    requires
        b < 16,
    ensures
        nibble(0u64, b) == 0,
{
}

proof fn lemma_counter_index(i: int, n: int)
    requires
        0 <= i < n * 16,
    ensures
        0 <= i / 16 < n,
        0 <= i % 16 < 16,
{
}

/// Saturating 4-bit counters for a counting bloom filter, sixteen to a word
/// of the underlying storage.
#[derive(Debug, Clone)]
pub struct CountingVec<S> {
    storage: S,
}

impl<S: Storage> View for CountingVec<S> {
    type V = Seq<nat>;

    closed spec fn view(&self) -> Seq<nat> {
        counters_of(self.storage.slot_seq())
    }
}

impl<S: Storage> CountingVec<S> {
    /// The number of words in the underlying storage.
    pub closed spec fn slot_count(&self) -> nat {
        self.storage.slot_seq().len()
    }

    /// The counters packed in `storage`, which is kept as it is.
    pub fn new(storage: S) -> (r: Self)
        ensures
            r@ == counters_of(storage.slot_seq()),
            r.slot_count() == storage.slot_seq().len(),
    {
        CountingVec { storage }
    }

    /// The value of counter `index`, or `IndexOutOfRange` where `index` lies
    /// past the last word.
    pub fn get(&self, index: usize) -> (r: Result<usize, VecError>)
        ensures
            index < self@.len() ==> r == Ok::<usize, VecError>(self@[index as int] as usize),
            index >= self@.len() ==> r == Err::<usize, VecError>(VecError::IndexOutOfRange),
    {
        let w = index / COUNTERS_PER_WORD;
        if w >= self.storage.slots() {
            return Err(VecError::IndexOutOfRange);
        }
        let b = (index % COUNTERS_PER_WORD) as u64;
        let slot = self.storage.get(w);
        let shift: u64 = (15 - b) * 4;
        let value = (slot >> shift) & 15u64;
        Ok(value as usize)
    }

    /// The number of counters: sixteen for each word of storage.
    pub fn counters(&self) -> (r: usize)
        requires
            self@.len() <= usize::MAX,
        ensures
            r == self@.len(),
            r == self.slot_count() * 16,
    {
        self.storage.slots() * COUNTERS_PER_WORD
    }
}

/// Every counter holds a value from 0 to 15.
pub proof fn lemma_counters_bounded<S: Storage>(v: CountingVec<S>)
    ensures
        forall|i: int| 0 <= i < v@.len() ==> #[trigger] v@[i] <= 15,
{
    let n = v.slot_count() as int;
    assert forall|i: int| 0 <= i < v@.len() implies #[trigger] v@[i] <= 15 by {
        lemma_counter_index(i, n);
        lemma_nibble(v.storage.slot_seq()[i / 16], (i % 16) as u64, 0, 0);
    }
}

/// There are sixteen counters for each word of storage.
pub proof fn lemma_counter_count<S: Storage>(v: CountingVec<S>)
    ensures
        v@.len() == v.slot_count() * 16,
{
}

/// Incrementing a counter `n` times from zero leaves it at `n`, or at 15
/// once `n` reaches 15, and leaves every other counter as it was.
pub proof fn lemma_increment_times(s: Seq<nat>, i: int, n: nat)
    requires
        0 <= i < s.len(),
        s[i] == 0,
    ensures
        increment_times(s, i, n).len() == s.len(),
        increment_times(s, i, n)[i] == if n < 15 { n } else { 15 },
        forall|j: int| 0 <= j < s.len() && j != i ==> #[trigger] increment_times(s, i, n)[j] == s[j],
    decreases n,
{
    if n > 0 {
        lemma_increment_times(s, i, (n - 1) as nat);
    }
}

/// From zero, sixteen increments drive a counter to 15, and a seventeenth
/// leaves it there.
pub proof fn lemma_increment_saturates(s: Seq<nat>, i: int)
    requires
        0 <= i < s.len(),
        s[i] == 0,
    ensures
        increment_times(s, i, 16)[i] == 15,
        increment_counter(increment_times(s, i, 16), i)[i] == 15,
{
    lemma_increment_times(s, i, 16);
    lemma_increment_times(s, i, 17);
}

/// Decrementing a counter at zero leaves it at zero.
pub proof fn lemma_decrement_floor(s: Seq<nat>, i: int)
    requires
        0 <= i < s.len(),
        s[i] == 0,
    ensures
        decrement_counter(s, i)[i] == 0,
        decrement_counter(s, i) == s,
{
    assert(decrement_counter(s, i) =~= s);
}

/// Incrementing or decrementing counter `i` changes no other counter.
pub proof fn lemma_other_counters_kept(s: Seq<nat>, i: int, j: int)
    requires
        0 <= i < s.len(),
        0 <= j < s.len(),
        i != j,
    ensures
        increment_counter(s, i)[j] == s[j],
        decrement_counter(s, i)[j] == s[j],
{
}

impl<S: StorageMut> CountingVec<S> {
    /// Raises counter `index` by one; a counter at the maximum stays there.
    /// Returns `IndexOutOfRange`, and changes nothing, where `index` lies past
    /// the last word.
    pub fn increment(&mut self, index: usize) -> (r: Result<(), VecError>)
        ensures
            index < old(self)@.len() ==> r == Ok::<(), VecError>(()) && final(self)@
                == increment_counter(old(self)@, index as int),
            index >= old(self)@.len() ==> r == Err::<(), VecError>(VecError::IndexOutOfRange)
                && final(self)@ == old(self)@,
            final(self).slot_count() == old(self).slot_count(),
    {
        let w = index / COUNTERS_PER_WORD;
        if w >= self.storage.slots() {
            return Err(VecError::IndexOutOfRange);
        }
        let b = (index % COUNTERS_PER_WORD) as u64;
        let op = |slot: u64| -> (res: Option<u64>)
            ensures
                res == bumped_word(slot, b),
            {
                let shift: u64 = (15 - b) * 4;
                let current = (slot >> shift) & 15u64;
                if current < COUNTER_MAX {
                    Some((slot & !(15u64 << shift)) | ((current + 1) << shift))
                } else {
                    None
                }
            };
        self.storage.update(w, op);
        proof {
            let words = old(self).storage.slot_seq();
            let word = words[w as int];
            let n = words.len() as int;
            lemma_nibble(word, b, 0, 0);
            let v = if nibble(word, b) < 15 { (nibble(word, b) + 1) as u64 } else { nibble(word, b) };
            assert forall|i: int| 0 <= i < n * 16 implies #[trigger] self@[i] == increment_counter(
                old(self)@,
                index as int,
            )[i] by {
                lemma_counter_index(i, n);
                lemma_nibble(word, b, (i % 16) as u64, v);
            }
            assert(self@ =~= increment_counter(old(self)@, index as int));
        }
        Ok(())
    }

    /// Lowers counter `index` by one; a counter at zero stays there.
    /// Returns `IndexOutOfRange`, and changes nothing, where `index` lies past
    /// the last word.
    pub fn decrement(&mut self, index: usize) -> (r: Result<(), VecError>)
        ensures
            index < old(self)@.len() ==> r == Ok::<(), VecError>(()) && final(self)@
                == decrement_counter(old(self)@, index as int),
            index >= old(self)@.len() ==> r == Err::<(), VecError>(VecError::IndexOutOfRange)
                && final(self)@ == old(self)@,
            final(self).slot_count() == old(self).slot_count(),
    {
        let w = index / COUNTERS_PER_WORD;
        if w >= self.storage.slots() {
            return Err(VecError::IndexOutOfRange);
        }
        let b = (index % COUNTERS_PER_WORD) as u64;
        let op = |slot: u64| -> (res: Option<u64>)
            ensures
                res == dropped_word(slot, b),
            {
                let shift: u64 = (15 - b) * 4;
                let current = (slot >> shift) & 15u64;
                if current > 0 {
                    Some((slot & !(15u64 << shift)) | ((current - 1) << shift))
                } else {
                    None
                }
            };
        self.storage.update(w, op);
        proof {
            let words = old(self).storage.slot_seq();
            let word = words[w as int];
            let n = words.len() as int;
            lemma_nibble(word, b, 0, 0);
            let v = if nibble(word, b) > 0 { (nibble(word, b) - 1) as u64 } else { nibble(word, b) };
            assert forall|i: int| 0 <= i < n * 16 implies #[trigger] self@[i] == decrement_counter(
                old(self)@,
                index as int,
            )[i] by {
                lemma_counter_index(i, n);
                lemma_nibble(word, b, (i % 16) as u64, v);
            }
            assert(self@ =~= decrement_counter(old(self)@, index as int));
        }
        Ok(())
    }

    /// Sets every counter to zero; the number of counters stays as it was.
    pub fn clear(&mut self)
        ensures
            final(self)@ == Seq::new(old(self)@.len(), |i: int| 0nat),
            final(self).slot_count() == old(self).slot_count(),
    {
        self.storage.clear();
        proof {
            let n = old(self).storage.slot_seq().len() as int;
            assert forall|i: int| 0 <= i < n * 16 implies #[trigger] self@[i] == 0nat by {
                lemma_counter_index(i, n);
                lemma_zero_nibble((i % 16) as u64);
            }
            assert(self@ =~= Seq::new(old(self)@.len(), |i: int| 0nat));
        }
    }
}

} // verus!
