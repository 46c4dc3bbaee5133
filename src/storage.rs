use vstd::prelude::*;

verus! {

/// Read access to an array of word-sized slots.
pub trait Storage: Sized {
    /// What a new storage is filled from.
    type Init;

    /// The words held, slot by slot.
    spec fn slot_seq(&self) -> Seq<u64>;

    /// The word that every slot of a new storage holds.
    spec fn init_word(init: Self::Init) -> u64;

    /// A storage of `slots` slots, each holding the word that `init` gives.
    fn new(slots: usize, init: Self::Init) -> (r: Self)
        ensures
            r.slot_seq() == Seq::new(slots as nat, |i: int| Self::init_word(init)),
    ;

    /// The word in `slot`.
    fn get(&self, slot: usize) -> (r: u64)
        requires
            slot < self.slot_seq().len(),
        ensures
            r == self.slot_seq()[slot as int],
    ;

    /// The number of slots.
    fn slots(&self) -> (r: usize)
        ensures
            r == self.slot_seq().len(),
    ;
}

/// Write access on top of [`Storage`].
pub trait StorageMut: Storage {
    /// Hands the word in `slot` to `op`; where `op` returns `Some(v)` the
    /// slot then holds `v`, and where it returns `None` the slot is left as
    /// it was. Every other slot is left as it was.
    fn update<F: FnOnce(u64) -> Option<u64>>(&mut self, slot: usize, op: F)
        requires
            slot < old(self).slot_seq().len(),
            op.requires((old(self).slot_seq()[slot as int],)),
        ensures
            exists|res: Option<u64>|
                #[trigger] op.ensures((old(self).slot_seq()[slot as int],), res)
                    && final(self).slot_seq() == (match res {
                    Some(v) => old(self).slot_seq().update(slot as int, v),
                    None => old(self).slot_seq(),
                }),
    ;

    /// Sets every slot to zero; the number of slots stays as it was.
    fn clear(&mut self)
        ensures
            final(self).slot_seq() == Seq::new(old(self).slot_seq().len(), |i: int| 0u64),
    ;
}

/// A plain vector of words; new ones start out zeroed.
impl Storage for Vec<u64> {
    type Init = ();

    open spec fn slot_seq(&self) -> Seq<u64> {
        self@
    }

    open spec fn init_word(init: ()) -> u64 {
        0u64
    }

    fn new(slots: usize, init: ()) -> (r: Self) {
        let mut r: Vec<u64> = Vec::new();
        let mut k: usize = 0;
        while k < slots
            invariant
                k <= slots,
                r@ == Seq::new(k as nat, |i: int| 0u64),
            decreases slots - k,
        {
            r.push(0u64);
            k = k + 1;
            assert(r@ =~= Seq::new(k as nat, |i: int| 0u64));
        }
        r
    }

    fn get(&self, slot: usize) -> (r: u64) {
        self[slot]
    }

    fn slots(&self) -> (r: usize) {
        self.len()
    }
}

impl StorageMut for Vec<u64> {
    fn update<F: FnOnce(u64) -> Option<u64>>(&mut self, slot: usize, op: F) {
        let v = self[slot];
        let res = op(v);
        match res {
            Some(w) => {
                self.set(slot, w);
            },
            None => {},
        }
        assert(op.ensures((old(self)@[slot as int],), res));
    }

    fn clear(&mut self) {
        let n = self.len();
        let mut k: usize = 0;
        while k < n
            invariant
                k <= n,
                n == self@.len(),
                forall|j: int| 0 <= j < k ==> #[trigger] self@[j] == 0u64,
            decreases n - k,
        {
            self.set(k, 0u64);
            k = k + 1;
        }
        assert(self@ =~= Seq::new(old(self)@.len(), |i: int| 0u64));
    }
}

} // verus!
