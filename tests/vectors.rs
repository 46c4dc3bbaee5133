use fastbloom_rs::{
    BloomBitVec, CountingVec, Storage, StorageMut, VecError, BITS_PER_WORD, COUNTERS_PER_WORD,
    COUNTER_MAX,
};

fn bits_of(v: &BloomBitVec, n: usize) -> Vec<bool> {
    (0..n).map(|i| v.get(i).unwrap()).collect()
}

fn vec_with(slots: usize, bits: &[usize]) -> BloomBitVec {
    let mut v = BloomBitVec::new(slots);
    for &b in bits {
        v.set(b).unwrap();
    }
    v
}

#[test]
fn test_vec() {
    let mut vec = BloomBitVec::new(16);
    vec.set(37).unwrap();
    vec.set(38).unwrap();
    println!("{:?}", vec);
    assert_eq!(vec.get(37), Ok(true));
    assert_eq!(vec.get(38), Ok(true));
}

#[test]
fn test_size() {
    println!("{}", BITS_PER_WORD);
    assert_eq!(BITS_PER_WORD, 64);
}

#[test]
fn test_count_vec() {
    let mut vec = CountingVec::new(vec![0u64; 10]);
    vec.increment(7).unwrap();

    assert_eq!(Ok(1), vec.get(7))
}

#[test]
fn counters_per_word_is_sixteen() {
    assert_eq!(COUNTERS_PER_WORD, 16);
    assert_eq!(COUNTER_MAX, 15);
}

#[test]
fn set_then_get_leaves_neighbours() {
    let mut v = BloomBitVec::new(16);
    assert_eq!(v.set(37), Ok(()));
    assert_eq!(v.set(38), Ok(()));
    assert_eq!(v.get(37), Ok(true));
    assert_eq!(v.get(38), Ok(true));
    assert_eq!(v.get(36), Ok(false));
    assert_eq!(v.get(39), Ok(false));
    for i in 0..16 * 64 {
        assert_eq!(v.get(i), Ok(i == 37 || i == 38));
    }
}

#[test]
fn set_at_word_edges() {
    let mut v = BloomBitVec::new(2);
    for i in [0usize, 63, 64, 127] {
        v.set(i).unwrap();
    }
    let bits = bits_of(&v, 128);
    for (i, b) in bits.iter().enumerate() {
        assert_eq!(*b, i == 0 || i == 63 || i == 64 || i == 127);
    }
}

#[test]
fn index_out_of_range_is_refused() {
    let mut v = BloomBitVec::new(2);
    assert_eq!(v.get(128), Err(VecError::IndexOutOfRange));
    assert_eq!(v.set(128), Err(VecError::IndexOutOfRange));
    assert_eq!(v.set(usize::MAX), Err(VecError::IndexOutOfRange));
    assert!(bits_of(&v, 128).iter().all(|b| !*b));
    let mut empty = BloomBitVec::new(0);
    assert_eq!(empty.get(0), Err(VecError::IndexOutOfRange));
    assert_eq!(empty.set(0), Err(VecError::IndexOutOfRange));
}

#[test]
fn from_elem_fills_every_bit() {
    let t = BloomBitVec::from_elem(3, true);
    let f = BloomBitVec::from_elem(3, false);
    for i in 0..192 {
        assert_eq!(t.get(i), Ok(true));
        assert_eq!(f.get(i), Ok(false));
    }
    assert_eq!(t.get(192), Err(VecError::IndexOutOfRange));
}

#[test]
fn boolean_operations_on_words() {
    // a has bits 1 and 2, b has bits 2 and 3, out of 64.
    let a = vec_with(1, &[1, 2]);
    let b = vec_with(1, &[2, 3]);
    let expect = |f: &dyn Fn(bool, bool) -> bool, r: &BloomBitVec| {
        for i in 0..64 {
            let x = i == 1 || i == 2;
            let y = i == 2 || i == 3;
            assert_eq!(r.get(i), Ok(f(x, y)), "bit {}", i);
        }
    };
    let mut r = a.clone();
    r.or(&b).unwrap();
    expect(&|x, y| x || y, &r);
    let mut r = a.clone();
    r.and(&b).unwrap();
    expect(&|x, y| x && y, &r);
    let mut r = a.clone();
    r.xor(&b).unwrap();
    expect(&|x, y| x != y, &r);
    let mut r = a.clone();
    r.nand(&b).unwrap();
    expect(&|x, y| !(x && y), &r);
    let mut r = a.clone();
    r.nor(&b).unwrap();
    expect(&|x, y| !(x || y), &r);
    let mut r = a.clone();
    r.xnor(&b).unwrap();
    expect(&|x, y| x == y, &r);
    let mut r = a.clone();
    r.difference(&b).unwrap();
    expect(&|x, y| x && !y, &r);
}

#[test]
fn complemented_operations_are_complements() {
    let a = vec_with(2, &[0, 5, 64, 100]);
    let b = vec_with(2, &[5, 7, 100, 127]);
    let pairs: [(fn(&mut BloomBitVec, &BloomBitVec) -> Result<(), VecError>,
                 fn(&mut BloomBitVec, &BloomBitVec) -> Result<(), VecError>); 3] = [
        (BloomBitVec::xnor, BloomBitVec::xor),
        (BloomBitVec::nand, BloomBitVec::and),
        (BloomBitVec::nor, BloomBitVec::or),
    ];
    for (neg, pos) in pairs {
        let mut n = a.clone();
        neg(&mut n, &b).unwrap();
        let mut p = a.clone();
        pos(&mut p, &b).unwrap();
        for i in 0..128 {
            assert_eq!(n.get(i).unwrap(), !p.get(i).unwrap());
        }
    }
    let mut d = a.clone();
    d.difference(&b).unwrap();
    let mut not_b = b.clone();
    not_b.xor(&BloomBitVec::from_elem(2, true)).unwrap();
    let mut a_and_not_b = a.clone();
    a_and_not_b.and(&not_b).unwrap();
    assert_eq!(bits_of(&d, 128), bits_of(&a_and_not_b, 128));
}

#[test]
fn length_mismatch_is_refused() {
    let a = vec_with(2, &[3, 70]);
    let b = BloomBitVec::from_elem(1, true);
    let ops: [fn(&mut BloomBitVec, &BloomBitVec) -> Result<(), VecError>; 7] = [
        BloomBitVec::or,
        BloomBitVec::and,
        BloomBitVec::xor,
        BloomBitVec::nand,
        BloomBitVec::nor,
        BloomBitVec::xnor,
        BloomBitVec::difference,
    ];
    for op in ops {
        let mut r = a.clone();
        assert_eq!(op(&mut r, &b), Err(VecError::LengthMismatch));
        assert_eq!(bits_of(&r, 128), bits_of(&a, 128));
    }
}

#[test]
fn clear_zeroes_bits_and_keeps_length() {
    let mut v = BloomBitVec::from_elem(4, true);
    v.clear();
    for i in 0..256 {
        assert_eq!(v.get(i), Ok(false));
    }
    assert_eq!(v.get(256), Err(VecError::IndexOutOfRange));
    assert!(!v.is_empty());
}

#[test]
fn is_empty_reflects_word_count_only() {
    assert!(BloomBitVec::new(0).is_empty());
    assert!(BloomBitVec::from_elem(0, true).is_empty());
    assert!(!BloomBitVec::new(1).is_empty());
    assert!(!BloomBitVec::from_elem(1, true).is_empty());
    let mut e = BloomBitVec::new(0);
    e.clear();
    assert!(e.is_empty());
}

#[test]
fn counter_saturates_at_fifteen() {
    let mut c = CountingVec::new(vec![0u64; 2]);
    for k in 1..=16 {
        c.increment(5).unwrap();
        assert_eq!(c.get(5), Ok(if k < 15 { k } else { 15 }));
    }
    assert_eq!(c.get(5), Ok(15));
    c.increment(5).unwrap();
    assert_eq!(c.get(5), Ok(15));
}

#[test]
fn counter_floors_at_zero() {
    let mut c = CountingVec::new(vec![0u64; 10]);
    c.increment(7).unwrap();
    assert_eq!(c.get(7), Ok(1));
    c.decrement(7).unwrap();
    assert_eq!(c.get(7), Ok(0));
    c.decrement(7).unwrap();
    assert_eq!(c.get(7), Ok(0));
}

#[test]
fn counters_are_independent() {
    let mut c = CountingVec::new(vec![0u64; 2]);
    // 3 and 4 share a word, 20 lies in the next one.
    for _ in 0..20 {
        c.increment(3).unwrap();
    }
    c.increment(4).unwrap();
    c.increment(20).unwrap();
    c.increment(20).unwrap();
    c.decrement(4).unwrap();
    c.decrement(0).unwrap();
    for i in 0..32 {
        let expect = match i {
            3 => 15,
            20 => 2,
            _ => 0,
        };
        assert_eq!(c.get(i), Ok(expect), "counter {}", i);
    }
}

#[test]
fn counter_layout_in_words() {
    // counter 0 takes the four most-significant bits of its word
    let mut words = vec![0u64; 2];
    words[0] = 0x1200_0000_0000_00a0;
    words[1] = 0x0000_0000_0000_000f;
    let c = CountingVec::new(words);
    assert_eq!(c.get(0), Ok(1));
    assert_eq!(c.get(1), Ok(2));
    assert_eq!(c.get(14), Ok(10));
    assert_eq!(c.get(15), Ok(0));
    assert_eq!(c.get(31), Ok(15));
    let mut c = c;
    c.increment(1).unwrap();
    c.decrement(0).unwrap();
    assert_eq!(c.get(0), Ok(0));
    assert_eq!(c.get(1), Ok(3));
    assert_eq!(c.get(14), Ok(10));
}

#[test]
fn counter_index_out_of_range() {
    let mut c = CountingVec::new(vec![0u64; 3]);
    assert_eq!(c.get(48), Err(VecError::IndexOutOfRange));
    assert_eq!(c.increment(48), Err(VecError::IndexOutOfRange));
    assert_eq!(c.decrement(48), Err(VecError::IndexOutOfRange));
    assert_eq!(c.get(47), Ok(0));
}

#[test]
fn counter_count_is_sixteen_per_slot() {
    assert_eq!(CountingVec::new(vec![0u64; 10]).counters(), 160);
    assert_eq!(CountingVec::new(vec![0u64; 0]).counters(), 0);
    assert_eq!(CountingVec::new(vec![7u64; 1]).counters(), 16);
}

#[test]
fn counting_clear_zeroes_all() {
    let mut c = CountingVec::new(vec![u64::MAX; 2]);
    assert_eq!(c.get(9), Ok(15));
    c.clear();
    for i in 0..32 {
        assert_eq!(c.get(i), Ok(0));
    }
    assert_eq!(c.counters(), 32);
}

#[test]
fn vec_storage_operations() {
    let mut s = <Vec<u64> as Storage>::new(4, ());
    assert_eq!(s.slots(), 4);
    assert_eq!(Storage::get(&s, 2), 0);
    s.update(2, |w| Some(w + 9));
    assert_eq!(Storage::get(&s, 2), 9);
    s.update(2, |_| None);
    assert_eq!(Storage::get(&s, 2), 9);
    assert_eq!(Storage::get(&s, 1), 0);
    StorageMut::clear(&mut s);
    assert_eq!(s, vec![0u64; 4]);
}
