use ra2m_sim::uint::{
    const_max, const_min, sliced_add, sliced_mul, sliced_shl, sliced_shr, sliced_sub,
    sliced_two_complement, split, UInt,
};
use rand::rngs::StdRng;
use rand::{RngExt, SeedableRng};

const SLICED_ARITHM_ITER: usize = 100;

fn os_seeded_rng() -> StdRng {
    StdRng::from_rng(&mut rand::rng())
}

/// Random sliced number of `chunk_size` words
fn gen_rand_vec(chunk_size: usize) -> Vec<u64> {
    let mut rng = os_seeded_rng();
    let mut rand = Vec::new();
    for _ in 0..chunk_size {
        let fr: u64 = rng.random();
        rand.push(fr >> 4);
    }
    rand
}

/// Pack at most two words in a u128
fn packed(sliced_val: &Vec<u64>) -> u128 {
    assert!(
        sliced_val.len() <= 2,
        "Couldn't packed in u128 vector is too large {}",
        sliced_val.len()
    );
    let mut packed_val = 0_u128;
    for (i, s) in sliced_val.iter().enumerate() {
        packed_val += (*s as u128) << (64 * i);
    }
    packed_val
}

/// Random `W`-bit integer, its most significant word masked to the width
fn rand_uint<const W: usize>() -> UInt<W> {
    let mut rng = os_seeded_rng();
    let trgt_len = W.div_ceil(64);
    let msw_rem = W % 64;
    let mut raw_uint = Vec::new();
    for _ in 0..(trgt_len - 1) {
        raw_uint.push(rng.random());
    }
    let masked_msb = if msw_rem == 0 { rng.random::<u64>() } else { rng.random::<u64>() & !(!0_u64 << msw_rem) };
    raw_uint.push(masked_msb);
    UInt::from_vec(raw_uint)
}

const UINT_A_WIDTH: usize = 120;
const UINT_B_WIDTH: usize = 108;

#[test]
fn test_sliced_add() {
    for _ in 0..SLICED_ARITHM_ITER {
        let a = gen_rand_vec(2);
        let b = gen_rand_vec(2);
        assert_eq!(
            packed(&a) + packed(&b),
            packed(&sliced_add(a.as_slice(), b.as_slice()))
        );
    }
}

#[test]
fn test_sliced_sub() {
    for _ in 0..SLICED_ARITHM_ITER {
        let a = gen_rand_vec(2);
        let b = gen_rand_vec(2);
        let (lop, rop) = if packed(&a) >= packed(&b) { (a, b) } else { (b, a) };
        assert_eq!(
            packed(&lop) - packed(&rop),
            packed(&sliced_sub(lop.as_slice(), rop.as_slice()))
        );
    }
}

#[test]
fn test_sliced_mul() {
    for _ in 0..SLICED_ARITHM_ITER {
        let a = gen_rand_vec(2);
        let b = gen_rand_vec(2);
        // The product is kept on two words: it wraps around 2^128
        assert_eq!(
            packed(&a).wrapping_mul(packed(&b)),
            packed(&sliced_mul(a.as_slice(), b.as_slice()))
        );
    }
}

#[test]
fn test_sliced_shl() {
    let mut rng = os_seeded_rng();
    for _ in 0..SLICED_ARITHM_ITER {
        let val = gen_rand_vec(2);
        let lshift = rng.random_range(0..128);
        assert_eq!(
            packed(&val) << lshift,
            packed(&sliced_shl(val.as_slice(), lshift))
        );
    }
}

#[test]
fn test_sliced_shr() {
    let mut rng = os_seeded_rng();
    for _ in 0..SLICED_ARITHM_ITER {
        let val = gen_rand_vec(2);
        let rshift = rng.random_range(0..128);
        assert_eq!(
            packed(&val) >> rshift,
            packed(&sliced_shr(val.as_slice(), rshift))
        );
    }
}

#[test]
fn test_uint_add() {
    for _ in 0..SLICED_ARITHM_ITER {
        let a = rand_uint::<UINT_A_WIDTH>();
        let b = rand_uint::<UINT_B_WIDTH>();
        let golden_arith = a._view_packed().unwrap() + b._view_packed().unwrap();
        let uint_arith = a.add(b.resize::<UINT_A_WIDTH>());
        assert_eq!(golden_arith, uint_arith._view_packed().unwrap());
    }
}

#[test]
fn test_uint_sub() {
    for _ in 0..SLICED_ARITHM_ITER {
        let a = rand_uint::<UINT_A_WIDTH>();
        let b = rand_uint::<UINT_B_WIDTH>();
        let golden_arith = a._view_packed().unwrap() - b._view_packed().unwrap();
        let uint_arith = a.sub(b.resize::<UINT_A_WIDTH>());
        assert_eq!(golden_arith, uint_arith._view_packed().unwrap());
    }
}

#[test]
fn test_uint_mul() {
    for _ in 0..SLICED_ARITHM_ITER {
        let a = rand_uint::<UINT_A_WIDTH>();
        let b = rand_uint::<UINT_B_WIDTH>();
        // The product is computed on 128 bits, then masked to the width
        let golden_arith = a._view_packed().unwrap().wrapping_mul(b._view_packed().unwrap())
            & !(!0 << std::cmp::max(UINT_A_WIDTH, UINT_B_WIDTH));
        let uint_arith = a.mul(b.resize::<UINT_A_WIDTH>());
        assert_eq!(golden_arith, uint_arith._view_packed().unwrap());
    }
}

#[test]
fn test_uint_shl() {
    let mut rng = os_seeded_rng();
    for _ in 0..SLICED_ARITHM_ITER {
        let val_a = rand_uint::<UINT_A_WIDTH>();
        let lshift = rng.random_range(0..128);
        let golden_arith = (val_a._view_packed().unwrap() << lshift) & !(!0 << (UINT_A_WIDTH));
        let uint_arith = val_a.shl(lshift);
        assert_eq!(golden_arith, uint_arith._view_packed().unwrap());
    }
}

#[test]
fn test_uint_shr() {
    let mut rng = os_seeded_rng();
    for _ in 0..SLICED_ARITHM_ITER {
        let val_a = rand_uint::<UINT_A_WIDTH>();
        let rshift = rng.random_range(0..128);
        let golden_arith = val_a._view_packed().unwrap() >> rshift;
        let uint_arith = val_a.shr(rshift);
        assert_eq!(golden_arith, uint_arith._view_packed().unwrap());
    }
}

#[test]
fn const_max_min_pick_the_bound() {
    assert_eq!(const_max(3, 7), 7);
    assert_eq!(const_max(9, 2), 9);
    assert_eq!(const_min(3, 7), 3);
    assert_eq!(const_min(9, 2), 2);
}

#[test]
fn split_gives_both_words() {
    assert_eq!(split((5u128 << 64) | 7), (5, 7));
    assert_eq!(split(u128::MAX), (u64::MAX, u64::MAX));
}

#[test]
fn sliced_add_drops_the_last_carry() {
    assert_eq!(sliced_add(&[u64::MAX, u64::MAX], &[1]), vec![0, 0]);
    assert_eq!(sliced_add(&[u64::MAX], &[1, 0]), vec![0, 1]);
    assert_eq!(sliced_add(&[], &[]), Vec::<u64>::new());
}

#[test]
fn two_complement_negates_on_the_length() {
    assert_eq!(sliced_two_complement(&[1, 0]), vec![u64::MAX, u64::MAX]);
    assert_eq!(sliced_two_complement(&[0]), vec![0]);
    assert_eq!(sliced_two_complement(&[]), vec![1]);
}

#[test]
fn sliced_sub_wraps_around() {
    assert_eq!(sliced_sub(&[0, 0], &[1, 0]), vec![u64::MAX, u64::MAX]);
    assert_eq!(sliced_sub(&[5, 1], &[7, 0]), vec![u64::MAX - 1, 0]);
}

#[test]
fn sliced_mul_carries_across_words() {
    assert_eq!(sliced_mul(&[u64::MAX, 0], &[2]), vec![u64::MAX - 1, 1]);
    assert_eq!(sliced_mul(&[u64::MAX], &[u64::MAX]), vec![1]);
    assert_eq!(sliced_mul(&[3, 4, 5], &[2]), vec![6, 8, 10]);
}

#[test]
fn sliced_shifts_move_whole_words() {
    assert_eq!(sliced_shl(&[1, 2, 3], 64), vec![0, 1, 2]);
    assert_eq!(sliced_shl(&[1, 2, 3], 1000), vec![0, 0, 0]);
    assert_eq!(sliced_shr(&[1, 2, 3], 64), vec![2, 3, 0]);
    assert_eq!(sliced_shr(&[1, 2, 3], 65), vec![(1 << 63) + 1, 1, 0]);
    assert_eq!(sliced_shr(&[1, 2, 3], usize::MAX), vec![0, 0, 0]);
}

#[test]
fn uint_keeps_its_width() {
    // 8 bits wide: the high words are dropped and the top word keeps 8 bits
    let v: UInt<8> = UInt::from_vec(vec![0x3ff, 5]);
    assert_eq!(v._view_packed(), Some(0xff));
    // a multiple of 64 keeps the whole top word
    let x: UInt<64> = UInt::from_vec(vec![5]);
    assert_eq!(x._view_packed(), Some(5));
    let y: UInt<64> = UInt::from_vec(vec![u64::MAX, 1]);
    assert_eq!(y._view_packed(), Some(u64::MAX as u128));
    // a shorter vector is extended with zero words
    let w: UInt<130> = UInt::from_vec(vec![7]);
    assert_eq!(w._view_packed(), None);
    let z: UInt<128> = UInt::from_vec(vec![7]);
    assert_eq!(z._view_packed(), Some(7));
    let big: UInt<200> = UInt::from_vec(vec![1, 2, 3]);
    assert_eq!(big._view_packed(), None);
}

#[test]
fn widening_keeps_the_value() {
    let a: UInt<60> = UInt::from_vec(vec![(1u64 << 60) - 1]);
    assert_eq!(a.resize::<64>()._view_packed(), Some((1u128 << 60) - 1));
    assert_eq!(a.resize::<128>()._view_packed(), Some((1u128 << 60) - 1));
    let b: UInt<64> = UInt::from_vec(vec![1u64 << 63]);
    assert_eq!(b.resize::<60>()._view_packed(), Some(0));
    assert_eq!(b.resize::<100>()._view_packed(), Some(1u128 << 63));
}

#[test]
fn uint_add_wraps_on_kept_bits() {
    let a: UInt<8> = UInt::from_vec(vec![0xff]);
    let b: UInt<8> = UInt::from_vec(vec![1]);
    assert_eq!(a.add(b)._view_packed(), Some(0));
}

#[test]
fn uint_sub_undoes_add() {
    for _ in 0..SLICED_ARITHM_ITER {
        let a = rand_uint::<UINT_A_WIDTH>();
        let b = rand_uint::<UINT_A_WIDTH>();
        let a_val = a._view_packed();
        let b_words: Vec<u64> = b._view_packed().map(|v| vec![v as u64, (v >> 64) as u64]).unwrap();
        let sum = a.add(UInt::from_vec(b_words.clone()));
        let back = sum.sub(UInt::from_vec(b_words));
        assert_eq!(a_val, back._view_packed());
    }
    // Wrapping on the width: 0xff + 1 wraps to 0, and 0 - 1 wraps back.
    let x: UInt<8> = UInt::from_vec(vec![0xff]);
    let s = x.add(UInt::from_vec(vec![1]));
    assert_eq!(Some(0xff), s.sub(UInt::from_vec(vec![1]))._view_packed());
}
