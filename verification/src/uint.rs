//! Fixed length unsigned integers for hardware simulation.
//!
//! Values are stored as a little-endian sequence of `u64` words and all
//! arithmetic is done word by word with `u128` intermediates.

use vstd::prelude::*;
use vstd::arithmetic::power2::{pow2, lemma_pow2_adds, lemma_pow2_pos, lemma2_to64_rest};
use crate::wordseq::{
    word_pow, seq_value, lemma_word_pow_zero, lemma_word_pow_pos, lemma_word_pow_succ,
    lemma_word_pow_adds, lemma_word_pow_le, lemma_value_bound, lemma_value_push,
    lemma_value_take_succ, lemma_value_split, lemma_value_skip, lemma_value_update,
    lemma_value_zeros, lemma_value_high_zero,
};

verus! {

/// Maximum of two `usize`.
pub fn const_max(lw: usize, rw: usize) -> (r: usize)
    ensures
        r == (if lw > rw { lw } else { rw }),
{
    if lw > rw {
        lw
    } else {
        rw
    }
}

/// Minimum of two `usize`.
pub fn const_min(lw: usize, rw: usize) -> (r: usize)
    ensures
        r == (if lw < rw { lw } else { rw }),
{
    if lw < rw {
        lw
    } else {
        rw
    }
}

/// The base of one word: 2^64.
pub open spec fn word_base() -> nat {
    0x1_0000_0000_0000_0000
}

/// Split a `u128` in its most and least significant words.
pub fn split(val: u128) -> (r: (u64, u64))
    ensures
        r.0 == val as nat / word_base(),
        r.1 == val as nat % word_base(),
        val == r.1 + r.0 * 0x1_0000_0000_0000_0000,
{
    let lsb = (val & !((!1_u128) << 64u32)) as u64;
    let msb = (val >> 64u32) as u64;
    assert(lsb == val % 0x1_0000_0000_0000_0000) by (bit_vector)
        requires
            lsb == (val & !((!1_u128) << 64u32)) as u64,
    ;
    assert(msb == val / 0x1_0000_0000_0000_0000) by (bit_vector)
        requires
            msb == (val >> 64u32) as u64,
    ;
    assert(val == (lsb as u128) + (msb as u128) * 0x1_0000_0000_0000_0000u128) by (bit_vector)
        requires
            msb == (val >> 64u32) as u64,
            lsb == (val & !((!1_u128) << 64u32)) as u64,
    ;
    (msb, lsb)
}


/// Add two sliced values.
///
/// The result has as many words as the longest operand; a carry out of the
/// last word is dropped.
pub fn sliced_add(a: &[u64], b: &[u64]) -> (res: Vec<u64>)
    ensures
        res.len() == (if a.len() >= b.len() { a.len() } else { b.len() }),
        seq_value(res@) == (seq_value(a@) + seq_value(b@)) % word_pow(res.len() as nat),
{
    let (long_op, short_op) = if a.len() >= b.len() { (a, b) } else { (b, a) };
    let ghost sl = short_op.len() as int;
    let mut res: Vec<u64> = Vec::new();
    let mut carry: u64 = 0;
    let mut i: usize = 0;
    proof {
        lemma_word_pow_zero();
        assert(long_op@.take(0) =~= Seq::<u64>::empty());
        assert(short_op@.take(0) =~= Seq::<u64>::empty());
    }
    while i < long_op.len()
        invariant
            0 <= i <= long_op.len(),
            sl == short_op.len(),
            short_op.len() <= long_op.len(),
            res.len() == i,
            carry <= 1,
            seq_value(res@) + carry * word_pow(i as nat) == seq_value(long_op@.take(i as int))
                + seq_value(short_op@.take(if i < sl { i as int } else { sl })),
        decreases long_op.len() - i,
    {
        let s: u128 = if i < short_op.len() { short_op[i] as u128 } else { 0 };
        let tmp: u128 = carry as u128 + long_op[i] as u128 + s;
        let (hi, lo) = split(tmp);
        proof {
            let p = word_pow(i as nat);
            lemma_word_pow_succ(i as nat);
            lemma_value_push(res@, lo);
            lemma_value_take_succ(long_op@, i as int);
            if i < sl {
                lemma_value_take_succ(short_op@, i as int);
            }
            assert(tmp == lo + hi * 0x1_0000_0000_0000_0000);
            assert((lo + hi * 0x1_0000_0000_0000_0000) * p == lo * p + hi * (p
                * 0x1_0000_0000_0000_0000)) by (nonlinear_arith);
            assert((carry + long_op[i as int] + s) * p == carry * p + long_op[i as int] * p + s
                * p) by (nonlinear_arith);
        }
        res.push(lo);
        carry = hi;
        i = i + 1;
    }
    proof {
        assert(long_op@.take(i as int) =~= long_op@);
        assert(short_op@.take(sl) =~= short_op@);
        lemma_value_bound(res@);
        let p = word_pow(i as nat) as int;
        lemma_word_pow_pos(i as nat);
        vstd::arithmetic::div_mod::lemma_fundamental_div_mod_converse(
            (seq_value(long_op@) + seq_value(short_op@)) as int,
            p,
            carry as int,
            seq_value(res@) as int,
        );
    }
    res
}

/// Word-wise complement of a sliced value.
fn sliced_not(val: &[u64]) -> (res: Vec<u64>)
    ensures
        res.len() == val.len(),
        seq_value(res@) + seq_value(val@) + 1 == word_pow(val.len() as nat),
{
    let mut res: Vec<u64> = Vec::new();
    let mut i: usize = 0;
    proof {
        lemma_word_pow_zero();
        assert(val@.take(0) =~= Seq::<u64>::empty());
    }
    while i < val.len()
        invariant
            0 <= i <= val.len(),
            res.len() == i,
            seq_value(res@) + seq_value(val@.take(i as int)) + 1 == word_pow(i as nat),
        decreases val.len() - i,
    {
        let x = val[i];
        let nx = !x;
        proof {
            assert(nx + x == 0xffff_ffff_ffff_ffffu64) by (bit_vector)
                requires
                    nx == !x,
            ;
            let p = word_pow(i as nat);
            lemma_word_pow_succ(i as nat);
            lemma_value_push(res@, nx);
            lemma_value_take_succ(val@, i as int);
            assert((nx + x) * p == nx * p + x * p) by (nonlinear_arith);
        }
        res.push(nx);
        i = i + 1;
    }
    proof {
        assert(val@.take(i as int) =~= val@);
    }
    res
}

/// Two's complement of a sliced value, on at least one word.
///
/// This is the operand that turns a subtraction into an addition.
pub fn sliced_two_complement(val: &[u64]) -> (res: Vec<u64>)
    ensures
        res.len() == (if val.len() >= 1 { val.len() } else { 1 }),
        seq_value(res@) == (word_pow(val.len() as nat) - seq_value(val@)) % (word_pow(
            res.len() as nat,
        ) as int),
{
    let res = sliced_not(val);
    let one: [u64; 1] = [1u64];
    let r = sliced_add(res.as_slice(), &one);
    proof {
        assert(one@ =~= seq![1u64]);
        assert(seq![1u64].drop_last() =~= Seq::<u64>::empty());
        assert(seq![1u64].len() == 1 && seq![1u64].last() == 1);
        lemma_word_pow_zero();
        assert(seq_value(seq![1u64]) == seq_value(Seq::<u64>::empty()) + 1 * word_pow(0));
        assert(seq_value(one@) == 1);
    }
    r
}

/// Subtract two sliced values.
///
/// `b` is negated in two's complement on its own length and added to `a`.
pub fn sliced_sub(a: &[u64], b: &[u64]) -> (res: Vec<u64>)
    ensures
        res.len() == sub_len(a.len() as nat, b.len() as nat),
        seq_value(res@) == (seq_value(a@) + (word_pow(b.len() as nat) - seq_value(b@)) % (
        word_pow(if b.len() >= 1 { b.len() as nat } else { 1 }) as int)) % (word_pow(
            res.len() as nat,
        ) as int),
        a.len() <= b.len() && b.len() >= 1 ==> seq_value(res@) == (seq_value(a@) - seq_value(b@))
            % (word_pow(b.len() as nat) as int),
{
    let b_tc = sliced_two_complement(b);
    let r = sliced_add(a, b_tc.as_slice());
    proof {
        if a.len() <= b.len() && b.len() >= 1 {
            let p = word_pow(b.len() as nat) as int;
            lemma_word_pow_pos(b.len() as nat);
            lemma_value_bound(b@);
            let t = (p - seq_value(b@)) % p;
            assert(seq_value(r@) == (seq_value(a@) + t) % p);
            vstd::arithmetic::div_mod::lemma_add_mod_noop(seq_value(a@) as int, p - seq_value(b@), p);
            vstd::arithmetic::div_mod::lemma_mod_add_multiples_vanish(seq_value(a@) - seq_value(b@), p);
            vstd::arithmetic::div_mod::lemma_mod_twice(p - seq_value(b@), p);
            vstd::arithmetic::div_mod::lemma_add_mod_noop(seq_value(a@) as int, t, p);
        }
    }
    r
}

/// Multiply two sliced values.
///
/// The full product is computed on `a.len() + b.len()` words, then shrunk
/// back to the length of the longest operand.
pub fn sliced_mul(a: &[u64], b: &[u64]) -> (res: Vec<u64>)
    requires
        a.len() + b.len() <= usize::MAX,
    ensures
        res.len() == (if a.len() >= b.len() { a.len() } else { b.len() }),
        seq_value(res@) == (seq_value(a@) * seq_value(b@)) % word_pow(res.len() as nat),
{
    let la = a.len();
    let lb = b.len();
    let max_op_len = const_max(la, lb);
    let res_len = la + lb;
    let res_init = zero_words(res_len);
    let mut res: Vec<u64> = res_init;
    let ghost vb = seq_value(b@);
    proof {
        lemma_value_zeros(res@);
        assert(a@.take(0) =~= Seq::<u64>::empty());
        assert(seq_value(a@.take(0)) == 0);
        assert(seq_value(a@.take(0)) * vb == 0);
    }
    let mut i: usize = 0;
    while i < la
        invariant
            la == a.len(),
            lb == b.len(),
            res_len == la + lb,
            vb == seq_value(b@),
            0 <= i <= la,
            res.len() == res_len,
            seq_value(res@) == seq_value(a@.take(i as int)) * vb,
        decreases la - i,
    {
        let ai = a[i];
        let ghost va_i = seq_value(a@.take(i as int));
        let ghost pi = word_pow(i as nat);
        proof {
            lemma_value_bound(a@.take(i as int));
            lemma_value_bound(b@);
            lemma_word_pow_adds(i as nat, lb as nat);
            lemma_word_pow_pos(i as nat);
            let plb = word_pow(lb as nat);
            assert(va_i * vb < pi * plb) by (nonlinear_arith)
                requires
                    va_i < pi,
                    vb < plb,
                    0 <= va_i,
                    0 <= vb,
            ;
            lemma_value_high_zero(res@, (i + lb) as nat);
            lemma_word_pow_zero();
            assert(b@.take(0) =~= Seq::<u64>::empty());
            assert(seq_value(b@.take(0)) == 0);
            assert(ai * seq_value(b@.take(0)) * pi == 0);
            assert(0 * word_pow(i as nat) == 0);
        }
        let mut carry: u64 = 0;
        let mut j: usize = 0;
        while j < lb
            invariant
                la == a.len(),
                lb == b.len(),
                res_len == la + lb,
                vb == seq_value(b@),
                0 <= i < la,
                0 <= j <= lb,
                ai == a[i as int],
                va_i == seq_value(a@.take(i as int)),
                pi == word_pow(i as nat),
                res.len() == res_len,
                forall|m: int| i + lb <= m < res_len ==> res@[m] == 0,
                seq_value(res@) + carry * word_pow((i + j) as nat) == va_i * vb + ai * seq_value(
                    b@.take(j as int),
                ) * pi,
            decreases lb - j,
        {
            let old_word = res[i + j];
            let bj_w = b[j];
            proof {
                assert((ai as u128) * (bj_w as u128) <= 0xffff_ffff_ffff_fffe_0000_0000_0000_0001u128)
                    by (nonlinear_arith)
                    requires
                        ai <= 0xffff_ffff_ffff_ffffu64,
                        bj_w <= 0xffff_ffff_ffff_ffffu64,
                ;
            }
            let t: u128 = old_word as u128 + (ai as u128) * (b[j] as u128) + carry as u128;
            let (hi, lo) = split(t);
            proof {
                let k = (i + j) as int;
                let pk = word_pow(k as nat);
                let bj = b[j as int];
                lemma_value_update(res@, k, lo);
                lemma_word_pow_succ(k as nat);
                lemma_word_pow_adds(i as nat, j as nat);
                lemma_value_take_succ(b@, j as int);
                assert(t == lo + hi * 0x1_0000_0000_0000_0000);
                assert((lo + hi * 0x1_0000_0000_0000_0000) * pk == lo * pk + hi * (pk
                    * 0x1_0000_0000_0000_0000)) by (nonlinear_arith);
                assert((old_word + ai * bj + carry) * pk == old_word * pk + ai * bj * pk + carry
                    * pk) by (nonlinear_arith);
                let vbj = seq_value(b@.take(j as int));
                assert(ai * (vbj + bj * word_pow(j as nat)) * pi == ai * vbj * pi + ai * bj * (pi
                    * word_pow(j as nat))) by (nonlinear_arith);
            }
            res.set(i + j, lo);
            carry = hi;
            j = j + 1;
        }
        proof {
            assert(b@.take(lb as int) =~= b@);
            lemma_value_take_succ(a@, i as int);
            lemma_value_update(res@, (i + lb) as int, carry);
            assert((va_i + ai * pi) * vb == va_i * vb + ai * vb * pi) by (nonlinear_arith);
        }
        res.set(i + lb, carry);
        i = i + 1;
    }
    proof {
        assert(a@.take(la as int) =~= a@);
        lemma_value_skip(res@, max_op_len as int);
    }
    let ghost full = res@;
    res.truncate(max_op_len);
    proof {
        assert(res@ =~= full.take(max_op_len as int));
    }
    res
}

/// Shift left by less than a word, keeping every bit: the result has one
/// more word than `v`.
fn shl_bits_exact(v: &[u64], r: u32) -> (res: Vec<u64>)
    requires
        r < 64,
    ensures
        res.len() == v.len() + 1,
        seq_value(res@) == seq_value(v@) * pow2(r as nat),
{
    proof {
        vstd::bits::lemma_u64_pow2_no_overflow(r as nat);
        lemma2_to64_rest();
        if r < 63 {
            vstd::arithmetic::power2::lemma_pow2_strictly_increases(r as nat, 63);
        }
    }
    let m: u64 = 1u64 << (r as u64);
    proof {
        vstd::bits::lemma_u64_shl_is_mul(1u64, r as u64);
    }
    let ghost mp = pow2(r as nat);
    let mut res: Vec<u64> = Vec::new();
    let mut carry: u64 = 0;
    let mut k: usize = 0;
    proof {
        lemma_word_pow_zero();
        assert(v@.take(0) =~= Seq::<u64>::empty());
        assert(seq_value(v@.take(0)) == 0);
        assert(seq_value(v@.take(0)) * mp == 0);
    }
    while k < v.len()
        invariant
            0 <= k <= v.len(),
            res.len() == k,
            m == mp,
            mp <= 0x8000_0000_0000_0000,
            seq_value(res@) + carry * word_pow(k as nat) == seq_value(v@.take(k as int)) * mp,
        decreases v.len() - k,
    {
        let x = v[k];
        proof {
            assert((x as u128) * (m as u128) <= 0x7fff_ffff_ffff_ffff_8000_0000_0000_0000u128)
                by (nonlinear_arith)
                requires
                    x <= 0xffff_ffff_ffff_ffffu64,
                    m <= 0x8000_0000_0000_0000u64,
            ;
        }
        let w: u128 = (x as u128) * (m as u128) + carry as u128;
        let (hi, lo) = split(w);
        proof {
            let p = word_pow(k as nat);
            lemma_word_pow_succ(k as nat);
            lemma_value_push(res@, lo);
            lemma_value_take_succ(v@, k as int);
            assert(w == lo + hi * 0x1_0000_0000_0000_0000);
            assert((lo + hi * 0x1_0000_0000_0000_0000) * p == lo * p + hi * (p
                * 0x1_0000_0000_0000_0000)) by (nonlinear_arith);
            assert((x * m + carry) * p == carry * p + x * p * m) by (nonlinear_arith);
            let vk = seq_value(v@.take(k as int));
            assert((vk + x * p) * m == vk * m + x * p * m) by (nonlinear_arith);
        }
        res.push(lo);
        carry = hi;
        k = k + 1;
    }
    proof {
        assert(v@.take(k as int) =~= v@);
        lemma_value_push(res@, carry);
    }
    res.push(carry);
    res
}

/// Shift left (<<) without extending the slice size: bits shifted out of
/// the last word are lost.
pub fn sliced_shl(val: &[u64], lshift: usize) -> (res: Vec<u64>)
    ensures
        res.len() == val.len(),
        seq_value(res@) == (seq_value(val@) * pow2(lshift as nat)) % word_pow(val.len() as nat),
{
    let shift_word = lshift / 64;
    let shift_rem = (lshift % 64) as u32;
    let len = val.len();
    // Whole-word shift
    let ghost u = Seq::new(
        (shift_word + len) as nat,
        |i: int| if i < shift_word { 0u64 } else { val@[i - shift_word] },
    );
    let mut t: Vec<u64> = Vec::new();
    let mut k: usize = 0;
    while k < len
        invariant
            0 <= k <= len,
            len == val.len(),
            u == Seq::new(
                (shift_word + len) as nat,
                |i: int| if i < shift_word { 0u64 } else { val@[i - shift_word] },
            ),
            t@ == u.take(k as int),
        decreases len - k,
    {
        if k < shift_word {
            t.push(0u64);
        } else {
            t.push(val[k - shift_word]);
        }
        proof {
            assert(t@ =~= u.take((k + 1) as int));
        }
        k = k + 1;
    }
    proof {
        lemma_value_split(u, shift_word as int);
        lemma_value_zeros(u.take(shift_word as int));
        assert(u.skip(shift_word as int) =~= val@);
        lemma_value_skip(u, len as int);
        assert(t@ =~= u.take(len as int));
    }
    // Bit shift inside words, then drop the word that overflowed
    let mut e = shl_bits_exact(t.as_slice(), shift_rem);
    let ghost full = e@;
    e.truncate(len);
    proof {
        assert(e@ =~= full.take(len as int));
        lemma_value_skip(full, len as int);
        let pl = word_pow(len as nat) as int;
        let psw = word_pow(shift_word as nat) as int;
        let pr = pow2(shift_rem as nat) as int;
        let vv = seq_value(val@) as int;
        lemma_word_pow_pos(len as nat);
        vstd::arithmetic::div_mod::lemma_mul_mod_noop_left(vv * psw, pr, pl);
        lemma_pow2_adds(64 * shift_word as nat, shift_rem as nat);
        assert(64 * shift_word + shift_rem == lshift);
        assert((vv * psw) * pr == vv * (psw * pr)) by (nonlinear_arith);
    }
    e
}

/// Shift right (>>) without shrinking the slice size.
pub fn sliced_shr(val: &[u64], rshift: usize) -> (res: Vec<u64>)
    ensures
        res.len() == val.len(),
        seq_value(res@) == seq_value(val@) / pow2(rshift as nat),
{
    let shift_word = rshift / 64;
    let shift_rem = (rshift % 64) as u32;
    let len = val.len();
    // Whole-word shift
    let ghost u = Seq::new(
        len as nat,
        |i: int| if i + shift_word < len { val@[i + shift_word] } else { 0u64 },
    );
    let mut t: Vec<u64> = Vec::new();
    let mut k: usize = 0;
    while k < len
        invariant
            0 <= k <= len,
            len == val.len(),
            u == Seq::new(
                len as nat,
                |i: int| if i + shift_word < len { val@[i + shift_word] } else { 0u64 },
            ),
            t@ == u.take(k as int),
        decreases len - k,
    {
        if shift_word < len - k {
            t.push(val[k + shift_word]);
        } else {
            t.push(0u64);
        }
        proof {
            assert(t@ =~= u.take((k + 1) as int));
        }
        k = k + 1;
    }
    proof {
        assert(t@ =~= u);
        lemma_word_pow_pos(shift_word as nat);
        if shift_word <= len {
            lemma_value_skip(val@, shift_word as int);
            let hi = val@.skip(shift_word as int);
            let h = hi.len() as int;
            lemma_value_split(u, h);
            assert(u.take(h) =~= hi);
            let z = u.skip(h);
            assert forall|i: int| 0 <= i < z.len() implies z[i] == 0 by {
                assert(z[i] == u[h + i]);
            }
            lemma_value_zeros(z);
            assert(seq_value(t@) == seq_value(hi));
        } else {
            lemma_value_zeros(u);
            lemma_value_bound(val@);
            lemma_word_pow_le(len as nat, shift_word as nat);
            vstd::arithmetic::div_mod::lemma_basic_div(
                seq_value(val@) as int,
                word_pow(shift_word as nat) as int,
            );
        }
        assert(seq_value(t@) == seq_value(val@) / word_pow(shift_word as nat));
        lemma_pow2_adds(64 * shift_word as nat, shift_rem as nat);
        lemma_pow2_pos(shift_rem as nat);
        assert(64 * shift_word + shift_rem == rshift);
        vstd::arithmetic::div_mod::lemma_div_denominator(
            seq_value(val@) as int,
            word_pow(shift_word as nat) as int,
            pow2(shift_rem as nat) as int,
        );
    }
    if shift_rem == 0 {
        proof {
            assert(pow2(0) == 1) by {
                vstd::arithmetic::power2::lemma2_to64();
            }
        }
        t
    } else {
        let mut e = shl_bits_exact(t.as_slice(), 64 - shift_rem);
        let ghost full = e@;
        let _dropped = e.remove(0);
        proof {
            assert(e@ =~= full.skip(1));
            lemma_value_skip(full, 1);
            crate::wordseq::lemma_word_pow_one();
            let sr = shift_rem as nat;
            lemma_pow2_adds((64 - sr) as nat, sr);
            lemma_pow2_pos((64 - sr) as nat);
            assert(((64 - sr) as nat) + sr == 64);
            assert(word_pow(1) == pow2(64));
            vstd::arithmetic::div_mod::lemma_div_multiples_vanish_quotient(
                pow2((64 - sr) as nat) as int,
                seq_value(t@) as int,
                pow2(sr) as int,
            );
            vstd::arithmetic::mul::lemma_mul_is_commutative(
                seq_value(t@) as int,
                pow2((64 - sr) as nat) as int,
            );
        }
        e
    }
}

/// Number of words that hold a `w`-bit value.
pub open spec fn word_len(w: nat) -> nat {
    w / 64 + (if w % 64 != 0 { 1nat } else { 0nat })
}

/// Number of bits that a `UInt<w>` keeps: all `w` of them, that is the full
/// words below the most significant one and `w % 64` bits of the most
/// significant word (the whole word when `w` is a multiple of 64).
pub open spec fn kept_bits(w: nat) -> nat {
    w
}

/// Number of bits of the most significant word of a `w`-bit value.
pub open spec fn top_bits(w: nat) -> nat {
    if w % 64 == 0 { 64 } else { w % 64 }
}

/// Fixed sized unsigned integer.
///
/// Represents an arbitrary long unsigned integer with a fixed number of bits,
/// stored in a vector of `u64` words.
pub struct UInt<const W: usize>(Vec<u64>);

/// Low-bits mask of the most significant word.
proof fn lemma_msw_mask(msw: u64, r: u64)
    requires
        0 < r < 64,
    ensures
        msw & !((!0u64) << r) == msw as nat % pow2(r as nat),
{
    assert(!((!0u64) << r) + 1 == (1u64 << r)) by (bit_vector)
        requires
            0 < r < 64,
    ;
    vstd::bits::lemma_u64_pow2_no_overflow(r as nat);
    vstd::bits::lemma_u64_shl_is_mul(1u64, r);
    assert(vstd::bits::low_bits_mask(r as nat) == pow2(r as nat) - 1);
    assert((vstd::bits::low_bits_mask(r as nat) as u64) == !((!0u64) << r));
    vstd::bits::lemma_u64_low_bits_mask_is_mod(msw, r as nat);
    assert((pow2(r as nat) as u64) as nat == pow2(r as nat));
}

/// Truncating the high word of a value to its low bits.
proof fn lemma_mod_high_word(p: int, m: int, pw: int, q: int)
    requires
        0 <= p < pw,
        0 <= m,
        0 < q,
    ensures
        (p + m * pw) % (pw * q) == p + (m % q) * pw,
        m % q == m <==> p + (m % q) * pw == p + m * pw,
{
    let r = m % q;
    let d = m / q;
    vstd::arithmetic::div_mod::lemma_fundamental_div_mod(m, q);
    vstd::arithmetic::div_mod::lemma_mod_bound(m, q);
    assert(p + m * pw == (pw * q) * d + (p + r * pw)) by (nonlinear_arith)
        requires
            m == q * d + r,
    ;
    vstd::arithmetic::mul::lemma_mul_inequality(r, q - 1, pw);
    vstd::arithmetic::mul::lemma_mul_is_distributive_sub_other_way(pw, q, 1);
    vstd::arithmetic::mul::lemma_mul_is_commutative(pw, q);
    assert(p + r * pw < pw * q);
    assert(0 <= r * pw) by (nonlinear_arith)
        requires
            0 <= r,
            0 < pw,
    ;
    assert(pw * q != 0 && p + m * pw == d * (pw * q) + (p + r * pw)) by (nonlinear_arith)
        requires
            0 < pw,
            0 < q,
            p + m * pw == (pw * q) * d + (p + r * pw),
    ;
    vstd::arithmetic::div_mod::lemma_fundamental_div_mod_converse(p + m * pw, pw * q, d, p + r * pw);
    if r != m {
        assert(r * pw != m * pw) by (nonlinear_arith)
            requires
                r != m,
                0 < pw,
        ;
    }
}

/// A width splits into its full words and the bits of its top word.
proof fn lemma_width_split(w: nat)
    requires
        w > 0,
    ensures
        word_len(w) >= 1,
        w == 64 * ((word_len(w) - 1) as nat) + top_bits(w),
        0 < top_bits(w) <= 64,
        w <= 64 * word_len(w),
{
    vstd::arithmetic::div_mod::lemma_fundamental_div_mod(w as int, 64);
}

/// The kept bits of a width divide the weight of its words.
proof fn lemma_kept_bits_divide(w: nat, x: int)
    requires
        w > 0,
    ensures
        0 < pow2(kept_bits(w)),
        (x % (word_pow(word_len(w)) as int)) % (pow2(kept_bits(w)) as int) == x % (pow2(
            kept_bits(w),
        ) as int),
        pow2(kept_bits(w)) <= word_pow(word_len(w)),
        word_pow((word_len(w) - 1) as nat) <= pow2(kept_bits(w)),
{
    lemma_width_split(w);
    let t = word_len(w);
    let rest = (64 * t - w) as nat;
    assert(w + rest == 64 * t);
    lemma_pow2_adds(w, rest);
    lemma_pow2_pos(w);
    lemma_pow2_pos(rest);
    vstd::arithmetic::div_mod::lemma_mod_mod(x, pow2(w) as int, pow2(rest) as int);
    vstd::arithmetic::mul::lemma_mul_inequality(1, pow2(rest) as int, pow2(w) as int);
    lemma_pow2_adds(64 * ((t - 1) as nat), top_bits(w));
    lemma_pow2_pos(top_bits(w));
    lemma_pow2_pos(64 * ((t - 1) as nat));
    vstd::arithmetic::mul::lemma_mul_inequality(
        1,
        pow2(top_bits(w)) as int,
        pow2(64 * ((t - 1) as nat)) as int,
    );
}

/// Reduce words to a `W`-bit value on exactly `word_len(W)` words: a short
/// vector is extended with zero words, a long one loses its high words and
/// the bits of its top word above the width. Reports whether the value
/// changed.
fn normalize_words<const W: usize>(v: &mut Vec<u64>) -> (overflow: bool)
    requires
        W > 0,
    ensures
        final(v)@.len() == word_len(W as nat),
        seq_value(final(v)@) == seq_value(old(v)@) % pow2(W as nat),
        overflow == (seq_value(final(v)@) != seq_value(old(v)@)),
{
    let trgt_len = W / 64 + if W % 64 != 0 { 1 } else { 0 };
    let msw_rem = W % 64;
    let ghost v0 = seq_value(v@);
    proof {
        lemma_width_split(W as nat);
    }
    // Extend a short vector with zero words
    while v.len() < trgt_len
        invariant
            trgt_len == word_len(W as nat),
            trgt_len >= 1,
            seq_value(v@) == v0,
        decreases trgt_len - v.len(),
    {
        proof {
            crate::wordseq::lemma_value_push(v@, 0u64);
        }
        v.push(0u64);
    }
    let ghost old_words = v@;
    // Drop the words above the width, noting if any bit is lost
    let mut dropped = false;
    let mut k = trgt_len;
    while k < v.len()
        invariant
            trgt_len <= k <= v.len(),
            v@ == old_words,
            dropped == exists|m: int| trgt_len <= m < k && old_words[m] != 0,
        decreases v.len() - k,
    {
        if v[k] != 0 {
            dropped = true;
        }
        k = k + 1;
    }
    v.truncate(trgt_len);
    let ghost low_words = v@;
    let msw = v[trgt_len - 1];
    let masked = if msw_rem == 0 {
        msw
    } else {
        msw & !((!0u64) << (msw_rem as u64))
    };
    v.set(trgt_len - 1, masked);
    proof {
        let t = trgt_len as int;
        let ov = seq_value(old_words);
        // Dropping the high words
        assert(low_words =~= old_words.take(t));
        lemma_value_split(old_words, t);
        let hi = old_words.skip(t);
        if dropped {
            let m = choose|m: int| t <= m < old_words.len() && old_words[m] != 0;
            assert(hi[m - t] != 0);
            if seq_value(hi) == 0 {
                lemma_word_pow_zero();
                lemma_value_high_zero(hi, 0);
            }
        } else {
            assert forall|i: int| 0 <= i < hi.len() implies hi[i] == 0 by {
                assert(hi[i] == old_words[t + i]);
            }
            lemma_value_zeros(hi);
        }
        lemma_word_pow_pos(t as nat);
        vstd::arithmetic::mul::lemma_mul_nonnegative(
            seq_value(hi) as int,
            word_pow(t as nat) as int,
        );
        if seq_value(hi) != 0 {
            vstd::arithmetic::mul::lemma_mul_inequality(
                1,
                seq_value(hi) as int,
                word_pow(t as nat) as int,
            );
        }
        // Masking the most significant word
        let pre = low_words.take(t - 1);
        lemma_value_split(low_words, t - 1);
        assert(low_words.skip(t - 1) =~= seq![msw]);
        crate::wordseq::lemma_value_single(msw);
        lemma_word_pow_zero();
        let nw = v@;
        lemma_value_split(nw, t - 1);
        assert(nw.take(t - 1) =~= pre);
        assert(nw.skip(t - 1) =~= seq![masked]);
        crate::wordseq::lemma_value_single(masked);
        let tb = top_bits(W as nat);
        lemma_pow2_pos(tb);
        if msw_rem == 0 {
            lemma2_to64_rest();
            vstd::arithmetic::div_mod::lemma_small_mod(msw as nat, pow2(64));
        } else {
            lemma_msw_mask(msw, msw_rem as u64);
        }
        assert(masked == msw as nat % pow2(tb));
        lemma_value_bound(pre);
        let pw = word_pow((t - 1) as nat) as int;
        let q = pow2(tb) as int;
        lemma_mod_high_word(seq_value(pre) as int, msw as int, pw, q);
        assert(seq_value(low_words) == seq_value(pre) + msw * pw);
        assert(seq_value(nw) == seq_value(pre) + masked * pw);
        vstd::arithmetic::div_mod::lemma_mod_bound(msw as int, q);
        vstd::arithmetic::div_mod::lemma_mod_decreases(msw as nat, q as nat);
        vstd::arithmetic::mul::lemma_mul_inequality(masked as int, msw as int, pw);
        assert(ov == seq_value(low_words) + seq_value(hi) * word_pow(t as nat));
        // Relating the width to the word weights
        lemma_pow2_adds(64 * ((t - 1) as nat), tb);
        assert(pow2(W as nat) == pw * q);
        let lv = seq_value(low_words) as int;
        assert(lv == (ov as int) % (word_pow(t as nat) as int)) by {
            lemma_value_skip(old_words, t);
        }
        lemma_kept_bits_divide(W as nat, ov as int);
    }
    dropped || masked != msw
}

/// Whatever it was built from, an integer of width `w` is below 2^w.
proof fn lemma_mod_width(w: nat, v: nat)
    ensures
        0 < pow2(w),
        v % pow2(w) < pow2(w),
        v < pow2(w) ==> v % pow2(w) == v,
{
    lemma_pow2_pos(w);
    vstd::arithmetic::div_mod::lemma_mod_bound(v as int, pow2(w) as int);
    if v < pow2(w) {
        vstd::arithmetic::div_mod::lemma_small_mod(v, pow2(w));
    }
}

impl<const W: usize> UInt<W> {
    /// The words of the integer, least significant first.
    pub closed spec fn words(&self) -> Seq<u64> {
        self.0@
    }

    /// The value of the integer.
    pub open spec fn value(&self) -> nat {
        seq_value(self.words())
    }

    /// An integer holds exactly the words of its width, and no bit above it.
    #[verifier::type_invariant]
    closed spec fn fits(&self) -> bool {
        &&& self.0@.len() == word_len(W as nat)
        &&& seq_value(self.0@) < pow2(W as nat)
    }

    /// Build an integer from its words: the value modulo 2^W, on exactly the
    /// words of the width.
    pub fn from_vec(vec: Vec<u64>) -> (r: Self)
        requires
            W > 0,
        ensures
            r.words().len() == word_len(W as nat),
            r.value() == seq_value(vec@) % pow2(kept_bits(W as nat)),
            r.value() < pow2(kept_bits(W as nat)),
    {
        let mut v = vec;
        let _ovflw = normalize_words::<W>(&mut v);
        proof {
            lemma_mod_width(W as nat, seq_value(vec@));
        }
        UInt(v)
    }

    /// Change the number of bits of the represented integer: the value
    /// modulo 2^T on the words of `T` bits; widening keeps the value.
    pub fn resize<const T: usize>(&self) -> (r: UInt<T>)
        requires
            T > 0,
        ensures
            r.words().len() == word_len(T as nat),
            r.value() == self.value() % pow2(kept_bits(T as nat)),
            W <= T ==> r.value() == self.value(),
    {
        proof {
            use_type_invariant(self);
            if W <= T {
                lemma_pow2_pos(W as nat);
                lemma_pow2_adds(W as nat, (T - W) as nat);
                lemma_pow2_pos((T - W) as nat);
                vstd::arithmetic::mul::lemma_mul_inequality(1, pow2((T - W) as nat) as int, pow2(W as nat) as int);
                lemma_mod_width(T as nat, self.value());
            }
        }
        UInt::<T>::from_vec(self.0.clone())
    }

    /// Add two integers of the same width; the carry out of the kept bits is
    /// lost.
    pub fn add(self, rhs: Self) -> (r: Self)
        requires
            W > 0,
        ensures
            r.words().len() == word_len(W as nat),
            r.value() == (self.value() + rhs.value()) % pow2(kept_bits(W as nat)),
    {
        proof {
            use_type_invariant(&self);
            use_type_invariant(&rhs);
        }
        let r = UInt::from_vec(sliced_add(self.0.as_slice(), rhs.0.as_slice()));
        proof {
            lemma_kept_bits_divide(W as nat, (self.value() + rhs.value()) as int);
        }
        r
    }

    /// Subtract two integers of the same width, wrapping around on the
    /// kept bits.
    pub fn sub(self, rhs: Self) -> (r: Self)
        requires
            W > 0,
        ensures
            r.words().len() == word_len(W as nat),
            r.value() == (self.value() - rhs.value()) % (pow2(kept_bits(W as nat)) as int),
    {
        proof {
            use_type_invariant(&self);
            use_type_invariant(&rhs);
        }
        let v = sliced_sub(self.0.as_slice(), rhs.0.as_slice());
        proof {
            lemma_kept_bits_divide(W as nat, self.value() - rhs.value());
            lemma_word_pow_pos(v@.len() as nat);
        }
        UInt::from_vec(v)
    }

    /// Multiply two integers of the same width, keeping the low bits.
    pub fn mul(self, rhs: Self) -> (r: Self)
        requires
            W > 0,
        ensures
            r.words().len() == word_len(W as nat),
            r.value() == (self.value() * rhs.value()) % pow2(kept_bits(W as nat)),
    {
        proof {
            use_type_invariant(&self);
            use_type_invariant(&rhs);
            lemma_width_split(W as nat);
        }
        let r = UInt::from_vec(sliced_mul(self.0.as_slice(), rhs.0.as_slice()));
        proof {
            lemma_kept_bits_divide(W as nat, (self.value() * rhs.value()) as int);
        }
        r
    }

    /// Shift left, dropping the bits shifted above the kept bits.
    pub fn shl(self, rhs: usize) -> (r: Self)
        requires
            W > 0,
        ensures
            r.words().len() == word_len(W as nat),
            r.value() == (self.value() * pow2(rhs as nat)) % pow2(kept_bits(W as nat)),
    {
        proof {
            use_type_invariant(&self);
        }
        let r = UInt::from_vec(sliced_shl(self.0.as_slice(), rhs));
        proof {
            lemma_kept_bits_divide(W as nat, (self.value() * pow2(rhs as nat)) as int);
        }
        r
    }

    /// Shift right.
    pub fn shr(self, rhs: usize) -> (r: Self)
        requires
            W > 0,
        ensures
            r.words().len() == word_len(W as nat),
            r.value() == self.value() / pow2(rhs as nat),
    {
        proof {
            use_type_invariant(&self);
        }
        let r = UInt::from_vec(sliced_shr(self.0.as_slice(), rhs));
        proof {
            lemma_pow2_pos(rhs as nat);
            vstd::arithmetic::div_mod::lemma_div_is_ordered_by_denominator(
                self.value() as int,
                1,
                pow2(rhs as nat) as int,
            );
            assert(self.value() / 1 == self.value());
            vstd::arithmetic::div_mod::lemma_small_mod(
                self.value() / pow2(rhs as nat),
                pow2(kept_bits(W as nat)),
            );
        }
        r
    }

    /// View the integer as a `u128` when it holds at most two words.
    pub fn _view_packed(&self) -> (r: Option<u128>)
        ensures
            self.words().len() <= 2 ==> r == Some(self.value() as u128),
            self.words().len() > 2 ==> r is None,
    {
        if self.0.len() <= 2 {
            let mut packed_val: u128 = 0;
            let mut i: usize = 0;
            while i < self.0.len()
                invariant
                    self.0.len() <= 2,
                    0 <= i <= self.0.len(),
                    packed_val == seq_value(self.0@.take(i as int)),
                decreases self.0.len() - i,
            {
                proof {
                    lemma_value_take_succ(self.0@, i as int);
                    lemma_value_bound(self.0@.take((i + 1) as int));
                    lemma_word_pow_le((i + 1) as nat, 2);
                    lemma_word_pow_succ(1);
                    crate::wordseq::lemma_word_pow_one();
                    lemma_word_pow_zero();
                    crate::wordseq::lemma_word_pow_adds(1, 1);
                }
                let weight: u128 = if i == 0 { 1 } else { 0x1_0000_0000_0000_0000 };
                packed_val = packed_val + (self.0[i] as u128) * weight;
                i = i + 1;
            }
            proof {
                assert(self.0@.take(i as int) =~= self.0@);
            }
            Some(packed_val)
        } else {
            None
        }
    }
}

/// A vector of `n` zero words.
fn zero_words(n: usize) -> (res: Vec<u64>)
    ensures
        res.len() == n,
        forall|i: int| 0 <= i < n ==> res@[i] == 0,
{
    let mut res: Vec<u64> = Vec::new();
    let mut i: usize = 0;
    while i < n
        invariant
            0 <= i <= n,
            res.len() == i,
            forall|k: int| 0 <= k < i ==> res@[k] == 0,
        decreases n - i,
    {
        res.push(0u64);
        i = i + 1;
    }
    res
}

/// Number of words of a difference.
pub open spec fn sub_len(la: nat, lb: nat) -> nat {
    let lt = if lb >= 1 { lb } else { 1 };
    if la >= lt { la } else { lt }
}

/// On full width integers, subtracting `b` undoes adding it: the wrapping
/// sum minus `b`, wrapped again, is the integer that `b` was added to.
pub proof fn law_add_then_sub<const W: usize>(a: UInt<W>, b: UInt<W>)
    requires
        a.value() < pow2(kept_bits(W as nat)),
    ensures
        ((((a.value() + b.value()) % pow2(kept_bits(W as nat))) as int) - b.value()) % (pow2(
            kept_bits(W as nat),
        ) as int) == a.value(),
{
    let m = pow2(kept_bits(W as nat)) as int;
    lemma_pow2_pos(kept_bits(W as nat));
    let s = a.value() + b.value();
    vstd::arithmetic::div_mod::lemma_fundamental_div_mod(s as int, m);
    let q = (s as int) / m;
    let r = (s as int) % m;
    assert(r - b.value() == a.value() + m * (-q)) by (nonlinear_arith)
        requires
            s == m * q + r,
            s == a.value() + b.value(),
    ;
    vstd::arithmetic::div_mod::lemma_mod_multiples_vanish(-q, a.value() as int, m);
    vstd::arithmetic::div_mod::lemma_small_mod(a.value() as nat, m as nat);
}

} // verus!
