//! The numeric value of a little-endian sequence of 64-bit words, and the
//! facts about it that the word-by-word arithmetic relies on.

use vstd::prelude::*;
use vstd::arithmetic::power2::{pow2, lemma_pow2_adds, lemma_pow2_pos, lemma2_to64, lemma2_to64_rest};
use vstd::arithmetic::mul::{
    lemma_mul_is_distributive_add,
    lemma_mul_is_associative,
    lemma_mul_is_commutative,
    lemma_mul_inequality,
    lemma_mul_nonnegative,
};
use vstd::arithmetic::div_mod::{
    lemma_fundamental_div_mod_converse,
};

verus! {

/// 2^(64 * n): the weight of the word at index `n`.
pub open spec fn word_pow(n: nat) -> nat {
    pow2(64 * n)
}

/// The value of a little-endian sequence of words.
pub open spec fn seq_value(s: Seq<u64>) -> nat
    decreases s.len(),
{
    if s.len() == 0 {
        0
    } else {
        seq_value(s.drop_last()) + (s.last() as nat) * word_pow((s.len() - 1) as nat)
    }
}

pub proof fn lemma_word_pow_pos(n: nat)
    ensures
        word_pow(n) > 0,
{
    lemma_pow2_pos(64 * n);
}

pub proof fn lemma_word_pow_zero()
    ensures
        word_pow(0) == 1,
{
    lemma2_to64();
}

pub proof fn lemma_word_pow_one()
    ensures
        word_pow(1) == 0x1_0000_0000_0000_0000,
{
    lemma2_to64_rest();
}

pub proof fn lemma_word_pow_adds(a: nat, b: nat)
    ensures
        word_pow(a + b) == word_pow(a) * word_pow(b),
{
    assert(64 * (a + b) == 64 * a + 64 * b) by (nonlinear_arith);
    lemma_pow2_adds(64 * a, 64 * b);
}

pub proof fn lemma_word_pow_succ(n: nat)
    ensures
        word_pow(n + 1) == word_pow(n) * 0x1_0000_0000_0000_0000,
{
    lemma_word_pow_adds(n, 1);
    lemma_word_pow_one();
}

pub proof fn lemma_word_pow_le(a: nat, b: nat)
    requires
        a <= b,
    ensures
        word_pow(a) <= word_pow(b),
{
    lemma_word_pow_adds(a, (b - a) as nat);
    lemma_word_pow_pos(a);
    lemma_word_pow_pos((b - a) as nat);
    lemma_mul_inequality(1, word_pow((b - a) as nat) as int, word_pow(a) as int);
    lemma_mul_is_commutative(word_pow(a) as int, word_pow((b - a) as nat) as int);
}

/// Every value fits in as many words as the sequence holds.
pub proof fn lemma_value_bound(s: Seq<u64>)
    ensures
        seq_value(s) < word_pow(s.len()),
    decreases s.len(),
{
    if s.len() == 0 {
        lemma_word_pow_zero();
    } else {
        let n = (s.len() - 1) as nat;
        lemma_value_bound(s.drop_last());
        lemma_word_pow_succ(n);
        let p = word_pow(n);
        let l = s.last();
        assert(l * p <= 0xffff_ffff_ffff_ffff * p) by {
            lemma_mul_inequality(l as int, 0xffff_ffff_ffff_ffff, p as int);
        }
    }
}

/// A single word is worth itself.
pub proof fn lemma_value_single(x: u64)
    ensures
        seq_value(seq![x]) == x,
{
    assert(seq![x].drop_last() =~= Seq::<u64>::empty());
    assert(seq![x].len() == 1 && seq![x].last() == x);
    lemma_word_pow_zero();
    assert(seq_value(seq![x]) == seq_value(Seq::<u64>::empty()) + (x as nat) * word_pow(0));
}

/// Appending a word adds it with the weight of its index.
pub proof fn lemma_value_push(s: Seq<u64>, x: u64)
    ensures
        seq_value(s.push(x)) == seq_value(s) + x * word_pow(s.len()),
{
    assert(s.push(x).drop_last() =~= s);
}

/// The value of a prefix grows by the next word.
pub proof fn lemma_value_take_succ(s: Seq<u64>, i: int)
    requires
        0 <= i < s.len(),
    ensures
        seq_value(s.take(i + 1)) == seq_value(s.take(i)) + s[i] * word_pow(i as nat),
{
    assert(s.take(i + 1) =~= s.take(i).push(s[i]));
    lemma_value_push(s.take(i), s[i]);
}

/// A sequence splits at any index into a low part and a weighted high part.
pub proof fn lemma_value_split(s: Seq<u64>, k: int)
    requires
        0 <= k <= s.len(),
    ensures
        seq_value(s) == seq_value(s.take(k)) + seq_value(s.skip(k)) * word_pow(k as nat),
    decreases s.len(),
{
    if s.len() == k {
        assert(s.take(k) =~= s);
        assert(s.skip(k) =~= Seq::<u64>::empty());
        assert(seq_value(s.skip(k)) == 0);
    } else {
        let d = s.drop_last();
        let n = (s.len() - 1) as nat;
        lemma_value_split(d, k);
        assert(d.take(k) =~= s.take(k));
        let hi = s.skip(k);
        assert(hi.drop_last() =~= d.skip(k));
        assert(hi.last() == s.last());
        // seq_value(hi) = seq_value(d.skip(k)) + last * word_pow(n - k)
        lemma_word_pow_adds(k as nat, (n - k) as nat);
        let pk = word_pow(k as nat);
        let pr = word_pow((n - k) as nat);
        let vd = seq_value(d.skip(k));
        let l = s.last() as int;
        assert(seq_value(hi) == vd + l * pr);
        assert((k as nat) + ((n - k) as nat) == n);
        assert(word_pow(n) == pk * pr);
        assert(seq_value(s) == seq_value(d) + l * word_pow(n));
        assert(seq_value(d) == seq_value(s.take(k)) + vd * pk);
        assert((vd + l * pr) * pk == vd * pk + l * (pk * pr)) by (nonlinear_arith);
        assert(l * word_pow(n) == l * (pk * pr));
        assert(seq_value(s) == seq_value(s.take(k)) + seq_value(hi) * pk);
    }
}

/// Dropping the low `k` words keeps the quotient by their weight.
pub proof fn lemma_value_skip(s: Seq<u64>, k: int)
    requires
        0 <= k <= s.len(),
    ensures
        seq_value(s.skip(k)) == seq_value(s) / word_pow(k as nat),
        seq_value(s.take(k)) == seq_value(s) % word_pow(k as nat),
{
    lemma_value_split(s, k);
    lemma_value_bound(s.take(k));
    lemma_word_pow_pos(k as nat);
    let p = word_pow(k as nat) as int;
    lemma_mul_is_commutative(seq_value(s.skip(k)) as int, p);
    lemma_fundamental_div_mod_converse(
        seq_value(s) as int,
        p,
        seq_value(s.skip(k)) as int,
        seq_value(s.take(k)) as int,
    );
}

/// Replacing one word changes the value by the weighted difference.
pub proof fn lemma_value_update(s: Seq<u64>, k: int, x: u64)
    requires
        0 <= k < s.len(),
    ensures
        seq_value(s.update(k, x)) + s[k] * word_pow(k as nat) == seq_value(s) + x * word_pow(
            k as nat,
        ),
    decreases s.len(),
{
    let u = s.update(k, x);
    if k == s.len() - 1 {
        assert(u.drop_last() =~= s.drop_last());
    } else {
        assert(u.drop_last() =~= s.drop_last().update(k, x));
        lemma_value_update(s.drop_last(), k, x);
    }
}

/// The value of a sequence of zero words.
pub proof fn lemma_value_zeros(s: Seq<u64>)
    requires
        forall|i: int| 0 <= i < s.len() ==> s[i] == 0,
    ensures
        seq_value(s) == 0,
    decreases s.len(),
{
    if s.len() > 0 {
        lemma_value_zeros(s.drop_last());
    }
}

/// Each word contributes at most the whole value.
pub proof fn lemma_value_word_le(s: Seq<u64>, m: int)
    requires
        0 <= m < s.len(),
    ensures
        s[m] * word_pow(m as nat) <= seq_value(s),
{
    lemma_value_split(s, m);
    let t = s.skip(m);
    lemma_value_split(t, 1);
    assert(t.take(1) =~= seq![s[m]]);
    assert(seq![s[m]].drop_last() =~= Seq::<u64>::empty());
    lemma_word_pow_zero();
    lemma_word_pow_pos(1);
    let p = word_pow(m as nat) as int;
    let v1 = seq_value(t.skip(1)) as int;
    lemma_mul_nonnegative(v1, word_pow(1) as int);
    assert(seq_value(t) >= s[m]);
    lemma_mul_inequality(s[m] as int, seq_value(t) as int, p);
}

/// A value below the weight of index `k` has no word set from `k` on.
pub proof fn lemma_value_high_zero(s: Seq<u64>, k: nat)
    requires
        seq_value(s) < word_pow(k),
    ensures
        forall|m: int| k <= m < s.len() ==> s[m] == 0,
{
    assert forall|m: int| k <= m < s.len() implies s[m] == 0 by {
        if s[m] != 0 {
            lemma_value_word_le(s, m);
            lemma_word_pow_le(k, m as nat);
            lemma_mul_inequality(1, s[m] as int, word_pow(m as nat) as int);
        }
    }
}

} // verus!
