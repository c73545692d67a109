//! The mathematical model of a bit stream: sequences of bits, least significant first,
//! and the integers they stand for.

use vstd::prelude::*;
use vstd::arithmetic::power2::{pow2, lemma_pow2_pos, lemma_pow2_unfold, lemma_pow2_adds, lemma2_to64};
use vstd::arithmetic::div_mod::{
    lemma_mod_breakdown,
    lemma_fundamental_div_mod_converse,
    lemma_div_denominator,
    lemma_small_mod,
    lemma_mod_pos_bound,
    lemma_fundamental_div_mod,
    lemma_div_pos_is_pos,
};

verus! {

/// Bit `i` of the natural number `v`.
pub open spec fn bit_of(v: nat, i: nat) -> bool {
    (v / pow2(i)) % 2 == 1
}

/// The `n` lowest bits of `v`, least significant first.
pub open spec fn bits_of(v: nat, n: nat) -> Seq<bool> {
    Seq::new(n, |i: int| bit_of(v, i as nat))
}

/// The residue of `v` modulo `2^n`: the unsigned number whose `n` bits are the
/// two's-complement representation of `v`.
pub open spec fn twos_complement(v: int, n: nat) -> nat {
    (v % (pow2(n) as int)) as nat
}

/// The unsigned number that a sequence of bits (least significant first) stands for.
pub open spec fn value_of(s: Seq<bool>) -> int
    decreases s.len(),
{
    if s.len() == 0 {
        0
    } else {
        value_of(s.drop_last()) + if s.last() {
            pow2((s.len() - 1) as nat) as int
        } else {
            0
        }
    }
}

/// The signed number that a sequence of bits stands for in two's complement.
pub open spec fn signed_value_of(s: Seq<bool>) -> int {
    if s.len() > 0 && s.last() {
        value_of(s) - pow2(s.len()) as int
    } else {
        value_of(s)
    }
}

/// The bits of a sequence of 32-bit words, each word least significant bit first.
pub open spec fn words_bits(ws: Seq<u32>) -> Seq<bool> {
    Seq::new(32 * ws.len(), |i: int| bit_of(ws[i / 32] as nat, (i % 32) as nat))
}

/// `n` zero bits.
pub open spec fn zero_bits(n: nat) -> Seq<bool> {
    Seq::new(n, |i: int| false)
}

// ---------------------------------------------------------------------------------------------
// Laws of the model
// ---------------------------------------------------------------------------------------------

/// The bits of `v` read back as an unsigned number give `v` modulo `2^n`.
pub proof fn lemma_value_of_bits(v: nat, n: nat)
    ensures
        value_of(bits_of(v, n)) == v % pow2(n),
    decreases n,
{
    lemma_pow2_pos(n);
    if n == 0 {
        assert(pow2(0) == 1) by { lemma2_to64(); }
        assert(bits_of(v, 0) =~= Seq::<bool>::empty());
    } else {
        let m = (n - 1) as nat;
        lemma_value_of_bits(v, m);
        assert(bits_of(v, n).drop_last() =~= bits_of(v, m));
        lemma_pow2_pos(m);
        lemma_pow2_unfold(n);
        lemma_mod_breakdown(v as int, pow2(m) as int, 2);
        lemma_div_pos_is_pos(v as int, pow2(m) as int);
        lemma_mod_pos_bound((v / pow2(m)) as int, 2);
        let s = bits_of(v, n);
        assert(value_of(s) == value_of(s.drop_last()) + if s.last() { pow2(m) as int } else { 0 });
        assert(s.last() == bit_of(v, m));
        assert(v % pow2(n) == pow2(m) * ((v / pow2(m)) % 2) + v % pow2(m));
    }
}

/// Unsigned round trip: the `n` bits of a number below `2^n` read back as that number.
pub proof fn lemma_unsigned_round_trip(v: nat, n: nat)
    requires
        v < pow2(n),
    ensures
        value_of(bits_of(v, n)) == v,
{
    lemma_value_of_bits(v, n);
    lemma_small_mod(v, pow2(n));
}

/// A sequence of bits stands for a number in `[0, 2^len)`.
pub proof fn lemma_value_of_bounds(s: Seq<bool>)
    ensures
        0 <= value_of(s) < pow2(s.len()),
    decreases s.len(),
{
    if s.len() == 0 {
        assert(pow2(0) == 1) by { lemma2_to64(); }
    } else {
        lemma_value_of_bounds(s.drop_last());
        lemma_pow2_unfold(s.len());
        lemma_pow2_pos((s.len() - 1) as nat);
    }
}

/// The top bit of a non-empty sequence is set exactly when its value reaches `2^(len-1)`.
pub proof fn lemma_top_bit(s: Seq<bool>)
    requires
        s.len() > 0,
    ensures
        s.last() <==> value_of(s) >= pow2((s.len() - 1) as nat),
        signed_value_of(s) == if value_of(s) >= pow2((s.len() - 1) as nat) {
            value_of(s) - pow2(s.len())
        } else {
            value_of(s)
        },
{
    lemma_value_of_bounds(s.drop_last());
    lemma_pow2_pos((s.len() - 1) as nat);
}

/// The two's-complement residue of a number in `[-2^(n-1), 2^(n-1))`.
pub proof fn lemma_twos_complement_range(v: int, n: nat)
    requires
        n > 0,
        -(pow2((n - 1) as nat) as int) <= v < pow2((n - 1) as nat),
    ensures
        twos_complement(v, n) == if v < 0 { v + pow2(n) } else { v },
        twos_complement(v, n) < pow2(n),
{
    lemma_pow2_unfold(n);
    lemma_pow2_pos(n);
    if v < 0 {
        lemma_fundamental_div_mod_converse(v, pow2(n) as int, -1, v + pow2(n));
    } else {
        lemma_fundamental_div_mod_converse(v, pow2(n) as int, 0, v);
    }
}

/// Signed round trip: the `n`-bit two's-complement bits of a number in
/// `[-2^(n-1), 2^(n-1))` read back, as a signed number, as that number.
pub proof fn lemma_signed_round_trip(v: int, n: nat)
    requires
        n > 0,
        -(pow2((n - 1) as nat) as int) <= v < pow2((n - 1) as nat),
    ensures
        signed_value_of(bits_of(twos_complement(v, n), n)) == v,
{
    lemma_twos_complement_range(v, n);
    let t = twos_complement(v, n);
    lemma_unsigned_round_trip(t, n);
    lemma_top_bit(bits_of(t, n));
    lemma_pow2_unfold(n);
}

/// The value of two concatenated sequences.
pub proof fn lemma_value_of_append(a: Seq<bool>, b: Seq<bool>)
    ensures
        value_of(a + b) == value_of(a) + pow2(a.len()) * value_of(b),
    decreases b.len(),
{
    if b.len() == 0 {
        assert(a + b =~= a);
    } else {
        lemma_value_of_append(a, b.drop_last());
        assert((a + b).drop_last() =~= a + b.drop_last());
        lemma_pow2_adds(a.len(), (b.len() - 1) as nat);
        vstd::arithmetic::mul::lemma_mul_is_distributive_add(
            pow2(a.len()) as int,
            value_of(b.drop_last()),
            if b.last() { pow2((b.len() - 1) as nat) as int } else { 0 },
        );
    }
}

/// Splitting the bits of a number: the low `a` bits, then the bits of the quotient by `2^a`.
pub proof fn lemma_bits_split(v: nat, a: nat, b: nat)
    ensures
        bits_of(v, a + b) =~= bits_of(v, a) + bits_of(v / pow2(a), b),
{
    assert forall|i: int| a <= i < a + b implies #[trigger] bit_of(v, i as nat) == bit_of(
        v / pow2(a),
        (i - a) as nat,
    ) by {
        lemma_pow2_pos(a);
        lemma_pow2_pos((i - a) as nat);
        lemma_pow2_adds(a, (i - a) as nat);
        lemma_div_denominator(v as int, pow2(a) as int, pow2((i - a) as nat) as int);
    }
}

/// Only the low `n` bits of a number matter to its `n` bits.
pub proof fn lemma_bits_of_mod(v: nat, n: nat)
    ensures
        bits_of(v % pow2(n), n) =~= bits_of(v, n),
{
    lemma_pow2_pos(n);
    assert forall|i: int| 0 <= i < n implies #[trigger] bit_of(v % pow2(n), i as nat) == bit_of(
        v,
        i as nat,
    ) by {
        let k = (n - i) as nat;
        lemma_pow2_pos(i as nat);
        lemma_pow2_pos(k);
        lemma_pow2_adds(i as nat, k);
        lemma_pow2_unfold(k);
        let q = v / pow2(n);
        let r = v % pow2(n);
        lemma_fundamental_div_mod(v as int, pow2(n) as int);
        lemma_mod_pos_bound(v as int, pow2(n) as int);
        // v = q * 2^n + r, so v / 2^i = q * 2^k + r / 2^i
        let d = pow2(i as nat) as int;
        lemma_fundamental_div_mod(r as int, d);
        lemma_mod_pos_bound(r as int, d);
        let rq = r as int / d;
        let rr = r as int % d;
        assert(v as int == (q * pow2(k) + rq) * d + rr) by (nonlinear_arith)
            requires
                v as int == pow2(n) * q + r,
                r == d * rq + rr,
                pow2(n) == d * pow2(k),
        ;
        lemma_fundamental_div_mod_converse(v as int, d, q * pow2(k) + rq, rr);
        lemma_div_pos_is_pos(r as int, d);
        let h = pow2((k - 1) as nat) as int;
        assert(q * pow2(k) + rq == 2 * (q * h) + rq) by (nonlinear_arith)
            requires
                pow2(k) == 2 * h,
        ;
        vstd::arithmetic::div_mod::lemma_mod_multiples_vanish(q * h, rq, 2);
    }
}

/// The bits of a word sequence with one more word.
pub proof fn lemma_words_bits_push(ws: Seq<u32>, w: u32)
    ensures
        words_bits(ws.push(w)) =~= words_bits(ws) + bits_of(w as nat, 32),
{
    let l = ws.len();
    let lhs = words_bits(ws.push(w));
    let rhs = words_bits(ws) + bits_of(w as nat, 32);
    assert forall|i: int| 0 <= i < 32 * l + 32 implies #[trigger] lhs[i] == rhs[i] by {
        if i >= 32 * l {
            assert(i / 32 == l);
            assert(i % 32 == i - 32 * l);
        } else {
            assert(i / 32 < l);
        }
    }
    assert(lhs.len() == rhs.len());
}

/// The bits of a number read back, as bits, give the sequence: a sequence is the bits of its value.
pub proof fn lemma_bits_of_value(s: Seq<bool>)
    ensures
        bits_of(value_of(s) as nat, s.len()) =~= s,
    decreases s.len(),
{
    lemma_value_of_bounds(s);
    if s.len() > 0 {
        let t = s.drop_last();
        let n = (s.len() - 1) as nat;
        lemma_bits_of_value(t);
        lemma_value_of_bounds(t);
        lemma_pow2_pos(n);
        let v = value_of(s) as nat;
        let top: nat = if s.last() { 1 } else { 0 };
        assert(v == value_of(t) + pow2(n) * top);
        // low bits: v mod 2^n == value_of(t)
        assert forall|i: int| 0 <= i < n implies #[trigger] bit_of(v, i as nat) == t[i] by {
            lemma_fundamental_div_mod_converse(v as int, pow2(n) as int, top as int, value_of(t));
            lemma_bits_of_mod(v, n);
            assert(bits_of(v % pow2(n), n)[i] == bits_of(v, n)[i]);
            assert(bits_of(value_of(t) as nat, n)[i] == t[i]);
        }
        // top bit
        lemma_fundamental_div_mod_converse(v as int, pow2(n) as int, top as int, value_of(t));
        assert(bit_of(v, n) == s.last());
    }
}

/// The bits of the first `k` words are the first `32 k` bits of all the words.
pub proof fn lemma_words_bits_take(ws: Seq<u32>, k: int)
    requires
        0 <= k <= ws.len(),
    ensures
        words_bits(ws.take(k)) =~= words_bits(ws).take(32 * k),
{
    assert forall|i: int| 0 <= i < 32 * k implies #[trigger] words_bits(ws.take(k))[i]
        == words_bits(ws)[i] by {
        assert(i / 32 < k);
    }
}

} // verus!
