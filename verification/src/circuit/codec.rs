//! Conversion between pin sequences and the integers that index truth tables.
//!
//! A pin sequence is read as a big-endian binary number: the first pin is the
//! most significant bit.
use vstd::arithmetic::div_mod::{
    lemma_div_denominator, lemma_fundamental_div_mod_converse, lemma_small_mod,
};
use vstd::arithmetic::power2::{
    lemma_pow2_pos, lemma_pow2_strictly_increases, lemma_pow2_unfold, pow2,
};
use vstd::bits::lemma_usize_shr_is_div;
use vstd::prelude::*;

verus! {

/// The number that a pin sequence denotes, first pin most significant.
pub open spec fn bits_value(bits: Seq<bool>) -> nat
    decreases bits.len(),
{
    if bits.len() == 0 {
        0
    } else {
        2 * bits_value(bits.drop_last()) + if bits.last() {
            1nat
        } else {
            0nat
        }
    }
}

/// Whether binary digit `k` of `value` is set; digit 0 is the least significant.
pub open spec fn bit_of(value: nat, k: nat) -> bool {
    (value / pow2(k)) % 2 == 1
}

/// The `width` lowest binary digits of `value`, most significant first.
pub open spec fn bits_of(value: nat, width: nat) -> Seq<bool> {
    Seq::new(width, |i: int| bit_of(value, (width - 1 - i) as nat))
}

/// The number of values that a machine word can hold.
pub open spec fn word_modulus() -> nat {
    usize::MAX as nat + 1
}

/// A pin sequence of `n` pins denotes a number below `2^n`.
pub proof fn lemma_bits_value_bound(bits: Seq<bool>)
    ensures
        bits_value(bits) < pow2(bits.len()),
    decreases bits.len(),
{
    if bits.len() == 0 {
        lemma_pow2_pos(0);
    } else {
        lemma_bits_value_bound(bits.drop_last());
        lemma_pow2_unfold(bits.len());
    }
}

/// Reading the digits of the number that a pin sequence denotes gives the
/// sequence back, whatever its length.
pub proof fn lemma_bits_round_trip(bits: Seq<bool>)
    ensures
        bits_of(bits_value(bits), bits.len()) == bits,
    decreases bits.len(),
{
    let n = bits.len();
    let v = bits_value(bits);
    if n > 0 {
        let front = bits.drop_last();
        let low: nat = if bits.last() {
            1
        } else {
            0
        };
        lemma_bits_round_trip(front);
        assert forall|i: int| 0 <= i < n implies bit_of(v, (n - 1 - i) as nat) == bits[i] by {
            let k = (n - 1 - i) as nat;
            if k == 0 {
                assert(pow2(0) == 1) by {
                    lemma_pow2_unfold(1);
                    lemma_pow2_pos(0);
                    vstd::arithmetic::power2::lemma2_to64();
                }
                assert(v / 1 == v);
                assert((2 * bits_value(front) + low) % 2 == low);
            } else {
                let j = (k - 1) as nat;
                lemma_pow2_unfold(k);
                lemma_pow2_pos(j);
                assert(pow2(k) == 2 * pow2(j));
                lemma_div_denominator(v as int, 2, pow2(j) as int);
                assert((2 * bits_value(front) + low) / 2 == bits_value(front));
                assert(v / pow2(k) == bits_value(front) / pow2(j));
                assert(bit_of(bits_value(front), j) == bits_of(bits_value(front), front.len())[i]);
            }
        }
    }
    assert(bits_of(v, n) =~= bits);
}

/// Encoding a pin sequence and decoding the result into a buffer of the same
/// width gives the sequence back, as long as the number it denotes fits in a
/// machine word.
pub proof fn lemma_decode_encode(bits: Seq<bool>)
    requires
        bits_value(bits) <= usize::MAX,
    ensures
        bits_of(bits_value(bits) % word_modulus(), bits.len()) == bits,
{
    lemma_small_mod(bits_value(bits), word_modulus());
    lemma_bits_round_trip(bits);
}

proof fn lemma_encode_step(front: nat, acc: usize, low: nat)
    requires
        acc == front % word_modulus(),
        low <= 1,
    ensures
        (acc as nat * 2) % word_modulus() + low == (2 * front + low) % word_modulus(),
        (acc as nat * 2) % word_modulus() + low <= usize::MAX,
{
    let m = word_modulus() as int;
    let half = (usize::MAX / 2) as int + 1;
    assert(m == 2 * half);
    let q = (front / word_modulus()) as int;
    let r = acc as int;
    assert(front as int == q * m + r) by {
        vstd::arithmetic::div_mod::lemma_fundamental_div_mod(front as int, m);
        assert(m * q == q * m) by (nonlinear_arith);
    }
    if r < half {
        lemma_small_mod((2 * r) as nat, m as nat);
        assert(2 * front + low == (2 * q) * m + (2 * r + low)) by (nonlinear_arith)
            requires
                front as int == q * m + r,
        ;
        lemma_fundamental_div_mod_converse((2 * front + low) as int, m, 2 * q, 2 * r + low);
    } else {
        assert(2 * r == 1 * m + (2 * r - m));
        lemma_fundamental_div_mod_converse(2 * r, m, 1, 2 * r - m);
        assert(2 * front + low == (2 * q + 1) * m + (2 * r - m + low)) by (nonlinear_arith)
            requires
                front as int == q * m + r,
        ;
        lemma_fundamental_div_mod_converse(
            (2 * front + low) as int,
            m,
            2 * q + 1,
            2 * r - m + low,
        );
    }
}

/// Reads `bits` as a big-endian binary number.
///
/// The result is the denoted number reduced modulo the word size, so a
/// sequence longer than a machine word keeps its lowest digits.
pub fn encode(bits: &[bool]) -> (value: usize)
    ensures
        value == bits_value(bits@) % word_modulus(),
{
    let mut value: usize = 0;
    let mut i: usize = 0;
    proof {
        lemma_small_mod(0, word_modulus());
    }
    while i < bits.len()
        invariant
            i <= bits@.len(),
            value == bits_value(bits@.take(i as int)) % word_modulus(),
        decreases bits@.len() - i,
    {
        let low: usize = if bits[i] {
            1
        } else {
            0
        };
        proof {
            let next = bits@.take(i + 1);
            assert(next.drop_last() =~= bits@.take(i as int));
            assert(next.last() == bits@[i as int]);
            lemma_encode_step(bits_value(bits@.take(i as int)), value, low as nat);
        }
        value = value.wrapping_mul(2) + low;
        i += 1;
    }
    proof {
        assert(bits@.take(i as int) =~= bits@);
    }
    value
}

/// Binary digit `k` of `value`.
pub fn bit_at(value: usize, k: usize) -> (set: bool)
    ensures
        set == bit_of(value as nat, k as nat),
{
    if k >= usize::BITS as usize {
        proof {
            vstd::arithmetic::power2::lemma2_to64();
            vstd::arithmetic::power2::lemma2_to64_rest();
            if k > usize::BITS {
                lemma_pow2_strictly_increases(usize::BITS as nat, k as nat);
            }
            assert(value < pow2(k as nat));
            vstd::arithmetic::div_mod::lemma_basic_div(value as int, pow2(k as nat) as int);
        }
        false
    } else {
        let shifted: usize = value >> k;
        proof {
            lemma_usize_shr_is_div(value, k);
            assert(shifted & 1 == shifted % 2) by (bit_vector);
        }
        (shifted & 1) == 1
    }
}

/// Writes the binary digits of `value` into `bits`, most significant first.
///
/// Every pin of the buffer is written. Digits of `value` that do not fit in
/// the buffer are dropped, and pins above its highest digit are cleared.
pub fn decode(value: usize, bits: &mut [bool])
    ensures
        final(bits)@ == bits_of(value as nat, old(bits)@.len()),
{
    let width: usize = bits.len();
    let mut i: usize = 0;
    while i < width
        invariant
            i <= width,
            bits@.len() == width,
            forall|j: int| 0 <= j < i ==> bits@[j] == bit_of(value as nat, (width - 1 - j) as nat),
        decreases width - i,
    {
        bits[i] = bit_at(value, width - 1 - i);
        i += 1;
    }
    proof {
        assert(bits@ =~= bits_of(value as nat, width as nat));
    }
}

} // verus!
