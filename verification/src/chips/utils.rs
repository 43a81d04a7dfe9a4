//! Splitting values into fixed-width limbs and putting them together again.
//!
//! These routines compute witnesses. They work on the canonical integer
//! representative of a field element and are not themselves constrained by
//! any gate.

use crate::field::{fadd, fmul, modulus, Felt};
use crate::layouter::{values, Component, Error, ErrorKind};
use vstd::arithmetic::div_mod::{
    lemma_add_mod_noop, lemma_basic_div, lemma_div_denominator, lemma_fundamental_div_mod,
    lemma_mul_mod_noop_left, lemma_small_mod,
};
use vstd::arithmetic::power2::{lemma2_to64, lemma_pow2_adds, lemma_pow2_pos, pow2};
use vstd::prelude::*;

verus! {

/// The widest value that limbs may be asked to hold, in bits: two to this
/// power is below the field characteristic.
pub const MAX_VALUE_BITS: usize = 254;

/// The sum that an accumulator row splits: the new value, plus the limbs
/// carried over from the row before, in the field.
pub open spec fn widened_sum(bits: nat, value: int, hi: int, lo: int) -> int {
    fadd(fadd(value, fmul(hi, pow2(bits) as int)), lo)
}

/// Adds `value` to the two-limb number `(hi, lo)` and splits the sum again
/// at `bits` bits: the first result is the sum's quotient by two to the
/// power `bits`, the second its remainder.
pub fn add_carry(bits: u32, value: &Felt, hi: &Felt, lo: &Felt) -> (r: (Felt, Felt))
    requires
        0 < bits < 64,
    ensures
        r.0@ == widened_sum(bits as nat, value@, hi@, lo@) / (pow2(bits as nat) as int),
        r.1@ == widened_sum(bits as nat, value@, hi@, lo@) % (pow2(bits as nat) as int),
{
    let weight = Felt::power_of_two(bits);
    let sum = value.plus(&hi.times(&weight)).plus(lo);
    sum.split(bits)
}

/// Limbs of `bits` bits each, `limbs` of them, can hold every value they are
/// asked to without reaching the field characteristic.
pub open spec fn valid_limbs(bits: nat, limbs: nat) -> bool {
    0 < bits < 64 && 0 < limbs && bits * limbs <= MAX_VALUE_BITS
}

/// Limb `i` of `v`, counted from the most significant.
pub open spec fn digit(v: int, bits: nat, limbs: nat, i: int) -> int {
    (v / (pow2((bits * (limbs - 1 - i)) as nat) as int)) % (pow2(bits) as int)
}

/// The limbs of `v`, most significant first.
pub open spec fn decomposition(v: int, bits: nat, limbs: nat) -> Seq<int> {
    Seq::new(limbs, |i: int| digit(v, bits, limbs, i))
}

/// The number that limbs stand for, most significant first: the sum of
/// `digits[i]` times two to the power `bits * (len - 1 - i)`.
pub open spec fn reconstruction(digits: Seq<int>, bits: nat) -> int
    decreases digits.len(),
{
    if digits.len() == 0 {
        0
    } else {
        reconstruction(digits.drop_last(), bits) * (pow2(bits) as int) + digits.last()
    }
}

/// Putting the limbs of a value together gives the value back, for every
/// value that fits the limbs.
pub proof fn lemma_round_trip(v: int, bits: nat, limbs: nat)
    requires
        0 <= v < pow2(bits * limbs),
    ensures
        reconstruction(decomposition(v, bits, limbs), bits) == v,
    decreases limbs,
{
    lemma2_to64();
    if limbs == 0 {
        assert(bits * limbs == 0) by (nonlinear_arith)
            requires
                limbs == 0,
        ;
    } else {
        let d = decomposition(v, bits, limbs);
        let b: int = pow2(bits) as int;
        let rest: nat = bits * ((limbs - 1) as nat);
        let m: int = pow2(rest) as int;
        let q: int = v / b;
        lemma_pow2_pos(bits);
        lemma_pow2_pos(rest);
        assert(bits * limbs == rest + bits) by (nonlinear_arith)
            requires
                rest == bits * ((limbs - 1) as nat),
                limbs > 0,
        ;
        lemma_pow2_adds(rest, bits);
        lemma_fundamental_div_mod(v, b);
        assert(0 <= q < m) by (nonlinear_arith)
            requires
                v == b * q + v % b,
                0 <= v % b < b,
                0 <= v < m * b,
                b > 0,
        ;
        lemma_round_trip(q, bits, (limbs - 1) as nat);
        assert(d.drop_last() =~= decomposition(q, bits, (limbs - 1) as nat)) by {
            assert forall|i: int| 0 <= i < limbs - 1 implies d[i] == digit(
                q,
                bits,
                (limbs - 1) as nat,
                i,
            ) by {
                let e: nat = (bits * (limbs - 2 - i)) as nat;
                assert(bits * (limbs - 2 - i) >= 0 && bits * (limbs - 1 - i) == bits * (limbs - 2
                    - i) + bits) by (nonlinear_arith)
                    requires
                        0 <= i < limbs - 1,
                ;
                lemma_pow2_adds(bits, e);
                lemma_pow2_pos(e);
                lemma_div_denominator(v, b, pow2(e) as int);
                assert((bits * (limbs - 1 - i)) as nat == bits + e);
            }
        }
        assert(d.last() == v % b) by {
            assert(bits * (limbs - 1 - (limbs - 1)) == 0) by (nonlinear_arith);
            assert(v / 1 == v);
        }
        assert(q * b == b * q) by (nonlinear_arith);
        assert(reconstruction(d, bits) == reconstruction(d.drop_last(), bits) * b + d.last());
    }
}

/// What limbs stand for stays below two to the power of their total width,
/// if each limb is below two to the power `bits`.
pub proof fn lemma_reconstruction_bound(digits: Seq<int>, bits: nat)
    requires
        forall|i: int| 0 <= i < digits.len() ==> 0 <= #[trigger] digits[i] < pow2(bits),
    ensures
        0 <= reconstruction(digits, bits) < pow2(bits * digits.len()),
    decreases digits.len(),
{
    lemma2_to64();
    if digits.len() == 0 {
        assert(bits * digits.len() == 0) by (nonlinear_arith)
            requires
                digits.len() == 0,
        ;
    } else {
        let front = digits.drop_last();
        assert forall|i: int| 0 <= i < front.len() implies 0 <= #[trigger] front[i] < pow2(
            bits,
        ) by {
            assert(front[i] == digits[i]);
        }
        lemma_reconstruction_bound(front, bits);
        let rest: nat = bits * front.len();
        assert(bits * digits.len() == rest + bits) by (nonlinear_arith)
            requires
                rest == bits * front.len(),
                digits.len() == front.len() + 1,
        ;
        lemma_pow2_adds(rest, bits);
        let r: int = reconstruction(front, bits);
        let b: int = pow2(bits) as int;
        let m: int = pow2(rest) as int;
        let last: int = digits.last();
        assert(0 <= r * b + last < m * b) by (nonlinear_arith)
            requires
                0 <= r < m,
                0 <= last < b,
        ;
    }
}

/// Tells whether a limb width and a limb count go together.
pub fn check_limbs(bits: u32, limbs: usize) -> (r: bool)
    ensures
        r == valid_limbs(bits as nat, limbs as nat),
{
    if bits == 0 || bits >= 64 || limbs == 0 {
        return false;
    }
    if limbs > MAX_VALUE_BITS {
        assert(bits * limbs > MAX_VALUE_BITS) by (nonlinear_arith)
            requires
                bits >= 1,
                limbs > MAX_VALUE_BITS,
        ;
        return false;
    }
    assert(bits * limbs <= 63 * 254) by (nonlinear_arith)
        requires
            bits <= 63,
            limbs <= 254,
    ;
    let width: usize = bits as usize;
    width * limbs <= MAX_VALUE_BITS
}

/// `n` zeros.
fn zeros(n: usize) -> (r: Vec<Felt>)
    ensures
        r@.len() == n,
{
    let mut r: Vec<Felt> = Vec::new();
    let mut i: usize = 0;
    while i < n
        invariant
            i <= n,
            r@.len() == i,
        decreases n - i,
    {
        r.push(Felt::zero());
        i = i + 1;
    }
    r
}

/// Splits a value into `limbs` limbs of `bits` bits, most significant first.
/// Fails if the width and the count do not go together, or if the value does
/// not fit the limbs.
pub fn decompose(value: &Felt, bits: u32, limbs: usize) -> (r: Result<Vec<Felt>, Error>)
    ensures
        r is Ok <==> valid_limbs(bits as nat, limbs as nat) && value@ < pow2(
            (bits * limbs) as nat,
        ),
        r matches Ok(d) ==> values(d@) == decomposition(value@, bits as nat, limbs as nat),
        r matches Err(e) ==> e == (Error {
            component: Component::Decomposition,
            kind: if valid_limbs(bits as nat, limbs as nat) {
                ErrorKind::Overflow
            } else {
                ErrorKind::InvalidParameters
            },
            column: 0,
            row: 0,
        }),
{
    if !check_limbs(bits, limbs) {
        return Err(
            Error {
                component: Component::Decomposition,
                kind: ErrorKind::InvalidParameters,
                column: 0,
                row: 0,
            },
        );
    }
    value.bounded();
    let ghost v = value@;
    let ghost b: int = pow2(bits as nat) as int;
    proof {
        lemma2_to64();
        lemma_pow2_pos(bits as nat);
        assert(bits * 0 == 0) by (nonlinear_arith);
    }
    let mut out = zeros(limbs);
    let mut rest = *value;
    let mut i: usize = 0;
    assert(rest@ == v / (pow2((bits * i) as nat) as int)) by {
        assert(bits * i == 0) by (nonlinear_arith)
            requires
                i == 0,
        ;
        assert(v / 1 == v);
    }
    while i < limbs
        invariant
            0 < bits < 64,
            i <= limbs,
            out@.len() == limbs,
            v == value@,
            0 <= v,
            b == pow2(bits as nat),
            b > 0,
            bits * i >= 0,
            rest@ == v / (pow2((bits * i) as nat) as int),
            forall|j: int| limbs - i <= j < limbs ==> (#[trigger] out@[j])@ == digit(
                v,
                bits as nat,
                limbs as nat,
                j,
            ),
        decreases limbs - i,
    {
        let (hi, lo) = rest.split(bits);
        let ghost e: nat = (bits * i) as nat;
        proof {
            assert(bits * (i + 1) == bits * i + bits && bits * (limbs - 1 - (limbs - 1 - i))
                == bits * i) by (nonlinear_arith);
            lemma_pow2_adds(e, bits as nat);
            lemma_pow2_pos(e);
            lemma_div_denominator(v, pow2(e) as int, b);
        }
        let ghost before = out@;
        out[limbs - 1 - i] = lo;
        assert forall|j: int| limbs - (i + 1) <= j < limbs implies (#[trigger] out@[j])@ == digit(
            v,
            bits as nat,
            limbs as nat,
            j,
        ) by {
            if j > limbs - 1 - i {
                assert(out@[j] == before[j]);
            }
        }
        rest = hi;
        i = i + 1;
    }
    let ghost top: int = pow2((bits * limbs) as nat) as int;
    proof {
        lemma_pow2_pos((bits * limbs) as nat);
        lemma_fundamental_div_mod(v, top);
        if v < top {
            lemma_basic_div(v, top);
        } else {
            assert(v / top != 0) by (nonlinear_arith)
                requires
                    v == top * (v / top) + v % top,
                    0 <= v % top < top,
                    v >= top,
            ;
        }
    }
    if !rest.is_zero() {
        return Err(
            Error {
                component: Component::Decomposition,
                kind: ErrorKind::Overflow,
                column: 0,
                row: 0,
            },
        );
    }
    assert(values(out@) =~= decomposition(v, bits as nat, limbs as nat));
    Ok(out)
}

/// Puts limbs of `bits` bits together, most significant first, in the field.
pub fn reconstruct(digits: &Vec<Felt>, bits: u32) -> (r: Felt)
    requires
        bits <= 254,
    ensures
        r@ == reconstruction(values(digits@), bits as nat) % modulus(),
{
    let weight = Felt::power_of_two(bits);
    let mut acc = Felt::zero();
    let mut i: usize = 0;
    while i < digits.len()
        invariant
            i <= digits@.len(),
            weight@ == pow2(bits as nat),
            acc@ == reconstruction(values(digits@).take(i as int), bits as nat) % modulus(),
        decreases digits@.len() - i,
    {
        let ghost front = values(digits@).take(i as int);
        let ghost next = values(digits@).take(i + 1);
        let ghost whole: int = reconstruction(front, bits as nat);
        let d = &digits[i];
        d.bounded();
        proof {
            assert(next.drop_last() =~= front);
            assert(next.last() == d@);
            lemma_mul_mod_noop_left(whole, weight@, modulus());
            lemma_add_mod_noop(whole * weight@, d@, modulus());
            lemma_small_mod(d@ as nat, modulus() as nat);
        }
        acc = acc.times(&weight).plus(d);
        i = i + 1;
    }
    assert(values(digits@).take(i as int) =~= values(digits@));
    acc
}

} // verus!
