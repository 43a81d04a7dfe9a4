//! Elements of the Pallas base field, held by their canonical integer
//! representative.

use halo2_proofs::arithmetic::Field;
use halo2_proofs::pasta::Fp;
use vstd::arithmetic::div_mod::{
    lemma_add_mod_noop_right, lemma_fundamental_div_mod_converse, lemma_mul_mod_noop_left,
    lemma_mul_mod_noop_right,
};
use vstd::arithmetic::power2::{
    lemma2_to64, lemma2_to64_rest, lemma_pow2_adds, lemma_pow2_pos, lemma_pow2_strictly_increases,
    pow2,
};
use vstd::bits::{lemma_u64_pow2_no_overflow, lemma_u64_shl_is_mul};
use vstd::prelude::*;

verus! {

/// The field characteristic.
pub open spec fn modulus() -> int {
    0x40000000000000000000000000000000224698fc094cf91b992d30ed00000001int
}

/// The integer that four 64-bit limbs stand for, least significant first.
pub open spec fn limbs_value(l: Seq<u64>) -> int {
    l[0] + l[1] * 0x1_0000_0000_0000_0000int + l[2] * 0x1_0000_0000_0000_0000_0000_0000_0000_0000int
        + l[3] * 0x1_0000_0000_0000_0000_0000_0000_0000_0000_0000_0000_0000_0000int
}

/// Sum of two residues.
pub open spec fn fadd(a: int, b: int) -> int {
    (a + b) % modulus()
}

/// Difference of two residues.
pub open spec fn fsub(a: int, b: int) -> int {
    (a - b) % modulus()
}

/// Product of two residues.
pub open spec fn fmul(a: int, b: int) -> int {
    (a * b) % modulus()
}

/// Additive inverse of a residue.
pub open spec fn fneg(a: int) -> int {
    (-a) % modulus()
}

/// The inverse of `x`, where `x` has one.
pub open spec fn inverse(x: int) -> int {
    choose|y: int| 0 <= y < modulus() && fmul(x, y) == 1
}

/// The inverse of `x`, or zero for zero.
pub open spec fn inverse_or_zero(x: int) -> int {
    if x == 0 {
        0
    } else {
        inverse(x)
    }
}

/// What an assignment may put beside `x` as its inverse: the inverse where
/// there is one, zero for zero.
pub open spec fn inverse_witness(x: int, inv: int) -> bool {
    if x == 0 {
        inv == 0
    } else {
        0 <= inv < modulus() && fmul(x, inv) == 1
    }
}

/// Adding the negation is subtracting.
pub proof fn lemma_add_negation(a: int, b: int)
    ensures
        fadd(a, fneg(b)) == fsub(a, b),
{
    lemma_add_mod_noop_right(a, -b, modulus());
}

/// The limbs of the characteristic, least significant first.
const MODULUS_L0: u64 = 0x992d30ed00000001;
const MODULUS_L1: u64 = 0x224698fc094cf91b;
const MODULUS_L2: u64 = 0;
const MODULUS_L3: u64 = 0x4000000000000000;

/// Calls `Add::add` on `halo2_proofs::pasta::Fp`, the Pallas base field of
/// `pasta_curves`. Both operands are brought in with `Fp::from_raw`, which
/// takes little-endian limbs, and the sum is read back through its canonical
/// little-endian bytes. Claims that the limbs returned stand for the sum of
/// what the operands stand for, modulo the characteristic.
#[verifier::external_body]
fn fp_add(a: [u64; 4], b: [u64; 4]) -> (r: [u64; 4])
    requires
        limbs_value(a@) < modulus(),
        limbs_value(b@) < modulus(),
    ensures
        limbs_value(r@) == fadd(limbs_value(a@), limbs_value(b@)),
{
    let t: [u8; 32] = (Fp::from_raw(a) + Fp::from_raw(b)).into();
    [
        u64::from_le_bytes(t[0..8].try_into().unwrap()),
        u64::from_le_bytes(t[8..16].try_into().unwrap()),
        u64::from_le_bytes(t[16..24].try_into().unwrap()),
        u64::from_le_bytes(t[24..32].try_into().unwrap()),
    ]
}

/// Calls `Sub::sub` on `halo2_proofs::pasta::Fp`, operands and result
/// converted as in `fp_add`. Claims that the limbs returned stand for the
/// difference of what the operands stand for, modulo the characteristic.
#[verifier::external_body]
fn fp_sub(a: [u64; 4], b: [u64; 4]) -> (r: [u64; 4])
    requires
        limbs_value(a@) < modulus(),
        limbs_value(b@) < modulus(),
    ensures
        limbs_value(r@) == fsub(limbs_value(a@), limbs_value(b@)),
{
    let t: [u8; 32] = (Fp::from_raw(a) - Fp::from_raw(b)).into();
    [
        u64::from_le_bytes(t[0..8].try_into().unwrap()),
        u64::from_le_bytes(t[8..16].try_into().unwrap()),
        u64::from_le_bytes(t[16..24].try_into().unwrap()),
        u64::from_le_bytes(t[24..32].try_into().unwrap()),
    ]
}

/// Calls `Mul::mul` on `halo2_proofs::pasta::Fp`, operands and result
/// converted as in `fp_add`. Claims that the limbs returned stand for the
/// product of what the operands stand for, modulo the characteristic.
#[verifier::external_body]
fn fp_mul(a: [u64; 4], b: [u64; 4]) -> (r: [u64; 4])
    requires
        limbs_value(a@) < modulus(),
        limbs_value(b@) < modulus(),
    ensures
        limbs_value(r@) == fmul(limbs_value(a@), limbs_value(b@)),
{
    let t: [u8; 32] = (Fp::from_raw(a) * Fp::from_raw(b)).into();
    [
        u64::from_le_bytes(t[0..8].try_into().unwrap()),
        u64::from_le_bytes(t[8..16].try_into().unwrap()),
        u64::from_le_bytes(t[16..24].try_into().unwrap()),
        u64::from_le_bytes(t[24..32].try_into().unwrap()),
    ]
}

/// Calls `Field::invert` on `halo2_proofs::pasta::Fp`, operand and result
/// converted as in `fp_add`. Claims that nothing is returned exactly for
/// zero, and that otherwise the limbs returned stand for a residue whose
/// product with the operand is one.
#[verifier::external_body]
fn fp_invert(a: [u64; 4]) -> (r: Option<[u64; 4]>)
    requires
        limbs_value(a@) < modulus(),
    ensures
        r is None <==> limbs_value(a@) == 0,
        r matches Some(l) ==> limbs_value(l@) < modulus() && fmul(limbs_value(a@), limbs_value(l@))
            == 1,
{
    let inverse: Option<Fp> = Fp::from_raw(a).invert().into();
    let t: [u8; 32] = inverse?.into();
    Some(
        [
            u64::from_le_bytes(t[0..8].try_into().unwrap()),
            u64::from_le_bytes(t[8..16].try_into().unwrap()),
            u64::from_le_bytes(t[16..24].try_into().unwrap()),
            u64::from_le_bytes(t[24..32].try_into().unwrap()),
        ],
    )
}

/// One limb of a multi-limb number divided by `d`: the quotient of `low`,
/// with the remainder of `high` brought in above it.
fn shift_limb(low: u64, high: u64, d: u64, e: u64) -> (h: u64)
    requires
        d > 0,
        d * e == 0x1_0000_0000_0000_0000,
    ensures
        h * d + low % d == low + (high % d) * 0x1_0000_0000_0000_0000,
{
    let q: u64 = low / d;
    let r: u64 = high % d;
    assert(r * e <= 0x1_0000_0000_0000_0000 - e && q < e && (q + r * e) * d + low % d == low + r
        * 0x1_0000_0000_0000_0000) by (nonlinear_arith)
        requires
            d > 0,
            d * e == 0x1_0000_0000_0000_0000,
            0 <= r < d,
            q == low / d,
            0 <= low < 0x1_0000_0000_0000_0000,
    ;
    q + r * e
}

/// Distinct limbs stand for distinct integers.
pub proof fn lemma_limbs_injective(a: Seq<u64>, b: Seq<u64>)
    requires
        limbs_value(a) == limbs_value(b),
    ensures
        a[0] == b[0],
        a[1] == b[1],
        a[2] == b[2],
        a[3] == b[3],
{
    let w: int = 0x1_0000_0000_0000_0000int;
    let d0: int = (b[1] - a[1]) + (b[2] - a[2]) * w + (b[3] - a[3]) * (w * w);
    assert(w * w == 0x1_0000_0000_0000_0000_0000_0000_0000_0000int);
    assert(w * w * w == 0x1_0000_0000_0000_0000_0000_0000_0000_0000_0000_0000_0000_0000int);
    assert(a[0] - b[0] == d0 * w) by (nonlinear_arith)
        requires
            a[0] + a[1] * w + a[2] * (w * w) + a[3] * (w * w * w) == b[0] + b[1] * w + b[2] * (w * w)
                + b[3] * (w * w * w),
            d0 == (b[1] - a[1]) + (b[2] - a[2]) * w + (b[3] - a[3]) * (w * w),
    ;
    assert(d0 == 0) by {
        if d0 >= 1 {
            assert(d0 * w >= w);
        }
        if d0 <= -1 {
            assert(d0 * w <= -w);
        }
    }
    let d1: int = (b[2] - a[2]) + (b[3] - a[3]) * w;
    assert(a[1] - b[1] == d1 * w);
    assert(d1 == 0) by {
        if d1 >= 1 {
            assert(d1 * w >= w);
        }
        if d1 <= -1 {
            assert(d1 * w <= -w);
        }
    }
    let d2: int = b[3] - a[3];
    assert(a[2] - b[2] == d2 * w);
    assert(d2 == 0) by {
        if d2 >= 1 {
            assert(d2 * w >= w);
        }
        if d2 <= -1 {
            assert(d2 * w <= -w);
        }
    }
}

/// A field element. Its limbs always stand for an integer below the
/// characteristic.
#[derive(Clone, Copy, Debug, PartialEq, Eq)]
pub struct Felt {
    limbs: [u64; 4],
}

/// The canonical representative of the element.
impl View for Felt {
    type V = int;

    closed spec fn view(&self) -> int {
        limbs_value(self.limbs@) % modulus()
    }
}

/// The element whose canonical representative is `v`.
pub closed spec fn constant(v: int) -> Felt {
    Felt {
        limbs: [
            (v % 0x1_0000_0000_0000_0000int) as u64,
            ((v / 0x1_0000_0000_0000_0000int) % 0x1_0000_0000_0000_0000int) as u64,
            ((v / 0x1_0000_0000_0000_0000_0000_0000_0000_0000int) % 0x1_0000_0000_0000_0000int) as u64,
            ((v / 0x1_0000_0000_0000_0000_0000_0000_0000_0000_0000_0000_0000_0000int)
                % 0x1_0000_0000_0000_0000int) as u64,
        ],
    }
}

/// The limbs of `constant(v)` stand for `v`.
proof fn lemma_constant_limbs(v: int)
    requires
        0 <= v < 0x1_0000_0000_0000_0000_0000_0000_0000_0000_0000_0000_0000_0000_0000_0000_0000_0000int,
    ensures
        limbs_value(constant(v).limbs@) == v,
{
    let w: int = 0x1_0000_0000_0000_0000int;
    let w2: int = 0x1_0000_0000_0000_0000_0000_0000_0000_0000int;
    let w3: int = 0x1_0000_0000_0000_0000_0000_0000_0000_0000_0000_0000_0000_0000int;
    let q1: int = v / w;
    let q2: int = v / w2;
    let q3: int = v / w3;
    assert(v == w * q1 + v % w);
    assert(v == w2 * q2 + v % w2);
    assert(v == w3 * q3 + v % w3);
    assert(q1 == w * (q1 / w) + q1 % w);
    assert(q2 == w * (q2 / w) + q2 % w);
    assert(q1 / w == q2) by {
        lemma_fundamental_div_mod_converse(v, w2, q1 / w, (q1 % w) * w + v % w);
    }
    assert(q2 / w == q3) by {
        lemma_fundamental_div_mod_converse(v, w3, q2 / w, (q2 % w) * w2 + v % w2);
    }
    assert(0 <= q3 < w);
    assert(q3 % w == q3);
    let l = constant(v).limbs@;
    assert(l[0] == v % w);
    assert(l[1] == q1 % w);
    assert(l[2] == q2 % w);
    assert(l[3] == q3);
}

/// `constant(v)` stands for `v`, for every residue `v`.
pub proof fn lemma_constant_value(v: int)
    requires
        0 <= v < modulus(),
    ensures
        constant(v)@ == v,
{
    lemma_constant_limbs(v);
}

/// The representative of an element is a residue.
pub proof fn lemma_residue(f: Felt)
    ensures
        0 <= f@ < modulus(),
{
}

/// An element with canonical limbs is the constant of its representative.
proof fn lemma_constant_of_canonical(f: Felt)
    requires
        limbs_value(f.limbs@) < modulus(),
    ensures
        f == constant(f@),
{
    let raw: int = limbs_value(f.limbs@);
    assert(f@ == raw);
    let g = constant(raw);
    lemma_constant_limbs(raw);
    lemma_limbs_injective(f.limbs@, g.limbs@);
    assert(f.limbs =~= g.limbs);
}

/// The product of residues does not depend on the order of the factors.
pub proof fn lemma_fmul_commutative(a: int, b: int)
    ensures
        fmul(a, b) == fmul(b, a),
{
    assert(a * b == b * a) by (nonlinear_arith);
}

/// The product of residues does not depend on how the factors are grouped.
pub proof fn lemma_fmul_associative(a: int, b: int, c: int)
    ensures
        fmul(fmul(a, b), c) == fmul(a, fmul(b, c)),
{
    lemma_mul_mod_noop_left(a * b, c, modulus());
    lemma_mul_mod_noop_right(a, b * c, modulus());
    assert((a * b) * c == a * (b * c)) by (nonlinear_arith);
}

/// A residue has at most one inverse.
pub proof fn lemma_inverse_unique(x: int, y: int, z: int)
    requires
        0 <= y < modulus(),
        0 <= z < modulus(),
        fmul(x, y) == 1,
        fmul(x, z) == 1,
    ensures
        y == z,
{
    lemma_fmul_associative(y, x, z);
    lemma_fmul_commutative(y, x);
    assert(fmul(1, z) == z) by {
        assert(1 * z == z);
    }
    assert(fmul(y, 1) == y) by {
        assert(y * 1 == y);
    }
}

/// A residue with an inverse divides zero only by zero.
pub proof fn lemma_no_zero_divisor(x: int, y: int, f: int)
    requires
        0 <= f < modulus(),
        fmul(x, y) == 1,
        fmul(x, f) == 0,
    ensures
        f == 0,
{
    lemma_fmul_associative(f, x, y);
    lemma_fmul_commutative(f, x);
    assert(fmul(f, 1) == f) by {
        assert(f * 1 == f);
    }
    assert(fmul(0, y) == 0) by {
        assert(0 * y == 0);
    }
}

impl Felt {
/// The limbs stand for an integer below the characteristic.
    #[verifier::type_invariant]
    spec fn canonical(self) -> bool {
        limbs_value(self.limbs@) < modulus()
    }

    /// Every element is a residue.
    pub fn bounded(&self)
        ensures
            0 <= self@ < modulus(),
    {
        proof {
            use_type_invariant(self);
        }
    }

/// The additive identity.
    pub fn zero() -> (r: Felt)
        ensures
            r@ == 0,
            r == constant(0),
    {
        let r = Felt { limbs: [0, 0, 0, 0] };
        proof {
            lemma_constant_of_canonical(r);
        }
        r
    }

/// The multiplicative identity.
    pub fn one() -> (r: Felt)
        ensures
            r@ == 1,
            r == constant(1),
    {
        let r = Felt { limbs: [1, 0, 0, 0] };
        proof {
            lemma_constant_of_canonical(r);
        }
        r
    }

/// The element that stands for `v`.
    pub fn from_u64(v: u64) -> (r: Felt)
        ensures
            r@ == v,
            r == constant(v as int),
    {
        let r = Felt { limbs: [v, 0, 0, 0] };
        proof {
            lemma_constant_of_canonical(r);
        }
        r
    }

/// The element that stands for `v`.
    pub fn from_u128(v: u128) -> (r: Felt)
        ensures
            r@ == v,
    {
        let lo: u64 = (v & 0xffff_ffff_ffff_ffff) as u64;
        let hi: u64 = (v >> 64) as u64;
        assert(v == (v & 0xffff_ffff_ffff_ffff) + (v >> 64) * 0x1_0000_0000_0000_0000) by (bit_vector);
        assert((v & 0xffff_ffff_ffff_ffff) < 0x1_0000_0000_0000_0000) by (bit_vector);
        assert((v >> 64) < 0x1_0000_0000_0000_0000) by (bit_vector);
        Felt { limbs: [lo, hi, 0, 0] }
    }

    /// The element that the limbs stand for, if they are canonical.
    pub fn from_limbs(limbs: [u64; 4]) -> (r: Option<Felt>)
        ensures
            r is Some <==> limbs_value(limbs@) < modulus(),
            r matches Some(f) ==> f@ == limbs_value(limbs@),
    {
        let below = limbs[3] < MODULUS_L3 || (limbs[3] == MODULUS_L3 && (limbs[2] < MODULUS_L2 || (
        limbs[2] == MODULUS_L2 && (limbs[1] < MODULUS_L1 || (limbs[1] == MODULUS_L1 && limbs[0]
            < MODULUS_L0)))));
        if below {
            Some(Felt { limbs })
        } else {
            None
        }
    }

/// The limbs of the canonical representative, least significant first.
    pub fn to_limbs(&self) -> (r: [u64; 4])
        ensures
            limbs_value(r@) == self@,
    {
        proof {
            use_type_invariant(self);
        }
        self.limbs
    }

/// The canonical representative, if it fits 64 bits.
    pub fn to_u64(&self) -> (r: Option<u64>)
        ensures
            r is Some <==> self@ <= u64::MAX,
            r matches Some(v) ==> v == self@,
    {
        proof {
            use_type_invariant(self);
        }
        if self.limbs[1] == 0 && self.limbs[2] == 0 && self.limbs[3] == 0 {
            Some(self.limbs[0])
        } else {
            None
        }
    }

/// Whether the element is zero.
    pub fn is_zero(&self) -> (r: bool)
        ensures
            r == (self@ == 0),
    {
        proof {
            use_type_invariant(self);
        }
        self.limbs[0] == 0 && self.limbs[1] == 0 && self.limbs[2] == 0 && self.limbs[3] == 0
    }

/// Whether two elements are the same.
    pub fn equals(&self, other: &Felt) -> (r: bool)
        ensures
            r == (self@ == other@),
    {
        proof {
            use_type_invariant(self);
            use_type_invariant(other);
            if self@ == other@ {
                lemma_limbs_injective(self.limbs@, other.limbs@);
            }
        }
        self.limbs[0] == other.limbs[0] && self.limbs[1] == other.limbs[1] && self.limbs[2]
            == other.limbs[2] && self.limbs[3] == other.limbs[3]
    }

    /// Order of the canonical representatives.
    pub fn less_than(&self, other: &Felt) -> (r: bool)
        ensures
            r == (self@ < other@),
    {
        proof {
            use_type_invariant(self);
            use_type_invariant(other);
        }
        let a = &self.limbs;
        let b = &other.limbs;
        a[3] < b[3] || (a[3] == b[3] && (a[2] < b[2] || (a[2] == b[2] && (a[1] < b[1] || (a[1]
            == b[1] && a[0] < b[0])))))
    }

    /// Two to the power `k`.
    pub fn power_of_two(k: u32) -> (r: Felt)
        requires
            k <= 254,
        ensures
            r@ == pow2(k as nat),
            r == constant(pow2(k as nat) as int),
    {
        let r = Felt::power_of_two_limbs(k);
        proof {
            use_type_invariant(&r);
            lemma_constant_of_canonical(r);
        }
        r
    }

/// The limbs with the one bit of two to the power `k` set.
    fn power_of_two_limbs(k: u32) -> (r: Felt)
        requires
            k <= 254,
        ensures
            r@ == pow2(k as nat),
    {
        let s: u32 = k % 64;
        let bit: u64 = 1u64 << s;
        proof {
            lemma2_to64();
            lemma2_to64_rest();
            lemma_u64_pow2_no_overflow(s as nat);
            lemma_u64_shl_is_mul(1, s as u64);
            lemma_pow2_adds(64, s as nat);
            lemma_pow2_adds(64, 64);
            lemma_pow2_adds(128, s as nat);
            lemma_pow2_adds(128, 64);
            lemma_pow2_adds(192, s as nat);
            if k >= 192 {
                if s < 62 {
                    lemma_pow2_strictly_increases(s as nat, 62);
                }
            }
        }
        assert(bit == pow2(s as nat));
        if k < 64 {
            assert(k == s);
            Felt { limbs: [bit, 0, 0, 0] }
        } else if k < 128 {
            assert(k as nat == 64 + s as nat);
            assert(pow2(k as nat) == 0x1_0000_0000_0000_0000 * bit);
            Felt { limbs: [0, bit, 0, 0] }
        } else if k < 192 {
            assert(k as nat == 128 + s as nat);
            assert(pow2(128) == 0x1_0000_0000_0000_0000_0000_0000_0000_0000);
            assert(pow2(k as nat) == 0x1_0000_0000_0000_0000_0000_0000_0000_0000 * bit);
            Felt { limbs: [0, 0, bit, 0] }
        } else {
            assert(k as nat == 192 + s as nat);
            assert(pow2(128) == 0x1_0000_0000_0000_0000_0000_0000_0000_0000);
            assert(pow2(192) == 0x1_0000_0000_0000_0000_0000_0000_0000_0000_0000_0000_0000_0000);
            assert(pow2(k as nat) == 0x1_0000_0000_0000_0000_0000_0000_0000_0000_0000_0000_0000_0000
                * bit);
            assert(bit <= 0x4000_0000_0000_0000);
            Felt { limbs: [0, 0, 0, bit] }
        }
    }

    /// Quotient and remainder of the canonical representative by two to the
    /// power `bits`.
    pub fn split(&self, bits: u32) -> (r: (Felt, Felt))
        requires
            0 < bits < 64,
        ensures
            r.0@ == self@ / (pow2(bits as nat) as int),
            r.1@ == self@ % (pow2(bits as nat) as int),
    {
        let d: u64 = 1u64 << bits;
        let e: u64 = 1u64 << (64 - bits);
        proof {
            use_type_invariant(self);
            lemma2_to64();
            lemma_u64_pow2_no_overflow(bits as nat);
            lemma_u64_pow2_no_overflow((64 - bits) as nat);
            lemma_u64_shl_is_mul(1, bits as u64);
            lemma_u64_shl_is_mul(1, (64 - bits) as u64);
            lemma_pow2_adds(bits as nat, (64 - bits) as nat);
            lemma_pow2_pos(bits as nat);
        }
        let l = &self.limbs;
        let h0 = shift_limb(l[0], l[1], d, e);
        let h1 = shift_limb(l[1], l[2], d, e);
        let h2 = shift_limb(l[2], l[3], d, e);
        let h3 = shift_limb(l[3], 0, d, e);
        let low: u64 = l[0] % d;
        proof {
            let w: int = 0x1_0000_0000_0000_0000int;
            let high: int = h0 + h1 * w + h2 * (w * w) + h3 * (w * w * w);
            assert(w * w == 0x1_0000_0000_0000_0000_0000_0000_0000_0000int);
            assert(w * w * w == 0x1_0000_0000_0000_0000_0000_0000_0000_0000_0000_0000_0000_0000int);
            assert(0u64 % d == 0);
            assert(high * d == h0 * d + (h1 * d) * w + (h2 * d) * (w * w) + (h3 * d) * (w * w * w)
                && high <= high * d) by (nonlinear_arith)
                requires
                    high == h0 + h1 * w + h2 * (w * w) + h3 * (w * w * w),
                    d >= 1,
                    w > 0,
            ;
            assert(high * d + low == self@);
            lemma_fundamental_div_mod_converse(self@, d as int, high, low as int);
        }
        (Felt { limbs: [h0, h1, h2, h3] }, Felt { limbs: [low, 0, 0, 0] })
    }

/// The sum, in the field.
    pub fn plus(&self, rhs: &Felt) -> (r: Felt)
        ensures
            r@ == fadd(self@, rhs@),
    {
        proof {
            use_type_invariant(self);
            use_type_invariant(rhs);
        }
        Felt { limbs: fp_add(self.limbs, rhs.limbs) }
    }

/// The difference, in the field.
    pub fn minus(&self, rhs: &Felt) -> (r: Felt)
        ensures
            r@ == fsub(self@, rhs@),
    {
        proof {
            use_type_invariant(self);
            use_type_invariant(rhs);
        }
        Felt { limbs: fp_sub(self.limbs, rhs.limbs) }
    }

/// The product, in the field.
    pub fn times(&self, rhs: &Felt) -> (r: Felt)
        ensures
            r@ == fmul(self@, rhs@),
    {
        proof {
            use_type_invariant(self);
            use_type_invariant(rhs);
        }
        Felt { limbs: fp_mul(self.limbs, rhs.limbs) }
    }

    /// The inverse, or zero for zero.
    pub fn inverse_or_zero(&self) -> (r: Felt)
        ensures
            r@ == inverse_or_zero(self@),
            inverse_witness(self@, r@),
    {
        match self.invert() {
            Some(y) => {
                y.bounded();
                y
            },
            None => Felt::zero(),
        }
    }

    /// The multiplicative inverse, which every element but zero has.
    pub fn invert(&self) -> (r: Option<Felt>)
        ensures
            r is None <==> self@ == 0,
            r matches Some(y) ==> fmul(self@, y@) == 1 && y@ == inverse(self@),
    {
        proof {
            use_type_invariant(self);
        }
        match fp_invert(self.limbs) {
            Some(limbs) => {
                let y = Felt { limbs };
                proof {
                    lemma_residue(y);
                    lemma_inverse_unique(self@, y@, inverse(self@));
                }
                Some(y)
            },
            None => None,
        }
    }
}

} // verus!
