//! Vectors, quaternions and matrices of single-precision numbers, each number held as its bits.

use vstd::arithmetic::power2::{
    lemma_pow2_pos, lemma_pow2_strictly_increases, lemma_pow2_unfold, pow2,
};
use vstd::prelude::*;

verus! {

/// The bits of a single-precision number.
pub type F32Bits = u32;

/// The bits of `0.0`.
pub const F32_ZERO: u32 = 0;

/// The bits of `1.0`.
pub const F32_ONE: u32 = 0x3F80_0000;

/// The bits of `1.5`.
pub const F32_ONE_AND_HALF: u32 = 0x3FC0_0000;

/// Whether the bits are those of a NaN: all exponent bits set and a fraction that is not zero.
pub open spec fn f32_is_nan(bits: F32Bits) -> bool {
    bits as int % 0x8000_0000 > 0x7F80_0000
}

/// A number that orders all numbers but NaN as their values are ordered; both zeros have the same.
pub open spec fn f32_rank(bits: F32Bits) -> int {
    if bits < 0x8000_0000 {
        bits as int
    } else {
        0x8000_0000 - bits as int
    }
}

/// `a <= b`; never with a NaN.
pub open spec fn f32_le(a: F32Bits, b: F32Bits) -> bool {
    !f32_is_nan(a) && !f32_is_nan(b) && f32_rank(a) <= f32_rank(b)
}

/// `a < b`; never with a NaN.
pub open spec fn f32_lt(a: F32Bits, b: F32Bits) -> bool {
    !f32_is_nan(a) && !f32_is_nan(b) && f32_rank(a) < f32_rank(b)
}

/// Whether the bits are those of a NaN.
pub fn is_nan(bits: F32Bits) -> (out: bool)
    ensures
        out == f32_is_nan(bits),
{
    bits % 0x8000_0000 > 0x7F80_0000
}

fn rank(bits: F32Bits) -> (out: i64)
    ensures
        out == f32_rank(bits),
{
    if bits < 0x8000_0000 {
        bits as i64
    } else {
        0x8000_0000 - bits as i64
    }
}

/// `a <= b` on numbers given by their bits.
pub fn at_most(a: F32Bits, b: F32Bits) -> (out: bool)
    ensures
        out == f32_le(a, b),
{
    !is_nan(a) && !is_nan(b) && rank(a) <= rank(b)
}

/// `a < b` on numbers given by their bits.
pub fn below(a: F32Bits, b: F32Bits) -> (out: bool)
    ensures
        out == f32_lt(a, b),
{
    !is_nan(a) && !is_nan(b) && rank(a) < rank(b)
}

#[derive(Clone, Copy, PartialEq, Eq, Structural, Debug)]
pub struct Vec2 {
    pub x: F32Bits,
    pub y: F32Bits,
}

#[derive(Clone, Copy, PartialEq, Eq, Structural, Debug)]
pub struct Vec3 {
    pub x: F32Bits,
    pub y: F32Bits,
    pub z: F32Bits,
}

#[derive(Clone, Copy, PartialEq, Eq, Structural, Debug)]
pub struct Vec4 {
    pub x: F32Bits,
    pub y: F32Bits,
    pub z: F32Bits,
    pub w: F32Bits,
}

/// A rotation: the vector part and the scalar part.
#[derive(Clone, Copy, PartialEq, Eq, Structural, Debug)]
pub struct Quaternion {
    pub v: Vec3,
    pub s: F32Bits,
}

/// A matrix of four columns.
#[derive(Clone, Copy, PartialEq, Eq, Structural, Debug)]
pub struct Mat4 {
    pub x: Vec4,
    pub y: Vec4,
    pub z: Vec4,
    pub w: Vec4,
}

impl View for Vec2 {
    type V = Vec2;

    open spec fn view(&self) -> Vec2 {
        *self
    }
}

impl View for Vec3 {
    type V = Vec3;

    open spec fn view(&self) -> Vec3 {
        *self
    }
}

impl View for Quaternion {
    type V = Quaternion;

    open spec fn view(&self) -> Quaternion {
        *self
    }
}

impl View for Mat4 {
    type V = Mat4;

    open spec fn view(&self) -> Mat4 {
        *self
    }
}

impl Vec2 {
    pub fn new(x: F32Bits, y: F32Bits) -> (out: Self)
        ensures
            out == (Vec2 { x, y }),
    {
        Vec2 { x, y }
    }
}

impl Vec3 {
    pub fn new(x: F32Bits, y: F32Bits, z: F32Bits) -> (out: Self)
        ensures
            out == (Vec3 { x, y, z }),
    {
        Vec3 { x, y, z }
    }
}

impl Mat4 {
    /// Ones on the diagonal and zeros elsewhere.
    pub open spec fn spec_identity() -> Mat4 {
        Mat4 {
            x: Vec4 { x: F32_ONE, y: F32_ZERO, z: F32_ZERO, w: F32_ZERO },
            y: Vec4 { x: F32_ZERO, y: F32_ONE, z: F32_ZERO, w: F32_ZERO },
            z: Vec4 { x: F32_ZERO, y: F32_ZERO, z: F32_ONE, w: F32_ZERO },
            w: Vec4 { x: F32_ZERO, y: F32_ZERO, z: F32_ZERO, w: F32_ONE },
        }
    }

    /// The matrix that changes nothing.
    pub fn identity() -> (out: Mat4)
        ensures
            out == Self::spec_identity(),
    {
        Mat4 {
            x: Vec4 { x: F32_ONE, y: F32_ZERO, z: F32_ZERO, w: F32_ZERO },
            y: Vec4 { x: F32_ZERO, y: F32_ONE, z: F32_ZERO, w: F32_ZERO },
            z: Vec4 { x: F32_ZERO, y: F32_ZERO, z: F32_ONE, w: F32_ZERO },
            w: Vec4 { x: F32_ZERO, y: F32_ZERO, z: F32_ZERO, w: F32_ONE },
        }
    }
}

/// The matrix that changes nothing has ones, `0x3F800000` by their bits, on its diagonal and zeros
/// elsewhere.
pub proof fn law_identity_has_ones_on_its_diagonal()
    ensures
        ({
            let m = Mat4::spec_identity();
            &&& m.x.x == 0x3F80_0000 && m.y.y == 0x3F80_0000 && m.z.z == 0x3F80_0000 && m.w.w
                == 0x3F80_0000
            &&& m.x.y == 0 && m.x.z == 0 && m.x.w == 0
            &&& m.y.x == 0 && m.y.z == 0 && m.y.w == 0
            &&& m.z.x == 0 && m.z.y == 0 && m.z.w == 0
            &&& m.w.x == 0 && m.w.y == 0 && m.w.z == 0
        }),
{
}

/// The size of a number with these exponent and fraction bits, in units of the smallest one. An
/// exponent of all ones, with no fraction, is beyond all numbers.
pub open spec fn magnitude(exponent: nat, fraction: nat) -> nat {
    if exponent == 0 {
        fraction
    } else {
        (0x80_0000 + fraction) * pow2((exponent - 1) as nat)
    }
}

/// The value of a number with these sign, exponent and fraction bits.
pub open spec fn value_of(negative: bool, exponent: nat, fraction: nat) -> int {
    if negative {
        -(magnitude(exponent, fraction) as int)
    } else {
        magnitude(exponent, fraction) as int
    }
}

/// The bits of a number with these parts.
pub open spec fn bits_of(negative: bool, exponent: nat, fraction: nat) -> int {
    (if negative {
        0x8000_0000int
    } else {
        0int
    }) + exponent * 0x80_0000 + fraction
}

proof fn lemma_magnitude_grows(e1: nat, f1: nat, e2: nat, f2: nat)
    requires
        f1 < 0x80_0000,
        f2 < 0x80_0000,
        e1 * 0x80_0000 + f1 < e2 * 0x80_0000 + f2,
    ensures
        magnitude(e1, f1) < magnitude(e2, f2),
{
    if e1 == e2 {
        if e1 > 0 {
            let p = pow2((e1 - 1) as nat);
            lemma_pow2_pos((e1 - 1) as nat);
            assert((0x80_0000 + f1) * p < (0x80_0000 + f2) * p) by (nonlinear_arith)
                requires
                    f1 < f2,
                    p > 0,
            ;
        }
    } else {
        let q = pow2((e2 - 1) as nat);
        lemma_pow2_pos((e2 - 1) as nat);
        assert(magnitude(e2, f2) >= 0x80_0000 * q) by (nonlinear_arith)
            requires
                magnitude(e2, f2) == (0x80_0000 + f2) * q,
        ;
        if e1 == 0 {
            assert(0x80_0000 * q >= 0x80_0000) by (nonlinear_arith)
                requires
                    q > 0,
            ;
        } else {
            let p = pow2((e1 - 1) as nat);
            lemma_pow2_pos((e1 - 1) as nat);
            lemma_pow2_unfold(e1);
            if e1 < e2 - 1 {
                lemma_pow2_strictly_increases(e1, (e2 - 1) as nat);
            }
            assert((0x80_0000 + f1) * p < 0x80_0000 * q) by (nonlinear_arith)
                requires
                    f1 < 0x80_0000,
                    2 * p <= q,
                    p > 0,
            ;
        }
    }
}

/// Numbers compare as their values do. The bits of a number are a sign, an exponent of eight bits and
/// a fraction of twenty-three; those with all exponent bits and any fraction bit set are no numbers,
/// and compare with nothing.
pub proof fn law_bits_compare_as_values(
    a: F32Bits,
    a_negative: bool,
    a_exponent: nat,
    a_fraction: nat,
    b: F32Bits,
    b_negative: bool,
    b_exponent: nat,
    b_fraction: nat,
)
    requires
        a_exponent < 256,
        a_fraction < 0x80_0000,
        a == bits_of(a_negative, a_exponent, a_fraction),
        b_exponent < 256,
        b_fraction < 0x80_0000,
        b == bits_of(b_negative, b_exponent, b_fraction),
    ensures
        f32_is_nan(a) <==> a_exponent == 255 && a_fraction > 0,
        f32_is_nan(a) ==> !f32_le(a, b) && !f32_lt(a, b) && !f32_le(b, a) && !f32_lt(b, a),
        !f32_is_nan(a) && !f32_is_nan(b) ==> {
            let x = value_of(a_negative, a_exponent, a_fraction);
            let y = value_of(b_negative, b_exponent, b_fraction);
            &&& f32_le(a, b) <==> x <= y
            &&& f32_lt(a, b) <==> x < y
        },
{
    let m = a_exponent * 0x80_0000 + a_fraction;
    let n = b_exponent * 0x80_0000 + b_fraction;
    if m < n {
        lemma_magnitude_grows(a_exponent, a_fraction, b_exponent, b_fraction);
    } else if n < m {
        lemma_magnitude_grows(b_exponent, b_fraction, a_exponent, a_fraction);
    } else {
        assert(a_exponent == b_exponent && a_fraction == b_fraction);
    }
    if m > 0 {
        lemma_magnitude_grows(0, 0, a_exponent, a_fraction);
    } else {
        assert(a_exponent == 0 && a_fraction == 0);
    }
    if n > 0 {
        lemma_magnitude_grows(0, 0, b_exponent, b_fraction);
    } else {
        assert(b_exponent == 0 && b_fraction == 0);
    }
}

} // verus!
