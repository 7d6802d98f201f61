//! Channel selectors, point-operation arithmetic, and the exact per-byte
//! value specifications that the buffer transforms promise.

use vstd::prelude::*;

verus! {

/// One of the four interleaved components of an RGBA8 pixel, mapped to a
/// byte offset within the pixel: R=0, G=1, B=2, A=3.
#[derive(Clone, Copy, PartialEq, Eq, Hash, Structural)]
pub enum ColorComponent {
    Red,
    Green,
    Blue,
    Alpha,
}

impl ColorComponent {
    /// Byte offset of this component inside a 4-byte pixel.
    pub open spec fn spec_offset(self) -> int {
        match self {
            ColorComponent::Red => 0,
            ColorComponent::Green => 1,
            ColorComponent::Blue => 2,
            ColorComponent::Alpha => 3,
        }
    }

    /// Executable byte offset of this component inside a 4-byte pixel.
    pub fn offset(self) -> (r: usize)
        ensures
            r == self.spec_offset(),
    {
        match self {
            ColorComponent::Red => 0,
            ColorComponent::Green => 1,
            ColorComponent::Blue => 2,
            ColorComponent::Alpha => 3,
        }
    }
}

/// The closed set of per-channel point operations. A value of this type is
/// validated before it reaches the engine, so an unrecognized selection is a
/// recoverable error at the caller and never a crash inside a transform.
#[derive(Clone, Copy, Debug, PartialEq, Eq, Structural)]
pub enum ArithmeticOp {
    Add,
    Subtract,
    Multiply,
    Divide,
}

/// An exact rational scalar `num / den`, the operand of a point operation.
///
/// Point operations combine a channel byte with a scalar drawn from a UI
/// control; the engine takes that scalar as an exact fraction so that every
/// transform is specified precisely, with truncation toward minus infinity
/// happening exactly once, at the final narrowing to a byte.
#[derive(Clone, Copy, Debug, PartialEq, Eq, Structural)]
pub struct Operand {
    /// Numerator; carries the sign of the scalar.
    pub num: i32,
    /// Denominator; must be at least 1.
    pub den: u32,
}

impl Operand {
    /// A valid operand has a positive denominator.
    pub open spec fn wf(self) -> bool {
        self.den >= 1
    }

    /// The operand with value `n / 1`.
    pub fn from_int(n: i32) -> (r: Operand)
        ensures
            r.wf(),
            r.num == n,
            r.den == 1,
    {
        Operand { num: n, den: 1 }
    }

    /// Builds `num / den`, rejecting a zero denominator.
    pub fn new(num: i32, den: u32) -> (r: Option<Operand>)
        ensures
            den >= 1 <==> r is Some,
            r is Some ==> r->0 == (Operand { num, den }) && r->0.wf(),
    {
        if den >= 1 {
            Some(Operand { num, den })
        } else {
            None
        }
    }

    /// True exactly when the scalar is zero, the no-op operand.
    pub open spec fn spec_is_zero(self) -> bool {
        self.num == 0
    }

    /// Tests whether the scalar is zero.
    pub fn is_zero(self) -> (r: bool)
        ensures
            r == self.spec_is_zero(),
    {
        self.num == 0
    }
}

/// Failure to turn an incoming byte stream into an RGBA8 raster.
#[derive(Clone, Copy, Debug, PartialEq, Eq, Structural)]
pub enum DecodeError {
    /// The bytes could not be recognized or decoded as an image.
    Malformed,
    /// The stream decoded, but to a raster with a zero dimension, which the
    /// buffer invariant excludes.
    EmptyDimensions,
}

/// Clamps a mathematical integer into the byte range `[0, 255]`.
pub open spec fn clamp_byte(v: int) -> int {
    if v < 0 {
        0
    } else if v > 255 {
        255
    } else {
        v
    }
}

/// The byte produced by one point operation on one channel byte `b` with
/// operand `operand`: the exact rational result, truncated toward minus
/// infinity and clamped into `[0, 255]`.
///
/// Division by a non-positive scalar yields 0: the exact quotient is not
/// positive there, so the clamp would send it to 0 in any case.
pub open spec fn point_val(op: ArithmeticOp, b: u8, operand: Operand) -> int
    recommends
        operand.wf(),
{
    let num = operand.num as int;
    let den = operand.den as int;
    match op {
        ArithmeticOp::Add => clamp_byte((b * den + num) / den),
        ArithmeticOp::Subtract => clamp_byte((b * den - num) / den),
        ArithmeticOp::Multiply => clamp_byte((b * num) / den),
        ArithmeticOp::Divide => if num <= 0 {
            0
        } else {
            clamp_byte((b * den) / num)
        },
    }
}

/// The byte produced by the brightness remap on one color byte `b`, for a
/// slider amount `num / den` in `[-1, 1]`.
///
/// The amount is halved first (the UI slider spans twice the useful range),
/// then a negative amount scales the byte linearly toward black and a
/// non-negative amount moves it linearly toward white, saturating as the
/// byte approaches 255. The exact rational result is truncated to a byte;
/// it already lies in `[0, 255]`, so no clamp is needed.
pub open spec fn bright_val(b: u8, amount: Operand) -> int
    recommends
        amount.wf(),
        -(amount.den as int) <= amount.num as int <= amount.den as int,
{
    let num = amount.num as int;
    let den = amount.den as int;
    if num < 0 {
        (b * (2 * den + num)) / (2 * den)
    } else {
        (2 * den * b + num * (255 - b)) / (2 * den)
    }
}

} // verus!
