//! The tagged scalar value domain that flows through pipelines and switches.

use vstd::prelude::*;

verus! {

/// A tagged scalar value. `I32` is a 32-bit signed integer, `FP32` carries a
/// 32-bit floating-point value as its raw IEEE-754 bit pattern (the verified
/// core only routes, stores and compares such values; it never does
/// floating-point arithmetic), `Bit` is a single bit, `DontCare` is a wildcard
/// that compares equal to any value, and `Empty` marks an absent value.
#[derive(Clone, Copy, Debug, PartialEq, Eq, Structural)]
pub enum Scalar {
    I32(i32),
    FP32(u32),
    Bit(bool),
    DontCare,
    Empty,
}

impl Scalar {
    /// A value is defined when it carries data; `DontCare` and `Empty` do not.
    pub open spec fn is_defined(self) -> bool {
        self is I32 || self is FP32 || self is Bit
    }

    /// The bit width of a defined value.
    pub open spec fn width_spec(self) -> usize {
        match self {
            Scalar::Bit(_) => 1usize,
            Scalar::I32(_) => 32usize,
            Scalar::FP32(_) => 32usize,
            _ => arbitrary(),
        }
    }

    /// Bit width of the value: 1 for `Bit`, 32 for `I32` and `FP32`.
    /// Undefined values have no width and are ruled out by the precondition.
    pub fn width(&self) -> (w: usize)
        requires
            self.is_defined(),
        ensures
            w == self.width_spec(),
    {
        match self {
            Scalar::Bit(_) => 1,
            Scalar::I32(_) => 32,
            Scalar::FP32(_) => 32,
            Scalar::DontCare => 0,
            Scalar::Empty => 0,
        }
    }

    /// Two values are comparable when either is the `DontCare` wildcard or
    /// both are defined values of the same variant.
    pub open spec fn wild_compatible(self, other: Scalar) -> bool {
        ||| self is DontCare
        ||| other is DontCare
        ||| (self is Bit && other is Bit)
        ||| (self is I32 && other is I32)
        ||| (self is FP32 && other is FP32)
    }

    /// Wildcard equality: `DontCare` matches anything; defined values of the
    /// same variant compare by their payload.
    pub open spec fn wild_eq_spec(self, other: Scalar) -> bool {
        match (self, other) {
            (Scalar::DontCare, _) => true,
            (_, Scalar::DontCare) => true,
            (Scalar::Bit(a), Scalar::Bit(b)) => a == b,
            (Scalar::I32(a), Scalar::I32(b)) => a == b,
            (Scalar::FP32(a), Scalar::FP32(b)) => a == b,
            _ => arbitrary(),
        }
    }

    /// Wildcard comparison of two comparable values. Comparing values of
    /// mixed defined variants is a programmer error and is ruled out by the
    /// precondition.
    pub fn wild_eq(&self, other: &Scalar) -> (r: bool)
        requires
            self.wild_compatible(*other),
        ensures
            r == self.wild_eq_spec(*other),
    {
        match (self, other) {
            (Scalar::DontCare, _) => true,
            (_, Scalar::DontCare) => true,
            (Scalar::Bit(a), Scalar::Bit(b)) => a == b,
            (Scalar::I32(a), Scalar::I32(b)) => a == b,
            (Scalar::FP32(a), Scalar::FP32(b)) => a == b,
            _ => false,
        }
    }
}

} // verus!
