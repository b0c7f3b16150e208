//! ALU operations, operand selectors and per-ALU configuration.

use vstd::prelude::*;

use crate::scalar::Scalar;

verus! {

/// Where an ALU operand comes from, parameterized by a register index:
/// `PREV(i)` reads register `i` of the previous stage's output for the current
/// lane, `PREV_BELOW(i)` reads the same register one SIMD lane below
/// (lane + 1), `NEXT(i)` reads register `i` of this stage's own pre-update
/// register file (feedback from the prior iteration), and `CONSTANT(v)` is the
/// literal `v`.
#[allow(non_camel_case_types)]
#[derive(Clone, Copy, Debug)]
pub enum ALUInput {
    PREV(usize),
    PREV_BELOW(usize),
    NEXT(usize),
    CONSTANT(Scalar),
}

/// The operation an ALU performs: add, subtract, multiply or divide, over
/// 32-bit integers or 32-bit floating-point values.
#[allow(non_camel_case_types)]
#[derive(Clone, Copy, Debug, PartialEq, Eq, Structural)]
pub enum ALUOp {
    ADD_I32,
    SUB_I32,
    MUL_I32,
    DIV_I32,
    ADD_FP32,
    SUB_FP32,
    MUL_FP32,
    DIV_FP32,
}

impl ALUOp {
    /// The fixed latency, in cycles, of each operation.
    pub open spec fn delay_spec(self) -> usize {
        match self {
            ALUOp::ADD_I32 => 1usize,
            ALUOp::SUB_I32 => 1usize,
            ALUOp::MUL_I32 => 2usize,
            ALUOp::DIV_I32 => 4usize,
            ALUOp::ADD_FP32 => 2usize,
            ALUOp::SUB_FP32 => 2usize,
            ALUOp::MUL_FP32 => 3usize,
            ALUOp::DIV_FP32 => 5usize,
        }
    }

    /// Latency of the operation in cycles.
    pub fn delay(&self) -> (d: usize)
        ensures
            d == self.delay_spec(),
            1 <= d <= 5,
    {
        match self {
            ALUOp::ADD_I32 => 1,
            ALUOp::SUB_I32 => 1,
            ALUOp::MUL_I32 => 2,
            ALUOp::DIV_I32 => 4,
            ALUOp::ADD_FP32 => 2,
            ALUOp::SUB_FP32 => 2,
            ALUOp::MUL_FP32 => 3,
            ALUOp::DIV_FP32 => 5,
        }
    }

    /// Whether applying the operation to the two operands is defined: the
    /// operands must be `I32` values under an integer operation, the result
    /// must fit in 32 bits, and a divisor must be nonzero. Floating-point
    /// operations are not defined here: the verified core carries `FP32`
    /// values only as opaque bit patterns and does no arithmetic on them.
    pub open spec fn apply_defined(self, lhs: Scalar, rhs: Scalar) -> bool {
        match (self, lhs, rhs) {
            (ALUOp::ADD_I32, Scalar::I32(x), Scalar::I32(y)) => x.checked_add(y) is Some,
            (ALUOp::SUB_I32, Scalar::I32(x), Scalar::I32(y)) => x.checked_sub(y) is Some,
            (ALUOp::MUL_I32, Scalar::I32(x), Scalar::I32(y)) => x.checked_mul(y) is Some,
            (ALUOp::DIV_I32, Scalar::I32(x), Scalar::I32(y)) => x.checked_div(y) is Some,
            _ => false,
        }
    }

    /// The value the operation produces on defined operands.
    pub open spec fn apply_spec(self, lhs: Scalar, rhs: Scalar) -> Scalar {
        match (self, lhs, rhs) {
            (ALUOp::ADD_I32, Scalar::I32(x), Scalar::I32(y)) => Scalar::I32(
                x.checked_add(y).unwrap(),
            ),
            (ALUOp::SUB_I32, Scalar::I32(x), Scalar::I32(y)) => Scalar::I32(
                x.checked_sub(y).unwrap(),
            ),
            (ALUOp::MUL_I32, Scalar::I32(x), Scalar::I32(y)) => Scalar::I32(
                x.checked_mul(y).unwrap(),
            ),
            (ALUOp::DIV_I32, Scalar::I32(x), Scalar::I32(y)) => Scalar::I32(
                x.checked_div(y).unwrap(),
            ),
            _ => arbitrary(),
        }
    }

    /// Pure evaluation of the operation over two scalars. Mismatched operand
    /// variants, overflow and division by zero are programmer errors and are
    /// ruled out by the precondition; the result is exactly `apply_spec`, a
    /// function of the operation and the operands alone.
    pub fn apply(&self, lhs: &Scalar, rhs: &Scalar) -> (r: Scalar)
        requires
            self.apply_defined(*lhs, *rhs),
        ensures
            r == self.apply_spec(*lhs, *rhs),
    {
        match (self, lhs, rhs) {
            (ALUOp::ADD_I32, Scalar::I32(x), Scalar::I32(y)) => Scalar::I32(*x + *y),
            (ALUOp::SUB_I32, Scalar::I32(x), Scalar::I32(y)) => Scalar::I32(*x - *y),
            (ALUOp::MUL_I32, Scalar::I32(x), Scalar::I32(y)) => Scalar::I32(*x * *y),
            (ALUOp::DIV_I32, Scalar::I32(x), Scalar::I32(y)) => match x.checked_div(*y) {
                Some(v) => Scalar::I32(v),
                None => Scalar::Empty,
            },
            _ => Scalar::Empty,
        }
    }

    /// Total form of `apply`: `Some` exactly on defined operand pairs, and
    /// then carries `apply_spec`. Callers that cannot establish
    /// `apply_defined` up front use this and treat `None` as the fatal
    /// "unsupported operation" error.
    pub fn checked_apply(&self, lhs: &Scalar, rhs: &Scalar) -> (r: Option<Scalar>)
        ensures
            r is Some <==> self.apply_defined(*lhs, *rhs),
            self.apply_defined(*lhs, *rhs) ==> r == Some(self.apply_spec(*lhs, *rhs)),
    {
        match (self, lhs, rhs) {
            (ALUOp::ADD_I32, Scalar::I32(x), Scalar::I32(y)) => match x.checked_add(*y) {
                Some(v) => Some(Scalar::I32(v)),
                None => None,
            },
            (ALUOp::SUB_I32, Scalar::I32(x), Scalar::I32(y)) => match x.checked_sub(*y) {
                Some(v) => Some(Scalar::I32(v)),
                None => None,
            },
            (ALUOp::MUL_I32, Scalar::I32(x), Scalar::I32(y)) => match x.checked_mul(*y) {
                Some(v) => Some(Scalar::I32(v)),
                None => None,
            },
            (ALUOp::DIV_I32, Scalar::I32(x), Scalar::I32(y)) => match x.checked_div(*y) {
                Some(v) => Some(Scalar::I32(v)),
                None => None,
            },
            _ => None,
        }
    }
}

/// The index of the previous-stage register an operand selector reads, if any:
/// `PREV` and `PREV_BELOW` read an input port, `NEXT` and `CONSTANT` do not.
pub open spec fn sel_port(sel: ALUInput) -> Option<usize> {
    match sel {
        ALUInput::PREV(i) => Some(i),
        ALUInput::PREV_BELOW(i) => Some(i),
        ALUInput::NEXT(_) => None,
        ALUInput::CONSTANT(_) => None,
    }
}

/// Runtime configuration of one ALU: the operation, the two operand
/// selectors, and the register of this stage's output vector the result is
/// written to.
#[derive(Clone, Copy, Debug)]
pub struct ALURtConfig {
    pub op: ALUOp,
    pub in_a: ALUInput,
    pub in_b: ALUInput,
    pub target: usize,
}

impl ALURtConfig {
    /// The set of previous-stage input ports this ALU reads: the indices named
    /// by `PREV` and `PREV_BELOW` selectors. `NEXT` reads the stage's own
    /// registers and `CONSTANT` reads nothing, so neither claims a port.
    pub open spec fn input_regs_spec(self) -> Set<usize> {
        Set::empty().union(
            match sel_port(self.in_a) {
                Some(i) => Set::empty().insert(i),
                None => Set::empty(),
            },
        ).union(
            match sel_port(self.in_b) {
                Some(i) => Set::empty().insert(i),
                None => Set::empty(),
            },
        )
    }

    /// The input ports this ALU reads, as a duplicate-free ascending list.
    pub fn get_input_regs(&self) -> (regs: Vec<usize>)
        ensures
            forall|p: usize| #[trigger] regs@.contains(p) <==> self.input_regs_spec().contains(p),
            forall|i: int, j: int| 0 <= i < j < regs@.len() ==> regs@[i] < regs@[j],
    {
        let a = port_of(&self.in_a);
        let b = port_of(&self.in_b);
        let mut regs: Vec<usize> = Vec::new();
        match (a, b) {
            (Some(i), Some(j)) => {
                if i < j {
                    regs.push(i);
                    regs.push(j);
                } else if j < i {
                    regs.push(j);
                    regs.push(i);
                } else {
                    regs.push(i);
                }
                proof {
                    assert(regs@.contains(i)) by {
                        assert(regs@[0] == i || regs@[1] == i);
                    }
                    assert(regs@.contains(j)) by {
                        if i == j {
                            assert(regs@[0] == j);
                        } else {
                            assert(regs@[0] == j || regs@[1] == j);
                        }
                    }
                    assert(forall|p: usize| #[trigger] regs@.contains(p) ==> p == i || p == j);
                }
            },
            (Some(i), None) => {
                regs.push(i);
                proof {
                    assert(regs@.contains(i)) by {
                        assert(regs@[0] == i);
                    }
                    assert(forall|p: usize| #[trigger] regs@.contains(p) ==> p == i);
                }
            },
            (None, Some(j)) => {
                regs.push(j);
                proof {
                    assert(regs@.contains(j)) by {
                        assert(regs@[0] == j);
                    }
                    assert(forall|p: usize| #[trigger] regs@.contains(p) ==> p == j);
                }
            },
            (None, None) => (),
        }
        regs
    }
}

/// Executable form of `sel_port`.
fn port_of(sel: &ALUInput) -> (r: Option<usize>)
    ensures
        r == sel_port(*sel),
{
    match sel {
        ALUInput::PREV(i) => Some(*i),
        ALUInput::PREV_BELOW(i) => Some(*i),
        ALUInput::NEXT(_) => None,
        ALUInput::CONSTANT(_) => None,
    }
}

/// Hardware capability of one ALU slot: the operations it supports.
#[derive(Clone, Debug)]
pub struct ALUHwConfig {
    pub supported_ops: Vec<ALUOp>,
}

impl ALUHwConfig {
    /// Whether the slot supports the given operation.
    pub open spec fn supports_spec(self, op: ALUOp) -> bool {
        self.supported_ops@.contains(op)
    }

    pub fn supports(&self, op: ALUOp) -> (r: bool)
        ensures
            r == self.supports_spec(op),
    {
        let mut k: usize = 0;
        while k < self.supported_ops.len()
            invariant
                k <= self.supported_ops@.len(),
                forall|i: int| 0 <= i < k ==> self.supported_ops@[i] != op,
            decreases self.supported_ops@.len() - k,
        {
            if self.supported_ops[k] == op {
                return true;
            }
            k += 1;
        }
        false
    }
}

} // verus!
