//! Configuration and runtime fault kinds of the simulator core.

use vstd::prelude::*;

verus! {

/// A construction-time configuration error. These are detected by `new` or by
/// `ProgramBuilder::initialize`, before any component runs.
#[derive(Clone, Copy, Debug, PartialEq, Eq, Structural)]
pub enum ConfigError {
    /// Hardware and runtime ALU configuration lists differ in shape.
    ShapeMismatch,
    /// A runtime operation is not in the hardware slot's supported set.
    UnsupportedOp,
    /// A pipeline needs at least one stage.
    EmptyPipeline,
    /// Endpoint count disagrees with the hardware configuration, or a required
    /// input port has no attached receiver.
    WrongPortCount,
    /// A routing table entry names an input or output out of range.
    BadRouting,
    /// The routing delay table's dimensions disagree with the port counts.
    BadDelayTable,
    /// A channel endpoint is attached to no component or to more than one,
    /// or a registered component's internal shape is inconsistent.
    BadWiring,
}

/// A fatal runtime fault: a programmer error observed while the simulation
/// runs. The run records it, terminates the faulting component, and reports
/// the simulation as failed.
#[derive(Clone, Copy, Debug, PartialEq, Eq, Structural)]
pub enum Fault {
    /// A pipeline iteration was undefined: an operand selector indexed
    /// outside its register file, the operands were not supported by the
    /// stage's operation (mismatched variants, overflow, division by zero),
    /// or the output timestamp overflowed.
    BadIteration,
    /// Data arrived on a switch input absent from the routing table.
    UnroutedInput,
    /// A switch was configured in the many-to-many mode, whose conflict
    /// resolution is left undefined.
    UnsupportedMode,
    /// A virtual timestamp overflowed.
    TimeOverflow,
    /// A checker saw a value that differs from the expected one, saw extra
    /// values, or was closed before its expected values were exhausted.
    CheckMismatch,
    /// No component could make progress although some had not terminated.
    Deadlock,
}

/// The outcome of giving a component one unit of work: it moved, it is
/// waiting on a channel, it has terminated, or it hit a fatal fault.
pub enum StepResult {
    Progress,
    Blocked,
    Finished,
    Faulted(Fault),
}

} // verus!
