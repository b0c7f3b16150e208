//! A cycle-accurate, discrete-event simulator core for a coarse-grained
//! reconfigurable fabric: pipelined pattern compute units (PCUs) made of ALU
//! stages, crossbar switches with backpressured routing, and the cooperative
//! single-threaded runtime of typed, bounded, timestamped channels that
//! schedules them.

pub mod scalar;
pub mod alu;
pub mod errors;
pub mod pipeline_stage;
pub mod pcu;
pub mod channel;
pub mod switch;
pub mod sim;
pub mod lower;
