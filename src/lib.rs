//! Host-side control of a desktop 3D printer that speaks the Marlin line
//! protocol: the wire grammar and framing, the job-file reader with resend
//! support and remaining-time estimation, the printer lifecycle state
//! machine, a simulated printer, and the broker's dispatch rules.
//!
//! Nothing here performs I/O. The caller owns the serial link and the
//! clock, hands replies and clock readings in, and writes out the commands
//! the state machine hands back.
use vstd::prelude::*;

pub mod text;
pub mod types;
pub mod job;
pub mod marlin;
pub mod capabilities;
pub mod printer;
pub mod sim;
pub mod broker;
pub mod console;
pub mod reports;

verus! {

} // verus!
