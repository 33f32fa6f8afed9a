//! The broker's dispatch rules: which external commands need an attached
//! printer, and what is answered when none is.
use vstd::prelude::*;
use crate::types::PrinterCommand;

verus! {

/// How the broker handles one external command.
#[derive(Debug, Clone)]
pub enum Route {
    /// No printer: answer with the default status.
    DefaultStatus,
    /// Attach the simulated printer.
    ConnectSim,
    /// Open the serial device at this path and baud rate.
    ConnectSerial(String, u32),
    /// No printer is attached: `NotFound`.
    NoPrinter,
    /// A printer is attached already: `AlreadyExists`.
    AlreadyConnected,
    /// Drop the attached printer.
    Disconnect,
    /// Hand the command to the attached printer.
    Forward,
}

/// The path that selects the simulated printer.
pub open spec fn sim_path() -> Seq<char> {
    seq!['s', 'i', 'm']
}


/// Decides how a command is handled: without a printer only status and
/// connecting are served; with one, connecting again is refused.
pub fn route(has_printer: bool, cmd: &PrinterCommand) -> (r: Route)
    ensures
        !has_printer ==> match cmd {
            PrinterCommand::GetStatus => r is DefaultStatus,
            PrinterCommand::Connect(p, b) => if p@ == sim_path() {
                r is ConnectSim
            } else {
                r matches Route::ConnectSerial(q, c) && q@ == p@ && c == *b
            },
            _ => r is NoPrinter,
        },
        has_printer ==> match cmd {
            PrinterCommand::Connect(_, _) => r is AlreadyConnected,
            PrinterCommand::Disconnect => r is Disconnect,
            _ => r is Forward,
        },
{
    let sim = "sim".to_owned();
    proof {
        reveal_strlit("sim");
        assert(sim@ =~= sim_path());
    }
    if !has_printer {
        match cmd {
            PrinterCommand::GetStatus => Route::DefaultStatus,
            PrinterCommand::Connect(p, b) => {
                if *p == sim {
                    Route::ConnectSim
                } else {
                    Route::ConnectSerial(p.clone(), *b)
                }
            },
            _ => Route::NoPrinter,
        }
    } else {
        match cmd {
            PrinterCommand::Connect(_, _) => Route::AlreadyConnected,
            PrinterCommand::Disconnect => Route::Disconnect,
            _ => Route::Forward,
        }
    }
}

} // verus!
