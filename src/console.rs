//! The bookkeeping of an interactive console: whether its one subscriber is
//! still attached after a non-blocking exchange on its channels.
use vstd::prelude::*;

verus! {

/// What a non-blocking send or receive on a console channel did.
#[derive(Debug, Clone, Copy, PartialEq, Eq, Structural)]
pub enum ChannelOutcome {
    /// A message went through.
    Delivered,
    /// The queue was full (a send was dropped) or empty (nothing to receive).
    Idle,
    /// The subscriber's end is gone.
    Disconnected,
}

/// Whether the subscriber is still attached after an exchange: only a
/// disconnected channel detaches it.
pub fn still_connected(connected: bool, outcome: ChannelOutcome) -> (r: bool)
    ensures
        r == (connected && outcome != ChannelOutcome::Disconnected),
{
    connected && outcome != ChannelOutcome::Disconnected
}

/// Whether to exchange anything at all: only with a subscriber attached.
pub fn should_exchange(connected: bool) -> (r: bool)
    ensures
        r == connected,
{
    connected
}

} // verus!
