//! The decisions of the cooperative scheduler's host loop. Producers send
//! commands over a channel; the host thread receives them one at a time and
//! spawns each deferred action on its single-threaded executor, until a stop
//! command arrives or every sender is gone.
use vstd::prelude::*;

verus! {

/// A message to the host loop.
pub enum Command<F> {
    /// A deferred action to spawn on the executor.
    Task(F),
    /// Leave the receive loop.
    Stop,
}

/// What the host loop does with what it received.
pub enum HostAction<F> {
    /// Spawn this action and go back to receiving.
    Spawn(F),
    /// Leave the receive loop.
    Exit,
}

/// The host loop's answer to one receive: `None` means the channel is closed.
pub fn on_receive<F>(received: Option<Command<F>>) -> (r: HostAction<F>)
    ensures
        match received {
            Some(Command::Task(f)) => r == HostAction::Spawn(f),
            _ => r == HostAction::<F>::Exit,
        },
{
    match received {
        Some(Command::Task(f)) => HostAction::Spawn(f),
        Some(Command::Stop) => HostAction::Exit,
        None => HostAction::Exit,
    }
}

} // verus!
