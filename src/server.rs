//! The decisions of the accept loop and of each connection's task.
use vstd::prelude::*;

verus! {

/// What the accept loop or a connection's task has just observed.
#[derive(Debug, Clone, Copy, PartialEq, Eq)]
pub enum LoopEvent {
    /// A client connection was accepted.
    Accepted,
    /// Accepting failed, for instance for want of file descriptors.
    AcceptFailed,
    /// A connection ended because its peer closed it.
    ConnectionClosed,
    /// A connection ended on an I/O, framing or protocol error.
    ConnectionFailed,
}

/// What to do next.
#[derive(Debug, Clone, Copy, PartialEq, Eq)]
pub enum LoopAction {
    /// Hand the connection to a task of its own, not awaited, and accept again.
    Serve,
    /// End the server with the accept error.
    Stop,
    /// Record the connection's error with its peer address; nothing else changes.
    LogConnectionError,
    /// Nothing to do; other connections and the accept loop go on.
    Continue,
}

/// The action owed to each event.
pub open spec fn action_for(e: LoopEvent) -> LoopAction {
    match e {
        LoopEvent::Accepted => LoopAction::Serve,
        LoopEvent::AcceptFailed => LoopAction::Stop,
        LoopEvent::ConnectionClosed => LoopAction::Continue,
        LoopEvent::ConnectionFailed => LoopAction::LogConnectionError,
    }
}

/// The event concerns one connection's task, not the accept loop.
pub open spec fn is_connection_event(e: LoopEvent) -> bool {
    e == LoopEvent::ConnectionClosed || e == LoopEvent::ConnectionFailed
}

/// The action to take on an event.
pub fn next_action(event: LoopEvent) -> (r: LoopAction)
    ensures
        r == action_for(event),
{
    match event {
        LoopEvent::Accepted => LoopAction::Serve,
        LoopEvent::AcceptFailed => LoopAction::Stop,
        LoopEvent::ConnectionClosed => LoopAction::Continue,
        LoopEvent::ConnectionFailed => LoopAction::LogConnectionError,
    }
}

/// The end of a connection, however it ends, never stops the server: only
/// an accept error does.
pub proof fn connection_end_never_stops(e: LoopEvent)
    requires
        is_connection_event(e),
    ensures
        action_for(e) != LoopAction::Stop,
{
}

} // verus!
