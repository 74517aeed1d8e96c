//! The connection over which the local client is called back.

use vstd::prelude::*;

verus! {

/// What to do for a command.
#[derive(Debug, Clone, Copy, PartialEq, Eq, Structural)]
pub enum CallbackAction {
    /// Drop the connection, if any, and connect to the new endpoint.
    Connect,
    /// Call the client.
    Call,
    /// Nothing: no client is connected.
    Skip,
}

/// Connection state of the callback agent.
#[derive(Debug, Clone, Copy, PartialEq, Eq, Structural)]
pub struct CallbackAgent {
    /// Whether a client is connected.
    pub connected: bool,
}

impl CallbackAgent {
    /// No client is connected yet.
    pub fn new() -> (r: Self)
        ensures
            !r.connected,
    {
        CallbackAgent { connected: false }
    }

    /// A client registers its endpoint: it takes the place of any earlier one.
    pub fn on_register(&mut self) -> (r: CallbackAction)
        ensures
            r == CallbackAction::Connect,
            !final(self).connected,
    {
        self.connected = false;
        CallbackAction::Connect
    }

    /// Notes whether the new endpoint could be reached.
    pub fn on_connected(&mut self, ok: bool)
        ensures
            final(self).connected == ok,
    {
        self.connected = ok;
    }

    /// A ping or an event for the client.
    pub fn on_event(&self) -> (r: CallbackAction)
        ensures
            r == (if self.connected {
                CallbackAction::Call
            } else {
                CallbackAction::Skip
            }),
    {
        if self.connected {
            CallbackAction::Call
        } else {
            CallbackAction::Skip
        }
    }

    /// Notes how a call went: after a failed one the client counts as gone.
    pub fn on_called(&mut self, ok: bool)
        ensures
            final(self).connected == (old(self).connected && ok),
    {
        if !ok {
            self.connected = false;
        }
    }
}

} // verus!
