use vstd::prelude::*;

verus! {

/// Where a client stands in its life.
#[derive(Debug, Clone, Copy, PartialEq, Eq, Structural)]
pub enum ClientState {
    NotInitialized,
    Running,
    Stopped,
}

/// The lifecycle of a client: it starts once, and stops (or is waited for)
/// once; later stops do nothing.
#[derive(Debug)]
pub struct Lifecycle {
    pub state: ClientState,
}

/// The state after a stop or a wait, and whether that call must stop the
/// worker and join it.
pub open spec fn finish_spec(s: ClientState) -> (ClientState, bool) {
    match s {
        ClientState::Running => (ClientState::Stopped, true),
        _ => (s, false),
    }
}

impl Lifecycle {
    /// A client that was not started yet.
    pub fn new() -> (r: Lifecycle)
        ensures
            r.state == ClientState::NotInitialized,
    {
        Lifecycle { state: ClientState::NotInitialized }
    }

    /// Moves to `Running` when the client was never started; returns whether
    /// it did. A client starts at most once.
    pub fn start(&mut self) -> (r: bool)
        ensures
            r == (old(self).state == ClientState::NotInitialized),
            final(self).state == if r {
                ClientState::Running
            } else {
                old(self).state
            },
    {
        if self.state == ClientState::NotInitialized {
            self.state = ClientState::Running;
            true
        } else {
            false
        }
    }

    /// Stops a running client; returns whether the caller must now stop the
    /// worker and join it. On a client that is not running it does nothing.
    pub fn finish(&mut self) -> (r: bool)
        ensures
            (final(self).state, r) == finish_spec(old(self).state),
    {
        match self.state {
            ClientState::Running => {
                self.state = ClientState::Stopped;
                true
            },
            _ => false,
        }
    }
}

/// Stopping twice: the second stop finds the client stopped, does nothing
/// and joins nothing.
pub proof fn lemma_second_stop_is_noop(s: ClientState)
    ensures
        finish_spec(finish_spec(s).0).1 == false,
        finish_spec(finish_spec(s).0).0 == finish_spec(s).0,
{
}

} // verus!
