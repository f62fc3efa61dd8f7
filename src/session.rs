use vstd::prelude::*;

verus! {

/// The host call that sets up COM for a thread.
#[derive(Clone, Copy, Debug, PartialEq, Eq, Structural)]
pub enum OleSetup {
    /// Full OLE initialisation.
    Ole,
    /// Multithreaded COM only, where OLE is not available.
    ComMultithreaded,
}

/// What the caller has to do to the host after a session step.
#[derive(Clone, Copy, Debug, PartialEq, Eq, Structural)]
pub enum SessionAction {
    Nothing,
    Initialize(OleSetup),
    Uninitialize(OleSetup),
}

/// Per-thread record of whether COM is set up, and by which call.
#[derive(Clone, Copy, Debug, PartialEq, Eq, Structural)]
pub struct OleSession {
    pub setup: OleSetup,
    pub initialized: bool,
}

impl OleSession {
    /// A session not yet set up; `com_only` picks multithreaded COM over OLE.
    pub fn new(com_only: bool) -> (r: OleSession)
        ensures
            !r.initialized,
            r.setup == (if com_only { OleSetup::ComMultithreaded } else { OleSetup::Ole }),
    {
        OleSession {
            setup: if com_only { OleSetup::ComMultithreaded } else { OleSetup::Ole },
            initialized: false,
        }
    }

    /// Ends the session: the set-up call is undone once, if it was made.
    pub fn release(&mut self) -> (r: SessionAction)
        ensures
            !final(self).initialized,
            final(self).setup == old(self).setup,
            r == (if old(self).initialized { SessionAction::Uninitialize(old(self).setup) } else { SessionAction::Nothing }),
    {
        if self.initialized {
            self.initialized = false;
            SessionAction::Uninitialize(self.setup)
        } else {
            SessionAction::Nothing
        }
    }
}

/// Ensures that COM is set up for the session: the set-up call is asked for
/// only the first time.
pub fn ole_initialized(session: &mut OleSession) -> (r: SessionAction)
    ensures
        final(session).initialized,
        final(session).setup == old(session).setup,
        r == (if old(session).initialized { SessionAction::Nothing } else { SessionAction::Initialize(old(session).setup) }),
{
    if session.initialized {
        SessionAction::Nothing
    } else {
        session.initialized = true;
        SessionAction::Initialize(session.setup)
    }
}

} // verus!
