//! The kind of task that holds an overlay address: a rendezvous that is under
//! way, or a bridge that stands.

use crate::session::SessionStage;
use vstd::prelude::*;

verus! {

/// The kind of task that holds an address.
#[derive(Debug, Clone, Copy, PartialEq, Eq, Structural)]
pub enum SessionType {
    /// A rendezvous.
    Session,
    /// A bridge.
    Bridge,
}

impl SessionType {
    pub open spec fn spec_is_bridge(&self) -> bool {
        *self is Bridge
    }

    pub open spec fn spec_is_session(&self) -> bool {
        *self is Session
    }

    #[verifier::when_used_as_spec(spec_is_bridge)]
    pub fn is_bridge(&self) -> (r: bool)
        ensures
            r == (*self is Bridge),
    {
        match self {
            SessionType::Bridge => true,
            SessionType::Session => false,
        }
    }

    #[verifier::when_used_as_spec(spec_is_session)]
    pub fn is_session(&self) -> (r: bool)
        ensures
            r == (*self is Session),
    {
        match self {
            SessionType::Session => true,
            SessionType::Bridge => false,
        }
    }

    /// The stage that the record of active sessions keeps for such a task.
    pub fn stage(&self) -> (r: SessionStage)
        ensures
            r.spec_is_bridge() == self.spec_is_bridge(),
            r.spec_is_session() == self.spec_is_session(),
    {
        match self {
            SessionType::Session => SessionStage::Session,
            SessionType::Bridge => SessionStage::Bridge,
        }
    }
}

} // verus!
