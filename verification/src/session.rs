//! The state of a session.

use crate::handles::FederateHandle;
use vstd::prelude::*;

verus! {

/// The membership of a session in a federation.
#[derive(Copy, Clone, Debug, PartialEq, Eq, Structural)]
pub struct Membership {
    /// The number of the federation.
    pub federation: u64,
    /// The federate as which the session has joined.
    pub federate_handle: FederateHandle,
}

/// The state of a session.
#[derive(Copy, Clone, Debug, PartialEq, Eq, Structural)]
pub struct SessionContext {
    pub session_id: u64,
    /// Set while the session has joined a federation.
    pub membership: Option<Membership>,
}

impl SessionContext {
    /// A session that has joined no federation.
    pub fn new(session_id: u64) -> (r: Self)
        ensures
            r == (SessionContext { session_id, membership: None }),
    {
        SessionContext { session_id, membership: None }
    }

    /// Whether the session has joined a federation.
    pub fn is_joined(&self) -> (r: bool)
        ensures
            r == (self.membership is Some),
    {
        self.membership.is_some()
    }
}

} // verus!
