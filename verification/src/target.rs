use crate::{ProtocolId, SessionId};
use vstd::prelude::*;

verus! {

/// Whether `id` occurs in `ids`.
pub fn contains_id(ids: &Vec<usize>, id: usize) -> (r: bool)
    ensures
        r == ids@.contains(id),
{
    let mut i: usize = 0;
    while i < ids.len()
        invariant
            i <= ids.len(),
            forall|j: int| 0 <= j < i ==> ids@[j] != id,
        decreases ids.len() - i,
    {
        if ids[i] == id {
            return true;
        }
        i = i + 1;
    }
    false
}

/// The sessions that a broadcast is meant for.
#[derive(Debug, Clone, PartialEq, Eq)]
pub enum TargetSession {
    /// Every session of the service.
    All,
    /// One session.
    Single(SessionId),
    /// The listed sessions.
    Multi(Vec<SessionId>),
    /// Every session but the listed ones.
    AllExcept(Vec<SessionId>),
}

impl TargetSession {
    /// Whether the session `id` is among the targets.
    pub open spec fn selects(self, id: SessionId) -> bool {
        match self {
            TargetSession::All => true,
            TargetSession::Single(one) => one == id,
            TargetSession::Multi(ids) => ids@.contains(id),
            TargetSession::AllExcept(ids) => !ids@.contains(id),
        }
    }

    /// Whether the session `id` is among the targets.
    pub fn contains(&self, id: SessionId) -> (r: bool)
        ensures
            r == self.selects(id),
    {
        match self {
            TargetSession::All => true,
            TargetSession::Single(one) => *one == id,
            TargetSession::Multi(ids) => contains_id(ids, id),
            TargetSession::AllExcept(ids) => !contains_id(ids, id),
        }
    }
}

/// The protocols that a request to open or to dial is meant for.
#[derive(Debug, Clone, PartialEq, Eq)]
pub enum TargetProtocol {
    /// Every protocol that the service knows.
    All,
    /// One protocol.
    Single(ProtocolId),
    /// The listed protocols.
    Multi(Vec<ProtocolId>),
}

/// The protocols to open on a connection once it is dialed.
pub type DialProtocol = TargetProtocol;

impl TargetProtocol {
    /// Whether the protocol `id` is among the targets.
    pub open spec fn selects(self, id: ProtocolId) -> bool {
        match self {
            TargetProtocol::All => true,
            TargetProtocol::Single(one) => one == id,
            TargetProtocol::Multi(ids) => ids@.contains(id),
        }
    }

    /// Whether the protocol `id` is among the targets.
    pub fn contains(&self, id: ProtocolId) -> (r: bool)
        ensures
            r == self.selects(id),
    {
        match self {
            TargetProtocol::All => true,
            TargetProtocol::Single(one) => *one == id,
            TargetProtocol::Multi(ids) => contains_id(ids, id),
        }
    }
}

} // verus!
