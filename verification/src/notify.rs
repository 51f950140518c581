use crate::ProtocolId;
use std::collections::HashMap;
use std::time::Duration;
use vstd::prelude::*;

verus! {

/// The place of a timer in the table: the owning protocol in the upper half
/// of the key, the token in the lower one.
pub open spec fn timer_key(proto_id: ProtocolId, token: u64) -> u128 {
    (proto_id as int * 0x1_0000_0000_0000_0000 + token as int) as u128
}

/// Two timers share a key only if they are the same timer.
pub proof fn lemma_timer_key_injective(p1: ProtocolId, t1: u64, p2: ProtocolId, t2: u64)
    ensures
        timer_key(p1, t1) == timer_key(p2, t2) <==> p1 == p2 && t1 == t2,
{
}

/// The recurring timers of one scope (the service, or one session). A timer
/// belongs to a protocol and is known to it by a token; it fires about once
/// per interval until it is removed.
pub struct NotifyTable {
    timers: HashMap<u128, Duration>,
}

impl View for NotifyTable {
    type V = Map<(ProtocolId, u64), Duration>;

    closed spec fn view(&self) -> Map<(ProtocolId, u64), Duration> {
        Map::new(
            |k: (ProtocolId, u64)| self.timers@.contains_key(timer_key(k.0, k.1)),
            |k: (ProtocolId, u64)| self.timers@[timer_key(k.0, k.1)],
        )
    }
}

impl NotifyTable {
    fn key(proto_id: ProtocolId, token: u64) -> (k: u128)
        ensures
            k == timer_key(proto_id, token),
    {
        (proto_id as u128) * 0x1_0000_0000_0000_0000u128 + (token as u128)
    }

    /// A table without timers.
    pub fn new() -> (table: Self)
        ensures
            table@ == Map::<(ProtocolId, u64), Duration>::empty(),
    {
        let table = NotifyTable { timers: HashMap::new() };
        assert(table@ =~= Map::<(ProtocolId, u64), Duration>::empty());
        table
    }

    /// Whether the protocol has a timer with this token.
    pub fn contains(&self, proto_id: ProtocolId, token: u64) -> (r: bool)
        ensures
            r == self@.contains_key((proto_id, token)),
    {
        let k = Self::key(proto_id, token);
        self.timers.contains_key(&k)
    }

    /// The interval of the protocol's timer with this token, if it has one.
    pub fn interval(&self, proto_id: ProtocolId, token: u64) -> (r: Option<Duration>)
        ensures
            r == if self@.contains_key((proto_id, token)) {
                Some(self@[(proto_id, token)])
            } else {
                None
            },
    {
        let k = Self::key(proto_id, token);
        match self.timers.get(&k) {
            Some(interval) => Some(*interval),
            None => None,
        }
    }

    /// Registers the protocol's timer with this token, or gives it a new
    /// interval if it is registered already.
    pub fn set(&mut self, proto_id: ProtocolId, token: u64, interval: Duration)
        ensures
            final(self)@ == old(self)@.insert((proto_id, token), interval),
    {
        let k = Self::key(proto_id, token);
        self.timers.insert(k, interval);
        proof {
            assert forall|q: (ProtocolId, u64)| q != (proto_id, token) implies timer_key(q.0, q.1)
                != k by {
                lemma_timer_key_injective(q.0, q.1, proto_id, token);
            }
            assert(self@ =~= old(self)@.insert((proto_id, token), interval));
        }
    }

    /// Removes the protocol's timer with this token and says whether there
    /// was one. Removing a timer that is not registered changes nothing.
    pub fn remove(&mut self, proto_id: ProtocolId, token: u64) -> (removed: bool)
        ensures
            removed == old(self)@.contains_key((proto_id, token)),
            final(self)@ == old(self)@.remove((proto_id, token)),
    {
        let k = Self::key(proto_id, token);
        let gone = self.timers.remove(&k);
        proof {
            assert forall|q: (ProtocolId, u64)| q != (proto_id, token) implies timer_key(q.0, q.1)
                != k by {
                lemma_timer_key_injective(q.0, q.1, proto_id, token);
            }
            assert(self@ =~= old(self)@.remove((proto_id, token)));
        }
        gone.is_some()
    }

    /// Removes every timer.
    pub fn clear(&mut self)
        ensures
            final(self)@ == Map::<(ProtocolId, u64), Duration>::empty(),
    {
        self.timers.clear();
        assert(self@ =~= Map::<(ProtocolId, u64), Duration>::empty());
    }
}

} // verus!
