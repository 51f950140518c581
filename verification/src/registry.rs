use crate::channel::{FlushEnd, Priority};
use crate::error::Error;
use crate::multiaddr::Multiaddr;
use crate::payload::payload_octets;
use crate::protocol_select::ProtocolInfo;
use crate::secio::PublicKey;
use crate::session::{
    Lifecycle, SessionContext, SessionController, SessionEvent, SessionType, SessionView,
};
use crate::target::{TargetProtocol, TargetSession};
use crate::{ProtocolId, SessionId};
use bytes::Bytes;
use futures::sync::mpsc::Sender;
use std::collections::HashMap;
use std::time::Duration;
use vstd::prelude::*;

verus! {

/// The registered sessions in the order of their registration, the id that
/// the next session gets, and the number of commands that each queue of a
/// session may hold.
pub ghost struct RegistryView {
    pub sessions: Seq<SessionView>,
    pub next_id: nat,
    pub capacity: nat,
}

impl RegistryView {
    /// The registry without sessions.
    pub open spec fn empty(capacity: nat) -> RegistryView {
        RegistryView { sessions: Seq::empty(), next_id: 0, capacity }
    }

    /// Whether `i` is the place of the first session with this id.
    pub open spec fn first_at(self, id: SessionId, i: int) -> bool {
        &&& 0 <= i < self.sessions.len()
        &&& self.sessions[i].context.id == id
        &&& forall|j: int| 0 <= j < i ==> (#[trigger] self.sessions[j]).context.id != id
    }

    /// Whether a session with this id is registered.
    pub open spec fn holds(self, id: SessionId) -> bool {
        exists|i: int| 0 <= i < self.sessions.len() && (#[trigger] self.sessions[i]).context.id == id
    }

    /// The place of the session with this id.
    pub open spec fn position(self, id: SessionId) -> int {
        choose|i: int| self.first_at(id, i)
    }

    /// The session with this id, if one is registered.
    pub open spec fn session(self, id: SessionId) -> Option<SessionView> {
        if self.holds(id) {
            Some(self.sessions[self.position(id)])
        } else {
            None
        }
    }

    /// The registry with the session of this id replaced by `session`.
    /// Nothing changes if no session with this id is registered.
    pub open spec fn update(self, id: SessionId, session: SessionView) -> RegistryView {
        if self.holds(id) {
            RegistryView { sessions: self.sessions.update(self.position(id), session), ..self }
        } else {
            self
        }
    }

    /// The registry after a session with the given identity was registered
    /// under the next free id.
    pub open spec fn register(self, context: SessionContext) -> RegistryView {
        RegistryView {
            sessions: self.sessions.push(SessionView::fresh(context, self.capacity)),
            next_id: self.next_id + 1,
            ..self
        }
    }

    /// The registry without the session of this id.
    pub open spec fn remove(self, id: SessionId) -> RegistryView {
        if self.holds(id) {
            RegistryView { sessions: self.sessions.remove(self.position(id)), ..self }
        } else {
            self
        }
    }

    /// Why a message for the session `id` is not taken, if it is not.
    pub open spec fn refusal(self, id: SessionId, priority: Priority, proto_id: ProtocolId)
        -> Option<Error> {
        match self.session(id) {
            None => Some(Error::SessionNotFound),
            Some(session) => session.refusal(priority, proto_id),
        }
    }

    /// The registry after a message was offered to the session `id`.
    pub open spec fn send(
        self,
        id: SessionId,
        priority: Priority,
        proto_id: ProtocolId,
        data: Seq<u8>,
    ) -> RegistryView {
        match self.session(id) {
            None => self,
            Some(session) => self.update(id, session.offer(priority, proto_id, data)),
        }
    }

    /// The registry after a message was offered to every targeted session.
    /// Each session takes or refuses it on its own.
    pub open spec fn broadcast(
        self,
        target: TargetSession,
        priority: Priority,
        proto_id: ProtocolId,
        data: Seq<u8>,
    ) -> RegistryView {
        self.map_sessions(offer_to(target, priority, proto_id, data))
    }

    /// The registry once every session is torn down.
    pub open spec fn mark_all_closed(self) -> RegistryView {
        self.map_sessions(|s: SessionView| s.mark_closed())
    }

    /// The registry once the service wound every session down.
    pub open spec fn wind_down_all(self) -> RegistryView {
        self.map_sessions(|s: SessionView| s.wind_down())
    }

    /// The ids of the sessions on which a protocol is open, in the order of
    /// registration.
    pub open spec fn busy(self) -> Seq<SessionId> {
        busy_among(self.sessions)
    }

    /// The registry with the same sessions, each changed by `change`.
    pub open spec fn map_sessions(self, change: spec_fn(SessionView) -> SessionView)
        -> RegistryView {
        RegistryView {
            sessions: Seq::new(self.sessions.len(), |i: int| change(self.sessions[i])),
            ..self
        }
    }

    /// The ids of the registered sessions, in the order of registration.
    pub open spec fn ids(self) -> Seq<SessionId> {
        Seq::new(self.sessions.len(), |i: int| self.sessions[i].context.id)
    }

    /// No registered session takes commands any more: every one is closing
    /// or closed.
    pub open spec fn none_open(self) -> bool {
        forall|i: int|
            0 <= i < self.sessions.len() ==> !(#[trigger] self.sessions[i]).context.closed.is_open()
    }

    /// A session is retired once its id was handed out and it has left the
    /// open state for good: it is closing, closed, or no longer registered.
    pub open spec fn retired(self, id: SessionId) -> bool {
        &&& id < self.next_id
        &&& match self.session(id) {
            None => true,
            Some(session) => !session.context.closed.is_open(),
        }
    }

    /// The ids of the registered sessions ascend strictly and lie below the
    /// id that is handed out next, and every queue has the registry's
    /// capacity. Every registry that is built with `new` and changed through
    /// its methods is of this kind.
    pub open spec fn wf(self) -> bool {
        &&& forall|i: int, j: int|
            0 <= i < j < self.sessions.len() ==> (#[trigger] self.sessions[i]).context.id < (
            #[trigger] self.sessions[j]).context.id
        &&& forall|i: int|
            0 <= i < self.sessions.len() ==> (#[trigger] self.sessions[i]).context.id
                < self.next_id
        &&& forall|i: int|
            0 <= i < self.sessions.len() ==> (#[trigger] self.sessions[i]).events.capacity
                == self.capacity
    }

    /// The registry `later` can follow this one: no id is handed out twice,
    /// what is registered later under an id that is in use now is the same
    /// connection no further from its end, and no retired session comes back.
    pub open spec fn evolves_to(self, later: RegistryView) -> bool {
        &&& self.next_id <= later.next_id
        &&& self.capacity == later.capacity
        &&& forall|id: SessionId|
            id < self.next_id && #[trigger] later.holds(id) ==> {
                &&& self.holds(id)
                &&& self.session(id)->0.precedes(later.session(id)->0)
            }
    }
}

/// What a broadcast does to one session: a targeted session is offered the
/// message, any other is left as it is.
pub open spec fn offer_to(
    target: TargetSession,
    priority: Priority,
    proto_id: ProtocolId,
    data: Seq<u8>,
) -> spec_fn(SessionView) -> SessionView {
    |s: SessionView|
        if target.selects(s.context.id) {
            s.offer(priority, proto_id, data)
        } else {
            s
        }
}

/// The ids of those among `sessions` on which a protocol is open, in order.
pub open spec fn busy_among(sessions: Seq<SessionView>) -> Seq<SessionId>
    decreases sessions.len(),
{
    if sessions.len() == 0 {
        Seq::empty()
    } else if sessions.last().open.is_empty() {
        busy_among(sessions.drop_last())
    } else {
        busy_among(sessions.drop_last()).push(sessions.last().context.id)
    }
}

/// In a well-formed registry a session is found at the one place that holds
/// its id.
pub proof fn lemma_position_unique(r: RegistryView, i: int)
    requires
        r.wf(),
        0 <= i < r.sessions.len(),
    ensures
        r.holds(r.sessions[i].context.id),
        r.position(r.sessions[i].context.id) == i,
        r.session(r.sessions[i].context.id) == Some(r.sessions[i]),
{
    let id = r.sessions[i].context.id;
    assert(r.first_at(id, i)) by {
        assert forall|j: int| 0 <= j < i implies (#[trigger] r.sessions[j]).context.id != id by {
            assert(r.sessions[j].context.id < r.sessions[i].context.id);
        }
    }
    let p = r.position(id);
    assert(r.first_at(id, p));
    if p < i {
        assert(r.sessions[p].context.id < r.sessions[i].context.id);
    }
    if i < p {
        assert(r.sessions[i].context.id != id);
    }
}

/// A session that is found is found at the first place that holds its id.
pub proof fn lemma_position_first(r: RegistryView, id: SessionId)
    requires
        r.holds(id),
    ensures
        r.first_at(id, r.position(id)),
    decreases r.sessions.len(),
{
    let i = choose|i: int| 0 <= i < r.sessions.len() && (#[trigger] r.sessions[i]).context.id == id;
    lemma_first_exists(r, id, i);
}

proof fn lemma_first_exists(r: RegistryView, id: SessionId, i: int)
    requires
        0 <= i < r.sessions.len(),
        r.sessions[i].context.id == id,
    ensures
        exists|k: int| r.first_at(id, k),
    decreases i,
{
    if exists|j: int| 0 <= j < i && (#[trigger] r.sessions[j]).context.id == id {
        let j = choose|j: int| 0 <= j < i && (#[trigger] r.sessions[j]).context.id == id;
        lemma_first_exists(r, id, j);
    } else {
        assert(r.first_at(id, i));
    }
}

/// The sessions of a service: one controller per live connection, found by
/// the session's id. Ids are handed out in ascending order, one per
/// registration, and never again.
pub struct SessionRegistry {
    sessions: Vec<SessionController>,
    next_id: SessionId,
    capacity: usize,
}

impl View for SessionRegistry {
    type V = RegistryView;

    closed spec fn view(&self) -> RegistryView {
        RegistryView {
            sessions: self.sessions@.map_values(|c: SessionController| c@),
            next_id: self.next_id as nat,
            capacity: self.capacity as nat,
        }
    }
}

impl SessionRegistry {
    /// A registry without sessions, whose sessions will get queues of
    /// `capacity` commands each.
    pub fn new(capacity: usize) -> (registry: Self)
        ensures
            registry@ == RegistryView::empty(capacity as nat),
            registry@.wf(),
    {
        let registry = SessionRegistry { sessions: Vec::new(), next_id: 0, capacity };
        assert(registry@.sessions =~= Seq::<SessionView>::empty());
        registry
    }

    /// The number of registered sessions.
    pub fn len(&self) -> (n: usize)
        ensures
            n == self@.sessions.len(),
    {
        self.sessions.len()
    }

    /// The id that the next session gets.
    pub fn next_id(&self) -> (id: SessionId)
        ensures
            id == self@.next_id,
    {
        self.next_id
    }

    /// The place of the first session with this id, if there is one.
    fn find(&self, id: SessionId) -> (place: Option<usize>)
        ensures
            match place {
                Some(i) => self@.first_at(id, i as int) && self@.holds(id) && self@.position(id)
                    == i,
                None => !self@.holds(id),
            },
    {
        let mut i: usize = 0;
        while i < self.sessions.len()
            invariant
                i <= self.sessions.len(),
                forall|j: int| 0 <= j < i ==> (#[trigger] self@.sessions[j]).context.id != id,
            decreases self.sessions.len() - i,
        {
            if self.sessions[i].id() == id {
                assert(self@.sessions[i as int] == self.sessions@[i as int]@);
                assert(self@.first_at(id, i as int));
                let ghost p = self@.position(id);
                assert(self@.first_at(id, p));
                assert(p == i) by {
                    if p < i {
                        assert(self@.sessions[p].context.id != id);
                    }
                    if i < p {
                        assert(self@.sessions[i as int].context.id != id);
                    }
                }
                return Some(i);
            }
            assert(self@.sessions[i as int] == self.sessions@[i as int]@);
            i = i + 1;
        }
        None
    }

    /// Whether a session with this id is registered.
    pub fn contains(&self, id: SessionId) -> (r: bool)
        ensures
            r == self@.holds(id),
    {
        self.find(id).is_some()
    }

    /// Registers a connection that was just established, under the next free
    /// id, and returns that id. The session starts open, with no protocol
    /// open and nothing waiting.
    ///
    /// Returns `None`, and registers nothing, only when the ids are used up.
    pub fn register(
        &mut self,
        address: Multiaddr,
        ty: SessionType,
        remote_pubkey: Option<PublicKey>,
    ) -> (id: Option<SessionId>)
        ensures
            id is Some <==> old(self)@.next_id < usize::MAX,
            id matches Some(id) ==> id == old(self)@.next_id && final(self)@ == old(
                self,
            )@.register(
                SessionContext { id, address, ty, remote_pubkey, closed: Lifecycle::Open },
            ),
            id is None ==> final(self)@ == old(self)@,
            old(self)@.wf() ==> final(self)@.wf(),
            old(self)@.wf() ==> old(self)@.evolves_to(final(self)@),
    {
        if self.next_id == usize::MAX {
            proof {
                lemma_evolves_refl(self@);
            }
            return None;
        }
        let id = self.next_id;
        let context = SessionContext::new(id, address, ty, remote_pubkey);
        let controller = SessionController::new(context, self.capacity);
        self.sessions.push(controller);
        self.next_id = id + 1;
        proof {
            assert(self@.sessions =~= old(self)@.sessions.push(
                SessionView::fresh(context, self.capacity as nat),
            ));
            if old(self)@.wf() {
                lemma_register_evolves(old(self)@, context);
            }
        }
        Some(id)
    }

    /// The identity of the session with this id, if one is registered. An
    /// unknown id is no fault: the session may just have gone.
    pub fn lookup(&self, id: SessionId) -> (context: Option<&SessionContext>)
        ensures
            match context {
                Some(c) => self@.session(id) is Some && *c == self@.session(id)->0.context,
                None => self@.session(id) is None,
            },
    {
        match self.find(id) {
            Some(i) => {
                assert(self@.sessions[i as int] == self.sessions@[i as int]@);
                Some(self.sessions[i].context())
            },
            None => None,
        }
    }

    /// The controller of the session with this id, if one is registered.
    pub fn controller(&self, id: SessionId) -> (controller: Option<&SessionController>)
        ensures
            match controller {
                Some(c) => self@.session(id) == Some(c@),
                None => self@.session(id) is None,
            },
    {
        match self.find(id) {
            Some(i) => {
                assert(self@.sessions[i as int] == self.sessions@[i as int]@);
                Some(&self.sessions[i])
            },
            None => None,
        }
    }

    /// The ids of the registered sessions, in the order of registration.
    pub fn ids(&self) -> (ids: Vec<SessionId>)
        ensures
            ids@ == self@.ids(),
    {
        let mut ids: Vec<SessionId> = Vec::new();
        let mut i: usize = 0;
        while i < self.sessions.len()
            invariant
                i <= self.sessions.len(),
                ids@ == self@.ids().take(i as int),
            decreases self.sessions.len() - i,
        {
            assert(self@.sessions[i as int] == self.sessions@[i as int]@);
            ids.push(self.sessions[i].id());
            assert(ids@ =~= self@.ids().take(i + 1));
            i = i + 1;
        }
        assert(ids@ =~= self@.ids());
        ids
    }

    /// Records that teardown of the session was asked for, and says whether
    /// the session is registered. From then on the session takes no command.
    /// Asking again changes nothing.
    pub fn mark_closing(&mut self, id: SessionId) -> (found: bool)
        ensures
            found == old(self)@.holds(id),
            found ==> final(self)@ == old(self)@.update(
                id,
                old(self)@.session(id)->0.mark_closing(),
            ),
            !found ==> final(self)@ == old(self)@,
            old(self)@.wf() ==> final(self)@.wf() && old(self)@.evolves_to(final(self)@),
    {
        match self.find(id) {
            Some(i) => {
                let ghost before = self@.sessions[i as int];
                assert(before == self.sessions@[i as int]@);
                let controller = &mut self.sessions[i];
                controller.mark_closing();
                proof {
                    assert(self@.sessions =~= old(self)@.sessions.update(
                        i as int,
                        before.mark_closing(),
                    ));
                    if old(self)@.wf() {
                        lemma_update_evolves(old(self)@, i as int, before.mark_closing());
                    }
                }
                true
            },
            None => {
                proof {
                    lemma_evolves_refl(self@);
                }
                false
            },
        }
    }

    /// Ends the registration of the session: the session is marked closed,
    /// then its entry is dropped and its identity handed out in that last
    /// state. What still waited for the session is dropped with the entry.
    pub fn remove(&mut self, id: SessionId) -> (context: Option<SessionContext>)
        ensures
            context == match old(self)@.session(id) {
                Some(session) => Some(session.mark_closed().context),
                None => None,
            },
            final(self)@ == old(self)@.remove(id),
            old(self)@.wf() ==> final(self)@.wf() && old(self)@.evolves_to(final(self)@),
    {
        match self.find(id) {
            Some(i) => {
                assert(self@.sessions[i as int] == self.sessions@[i as int]@);
                let controller = self.sessions.remove(i);
                proof {
                    assert(self@.sessions =~= old(self)@.sessions.remove(i as int));
                    if old(self)@.wf() {
                        lemma_remove_evolves(old(self)@, i as int);
                    }
                }
                Some(controller.into_context())
            },
            None => {
                proof {
                    lemma_evolves_refl(self@);
                }
                None
            },
        }
    }

    /// Offers a message to the session `id`.
    ///
    /// It is refused with `SessionNotFound` if no such session is
    /// registered, else with `SessionClosed` once the session is on its way
    /// out, else with `ProtocolNotOpen` if the protocol is not open on it,
    /// else with `QueueFull` if its queue of that priority is full.
    /// Otherwise it waits at the back of that queue, and nothing else
    /// changes.
    pub fn send(&mut self, id: SessionId, priority: Priority, proto_id: ProtocolId, data: Bytes)
        -> (r: Result<(), Error>)
        ensures
            r == match old(self)@.refusal(id, priority, proto_id) {
                Some(e) => Err::<(), Error>(e),
                None => Ok(()),
            },
            final(self)@ == old(self)@.send(id, priority, proto_id, payload_octets(data)),
            old(self)@.wf() ==> final(self)@.wf() && old(self)@.evolves_to(final(self)@),
    {
        match self.find(id) {
            Some(i) => {
                let ghost before = self@.sessions[i as int];
                assert(before == self.sessions@[i as int]@);
                let controller = &mut self.sessions[i];
                let r = controller.send(priority, proto_id, data);
                proof {
                    let after = before.offer(priority, proto_id, payload_octets(data));
                    assert(self@.sessions =~= old(self)@.sessions.update(i as int, after));
                    if old(self)@.wf() {
                        lemma_update_evolves(old(self)@, i as int, after);
                    }
                }
                r
            },
            None => {
                proof {
                    lemma_evolves_refl(self@);
                }
                Err(Error::SessionNotFound)
            },
        }
    }

    /// Offers the same message to every targeted session. Each session
    /// takes or refuses it on its own, by the rules of `send`; a session
    /// that refuses stops nothing.
    pub fn broadcast(
        &mut self,
        target: &TargetSession,
        priority: Priority,
        proto_id: ProtocolId,
        data: Bytes,
    )
        ensures
            final(self)@ == old(self)@.broadcast(
                *target,
                priority,
                proto_id,
                payload_octets(data),
            ),
            old(self)@.wf() ==> final(self)@.wf() && old(self)@.evolves_to(final(self)@),
    {
        let ghost start = self@;
        let ghost goal = self@.broadcast(*target, priority, proto_id, payload_octets(data));
        let mut i: usize = 0;
        while i < self.sessions.len()
            invariant
                i <= self.sessions.len(),
                self@.next_id == start.next_id,
                self@.capacity == start.capacity,
                self@.sessions.len() == start.sessions.len(),
                goal == start.broadcast(*target, priority, proto_id, payload_octets(data)),
                forall|j: int| 0 <= j < i ==> self@.sessions[j] == goal.sessions[j],
                forall|j: int|
                    i <= j < self.sessions.len() ==> self@.sessions[j] == start.sessions[j],
            decreases self.sessions.len() - i,
        {
            let ghost before = self@;
            assert(before.sessions[i as int] == self.sessions@[i as int]@);
            if target.contains(self.sessions[i].id()) {
                let copy = data.clone();
                let controller = &mut self.sessions[i];
                let _ = controller.send(priority, proto_id, copy);
            }
            proof {
                assert(self@.sessions =~= before.sessions.update(
                    i as int,
                    goal.sessions[i as int],
                ));
            }
            i = i + 1;
        }
        proof {
            assert(self@.sessions =~= goal.sessions);
            if start.wf() {
                lemma_pointwise_evolves(start, goal);
            }
        }
    }

    /// Whether opening the targeted protocols on the session `id` would
    /// open any. False if the session is not registered.
    pub fn would_open(
        &self,
        id: SessionId,
        target: &TargetProtocol,
        known: &HashMap<ProtocolId, ProtocolInfo>,
    ) -> (r: bool)
        ensures
            r == match self@.session(id) {
                Some(session) => session.open_protocols(*target, known@.dom()) != session,
                None => false,
            },
    {
        match self.find(id) {
            Some(i) => {
                assert(self@.sessions[i as int] == self.sessions@[i as int]@);
                self.sessions[i].would_open(target, known)
            },
            None => false,
        }
    }

    /// Opens the targeted protocols on the session `id`, as far as the
    /// service knows them, and says whether the session is registered.
    /// Protocols that are open already stay as they are.
    pub fn open_protocols(
        &mut self,
        id: SessionId,
        target: &TargetProtocol,
        known: &HashMap<ProtocolId, ProtocolInfo>,
    ) -> (found: bool)
        ensures
            found == old(self)@.holds(id),
            found ==> final(self)@ == old(self)@.update(
                id,
                old(self)@.session(id)->0.open_protocols(*target, known@.dom()),
            ),
            !found ==> final(self)@ == old(self)@,
            old(self)@.wf() ==> final(self)@.wf() && old(self)@.evolves_to(final(self)@),
    {
        match self.find(id) {
            Some(i) => {
                let ghost before = self@.sessions[i as int];
                assert(before == self.sessions@[i as int]@);
                let controller = &mut self.sessions[i];
                let _ = controller.open_protocols(target, known);
                proof {
                    let after = before.open_protocols(*target, known@.dom());
                    assert(self@.sessions =~= old(self)@.sessions.update(i as int, after));
                    if old(self)@.wf() {
                        lemma_update_evolves(old(self)@, i as int, after);
                    }
                }
                true
            },
            None => {
                proof {
                    lemma_evolves_refl(self@);
                }
                false
            },
        }
    }

    /// Closes one protocol on the session `id` and says whether it was
    /// open. False if the session is not registered.
    pub fn close_protocol(&mut self, id: SessionId, proto_id: ProtocolId) -> (closed: bool)
        ensures
            closed == match old(self)@.session(id) {
                Some(session) => session.open.contains(proto_id),
                None => false,
            },
            final(self)@ == match old(self)@.session(id) {
                Some(session) => old(self)@.update(id, session.close_protocol(proto_id)),
                None => old(self)@,
            },
            old(self)@.wf() ==> final(self)@.wf() && old(self)@.evolves_to(final(self)@),
    {
        match self.find(id) {
            Some(i) => {
                let ghost before = self@.sessions[i as int];
                assert(before == self.sessions@[i as int]@);
                let controller = &mut self.sessions[i];
                let closed = controller.close_protocol(proto_id);
                proof {
                    let after = before.close_protocol(proto_id);
                    assert(self@.sessions =~= old(self)@.sessions.update(i as int, after));
                    if old(self)@.wf() {
                        lemma_update_evolves(old(self)@, i as int, after);
                    }
                }
                closed
            },
            None => {
                proof {
                    lemma_evolves_refl(self@);
                }
                false
            },
        }
    }

    /// Registers a timer of the protocol on the session `id`, or gives it a
    /// new interval, and says whether the session is registered.
    pub fn set_notify(
        &mut self,
        id: SessionId,
        proto_id: ProtocolId,
        token: u64,
        interval: Duration,
    ) -> (found: bool)
        ensures
            found == old(self)@.holds(id),
            found ==> final(self)@ == old(self)@.update(
                id,
                old(self)@.session(id)->0.set_notify(proto_id, token, interval),
            ),
            !found ==> final(self)@ == old(self)@,
            old(self)@.wf() ==> final(self)@.wf() && old(self)@.evolves_to(final(self)@),
    {
        match self.find(id) {
            Some(i) => {
                let ghost before = self@.sessions[i as int];
                assert(before == self.sessions@[i as int]@);
                let controller = &mut self.sessions[i];
                controller.set_notify(proto_id, token, interval);
                proof {
                    let after = before.set_notify(proto_id, token, interval);
                    assert(self@.sessions =~= old(self)@.sessions.update(i as int, after));
                    if old(self)@.wf() {
                        lemma_update_evolves(old(self)@, i as int, after);
                    }
                }
                true
            },
            None => {
                proof {
                    lemma_evolves_refl(self@);
                }
                false
            },
        }
    }

    /// Removes a timer of the protocol from the session `id` and says
    /// whether there was one. False if the session is not registered.
    pub fn remove_notify(&mut self, id: SessionId, proto_id: ProtocolId, token: u64) -> (removed:
        bool)
        ensures
            removed == match old(self)@.session(id) {
                Some(session) => session.notifies.contains_key((proto_id, token)),
                None => false,
            },
            final(self)@ == match old(self)@.session(id) {
                Some(session) => old(self)@.update(id, session.remove_notify(proto_id, token)),
                None => old(self)@,
            },
            old(self)@.wf() ==> final(self)@.wf() && old(self)@.evolves_to(final(self)@),
    {
        match self.find(id) {
            Some(i) => {
                let ghost before = self@.sessions[i as int];
                assert(before == self.sessions@[i as int]@);
                let controller = &mut self.sessions[i];
                let removed = controller.remove_notify(proto_id, token);
                proof {
                    let after = before.remove_notify(proto_id, token);
                    assert(self@.sessions =~= old(self)@.sessions.update(i as int, after));
                    if old(self)@.wf() {
                        lemma_update_evolves(old(self)@, i as int, after);
                    }
                }
                removed
            },
            None => {
                proof {
                    lemma_evolves_refl(self@);
                }
                false
            },
        }
    }

    /// Takes the command that is due next for the session `id`, if any
    /// waits: the oldest quick one, and the oldest normal one only when no
    /// quick one waits. Nothing is taken if the session is not registered.
    pub fn try_recv(&mut self, id: SessionId) -> (event: Option<SessionEvent>)
        ensures
            match old(self)@.session(id) {
                Some(session) => {
                    &&& match event {
                        Some(e) => session.events.front() == Some(e@),
                        None => session.events.front() is None,
                    }
                    &&& final(self)@ == old(self)@.update(id, session.pop())
                },
                None => event is None && final(self)@ == old(self)@,
            },
            old(self)@.wf() ==> final(self)@.wf() && old(self)@.evolves_to(final(self)@),
    {
        match self.find(id) {
            Some(i) => {
                let ghost before = self@.sessions[i as int];
                assert(before == self.sessions@[i as int]@);
                let controller = &mut self.sessions[i];
                let event = controller.try_recv();
                proof {
                    let after = before.pop();
                    assert(self@.sessions =~= old(self)@.sessions.update(i as int, after));
                    if old(self)@.wf() {
                        lemma_update_evolves(old(self)@, i as int, after);
                    }
                }
                event
            },
            None => {
                proof {
                    lemma_evolves_refl(self@);
                }
                None
            },
        }
    }

    /// Hands the commands that wait for the session `id` over to the
    /// session's task, as `SessionController::flush` does. `None`, and
    /// nothing handed over, if the session is not registered.
    pub fn flush(&mut self, id: SessionId, sender: &mut Sender<SessionEvent>, budget: usize) -> (r:
        Option<(usize, FlushEnd)>)
        ensures
            match old(self)@.session(id) {
                Some(session) => {
                    &&& r matches Some(done)
                    &&& session.events.flushed(
                        budget,
                        done.0,
                        done.1,
                        session.after_deliveries(done.0 as nat).events,
                    )
                    &&& final(self)@ == old(self)@.update(
                        id,
                        session.after_deliveries(done.0 as nat),
                    )
                },
                None => r is None && final(self)@ == old(self)@,
            },
            old(self)@.wf() ==> final(self)@.wf() && old(self)@.evolves_to(final(self)@),
    {
        match self.find(id) {
            Some(i) => {
                let ghost before = self@.sessions[i as int];
                assert(before == self.sessions@[i as int]@);
                let controller = &mut self.sessions[i];
                let done = controller.flush(sender, budget);
                proof {
                    let after = before.after_deliveries(done.0 as nat);
                    crate::channel::lemma_deliveries_keep_capacity(before.events, done.0 as nat);
                    assert(self@.sessions =~= old(self)@.sessions.update(i as int, after));
                    if old(self)@.wf() {
                        lemma_update_evolves(old(self)@, i as int, after);
                    }
                }
                Some(done)
            },
            None => {
                proof {
                    lemma_evolves_refl(self@);
                }
                None
            },
        }
    }

    /// The ids of the sessions on which a protocol is open, in the order of
    /// registration.
    pub fn busy_ids(&self) -> (ids: Vec<SessionId>)
        ensures
            ids@ == self@.busy(),
    {
        let mut ids: Vec<SessionId> = Vec::new();
        let mut i: usize = 0;
        while i < self.sessions.len()
            invariant
                i <= self.sessions.len(),
                ids@ == busy_among(self@.sessions.take(i as int)),
            decreases self.sessions.len() - i,
        {
            let ghost upto = self@.sessions.take(i + 1);
            assert(self@.sessions[i as int] == self.sessions@[i as int]@);
            assert(upto.drop_last() =~= self@.sessions.take(i as int));
            assert(upto.last() == self@.sessions[i as int]);
            if self.sessions[i].has_open_protocols() {
                ids.push(self.sessions[i].id());
            }
            i = i + 1;
        }
        assert(self@.sessions.take(i as int) =~= self@.sessions);
        ids
    }

    /// Winds every session down: every protocol on it is closed and its
    /// teardown is asked for.
    pub fn wind_down_all(&mut self)
        ensures
            final(self)@ == old(self)@.wind_down_all(),
            old(self)@.wf() ==> final(self)@.wf() && old(self)@.evolves_to(final(self)@),
    {
        let ghost start = self@;
        let ghost goal = self@.wind_down_all();
        let mut i: usize = 0;
        while i < self.sessions.len()
            invariant
                i <= self.sessions.len(),
                self@.next_id == start.next_id,
                self@.capacity == start.capacity,
                self@.sessions.len() == start.sessions.len(),
                goal == start.wind_down_all(),
                forall|j: int| 0 <= j < i ==> self@.sessions[j] == goal.sessions[j],
                forall|j: int|
                    i <= j < self.sessions.len() ==> self@.sessions[j] == start.sessions[j],
            decreases self.sessions.len() - i,
        {
            let ghost before = self@;
            assert(before.sessions[i as int] == self.sessions@[i as int]@);
            let controller = &mut self.sessions[i];
            controller.wind_down();
            proof {
                assert(self@.sessions =~= before.sessions.update(
                    i as int,
                    goal.sessions[i as int],
                ));
            }
            i = i + 1;
        }
        proof {
            assert(self@.sessions =~= goal.sessions);
            if start.wf() {
                lemma_pointwise_evolves(start, goal);
            }
        }
    }

    /// Records that every session is torn down: each is closed for good,
    /// and what waited for it, its open protocols and its timers are gone.
    pub fn mark_all_closed(&mut self)
        ensures
            final(self)@ == old(self)@.mark_all_closed(),
            old(self)@.wf() ==> final(self)@.wf() && old(self)@.evolves_to(final(self)@),
    {
        let ghost start = self@;
        let ghost goal = self@.mark_all_closed();
        let mut i: usize = 0;
        while i < self.sessions.len()
            invariant
                i <= self.sessions.len(),
                self@.next_id == start.next_id,
                self@.capacity == start.capacity,
                self@.sessions.len() == start.sessions.len(),
                goal == start.mark_all_closed(),
                forall|j: int| 0 <= j < i ==> self@.sessions[j] == goal.sessions[j],
                forall|j: int|
                    i <= j < self.sessions.len() ==> self@.sessions[j] == start.sessions[j],
            decreases self.sessions.len() - i,
        {
            let ghost before = self@;
            assert(before.sessions[i as int] == self.sessions@[i as int]@);
            let controller = &mut self.sessions[i];
            controller.mark_closed();
            proof {
                assert(self@.sessions =~= before.sessions.update(
                    i as int,
                    goal.sessions[i as int],
                ));
            }
            i = i + 1;
        }
        proof {
            assert(self@.sessions =~= goal.sessions);
            if start.wf() {
                lemma_pointwise_evolves(start, goal);
            }
        }
    }
}

/// A registry whose sessions each moved on in place can follow the one
/// before: it is well-formed, and every session in it is the later state of
/// the session that had its id.
pub proof fn lemma_pointwise_evolves(r: RegistryView, later: RegistryView)
    requires
        r.wf(),
        later.next_id == r.next_id,
        later.capacity == r.capacity,
        later.sessions.len() == r.sessions.len(),
        forall|i: int|
            0 <= i < r.sessions.len() ==> (#[trigger] r.sessions[i]).precedes(later.sessions[i]),
    ensures
        later.wf(),
        r.evolves_to(later),
{
    assert forall|i: int, j: int| 0 <= i < j < later.sessions.len() implies (
    #[trigger] later.sessions[i]).context.id < (#[trigger] later.sessions[j]).context.id by {
        assert(r.sessions[i].precedes(later.sessions[i]));
        assert(r.sessions[j].precedes(later.sessions[j]));
    }
    assert forall|i: int| 0 <= i < later.sessions.len() implies (
    #[trigger] later.sessions[i]).context.id < later.next_id && later.sessions[i].events.capacity
        == later.capacity by {
        assert(r.sessions[i].precedes(later.sessions[i]));
    }
    assert forall|id: SessionId| id < r.next_id && #[trigger] later.holds(id) implies {
        &&& r.holds(id)
        &&& r.session(id)->0.precedes(later.session(id)->0)
    } by {
        lemma_position_first(later, id);
        let p = later.position(id);
        assert(r.sessions[p].precedes(later.sessions[p]));
        lemma_position_unique(r, p);
        lemma_position_unique(later, p);
    }
}

/// Replacing one session by a later state of it is a step that a
/// well-formed registry can take.
pub proof fn lemma_update_evolves(r: RegistryView, i: int, session: SessionView)
    requires
        r.wf(),
        0 <= i < r.sessions.len(),
        r.sessions[i].precedes(session),
    ensures
        (RegistryView { sessions: r.sessions.update(i, session), ..r }).wf(),
        r.evolves_to(RegistryView { sessions: r.sessions.update(i, session), ..r }),
        r.update(r.sessions[i].context.id, session) == (RegistryView {
            sessions: r.sessions.update(i, session),
            ..r
        }),
{
    let later = RegistryView { sessions: r.sessions.update(i, session), ..r };
    assert forall|k: int| 0 <= k < r.sessions.len() implies (#[trigger] r.sessions[k]).precedes(
        later.sessions[k],
    ) by {}
    lemma_pointwise_evolves(r, later);
    lemma_position_unique(r, i);
}

/// Dropping a session is a step that a well-formed registry can take.
pub proof fn lemma_remove_evolves(r: RegistryView, i: int)
    requires
        r.wf(),
        0 <= i < r.sessions.len(),
    ensures
        (RegistryView { sessions: r.sessions.remove(i), ..r }).wf(),
        r.evolves_to(RegistryView { sessions: r.sessions.remove(i), ..r }),
        !(RegistryView { sessions: r.sessions.remove(i), ..r }).holds(r.sessions[i].context.id),
{
    let later = RegistryView { sessions: r.sessions.remove(i), ..r };
    let place = |k: int| if k < i { k } else { k + 1 };
    assert forall|k: int| 0 <= k < later.sessions.len() implies #[trigger] later.sessions[k]
        == r.sessions[place(k)] by {}
    assert forall|a: int, b: int| 0 <= a < b < later.sessions.len() implies (
    #[trigger] later.sessions[a]).context.id < (#[trigger] later.sessions[b]).context.id by {
        assert(later.sessions[a] == r.sessions[place(a)]);
        assert(later.sessions[b] == r.sessions[place(b)]);
    }
    assert forall|k: int| 0 <= k < later.sessions.len() implies (
    #[trigger] later.sessions[k]).context.id < later.next_id && later.sessions[k].events.capacity
        == later.capacity by {
        assert(later.sessions[k] == r.sessions[place(k)]);
    }
    assert forall|id: SessionId| id < r.next_id && #[trigger] later.holds(id) implies {
        &&& r.holds(id)
        &&& r.session(id)->0.precedes(later.session(id)->0)
    } by {
        lemma_position_first(later, id);
        let p = later.position(id);
        assert(later.sessions[p] == r.sessions[place(p)]);
        lemma_position_unique(r, place(p));
        lemma_position_unique(later, p);
    }
    let gone = r.sessions[i].context.id;
    if later.holds(gone) {
        lemma_position_first(later, gone);
        let p = later.position(gone);
        assert(later.sessions[p] == r.sessions[place(p)]);
        if place(p) < i {
            assert(r.sessions[place(p)].context.id < r.sessions[i].context.id);
        } else {
            assert(r.sessions[i].context.id < r.sessions[place(p)].context.id);
        }
    }
}

/// Replacing a session by itself changes nothing.
pub proof fn lemma_update_same(r: RegistryView, id: SessionId)
    requires
        r.holds(id),
    ensures
        r.update(id, r.session(id)->0) == r,
{
    lemma_position_first(r, id);
    assert(r.sessions.update(r.position(id), r.sessions[r.position(id)]) =~= r.sessions);
}

/// A session that was replaced under its own id is found as it is now.
pub proof fn lemma_session_after_update(r: RegistryView, id: SessionId, session: SessionView)
    requires
        r.holds(id),
        session.context.id == id,
    ensures
        r.update(id, session).holds(id),
        r.update(id, session).position(id) == r.position(id),
        r.update(id, session).session(id) == Some(session),
        forall|other: SessionId|
            other != id ==> #[trigger] r.update(id, session).session(other) == r.session(other),
{
    lemma_position_first(r, id);
    let p = r.position(id);
    let later = r.update(id, session);
    assert(later.sessions[p].context.id == id);
    assert(later.first_at(id, p)) by {
        assert forall|j: int| 0 <= j < p implies (#[trigger] later.sessions[j]).context.id
            != id by {
            assert(later.sessions[j] == r.sessions[j]);
        }
    }
    lemma_position_first(later, id);
    let q = later.position(id);
    if q < p {
        assert(later.sessions[q] == r.sessions[q]);
    }
    assert forall|other: SessionId| other != id implies #[trigger] later.session(other)
        == r.session(other) by {
        lemma_same_ids_same_places(r, later, other);
        if r.holds(other) {
            lemma_position_first(r, other);
        }
    }
}

/// Where two registries hold the same ids at the same places, a session is
/// found at the same place in both.
pub proof fn lemma_same_ids_same_places(r: RegistryView, later: RegistryView, id: SessionId)
    requires
        r.sessions.len() == later.sessions.len(),
        forall|i: int|
            0 <= i < r.sessions.len() ==> (#[trigger] r.sessions[i]).context.id
                == later.sessions[i].context.id,
    ensures
        r.holds(id) == later.holds(id),
        r.holds(id) ==> r.position(id) == later.position(id),
{
    if r.holds(id) {
        lemma_position_first(r, id);
        let p = r.position(id);
        assert(later.sessions[p].context.id == r.sessions[p].context.id);
        assert(later.first_at(id, p)) by {
            assert forall|j: int| 0 <= j < p implies (#[trigger] later.sessions[j]).context.id
                != id by {
                assert(r.sessions[j].context.id == later.sessions[j].context.id);
            }
        }
        lemma_position_first(later, id);
        let q = later.position(id);
        if q < p {
            assert(r.sessions[q].context.id == later.sessions[q].context.id);
        }
        if p < q {
            assert(later.sessions[p].context.id != id);
        }
    }
    if later.holds(id) {
        let i = choose|i: int|
            0 <= i < later.sessions.len() && (#[trigger] later.sessions[i]).context.id == id;
        assert(r.sessions[i].context.id == later.sessions[i].context.id);
    }
}

/// Where every session is changed in a way that keeps its id, the session
/// of an id is afterwards what the change makes of it, whatever became of
/// the others.
pub proof fn lemma_session_after_map(
    r: RegistryView,
    change: spec_fn(SessionView) -> SessionView,
    id: SessionId,
)
    requires
        forall|s: SessionView| (#[trigger] change(s)).context.id == s.context.id,
    ensures
        r.map_sessions(change).session(id) == match r.session(id) {
            Some(session) => Some(change(session)),
            None => None,
        },
{
    let later = r.map_sessions(change);
    assert forall|i: int| 0 <= i < r.sessions.len() implies (#[trigger] r.sessions[i]).context.id
        == later.sessions[i].context.id by {
        assert(later.sessions[i] == change(r.sessions[i]));
    }
    lemma_same_ids_same_places(r, later, id);
    if r.holds(id) {
        lemma_position_first(r, id);
    }
}

/// What can follow a registry that can follow this one can follow this one.
pub proof fn lemma_evolves_trans(a: RegistryView, b: RegistryView, c: RegistryView)
    requires
        a.evolves_to(b),
        b.evolves_to(c),
    ensures
        a.evolves_to(c),
{
    assert forall|id: SessionId| id < a.next_id && #[trigger] c.holds(id) implies {
        &&& a.holds(id)
        &&& a.session(id)->0.precedes(c.session(id)->0)
    } by {
        assert(b.holds(id));
    }
}

/// A retired session stays retired in every registry that can follow.
pub proof fn lemma_retired_for_good(now: RegistryView, later: RegistryView, id: SessionId)
    requires
        now.retired(id),
        now.evolves_to(later),
    ensures
        later.retired(id),
{
    if later.holds(id) {
        assert(now.holds(id));
    }
}

/// No session comes back into service: where no session is open, none is
/// open in a registry that can follow without a new registration.
pub proof fn lemma_none_reopens(now: RegistryView, later: RegistryView)
    requires
        now.wf(),
        later.wf(),
        now.evolves_to(later),
        later.next_id == now.next_id,
        now.none_open(),
    ensures
        later.none_open(),
{
    assert forall|j: int| 0 <= j < later.sessions.len() implies !(
    #[trigger] later.sessions[j]).context.closed.is_open() by {
        let id = later.sessions[j].context.id;
        lemma_position_unique(later, j);
        assert(later.holds(id));
        lemma_position_first(now, id);
        let p = now.position(id);
        assert(!now.sessions[p].context.closed.is_open());
    }
}

/// Every registry can follow itself.
pub proof fn lemma_evolves_refl(r: RegistryView)
    ensures
        r.evolves_to(r),
{
}

/// Registering a session is a step that a well-formed registry can take.
pub proof fn lemma_register_evolves(r: RegistryView, context: SessionContext)
    requires
        r.wf(),
        context.id == r.next_id,
    ensures
        r.register(context).wf(),
        r.evolves_to(r.register(context)),
{
    let later = r.register(context);
    assert forall|id: SessionId| id < r.next_id && #[trigger] later.holds(id) implies {
        &&& r.holds(id)
        &&& r.session(id) == later.session(id)
    } by {
        lemma_position_first(later, id);
        let p = later.position(id);
        assert(p < r.sessions.len());
        assert(later.sessions[p] == r.sessions[p]);
        assert(r.first_at(id, p)) by {
            assert forall|j: int| 0 <= j < p implies (#[trigger] r.sessions[j]).context.id
                != id by {
                assert(later.sessions[j] == r.sessions[j]);
            }
        }
        lemma_position_unique(r, p);
    }
}

} // verus!
