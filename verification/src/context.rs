use crate::channel::{FlushEnd, Priority};
use crate::error::Error;
use crate::multiaddr::Multiaddr;
use crate::notify::NotifyTable;
use crate::payload::payload_octets;
use crate::protocol_select::ProtocolInfo;
use crate::registry::{
    lemma_evolves_refl, lemma_none_reopens, lemma_update_same, RegistryView, SessionRegistry,
};
use crate::secio::{PublicKey, SecioKeyPair};
use crate::service::{ControlView, ServiceControl, ServiceTask, TaskId};
use crate::session::{Lifecycle, SessionContext, SessionEvent, SessionType};
use crate::target::{DialProtocol, TargetProtocol, TargetSession};
use crate::{ProtocolId, SessionId};
use bytes::Bytes;
use futures::sync::mpsc::Sender;
use std::collections::HashMap;
use std::collections::VecDeque;
use std::sync::Arc;
use std::time::Duration;
use vstd::prelude::*;

verus! {

/// The state of the control plane: the service-wide handle with the
/// commands that wait for the runtime, the registered sessions, the
/// addresses that the runtime last reported to listen on, the service's
/// timers by owning protocol and token, the identity of the local node,
/// and the steps of a graceful close that the runtime has yet to take.
pub ghost struct ServiceView {
    pub control: ControlView,
    pub sessions: RegistryView,
    pub listens: Seq<Multiaddr>,
    pub notifies: Map<(ProtocolId, u64), Duration>,
    pub key_pair: Option<SecioKeyPair>,
    pub steps: Seq<ServiceTask>,
}

impl ServiceView {
    /// The session registry is well-formed, and once the service has left
    /// the open state no session is open. Every state that is built with
    /// `ServiceContext::new` and changed through its methods is of this
    /// kind.
    pub open spec fn wf(self) -> bool {
        &&& self.sessions.wf()
        &&& !self.control.closed.is_open() ==> self.sessions.none_open()
    }

    /// The state `later` can follow this one: the registry moved on as
    /// registries do, the service is no further from open than it was, and
    /// its protocols and the capacity of its queues are the same.
    pub open spec fn evolves_to(self, later: ServiceView) -> bool {
        &&& self.sessions.evolves_to(later.sessions)
        &&& self.control.closed.rank() <= later.control.closed.rank()
        &&& self.control.protocols == later.control.protocols
        &&& self.control.tasks.capacity == later.control.tasks.capacity
    }

    /// The protocols that the service knows.
    pub open spec fn known(self) -> Set<ProtocolId> {
        self.control.protocols.dom()
    }

    /// The state with one more command waiting for the runtime.
    pub open spec fn enqueue(self, priority: Priority, task: ServiceTask) -> ServiceView {
        ServiceView { control: self.control.enqueue(priority, task), ..self }
    }

    /// The state after a command that concerns no session was submitted:
    /// it waits on the queue of its priority unless the service refused it.
    pub open spec fn submit(self, priority: Priority, task: ServiceTask) -> ServiceView {
        ServiceView { control: self.control.offer(priority, task), ..self }
    }

    /// The state after a run of commands that concern no session was
    /// submitted, one after the other.
    pub open spec fn submit_all(self, priority: Priority, tasks: Seq<ServiceTask>) -> ServiceView
        decreases tasks.len(),
    {
        if tasks.len() == 0 {
            self
        } else {
            self.submit_all(priority, tasks.drop_last()).submit(priority, tasks.last())
        }
    }

    /// Why a message for the session `id` is not taken, if it is not. The
    /// session is looked at first: a session that is gone or on its way out
    /// says so whatever the state of the service.
    pub open spec fn send_refusal(self, id: SessionId, priority: Priority, proto_id: ProtocolId)
        -> Option<Error> {
        match self.sessions.session(id) {
            None => Some(Error::SessionNotFound),
            Some(session) => if !session.context.closed.is_open() {
                Some(Error::SessionClosed)
            } else if !self.control.closed.is_open() {
                Some(Error::ServiceClosed)
            } else {
                session.refusal(priority, proto_id)
            },
        }
    }

    /// The state after a message was sent to the session `id`: it waits at
    /// the back of the session's queue of that priority unless it was
    /// refused.
    pub open spec fn send(
        self,
        id: SessionId,
        priority: Priority,
        proto_id: ProtocolId,
        data: Seq<u8>,
    ) -> ServiceView {
        if self.send_refusal(id, priority, proto_id) is None {
            ServiceView { sessions: self.sessions.send(id, priority, proto_id, data), ..self }
        } else {
            self
        }
    }

    /// The state after a message was broadcast: every targeted session that
    /// takes the message holds it at the back of its queue of that priority;
    /// the others are as they were.
    pub open spec fn broadcast(
        self,
        target: TargetSession,
        priority: Priority,
        proto_id: ProtocolId,
        data: Seq<u8>,
    ) -> ServiceView {
        if self.control.closed.is_open() {
            ServiceView {
                sessions: self.sessions.broadcast(target, priority, proto_id, data),
                ..self
            }
        } else {
            self
        }
    }
}

/// What a call returns: the reason of the refusal, if there is one.
pub open spec fn verdict(refusal: Option<Error>) -> Result<(), Error> {
    match refusal {
        Some(e) => Err(e),
        None => Ok(()),
    }
}

impl ServiceView {
    /// Why the request to disconnect the session `id` is not taken, if it is
    /// not. A session that is on its way out already needs no room on the
    /// queue.
    pub open spec fn disconnect_refusal(self, id: SessionId) -> Option<Error> {
        if !self.control.closed.is_open() {
            Some(Error::ServiceClosed)
        } else {
            match self.sessions.session(id) {
                None => Some(Error::SessionNotFound),
                Some(session) => if session.context.closed.is_open() && !self.control.tasks.accepts(
                    Priority::High,
                ) {
                    Some(Error::QueueFull)
                } else {
                    None
                },
            }
        }
    }

    /// The state after the disconnection of the session `id` was requested:
    /// an open session is closing and the request waits on the quick queue;
    /// for a session that is on its way out already nothing changes.
    pub open spec fn disconnect(self, id: SessionId) -> ServiceView {
        if self.disconnect_refusal(id) is None && self.sessions.session(
            id,
        )->0.context.closed.is_open() {
            ServiceView {
                sessions: self.sessions.update(id, self.sessions.session(id)->0.mark_closing()),
                ..self.enqueue(Priority::High, ServiceTask::Disconnect { session_id: id })
            }
        } else {
            self
        }
    }

    /// Whether opening the targeted protocols on the session `id` would
    /// open any.
    pub open spec fn would_open(self, id: SessionId, target: TargetProtocol) -> bool {
        match self.sessions.session(id) {
            Some(session) => session.open_protocols(target, self.known()) != session,
            None => false,
        }
    }

    /// Why the request to open protocols on the session `id` is not taken,
    /// if it is not. A request that would open nothing is a no-op and no
    /// error, whatever the state of the service and of the session; only a
    /// request that has something to open can be refused.
    pub open spec fn open_refusal(self, id: SessionId, target: TargetProtocol) -> Option<Error> {
        match self.sessions.session(id) {
            None => if !self.control.closed.is_open() {
                Some(Error::ServiceClosed)
            } else {
                Some(Error::SessionNotFound)
            },
            Some(session) => if !self.would_open(id, target) {
                None
            } else if !self.control.closed.is_open() {
                Some(Error::ServiceClosed)
            } else if !session.context.closed.is_open() {
                Some(Error::SessionClosed)
            } else if !self.control.tasks.accepts(Priority::High) {
                Some(Error::QueueFull)
            } else {
                None
            },
        }
    }

    /// The state after protocols were requested to open on the session
    /// `id`: where the request opens any, the targeted protocols that the
    /// service knows are open on the session and the request waits on the
    /// quick queue; where all of them are open already, nothing changes.
    pub open spec fn open_protocols(self, id: SessionId, target: TargetProtocol) -> ServiceView {
        if self.open_refusal(id, target) is None && self.would_open(id, target) {
            ServiceView {
                sessions: self.sessions.update(
                    id,
                    self.sessions.session(id)->0.open_protocols(target, self.known()),
                ),
                ..self.enqueue(
                    Priority::High,
                    ServiceTask::ProtocolOpen { session_id: id, target },
                )
            }
        } else {
            self
        }
    }

    /// Whether the protocol is open on the session `id`.
    pub open spec fn protocol_open(self, id: SessionId, proto_id: ProtocolId) -> bool {
        match self.sessions.session(id) {
            Some(session) => session.open.contains(proto_id),
            None => false,
        }
    }

    /// Why the request to close a protocol on the session `id` is not
    /// taken, if it is not. A protocol that is not open needs no room on
    /// the queue.
    pub open spec fn close_refusal(self, id: SessionId, proto_id: ProtocolId) -> Option<Error> {
        if !self.control.closed.is_open() {
            Some(Error::ServiceClosed)
        } else if self.sessions.session(id) is None {
            Some(Error::SessionNotFound)
        } else if self.protocol_open(id, proto_id) && !self.control.tasks.accepts(Priority::High) {
            Some(Error::QueueFull)
        } else {
            None
        }
    }

    /// The state after a protocol was requested to close on the session
    /// `id`: an open protocol is closed and the request waits on the quick
    /// queue; for a protocol that is not open nothing changes.
    pub open spec fn close_protocol(self, id: SessionId, proto_id: ProtocolId) -> ServiceView {
        if self.close_refusal(id, proto_id) is None && self.protocol_open(id, proto_id) {
            ServiceView {
                sessions: self.sessions.update(
                    id,
                    self.sessions.session(id)->0.close_protocol(proto_id),
                ),
                ..self.enqueue(
                    Priority::High,
                    ServiceTask::ProtocolClose {
                        session_id: id,
                        target: TargetProtocol::Single(proto_id),
                    },
                )
            }
        } else {
            self
        }
    }

    /// The state after a timer of the service was set: it is registered
    /// with the interval and the request waits on the normal queue, unless
    /// the service refused it.
    pub open spec fn set_service_notify(self, proto_id: ProtocolId, interval: Duration, token: u64)
        -> ServiceView {
        if self.control.refusal(Priority::Normal) is None {
            ServiceView {
                notifies: self.notifies.insert((proto_id, token), interval),
                ..self.enqueue(
                    Priority::Normal,
                    ServiceTask::SetProtocolNotify { proto_id, interval, token },
                )
            }
        } else {
            self
        }
    }

    /// Why the request to remove a timer of the service is not taken, if it
    /// is not. A timer that is not registered needs no room on the queue.
    pub open spec fn remove_service_notify_refusal(self, proto_id: ProtocolId, token: u64)
        -> Option<Error> {
        if !self.control.closed.is_open() {
            Some(Error::ServiceClosed)
        } else if self.notifies.contains_key((proto_id, token)) && !self.control.tasks.accepts(
            Priority::Normal,
        ) {
            Some(Error::QueueFull)
        } else {
            None
        }
    }

    /// The state after a timer of the service was removed: a registered
    /// timer is gone and the request waits on the normal queue; for a timer
    /// that is not registered nothing changes.
    pub open spec fn remove_service_notify(self, proto_id: ProtocolId, token: u64) -> ServiceView {
        if self.remove_service_notify_refusal(proto_id, token) is None
            && self.notifies.contains_key((proto_id, token)) {
            ServiceView {
                notifies: self.notifies.remove((proto_id, token)),
                ..self.enqueue(
                    Priority::Normal,
                    ServiceTask::RemoveProtocolNotify { proto_id, token },
                )
            }
        } else {
            self
        }
    }

    /// Why the request to set a timer on the session `id` is not taken, if
    /// it is not.
    pub open spec fn set_session_notify_refusal(self, id: SessionId) -> Option<Error> {
        if !self.control.closed.is_open() {
            Some(Error::ServiceClosed)
        } else {
            match self.sessions.session(id) {
                None => Some(Error::SessionNotFound),
                Some(session) => if !session.context.closed.is_open() {
                    Some(Error::SessionClosed)
                } else if !self.control.tasks.accepts(Priority::Normal) {
                    Some(Error::QueueFull)
                } else {
                    None
                },
            }
        }
    }

    /// The state after a timer was set on the session `id`: it is
    /// registered with the interval and the request waits on the normal
    /// queue, unless it was refused.
    pub open spec fn set_session_notify(
        self,
        id: SessionId,
        proto_id: ProtocolId,
        interval: Duration,
        token: u64,
    ) -> ServiceView {
        if self.set_session_notify_refusal(id) is None {
            ServiceView {
                sessions: self.sessions.update(
                    id,
                    self.sessions.session(id)->0.set_notify(proto_id, token, interval),
                ),
                ..self.enqueue(
                    Priority::Normal,
                    ServiceTask::SetProtocolSessionNotify {
                        session_id: id,
                        proto_id,
                        interval,
                        token,
                    },
                )
            }
        } else {
            self
        }
    }

    /// Whether the protocol has a timer with this token on the session
    /// `id`.
    pub open spec fn session_notify_set(self, id: SessionId, proto_id: ProtocolId, token: u64)
        -> bool {
        match self.sessions.session(id) {
            Some(session) => session.notifies.contains_key((proto_id, token)),
            None => false,
        }
    }

    /// Why the request to remove a timer from the session `id` is not
    /// taken, if it is not. A timer that is not registered needs no room on
    /// the queue.
    pub open spec fn remove_session_notify_refusal(
        self,
        id: SessionId,
        proto_id: ProtocolId,
        token: u64,
    ) -> Option<Error> {
        if !self.control.closed.is_open() {
            Some(Error::ServiceClosed)
        } else if self.sessions.session(id) is None {
            Some(Error::SessionNotFound)
        } else if self.session_notify_set(id, proto_id, token) && !self.control.tasks.accepts(
            Priority::Normal,
        ) {
            Some(Error::QueueFull)
        } else {
            None
        }
    }

    /// The state after a timer was removed from the session `id`: a
    /// registered timer is gone and the request waits on the normal queue;
    /// for a timer that is not registered nothing changes.
    pub open spec fn remove_session_notify(self, id: SessionId, proto_id: ProtocolId, token: u64)
        -> ServiceView {
        if self.remove_session_notify_refusal(id, proto_id, token) is None
            && self.session_notify_set(id, proto_id, token) {
            ServiceView {
                sessions: self.sessions.update(
                    id,
                    self.sessions.session(id)->0.remove_notify(proto_id, token),
                ),
                ..self.enqueue(
                    Priority::Normal,
                    ServiceTask::RemoveProtocolSessionNotify { session_id: id, proto_id, token },
                )
            }
        } else {
            self
        }
    }

    /// The requests to stop listening, one per address, in the order of the
    /// addresses.
    pub open spec fn listen_stops(self) -> Seq<ServiceTask> {
        Seq::new(
            self.listens.len(),
            |i: int| ServiceTask::ListenStop { address: self.listens[i] },
        )
    }

    /// The requests to close every protocol, one per session on which a
    /// protocol is open, in the order of registration.
    pub open spec fn protocol_closes(self) -> Seq<ServiceTask> {
        Seq::new(
            self.sessions.busy().len(),
            |i: int|
                ServiceTask::ProtocolClose {
                    session_id: self.sessions.busy()[i],
                    target: TargetProtocol::All,
                },
        )
    }

    /// The requests to disconnect, one per session, in the order of
    /// registration.
    pub open spec fn disconnects(self) -> Seq<ServiceTask> {
        Seq::new(
            self.sessions.ids().len(),
            |i: int| ServiceTask::Disconnect { session_id: self.sessions.ids()[i] },
        )
    }

    /// What a graceful close asks of the runtime, in order: to stop every
    /// listener, then to close the protocols on every session, then to
    /// disconnect every session, and only then to tear the service down.
    pub open spec fn close_plan(self) -> Seq<ServiceTask> {
        self.listen_stops() + self.protocol_closes() + self.disconnects() + seq![
            ServiceTask::Shutdown(false),
        ]
    }

    /// The state after a graceful close was requested: unless it was
    /// refused, the one command to carry the close out waits at the back of
    /// the quick queue, the steps of the plan wait in order to be taken,
    /// the service is closing and every session is wound down. The listen
    /// list stays as the runtime last reported it.
    pub open spec fn close(self) -> ServiceView {
        if self.control.refusal(Priority::High) is None {
            ServiceView {
                control: self.control.begin_close(),
                sessions: self.sessions.wind_down_all(),
                steps: self.close_plan(),
                ..self
            }
        } else {
            self
        }
    }

    /// The step of a graceful close that the runtime takes next, if one is
    /// left.
    pub open spec fn next_step(self) -> Option<ServiceTask> {
        if self.steps.len() > 0 {
            Some(self.steps[0])
        } else {
            None
        }
    }

    /// The state after the runtime took a step of a graceful close.
    pub open spec fn after_step(self) -> ServiceView {
        if self.steps.len() > 0 {
            ServiceView { steps: self.steps.skip(1), ..self }
        } else {
            self
        }
    }

    /// The state after the service was shut down at once: unless it was
    /// closed already, everything that waited is dropped, for the runtime
    /// and for every session, and so are the steps of a graceful close
    /// that were not taken; the one command to shut down at once waits for
    /// the runtime, if the quick queue can hold a command at all; the
    /// service and every session are closed and no timer is left. The
    /// listen list stays as the runtime last reported it.
    pub open spec fn shutdown(self) -> ServiceView {
        if self.control.closed.is_closed() {
            self
        } else {
            ServiceView {
                control: self.control.force_shutdown(),
                sessions: self.sessions.mark_all_closed(),
                notifies: Map::empty(),
                steps: Seq::empty(),
                ..self
            }
        }
    }

    /// The state after a connection was registered: unless the service is
    /// on its way out or the ids are used up, the session is registered
    /// under the next id.
    pub open spec fn register(
        self,
        address: Multiaddr,
        ty: SessionType,
        remote_pubkey: Option<PublicKey>,
    ) -> ServiceView {
        if self.control.closed.is_open() && self.sessions.next_id < usize::MAX {
            ServiceView {
                sessions: self.sessions.register(
                    SessionContext {
                        id: self.sessions.next_id as usize,
                        address,
                        ty,
                        remote_pubkey,
                        closed: Lifecycle::Open,
                    },
                ),
                ..self
            }
        } else {
            self
        }
    }
}

/// Service context: the command surface of the runtime. Protocol handlers
/// and the application call it to dial and listen, to send and broadcast,
/// to open and close protocols, to set timers and to shut the service down.
/// No call waits: a command is taken onto a queue or refused with the
/// reason.
pub struct ServiceContext {
    listens: Vec<Multiaddr>,
    key_pair: Option<SecioKeyPair>,
    inner: ServiceControl,
    sessions: SessionRegistry,
    notifies: NotifyTable,
    steps: VecDeque<ServiceTask>,
}

impl View for ServiceContext {
    type V = ServiceView;

    closed spec fn view(&self) -> ServiceView {
        ServiceView {
            control: self.inner@,
            sessions: self.sessions@,
            listens: self.listens@,
            notifies: self.notifies@,
            key_pair: self.key_pair,
            steps: self.steps@,
        }
    }
}

impl ServiceContext {
    /// The context of a service that was just started: it knows the given
    /// protocols, has no session, listens nowhere and has no timer. The
    /// queues to the runtime hold up to `task_capacity` commands each, those
    /// to a session up to `session_capacity`.
    pub fn new(
        proto_infos: HashMap<ProtocolId, ProtocolInfo>,
        key_pair: Option<SecioKeyPair>,
        timeout: Duration,
        task_capacity: usize,
        session_capacity: usize,
    ) -> (context: Self)
        ensures
            context@ == (ServiceView {
                control: ControlView {
                    tasks: crate::channel::ChannelView::empty(task_capacity as nat),
                    protocols: proto_infos@,
                    timeout,
                    closed: Lifecycle::Open,
                },
                sessions: RegistryView::empty(session_capacity as nat),
                listens: Seq::empty(),
                notifies: Map::empty(),
                key_pair,
                steps: Seq::empty(),
            }),
            context@.wf(),
    {
        ServiceContext {
            inner: ServiceControl::new(proto_infos, timeout, task_capacity),
            key_pair,
            listens: Vec::new(),
            sessions: SessionRegistry::new(session_capacity),
            notifies: NotifyTable::new(),
            steps: VecDeque::new(),
        }
    }

    /// Create a new listener.
    ///
    /// The request waits on the quick queue for the runtime; whether the
    /// transport then listens is reported later. Refused with
    /// `ServiceClosed` once the service is on its way out, else with
    /// `QueueFull` if the quick queue is full.
    pub fn listen(&mut self, address: Multiaddr) -> (r: Result<(), Error>)
        ensures
            r == match old(self)@.control.refusal(Priority::High) {
                Some(e) => Err::<(), Error>(e),
                None => Ok(()),
            },
            final(self)@ == old(self)@.submit(Priority::High, ServiceTask::Listen { address }),
            old(self)@.wf() ==> final(self)@.wf() && old(self)@.evolves_to(final(self)@),
    {
        proof {
            lemma_evolves_refl(self@.sessions);
        }
        self.inner.quick_send(ServiceTask::Listen { address })
    }

    /// Initiate a connection request to address.
    ///
    /// The request waits on the quick queue for the runtime; whether the
    /// connection comes about is reported later. Refused with
    /// `ServiceClosed` once the service is on its way out, else with
    /// `QueueFull` if the quick queue is full.
    pub fn dial(&mut self, address: Multiaddr, target: DialProtocol) -> (r: Result<(), Error>)
        ensures
            r == match old(self)@.control.refusal(Priority::High) {
                Some(e) => Err::<(), Error>(e),
                None => Ok(()),
            },
            final(self)@ == old(self)@.submit(
                Priority::High,
                ServiceTask::Dial { address, target },
            ),
            old(self)@.wf() ==> final(self)@.wf() && old(self)@.evolves_to(final(self)@),
    {
        proof {
            lemma_evolves_refl(self@.sessions);
        }
        self.inner.quick_send(ServiceTask::Dial { address, target })
    }

    /// Send a unit of work to run beside the command loop.
    ///
    /// The request waits on the normal queue for the runtime. Refused with
    /// `ServiceClosed` once the service is on its way out, else with
    /// `QueueFull` if the normal queue is full.
    pub fn future_task(&mut self, task: TaskId) -> (r: Result<(), Error>)
        ensures
            r == match old(self)@.control.refusal(Priority::Normal) {
                Some(e) => Err::<(), Error>(e),
                None => Ok(()),
            },
            final(self)@ == old(self)@.submit(Priority::Normal, ServiceTask::FutureTask { task }),
            old(self)@.wf() ==> final(self)@.wf() && old(self)@.evolves_to(final(self)@),
    {
        proof {
            lemma_evolves_refl(self@.sessions);
        }
        self.inner.send(ServiceTask::FutureTask { task })
    }

    /// Sends a message to one session on one protocol, at the given
    /// priority.
    ///
    /// Refused with `SessionNotFound` if no such session is registered,
    /// else with `SessionClosed` once the session is on its way out, else
    /// with `ServiceClosed` once the service is, else with `ProtocolNotOpen`
    /// if the protocol is not open on the session, else with `QueueFull` if
    /// the session's queue of that priority is full. Otherwise the message
    /// waits at the back of that queue: it is accepted for delivery.
    pub fn send_message_with(
        &mut self,
        session_id: SessionId,
        priority: Priority,
        proto_id: ProtocolId,
        data: Bytes,
    ) -> (r: Result<(), Error>)
        ensures
            r == match old(self)@.send_refusal(session_id, priority, proto_id) {
                Some(e) => Err::<(), Error>(e),
                None => Ok(()),
            },
            final(self)@ == old(self)@.send(
                session_id,
                priority,
                proto_id,
                payload_octets(data),
            ),
            old(self)@.wf() ==> final(self)@.wf() && old(self)@.evolves_to(final(self)@),
    {
        proof {
            lemma_evolves_refl(self@.sessions);
        }
        match self.sessions.lookup(session_id) {
            None => {
                return Err(Error::SessionNotFound);
            },
            Some(context) => {
                if !context.closed.is_open() {
                    return Err(Error::SessionClosed);
                }
            },
        }
        if self.inner.is_closed() {
            return Err(Error::ServiceClosed);
        }
        proof {
            lemma_update_same(self@.sessions, session_id);
        }
        self.sessions.send(session_id, priority, proto_id, data)
    }

    /// Send message.
    ///
    /// The message travels on the normal queue of the session; see
    /// `send_message_with` for when it is refused.
    pub fn send_message_to(&mut self, session_id: SessionId, proto_id: ProtocolId, data: Bytes)
        -> (r: Result<(), Error>)
        ensures
            r == match old(self)@.send_refusal(session_id, Priority::Normal, proto_id) {
                Some(e) => Err::<(), Error>(e),
                None => Ok(()),
            },
            final(self)@ == old(self)@.send(
                session_id,
                Priority::Normal,
                proto_id,
                payload_octets(data),
            ),
            old(self)@.wf() ==> final(self)@.wf() && old(self)@.evolves_to(final(self)@),
    {
        self.send_message_with(session_id, Priority::Normal, proto_id, data)
    }

    /// Send message on quick channel.
    ///
    /// The message travels on the quick queue of the session, ahead of
    /// everything that waits on the normal one; see `send_message_with` for
    /// when it is refused.
    pub fn quick_send_message_to(
        &mut self,
        session_id: SessionId,
        proto_id: ProtocolId,
        data: Bytes,
    ) -> (r: Result<(), Error>)
        ensures
            r == match old(self)@.send_refusal(session_id, Priority::High, proto_id) {
                Some(e) => Err::<(), Error>(e),
                None => Ok(()),
            },
            final(self)@ == old(self)@.send(
                session_id,
                Priority::High,
                proto_id,
                payload_octets(data),
            ),
            old(self)@.wf() ==> final(self)@.wf() && old(self)@.evolves_to(final(self)@),
    {
        self.send_message_with(session_id, Priority::High, proto_id, data)
    }

    /// Sends the same message to every targeted session, at the given
    /// priority.
    ///
    /// Refused as a whole with `ServiceClosed` once the service is on its
    /// way out. Otherwise each targeted session takes the message or does
    /// not, by the rules of `send_message_with`; that one session does not
    /// take it is no failure of the call and keeps the message from no
    /// other session.
    pub fn filter_broadcast_with(
        &mut self,
        session_ids: TargetSession,
        priority: Priority,
        proto_id: ProtocolId,
        data: Bytes,
    ) -> (r: Result<(), Error>)
        ensures
            r == if old(self)@.control.closed.is_open() {
                Ok::<(), Error>(())
            } else {
                Err(Error::ServiceClosed)
            },
            final(self)@ == old(self)@.broadcast(
                session_ids,
                priority,
                proto_id,
                payload_octets(data),
            ),
            old(self)@.wf() ==> final(self)@.wf() && old(self)@.evolves_to(final(self)@),
    {
        if self.inner.is_closed() {
            proof {
                lemma_evolves_refl(self@.sessions);
            }
            return Err(Error::ServiceClosed);
        }
        self.sessions.broadcast(&session_ids, priority, proto_id, data);
        Ok(())
    }

    /// Send data to the specified protocol for the specified sessions.
    ///
    /// The message travels on the normal queue of each session; see
    /// `filter_broadcast_with`.
    pub fn filter_broadcast(
        &mut self,
        session_ids: TargetSession,
        proto_id: ProtocolId,
        data: Bytes,
    ) -> (r: Result<(), Error>)
        ensures
            r == if old(self)@.control.closed.is_open() {
                Ok::<(), Error>(())
            } else {
                Err(Error::ServiceClosed)
            },
            final(self)@ == old(self)@.broadcast(
                session_ids,
                Priority::Normal,
                proto_id,
                payload_octets(data),
            ),
            old(self)@.wf() ==> final(self)@.wf() && old(self)@.evolves_to(final(self)@),
    {
        self.filter_broadcast_with(session_ids, Priority::Normal, proto_id, data)
    }

    /// Send data to the specified protocol for the specified sessions on
    /// quick channel.
    ///
    /// The message travels on the quick queue of each session; see
    /// `filter_broadcast_with`.
    pub fn quick_filter_broadcast(
        &mut self,
        session_ids: TargetSession,
        proto_id: ProtocolId,
        data: Bytes,
    ) -> (r: Result<(), Error>)
        ensures
            r == if old(self)@.control.closed.is_open() {
                Ok::<(), Error>(())
            } else {
                Err(Error::ServiceClosed)
            },
            final(self)@ == old(self)@.broadcast(
                session_ids,
                Priority::High,
                proto_id,
                payload_octets(data),
            ),
            old(self)@.wf() ==> final(self)@.wf() && old(self)@.evolves_to(final(self)@),
    {
        self.filter_broadcast_with(session_ids, Priority::High, proto_id, data)
    }

    /// Disconnect a connection.
    ///
    /// An open session is marked closing, so that it takes no further
    /// command, and the request to tear it down waits on the quick queue.
    /// For a session that is on its way out already the call changes
    /// nothing and succeeds. Refused with `ServiceClosed` once the service
    /// is on its way out, else with `SessionNotFound` if no such session is
    /// registered, else with `QueueFull` if the session is open and the
    /// quick queue is full.
    pub fn disconnect(&mut self, session_id: SessionId) -> (r: Result<(), Error>)
        ensures
            r == verdict(old(self)@.disconnect_refusal(session_id)),
            final(self)@ == old(self)@.disconnect(session_id),
            old(self)@.wf() ==> final(self)@.wf() && old(self)@.evolves_to(final(self)@),
    {
        proof {
            lemma_evolves_refl(self@.sessions);
        }
        if self.inner.is_closed() {
            return Err(Error::ServiceClosed);
        }
        match self.sessions.lookup(session_id) {
            None => {
                return Err(Error::SessionNotFound);
            },
            Some(context) => {
                if !context.closed.is_open() {
                    return Ok(());
                }
            },
        }
        if !self.inner.accepts(Priority::High) {
            return Err(Error::QueueFull);
        }
        let _ = self.sessions.mark_closing(session_id);
        let _ = self.inner.quick_send(ServiceTask::Disconnect { session_id });
        Ok(())
    }

    /// Try open a protocol.
    ///
    /// If the protocol has been open, do nothing. See `open_protocols`.
    pub fn open_protocol(&mut self, session_id: SessionId, proto_id: ProtocolId) -> (r: Result<
        (),
        Error,
    >)
        ensures
            r == verdict(old(self)@.open_refusal(session_id, TargetProtocol::Single(proto_id))),
            final(self)@ == old(self)@.open_protocols(
                session_id,
                TargetProtocol::Single(proto_id),
            ),
            old(self)@.wf() ==> final(self)@.wf() && old(self)@.evolves_to(final(self)@),
    {
        self.open_protocols(session_id, TargetProtocol::Single(proto_id))
    }

    /// Try open protocol.
    ///
    /// If the protocol has been open, do nothing: where every targeted
    /// protocol that the service knows is open on a registered session
    /// already, the call changes nothing and succeeds, whatever the state
    /// of the service and of the session. Otherwise those protocols are
    /// marked open on the session and the request waits on the quick queue.
    /// A request that has something to open is refused with `ServiceClosed`
    /// once the service is on its way out, else with `SessionClosed` once
    /// the session is, else with `QueueFull` if the quick queue is full. A
    /// request for a session that is not registered is refused with
    /// `ServiceClosed` once the service is on its way out, else with
    /// `SessionNotFound`.
    pub fn open_protocols(&mut self, session_id: SessionId, target: TargetProtocol) -> (r: Result<
        (),
        Error,
    >)
        ensures
            r == verdict(old(self)@.open_refusal(session_id, target)),
            final(self)@ == old(self)@.open_protocols(session_id, target),
            old(self)@.wf() ==> final(self)@.wf() && old(self)@.evolves_to(final(self)@),
    {
        proof {
            lemma_evolves_refl(self@.sessions);
        }
        let service_closed = self.inner.is_closed();
        let session_open = match self.sessions.lookup(session_id) {
            None => {
                if service_closed {
                    return Err(Error::ServiceClosed);
                }
                return Err(Error::SessionNotFound);
            },
            Some(context) => context.closed.is_open(),
        };
        if !self.sessions.would_open(session_id, &target, self.inner.protocols()) {
            return Ok(());
        }
        if service_closed {
            return Err(Error::ServiceClosed);
        }
        if !session_open {
            return Err(Error::SessionClosed);
        }
        if !self.inner.accepts(Priority::High) {
            return Err(Error::QueueFull);
        }
        let _ = self.sessions.open_protocols(session_id, &target, self.inner.protocols());
        let _ = self.inner.quick_send(ServiceTask::ProtocolOpen { session_id, target });
        Ok(())
    }

    /// Try close a protocol.
    ///
    /// If the protocol has been closed, do nothing: the call changes
    /// nothing and succeeds. An open protocol is marked closed on the
    /// session and the request waits on the quick queue. Refused with
    /// `ServiceClosed` once the service is on its way out, else with
    /// `SessionNotFound` if no such session is registered, else with
    /// `QueueFull` if the protocol is open and the quick queue is full.
    pub fn close_protocol(&mut self, session_id: SessionId, proto_id: ProtocolId) -> (r: Result<
        (),
        Error,
    >)
        ensures
            r == verdict(old(self)@.close_refusal(session_id, proto_id)),
            final(self)@ == old(self)@.close_protocol(session_id, proto_id),
            old(self)@.wf() ==> final(self)@.wf() && old(self)@.evolves_to(final(self)@),
    {
        proof {
            lemma_evolves_refl(self@.sessions);
        }
        if self.inner.is_closed() {
            return Err(Error::ServiceClosed);
        }
        match self.sessions.controller(session_id) {
            None => {
                return Err(Error::SessionNotFound);
            },
            Some(controller) => {
                if !controller.protocol_open(proto_id) {
                    return Ok(());
                }
            },
        }
        if !self.inner.accepts(Priority::High) {
            return Err(Error::QueueFull);
        }
        let _ = self.sessions.close_protocol(session_id, proto_id);
        let _ = self.inner.quick_send(
            ServiceTask::ProtocolClose { session_id, target: TargetProtocol::Single(proto_id) },
        );
        Ok(())
    }

    /// Set a service notify token.
    ///
    /// The timer is registered under the protocol and the token, with the
    /// interval; one that is registered already gets the new interval. The
    /// request waits on the normal queue. Refused with `ServiceClosed` once
    /// the service is on its way out, else with `QueueFull` if the normal
    /// queue is full.
    pub fn set_service_notify(&mut self, proto_id: ProtocolId, interval: Duration, token: u64)
        -> (r: Result<(), Error>)
        ensures
            r == verdict(old(self)@.control.refusal(Priority::Normal)),
            final(self)@ == old(self)@.set_service_notify(proto_id, interval, token),
            old(self)@.wf() ==> final(self)@.wf() && old(self)@.evolves_to(final(self)@),
    {
        proof {
            lemma_evolves_refl(self@.sessions);
        }
        match self.inner.send(ServiceTask::SetProtocolNotify { proto_id, interval, token }) {
            Ok(()) => {
                self.notifies.set(proto_id, token, interval);
                Ok(())
            },
            Err(e) => Err(e),
        }
    }

    /// Set a session notify token.
    ///
    /// The timer is registered on the session under the protocol and the
    /// token, with the interval; one that is registered already gets the
    /// new interval. The request waits on the normal queue. Refused with
    /// `ServiceClosed` once the service is on its way out, else with
    /// `SessionNotFound` if no such session is registered, else with
    /// `SessionClosed` once the session is on its way out, else with
    /// `QueueFull` if the normal queue is full.
    pub fn set_session_notify(
        &mut self,
        session_id: SessionId,
        proto_id: ProtocolId,
        interval: Duration,
        token: u64,
    ) -> (r: Result<(), Error>)
        ensures
            r == verdict(old(self)@.set_session_notify_refusal(session_id)),
            final(self)@ == old(self)@.set_session_notify(session_id, proto_id, interval, token),
            old(self)@.wf() ==> final(self)@.wf() && old(self)@.evolves_to(final(self)@),
    {
        proof {
            lemma_evolves_refl(self@.sessions);
        }
        if self.inner.is_closed() {
            return Err(Error::ServiceClosed);
        }
        match self.sessions.lookup(session_id) {
            None => {
                return Err(Error::SessionNotFound);
            },
            Some(context) => {
                if !context.closed.is_open() {
                    return Err(Error::SessionClosed);
                }
            },
        }
        if !self.inner.accepts(Priority::Normal) {
            return Err(Error::QueueFull);
        }
        let _ = self.sessions.set_notify(session_id, proto_id, token, interval);
        let _ = self.inner.send(
            ServiceTask::SetProtocolSessionNotify { session_id, proto_id, interval, token },
        );
        Ok(())
    }

    /// Remove a service timer by a token.
    ///
    /// A registered timer is removed and the request waits on the normal
    /// queue. Removing a timer that is not registered changes nothing and
    /// succeeds. Refused with `ServiceClosed` once the service is on its
    /// way out, else with `QueueFull` if the timer is registered and the
    /// normal queue is full.
    pub fn remove_service_notify(&mut self, proto_id: ProtocolId, token: u64) -> (r: Result<
        (),
        Error,
    >)
        ensures
            r == verdict(old(self)@.remove_service_notify_refusal(proto_id, token)),
            final(self)@ == old(self)@.remove_service_notify(proto_id, token),
            old(self)@.wf() ==> final(self)@.wf() && old(self)@.evolves_to(final(self)@),
    {
        proof {
            lemma_evolves_refl(self@.sessions);
        }
        if self.inner.is_closed() {
            return Err(Error::ServiceClosed);
        }
        if !self.notifies.contains(proto_id, token) {
            return Ok(());
        }
        if !self.inner.accepts(Priority::Normal) {
            return Err(Error::QueueFull);
        }
        let _ = self.notifies.remove(proto_id, token);
        let _ = self.inner.send(ServiceTask::RemoveProtocolNotify { proto_id, token });
        Ok(())
    }

    /// Remove a session timer by a token.
    ///
    /// A registered timer is removed from the session and the request waits
    /// on the normal queue. Removing a timer that is not registered changes
    /// nothing and succeeds. Refused with `ServiceClosed` once the service
    /// is on its way out, else with `SessionNotFound` if no such session is
    /// registered, else with `QueueFull` if the timer is registered and the
    /// normal queue is full.
    pub fn remove_session_notify(
        &mut self,
        session_id: SessionId,
        proto_id: ProtocolId,
        token: u64,
    ) -> (r: Result<(), Error>)
        ensures
            r == verdict(old(self)@.remove_session_notify_refusal(session_id, proto_id, token)),
            final(self)@ == old(self)@.remove_session_notify(session_id, proto_id, token),
            old(self)@.wf() ==> final(self)@.wf() && old(self)@.evolves_to(final(self)@),
    {
        proof {
            lemma_evolves_refl(self@.sessions);
        }
        if self.inner.is_closed() {
            return Err(Error::ServiceClosed);
        }
        match self.sessions.controller(session_id) {
            None => {
                return Err(Error::SessionNotFound);
            },
            Some(controller) => {
                if !controller.has_notify(proto_id, token) {
                    return Ok(());
                }
            },
        }
        if !self.inner.accepts(Priority::Normal) {
            return Err(Error::QueueFull);
        }
        let _ = self.sessions.remove_notify(session_id, proto_id, token);
        let _ = self.inner.send(
            ServiceTask::RemoveProtocolSessionNotify { session_id, proto_id, token },
        );
        Ok(())
    }

    /// What a graceful close asks of the runtime, in order.
    fn close_plan(&self) -> (plan: VecDeque<ServiceTask>)
        ensures
            plan@ == self@.close_plan(),
    {
        let mut plan: VecDeque<ServiceTask> = VecDeque::new();
        let mut i: usize = 0;
        while i < self.listens.len()
            invariant
                i <= self.listens.len(),
                plan@ == self@.listen_stops().take(i as int),
            decreases self.listens.len() - i,
        {
            plan.push_back(ServiceTask::ListenStop { address: self.listens[i].clone() });
            assert(plan@ =~= self@.listen_stops().take(i + 1));
            i = i + 1;
        }
        assert(plan@ =~= self@.listen_stops());
        let busy = self.sessions.busy_ids();
        let mut j: usize = 0;
        while j < busy.len()
            invariant
                j <= busy.len(),
                busy@ == self@.sessions.busy(),
                plan@ == self@.listen_stops() + self@.protocol_closes().take(j as int),
            decreases busy.len() - j,
        {
            plan.push_back(
                ServiceTask::ProtocolClose { session_id: busy[j], target: TargetProtocol::All },
            );
            assert(plan@ =~= self@.listen_stops() + self@.protocol_closes().take(j + 1));
            j = j + 1;
        }
        assert(self@.protocol_closes().take(j as int) =~= self@.protocol_closes());
        let ids = self.sessions.ids();
        let mut k: usize = 0;
        while k < ids.len()
            invariant
                k <= ids.len(),
                ids@ == self@.sessions.ids(),
                plan@ == self@.listen_stops() + self@.protocol_closes() + self@.disconnects().take(
                    k as int,
                ),
            decreases ids.len() - k,
        {
            plan.push_back(ServiceTask::Disconnect { session_id: ids[k] });
            assert(plan@ =~= self@.listen_stops() + self@.protocol_closes()
                + self@.disconnects().take(k + 1));
            k = k + 1;
        }
        assert(self@.disconnects().take(k as int) =~= self@.disconnects());
        plan.push_back(ServiceTask::Shutdown(false));
        assert(plan@ =~= self@.close_plan());
        plan
    }

    /// Close service.
    ///
    /// Order:
    /// 1. close all listens
    /// 2. try close all session's protocol stream
    /// 3. try close all session
    /// 4. close service
    ///
    /// One command to carry the close out is put on the quick queue; the
    /// steps themselves, in this order, wait with the context and are
    /// handed to the runtime one by one by `next_close_step`. So a close
    /// needs room for one command, however many listeners and sessions
    /// there are. From then on the service is closing: every session is
    /// wound down and takes no further command, and no new command is taken
    /// for the runtime. Nothing is taken back later: each step is the
    /// runtime's best effort, and a step that fails does not undo the ones
    /// before it. Refused with `ServiceClosed` if the service is on its way
    /// out already, else with `QueueFull` if the quick queue is full; then
    /// nothing changes.
    pub fn close(&mut self) -> (r: Result<(), Error>)
        ensures
            r == verdict(old(self)@.control.refusal(Priority::High)),
            final(self)@ == old(self)@.close(),
            r is Ok ==> final(self)@.steps == old(self)@.close_plan(),
            old(self)@.wf() ==> final(self)@.wf() && old(self)@.evolves_to(final(self)@),
    {
        proof {
            lemma_evolves_refl(self@.sessions);
        }
        if !self.inner.accepts(Priority::High) {
            return self.inner.begin_close();
        }
        let plan = self.close_plan();
        let begun = self.inner.begin_close();
        self.sessions.wind_down_all();
        self.steps = plan;
        begun
    }

    /// Hands the runtime the step of a graceful close that is due next, if
    /// one is left: first the requests to stop the listeners, then those to
    /// close the protocols on the sessions, then those to disconnect the
    /// sessions, and last the teardown of the service.
    pub fn next_close_step(&mut self) -> (step: Option<ServiceTask>)
        ensures
            step == old(self)@.next_step(),
            final(self)@ == old(self)@.after_step(),
            old(self)@.wf() ==> final(self)@.wf() && old(self)@.evolves_to(final(self)@),
    {
        proof {
            lemma_evolves_refl(self@.sessions);
        }
        let step = self.steps.pop_front();
        proof {
            if step is Some {
                assert(self.steps@ =~= old(self).steps@.skip(1));
            }
        }
        step
    }

    /// Shutdown service, don't care anything, may cause partial message
    /// loss.
    ///
    /// Everything that waits is dropped, for the runtime and for every
    /// session, and so are the steps of a graceful close that were not
    /// taken; the one command to shut down at once takes their place; the
    /// service and every session are closed for good. The listen list
    /// stays as the runtime last reported it. Refused with `ServiceClosed`
    /// if the service is closed already.
    pub fn shutdown(&mut self) -> (r: Result<(), Error>)
        ensures
            r == if old(self)@.control.closed.is_closed() {
                Err::<(), Error>(Error::ServiceClosed)
            } else {
                Ok(())
            },
            final(self)@ == old(self)@.shutdown(),
            old(self)@.wf() ==> final(self)@.wf() && old(self)@.evolves_to(final(self)@),
    {
        if self.inner.state().is_closed() {
            proof {
                lemma_evolves_refl(self@.sessions);
            }
            return Err(Error::ServiceClosed);
        }
        self.inner.force_shutdown();
        self.sessions.mark_all_closed();
        self.notifies.clear();
        self.steps.clear();
        Ok(())
    }

    /// Registers a connection that the transport just established, under
    /// the next free id, and returns that id. The session starts open, with
    /// no protocol open and nothing waiting.
    ///
    /// Returns `None`, and registers nothing, if the service is on its way
    /// out or the ids are used up.
    pub fn register(
        &mut self,
        address: Multiaddr,
        ty: SessionType,
        remote_pubkey: Option<PublicKey>,
    ) -> (id: Option<SessionId>)
        ensures
            id == if old(self)@.control.closed.is_open() && old(self)@.sessions.next_id
                < usize::MAX {
                Some(old(self)@.sessions.next_id as usize)
            } else {
                None
            },
            final(self)@ == old(self)@.register(address, ty, remote_pubkey),
            old(self)@.wf() ==> final(self)@.wf() && old(self)@.evolves_to(final(self)@),
    {
        if self.inner.is_closed() {
            proof {
                lemma_evolves_refl(self@.sessions);
            }
            return None;
        }
        self.sessions.register(address, ty, remote_pubkey)
    }

    /// The identity of the session with this id, if one is registered.
    pub fn lookup(&self, session_id: SessionId) -> (context: Option<&SessionContext>)
        ensures
            match context {
                Some(c) => self@.sessions.session(session_id) is Some && *c
                    == self@.sessions.session(session_id)->0.context,
                None => self@.sessions.session(session_id) is None,
            },
    {
        self.sessions.lookup(session_id)
    }

    /// Ends the registration of a session once the connection is gone: the
    /// session is marked closed, then its entry is dropped, and its
    /// identity is handed out in that last state.
    pub fn remove(&mut self, session_id: SessionId) -> (context: Option<SessionContext>)
        ensures
            context == match old(self)@.sessions.session(session_id) {
                Some(session) => Some(session.mark_closed().context),
                None => None,
            },
            final(self)@ == (ServiceView {
                sessions: old(self)@.sessions.remove(session_id),
                ..old(self)@
            }),
            old(self)@.wf() ==> final(self)@.wf() && old(self)@.evolves_to(final(self)@),
    {
        let context = self.sessions.remove(session_id);
        proof {
            if old(self)@.wf() && !self@.control.closed.is_open() {
                lemma_none_reopens(old(self)@.sessions, self@.sessions);
            }
        }
        context
    }

    /// Takes the command that is due next for the runtime, if any waits:
    /// the oldest quick one, and the oldest normal one only when no quick
    /// one waits.
    pub fn next_task(&mut self) -> (task: Option<ServiceTask>)
        ensures
            task == old(self)@.control.tasks.front(),
            final(self)@ == (ServiceView { control: old(self)@.control.pop(), ..old(self)@ }),
            old(self)@.wf() ==> final(self)@.wf() && old(self)@.evolves_to(final(self)@),
    {
        proof {
            lemma_evolves_refl(self@.sessions);
        }
        self.inner.try_recv()
    }

    /// Takes the command that is due next for the session, if any waits:
    /// the oldest quick one, and the oldest normal one only when no quick
    /// one waits. Nothing is taken if the session is not registered.
    pub fn next_session_event(&mut self, session_id: SessionId) -> (event: Option<SessionEvent>)
        ensures
            match old(self)@.sessions.session(session_id) {
                Some(session) => {
                    &&& match event {
                        Some(e) => session.events.front() == Some(e@),
                        None => session.events.front() is None,
                    }
                    &&& final(self)@ == (ServiceView {
                        sessions: old(self)@.sessions.update(session_id, session.pop()),
                        ..old(self)@
                    })
                },
                None => event is None && final(self)@ == old(self)@,
            },
            old(self)@.wf() ==> final(self)@.wf() && old(self)@.evolves_to(final(self)@),
    {
        let event = self.sessions.try_recv(session_id);
        proof {
            if old(self)@.wf() && !self@.control.closed.is_open() {
                lemma_none_reopens(old(self)@.sessions, self@.sessions);
            }
        }
        event
    }

    /// Hands the commands that wait for the runtime over to the runtime's
    /// task, as `ServiceControl::flush` does.
    pub fn flush_tasks(&mut self, sender: &mut Sender<ServiceTask>, budget: usize) -> (r: (
        usize,
        FlushEnd,
    ))
        ensures
            old(self)@.control.tasks.flushed(budget, r.0, r.1, final(self)@.control.tasks),
            final(self)@ == (ServiceView {
                control: ControlView {
                    tasks: old(self)@.control.tasks.after_deliveries(r.0 as nat),
                    ..old(self)@.control
                },
                ..old(self)@
            }),
            r.0 <= budget,
            r.0 <= old(self)@.control.tasks.pending(),
            r.1 == FlushEnd::Drained <==> final(self)@.control.tasks.pending() == 0,
            r.1 == FlushEnd::Budget ==> r.0 == budget && final(self)@.control.tasks.pending()
                > 0,
            r.1 == FlushEnd::Full || r.1 == FlushEnd::Disconnected ==> r.0 < budget,
            old(self)@.wf() ==> final(self)@.wf() && old(self)@.evolves_to(final(self)@),
    {
        proof {
            lemma_evolves_refl(self@.sessions);
        }
        let r = self.inner.flush(sender, budget);
        proof {
            crate::channel::lemma_deliveries_keep_capacity(old(self)@.control.tasks, r.0 as nat);
        }
        r
    }

    /// Hands the commands that wait for a session over to the session's
    /// task, as `SessionController::flush` does. `None`, and nothing
    /// handed over, if the session is not registered.
    pub fn flush_session(
        &mut self,
        session_id: SessionId,
        sender: &mut Sender<SessionEvent>,
        budget: usize,
    ) -> (r: Option<(usize, FlushEnd)>)
        ensures
            match old(self)@.sessions.session(session_id) {
                Some(session) => {
                    &&& r matches Some(done)
                    &&& session.events.flushed(
                        budget,
                        done.0,
                        done.1,
                        session.after_deliveries(done.0 as nat).events,
                    )
                    &&& final(self)@ == (ServiceView {
                        sessions: old(self)@.sessions.update(
                            session_id,
                            session.after_deliveries(done.0 as nat),
                        ),
                        ..old(self)@
                    })
                },
                None => r is None && final(self)@ == old(self)@,
            },
            old(self)@.wf() ==> final(self)@.wf() && old(self)@.evolves_to(final(self)@),
    {
        let r = self.sessions.flush(session_id, sender, budget);
        proof {
            if old(self)@.wf() && !self@.control.closed.is_open() {
                lemma_none_reopens(old(self)@.sessions, self@.sessions);
            }
        }
        r
    }

    /// Get the internal channel sender side handle.
    pub fn control(&self) -> (control: &ServiceControl)
        ensures
            control@ == self@.control,
    {
        &self.inner
    }

    /// Get service protocol message, Map(ID, Name), but can't modify.
    pub fn protocols(&self) -> (protocols: &Arc<HashMap<ProtocolId, ProtocolInfo>>)
        ensures
            protocols@ == self@.control.protocols,
    {
        self.inner.protocols()
    }

    /// Get the key pair of self.
    pub fn key_pair(&self) -> (pair: Option<&SecioKeyPair>)
        ensures
            match pair {
                Some(p) => self@.key_pair == Some(*p),
                None => self@.key_pair is None,
            },
    {
        self.key_pair.as_ref()
    }

    /// Get service listen address list.
    pub fn listens(&self) -> (listens: &[Multiaddr])
        ensures
            listens@ == self@.listens,
    {
        self.listens.as_slice()
    }

    /// Update listen list: the runtime reports the addresses that the
    /// transport listens on now.
    pub fn update_listens(&mut self, address_list: Vec<Multiaddr>)
        ensures
            final(self)@ == (ServiceView { listens: address_list@, ..old(self)@ }),
            old(self)@.wf() ==> final(self)@.wf() && old(self)@.evolves_to(final(self)@),
    {
        proof {
            lemma_evolves_refl(self@.sessions);
        }
        self.listens = address_list;
    }

    /// The registered sessions.
    pub fn sessions(&self) -> (sessions: &SessionRegistry)
        ensures
            sessions@ == self@.sessions,
    {
        &self.sessions
    }
}

/// Protocol handle context: the service context as one protocol sees it.
/// It adds nothing to the state, only the protocol's own id.
pub struct ProtocolContext {
    inner: ServiceContext,
    /// Protocol id
    pub proto_id: ProtocolId,
}

impl ProtocolContext {
    /// The state of the service behind this context.
    pub closed spec fn service(&self) -> ServiceView {
        self.inner@
    }

    /// The protocol that this context belongs to.
    pub closed spec fn protocol(&self) -> ProtocolId {
        self.proto_id
    }

    /// The view of the protocol `proto_id` on the service.
    pub fn new(service_context: ServiceContext, proto_id: ProtocolId) -> (context: Self)
        ensures
            context.service() == service_context@,
            context.protocol() == proto_id,
    {
        ProtocolContext { inner: service_context, proto_id }
    }

    /// Gives the service context back.
    pub fn into_inner(self) -> (service_context: ServiceContext)
        ensures
            service_context@ == self.service(),
    {
        self.inner
    }

    /// Protocol id
    pub fn proto_id(&self) -> (proto_id: ProtocolId)
        ensures
            proto_id == self.protocol(),
    {
        self.proto_id
    }

    /// Narrows the context to one session for the time of one event. What
    /// is done through the narrowed context is done to this one.
    pub fn as_mut<'a, 'b: 'a>(&'b mut self, session: &'a SessionContext) -> (narrowed:
        ProtocolContextMutRef<'a>)
        ensures
            *narrowed.inner == *old(self),
            *narrowed.session == *session,
            *final(self) == *final(narrowed.inner),
    {
        ProtocolContextMutRef { inner: self, session }
    }

    /// Send message to one session on this protocol.
    ///
    /// The message travels on the normal queue of the session; it is taken
    /// or refused as `ServiceContext::send_message_with` says.
    pub fn send_message_to(&mut self, session_id: SessionId, data: Bytes) -> (r: Result<(), Error>)
        ensures
            r == verdict(
                old(self).service().send_refusal(
                    session_id,
                    Priority::Normal,
                    old(self).protocol(),
                ),
            ),
            final(self).service() == old(self).service().send(
                session_id,
                Priority::Normal,
                old(self).protocol(),
                payload_octets(data),
            ),
            final(self).protocol() == old(self).protocol(),
    {
        self.inner.send_message_to(session_id, self.proto_id, data)
    }

    /// Send message to one session on this protocol, on quick channel.
    ///
    /// The message travels on the quick queue of the session; it is taken
    /// or refused as `ServiceContext::send_message_with` says.
    pub fn quick_send_message_to(&mut self, session_id: SessionId, data: Bytes) -> (r: Result<
        (),
        Error,
    >)
        ensures
            r == verdict(
                old(self).service().send_refusal(session_id, Priority::High, old(self).protocol()),
            ),
            final(self).service() == old(self).service().send(
                session_id,
                Priority::High,
                old(self).protocol(),
                payload_octets(data),
            ),
            final(self).protocol() == old(self).protocol(),
    {
        self.inner.quick_send_message_to(session_id, self.proto_id, data)
    }
}

impl std::ops::Deref for ProtocolContext {
    type Target = ServiceContext;

    fn deref(&self) -> (service_context: &ServiceContext)
        ensures
            service_context@ == self.service(),
    {
        &self.inner
    }
}

impl std::ops::DerefMut for ProtocolContext {
    fn deref_mut(&mut self) -> (service_context: &mut ServiceContext)
        ensures
            service_context@ == old(self).service(),
            final(self).service() == final(service_context)@,
            final(self).protocol() == old(self).protocol(),
    {
        &mut self.inner
    }
}

/// Protocol handle context contain session context: the service as one
/// protocol sees it while it handles one event of one session. It lives for
/// that one call and is never kept.
pub struct ProtocolContextMutRef<'a> {
    /// Protocol context
    pub inner: &'a mut ProtocolContext,
    /// Session context
    pub session: &'a SessionContext,
}

impl<'a> ProtocolContextMutRef<'a> {
    /// Send message to current protocol current session.
    ///
    /// The message travels on the normal queue of the session; it is taken
    /// or refused as `ServiceContext::send_message_with` says.
    pub fn send_message(&mut self, data: Bytes) -> (r: Result<(), Error>)
        ensures
            r == verdict(
                old(self).inner.service().send_refusal(
                    old(self).session.id,
                    Priority::Normal,
                    old(self).inner.protocol(),
                ),
            ),
            final(self).inner.service() == old(self).inner.service().send(
                old(self).session.id,
                Priority::Normal,
                old(self).inner.protocol(),
                payload_octets(data),
            ),
            final(self).inner.protocol() == old(self).inner.protocol(),
            final(self).session == old(self).session,
            *final(final(self).inner) == *final(old(self).inner),
    {
        let session_id = self.session.id;
        self.inner.send_message_to(session_id, data)
    }

    /// Send message to current protocol current session on quick channel.
    ///
    /// The message travels on the quick queue of the session; it is taken
    /// or refused as `ServiceContext::send_message_with` says.
    pub fn quick_send_message(&mut self, data: Bytes) -> (r: Result<(), Error>)
        ensures
            r == verdict(
                old(self).inner.service().send_refusal(
                    old(self).session.id,
                    Priority::High,
                    old(self).inner.protocol(),
                ),
            ),
            final(self).inner.service() == old(self).inner.service().send(
                old(self).session.id,
                Priority::High,
                old(self).inner.protocol(),
                payload_octets(data),
            ),
            final(self).inner.protocol() == old(self).inner.protocol(),
            final(self).session == old(self).session,
            *final(final(self).inner) == *final(old(self).inner),
    {
        let session_id = self.session.id;
        self.inner.quick_send_message_to(session_id, data)
    }

    /// Protocol id
    pub fn proto_id(&self) -> (proto_id: ProtocolId)
        ensures
            proto_id == old(self.inner).protocol(),
    {
        self.inner.proto_id
    }
}

impl<'a> std::ops::Deref for ProtocolContextMutRef<'a> {
    type Target = ProtocolContext;

    fn deref(&self) -> (context: &ProtocolContext)
        ensures
            *context == *old(self.inner),
    {
        &*self.inner
    }
}

impl<'a> std::ops::DerefMut for ProtocolContextMutRef<'a> {
    fn deref_mut(&mut self) -> (context: &mut ProtocolContext)
        ensures
            *context == *old(self).inner,
            *final(self).inner == *final(context),
            final(self).session == old(self).session,
            *final(final(self).inner) == *final(old(self).inner),
    {
        &mut *self.inner
    }
}

} // verus!
