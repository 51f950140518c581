use crate::channel::{ChannelView, FlushEnd, Priority, PriorityChannel};
use crate::error::Error;
use crate::multiaddr::Multiaddr;
use crate::protocol_select::ProtocolInfo;
use crate::session::Lifecycle;
use crate::target::TargetProtocol;
use crate::{ProtocolId, SessionId};
use futures::sync::mpsc::Sender;
use std::collections::HashMap;
use std::sync::Arc;
use std::time::Duration;
use vstd::prelude::*;

verus! {

/// Names a unit of work that was handed to the runtime. The one who hands
/// it over keeps the work itself and finds it again by this name.
pub type TaskId = u64;

/// A command to the runtime that is not a message to one session.
#[derive(Debug, PartialEq, Eq)]
pub enum ServiceTask {
    /// Start to listen on an address.
    Listen {
        /// The address to listen on.
        address: Multiaddr,
    },
    /// Stop to listen on an address.
    ListenStop {
        /// The address that was listened on.
        address: Multiaddr,
    },
    /// Dial an address and open protocols on the new session.
    Dial {
        /// The address to dial.
        address: Multiaddr,
        /// The protocols to open.
        target: TargetProtocol,
    },
    /// Tear one session down.
    Disconnect {
        /// The session.
        session_id: SessionId,
    },
    /// Open protocols on a session.
    ProtocolOpen {
        /// The session.
        session_id: SessionId,
        /// The protocols to open.
        target: TargetProtocol,
    },
    /// Close protocols on a session.
    ProtocolClose {
        /// The session.
        session_id: SessionId,
        /// The protocols to close.
        target: TargetProtocol,
    },
    /// Start a recurring timer of a protocol.
    SetProtocolNotify {
        /// The protocol that owns the timer.
        proto_id: ProtocolId,
        /// The time between two firings, about.
        interval: Duration,
        /// The protocol's name for the timer.
        token: u64,
    },
    /// Stop a timer of a protocol.
    RemoveProtocolNotify {
        /// The protocol that owns the timer.
        proto_id: ProtocolId,
        /// The protocol's name for the timer.
        token: u64,
    },
    /// Start a recurring timer of a protocol on one session.
    SetProtocolSessionNotify {
        /// The session.
        session_id: SessionId,
        /// The protocol that owns the timer.
        proto_id: ProtocolId,
        /// The time between two firings, about.
        interval: Duration,
        /// The protocol's name for the timer.
        token: u64,
    },
    /// Stop a timer of a protocol on one session.
    RemoveProtocolSessionNotify {
        /// The session.
        session_id: SessionId,
        /// The protocol that owns the timer.
        proto_id: ProtocolId,
        /// The protocol's name for the timer.
        token: u64,
    },
    /// Run a unit of work beside the command loop.
    FutureTask {
        /// The name of the work.
        task: TaskId,
    },
    /// Carry out a graceful close. Its steps wait in order with the service
    /// context, which hands them out one by one.
    Close,
    /// Tear the service down. `true` if at once, without regard for what is
    /// still in flight.
    Shutdown(bool),
}

/// What the service-wide handle holds: the commands that wait for the
/// runtime, the protocols of the service, the default time allowed for an
/// operation, and how far the service is on its way out.
pub ghost struct ControlView {
    pub tasks: ChannelView<ServiceTask>,
    pub protocols: Map<ProtocolId, ProtocolInfo>,
    pub timeout: Duration,
    pub closed: Lifecycle,
}

impl ControlView {
    /// Why a command of this priority is not taken, if it is not: the
    /// service is on its way out, else the queue of that priority is full.
    pub open spec fn refusal(self, priority: Priority) -> Option<Error> {
        if !self.closed.is_open() {
            Some(Error::ServiceClosed)
        } else if !self.tasks.accepts(priority) {
            Some(Error::QueueFull)
        } else {
            None
        }
    }

    /// The handle with one more command waiting.
    pub open spec fn enqueue(self, priority: Priority, task: ServiceTask) -> ControlView {
        ControlView { tasks: self.tasks.push(priority, task), ..self }
    }

    /// The handle after a command was offered to it: taken onto the queue of
    /// its priority unless there is a reason to refuse it.
    pub open spec fn offer(self, priority: Priority, task: ServiceTask) -> ControlView {
        if self.refusal(priority) is None {
            self.enqueue(priority, task)
        } else {
            self
        }
    }

    /// The handle after a graceful close was requested: unless it was
    /// refused, the one command to carry the close out waits at the back of
    /// the quick queue and the service is closing.
    pub open spec fn begin_close(self) -> ControlView {
        if self.refusal(Priority::High) is None {
            ControlView {
                closed: Lifecycle::Closing,
                ..self.enqueue(Priority::High, ServiceTask::Close)
            }
        } else {
            self
        }
    }

    /// The handle after the service was ended at once: what waited is
    /// dropped; the one command to shut down at once waits in its place, if
    /// the quick queue can hold a command at all; the service is closed.
    pub open spec fn force_shutdown(self) -> ControlView {
        ControlView {
            tasks: if self.tasks.capacity > 0 {
                ChannelView {
                    quick: seq![ServiceTask::Shutdown(true)],
                    normal: Seq::empty(),
                    capacity: self.tasks.capacity,
                }
            } else {
                self.tasks.drained()
            },
            closed: Lifecycle::Closed,
            ..self
        }
    }

    /// The handle after the runtime took the command that was due.
    pub open spec fn pop(self) -> ControlView {
        ControlView { tasks: self.tasks.pop(), ..self }
    }
}

/// The service-wide handle: the two queues on which commands wait for the
/// runtime, the protocols of the service, the default time allowed for an
/// operation, and the shutdown state.
pub struct ServiceControl {
    tasks: PriorityChannel<ServiceTask>,
    proto_infos: Arc<HashMap<ProtocolId, ProtocolInfo>>,
    timeout: Duration,
    closed: Lifecycle,
}

impl View for ServiceControl {
    type V = ControlView;

    closed spec fn view(&self) -> ControlView {
        ControlView {
            tasks: self.tasks@,
            protocols: self.proto_infos@,
            timeout: self.timeout,
            closed: self.closed,
        }
    }
}

impl ServiceControl {
    /// The handle of a running service with the given protocols, whose
    /// queues hold up to `capacity` commands each.
    pub fn new(proto_infos: HashMap<ProtocolId, ProtocolInfo>, timeout: Duration, capacity: usize)
        -> (control: Self)
        ensures
            control@ == (ControlView {
                tasks: ChannelView::empty(capacity as nat),
                protocols: proto_infos@,
                timeout,
                closed: Lifecycle::Open,
            }),
    {
        ServiceControl {
            tasks: PriorityChannel::new(capacity),
            proto_infos: Arc::new(proto_infos),
            timeout,
            closed: Lifecycle::Open,
        }
    }

    /// The protocols of the service, by id.
    pub fn protocols(&self) -> (protocols: &Arc<HashMap<ProtocolId, ProtocolInfo>>)
        ensures
            protocols@ == self@.protocols,
    {
        &self.proto_infos
    }

    /// The default time allowed for an operation.
    pub fn timeout(&self) -> (timeout: Duration)
        ensures
            timeout == self@.timeout,
    {
        self.timeout
    }

    /// How far the service is on its way out.
    pub fn state(&self) -> (state: Lifecycle)
        ensures
            state == self@.closed,
    {
        self.closed
    }

    /// Whether the service has left its open state.
    pub fn is_closed(&self) -> (r: bool)
        ensures
            r == !self@.closed.is_open(),
    {
        !self.closed.is_open()
    }

    /// Whether a command of this priority would be taken now.
    pub fn accepts(&self, priority: Priority) -> (r: bool)
        ensures
            r == (self@.refusal(priority) is None),
    {
        self.closed.is_open() && self.tasks.accepts(priority)
    }

    /// Puts a command on the queue of the given priority, without waiting.
    ///
    /// It is refused with `ServiceClosed` once the service is on its way
    /// out, else with `QueueFull` if that queue is full; then nothing
    /// changes.
    pub fn try_send(&mut self, priority: Priority, task: ServiceTask) -> (r: Result<(), Error>)
        ensures
            r == match old(self)@.refusal(priority) {
                Some(e) => Err::<(), Error>(e),
                None => Ok(()),
            },
            final(self)@ == old(self)@.offer(priority, task),
    {
        if !self.closed.is_open() {
            return Err(Error::ServiceClosed);
        }
        match self.tasks.try_send(priority, task) {
            Ok(()) => Ok(()),
            Err(_) => Err(Error::QueueFull),
        }
    }

    /// Puts a command on the normal queue.
    pub fn send(&mut self, task: ServiceTask) -> (r: Result<(), Error>)
        ensures
            r == match old(self)@.refusal(Priority::Normal) {
                Some(e) => Err::<(), Error>(e),
                None => Ok(()),
            },
            final(self)@ == old(self)@.offer(Priority::Normal, task),
    {
        self.try_send(Priority::Normal, task)
    }

    /// Puts a command on the quick queue.
    pub fn quick_send(&mut self, task: ServiceTask) -> (r: Result<(), Error>)
        ensures
            r == match old(self)@.refusal(Priority::High) {
                Some(e) => Err::<(), Error>(e),
                None => Ok(()),
            },
            final(self)@ == old(self)@.offer(Priority::High, task),
    {
        self.try_send(Priority::High, task)
    }

    /// Takes the command that is due next, if any waits: the oldest quick
    /// one, and the oldest normal one only when no quick one waits. What
    /// waits is handed out whatever the state of the service.
    pub fn try_recv(&mut self) -> (task: Option<ServiceTask>)
        ensures
            task == old(self)@.tasks.front(),
            final(self)@ == old(self)@.pop(),
    {
        self.tasks.try_recv()
    }

    /// Hands the commands that wait over to the runtime's task, through the
    /// sending half of the task's channel: in delivery order, every quick
    /// command before any normal one, until nothing waits, `budget`
    /// commands were handed over, or the task's channel takes no more. A
    /// command that the channel did not take waits first in line again.
    ///
    /// Returns the number of commands handed over and why it stopped.
    pub fn flush(&mut self, sender: &mut Sender<ServiceTask>, budget: usize) -> (r: (
        usize,
        FlushEnd,
    ))
        ensures
            old(self)@.tasks.flushed(budget, r.0, r.1, final(self)@.tasks),
            final(self)@ == (ControlView {
                tasks: old(self)@.tasks.after_deliveries(r.0 as nat),
                ..old(self)@
            }),
            r.0 <= budget,
            r.0 <= old(self)@.tasks.pending(),
            r.1 == FlushEnd::Drained <==> final(self)@.tasks.pending() == 0,
            r.1 == FlushEnd::Budget ==> r.0 == budget && final(self)@.tasks.pending() > 0,
            r.1 == FlushEnd::Full || r.1 == FlushEnd::Disconnected ==> r.0 < budget,
    {
        self.tasks.flush_into(sender, budget)
    }

    /// Starts the graceful close: puts the one command to carry it out on
    /// the quick queue and moves the service from open to closing. Refused
    /// with `ServiceClosed` if the service is on its way out already, else
    /// with `QueueFull` if the quick queue is full; then nothing changes.
    pub fn begin_close(&mut self) -> (r: Result<(), Error>)
        ensures
            r == match old(self)@.refusal(Priority::High) {
                Some(e) => Err::<(), Error>(e),
                None => Ok(()),
            },
            final(self)@ == old(self)@.begin_close(),
    {
        match self.try_send(Priority::High, ServiceTask::Close) {
            Ok(()) => {
                self.closed = Lifecycle::Closing;
                Ok(())
            },
            Err(e) => Err(e),
        }
    }

    /// Ends the service at once: what waits is dropped, a single command to
    /// shut down at once takes its place on the quick queue, and the
    /// service is closed.
    pub fn force_shutdown(&mut self)
        ensures
            final(self)@ == old(self)@.force_shutdown(),
    {
        self.tasks.clear();
        let _ = self.tasks.try_send(Priority::High, ServiceTask::Shutdown(true));
        self.closed = Lifecycle::Closed;
        proof {
            if old(self)@.tasks.capacity > 0 {
                assert(self.tasks@.quick =~= seq![ServiceTask::Shutdown(true)]);
            }
        }
    }
}

} // verus!
