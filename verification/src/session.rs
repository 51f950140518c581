use crate::channel::{
    ChannelView, FlushEnd, Priority, PriorityChannel, SendFailure, TrySendError,
};
use crate::error::Error;
use crate::multiaddr::Multiaddr;
use crate::notify::NotifyTable;
use crate::payload::payload_octets;
use crate::protocol_select::ProtocolInfo;
use crate::secio::PublicKey;
use crate::target::TargetProtocol;
use crate::{ProtocolId, SessionId};
use bytes::Bytes;
use futures::sync::mpsc::Sender;
use std::collections::HashMap;
use std::collections::HashSet;
use std::time::Duration;
use vstd::prelude::*;

verus! {

/// How far a session or the service is on its way out. The state only ever
/// moves forward: open, then closing, then closed.
#[derive(Clone, Copy, Debug, PartialEq, Eq, Structural)]
pub enum Lifecycle {
    /// In service; commands are taken.
    Open,
    /// Teardown was asked for; no new command is taken.
    Closing,
    /// Torn down.
    Closed,
}

impl Lifecycle {
    /// The place of the state in the order open, closing, closed.
    pub open spec fn rank(self) -> nat {
        match self {
            Lifecycle::Open => 0,
            Lifecycle::Closing => 1,
            Lifecycle::Closed => 2,
        }
    }

    pub open spec fn spec_is_open(self) -> bool {
        self == Lifecycle::Open
    }

    /// Whether commands are still taken.
    #[verifier::when_used_as_spec(spec_is_open)]
    pub fn is_open(self) -> (r: bool)
        ensures
            r == self.spec_is_open(),
    {
        match self {
            Lifecycle::Open => true,
            _ => false,
        }
    }

    pub open spec fn spec_is_closed(self) -> bool {
        self == Lifecycle::Closed
    }

    /// Whether teardown is complete.
    #[verifier::when_used_as_spec(spec_is_closed)]
    pub fn is_closed(self) -> (r: bool)
        ensures
            r == self.spec_is_closed(),
    {
        match self {
            Lifecycle::Closed => true,
            _ => false,
        }
    }

    /// The state once teardown was asked for: an open one is closing, any
    /// other stays.
    pub open spec fn closing(self) -> Lifecycle {
        if self == Lifecycle::Open {
            Lifecycle::Closing
        } else {
            self
        }
    }
}

/// Which side opened the connection.
#[derive(Clone, Copy, Debug, PartialEq, Eq, Structural)]
pub enum SessionType {
    /// The remote peer dialed and this node accepted.
    Inbound,
    /// This node dialed.
    Outbound,
}

impl SessionType {
    pub open spec fn spec_is_inbound(self) -> bool {
        self == SessionType::Inbound
    }

    /// Whether the remote peer opened the connection.
    #[verifier::when_used_as_spec(spec_is_inbound)]
    pub fn is_inbound(self) -> (r: bool)
        ensures
            r == self.spec_is_inbound(),
    {
        match self {
            SessionType::Inbound => true,
            SessionType::Outbound => false,
        }
    }

    pub open spec fn spec_is_outbound(self) -> bool {
        self == SessionType::Outbound
    }

    /// Whether this node opened the connection.
    #[verifier::when_used_as_spec(spec_is_outbound)]
    pub fn is_outbound(self) -> (r: bool)
        ensures
            r == self.spec_is_outbound(),
    {
        match self {
            SessionType::Inbound => false,
            SessionType::Outbound => true,
        }
    }
}

/// Session context, the identity of one connection.
#[derive(Debug)]
pub struct SessionContext {
    /// Session's ID
    pub id: SessionId,
    /// Remote socket address
    pub address: Multiaddr,
    /// Session type (inbound or outbound)
    pub ty: SessionType,
    /// Remote public key, present once the peer's identity was verified
    pub remote_pubkey: Option<PublicKey>,
    /// How far the session is on its way out
    pub closed: Lifecycle,
}

impl SessionContext {
    /// Whether `other` describes the same session in the same state: equal
    /// in every field, the key compared by its encoding.
    pub open spec fn matches(self, other: SessionContext) -> bool {
        &&& self.id == other.id
        &&& self.address == other.address
        &&& self.ty == other.ty
        &&& self.closed == other.closed
        &&& self.remote_pubkey is Some <==> other.remote_pubkey is Some
        &&& self.remote_pubkey is Some ==> self.remote_pubkey->0@ == other.remote_pubkey->0@
    }

    /// The context of a session that was just established.
    pub fn new(
        id: SessionId,
        address: Multiaddr,
        ty: SessionType,
        remote_pubkey: Option<PublicKey>,
    ) -> (context: Self)
        ensures
            context == (SessionContext { id, address, ty, remote_pubkey, closed: Lifecycle::Open }),
    {
        SessionContext { id, address, ty, remote_pubkey, closed: Lifecycle::Open }
    }
}

impl Clone for SessionContext {
    fn clone(&self) -> (copy: Self)
        ensures
            self.matches(copy),
    {
        let remote_pubkey = match &self.remote_pubkey {
            Some(key) => Some(key.clone()),
            None => None,
        };
        SessionContext {
            id: self.id,
            address: self.address.clone(),
            ty: self.ty,
            remote_pubkey,
            closed: self.closed,
        }
    }
}

/// A command on its way to one session.
#[derive(Debug, Clone, PartialEq, Eq)]
pub enum SessionEvent {
    /// A payload to write to the peer on one protocol.
    ProtocolMessage {
        /// The protocol that the payload belongs to.
        proto_id: ProtocolId,
        /// The payload.
        data: Bytes,
    },
}

/// What a session command says: the protocol and the octets of the payload.
pub ghost struct SessionEventView {
    pub proto_id: ProtocolId,
    pub data: Seq<u8>,
}

impl View for SessionEvent {
    type V = SessionEventView;

    open spec fn view(&self) -> SessionEventView {
        match *self {
            SessionEvent::ProtocolMessage { proto_id, data } => SessionEventView {
                proto_id,
                data: payload_octets(data),
            },
        }
    }
}

/// What a run of session commands says, one by one.
pub open spec fn event_views(events: Seq<SessionEvent>) -> Seq<SessionEventView> {
    events.map_values(|e: SessionEvent| e@)
}

/// The state of one registered session.
pub ghost struct SessionView {
    /// Who the session is.
    pub context: SessionContext,
    /// The protocols that are open on it.
    pub open: Set<ProtocolId>,
    /// The commands that wait for it.
    pub events: ChannelView<SessionEventView>,
    /// Its timers, by owning protocol and token.
    pub notifies: Map<(ProtocolId, u64), Duration>,
}

impl SessionView {
    /// A session as it is right after it was established: open, with no
    /// protocol open, nothing waiting and no timer.
    pub open spec fn fresh(context: SessionContext, capacity: nat) -> SessionView {
        SessionView {
            context,
            open: Set::empty(),
            events: ChannelView::empty(capacity),
            notifies: Map::empty(),
        }
    }

    /// Why a message of this priority on this protocol is not taken, if it
    /// is not: the session is on its way out, else the protocol is not open
    /// on it, else the queue of that priority is full.
    pub open spec fn refusal(self, priority: Priority, proto_id: ProtocolId) -> Option<Error> {
        if !self.context.closed.is_open() {
            Some(Error::SessionClosed)
        } else if !self.open.contains(proto_id) {
            Some(Error::ProtocolNotOpen)
        } else if self.events.lane(priority).len() >= self.events.capacity {
            Some(Error::QueueFull)
        } else {
            None
        }
    }

    /// The session with one more command waiting.
    pub open spec fn enqueue(self, priority: Priority, event: SessionEventView) -> SessionView {
        SessionView { events: self.events.push(priority, event), ..self }
    }

    /// The session after a message was offered to it: taken onto the queue
    /// of its priority unless there is a reason to refuse it.
    pub open spec fn offer(self, priority: Priority, proto_id: ProtocolId, data: Seq<u8>)
        -> SessionView {
        if self.refusal(priority, proto_id) is None {
            self.enqueue(priority, SessionEventView { proto_id, data })
        } else {
            self
        }
    }

    /// The session once teardown was asked for. It takes no more commands;
    /// what waits stays.
    pub open spec fn mark_closing(self) -> SessionView {
        SessionView {
            context: SessionContext { closed: self.context.closed.closing(), ..self.context },
            ..self
        }
    }

    /// The session once the service winds it down: every protocol on it is
    /// closed and its teardown is asked for. What waits for it stays.
    pub open spec fn wind_down(self) -> SessionView {
        SessionView { open: Set::empty(), ..self.mark_closing() }
    }

    /// The session once it is torn down: closed for good, with no protocol
    /// open, nothing waiting and no timer.
    pub open spec fn mark_closed(self) -> SessionView {
        SessionView {
            context: SessionContext { closed: Lifecycle::Closed, ..self.context },
            open: Set::empty(),
            events: self.events.drained(),
            notifies: Map::empty(),
        }
    }

    /// The session with the targeted protocols open, as far as the service
    /// knows them.
    pub open spec fn open_protocols(self, target: TargetProtocol, known: Set<ProtocolId>)
        -> SessionView {
        SessionView { open: self.open.union(selected_protocols(target, known)), ..self }
    }

    /// Whether `later` can be a later state of this session: the same
    /// connection, no further from open, with queues of the same capacity.
    pub open spec fn precedes(self, later: SessionView) -> bool {
        &&& later.context.id == self.context.id
        &&& later.context.address == self.context.address
        &&& later.context.ty == self.context.ty
        &&& self.context.closed.rank() <= later.context.closed.rank()
        &&& later.events.capacity == self.events.capacity
    }

    /// The session with one protocol closed.
    pub open spec fn close_protocol(self, proto_id: ProtocolId) -> SessionView {
        SessionView { open: self.open.remove(proto_id), ..self }
    }

    /// The session with a timer registered, or given a new interval.
    pub open spec fn set_notify(self, proto_id: ProtocolId, token: u64, interval: Duration)
        -> SessionView {
        SessionView { notifies: self.notifies.insert((proto_id, token), interval), ..self }
    }

    /// The session without the timer, if it had it.
    pub open spec fn remove_notify(self, proto_id: ProtocolId, token: u64) -> SessionView {
        SessionView { notifies: self.notifies.remove((proto_id, token)), ..self }
    }

    /// The session after one delivery from its queues.
    pub open spec fn pop(self) -> SessionView {
        SessionView { events: self.events.pop(), ..self }
    }

    /// The session after `n` deliveries from its queues.
    pub open spec fn after_deliveries(self, n: nat) -> SessionView {
        SessionView { events: self.events.after_deliveries(n), ..self }
    }

    /// The session with nothing waiting.
    pub open spec fn drained(self) -> SessionView {
        SessionView { events: self.events.drained(), ..self }
    }
}

/// What a queue of commands says is what its commands say, in order:
/// adding a command at the back adds what it says at the back.
pub proof fn lemma_event_views_push(events: Seq<SessionEvent>, event: SessionEvent)
    ensures
        event_views(events.push(event)) == event_views(events).push(event@),
{
    assert(event_views(events.push(event)) =~= event_views(events).push(event@));
}

/// Taking the first command away takes away what it says.
pub proof fn lemma_event_views_skip(events: Seq<SessionEvent>)
    requires
        events.len() > 0,
    ensures
        event_views(events.skip(1)) == event_views(events).skip(1),
        event_views(events)[0] == events[0]@,
{
    assert(event_views(events.skip(1)) =~= event_views(events).skip(1));
}

/// What the commands on the queues of a channel say.
pub open spec fn channel_views(channel: ChannelView<SessionEvent>) -> ChannelView<
    SessionEventView,
> {
    ChannelView {
        quick: event_views(channel.quick),
        normal: event_views(channel.normal),
        capacity: channel.capacity,
    }
}

/// What is left on the queues after `n` deliveries says what is left of
/// what the queues said.
pub proof fn lemma_channel_views_after(channel: ChannelView<SessionEvent>, n: nat)
    ensures
        channel_views(channel.after_deliveries(n)) == channel_views(channel).after_deliveries(n),
    decreases n,
{
    if n > 0 {
        if channel.quick.len() > 0 {
            lemma_event_views_skip(channel.quick);
        } else if channel.normal.len() > 0 {
            lemma_event_views_skip(channel.normal);
        }
        assert(channel_views(channel.pop()) == channel_views(channel).pop());
        lemma_channel_views_after(channel.pop(), (n - 1) as nat);
    }
}

/// The protocols that a target names among those the service knows.
pub open spec fn selected_protocols(target: TargetProtocol, known: Set<ProtocolId>) -> Set<
    ProtocolId,
> {
    Set::new(|p: ProtocolId| target.selects(p) && known.contains(p))
}

/// The elements among the first `n + 1` of a sequence are those among the
/// first `n`, and the one at `n`.
proof fn lemma_prefix_set_step<A>(s: Seq<A>, n: int)
    requires
        0 <= n < s.len(),
    ensures
        s.take(n + 1).to_set() == s.take(n).to_set().insert(s[n]),
{
    let longer = s.take(n + 1);
    let shorter = s.take(n);
    assert forall|a: A| longer.to_set().contains(a) <==> shorter.to_set().insert(s[n]).contains(
        a,
    ) by {
        if longer.contains(a) {
            let j = choose|j: int| 0 <= j < longer.len() && longer[j] == a;
            if j < n {
                assert(shorter[j] == a);
            }
        }
        if shorter.contains(a) {
            let j = choose|j: int| 0 <= j < shorter.len() && shorter[j] == a;
            assert(longer[j] == a);
        }
        if a == s[n] {
            assert(longer[n] == a);
        }
    }
    assert(longer.to_set() =~= shorter.to_set().insert(s[n]));
}

/// Adds to `open` the targeted protocols that the service knows, and says
/// whether the set grew.
fn open_known(
    open: &mut HashSet<ProtocolId>,
    target: &TargetProtocol,
    known: &HashMap<ProtocolId, ProtocolInfo>,
) -> (changed: bool)
    ensures
        final(open)@ == old(open)@.union(selected_protocols(*target, known@.dom())),
        changed == (final(open)@ != old(open)@),
{
    let ghost start = open@;
    let ghost dom = known@.dom();
    let mut changed = false;
    match target {
        TargetProtocol::Single(one) => {
            if known.contains_key(one) {
                changed = open.insert(*one);
            }
            assert(open@ =~= start.union(selected_protocols(*target, dom)));
            assert(changed ==> !start.contains(*one) && open@.contains(*one));
            assert(!changed ==> open@ =~= start);
        },
        TargetProtocol::Multi(ids) => {
            let mut i: usize = 0;
            assert(ids@.take(0).to_set() =~= Set::<ProtocolId>::empty());
            assert(open@ =~= start.union(ids@.take(0).to_set().intersect(dom)));
            while i < ids.len()
                invariant
                    i <= ids.len(),
                    dom == known@.dom(),
                    open@ == start.union(ids@.take(i as int).to_set().intersect(dom)),
                    changed <==> open@ != start,
                decreases ids.len() - i,
            {
                let id = ids[i];
                let ghost before = open@;
                proof {
                    lemma_prefix_set_step(ids@, i as int);
                }
                if known.contains_key(&id) {
                    let grew = open.insert(id);
                    if grew {
                        changed = true;
                        assert(open@.contains(id) && !start.contains(id));
                    } else {
                        assert(open@ =~= before);
                    }
                }
                assert(open@ =~= start.union(ids@.take(i + 1).to_set().intersect(dom)));
                i = i + 1;
            }
            assert(ids@.take(i as int) =~= ids@);
            assert(open@ =~= start.union(selected_protocols(*target, dom)));
        },
        TargetProtocol::All => {
            for id in iter: known.keys()
                invariant
                    dom == known@.dom(),
                    iter.seq().unref().to_set() == dom,
                    iter.index() == iter.seq().len() ==> iter.seq().unref().take(iter.index())
                        == iter.seq().unref(),
                    open@ == start.union(iter.seq().unref().take(iter.index()).to_set()),
                    changed <==> open@ != start,
            {
                let ghost before = open@;
                let ghost all = iter.seq().unref();
                proof {
                    assert(all[iter.index()] == *id);
                    lemma_prefix_set_step(all, iter.index());
                }
                let grew = open.insert(*id);
                if grew {
                    changed = true;
                    assert(open@.contains(*id) && !start.contains(*id));
                } else {
                    assert(open@ =~= before);
                }
                assert(open@ =~= start.union(all.take(iter.index() + 1).to_set()));
            }
            assert(open@ =~= start.union(selected_protocols(*target, dom)));
        },
    }
    changed
}

/// Whether some targeted protocol that the service knows is not in `open`.
fn lacks_known(
    open: &HashSet<ProtocolId>,
    target: &TargetProtocol,
    known: &HashMap<ProtocolId, ProtocolInfo>,
) -> (lacking: bool)
    ensures
        lacking == !selected_protocols(*target, known@.dom()).subset_of(open@),
{
    let ghost dom = known@.dom();
    let ghost wanted = selected_protocols(*target, dom);
    let mut lacking = false;
    match target {
        TargetProtocol::Single(one) => {
            lacking = known.contains_key(one) && !open.contains(one);
            assert(lacking ==> wanted.contains(*one) && !open@.contains(*one));
        },
        TargetProtocol::Multi(ids) => {
            let mut i: usize = 0;
            while i < ids.len()
                invariant
                    i <= ids.len(),
                    dom == known@.dom(),
                    lacking <==> !ids@.take(i as int).to_set().intersect(dom).subset_of(open@),
                decreases ids.len() - i,
            {
                let id = ids[i];
                proof {
                    lemma_prefix_set_step(ids@, i as int);
                }
                if known.contains_key(&id) && !open.contains(&id) {
                    lacking = true;
                    assert(ids@.take(i + 1).to_set().intersect(dom).contains(id));
                }
                i = i + 1;
            }
            assert(ids@.take(i as int) =~= ids@);
            assert(wanted =~= ids@.to_set().intersect(dom));
        },
        TargetProtocol::All => {
            for id in iter: known.keys()
                invariant
                    dom == known@.dom(),
                    iter.seq().unref().to_set() == dom,
                    iter.index() == iter.seq().len() ==> iter.seq().unref().take(iter.index())
                        == iter.seq().unref(),
                    lacking <==> !iter.seq().unref().take(iter.index()).to_set().subset_of(open@),
            {
                let ghost all = iter.seq().unref();
                proof {
                    assert(all[iter.index()] == *id);
                    lemma_prefix_set_step(all, iter.index());
                }
                if !open.contains(id) {
                    lacking = true;
                    assert(all.take(iter.index() + 1).to_set().contains(*id));
                }
            }
            assert(wanted =~= dom);
        },
    }
    lacking
}

/// The runtime's handle on one registered session: the session's identity,
/// the protocols open on it, its timers, and the two queues on which
/// commands wait for it.
pub struct SessionController {
    channel: PriorityChannel<SessionEvent>,
    inner: SessionContext,
    open: HashSet<ProtocolId>,
    notifies: NotifyTable,
}

impl View for SessionController {
    type V = SessionView;

    closed spec fn view(&self) -> SessionView {
        SessionView {
            context: self.inner,
            open: self.open@,
            events: channel_views(self.channel@),
            notifies: self.notifies@,
        }
    }
}

impl SessionController {
    /// The handle of a session with the given identity, whose queues hold up
    /// to `capacity` commands each.
    pub fn new(inner: SessionContext, capacity: usize) -> (controller: Self)
        ensures
            controller@ == SessionView::fresh(inner, capacity as nat),
    {
        let channel: PriorityChannel<SessionEvent> = PriorityChannel::new(capacity);
        let controller = SessionController {
            channel,
            inner,
            open: HashSet::new(),
            notifies: NotifyTable::new(),
        };
        assert(event_views(Seq::<SessionEvent>::empty()) =~= Seq::<SessionEventView>::empty());
        controller
    }

    /// The session's id.
    pub fn id(&self) -> (id: SessionId)
        ensures
            id == self@.context.id,
    {
        self.inner.id
    }

    /// The session's identity.
    pub fn context(&self) -> (context: &SessionContext)
        ensures
            *context == self@.context,
    {
        &self.inner
    }

    /// Whether the session still takes commands.
    pub fn is_open(&self) -> (r: bool)
        ensures
            r == self@.context.closed.is_open(),
    {
        self.inner.closed.is_open()
    }

    /// Whether the protocol is open on the session.
    pub fn protocol_open(&self, proto_id: ProtocolId) -> (r: bool)
        ensures
            r == self@.open.contains(proto_id),
    {
        self.open.contains(&proto_id)
    }

    /// Whether any protocol is open on the session.
    pub fn has_open_protocols(&self) -> (r: bool)
        ensures
            r == !self@.open.is_empty(),
    {
        !self.open.is_empty()
    }

    /// Puts a command on the queue of its priority, without waiting.
    ///
    /// The command is turned away as `Disconnected` once the session is on
    /// its way out, and as `Full` while the queue of its priority is full;
    /// it then comes back in the error and nothing changes.
    pub fn try_send(&mut self, priority: Priority, event: SessionEvent) -> (r: Result<
        (),
        TrySendError<SessionEvent>,
    >)
        ensures
            r is Ok <==> old(self)@.context.closed.is_open() && old(self)@.events.accepts(
                priority,
            ),
            r is Ok ==> final(self)@ == old(self)@.enqueue(priority, event@),
            r matches Err(e) ==> {
                &&& final(self)@ == old(self)@
                &&& e.item == event
                &&& e.kind == if old(self)@.context.closed.is_open() {
                    SendFailure::Full
                } else {
                    SendFailure::Disconnected
                }
            },
    {
        if !self.inner.closed.is_open() {
            return Err(TrySendError { kind: SendFailure::Disconnected, item: event });
        }
        proof {
            lemma_event_views_push(self.channel@.quick, event);
            lemma_event_views_push(self.channel@.normal, event);
        }
        self.channel.try_send(priority, event)
    }

    /// Offers a message to the session.
    ///
    /// It is refused with `SessionClosed` once the session is on its way
    /// out, else with `ProtocolNotOpen` if the protocol is not open on the
    /// session, else with `QueueFull` if the queue of its priority is full.
    /// Otherwise it waits at the back of that queue.
    pub fn send(&mut self, priority: Priority, proto_id: ProtocolId, data: Bytes) -> (r: Result<
        (),
        Error,
    >)
        ensures
            r == match old(self)@.refusal(priority, proto_id) {
                Some(e) => Err::<(), Error>(e),
                None => Ok(()),
            },
            final(self)@ == old(self)@.offer(priority, proto_id, payload_octets(data)),
    {
        if !self.inner.closed.is_open() {
            return Err(Error::SessionClosed);
        }
        if !self.open.contains(&proto_id) {
            return Err(Error::ProtocolNotOpen);
        }
        match self.try_send(priority, SessionEvent::ProtocolMessage { proto_id, data }) {
            Ok(()) => Ok(()),
            Err(_) => Err(Error::QueueFull),
        }
    }

    /// Takes the command that is due next, if any waits: the oldest quick
    /// one, and the oldest normal one only when no quick one waits.
    pub fn try_recv(&mut self) -> (event: Option<SessionEvent>)
        ensures
            match event {
                Some(e) => old(self)@.events.front() == Some(e@),
                None => old(self)@.events.front() is None,
            },
            final(self)@ == old(self)@.pop(),
    {
        proof {
            if self.channel@.quick.len() > 0 {
                lemma_event_views_skip(self.channel@.quick);
            }
            if self.channel@.normal.len() > 0 {
                lemma_event_views_skip(self.channel@.normal);
            }
        }
        self.channel.try_recv()
    }

    /// Takes every command that waits, in delivery order: all quick ones,
    /// then all normal ones.
    pub fn drain(&mut self) -> (events: Vec<SessionEvent>)
        ensures
            event_views(events@) == old(self)@.events.delivery_order(),
            final(self)@ == old(self)@.drained(),
    {
        let ghost quick = self.channel@.quick;
        let ghost normal = self.channel@.normal;
        let events = self.channel.drain();
        proof {
            assert(event_views(quick + normal) =~= event_views(quick) + event_views(normal));
            assert(event_views(Seq::<SessionEvent>::empty()) =~= Seq::<SessionEventView>::empty());
        }
        events
    }

    /// Hands the commands that wait over to the session's task, through
    /// the sending half of the task's channel: in delivery order, every
    /// quick command before any normal one, until nothing waits, `budget`
    /// commands were handed over, or the task's channel takes no more. A
    /// command that the channel did not take waits first in line again.
    ///
    /// Returns the number of commands handed over and why it stopped.
    pub fn flush(&mut self, sender: &mut Sender<SessionEvent>, budget: usize) -> (r: (
        usize,
        FlushEnd,
    ))
        ensures
            old(self)@.events.flushed(budget, r.0, r.1, final(self)@.events),
            final(self)@ == old(self)@.after_deliveries(r.0 as nat),
            r.0 <= budget,
            r.0 <= old(self)@.events.pending(),
            r.1 == FlushEnd::Drained <==> final(self)@.events.pending() == 0,
            r.1 == FlushEnd::Budget ==> r.0 == budget && final(self)@.events.pending() > 0,
            r.1 == FlushEnd::Full || r.1 == FlushEnd::Disconnected ==> r.0 < budget,
    {
        let r = self.channel.flush_into(sender, budget);
        proof {
            lemma_channel_views_after(old(self).channel@, r.0 as nat);
        }
        r
    }

    /// Records that teardown was asked for. From now on the session takes
    /// no command. Asking again changes nothing.
    pub fn mark_closing(&mut self)
        ensures
            final(self)@ == old(self)@.mark_closing(),
    {
        if self.inner.closed.is_open() {
            self.inner.closed = Lifecycle::Closing;
        }
    }

    /// Closes every protocol on the session and records that its teardown
    /// was asked for.
    pub fn wind_down(&mut self)
        ensures
            final(self)@ == old(self)@.wind_down(),
    {
        self.mark_closing();
        self.open.clear();
    }

    /// Records that the session is torn down: it is closed for good, no
    /// protocol is open on it, and what waited for it and its timers are
    /// dropped.
    pub fn mark_closed(&mut self)
        ensures
            final(self)@ == old(self)@.mark_closed(),
    {
        self.inner.closed = Lifecycle::Closed;
        self.channel.clear();
        self.open.clear();
        self.notifies.clear();
        proof {
            assert(event_views(Seq::<SessionEvent>::empty()) =~= Seq::<SessionEventView>::empty());
        }
    }

    /// Ends the session's registration: marks it closed and hands out its
    /// identity in that last state.
    pub fn into_context(self) -> (context: SessionContext)
        ensures
            context == self@.mark_closed().context,
    {
        let mut inner = self.inner;
        inner.closed = Lifecycle::Closed;
        inner
    }

    /// Opens one protocol on the session and says whether it was closed
    /// before.
    pub fn open_protocol(&mut self, proto_id: ProtocolId) -> (opened: bool)
        ensures
            opened == !old(self)@.open.contains(proto_id),
            final(self)@ == (SessionView {
                open: old(self)@.open.insert(proto_id),
                ..old(self)@
            }),
    {
        self.open.insert(proto_id)
    }

    /// Opens the targeted protocols on the session, as far as the service
    /// knows them, and says whether any of them was closed before.
    pub fn open_protocols(
        &mut self,
        target: &TargetProtocol,
        known: &HashMap<ProtocolId, ProtocolInfo>,
    ) -> (changed: bool)
        ensures
            final(self)@ == old(self)@.open_protocols(*target, known@.dom()),
            changed == (final(self)@.open != old(self)@.open),
    {
        open_known(&mut self.open, target, known)
    }

    /// Whether opening the targeted protocols would open any: whether some
    /// targeted protocol that the service knows is not open on the session.
    pub fn would_open(&self, target: &TargetProtocol, known: &HashMap<ProtocolId, ProtocolInfo>)
        -> (r: bool)
        ensures
            r == (self@.open_protocols(*target, known@.dom()) != self@),
    {
        let r = lacks_known(&self.open, target, known);
        proof {
            let wanted = selected_protocols(*target, known@.dom());
            if r {
                let p = choose|p: ProtocolId| wanted.contains(p) && !self.open@.contains(p);
                assert(self.open@.union(wanted).contains(p));
            } else {
                assert(self.open@.union(wanted) =~= self.open@);
            }
        }
        r
    }

    /// Closes one protocol on the session and says whether it was open.
    pub fn close_protocol(&mut self, proto_id: ProtocolId) -> (closed: bool)
        ensures
            closed == old(self)@.open.contains(proto_id),
            final(self)@ == old(self)@.close_protocol(proto_id),
    {
        self.open.remove(&proto_id)
    }

    /// Whether the protocol has a timer with this token on the session.
    pub fn has_notify(&self, proto_id: ProtocolId, token: u64) -> (r: bool)
        ensures
            r == self@.notifies.contains_key((proto_id, token)),
    {
        self.notifies.contains(proto_id, token)
    }

    /// Registers a timer of the protocol on the session, or gives it a new
    /// interval.
    pub fn set_notify(&mut self, proto_id: ProtocolId, token: u64, interval: Duration)
        ensures
            final(self)@ == old(self)@.set_notify(proto_id, token, interval),
    {
        self.notifies.set(proto_id, token, interval);
    }

    /// Removes a timer of the protocol from the session and says whether
    /// there was one.
    pub fn remove_notify(&mut self, proto_id: ProtocolId, token: u64) -> (removed: bool)
        ensures
            removed == old(self)@.notifies.contains_key((proto_id, token)),
            final(self)@ == old(self)@.remove_notify(proto_id, token),
    {
        self.notifies.remove(proto_id, token)
    }
}

} // verus!
