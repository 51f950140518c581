use crate::channel::Priority;
use crate::context::ServiceView;
use crate::error::Error;
use crate::registry::{
    lemma_evolves_trans, lemma_position_first, lemma_retired_for_good, lemma_session_after_map,
    lemma_session_after_update, offer_to,
};
use crate::service::ServiceTask;
use crate::session::SessionView;
use crate::target::{TargetProtocol, TargetSession};
use crate::{ProtocolId, SessionId};
use vstd::prelude::*;

verus! {

/// What can follow a state that can follow this one can follow this one:
/// what holds across one step of the service holds across any number.
pub proof fn lemma_service_evolves_trans(a: ServiceView, b: ServiceView, c: ServiceView)
    requires
        a.evolves_to(b),
        b.evolves_to(c),
    ensures
        a.evolves_to(c),
{
    lemma_evolves_trans(a.sessions, b.sessions, c.sessions);
}

/// No command is dispatched to a session that has left the open state: once
/// a session is closing, closed or gone, every later attempt to send to it,
/// at either priority and on any protocol, fails with `SessionClosed` or
/// `SessionNotFound`, and leaves the state as it was. Nothing is silently
/// accepted, and no later state brings the session back.
pub proof fn lemma_closed_session_takes_nothing(
    now: ServiceView,
    later: ServiceView,
    id: SessionId,
    priority: Priority,
    proto_id: ProtocolId,
    data: Seq<u8>,
)
    requires
        now.sessions.retired(id),
        now.evolves_to(later),
    ensures
        later.sessions.retired(id),
        later.send_refusal(id, priority, proto_id) == Some(Error::SessionClosed)
            || later.send_refusal(id, priority, proto_id) == Some(Error::SessionNotFound),
        later.send(id, priority, proto_id, data) == later,
{
    lemma_retired_for_good(now.sessions, later.sessions, id);
}

/// In a well-formed state a send never blames the service: once the
/// service has left the open state no session is open, so a send to a
/// session that is registered fails with `SessionClosed`, and no message
/// waits for a session any later than the service is open.
pub proof fn lemma_send_names_the_session(
    s: ServiceView,
    id: SessionId,
    priority: Priority,
    proto_id: ProtocolId,
)
    requires
        s.wf(),
    ensures
        s.send_refusal(id, priority, proto_id) != Some(Error::ServiceClosed),
        !s.control.closed.is_open() ==> s.send_refusal(id, priority, proto_id) == Some(
            Error::SessionClosed,
        ) || s.send_refusal(id, priority, proto_id) == Some(Error::SessionNotFound),
{
    if s.sessions.holds(id) {
        lemma_position_first(s.sessions, id);
    }
}

/// Opening is idempotent: a request to open protocols that was taken, made
/// again at once, is taken again and changes nothing. Each protocol is open
/// on the session once, and the runtime is asked to open it once.
pub proof fn lemma_open_protocols_idempotent(s: ServiceView, id: SessionId, target: TargetProtocol)
    requires
        s.open_refusal(id, target) is None,
    ensures
        !s.open_protocols(id, target).would_open(id, target),
        s.open_protocols(id, target).open_refusal(id, target) is None,
        s.open_protocols(id, target).open_protocols(id, target) == s.open_protocols(id, target),
        forall|p: ProtocolId|
            target.selects(p) && s.known().contains(p) ==> s.open_protocols(
                id,
                target,
            ).protocol_open(id, p),
{
    let once = s.open_protocols(id, target);
    let before = s.sessions.session(id)->0;
    let opened = before.open_protocols(target, s.known());
    lemma_position_first(s.sessions, id);
    assert(opened.open_protocols(target, s.known()).open =~= opened.open);
    if s.would_open(id, target) {
        lemma_session_after_update(s.sessions, id, opened);
    }
}

/// Asking for what is open already is a no-op and no error: where every
/// targeted protocol that the service knows is open on a registered
/// session, the request is taken and changes nothing, whatever the state
/// of the service and of the session. So is, in particular, the request
/// for one protocol that is open on the session.
pub proof fn lemma_open_again_is_no_op(
    s: ServiceView,
    id: SessionId,
    target: TargetProtocol,
    proto_id: ProtocolId,
)
    requires
        s.sessions.session(id) is Some,
    ensures
        !s.would_open(id, target) ==> s.open_refusal(id, target) is None && s.open_protocols(
            id,
            target,
        ) == s,
        s.protocol_open(id, proto_id) ==> s.open_refusal(id, TargetProtocol::Single(proto_id))
            is None && s.open_protocols(id, TargetProtocol::Single(proto_id)) == s,
{
    let session = s.sessions.session(id)->0;
    if s.protocol_open(id, proto_id) {
        assert(session.open_protocols(TargetProtocol::Single(proto_id), s.known()).open
            =~= session.open);
    }
}

/// A disconnection is asked for once: where the service is open, the
/// session is registered and open and the quick queue has room, the request
/// is taken, the session is closing, and exactly one request to disconnect
/// it, and none for any other session, waits at the back of the quick
/// queue; asked again at once, the request is taken again and changes
/// nothing.
pub proof fn lemma_disconnect_is_asked_once(s: ServiceView, id: SessionId)
    requires
        s.control.closed.is_open(),
        s.sessions.session(id) is Some,
        s.sessions.session(id)->0.context.closed.is_open(),
        s.control.tasks.accepts(Priority::High),
    ensures
        s.disconnect_refusal(id) is None,
        s.disconnect(id).control.tasks.quick == s.control.tasks.quick.push(
            ServiceTask::Disconnect { session_id: id },
        ),
        s.disconnect(id).control.tasks.normal == s.control.tasks.normal,
        s.disconnect(id).sessions.session(id) == Some(s.sessions.session(id)->0.mark_closing()),
        s.disconnect(id).disconnect_refusal(id) is None,
        s.disconnect(id).disconnect(id) == s.disconnect(id),
{
    lemma_position_first(s.sessions, id);
    lemma_session_after_update(s.sessions, id, s.sessions.session(id)->0.mark_closing());
}

/// A run of commands to the runtime is taken as a whole where there is
/// room for all of it: each command of the run is taken, and afterwards
/// the commands wait at the back of the queue of their priority in the
/// order in which they were submitted, one for each and no more. So it is
/// with a dial for each address that an address book handed out.
pub proof fn lemma_run_of_commands_is_taken(
    s: ServiceView,
    priority: Priority,
    tasks: Seq<ServiceTask>,
)
    requires
        s.control.closed.is_open(),
        s.control.tasks.lane(priority).len() + tasks.len() <= s.control.tasks.capacity,
    ensures
        s.submit_all(priority, tasks).control.tasks.lane(priority) == s.control.tasks.lane(
            priority,
        ) + tasks,
        s.submit_all(priority, tasks).control.closed.is_open(),
        s.submit_all(priority, tasks).control.tasks.capacity == s.control.tasks.capacity,
        forall|k: int|
            0 <= k < tasks.len() ==> (#[trigger] s.submit_all(
                priority,
                tasks.take(k),
            )).control.refusal(priority) is None,
    decreases tasks.len(),
{
    if tasks.len() == 0 {
        assert(s.control.tasks.lane(priority) + tasks =~= s.control.tasks.lane(priority));
    } else {
        let rest = tasks.drop_last();
        lemma_run_of_commands_is_taken(s, priority, rest);
        let before = s.submit_all(priority, rest);
        assert(before.control.refusal(priority) is None);
        assert(s.control.tasks.lane(priority) + tasks =~= (s.control.tasks.lane(priority)
            + rest).push(tasks.last()));
        assert forall|k: int| 0 <= k < tasks.len() implies (#[trigger] s.submit_all(
            priority,
            tasks.take(k),
        )).control.refusal(priority) is None by {
            if k < rest.len() {
                assert(tasks.take(k) =~= rest.take(k));
            } else {
                assert(tasks.take(k) =~= rest);
            }
        }
    }
}

/// Closing a protocol is idempotent too: a request to close that was taken,
/// made again at once, is taken again and changes nothing.
pub proof fn lemma_close_protocol_idempotent(s: ServiceView, id: SessionId, proto_id: ProtocolId)
    requires
        s.close_refusal(id, proto_id) is None,
    ensures
        !s.close_protocol(id, proto_id).protocol_open(id, proto_id),
        s.close_protocol(id, proto_id).close_refusal(id, proto_id) is None,
        s.close_protocol(id, proto_id).close_protocol(id, proto_id) == s.close_protocol(
            id,
            proto_id,
        ),
{
    let before = s.sessions.session(id)->0;
    lemma_position_first(s.sessions, id);
    if s.protocol_open(id, proto_id) {
        lemma_session_after_update(s.sessions, id, before.close_protocol(proto_id));
    }
}

/// A broadcast treats every session on its own: after a broadcast, a
/// targeted session is as if the message had been offered to it alone, and
/// any other session is as it was. So a session that does not take the
/// message, because it is closed, lacks the protocol or has a full queue,
/// keeps it from no other. This holds of every broadcast that the service
/// took, and in a well-formed state of the refused ones too: there no
/// session is open, and none would have taken the message.
pub proof fn lemma_broadcast_treats_each_alone(
    s: ServiceView,
    target: TargetSession,
    priority: Priority,
    proto_id: ProtocolId,
    data: Seq<u8>,
    id: SessionId,
)
    requires
        s.control.closed.is_open() || s.wf(),
    ensures
        s.broadcast(target, priority, proto_id, data).sessions.session(id) == match s.sessions.session(
            id,
        ) {
            Some(session) => Some(
                if target.selects(id) {
                    session.offer(priority, proto_id, data)
                } else {
                    session
                },
            ),
            None => None,
        },
        s.sessions.session(id) is Some && target.selects(id) && s.sessions.session(
            id,
        )->0.refusal(priority, proto_id) is None ==> s.broadcast(
            target,
            priority,
            proto_id,
            data,
        ).sessions.session(id)->0.events.lane(priority) == s.sessions.session(
            id,
        )->0.events.lane(priority).push(crate::session::SessionEventView { proto_id, data }),
{
    let change = offer_to(target, priority, proto_id, data);
    assert forall|v: SessionView| (#[trigger] change(v)).context.id == v.context.id by {}
    lemma_session_after_map(s.sessions, change, id);
    if s.sessions.holds(id) {
        lemma_position_first(s.sessions, id);
    }
}

/// The step of a graceful close that a command belongs to: 1 for stopping
/// a listener, 2 for closing protocols, 3 for disconnecting a session, 4 for
/// tearing the service down, and 0 for every other command.
pub open spec fn close_step(task: ServiceTask) -> nat {
    match task {
        ServiceTask::ListenStop { .. } => 1,
        ServiceTask::ProtocolClose { .. } => 2,
        ServiceTask::Disconnect { .. } => 3,
        ServiceTask::Shutdown(_) => 4,
        _ => 0,
    }
}

/// A graceful close asks for its steps in order: in the plan every request
/// to stop a listener stands before every request to close protocols, these
/// before every request to disconnect a session, and the teardown of the
/// service stands last and alone. There is one request per listener and
/// one per session to disconnect.
pub proof fn lemma_close_plan_in_order(s: ServiceView)
    ensures
        forall|i: int, j: int|
            0 <= i < j < s.close_plan().len() ==> close_step(#[trigger] s.close_plan()[i])
                <= close_step(#[trigger] s.close_plan()[j]),
        forall|i: int|
            0 <= i < s.close_plan().len() - 1 ==> 1 <= close_step(#[trigger] s.close_plan()[i])
                <= 3,
        s.close_plan().last() == ServiceTask::Shutdown(false),
        s.close_plan().len() == s.listens.len() + s.sessions.busy().len()
            + s.sessions.sessions.len() + 1,
{
    let plan = s.close_plan();
    let a = s.listen_stops().len();
    let b = s.protocol_closes().len();
    let c = s.disconnects().len();
    assert forall|i: int| 0 <= i < plan.len() implies close_step(#[trigger] plan[i]) == if i
        < a {
        1nat
    } else if i < a + b {
        2nat
    } else if i < a + b + c {
        3nat
    } else {
        4nat
    } by {
        if i < a {
            assert(plan[i] == s.listen_stops()[i]);
        } else if i < a + b {
            assert(plan[i] == s.protocol_closes()[i - a]);
        } else if i < a + b + c {
            assert(plan[i] == s.disconnects()[i - a - b]);
        } else {
            assert(plan[i] == ServiceTask::Shutdown(false));
        }
    }
}

} // verus!
