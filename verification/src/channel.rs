use futures::sync::mpsc::Sender;
use std::collections::VecDeque;
use vstd::prelude::*;

verus! {

/// The two classes of command delivery.
#[derive(Clone, Copy, Debug, PartialEq, Eq, Structural)]
pub enum Priority {
    /// Delivered ahead of anything that waits on the normal queue.
    High,
    /// Delivered when the quick queue is empty.
    Normal,
}

impl Priority {
    pub open spec fn spec_is_high(self) -> bool {
        self == Priority::High
    }

    /// Whether commands of this class travel on the quick queue.
    #[verifier::when_used_as_spec(spec_is_high)]
    pub fn is_high(self) -> (r: bool)
        ensures
            r == self.spec_is_high(),
    {
        match self {
            Priority::High => true,
            Priority::Normal => false,
        }
    }
}

/// Why an item was turned away.
#[derive(Clone, Copy, Debug, PartialEq, Eq, Structural)]
pub enum SendFailure {
    /// The queue of the item's priority holds as many items as it may.
    Full,
    /// The destination no longer takes items.
    Disconnected,
}

/// An item that a channel did not accept, together with the reason. The item
/// is handed back, never dropped.
#[derive(Debug)]
pub struct TrySendError<T> {
    /// Why the item was turned away.
    pub kind: SendFailure,
    /// The item itself.
    pub item: T,
}

impl<T> TrySendError<T> {
    /// Whether the queue was full.
    pub fn is_full(&self) -> (r: bool)
        ensures
            r == (self.kind == SendFailure::Full),
    {
        match self.kind {
            SendFailure::Full => true,
            SendFailure::Disconnected => false,
        }
    }

    /// Whether the destination no longer took items.
    pub fn is_disconnected(&self) -> (r: bool)
        ensures
            r == (self.kind == SendFailure::Disconnected),
    {
        match self.kind {
            SendFailure::Full => false,
            SendFailure::Disconnected => true,
        }
    }

    /// The item that was not sent.
    pub fn into_inner(self) -> (item: T)
        ensures
            item == self.item,
    {
        self.item
    }
}

#[verifier::external_type_specification]
#[verifier::external_body]
#[verifier::reject_recursive_types(T)]
pub struct ExSender<T>(futures::sync::mpsc::Sender<T>);

/// Offers an item to the sending half of a bounded channel between tasks,
/// with `futures::sync::mpsc::Sender::try_send`, without waiting.
///
/// Trusted: when the channel does not take the item, because it is full or
/// because the receiving half is gone, the item comes back in the error,
/// with the reason. Whether the channel takes the item depends on what the
/// receiving task has done meanwhile, so nothing is claimed about that.
#[verifier::external_body]
fn hand_over<T>(sender: &mut Sender<T>, item: T) -> (r: Result<(), TrySendError<T>>)
    ensures
        r matches Err(e) ==> e.item == item,
{
    match sender.try_send(item) {
        Ok(()) => Ok(()),
        Err(e) => {
            let kind = if e.is_full() {
                SendFailure::Full
            } else {
                SendFailure::Disconnected
            };
            Err(TrySendError { kind, item: e.into_inner() })
        },
    }
}

/// Why handing items over to a task stopped.
#[derive(Clone, Copy, Debug, PartialEq, Eq, Structural)]
pub enum FlushEnd {
    /// Nothing waits any more.
    Drained,
    /// As many items were handed over as were allowed, and more wait.
    Budget,
    /// The task's channel is full. The item that it did not take waits
    /// first in line again.
    Full,
    /// The task is gone. The item that it did not take waits first in line
    /// again.
    Disconnected,
}

/// What a priority channel holds: the waiting items of either class, oldest
/// first, and the number of items each class may hold.
pub ghost struct ChannelView<T> {
    pub quick: Seq<T>,
    pub normal: Seq<T>,
    pub capacity: nat,
}

impl<T> ChannelView<T> {
    /// The channel of the given capacity with nothing waiting.
    pub open spec fn empty(capacity: nat) -> Self {
        ChannelView { quick: Seq::empty(), normal: Seq::empty(), capacity }
    }

    /// The queue that serves a priority.
    pub open spec fn lane(self, priority: Priority) -> Seq<T> {
        if priority.is_high() {
            self.quick
        } else {
            self.normal
        }
    }

    /// Whether the queue of this priority has room for one more item.
    pub open spec fn accepts(self, priority: Priority) -> bool {
        self.lane(priority).len() < self.capacity
    }

    /// The channel after it took an item.
    pub open spec fn push(self, priority: Priority, item: T) -> Self {
        if priority.is_high() {
            ChannelView { quick: self.quick.push(item), ..self }
        } else {
            ChannelView { normal: self.normal.push(item), ..self }
        }
    }

    /// The number of items that wait, both classes together.
    pub open spec fn pending(self) -> nat {
        self.quick.len() + self.normal.len()
    }

    /// The item that is delivered next: the oldest quick one; the oldest
    /// normal one only when no quick one waits.
    pub open spec fn front(self) -> Option<T> {
        if self.quick.len() > 0 {
            Some(self.quick[0])
        } else if self.normal.len() > 0 {
            Some(self.normal[0])
        } else {
            None
        }
    }

    /// The channel after one delivery.
    pub open spec fn pop(self) -> Self {
        if self.quick.len() > 0 {
            ChannelView { quick: self.quick.skip(1), ..self }
        } else if self.normal.len() > 0 {
            ChannelView { normal: self.normal.skip(1), ..self }
        } else {
            self
        }
    }

    /// What `n` deliveries in a row hand out, in the order of delivery.
    /// Deliveries from an empty channel hand out nothing.
    pub open spec fn deliveries(self, n: nat) -> Seq<T>
        decreases n,
    {
        if n == 0 {
            Seq::empty()
        } else {
            match self.front() {
                Some(item) => seq![item] + self.pop().deliveries((n - 1) as nat),
                None => Seq::empty(),
            }
        }
    }

    /// The channel after `n` deliveries in a row.
    pub open spec fn after_deliveries(self, n: nat) -> Self
        decreases n,
    {
        if n == 0 {
            self
        } else {
            self.pop().after_deliveries((n - 1) as nat)
        }
    }

    /// The channel with an item put back first in line: first on the quick
    /// queue if that is where it came from, else first on the normal one.
    pub open spec fn put_back(self, from_quick: bool, item: T) -> Self {
        if from_quick {
            ChannelView { quick: seq![item] + self.quick, ..self }
        } else {
            ChannelView { normal: seq![item] + self.normal, ..self }
        }
    }

    /// Whether `sent`, `end` and `after` can be the outcome of handing what
    /// waits on this channel over to a task, with room for `budget` items:
    /// `sent` items were handed over, in delivery order, and `after` is
    /// what that many deliveries leave; the end is `Drained` exactly when
    /// nothing is left; it is `Budget` only when the budget is used up and
    /// something is left; and the task's channel is only blamed when the
    /// budget still allowed for an item.
    pub open spec fn flushed(self, budget: usize, sent: usize, end: FlushEnd, after: Self)
        -> bool {
        &&& sent <= budget
        &&& sent <= self.pending()
        &&& after == self.after_deliveries(sent as nat)
        &&& end == FlushEnd::Drained <==> after.pending() == 0
        &&& end == FlushEnd::Budget ==> sent == budget && after.pending() > 0
        &&& end == FlushEnd::Full || end == FlushEnd::Disconnected ==> sent < budget
    }

    /// Everything that waits, in the order in which it will be delivered.
    pub open spec fn delivery_order(self) -> Seq<T> {
        self.quick + self.normal
    }

    /// The channel with nothing waiting.
    pub open spec fn drained(self) -> Self {
        ChannelView { quick: Seq::empty(), normal: Seq::empty(), ..self }
    }
}

/// Repeated delivery hands out the waiting items in delivery order: the
/// first `n` deliveries are the first `n` items of the quick queue followed
/// by the normal queue.
pub proof fn lemma_deliveries_follow_order<T>(c: ChannelView<T>, n: nat)
    requires
        n <= c.pending(),
    ensures
        c.deliveries(n) == c.delivery_order().take(n as int),
        c.after_deliveries(n).delivery_order() == c.delivery_order().skip(n as int),
        c.after_deliveries(n).capacity == c.capacity,
    decreases n,
{
    if n == 0 {
        assert(c.delivery_order().take(0) =~= Seq::<T>::empty());
        assert(c.delivery_order().skip(0) =~= c.delivery_order());
    } else {
        let rest = c.pop();
        assert(rest.delivery_order() =~= c.delivery_order().skip(1));
        assert(c.front() == Some(c.delivery_order()[0]));
        lemma_deliveries_follow_order(rest, (n - 1) as nat);
        assert(seq![c.delivery_order()[0]] + c.delivery_order().skip(1).take(n - 1)
            =~= c.delivery_order().take(n as int));
        assert(c.delivery_order().skip(1).skip(n - 1) =~= c.delivery_order().skip(n as int));
    }
}

/// Deliveries leave the capacity of a channel as it is.
pub proof fn lemma_deliveries_keep_capacity<T>(c: ChannelView<T>, n: nat)
    ensures
        c.after_deliveries(n).capacity == c.capacity,
    decreases n,
{
    if n > 0 {
        lemma_deliveries_keep_capacity(c.pop(), (n - 1) as nat);
    }
}

/// One more delivery after `n` is one delivery from what `n` left.
pub proof fn lemma_deliveries_step<T>(c: ChannelView<T>, n: nat)
    ensures
        c.after_deliveries(n + 1) == c.after_deliveries(n).pop(),
    decreases n,
{
    if n > 0 {
        lemma_deliveries_step(c.pop(), (n - 1) as nat);
    } else {
        assert(c.after_deliveries(1) == c.pop().after_deliveries(0));
    }
}

/// The quick queue is never starved: draining a channel by repeated delivery
/// hands out every quick item, in the order of arrival, before any normal
/// item, however early the normal item arrived; nothing is lost and nothing
/// delivered twice.
pub proof fn lemma_quick_before_normal<T>(c: ChannelView<T>)
    ensures
        c.deliveries(c.pending()) == c.quick + c.normal,
        c.after_deliveries(c.pending()).pending() == 0,
        forall|i: int|
            0 <= i < c.quick.len() ==> #[trigger] c.deliveries(c.pending())[i] == c.quick[i],
        forall|j: int|
            0 <= j < c.normal.len() ==> #[trigger] c.deliveries(c.pending())[c.quick.len() + j]
                == c.normal[j],
{
    lemma_deliveries_follow_order(c, c.pending());
    assert(c.delivery_order().take(c.pending() as int) =~= c.delivery_order());
    let left = c.after_deliveries(c.pending());
    assert(left.delivery_order().len() == 0);
    assert(left.quick.len() + left.normal.len() == left.delivery_order().len());
}

/// A pair of bounded queues, one per priority. Items of high priority wait
/// on the quick queue, the others on the normal queue; each queue holds at
/// most `capacity` items and hands them out oldest first, and the quick queue
/// is emptied before the normal one is touched.
///
/// What waits here is part of the state that the contracts of the service
/// speak of: whether a command was taken, and in which order commands are
/// due, is decided here and nowhere else. The channel of the task that
/// receives the items is another matter: what it holds depends on what
/// that task has done meanwhile. It is reached only in `flush_into`, which
/// moves items from here to there.
pub struct PriorityChannel<T> {
    quick: VecDeque<T>,
    normal: VecDeque<T>,
    capacity: usize,
}

impl<T> View for PriorityChannel<T> {
    type V = ChannelView<T>;

    closed spec fn view(&self) -> ChannelView<T> {
        ChannelView { quick: self.quick@, normal: self.normal@, capacity: self.capacity as nat }
    }
}

impl<T> PriorityChannel<T> {
    /// A channel whose queues hold up to `capacity` items each.
    pub fn new(capacity: usize) -> (channel: Self)
        ensures
            channel@ == ChannelView::<T>::empty(capacity as nat),
    {
        PriorityChannel { quick: VecDeque::new(), normal: VecDeque::new(), capacity }
    }

    /// The number of items each queue may hold.
    pub fn capacity(&self) -> (n: usize)
        ensures
            n == self@.capacity,
    {
        self.capacity
    }

    /// The number of items that wait on the queue of a priority.
    pub fn len(&self, priority: Priority) -> (n: usize)
        ensures
            n == self@.lane(priority).len(),
    {
        if priority.is_high() {
            self.quick.len()
        } else {
            self.normal.len()
        }
    }

    /// Whether nothing waits on either queue.
    pub fn is_empty(&self) -> (r: bool)
        ensures
            r == (self@.pending() == 0),
    {
        self.quick.len() == 0 && self.normal.len() == 0
    }

    /// Whether the queue of this priority has room for one more item.
    pub fn accepts(&self, priority: Priority) -> (r: bool)
        ensures
            r == self@.accepts(priority),
    {
        self.len(priority) < self.capacity
    }

    /// Puts an item on the queue of its priority, without waiting.
    ///
    /// While the queue of this priority is full the item is turned away as
    /// `Full`: it comes back in the error and the channel stays as it was.
    pub fn try_send(&mut self, priority: Priority, item: T) -> (r: Result<(), TrySendError<T>>)
        ensures
            r is Ok <==> old(self)@.accepts(priority),
            r is Ok ==> final(self)@ == old(self)@.push(priority, item),
            r matches Err(e) ==> {
                &&& final(self)@ == old(self)@
                &&& e.item == item
                &&& e.kind == SendFailure::Full
            },
    {
        if priority.is_high() {
            if self.quick.len() < self.capacity {
                self.quick.push_back(item);
                Ok(())
            } else {
                Err(TrySendError { kind: SendFailure::Full, item })
            }
        } else {
            if self.normal.len() < self.capacity {
                self.normal.push_back(item);
                Ok(())
            } else {
                Err(TrySendError { kind: SendFailure::Full, item })
            }
        }
    }

    /// Takes the item that is due next, if any waits: the oldest of the
    /// quick queue, and of the normal queue only once the quick one is empty.
    pub fn try_recv(&mut self) -> (item: Option<T>)
        ensures
            item == old(self)@.front(),
            final(self)@ == old(self)@.pop(),
    {
        let quick = self.quick.pop_front();
        match quick {
            Some(item) => {
                assert(self.quick@ =~= old(self).quick@.skip(1));
                Some(item)
            },
            None => {
                let normal = self.normal.pop_front();
                proof {
                    if normal is Some {
                        assert(self.normal@ =~= old(self).normal@.skip(1));
                    }
                }
                normal
            },
        }
    }

    /// Takes everything that waits, in delivery order: the whole quick queue,
    /// then the whole normal queue.
    pub fn drain(&mut self) -> (items: Vec<T>)
        ensures
            items@ == old(self)@.delivery_order(),
            items@ == old(self)@.deliveries(old(self)@.pending()),
            final(self)@ == old(self)@.drained(),
    {
        let mut items: Vec<T> = Vec::new();
        let ghost start = self@;
        proof {
            lemma_quick_before_normal(start);
        }
        loop
            invariant
                self@.capacity == start.capacity,
                items@ + self@.delivery_order() == start.delivery_order(),
            ensures
                self@.pending() == 0,
            decreases self@.pending(),
        {
            let ghost before = self@;
            let ghost taken = items@;
            match self.try_recv() {
                Some(item) => {
                    items.push(item);
                    assert(items@ + self@.delivery_order() =~= taken + before.delivery_order());
                },
                None => {
                    break ;
                },
            }
        }
        assert(self@.delivery_order() =~= Seq::<T>::empty());
        assert(items@ =~= items@ + self@.delivery_order());
        assert(self@ =~= start.drained());
        items
    }

    /// Settles what came back from an attempt to hand an item over to a
    /// task. An item that was taken is settled: nothing changes and the
    /// handing over may go on. An item that was refused is put back first
    /// in line, on the quick queue if `from_quick` says that it came from
    /// there, else on the normal one, and the reason of the refusal ends
    /// the handing over: `Full` if the task's channel was full,
    /// `Disconnected` if the task is gone.
    pub fn settle(&mut self, from_quick: bool, outcome: Result<(), TrySendError<T>>) -> (end:
        Option<FlushEnd>)
        ensures
            outcome is Ok ==> end is None && final(self)@ == old(self)@,
            outcome matches Err(e) ==> {
                &&& end == Some(
                    if e.kind == SendFailure::Full {
                        FlushEnd::Full
                    } else {
                        FlushEnd::Disconnected
                    },
                )
                &&& final(self)@ == old(self)@.put_back(from_quick, e.item)
            },
    {
        match outcome {
            Ok(()) => None,
            Err(refused) => {
                let end = if refused.is_full() {
                    FlushEnd::Full
                } else {
                    FlushEnd::Disconnected
                };
                if from_quick {
                    self.quick.push_front(refused.item);
                } else {
                    self.normal.push_front(refused.item);
                }
                Some(end)
            },
        }
    }

    /// Hands what waits over to a task, through the sending half of the
    /// task's channel: item by item in delivery order, every quick item
    /// before any normal one, until nothing waits, `budget` items were
    /// handed over, or the task's channel takes no more. Each item is taken
    /// with `try_recv`, offered to the task's channel, and what comes back
    /// is settled with `settle`: an item that the channel did not take is
    /// not lost, it waits first in line again.
    ///
    /// Returns the number of items handed over and why it stopped. What is
    /// left is what that many deliveries leave. Where nothing waits the end
    /// is `Drained`; where something waits and the budget is 0 it is
    /// `Budget`; whether the task's channel takes an item is the task's
    /// business and decides the rest.
    pub fn flush_into(&mut self, sender: &mut Sender<T>, budget: usize) -> (r: (usize, FlushEnd))
        ensures
            old(self)@.flushed(budget, r.0, r.1, final(self)@),
            r.0 <= budget,
            r.0 <= old(self)@.pending(),
            final(self)@ == old(self)@.after_deliveries(r.0 as nat),
            r.1 == FlushEnd::Drained <==> final(self)@.pending() == 0,
            r.1 == FlushEnd::Budget ==> r.0 == budget && final(self)@.pending() > 0,
            r.1 == FlushEnd::Full || r.1 == FlushEnd::Disconnected ==> r.0 < budget,
    {
        let ghost start = self@;
        let mut sent: usize = 0;
        loop
            invariant
                start == old(self)@,
                sent <= budget,
                sent <= start.pending(),
                self@ == start.after_deliveries(sent as nat),
                self@.pending() + sent == start.pending(),
            decreases budget - sent,
        {
            let ghost before = self@;
            proof {
                lemma_deliveries_step(start, sent as nat);
            }
            if self.is_empty() {
                return (sent, FlushEnd::Drained);
            }
            if sent >= budget {
                return (sent, FlushEnd::Budget);
            }
            let from_quick = self.quick.len() > 0;
            match self.try_recv() {
                Some(item) => {
                    let outcome = hand_over(sender, item);
                    match self.settle(from_quick, outcome) {
                        None => {
                            sent = sent + 1;
                        },
                        Some(end) => {
                            assert(self@ =~= before) by {
                                assert(seq![item] + before.quick.skip(1) =~= before.quick
                                    || !from_quick);
                                assert(seq![item] + before.normal.skip(1) =~= before.normal
                                    || from_quick);
                            }
                            return (sent, end);
                        },
                    }
                },
                None => {
                    return (sent, FlushEnd::Drained);
                },
            }
        }
    }

    /// Drops everything that waits.
    pub fn clear(&mut self)
        ensures
            final(self)@ == old(self)@.drained(),
    {
        self.quick.clear();
        self.normal.clear();
    }
}

} // verus!
