use vstd::prelude::*;

use crate::message::Message;

verus! {

/// What one call of `receive` hands back to a subscriber.
pub enum RecvOutcome {
    /// The next message in publish order.
    Received(Message),
    /// The subscriber fell behind by this many messages; its cursor was moved
    /// forward to the oldest entry still retained. Recoverable: the next
    /// receive continues in order from there.
    Lagged(usize),
    /// Every publisher is gone and no further message is possible.
    Closed,
    /// Nothing to read right now; more messages may still arrive.
    Empty,
}

/// A fixed-capacity broadcast bus: many producers, many independently-cursored
/// consumers. It retains only the most recent `capacity` messages, so a slow
/// consumer loses old entries rather than delaying anyone else.
pub struct EventBus {
    capacity: usize,
    next_seq: usize,
    buffer: Vec<Message>,
    closed: bool,
    log: Ghost<Seq<Message>>,
}

/// An independent receiver: a cursor into the bus's global publish order.
/// The cursor never moves backward.
pub struct Subscriber {
    cursor: usize,
}

impl Subscriber {
    /// The index into the publish log of the next message this subscriber
    /// expects.
    pub closed spec fn cursor_spec(&self) -> nat {
        self.cursor as nat
    }

    /// A subscriber is attached to a bus when its cursor points no further
    /// than one past the bus's last published message.
    pub open spec fn attached_to(&self, bus: &EventBus) -> bool {
        self.cursor_spec() <= bus.log().len()
    }
}

impl EventBus {
    /// Every message ever published, in global send order.
    pub closed spec fn log(&self) -> Seq<Message> {
        self.log@
    }

    /// The fixed retention capacity, chosen at construction.
    pub closed spec fn cap(&self) -> nat {
        self.capacity as nat
    }

    /// Whether every publisher handle is gone.
    pub closed spec fn is_closed(&self) -> bool {
        self.closed
    }

    /// The sequence number of the oldest message still retained: everything
    /// older was evicted to keep at most `cap()` entries.
    pub open spec fn oldest_retained(&self) -> nat {
        if self.log().len() <= self.cap() {
            0
        } else {
            (self.log().len() - self.cap()) as nat
        }
    }

    /// Internal well-formedness: the buffer holds exactly the retained suffix
    /// of the publish log.
    pub closed spec fn inv(&self) -> bool {
        &&& self.capacity >= 1
        &&& self.next_seq == self.log@.len()
        &&& self.buffer@ == self.log@.subrange(
            self.oldest_retained() as int,
            self.log@.len() as int,
        )
    }

    /// A new bus that has published nothing and retains at most `capacity`
    /// messages.
    pub fn new(capacity: usize) -> (bus: EventBus)
        requires
            capacity >= 1,
        ensures
            bus.inv(),
            bus.cap() == capacity,
            bus.log() == Seq::<Message>::empty(),
            !bus.is_closed(),
    {
        let bus = EventBus {
            capacity,
            next_seq: 0,
            buffer: Vec::new(),
            closed: false,
            log: Ghost(Seq::empty()),
        };
        proof {
            assert(bus.buffer@ =~= bus.log@.subrange(0, 0));
        }
        bus
    }

    /// Publish one message: it is appended to the global send order, and the
    /// oldest retained entry is evicted if the bus is at capacity. Publishing
    /// never fails and never waits, whether or not anyone subscribes.
    pub fn publish(&mut self, m: Message)
        requires
            old(self).inv(),
            !old(self).is_closed(),
            old(self).log().len() < usize::MAX,
        ensures
            final(self).inv(),
            final(self).log() == old(self).log().push(m),
            final(self).cap() == old(self).cap(),
            !final(self).is_closed(),
    {
        if self.buffer.len() == self.capacity {
            self.buffer.remove(0);
        }
        self.buffer.push(m);
        self.next_seq = self.next_seq + 1;
        proof {
            self.log@ = self.log@.push(m);
        }
        proof {
            assert(self.buffer@ =~= self.log@.subrange(
                self.oldest_retained() as int,
                self.log@.len() as int,
            ));
        }
    }

    /// A fresh independent receiver whose cursor is "now": it will never
    /// observe a message published before this call.
    pub fn subscribe(&self) -> (s: Subscriber)
        requires
            self.inv(),
        ensures
            s.cursor_spec() == self.log().len(),
            s.attached_to(self),
    {
        Subscriber { cursor: self.next_seq }
    }

    /// Record that every publisher handle is gone: subscribers that catch up
    /// will see `Closed` instead of `Empty`.
    pub fn close(&mut self)
        requires
            old(self).inv(),
        ensures
            final(self).inv(),
            final(self).log() == old(self).log(),
            final(self).cap() == old(self).cap(),
            final(self).is_closed(),
    {
        self.closed = true;
    }

    /// How many messages were ever published.
    pub fn published_count(&self) -> (r: usize)
        requires
            self.inv(),
        ensures
            r == self.log().len(),
    {
        self.next_seq
    }

    /// Whether the bus was closed.
    pub fn currently_closed(&self) -> (r: bool)
        ensures
            r == self.is_closed(),
    {
        self.closed
    }

    /// One receive step for `sub`. The outcome and the cursor movement are
    /// pinned down by `receive_outcome`; the cursor never moves backward.
    pub fn receive(&self, sub: &mut Subscriber) -> (r: RecvOutcome)
        requires
            self.inv(),
            old(sub).attached_to(self),
        ensures
            receive_outcome(self, *old(sub), *final(sub), r),
            final(sub).attached_to(self),
            final(sub).cursor_spec() >= old(sub).cursor_spec(),
    {
        let oldest = self.next_seq - self.buffer.len();
        if sub.cursor < oldest {
            let n = oldest - sub.cursor;
            sub.cursor = oldest;
            RecvOutcome::Lagged(n)
        } else if sub.cursor < self.next_seq {
            let idx = sub.cursor - oldest;
            let m = self.buffer[idx].duplicate();
            sub.cursor = sub.cursor + 1;
            RecvOutcome::Received(m)
        } else {
            if self.closed {
                RecvOutcome::Closed
            } else {
                RecvOutcome::Empty
            }
        }
    }
}

/// The exact relation between a subscriber before and after one `receive`
/// call on `bus`, and the outcome `r` of that call:
/// - a cursor older than the oldest retained entry gets one `Lagged` signal
///   counting exactly the missed messages, and is moved to the oldest
///   retained entry;
/// - otherwise, a cursor short of the end receives the message at the cursor,
///   which advances by one;
/// - a cursor at the end sees `Closed` once every publisher is gone, `Empty`
///   while more messages may come, and does not move.
pub open spec fn receive_outcome(
    bus: &EventBus,
    before: Subscriber,
    after: Subscriber,
    r: RecvOutcome,
) -> bool {
    let len = bus.log().len();
    let oldest = bus.oldest_retained();
    if before.cursor_spec() < oldest {
        &&& r matches RecvOutcome::Lagged(n) && n == oldest - before.cursor_spec()
        &&& after.cursor_spec() == oldest
    } else if before.cursor_spec() < len {
        &&& r matches RecvOutcome::Received(m) && m == bus.log()[before.cursor_spec() as int]
        &&& after.cursor_spec() == before.cursor_spec() + 1
    } else {
        &&& if bus.is_closed() {
            r is Closed
        } else {
            r is Empty
        }
        &&& after.cursor_spec() == before.cursor_spec()
    }
}

/// Law: a subscriber whose cursor is at or past `n` never observes a message
/// published before position `n`, and its cursor stays at or past `n`. In
/// particular a receiver created when `n` messages had been published (its
/// cursor is then `n`) observes none of those `n` messages, ever.
pub proof fn lemma_subscriber_sees_nothing_before_subscription(
    bus: &EventBus,
    before: Subscriber,
    after: Subscriber,
    r: RecvOutcome,
    n: nat,
)
    requires
        receive_outcome(bus, before, after, r),
        before.cursor_spec() >= n,
    ensures
        r matches RecvOutcome::Received(m) ==> exists|i: int|
            n <= i < bus.log().len() && m == bus.log()[i],
        after.cursor_spec() >= n,
{
    match r {
        RecvOutcome::Received(m) => {
            assert(m == bus.log()[before.cursor_spec() as int]);
        },
        _ => {},
    }
}

/// Law: a subscriber that has kept current (its cursor is within the retained
/// window) and has messages left receives exactly the message at its cursor
/// and advances by one. Chained over successive calls, such a subscriber
/// observes every published message exactly once, in publish order.
pub proof fn lemma_current_subscriber_receives_in_order(
    bus: &EventBus,
    before: Subscriber,
    after: Subscriber,
    r: RecvOutcome,
)
    requires
        receive_outcome(bus, before, after, r),
        before.cursor_spec() >= bus.oldest_retained(),
        before.cursor_spec() < bus.log().len(),
    ensures
        r matches RecvOutcome::Received(m) && m == bus.log()[before.cursor_spec() as int],
        after.cursor_spec() == before.cursor_spec() + 1,
{
}

/// Law: messages are never repeated and never reordered. Across two receive
/// calls that both hand a message back — with any number of publishes in
/// between, which only append to the log — the second message sits exactly
/// one position after the first in the global send order.
pub proof fn lemma_messages_never_repeat_nor_reorder(
    bus1: &EventBus,
    bus2: &EventBus,
    s1: Subscriber,
    s2: Subscriber,
    s3: Subscriber,
    r1: RecvOutcome,
    r2: RecvOutcome,
)
    requires
        receive_outcome(bus1, s1, s2, r1),
        receive_outcome(bus2, s2, s3, r2),
        bus1.log().len() <= bus2.log().len(),
        bus2.log().subrange(0, bus1.log().len() as int) == bus1.log(),
        r1 is Received,
        r2 is Received,
    ensures
        r1 matches RecvOutcome::Received(m1) && m1 == bus2.log()[s1.cursor_spec() as int],
        r2 matches RecvOutcome::Received(m2) && m2 == bus2.log()[s2.cursor_spec() as int],
        s2.cursor_spec() == s1.cursor_spec() + 1,
{
    let c1 = s1.cursor_spec() as int;
    assert(bus1.log()[c1] == bus2.log().subrange(0, bus1.log().len() as int)[c1]);
}

/// Law: a subscriber that fell behind the retention window observes exactly
/// one lag signal whose count equals the number of messages it missed, and
/// its cursor is moved to the oldest retained entry, from which in-order
/// delivery resumes.
pub proof fn lemma_lagged_reports_missed_count(
    bus: &EventBus,
    before: Subscriber,
    after: Subscriber,
    r: RecvOutcome,
)
    requires
        receive_outcome(bus, before, after, r),
        before.cursor_spec() < bus.oldest_retained(),
    ensures
        r matches RecvOutcome::Lagged(n) && n == bus.oldest_retained() - before.cursor_spec(),
        after.cursor_spec() == bus.oldest_retained(),
{
}

} // verus!
