//! Typed, bounded, timestamped FIFO channels: the synchronization fabric of
//! the simulation runtime. Every element carries the virtual time at which it
//! becomes available; a consumer's clock advances to at least that time when
//! it dequeues the element.

use vstd::prelude::*;

use crate::pcu::PCUData;

verus! {

/// One message in flight: a payload and the virtual time at which it becomes
/// available to the consumer.
#[derive(Clone, Debug)]
pub struct ChannelElement {
    pub time: u64,
    pub data: PCUData,
}

impl ChannelElement {
    pub fn new(time: u64, data: PCUData) -> (e: ChannelElement)
        ensures
            e.time == time,
            e.data == data,
    {
        ChannelElement { time, data }
    }
}

/// A bounded FIFO of timestamped elements. `closed` is set once the sending
/// side has terminated; `sender_time` tracks the producer's virtual clock and
/// bounds from below the timestamp of anything the producer may still send.
pub struct Channel {
    pub queue: Vec<ChannelElement>,
    pub capacity: usize,
    pub closed: bool,
    pub sender_time: u64,
}

impl Channel {
    /// There is room for one more element.
    pub open spec fn has_space(self) -> bool {
        self.queue@.len() < self.capacity
    }

    /// An open, empty channel with the given bound.
    pub fn new(capacity: usize) -> (c: Channel)
        ensures
            c.queue@.len() == 0,
            c.capacity == capacity,
            !c.closed,
            c.sender_time == 0,
    {
        Channel { queue: Vec::new(), capacity, closed: false, sender_time: 0 }
    }
}

/// The receiving half of a channel. Owned exclusively by one component.
pub struct Receiver {
    pub id: usize,
}

/// The sending half of a channel. Owned exclusively by one component.
pub struct Sender {
    pub id: usize,
}

/// What a non-destructive look at a channel yields: the timestamp of the
/// element at the head, `Nothing` with the earliest time the producer might
/// still send at, or `Closed` once the channel is empty and the producer has
/// terminated.
#[derive(Clone, Copy, Debug, PartialEq, Eq, Structural)]
pub enum PeekResult {
    Something(u64),
    Nothing(u64),
    Closed,
}

/// The outcome of a dequeue attempt: an element, `Pending` when the channel is
/// empty but may still produce, or `Closed` when it is empty forever.
pub enum DequeueResult {
    Got(ChannelElement),
    Pending,
    Closed,
}

/// What `peek` returns on a given channel state.
pub open spec fn peek_spec(ch: Channel) -> PeekResult {
    if ch.queue@.len() > 0 {
        PeekResult::Something(ch.queue@[0].time)
    } else if ch.closed {
        PeekResult::Closed
    } else {
        PeekResult::Nothing(ch.sender_time)
    }
}

/// Look at the head of channel `id` without consuming it.
pub fn peek(chs: &Vec<Channel>, id: usize) -> (r: PeekResult)
    requires
        id < chs@.len(),
    ensures
        r == peek_spec(chs@[id as int]),
{
    let ch = &chs[id];
    if ch.queue.len() > 0 {
        PeekResult::Something(ch.queue[0].time)
    } else if ch.closed {
        PeekResult::Closed
    } else {
        PeekResult::Nothing(ch.sender_time)
    }
}

/// Append `elem` to channel `id` if the bound permits; returns whether the
/// element was accepted. A full channel rejects the element and is left
/// unchanged: the caller stays blocked and retries once the consumer has made
/// space (backpressure).
pub fn enqueue(chs: &mut Vec<Channel>, id: usize, elem: ChannelElement) -> (accepted: bool)
    requires
        id < old(chs)@.len(),
    ensures
        final(chs)@.len() == old(chs)@.len(),
        forall|j: int|
            0 <= j < final(chs)@.len() && j != id ==> final(chs)@[j] == old(chs)@[j],
        accepted == old(chs)@[id as int].has_space(),
        accepted ==> final(chs)@[id as int].queue@ == old(chs)@[id as int].queue@.push(elem)
            && final(chs)@[id as int].capacity == old(chs)@[id as int].capacity && final(chs)@[id as int].closed == old(chs)@[id as int].closed && final(chs)@[id as int].sender_time
            == old(chs)@[id as int].sender_time,
        !accepted ==> final(chs)@[id as int] == old(chs)@[id as int],
{
    let has_space = chs[id].queue.len() < chs[id].capacity;
    if has_space {
        let mut ch = chs.remove(id);
        ch.queue.push(elem);
        chs.insert(id, ch);
        proof {
            assert(chs@ =~= old(chs)@.update(
                id as int,
                Channel {
                    queue: chs@[id as int].queue,
                    ..old(chs)@[id as int]
                },
            ));
        }
        true
    } else {
        false
    }
}

/// Take the element at the head of channel `id`, advancing the consumer's
/// clock to at least the element's timestamp; `Pending` when the channel is
/// empty but open, `Closed` when it is empty and the producer has terminated.
/// Only a successful dequeue changes the channel or the clock.
pub fn dequeue(chs: &mut Vec<Channel>, id: usize, clock: &mut u64) -> (r: DequeueResult)
    requires
        id < old(chs)@.len(),
    ensures
        final(chs)@.len() == old(chs)@.len(),
        forall|j: int|
            0 <= j < final(chs)@.len() && j != id ==> final(chs)@[j] == old(chs)@[j],
        r is Got <==> old(chs)@[id as int].queue@.len() > 0,
        r is Closed <==> (old(chs)@[id as int].queue@.len() == 0 && old(chs)@[id as int].closed),
        r is Pending <==> (old(chs)@[id as int].queue@.len() == 0 && !old(chs)@[id as int].closed),
        r matches DequeueResult::Got(e) ==> e == old(chs)@[id as int].queue@[0] && final(chs)@[id as int].queue@ == old(chs)@[id as int].queue@.drop_first() && final(chs)@[id as int].capacity == old(chs)@[id as int].capacity && final(chs)@[id as int].closed
            == old(chs)@[id as int].closed && final(chs)@[id as int].sender_time == old(chs)@[id as int].sender_time && *final(clock) == if e.time > *old(clock) {
            e.time
        } else {
            *old(clock)
        },
        !(r is Got) ==> final(chs)@[id as int] == old(chs)@[id as int] && *final(clock) == *old(
            clock,
        ),
{
    if chs[id].queue.len() > 0 {
        let mut ch = chs.remove(id);
        let e = ch.queue.remove(0);
        chs.insert(id, ch);
        if e.time > *clock {
            *clock = e.time;
        }
        proof {
            assert(chs@ =~= old(chs)@.update(
                id as int,
                Channel {
                    queue: chs@[id as int].queue,
                    ..old(chs)@[id as int]
                },
            ));
            assert(chs@[id as int].queue@ =~= old(chs)@[id as int].queue@.drop_first());
        }
        DequeueResult::Got(e)
    } else if chs[id].closed {
        DequeueResult::Closed
    } else {
        DequeueResult::Pending
    }
}

/// Mark channel `id` closed: its producer has terminated. Elements already
/// queued stay available; once they drain, consumers observe closure.
pub fn close(chs: &mut Vec<Channel>, id: usize)
    requires
        id < old(chs)@.len(),
    ensures
        final(chs)@.len() == old(chs)@.len(),
        forall|j: int|
            0 <= j < final(chs)@.len() && j != id ==> final(chs)@[j] == old(chs)@[j],
        final(chs)@[id as int].closed,
        final(chs)@[id as int].queue == old(chs)@[id as int].queue,
        final(chs)@[id as int].capacity == old(chs)@[id as int].capacity,
        final(chs)@[id as int].sender_time == old(chs)@[id as int].sender_time,
{
    let mut ch = chs.remove(id);
    ch.closed = true;
    chs.insert(id, ch);
    proof {
        assert(chs@ =~= old(chs)@.update(
            id as int,
            Channel { closed: true, ..old(chs)@[id as int] },
        ));
    }
}

/// Record the producer's current virtual clock on channel `id`, so that an
/// empty peek can report the earliest time the producer might still send at.
pub fn note_sender_time(chs: &mut Vec<Channel>, id: usize, t: u64)
    requires
        id < old(chs)@.len(),
    ensures
        final(chs)@.len() == old(chs)@.len(),
        forall|j: int|
            0 <= j < final(chs)@.len() && j != id ==> final(chs)@[j] == old(chs)@[j],
        final(chs)@[id as int].sender_time == t,
        final(chs)@[id as int].queue == old(chs)@[id as int].queue,
        final(chs)@[id as int].capacity == old(chs)@[id as int].capacity,
        final(chs)@[id as int].closed == old(chs)@[id as int].closed,
{
    let mut ch = chs.remove(id);
    ch.sender_time = t;
    chs.insert(id, ch);
    proof {
        assert(chs@ =~= old(chs)@.update(
            id as int,
            Channel { sender_time: t, ..old(chs)@[id as int] },
        ));
    }
}

} // verus!
