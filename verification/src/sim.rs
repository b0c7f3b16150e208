//! The cooperative single-threaded discrete-event executor: a program builder
//! over bounded channels, utility generator and checker contexts, and the
//! round-robin scheduler that gives each component work until all terminate.

use vstd::prelude::*;

use crate::channel::{close, dequeue, enqueue, note_sender_time, Channel, ChannelElement, DequeueResult, Receiver, Sender};
use crate::errors::{ConfigError, Fault, StepResult};
use crate::pcu::{PCUData, PCU};
use crate::pipeline_stage::{copy_row, rows_eq};
use crate::switch::Switch;

verus! {

/// A utility producer: emits a fixed list of payloads, element `i` carrying
/// virtual timestamp `i + 1`, advancing its own clock one cycle per element;
/// after the last element it closes its channel.
pub struct GeneratorContext {
    pub elements: Vec<PCUData>,
    pub sender: Sender,
    pub pos: usize,
    pub time: u64,
}

impl GeneratorContext {
    pub fn new(elements: Vec<PCUData>, sender: Sender) -> (g: GeneratorContext)
        ensures
            g.elements == elements,
            g.sender == sender,
            g.pos == 0,
            g.time == 0,
    {
        GeneratorContext { elements, sender, pos: 0, time: 0 }
    }

    /// Emit the next element, stamped one cycle after the generator's clock,
    /// or close the channel once the list is exhausted.
    pub fn step(&mut self, chs: &mut Vec<Channel>) -> (r: StepResult)
        requires
            old(self).sender.id < old(chs)@.len(),
        ensures
            final(chs)@.len() == old(chs)@.len(),
            final(self).sender == old(self).sender,
            final(self).elements == old(self).elements,
            final(self).time >= old(self).time,
            r is Finished <==> old(self).pos >= old(self).elements@.len(),
            r is Finished ==> final(self).pos == old(self).pos,
            r is Finished ==> final(chs)@[old(self).sender.id as int].closed,
            r is Progress ==> {
                let q0 = old(chs)@[old(self).sender.id as int].queue@;
                let q1 = final(chs)@[old(self).sender.id as int].queue@;
                &&& old(self).pos < old(self).elements@.len()
                &&& final(self).pos == old(self).pos + 1
                &&& final(self).time == old(self).time + 1
                &&& q1.len() == q0.len() + 1
                &&& q1[q1.len() - 1].time == old(self).time + 1
                &&& q1[q1.len() - 1].data.data@ == old(self).elements@[old(self).pos as int].data@
                &&& forall|j: int| 0 <= j < q0.len() ==> q1[j] == q0[j]
            },
            r is Blocked ==> *final(self) == *old(self) && final(chs)@ == old(chs)@,
            (old(self).pos < old(self).elements@.len() && old(self).time < u64::MAX) ==> (r
                is Blocked <==> !old(chs)@[old(self).sender.id as int].has_space()),
            (old(self).pos < old(self).elements@.len() && old(self).time < u64::MAX) ==> (r
                is Progress <==> old(chs)@[old(self).sender.id as int].has_space()),
            (old(self).pos < old(self).elements@.len() && old(self).time == u64::MAX) ==> r
                == StepResult::Faulted(Fault::TimeOverflow),
            forall|j: int|
                0 <= j < old(chs)@.len() && j != old(self).sender.id ==> #[trigger] final(chs)@[j] == old(chs)@[j],
    {
        if self.pos < self.elements.len() {
            match self.time.checked_add(1) {
                None => StepResult::Faulted(Fault::TimeOverflow),
                Some(stamp) => {
                    let payload = PCUData { data: copy_row(&self.elements[self.pos].data) };
                    if enqueue(chs, self.sender.id, ChannelElement::new(stamp, payload)) {
                        self.pos = self.pos + 1;
                        self.time = stamp;
                        StepResult::Progress
                    } else {
                        StepResult::Blocked
                    }
                },
            }
        } else {
            close(chs, self.sender.id);
            StepResult::Finished
        }
    }
}

/// A utility consumer that checks the sequence it receives against an expected
/// list: a value that differs, an element beyond the list, or closure before
/// the list is exhausted is a `CheckMismatch` fault. An optional slowdown
/// advances its clock after every accepted element, modelling a slow consumer.
pub struct CheckerContext {
    pub expected: Vec<PCUData>,
    pub receiver: Receiver,
    pub pos: usize,
    pub time: u64,
    pub slowdown: u64,
}

impl CheckerContext {
    pub fn new(expected: Vec<PCUData>, receiver: Receiver) -> (c: CheckerContext)
        ensures
            c.expected == expected,
            c.receiver == receiver,
            c.pos == 0,
            c.time == 0,
            c.slowdown == 0,
    {
        CheckerContext { expected, receiver, pos: 0, time: 0, slowdown: 0 }
    }

    pub fn new_slow(expected: Vec<PCUData>, receiver: Receiver, slowdown: u64) -> (c:
        CheckerContext)
        ensures
            c.expected == expected,
            c.receiver == receiver,
            c.pos == 0,
            c.time == 0,
            c.slowdown == slowdown,
    {
        CheckerContext { expected, receiver, pos: 0, time: 0, slowdown }
    }

    /// Consume one element and hold it against the expected list.
    pub fn step(&mut self, chs: &mut Vec<Channel>) -> (r: StepResult)
        requires
            old(self).receiver.id < old(chs)@.len(),
        ensures
            final(chs)@.len() == old(chs)@.len(),
            final(self).receiver == old(self).receiver,
            final(self).expected == old(self).expected,
            final(self).time >= old(self).time,
            (old(chs)@[old(self).receiver.id as int].queue@.len() > 0 && old(self).pos < old(
                self,
            ).expected@.len()) ==> {
                let got = old(chs)@[old(self).receiver.id as int].queue@[0].data.data@;
                let want = old(self).expected@[old(self).pos as int].data@;
                &&& (r is Progress <==> got == want)
                &&& (r is Progress ==> final(self).pos == old(self).pos + 1)
                &&& (!(got == want) ==> r == StepResult::Faulted(Fault::CheckMismatch))
            },
            r is Finished <==> (old(chs)@[old(self).receiver.id as int].queue@.len() == 0 && old(
                chs,
            )@[old(self).receiver.id as int].closed && old(self).pos >= old(
                self,
            ).expected@.len()),
            r is Finished ==> final(self).pos == old(self).pos,
            r is Blocked <==> (old(chs)@[old(self).receiver.id as int].queue@.len() == 0 && !old(
                chs,
            )@[old(self).receiver.id as int].closed),
            (old(chs)@[old(self).receiver.id as int].queue@.len() > 0 && old(self).pos >= old(
                self,
            ).expected@.len()) ==> r == StepResult::Faulted(Fault::CheckMismatch),
            (old(chs)@[old(self).receiver.id as int].queue@.len() == 0 && old(
                chs,
            )@[old(self).receiver.id as int].closed && old(self).pos < old(self).expected@.len())
                ==> r == StepResult::Faulted(Fault::CheckMismatch),
            old(chs)@[old(self).receiver.id as int].queue@.len() > 0 ==> final(chs)@[old(
                self,
            ).receiver.id as int].queue@ == old(chs)@[old(self).receiver.id as int].queue@.drop_first(),
            forall|j: int|
                0 <= j < old(chs)@.len() && j != old(self).receiver.id ==> #[trigger] final(chs)@[j] == old(chs)@[j],
    {
        match dequeue(chs, self.receiver.id, &mut self.time) {
            DequeueResult::Got(e) => {
                if self.pos < self.expected.len() {
                    let ok = rows_eq(&e.data.data, &self.expected[self.pos].data);
                    if ok {
                        self.pos = self.pos + 1;
                        if self.slowdown > 0 {
                            if self.time <= u64::MAX - self.slowdown {
                                self.time = self.time + self.slowdown;
                            } else {
                                self.time = u64::MAX;
                            }
                        }
                        StepResult::Progress
                    } else {
                        StepResult::Faulted(Fault::CheckMismatch)
                    }
                } else {
                    StepResult::Faulted(Fault::CheckMismatch)
                }
            },
            DequeueResult::Pending => StepResult::Blocked,
            DequeueResult::Closed => {
                if self.pos < self.expected.len() {
                    StepResult::Faulted(Fault::CheckMismatch)
                } else {
                    StepResult::Finished
                }
            },
        }
    }
}

/// A schedulable component of a program: a utility producer or consumer, a
/// PCU, or a switch.
pub enum Component {
    Generator(GeneratorContext),
    Checker(CheckerContext),
    Pcu(PCU),
    Switch(Switch),
}

impl Component {
    /// The component's structural well-formedness.
    pub open spec fn wf(self) -> bool {
        match self {
            Component::Generator(_) => true,
            Component::Checker(_) => true,
            Component::Pcu(p) => p.wf(),
            Component::Switch(s) => s.wf(),
        }
    }

    /// Every channel endpoint the component holds names a channel below `n`.
    pub open spec fn ids_ok(self, n: int) -> bool {
        match self {
            Component::Generator(g) => g.sender.id < n,
            Component::Checker(c) => c.receiver.id < n,
            Component::Pcu(p) => (forall|k: int|
                0 <= k < p.rt_data.input@.len() ==> (#[trigger] p.rt_data.input@[k].id) < n)
                && (forall|k: int|
                0 <= k < p.rt_data.output@.len() ==> (#[trigger] p.rt_data.output@[k].id) < n),
            Component::Switch(s) => (forall|k: int|
                0 <= k < s.rt_data.receivers@.len() ==> (#[trigger] s.rt_data.receivers@[k].id)
                    < n) && (forall|k: int|
                0 <= k < s.rt_data.senders@.len() ==> (#[trigger] s.rt_data.senders@[k].id) < n),
        }
    }

    /// The component has terminated: it has nothing left to do. A generator
    /// has emitted its whole list, a checker has matched its whole list, and a
    /// PCU or switch has entered its terminal phase.
    pub open spec fn terminated(self) -> bool {
        match self {
            Component::Generator(g) => g.pos >= g.elements@.len(),
            Component::Checker(c) => c.pos >= c.expected@.len(),
            Component::Pcu(p) => p.phase is Done,
            Component::Switch(s) => s.phase is Done,
        }
    }

    /// The component's virtual clock.
    pub open spec fn clock(self) -> u64 {
        match self {
            Component::Generator(g) => g.time,
            Component::Checker(c) => c.time,
            Component::Pcu(p) => p.time,
            Component::Switch(s) => s.time,
        }
    }

    /// The ids of the channels the component sends on.
    pub open spec fn sender_ids_seq(self) -> Seq<usize> {
        match self {
            Component::Generator(g) => seq![g.sender.id],
            Component::Checker(_) => Seq::empty(),
            Component::Pcu(p) => p.rt_data.output@.map_values(|s: Sender| s.id),
            Component::Switch(s) => s.rt_data.senders@.map_values(|x: Sender| x.id),
        }
    }

    /// The ids of the channels the component receives on.
    pub open spec fn receiver_ids_seq(self) -> Seq<usize> {
        match self {
            Component::Generator(_) => Seq::empty(),
            Component::Checker(c) => seq![c.receiver.id],
            Component::Pcu(p) => p.rt_data.input@.map_values(|r: Receiver| r.id),
            Component::Switch(s) => s.rt_data.receivers@.map_values(|x: Receiver| x.id),
        }
    }

    /// Executable clock.
    pub fn current_time(&self) -> (t: u64)
        ensures
            t == self.clock(),
    {
        match self {
            Component::Generator(g) => g.time,
            Component::Checker(c) => c.time,
            Component::Pcu(p) => p.time,
            Component::Switch(s) => s.time,
        }
    }

    /// Executable form of `wf`.
    pub fn wf_check(&self) -> (r: bool)
        ensures
            r == self.wf(),
    {
        match self {
            Component::Generator(_) => true,
            Component::Checker(_) => true,
            Component::Pcu(p) => p.wf_check(),
            Component::Switch(s) => s.wf_check(),
        }
    }

    /// The channels this component sends on, as a list.
    pub fn sender_ids(&self) -> (ids: Vec<usize>)
        ensures
            ids@ == self.sender_ids_seq(),
    {
        let mut ids: Vec<usize> = Vec::new();
        match self {
            Component::Generator(g) => {
                ids.push(g.sender.id);
                proof {
                    assert(ids@ =~= self.sender_ids_seq());
                }
            },
            Component::Checker(_) => {
                proof {
                    assert(ids@ =~= self.sender_ids_seq());
                }
            },
            Component::Pcu(p) => {
                let n = p.rt_data.output.len();
                let mut k: usize = 0;
                while k < n
                    invariant
                        n == p.rt_data.output@.len(),
                        k <= n,
                        ids@.len() == k,
                        forall|j: int| 0 <= j < k ==> ids@[j] == p.rt_data.output@[j].id,
                    decreases n - k,
                {
                    ids.push(p.rt_data.output[k].id);
                    k += 1;
                }
                proof {
                    assert(ids@ =~= self.sender_ids_seq());
                }
            },
            Component::Switch(s) => {
                let n = s.rt_data.senders.len();
                let mut k: usize = 0;
                while k < n
                    invariant
                        n == s.rt_data.senders@.len(),
                        k <= n,
                        ids@.len() == k,
                        forall|j: int| 0 <= j < k ==> ids@[j] == s.rt_data.senders@[j].id,
                    decreases n - k,
                {
                    ids.push(s.rt_data.senders[k].id);
                    k += 1;
                }
                proof {
                    assert(ids@ =~= self.sender_ids_seq());
                }
            },
        }
        ids
    }

    /// The channels this component receives on, as a list.
    pub fn receiver_ids(&self) -> (ids: Vec<usize>)
        ensures
            ids@ == self.receiver_ids_seq(),
    {
        let mut ids: Vec<usize> = Vec::new();
        match self {
            Component::Generator(_) => {
                proof {
                    assert(ids@ =~= self.receiver_ids_seq());
                }
            },
            Component::Checker(c) => {
                ids.push(c.receiver.id);
                proof {
                    assert(ids@ =~= self.receiver_ids_seq());
                }
            },
            Component::Pcu(p) => {
                let n = p.rt_data.input.len();
                let mut k: usize = 0;
                while k < n
                    invariant
                        n == p.rt_data.input@.len(),
                        k <= n,
                        ids@.len() == k,
                        forall|j: int| 0 <= j < k ==> ids@[j] == p.rt_data.input@[j].id,
                    decreases n - k,
                {
                    ids.push(p.rt_data.input[k].id);
                    k += 1;
                }
                proof {
                    assert(ids@ =~= self.receiver_ids_seq());
                }
            },
            Component::Switch(s) => {
                let n = s.rt_data.receivers.len();
                let mut k: usize = 0;
                while k < n
                    invariant
                        n == s.rt_data.receivers@.len(),
                        k <= n,
                        ids@.len() == k,
                        forall|j: int| 0 <= j < k ==> ids@[j] == s.rt_data.receivers@[j].id,
                    decreases n - k,
                {
                    ids.push(s.rt_data.receivers[k].id);
                    k += 1;
                }
                proof {
                    assert(ids@ =~= self.receiver_ids_seq());
                }
            },
        }
        ids
    }

    /// Give the component one unit of work. Well-formedness, the endpoint
    /// bounds and the endpoints themselves are preserved, the channel count is
    /// untouched, and the virtual clock never goes backwards.
    pub fn step(&mut self, chs: &mut Vec<Channel>) -> (r: StepResult)
        requires
            old(self).wf(),
            old(self).ids_ok(old(chs)@.len() as int),
        ensures
            final(self).wf(),
            final(chs)@.len() == old(chs)@.len(),
            final(self).ids_ok(old(chs)@.len() as int),
            final(self).clock() >= old(self).clock(),
            final(self).sender_ids_seq() == old(self).sender_ids_seq(),
            final(self).receiver_ids_seq() == old(self).receiver_ids_seq(),
            r is Finished ==> final(self).terminated(),
    {
        match self {
            Component::Generator(g) => g.step(chs),
            Component::Checker(c) => c.step(chs),
            Component::Pcu(p) => p.step(chs),
            Component::Switch(s) => s.step(chs),
        }
    }
}

/// Bounds on endpoint ids transfer to the id lists.
pub proof fn lemma_ids_in_range(c: Component, n: int)
    requires
        c.ids_ok(n),
    ensures
        forall|j: int|
            0 <= j < c.sender_ids_seq().len() ==> (#[trigger] c.sender_ids_seq()[j]) < n,
        forall|j: int|
            0 <= j < c.receiver_ids_seq().len() ==> (#[trigger] c.receiver_ids_seq()[j]) < n,
{
    match c {
        Component::Generator(_) => (),
        Component::Checker(_) => (),
        Component::Pcu(p) => {
            assert forall|j: int|
                0 <= j < c.sender_ids_seq().len() implies (#[trigger] c.sender_ids_seq()[j])
                < n by {
                assert(c.sender_ids_seq()[j] == p.rt_data.output@[j].id);
            }
            assert forall|j: int|
                0 <= j < c.receiver_ids_seq().len() implies (#[trigger] c.receiver_ids_seq()[j])
                < n by {
                assert(c.receiver_ids_seq()[j] == p.rt_data.input@[j].id);
            }
        },
        Component::Switch(s) => {
            assert forall|j: int|
                0 <= j < c.sender_ids_seq().len() implies (#[trigger] c.sender_ids_seq()[j])
                < n by {
                assert(c.sender_ids_seq()[j] == s.rt_data.senders@[j].id);
            }
            assert forall|j: int|
                0 <= j < c.receiver_ids_seq().len() implies (#[trigger] c.receiver_ids_seq()[j])
                < n by {
                assert(c.receiver_ids_seq()[j] == s.rt_data.receivers@[j].id);
            }
        },
    }
}

/// And back: in-range id lists establish the endpoint bounds.
pub proof fn lemma_ids_ok_from_lists(c: Component, n: int)
    requires
        forall|j: int|
            0 <= j < c.sender_ids_seq().len() ==> (#[trigger] c.sender_ids_seq()[j]) < n,
        forall|j: int|
            0 <= j < c.receiver_ids_seq().len() ==> (#[trigger] c.receiver_ids_seq()[j]) < n,
    ensures
        c.ids_ok(n),
{
    match c {
        Component::Generator(g) => {
            assert(c.sender_ids_seq()[0] == g.sender.id);
        },
        Component::Checker(ck) => {
            assert(c.receiver_ids_seq()[0] == ck.receiver.id);
        },
        Component::Pcu(p) => {
            assert forall|k: int|
                0 <= k < p.rt_data.output@.len() implies (#[trigger] p.rt_data.output@[k].id)
                < n by {
                assert(c.sender_ids_seq()[k] == p.rt_data.output@[k].id);
            }
            assert forall|k: int|
                0 <= k < p.rt_data.input@.len() implies (#[trigger] p.rt_data.input@[k].id)
                < n by {
                assert(c.receiver_ids_seq()[k] == p.rt_data.input@[k].id);
            }
        },
        Component::Switch(s) => {
            assert forall|k: int|
                0 <= k < s.rt_data.senders@.len() implies (#[trigger] s.rt_data.senders@[k].id)
                < n by {
                assert(c.sender_ids_seq()[k] == s.rt_data.senders@[k].id);
            }
            assert forall|k: int|
                0 <= k < s.rt_data.receivers@.len() implies (#[trigger] s.rt_data.receivers@[k].id)
                < n by {
                assert(c.receiver_ids_seq()[k] == s.rt_data.receivers@[k].id);
            }
        },
    }
}


/// How many entries of `ids` name channel `ch`.
pub open spec fn count_in(ids: Seq<usize>, ch: usize) -> nat
    decreases ids.len(),
{
    if ids.len() == 0 {
        0
    } else {
        count_in(ids.drop_last(), ch) + if ids.last() == ch {
            1nat
        } else {
            0nat
        }
    }
}

/// How many sending endpoints across all components name channel `ch`.
pub open spec fn sends_count(cs: Seq<Component>, ch: usize) -> nat
    decreases cs.len(),
{
    if cs.len() == 0 {
        0
    } else {
        sends_count(cs.drop_last(), ch) + count_in(cs.last().sender_ids_seq(), ch)
    }
}

/// How many receiving endpoints across all components name channel `ch`.
pub open spec fn recvs_count(cs: Seq<Component>, ch: usize) -> nat
    decreases cs.len(),
{
    if cs.len() == 0 {
        0
    } else {
        recvs_count(cs.drop_last(), ch) + count_in(cs.last().receiver_ids_seq(), ch)
    }
}

/// The wiring is sound: every endpoint names a real channel, and every channel
/// is attached to exactly one sending and exactly one receiving endpoint.
pub open spec fn wiring_ok(cs: Seq<Component>, nch: nat) -> bool {
    &&& forall|i: int, j: int|
        0 <= i < cs.len() && 0 <= j < cs[i].sender_ids_seq().len() ==> (
        #[trigger] cs[i].sender_ids_seq()[j]) < nch
    &&& forall|i: int, j: int|
        0 <= i < cs.len() && 0 <= j < cs[i].receiver_ids_seq().len() ==> (
        #[trigger] cs[i].receiver_ids_seq()[j]) < nch
    &&& forall|ch: usize|
        ch < nch ==> #[trigger] sends_count(cs, ch) == 1 && recvs_count(cs, ch) == 1
}

/// Taking one more entry adds its contribution to the tally.
pub proof fn lemma_count_in_extend(ids: Seq<usize>, k: int, ch: usize)
    requires
        0 <= k < ids.len(),
    ensures
        count_in(ids.take(k + 1), ch) == count_in(ids.take(k), ch) + if ids[k] == ch {
            1nat
        } else {
            0nat
        },
{
    assert(ids.take(k + 1).drop_last() =~= ids.take(k));
    assert(ids.take(k + 1).last() == ids[k]);
}

/// A prefix never counts more than the whole list.
pub proof fn lemma_count_in_take_le(ids: Seq<usize>, k: int, ch: usize)
    requires
        0 <= k <= ids.len(),
    ensures
        count_in(ids.take(k), ch) <= count_in(ids, ch),
    decreases ids.len() - k,
{
    if k == ids.len() {
        assert(ids.take(k) =~= ids);
    } else {
        lemma_count_in_extend(ids, k, ch);
        lemma_count_in_take_le(ids, k + 1, ch);
    }
}

/// Taking one more component adds its endpoints' contribution to the tally.
pub proof fn lemma_sends_extend(cs: Seq<Component>, i: int, ch: usize)
    requires
        0 <= i < cs.len(),
    ensures
        sends_count(cs.take(i + 1), ch) == sends_count(cs.take(i), ch) + count_in(
            cs[i].sender_ids_seq(),
            ch,
        ),
        recvs_count(cs.take(i + 1), ch) == recvs_count(cs.take(i), ch) + count_in(
            cs[i].receiver_ids_seq(),
            ch,
        ),
{
    assert(cs.take(i + 1).drop_last() =~= cs.take(i));
    assert(cs.take(i + 1).last() == cs[i]);
}

/// A prefix of the components never counts more than all of them.
pub proof fn lemma_sends_take_le(cs: Seq<Component>, i: int, ch: usize)
    requires
        0 <= i <= cs.len(),
    ensures
        sends_count(cs.take(i), ch) <= sends_count(cs, ch),
        recvs_count(cs.take(i), ch) <= recvs_count(cs, ch),
    decreases cs.len() - i,
{
    if i == cs.len() {
        assert(cs.take(i) =~= cs);
    } else {
        lemma_sends_extend(cs, i, ch);
        lemma_sends_take_le(cs, i + 1, ch);
    }
}

/// Record one component's endpoint list into the per-channel tallies: `true`
/// exactly when every listed id names a real channel and no tally passes one.
fn tally_once(counts: &mut Vec<usize>, ids: &Vec<usize>) -> (ok: bool)
    requires
        forall|ch: usize|
            ch < old(counts)@.len() ==> (#[trigger] old(counts)@[ch as int]) <= 1,
    ensures
        final(counts)@.len() == old(counts)@.len(),
        ok <==> ((forall|j: int| 0 <= j < ids@.len() ==> (#[trigger] ids@[j]) < old(counts)@.len())
            && (forall|ch: usize|
            ch < old(counts)@.len() ==> old(counts)@[ch as int] + #[trigger] count_in(ids@, ch)
                <= 1)),
        ok ==> forall|ch: usize|
            ch < final(counts)@.len() ==> (#[trigger] final(counts)@[ch as int]) == old(
                counts,
            )@[ch as int] + count_in(ids@, ch),
{
    let n = counts.len();
    let mut k: usize = 0;
    while k < ids.len()
        invariant
            counts@.len() == n,
            n == old(counts)@.len(),
            k <= ids@.len(),
            forall|j: int| 0 <= j < k ==> (#[trigger] ids@[j]) < n,
            forall|ch: usize|
                ch < n ==> (#[trigger] counts@[ch as int]) == old(counts)@[ch as int] + count_in(
                    ids@.take(k as int),
                    ch,
                ),
            forall|ch: usize| ch < n ==> counts@[ch as int] <= 1,
        decreases ids@.len() - k,
    {
        let id = ids[k];
        if !(id < n) {
            proof {
                assert(!(ids@[k as int] < n));
            }
            return false;
        }
        if counts[id] != 0 {
            proof {
                lemma_count_in_extend(ids@, k as int, id);
                lemma_count_in_take_le(ids@, k as int + 1, id);
                assert(old(counts)@[id as int] + count_in(ids@, id) >= 2);
            }
            return false;
        }
        counts[id] = 1;
        proof {
            assert forall|ch: usize|
                ch < n implies (#[trigger] counts@[ch as int]) == old(counts)@[ch as int]
                + count_in(ids@.take(k as int + 1), ch) by {
                lemma_count_in_extend(ids@, k as int, ch);
            }
        }
        k += 1;
    }
    proof {
        assert(ids@.take(ids@.len() as int) =~= ids@);
        assert forall|ch: usize|
            ch < n implies old(counts)@[ch as int] + #[trigger] count_in(ids@, ch) <= 1 by {
            assert(counts@[ch as int] == old(counts)@[ch as int] + count_in(
                ids@.take(ids@.len() as int),
                ch,
            ));
        }
        assert forall|ch: usize|
            ch < n implies (#[trigger] counts@[ch as int]) == old(counts)@[ch as int] + count_in(
            ids@,
            ch,
        ) by {
            assert(counts@[ch as int] == old(counts)@[ch as int] + count_in(
                ids@.take(ids@.len() as int),
                ch,
            ));
        }
    }
    true
}

/// An initialized program: validated components over a fixed set of channels.
pub struct Program {
    pub channels: Vec<Channel>,
    pub components: Vec<Component>,
}

impl Program {
    /// Every component is well-formed and names only real channels.
    pub open spec fn wf(self) -> bool {
        forall|i: int|
            0 <= i < self.components@.len() ==> (#[trigger] self.components@[i]).wf()
                && self.components@[i].ids_ok(self.channels@.len() as int)
    }
}

/// The outcome of a run: the faults it recorded and the global maximum
/// virtual time any component reached, alongside the final components.
pub struct Executed {
    pub failures: Vec<Fault>,
    pub elapsed: u64,
    pub components: Vec<Component>,
}

impl Executed {
    /// The run passed: no fault and no check mismatch was recorded.
    pub fn passed(&self) -> (r: bool)
        ensures
            r == (self.failures@.len() == 0),
    {
        self.failures.len() == 0
    }

    /// The global maximum virtual time reached.
    pub fn elapsed_cycles(&self) -> (r: Option<u64>)
        ensures
            r == Some(self.elapsed),
    {
        Some(self.elapsed)
    }

    /// The faults the run recorded.
    pub fn dump_failures(&self) -> (r: &Vec<Fault>)
        ensures
            r@ == self.failures@,
    {
        &self.failures
    }
}

/// Assembles a program: creates channels and registers components, then
/// validates the wiring.
pub struct ProgramBuilder {
    pub channels: Vec<Channel>,
    pub components: Vec<Component>,
}

impl Default for ProgramBuilder {
    /// An empty program: no channels, no components.
    fn default() -> (r: ProgramBuilder)
        ensures
            r.channels@.len() == 0,
            r.components@.len() == 0,
    {
        ProgramBuilder { channels: Vec::new(), components: Vec::new() }
    }
}

impl ProgramBuilder {
    /// A fresh bounded channel of the given capacity; the returned halves
    /// carry the new channel's id.
    pub fn bounded(&mut self, capacity: usize) -> (pair: (Sender, Receiver))
        ensures
            final(self).channels@.len() == old(self).channels@.len() + 1,
            forall|j: int|
                0 <= j < old(self).channels@.len() ==> final(self).channels@[j] == old(
                    self,
                ).channels@[j],
            pair.0.id == old(self).channels@.len(),
            pair.1.id == old(self).channels@.len(),
            final(self).channels@[old(self).channels@.len() as int].queue@.len() == 0,
            final(self).channels@[old(self).channels@.len() as int].capacity == capacity,
            !final(self).channels@[old(self).channels@.len() as int].closed,
            final(self).components == old(self).components,
    {
        let id = self.channels.len();
        self.channels.push(Channel::new(capacity));
        (Sender { id }, Receiver { id })
    }

    /// A fresh channel with no practical bound.
    pub fn unbounded(&mut self) -> (pair: (Sender, Receiver))
        ensures
            final(self).channels@.len() == old(self).channels@.len() + 1,
            forall|j: int|
                0 <= j < old(self).channels@.len() ==> final(self).channels@[j] == old(
                    self,
                ).channels@[j],
            pair.0.id == old(self).channels@.len(),
            pair.1.id == old(self).channels@.len(),
            final(self).channels@[old(self).channels@.len() as int].queue@.len() == 0,
            final(self).channels@[old(self).channels@.len() as int].capacity == usize::MAX,
            !final(self).channels@[old(self).channels@.len() as int].closed,
            final(self).components == old(self).components,
    {
        self.bounded(usize::MAX)
    }

    /// Register a component.
    pub fn add_child(&mut self, c: Component)
        ensures
            final(self).components@ == old(self).components@.push(c),
            final(self).channels == old(self).channels,
    {
        self.components.push(c);
    }

    /// Validate the program: every component must be well-formed, and every
    /// channel must be attached to exactly one sending and exactly one
    /// receiving component. Succeeds exactly on those programs.
    pub fn initialize(self) -> (r: Result<Program, ConfigError>)
        ensures
            r is Ok <==> ((forall|i: int|
                0 <= i < self.components@.len() ==> (#[trigger] self.components@[i]).wf())
                && wiring_ok(self.components@, self.channels@.len() as nat)),
            r matches Ok(p) ==> p.wf() && p.channels == self.channels && p.components
                == self.components,
    {
        let ghost cs = self.components@;
        let nch = self.channels.len();
        let ncomp = self.components.len();
        let mut scount: Vec<usize> = vec![0usize; nch];
        let mut rcount: Vec<usize> = vec![0usize; nch];
        let mut idx: usize = 0;
        while idx < ncomp
            invariant
                cs == self.components@,
                nch == self.channels@.len(),
                ncomp == self.components@.len(),
                idx <= ncomp,
                scount@.len() == nch,
                rcount@.len() == nch,
                forall|i: int| 0 <= i < idx ==> (#[trigger] cs[i]).wf(),
                forall|i: int| 0 <= i < idx ==> (#[trigger] cs[i]).ids_ok(nch as int),
                forall|ch: usize|
                    ch < nch ==> (#[trigger] scount@[ch as int]) == sends_count(
                        cs.take(idx as int),
                        ch,
                    ) && scount@[ch as int] <= 1,
                forall|ch: usize|
                    ch < nch ==> (#[trigger] rcount@[ch as int]) == recvs_count(
                        cs.take(idx as int),
                        ch,
                    ) && rcount@[ch as int] <= 1,
            decreases ncomp - idx,
        {
            let c = &self.components[idx];
            if !c.wf_check() {
                return Err(ConfigError::BadWiring);
            }
            let sids = c.sender_ids();
            let ghost s0 = scount@;
            if !tally_once(&mut scount, &sids) {
                proof {
                    if wiring_ok(cs, nch as nat) {
                        assert forall|j: int| 0 <= j < sids@.len() implies (#[trigger] sids@[j])
                            < nch by {
                            assert(cs[idx as int].sender_ids_seq()[j] < nch);
                        }
                        assert forall|ch: usize|
                            ch < nch implies s0[ch as int] + #[trigger] count_in(sids@, ch)
                            <= 1 by {
                            lemma_sends_extend(cs, idx as int, ch);
                            lemma_sends_take_le(cs, idx as int + 1, ch);
                        }
                        assert(false);
                    }
                }
                return Err(ConfigError::BadWiring);
            }
            let rids = c.receiver_ids();
            let ghost r0 = rcount@;
            if !tally_once(&mut rcount, &rids) {
                proof {
                    if wiring_ok(cs, nch as nat) {
                        assert forall|j: int| 0 <= j < rids@.len() implies (#[trigger] rids@[j])
                            < nch by {
                            assert(cs[idx as int].receiver_ids_seq()[j] < nch);
                        }
                        assert forall|ch: usize|
                            ch < nch implies r0[ch as int] + #[trigger] count_in(rids@, ch)
                            <= 1 by {
                            lemma_sends_extend(cs, idx as int, ch);
                            lemma_sends_take_le(cs, idx as int + 1, ch);
                        }
                        assert(false);
                    }
                }
                return Err(ConfigError::BadWiring);
            }
            proof {
                assert forall|ch: usize|
                    ch < nch implies (#[trigger] scount@[ch as int]) == sends_count(
                    cs.take(idx as int + 1),
                    ch,
                ) && scount@[ch as int] <= 1 by {
                    lemma_sends_extend(cs, idx as int, ch);
                }
                assert forall|ch: usize|
                    ch < nch implies (#[trigger] rcount@[ch as int]) == recvs_count(
                    cs.take(idx as int + 1),
                    ch,
                ) && rcount@[ch as int] <= 1 by {
                    lemma_sends_extend(cs, idx as int, ch);
                }
                lemma_ids_ok_from_lists(cs[idx as int], nch as int);
            }
            idx += 1;
        }
        proof {
            assert(cs.take(ncomp as int) =~= cs);
            assert forall|c2: usize|
                c2 < nch implies (#[trigger] scount@[c2 as int]) == sends_count(cs, c2)
                && rcount@[c2 as int] == recvs_count(cs, c2) by {
                assert(scount@[c2 as int] == sends_count(cs.take(ncomp as int), c2));
                assert(rcount@[c2 as int] == recvs_count(cs.take(ncomp as int), c2));
            }
        }
        let mut ch: usize = 0;
        while ch < nch
            invariant
                cs == self.components@,
                nch == self.channels@.len(),
                ncomp == self.components@.len(),
                scount@.len() == nch,
                rcount@.len() == nch,
                ch <= nch,
                forall|i: int| 0 <= i < ncomp ==> (#[trigger] cs[i]).wf(),
                forall|i: int| 0 <= i < ncomp ==> (#[trigger] cs[i]).ids_ok(nch as int),
                forall|c2: usize|
                    c2 < nch ==> (#[trigger] scount@[c2 as int]) == sends_count(cs, c2)
                        && rcount@[c2 as int] == recvs_count(cs, c2),
                forall|c2: usize|
                    c2 < ch ==> #[trigger] sends_count(cs, c2) == 1 && recvs_count(cs, c2) == 1,
            decreases nch - ch,
        {
            if scount[ch] != 1 || rcount[ch] != 1 {
                proof {
                    assert(!(sends_count(cs, ch) == 1 && recvs_count(cs, ch) == 1));
                }
                return Err(ConfigError::BadWiring);
            }
            proof {
                assert(scount@[ch as int] == sends_count(cs, ch));
                assert(rcount@[ch as int] == recvs_count(cs, ch));
                assert forall|c2: usize|
                    c2 < ch + 1 implies #[trigger] sends_count(cs, c2) == 1 && recvs_count(cs, c2)
                    == 1 by {
                    if c2 < ch {
                    } else {
                        assert(c2 == ch);
                    }
                }
            }
            ch += 1;
        }
        proof {
            assert forall|i: int, j: int|
                0 <= i < cs.len() && 0 <= j < cs[i].sender_ids_seq().len() implies (
            #[trigger] cs[i].sender_ids_seq()[j]) < nch by {
                lemma_ids_in_range(cs[i], nch as int);
            }
            assert forall|i: int, j: int|
                0 <= i < cs.len() && 0 <= j < cs[i].receiver_ids_seq().len() implies (
            #[trigger] cs[i].receiver_ids_seq()[j]) < nch by {
                lemma_ids_in_range(cs[i], nch as int);
            }
            assert(wiring_ok(cs, nch as nat));
        }
        Ok(Program { channels: self.channels, components: self.components })
    }
}

impl Program {
    /// Run the program to completion: round-robin over the components, giving
    /// each one unit of work per round, until every component has terminated
    /// or no component can progress (a deadlock, recorded as a fault). After
    /// each unit of work the component's clock is noted on its outgoing
    /// channels, so that empty peeks can bound what the producer might still
    /// send. Returns the recorded faults and the global maximum virtual time:
    /// no component's final clock exceeds `elapsed`, and some component
    /// reached it (unless every clock is zero). A run that records no fault
    /// has run the program to completion: every component has terminated.
    pub fn run(self) -> (r: Executed)
        requires
            self.wf(),
        ensures
            r.failures@.len() == 0 ==> forall|i: int|
                0 <= i < r.components@.len() ==> (#[trigger] r.components@[i]).terminated(),
            r.components@.len() == self.components@.len(),
            forall|i: int|
                0 <= i < r.components@.len() ==> (#[trigger] r.components@[i]).sender_ids_seq()
                    == self.components@[i].sender_ids_seq() && r.components@[i].receiver_ids_seq()
                    == self.components@[i].receiver_ids_seq(),
            forall|i: int|
                0 <= i < r.components@.len() ==> (#[trigger] r.components@[i]).clock() <= r.elapsed,
            r.elapsed == 0 || exists|i: int|
                0 <= i < r.components@.len() && (#[trigger] r.components@[i]).clock() == r.elapsed,
    {
        let ghost cs0 = self.components@;
        let mut channels = self.channels;
        let mut components = self.components;
        let n = components.len();
        let nch = channels.len();
        let mut done: Vec<bool> = vec![false; n];
        let mut failures: Vec<Fault> = Vec::new();
        let mut running = true;
        let mut fuel: u64 = u64::MAX;
        while running && fuel > 0
            invariant
                n == components@.len(),
                nch == channels@.len(),
                done@.len() == n,
                cs0.len() == n,
                forall|i: int|
                    0 <= i < n && done@[i] ==> (#[trigger] components@[i]).terminated()
                        || failures@.len() > 0,
                !running ==> ((forall|i: int| 0 <= i < n ==> done@[i]) || failures@.len() > 0),
                (fuel == 0 && running) ==> failures@.len() > 0,
                forall|i: int|
                    0 <= i < n ==> (#[trigger] components@[i]).wf() && components@[i].ids_ok(
                        nch as int,
                    ),
                forall|i: int|
                    0 <= i < n ==> (#[trigger] components@[i]).sender_ids_seq()
                        == cs0[i].sender_ids_seq() && components@[i].receiver_ids_seq()
                        == cs0[i].receiver_ids_seq(),
            decreases fuel,
        {
            fuel = fuel - 1;
            let mut progressed = false;
            let mut all_done = true;
            let mut idx: usize = 0;
            while idx < n
                invariant
                    n == components@.len(),
                    nch == channels@.len(),
                    done@.len() == n,
                    cs0.len() == n,
                    idx <= n,
                    forall|i: int|
                        0 <= i < n && done@[i] ==> (#[trigger] components@[i]).terminated()
                            || failures@.len() > 0,
                    all_done ==> forall|j: int| 0 <= j < idx ==> done@[j],
                    forall|i: int|
                        0 <= i < n ==> (#[trigger] components@[i]).wf() && components@[i].ids_ok(
                            nch as int,
                        ),
                    forall|i: int|
                        0 <= i < n ==> (#[trigger] components@[i]).sender_ids_seq()
                            == cs0[i].sender_ids_seq() && components@[i].receiver_ids_seq()
                            == cs0[i].receiver_ids_seq(),
                decreases n - idx,
            {
                if !done[idx] {
                    all_done = false;
                    let ghost pre = components@;
                    let mut c = components.remove(idx);
                    let res = c.step(&mut channels);
                    let sids = c.sender_ids();
                    let t = c.current_time();
                    proof {
                        lemma_ids_in_range(c, nch as int);
                    }
                    let mut k: usize = 0;
                    while k < sids.len()
                        invariant
                            nch == channels@.len(),
                            k <= sids@.len(),
                            forall|j: int|
                                0 <= j < sids@.len() ==> (#[trigger] sids@[j]) < nch,
                        decreases sids@.len() - k,
                    {
                        note_sender_time(&mut channels, sids[k], t);
                        k += 1;
                    }
                    components.insert(idx, c);
                    proof {
                        assert(components@ =~= pre.update(idx as int, c));
                    }
                    match res {
                        StepResult::Progress => {
                            progressed = true;
                        },
                        StepResult::Blocked => (),
                        StepResult::Finished => {
                            done[idx] = true;
                            progressed = true;
                        },
                        StepResult::Faulted(f) => {
                            failures.push(f);
                            done[idx] = true;
                            progressed = true;
                        },
                    }
                }
                idx += 1;
            }
            if all_done {
                running = false;
            } else if !progressed {
                failures.push(Fault::Deadlock);
                running = false;
            } else if fuel == 0 {
                failures.push(Fault::Deadlock);
            }
        }
        proof {
            if failures@.len() == 0 {
                assert(forall|i: int| 0 <= i < n ==> done@[i]);
                assert forall|i2: int| 0 <= i2 < n implies (
                #[trigger] components@[i2]).terminated() by {
                    assert(done@[i2]);
                }
            }
        }
        let mut elapsed: u64 = 0;
        let ghost mut ewit: int = 0;
        let mut i: usize = 0;
        while i < n
            invariant
                n == components@.len(),
                cs0.len() == n,
                failures@.len() == 0 ==> forall|i2: int|
                    0 <= i2 < n ==> (#[trigger] components@[i2]).terminated(),
                forall|j: int|
                    0 <= j < n ==> (#[trigger] components@[j]).sender_ids_seq()
                        == cs0[j].sender_ids_seq() && components@[j].receiver_ids_seq()
                        == cs0[j].receiver_ids_seq(),
                i <= n,
                forall|j: int| 0 <= j < i ==> (#[trigger] components@[j]).clock() <= elapsed,
                elapsed == 0 || (0 <= ewit < i && components@[ewit].clock() == elapsed),
            decreases n - i,
        {
            let t = components[i].current_time();
            if t > elapsed {
                elapsed = t;
                proof {
                    ewit = i as int;
                }
            }
            i += 1;
        }
        let result = Executed { failures, elapsed, components };
        proof {
            if result.elapsed != 0 {
                assert(0 <= ewit < result.components@.len() && result.components@[ewit].clock()
                    == result.elapsed);
                assert(exists|i2: int|
                    0 <= i2 < result.components@.len() && (#[trigger] result.components@[i2]).clock()
                        == result.elapsed);
            }
        }
        result
    }
}

} // verus!
