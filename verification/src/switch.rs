//! The crossbar switch: backpressured, cycle-accurate routing of messages
//! between channels under a static routing table.

use vstd::prelude::*;

use std::collections::HashMap;

use crate::channel::{dequeue, close, enqueue, peek, peek_spec, Channel, ChannelElement, DequeueResult, PeekResult, Receiver, Sender};
use crate::errors::{ConfigError, Fault, StepResult};
use crate::pcu::PCUData;
use crate::pipeline_stage::copy_row;
use crate::scalar::Scalar;

verus! {

broadcast use vstd::std_specs::hash::group_hash_axioms;

/// How the switch schedules its work each cycle: dequeue one element and
/// enqueue it to its single target; dequeue one element and enqueue it to all
/// of its targets, one per cycle; or dequeue from every input at once (whose
/// conflict resolution is an open design point, so running in this mode is a
/// fatal fault).
#[derive(Clone, Copy, Debug, PartialEq, Eq, Structural)]
pub enum SwitchMode {
    SingleEnqueueSingleDequeue,
    MultiEnqueueSingleDequeue,
    MultiEnqueueMultiDequeue,
}

/// Hardware shape of a switch: SIMD width and datatype width of the messages
/// it carries, its port counts, its scheduling mode, and the per-hop routing
/// delay `delay[input][output]` in cycles.
#[derive(Clone, Debug)]
pub struct HwConfig {
    pub simd: usize,
    pub datatype_width: usize,
    pub num_inputs: usize,
    pub num_outputs: usize,
    pub mode: SwitchMode,
    pub delay: Vec<Vec<u64>>,
}

/// Runtime configuration: the static routing table from input index to the
/// ordered list of output indices that input fans out to. Inputs absent from
/// the table are unrouted; data arriving on one is a fatal fault.
pub struct RtConfig {
    pub routing_table: HashMap<usize, Vec<usize>>,
}

/// The switch's attached channel endpoints.
pub struct RtData {
    pub receivers: Vec<Receiver>,
    pub senders: Vec<Sender>,
}

/// Whether a peeked channel can still yield data.
pub open spec fn is_open(p: PeekResult) -> bool {
    !(p is Closed)
}

/// The time an open peek reports: the head element's timestamp, or the
/// earliest time an empty channel's producer might still send at.
pub open spec fn ptime(p: PeekResult) -> u64 {
    match p {
        PeekResult::Something(t) => t,
        PeekResult::Nothing(t) => t,
        PeekResult::Closed => arbitrary(),
    }
}

/// `m` is the minimum time over all open peeks.
pub open spec fn min_open(peeks: Seq<PeekResult>, m: u64) -> bool {
    &&& exists|j: int|
        0 <= j < peeks.len() && is_open(#[trigger] peeks[j]) && ptime(peeks[j]) == m
    &&& forall|j: int| 0 <= j < peeks.len() && is_open(#[trigger] peeks[j]) ==> m <= ptime(peeks[j])
}

/// Input `i` holds an element that is available now: its head element's time
/// is no later than any open peer's time.
pub open spec fn min_avail(peeks: Seq<PeekResult>, i: int) -> bool {
    &&& 0 <= i < peeks.len()
    &&& peeks[i] is Something
    &&& forall|j: int|
        0 <= j < peeks.len() && is_open(#[trigger] peeks[j]) ==> ptime(peeks[i]) <= ptime(peeks[j])
}

/// What the first-available policy decides from one round of peeks.
#[derive(Clone, Copy, Debug, PartialEq, Eq, Structural)]
pub enum Selection {
    /// Every input is closed: the switch terminates.
    AllClosed,
    /// Some input is open but none is available at the minimum time (all
    /// minimum peeks are `Nothing`): the switch must drive its local time
    /// forward one cycle and peek again. Carries that minimum time.
    Advance(u64),
    /// Take the head element of this input: the lowest-indexed input whose
    /// element is available at the minimum time over all open inputs.
    Take(usize),
}

/// The first-available input selection policy: find the minimum time over all
/// non-closed peeks; if some peek holds an element at that time, take the
/// lowest-indexed such input; if every input is closed, terminate; otherwise
/// advance local time by one cycle and try again.
pub fn select_input(peeks: &Vec<PeekResult>) -> (s: Selection)
    ensures
        (s is AllClosed) <==> (forall|j: int|
            0 <= j < peeks@.len() ==> (#[trigger] peeks@[j]) is Closed),
        s matches Selection::Take(i) ==> min_avail(peeks@, i as int) && (forall|j: int|
            0 <= j < i ==> !min_avail(peeks@, j)),
        (exists|i: int| min_avail(peeks@, i)) <==> (s is Take),
        s matches Selection::Advance(m) ==> min_open(peeks@, m),
{
    let n = peeks.len();
    let mut m: u64 = 0;
    let mut found: bool = false;
    let ghost mut wit: int = 0;
    let mut k: usize = 0;
    while k < n
        invariant
            n == peeks@.len(),
            k <= n,
            found <==> exists|j: int| 0 <= j < k && is_open(#[trigger] peeks@[j]),
            found ==> 0 <= wit < k && is_open(peeks@[wit]) && ptime(peeks@[wit]) == m,
            forall|j: int| 0 <= j < k && is_open(#[trigger] peeks@[j]) ==> m <= ptime(peeks@[j]),
        decreases n - k,
    {
        match peeks[k] {
            PeekResult::Closed => (),
            PeekResult::Something(t) => {
                if !found || t < m {
                    m = t;
                    found = true;
                    proof {
                        wit = k as int;
                    }
                }
            },
            PeekResult::Nothing(t) => {
                if !found || t < m {
                    m = t;
                    found = true;
                    proof {
                        wit = k as int;
                    }
                }
            },
        }
        k += 1;
    }
    if !found {
        return Selection::AllClosed;
    }
    let mut k2: usize = 0;
    while k2 < n
        invariant
            n == peeks@.len(),
            k2 <= n,
            0 <= wit < n && is_open(peeks@[wit]) && ptime(peeks@[wit]) == m,
            forall|j: int| 0 <= j < n && is_open(#[trigger] peeks@[j]) ==> m <= ptime(peeks@[j]),
            forall|j: int| 0 <= j < k2 ==> !min_avail(peeks@, j),
        decreases n - k2,
    {
        let hit = match peeks[k2] {
            PeekResult::Something(t) => t == m,
            _ => false,
        };
        if hit {
            proof {
                assert(min_avail(peeks@, k2 as int));
            }
            return Selection::Take(k2);
        }
        proof {
            if peeks@[k2 as int] is Something {
                assert(is_open(peeks@[wit]) && ptime(peeks@[wit]) == m);
                assert(ptime(peeks@[k2 as int]) > m);
                assert(!min_avail(peeks@, k2 as int));
            }
        }
        k2 += 1;
    }
    proof {
        assert forall|i: int| !min_avail(peeks@, i) by {
            if 0 <= i < peeks@.len() {
            }
        }
    }
    Selection::Advance(m)
}

/// One planned enqueue of a forwarded element: the output index and the
/// timestamp the element will carry.
#[derive(Clone, Copy, Debug, PartialEq, Eq, Structural)]
pub struct Outgoing {
    pub out: usize,
    pub time: u64,
}

/// The timestamp of the `k`-th enqueue when an element is forwarded at local
/// time `now` over a hop of the given delay: in the one-enqueue-per-cycle mode
/// the `k`-th enqueue happens `k` cycles later.
pub open spec fn plan_time(mode: SwitchMode, now: u64, k: int, d: int) -> int {
    match mode {
        SwitchMode::SingleEnqueueSingleDequeue => now + d,
        SwitchMode::MultiEnqueueSingleDequeue => now + k + d,
        SwitchMode::MultiEnqueueMultiDequeue => arbitrary(),
    }
}

/// The switch's local time after it has forwarded one element to `len`
/// targets starting at `now`.
pub open spec fn plan_end(mode: SwitchMode, now: u64, len: int) -> int {
    match mode {
        SwitchMode::SingleEnqueueSingleDequeue => now + 1,
        SwitchMode::MultiEnqueueSingleDequeue => now + len,
        SwitchMode::MultiEnqueueMultiDequeue => arbitrary(),
    }
}

/// The full forwarding plan of one element dequeued from input `in_idx` at
/// local time `now`: the `k`-th enqueue goes to the `k`-th target of the
/// input's routing entry and is stamped `plan_time`.
pub open spec fn plan_spec(s: Switch, in_idx: usize, now: u64) -> Seq<Outgoing> {
    Seq::new(
        s.targets_of(in_idx).len(),
        |k: int|
            Outgoing {
                out: s.targets_of(in_idx)[k],
                time: plan_time(
                    s.hw_config.mode,
                    now,
                    k,
                    s.hw_config.delay@[in_idx as int]@[s.targets_of(in_idx)[k] as int] as int,
                ) as u64,
            },
    )
}

/// Whether forwarding one element from `in_idx` at local time `now` succeeds:
/// the input is routed, the scheduling mode is supported, and no planned
/// timestamp overflows.
pub open spec fn plan_ok(s: Switch, in_idx: usize, now: u64) -> bool {
    &&& s.rt_config.routing_table@.contains_key(in_idx)
    &&& !(s.hw_config.mode is MultiEnqueueMultiDequeue)
    &&& forall|k: int|
        0 <= k < s.targets_of(in_idx).len() ==> #[trigger] plan_time(
            s.hw_config.mode,
            now,
            k,
            s.hw_config.delay@[in_idx as int]@[s.targets_of(in_idx)[k] as int] as int,
        ) <= u64::MAX
    &&& plan_end(s.hw_config.mode, now, s.targets_of(in_idx).len() as int) <= u64::MAX
}

/// Forwarding plans do not depend on a switch's clock or phase: they carry
/// over to any switch with the same hardware shape and routing table.
pub proof fn lemma_plan_stable(a: Switch, b: Switch, in_idx: usize, now: u64)
    requires
        b.hw_config == a.hw_config,
        b.rt_config.routing_table@ == a.rt_config.routing_table@,
    ensures
        plan_spec(a, in_idx, now) == plan_spec(b, in_idx, now),
        plan_ok(a, in_idx, now) == plan_ok(b, in_idx, now),
        a.targets_of(in_idx) == b.targets_of(in_idx),
{
    assert(a.targets_of(in_idx) == b.targets_of(in_idx));
    assert(plan_spec(a, in_idx, now) =~= plan_spec(b, in_idx, now));
    assert forall|k: int|
        0 <= k < a.targets_of(in_idx).len() implies (#[trigger] plan_time(
        a.hw_config.mode,
        now,
        k,
        a.hw_config.delay@[in_idx as int]@[a.targets_of(in_idx)[k] as int] as int,
    )) == plan_time(
        b.hw_config.mode,
        now,
        k,
        b.hw_config.delay@[in_idx as int]@[b.targets_of(in_idx)[k] as int] as int,
    ) by {}
}

/// The round of peeks a switch sees on its inputs over the given channels.
pub open spec fn switch_peeks(s: Switch, chs: Seq<Channel>) -> Seq<PeekResult> {
    Seq::new(
        s.rt_data.receivers@.len(),
        |k: int| peek_spec(chs[s.rt_data.receivers@[k].id as int]),
    )
}

/// Switch fan-out equivalence: a forwarded element reaches exactly the outputs
/// its routing entry lists, once each and in listing order. In broadcast — a
/// single-dequeue mode whose routing entry lists several targets — every
/// listed downstream is therefore planned one enqueue of the element per
/// round, and `step` enqueues the same payload for every plan entry, so each
/// downstream receives the same sequence of payloads that arrives on the
/// input.
pub proof fn lemma_fanout(s: Switch, in_idx: usize, now: u64)
    requires
        s.cfg_wf(),
        in_idx < s.hw_config.num_inputs,
        s.rt_config.routing_table@.contains_key(in_idx),
    ensures
        plan_spec(s, in_idx, now).len() == s.targets_of(in_idx).len(),
        forall|k: int|
            0 <= k < s.targets_of(in_idx).len() ==> (#[trigger] plan_spec(s, in_idx, now)[k]).out
                == s.targets_of(in_idx)[k],
{
}

/// Switch passthrough: under one-to-one routing (a single listed target, one
/// enqueue per dequeue), the round's plan is exactly one enqueue of the
/// element to that target, stamped the local time plus the hop's delay — the
/// downstream receives exactly the input sequence, element for element.
pub proof fn lemma_passthrough(s: Switch, in_idx: usize, now: u64)
    requires
        s.cfg_wf(),
        in_idx < s.hw_config.num_inputs,
        s.rt_config.routing_table@.contains_key(in_idx),
        s.hw_config.mode is SingleEnqueueSingleDequeue,
        s.targets_of(in_idx).len() == 1,
        now + s.hw_config.delay@[in_idx as int]@[s.targets_of(in_idx)[0] as int] <= u64::MAX,
    ensures
        plan_spec(s, in_idx, now).len() == 1,
        plan_spec(s, in_idx, now)[0].out == s.targets_of(in_idx)[0],
        plan_spec(s, in_idx, now)[0].time == now + s.hw_config.delay@[in_idx as int]@[s.targets_of(
            in_idx,
        )[0] as int],
{
}

/// A cycle-accurate crossbar switch with backpressure: each round it selects
/// the first available input, dequeues one element, and forwards it to the
/// outputs its routing table lists, delayed by the per-hop routing delay.
pub struct Switch {
    pub hw_config: HwConfig,
    pub rt_config: RtConfig,
    pub rt_data: RtData,
    pub time: u64,
    pub phase: SwitchPhase,
}

/// Where a switch stands inside one routing round.
pub enum SwitchPhase {
    /// Peeking its inputs for the next element to forward.
    Route,
    /// Enqueuing a dequeued payload to the planned outputs; `pos` is the next
    /// plan entry, and `end_time` the local time after the round.
    Emit { data: Vec<Scalar>, plan: Vec<Outgoing>, end_time: u64, pos: usize },
    /// Terminated: every input was closed.
    Done,
}

impl Switch {
    /// The routing-table entry of input `i`.
    pub open spec fn targets_of(self, i: usize) -> Seq<usize> {
        self.rt_config.routing_table@[i]@
    }

    /// Configuration well-formedness: endpoint counts match the hardware
    /// shape, the delay table is `num_inputs` by `num_outputs`, and every
    /// routing entry of a real input names real outputs.
    pub open spec fn cfg_wf(self) -> bool {
        &&& self.rt_data.receivers@.len() == self.hw_config.num_inputs
        &&& self.rt_data.senders@.len() == self.hw_config.num_outputs
        &&& self.hw_config.delay@.len() == self.hw_config.num_inputs
        &&& forall|i: int|
            0 <= i < self.hw_config.num_inputs ==> (#[trigger] self.hw_config.delay@[i])@.len()
                == self.hw_config.num_outputs
        &&& forall|i: usize, k: int|
            i < self.hw_config.num_inputs && #[trigger] self.rt_config.routing_table@.contains_key(
                i,
            ) && 0 <= k < self.targets_of(i).len() ==> (#[trigger] self.targets_of(i)[k])
                < self.hw_config.num_outputs
    }

    /// Well-formedness carried across steps: the configuration invariants,
    /// plus every planned enqueue naming a real output.
    pub open spec fn wf(self) -> bool {
        &&& self.cfg_wf()
        &&& match self.phase {
            SwitchPhase::Emit { plan, pos, .. } => pos <= plan@.len() && forall|k: int|
                0 <= k < plan@.len() ==> (#[trigger] plan@[k].out) < self.hw_config.num_outputs,
            _ => true,
        }
    }

    /// Construct a switch, validating the configuration: the endpoint counts
    /// must match the hardware port counts, the delay table must be
    /// `num_inputs` by `num_outputs`, and every routing entry of a real input
    /// must name outputs in range. Entries for inputs beyond `num_inputs` are
    /// never consulted.
    pub fn new(hw_config: HwConfig, rt_config: RtConfig, receivers: Vec<Receiver>, senders: Vec<
        Sender,
    >) -> (r: Result<Switch, ConfigError>)
        ensures
            r matches Ok(s) ==> {
                &&& s.wf()
                &&& s.hw_config == hw_config
                &&& s.rt_config == rt_config
                &&& s.rt_data.receivers == receivers
                &&& s.rt_data.senders == senders
                &&& s.time == 0
                &&& s.phase is Route
            },
            r == Err::<Switch, ConfigError>(ConfigError::WrongPortCount) <==> !(receivers@.len()
                == hw_config.num_inputs && senders@.len() == hw_config.num_outputs),
            r == Err::<Switch, ConfigError>(ConfigError::BadDelayTable) <==> (receivers@.len()
                == hw_config.num_inputs && senders@.len() == hw_config.num_outputs && !(
            hw_config.delay@.len() == hw_config.num_inputs && forall|i: int|
                0 <= i < hw_config.num_inputs ==> (#[trigger] hw_config.delay@[i])@.len()
                    == hw_config.num_outputs)),
            r is Ok <==> (receivers@.len() == hw_config.num_inputs && senders@.len()
                == hw_config.num_outputs && hw_config.delay@.len() == hw_config.num_inputs && (
            forall|i: int|
                0 <= i < hw_config.num_inputs ==> (#[trigger] hw_config.delay@[i])@.len()
                    == hw_config.num_outputs) && (forall|i0: usize, k: int|
                i0 < hw_config.num_inputs && #[trigger] rt_config.routing_table@.contains_key(i0)
                    && 0 <= k < rt_config.routing_table@[i0]@.len() ==> (
                #[trigger] rt_config.routing_table@[i0]@[k]) < hw_config.num_outputs)),
    {
        if receivers.len() != hw_config.num_inputs || senders.len() != hw_config.num_outputs {
            return Err(ConfigError::WrongPortCount);
        }
        if hw_config.delay.len() != hw_config.num_inputs {
            return Err(ConfigError::BadDelayTable);
        }
        let mut i: usize = 0;
        while i < hw_config.delay.len()
            invariant
                receivers@.len() == hw_config.num_inputs,
                senders@.len() == hw_config.num_outputs,
                i <= hw_config.delay@.len(),
                forall|j: int|
                    0 <= j < i ==> (#[trigger] hw_config.delay@[j])@.len()
                        == hw_config.num_outputs,
            decreases hw_config.delay@.len() - i,
        {
            if hw_config.delay[i].len() != hw_config.num_outputs {
                return Err(ConfigError::BadDelayTable);
            }
            i += 1;
        }
        let mut p: usize = 0;
        while p < hw_config.num_inputs
            invariant
                receivers@.len() == hw_config.num_inputs,
                senders@.len() == hw_config.num_outputs,
                hw_config.delay@.len() == hw_config.num_inputs,
                forall|j: int|
                    0 <= j < hw_config.num_inputs ==> (#[trigger] hw_config.delay@[j])@.len()
                        == hw_config.num_outputs,
                p <= hw_config.num_inputs,
                forall|i0: usize, k: int|
                    i0 < p && #[trigger] rt_config.routing_table@.contains_key(i0) && 0 <= k
                        < rt_config.routing_table@[i0]@.len() ==> (
                    #[trigger] rt_config.routing_table@[i0]@[k]) < hw_config.num_outputs,
            decreases hw_config.num_inputs - p,
        {
            match rt_config.routing_table.get(&p) {
                Some(targets) => {
                    let mut k: usize = 0;
                    while k < targets.len()
                        invariant
                            receivers@.len() == hw_config.num_inputs,
                            senders@.len() == hw_config.num_outputs,
                            hw_config.delay@.len() == hw_config.num_inputs,
                            forall|j: int|
                                0 <= j < hw_config.num_inputs ==> (
                                #[trigger] hw_config.delay@[j])@.len() == hw_config.num_outputs,
                            p < hw_config.num_inputs,
                            rt_config.routing_table@.contains_key(p),
                            targets@ == rt_config.routing_table@[p]@,
                            k <= targets@.len(),
                            forall|j: int|
                                0 <= j < k ==> (#[trigger] targets@[j]) < hw_config.num_outputs,
                        decreases targets@.len() - k,
                    {
                        if !(targets[k] < hw_config.num_outputs) {
                            proof {
                                let t0 = rt_config.routing_table@[p]@[k as int];
                                assert(!(t0 < hw_config.num_outputs));
                                assert(!(forall|i0: usize, k0: int|
                                    i0 < hw_config.num_inputs
                                        && #[trigger] rt_config.routing_table@.contains_key(i0)
                                        && 0 <= k0 < rt_config.routing_table@[i0]@.len() ==> (
                                    #[trigger] rt_config.routing_table@[i0]@[k0])
                                        < hw_config.num_outputs));
                            }
                            return Err(ConfigError::BadRouting);
                        }
                        k += 1;
                    }
                },
                None => (),
            }
            p += 1;
        }
        Ok(
            Switch {
                hw_config,
                rt_config,
                rt_data: RtData { receivers, senders },
                time: 0,
                phase: SwitchPhase::Route,
            },
        )
    }

    /// Executable form of `wf`, so that a runtime can validate components it
    /// was handed without relying on how they were built.
    pub fn wf_check(&self) -> (r: bool)
        ensures
            r == self.wf(),
    {
        if self.rt_data.receivers.len() != self.hw_config.num_inputs {
            return false;
        }
        if self.rt_data.senders.len() != self.hw_config.num_outputs {
            return false;
        }
        if self.hw_config.delay.len() != self.hw_config.num_inputs {
            return false;
        }
        let mut i: usize = 0;
        while i < self.hw_config.delay.len()
            invariant
                self.hw_config.delay@.len() == self.hw_config.num_inputs,
                i <= self.hw_config.delay@.len(),
                forall|j: int|
                    0 <= j < i ==> (#[trigger] self.hw_config.delay@[j])@.len()
                        == self.hw_config.num_outputs,
            decreases self.hw_config.delay@.len() - i,
        {
            if self.hw_config.delay[i].len() != self.hw_config.num_outputs {
                return false;
            }
            i += 1;
        }
        let mut p: usize = 0;
        while p < self.hw_config.num_inputs
            invariant
                p <= self.hw_config.num_inputs,
                forall|i0: usize, k: int|
                    i0 < p && #[trigger] self.rt_config.routing_table@.contains_key(i0) && 0 <= k
                        < self.targets_of(i0).len() ==> (#[trigger] self.targets_of(i0)[k])
                        < self.hw_config.num_outputs,
            decreases self.hw_config.num_inputs - p,
        {
            match self.rt_config.routing_table.get(&p) {
                Some(targets) => {
                    let mut k: usize = 0;
                    while k < targets.len()
                        invariant
                            p < self.hw_config.num_inputs,
                            self.rt_config.routing_table@.contains_key(p),
                            targets@ == self.targets_of(p),
                            k <= targets@.len(),
                            forall|j: int|
                                0 <= j < k ==> (#[trigger] targets@[j])
                                    < self.hw_config.num_outputs,
                        decreases targets@.len() - k,
                    {
                        if !(targets[k] < self.hw_config.num_outputs) {
                            proof {
                                assert(self.targets_of(p)[k as int] == targets@[k as int]);
                                assert(!(self.targets_of(p)[k as int]
                                    < self.hw_config.num_outputs));
                                assert(!self.cfg_wf());
                            }
                            return false;
                        }
                        k += 1;
                    }
                },
                None => (),
            }
            p += 1;
        }
        match &self.phase {
            SwitchPhase::Emit { plan, pos, .. } => {
                if !(*pos <= plan.len()) {
                    return false;
                }
                let mut k: usize = 0;
                while k < plan.len()
                    invariant
                        self.phase matches SwitchPhase::Emit { plan: p0, .. } && p0 == plan,
                        k <= plan@.len(),
                        forall|j: int|
                            0 <= j < k ==> (#[trigger] plan@[j].out) < self.hw_config.num_outputs,
                    decreases plan@.len() - k,
                {
                    if !(plan[k].out < self.hw_config.num_outputs) {
                        return false;
                    }
                    k += 1;
                }
                true
            },
            _ => true,
        }
    }

    /// Plan the forwarding of one element dequeued from input `in_idx` at
    /// local time `now`: one enqueue per target in the input's routing entry,
    /// in listing order, each timestamped `plan_time` (the local time of that
    /// enqueue plus the per-hop delay), together with the local time after the
    /// round. An unrouted input, the many-to-many mode, and timestamp overflow
    /// are faults.
    pub fn plan_forward(&self, in_idx: usize, now: u64) -> (r: Result<(Vec<Outgoing>, u64), Fault>)
        requires
            self.cfg_wf(),
            in_idx < self.hw_config.num_inputs,
        ensures
            r matches Err(f) && f == Fault::UnroutedInput <==> !self.rt_config.routing_table@.contains_key(
                in_idx,
            ),
            r matches Err(f) && f == Fault::UnsupportedMode <==> self.rt_config.routing_table@.contains_key(
                in_idx,
            ) && self.hw_config.mode is MultiEnqueueMultiDequeue,
            r is Ok <==> plan_ok(*self, in_idx, now),
            r matches Err(f) && f == Fault::TimeOverflow <==> (self.rt_config.routing_table@.contains_key(
                in_idx,
            ) && !(self.hw_config.mode is MultiEnqueueMultiDequeue) && !plan_ok(
                *self,
                in_idx,
                now,
            )),
            r matches Ok(pair) ==> {
                let plan = pair.0;
                let end = pair.1;
                &&& plan@.len() == self.targets_of(in_idx).len()
                &&& forall|k: int|
                    0 <= k < plan@.len() ==> (#[trigger] plan@[k]).out == self.targets_of(in_idx)[k]
                &&& forall|k: int|
                    0 <= k < plan@.len() ==> (#[trigger] plan@[k]).time == plan_time(
                        self.hw_config.mode,
                        now,
                        k,
                        self.hw_config.delay@[in_idx as int]@[self.targets_of(in_idx)[k] as int] as int,
                    )
                &&& end == plan_end(self.hw_config.mode, now, plan@.len() as int)
                &&& end >= now
                &&& plan@ == plan_spec(*self, in_idx, now)
            },
    {
        let targets = match self.rt_config.routing_table.get(&in_idx) {
            Some(t) => t,
            None => {
                return Err(Fault::UnroutedInput);
            },
        };
        let multi = match self.hw_config.mode {
            SwitchMode::SingleEnqueueSingleDequeue => false,
            SwitchMode::MultiEnqueueSingleDequeue => true,
            SwitchMode::MultiEnqueueMultiDequeue => {
                return Err(Fault::UnsupportedMode);
            },
        };
        let mut plan: Vec<Outgoing> = Vec::new();
        let mut k: usize = 0;
        while k < targets.len()
            invariant
                self.cfg_wf(),
                in_idx < self.hw_config.num_inputs,
                self.rt_config.routing_table@.contains_key(in_idx),
                targets@ == self.targets_of(in_idx),
                multi == (self.hw_config.mode is MultiEnqueueSingleDequeue),
                !(self.hw_config.mode is MultiEnqueueMultiDequeue),
                k <= targets@.len(),
                plan@.len() == k,
                forall|j: int|
                    0 <= j < k ==> (#[trigger] plan@[j]).out == self.targets_of(in_idx)[j]
                        && plan@[j].time == plan_time(
                        self.hw_config.mode,
                        now,
                        j,
                        self.hw_config.delay@[in_idx as int]@[self.targets_of(in_idx)[j] as int] as int,
                    ),
            decreases targets@.len() - k,
        {
            let o = targets[k];
            proof {
                assert(self.targets_of(in_idx)[k as int] < self.hw_config.num_outputs);
            }
            let d = self.hw_config.delay[in_idx][o];
            let ghost d0 = self.hw_config.delay@[in_idx as int]@[self.targets_of(in_idx)[k as int] as int] as int;
            let base = if multi {
                match now.checked_add(k as u64) {
                    Some(b) => b,
                    None => {
                        proof {
                            assert(plan_time(self.hw_config.mode, now, k as int, d0) > u64::MAX);
                        }
                        return Err(Fault::TimeOverflow);
                    },
                }
            } else {
                now
            };
            let t = match base.checked_add(d) {
                Some(t) => t,
                None => {
                    proof {
                        assert(plan_time(self.hw_config.mode, now, k as int, d0) > u64::MAX);
                    }
                    return Err(Fault::TimeOverflow);
                },
            };
            plan.push(Outgoing { out: o, time: t });
            k += 1;
        }
        let end = if multi {
            match now.checked_add(targets.len() as u64) {
                Some(e) => e,
                None => {
                    return Err(Fault::TimeOverflow);
                },
            }
        } else {
            match now.checked_add(1) {
                Some(e) => e,
                None => {
                    return Err(Fault::TimeOverflow);
                },
            }
        };
        proof {
            assert(plan@ =~= plan_spec(*self, in_idx, now));
            assert forall|k0: int| 0 <= k0 < self.targets_of(in_idx).len() implies #[trigger] plan_time(
                self.hw_config.mode,
                now,
                k0,
                self.hw_config.delay@[in_idx as int]@[self.targets_of(in_idx)[k0] as int] as int,
            ) <= u64::MAX by {
                assert(plan@[k0].time == plan_time(
                    self.hw_config.mode,
                    now,
                    k0,
                    self.hw_config.delay@[in_idx as int]@[self.targets_of(in_idx)[k0] as int] as int,
                ));
            }
        }
        Ok((plan, end))
    }

    /// Close every output channel. Nothing else changes: queued elements
    /// stay, and channels this switch does not send on are untouched.
    fn close_senders(&self, chs: &mut Vec<Channel>)
        requires
            forall|k: int|
                0 <= k < self.rt_data.senders@.len() ==> (#[trigger] self.rt_data.senders@[k].id)
                    < old(chs)@.len(),
        ensures
            final(chs)@.len() == old(chs)@.len(),
            forall|k: int|
                0 <= k < self.rt_data.senders@.len() ==> final(chs)@[(
                #[trigger] self.rt_data.senders@[k].id) as int].closed,
            forall|j: int|
                0 <= j < final(chs)@.len() ==> (#[trigger] final(chs)@[j]).queue == old(chs)@[j].queue && final(chs)@[j].capacity == old(chs)@[j].capacity && final(chs)@[j].sender_time == old(chs)@[j].sender_time && (old(chs)@[j].closed ==> final(chs)@[j].closed),
            forall|j: int|
                0 <= j < final(chs)@.len() && (forall|k: int|
                    0 <= k < self.rt_data.senders@.len() ==> (#[trigger] self.rt_data.senders@[k].id)
                        != j) ==> #[trigger] final(chs)@[j] == old(chs)@[j],
    {
        let mut k: usize = 0;
        while k < self.rt_data.senders.len()
            invariant
                chs@.len() == old(chs)@.len(),
                forall|j: int|
                    0 <= j < self.rt_data.senders@.len() ==> (#[trigger] self.rt_data.senders@[j].id)
                        < chs@.len(),
                forall|j: int|
                    0 <= j < k ==> chs@[(#[trigger] self.rt_data.senders@[j].id) as int].closed,
                forall|j: int|
                    0 <= j < chs@.len() ==> (#[trigger] chs@[j]).queue == old(chs)@[j].queue
                        && chs@[j].capacity == old(chs)@[j].capacity && chs@[j].sender_time == old(chs)@[j].sender_time && (old(chs)@[j].closed ==> chs@[j].closed),
                forall|j: int|
                    0 <= j < chs@.len() && (forall|k2: int|
                        0 <= k2 < self.rt_data.senders@.len() ==> (
                        #[trigger] self.rt_data.senders@[k2].id) != j) ==> #[trigger] chs@[j]
                        == old(chs)@[j],
            decreases self.rt_data.senders@.len() - k,
        {
            let id = self.rt_data.senders[k].id;
            close(chs, id);
            k += 1;
        }
    }

    /// Give the switch one unit of work, and force it: with an element
    /// available on the first-available input the switch dequeues it and plans
    /// its forwarding (or faults exactly when that input is unrouted, the mode
    /// is many-to-many, or a timestamp overflows), with a planned enqueue
    /// pending and room downstream it forwards, and with every minimum peek
    /// empty it drives its local time forward one cycle. Local time never goes
    /// backwards, the configuration never changes, and channels the switch is
    /// not attached to are never touched. It finishes exactly when every input
    /// is closed and drained (or it had already finished), closing its
    /// outputs.
    pub fn step(&mut self, chs: &mut Vec<Channel>) -> (r: StepResult)
        requires
            old(self).wf(),
            forall|k: int|
                0 <= k < old(self).rt_data.receivers@.len() ==> (#[trigger] old(
                    self,
                ).rt_data.receivers@[k].id) < old(chs)@.len(),
            forall|k: int|
                0 <= k < old(self).rt_data.senders@.len() ==> (#[trigger] old(
                    self,
                ).rt_data.senders@[k].id) < old(chs)@.len(),
        ensures
            final(self).wf(),
            final(chs)@.len() == old(chs)@.len(),
            final(self).rt_data.receivers == old(self).rt_data.receivers,
            final(self).rt_data.senders == old(self).rt_data.senders,
            final(self).hw_config == old(self).hw_config,
            final(self).rt_config.routing_table@ == old(self).rt_config.routing_table@,
            final(self).time >= old(self).time,
            forall|j: int|
                0 <= j < old(chs)@.len() && (forall|k: int|
                    0 <= k < old(self).rt_data.receivers@.len() ==> (#[trigger] old(
                        self,
                    ).rt_data.receivers@[k].id) != j) && (forall|k: int|
                    0 <= k < old(self).rt_data.senders@.len() ==> (#[trigger] old(
                        self,
                    ).rt_data.senders@[k].id) != j) ==> #[trigger] final(chs)@[j] == old(chs)@[j],
            r is Finished ==> final(self).phase is Done,
            r is Finished ==> forall|k: int|
                0 <= k < final(self).rt_data.senders@.len() ==> final(chs)@[(
                #[trigger] final(self).rt_data.senders@[k].id) as int].closed,
            r is Finished ==> forall|j: int|
                0 <= j < final(chs)@.len() ==> (#[trigger] final(chs)@[j]).queue == old(chs)@[j].queue,
            old(self).phase is Done ==> r is Finished,
            r is Finished <==> (old(self).phase is Done || (old(self).phase is Route && forall|
                j: int,
            |
                0 <= j < switch_peeks(*old(self), old(chs)@).len() ==> (#[trigger] switch_peeks(
                    *old(self),
                    old(chs)@,
                )[j]) is Closed)),
            old(self).phase is Route ==> (forall|i: int|
                min_avail(switch_peeks(*old(self), old(chs)@), i) && (forall|j: int|
                    0 <= j < i ==> !min_avail(switch_peeks(*old(self), old(chs)@), j)) ==> {
                    let peeks0 = switch_peeks(*old(self), old(chs)@);
                    let id = old(self).rt_data.receivers@[i].id as int;
                    let now_i = if ptime(peeks0[i]) > old(self).time {
                        ptime(peeks0[i])
                    } else {
                        old(self).time
                    };
                    &&& (r is Progress <==> plan_ok(*old(self), i as usize, now_i))
                    &&& (r is Faulted ==> final(self).phase is Done && (forall|k: int|
                        0 <= k < final(self).rt_data.senders@.len() ==> final(chs)@[(
                        #[trigger] final(self).rt_data.senders@[k].id) as int].closed))
                    &&& (!old(self).rt_config.routing_table@.contains_key(i as usize) ==> r
                        == StepResult::Faulted(Fault::UnroutedInput))
                    &&& (old(self).rt_config.routing_table@.contains_key(i as usize) && old(
                        self,
                    ).hw_config.mode is MultiEnqueueMultiDequeue ==> r == StepResult::Faulted(
                        Fault::UnsupportedMode,
                    ))
                    &&& (old(self).rt_config.routing_table@.contains_key(i as usize) && !(old(
                        self,
                    ).hw_config.mode is MultiEnqueueMultiDequeue) && !plan_ok(
                        *old(self),
                        i as usize,
                        now_i,
                    ) ==> r == StepResult::Faulted(Fault::TimeOverflow))
                    &&& (r is Progress ==> {
                        &&& final(self).phase matches SwitchPhase::Emit {
                            data: d2,
                            plan: pl2,
                            end_time: et2,
                            pos: ps2,
                        }
                        &&& ps2 == 0
                        &&& d2@ == old(chs)@[id].queue@[0].data.data@
                        &&& pl2@ == plan_spec(*old(self), i as usize, now_i)
                        &&& et2 == plan_end(
                            old(self).hw_config.mode,
                            now_i,
                            old(self).targets_of(i as usize).len() as int,
                        )
                        &&& final(chs)@[id].queue@ == old(chs)@[id].queue@.drop_first()
                        &&& final(self).time == now_i
                    })
                }),
            old(self).phase is Route ==> ((!(exists|i: int|
                min_avail(switch_peeks(*old(self), old(chs)@), i)) && !(forall|j: int|
                0 <= j < switch_peeks(*old(self), old(chs)@).len() ==> (#[trigger] switch_peeks(
                    *old(self),
                    old(chs)@,
                )[j]) is Closed)) ==> forall|m: u64|
                min_open(switch_peeks(*old(self), old(chs)@), m) ==> {
                    &&& (r is Progress <==> (old(self).time <= m && old(self).time < u64::MAX))
                    &&& (r is Progress ==> final(self).time == old(self).time + 1 && final(chs)@
                        == old(chs)@ && final(self).phase is Route)
                    &&& (r is Blocked ==> final(self).time == old(self).time && final(chs)@
                        == old(chs)@)
                }),
            old(self).phase matches SwitchPhase::Emit { data: d, plan: pl, pos: ps, .. } ==> (ps
                < pl@.len() && r is Progress) ==> {
                let id = old(self).rt_data.senders@[pl@[ps as int].out as int].id as int;
                let q0 = old(chs)@[id].queue@;
                let q1 = final(chs)@[id].queue@;
                &&& q1.len() == q0.len() + 1
                &&& q1[q1.len() - 1].time == pl@[ps as int].time
                &&& q1[q1.len() - 1].data.data@ == d@
                &&& (forall|j: int| 0 <= j < q0.len() ==> q1[j] == q0[j])
                &&& final(self).phase matches SwitchPhase::Emit {
                    data: d2,
                    plan: pl2,
                    pos: ps2,
                    ..
                } && d2@ == d@ && pl2 == pl && ps2 == ps + 1
            },
            old(self).phase matches SwitchPhase::Emit { data: d, plan: pl, end_time: et, pos: ps }
                ==> {
                &&& (ps < pl@.len() ==> {
                    let id = old(self).rt_data.senders@[pl@[ps as int].out as int].id as int;
                    &&& (r is Progress <==> old(chs)@[id].has_space())
                    &&& (r is Blocked <==> !old(chs)@[id].has_space())
                    &&& (r is Blocked ==> final(chs)@ == old(chs)@ && final(self).phase == old(
                        self,
                    ).phase && final(self).time == old(self).time)
                })
                &&& (ps >= pl@.len() ==> {
                    &&& r is Progress
                    &&& final(chs)@ == old(chs)@
                    &&& final(self).phase is Route
                    &&& final(self).time == (if et > old(self).time {
                        et
                    } else {
                        old(self).time
                    })
                })
            },
    {
        let mut ph = SwitchPhase::Done;
        core::mem::swap(&mut ph, &mut self.phase);
        proof {
            lemma_cfg_stable(*old(self), *self);
        }
        match ph {
            SwitchPhase::Done => {
                self.close_senders(chs);
                self.phase = SwitchPhase::Done;
                proof {
                    lemma_cfg_stable(*old(self), *self);
                }
                StepResult::Finished
            },
            SwitchPhase::Route => {
                let n = self.rt_data.receivers.len();
                let mut peeks: Vec<PeekResult> = Vec::new();
                let mut k: usize = 0;
                while k < n
                    invariant
                        n == self.rt_data.receivers@.len(),
                        forall|j: int|
                            0 <= j < n ==> (#[trigger] self.rt_data.receivers@[j].id) < chs@.len(),
                        k <= n,
                        peeks@.len() == k,
                        forall|j: int|
                            0 <= j < k ==> #[trigger] peeks@[j] == peek_spec(
                                chs@[self.rt_data.receivers@[j].id as int],
                            ),
                    decreases n - k,
                {
                    let id = self.rt_data.receivers[k].id;
                    peeks.push(peek(chs, id));
                    k += 1;
                }
                proof {
                    assert(peeks@ =~= switch_peeks(*old(self), old(chs)@));
                }
                match select_input(&peeks) {
                    Selection::AllClosed => {
                        self.phase = SwitchPhase::Done;
                        self.close_senders(chs);
                        proof {
                            lemma_cfg_stable(*old(self), *self);
                        }
                        StepResult::Finished
                    },
                    Selection::Advance(m) => {
                        let can_advance = self.time <= m && self.time < u64::MAX;
                        if can_advance {
                            self.time = self.time + 1;
                        }
                        self.phase = SwitchPhase::Route;
                        proof {
                            lemma_cfg_stable(*old(self), *self);
                        }
                        if can_advance {
                            StepResult::Progress
                        } else {
                            StepResult::Blocked
                        }
                    },
                    Selection::Take(i) => {
                        proof {
                            assert(min_avail(peeks@, i as int));
                            assert(i < n);
                            assert forall|i0: int|
                                min_avail(peeks@, i0) && (forall|j: int|
                                    0 <= j < i0 ==> !min_avail(peeks@, j)) implies i0
                                == i as int by {
                                if i0 < i as int {
                                    assert(!min_avail(peeks@, i0));
                                } else if i0 > i as int {
                                    assert(!min_avail(peeks@, i as int));
                                }
                            }
                            assert(peeks@[i as int] is Something);
                            assert(old(chs)@[self.rt_data.receivers@[i as int].id as int].queue@.len()
                                > 0);
                        }
                        let id = self.rt_data.receivers[i].id;
                        match dequeue(chs, id, &mut self.time) {
                            DequeueResult::Got(e) => {
                                let now = self.time;
                                proof {
                                    lemma_cfg_stable(*old(self), *self);
                                    lemma_plan_stable(*old(self), *self, i, now);
                                }
                                match self.plan_forward(i, now) {
                                    Ok(pe) => {
                                        let (plan, end_time) = pe;
                                        let ChannelElement { time: _, data } = e;
                                        proof {
                                            assert(self.rt_config.routing_table@.contains_key(i));
                                            assert forall|k0: int|
                                                0 <= k0 < plan@.len() implies (
                                            #[trigger] plan@[k0].out)
                                                < self.hw_config.num_outputs by {
                                                assert(plan@[k0].out == self.targets_of(i)[k0]);
                                                assert(self.targets_of(i)[k0]
                                                    < self.hw_config.num_outputs);
                                            }
                                        }
                                        self.phase = SwitchPhase::Emit {
                                            data: data.data,
                                            plan,
                                            end_time,
                                            pos: 0,
                                        };
                                        proof {
                                            lemma_cfg_stable(*old(self), *self);
                                        }
                                        StepResult::Progress
                                    },
                                    Err(f) => {
                                        self.phase = SwitchPhase::Done;
                                        self.close_senders(chs);
                                        proof {
                                            lemma_cfg_stable(*old(self), *self);
                                        }
                                        StepResult::Faulted(f)
                                    },
                                }
                            },
                            DequeueResult::Pending => {
                                self.phase = SwitchPhase::Route;
                                proof {
                                    lemma_cfg_stable(*old(self), *self);
                                }
                                StepResult::Blocked
                            },
                            DequeueResult::Closed => {
                                self.phase = SwitchPhase::Route;
                                proof {
                                    lemma_cfg_stable(*old(self), *self);
                                }
                                StepResult::Blocked
                            },
                        }
                    },
                }
            },
            SwitchPhase::Emit { data, plan, end_time, pos } => {
                if pos < plan.len() {
                    let entry = plan[pos];
                    let payload = PCUData { data: copy_row(&data) };
                    let id = self.rt_data.senders[entry.out].id;
                    if enqueue(chs, id, ChannelElement::new(entry.time, payload)) {
                        self.phase = SwitchPhase::Emit { data, plan, end_time, pos: pos + 1 };
                        proof {
                            lemma_cfg_stable(*old(self), *self);
                        }
                        StepResult::Progress
                    } else {
                        self.phase = SwitchPhase::Emit { data, plan, end_time, pos };
                        proof {
                            lemma_cfg_stable(*old(self), *self);
                            assert(chs@ =~= old(chs)@);
                        }
                        StepResult::Blocked
                    }
                } else {
                    if end_time > self.time {
                        self.time = end_time;
                    }
                    self.phase = SwitchPhase::Route;
                    proof {
                        lemma_cfg_stable(*old(self), *self);
                    }
                    StepResult::Progress
                }
            },
        }
    }
}

/// Configuration well-formedness does not depend on a switch's clock or phase:
/// it carries over to any switch with the same endpoints, hardware shape and
/// routing table.
pub proof fn lemma_cfg_stable(a: Switch, b: Switch)
    requires
        a.cfg_wf(),
        b.rt_data.receivers == a.rt_data.receivers,
        b.rt_data.senders == a.rt_data.senders,
        b.hw_config == a.hw_config,
        b.rt_config.routing_table@ == a.rt_config.routing_table@,
    ensures
        b.cfg_wf(),
{
    assert forall|i: usize, k: int|
        i < b.hw_config.num_inputs && #[trigger] b.rt_config.routing_table@.contains_key(i) && 0
            <= k < b.targets_of(i).len() implies (#[trigger] b.targets_of(i)[k])
        < b.hw_config.num_outputs by {
        assert(a.rt_config.routing_table@.contains_key(i));
        assert(b.targets_of(i) == a.targets_of(i));
        assert(a.targets_of(i)[k] < a.hw_config.num_outputs);
    }
}

} // verus!
