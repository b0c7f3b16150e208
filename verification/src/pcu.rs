//! The Pattern Compute Unit: a strictly in-order chain of pipeline stages fed
//! by vector input ports and draining to output ports.

use vstd::prelude::*;

use crate::alu::{ALUHwConfig, ALURtConfig};
use crate::channel::{dequeue, close, enqueue, Channel, ChannelElement, DequeueResult, Receiver, Sender};
use crate::errors::{ConfigError, Fault, StepResult};
use crate::pipeline_stage::{copy_mat, copy_row, mat_view, zero_mat, zero_matrix, stage_iter_ok, stage_next, PipelineStage};
use crate::scalar::Scalar;

verus! {

/// Hardware shape of a PCU: per-stage ALU capabilities, the SIMD width, and
/// how many vector input ports it has.
#[derive(Clone, Debug)]
pub struct HwConfig {
    pub alu_configs: Vec<ALUHwConfig>,
    pub num_simd_lanes: usize,
    pub num_vector_input_ports: usize,
}

/// Runtime configuration of a PCU: one ALU configuration per stage.
#[derive(Clone, Debug)]
pub struct RtConfig {
    pub alu_configs: Vec<ALURtConfig>,
}

/// One message payload: the vector of scalars a PCU consumes from a port or
/// emits on one output in one iteration.
#[derive(Clone, Debug, Default, PartialEq)]
pub struct PCUData {
    pub data: Vec<Scalar>,
}

/// The PCU's mutable runtime state: its pipeline stages and its attached
/// channel endpoints.
pub struct PCURuntimeData {
    pub pipeline_stages: Vec<PipelineStage>,
    pub input: Vec<Receiver>,
    pub output: Vec<Sender>,
}

/// Where a PCU stands inside one operational iteration.
pub enum PcuPhase {
    /// Dequeuing one element from each required input port, in ascending port
    /// order; `pos` indexes into the required-port list and `bundle` holds the
    /// rows gathered so far (unselected ports stay at the `I32(0)` pad).
    Gather { pos: usize, bundle: Vec<Vec<Scalar>> },
    /// Enqueuing the final stage's lanes to the output senders; `pos` is the
    /// next output index.
    Emit { outputs: Vec<Vec<Scalar>>, t_fin: u64, pos: usize },
    /// Terminated: a required input closed, so the PCU has ceased producing.
    Done,
}

/// The bundle after the first `k` stages of a fold that starts from `input`:
/// stage `k-1` maps the bundle after `k-1` stages through `stage_next`,
/// reading its own pre-update register file.
pub open spec fn fold_bundle(
    stages: Seq<PipelineStage>,
    input: Seq<Seq<Scalar>>,
    k: int,
) -> Seq<Seq<Scalar>>
    decreases k,
{
    if k <= 0 {
        input
    } else {
        let st = stages[k - 1];
        stage_next(
            st.alu_config,
            fold_bundle(stages, input, k - 1),
            mat_view(st.data),
            st.simd as nat,
            st.register_depth as nat,
        )
    }
}

/// Every one of the first `k` stages is defined on the bundle it receives.
pub open spec fn fold_ok(stages: Seq<PipelineStage>, input: Seq<Seq<Scalar>>, k: int) -> bool
    decreases k,
{
    if k <= 0 {
        true
    } else {
        let st = stages[k - 1];
        &&& fold_ok(stages, input, k - 1)
        &&& stage_iter_ok(
            st.alu_config,
            fold_bundle(stages, input, k - 1),
            mat_view(st.data),
            st.simd as nat,
            st.register_depth as nat,
        )
    }
}

/// The total latency of the first `k` stages: the sum of their operations'
/// delays.
pub open spec fn fold_delay(stages: Seq<PipelineStage>, k: int) -> int
    decreases k,
{
    if k <= 0 {
        0
    } else {
        fold_delay(stages, k - 1) + stages[k - 1].alu_config.op.delay_spec()
    }
}

/// A defined fold is defined on every prefix, and each stage along it is
/// defined on the bundle it receives.
pub proof fn lemma_fold_ok_at(stages: Seq<PipelineStage>, input: Seq<Seq<Scalar>>, k: int, n: int)
    requires
        0 <= k < n,
        fold_ok(stages, input, n),
    ensures
        fold_ok(stages, input, k),
        stage_iter_ok(
            stages[k].alu_config,
            fold_bundle(stages, input, k),
            mat_view(stages[k].data),
            stages[k].simd as nat,
            stages[k].register_depth as nat,
        ),
    decreases n,
{
    if k + 1 < n {
        lemma_fold_ok_at(stages, input, k, n - 1);
    }
}

/// Stage delays only accumulate: the fold's latency is monotone in the number
/// of stages.
pub proof fn lemma_fold_delay_mono(stages: Seq<PipelineStage>, k: int, n: int)
    requires
        0 <= k <= n,
    ensures
        fold_delay(stages, k) <= fold_delay(stages, n),
        fold_delay(stages, k) >= 0,
    decreases n,
{
    if k < n {
        lemma_fold_delay_mono(stages, k, n - 1);
    } else if k > 0 {
        lemma_fold_delay_mono(stages, 0, k - 1);
    }
}

/// A Pattern Compute Unit: a chain of pipeline stages with attached input
/// receivers and output senders, its own virtual clock, and the phase of the
/// iteration it is in.
pub struct PCU {
    pub hw_config: HwConfig,
    pub rt_config: RtConfig,
    pub rt_data: PCURuntimeData,
    pub time: u64,
    pub phase: PcuPhase,
    pub required: Vec<usize>,
}

impl PCU {
    /// The stage chain.
    pub open spec fn stages(self) -> Seq<PipelineStage> {
        self.rt_data.pipeline_stages@
    }

    /// Every stage's register file matches its declared dimensions.
    pub open spec fn stages_wf(self) -> bool {
        forall|k: int| 0 <= k < self.stages().len() ==> (#[trigger] self.stages()[k]).wf()
    }

    /// Structural well-formedness carried across steps: stages are
    /// well-formed, the required-port list indexes real input ports, and the
    /// gather bundle always has one row per input port.
    pub open spec fn wf(self) -> bool {
        &&& self.stages_wf()
        &&& forall|i: int|
            0 <= i < self.required@.len() ==> (#[trigger] self.required@[i]) < self.rt_data.input@.len()
        &&& match self.phase {
            PcuPhase::Gather { pos, bundle } => pos <= self.required@.len() && bundle@.len()
                == self.rt_data.input@.len(),
            PcuPhase::Emit { .. } => true,
            PcuPhase::Done => true,
        }
    }

    /// Construct a PCU, validating the configuration: hardware and runtime
    /// ALU lists must have equal nonzero length, every runtime operation must
    /// be supported by its hardware slot, the receiver count must equal the
    /// hardware input port count, and every port the first stage reads must
    /// have a receiver. Returns the validated PCU with one fresh
    /// (zero-initialized, depth-one) pipeline stage per ALU configuration, or
    /// the first configuration error found.
    pub fn new(hw_cfg: HwConfig, rt_cfg: RtConfig, input: Vec<Receiver>, output: Vec<Sender>) -> (r:
        Result<PCU, ConfigError>)
        ensures
            r is Ok <==> {
                &&& hw_cfg.alu_configs@.len() == rt_cfg.alu_configs@.len()
                &&& rt_cfg.alu_configs@.len() > 0
                &&& forall|k: int|
                    0 <= k < rt_cfg.alu_configs@.len() ==> (#[trigger] hw_cfg.alu_configs@[k]).supports_spec(
                        rt_cfg.alu_configs@[k].op,
                    )
                &&& input@.len() == hw_cfg.num_vector_input_ports
                &&& forall|p: usize|
                    rt_cfg.alu_configs@[0].input_regs_spec().contains(p) ==> p < input@.len()
            },
            r == Err::<PCU, ConfigError>(ConfigError::ShapeMismatch) <==> hw_cfg.alu_configs@.len()
                != rt_cfg.alu_configs@.len(),
            r == Err::<PCU, ConfigError>(ConfigError::EmptyPipeline) <==> (hw_cfg.alu_configs@.len()
                == rt_cfg.alu_configs@.len() && rt_cfg.alu_configs@.len() == 0),
            r == Err::<PCU, ConfigError>(ConfigError::UnsupportedOp) <==> (hw_cfg.alu_configs@.len()
                == rt_cfg.alu_configs@.len() && rt_cfg.alu_configs@.len() > 0 && !(forall|k: int|
                0 <= k < rt_cfg.alu_configs@.len() ==> (#[trigger] hw_cfg.alu_configs@[k]).supports_spec(
                    rt_cfg.alu_configs@[k].op,
                ))),
            r == Err::<PCU, ConfigError>(ConfigError::WrongPortCount) <==> (hw_cfg.alu_configs@.len()
                == rt_cfg.alu_configs@.len() && rt_cfg.alu_configs@.len() > 0 && (forall|k: int|
                0 <= k < rt_cfg.alu_configs@.len() ==> (#[trigger] hw_cfg.alu_configs@[k]).supports_spec(
                    rt_cfg.alu_configs@[k].op,
                )) && !(input@.len() == hw_cfg.num_vector_input_ports && forall|p: usize|
                rt_cfg.alu_configs@[0].input_regs_spec().contains(p) ==> p < input@.len())),
            r matches Ok(p) ==> {
                &&& p.wf()
                &&& p.hw_config == hw_cfg
                &&& p.rt_config == rt_cfg
                &&& p.rt_data.input == input
                &&& p.rt_data.output == output
                &&& p.time == 0
                &&& p.phase matches PcuPhase::Gather { pos, bundle } && pos == 0 && mat_view(
                    bundle,
                ) == zero_mat(input@.len() as nat, hw_cfg.num_simd_lanes as nat)
                &&& p.stages().len() == rt_cfg.alu_configs@.len()
                &&& forall|k: int|
                    0 <= k < p.stages().len() ==> {
                        &&& (#[trigger] p.stages()[k]).alu_config == rt_cfg.alu_configs@[k]
                        &&& p.stages()[k].simd == hw_cfg.num_simd_lanes
                        &&& p.stages()[k].register_depth == 1
                        &&& mat_view(p.stages()[k].data) == zero_mat(
                            hw_cfg.num_simd_lanes as nat,
                            1,
                        )
                    }
                &&& forall|p0: usize|
                    #[trigger] p.required@.contains(p0) <==> rt_cfg.alu_configs@[0].input_regs_spec().contains(p0)
            },
    {
        if hw_cfg.alu_configs.len() != rt_cfg.alu_configs.len() {
            return Err(ConfigError::ShapeMismatch);
        }
        if rt_cfg.alu_configs.len() == 0 {
            return Err(ConfigError::EmptyPipeline);
        }
        if !verify_alu_ops(&hw_cfg.alu_configs, &rt_cfg.alu_configs) {
            return Err(ConfigError::UnsupportedOp);
        }
        if input.len() != hw_cfg.num_vector_input_ports {
            return Err(ConfigError::WrongPortCount);
        }
        let required = rt_cfg.alu_configs[0].get_input_regs();
        let mut i: usize = 0;
        while i < required.len()
            invariant
                i <= required@.len(),
                forall|j: int| 0 <= j < i ==> (#[trigger] required@[j]) < input@.len(),
                rt_cfg.alu_configs@.len() > 0,
                hw_cfg.alu_configs@.len() == rt_cfg.alu_configs@.len(),
                input@.len() == hw_cfg.num_vector_input_ports,
                forall|j: int|
                    0 <= j < rt_cfg.alu_configs@.len() ==> (#[trigger] hw_cfg.alu_configs@[j]).supports_spec(
                        rt_cfg.alu_configs@[j].op,
                    ),
                forall|p: usize| #[trigger]
                    required@.contains(p) <==> rt_cfg.alu_configs@[0].input_regs_spec().contains(
                        p,
                    ),
            decreases required@.len() - i,
        {
            if !(required[i] < input.len()) {
                proof {
                    let p0 = required@[i as int];
                    assert(required@.contains(p0));
                    assert(rt_cfg.alu_configs@[0].input_regs_spec().contains(p0));
                    assert(!(forall|p: usize|
                        rt_cfg.alu_configs@[0].input_regs_spec().contains(p) ==> p
                            < input@.len()));
                }
                return Err(ConfigError::WrongPortCount);
            }
            i += 1;
        }
        proof {
            assert forall|p0: usize|
                rt_cfg.alu_configs@[0].input_regs_spec().contains(p0) implies p0
                < input@.len() by {
                assert(required@.contains(p0));
            }
        }
        let mut stages: Vec<PipelineStage> = Vec::new();
        let mut k: usize = 0;
        let n = rt_cfg.alu_configs.len();
        while k < n
            invariant
                k <= n,
                n == rt_cfg.alu_configs@.len(),
                stages@.len() == k,
                forall|j: int|
                    0 <= j < k ==> {
                        &&& (#[trigger] stages@[j]).wf()
                        &&& stages@[j].alu_config == rt_cfg.alu_configs@[j]
                        &&& stages@[j].simd == hw_cfg.num_simd_lanes
                        &&& stages@[j].register_depth == 1
                        &&& mat_view(stages@[j].data) == zero_mat(hw_cfg.num_simd_lanes as nat, 1)
                    },
            decreases n - k,
        {
            let stage = PipelineStage::new(rt_cfg.alu_configs[k], hw_cfg.num_simd_lanes, 1);
            stages.push(stage);
            k += 1;
        }
        let bundle = zero_matrix(input.len(), hw_cfg.num_simd_lanes);
        let num_ports = input.len();
        Ok(
            PCU {
                hw_config: hw_cfg,
                rt_config: rt_cfg,
                rt_data: PCURuntimeData { pipeline_stages: stages, input, output },
                time: 0,
                phase: PcuPhase::Gather { pos: 0, bundle },
                required,
            },
        )
    }

    /// Run one pipeline iteration over the whole stage chain: starting from
    /// the input bundle at `time`, each stage transforms the bundle and adds
    /// its latency. On success every stage's register file becomes the bundle
    /// it produced, and the result is the final bundle with its availability
    /// time `time + fold_delay`. Returns `None` — leaving the PCU untouched —
    /// exactly when some stage along the fold is undefined on what reaches it
    /// (a programmer error) or the final time overflows.
    pub fn iterate(&mut self, input: &Vec<Vec<Scalar>>, time: u64) -> (r: Option<
        (Vec<Vec<Scalar>>, u64),
    >)
        requires
            old(self).stages_wf(),
        ensures
            final(self).hw_config == old(self).hw_config,
            final(self).rt_config == old(self).rt_config,
            final(self).rt_data.input == old(self).rt_data.input,
            final(self).rt_data.output == old(self).rt_data.output,
            final(self).time == old(self).time,
            final(self).phase == old(self).phase,
            final(self).required == old(self).required,
            final(self).stages_wf(),
            r is Some <==> (fold_ok(old(self).stages(), mat_view(*input), old(self).stages().len() as int)
                && time + fold_delay(old(self).stages(), old(self).stages().len() as int)
                <= u64::MAX),
            r is None ==> *final(self) == *old(self),
            r matches Some((out, t_fin)) ==> {
                &&& mat_view(out) == fold_bundle(
                    old(self).stages(),
                    mat_view(*input),
                    old(self).stages().len() as int,
                )
                &&& t_fin == time + fold_delay(old(self).stages(), old(self).stages().len() as int)
                &&& final(self).stages().len() == old(self).stages().len()
                &&& forall|k: int|
                    0 <= k < old(self).stages().len() ==> {
                        &&& mat_view((#[trigger] final(self).stages()[k]).data) == fold_bundle(
                            old(self).stages(),
                            mat_view(*input),
                            k + 1,
                        )
                        &&& final(self).stages()[k].alu_config == old(self).stages()[k].alu_config
                        &&& final(self).stages()[k].simd == old(self).stages()[k].simd
                        &&& final(self).stages()[k].register_depth == old(
                            self,
                        ).stages()[k].register_depth
                    }
            },
    {
        let ghost stages0 = self.stages();
        let ghost inv = mat_view(*input);
        let n = self.rt_data.pipeline_stages.len();

        // Validation pass: walk the fold without mutating anything, checking
        // that each stage is defined on the bundle that reaches it and that
        // the accumulated latency stays in range.
        let mut bundle: Vec<Vec<Scalar>> = copy_mat(input);
        let mut t: u64 = time;
        let mut k: usize = 0;
        while k < n
            invariant
                self == old(self),
                self.stages_wf(),
                n == stages0.len(),
                stages0 == self.stages(),
                inv == mat_view(*input),
                k <= n,
                fold_ok(stages0, inv, k as int),
                mat_view(bundle) == fold_bundle(stages0, inv, k as int),
                t == time + fold_delay(stages0, k as int),
            decreases n - k,
        {
            let stage = &self.rt_data.pipeline_stages[k];
            if !stage.check_iter(&bundle) {
                proof {
                    if fold_ok(stages0, inv, n as int) {
                        lemma_fold_ok_at(stages0, inv, k as int, n as int);
                    }
                }
                return None;
            }
            match t.checked_add(stage.alu_config.op.delay() as u64) {
                Some(t2) => {
                    t = t2;
                },
                None => {
                    proof {
                        lemma_fold_delay_mono(stages0, k as int + 1, n as int);
                    }
                    return None;
                },
            }
            bundle = stage.compute_next(&bundle);
            k += 1;
        }

        // Commit pass: every stage is now known to be defined on its bundle,
        // so replay the fold, this time updating each register file.
        proof {
            lemma_fold_delay_mono(stages0, 0, n as int);
        }
        let mut bundle2: Vec<Vec<Scalar>> = copy_mat(input);
        let mut t2: u64 = time;
        let mut k2: usize = 0;
        while k2 < n
            invariant
                self.stages_wf(),
                n == stages0.len(),
                self.stages().len() == n,
                inv == mat_view(*input),
                self.hw_config == old(self).hw_config,
                self.rt_config == old(self).rt_config,
                self.rt_data.input == old(self).rt_data.input,
                self.rt_data.output == old(self).rt_data.output,
                self.time == old(self).time,
                self.phase == old(self).phase,
                self.required == old(self).required,
                k2 <= n,
                fold_ok(stages0, inv, n as int),
                time + fold_delay(stages0, n as int) <= u64::MAX,
                forall|j: int| k2 <= j < n ==> self.stages()[j] == stages0[j],
                forall|j: int|
                    0 <= j < k2 ==> {
                        &&& mat_view((#[trigger] self.stages()[j]).data) == fold_bundle(
                            stages0,
                            inv,
                            j + 1,
                        )
                        &&& self.stages()[j].alu_config == stages0[j].alu_config
                        &&& self.stages()[j].simd == stages0[j].simd
                        &&& self.stages()[j].register_depth == stages0[j].register_depth
                    },
                mat_view(bundle2) == fold_bundle(stages0, inv, k2 as int),
                t2 == time + fold_delay(stages0, k2 as int),
            decreases n - k2,
        {
            proof {
                lemma_fold_ok_at(stages0, inv, k2 as int, n as int);
                lemma_fold_delay_mono(stages0, k2 as int + 1, n as int);
            }
            let ghost pre = self.stages();
            let mut st = self.rt_data.pipeline_stages.remove(k2);
            let t_next = st.iterate(&bundle2, t2);
            bundle2 = copy_mat(&st.data);
            self.rt_data.pipeline_stages.insert(k2, st);
            proof {
                assert(self.stages() =~= pre.update(k2 as int, st));
            }
            t2 = t_next;
            k2 += 1;
        }
        Some((bundle2, t2))
    }
}

impl PCU {
    /// Idle-cycle bookkeeping: how many bubble cycles carry the pipeline from
    /// the end of the previous iteration to the current tick. Bubbles insert
    /// no outputs; their only observable effect is this count.
    pub fn fill_with_bubbles_until_now(&self, last_iter_time: u64) -> (bubbles: u64)
        ensures
            bubbles == if self.time > last_iter_time {
                (self.time - last_iter_time) as u64
            } else {
                0u64
            },
    {
        let input_time = self.time;
        if input_time > last_iter_time {
            input_time - last_iter_time
        } else {
            0
        }
    }

    /// Close every output channel: downstream peers observe closure once the
    /// queues drain. Nothing else changes: queued elements stay, and channels
    /// this PCU does not send on are untouched.
    fn close_outputs(&self, chs: &mut Vec<Channel>)
        requires
            forall|k: int|
                0 <= k < self.rt_data.output@.len() ==> (#[trigger] self.rt_data.output@[k].id)
                    < old(chs)@.len(),
        ensures
            final(chs)@.len() == old(chs)@.len(),
            forall|k: int|
                0 <= k < self.rt_data.output@.len() ==> final(chs)@[(
                #[trigger] self.rt_data.output@[k].id) as int].closed,
            forall|j: int|
                0 <= j < final(chs)@.len() ==> (#[trigger] final(chs)@[j]).queue == old(chs)@[j].queue && final(chs)@[j].capacity == old(chs)@[j].capacity && final(chs)@[j].sender_time == old(chs)@[j].sender_time && (old(chs)@[j].closed ==> final(chs)@[j].closed),
            forall|j: int|
                0 <= j < final(chs)@.len() && (forall|k: int|
                    0 <= k < self.rt_data.output@.len() ==> (#[trigger] self.rt_data.output@[k].id)
                        != j) ==> #[trigger] final(chs)@[j] == old(chs)@[j],
    {
        let mut k: usize = 0;
        while k < self.rt_data.output.len()
            invariant
                chs@.len() == old(chs)@.len(),
                forall|j: int|
                    0 <= j < self.rt_data.output@.len() ==> (#[trigger] self.rt_data.output@[j].id)
                        < chs@.len(),
                forall|j: int|
                    0 <= j < k ==> chs@[(#[trigger] self.rt_data.output@[j].id) as int].closed,
                forall|j: int|
                    0 <= j < chs@.len() ==> (#[trigger] chs@[j]).queue == old(chs)@[j].queue
                        && chs@[j].capacity == old(chs)@[j].capacity && chs@[j].sender_time == old(chs)@[j].sender_time && (old(chs)@[j].closed ==> chs@[j].closed),
                forall|j: int|
                    0 <= j < chs@.len() && (forall|k2: int|
                        0 <= k2 < self.rt_data.output@.len() ==> (
                        #[trigger] self.rt_data.output@[k2].id) != j) ==> #[trigger] chs@[j] == old(chs)@[j],
            decreases self.rt_data.output@.len() - k,
        {
            let id = self.rt_data.output[k].id;
            close(chs, id);
            k += 1;
        }
    }

    /// Executable form of `wf`, so that a runtime can validate components it
    /// was handed without relying on how they were built.
    pub fn wf_check(&self) -> (r: bool)
        ensures
            r == self.wf(),
    {
        let nstages = self.rt_data.pipeline_stages.len();
        let mut k: usize = 0;
        while k < nstages
            invariant
                nstages == self.stages().len(),
                k <= nstages,
                forall|j: int| 0 <= j < k ==> (#[trigger] self.stages()[j]).wf(),
            decreases nstages - k,
        {
            let st = &self.rt_data.pipeline_stages[k];
            if st.data.len() != st.simd {
                proof {
                    assert(!st.wf());
                }
                return false;
            }
            let mut l: usize = 0;
            while l < st.data.len()
                invariant
                    st == &self.rt_data.pipeline_stages@[k as int],
                    k < self.stages().len(),
                    st.data@.len() == st.simd,
                    l <= st.data@.len(),
                    forall|i: int| 0 <= i < l ==> (#[trigger] st.data@[i])@.len() == st.register_depth,
                decreases st.data@.len() - l,
            {
                if st.data[l].len() != st.register_depth {
                    proof {
                        assert(mat_view(st.data)[l as int].len() != st.register_depth);
                        assert(!st.wf());
                        assert(self.stages()[k as int] == *st);
                    }
                    return false;
                }
                l += 1;
            }
            proof {
                assert forall|i: int|
                    0 <= i < st.simd implies #[trigger] mat_view(st.data)[i].len()
                    == st.register_depth by {
                    assert(st.data@[i]@.len() == st.register_depth);
                }
                assert(st.wf());
            }
            k += 1;
        }
        let nin = self.rt_data.input.len();
        let mut i: usize = 0;
        while i < self.required.len()
            invariant
                nin == self.rt_data.input@.len(),
                i <= self.required@.len(),
                forall|j: int| 0 <= j < i ==> (#[trigger] self.required@[j]) < nin,
                self.stages_wf(),
            decreases self.required@.len() - i,
        {
            if !(self.required[i] < nin) {
                return false;
            }
            i += 1;
        }
        match &self.phase {
            PcuPhase::Gather { pos, bundle } => *pos <= self.required.len() && bundle.len()
                == self.rt_data.input.len(),
            PcuPhase::Emit { .. } => true,
            PcuPhase::Done => true,
        }
    }

    /// Give the PCU one unit of work: dequeue one required input, run the
    /// pipeline once the bundle is complete, or enqueue one pending output.
    /// Each phase is forced: with an element available the PCU dequeues it,
    /// with a complete bundle it runs the pipeline (or faults exactly when
    /// some stage is undefined on it), with room downstream it emits. The
    /// virtual clock never goes backwards, the configuration never changes,
    /// and channels the PCU is not attached to are never touched. A closed
    /// required input terminates the PCU: it closes its outputs and reports
    /// `Finished`.
    pub fn step(&mut self, chs: &mut Vec<Channel>) -> (r: StepResult)
        requires
            old(self).wf(),
            forall|k: int|
                0 <= k < old(self).rt_data.input@.len() ==> (#[trigger] old(
                    self,
                ).rt_data.input@[k].id) < old(chs)@.len(),
            forall|k: int|
                0 <= k < old(self).rt_data.output@.len() ==> (#[trigger] old(
                    self,
                ).rt_data.output@[k].id) < old(chs)@.len(),
        ensures
            final(self).wf(),
            final(chs)@.len() == old(chs)@.len(),
            final(self).rt_data.input == old(self).rt_data.input,
            final(self).rt_data.output == old(self).rt_data.output,
            final(self).hw_config == old(self).hw_config,
            final(self).rt_config == old(self).rt_config,
            final(self).required == old(self).required,
            final(self).time >= old(self).time,
            final(self).stages().len() == old(self).stages().len(),
            forall|k: int|
                0 <= k < old(self).stages().len() ==> {
                    &&& (#[trigger] final(self).stages()[k]).alu_config == old(
                        self,
                    ).stages()[k].alu_config
                    &&& final(self).stages()[k].simd == old(self).stages()[k].simd
                    &&& final(self).stages()[k].register_depth == old(
                        self,
                    ).stages()[k].register_depth
                },
            forall|j: int|
                0 <= j < old(chs)@.len() && (forall|k: int|
                    0 <= k < old(self).rt_data.input@.len() ==> (#[trigger] old(
                        self,
                    ).rt_data.input@[k].id) != j) && (forall|k: int|
                    0 <= k < old(self).rt_data.output@.len() ==> (#[trigger] old(
                        self,
                    ).rt_data.output@[k].id) != j) ==> #[trigger] final(chs)@[j] == old(chs)@[j],
            old(self).phase is Done ==> r is Finished,
            r is Finished ==> final(self).phase is Done,
            r is Finished ==> forall|k: int|
                0 <= k < final(self).rt_data.output@.len() ==> final(chs)@[(
                #[trigger] final(self).rt_data.output@[k].id) as int].closed,
            (old(self).phase matches PcuPhase::Gather { pos, bundle } ==> pos < old(
                self,
            ).required@.len() ==> {
                let port = old(self).required@[pos as int] as int;
                let id = old(self).rt_data.input@[port].id as int;
                let ch = old(chs)@[id];
                &&& (r is Progress <==> ch.queue@.len() > 0)
                &&& (r is Blocked <==> (ch.queue@.len() == 0 && !ch.closed))
                &&& (r is Finished <==> (ch.queue@.len() == 0 && ch.closed))
                &&& (r is Progress ==> {
                    &&& final(self).phase matches PcuPhase::Gather { pos: p2, bundle: b2 }
                    &&& p2 == pos + 1
                    &&& mat_view(b2) == mat_view(bundle).update(
                        port,
                        ch.queue@[0].data.data@,
                    )
                    &&& final(chs)@[id].queue@ == ch.queue@.drop_first()
                })
                &&& (r is Blocked ==> final(chs)@ == old(chs)@ && final(self).phase == old(
                    self,
                ).phase && final(self).time == old(self).time)
            }),
            (old(self).phase matches PcuPhase::Gather { pos, bundle } ==> pos == old(
                self,
            ).required@.len() ==> {
                let n = old(self).stages().len() as int;
                let defined = fold_ok(old(self).stages(), mat_view(bundle), n) && old(self).time
                    + fold_delay(old(self).stages(), n) <= u64::MAX;
                &&& (r is Progress <==> defined)
                &&& (!defined ==> r == StepResult::Faulted(Fault::BadIteration))
                &&& (!defined ==> final(self).phase is Done && (forall|k: int|
                    0 <= k < final(self).rt_data.output@.len() ==> final(chs)@[(
                    #[trigger] final(self).rt_data.output@[k].id) as int].closed))
                &&& (r is Progress ==> {
                    &&& final(self).phase matches PcuPhase::Emit { outputs, t_fin, pos: epos }
                    &&& epos == 0
                    &&& mat_view(outputs) == fold_bundle(old(self).stages(), mat_view(bundle), n)
                    &&& t_fin == old(self).time + fold_delay(old(self).stages(), n)
                    &&& final(self).time == old(self).time
                    &&& final(chs)@ == old(chs)@
                })
            }),
            (old(self).phase matches PcuPhase::Emit { outputs, t_fin, pos } ==> {
                let nout = old(self).rt_data.output@.len() as int;
                let navail = outputs@.len() as int;
                let lim = if nout < navail {
                    nout
                } else {
                    navail
                };
                &&& (pos < lim && outputs@[pos as int]@.len() > 0 ==> {
                    let id = old(self).rt_data.output@[pos as int].id as int;
                    let q0 = old(chs)@[id].queue@;
                    let q1 = final(chs)@[id].queue@;
                    &&& (r is Progress <==> old(chs)@[id].has_space())
                    &&& (r is Blocked <==> !old(chs)@[id].has_space())
                    &&& (r is Progress ==> {
                        &&& q1.len() == q0.len() + 1
                        &&& q1[q1.len() - 1].time == t_fin
                        &&& q1[q1.len() - 1].data.data@ == outputs@[pos as int]@
                        &&& (forall|j: int| 0 <= j < q0.len() ==> q1[j] == q0[j])
                        &&& final(self).phase matches PcuPhase::Emit {
                            outputs: o2,
                            t_fin: t2,
                            pos: p2,
                        }
                        &&& mat_view(o2) == mat_view(outputs)
                        &&& t2 == t_fin
                        &&& p2 == pos + 1
                    })
                    &&& (r is Blocked ==> final(chs)@ == old(chs)@ && final(self).phase == old(
                        self,
                    ).phase)
                })
                &&& (pos < lim && outputs@[pos as int]@.len() == 0 ==> {
                    &&& r is Progress
                    &&& final(chs)@ == old(chs)@
                    &&& final(self).phase matches PcuPhase::Emit { outputs: o2, t_fin: t2, pos: p2 }
                    &&& mat_view(o2) == mat_view(outputs)
                    &&& t2 == t_fin
                    &&& p2 == pos + 1
                })
                &&& (pos >= lim ==> {
                    &&& r is Progress
                    &&& final(chs)@ == old(chs)@
                    &&& final(self).phase matches PcuPhase::Gather { pos: p2, bundle: b2 }
                    &&& p2 == 0
                    &&& mat_view(b2) == zero_mat(
                        old(self).rt_data.input@.len() as nat,
                        old(self).hw_config.num_simd_lanes as nat,
                    )
                })
            }),
    {
        let mut ph = PcuPhase::Done;
        core::mem::swap(&mut ph, &mut self.phase);
        proof {
            assert(self.rt_data == old(self).rt_data);
            assert(self.stages() == old(self).stages());
            assert(self.stages_wf());
        }
        match ph {
            PcuPhase::Done => {
                self.close_outputs(chs);
                self.phase = PcuPhase::Done;
                StepResult::Finished
            },
            PcuPhase::Gather { pos, mut bundle } => {
                if pos < self.required.len() {
                    let port = self.required[pos];
                    let id = self.rt_data.input[port].id;
                    match dequeue(chs, id, &mut self.time) {
                        DequeueResult::Got(e) => {
                            let ghost b0 = mat_view(bundle);
                            let ChannelElement { time: _, data } = e;
                            bundle[port] = data.data;
                            proof {
                                assert(mat_view(bundle) =~= b0.update(
                                    port as int,
                                    old(chs)@[id as int].queue@[0].data.data@,
                                ));
                            }
                            self.phase = PcuPhase::Gather { pos: pos + 1, bundle };
                            StepResult::Progress
                        },
                        DequeueResult::Pending => {
                            self.phase = PcuPhase::Gather { pos, bundle };
                            proof {
                                assert(chs@ =~= old(chs)@);
                            }
                            StepResult::Blocked
                        },
                        DequeueResult::Closed => {
                            self.phase = PcuPhase::Done;
                            self.close_outputs(chs);
                            StepResult::Finished
                        },
                    }
                } else {
                    let t_now = self.time;
                    match self.iterate(&bundle, t_now) {
                        Some(out) => {
                            let (outputs, t_fin) = out;
                            self.phase = PcuPhase::Emit { outputs, t_fin, pos: 0 };
                            StepResult::Progress
                        },
                        None => {
                            self.phase = PcuPhase::Done;
                            self.close_outputs(chs);
                            StepResult::Faulted(Fault::BadIteration)
                        },
                    }
                }
            },
            PcuPhase::Emit { outputs, t_fin, pos } => {
                let nout = self.rt_data.output.len();
                let navail = outputs.len();
                let lim = if nout < navail {
                    nout
                } else {
                    navail
                };
                if pos < lim {
                    let is_empty = outputs[pos].len() == 0;
                    if is_empty {
                        self.phase = PcuPhase::Emit { outputs, t_fin, pos: pos + 1 };
                        StepResult::Progress
                    } else {
                        let payload = PCUData { data: copy_row(&outputs[pos]) };
                        let id = self.rt_data.output[pos].id;
                        if enqueue(chs, id, ChannelElement::new(t_fin, payload)) {
                            self.phase = PcuPhase::Emit { outputs, t_fin, pos: pos + 1 };
                            StepResult::Progress
                        } else {
                            self.phase = PcuPhase::Emit { outputs, t_fin, pos };
                            proof {
                                assert(chs@ =~= old(chs)@);
                            }
                            StepResult::Blocked
                        }
                    }
                } else {
                    let nports = self.rt_data.input.len();
                    let lanes = self.hw_config.num_simd_lanes;
                    let bundle = zero_matrix(nports, lanes);
                    self.phase = PcuPhase::Gather { pos: 0, bundle };
                    StepResult::Progress
                }
            },
        }
    }
}

/// The shape check of `PCU::new`: true when the two configuration lists have
/// the same length and every runtime operation is in its hardware slot's
/// supported set.
pub fn verify_alu_ops(hw_alus: &Vec<ALUHwConfig>, rt_alus: &Vec<ALURtConfig>) -> (r: bool)
    requires
        hw_alus@.len() == rt_alus@.len(),
    ensures
        r == forall|k: int|
            0 <= k < rt_alus@.len() ==> (#[trigger] hw_alus@[k]).supports_spec(rt_alus@[k].op),
{
    let mut k: usize = 0;
    while k < hw_alus.len()
        invariant
            hw_alus@.len() == rt_alus@.len(),
            k <= hw_alus@.len(),
            forall|j: int| 0 <= j < k ==> (#[trigger] hw_alus@[j]).supports_spec(rt_alus@[j].op),
        decreases hw_alus@.len() - k,
    {
        if !hw_alus[k].supports(rt_alus[k].op) {
            return false;
        }
        k += 1;
    }
    true
}

} // verus!
