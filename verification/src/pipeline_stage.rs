//! One pipeline stage of a PCU: a SIMD-wide register file and the ALU that
//! refills it each iteration.

use vstd::prelude::*;

use crate::alu::{ALUInput, ALURtConfig};
use crate::scalar::Scalar;

verus! {

/// The mathematical view of a scalar matrix: a sequence of rows.
pub open spec fn mat_view(m: Vec<Vec<Scalar>>) -> Seq<Seq<Scalar>> {
    m@.map_values(|row: Vec<Scalar>| row@)
}

/// The matrix has `rows` rows of `cols` scalars each.
pub open spec fn mat_dims(m: Seq<Seq<Scalar>>, rows: nat, cols: nat) -> bool {
    &&& m.len() == rows
    &&& forall|i: int| 0 <= i < rows ==> #[trigger] m[i].len() == cols
}

/// The `rows` by `cols` matrix whose every entry is the default `I32(0)`.
pub open spec fn zero_mat(rows: nat, cols: nat) -> Seq<Seq<Scalar>> {
    Seq::new(rows, |i: int| Seq::new(cols, |j: int| Scalar::I32(0)))
}

/// Whether an operand selector can be resolved: its indices are in range of
/// the previous stage's output `prev` (indexed port-major, `prev[port][lane]`)
/// or of this stage's current register file `cur` (indexed lane-major,
/// `cur[lane][register]`).
pub open spec fn sel_ok(sel: ALUInput, prev: Seq<Seq<Scalar>>, cur: Seq<Seq<Scalar>>, lane: int) -> bool {
    match sel {
        ALUInput::PREV(i) => i < prev.len() && lane < prev[i as int].len(),
        ALUInput::PREV_BELOW(i) => i < prev.len() && lane + 1 < prev[i as int].len(),
        ALUInput::NEXT(i) => lane < cur.len() && i < cur[lane].len(),
        ALUInput::CONSTANT(_) => true,
    }
}

/// The operand a selector resolves to for the given SIMD lane: `PREV(i)` reads
/// `prev[i][lane]`, `PREV_BELOW(i)` reads the lane below (`prev[i][lane+1]`),
/// `NEXT(i)` reads register `i` of this stage's own pre-update register file
/// at the current lane (feedback from the prior iteration), and `CONSTANT(v)`
/// is `v`.
pub open spec fn sel_val(sel: ALUInput, prev: Seq<Seq<Scalar>>, cur: Seq<Seq<Scalar>>, lane: int) -> Scalar {
    match sel {
        ALUInput::PREV(i) => prev[i as int][lane],
        ALUInput::PREV_BELOW(i) => prev[i as int][lane + 1],
        ALUInput::NEXT(i) => cur[lane][i as int],
        ALUInput::CONSTANT(v) => v,
    }
}

/// One lane of an iteration is defined when both selectors resolve and the
/// ALU operation is defined on the resolved operands.
pub open spec fn lane_ok(cfg: ALURtConfig, prev: Seq<Seq<Scalar>>, cur: Seq<Seq<Scalar>>, lane: int) -> bool {
    &&& sel_ok(cfg.in_a, prev, cur, lane)
    &&& sel_ok(cfg.in_b, prev, cur, lane)
    &&& cfg.op.apply_defined(
        sel_val(cfg.in_a, prev, cur, lane),
        sel_val(cfg.in_b, prev, cur, lane),
    )
}

/// An iteration of a stage is defined when the target register exists and
/// every lane is defined.
pub open spec fn stage_iter_ok(
    cfg: ALURtConfig,
    prev: Seq<Seq<Scalar>>,
    cur: Seq<Seq<Scalar>>,
    simd: nat,
    depth: nat,
) -> bool {
    &&& cfg.target < depth
    &&& forall|lane: int| 0 <= lane < simd ==> #[trigger] lane_ok(cfg, prev, cur, lane)
}

/// The value lane `lane` computes this iteration.
pub open spec fn stage_result(
    cfg: ALURtConfig,
    prev: Seq<Seq<Scalar>>,
    cur: Seq<Seq<Scalar>>,
    lane: int,
) -> Scalar {
    cfg.op.apply_spec(sel_val(cfg.in_a, prev, cur, lane), sel_val(cfg.in_b, prev, cur, lane))
}

/// The stage's register file after one iteration: each lane holds its computed
/// value in the target register and the default `I32(0)` everywhere else (only
/// the written target is preserved; values needing carry-through are fed back
/// via `NEXT`).
pub open spec fn stage_next(
    cfg: ALURtConfig,
    prev: Seq<Seq<Scalar>>,
    cur: Seq<Seq<Scalar>>,
    simd: nat,
    depth: nat,
) -> Seq<Seq<Scalar>> {
    Seq::new(
        simd,
        |lane: int|
            Seq::new(
                depth,
                |r: int|
                    if r == cfg.target {
                        stage_result(cfg, prev, cur, lane)
                    } else {
                        Scalar::I32(0)
                    },
            ),
    )
}

/// A pipeline stage: one ALU configuration replicated across `simd` lanes,
/// each lane owning `register_depth` registers.
pub struct PipelineStage {
    pub alu_config: ALURtConfig,
    pub simd: usize,
    pub register_depth: usize,
    pub data: Vec<Vec<Scalar>>,
}

impl PipelineStage {
    /// The register file matches the declared dimensions.
    pub open spec fn wf(self) -> bool {
        mat_dims(mat_view(self.data), self.simd as nat, self.register_depth as nat)
    }

    /// A fresh stage: all registers hold `I32(0)`.
    pub fn new(alu_config: ALURtConfig, simd: usize, register_depth: usize) -> (s: PipelineStage)
        ensures
            s.wf(),
            s.alu_config == alu_config,
            s.simd == simd,
            s.register_depth == register_depth,
            mat_view(s.data) == zero_mat(simd as nat, register_depth as nat),
    {
        let data: Vec<Vec<Scalar>> = zero_matrix(simd, register_depth);
        PipelineStage { alu_config, simd, register_depth, data }
    }

    /// Resolve one operand selector against the previous stage's output and
    /// this stage's current register file.
    fn get_input(&self, sel: &ALUInput, prev_stage: &Vec<Vec<Scalar>>, lane: usize) -> (v: Scalar)
        requires
            sel_ok(*sel, mat_view(*prev_stage), mat_view(self.data), lane as int),
        ensures
            v == sel_val(*sel, mat_view(*prev_stage), mat_view(self.data), lane as int),
    {
        match sel {
            ALUInput::PREV(i) => prev_stage[*i][lane],
            ALUInput::PREV_BELOW(i) => {
                let row = &prev_stage[*i];
                let n = row.len();
                proof {
                    assert(lane + 1 < n);
                }
                row[lane + 1]
            },
            ALUInput::NEXT(i) => self.data[lane][*i],
            ALUInput::CONSTANT(v) => *v,
        }
    }

    /// Whether `iterate` is defined on this stage with the given previous
    /// stage output; total, so a runtime can detect the programmer errors
    /// (out-of-range selectors, unsupported operand pairs) instead of relying
    /// on a precondition.
    pub fn check_iter(&self, prev_stage: &Vec<Vec<Scalar>>) -> (r: bool)
        requires
            self.wf(),
        ensures
            r == stage_iter_ok(
                self.alu_config,
                mat_view(*prev_stage),
                mat_view(self.data),
                self.simd as nat,
                self.register_depth as nat,
            ),
    {
        if !(self.alu_config.target < self.register_depth) {
            return false;
        }
        let mut lane: usize = 0;
        while lane < self.simd
            invariant
                self.wf(),
                lane <= self.simd,
                self.alu_config.target < self.register_depth,
                forall|l: int|
                    0 <= l < lane ==> #[trigger] lane_ok(
                        self.alu_config,
                        mat_view(*prev_stage),
                        mat_view(self.data),
                        l,
                    ),
            decreases self.simd - lane,
        {
            if !check_sel(&self.alu_config.in_a, prev_stage, &self.data, lane) {
                proof {
                    assert(!lane_ok(self.alu_config, mat_view(*prev_stage), mat_view(self.data), lane as int));
                }
                return false;
            }
            if !check_sel(&self.alu_config.in_b, prev_stage, &self.data, lane) {
                proof {
                    assert(!lane_ok(self.alu_config, mat_view(*prev_stage), mat_view(self.data), lane as int));
                }
                return false;
            }
            let lhs = self.get_input(&self.alu_config.in_a, prev_stage, lane);
            let rhs = self.get_input(&self.alu_config.in_b, prev_stage, lane);
            if self.alu_config.op.checked_apply(&lhs, &rhs).is_none() {
                proof {
                    assert(!lane_ok(self.alu_config, mat_view(*prev_stage), mat_view(self.data), lane as int));
                }
                return false;
            }
            proof {
                assert(lane_ok(self.alu_config, mat_view(*prev_stage), mat_view(self.data), lane as int));
            }
            lane += 1;
        }
        true
    }

    /// The fresh register file one iteration produces: every lane resolves its
    /// two operands, applies the ALU operation, and writes the result to the
    /// target register; all other registers reset to `I32(0)`.
    pub fn compute_next(&self, prev_stage: &Vec<Vec<Scalar>>) -> (next: Vec<Vec<Scalar>>)
        requires
            self.wf(),
            stage_iter_ok(
                self.alu_config,
                mat_view(*prev_stage),
                mat_view(self.data),
                self.simd as nat,
                self.register_depth as nat,
            ),
        ensures
            mat_view(next) == stage_next(
                self.alu_config,
                mat_view(*prev_stage),
                mat_view(self.data),
                self.simd as nat,
                self.register_depth as nat,
            ),
            next@.len() == self.simd,
    {
        let ghost prev0 = mat_view(*prev_stage);
        let ghost cur0 = mat_view(self.data);
        let ghost spec_out = stage_next(
            self.alu_config,
            prev0,
            cur0,
            self.simd as nat,
            self.register_depth as nat,
        );
        let mut next: Vec<Vec<Scalar>> = Vec::new();
        let mut lane: usize = 0;
        while lane < self.simd
            invariant
                self.wf(),
                stage_iter_ok(self.alu_config, prev0, cur0, self.simd as nat, self.register_depth as nat),
                prev0 == mat_view(*prev_stage),
                cur0 == mat_view(self.data),
                spec_out == stage_next(self.alu_config, prev0, cur0, self.simd as nat, self.register_depth as nat),
                lane <= self.simd,
                next@.len() == lane,
                forall|l: int| 0 <= l < lane ==> #[trigger] next@[l]@ == spec_out[l],
            decreases self.simd - lane,
        {
            proof {
                assert(lane_ok(self.alu_config, prev0, cur0, lane as int));
            }
            let lhs = self.get_input(&self.alu_config.in_a, prev_stage, lane);
            let rhs = self.get_input(&self.alu_config.in_b, prev_stage, lane);
            let result = self.alu_config.op.apply(&lhs, &rhs);
            let mut row: Vec<Scalar> = vec![Scalar::I32(0); self.register_depth];
            row[self.alu_config.target] = result;
            proof {
                assert(row@ =~= spec_out[lane as int]);
            }
            next.push(row);
            lane += 1;
        }
        proof {
            assert(mat_view(next) =~= spec_out);
        }
        next
    }

    /// One cycle of pipelining: replace the register file with `compute_next`
    /// and return the time at which the outputs are available — the input
    /// time plus the operation's latency.
    pub fn iterate(&mut self, prev_stage: &Vec<Vec<Scalar>>, time: u64) -> (t_out: u64)
        requires
            old(self).wf(),
            stage_iter_ok(
                old(self).alu_config,
                mat_view(*prev_stage),
                mat_view(old(self).data),
                old(self).simd as nat,
                old(self).register_depth as nat,
            ),
            time + old(self).alu_config.op.delay_spec() <= u64::MAX,
        ensures
            final(self).wf(),
            final(self).alu_config == old(self).alu_config,
            final(self).simd == old(self).simd,
            final(self).register_depth == old(self).register_depth,
            mat_view(final(self).data) == stage_next(
                old(self).alu_config,
                mat_view(*prev_stage),
                mat_view(old(self).data),
                old(self).simd as nat,
                old(self).register_depth as nat,
            ),
            t_out == time + old(self).alu_config.op.delay_spec(),
    {
        let next = self.compute_next(prev_stage);
        let t_out = time + (self.alu_config.op.delay() as u64);
        self.data = next;
        proof {
            assert(self.wf()) by {
                assert forall|l: int| 0 <= l < self.simd implies #[trigger] mat_view(
                    self.data,
                )[l].len() == self.register_depth by {
                }
            }
        }
        t_out
    }
}

/// Executable form of `sel_ok`.
fn check_sel(sel: &ALUInput, prev_stage: &Vec<Vec<Scalar>>, cur: &Vec<Vec<Scalar>>, lane: usize) -> (r:
    bool)
    ensures
        r == sel_ok(*sel, mat_view(*prev_stage), mat_view(*cur), lane as int),
{
    match sel {
        ALUInput::PREV(i) => *i < prev_stage.len() && lane < prev_stage[*i].len(),
        ALUInput::PREV_BELOW(i) => {
            if *i < prev_stage.len() {
                let n = prev_stage[*i].len();
                lane < n && lane + 1 < n
            } else {
                false
            }
        },
        ALUInput::NEXT(i) => lane < cur.len() && *i < cur[lane].len(),
        ALUInput::CONSTANT(_) => true,
    }
}

/// A `rows` by `cols` matrix of `I32(0)`.
pub fn zero_matrix(rows: usize, cols: usize) -> (m: Vec<Vec<Scalar>>)
    ensures
        mat_view(m) == zero_mat(rows as nat, cols as nat),
        mat_dims(mat_view(m), rows as nat, cols as nat),
{
    let row: Vec<Scalar> = vec![Scalar::I32(0); cols];
    let mut m: Vec<Vec<Scalar>> = Vec::new();
    let mut l: usize = 0;
    while l < rows
        invariant
            l <= rows,
            m@.len() == l,
            row@.len() == cols,
            forall|i: int| 0 <= i < cols ==> row@[i] == Scalar::I32(0),
            forall|i: int| 0 <= i < l ==> #[trigger] m@[i]@ == row@,
        decreases rows - l,
    {
        let r: Vec<Scalar> = copy_row(&row);
        m.push(r);
        l += 1;
    }
    proof {
        assert forall|i: int| 0 <= i < rows implies #[trigger] mat_view(m)[i] == zero_mat(
            rows as nat,
            cols as nat,
        )[i] by {
            assert(mat_view(m)[i] =~= zero_mat(rows as nat, cols as nat)[i]);
        }
        assert(mat_view(m) =~= zero_mat(rows as nat, cols as nat));
    }
    m
}

/// A copy of a scalar row (scalars are plain values, so this is exact).
pub fn copy_row(row: &Vec<Scalar>) -> (r: Vec<Scalar>)
    ensures
        r@ == row@,
{
    let mut r: Vec<Scalar> = Vec::new();
    let mut k: usize = 0;
    while k < row.len()
        invariant
            k <= row@.len(),
            r@ == row@.take(k as int),
        decreases row@.len() - k,
    {
        r.push(row[k]);
        proof {
            assert(r@ =~= row@.take(k + 1));
        }
        k += 1;
    }
    proof {
        assert(r@ =~= row@);
    }
    r
}

/// Whether two scalar rows hold the same values.
pub fn rows_eq(a: &Vec<Scalar>, b: &Vec<Scalar>) -> (r: bool)
    ensures
        r == (a@ == b@),
{
    if a.len() != b.len() {
        return false;
    }
    let mut k: usize = 0;
    while k < a.len()
        invariant
            a@.len() == b@.len(),
            k <= a@.len(),
            forall|j: int| 0 <= j < k ==> a@[j] == b@[j],
        decreases a@.len() - k,
    {
        if a[k] != b[k] {
            proof {
                assert(a@ != b@);
            }
            return false;
        }
        k += 1;
    }
    proof {
        assert(a@ =~= b@);
    }
    true
}

/// A copy of a scalar matrix.
pub fn copy_mat(m: &Vec<Vec<Scalar>>) -> (r: Vec<Vec<Scalar>>)
    ensures
        mat_view(r) == mat_view(*m),
        r@.len() == m@.len(),
{
    let mut r: Vec<Vec<Scalar>> = Vec::new();
    let mut k: usize = 0;
    while k < m.len()
        invariant
            k <= m@.len(),
            r@.len() == k,
            forall|i: int| 0 <= i < k ==> #[trigger] r@[i]@ == m@[i]@,
        decreases m@.len() - k,
    {
        let row = copy_row(&m[k]);
        r.push(row);
        k += 1;
    }
    proof {
        assert(mat_view(*m) =~= mat_view(r));
    }
    r
}

/// Pipeline state persistence: when the second operand reads this stage's own
/// target register back (`NEXT(target)`), the value an iteration writes to the
/// target register is the operation applied to the first operand and the
/// *previous* iteration's result in that register — the stage carries state
/// from one iteration to the next.
pub proof fn lemma_state_persistence(
    cfg: ALURtConfig,
    prev: Seq<Seq<Scalar>>,
    cur: Seq<Seq<Scalar>>,
    simd: nat,
    depth: nat,
    lane: int,
)
    requires
        stage_iter_ok(cfg, prev, cur, simd, depth),
        cfg.in_b == ALUInput::NEXT(cfg.target),
        0 <= lane < simd,
    ensures
        stage_next(cfg, prev, cur, simd, depth)[lane][cfg.target as int] == cfg.op.apply_spec(
            sel_val(cfg.in_a, prev, cur, lane),
            cur[lane][cfg.target as int],
        ),
{
    assert(sel_val(cfg.in_b, prev, cur, lane) == cur[lane][cfg.target as int]);
}

} // verus!
