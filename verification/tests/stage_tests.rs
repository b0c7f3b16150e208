use hwsim::alu::{ALUInput, ALUOp, ALURtConfig};
use hwsim::pipeline_stage::PipelineStage;
use hwsim::scalar::Scalar;

fn feedback_stage() -> PipelineStage {
    let alu_rt_config_1 = ALURtConfig {
        op: ALUOp::ADD_I32,
        in_a: ALUInput::PREV(0),
        in_b: ALUInput::NEXT(0),
        target: 0,
    };
    PipelineStage::new(alu_rt_config_1, 1, 1)
}

#[test]
fn pipeline_holds_state_test() {
    let t_0: u64 = 0;
    let mut pl = feedback_stage();
    let input = vec![vec![Scalar::I32(1)]];

    let t_1 = pl.iterate(&input, t_0);
    assert_eq!(pl.data[0][0], Scalar::I32(1));
    let _ = pl.iterate(&input, t_1);
    assert_eq!(pl.data[0][0], Scalar::I32(2));
}

#[test]
fn test_feedback_accumulates() {
    // Register sequence 1, 2, 3, ... when NEXT(0) feeds the target back.
    let mut pl = feedback_stage();
    let input = vec![vec![Scalar::I32(1)]];
    let mut t: u64 = 0;
    for round in 1..=5i32 {
        t = pl.iterate(&input, t);
        assert_eq!(pl.data[0][0], Scalar::I32(round));
    }
}

#[test]
fn test_stage_delay() {
    // Output time is the input time plus the operation's latency.
    let cfg = ALURtConfig {
        op: ALUOp::MUL_I32,
        in_a: ALUInput::PREV(0),
        in_b: ALUInput::PREV(1),
        target: 0,
    };
    let mut pl = PipelineStage::new(cfg, 1, 1);
    let input = vec![vec![Scalar::I32(3)], vec![Scalar::I32(4)]];
    let t_out = pl.iterate(&input, 10);
    assert_eq!(t_out, 12);
    assert_eq!(pl.data[0][0], Scalar::I32(12));

    let cfg2 = ALURtConfig {
        op: ALUOp::ADD_I32,
        in_a: ALUInput::PREV(0),
        in_b: ALUInput::PREV(1),
        target: 0,
    };
    let mut pl2 = PipelineStage::new(cfg2, 1, 1);
    let t_out2 = pl2.iterate(&input, 10);
    assert_eq!(t_out2, 11);
}

#[test]
fn test_constant_and_prev_below_inputs() {
    // CONSTANT supplies a literal; PREV_BELOW reads the SIMD lane below.
    let cfg = ALURtConfig {
        op: ALUOp::ADD_I32,
        in_a: ALUInput::PREV_BELOW(0),
        in_b: ALUInput::CONSTANT(Scalar::I32(100)),
        target: 0,
    };
    let mut pl = PipelineStage::new(cfg, 1, 1);
    // One port whose vector has two lanes: lane 0 reads lane 1's value.
    let input = vec![vec![Scalar::I32(7), Scalar::I32(9)]];
    let _ = pl.iterate(&input, 0);
    assert_eq!(pl.data[0][0], Scalar::I32(109));
}

#[test]
fn test_non_target_registers_reset() {
    // With depth 2 and target 1, register 0 resets to I32(0) each iteration.
    let cfg = ALURtConfig {
        op: ALUOp::ADD_I32,
        in_a: ALUInput::PREV(0),
        in_b: ALUInput::PREV(1),
        target: 1,
    };
    let mut pl = PipelineStage::new(cfg, 1, 2);
    let input = vec![vec![Scalar::I32(20)], vec![Scalar::I32(22)]];
    let _ = pl.iterate(&input, 0);
    assert_eq!(pl.data[0][0], Scalar::I32(0));
    assert_eq!(pl.data[0][1], Scalar::I32(42));
}

#[test]
fn test_check_iter_detects_programmer_errors() {
    // Out-of-range selector.
    let cfg = ALURtConfig {
        op: ALUOp::ADD_I32,
        in_a: ALUInput::PREV(5),
        in_b: ALUInput::PREV(0),
        target: 0,
    };
    let pl = PipelineStage::new(cfg, 1, 1);
    let input = vec![vec![Scalar::I32(1)]];
    assert!(!pl.check_iter(&input));

    // Mismatched operand variants.
    let cfg2 = ALURtConfig {
        op: ALUOp::ADD_I32,
        in_a: ALUInput::PREV(0),
        in_b: ALUInput::CONSTANT(Scalar::Bit(true)),
        target: 0,
    };
    let pl2 = PipelineStage::new(cfg2, 1, 1);
    assert!(!pl2.check_iter(&input));

    // A well-formed configuration passes.
    let pl3 = feedback_stage();
    assert!(pl3.check_iter(&input));
}
