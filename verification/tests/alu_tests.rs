use hwsim::alu::{ALUHwConfig, ALUInput, ALUOp, ALURtConfig};
use hwsim::scalar::Scalar;

#[test]
fn test_alu_op_int_add() {
    let op = ALUOp::ADD_I32;
    let v1 = Scalar::I32(5);
    let v2 = Scalar::I32(10);
    let r = op.apply(&v1, &v2);
    if let Scalar::I32(x) = r {
        assert_eq!(x, 15, "Failed addition.")
    } else {
        assert!(false, "Wrong resulting type.")
    }
}

#[test]
fn test_alu_delays() {
    assert_eq!(ALUOp::ADD_I32.delay(), 1);
    assert_eq!(ALUOp::SUB_I32.delay(), 1);
    assert_eq!(ALUOp::MUL_I32.delay(), 2);
    assert_eq!(ALUOp::DIV_I32.delay(), 4);
    assert_eq!(ALUOp::ADD_FP32.delay(), 2);
    assert_eq!(ALUOp::SUB_FP32.delay(), 2);
    assert_eq!(ALUOp::MUL_FP32.delay(), 3);
    assert_eq!(ALUOp::DIV_FP32.delay(), 5);
}

#[test]
fn test_alu_apply_each_int_op() {
    assert_eq!(
        ALUOp::SUB_I32.apply(&Scalar::I32(7), &Scalar::I32(10)),
        Scalar::I32(-3)
    );
    assert_eq!(
        ALUOp::MUL_I32.apply(&Scalar::I32(-4), &Scalar::I32(6)),
        Scalar::I32(-24)
    );
    assert_eq!(
        ALUOp::DIV_I32.apply(&Scalar::I32(-7), &Scalar::I32(2)),
        Scalar::I32(-3)
    );
    assert_eq!(
        ALUOp::DIV_I32.apply(&Scalar::I32(9), &Scalar::I32(3)),
        Scalar::I32(3)
    );
}

#[test]
fn test_checked_apply_rejects_bad_operands() {
    // Mismatched variants are unsupported.
    assert!(ALUOp::ADD_I32
        .checked_apply(&Scalar::I32(1), &Scalar::Bit(true))
        .is_none());
    // Floating-point arithmetic is outside the verified core.
    assert!(ALUOp::ADD_FP32
        .checked_apply(&Scalar::FP32(0), &Scalar::FP32(0))
        .is_none());
    // Division by zero.
    assert!(ALUOp::DIV_I32
        .checked_apply(&Scalar::I32(1), &Scalar::I32(0))
        .is_none());
    // Overflow.
    assert!(ALUOp::ADD_I32
        .checked_apply(&Scalar::I32(i32::MAX), &Scalar::I32(1))
        .is_none());
    assert!(ALUOp::MUL_I32
        .checked_apply(&Scalar::I32(i32::MIN), &Scalar::I32(-1))
        .is_none());
    // And the same operation on good operands succeeds.
    assert_eq!(
        ALUOp::ADD_I32.checked_apply(&Scalar::I32(2), &Scalar::I32(3)),
        Some(Scalar::I32(5))
    );
}

#[test]
fn test_get_input_regs() {
    let cfg = ALURtConfig {
        op: ALUOp::ADD_I32,
        in_a: ALUInput::PREV(3),
        in_b: ALUInput::PREV_BELOW(1),
        target: 0,
    };
    assert_eq!(cfg.get_input_regs(), vec![1, 3]);

    let cfg2 = ALURtConfig {
        op: ALUOp::ADD_I32,
        in_a: ALUInput::PREV(0),
        in_b: ALUInput::NEXT(0),
        target: 0,
    };
    // NEXT reads the stage's own registers, not an input port.
    assert_eq!(cfg2.get_input_regs(), vec![0]);

    let cfg3 = ALURtConfig {
        op: ALUOp::ADD_I32,
        in_a: ALUInput::CONSTANT(Scalar::I32(5)),
        in_b: ALUInput::NEXT(2),
        target: 0,
    };
    assert_eq!(cfg3.get_input_regs(), Vec::<usize>::new());
}

#[test]
fn test_hw_config_supports() {
    let hw = ALUHwConfig {
        supported_ops: vec![ALUOp::ADD_I32, ALUOp::MUL_I32],
    };
    assert!(hw.supports(ALUOp::ADD_I32));
    assert!(hw.supports(ALUOp::MUL_I32));
    assert!(!hw.supports(ALUOp::DIV_I32));
}

#[test]
fn test_scalar_width_and_wildcard_eq() {
    assert_eq!(Scalar::I32(0).width(), 32);
    assert_eq!(Scalar::FP32(0).width(), 32);
    assert_eq!(Scalar::Bit(true).width(), 1);

    assert!(Scalar::DontCare.wild_eq(&Scalar::I32(7)));
    assert!(Scalar::I32(7).wild_eq(&Scalar::DontCare));
    assert!(Scalar::I32(7).wild_eq(&Scalar::I32(7)));
    assert!(!Scalar::I32(7).wild_eq(&Scalar::I32(8)));
    assert!(Scalar::Bit(false).wild_eq(&Scalar::Bit(false)));
    assert!(!Scalar::FP32(1).wild_eq(&Scalar::FP32(2)));
}
