use hwsim::alu::{ALUHwConfig, ALUInput, ALUOp, ALURtConfig};
use hwsim::errors::{ConfigError, Fault};
use hwsim::pcu::{HwConfig, PCUData, RtConfig, PCU};
use hwsim::scalar::Scalar;
use hwsim::sim::{CheckerContext, Component, GeneratorContext, ProgramBuilder};

fn stream_of(values: Vec<i32>) -> Vec<PCUData> {
    values
        .into_iter()
        .map(|x| PCUData {
            data: vec![Scalar::I32(x)],
        })
        .collect()
}

fn add_mul_hw(num_ports: usize) -> HwConfig {
    HwConfig {
        alu_configs: vec![ALUHwConfig {
            supported_ops: vec![ALUOp::ADD_I32, ALUOp::MUL_I32],
        }],
        num_simd_lanes: 1,
        num_vector_input_ports: num_ports,
    }
}

fn two_port_rt(op: ALUOp) -> RtConfig {
    RtConfig {
        alu_configs: vec![ALURtConfig {
            op,
            in_a: ALUInput::PREV(0),
            in_b: ALUInput::PREV(1),
            target: 0,
        }],
    }
}

#[test]
fn simple_pcu_test() {
    let mut parent = ProgramBuilder::default();
    const CHAN_SIZE: usize = 1;

    let hw_config = add_mul_hw(2);
    let rt_config = two_port_rt(ALUOp::ADD_I32);

    let (snd0, i0) = parent.bounded(CHAN_SIZE);
    let (snd1, i1) = parent.bounded(CHAN_SIZE);
    let (o0, rcv) = parent.bounded(CHAN_SIZE);

    let pcu = PCU::new(hw_config, rt_config, vec![i0, i1], vec![o0]).unwrap();

    let snd0_gen = stream_of((0..10).collect());
    let snd1_gen = stream_of((0..10).map(|x| 2 * x).collect());
    let rcv_gen = stream_of((0..10).map(|x| 3 * x).collect());

    let gen0 = GeneratorContext::new(snd0_gen, snd0);
    let gen1 = GeneratorContext::new(snd1_gen, snd1);
    let rcv = CheckerContext::new(rcv_gen, rcv);

    parent.add_child(Component::Generator(gen0));
    parent.add_child(Component::Generator(gen1));
    parent.add_child(Component::Checker(rcv));
    parent.add_child(Component::Pcu(pcu));
    let executed = parent.initialize().unwrap().run();
    println!("dump_failures: {:?}", executed.dump_failures());
    assert!(executed.passed());
}

#[test]
fn test_single_pcu_mul_products() {
    // Port 0 carries 0..10, port 1 carries the even numbers 0..20; a single
    // MUL stage yields i * 2i.
    let mut parent = ProgramBuilder::default();
    const CHAN_SIZE: usize = 8;

    let (snd0, i0) = parent.bounded(CHAN_SIZE);
    let (snd1, i1) = parent.bounded(CHAN_SIZE);
    let (o0, rcv) = parent.bounded(CHAN_SIZE);

    let pcu = PCU::new(add_mul_hw(2), two_port_rt(ALUOp::MUL_I32), vec![i0, i1], vec![o0]).unwrap();

    let gen0 = GeneratorContext::new(stream_of((0..10).collect()), snd0);
    let gen1 = GeneratorContext::new(stream_of((0..10).map(|x| 2 * x).collect()), snd1);
    let expected = stream_of(vec![0, 2, 8, 18, 32, 50, 72, 98, 128, 162]);
    let rcv = CheckerContext::new(expected, rcv);

    parent.add_child(Component::Generator(gen0));
    parent.add_child(Component::Generator(gen1));
    parent.add_child(Component::Checker(rcv));
    parent.add_child(Component::Pcu(pcu));
    let executed = parent.initialize().unwrap().run();
    println!("dump_failures: {:?}", executed.dump_failures());
    assert!(executed.passed());
}

#[test]
fn test_pcu_new_rejects_bad_configs() {
    let mut parent = ProgramBuilder::default();
    let (_s0, i0) = parent.bounded(1);
    let (_s1, i1) = parent.bounded(1);
    let (o0, _r0) = parent.bounded(1);

    // Shape mismatch: two hardware slots, one runtime config.
    let hw = HwConfig {
        alu_configs: vec![
            ALUHwConfig {
                supported_ops: vec![ALUOp::ADD_I32],
            },
            ALUHwConfig {
                supported_ops: vec![ALUOp::ADD_I32],
            },
        ],
        num_simd_lanes: 1,
        num_vector_input_ports: 2,
    };
    match PCU::new(hw, two_port_rt(ALUOp::ADD_I32), vec![i0, i1], vec![o0]) {
        Err(ConfigError::ShapeMismatch) => (),
        _ => panic!("expected a shape mismatch"),
    }

    // Unsupported operation.
    let mut parent = ProgramBuilder::default();
    let (_s0, i0) = parent.bounded(1);
    let (_s1, i1) = parent.bounded(1);
    let (o0, _r0) = parent.bounded(1);
    let hw = HwConfig {
        alu_configs: vec![ALUHwConfig {
            supported_ops: vec![ALUOp::ADD_I32],
        }],
        num_simd_lanes: 1,
        num_vector_input_ports: 2,
    };
    match PCU::new(hw, two_port_rt(ALUOp::MUL_I32), vec![i0, i1], vec![o0]) {
        Err(ConfigError::UnsupportedOp) => (),
        _ => panic!("expected an unsupported operation"),
    }

    // Empty pipeline.
    let mut parent = ProgramBuilder::default();
    let (_s0, i0) = parent.bounded(1);
    let (o0, _r0) = parent.bounded(1);
    let hw = HwConfig {
        alu_configs: vec![],
        num_simd_lanes: 1,
        num_vector_input_ports: 1,
    };
    let rt = RtConfig { alu_configs: vec![] };
    match PCU::new(hw, rt, vec![i0], vec![o0]) {
        Err(ConfigError::EmptyPipeline) => (),
        _ => panic!("expected an empty pipeline error"),
    }

    // Wrong port count: the configuration promises two ports, one receiver.
    let mut parent = ProgramBuilder::default();
    let (_s0, i0) = parent.bounded(1);
    let (o0, _r0) = parent.bounded(1);
    match PCU::new(add_mul_hw(2), two_port_rt(ALUOp::ADD_I32), vec![i0], vec![o0]) {
        Err(ConfigError::WrongPortCount) => (),
        _ => panic!("expected a wrong port count"),
    }
}

#[test]
fn test_early_closure_terminates_pipeline() {
    // One of two required inputs closes after 5 elements: the PCU emits 5
    // outputs and closes; the downstream checker observes closure in turn.
    let mut parent = ProgramBuilder::default();
    const CHAN_SIZE: usize = 8;

    let (snd0, i0) = parent.bounded(CHAN_SIZE);
    let (snd1, i1) = parent.bounded(CHAN_SIZE);
    let (o0, rcv) = parent.bounded(CHAN_SIZE);

    let pcu = PCU::new(add_mul_hw(2), two_port_rt(ALUOp::ADD_I32), vec![i0, i1], vec![o0]).unwrap();

    let gen0 = GeneratorContext::new(stream_of((0..5).collect()), snd0);
    let gen1 = GeneratorContext::new(stream_of((0..10).map(|x| 10 * x).collect()), snd1);
    let expected = stream_of((0..5).map(|x| x + 10 * x).collect());
    let rcv = CheckerContext::new(expected, rcv);

    parent.add_child(Component::Generator(gen0));
    parent.add_child(Component::Generator(gen1));
    parent.add_child(Component::Checker(rcv));
    parent.add_child(Component::Pcu(pcu));
    let executed = parent.initialize().unwrap().run();
    println!("dump_failures: {:?}", executed.dump_failures());
    assert!(executed.passed());
}

#[test]
fn test_backpressured_pipeline() {
    // A generator of 1000 values into a capacity-8 channel with a slowed
    // consumer: no deadlock, every value delivered in order.
    let mut parent = ProgramBuilder::default();
    const CHAN_SIZE: usize = 8;

    let (snd0, i0) = parent.bounded(CHAN_SIZE);
    let (snd1, i1) = parent.bounded(CHAN_SIZE);
    let (o0, rcv) = parent.bounded(CHAN_SIZE);

    let pcu = PCU::new(add_mul_hw(2), two_port_rt(ALUOp::ADD_I32), vec![i0, i1], vec![o0]).unwrap();

    let gen0 = GeneratorContext::new(stream_of((0..1000).collect()), snd0);
    let gen1 = GeneratorContext::new(stream_of((0..1000).map(|_| 0).collect()), snd1);
    let expected = stream_of((0..1000).collect());
    let rcv = CheckerContext::new_slow(expected, rcv, 3);

    parent.add_child(Component::Generator(gen0));
    parent.add_child(Component::Generator(gen1));
    parent.add_child(Component::Checker(rcv));
    parent.add_child(Component::Pcu(pcu));
    let executed = parent.initialize().unwrap().run();
    println!("dump_failures: {:?}", executed.dump_failures());
    assert!(executed.passed());
}

#[test]
fn test_checker_reports_mismatch() {
    let mut parent = ProgramBuilder::default();
    let (snd0, rcv0) = parent.bounded(4);
    let gen = GeneratorContext::new(stream_of(vec![1, 2, 3]), snd0);
    let rcv = CheckerContext::new(stream_of(vec![1, 2, 4]), rcv0);
    parent.add_child(Component::Generator(gen));
    parent.add_child(Component::Checker(rcv));
    let executed = parent.initialize().unwrap().run();
    assert!(!executed.passed());
    assert!(executed
        .dump_failures()
        .iter()
        .any(|f| matches!(f, Fault::CheckMismatch)));
}

#[test]
fn test_initialize_rejects_bad_wiring() {
    // A channel with a sender attached twice is refused.
    let mut parent = ProgramBuilder::default();
    let (snd0, rcv0) = parent.bounded(4);
    let gen0 = GeneratorContext::new(stream_of(vec![1]), snd0);
    let gen1 = GeneratorContext::new(
        stream_of(vec![2]),
        hwsim::channel::Sender { id: 0 },
    );
    let rcv = CheckerContext::new(stream_of(vec![1]), rcv0);
    parent.add_child(Component::Generator(gen0));
    parent.add_child(Component::Generator(gen1));
    parent.add_child(Component::Checker(rcv));
    match parent.initialize() {
        Err(ConfigError::BadWiring) => (),
        _ => panic!("expected a wiring error"),
    }
}

#[test]
fn test_runtime_selector_fault() {
    // A second stage whose selector indexes a register that does not exist
    // passes construction (only the first stage's ports are checked against
    // the receivers) but faults at run time.
    let mut parent = ProgramBuilder::default();
    let (snd0, i0) = parent.bounded(4);
    let (o0, rcv) = parent.bounded(4);

    let hw = HwConfig {
        alu_configs: vec![
            ALUHwConfig {
                supported_ops: vec![ALUOp::ADD_I32],
            },
            ALUHwConfig {
                supported_ops: vec![ALUOp::ADD_I32],
            },
        ],
        num_simd_lanes: 1,
        num_vector_input_ports: 1,
    };
    let rt = RtConfig {
        alu_configs: vec![
            ALURtConfig {
                op: ALUOp::ADD_I32,
                in_a: ALUInput::PREV(0),
                in_b: ALUInput::PREV(0),
                target: 0,
            },
            ALURtConfig {
                op: ALUOp::ADD_I32,
                in_a: ALUInput::PREV(7),
                in_b: ALUInput::PREV(0),
                target: 0,
            },
        ],
    };
    let pcu = PCU::new(hw, rt, vec![i0], vec![o0]).unwrap();

    let gen = GeneratorContext::new(stream_of(vec![1]), snd0);
    let rcv = CheckerContext::new(Vec::new(), rcv);
    parent.add_child(Component::Generator(gen));
    parent.add_child(Component::Checker(rcv));
    parent.add_child(Component::Pcu(pcu));
    let executed = parent.initialize().unwrap().run();
    assert!(!executed.passed());
    assert!(executed
        .dump_failures()
        .iter()
        .any(|f| matches!(f, Fault::BadIteration)));
}

#[test]
fn test_cyclic_wait_is_reported_as_deadlock() {
    // A PCU whose input is fed from its own output can never gather an
    // element: the run terminates and reports the deadlock.
    let mut parent = ProgramBuilder::default();
    let (o0, i0) = parent.bounded(4);

    let pcu = PCU::new(
        add_mul_hw(1),
        RtConfig {
            alu_configs: vec![ALURtConfig {
                op: ALUOp::ADD_I32,
                in_a: ALUInput::PREV(0),
                in_b: ALUInput::PREV(0),
                target: 0,
            }],
        },
        vec![i0],
        vec![o0],
    )
    .unwrap();

    parent.add_child(Component::Pcu(pcu));
    let executed = parent.initialize().unwrap().run();
    assert!(!executed.passed());
    assert!(executed
        .dump_failures()
        .iter()
        .any(|f| matches!(f, Fault::Deadlock)));
}
