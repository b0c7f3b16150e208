use std::collections::HashMap;

use hwsim::alu::{ALUHwConfig, ALUInput, ALUOp, ALURtConfig};
use hwsim::channel::PeekResult;
use hwsim::errors::{ConfigError, Fault};
use hwsim::pcu::{self, PCUData, PCU};
use hwsim::scalar::Scalar;
use hwsim::sim::{CheckerContext, Component, GeneratorContext, ProgramBuilder};
use hwsim::switch::{select_input, HwConfig, RtConfig, Selection, Switch, SwitchMode};

fn int_stream(values: Vec<i32>) -> Vec<PCUData> {
    values
        .into_iter()
        .map(|x| PCUData {
            data: vec![Scalar::I32(x)],
        })
        .collect()
}

fn delay_table(num_inputs: usize, num_outputs: usize, delay: u64) -> Vec<Vec<u64>> {
    vec![vec![delay; num_outputs]; num_inputs]
}

#[test]
fn test_passthrough() {
    let mut parent = ProgramBuilder::default();
    const CHAN_SIZE: usize = 8;

    let (snd, input) = parent.bounded(CHAN_SIZE);
    let (output, rcv) = parent.bounded(CHAN_SIZE);

    let map: HashMap<_, _> = [(0, vec![0])].into_iter().collect();

    let switch = Switch::new(
        HwConfig {
            simd: 1,
            datatype_width: Scalar::I32(0).width(),
            num_inputs: 1,
            num_outputs: 1,
            mode: SwitchMode::SingleEnqueueSingleDequeue,
            delay: delay_table(1, 1, 0),
        },
        RtConfig { routing_table: map },
        vec![input],
        vec![output],
    )
    .unwrap();

    let gen = GeneratorContext::new(int_stream((0..10).collect()), snd);
    let rcv = CheckerContext::new(int_stream((0..10).collect()), rcv);

    parent.add_child(Component::Generator(gen));
    parent.add_child(Component::Checker(rcv));
    parent.add_child(Component::Switch(switch));
    let executed = parent.initialize().unwrap().run();
    assert!(executed.passed());
}

#[test]
fn test_route() {
    let mut parent = ProgramBuilder::default();
    const CHAN_SIZE: usize = 8;

    let (inputs_snd0, inputs_rcv0) = parent.bounded(CHAN_SIZE);
    let (inputs_snd1, inputs_rcv1) = parent.bounded(CHAN_SIZE);

    let (outputs_snd0, outputs_rcv0) = parent.bounded(CHAN_SIZE);
    let (outputs_snd1, outputs_rcv1) = parent.bounded(CHAN_SIZE);

    let table: HashMap<_, _> = [(0, vec![1])].into_iter().collect();

    let switch = Switch::new(
        HwConfig {
            simd: 1,
            datatype_width: Scalar::I32(0).width(),
            num_inputs: 2,
            num_outputs: 2,
            mode: SwitchMode::SingleEnqueueSingleDequeue,
            delay: delay_table(2, 2, 0),
        },
        RtConfig {
            routing_table: table,
        },
        vec![inputs_rcv0, inputs_rcv1],
        vec![outputs_snd0, outputs_snd1],
    )
    .unwrap();

    let gen0 = GeneratorContext::new(int_stream((0..10).collect()), inputs_snd0);
    let gen1 = GeneratorContext::new(Vec::new(), inputs_snd1);
    let rcv0 = CheckerContext::new(Vec::new(), outputs_rcv0);
    let rcv1 = CheckerContext::new(int_stream((0..10).collect()), outputs_rcv1);

    parent.add_child(Component::Generator(gen0));
    parent.add_child(Component::Generator(gen1));
    parent.add_child(Component::Checker(rcv0));
    parent.add_child(Component::Checker(rcv1));
    parent.add_child(Component::Switch(switch));
    let executed = parent.initialize().unwrap().run();
    assert!(executed.passed());
}

#[test]
fn test_broadcast() {
    let mut parent = ProgramBuilder::default();
    const CHAN_SIZE: usize = 8;

    let (snd, input) = parent.bounded(CHAN_SIZE);
    let (output0, rcv0) = parent.bounded(CHAN_SIZE);
    let (output1, rcv1) = parent.bounded(CHAN_SIZE);

    let table: HashMap<_, _> = [(0, vec![0, 1])].into_iter().collect();

    let switch = Switch::new(
        HwConfig {
            simd: 1,
            datatype_width: Scalar::I32(0).width(),
            num_inputs: 1,
            num_outputs: 2,
            mode: SwitchMode::SingleEnqueueSingleDequeue,
            delay: delay_table(1, 2, 0),
        },
        RtConfig {
            routing_table: table,
        },
        vec![input],
        vec![output0, output1],
    )
    .unwrap();

    let gen = GeneratorContext::new(int_stream((0..10).collect()), snd);
    let rcv0 = CheckerContext::new(int_stream((0..10).collect()), rcv0);
    let rcv1 = CheckerContext::new(int_stream((0..10).collect()), rcv1);

    parent.add_child(Component::Generator(gen));
    parent.add_child(Component::Checker(rcv0));
    parent.add_child(Component::Checker(rcv1));
    parent.add_child(Component::Switch(switch));
    let executed = parent.initialize().unwrap().run();
    executed.dump_failures();
    assert!(executed.passed());
}

#[test]
fn switch_and_pcu_test() {
    let mut parent = ProgramBuilder::default();

    const CHAN_SIZE: usize = 8;
    const NUM_ELEMENTS: i32 = 10;
    const SWITCH_DELAY: u64 = 4;

    let (in_send_0, in_0) = parent.bounded(CHAN_SIZE);
    let (in_send_1, in_1) = parent.bounded(CHAN_SIZE);
    let (in_send_2, in_2) = parent.bounded(CHAN_SIZE);
    let (in_send_3, in_3) = parent.bounded(CHAN_SIZE);

    let gen0 = GeneratorContext::new(int_stream((0..NUM_ELEMENTS).collect()), in_send_0);
    let gen1 = GeneratorContext::new(
        int_stream((0..NUM_ELEMENTS).map(|x| x + 10).collect()),
        in_send_1,
    );
    let gen2 = GeneratorContext::new(
        int_stream((0..NUM_ELEMENTS).map(|x| x + 20).collect()),
        in_send_2,
    );
    let gen3 = GeneratorContext::new(
        int_stream((0..NUM_ELEMENTS).map(|x| x + 30).collect()),
        in_send_3,
    );

    let (pcu_3_out, checker_in) = parent.bounded(CHAN_SIZE);

    // Out := a*b + c*d
    let checker = CheckerContext::new(
        int_stream(
            (0..NUM_ELEMENTS)
                .map(|i| i * (10 + i) + (20 + i) * (30 + i))
                .collect(),
        ),
        checker_in,
    );

    parent.add_child(Component::Generator(gen0));
    parent.add_child(Component::Generator(gen1));
    parent.add_child(Component::Generator(gen2));
    parent.add_child(Component::Generator(gen3));
    parent.add_child(Component::Checker(checker));

    let pcu_hw_config = pcu::HwConfig {
        alu_configs: vec![ALUHwConfig {
            supported_ops: vec![ALUOp::ADD_I32, ALUOp::MUL_I32],
        }],
        num_vector_input_ports: 2,
        num_simd_lanes: 1,
    };

    let pcu_rt_config_1 = pcu::RtConfig {
        alu_configs: vec![ALURtConfig {
            op: ALUOp::MUL_I32,
            in_a: ALUInput::PREV(0),
            in_b: ALUInput::PREV(1),
            target: 0,
        }],
    };

    let pcu_rt_config_2 = pcu_rt_config_1.clone();

    let pcu_rt_config_3 = pcu::RtConfig {
        alu_configs: vec![ALURtConfig {
            op: ALUOp::ADD_I32,
            in_a: ALUInput::PREV(0),
            in_b: ALUInput::PREV(1),
            target: 0,
        }],
    };

    let (pcu_1_out, switch_in_0) = parent.bounded(CHAN_SIZE);
    let (pcu_2_out, switch_in_1) = parent.bounded(CHAN_SIZE);
    let (switch_out_0, pcu_3_in_0) = parent.bounded(CHAN_SIZE);
    let (switch_out_1, pcu_3_in_1) = parent.bounded(CHAN_SIZE);

    let pcu_1 = PCU::new(
        pcu_hw_config.clone(),
        pcu_rt_config_1,
        vec![in_0, in_1],
        vec![pcu_1_out],
    )
    .unwrap();
    let pcu_2 = PCU::new(
        pcu_hw_config.clone(),
        pcu_rt_config_2,
        vec![in_2, in_3],
        vec![pcu_2_out],
    )
    .unwrap();
    let pcu_3 = PCU::new(
        pcu_hw_config.clone(),
        pcu_rt_config_3,
        vec![pcu_3_in_0, pcu_3_in_1],
        vec![pcu_3_out],
    )
    .unwrap();

    let switch_hw_config = HwConfig {
        simd: 1,
        datatype_width: Scalar::I32(0).width(),
        num_inputs: 2,
        num_outputs: 2,
        mode: SwitchMode::SingleEnqueueSingleDequeue,
        delay: delay_table(2, 2, SWITCH_DELAY),
    };

    let switch_rt_config = RtConfig {
        routing_table: [(0, vec![0]), (1, vec![1])].into_iter().collect(),
    };

    let switch = Switch::new(
        switch_hw_config,
        switch_rt_config,
        vec![switch_in_0, switch_in_1],
        vec![switch_out_0, switch_out_1],
    )
    .unwrap();

    parent.add_child(Component::Pcu(pcu_1));
    parent.add_child(Component::Pcu(pcu_2));
    parent.add_child(Component::Pcu(pcu_3));
    parent.add_child(Component::Switch(switch));

    let executed = parent.initialize().unwrap().run();

    println!("dump_failures: {:?}", executed.dump_failures());
    assert!(executed.passed());
    assert_eq!(
        executed.elapsed_cycles().unwrap(),
        NUM_ELEMENTS as u64 * 2
            + ALUOp::ADD_I32.delay() as u64
            + ALUOp::MUL_I32.delay() as u64
            + SWITCH_DELAY
    );
}

#[test]
fn test_unrouted_input_is_fatal() {
    // Data arriving on an input absent from the routing table faults the run.
    let mut parent = ProgramBuilder::default();
    let (snd0, input0) = parent.bounded(4);
    let (snd1, input1) = parent.bounded(4);
    let (output0, rcv0) = parent.bounded(4);
    let (output1, rcv1) = parent.bounded(4);

    let table: HashMap<_, _> = [(0, vec![1])].into_iter().collect();
    let switch = Switch::new(
        HwConfig {
            simd: 1,
            datatype_width: Scalar::I32(0).width(),
            num_inputs: 2,
            num_outputs: 2,
            mode: SwitchMode::SingleEnqueueSingleDequeue,
            delay: delay_table(2, 2, 0),
        },
        RtConfig {
            routing_table: table,
        },
        vec![input0, input1],
        vec![output0, output1],
    )
    .unwrap();

    let gen0 = GeneratorContext::new(Vec::new(), snd0);
    let gen1 = GeneratorContext::new(int_stream(vec![5]), snd1);
    let rcv0 = CheckerContext::new(Vec::new(), rcv0);
    let rcv1 = CheckerContext::new(Vec::new(), rcv1);

    parent.add_child(Component::Generator(gen0));
    parent.add_child(Component::Generator(gen1));
    parent.add_child(Component::Checker(rcv0));
    parent.add_child(Component::Checker(rcv1));
    parent.add_child(Component::Switch(switch));
    let executed = parent.initialize().unwrap().run();
    assert!(!executed.passed());
    assert!(executed
        .dump_failures()
        .iter()
        .any(|f| matches!(f, Fault::UnroutedInput)));
}

#[test]
fn test_select_input_policy() {
    // All closed.
    let peeks = vec![PeekResult::Closed, PeekResult::Closed];
    assert_eq!(select_input(&peeks), Selection::AllClosed);

    // Minimum peek is an element: take the lowest index at that time.
    let peeks = vec![
        PeekResult::Something(7),
        PeekResult::Something(5),
        PeekResult::Something(5),
    ];
    assert_eq!(select_input(&peeks), Selection::Take(1));

    // A closed channel does not take part.
    let peeks = vec![PeekResult::Closed, PeekResult::Something(9)];
    assert_eq!(select_input(&peeks), Selection::Take(1));

    // All minimum peeks are empty guards: drive time forward.
    let peeks = vec![PeekResult::Nothing(2), PeekResult::Something(5)];
    assert_eq!(select_input(&peeks), Selection::Advance(2));
}

#[test]
fn test_switch_new_rejects_bad_configs() {
    let mut parent = ProgramBuilder::default();
    let (_snd, input) = parent.bounded(4);
    let (output, _rcv) = parent.bounded(4);

    // Endpoint count disagrees with the port counts.
    match Switch::new(
        HwConfig {
            simd: 1,
            datatype_width: 32,
            num_inputs: 2,
            num_outputs: 1,
            mode: SwitchMode::SingleEnqueueSingleDequeue,
            delay: delay_table(2, 1, 0),
        },
        RtConfig {
            routing_table: HashMap::new(),
        },
        vec![input],
        vec![output],
    ) {
        Err(ConfigError::WrongPortCount) => (),
        _ => panic!("expected a wrong port count"),
    }

    // A delay table of the wrong shape.
    let mut parent = ProgramBuilder::default();
    let (_snd, input) = parent.bounded(4);
    let (output, _rcv) = parent.bounded(4);
    match Switch::new(
        HwConfig {
            simd: 1,
            datatype_width: 32,
            num_inputs: 1,
            num_outputs: 1,
            mode: SwitchMode::SingleEnqueueSingleDequeue,
            delay: Vec::new(),
        },
        RtConfig {
            routing_table: HashMap::new(),
        },
        vec![input],
        vec![output],
    ) {
        Err(ConfigError::BadDelayTable) => (),
        _ => panic!("expected a bad delay table"),
    }

    // A routing entry naming an output out of range.
    let mut parent = ProgramBuilder::default();
    let (_snd, input) = parent.bounded(4);
    let (output, _rcv) = parent.bounded(4);
    match Switch::new(
        HwConfig {
            simd: 1,
            datatype_width: 32,
            num_inputs: 1,
            num_outputs: 1,
            mode: SwitchMode::SingleEnqueueSingleDequeue,
            delay: delay_table(1, 1, 0),
        },
        RtConfig {
            routing_table: [(0, vec![3])].into_iter().collect(),
        },
        vec![input],
        vec![output],
    ) {
        Err(ConfigError::BadRouting) => (),
        _ => panic!("expected a bad routing table"),
    }
}

#[test]
fn test_plan_forward_semantics() {
    let mut parent = ProgramBuilder::default();
    let (_snd, input) = parent.bounded(4);
    let (output0, _rcv0) = parent.bounded(4);
    let (output1, _rcv1) = parent.bounded(4);

    let switch = Switch::new(
        HwConfig {
            simd: 1,
            datatype_width: 32,
            num_inputs: 1,
            num_outputs: 2,
            mode: SwitchMode::MultiEnqueueSingleDequeue,
            delay: delay_table(1, 2, 4),
        },
        RtConfig {
            routing_table: [(0, vec![0, 1])].into_iter().collect(),
        },
        vec![input],
        vec![output0, output1],
    )
    .unwrap();

    // One enqueue per cycle: the k-th enqueue is stamped (now + k) + delay.
    let (plan, end) = switch.plan_forward(0, 10).unwrap();
    assert_eq!(plan.len(), 2);
    assert_eq!(plan[0].out, 0);
    assert_eq!(plan[0].time, 14);
    assert_eq!(plan[1].out, 1);
    assert_eq!(plan[1].time, 15);
    assert_eq!(end, 12);
}

#[test]
fn test_many_to_many_mode_is_fatal() {
    // The many-to-many mode's conflict resolution is an open design point:
    // running a switch in it faults the simulation.
    let mut parent = ProgramBuilder::default();
    let (snd, input) = parent.bounded(4);
    let (output, rcv) = parent.bounded(4);

    let switch = Switch::new(
        HwConfig {
            simd: 1,
            datatype_width: 32,
            num_inputs: 1,
            num_outputs: 1,
            mode: SwitchMode::MultiEnqueueMultiDequeue,
            delay: delay_table(1, 1, 0),
        },
        RtConfig {
            routing_table: [(0, vec![0])].into_iter().collect(),
        },
        vec![input],
        vec![output],
    )
    .unwrap();

    let gen = GeneratorContext::new(int_stream(vec![1]), snd);
    let rcv = CheckerContext::new(Vec::new(), rcv);
    parent.add_child(Component::Generator(gen));
    parent.add_child(Component::Checker(rcv));
    parent.add_child(Component::Switch(switch));
    let executed = parent.initialize().unwrap().run();
    assert!(!executed.passed());
    assert!(executed
        .dump_failures()
        .iter()
        .any(|f| matches!(f, Fault::UnsupportedMode)));
}

#[test]
fn test_plan_forward_overflow_is_fatal() {
    let mut parent = ProgramBuilder::default();
    let (_snd, input) = parent.bounded(4);
    let (output, _rcv) = parent.bounded(4);

    let switch = Switch::new(
        HwConfig {
            simd: 1,
            datatype_width: 32,
            num_inputs: 1,
            num_outputs: 1,
            mode: SwitchMode::SingleEnqueueSingleDequeue,
            delay: delay_table(1, 1, 4),
        },
        RtConfig {
            routing_table: [(0, vec![0])].into_iter().collect(),
        },
        vec![input],
        vec![output],
    )
    .unwrap();

    match switch.plan_forward(0, u64::MAX) {
        Err(Fault::TimeOverflow) => (),
        _ => panic!("expected a timestamp overflow"),
    }
    match switch.plan_forward(0, 10) {
        Ok((plan, end)) => {
            assert_eq!(plan.len(), 1);
            assert_eq!(plan[0].out, 0);
            assert_eq!(plan[0].time, 14);
            assert_eq!(end, 11);
        }
        _ => panic!("expected a plan"),
    }
}
