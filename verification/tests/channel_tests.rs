use hwsim::channel::{
    close, dequeue, enqueue, note_sender_time, peek, Channel, ChannelElement, DequeueResult,
    PeekResult,
};
use hwsim::lower::Lowered;
use hwsim::pcu::PCUData;
use hwsim::scalar::Scalar;
use hwsim::sim::ProgramBuilder;

fn elem(time: u64, value: i32) -> ChannelElement {
    ChannelElement::new(
        time,
        PCUData {
            data: vec![Scalar::I32(value)],
        },
    )
}

#[test]
fn test_channel_fifo_and_backpressure() {
    let mut chs = vec![Channel::new(2)];

    assert!(enqueue(&mut chs, 0, elem(5, 10)));
    assert!(enqueue(&mut chs, 0, elem(6, 11)));
    // The bound is reached: the third element is rejected, leaving the
    // channel unchanged.
    assert!(!enqueue(&mut chs, 0, elem(7, 12)));

    // Elements come out in enqueue order, and the consumer's clock advances
    // to each element's timestamp.
    let mut clock: u64 = 0;
    match dequeue(&mut chs, 0, &mut clock) {
        DequeueResult::Got(e) => {
            assert_eq!(e.time, 5);
            assert_eq!(e.data.data, vec![Scalar::I32(10)]);
        }
        _ => panic!("expected an element"),
    }
    assert_eq!(clock, 5);

    // A clock already past the element's timestamp stays put.
    let mut late_clock: u64 = 100;
    match dequeue(&mut chs, 0, &mut late_clock) {
        DequeueResult::Got(e) => assert_eq!(e.time, 6),
        _ => panic!("expected an element"),
    }
    assert_eq!(late_clock, 100);
}

#[test]
fn test_peek_and_closure() {
    let mut chs = vec![Channel::new(4)];

    // Empty and open: the peek carries the producer's recorded clock.
    note_sender_time(&mut chs, 0, 9);
    assert_eq!(peek(&chs, 0), PeekResult::Nothing(9));

    // With an element queued, the peek reports its timestamp.
    assert!(enqueue(&mut chs, 0, elem(12, 1)));
    assert_eq!(peek(&chs, 0), PeekResult::Something(12));

    // Closing keeps queued elements available; closure is observed only once
    // the queue has drained.
    close(&mut chs, 0);
    assert_eq!(peek(&chs, 0), PeekResult::Something(12));
    let mut clock: u64 = 0;
    match dequeue(&mut chs, 0, &mut clock) {
        DequeueResult::Got(_) => (),
        _ => panic!("expected the queued element"),
    }
    assert_eq!(peek(&chs, 0), PeekResult::Closed);
    match dequeue(&mut chs, 0, &mut clock) {
        DequeueResult::Closed => (),
        _ => panic!("expected closure"),
    }
}

#[test]
fn test_builder_channel_ids() {
    let mut parent = ProgramBuilder::default();
    let (s0, r0) = parent.bounded(4);
    let (s1, r1) = parent.unbounded();
    assert_eq!(s0.id, 0);
    assert_eq!(r0.id, 0);
    assert_eq!(s1.id, 1);
    assert_eq!(r1.id, 1);
}

#[test]
fn test_lowering_entry_state() {
    let _lowered = Lowered::new();
}
