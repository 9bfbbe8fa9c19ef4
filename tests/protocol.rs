use inky_display::{
    busy_wait_next, command_signals, payload_chunks, update_plan, BusyAction, BusyPhase, Signal, Step,
};

#[test]
fn plan_order() {
    let plan = update_plan(vec![0x12, 0x34]);
    assert_eq!(plan.len(), 26);
    assert!(matches!(plan[0], Step::SetReset(0)));
    assert!(matches!(plan[1], Step::SleepMs(30)));
    assert!(matches!(plan[2], Step::SetReset(1)));
    assert!(matches!(plan[4], Step::BusyWait(300)));
    match &plan[5] {
        Step::Command(0xAA, Some(d)) => assert_eq!(d, &vec![0x49, 0x55, 0x20, 0x08, 0x09, 0x18]),
        s => panic!("unexpected {s:?}"),
    }
    match &plan[18] {
        Step::Command(0x10, Some(d)) => assert_eq!(d, &vec![0x12, 0x34]),
        s => panic!("unexpected {s:?}"),
    }
    assert!(matches!(plan[19], Step::Command(0x04, None)));
    match &plan[21] {
        Step::Command(0x06, Some(d)) => assert_eq!(d, &vec![0x6F, 0x1F, 0x17, 0x49]),
        s => panic!("unexpected {s:?}"),
    }
    assert!(matches!(plan[23], Step::BusyWait(32_000)));
    assert!(matches!(plan[25], Step::BusyWait(300)));
}

#[test]
fn chunks_of_payload() {
    assert_eq!(payload_chunks(0), vec![]);
    assert_eq!(payload_chunks(4096), vec![(0, 4096)]);
    assert_eq!(payload_chunks(10000), vec![(0, 4096), (4096, 8192), (8192, 10000)]);
    assert_eq!(payload_chunks(192000).len(), 47);
}

#[test]
fn busy_wait_rules() {
    // Level 0 is busy, level 1 ready.
    assert_eq!(busy_wait_next(BusyPhase::Entry, 0, 0, 300), BusyAction::SleepTimeout);
    assert_eq!(busy_wait_next(BusyPhase::Entry, 1, 0, 300), BusyAction::ReadLine);
    assert_eq!(busy_wait_next(BusyPhase::Polling, 1, 50, 300), BusyAction::Ready);
    assert_eq!(busy_wait_next(BusyPhase::Polling, 0, 50, 300), BusyAction::SleepPoll);
    assert_eq!(busy_wait_next(BusyPhase::Slept, 0, 300, 300), BusyAction::ReadLine);
    assert_eq!(busy_wait_next(BusyPhase::Slept, 0, 301, 300), BusyAction::TimedOut);
}

#[test]
fn command_without_payload() {
    assert_eq!(
        command_signals(0x04, None),
        vec![
            Signal::ChipSelect(0),
            Signal::DataCommand(0),
            Signal::SleepMs(300),
            Signal::WriteOpcode(0x04),
            Signal::ChipSelect(1),
            Signal::DataCommand(0),
        ]
    );
}

#[test]
fn command_with_chunked_payload() {
    assert_eq!(
        command_signals(0x10, Some(5000)),
        vec![
            Signal::ChipSelect(0),
            Signal::DataCommand(0),
            Signal::SleepMs(300),
            Signal::WriteOpcode(0x10),
            Signal::DataCommand(1),
            Signal::WritePayload(0, 4096),
            Signal::WritePayload(4096, 5000),
            Signal::ChipSelect(1),
            Signal::DataCommand(0),
        ]
    );
    // An empty payload still switches to data mode, and writes nothing.
    assert_eq!(command_signals(0x12, Some(0)).len(), 7);
}
