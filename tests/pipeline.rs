use snailtrail::{
    peel_operators, peel_records, ActivityType, EpochBatcher, EventPayload, EventType, LogRecord,
    RawEvent, StartStop, Topology, TopologyViolation, Update,
};

fn event(timestamp: u64, worker_id: u64, payload: EventPayload) -> RawEvent {
    RawEvent { timestamp, worker_id, payload }
}

fn schedule(epoch: u64, worker: u64, operator_id: u64, start_stop: StartStop) -> RawEvent {
    event(epoch, worker, EventPayload::Schedule { operator_id, start_stop })
}

fn scheduling_update(epoch: u64, operator_id: u64, event_type: EventType) -> Update {
    (
        LogRecord {
            timestamp: epoch,
            local_worker: 0,
            activity_type: ActivityType::Scheduling,
            event_type,
            correlator_id: None,
            remote_worker: None,
            operator_id: Some(operator_id),
            channel_id: None,
        },
        epoch,
        1,
    )
}

fn message_update(epoch: u64, seq_no: u64) -> Update {
    (
        LogRecord {
            timestamp: epoch,
            local_worker: 0,
            activity_type: ActivityType::DataMessage,
            event_type: EventType::Sent,
            correlator_id: Some(seq_no),
            remote_worker: Some(1),
            operator_id: None,
            channel_id: Some(0),
        },
        epoch,
        1,
    )
}

#[test]
fn two_workers_exchange_a_data_message() {
    let mut batcher = EpochBatcher::new(2);
    let from_w0 = vec![event(5, 0, EventPayload::Messages { source: 0, target: 1, is_send: true, seq_no: 7, channel: 3 })];
    let from_w1 = vec![event(5, 1, EventPayload::Messages { source: 0, target: 1, is_send: false, seq_no: 7, channel: 3 })];
    assert!(batcher.ingest(5, &from_w0));
    assert!(batcher.ingest(5, &from_w1));
    assert!(batcher.advance(0, 6).is_empty());
    let out = batcher.advance(1, 6);
    let sent = LogRecord {
        timestamp: 5,
        local_worker: 0,
        activity_type: ActivityType::DataMessage,
        event_type: EventType::Sent,
        correlator_id: Some(7),
        remote_worker: Some(1),
        operator_id: None,
        channel_id: Some(3),
    };
    let received = LogRecord {
        timestamp: 5,
        local_worker: 1,
        activity_type: ActivityType::DataMessage,
        event_type: EventType::Received,
        correlator_id: Some(7),
        remote_worker: Some(0),
        operator_id: None,
        channel_id: Some(3),
    };
    assert_eq!(out, vec![(sent, 5, 1), (received, 5, 1)]);
    assert!(batcher.finish().is_empty());
}

#[test]
fn bootstrap_topology_peels_encompassing_operators() {
    let mut topology = Topology::new(1);
    for (address, id) in [(vec![], 0u64), (vec![0], 1), (vec![0, 1], 2)] {
        let ev = event(1, 0, EventPayload::Operates { address, operator_id: id });
        assert!(topology.observe(&ev).is_ok());
    }
    let mut ids = topology.peel_ids();
    ids.sort();
    assert_eq!(ids, vec![0, 1]);

    let mut events = Vec::new();
    for id in 0..3 {
        events.push(schedule(1, 0, id, StartStop::Start));
        events.push(schedule(1, 0, id, StartStop::Stop));
    }
    let mut batcher = EpochBatcher::new(1);
    assert!(batcher.ingest(1, &events));
    let out = batcher.advance(0, 2);
    assert_eq!(out.len(), 6);
    let peeled = peel_operators(&out, &topology);
    assert_eq!(
        peeled,
        vec![scheduling_update(1, 2, EventType::Start), scheduling_update(1, 2, EventType::End)]
    );
}

#[test]
fn parent_is_peeled_and_child_kept() {
    let mut topology = Topology::new(1);
    assert!(topology.observe(&event(1, 0, EventPayload::Operates { address: vec![0], operator_id: 10 })).is_ok());
    assert!(topology.observe(&event(1, 0, EventPayload::Operates { address: vec![0, 1], operator_id: 11 })).is_ok());
    assert_eq!(topology.peel_ids(), vec![10]);
    let records = vec![
        scheduling_update(3, 10, EventType::Start),
        scheduling_update(3, 11, EventType::Start),
        scheduling_update(3, 11, EventType::End),
        scheduling_update(3, 10, EventType::End),
    ];
    let out = peel_operators(&records, &topology);
    assert_eq!(out, vec![scheduling_update(3, 11, EventType::Start), scheduling_update(3, 11, EventType::End)]);
}

#[test]
fn a_lone_root_operator_is_not_peeled() {
    let mut topology = Topology::new(1);
    assert!(topology.observe(&event(1, 0, EventPayload::Operates { address: vec![], operator_id: 0 })).is_ok());
    assert!(topology.peel_ids().is_empty());
}

#[test]
fn peeling_twice_is_peeling_once() {
    let records = vec![
        scheduling_update(2, 1, EventType::Start),
        message_update(2, 5),
        scheduling_update(2, 2, EventType::Start),
        scheduling_update(2, 3, EventType::End),
    ];
    let ids = vec![1, 3];
    let once = peel_records(&records, &ids);
    let twice = peel_records(&once, &ids);
    assert_eq!(once, twice);
    assert_eq!(once, vec![message_update(2, 5), scheduling_update(2, 2, EventType::Start)]);
}

#[test]
fn message_records_pass_peeling() {
    let records = vec![message_update(4, 1), message_update(4, 2)];
    assert_eq!(peel_records(&records, &vec![0, 1, 2]), records);
}

#[test]
fn operator_declared_after_bootstrap_is_refused() {
    let mut topology = Topology::new(1);
    let late = event(9, 0, EventPayload::Operates { address: vec![0], operator_id: 4 });
    assert_eq!(topology.observe(&late), Err(TopologyViolation { operator_id: 4, timestamp: 9 }));
    assert!(topology.observe(&event(1, 0, EventPayload::Operates { address: vec![0, 2], operator_id: 5 })).is_ok());
    assert!(topology.peel_ids().is_empty());
    assert!(topology.observe(&event(9, 0, EventPayload::Other)).is_ok());
    assert_eq!(topology.bootstrap_epoch(), 1);
}

#[test]
fn nothing_is_released_before_every_worker_passes_the_epoch() {
    let mut batcher = EpochBatcher::new(3);
    assert_eq!(batcher.frontier(), 0);
    assert!(batcher.ingest(4, &vec![schedule(4, 0, 1, StartStop::Start)]));
    assert!(batcher.ingest(6, &vec![schedule(6, 2, 1, StartStop::Stop)]));
    assert!(batcher.advance(0, 10).is_empty());
    assert!(batcher.advance(2, 10).is_empty());
    assert_eq!(batcher.frontier(), 0);
    let out = batcher.advance(1, 5);
    assert_eq!(batcher.frontier(), 5);
    assert_eq!(out.len(), 1);
    assert_eq!(out[0].1, 4);
    // a watermark never moves back
    assert!(batcher.advance(1, 2).is_empty());
    assert_eq!(batcher.frontier(), 5);
    let rest = batcher.finish();
    assert_eq!(rest.len(), 1);
    assert_eq!(rest[0].1, 6);
    assert_eq!(rest[0].0.event_type, EventType::End);
}

#[test]
fn events_for_a_completed_epoch_are_refused() {
    let mut batcher = EpochBatcher::new(1);
    assert!(batcher.advance(0, 3).is_empty());
    assert!(!batcher.ingest(2, &vec![schedule(2, 0, 1, StartStop::Start)]));
    assert!(batcher.ingest(3, &vec![schedule(3, 0, 1, StartStop::Start)]));
    assert_eq!(batcher.finish().len(), 1);
}

#[test]
fn batcher_without_workers_expects_no_input() {
    let mut batcher = EpochBatcher::new(0);
    assert_eq!(batcher.frontier(), u64::MAX);
    assert!(!batcher.ingest(1, &vec![schedule(1, 0, 1, StartStop::Start)]));
    assert!(batcher.finish().is_empty());
}
