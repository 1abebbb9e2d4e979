use snailtrail::{
    classify_event, events_to_log_records, ActivityType, EventPayload, EventType, LogRecord,
    RawEvent, StartStop,
};

fn event(timestamp: u64, worker_id: u64, payload: EventPayload) -> RawEvent {
    RawEvent { timestamp, worker_id, payload }
}

#[test]
fn self_targeted_messages_are_dropped() {
    for is_send in [true, false] {
        let ev = event(3, 2, EventPayload::Messages { source: 2, target: 2, is_send, seq_no: 4, channel: 1 });
        assert_eq!(classify_event(3, &ev), None);
    }
}

#[test]
fn local_progress_receipt_is_dropped() {
    let ev = event(3, 1, EventPayload::Progress { source: 1, is_send: false, seq_no: 9, channel: 0 });
    assert_eq!(classify_event(3, &ev), None);
}

#[test]
fn local_progress_send_is_kept_as_broadcast() {
    let ev = event(3, 1, EventPayload::Progress { source: 1, is_send: true, seq_no: 9, channel: 0 });
    let r = classify_event(3, &ev).unwrap();
    assert_eq!(r.activity_type, ActivityType::ControlMessage);
    assert_eq!(r.event_type, EventType::Sent);
    assert_eq!(r.correlator_id, Some(9));
    assert_eq!(r.remote_worker, None);
    assert_eq!(r.channel_id, Some(0));
    assert_eq!(r.operator_id, None);
}

#[test]
fn remote_progress_receipt_names_its_source() {
    let ev = event(8, 0, EventPayload::Progress { source: 3, is_send: false, seq_no: 11, channel: 6 });
    let r = classify_event(4, &ev).unwrap();
    assert_eq!(
        r,
        LogRecord {
            timestamp: 4,
            local_worker: 0,
            activity_type: ActivityType::ControlMessage,
            event_type: EventType::Received,
            correlator_id: Some(11),
            remote_worker: Some(3),
            operator_id: None,
            channel_id: Some(6),
        }
    );
}

#[test]
fn data_messages_correlate_by_sequence_number() {
    let sent = event(5, 0, EventPayload::Messages { source: 0, target: 1, is_send: true, seq_no: 42, channel: 2 });
    let received = event(6, 1, EventPayload::Messages { source: 0, target: 1, is_send: false, seq_no: 42, channel: 2 });
    let s = classify_event(5, &sent).unwrap();
    let r = classify_event(5, &received).unwrap();
    assert_eq!(s.activity_type, ActivityType::DataMessage);
    assert_eq!(s.event_type, EventType::Sent);
    assert_eq!(s.remote_worker, Some(1));
    assert_eq!(r.activity_type, ActivityType::DataMessage);
    assert_eq!(r.event_type, EventType::Received);
    assert_eq!(r.remote_worker, Some(0));
    assert_eq!(s.correlator_id, Some(42));
    assert_eq!(r.correlator_id, Some(42));
}

#[test]
fn schedule_events_become_scheduling_records() {
    let start = event(2, 1, EventPayload::Schedule { operator_id: 7, start_stop: StartStop::Start });
    let stop = event(2, 1, EventPayload::Schedule { operator_id: 7, start_stop: StartStop::Stop });
    let a = classify_event(2, &start).unwrap();
    let b = classify_event(2, &stop).unwrap();
    assert_eq!(
        a,
        LogRecord {
            timestamp: 2,
            local_worker: 1,
            activity_type: ActivityType::Scheduling,
            event_type: EventType::Start,
            correlator_id: None,
            remote_worker: None,
            operator_id: Some(7),
            channel_id: None,
        }
    );
    assert_eq!(b.event_type, EventType::End);
    assert_eq!(b.operator_id, Some(7));
}

#[test]
fn operates_and_other_events_yield_no_record() {
    let op = event(1, 0, EventPayload::Operates { address: vec![0, 1], operator_id: 3 });
    let other = event(1, 0, EventPayload::Other);
    assert_eq!(classify_event(1, &op), None);
    assert_eq!(classify_event(1, &other), None);
}

#[test]
fn batch_keeps_order_and_tags_epoch() {
    let events = vec![
        event(10, 0, EventPayload::Schedule { operator_id: 1, start_stop: StartStop::Start }),
        event(11, 0, EventPayload::Messages { source: 0, target: 0, is_send: true, seq_no: 1, channel: 1 }),
        event(12, 0, EventPayload::Other),
        event(13, 0, EventPayload::Schedule { operator_id: 1, start_stop: StartStop::Stop }),
    ];
    let out = events_to_log_records(9, &events);
    assert_eq!(out.len(), 2);
    assert_eq!(out[0].0.event_type, EventType::Start);
    assert_eq!(out[1].0.event_type, EventType::End);
    for (r, epoch, diff) in out {
        assert_eq!(r.timestamp, 9);
        assert_eq!(epoch, 9);
        assert_eq!(diff, 1);
    }
}
