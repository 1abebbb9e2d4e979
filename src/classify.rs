use vstd::prelude::*;

use crate::record::{
    record_well_formed, ActivityType, EventPayload, EventType, LogRecord, RawEvent, StartStop,
    Update,
};

verus! {

/// `Sent` for the sending side of a message, `Received` for the other.
pub open spec fn message_direction(is_send: bool) -> EventType {
    if is_send {
        EventType::Sent
    } else {
        EventType::Received
    }
}

/// The record that `ev` becomes when it arrives in `epoch`, if any.
pub open spec fn classified(epoch: u64, ev: RawEvent) -> Option<LogRecord> {
    match ev.payload {
        EventPayload::Schedule { operator_id, start_stop } => Some(
            LogRecord {
                timestamp: epoch,
                local_worker: ev.worker_id,
                activity_type: ActivityType::Scheduling,
                event_type: if start_stop == StartStop::Start {
                    EventType::Start
                } else {
                    EventType::End
                },
                correlator_id: None,
                remote_worker: None,
                operator_id: Some(operator_id),
                channel_id: None,
            },
        ),
        EventPayload::Messages { source, target, is_send, seq_no, channel } => {
            if source == target {
                None
            } else {
                Some(
                    LogRecord {
                        timestamp: epoch,
                        local_worker: ev.worker_id,
                        activity_type: ActivityType::DataMessage,
                        event_type: message_direction(is_send),
                        correlator_id: Some(seq_no),
                        remote_worker: Some(
                            if is_send {
                                target
                            } else {
                                source
                            },
                        ),
                        operator_id: None,
                        channel_id: Some(channel),
                    },
                )
            }
        },
        EventPayload::Progress { source, is_send, seq_no, channel } => {
            if !is_send && source == ev.worker_id {
                None
            } else {
                Some(
                    LogRecord {
                        timestamp: epoch,
                        local_worker: ev.worker_id,
                        activity_type: ActivityType::ControlMessage,
                        event_type: message_direction(is_send),
                        correlator_id: Some(seq_no),
                        remote_worker: if is_send {
                            None
                        } else {
                            Some(source)
                        },
                        operator_id: None,
                        channel_id: Some(channel),
                    },
                )
            }
        },
        _ => None,
    }
}

/// The updates that a batch of events arriving in `epoch` becomes, in arrival order,
/// each with multiplicity one.
pub open spec fn classified_batch(epoch: u64, events: Seq<RawEvent>) -> Seq<Update>
    decreases events.len(),
{
    if events.len() == 0 {
        seq![]
    } else {
        let prefix = classified_batch(epoch, events.drop_last());
        match classified(epoch, events.last()) {
            Some(r) => prefix.push((r, epoch, 1isize)),
            None => prefix,
        }
    }
}

/// Classifies one raw event that arrived in `epoch`.
pub fn classify_event(epoch: u64, ev: &RawEvent) -> (r: Option<LogRecord>)
    ensures
        r == classified(epoch, *ev),
        r matches Some(rec) ==> record_well_formed(rec) && rec.timestamp == epoch
            && rec.local_worker == ev.worker_id,
{
    match &ev.payload {
        EventPayload::Schedule { operator_id, start_stop } => {
            let event_type = match start_stop {
                StartStop::Start => EventType::Start,
                StartStop::Stop => EventType::End,
            };
            Some(
                LogRecord {
                    timestamp: epoch,
                    local_worker: ev.worker_id,
                    activity_type: ActivityType::Scheduling,
                    event_type,
                    correlator_id: None,
                    remote_worker: None,
                    operator_id: Some(*operator_id),
                    channel_id: None,
                },
            )
        },
        EventPayload::Messages { source, target, is_send, seq_no, channel } => {
            // messages a worker sends to itself carry no causal information
            if *source == *target {
                None
            } else {
                let remote_worker = if *is_send {
                    Some(*target)
                } else {
                    Some(*source)
                };
                let event_type = if *is_send {
                    EventType::Sent
                } else {
                    EventType::Received
                };
                Some(
                    LogRecord {
                        timestamp: epoch,
                        local_worker: ev.worker_id,
                        activity_type: ActivityType::DataMessage,
                        event_type,
                        correlator_id: Some(*seq_no),
                        remote_worker,
                        operator_id: None,
                        channel_id: Some(*channel),
                    },
                )
            }
        },
        EventPayload::Progress { source, is_send, seq_no, channel } => {
            // progress updates looped back to their own worker are dropped
            if !*is_send && *source == ev.worker_id {
                None
            } else {
                let event_type = if *is_send {
                    EventType::Sent
                } else {
                    EventType::Received
                };
                // outgoing progress messages are broadcasts: the recipient is unknown
                let remote_worker = if *is_send {
                    None
                } else {
                    Some(*source)
                };
                Some(
                    LogRecord {
                        timestamp: epoch,
                        local_worker: ev.worker_id,
                        activity_type: ActivityType::ControlMessage,
                        event_type,
                        correlator_id: Some(*seq_no),
                        remote_worker,
                        operator_id: None,
                        channel_id: Some(*channel),
                    },
                )
            }
        },
        _ => None,
    }
}

/// Converts the events that arrived in `epoch` into updates tagged with that epoch
/// and multiplicity one, keeping their arrival order.
pub fn events_to_log_records(epoch: u64, events: &Vec<RawEvent>) -> (r: Vec<Update>)
    ensures
        r@ == classified_batch(epoch, events@),
{
    let mut out: Vec<Update> = Vec::new();
    let mut i: usize = 0;
    while i < events.len()
        invariant
            i <= events.len(),
            out@ == classified_batch(epoch, events@.subrange(0, i as int)),
        decreases events.len() - i,
    {
        let rec = classify_event(epoch, &events[i]);
        assert(events@.subrange(0, i + 1).drop_last() == events@.subrange(0, i as int));
        match rec {
            Some(r) => out.push((r, epoch, 1isize)),
            None => {},
        }
        i = i + 1;
    }
    assert(events@.subrange(0, events.len() as int) == events@);
    out
}

/// A data message that a worker addresses to itself never yields a record.
pub proof fn lemma_self_messages_dropped(epoch: u64, ev: RawEvent)
    requires
        ev.payload matches EventPayload::Messages { source, target, .. } && source == target,
    ensures
        classified(epoch, ev).is_none(),
{
}

/// A progress message received by the worker that is also its source never yields a record.
pub proof fn lemma_local_progress_dropped(epoch: u64, ev: RawEvent)
    requires
        ev.payload matches EventPayload::Progress { source, is_send, .. } && !is_send && source
            == ev.worker_id,
    ensures
        classified(epoch, ev).is_none(),
{
}

/// Every message record carries the originating event's sequence number as its
/// correlator, and its activity and event types follow the event's kind and direction;
/// only schedule events yield scheduling records.
pub proof fn lemma_message_records_correlate(epoch: u64, ev: RawEvent)
    ensures
        classified(epoch, ev) matches Some(r) ==> match ev.payload {
            EventPayload::Messages { is_send, seq_no, .. } => r.activity_type
                == ActivityType::DataMessage && r.event_type == message_direction(is_send)
                && r.correlator_id == Some(seq_no),
            EventPayload::Progress { is_send, seq_no, .. } => r.activity_type
                == ActivityType::ControlMessage && r.event_type == message_direction(is_send)
                && r.correlator_id == Some(seq_no),
            EventPayload::Schedule { .. } => r.activity_type == ActivityType::Scheduling,
            _ => false,
        },
{
}

} // verus!
