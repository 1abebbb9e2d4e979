use vstd::prelude::*;

verus! {

/// What kind of activity a [`LogRecord`] describes.
#[derive(Clone, Copy, Debug, PartialEq, Eq, Hash, PartialOrd, Ord)]
pub enum ActivityType {
    /// An operator being scheduled.
    Scheduling,
    /// A data message between workers.
    DataMessage,
    /// A progress (control) message between workers.
    ControlMessage,
}

/// Which edge of an activity a [`LogRecord`] marks.
#[derive(Clone, Copy, Debug, PartialEq, Eq, Hash, PartialOrd, Ord)]
pub enum EventType {
    /// An operator starts executing.
    Start,
    /// An operator stops executing.
    End,
    /// A message leaves its worker.
    Sent,
    /// A message arrives at its worker.
    Received,
}

/// Canonical causal activity record.
///
/// `timestamp` is the epoch the record was batched into, in nanoseconds.
#[derive(Clone, Copy, Debug, PartialEq, Eq, Hash, PartialOrd, Ord)]
pub struct LogRecord {
    pub timestamp: u64,
    pub local_worker: u64,
    pub activity_type: ActivityType,
    pub event_type: EventType,
    pub correlator_id: Option<u64>,
    pub remote_worker: Option<u64>,
    pub operator_id: Option<u64>,
    pub channel_id: Option<u64>,
}

/// A record together with its epoch and its multiplicity.
pub type Update = (LogRecord, u64, isize);

/// Whether an operator starts or stops.
#[derive(Clone, Copy, Debug, PartialEq, Eq, Hash)]
pub enum StartStop {
    Start,
    Stop,
}

/// The payload of one instrumentation sample.
#[derive(Clone, Debug, PartialEq, Eq, Hash)]
pub enum EventPayload {
    /// An operator begins or ends executing.
    Schedule { operator_id: u64, start_stop: StartStop },
    /// A data message crossing a channel between workers.
    Messages { source: u64, target: u64, is_send: bool, seq_no: u64, channel: u64 },
    /// A control (progress) message.
    Progress { source: u64, is_send: bool, seq_no: u64, channel: u64 },
    /// An operator with hierarchical `address` and global `operator_id` exists.
    Operates { address: Vec<u64>, operator_id: u64 },
    /// Any other kind of sample; not relevant to causal analysis.
    Other,
}

/// One instrumentation sample as recorded by worker `worker_id`
/// at logical time `timestamp` (nanoseconds since the computation started).
#[derive(Clone, Debug, PartialEq, Eq, Hash)]
pub struct RawEvent {
    pub timestamp: u64,
    pub worker_id: u64,
    pub payload: EventPayload,
}

/// Invariants every record of the classifier satisfies: exactly one of
/// `operator_id` / `channel_id` is present, as the activity type decides,
/// and scheduling records carry no correlation data.
pub open spec fn record_well_formed(r: LogRecord) -> bool {
    match r.activity_type {
        ActivityType::Scheduling => {
            r.operator_id.is_some() && r.channel_id.is_none() && r.correlator_id.is_none()
                && r.remote_worker.is_none()
        },
        _ => r.operator_id.is_none() && r.channel_id.is_some(),
    }
}

} // verus!
