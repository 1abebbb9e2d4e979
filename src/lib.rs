//! Turns the instrumentation events of a distributed dataflow computation into
//! causal activity records, batched per epoch, and strips the records of
//! operators that only structure the computation.
pub mod batch;
pub mod classify;
pub mod error;
pub mod peel;
pub mod record;
pub mod stream;

pub use batch::EpochBatcher;
pub use error::STError;
pub use classify::{classify_event, events_to_log_records};
pub use peel::{peel_operators, peel_records, Topology, TopologyViolation};
pub use stream::LogRecordStream;
pub use record::{ActivityType, EventPayload, EventType, LogRecord, RawEvent, StartStop, Update};
