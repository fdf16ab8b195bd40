//! A pluggable event log: append immutable, identifier-tagged events and
//! replay them in order, over interchangeable storage backends — a
//! transactional relational backend and a flat-file tab-separated backend.
pub mod event_id;
pub mod event_source;
pub mod meals_event;
pub mod sqlite_event_store;
pub mod tsv_event_store;
pub mod types;

pub use event_source::EventSource;
pub use meals_event::MealsEvent;
pub use sqlite_event_store::SqliteEventStore;
pub use tsv_event_store::TSVEventStore;
pub use types::Error;
pub use types::EventId;
pub use types::KnownEvent;
