use crate::types::{Error, EventId, KnownEvent};
use vstd::prelude::*;

verus! {

/// An EventSource is a "source of truth" service for one data domain: the
/// place where an attempt to create an event is validated and, if accepted,
/// recorded.  Only the contract is assumed here; implementations usually keep
/// an event store underneath, and may keep their own write model to validate
/// against.
pub trait EventSource<Event> {
    /// Handle a command — an attempt to create a new event.  A rejected
    /// command (invalid data, missing permission) is an error; an accepted
    /// one is recorded and answers with its identifier.
    fn handle_command(event: Event) -> Result<EventId, Error>;

    /// The latest event's identifier, to compare against bookmarks held by
    /// projections.
    fn get_latest_event() -> Result<Option<EventId>, Error>;

    /// Read a page of events from a given starting point.
    fn read_events(number_to_read: usize, starting_from: Option<EventId>) -> Result<
        Vec<KnownEvent<Event>>,
        Error,
    >;
}

} // verus!
