//! The data of the pages and calendars that the service renders.

use crate::celcat::Event;
use vstd::prelude::*;

verus! {

/// The home page, which needs no data.
pub struct IndexHttpTemplate;

/// A group's iCalendar file: the time of its generation and its events.
pub struct GroupIcsTemplate<'t> {
    pub now: &'t str,
    pub events: &'t Vec<Event>,
}

} // verus!
