//! Event records as supplied by an event feed, turned into listings.
use vstd::prelude::*;

use crate::date::{scan_date, scan_date_exec, valid_date, is_valid_date, CalendarDate};
use crate::events::{
    Event, EventDate, EventGroup, EventListing, EventLocation, LinkView, ListingView, LocationView,
    OverviewView,
};
use crate::links::{url_is_valid, url_ok};
use crate::text::chars_of;

verus! {

/// Why a record could not become a listing.
#[derive(Clone, Debug, PartialEq, Eq, Hash)]
pub enum RecordError {
    /// The date is not a calendar day written `YYYY-MM-DD`; holds it.
    InvalidDate(String),
    /// The event URL is not an absolute URL with a host; holds it.
    InvalidEventUrl(String),
    /// The organizer URL is not an absolute URL with a host; holds it.
    InvalidOrganizerUrl(String),
}

/// One event of a feed.
pub struct EventRecord {
    pub name: String,
    pub location: String,
    pub date: String,
    pub url: String,
    pub is_virtual: bool,
    pub organizer_name: String,
    pub organizer_url: String,
    pub is_hybrid: bool,
}

/// The day written by the whole of `s`, if it is one.
pub open spec fn record_date(s: Seq<char>) -> Option<CalendarDate> {
    match scan_date(s, 0) {
        Some((d, e)) => if e == s.len() && valid_date(d) {
            Some(d)
        } else {
            None
        },
        None => None,
    }
}

/// Where the event takes place: hybrid before virtual, else in person.
pub open spec fn record_location(r: EventRecord) -> LocationView {
    if r.is_hybrid {
        LocationView::Hybrid(r.location@)
    } else if r.is_virtual {
        LocationView::VirtualWithLocation(r.location@)
    } else {
        LocationView::InPerson(r.location@)
    }
}

/// The listing that a valid record stands for: one group, one title link.
pub open spec fn record_listing(r: EventRecord, d: CalendarDate) -> ListingView {
    ListingView {
        overview: OverviewView {
            date: EventDate::Date(d),
            location: record_location(r),
            groups: seq![LinkView { label: r.organizer_name@, url: r.organizer_url@ }],
        },
        events: seq![LinkView { label: r.name@, url: r.url@ }],
    }
}

fn record_date_exec(s: &String) -> (r: Option<CalendarDate>)
    ensures
        r == record_date(s@),
{
    let v = chars_of(s.as_str());
    match scan_date_exec(&v, 0) {
        Some((d, e)) => {
            if e == v.len() && is_valid_date(d) {
                Some(d)
            } else {
                None
            }
        },
        None => None,
    }
}

impl EventRecord {
    /// The listing of the record; checked in this order: the date, the
    /// event URL, the organizer URL. A URL must be absolute and have a host,
    /// the rule that a link in the section's text must meet, so that the
    /// listing once written passes the grammar's link check.
    pub fn into_listing(self) -> (r: Result<EventListing, RecordError>)
        ensures
            match r {
                Ok(l) => record_date(self.date@) matches Some(d) && url_ok(self.url@)
                    && url_ok(self.organizer_url@) && l@ == record_listing(self, d),
                Err(RecordError::InvalidDate(t)) => record_date(self.date@) is None && t@
                    == self.date@,
                Err(RecordError::InvalidEventUrl(t)) => record_date(self.date@) is Some
                    && !url_ok(self.url@) && t@ == self.url@,
                Err(RecordError::InvalidOrganizerUrl(t)) => record_date(self.date@) is Some
                    && url_ok(self.url@) && !url_ok(self.organizer_url@) && t@
                    == self.organizer_url@,
            },
    {
        let ghost rec = self;
        let d = match record_date_exec(&self.date) {
            None => {
                return Err(RecordError::InvalidDate(self.date));
            },
            Some(d) => d,
        };
        if !url_is_valid(self.url.as_str()) {
            return Err(RecordError::InvalidEventUrl(self.url));
        }
        if !url_is_valid(self.organizer_url.as_str()) {
            return Err(RecordError::InvalidOrganizerUrl(self.organizer_url));
        }
        let location = if self.is_hybrid {
            EventLocation::Hybrid(self.location)
        } else if self.is_virtual {
            EventLocation::VirtualWithLocation(self.location)
        } else {
            EventLocation::InPerson(self.location)
        };
        let group = EventGroup { name: self.organizer_name, url: self.organizer_url };
        let event = Event { name: self.name, url: self.url };
        let ghost gv = group@;
        let ghost ev = event@;
        let groups = vec![group];
        let events = vec![event];
        let l = EventListing {
            overview: crate::events::EventOverview { date: EventDate::Date(d), location, groups },
            events,
        };
        assert(crate::events::links_view(l.overview.groups@) =~= seq![gv]);
        assert(crate::events::links_view(l.events@) =~= seq![ev]);
        Ok(l)
    }
}

} // verus!
