//! Reading the listings and the window of an events section: the line
//! kinds follow the linter's state transitions, without the checks on the
//! events' dates and order, and the first problem ends the reading.
use vstd::prelude::*;

use crate::date::CalendarDate;
use crate::events::{
    duplicate_events_list, region_index, EventListing, EventOverview, LinkView, ListingView,
    OverviewView, Region,
};
use crate::grammar::{kind_of, LineView, ParsedLine};
use crate::linter::{opt_overview_view, LintError, LintErrorView, LinterState};
use crate::merge::EventsByRegion;
use crate::reader::{item_view, items_of, ItemView, Line, LineError, Reader};

verus! {

/// What the reading has gathered so far.
pub struct CollectView {
    pub state: LinterState,
    pub range: Option<(CalendarDate, CalendarDate)>,
    pub region: Option<Region>,
    pub pending: Option<OverviewView>,
    pub events: Seq<Seq<ListingView>>,
}

pub open spec fn initial_collect() -> CollectView {
    CollectView {
        state: LinterState::PreEvents,
        range: None,
        region: None,
        pending: None,
        events: Seq::new(7, |i: int| Seq::<ListingView>::empty()),
    }
}

/// The listings once the title line `ls` completes the pending overview:
/// the listing goes at the end of the current region.
pub open spec fn add_pending(c: CollectView, ls: Seq<LinkView>) -> Seq<Seq<ListingView>> {
    match (c.pending, c.region) {
        (Some(o), Some(r)) => c.events.update(
            region_index(r),
            c.events[region_index(r)].push(ListingView { overview: o, events: ls }),
        ),
        _ => c.events,
    }
}

pub open spec fn unexpected_kind(c: CollectView, it: ItemView, lv: LineView) -> Result<
    CollectView,
    LintErrorView,
> {
    Err(
        LintErrorView::UnexpectedLineType {
            num: it.num,
            raw: it.raw,
            state: c.state,
            found: kind_of(lv),
        },
    )
}

/// One line of the reading: before the start marker and after the end of
/// the section every line is passed over; inside, a line that could not be
/// read, a line of a kind the state does not expect, or a second date range
/// is an error.
pub open spec fn collect_line(c: CollectView, it: ItemView) -> Result<CollectView, LintErrorView> {
    if c.state == LinterState::PreEvents {
        if it.parsed == Ok::<LineView, crate::grammar::ParseErrorView>(LineView::StartEventSection) {
            Ok(CollectView { state: LinterState::ExpectingDateRange, ..c })
        } else {
            Ok(c)
        }
    } else if c.state == LinterState::Done {
        Ok(c)
    } else {
        match it.parsed {
            Err(e) => Err(LintErrorView::LineParseFailed { num: it.num, raw: it.raw, error: e }),
            Ok(lv) => match c.state {
                LinterState::ExpectingDateRange => match lv {
                    LineView::Newline => Ok(c),
                    LineView::EventsDateRange { start, end } => if c.range is Some {
                        Err(LintErrorView::UnexpectedDateRange { num: it.num, raw: it.raw })
                    } else {
                        Ok(
                            CollectView {
                                range: Some((start, end)),
                                state: LinterState::ExpectingRegionHeader,
                                ..c
                            },
                        )
                    },
                    _ => unexpected_kind(c, it, lv),
                },
                LinterState::ExpectingRegionHeader => match lv {
                    LineView::Newline => Ok(c),
                    LineView::RegionHeader(r) => Ok(
                        CollectView {
                            region: Some(r),
                            state: LinterState::ExpectingEventOverview,
                            ..c
                        },
                    ),
                    LineView::EndEventSection => Ok(CollectView { state: LinterState::Done, ..c }),
                    _ => unexpected_kind(c, it, lv),
                },
                LinterState::ExpectingEventOverview => match lv {
                    LineView::EventOverview(o) => Ok(
                        CollectView {
                            pending: Some(o),
                            state: LinterState::ExpectingEventLinks,
                            ..c
                        },
                    ),
                    LineView::Newline => Ok(
                        CollectView { state: LinterState::ExpectingRegionHeader, region: None, ..c },
                    ),
                    _ => unexpected_kind(c, it, lv),
                },
                _ => match lv {
                    LineView::EventLinks(ls) => Ok(
                        CollectView {
                            state: LinterState::ExpectingEventOverview,
                            pending: None,
                            events: add_pending(c, ls),
                            ..c
                        },
                    ),
                    _ => unexpected_kind(c, it, lv),
                },
            },
        }
    }
}

/// The reading of the items: the first error ends it, and the items must
/// reach the end of the section.
pub open spec fn collect_items(c: CollectView, items: Seq<ItemView>) -> Result<
    CollectView,
    LintErrorView,
>
    decreases items.len(),
{
    if items.len() == 0 {
        if c.state == LinterState::Done {
            Ok(c)
        } else {
            Err(LintErrorView::UnexpectedEnd)
        }
    } else {
        match collect_line(c, items[0]) {
            Err(e) => Err(e),
            Ok(c1) => collect_items(c1, items.drop_first()),
        }
    }
}

struct Collector {
    state: LinterState,
    range: Option<(CalendarDate, CalendarDate)>,
    region: Option<Region>,
    pending: Option<EventOverview>,
    events: EventsByRegion,
}

impl Collector {
    spec fn view(&self) -> CollectView {
        CollectView {
            state: self.state,
            range: self.range,
            region: self.region,
            pending: opt_overview_view(self.pending),
            events: self.events@,
        }
    }

    fn unexpected(&self, num: u64, raw: &String, line: &ParsedLine) -> (r: LintError)
        ensures
            Err::<CollectView, LintErrorView>(r@) == unexpected_kind(
                self.view(),
                ItemView { num: num as int, raw: raw@, parsed: Ok(line@) },
                line@,
            ),
    {
        LintError::UnexpectedLineType {
            num,
            raw: raw.clone(),
            state: self.state,
            found: line.kind(),
        }
    }

    /// One line (see [`collect_line`]).
    fn step(&mut self, item: &Result<Line, LineError>) -> (r: Option<LintError>)
        ensures
            match r {
                None => collect_line(old(self).view(), item_view(*item)) == Ok::<
                    CollectView,
                    LintErrorView,
                >(final(self).view()),
                Some(e) => collect_line(old(self).view(), item_view(*item)) == Err::<
                    CollectView,
                    LintErrorView,
                >(e@),
            },
    {
        if self.state == LinterState::PreEvents {
            if let Ok(l) = item {
                if let ParsedLine::StartEventSection = l.line_parsed {
                    self.state = LinterState::ExpectingDateRange;
                }
            }
            return None;
        }
        if self.state == LinterState::Done {
            return None;
        }
        let line = match item {
            Err(e) => {
                return Some(
                    LintError::LineParseFailed {
                        num: e.num,
                        raw: e.raw.clone(),
                        error: e.error.duplicate(),
                    },
                );
            },
            Ok(l) => l,
        };
        let num = line.line_num;
        let raw = &line.line_raw;
        match self.state {
            LinterState::ExpectingDateRange => match &line.line_parsed {
                ParsedLine::Newline => None,
                ParsedLine::EventsDateRange { start, end } => {
                    if self.range.is_some() {
                        Some(LintError::UnexpectedDateRange { num, raw: raw.clone() })
                    } else {
                        self.range = Some((*start, *end));
                        self.state = LinterState::ExpectingRegionHeader;
                        None
                    }
                },
                _ => Some(self.unexpected(num, raw, &line.line_parsed)),
            },
            LinterState::ExpectingRegionHeader => match &line.line_parsed {
                ParsedLine::Newline => None,
                ParsedLine::RegionHeader(r) => {
                    self.region = Some(*r);
                    self.state = LinterState::ExpectingEventOverview;
                    None
                },
                ParsedLine::EndEventSection => {
                    self.state = LinterState::Done;
                    None
                },
                _ => Some(self.unexpected(num, raw, &line.line_parsed)),
            },
            LinterState::ExpectingEventOverview => match &line.line_parsed {
                ParsedLine::EventOverview(o) => {
                    self.pending = Some(o.duplicate());
                    self.state = LinterState::ExpectingEventLinks;
                    None
                },
                ParsedLine::Newline => {
                    self.state = LinterState::ExpectingRegionHeader;
                    self.region = None;
                    None
                },
                _ => Some(self.unexpected(num, raw, &line.line_parsed)),
            },
            _ => match &line.line_parsed {
                ParsedLine::EventLinks(ls) => {
                    let pending = match &self.pending {
                        Some(o) => Some(o.duplicate()),
                        None => None,
                    };
                    match (pending, self.region) {
                        (Some(o), Some(r)) => {
                            let events = duplicate_events_list(ls);
                            let listing = EventListing { overview: o, events };
                            self.events.add(listing, r);
                        },
                        _ => {},
                    }
                    self.pending = None;
                    self.state = LinterState::ExpectingEventOverview;
                    None
                },
                _ => Some(self.unexpected(num, raw, &line.line_parsed)),
            },
        }
    }
}

/// Reads the listings of each region, in document order, and the window of
/// the section that `reader` has left. It succeeds whenever the lines
/// follow the grammar's order (start, date range, region blocks, end),
/// whatever the events' dates and order; the first problem ends the
/// reading and is returned.
pub fn collect_events(reader: &mut Reader) -> (r: Result<
    (EventsByRegion, Option<(CalendarDate, CalendarDate)>),
    LintError,
>)
    ensures
        ({
            let res = collect_items(
                initial_collect(),
                items_of(old(reader).remaining(), old(reader).last_num() + 1),
            );
            match r {
                Ok((ev, range)) => res matches Ok(c) && ev@ == c.events && range == c.range,
                Err(e) => res == Err::<CollectView, LintErrorView>(e@),
            }
        }),
{
    let events = EventsByRegion::new();
    let mut c = Collector {
        state: LinterState::PreEvents,
        range: None,
        region: None,
        pending: None,
        events,
    };
    assert forall|i: int| 0 <= i < 7 implies #[trigger] c.view().events[i] =~= Seq::<
        ListingView,
    >::empty() by {
        assert(c.view().events[i].len() == 0);
    }
    assert(c.view().events =~= initial_collect().events);
    assert(c.view() == initial_collect());
    let ghost total = collect_items(
        initial_collect(),
        items_of(reader.remaining(), reader.last_num() + 1),
    );
    loop
        invariant
            total == collect_items(c.view(), items_of(reader.remaining(), reader.last_num() + 1)),
            total == collect_items(
                initial_collect(),
                items_of(old(reader).remaining(), old(reader).last_num() + 1),
            ),
        decreases reader.remaining().len(),
    {
        let ghost rem = reader.remaining();
        let ghost n = reader.last_num();
        match reader.next_line() {
            None => {
                if c.state == LinterState::Done {
                    return Ok((c.events, c.range));
                } else {
                    return Err(LintError::UnexpectedEnd);
                }
            },
            Some(item) => {
                proof {
                    let its = items_of(rem, n + 1);
                    assert(its[0] == item_view(item));
                    assert(its.drop_first() =~= items_of(reader.remaining(), reader.last_num() + 1));
                }
                match c.step(&item) {
                    Some(e) => {
                        return Err(e);
                    },
                    None => {},
                }
            },
        }
    }
}

} // verus!
