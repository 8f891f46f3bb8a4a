//! The section linter: a state machine over the lines of a newsletter that
//! checks the order of the line kinds, the dates of the events and their
//! order within a region.
use vstd::prelude::*;

use crate::date::{date_ord, date_ord_exec, CalendarDate};
use crate::events::{
    overview_lt, region_index, EventDate, EventListing, EventOverview, ListingView,
    OverviewView, Region,
};
use crate::grammar::{kind_name, kind_of, LineKind, LineParseError, LineView, ParseErrorView, ParsedLine};
use crate::reader::{item_view, items_of, ItemView, Line, LineError, Reader};

verus! {

/// Where the linter stands in the section.
#[derive(Clone, Copy, Debug, PartialEq, Eq, Hash, Structural)]
pub enum LinterState {
    /// Before the start marker; nothing is checked.
    PreEvents,
    /// Expecting the date range line.
    ExpectingDateRange,
    /// Expecting a region header, or the end of the section.
    ExpectingRegionHeader,
    /// Expecting an overview line, or a blank line that ends the region.
    ExpectingEventOverview,
    /// Expecting the title line of the event just read.
    ExpectingEventLinks,
    /// The section has ended; nothing more is checked.
    Done,
}

impl LinterState {
    pub fn new() -> (r: LinterState)
        ensures
            r == LinterState::PreEvents,
    {
        LinterState::PreEvents
    }
}

/// What the linter found wrong. Errors about a line carry its number and
/// its text.
#[derive(Clone, Debug, PartialEq, Eq, Hash)]
pub enum LintError {
    /// The line could not be read.
    LineParseFailed { num: u64, raw: String, error: LineParseError },
    /// A second date range line.
    UnexpectedDateRange { num: u64, raw: String },
    /// A line of a kind the state does not expect.
    UnexpectedLineType { num: u64, raw: String, state: LinterState, found: LineKind },
    /// An event dated outside the newsletter's window.
    EventOutOfDateRange {
        num: u64,
        raw: String,
        event_date: EventDate,
        start: CalendarDate,
        end: CalendarDate,
    },
    /// An event that sorts before the previous event of its region.
    EventOutOfOrder { num: u64, raw: String, event: EventOverview, previous: EventOverview },
    /// An event before any date range.
    DateRangeNotSet { num: u64, raw: String },
    /// The text ended before the end of the section.
    UnexpectedEnd,
    /// The error limit was reached.
    TooManyErrors,
    /// The section was read to its end with errors.
    LintFailed,
}

pub enum LintErrorView {
    LineParseFailed { num: int, raw: Seq<char>, error: ParseErrorView },
    UnexpectedDateRange { num: int, raw: Seq<char> },
    UnexpectedLineType { num: int, raw: Seq<char>, state: LinterState, found: LineKind },
    EventOutOfDateRange {
        num: int,
        raw: Seq<char>,
        event_date: EventDate,
        start: CalendarDate,
        end: CalendarDate,
    },
    EventOutOfOrder { num: int, raw: Seq<char>, event: OverviewView, previous: OverviewView },
    DateRangeNotSet { num: int, raw: Seq<char> },
    UnexpectedEnd,
    TooManyErrors,
    LintFailed,
}

impl View for LintError {
    type V = LintErrorView;

    open spec fn view(&self) -> LintErrorView {
        match self {
            LintError::LineParseFailed { num, raw, error } => LintErrorView::LineParseFailed {
                num: *num as int,
                raw: raw@,
                error: error@,
            },
            LintError::UnexpectedDateRange { num, raw } => LintErrorView::UnexpectedDateRange {
                num: *num as int,
                raw: raw@,
            },
            LintError::UnexpectedLineType { num, raw, state, found } =>
                LintErrorView::UnexpectedLineType {
                num: *num as int,
                raw: raw@,
                state: *state,
                found: *found,
            },
            LintError::EventOutOfDateRange { num, raw, event_date, start, end } =>
                LintErrorView::EventOutOfDateRange {
                num: *num as int,
                raw: raw@,
                event_date: *event_date,
                start: *start,
                end: *end,
            },
            LintError::EventOutOfOrder { num, raw, event, previous } =>
                LintErrorView::EventOutOfOrder {
                num: *num as int,
                raw: raw@,
                event: event@,
                previous: previous@,
            },
            LintError::DateRangeNotSet { num, raw } => LintErrorView::DateRangeNotSet {
                num: *num as int,
                raw: raw@,
            },
            LintError::UnexpectedEnd => LintErrorView::UnexpectedEnd,
            LintError::TooManyErrors => LintErrorView::TooManyErrors,
            LintError::LintFailed => LintErrorView::LintFailed,
        }
    }
}

pub open spec fn errors_view(v: Seq<LintError>) -> Seq<LintErrorView> {
    v.map_values(|e: LintError| e@)
}

/// The linter's state as values.
pub struct LinterView {
    pub state: LinterState,
    pub range: Option<(CalendarDate, CalendarDate)>,
    pub region: Option<Region>,
    pub previous: Option<OverviewView>,
    pub error_count: int,
    pub error_limit: int,
    pub errors: Seq<LintErrorView>,
}

/// The event's date (both ends of a range) lies in the window `[a, b]`.
pub open spec fn in_window(d: EventDate, a: CalendarDate, b: CalendarDate) -> bool {
    match d {
        EventDate::Date(x) => date_ord(a) <= date_ord(x) <= date_ord(b),
        EventDate::DateRange { start, end } => date_ord(a) <= date_ord(start) <= date_ord(b)
            && date_ord(a) <= date_ord(end) <= date_ord(b),
    }
}

pub open spec fn unexpected(m: LinterView, it: ItemView, lv: LineView) -> (LinterView, Option<
    LintErrorView,
>) {
    (
        m,
        Some(
            LintErrorView::UnexpectedLineType {
                num: it.num,
                raw: it.raw,
                state: m.state,
                found: kind_of(lv),
            },
        ),
    )
}

/// One line checked against the state: the next state (before any error
/// recovery) and the error found, if any.
pub open spec fn check_line(m: LinterView, it: ItemView) -> (LinterView, Option<LintErrorView>) {
    match it.parsed {
        Err(e) => if m.state == LinterState::PreEvents || m.state == LinterState::Done {
            (m, None)
        } else {
            (m, Some(LintErrorView::LineParseFailed { num: it.num, raw: it.raw, error: e }))
        },
        Ok(lv) => match m.state {
            LinterState::PreEvents => if lv is StartEventSection {
                (LinterView { state: LinterState::ExpectingDateRange, ..m }, None)
            } else {
                (m, None)
            },
            LinterState::ExpectingDateRange => match lv {
                LineView::Newline => (m, None),
                LineView::EventsDateRange { start, end } => if m.range is Some {
                    (m, Some(LintErrorView::UnexpectedDateRange { num: it.num, raw: it.raw }))
                } else {
                    (
                        LinterView {
                            range: Some((start, end)),
                            state: LinterState::ExpectingRegionHeader,
                            ..m
                        },
                        None,
                    )
                },
                _ => unexpected(m, it, lv),
            },
            LinterState::ExpectingRegionHeader => match lv {
                LineView::Newline => (m, None),
                LineView::RegionHeader(r) => (
                    LinterView {
                        region: Some(r),
                        state: LinterState::ExpectingEventOverview,
                        ..m
                    },
                    None,
                ),
                LineView::EndEventSection => (LinterView { state: LinterState::Done, ..m }, None),
                _ => unexpected(m, it, lv),
            },
            LinterState::ExpectingEventOverview => match lv {
                LineView::EventOverview(o) => match m.range {
                    None => (m, Some(LintErrorView::DateRangeNotSet { num: it.num, raw: it.raw })),
                    Some((a, b)) => if !in_window(o.date, a, b) {
                        (
                            m,
                            Some(
                                LintErrorView::EventOutOfDateRange {
                                    num: it.num,
                                    raw: it.raw,
                                    event_date: o.date,
                                    start: a,
                                    end: b,
                                },
                            ),
                        )
                    } else if m.previous is Some && overview_lt(o, m.previous->0) {
                        (
                            m,
                            Some(
                                LintErrorView::EventOutOfOrder {
                                    num: it.num,
                                    raw: it.raw,
                                    event: o,
                                    previous: m.previous->0,
                                },
                            ),
                        )
                    } else {
                        (
                            LinterView {
                                previous: Some(o),
                                state: LinterState::ExpectingEventLinks,
                                ..m
                            },
                            None,
                        )
                    },
                },
                LineView::Newline => (
                    LinterView {
                        state: LinterState::ExpectingRegionHeader,
                        previous: None,
                        region: None,
                        ..m
                    },
                    None,
                ),
                _ => unexpected(m, it, lv),
            },
            LinterState::ExpectingEventLinks => match lv {
                LineView::EventLinks(_) => (
                    LinterView { state: LinterState::ExpectingEventOverview, ..m },
                    None,
                ),
                _ => unexpected(m, it, lv),
            },
            LinterState::Done => (m, None),
        },
    }
}

/// The state guessed after an error: overview and title lines alternate;
/// in other states the linter stays where it is.
pub open spec fn recover(s: LinterState) -> LinterState {
    match s {
        LinterState::ExpectingEventOverview => LinterState::ExpectingEventLinks,
        LinterState::ExpectingEventLinks => LinterState::ExpectingEventOverview,
        _ => s,
    }
}

/// The limit has been reached.
pub open spec fn exhausted(m: LinterView) -> bool {
    m.error_count > 0 && m.error_count >= m.error_limit
}

/// One line: an error is recorded and counted, the state recovers, and the
/// run stops once the count reaches the limit.
pub open spec fn lint_line_spec(m: LinterView, it: ItemView) -> (LinterView, Result<(), LintErrorView>) {
    if exhausted(m) {
        (m, Err(LintErrorView::TooManyErrors))
    } else {
        let (m1, e) = check_line(m, it);
        match e {
            None => (m1, Ok(())),
            Some(x) => {
                let m2 = LinterView {
                    state: recover(m1.state),
                    error_count: m1.error_count + 1,
                    errors: m1.errors.push(x),
                    ..m1
                };
                if exhausted(m2) {
                    (m2, Err(LintErrorView::TooManyErrors))
                } else {
                    (m2, Ok(()))
                }
            },
        }
    }
}

/// The verdict once the lines have run out.
pub open spec fn finish(m: LinterView) -> Result<(), LintErrorView> {
    if m.state != LinterState::Done {
        Err(LintErrorView::UnexpectedEnd)
    } else if m.error_count > 0 {
        Err(LintErrorView::LintFailed)
    } else {
        Ok(())
    }
}

/// A run over the items, stopping at the first result that is an error.
pub open spec fn lint_items(m: LinterView, items: Seq<ItemView>) -> (LinterView, Result<
    (),
    LintErrorView,
>)
    decreases items.len(),
{
    if items.len() == 0 {
        (m, finish(m))
    } else {
        let (m1, r) = lint_line_spec(m, items[0]);
        if r is Err {
            (m1, r)
        } else {
            lint_items(m1, items.drop_first())
        }
    }
}

pub open spec fn initial_view(error_limit: int) -> LinterView {
    LinterView {
        state: LinterState::PreEvents,
        range: None,
        region: None,
        previous: None,
        error_count: 0,
        error_limit,
        errors: Seq::empty(),
    }
}

pub open spec fn opt_overview_view(o: Option<EventOverview>) -> Option<OverviewView> {
    match o {
        Some(x) => Some(x@),
        None => None,
    }
}

/// The linter of an events section.
pub struct EventLinter {
    state: LinterState,
    range: Option<(CalendarDate, CalendarDate)>,
    region: Option<Region>,
    previous: Option<EventOverview>,
    error_count: u16,
    error_limit: u16,
    errors: Vec<LintError>,
}

impl View for EventLinter {
    type V = LinterView;

    closed spec fn view(&self) -> LinterView {
        LinterView {
            state: self.state,
            range: self.range,
            region: self.region,
            previous: opt_overview_view(self.previous),
            error_count: self.error_count as int,
            error_limit: self.error_limit as int,
            errors: errors_view(self.errors@),
        }
    }
}

pub fn in_window_exec(d: EventDate, a: CalendarDate, b: CalendarDate) -> (r: bool)
    ensures
        r == in_window(d, a, b),
{
    let lo = date_ord_exec(a);
    let hi = date_ord_exec(b);
    match d {
        EventDate::Date(x) => {
            let v = date_ord_exec(x);
            lo <= v && v <= hi
        },
        EventDate::DateRange { start, end } => {
            let s = date_ord_exec(start);
            let e = date_ord_exec(end);
            lo <= s && s <= hi && lo <= e && e <= hi
        },
    }
}

impl EventLinter {
    pub fn new(error_limit: u16) -> (r: EventLinter)
        ensures
            r@ == initial_view(error_limit as int),
    {
        let r = EventLinter {
            state: LinterState::new(),
            range: None,
            region: None,
            previous: None,
            error_count: 0,
            error_limit,
            errors: Vec::new(),
        };
        assert(r@.errors =~= Seq::<LintErrorView>::empty());
        r
    }

    /// The errors recorded so far.
    pub fn errors(&self) -> (r: &Vec<LintError>)
        ensures
            errors_view(r@) == self@.errors,
    {
        &self.errors
    }

    /// The newsletter's window, once read.
    pub fn date_range(&self) -> (r: Option<(CalendarDate, CalendarDate)>)
        ensures
            r == self@.range,
    {
        self.range
    }

    /// The current state.
    pub fn state(&self) -> (r: LinterState)
        ensures
            r == self@.state,
    {
        self.state
    }

    fn unexpected_line(&self, num: u64, raw: &String, line: &ParsedLine) -> (r: Option<LintError>)
        ensures
            r matches Some(e) && e@ == (LintErrorView::UnexpectedLineType {
                num: num as int,
                raw: raw@,
                state: self@.state,
                found: kind_of(line@),
            }),
    {
        Some(
            LintError::UnexpectedLineType {
                num,
                raw: raw.clone(),
                state: self.state,
                found: line.kind(),
            },
        )
    }

    /// Checks one line (see [`check_line`]).
    fn check(&mut self, item: &Result<Line, LineError>) -> (r: Option<LintError>)
        ensures
            (final(self)@, match r {
                Some(e) => Some(e@),
                None => None::<LintErrorView>,
            }) == check_line(old(self)@, item_view(*item)),
    {
        let ghost m = self@;
        let ghost it = item_view(*item);
        let line = match item {
            Err(e) => {
                if self.state == LinterState::PreEvents || self.state == LinterState::Done {
                    return None;
                }
                return Some(
                    LintError::LineParseFailed { num: e.num, raw: e.raw.clone(), error: e.error.duplicate() },
                );
            },
            Ok(l) => l,
        };
        let num = line.line_num;
        let raw = &line.line_raw;
        match self.state {
            LinterState::PreEvents => {
                if let ParsedLine::StartEventSection = line.line_parsed {
                    self.state = LinterState::ExpectingDateRange;
                }
                None
            },
            LinterState::ExpectingDateRange => match &line.line_parsed {
                ParsedLine::Newline => None,
                ParsedLine::EventsDateRange { start, end } => {
                    if self.range.is_some() {
                        Some(LintError::UnexpectedDateRange { num, raw: raw.clone() })
                    } else {
                        self.range = Some((*start, *end));
                        self.state = LinterState::ExpectingRegionHeader;
                        None
                    }
                },
                _ => self.unexpected_line(num, raw, &line.line_parsed),
            },
            LinterState::ExpectingRegionHeader => match &line.line_parsed {
                ParsedLine::Newline => None,
                ParsedLine::RegionHeader(r) => {
                    self.region = Some(*r);
                    self.state = LinterState::ExpectingEventOverview;
                    None
                },
                ParsedLine::EndEventSection => {
                    self.state = LinterState::Done;
                    None
                },
                _ => self.unexpected_line(num, raw, &line.line_parsed),
            },
            LinterState::ExpectingEventOverview => match &line.line_parsed {
                ParsedLine::EventOverview(o) => match self.range {
                    None => Some(LintError::DateRangeNotSet { num, raw: raw.clone() }),
                    Some((a, b)) => {
                        if !in_window_exec(o.date, a, b) {
                            return Some(
                                LintError::EventOutOfDateRange {
                                    num,
                                    raw: raw.clone(),
                                    event_date: o.date,
                                    start: a,
                                    end: b,
                                },
                            );
                        }
                        match &self.previous {
                            Some(p) => {
                                if o.is_before(p) {
                                    return Some(
                                        LintError::EventOutOfOrder {
                                            num,
                                            raw: raw.clone(),
                                            event: o.duplicate(),
                                            previous: p.duplicate(),
                                        },
                                    );
                                }
                            },
                            None => {},
                        }
                        self.previous = Some(o.duplicate());
                        self.state = LinterState::ExpectingEventLinks;
                        None
                    },
                },
                ParsedLine::Newline => {
                    self.state = LinterState::ExpectingRegionHeader;
                    self.previous = None;
                    self.region = None;
                    None
                },
                _ => self.unexpected_line(num, raw, &line.line_parsed),
            },
            LinterState::ExpectingEventLinks => match &line.line_parsed {
                ParsedLine::EventLinks(_) => {
                    self.state = LinterState::ExpectingEventOverview;
                    None
                },
                _ => self.unexpected_line(num, raw, &line.line_parsed),
            },
            LinterState::Done => None,
        }
    }

    /// Handles one line (see [`lint_line_spec`]).
    pub fn lint_line(&mut self, item: &Result<Line, LineError>) -> (r: Result<(), LintError>)
        ensures
            (final(self)@, match r {
                Ok(_) => Ok::<(), LintErrorView>(()),
                Err(e) => Err(e@),
            }) == lint_line_spec(old(self)@, item_view(*item)),
    {
        if self.error_count > 0 && self.error_count >= self.error_limit {
            return Err(LintError::TooManyErrors);
        }
        match self.check(item) {
            None => Ok(()),
            Some(e) => {
                self.state = match self.state {
                    LinterState::ExpectingEventOverview => LinterState::ExpectingEventLinks,
                    LinterState::ExpectingEventLinks => LinterState::ExpectingEventOverview,
                    other => other,
                };
                self.error_count = self.error_count + 1;
                let ghost before = self.errors@;
                let ghost ev = e@;
                self.errors.push(e);
                assert(errors_view(self.errors@) =~= errors_view(before).push(ev));
                if self.error_count >= self.error_limit {
                    Err(LintError::TooManyErrors)
                } else {
                    Ok(())
                }
            },
        }
    }

    /// The verdict once the lines have run out (see [`finish`]).
    pub fn finish(&self) -> (r: Result<(), LintError>)
        ensures
            match r {
                Ok(_) => finish(self@) is Ok,
                Err(e) => finish(self@) == Err::<(), LintErrorView>(e@),
            },
    {
        if self.state != LinterState::Done {
            Err(LintError::UnexpectedEnd)
        } else if self.error_count > 0 {
            Err(LintError::LintFailed)
        } else {
            Ok(())
        }
    }

    /// Lints the lines that `reader` has left: the result is success exactly
    /// when the section was read to its end without errors.
    pub fn lint(&mut self, reader: &mut Reader) -> (r: Result<(), LintError>)
        ensures
            (final(self)@, match r {
                Ok(_) => Ok::<(), LintErrorView>(()),
                Err(e) => Err(e@),
            }) == lint_items(old(self)@, items_of(old(reader).remaining(), old(reader).last_num() + 1)),
    {
        let ghost total = lint_items(self@, items_of(reader.remaining(), reader.last_num() + 1));
        loop
            invariant
                total == lint_items(self@, items_of(reader.remaining(), reader.last_num() + 1)),
                total == lint_items(
                    old(self)@,
                    items_of(old(reader).remaining(), old(reader).last_num() + 1),
                ),
            decreases reader.remaining().len(),
        {
            let ghost rem = reader.remaining();
            let ghost n = reader.last_num();
            match reader.next_line() {
                None => {
                    return self.finish();
                },
                Some(item) => {
                    proof {
                        let its = items_of(rem, n + 1);
                        assert(its[0] == item_view(item));
                        assert(its.drop_first() =~= items_of(reader.remaining(), reader.last_num() + 1));
                    }
                    let r = self.lint_line(&item);
                    if r.is_err() {
                        return r;
                    }
                },
            }
        }
    }
}

} // verus!

verus! {

impl LintError {
    /// A copy with the same view.
    pub fn clone_error(&self) -> (r: LintError)
        ensures
            r@ == self@,
    {
        match self {
            LintError::LineParseFailed { num, raw, error } => LintError::LineParseFailed {
                num: *num,
                raw: raw.clone(),
                error: error.duplicate(),
            },
            LintError::UnexpectedDateRange { num, raw } => LintError::UnexpectedDateRange {
                num: *num,
                raw: raw.clone(),
            },
            LintError::UnexpectedLineType { num, raw, state, found } =>
                LintError::UnexpectedLineType {
                num: *num,
                raw: raw.clone(),
                state: *state,
                found: *found,
            },
            LintError::EventOutOfDateRange { num, raw, event_date, start, end } =>
                LintError::EventOutOfDateRange {
                num: *num,
                raw: raw.clone(),
                event_date: *event_date,
                start: *start,
                end: *end,
            },
            LintError::EventOutOfOrder { num, raw, event, previous } =>
                LintError::EventOutOfOrder {
                num: *num,
                raw: raw.clone(),
                event: event.duplicate(),
                previous: previous.duplicate(),
            },
            LintError::DateRangeNotSet { num, raw } => LintError::DateRangeNotSet {
                num: *num,
                raw: raw.clone(),
            },
            LintError::UnexpectedEnd => LintError::UnexpectedEnd,
            LintError::TooManyErrors => LintError::TooManyErrors,
            LintError::LintFailed => LintError::LintFailed,
        }
    }
}

} // verus!

verus! {

use crate::date::{digit_char, render_date};
use crate::events::{render_event_date, render_overview};
use crate::grammar::ParseErrorView as PE;

/// `n` in decimal digits.
pub open spec fn decimal(n: nat) -> Seq<char>
    decreases n,
{
    if n < 10 {
        seq![digit_char(n as int)]
    } else {
        decimal(n / 10).push(digit_char((n % 10) as int))
    }
}

fn push_decimal(s: &mut String, n: u64)
    ensures
        final(s)@ == old(s)@ + decimal(n as nat),
    decreases n,
{
    if n >= 10 {
        push_decimal(s, n / 10);
    }
    let d = (n % 10) as u32;
    let c = match d {
        0 => '0',
        1 => '1',
        2 => '2',
        3 => '3',
        4 => '4',
        5 => '5',
        6 => '6',
        7 => '7',
        8 => '8',
        _ => '9',
    };
    proof {
        if n < 10 {
            assert(d == n);
        }
    }
    crate::text::push_char(s, c);
    assert(final(s)@ =~= old(s)@ + decimal(n as nat));
}

/// What a line that could not be read is reported as.
pub open spec fn parse_error_message(e: PE) -> Seq<char> {
    match e {
        PE::ParseFailed(_) => "failed to parse line"@,
        PE::InvalidDate(t) => "invalid date '"@ + t + "'"@,
        PE::InvalidUrl(t) => "invalid url '"@ + t + "'"@,
        PE::UnknownRegion(t) => "unknown region '"@ + t + "'"@,
        PE::InvalidLinkLabel(t) => "invalid link label '"@ + t + "'"@,
        PE::UrlContainsTracker(t) => "url contains tracker '"@ + t + "'"@,
    }
}

pub open spec fn state_name(s: LinterState) -> Seq<char> {
    match s {
        LinterState::PreEvents => "PreEvents"@,
        LinterState::ExpectingDateRange => "ExpectingDateRange"@,
        LinterState::ExpectingRegionHeader => "ExpectingRegionHeader"@,
        LinterState::ExpectingEventOverview => "ExpectingEventOverview"@,
        LinterState::ExpectingEventLinks => "ExpectingEventLinks"@,
        LinterState::Done => "Done"@,
    }
}

/// The kinds of line that a state accepts.
pub open spec fn expected_kinds(s: LinterState) -> Seq<char> {
    match s {
        LinterState::ExpectingDateRange => "Newline or EventsDateRange"@,
        LinterState::ExpectingRegionHeader => "Newline, RegionHeader or EndEventSection"@,
        LinterState::ExpectingEventOverview => "EventOverview or Newline"@,
        LinterState::ExpectingEventLinks => "EventLinks"@,
        _ => "any line"@,
    }
}

/// The start of a message about line `num`.
pub open spec fn line_head(num: int) -> Seq<char> {
    "line #"@ + decimal(num as nat) + ": "@
}

/// The end of a message about a line: its text, quoted on a line of its own.
pub open spec fn line_tail(raw: Seq<char>) -> Seq<char> {
    "\n'"@ + raw + "'"@
}

/// The text that reports an error.
pub open spec fn lint_message(e: LintErrorView) -> Seq<char> {
    match e {
        LintErrorView::LineParseFailed { num, raw, error } => line_head(num)
            + parse_error_message(error) + line_tail(raw),
        LintErrorView::UnexpectedDateRange { num, raw } => line_head(num)
            + "multiple date ranges found"@ + line_tail(raw),
        LintErrorView::UnexpectedLineType { num, raw, state, found } => line_head(num)
            + "in state "@ + state_name(state) + " expected "@ + expected_kinds(state)
            + ", found "@ + kind_name(found) + line_tail(raw),
        LintErrorView::EventOutOfDateRange { num, raw, event_date, start, end } => line_head(num)
            + "event date "@ + render_event_date(event_date)
            + " does not fall within newsletter date range "@ + render_date(start) + " - "@
            + render_date(end) + line_tail(raw),
        LintErrorView::EventOutOfOrder { num, raw, event, previous } => line_head(num)
            + "event '"@ + render_overview(event) + "' should come after previous event '"@
            + render_overview(previous) + "'"@ + line_tail(raw),
        LintErrorView::DateRangeNotSet { num, raw } => line_head(num)
            + "event found before the date range"@ + line_tail(raw),
        LintErrorView::UnexpectedEnd => "reached unexpected end of section"@,
        LintErrorView::TooManyErrors => "reached the error limit, bailing"@,
        LintErrorView::LintFailed => "lint failed, see above for error details"@,
    }
}

fn push_line_head(s: &mut String, num: u64)
    ensures
        final(s)@ == old(s)@ + line_head(num as int),
{
    s.append("line #");
    push_decimal(s, num);
    s.append(": ");
    assert(final(s)@ =~= old(s)@ + line_head(num as int));
}

fn push_line_tail(s: &mut String, raw: &String)
    ensures
        final(s)@ == old(s)@ + line_tail(raw@),
{
    s.append("\n'");
    s.append(raw.as_str());
    s.append("'");
    assert(final(s)@ =~= old(s)@ + line_tail(raw@));
}

fn push_quoted(s: &mut String, head: &str, t: &String)
    ensures
        final(s)@ == old(s)@ + (head@ + t@ + "'"@),
{
    s.append(head);
    s.append(t.as_str());
    s.append("'");
    assert(final(s)@ =~= old(s)@ + (head@ + t@ + "'"@));
}

impl LineParseError {
    /// The text that reports the error.
    pub fn message(&self) -> (r: String)
        ensures
            r@ == parse_error_message(self@),
    {
        let mut s = String::new();
        match self {
            LineParseError::ParseFailed(_) => s.append("failed to parse line"),
            LineParseError::InvalidDate(t) => push_quoted(&mut s, "invalid date '", t),
            LineParseError::InvalidUrl(t) => push_quoted(&mut s, "invalid url '", t),
            LineParseError::UnknownRegion(t) => push_quoted(&mut s, "unknown region '", t),
            LineParseError::InvalidLinkLabel(t) => push_quoted(&mut s, "invalid link label '", t),
            LineParseError::UrlContainsTracker(t) => push_quoted(
                &mut s,
                "url contains tracker '",
                t,
            ),
        }
        assert(s@ =~= parse_error_message(self@));
        s
    }
}

impl LinterState {
    /// The name of the state, as messages show it.
    pub fn name(&self) -> (r: &'static str)
        ensures
            r@ == state_name(*self),
    {
        match self {
            LinterState::PreEvents => "PreEvents",
            LinterState::ExpectingDateRange => "ExpectingDateRange",
            LinterState::ExpectingRegionHeader => "ExpectingRegionHeader",
            LinterState::ExpectingEventOverview => "ExpectingEventOverview",
            LinterState::ExpectingEventLinks => "ExpectingEventLinks",
            LinterState::Done => "Done",
        }
    }
}

impl LinterState {
    /// The kinds of line that the state accepts, as messages show them.
    pub fn expected_kinds(&self) -> (r: &'static str)
        ensures
            r@ == expected_kinds(*self),
    {
        match self {
            LinterState::ExpectingDateRange => "Newline or EventsDateRange",
            LinterState::ExpectingRegionHeader => "Newline, RegionHeader or EndEventSection",
            LinterState::ExpectingEventOverview => "EventOverview or Newline",
            LinterState::ExpectingEventLinks => "EventLinks",
            _ => "any line",
        }
    }
}

impl LintError {
    /// The text that reports the error.
    pub fn message(&self) -> (r: String)
        ensures
            r@ == lint_message(self@),
    {
        let mut s = String::new();
        match self {
            LintError::LineParseFailed { num, raw, error } => {
                push_line_head(&mut s, *num);
                let m = error.message();
                s.append(m.as_str());
                push_line_tail(&mut s, raw);
            },
            LintError::UnexpectedDateRange { num, raw } => {
                push_line_head(&mut s, *num);
                s.append("multiple date ranges found");
                push_line_tail(&mut s, raw);
            },
            LintError::UnexpectedLineType { num, raw, state, found } => {
                push_line_head(&mut s, *num);
                s.append("in state ");
                s.append(state.name());
                s.append(" expected ");
                s.append(state.expected_kinds());
                s.append(", found ");
                s.append(found.name());
                push_line_tail(&mut s, raw);
            },
            LintError::EventOutOfDateRange { num, raw, event_date, start, end } => {
                push_line_head(&mut s, *num);
                s.append("event date ");
                crate::events::push_event_date(&mut s, *event_date);
                s.append(" does not fall within newsletter date range ");
                crate::date::push_date(&mut s, *start);
                s.append(" - ");
                crate::date::push_date(&mut s, *end);
                push_line_tail(&mut s, raw);
            },
            LintError::EventOutOfOrder { num, raw, event, previous } => {
                push_line_head(&mut s, *num);
                s.append("event '");
                let a = event.render();
                s.append(a.as_str());
                s.append("' should come after previous event '");
                let b = previous.render();
                s.append(b.as_str());
                s.append("'");
                push_line_tail(&mut s, raw);
            },
            LintError::DateRangeNotSet { num, raw } => {
                push_line_head(&mut s, *num);
                s.append("event found before the date range");
                push_line_tail(&mut s, raw);
            },
            LintError::UnexpectedEnd => s.append("reached unexpected end of section"),
            LintError::TooManyErrors => s.append("reached the error limit, bailing"),
            LintError::LintFailed => s.append("lint failed, see above for error details"),
        }
        assert(s@ =~= lint_message(self@));
        s
    }
}

} // verus!
