//! The line grammar of the events section: each line of text is read into
//! one typed line, or into the error that stops it.
use vstd::prelude::*;

use crate::date::{scan_date, scan_date_exec, valid_date, is_valid_date, CalendarDate};
use crate::events::{
    links_view, region_named, Event, EventDate, EventGroup, EventLocation, EventOverview, LinkView,
    LocationView, MarkdownLink, OverviewView, Region,
};
use crate::links::{p_links, parse_links_at};
use crate::text::{
    chars_eq, chars_of, find_lit, find_lit_exec, has_prefix_at, lemma_find_lit_bounds, lit_at,
    string_of,
};

verus! {

/// Why a line could not be read.
#[derive(Clone, Debug, PartialEq, Eq, Hash)]
pub enum LineParseError {
    /// The line matches no form of the grammar, or a part of it is
    /// malformed; holds the whole line.
    ParseFailed(String),
    /// A date in the line is not a day of the calendar; holds its text.
    InvalidDate(String),
    /// A link's URL is not an absolute URL with a host; holds the URL.
    InvalidUrl(String),
    /// A region header names no known region; holds the name.
    UnknownRegion(String),
    /// A title link's label is not bold; holds the label.
    InvalidLinkLabel(String),
    /// A URL carries the tracker parameter; holds the URL.
    UrlContainsTracker(String),
}

pub enum ParseErrorView {
    ParseFailed(Seq<char>),
    InvalidDate(Seq<char>),
    InvalidUrl(Seq<char>),
    UnknownRegion(Seq<char>),
    InvalidLinkLabel(Seq<char>),
    UrlContainsTracker(Seq<char>),
}

impl View for LineParseError {
    type V = ParseErrorView;

    open spec fn view(&self) -> ParseErrorView {
        match self {
            LineParseError::ParseFailed(s) => ParseErrorView::ParseFailed(s@),
            LineParseError::InvalidDate(s) => ParseErrorView::InvalidDate(s@),
            LineParseError::InvalidUrl(s) => ParseErrorView::InvalidUrl(s@),
            LineParseError::UnknownRegion(s) => ParseErrorView::UnknownRegion(s@),
            LineParseError::InvalidLinkLabel(s) => ParseErrorView::InvalidLinkLabel(s@),
            LineParseError::UrlContainsTracker(s) => ParseErrorView::UrlContainsTracker(s@),
        }
    }
}

impl LineParseError {
    /// A copy with the same view.
    pub fn duplicate(&self) -> (r: LineParseError)
        ensures
            r@ == self@,
    {
        match self {
            LineParseError::ParseFailed(s) => LineParseError::ParseFailed(s.clone()),
            LineParseError::InvalidDate(s) => LineParseError::InvalidDate(s.clone()),
            LineParseError::InvalidUrl(s) => LineParseError::InvalidUrl(s.clone()),
            LineParseError::UnknownRegion(s) => LineParseError::UnknownRegion(s.clone()),
            LineParseError::InvalidLinkLabel(s) => LineParseError::InvalidLinkLabel(s.clone()),
            LineParseError::UrlContainsTracker(s) => LineParseError::UrlContainsTracker(s.clone()),
        }
    }
}

/// A line of the events section, read.
#[derive(Clone, Debug, PartialEq, Eq, Hash)]
pub enum ParsedLine {
    /// An empty line.
    Newline,
    /// `## Upcoming Events`
    StartEventSection,
    /// `Rusty Events between <start> - <end>`
    EventsDateRange { start: CalendarDate, end: CalendarDate },
    /// `### <region>`
    RegionHeader(Region),
    /// `* <date> | <location> | <group link(s)>`
    EventOverview(EventOverview),
    /// `    * <title link(s)>`
    EventLinks(Vec<Event>),
    /// The closing sentence of the section.
    EndEventSection,
}

pub enum LineView {
    Newline,
    StartEventSection,
    EventsDateRange { start: CalendarDate, end: CalendarDate },
    RegionHeader(Region),
    EventOverview(OverviewView),
    EventLinks(Seq<LinkView>),
    EndEventSection,
}

impl View for ParsedLine {
    type V = LineView;

    open spec fn view(&self) -> LineView {
        match self {
            ParsedLine::Newline => LineView::Newline,
            ParsedLine::StartEventSection => LineView::StartEventSection,
            ParsedLine::EventsDateRange { start, end } => LineView::EventsDateRange {
                start: *start,
                end: *end,
            },
            ParsedLine::RegionHeader(r) => LineView::RegionHeader(*r),
            ParsedLine::EventOverview(o) => LineView::EventOverview(o@),
            ParsedLine::EventLinks(es) => LineView::EventLinks(links_view(es@)),
            ParsedLine::EndEventSection => LineView::EndEventSection,
        }
    }
}

/// The kinds of lines of the grammar.
#[derive(Clone, Copy, Debug, PartialEq, Eq, Hash, Structural)]
pub enum LineKind {
    Newline,
    StartEventSection,
    EventsDateRange,
    RegionHeader,
    EventOverview,
    EventLinks,
    EndEventSection,
}

pub open spec fn kind_of(l: LineView) -> LineKind {
    match l {
        LineView::Newline => LineKind::Newline,
        LineView::StartEventSection => LineKind::StartEventSection,
        LineView::EventsDateRange { .. } => LineKind::EventsDateRange,
        LineView::RegionHeader(_) => LineKind::RegionHeader,
        LineView::EventOverview(_) => LineKind::EventOverview,
        LineView::EventLinks(_) => LineKind::EventLinks,
        LineView::EndEventSection => LineKind::EndEventSection,
    }
}

pub open spec fn kind_name(k: LineKind) -> Seq<char> {
    match k {
        LineKind::Newline => "Newline"@,
        LineKind::StartEventSection => "StartEventSection"@,
        LineKind::EventsDateRange => "EventsDateRange"@,
        LineKind::RegionHeader => "RegionHeader"@,
        LineKind::EventOverview => "EventOverview"@,
        LineKind::EventLinks => "EventLinks"@,
        LineKind::EndEventSection => "EndEventSection"@,
    }
}

impl LineKind {
    /// The name of the kind, as messages show it.
    pub fn name(&self) -> (r: &'static str)
        ensures
            r@ == kind_name(*self),
    {
        match self {
            LineKind::Newline => "Newline",
            LineKind::StartEventSection => "StartEventSection",
            LineKind::EventsDateRange => "EventsDateRange",
            LineKind::RegionHeader => "RegionHeader",
            LineKind::EventOverview => "EventOverview",
            LineKind::EventLinks => "EventLinks",
            LineKind::EndEventSection => "EndEventSection",
        }
    }
}

impl ParsedLine {
    /// The kind of the line.
    pub fn kind(&self) -> (r: LineKind)
        ensures
            r == kind_of(self@),
    {
        match self {
            ParsedLine::Newline => LineKind::Newline,
            ParsedLine::StartEventSection => LineKind::StartEventSection,
            ParsedLine::EventsDateRange { .. } => LineKind::EventsDateRange,
            ParsedLine::RegionHeader(_) => LineKind::RegionHeader,
            ParsedLine::EventOverview(_) => LineKind::EventOverview,
            ParsedLine::EventLinks(_) => LineKind::EventLinks,
            ParsedLine::EndEventSection => LineKind::EndEventSection,
        }
    }
}

pub open spec fn line_result_view(r: Result<ParsedLine, LineParseError>) -> Result<
    LineView,
    ParseErrorView,
> {
    match r {
        Ok(l) => Ok(l@),
        Err(e) => Err(e@),
    }
}

pub open spec fn start_marker() -> Seq<char> {
    "## Upcoming Events"@
}

pub open spec fn end_marker() -> Seq<char> {
    "If you are running a Rust event please add it to the [calendar]"@
}

pub open spec fn date_range_prefix() -> Seq<char> {
    "Rusty Events between "@
}

pub open spec fn region_prefix() -> Seq<char> {
    "### "@
}

pub open spec fn overview_prefix() -> Seq<char> {
    "* "@
}

pub open spec fn links_prefix() -> Seq<char> {
    "    * "@
}

/// A calendar date at `pos` (see [`scan_date`]).
pub open spec fn p_date_at(s: Seq<char>, pos: int) -> Result<(CalendarDate, int), ParseErrorView> {
    match scan_date(s, pos) {
        None => Err(ParseErrorView::ParseFailed(s)),
        Some((d, e)) => if valid_date(d) {
            Ok((d, e))
        } else {
            Err(ParseErrorView::InvalidDate(s.subrange(pos, e)))
        },
    }
}

/// A date, or a range `<date> - <date>`, at `pos`.
pub open spec fn p_event_date(s: Seq<char>, pos: int) -> Result<(EventDate, int), ParseErrorView> {
    match p_date_at(s, pos) {
        Err(x) => Err(x),
        Ok((d, e)) => if has_prefix_at(s, e, " - "@) {
            match p_date_at(s, e + 3) {
                Err(x) => Err(x),
                Ok((d2, e2)) => Ok((EventDate::DateRange { start: d, end: d2 }, e2)),
            }
        } else {
            Ok((EventDate::Date(d), e))
        },
    }
}

/// A location at `pos`: `Virtual`, optionally followed by ` (<text>)`;
/// `Hybrid (<text>)`; or any text up to the next ` |`.
pub open spec fn p_location(s: Seq<char>, pos: int) -> Result<(LocationView, int), ParseErrorView> {
    if has_prefix_at(s, pos, "Virtual"@) {
        let p = pos + 7;
        if has_prefix_at(s, p, " ("@) {
            match find_lit(s, p + 2, ")"@) {
                Some(c) => Ok((LocationView::VirtualWithLocation(s.subrange(p + 2, c)), c + 1)),
                None => Ok((LocationView::Virtual, p)),
            }
        } else {
            Ok((LocationView::Virtual, p))
        }
    } else if has_prefix_at(s, pos, "Hybrid"@) {
        let p = pos + 6;
        if has_prefix_at(s, p, " ("@) {
            match find_lit(s, p + 2, ")"@) {
                Some(c) => Ok((LocationView::Hybrid(s.subrange(p + 2, c)), c + 1)),
                None => Err(ParseErrorView::ParseFailed(s)),
            }
        } else {
            Err(ParseErrorView::ParseFailed(s))
        }
    } else {
        match find_lit(s, pos, " |"@) {
            Some(c) => Ok((LocationView::InPerson(s.subrange(pos, c)), c)),
            None => Err(ParseErrorView::ParseFailed(s)),
        }
    }
}

/// An overview line (it starts with `* `).
pub open spec fn p_overview(s: Seq<char>) -> Result<LineView, ParseErrorView> {
    match p_event_date(s, 2) {
        Err(x) => Err(x),
        Ok((d, e1)) => if !has_prefix_at(s, e1, " | "@) {
            Err(ParseErrorView::ParseFailed(s))
        } else {
            match p_location(s, e1 + 3) {
                Err(x) => Err(x),
                Ok((l, e2)) => if !has_prefix_at(s, e2, " | "@) {
                    Err(ParseErrorView::ParseFailed(s))
                } else {
                    match p_links(s, e2 + 3, " + "@, false) {
                        Err(x) => Err(x),
                        Ok(gs) => Ok(
                            LineView::EventOverview(
                                OverviewView { date: d, location: l, groups: gs },
                            ),
                        ),
                    }
                },
            }
        },
    }
}

/// The date range line (it starts with `Rusty Events between `); text after
/// the second date is ignored.
pub open spec fn p_date_range(s: Seq<char>) -> Result<LineView, ParseErrorView> {
    match p_date_at(s, 21) {
        Err(x) => Err(x),
        Ok((a, e)) => if !has_prefix_at(s, e, " - "@) {
            Err(ParseErrorView::ParseFailed(s))
        } else {
            match p_date_at(s, e + 3) {
                Err(x) => Err(x),
                Ok((b, _)) => Ok(LineView::EventsDateRange { start: a, end: b }),
            }
        },
    }
}

/// A region header line (it starts with `### `).
pub open spec fn p_region(s: Seq<char>) -> Result<LineView, ParseErrorView> {
    let name = s.subrange(4, s.len() as int);
    match region_named(name) {
        Some(r) => Ok(LineView::RegionHeader(r)),
        None => Err(ParseErrorView::UnknownRegion(name)),
    }
}

/// The grammar of one line; the forms are tried in this order.
#[verifier::opaque]
pub open spec fn parse_line_spec(s: Seq<char>) -> Result<LineView, ParseErrorView> {
    if s.len() == 0 {
        Ok(LineView::Newline)
    } else if s == start_marker() {
        Ok(LineView::StartEventSection)
    } else if has_prefix_at(s, 0, end_marker()) {
        Ok(LineView::EndEventSection)
    } else if has_prefix_at(s, 0, date_range_prefix()) {
        p_date_range(s)
    } else if has_prefix_at(s, 0, region_prefix()) {
        p_region(s)
    } else if has_prefix_at(s, 0, overview_prefix()) {
        p_overview(s)
    } else if has_prefix_at(s, 0, links_prefix()) {
        match p_links(s, 6, " | "@, true) {
            Err(x) => Err(x),
            Ok(ls) => Ok(LineView::EventLinks(ls)),
        }
    } else {
        Err(ParseErrorView::ParseFailed(s))
    }
}

pub(crate) fn parse_failed(v: &Vec<char>) -> (r: LineParseError)
    ensures
        r@ == ParseErrorView::ParseFailed(v@),
{
    let s = string_of(v, 0, v.len());
    assert(v@.subrange(0, v@.len() as int) =~= v@);
    LineParseError::ParseFailed(s)
}

fn parse_date_at(v: &Vec<char>, pos: usize) -> (r: Result<(CalendarDate, usize), LineParseError>)
    ensures
        match r {
            Ok((d, e)) => p_date_at(v@, pos as int) == Ok::<(CalendarDate, int), ParseErrorView>(
                (d, e as int),
            ) && e <= v@.len(),
            Err(x) => p_date_at(v@, pos as int) == Err::<(CalendarDate, int), ParseErrorView>(x@),
        },
{
    let _n = v.len();
    match scan_date_exec(v, pos) {
        None => Err(parse_failed(v)),
        Some((d, e)) => {
            proof {
                reveal_strlit("-");
                crate::text::lemma_prefix_char(v@, pos + 4, '-');
            }
            if is_valid_date(d) {
                Ok((d, e))
            } else {
                Err(LineParseError::InvalidDate(string_of(v, pos, e)))
            }
        },
    }
}

fn parse_event_date(v: &Vec<char>, pos: usize) -> (r: Result<(EventDate, usize), LineParseError>)
    ensures
        match r {
            Ok((d, e)) => p_event_date(v@, pos as int) == Ok::<(EventDate, int), ParseErrorView>(
                (d, e as int),
            ) && e <= v@.len(),
            Err(x) => p_event_date(v@, pos as int) == Err::<(EventDate, int), ParseErrorView>(x@),
        },
{
    let _n = v.len();
    let (d, e) = match parse_date_at(v, pos) {
        Err(x) => {
            return Err(x);
        },
        Ok(de) => de,
    };
    proof {
        reveal_strlit(" - ");
    }
    if lit_at(v, e, " - ") {
        match parse_date_at(v, e + 3) {
            Err(x) => Err(x),
            Ok((d2, e2)) => Ok((EventDate::DateRange { start: d, end: d2 }, e2)),
        }
    } else {
        Ok((EventDate::Date(d), e))
    }
}

fn parse_location(v: &Vec<char>, pos: usize) -> (r: Result<(EventLocation, usize), LineParseError>)
    ensures
        match r {
            Ok((l, e)) => p_location(v@, pos as int) == Ok::<(LocationView, int), ParseErrorView>(
                (l@, e as int),
            ) && e <= v@.len(),
            Err(x) => p_location(v@, pos as int) == Err::<(LocationView, int), ParseErrorView>(
                x@,
            ),
        },
{
    let _n = v.len();
    let ghost s = v@;
    proof {
        reveal_strlit("Virtual");
        reveal_strlit("Hybrid");
        reveal_strlit(" (");
        reveal_strlit(")");
        reveal_strlit(" |");
    }
    if lit_at(v, pos, "Virtual") {
        let p = pos + 7;
        if lit_at(v, p, " (") {
            proof {
                lemma_find_lit_bounds(s, p + 2, ")"@);
            }
            match find_lit_exec(v, p + 2, ")") {
                Some(c) => {
                    let t = string_of(v, p + 2, c);
                    Ok((EventLocation::VirtualWithLocation(t), c + 1))
                },
                None => Ok((EventLocation::Virtual, p)),
            }
        } else {
            Ok((EventLocation::Virtual, p))
        }
    } else if lit_at(v, pos, "Hybrid") {
        let p = pos + 6;
        if lit_at(v, p, " (") {
            proof {
                lemma_find_lit_bounds(s, p + 2, ")"@);
            }
            match find_lit_exec(v, p + 2, ")") {
                Some(c) => {
                    let t = string_of(v, p + 2, c);
                    Ok((EventLocation::Hybrid(t), c + 1))
                },
                None => Err(parse_failed(v)),
            }
        } else {
            Err(parse_failed(v))
        }
    } else {
        proof {
            lemma_find_lit_bounds(s, pos as int, " |"@);
        }
        match find_lit_exec(v, pos, " |") {
            Some(c) => {
                let t = string_of(v, pos, c);
                Ok((EventLocation::InPerson(t), c))
            },
            None => Err(parse_failed(v)),
        }
    }
}

fn to_groups(ls: &Vec<MarkdownLink>) -> (r: Vec<EventGroup>)
    ensures
        links_view(r@) == links_view(ls@),
{
    let mut out: Vec<EventGroup> = Vec::new();
    let mut i: usize = 0;
    while i < ls.len()
        invariant
            i <= ls@.len(),
            links_view(out@) =~= links_view(ls@.subrange(0, i as int)),
        decreases ls@.len() - i,
    {
        let item = EventGroup { name: ls[i].label.clone(), url: ls[i].url.clone() };
        assert(item@ == ls@[i as int]@);
        let ghost before = out@;
        out.push(item);
        assert(ls@.subrange(0, i + 1) =~= ls@.subrange(0, i as int).push(ls@[i as int]));
        assert(links_view(out@) =~= links_view(before).push(item@));
        assert(links_view(ls@.subrange(0, i + 1)) =~= links_view(ls@.subrange(0, i as int)).push(
            ls@[i as int]@,
        ));
        i = i + 1;
    }
    assert(ls@.subrange(0, ls@.len() as int) =~= ls@);
    out
}

fn to_events(ls: &Vec<MarkdownLink>) -> (r: Vec<Event>)
    ensures
        links_view(r@) == links_view(ls@),
{
    let mut out: Vec<Event> = Vec::new();
    let mut i: usize = 0;
    while i < ls.len()
        invariant
            i <= ls@.len(),
            links_view(out@) =~= links_view(ls@.subrange(0, i as int)),
        decreases ls@.len() - i,
    {
        let item = Event { name: ls[i].label.clone(), url: ls[i].url.clone() };
        assert(item@ == ls@[i as int]@);
        let ghost before = out@;
        out.push(item);
        assert(ls@.subrange(0, i + 1) =~= ls@.subrange(0, i as int).push(ls@[i as int]));
        assert(links_view(out@) =~= links_view(before).push(item@));
        assert(links_view(ls@.subrange(0, i + 1)) =~= links_view(ls@.subrange(0, i as int)).push(
            ls@[i as int]@,
        ));
        i = i + 1;
    }
    assert(ls@.subrange(0, ls@.len() as int) =~= ls@);
    out
}

fn parse_overview(v: &Vec<char>) -> (r: Result<ParsedLine, LineParseError>)
    ensures
        line_result_view(r) == p_overview(v@),
{
    let _n = v.len();
    proof {
        reveal_strlit(" | ");
    }
    let (d, e1) = match parse_event_date(v, 2) {
        Err(x) => {
            return Err(x);
        },
        Ok(de) => de,
    };
    if !lit_at(v, e1, " | ") {
        return Err(parse_failed(v));
    }
    let (l, e2) = match parse_location(v, e1 + 3) {
        Err(x) => {
            return Err(x);
        },
        Ok(le) => le,
    };
    if !lit_at(v, e2, " | ") {
        return Err(parse_failed(v));
    }
    let gs = match parse_links_at(v, e2 + 3, " + ", false) {
        Err(x) => {
            return Err(x);
        },
        Ok(gs) => gs,
    };
    let groups = to_groups(&gs);
    Ok(ParsedLine::EventOverview(EventOverview { date: d, location: l, groups }))
}

fn parse_date_range(v: &Vec<char>) -> (r: Result<ParsedLine, LineParseError>)
    ensures
        line_result_view(r) == p_date_range(v@),
{
    let _n = v.len();
    proof {
        reveal_strlit(" - ");
    }
    let (a, e) = match parse_date_at(v, 21) {
        Err(x) => {
            return Err(x);
        },
        Ok(de) => de,
    };
    if !lit_at(v, e, " - ") {
        return Err(parse_failed(v));
    }
    match parse_date_at(v, e + 3) {
        Err(x) => Err(x),
        Ok((b, _)) => Ok(ParsedLine::EventsDateRange { start: a, end: b }),
    }
}

fn parse_region(v: &Vec<char>) -> (r: Result<ParsedLine, LineParseError>)
    requires
        v@.len() >= 4,
    ensures
        line_result_view(r) == p_region(v@),
{
    let name = string_of(v, 4, v.len());
    let nv = chars_of(name.as_str());
    match Region::from_name(&nv) {
        Some(r) => Ok(ParsedLine::RegionHeader(r)),
        None => Err(LineParseError::UnknownRegion(name)),
    }
}

/// Reads one line (without its line break).
pub fn parse_line_chars(v: &Vec<char>) -> (r: Result<ParsedLine, LineParseError>)
    ensures
        line_result_view(r) == parse_line_spec(v@),
{
    proof {
        reveal(parse_line_spec);
        reveal_strlit("### ");
        reveal_strlit("Rusty Events between ");
    }
    if v.len() == 0 {
        Ok(ParsedLine::Newline)
    } else if chars_eq(v, "## Upcoming Events") {
        Ok(ParsedLine::StartEventSection)
    } else if lit_at(v, 0, "If you are running a Rust event please add it to the [calendar]") {
        Ok(ParsedLine::EndEventSection)
    } else if lit_at(v, 0, "Rusty Events between ") {
        parse_date_range(v)
    } else if lit_at(v, 0, "### ") {
        parse_region(v)
    } else if lit_at(v, 0, "* ") {
        parse_overview(v)
    } else if lit_at(v, 0, "    * ") {
        match parse_links_at(v, 6, " | ", true) {
            Err(x) => Err(x),
            Ok(ls) => Ok(ParsedLine::EventLinks(to_events(&ls))),
        }
    } else {
        Err(parse_failed(v))
    }
}

/// Reads one line (without its line break).
pub fn parse_line(line: &str) -> (r: Result<ParsedLine, LineParseError>)
    ensures
        line_result_view(r) == parse_line_spec(line@),
{
    let v = chars_of(line);
    parse_line_chars(&v)
}

} // verus!
