//! The event model: regions, dates, locations, links, overviews and
//! listings, with their mathematical views and their rendered text.
use vstd::prelude::*;

use crate::date::{date_ord, date_ord_exec, push_date, render_date, CalendarDate};

verus! {

/// Regional headers of the events section, in the order they are rendered.
#[derive(Clone, Copy, Debug, PartialEq, Eq, Hash, Structural)]
pub enum Region {
    Virtual,
    Africa,
    Asia,
    Europe,
    NorthAmerica,
    Oceania,
    SouthAmerica,
}

pub open spec fn region_name(r: Region) -> Seq<char> {
    match r {
        Region::Virtual => "Virtual"@,
        Region::Africa => "Africa"@,
        Region::Asia => "Asia"@,
        Region::Europe => "Europe"@,
        Region::NorthAmerica => "North America"@,
        Region::Oceania => "Oceania"@,
        Region::SouthAmerica => "South America"@,
    }
}

/// The region whose name is `s`, if any.
pub open spec fn region_named(s: Seq<char>) -> Option<Region> {
    if s == "Virtual"@ {
        Some(Region::Virtual)
    } else if s == "Africa"@ {
        Some(Region::Africa)
    } else if s == "Asia"@ {
        Some(Region::Asia)
    } else if s == "Europe"@ {
        Some(Region::Europe)
    } else if s == "North America"@ {
        Some(Region::NorthAmerica)
    } else if s == "Oceania"@ {
        Some(Region::Oceania)
    } else if s == "South America"@ {
        Some(Region::SouthAmerica)
    } else {
        None
    }
}

pub open spec fn region_index(r: Region) -> int {
    match r {
        Region::Virtual => 0,
        Region::Africa => 1,
        Region::Asia => 2,
        Region::Europe => 3,
        Region::NorthAmerica => 4,
        Region::Oceania => 5,
        Region::SouthAmerica => 6,
    }
}

pub const REGION_COUNT: usize = 7;

impl Region {
    /// The header text of the region.
    pub fn name(&self) -> (r: &'static str)
        ensures
            r@ == region_name(*self),
    {
        match self {
            Region::Virtual => "Virtual",
            Region::Africa => "Africa",
            Region::Asia => "Asia",
            Region::Europe => "Europe",
            Region::NorthAmerica => "North America",
            Region::Oceania => "Oceania",
            Region::SouthAmerica => "South America",
        }
    }

    /// The region with the given header text.
    pub fn from_name(s: &Vec<char>) -> (r: Option<Region>)
        ensures
            r == region_named(s@),
    {
        if crate::text::chars_eq(s, "Virtual") {
            Some(Region::Virtual)
        } else if crate::text::chars_eq(s, "Africa") {
            Some(Region::Africa)
        } else if crate::text::chars_eq(s, "Asia") {
            Some(Region::Asia)
        } else if crate::text::chars_eq(s, "Europe") {
            Some(Region::Europe)
        } else if crate::text::chars_eq(s, "North America") {
            Some(Region::NorthAmerica)
        } else if crate::text::chars_eq(s, "Oceania") {
            Some(Region::Oceania)
        } else if crate::text::chars_eq(s, "South America") {
            Some(Region::SouthAmerica)
        } else {
            None
        }
    }

    /// The position of the region in rendering order.
    pub fn index(&self) -> (r: usize)
        ensures
            r == region_index(*self),
            r < REGION_COUNT,
    {
        match self {
            Region::Virtual => 0,
            Region::Africa => 1,
            Region::Asia => 2,
            Region::Europe => 3,
            Region::NorthAmerica => 4,
            Region::Oceania => 5,
            Region::SouthAmerica => 6,
        }
    }

    /// The region at position `i` of rendering order.
    pub fn at(i: usize) -> (r: Region)
        requires
            i < REGION_COUNT,
        ensures
            region_index(r) == i,
    {
        match i {
            0 => Region::Virtual,
            1 => Region::Africa,
            2 => Region::Asia,
            3 => Region::Europe,
            4 => Region::NorthAmerica,
            5 => Region::Oceania,
            _ => Region::SouthAmerica,
        }
    }
}

/// An event's date: one day, or an inclusive range of days.
#[derive(Clone, Copy, Debug, PartialEq, Eq, Hash, Structural)]
pub enum EventDate {
    Date(CalendarDate),
    DateRange { start: CalendarDate, end: CalendarDate },
}

pub open spec fn event_start(d: EventDate) -> CalendarDate {
    match d {
        EventDate::Date(x) => x,
        EventDate::DateRange { start, .. } => start,
    }
}

pub open spec fn render_event_date(d: EventDate) -> Seq<char> {
    match d {
        EventDate::Date(x) => render_date(x),
        EventDate::DateRange { start, end } => render_date(start) + " - "@ + render_date(end),
    }
}

/// Where an event takes place.
#[derive(Clone, Debug, PartialEq, Eq, Hash)]
pub enum EventLocation {
    Virtual,
    VirtualWithLocation(String),
    Hybrid(String),
    InPerson(String),
}

pub enum LocationView {
    Virtual,
    VirtualWithLocation(Seq<char>),
    Hybrid(Seq<char>),
    InPerson(Seq<char>),
}

impl View for EventLocation {
    type V = LocationView;

    open spec fn view(&self) -> LocationView {
        match self {
            EventLocation::Virtual => LocationView::Virtual,
            EventLocation::VirtualWithLocation(t) => LocationView::VirtualWithLocation(t@),
            EventLocation::Hybrid(t) => LocationView::Hybrid(t@),
            EventLocation::InPerson(t) => LocationView::InPerson(t@),
        }
    }
}

pub open spec fn render_location(l: LocationView) -> Seq<char> {
    match l {
        LocationView::Virtual => "Virtual"@,
        LocationView::VirtualWithLocation(t) => "Virtual ("@ + t + ")"@,
        LocationView::Hybrid(t) => "Hybrid ("@ + t + ")"@,
        LocationView::InPerson(t) => t,
    }
}

impl EventLocation {
    /// The location as it is written in an overview line.
    pub fn render(&self) -> (r: String)
        ensures
            r@ == render_location(self@),
    {
        let mut s = String::new();
        match self {
            EventLocation::Virtual => {
                s.append("Virtual");
            },
            EventLocation::VirtualWithLocation(t) => {
                s.append("Virtual (");
                s.append(t.as_str());
                s.append(")");
            },
            EventLocation::Hybrid(t) => {
                s.append("Hybrid (");
                s.append(t.as_str());
                s.append(")");
            },
            EventLocation::InPerson(t) => {
                s.append(t.as_str());
            },
        }
        s
    }
}

/// A label and a URL, as written in `[label](url)`.
pub struct LinkView {
    pub label: Seq<char>,
    pub url: Seq<char>,
}

/// The label holds no `]` and the URL no `)`, so that the written link
/// reads back as itself.
pub open spec fn is_link_text_free(l: LinkView) -> bool {
    (forall|i: int| 0 <= i < l.label.len() ==> l.label[i] != ']') && (forall|i: int|
        0 <= i < l.url.len() ==> l.url[i] != ')')
}

pub open spec fn render_link(l: LinkView) -> Seq<char> {
    "["@ + l.label + "]("@ + l.url + ")"@
}

/// The links written one after another, separated by `delim`.
pub open spec fn render_links(ls: Seq<LinkView>, delim: Seq<char>) -> Seq<char>
    decreases ls.len(),
{
    if ls.len() == 0 {
        Seq::empty()
    } else if ls.len() == 1 {
        render_link(ls[0])
    } else {
        render_link(ls[0]) + delim + render_links(ls.drop_first(), delim)
    }
}

/// A markdown link, like `[My Label](https://example.org/)`.
#[derive(Clone, Debug, PartialEq, Eq, Hash)]
pub struct MarkdownLink {
    pub label: String,
    pub url: String,
}

impl View for MarkdownLink {
    type V = LinkView;

    open spec fn view(&self) -> LinkView {
        LinkView { label: self.label@, url: self.url@ }
    }
}

impl MarkdownLink {
    pub fn new(label: String, url: String) -> (r: MarkdownLink)
        ensures
            r@ == (LinkView { label: label@, url: url@ }),
    {
        MarkdownLink { label, url }
    }

    pub fn label(&self) -> (r: &str)
        ensures
            r@ == self.label@,
    {
        self.label.as_str()
    }
}

/// The group organizing an event, with a link to its homepage.
#[derive(Clone, Debug, PartialEq, Eq, Hash)]
pub struct EventGroup {
    pub name: String,
    pub url: String,
}

impl View for EventGroup {
    type V = LinkView;

    open spec fn view(&self) -> LinkView {
        LinkView { label: self.name@, url: self.url@ }
    }
}

/// The title of an event with a link to its page.
#[derive(Clone, Debug, PartialEq, Eq, Hash)]
pub struct Event {
    pub name: String,
    pub url: String,
}

impl View for Event {
    type V = LinkView;

    open spec fn view(&self) -> LinkView {
        LinkView { label: self.name@, url: self.url@ }
    }
}

impl From<MarkdownLink> for EventGroup {
    fn from(value: MarkdownLink) -> (r: EventGroup)
        ensures
            r@ == value@,
    {
        EventGroup { name: value.label, url: value.url }
    }
}

impl vstd::std_specs::convert::FromSpecImpl<MarkdownLink> for EventGroup {
    open spec fn obeys_from_spec() -> bool {
        false
    }

    open spec fn from_spec(v: MarkdownLink) -> EventGroup {
        EventGroup { name: v.label, url: v.url }
    }
}

impl From<MarkdownLink> for Event {
    fn from(value: MarkdownLink) -> (r: Event)
        ensures
            r@ == value@,
    {
        Event { name: value.label, url: value.url }
    }
}

impl vstd::std_specs::convert::FromSpecImpl<MarkdownLink> for Event {
    open spec fn obeys_from_spec() -> bool {
        false
    }

    open spec fn from_spec(v: MarkdownLink) -> Event {
        Event { name: v.label, url: v.url }
    }
}

pub open spec fn links_view<T: View<V = LinkView>>(v: Seq<T>) -> Seq<LinkView> {
    v.map_values(|x: T| x@)
}

/// An overview line: `* <date> | <location> | <group link(s)>`.
#[derive(Clone, Debug, PartialEq, Eq, Hash)]
pub struct EventOverview {
    pub date: EventDate,
    pub location: EventLocation,
    pub groups: Vec<EventGroup>,
}

pub struct OverviewView {
    pub date: EventDate,
    pub location: LocationView,
    pub groups: Seq<LinkView>,
}

impl View for EventOverview {
    type V = OverviewView;

    open spec fn view(&self) -> OverviewView {
        OverviewView {
            date: self.date,
            location: self.location@,
            groups: links_view(self.groups@),
        }
    }
}

/// The overview as it is written after the leading `* `.
pub open spec fn render_overview(o: OverviewView) -> Seq<char> {
    render_event_date(o.date) + " | "@ + render_location(o.location) + " | "@ + render_links(
        o.groups,
        " + "@,
    )
}

/// `a` is strictly less than `b` in code point order.
pub open spec fn seq_lt(a: Seq<char>, b: Seq<char>) -> bool
    decreases a.len(),
{
    if b.len() == 0 {
        false
    } else if a.len() == 0 {
        true
    } else if a[0] != b[0] {
        a[0] < b[0]
    } else {
        seq_lt(a.drop_first(), b.drop_first())
    }
}

/// Overviews are ordered by the (start) date, then by the written location.
pub open spec fn overview_lt(a: OverviewView, b: OverviewView) -> bool {
    date_ord(event_start(a.date)) < date_ord(event_start(b.date)) || (date_ord(
        event_start(a.date),
    ) == date_ord(event_start(b.date)) && seq_lt(
        render_location(a.location),
        render_location(b.location),
    ))
}

fn seq_lt_exec(a: &Vec<char>, b: &Vec<char>) -> (r: bool)
    ensures
        r == seq_lt(a@, b@),
{
    let mut i: usize = 0;
    assert(a@.subrange(0, a@.len() as int) =~= a@);
    assert(b@.subrange(0, b@.len() as int) =~= b@);
    while i < a.len() && i < b.len() && a[i] == b[i]
        invariant
            i <= a@.len(),
            i <= b@.len(),
            seq_lt(a@, b@) == seq_lt(a@.subrange(i as int, a@.len() as int), b@.subrange(i as int, b@.len() as int)),
        decreases a@.len() - i,
    {
        proof {
            let sa = a@.subrange(i as int, a@.len() as int);
            let sb = b@.subrange(i as int, b@.len() as int);
            assert(sa.drop_first() =~= a@.subrange(i + 1, a@.len() as int));
            assert(sb.drop_first() =~= b@.subrange(i + 1, b@.len() as int));
        }
        i = i + 1;
    }
    if i == b.len() {
        false
    } else if i == a.len() {
        true
    } else {
        a[i] < b[i]
    }
}

impl EventOverview {
    pub fn new(date: EventDate, location: EventLocation, groups: Vec<EventGroup>) -> (r: EventOverview)
        ensures
            r.date == date,
            r.location == location,
            r.groups == groups,
    {
        EventOverview { date, location, groups }
    }

    pub fn date(&self) -> (r: &EventDate)
        ensures
            *r == self.date,
    {
        &self.date
    }

    pub fn location(&self) -> (r: &EventLocation)
        ensures
            *r == self.location,
    {
        &self.location
    }

    pub fn groups(&self) -> (r: &Vec<EventGroup>)
        ensures
            *r == self.groups,
    {
        &self.groups
    }

    /// Whether this overview sorts strictly before `other`.
    pub fn is_before(&self, other: &EventOverview) -> (r: bool)
        ensures
            r == overview_lt(self@, other@),
    {
        let a = date_ord_exec(start_of(&self.date));
        let b = date_ord_exec(start_of(&other.date));
        if a < b {
            true
        } else if a > b {
            false
        } else {
            let la = crate::text::chars_of(self.location.render().as_str());
            let lb = crate::text::chars_of(other.location.render().as_str());
            seq_lt_exec(&la, &lb)
        }
    }

    /// The overview as it is written after the leading `* `.
    pub fn render(&self) -> (r: String)
        ensures
            r@ == render_overview(self@),
    {
        let mut s = String::new();
        push_event_date(&mut s, self.date);
        s.append(" | ");
        let loc = self.location.render();
        s.append(loc.as_str());
        s.append(" | ");
        let mut i: usize = 0;
        let ghost start = s@;
        while i < self.groups.len()
            invariant
                i <= self.groups@.len(),
                s@ == start + render_links_prefix(links_view(self.groups@), i as int, " + "@),
            decreases self.groups@.len() - i,
        {
            if i > 0 {
                s.append(" + ");
            }
            let g = &self.groups[i];
            push_link(&mut s, &g.name, &g.url);
            proof {
                lemma_render_links_prefix_step(links_view(self.groups@), i as int, " + "@);
            }
            i = i + 1;
        }
        proof {
            lemma_render_links_prefix_all(links_view(self.groups@), " + "@);
        }
        s
    }
}

pub fn start_of(d: &EventDate) -> (r: CalendarDate)
    ensures
        r == event_start(*d),
{
    match d {
        EventDate::Date(x) => *x,
        EventDate::DateRange { start, .. } => *start,
    }
}

pub fn push_event_date(s: &mut String, d: EventDate)
    ensures
        final(s)@ == old(s)@ + render_event_date(d),
{
    match d {
        EventDate::Date(x) => {
            push_date(s, x);
        },
        EventDate::DateRange { start, end } => {
            push_date(s, start);
            s.append(" - ");
            push_date(s, end);
            assert(final(s)@ =~= old(s)@ + render_event_date(d));
        },
    }
}

/// The first `n` links of `ls` written with separators.
pub open spec fn render_links_prefix(ls: Seq<LinkView>, n: int, delim: Seq<char>) -> Seq<char>
    decreases n,
{
    if n <= 0 {
        Seq::empty()
    } else if n == 1 {
        render_link(ls[0])
    } else {
        render_links_prefix(ls, n - 1, delim) + delim + render_link(ls[n - 1])
    }
}

proof fn lemma_render_links_prefix_step(ls: Seq<LinkView>, i: int, delim: Seq<char>)
    requires
        0 <= i < ls.len(),
    ensures
        render_links_prefix(ls, i + 1, delim) == if i == 0 {
            render_link(ls[0])
        } else {
            render_links_prefix(ls, i, delim) + delim + render_link(ls[i])
        },
{
}

proof fn lemma_render_links_prefix_all(ls: Seq<LinkView>, delim: Seq<char>)
    ensures
        render_links_prefix(ls, ls.len() as int, delim) == render_links(ls, delim),
    decreases ls.len(),
{
    if ls.len() <= 1 {
    } else {
        let t = ls.drop_first();
        lemma_render_links_prefix_all(t, delim);
        lemma_render_links_prefix_shift(ls, ls.len() as int, delim);
    }
}

/// Writing the first `n` links equals the first link, the separator and the
/// next `n - 1` links.
proof fn lemma_render_links_prefix_shift(ls: Seq<LinkView>, n: int, delim: Seq<char>)
    requires
        2 <= n <= ls.len(),
    ensures
        render_links_prefix(ls, n, delim) == render_link(ls[0]) + delim + render_links_prefix(
            ls.drop_first(),
            n - 1,
            delim,
        ),
    decreases n,
{
    if n == 2 {
        assert(ls.drop_first()[0] == ls[1]);
        assert(render_links_prefix(ls.drop_first(), 1, delim) == render_link(ls[1]));
        assert(render_links_prefix(ls, 1, delim) == render_link(ls[0]));
    } else {
        lemma_render_links_prefix_shift(ls, n - 1, delim);
        assert(ls.drop_first()[n - 2] == ls[n - 1]);
        assert(render_links_prefix(ls, n, delim) =~= render_link(ls[0]) + delim
            + render_links_prefix(ls.drop_first(), n - 1, delim));
    }
}

/// Appends `[label](url)`.
pub fn push_link(s: &mut String, label: &String, url: &String)
    ensures
        final(s)@ == old(s)@ + render_link(LinkView { label: label@, url: url@ }),
{
    s.append("[");
    s.append(label.as_str());
    s.append("](");
    s.append(url.as_str());
    s.append(")");
    assert(final(s)@ =~= old(s)@ + render_link(LinkView { label: label@, url: url@ }));
}

/// One event: its overview line and the line with its title link(s).
#[derive(Clone, Debug, PartialEq, Eq, Hash)]
pub struct EventListing {
    pub overview: EventOverview,
    pub events: Vec<Event>,
}

pub struct ListingView {
    pub overview: OverviewView,
    pub events: Seq<LinkView>,
}

impl View for EventListing {
    type V = ListingView;

    open spec fn view(&self) -> ListingView {
        ListingView { overview: self.overview@, events: links_view(self.events@) }
    }
}

/// The two lines of a listing, each ending with a line break.
pub open spec fn render_listing(l: ListingView) -> Seq<char> {
    "* "@ + render_overview(l.overview) + "\n"@ + "    * "@ + render_links(l.events, " | "@)
        + "\n"@
}

impl EventListing {
    pub fn new(overview: EventOverview, events: Vec<Event>) -> (r: EventListing)
        ensures
            r.overview == overview,
            r.events == events,
    {
        EventListing { overview, events }
    }

    /// The two lines of the listing.
    pub fn render(&self) -> (r: String)
        ensures
            r@ == render_listing(self@),
    {
        let mut s = String::new();
        s.append("* ");
        let o = self.overview.render();
        s.append(o.as_str());
        s.append("\n");
        s.append("    * ");
        let ghost start = s@;
        let mut i: usize = 0;
        while i < self.events.len()
            invariant
                i <= self.events@.len(),
                s@ == start + render_links_prefix(links_view(self.events@), i as int, " | "@),
            decreases self.events@.len() - i,
        {
            if i > 0 {
                s.append(" | ");
            }
            let e = &self.events[i];
            push_link(&mut s, &e.name, &e.url);
            proof {
                lemma_render_links_prefix_step(links_view(self.events@), i as int, " | "@);
            }
            i = i + 1;
        }
        proof {
            lemma_render_links_prefix_all(links_view(self.events@), " | "@);
        }
        s.append("\n");
        assert(s@ =~= render_listing(self@));
        s
    }
}

} // verus!

verus! {

pub open spec fn listings_view(v: Seq<EventListing>) -> Seq<ListingView> {
    v.map_values(|l: EventListing| l@)
}

impl EventLocation {
    /// A copy with the same view.
    pub fn duplicate(&self) -> (r: EventLocation)
        ensures
            r@ == self@,
    {
        match self {
            EventLocation::Virtual => EventLocation::Virtual,
            EventLocation::VirtualWithLocation(t) => EventLocation::VirtualWithLocation(t.clone()),
            EventLocation::Hybrid(t) => EventLocation::Hybrid(t.clone()),
            EventLocation::InPerson(t) => EventLocation::InPerson(t.clone()),
        }
    }
}

fn duplicate_groups(v: &Vec<EventGroup>) -> (r: Vec<EventGroup>)
    ensures
        links_view(r@) == links_view(v@),
{
    let mut out: Vec<EventGroup> = Vec::new();
    let mut i: usize = 0;
    while i < v.len()
        invariant
            i <= v@.len(),
            links_view(out@) =~= links_view(v@.subrange(0, i as int)),
        decreases v@.len() - i,
    {
        let item = EventGroup { name: v[i].name.clone(), url: v[i].url.clone() };
        let ghost before = out@;
        out.push(item);
        assert(v@.subrange(0, i + 1) =~= v@.subrange(0, i as int).push(v@[i as int]));
        assert(links_view(out@) =~= links_view(before).push(item@));
        assert(links_view(v@.subrange(0, i + 1)) =~= links_view(v@.subrange(0, i as int)).push(
            v@[i as int]@,
        ));
        i = i + 1;
    }
    assert(v@.subrange(0, v@.len() as int) =~= v@);
    out
}

pub fn duplicate_events_list(v: &Vec<Event>) -> (r: Vec<Event>)
    ensures
        links_view(r@) == links_view(v@),
{
    let mut out: Vec<Event> = Vec::new();
    let mut i: usize = 0;
    while i < v.len()
        invariant
            i <= v@.len(),
            links_view(out@) =~= links_view(v@.subrange(0, i as int)),
        decreases v@.len() - i,
    {
        let item = Event { name: v[i].name.clone(), url: v[i].url.clone() };
        let ghost before = out@;
        out.push(item);
        assert(v@.subrange(0, i + 1) =~= v@.subrange(0, i as int).push(v@[i as int]));
        assert(links_view(out@) =~= links_view(before).push(item@));
        assert(links_view(v@.subrange(0, i + 1)) =~= links_view(v@.subrange(0, i as int)).push(
            v@[i as int]@,
        ));
        i = i + 1;
    }
    assert(v@.subrange(0, v@.len() as int) =~= v@);
    out
}

impl EventOverview {
    /// A copy with the same view.
    pub fn duplicate(&self) -> (r: EventOverview)
        ensures
            r@ == self@,
    {
        EventOverview {
            date: self.date,
            location: self.location.duplicate(),
            groups: duplicate_groups(&self.groups),
        }
    }
}

impl EventListing {
    /// A copy with the same view.
    pub fn duplicate(&self) -> (r: EventListing)
        ensures
            r@ == self@,
    {
        EventListing { overview: self.overview.duplicate(), events: duplicate_events_list(&self.events) }
    }
}

} // verus!
