//! Listings grouped by region, the merge of a draft with incoming
//! listings, and the rendering of the section body.
use vstd::prelude::*;

use crate::date::{date_ord, date_ord_exec, CalendarDate};
use crate::events::{
    event_start, links_view, listings_view, overview_lt, region_index, region_name,
    render_listing, EventDate, EventListing, LinkView, ListingView, Region, REGION_COUNT,
};

verus! {

broadcast use vstd::array::group_array_axioms;

/// The URLs of the links, in order.
pub open spec fn url_list(ls: Seq<LinkView>) -> Seq<Seq<char>> {
    ls.map_values(|e: LinkView| e.url)
}

/// The identity of a listing: the set of its title links' URLs.
pub open spec fn key_set(l: ListingView) -> Set<Seq<char>> {
    url_list(l.events).to_set()
}

pub open spec fn same_key(a: ListingView, b: ListingView) -> bool {
    key_set(a) == key_set(b)
}

/// The first index at or after `i` whose listing has the key of `l`.
pub open spec fn find_key_from(acc: Seq<ListingView>, l: ListingView, i: int) -> Option<int>
    decreases acc.len() - i,
{
    if i < 0 || i >= acc.len() {
        None
    } else if same_key(acc[i], l) {
        Some(i)
    } else {
        find_key_from(acc, l, i + 1)
    }
}

/// `l` replaces the first listing with its key, or is added at the end.
pub open spec fn upsert(acc: Seq<ListingView>, l: ListingView) -> Seq<ListingView> {
    match find_key_from(acc, l, 0) {
        Some(i) => acc.update(i, l),
        None => acc.push(l),
    }
}

/// The listings of `ls` upserted one after another into `acc`.
pub open spec fn upsert_all(acc: Seq<ListingView>, ls: Seq<ListingView>) -> Seq<ListingView>
    decreases ls.len(),
{
    if ls.len() == 0 {
        acc
    } else {
        upsert(upsert_all(acc, ls.drop_last()), ls.last())
    }
}

/// The merge of one region: where only one side has listings they pass
/// unchanged; else the union by key, where an incoming listing replaces a
/// draft one with the same key.
pub open spec fn merge_region(draft: Seq<ListingView>, incoming: Seq<ListingView>) -> Seq<
    ListingView,
> {
    if draft.len() == 0 {
        incoming
    } else if incoming.len() == 0 {
        draft
    } else {
        upsert_all(upsert_all(Seq::empty(), draft), incoming)
    }
}

/// The first index of `s` whose listing sorts strictly after `x`.
pub open spec fn insert_pos_from(s: Seq<ListingView>, x: ListingView, i: int) -> int
    decreases s.len() - i,
{
    if i < 0 || i >= s.len() {
        s.len() as int
    } else if overview_lt(x.overview, s[i].overview) {
        i
    } else {
        insert_pos_from(s, x, i + 1)
    }
}

/// The listings in a stable sort by their overviews.
pub open spec fn sort_listings(ls: Seq<ListingView>) -> Seq<ListingView>
    decreases ls.len(),
{
    if ls.len() == 0 {
        ls
    } else {
        let s = sort_listings(ls.drop_last());
        s.insert(insert_pos_from(s, ls.last(), 0), ls.last())
    }
}

/// The event's dates meet the window `[a, b]`.
pub open spec fn meets_window(d: EventDate, a: CalendarDate, b: CalendarDate) -> bool {
    let last = match d {
        EventDate::Date(x) => x,
        EventDate::DateRange { end, .. } => end,
    };
    date_ord(event_start(d)) <= date_ord(b) && date_ord(last) >= date_ord(a)
}

pub open spec fn keep_in_window(ls: Seq<ListingView>, a: CalendarDate, b: CalendarDate) -> Seq<
    ListingView,
> {
    ls.filter(|l: ListingView| meets_window(l.overview.date, a, b))
}

/// Whether `u` is one of the URLs of `es`.
fn url_among(u: &String, es: &Vec<crate::events::Event>) -> (r: bool)
    ensures
        r == url_list(links_view(es@)).contains(u@),
{
    let ghost urls = url_list(links_view(es@));
    assert forall|k: int| 0 <= k < es@.len() implies urls[k] == (#[trigger] es@[k]).url@ by {}
    let mut j: usize = 0;
    while j < es.len()
        invariant
            j <= es@.len(),
            urls.len() == es@.len(),
            forall|k: int| 0 <= k < es@.len() ==> urls[k] == (#[trigger] es@[k]).url@,
            forall|k: int| 0 <= k < j ==> urls[k] != u@,
        decreases es@.len() - j,
    {
        let same = crate::text::strings_equal(&es[j].url, u);
        if same {
            assert(es@[j as int].url@ == u@);
            assert(urls[j as int] == u@);
            assert(urls.contains(u@));
            assert(urls == url_list(links_view(es@)));
            assert(url_list(links_view(es@)).contains(u@));
            return true;
        }
        j = j + 1;
    }
    false
}

/// Whether the two listings have the same key.
pub fn same_key_exec(a: &EventListing, b: &EventListing) -> (r: bool)
    ensures
        r == same_key(a@, b@),
{
    let ghost ua = url_list(links_view(a.events@));
    let ghost ub = url_list(links_view(b.events@));
    assert forall|k: int| 0 <= k < a.events@.len() implies ua[k] == (#[trigger] a.events@[k]).url@ by {}
    assert forall|k: int| 0 <= k < b.events@.len() implies ub[k] == (#[trigger] b.events@[k]).url@ by {}
    let mut i: usize = 0;
    while i < a.events.len()
        invariant
            i <= a.events@.len(),
            ua == url_list(links_view(a.events@)),
            ub == url_list(links_view(b.events@)),
            ua.len() == a.events@.len(),
            forall|k: int| 0 <= k < a.events@.len() ==> ua[k] == (#[trigger] a.events@[k]).url@,
            forall|k: int| 0 <= k < i ==> ub.contains(#[trigger] ua[k]),
        decreases a.events@.len() - i,
    {
        if !url_among(&a.events[i].url, &b.events) {
            proof {
                assert(ua[i as int] == a.events@[i as int].url@);
                assert(ub == url_list(links_view(b.events@)));
                assert(!ub.contains(ua[i as int]));
                assert(ua.contains(ua[i as int]));
                assert(ua.to_set().contains(ua[i as int]));
                assert(!ub.to_set().contains(ua[i as int]));
                assert(key_set(a@) == ua.to_set());
                assert(key_set(b@) == ub.to_set());
            }
            return false;
        }
        i = i + 1;
    }
    let mut j: usize = 0;
    while j < b.events.len()
        invariant
            j <= b.events@.len(),
            ua == url_list(links_view(a.events@)),
            ub == url_list(links_view(b.events@)),
            ub.len() == b.events@.len(),
            forall|k: int| 0 <= k < b.events@.len() ==> ub[k] == (#[trigger] b.events@[k]).url@,
            forall|k: int| 0 <= k < j ==> ua.contains(#[trigger] ub[k]),
            forall|k: int| 0 <= k < ua.len() ==> ub.contains(#[trigger] ua[k]),
        decreases b.events@.len() - j,
    {
        if !url_among(&b.events[j].url, &a.events) {
            proof {
                assert(ub[j as int] == b.events@[j as int].url@);
                assert(ua == url_list(links_view(a.events@)));
                assert(!ua.contains(ub[j as int]));
                assert(ub.contains(ub[j as int]));
                assert(ub.to_set().contains(ub[j as int]));
                assert(!ua.to_set().contains(ub[j as int]));
                assert(key_set(a@) == ua.to_set());
                assert(key_set(b@) == ub.to_set());
            }
            return false;
        }
        j = j + 1;
    }
    proof {
        assert forall|x: Seq<char>| ua.to_set().contains(x) implies ub.to_set().contains(x) by {
            let k = choose|k: int| 0 <= k < ua.len() && ua[k] == x;
            assert(ub.contains(ua[k]));
        }
        assert forall|x: Seq<char>| ub.to_set().contains(x) implies ua.to_set().contains(x) by {
            let k = choose|k: int| 0 <= k < ub.len() && ub[k] == x;
            assert(ua.contains(ub[k]));
        }
        assert(ua.to_set() =~= ub.to_set());
        assert(key_set(a@) == ua.to_set());
        assert(key_set(b@) == ub.to_set());
    }
    true
}

/// Upserts `l` into `acc` (see [`upsert`]).
fn upsert_exec(acc: &mut Vec<EventListing>, l: EventListing)
    ensures
        listings_view(final(acc)@) == upsert(listings_view(old(acc)@), l@),
{
    let ghost a = listings_view(acc@);
    let mut i: usize = 0;
    while i < acc.len()
        invariant
            i <= acc@.len(),
            acc@ == old(acc)@,
            a == listings_view(acc@),
            a.len() == acc@.len(),
            find_key_from(a, l@, 0) == find_key_from(a, l@, i as int),
        decreases acc@.len() - i,
    {
        if same_key_exec(&acc[i], &l) {
            assert(a[i as int] == acc@[i as int]@);
            assert(find_key_from(a, l@, i as int) == Some(i as int));
            let ghost lv = l@;
            acc.set(i, l);
            assert(listings_view(acc@) =~= a.update(i as int, lv));
            return;
        }
        assert(a[i as int] == acc@[i as int]@);
        i = i + 1;
    }
    let ghost lv = l@;
    acc.push(l);
    assert(listings_view(acc@) =~= a.push(lv));
}

/// Copies of the listings.
pub fn duplicate_listings(v: &Vec<EventListing>) -> (r: Vec<EventListing>)
    ensures
        listings_view(r@) == listings_view(v@),
{
    let mut out: Vec<EventListing> = Vec::new();
    let mut i: usize = 0;
    while i < v.len()
        invariant
            i <= v@.len(),
            listings_view(out@) =~= listings_view(v@.subrange(0, i as int)),
        decreases v@.len() - i,
    {
        let item = v[i].duplicate();
        let ghost before = out@;
        out.push(item);
        assert(v@.subrange(0, i + 1) =~= v@.subrange(0, i as int).push(v@[i as int]));
        assert(listings_view(out@) =~= listings_view(before).push(item@));
        assert(listings_view(v@.subrange(0, i + 1)) =~= listings_view(
            v@.subrange(0, i as int),
        ).push(v@[i as int]@));
        i = i + 1;
    }
    assert(v@.subrange(0, v@.len() as int) =~= v@);
    out
}

/// Upserts copies of the listings of `ls`, in order, into `acc`.
fn upsert_each(acc: &mut Vec<EventListing>, ls: &Vec<EventListing>)
    ensures
        listings_view(final(acc)@) == upsert_all(listings_view(old(acc)@), listings_view(ls@)),
{
    let ghost a0 = listings_view(acc@);
    let ghost lsv = listings_view(ls@);
    let mut i: usize = 0;
    while i < ls.len()
        invariant
            i <= ls@.len(),
            lsv == listings_view(ls@),
            listings_view(acc@) == upsert_all(a0, lsv.subrange(0, i as int)),
        decreases ls@.len() - i,
    {
        let item = ls[i].duplicate();
        upsert_exec(acc, item);
        assert(lsv.subrange(0, i + 1).drop_last() =~= lsv.subrange(0, i as int));
        i = i + 1;
    }
    assert(lsv.subrange(0, ls@.len() as int) =~= lsv);
}

/// Merges the listings of one region (see [`merge_region`]).
pub fn merge_listings(draft: &Vec<EventListing>, incoming: &Vec<EventListing>) -> (r: Vec<
    EventListing,
>)
    ensures
        listings_view(r@) == merge_region(listings_view(draft@), listings_view(incoming@)),
{
    if draft.len() == 0 {
        duplicate_listings(incoming)
    } else if incoming.len() == 0 {
        duplicate_listings(draft)
    } else {
        let mut acc: Vec<EventListing> = Vec::new();
        assert(listings_view(acc@) =~= Seq::<ListingView>::empty());
        upsert_each(&mut acc, draft);
        upsert_each(&mut acc, incoming);
        acc
    }
}

/// The listings in a stable sort by their overviews (see [`sort_listings`]).
pub fn sorted_listings(ls: &Vec<EventListing>) -> (r: Vec<EventListing>)
    ensures
        listings_view(r@) == sort_listings(listings_view(ls@)),
{
    let ghost lsv = listings_view(ls@);
    let mut out: Vec<EventListing> = Vec::new();
    let mut i: usize = 0;
    assert(lsv.subrange(0, 0) =~= Seq::<ListingView>::empty());
    while i < ls.len()
        invariant
            i <= ls@.len(),
            lsv == listings_view(ls@),
            listings_view(out@) == sort_listings(lsv.subrange(0, i as int)),
        decreases ls@.len() - i,
    {
        let x = ls[i].duplicate();
        let ghost s = listings_view(out@);
        let mut j: usize = 0;
        while j < out.len() && !x.overview.is_before(&out[j].overview)
            invariant
                j <= out@.len(),
                s == listings_view(out@),
                insert_pos_from(s, x@, 0) == insert_pos_from(s, x@, j as int),
            decreases out@.len() - j,
        {
            j = j + 1;
        }
        let ghost xv = x@;
        out.insert(j, x);
        proof {
            assert(lsv.subrange(0, i + 1).drop_last() =~= lsv.subrange(0, i as int));
            assert(lsv.subrange(0, i + 1).last() == lsv[i as int]);
            assert(listings_view(out@) =~= s.insert(j as int, xv));
        }
        i = i + 1;
    }
    assert(lsv.subrange(0, ls@.len() as int) =~= lsv);
    out
}

/// Listings grouped by region.
#[derive(Debug)]
pub struct EventsByRegion {
    regions: [Vec<EventListing>; 7],
}

impl View for EventsByRegion {
    type V = Seq<Seq<ListingView>>;

    closed spec fn view(&self) -> Seq<Seq<ListingView>> {
        Seq::new(7, |i: int| listings_view(self.regions@[i]@))
    }
}

impl EventsByRegion {
    /// No listing in any region.
    pub fn new() -> (r: EventsByRegion)
        ensures
            r@.len() == 7,
            forall|i: int| 0 <= i < 7 ==> #[trigger] r@[i].len() == 0,
    {
        let regions: [Vec<EventListing>; 7] = [Vec::new(), Vec::new(), Vec::new(), Vec::new(), Vec::new(), Vec::new(), Vec::new()];
        let r = EventsByRegion { regions };
        assert forall|i: int| 0 <= i < 7 implies #[trigger] r@[i].len() == 0 by {
            assert(r.regions@[i]@.len() == 0);
        }
        r
    }

    /// Adds a listing at the end of its region.
    pub fn add(&mut self, listing: EventListing, region: Region)
        ensures
            final(self)@ == old(self)@.update(
                region_index(region),
                old(self)@[region_index(region)].push(listing@),
            ),
            final(self)@.len() == 7,
    {
        let idx = region.index();
        let ghost lv = listing@;
        let ghost before = self@;
        let mut bucket = duplicate_listings(&self.regions[idx]);
        bucket.push(listing);
        let ghost bv = bucket@;
        self.regions.set(idx, bucket);
        assert(listings_view(bv) =~= before[region_index(region)].push(lv));
        assert(self@ =~= before.update(region_index(region), before[region_index(region)].push(lv)));
    }

    /// The listings of one region.
    pub fn get(&self, region: Region) -> (r: &Vec<EventListing>)
        ensures
            self@.len() == 7,
            listings_view(r@) == self@[region_index(region)],
    {
        &self.regions[region.index()]
    }

    /// The merge of this draft with `other` as incoming listings, region by
    /// region (see [`merge_region`]).
    pub fn merge(&self, other: &EventsByRegion) -> (r: EventsByRegion)
        ensures
            r@.len() == 7,
            forall|i: int| 0 <= i < 7 ==> #[trigger] r@[i] == merge_region(self@[i], other@[i]),
    {
        let mut regions: [Vec<EventListing>; 7] = [Vec::new(), Vec::new(), Vec::new(), Vec::new(), Vec::new(), Vec::new(), Vec::new()];
        let mut i: usize = 0;
        while i < REGION_COUNT
            invariant
                i <= 7,

                forall|k: int| 0 <= k < i ==> listings_view((#[trigger] regions@[k])@) == merge_region(
                    self@[k],
                    other@[k],
                ),
            decreases 7 - i,
        {
            let m = merge_listings(&self.regions[i], &other.regions[i]);
            regions.set(i, m);
            i = i + 1;
        }
        EventsByRegion { regions }
    }

    /// The listings whose dates meet the window `[start, end]`.
    pub fn within(&self, start: CalendarDate, end: CalendarDate) -> (r: EventsByRegion)
        ensures
            r@.len() == 7,
            forall|i: int| 0 <= i < 7 ==> #[trigger] r@[i] == keep_in_window(self@[i], start, end),
    {
        let mut regions: [Vec<EventListing>; 7] = [Vec::new(), Vec::new(), Vec::new(), Vec::new(), Vec::new(), Vec::new(), Vec::new()];
        let mut i: usize = 0;
        while i < REGION_COUNT
            invariant
                i <= 7,

                forall|k: int| 0 <= k < i ==> listings_view((#[trigger] regions@[k])@) == keep_in_window(
                    self@[k],
                    start,
                    end,
                ),
            decreases 7 - i,
        {
            let src = &self.regions[i];
            let ghost sv = listings_view(src@);
            let mut kept: Vec<EventListing> = Vec::new();
            let mut j: usize = 0;
            assert(sv.subrange(0, 0).filter(|l: ListingView| meets_window(l.overview.date, start, end))
                =~= Seq::<ListingView>::empty());
            while j < src.len()
                invariant
                    j <= src@.len(),
                    sv == listings_view(src@),
                    listings_view(kept@) == keep_in_window(sv.subrange(0, j as int), start, end),
                decreases src@.len() - j,
            {
                let l = &src[j];
                let keep = meets_window_exec(l.overview.date, start, end);
                proof {
                    assert(sv.subrange(0, j + 1).drop_last() =~= sv.subrange(0, j as int));
                    reveal(Seq::filter);
                }
                if keep {
                    let ghost before = kept@;
                    kept.push(l.duplicate());
                    assert(listings_view(kept@) =~= listings_view(before).push(sv[j as int]));
                }
                j = j + 1;
            }
            assert(sv.subrange(0, src@.len() as int) =~= sv);
            regions.set(i, kept);
            i = i + 1;
        }
        EventsByRegion { regions }
    }

    /// The body of the section: for each region with listings, in order, its
    /// header, its listings sorted, and a blank line.
    pub fn render(&self) -> (r: String)
        ensures
            r@ == render_regions(self@, 7),
    {
        let mut s = String::new();
        let mut i: usize = 0;
        while i < REGION_COUNT
            invariant
                i <= 7,
                s@ == render_regions(self@, i as int),
            decreases 7 - i,
        {
            let ls = &self.regions[i];
            if ls.len() > 0 {
                let region = Region::at(i);
                s.append("### ");
                s.append(region.name());
                s.append("\n");
                let sorted = sorted_listings(ls);
                push_listings(&mut s, &sorted);
                s.append("\n");
                proof {
                    assert(region == region_at_spec(i as int));
                    assert(self@[i as int] == listings_view(ls@));
                    assert(s@ =~= render_regions(self@, i + 1));
                }
            } else {
                proof {
                    assert(self@[i as int] == listings_view(ls@));
                    assert(s@ =~= render_regions(self@, i + 1));
                }
            }
            i = i + 1;
        }
        s
    }
}

/// Appends the lines of each listing.
fn push_listings(s: &mut String, ls: &Vec<EventListing>)
    ensures
        final(s)@ == old(s)@ + render_all(listings_view(ls@)),
{
    let ghost before = s@;
    let ghost lv = listings_view(ls@);
    let mut j: usize = 0;
    assert(lv.subrange(0, 0) =~= Seq::<ListingView>::empty());
    assert(before + Seq::<char>::empty() =~= before);
    while j < ls.len()
        invariant
            j <= ls@.len(),
            lv == listings_view(ls@),
            s@ == before + render_all(lv.subrange(0, j as int)),
        decreases ls@.len() - j,
    {
        let t = ls[j].render();
        s.append(t.as_str());
        proof {
            assert(lv.subrange(0, j + 1).drop_last() =~= lv.subrange(0, j as int));
            assert(lv.subrange(0, j + 1).last() == ls@[j as int]@);
            assert(s@ =~= before + render_all(lv.subrange(0, j + 1)));
        }
        j = j + 1;
    }
    assert(lv.subrange(0, ls@.len() as int) =~= lv);
}

pub fn meets_window_exec(d: EventDate, a: CalendarDate, b: CalendarDate) -> (r: bool)
    ensures
        r == meets_window(d, a, b),
{
    let last = match d {
        EventDate::Date(x) => x,
        EventDate::DateRange { end, .. } => end,
    };
    date_ord_exec(crate::events::start_of(&d)) <= date_ord_exec(b) && date_ord_exec(last)
        >= date_ord_exec(a)
}

/// The listings' lines one after another.
pub open spec fn render_all(ls: Seq<ListingView>) -> Seq<char>
    decreases ls.len(),
{
    if ls.len() == 0 {
        Seq::empty()
    } else {
        render_all(ls.drop_last()) + render_listing(ls.last())
    }
}

pub open spec fn region_at_spec(i: int) -> Region {
    if i == 0 {
        Region::Virtual
    } else if i == 1 {
        Region::Africa
    } else if i == 2 {
        Region::Asia
    } else if i == 3 {
        Region::Europe
    } else if i == 4 {
        Region::NorthAmerica
    } else if i == 5 {
        Region::Oceania
    } else {
        Region::SouthAmerica
    }
}

/// One region's block: header, sorted listings and a blank line; nothing
/// for a region without listings.
pub open spec fn render_region(r: Region, ls: Seq<ListingView>) -> Seq<char> {
    if ls.len() == 0 {
        Seq::empty()
    } else {
        "### "@ + region_name(r) + "\n"@ + render_all(sort_listings(ls)) + "\n"@
    }
}

/// The blocks of the first `n` regions.
pub open spec fn render_regions(rs: Seq<Seq<ListingView>>, n: int) -> Seq<char>
    decreases n,
{
    if n <= 0 {
        Seq::empty()
    } else {
        render_regions(rs, n - 1) + render_region(region_at_spec(n - 1), rs[n - 1])
    }
}

} // verus!

verus! {

/// The regions of a draft merged with incoming listings, kept to the
/// window `[start, end]`.
pub open spec fn merged_regions(
    draft: Seq<Seq<ListingView>>,
    incoming: Seq<Seq<ListingView>>,
    start: CalendarDate,
    end: CalendarDate,
) -> Seq<Seq<ListingView>> {
    Seq::new(7, |i: int| keep_in_window(merge_region(draft[i], incoming[i]), start, end))
}

/// The section body after merging `incoming` into `draft` and dropping the
/// listings outside the draft's window `[start, end]`.
pub fn merged_section(
    draft: &EventsByRegion,
    incoming: &EventsByRegion,
    start: CalendarDate,
    end: CalendarDate,
) -> (r: String)
    ensures
        r@ == render_regions(merged_regions(draft@, incoming@, start, end), 7),
{
    let merged = draft.merge(incoming);
    let kept = merged.within(start, end);
    assert(kept@ =~= merged_regions(draft@, incoming@, start, end));
    kept.render()
}

} // verus!
