//! Laws that relate the library's functions, proved over their
//! specifications.
use vstd::prelude::*;

use crate::events::ListingView;
use crate::merge::{find_key_from, key_set, merge_region, same_key, upsert, upsert_all};

verus! {

/// No two listings of `s` share a key.
pub open spec fn distinct_keys(s: Seq<ListingView>) -> bool {
    forall|i: int, j: int| 0 <= i < s.len() && 0 <= j < s.len() && i != j ==> !same_key(s[i], s[j])
}

proof fn lemma_find_key_none(s: Seq<ListingView>, l: ListingView, i: int)
    requires
        0 <= i,
        forall|j: int| i <= j < s.len() ==> !same_key(s[j], l),
    ensures
        find_key_from(s, l, i) is None,
    decreases s.len() - i,
{
    if i < s.len() {
        lemma_find_key_none(s, l, i + 1);
    }
}

proof fn lemma_find_key_at(s: Seq<ListingView>, l: ListingView, i: int, k: int)
    requires
        0 <= i <= k < s.len(),
        same_key(s[k], l),
        forall|j: int| i <= j < k ==> !same_key(s[j], l),
    ensures
        find_key_from(s, l, i) == Some(k),
    decreases k - i,
{
    if i < k {
        lemma_find_key_at(s, l, i + 1, k);
    }
}

proof fn lemma_find_key_some(s: Seq<ListingView>, l: ListingView, i: int)
    requires
        0 <= i,
    ensures
        find_key_from(s, l, i) matches Some(k) ==> i <= k < s.len() && same_key(s[k], l),
        find_key_from(s, l, i) is None ==> forall|j: int| i <= j < s.len() ==> !same_key(s[j], l),
    decreases s.len() - i,
{
    if i < s.len() && !same_key(s[i], l) {
        lemma_find_key_some(s, l, i + 1);
    }
}

/// Upserting into listings with distinct keys keeps the keys distinct, and
/// leaves `l` as the one listing with its key.
proof fn lemma_upsert_distinct(acc: Seq<ListingView>, l: ListingView)
    requires
        distinct_keys(acc),
    ensures
        distinct_keys(upsert(acc, l)),
        upsert(acc, l).contains(l),
        forall|x: ListingView| upsert(acc, l).contains(x) && same_key(x, l) ==> x == l,
        forall|x: ListingView| acc.contains(x) && !same_key(x, l) ==> upsert(acc, l).contains(x),
        forall|x: ListingView| upsert(acc, l).contains(x) ==> x == l || acc.contains(x),
{
    lemma_find_key_some(acc, l, 0);
    let r = upsert(acc, l);
    match find_key_from(acc, l, 0) {
        Some(k) => {
            assert(r == acc.update(k, l));
            assert(r[k] == l);
            assert forall|x: ListingView| acc.contains(x) && !same_key(x, l) implies r.contains(x) by {
                let j = choose|j: int| 0 <= j < acc.len() && acc[j] == x;
                assert(j != k);
                assert(r[j] == x);
            }
            assert forall|x: ListingView| r.contains(x) implies x == l || acc.contains(x) by {
                let j = choose|j: int| 0 <= j < r.len() && r[j] == x;
                if j != k {
                    assert(acc[j] == x);
                }
            }
            assert forall|x: ListingView| r.contains(x) && same_key(x, l) implies x == l by {
                let j = choose|j: int| 0 <= j < r.len() && r[j] == x;
                if j != k {
                    assert(acc[j] == x);
                    assert(key_set(acc[j]) == key_set(acc[k]));
                    assert(!same_key(acc[j], acc[k]));
                }
            }
            assert forall|i: int, j: int|
                0 <= i < r.len() && 0 <= j < r.len() && i != j implies !same_key(r[i], r[j]) by {
                if i == k {
                    assert(!same_key(acc[k], acc[j]));
                } else if j == k {
                    assert(!same_key(acc[i], acc[k]));
                } else {
                }
            }
        },
        None => {
            assert(r == acc.push(l));
            assert(r[acc.len() as int] == l);
            assert forall|x: ListingView| acc.contains(x) && !same_key(x, l) implies r.contains(x) by {
                let j = choose|j: int| 0 <= j < acc.len() && acc[j] == x;
                assert(r[j] == x);
            }
            assert forall|x: ListingView| r.contains(x) implies x == l || acc.contains(x) by {
                let j = choose|j: int| 0 <= j < r.len() && r[j] == x;
                if j < acc.len() {
                    assert(acc[j] == x);
                }
            }
            assert forall|x: ListingView| r.contains(x) && same_key(x, l) implies x == l by {
                let j = choose|j: int| 0 <= j < r.len() && r[j] == x;
                if j < acc.len() {
                    assert(acc[j] == x);
                }
            }
            assert forall|i: int, j: int|
                0 <= i < r.len() && 0 <= j < r.len() && i != j implies !same_key(r[i], r[j]) by {
                if i == acc.len() {
                    assert(!same_key(acc[j], l));
                    assert(key_set(acc[j]) != key_set(l));
                } else if j == acc.len() {
                    assert(!same_key(acc[i], l));
                } else {
                }
            }
        },
    }
}

/// Upserting listings with distinct keys, one after another, into nothing
/// gives them back unchanged.
proof fn lemma_upsert_all_fresh(s: Seq<ListingView>)
    requires
        distinct_keys(s),
    ensures
        upsert_all(Seq::empty(), s) == s,
    decreases s.len(),
{
    if s.len() > 0 {
        let p = s.drop_last();
        assert(distinct_keys(p)) by {
            assert forall|i: int, j: int|
                0 <= i < p.len() && 0 <= j < p.len() && i != j implies !same_key(p[i], p[j]) by {
                assert(p[i] == s[i] && p[j] == s[j]);
            }
        }
        lemma_upsert_all_fresh(p);
        assert forall|j: int| 0 <= j < p.len() implies !same_key(p[j], s.last()) by {
            assert(p[j] == s[j]);
            assert(!same_key(s[j], s[s.len() - 1]));
        }
        lemma_find_key_none(p, s.last(), 0);
        assert(p.push(s.last()) =~= s);
    }
}

/// Upserting each listing of `s[0..n]` into `s` itself changes nothing
/// when the keys of `s` are distinct.
proof fn lemma_upsert_all_self(s: Seq<ListingView>, n: int)
    requires
        distinct_keys(s),
        0 <= n <= s.len(),
    ensures
        upsert_all(s, s.subrange(0, n)) == s,
    decreases n,
{
    if n > 0 {
        let t = s.subrange(0, n);
        assert(t.drop_last() =~= s.subrange(0, n - 1));
        lemma_upsert_all_self(s, n - 1);
        let k = n - 1;
        assert(t.last() == s[k]);
        assert(key_set(s[k]) == key_set(s[k]));
        assert forall|j: int| 0 <= j < k implies !same_key(s[j], s[k]) by {}
        lemma_find_key_at(s, s[k], 0, k);
        assert(s.update(k, s[k]) =~= s);
    }
}

/// Merging a region's listings with themselves as the incoming listings
/// gives the same listings back, provided no two of them share a key.
pub proof fn lemma_merge_with_itself(d: Seq<ListingView>)
    requires
        distinct_keys(d),
    ensures
        merge_region(d, d) == d,
{
    if d.len() > 0 {
        lemma_upsert_all_fresh(d);
        lemma_upsert_all_self(d, d.len() as int);
        assert(d.subrange(0, d.len() as int) =~= d);
    }
}

/// Merging listings grouped by region with themselves gives them back,
/// region by region, provided no two listings of a region share a key.
pub proof fn lemma_merge_regions_with_themselves(d: Seq<Seq<ListingView>>)
    requires
        forall|i: int| 0 <= i < d.len() ==> distinct_keys(#[trigger] d[i]),
    ensures
        forall|i: int| 0 <= i < d.len() ==> merge_region(#[trigger] d[i], d[i]) == d[i],
{
    assert forall|i: int| 0 <= i < d.len() implies merge_region(#[trigger] d[i], d[i]) == d[i] by {
        lemma_merge_with_itself(d[i]);
    }
}

/// After upserting `s[0..n]` into listings with distinct keys, the keys are
/// still distinct; and once `l = s[k]` (k < n) is in, with no later listing
/// of `s[0..n]` sharing its key, `l` is the one listing with its key.
proof fn lemma_upsert_all_keeps(acc: Seq<ListingView>, s: Seq<ListingView>, k: int, n: int)
    requires
        distinct_keys(acc),
        0 <= k < s.len(),
        0 <= n <= s.len(),
        forall|j: int| k < j < s.len() ==> !same_key(s[j], s[k]),
    ensures
        distinct_keys(upsert_all(acc, s.subrange(0, n))),
        n > k ==> upsert_all(acc, s.subrange(0, n)).contains(s[k]),
        n > k ==> forall|x: ListingView|
            upsert_all(acc, s.subrange(0, n)).contains(x) && same_key(x, s[k]) ==> x == s[k],
    decreases n,
{
    if n > 0 {
        let t = s.subrange(0, n);
        assert(t.drop_last() =~= s.subrange(0, n - 1));
        assert(t.last() == s[n - 1]);
        lemma_upsert_all_keeps(acc, s, k, n - 1);
        let prev = upsert_all(acc, s.subrange(0, n - 1));
        lemma_upsert_distinct(prev, s[n - 1]);
        if n - 1 > k {
            assert(!same_key(s[n - 1], s[k]));
            assert(upsert(prev, s[n - 1]).contains(s[k]));
            assert forall|x: ListingView|
                upsert(prev, s[n - 1]).contains(x) && same_key(x, s[k]) implies x == s[k] by {
                if x != s[n - 1] {
                    assert(prev.contains(x));
                } else {
                    assert(key_set(x) == key_set(s[k]));
                }
            }
        }
    } else {
        assert(s.subrange(0, 0) =~= Seq::<ListingView>::empty());
    }
}

proof fn lemma_upsert_all_distinct(acc: Seq<ListingView>, s: Seq<ListingView>)
    requires
        distinct_keys(acc),
    ensures
        distinct_keys(upsert_all(acc, s)),
    decreases s.len(),
{
    if s.len() > 0 {
        lemma_upsert_all_distinct(acc, s.drop_last());
        lemma_upsert_distinct(upsert_all(acc, s.drop_last()), s.last());
    }
}

/// When a draft and the incoming listings of a region both hold listings,
/// an incoming listing `l` with no later incoming listing of its key ends
/// up in the merge, and is the merge's only listing with that key: the
/// incoming version wins over the draft's.
pub proof fn lemma_merge_prefers_incoming(
    draft: Seq<ListingView>,
    incoming: Seq<ListingView>,
    k: int,
)
    requires
        draft.len() > 0,
        0 <= k < incoming.len(),
        forall|j: int| k < j < incoming.len() ==> !same_key(incoming[j], incoming[k]),
    ensures
        merge_region(draft, incoming).contains(incoming[k]),
        forall|x: ListingView|
            merge_region(draft, incoming).contains(x) && same_key(x, incoming[k]) ==> x
                == incoming[k],
{
    let base = upsert_all(Seq::empty(), draft);
    assert(distinct_keys(Seq::<ListingView>::empty()));
    lemma_upsert_all_distinct(Seq::empty(), draft);
    lemma_upsert_all_keeps(base, incoming, k, incoming.len() as int);
    assert(incoming.subrange(0, incoming.len() as int) =~= incoming);
}

} // verus!

verus! {

/// A region header naming no known region is read as an `UnknownRegion`
/// error that holds the name.
pub proof fn lemma_unknown_region_line(name: Seq<char>)
    requires
        crate::events::region_named(name) is None,
    ensures
        crate::grammar::parse_line_spec("### "@ + name) == Err::<
            crate::grammar::LineView,
            crate::grammar::ParseErrorView,
        >(crate::grammar::ParseErrorView::UnknownRegion(name)),
{
    let s = "### "@ + name;
    reveal(crate::grammar::parse_line_spec);
    reveal_strlit("### ");
    reveal_strlit("## Upcoming Events");
    reveal_strlit("If you are running a Rust event please add it to the [calendar]");
    reveal_strlit("Rusty Events between ");
    assert(s[0] == '#');
    assert(s[2] == '#');
    assert(s.len() > 0);
    assert(s != crate::grammar::start_marker()) by {
        assert(crate::grammar::start_marker()[2] == ' ');
    }
    assert(!crate::text::has_prefix_at(s, 0, crate::grammar::end_marker())) by {
        if crate::text::has_prefix_at(s, 0, crate::grammar::end_marker()) {
            assert(s.subrange(0, 63)[0] == s[0]);
        }
    }
    assert(!crate::text::has_prefix_at(s, 0, crate::grammar::date_range_prefix())) by {
        if crate::text::has_prefix_at(s, 0, crate::grammar::date_range_prefix()) {
            assert(s.subrange(0, 21)[0] == s[0]);
        }
    }
    assert(s.subrange(0, 4) =~= "### "@);
    assert(s.subrange(4, s.len() as int) =~= name);
}

/// In the region-header state, a line that could not be read is recorded
/// as one error and the linter keeps expecting a region header.
pub proof fn lemma_bad_header_line_keeps_state(m: crate::linter::LinterView, it: crate::reader::ItemView)
    requires
        m.state == crate::linter::LinterState::ExpectingRegionHeader,
        it.parsed is Err,
        !crate::linter::exhausted(m),
    ensures
        ({
            let (m2, _) = crate::linter::lint_line_spec(m, it);
            &&& m2.state == crate::linter::LinterState::ExpectingRegionHeader
            &&& m2.error_count == m.error_count + 1
            &&& m2.errors == m.errors.push(
                crate::linter::LintErrorView::LineParseFailed {
                    num: it.num,
                    raw: it.raw,
                    error: it.parsed->Err_0,
                },
            )
        }),
{
}

/// In the overview state, an event dated outside the newsletter's window
/// is recorded as exactly one `EventOutOfDateRange` error, and the linter
/// goes on expecting the event's title line.
pub proof fn lemma_out_of_window_event(
    m: crate::linter::LinterView,
    it: crate::reader::ItemView,
    o: crate::events::OverviewView,
    a: crate::date::CalendarDate,
    b: crate::date::CalendarDate,
)
    requires
        m.state == crate::linter::LinterState::ExpectingEventOverview,
        m.range == Some((a, b)),
        it.parsed == Ok::<crate::grammar::LineView, crate::grammar::ParseErrorView>(
            crate::grammar::LineView::EventOverview(o),
        ),
        !crate::linter::in_window(o.date, a, b),
        !crate::linter::exhausted(m),
    ensures
        ({
            let (m2, _) = crate::linter::lint_line_spec(m, it);
            &&& m2.state == crate::linter::LinterState::ExpectingEventLinks
            &&& m2.error_count == m.error_count + 1
            &&& m2.errors == m.errors.push(
                crate::linter::LintErrorView::EventOutOfDateRange {
                    num: it.num,
                    raw: it.raw,
                    event_date: o.date,
                    start: a,
                    end: b,
                },
            )
            &&& m2.previous == m.previous
        }),
{
}

/// In the overview state, an event in the window that sorts before the
/// previous event of its region is recorded as exactly one
/// `EventOutOfOrder` error; the previous event stays the reference for the
/// next one and the linter goes on expecting the title line.
pub proof fn lemma_out_of_order_event(
    m: crate::linter::LinterView,
    it: crate::reader::ItemView,
    o: crate::events::OverviewView,
    a: crate::date::CalendarDate,
    b: crate::date::CalendarDate,
    p: crate::events::OverviewView,
)
    requires
        m.state == crate::linter::LinterState::ExpectingEventOverview,
        m.range == Some((a, b)),
        m.previous == Some(p),
        it.parsed == Ok::<crate::grammar::LineView, crate::grammar::ParseErrorView>(
            crate::grammar::LineView::EventOverview(o),
        ),
        crate::linter::in_window(o.date, a, b),
        crate::events::overview_lt(o, p),
        !crate::linter::exhausted(m),
    ensures
        ({
            let (m2, _) = crate::linter::lint_line_spec(m, it);
            &&& m2.state == crate::linter::LinterState::ExpectingEventLinks
            &&& m2.error_count == m.error_count + 1
            &&& m2.errors == m.errors.push(
                crate::linter::LintErrorView::EventOutOfOrder {
                    num: it.num,
                    raw: it.raw,
                    event: o,
                    previous: p,
                },
            )
            &&& m2.previous == Some(p)
        }),
{
}

/// An overview in the window that does not sort before the previous one is
/// accepted, and becomes the previous one.
proof fn lemma_step_ordered_overview(
    m: crate::linter::LinterView,
    it: crate::reader::ItemView,
    o: crate::events::OverviewView,
    a: crate::date::CalendarDate,
    b: crate::date::CalendarDate,
)
    requires
        m.state == crate::linter::LinterState::ExpectingEventOverview,
        m.range == Some((a, b)),
        !crate::linter::exhausted(m),
        it.parsed == Ok::<crate::grammar::LineView, crate::grammar::ParseErrorView>(
            crate::grammar::LineView::EventOverview(o),
        ),
        crate::linter::in_window(o.date, a, b),
        m.previous is Some ==> !crate::events::overview_lt(o, m.previous->0),
    ensures
        ({
            let (m2, r) = crate::linter::lint_line_spec(m, it);
            &&& r is Ok
            &&& m2.state == crate::linter::LinterState::ExpectingEventLinks
            &&& m2.previous == Some(o)
            &&& m2.range == m.range
            &&& m2.errors == m.errors
            &&& m2.error_count == m.error_count
            &&& m2.error_limit == m.error_limit
        }),
{
}

/// A title line in the title-line state is accepted and leads back to the
/// overview state.
proof fn lemma_step_title(m: crate::linter::LinterView, y: crate::reader::ItemView)
    requires
        m.state == crate::linter::LinterState::ExpectingEventLinks,
        !crate::linter::exhausted(m),
        y.parsed is Ok && y.parsed->Ok_0 is EventLinks,
    ensures
        ({
            let (m2, r) = crate::linter::lint_line_spec(m, y);
            &&& r is Ok
            &&& m2.state == crate::linter::LinterState::ExpectingEventOverview
            &&& m2.previous == m.previous
            &&& m2.range == m.range
            &&& m2.errors == m.errors
            &&& m2.error_count == m.error_count
            &&& m2.error_limit == m.error_limit
        }),
{
}

/// The items form a block of events: an overview line `os[i]` followed by
/// a title line, for each `i`.
pub open spec fn event_block(its: Seq<crate::reader::ItemView>, os: Seq<crate::events::OverviewView>) -> bool {
    &&& its.len() == 2 * os.len()
    &&& forall|i: int|
        0 <= i < os.len() ==> (#[trigger] its[2 * i]).parsed == Ok::<
            crate::grammar::LineView,
            crate::grammar::ParseErrorView,
        >(crate::grammar::LineView::EventOverview(os[i]))
    &&& forall|i: int| 0 <= i < os.len() ==> (#[trigger] its[2 * i + 1]).parsed is Ok
        && its[2 * i + 1].parsed->Ok_0 is EventLinks
}

/// The events are in the window and none sorts before the one before it
/// (nor the first before `prev`).
pub open spec fn well_ordered(
    os: Seq<crate::events::OverviewView>,
    prev: Option<crate::events::OverviewView>,
    a: crate::date::CalendarDate,
    b: crate::date::CalendarDate,
) -> bool {
    &&& forall|i: int| 0 <= i < os.len() ==> crate::linter::in_window(#[trigger] os[i].date, a, b)
    &&& forall|i: int|
        0 < i < os.len() ==> !crate::events::overview_lt(#[trigger] os[i], os[i - 1])
    &&& (os.len() > 0 && prev is Some) ==> !crate::events::overview_lt(os[0], prev->0)
}

/// A block of events that are in the window and in order passes the
/// linter without any error: the run over the block and what follows is
/// the run, from a state with the same errors, over what follows.
#[verifier::rlimit(60)]
pub proof fn lemma_ordered_block_passes(
    m: crate::linter::LinterView,
    its: Seq<crate::reader::ItemView>,
    os: Seq<crate::events::OverviewView>,
    rest: Seq<crate::reader::ItemView>,
    a: crate::date::CalendarDate,
    b: crate::date::CalendarDate,
)
    requires
        m.state == crate::linter::LinterState::ExpectingEventOverview,
        m.range == Some((a, b)),
        !crate::linter::exhausted(m),
        event_block(its, os),
        well_ordered(os, m.previous, a, b),
    ensures
        exists|m2: crate::linter::LinterView|
            {
                &&& crate::linter::lint_items(m, its + rest) == crate::linter::lint_items(m2, rest)
                &&& m2.state == crate::linter::LinterState::ExpectingEventOverview
                &&& m2.range == m.range
                &&& m2.errors == m.errors
                &&& m2.error_count == m.error_count
                &&& m2.error_limit == m.error_limit
                &&& m2.previous == if os.len() > 0 {
                    Some(os.last())
                } else {
                    m.previous
                }
            },
    decreases os.len(),
{
    if os.len() == 0 {
        assert(its + rest =~= rest);
        assert(crate::linter::lint_items(m, its + rest) == crate::linter::lint_items(m, rest));
        assert({
            &&& crate::linter::lint_items(m, its + rest) == crate::linter::lint_items(m, rest)
            &&& m.state == crate::linter::LinterState::ExpectingEventOverview
            &&& m.range == m.range
            &&& m.errors == m.errors
            &&& m.error_count == m.error_count
            &&& m.error_limit == m.error_limit
            &&& m.previous == if os.len() > 0 {
                Some(os.last())
            } else {
                m.previous
            }
        });
    } else {
        let i0 = its[0];
        let i1 = its[1];
        assert(its[2 * 0int] == i0);
        assert(its[2 * 0int + 1] == i1);
        lemma_step_ordered_overview(m, i0, os[0], a, b);
        let m1 = crate::linter::lint_line_spec(m, i0).0;
        lemma_step_title(m1, i1);
        let m1b = crate::linter::lint_line_spec(m1, i1).0;
        let its2 = its.subrange(2, its.len() as int);
        let os2 = os.drop_first();
        assert(event_block(its2, os2)) by {
            assert forall|i: int| 0 <= i < os2.len() implies (#[trigger] its2[2 * i]).parsed == Ok::<
                crate::grammar::LineView,
                crate::grammar::ParseErrorView,
            >(crate::grammar::LineView::EventOverview(os2[i])) by {
                assert(its2[2 * i] == its[2 * (i + 1)]);
                assert(os2[i] == os[i + 1]);
            }
            assert forall|i: int| 0 <= i < os2.len() implies (#[trigger] its2[2 * i + 1]).parsed is Ok
                && its2[2 * i + 1].parsed->Ok_0 is EventLinks by {
                assert(its2[2 * i + 1] == its[2 * (i + 1) + 1]);
            }
        }
        assert(well_ordered(os2, m1b.previous, a, b)) by {
            assert forall|i: int| 0 <= i < os2.len() implies crate::linter::in_window(
                #[trigger] os2[i].date,
                a,
                b,
            ) by {
                assert(os2[i] == os[i + 1]);
            }
            assert forall|i: int| 0 < i < os2.len() implies !crate::events::overview_lt(
                #[trigger] os2[i],
                os2[i - 1],
            ) by {
                assert(os2[i] == os[i + 1]);
                assert(os2[i - 1] == os[i]);
            }
            if os2.len() > 0 {
                assert(os2[0] == os[1]);
                assert(!crate::events::overview_lt(os[1], os[0]));
            }
        }
        lemma_ordered_block_passes(m1b, its2, os2, rest, a, b);
        let m2 = choose|m2: crate::linter::LinterView|
            {
                &&& crate::linter::lint_items(m1b, its2 + rest) == crate::linter::lint_items(m2, rest)
                &&& m2.state == crate::linter::LinterState::ExpectingEventOverview
                &&& m2.range == m1b.range
                &&& m2.errors == m1b.errors
                &&& m2.error_count == m1b.error_count
                &&& m2.error_limit == m1b.error_limit
                &&& m2.previous == if os2.len() > 0 {
                    Some(os2.last())
                } else {
                    m1b.previous
                }
            };
        assert(m1b.previous == Some(os[0]));
        if os2.len() > 0 {
            assert(os2.last() == os.last());
        }
        let all = its + rest;
        assert(all[0] == i0);
        assert(all.drop_first()[0] == i1);
        assert(all.drop_first().drop_first() =~= its2 + rest);
        assert(crate::linter::lint_items(m1, all.drop_first()) == crate::linter::lint_items(
            m1b,
            all.drop_first().drop_first(),
        ));
        assert(crate::linter::lint_items(m, all) == crate::linter::lint_items(m1, all.drop_first()));
        assert(crate::linter::lint_items(m, its + rest) == crate::linter::lint_items(m2, rest));
        assert({
            &&& crate::linter::lint_items(m, its + rest) == crate::linter::lint_items(m2, rest)
            &&& m2.state == crate::linter::LinterState::ExpectingEventOverview
            &&& m2.range == m.range
            &&& m2.errors == m.errors
            &&& m2.error_count == m.error_count
            &&& m2.error_limit == m.error_limit
            &&& m2.previous == if os.len() > 0 {
                Some(os.last())
            } else {
                m.previous
            }
        });
    }
}

} // verus!

verus! {

use crate::events::{OverviewView, Region};
use crate::grammar::{LineView, ParseErrorView};
use crate::linter::{
    exhausted, initial_view, lint_items, lint_line_spec, LintErrorView, LinterState, LinterView,
};
use crate::reader::ItemView;

pub open spec fn is_line(it: ItemView, lv: LineView) -> bool {
    it.parsed == Ok::<LineView, ParseErrorView>(lv)
}

/// A region block: its header, a block of events, and the blank line that
/// closes it.
pub open spec fn region_block(its: Seq<ItemView>, r: Region, os: Seq<OverviewView>) -> bool {
    &&& its.len() == 2 * os.len() + 2
    &&& is_line(its[0], LineView::RegionHeader(r))
    &&& event_block(its.subrange(1, its.len() - 1), os)
    &&& is_line(its[its.len() - 1], LineView::Newline)
}

/// The block is a region block whose events are in the window `[a, b]`
/// and in order.
pub open spec fn good_block(its: Seq<ItemView>, a: crate::date::CalendarDate, b: crate::date::CalendarDate) -> bool {
    exists|r: Region, os: Seq<OverviewView>| region_block(its, r, os) && well_ordered(os, None, a, b)
}

/// The blocks one after another.
pub open spec fn flatten(bs: Seq<Seq<ItemView>>) -> Seq<ItemView>
    decreases bs.len(),
{
    if bs.len() == 0 {
        Seq::empty()
    } else {
        bs[0] + flatten(bs.drop_first())
    }
}

/// The linter states agree on what a run reports.
pub open spec fn same_record(m: LinterView, m2: LinterView) -> bool {
    &&& m2.range == m.range
    &&& m2.errors == m.errors
    &&& m2.error_count == m.error_count
    &&& m2.error_limit == m.error_limit
}

proof fn lemma_newlines_pass(m: LinterView, nls: Seq<ItemView>, rest: Seq<ItemView>)
    requires
        m.state == LinterState::ExpectingDateRange || m.state == LinterState::ExpectingRegionHeader,
        !exhausted(m),
        forall|i: int| 0 <= i < nls.len() ==> is_line(#[trigger] nls[i], LineView::Newline),
    ensures
        lint_items(m, nls + rest) == lint_items(m, rest),
    decreases nls.len(),
{
    if nls.len() > 0 {
        assert(is_line(nls[0], LineView::Newline));
        assert((nls + rest)[0] == nls[0]);
        assert((nls + rest).drop_first() =~= nls.drop_first() + rest);
        assert forall|i: int| 0 <= i < nls.drop_first().len() implies is_line(
            #[trigger] nls.drop_first()[i],
            LineView::Newline,
        ) by {
            assert(nls.drop_first()[i] == nls[i + 1]);
        }
        lemma_newlines_pass(m, nls.drop_first(), rest);
    } else {
        assert(nls + rest =~= rest);
    }
}

/// A region block whose events are in the window and in order passes the
/// linter without any error, from the region-header state back to it.
#[verifier::rlimit(60)]
proof fn lemma_region_block_passes(
    m: LinterView,
    its: Seq<ItemView>,
    r: Region,
    os: Seq<OverviewView>,
    rest: Seq<ItemView>,
    a: crate::date::CalendarDate,
    b: crate::date::CalendarDate,
)
    requires
        m.state == LinterState::ExpectingRegionHeader,
        m.range == Some((a, b)),
        m.previous is None,
        !exhausted(m),
        region_block(its, r, os),
        well_ordered(os, None, a, b),
    ensures
        exists|m2: LinterView|
            {
                &&& lint_items(m, its + rest) == lint_items(m2, rest)
                &&& m2.state == LinterState::ExpectingRegionHeader
                &&& m2.previous is None
                &&& same_record(m, m2)
            },
{
    let inner = its.subrange(1, its.len() - 1);
    let nl = its[its.len() - 1];
    let m1 = lint_line_spec(m, its[0]).0;
    assert(lint_line_spec(m, its[0]).1 is Ok);
    let tail = seq![nl] + rest;
    lemma_ordered_block_passes(m1, inner, os, tail, a, b);
    let m3 = choose|m3: LinterView|
        {
            &&& lint_items(m1, inner + tail) == lint_items(m3, tail)
            &&& m3.state == LinterState::ExpectingEventOverview
            &&& m3.range == m1.range
            &&& m3.errors == m1.errors
            &&& m3.error_count == m1.error_count
            &&& m3.error_limit == m1.error_limit
        };
    let m2 = lint_line_spec(m3, nl).0;
    assert(lint_line_spec(m3, nl).1 is Ok);
    assert(tail[0] == nl);
    assert(tail.drop_first() =~= rest);
    assert(lint_items(m3, tail) == lint_items(m2, rest));
    let all = its + rest;
    assert(all[0] == its[0]);
    assert(all.drop_first() =~= inner + tail);
    assert(lint_items(m, all) == lint_items(m1, all.drop_first()));
    assert({
        &&& lint_items(m, its + rest) == lint_items(m2, rest)
        &&& m2.state == LinterState::ExpectingRegionHeader
        &&& m2.previous is None
        &&& same_record(m, m2)
    });
}

proof fn lemma_blocks_pass(
    m: LinterView,
    bs: Seq<Seq<ItemView>>,
    rest: Seq<ItemView>,
    a: crate::date::CalendarDate,
    b: crate::date::CalendarDate,
)
    requires
        m.state == LinterState::ExpectingRegionHeader,
        m.range == Some((a, b)),
        m.previous is None,
        !exhausted(m),
        forall|i: int| 0 <= i < bs.len() ==> good_block(#[trigger] bs[i], a, b),
    ensures
        exists|m2: LinterView|
            {
                &&& lint_items(m, flatten(bs) + rest) == lint_items(m2, rest)
                &&& m2.state == LinterState::ExpectingRegionHeader
                &&& m2.previous is None
                &&& same_record(m, m2)
            },
    decreases bs.len(),
{
    if bs.len() == 0 {
        assert(flatten(bs) + rest =~= rest);
        assert({
            &&& lint_items(m, flatten(bs) + rest) == lint_items(m, rest)
            &&& m.state == LinterState::ExpectingRegionHeader
            &&& m.previous is None
            &&& same_record(m, m)
        });
    } else {
        assert(good_block(bs[0], a, b));
        let (r, os) = choose|r: Region, os: Seq<OverviewView>|
            region_block(bs[0], r, os) && well_ordered(os, None, a, b);
        let tail = flatten(bs.drop_first()) + rest;
        lemma_region_block_passes(m, bs[0], r, os, tail, a, b);
        let m1 = choose|m1: LinterView|
            {
                &&& lint_items(m, bs[0] + tail) == lint_items(m1, tail)
                &&& m1.state == LinterState::ExpectingRegionHeader
                &&& m1.previous is None
                &&& same_record(m, m1)
            };
        assert forall|i: int| 0 <= i < bs.drop_first().len() implies good_block(
            #[trigger] bs.drop_first()[i],
            a,
            b,
        ) by {
            assert(bs.drop_first()[i] == bs[i + 1]);
        }
        lemma_blocks_pass(m1, bs.drop_first(), rest, a, b);
        let m2 = choose|m2: LinterView|
            {
                &&& lint_items(m1, flatten(bs.drop_first()) + rest) == lint_items(m2, rest)
                &&& m2.state == LinterState::ExpectingRegionHeader
                &&& m2.previous is None
                &&& same_record(m1, m2)
            };
        assert(flatten(bs) + rest =~= bs[0] + tail);
        assert({
            &&& lint_items(m, flatten(bs) + rest) == lint_items(m2, rest)
            &&& m2.state == LinterState::ExpectingRegionHeader
            &&& m2.previous is None
            &&& same_record(m, m2)
        });
    }
}

/// A section whose region blocks hold only events in the window and in
/// order passes the linter: the run over its start line, blank lines, date
/// range line, blank lines, region blocks and end line succeeds, whatever
/// the error limit.
#[verifier::rlimit(60)]
pub proof fn lemma_ordered_section_passes(
    limit: int,
    start: ItemView,
    nls1: Seq<ItemView>,
    range: ItemView,
    nls2: Seq<ItemView>,
    bs: Seq<Seq<ItemView>>,
    end: ItemView,
    a: crate::date::CalendarDate,
    b: crate::date::CalendarDate,
)
    requires
        is_line(start, LineView::StartEventSection),
        forall|i: int| 0 <= i < nls1.len() ==> is_line(#[trigger] nls1[i], LineView::Newline),
        is_line(range, LineView::EventsDateRange { start: a, end: b }),
        forall|i: int| 0 <= i < nls2.len() ==> is_line(#[trigger] nls2[i], LineView::Newline),
        forall|i: int| 0 <= i < bs.len() ==> good_block(#[trigger] bs[i], a, b),
        is_line(end, LineView::EndEventSection),
    ensures
        lint_items(
            initial_view(limit),
            seq![start] + nls1 + seq![range] + nls2 + flatten(bs) + seq![end],
        ).1 == Ok::<(), LintErrorView>(()),
{
    let m0 = initial_view(limit);
    let doc = seq![start] + nls1 + seq![range] + nls2 + flatten(bs) + seq![end];
    let m1 = lint_line_spec(m0, start).0;
    assert(lint_line_spec(m0, start).1 is Ok);
    assert(m1.state == LinterState::ExpectingDateRange);
    let after_start = nls1 + seq![range] + nls2 + flatten(bs) + seq![end];
    assert(doc[0] == start);
    assert(doc.drop_first() =~= after_start);
    assert(lint_items(m0, doc) == lint_items(m1, after_start));
    let r1 = seq![range] + nls2 + flatten(bs) + seq![end];
    assert(after_start =~= nls1 + r1);
    lemma_newlines_pass(m1, nls1, r1);
    let m2 = lint_line_spec(m1, range).0;
    assert(lint_line_spec(m1, range).1 is Ok);
    assert(m2.state == LinterState::ExpectingRegionHeader);
    let r2 = nls2 + flatten(bs) + seq![end];
    assert(r1[0] == range);
    assert(r1.drop_first() =~= r2);
    assert(lint_items(m1, r1) == lint_items(m2, r2));
    let r3 = flatten(bs) + seq![end];
    assert(r2 =~= nls2 + r3);
    lemma_newlines_pass(m2, nls2, r3);
    lemma_blocks_pass(m2, bs, seq![end], a, b);
    let m3 = choose|m3: LinterView|
        {
            &&& lint_items(m2, flatten(bs) + seq![end]) == lint_items(m3, seq![end])
            &&& m3.state == LinterState::ExpectingRegionHeader
            &&& m3.previous is None
            &&& same_record(m2, m3)
        };
    let m4 = lint_line_spec(m3, end).0;
    assert(lint_line_spec(m3, end).1 is Ok);
    assert(m4.state == LinterState::Done);
    assert(seq![end].drop_first() =~= Seq::<ItemView>::empty());
    assert(lint_items(m3, seq![end]) == lint_items(m4, Seq::<ItemView>::empty()));
}

} // verus!

verus! {

/// A region block with one event out of order: header, an ordered block
/// `os1`, the event `x` (overview `o`, sorting before the last of `os1`)
/// with its title line `y`, an ordered block `os2` that does not sort
/// before the last of `os1`, and the closing blank line.
pub open spec fn swapped_block(
    its: Seq<ItemView>,
    b1: Seq<ItemView>,
    os1: Seq<OverviewView>,
    x: ItemView,
    o: OverviewView,
    y: ItemView,
    b2: Seq<ItemView>,
    os2: Seq<OverviewView>,
    a: crate::date::CalendarDate,
    b: crate::date::CalendarDate,
) -> bool {
    &&& its.len() > 0
    &&& its == seq![its[0]] + b1 + seq![x, y] + b2 + seq![its[its.len() - 1]]
    &&& its[0].parsed is Ok && its[0].parsed->Ok_0 is RegionHeader
    &&& is_line(its[its.len() - 1], LineView::Newline)
    &&& event_block(b1, os1)
    &&& os1.len() > 0
    &&& well_ordered(os1, None, a, b)
    &&& is_line(x, LineView::EventOverview(o))
    &&& crate::linter::in_window(o.date, a, b)
    &&& crate::events::overview_lt(o, os1.last())
    &&& y.parsed is Ok && y.parsed->Ok_0 is EventLinks
    &&& event_block(b2, os2)
    &&& well_ordered(os2, Some(os1.last()), a, b)
}

pub open spec fn out_of_order_error(x: ItemView, o: OverviewView, p: OverviewView) -> LintErrorView {
    LintErrorView::EventOutOfOrder { num: x.num, raw: x.raw, event: o, previous: p }
}

/// A blank line in the overview state closes the region.
proof fn lemma_step_newline(m: LinterView, nl: ItemView)
    requires
        m.state == LinterState::ExpectingEventOverview,
        !exhausted(m),
        is_line(nl, LineView::Newline),
    ensures
        lint_line_spec(m, nl).1 is Ok,
        lint_line_spec(m, nl).0.state == LinterState::ExpectingRegionHeader,
        lint_line_spec(m, nl).0.previous is None,
        same_record(m, lint_line_spec(m, nl).0),
{
}

#[verifier::rlimit(60)]
proof fn lemma_swap_core(
    m3: LinterView,
    x: ItemView,
    o: OverviewView,
    y: ItemView,
    b2: Seq<ItemView>,
    os2: Seq<OverviewView>,
    nl: ItemView,
    rest: Seq<ItemView>,
    a: crate::date::CalendarDate,
    b: crate::date::CalendarDate,
    p: OverviewView,
)
    requires
        m3.state == LinterState::ExpectingEventOverview,
        m3.range == Some((a, b)),
        m3.previous == Some(p),
        m3.error_count + 1 < m3.error_limit,
        m3.error_count >= 0,
        is_line(x, LineView::EventOverview(o)),
        crate::linter::in_window(o.date, a, b),
        crate::events::overview_lt(o, p),
        y.parsed is Ok && y.parsed->Ok_0 is EventLinks,
        event_block(b2, os2),
        well_ordered(os2, Some(p), a, b),
        is_line(nl, LineView::Newline),
    ensures
        exists|m2: LinterView|
            {
                &&& lint_items(m3, seq![x, y] + b2 + seq![nl] + rest) == lint_items(m2, rest)
                &&& m2.state == LinterState::ExpectingRegionHeader
                &&& m2.previous is None
                &&& m2.range == m3.range
                &&& m2.errors == m3.errors.push(out_of_order_error(x, o, p))
                &&& m2.error_count == m3.error_count + 1
                &&& m2.error_limit == m3.error_limit
            },
{
    lemma_out_of_order_event(m3, x, o, a, b, p);
    let m4 = lint_line_spec(m3, x).0;
    assert(!exhausted(m4));
    assert(lint_line_spec(m3, x).1 is Ok);
    lemma_step_title(m4, y);
    let m5 = lint_line_spec(m4, y).0;
    assert(lint_line_spec(m4, y).1 is Ok);
    let t2 = seq![nl] + rest;
    lemma_ordered_block_passes(m5, b2, os2, t2, a, b);
    let m6 = choose|m6: LinterView|
        {
            &&& lint_items(m5, b2 + t2) == lint_items(m6, t2)
            &&& m6.state == LinterState::ExpectingEventOverview
            &&& m6.range == m5.range
            &&& m6.errors == m5.errors
            &&& m6.error_count == m5.error_count
            &&& m6.error_limit == m5.error_limit
            &&& m6.previous == if os2.len() > 0 {
                Some(os2.last())
            } else {
                m5.previous
            }
        };
    lemma_step_newline(m6, nl);
    let m2 = lint_line_spec(m6, nl).0;
    assert(lint_line_spec(m6, nl).1 is Ok);
    assert(t2[0] == nl);
    assert(t2.drop_first() =~= rest);
    assert(lint_items(m6, t2) == lint_items(m2, rest));
    let t1 = seq![x, y] + b2 + seq![nl] + rest;
    assert(t1[0] == x);
    assert(t1.drop_first()[0] == y);
    assert(t1.drop_first().drop_first() =~= b2 + t2);
    assert(lint_items(m4, t1.drop_first()) == lint_items(m5, b2 + t2));
    assert(lint_items(m3, t1) == lint_items(m4, t1.drop_first()));
    assert({
        &&& lint_items(m3, seq![x, y] + b2 + seq![nl] + rest) == lint_items(m2, rest)
        &&& m2.state == LinterState::ExpectingRegionHeader
        &&& m2.previous is None
        &&& m2.range == m3.range
        &&& m2.errors == m3.errors.push(out_of_order_error(x, o, p))
        &&& m2.error_count == m3.error_count + 1
        &&& m2.error_limit == m3.error_limit
    });
}

#[verifier::rlimit(60)]
proof fn lemma_swapped_block_one_error(
    m: LinterView,
    its: Seq<ItemView>,
    b1: Seq<ItemView>,
    os1: Seq<OverviewView>,
    x: ItemView,
    o: OverviewView,
    y: ItemView,
    b2: Seq<ItemView>,
    os2: Seq<OverviewView>,
    rest: Seq<ItemView>,
    a: crate::date::CalendarDate,
    b: crate::date::CalendarDate,
)
    requires
        m.state == LinterState::ExpectingRegionHeader,
        m.range == Some((a, b)),
        m.previous is None,
        m.error_count + 1 < m.error_limit,
        m.error_count >= 0,
        swapped_block(its, b1, os1, x, o, y, b2, os2, a, b),
    ensures
        exists|m2: LinterView|
            {
                &&& lint_items(m, its + rest) == lint_items(m2, rest)
                &&& m2.state == LinterState::ExpectingRegionHeader
                &&& m2.previous is None
                &&& m2.range == m.range
                &&& m2.errors == m.errors.push(out_of_order_error(x, o, os1.last()))
                &&& m2.error_count == m.error_count + 1
                &&& m2.error_limit == m.error_limit
            },
{
    let hdr = its[0];
    let nl = its[its.len() - 1];
    let p = os1.last();
    let m1 = lint_line_spec(m, hdr).0;
    assert(lint_line_spec(m, hdr).1 is Ok);
    let t1 = seq![x, y] + b2 + seq![nl] + rest;
    lemma_ordered_block_passes(m1, b1, os1, t1, a, b);
    let m3 = choose|m3: LinterView|
        {
            &&& lint_items(m1, b1 + t1) == lint_items(m3, t1)
            &&& m3.state == LinterState::ExpectingEventOverview
            &&& m3.range == m1.range
            &&& m3.errors == m1.errors
            &&& m3.error_count == m1.error_count
            &&& m3.error_limit == m1.error_limit
            &&& m3.previous == if os1.len() > 0 {
                Some(os1.last())
            } else {
                m1.previous
            }
        };
    lemma_swap_core(m3, x, o, y, b2, os2, nl, rest, a, b, p);
    let all = its + rest;
    assert(all =~= seq![hdr] + (b1 + t1));
    assert(all[0] == hdr);
    assert(all.drop_first() =~= b1 + t1);
    assert(lint_items(m, all) == lint_items(m1, all.drop_first()));
}

/// A section like the one of [`lemma_ordered_section_passes`] in which one
/// region block holds one event out of order fails the linter with exactly
/// one error, that `EventOutOfOrder` (when the error limit is above one).
#[verifier::rlimit(60)]
pub proof fn lemma_one_swap_one_error(
    limit: int,
    start: ItemView,
    range: ItemView,
    bs1: Seq<Seq<ItemView>>,
    its: Seq<ItemView>,
    b1: Seq<ItemView>,
    os1: Seq<OverviewView>,
    x: ItemView,
    o: OverviewView,
    y: ItemView,
    b2: Seq<ItemView>,
    os2: Seq<OverviewView>,
    bs2: Seq<Seq<ItemView>>,
    end: ItemView,
    a: crate::date::CalendarDate,
    b: crate::date::CalendarDate,
)
    requires
        limit > 1,
        is_line(start, LineView::StartEventSection),
        is_line(range, LineView::EventsDateRange { start: a, end: b }),
        forall|i: int| 0 <= i < bs1.len() ==> good_block(#[trigger] bs1[i], a, b),
        swapped_block(its, b1, os1, x, o, y, b2, os2, a, b),
        forall|i: int| 0 <= i < bs2.len() ==> good_block(#[trigger] bs2[i], a, b),
        is_line(end, LineView::EndEventSection),
    ensures
        ({
            let (m, r) = lint_items(
                initial_view(limit),
                seq![start, range] + flatten(bs1) + its + flatten(bs2) + seq![end],
            );
            &&& r == Err::<(), LintErrorView>(LintErrorView::LintFailed)
            &&& m.errors == seq![out_of_order_error(x, o, os1.last())]
        }),
{
    let m0 = initial_view(limit);
    let doc = seq![start, range] + flatten(bs1) + its + flatten(bs2) + seq![end];
    let m1 = lint_line_spec(m0, start).0;
    assert(lint_line_spec(m0, start).1 is Ok);
    let m2 = lint_line_spec(m1, range).0;
    assert(lint_line_spec(m1, range).1 is Ok);
    let r2 = flatten(bs1) + (its + (flatten(bs2) + seq![end]));
    assert(doc[0] == start);
    assert(doc.drop_first()[0] == range);
    assert(doc.drop_first().drop_first() =~= r2);
    assert(lint_items(m1, doc.drop_first()) == lint_items(m2, r2));
    assert(lint_items(m0, doc) == lint_items(m1, doc.drop_first()));
    lemma_blocks_pass(m2, bs1, its + (flatten(bs2) + seq![end]), a, b);
    let m3 = choose|m3: LinterView|
        {
            &&& lint_items(m2, flatten(bs1) + (its + (flatten(bs2) + seq![end]))) == lint_items(
                m3,
                its + (flatten(bs2) + seq![end]),
            )
            &&& m3.state == LinterState::ExpectingRegionHeader
            &&& m3.previous is None
            &&& same_record(m2, m3)
        };
    lemma_swapped_block_one_error(m3, its, b1, os1, x, o, y, b2, os2, flatten(bs2) + seq![end], a, b);
    let m4 = choose|m4: LinterView|
        {
            &&& lint_items(m3, its + (flatten(bs2) + seq![end])) == lint_items(
                m4,
                flatten(bs2) + seq![end],
            )
            &&& m4.state == LinterState::ExpectingRegionHeader
            &&& m4.previous is None
            &&& m4.range == m3.range
            &&& m4.errors == m3.errors.push(out_of_order_error(x, o, os1.last()))
            &&& m4.error_count == m3.error_count + 1
            &&& m4.error_limit == m3.error_limit
        };
    lemma_blocks_pass(m4, bs2, seq![end], a, b);
    let m5 = choose|m5: LinterView|
        {
            &&& lint_items(m4, flatten(bs2) + seq![end]) == lint_items(m5, seq![end])
            &&& m5.state == LinterState::ExpectingRegionHeader
            &&& m5.previous is None
            &&& same_record(m4, m5)
        };
    let m6 = lint_line_spec(m5, end).0;
    assert(lint_line_spec(m5, end).1 is Ok);
    assert(seq![end].drop_first() =~= Seq::<ItemView>::empty());
    assert(lint_items(m5, seq![end]) == lint_items(m6, Seq::<ItemView>::empty()));
    assert(m3.errors =~= Seq::<LintErrorView>::empty());
    assert(m4.errors =~= seq![out_of_order_error(x, o, os1.last())]);
}

} // verus!

verus! {

/// The reference event once the ordered block `os` has been read from a
/// region's start.
pub open spec fn last_of(os: Seq<OverviewView>) -> Option<OverviewView> {
    if os.len() > 0 {
        Some(os.last())
    } else {
        None
    }
}

/// A region block with one event dated outside the window `[a, b]`:
/// header, an ordered block `os1`, the event `x` (overview `o`) with its
/// title line `y`, an ordered block `os2` that does not sort before the
/// last of `os1`, and the closing blank line.
pub open spec fn stray_block(
    its: Seq<ItemView>,
    b1: Seq<ItemView>,
    os1: Seq<OverviewView>,
    x: ItemView,
    o: OverviewView,
    y: ItemView,
    b2: Seq<ItemView>,
    os2: Seq<OverviewView>,
    a: crate::date::CalendarDate,
    b: crate::date::CalendarDate,
) -> bool {
    &&& its.len() > 0
    &&& its == seq![its[0]] + b1 + seq![x, y] + b2 + seq![its[its.len() - 1]]
    &&& its[0].parsed is Ok && its[0].parsed->Ok_0 is RegionHeader
    &&& is_line(its[its.len() - 1], LineView::Newline)
    &&& event_block(b1, os1)
    &&& well_ordered(os1, None, a, b)
    &&& is_line(x, LineView::EventOverview(o))
    &&& !crate::linter::in_window(o.date, a, b)
    &&& y.parsed is Ok && y.parsed->Ok_0 is EventLinks
    &&& event_block(b2, os2)
    &&& well_ordered(os2, last_of(os1), a, b)
}

pub open spec fn out_of_window_error(
    x: ItemView,
    o: OverviewView,
    a: crate::date::CalendarDate,
    b: crate::date::CalendarDate,
) -> LintErrorView {
    LintErrorView::EventOutOfDateRange { num: x.num, raw: x.raw, event_date: o.date, start: a, end: b }
}

#[verifier::rlimit(60)]
proof fn lemma_stray_core(
    m3: LinterView,
    x: ItemView,
    o: OverviewView,
    y: ItemView,
    b2: Seq<ItemView>,
    os2: Seq<OverviewView>,
    nl: ItemView,
    rest: Seq<ItemView>,
    a: crate::date::CalendarDate,
    b: crate::date::CalendarDate,
)
    requires
        m3.state == LinterState::ExpectingEventOverview,
        m3.range == Some((a, b)),
        m3.error_count + 1 < m3.error_limit,
        m3.error_count >= 0,
        is_line(x, LineView::EventOverview(o)),
        !crate::linter::in_window(o.date, a, b),
        y.parsed is Ok && y.parsed->Ok_0 is EventLinks,
        event_block(b2, os2),
        well_ordered(os2, m3.previous, a, b),
        is_line(nl, LineView::Newline),
    ensures
        exists|m2: LinterView|
            {
                &&& lint_items(m3, seq![x, y] + b2 + seq![nl] + rest) == lint_items(m2, rest)
                &&& m2.state == LinterState::ExpectingRegionHeader
                &&& m2.previous is None
                &&& m2.range == m3.range
                &&& m2.errors == m3.errors.push(out_of_window_error(x, o, a, b))
                &&& m2.error_count == m3.error_count + 1
                &&& m2.error_limit == m3.error_limit
            },
{
    lemma_out_of_window_event(m3, x, o, a, b);
    let m4 = lint_line_spec(m3, x).0;
    assert(!exhausted(m4));
    assert(lint_line_spec(m3, x).1 is Ok);
    lemma_step_title(m4, y);
    let m5 = lint_line_spec(m4, y).0;
    assert(lint_line_spec(m4, y).1 is Ok);
    let t2 = seq![nl] + rest;
    lemma_ordered_block_passes(m5, b2, os2, t2, a, b);
    let m6 = choose|m6: LinterView|
        {
            &&& lint_items(m5, b2 + t2) == lint_items(m6, t2)
            &&& m6.state == LinterState::ExpectingEventOverview
            &&& m6.range == m5.range
            &&& m6.errors == m5.errors
            &&& m6.error_count == m5.error_count
            &&& m6.error_limit == m5.error_limit
            &&& m6.previous == if os2.len() > 0 {
                Some(os2.last())
            } else {
                m5.previous
            }
        };
    lemma_step_newline(m6, nl);
    let m2 = lint_line_spec(m6, nl).0;
    assert(lint_line_spec(m6, nl).1 is Ok);
    assert(t2[0] == nl);
    assert(t2.drop_first() =~= rest);
    assert(lint_items(m6, t2) == lint_items(m2, rest));
    let t1 = seq![x, y] + b2 + seq![nl] + rest;
    assert(t1[0] == x);
    assert(t1.drop_first()[0] == y);
    assert(t1.drop_first().drop_first() =~= b2 + t2);
    assert(lint_items(m4, t1.drop_first()) == lint_items(m5, b2 + t2));
    assert(lint_items(m3, t1) == lint_items(m4, t1.drop_first()));
    assert({
        &&& lint_items(m3, seq![x, y] + b2 + seq![nl] + rest) == lint_items(m2, rest)
        &&& m2.state == LinterState::ExpectingRegionHeader
        &&& m2.previous is None
        &&& m2.range == m3.range
        &&& m2.errors == m3.errors.push(out_of_window_error(x, o, a, b))
        &&& m2.error_count == m3.error_count + 1
        &&& m2.error_limit == m3.error_limit
    });
}

#[verifier::rlimit(60)]
proof fn lemma_stray_block_one_error(
    m: LinterView,
    its: Seq<ItemView>,
    b1: Seq<ItemView>,
    os1: Seq<OverviewView>,
    x: ItemView,
    o: OverviewView,
    y: ItemView,
    b2: Seq<ItemView>,
    os2: Seq<OverviewView>,
    rest: Seq<ItemView>,
    a: crate::date::CalendarDate,
    b: crate::date::CalendarDate,
)
    requires
        m.state == LinterState::ExpectingRegionHeader,
        m.range == Some((a, b)),
        m.previous is None,
        m.error_count + 1 < m.error_limit,
        m.error_count >= 0,
        stray_block(its, b1, os1, x, o, y, b2, os2, a, b),
    ensures
        exists|m2: LinterView|
            {
                &&& lint_items(m, its + rest) == lint_items(m2, rest)
                &&& m2.state == LinterState::ExpectingRegionHeader
                &&& m2.previous is None
                &&& m2.range == m.range
                &&& m2.errors == m.errors.push(out_of_window_error(x, o, a, b))
                &&& m2.error_count == m.error_count + 1
                &&& m2.error_limit == m.error_limit
            },
{
    let hdr = its[0];
    let nl = its[its.len() - 1];
    let m1 = lint_line_spec(m, hdr).0;
    assert(lint_line_spec(m, hdr).1 is Ok);
    let t1 = seq![x, y] + b2 + seq![nl] + rest;
    lemma_ordered_block_passes(m1, b1, os1, t1, a, b);
    let m3 = choose|m3: LinterView|
        {
            &&& lint_items(m1, b1 + t1) == lint_items(m3, t1)
            &&& m3.state == LinterState::ExpectingEventOverview
            &&& m3.range == m1.range
            &&& m3.errors == m1.errors
            &&& m3.error_count == m1.error_count
            &&& m3.error_limit == m1.error_limit
            &&& m3.previous == if os1.len() > 0 {
                Some(os1.last())
            } else {
                m1.previous
            }
        };
    assert(m3.previous == last_of(os1));
    lemma_stray_core(m3, x, o, y, b2, os2, nl, rest, a, b);
    let all = its + rest;
    assert(all =~= seq![hdr] + (b1 + t1));
    assert(all[0] == hdr);
    assert(all.drop_first() =~= b1 + t1);
    assert(lint_items(m, all) == lint_items(m1, all.drop_first()));
}

/// A section like the one of [`lemma_ordered_section_passes`] in which one
/// region block holds one event dated outside the window fails the linter
/// with exactly one error, that `EventOutOfDateRange` (when the error limit
/// is above one).
#[verifier::rlimit(60)]
pub proof fn lemma_one_stray_one_error(
    limit: int,
    start: ItemView,
    range: ItemView,
    bs1: Seq<Seq<ItemView>>,
    its: Seq<ItemView>,
    b1: Seq<ItemView>,
    os1: Seq<OverviewView>,
    x: ItemView,
    o: OverviewView,
    y: ItemView,
    b2: Seq<ItemView>,
    os2: Seq<OverviewView>,
    bs2: Seq<Seq<ItemView>>,
    end: ItemView,
    a: crate::date::CalendarDate,
    b: crate::date::CalendarDate,
)
    requires
        limit > 1,
        is_line(start, LineView::StartEventSection),
        is_line(range, LineView::EventsDateRange { start: a, end: b }),
        forall|i: int| 0 <= i < bs1.len() ==> good_block(#[trigger] bs1[i], a, b),
        stray_block(its, b1, os1, x, o, y, b2, os2, a, b),
        forall|i: int| 0 <= i < bs2.len() ==> good_block(#[trigger] bs2[i], a, b),
        is_line(end, LineView::EndEventSection),
    ensures
        ({
            let (m, r) = lint_items(
                initial_view(limit),
                seq![start, range] + flatten(bs1) + its + flatten(bs2) + seq![end],
            );
            &&& r == Err::<(), LintErrorView>(LintErrorView::LintFailed)
            &&& m.errors == seq![out_of_window_error(x, o, a, b)]
        }),
{
    let m0 = initial_view(limit);
    let doc = seq![start, range] + flatten(bs1) + its + flatten(bs2) + seq![end];
    let m1 = lint_line_spec(m0, start).0;
    assert(lint_line_spec(m0, start).1 is Ok);
    let m2 = lint_line_spec(m1, range).0;
    assert(lint_line_spec(m1, range).1 is Ok);
    let r2 = flatten(bs1) + (its + (flatten(bs2) + seq![end]));
    assert(doc[0] == start);
    assert(doc.drop_first()[0] == range);
    assert(doc.drop_first().drop_first() =~= r2);
    assert(lint_items(m1, doc.drop_first()) == lint_items(m2, r2));
    assert(lint_items(m0, doc) == lint_items(m1, doc.drop_first()));
    lemma_blocks_pass(m2, bs1, its + (flatten(bs2) + seq![end]), a, b);
    let m3 = choose|m3: LinterView|
        {
            &&& lint_items(m2, flatten(bs1) + (its + (flatten(bs2) + seq![end]))) == lint_items(
                m3,
                its + (flatten(bs2) + seq![end]),
            )
            &&& m3.state == LinterState::ExpectingRegionHeader
            &&& m3.previous is None
            &&& same_record(m2, m3)
        };
    lemma_stray_block_one_error(m3, its, b1, os1, x, o, y, b2, os2, flatten(bs2) + seq![end], a, b);
    let m4 = choose|m4: LinterView|
        {
            &&& lint_items(m3, its + (flatten(bs2) + seq![end])) == lint_items(
                m4,
                flatten(bs2) + seq![end],
            )
            &&& m4.state == LinterState::ExpectingRegionHeader
            &&& m4.previous is None
            &&& m4.range == m3.range
            &&& m4.errors == m3.errors.push(out_of_window_error(x, o, a, b))
            &&& m4.error_count == m3.error_count + 1
            &&& m4.error_limit == m3.error_limit
        };
    lemma_blocks_pass(m4, bs2, seq![end], a, b);
    let m5 = choose|m5: LinterView|
        {
            &&& lint_items(m4, flatten(bs2) + seq![end]) == lint_items(m5, seq![end])
            &&& m5.state == LinterState::ExpectingRegionHeader
            &&& m5.previous is None
            &&& same_record(m4, m5)
        };
    let m6 = lint_line_spec(m5, end).0;
    assert(lint_line_spec(m5, end).1 is Ok);
    assert(seq![end].drop_first() =~= Seq::<ItemView>::empty());
    assert(lint_items(m5, seq![end]) == lint_items(m6, Seq::<ItemView>::empty()));
    assert(m3.errors =~= Seq::<LintErrorView>::empty());
    assert(m4.errors =~= seq![out_of_window_error(x, o, a, b)]);
}

} // verus!
