//! Laws of the line grammar: rendered lines read back as what was
//! rendered, and the errors that title links meet.
use vstd::prelude::*;

use crate::events::{is_link_text_free, render_link, render_links, LinkView};
use crate::grammar::{
    date_range_prefix, end_marker, links_prefix, overview_prefix, parse_line_spec, region_prefix,
    start_marker, LineView, ParseErrorView,
};
use crate::links::{
    is_bold, link_fault, meetup_host, p_link, p_links, tracker_param, url_host,
    url_parses, url_query,
};
use crate::text::{find_lit, has_prefix_at, lemma_prefix_char};

verus! {

/// `find_lit` finds the first occurrence at or after `start`.
proof fn lemma_find_first(s: Seq<char>, start: int, k: int, lit: Seq<char>)
    requires
        0 <= start <= k,
        has_prefix_at(s, k, lit),
        forall|j: int| start <= j < k ==> !has_prefix_at(s, j, lit),
    ensures
        find_lit(s, start, lit) == Some(k),
    decreases k - start,
{
    if start < k {
        assert(!has_prefix_at(s, start, lit));
        if lit.len() == 0 {
            assert(s.subrange(start, start) =~= lit);
        }
        lemma_find_first(s, start + 1, k, lit);
    }
}

/// The first `c` at or after `start` is at `k`.
proof fn lemma_find_char(s: Seq<char>, start: int, k: int, c: char)
    requires
        0 <= start <= k < s.len(),
        s[k] == c,
        forall|j: int| start <= j < k ==> s[j] != c,
    ensures
        find_lit(s, start, seq![c]) == Some(k),
{
    lemma_prefix_char(s, k, c);
    assert forall|j: int| start <= j < k implies !has_prefix_at(s, j, seq![c]) by {
        lemma_prefix_char(s, j, c);
    }
    lemma_find_first(s, start, k, seq![c]);
}

proof fn lemma_literals()
    ensures
        "["@ =~= seq!['['],
        "]("@ =~= seq![']', '('],
        ")"@ =~= seq![')'],
        "]"@ =~= seq![']'],
        "("@ =~= seq!['('],
{
    reveal_strlit("[");
    reveal_strlit("](");
    reveal_strlit(")");
    reveal_strlit("]");
    reveal_strlit("(");
}

/// `s` holds `t` at index `pos`.
pub open spec fn holds_at(s: Seq<char>, pos: int, t: Seq<char>) -> bool {
    0 <= pos && pos + t.len() <= s.len() && s.subrange(pos, pos + t.len()) == t
}

/// A link written at `pos` is read back, provided its label holds no `]`
/// and its URL no `)`.
pub proof fn lemma_p_link_rendered(s: Seq<char>, pos: int, l: LinkView)
    requires
        holds_at(s, pos, render_link(l)),
        is_link_text_free(l),
    ensures
        p_link(s, pos) == Ok::<(LinkView, int), ParseErrorView>(
            (l, pos + render_link(l).len()),
        ),
{
    lemma_literals();
    let r = render_link(l);
    let n = l.label.len() as int;
    let m = l.url.len() as int;
    assert(r.len() == n + m + 4);
    assert forall|i: int| 0 <= i < r.len() implies s[pos + i] == r[i] by {
        assert(s.subrange(pos, pos + r.len())[i] == s[pos + i]);
    }
    assert(r[0] == '[');
    assert(s.subrange(pos, pos + 1) =~= "["@);
    assert forall|j: int| pos + 1 <= j < pos + 1 + n implies s[j] != ']' by {
        assert(r[j - pos] == l.label[j - pos - 1]);
    }
    assert(r[n + 1] == ']');
    lemma_find_char(s, pos + 1, pos + 1 + n, ']');
    assert(r[n + 2] == '(');
    assert(s.subrange(pos + n + 2, pos + n + 3) =~= "("@);
    assert forall|j: int| pos + n + 3 <= j < pos + n + 3 + m implies s[j] != ')' by {
        assert(r[j - pos] == l.url[j - pos - n - 3]);
    }
    assert(r[n + m + 3] == ')');
    lemma_find_char(s, pos + n + 3, pos + n + 3 + m, ')');
    assert forall|i: int| 0 <= i < n implies s.subrange(pos + 1, pos + 1 + n)[i] == l.label[i] by {
        assert(r[1 + i] == l.label[i]);
        assert(s[pos + 1 + i] == r[1 + i]);
    }
    assert(s.subrange(pos + 1, pos + 1 + n) =~= l.label);
    assert forall|i: int| 0 <= i < m implies s.subrange(pos + n + 3, pos + n + 3 + m)[i]
        == l.url[i] by {
        assert(r[n + 3 + i] == l.url[i]);
        assert(s[pos + n + 3 + i] == r[n + 3 + i]);
    }
    assert(s.subrange(pos + n + 3, pos + n + 3 + m) =~= l.url);
}

/// Links written one after another with separator `delim`, up to the end
/// of `s`, are read back when each passes the link checks.
pub proof fn lemma_p_links_rendered(
    s: Seq<char>,
    pos: int,
    ls: Seq<LinkView>,
    delim: Seq<char>,
    bold: bool,
)
    requires
        ls.len() > 0,
        delim.len() > 0,
        0 <= pos <= s.len(),
        s.subrange(pos, s.len() as int) == render_links(ls, delim),
        forall|i: int| 0 <= i < ls.len() ==> is_link_text_free(#[trigger] ls[i]),
        forall|i: int| 0 <= i < ls.len() ==> link_fault(#[trigger] ls[i], bold) is None,
    ensures
        p_links(s, pos, delim, bold) == Ok::<Seq<LinkView>, ParseErrorView>(ls),
    decreases ls.len(),
{
    let l = ls[0];
    let r = render_link(l);
    assert(is_link_text_free(ls[0]));
    assert(link_fault(ls[0], bold) is None);
    if ls.len() == 1 {
        assert(s.subrange(pos, s.len() as int) == r);
        assert(s.subrange(pos, pos + r.len()) =~= r);
        lemma_p_link_rendered(s, pos, l);
        assert(pos + r.len() == s.len());
        assert(seq![l] =~= ls);
    } else {
        let rest = render_links(ls.drop_first(), delim);
        let t = s.subrange(pos, s.len() as int);
        assert(t == r + delim + rest);
        assert(t.len() == r.len() + delim.len() + rest.len());
        assert(s.subrange(pos, pos + r.len()) =~= t.subrange(0, r.len() as int));
        assert(t.subrange(0, r.len() as int) =~= r);
        lemma_p_link_rendered(s, pos, l);
        let e = pos + r.len();
        assert(r.len() >= 4) by {
            lemma_literals();
        }
        assert(s.subrange(e, e + delim.len()) =~= t.subrange(
            r.len() as int,
            (r.len() + delim.len()) as int,
        ));
        assert(t.subrange(r.len() as int, (r.len() + delim.len()) as int) =~= delim);
        assert(has_prefix_at(s, e, delim));
        assert(e != s.len());
        let after_delim = e + delim.len();
        assert(s.subrange(after_delim, s.len() as int) =~= t.subrange(
            (r.len() + delim.len()) as int,
            t.len() as int,
        ));
        assert(t.subrange((r.len() + delim.len()) as int, t.len() as int) =~= rest);
        assert forall|i: int| 0 <= i < ls.drop_first().len() implies is_link_text_free(
            #[trigger] ls.drop_first()[i],
        ) by {
            assert(ls.drop_first()[i] == ls[i + 1]);
        }
        assert forall|i: int| 0 <= i < ls.drop_first().len() implies link_fault(
            #[trigger] ls.drop_first()[i],
            bold,
        ) is None by {
            assert(ls.drop_first()[i] == ls[i + 1]);
        }
        lemma_p_links_rendered(s, after_delim, ls.drop_first(), delim, bold);
        assert(seq![l] + ls.drop_first() =~= ls);
    }
}

/// A line that starts with the title-line prefix is read as a title line.
proof fn lemma_links_line_dispatch(rest: Seq<char>)
    ensures
        parse_line_spec("    * "@ + rest) == match p_links("    * "@ + rest, 6, " | "@, true) {
            Err(x) => Err(x),
            Ok(ls) => Ok(LineView::EventLinks(ls)),
        },
{
    let s = "    * "@ + rest;
    reveal(parse_line_spec);
    reveal_strlit("    * ");
    reveal_strlit("## Upcoming Events");
    reveal_strlit("If you are running a Rust event please add it to the [calendar]");
    reveal_strlit("Rusty Events between ");
    reveal_strlit("### ");
    reveal_strlit("* ");
    assert(s[0] == ' ');
    assert(s.len() > 0);
    assert(s != start_marker()) by {
        assert(start_marker()[0] == '#');
    }
    assert(!has_prefix_at(s, 0, end_marker())) by {
        if has_prefix_at(s, 0, end_marker()) {
            assert(s.subrange(0, 63)[0] == s[0]);
        }
    }
    assert(!has_prefix_at(s, 0, date_range_prefix())) by {
        if has_prefix_at(s, 0, date_range_prefix()) {
            assert(s.subrange(0, 21)[0] == s[0]);
        }
    }
    assert(!has_prefix_at(s, 0, region_prefix())) by {
        if has_prefix_at(s, 0, region_prefix()) {
            assert(s.subrange(0, 4)[0] == s[0]);
        }
    }
    assert(!has_prefix_at(s, 0, overview_prefix())) by {
        if has_prefix_at(s, 0, overview_prefix()) {
            assert(s.subrange(0, 2)[0] == s[0]);
        }
    }
    assert(s.subrange(0, 6) =~= links_prefix());
}

/// On a title line, a link whose label is not wrapped in bold markers is
/// rejected with `InvalidLinkLabel`, whatever its URL.
pub proof fn lemma_title_label_must_be_bold(l: LinkView)
    requires
        is_link_text_free(l),
        !is_bold(l.label),
    ensures
        parse_line_spec("    * "@ + render_link(l)) == Err::<LineView, ParseErrorView>(
            ParseErrorView::InvalidLinkLabel(l.label),
        ),
{
    let s = "    * "@ + render_link(l);
    reveal_strlit("    * ");
    lemma_links_line_dispatch(render_link(l));
    assert(s.subrange(6, 6 + render_link(l).len() as int) =~= render_link(l));
    lemma_p_link_rendered(s, 6, l);
}

/// On a title line, a bold link whose URL is on the meetup host with the
/// tracker parameter in its query is rejected with `UrlContainsTracker`.
pub proof fn lemma_tracker_rejected(l: LinkView)
    requires
        is_link_text_free(l),
        is_bold(l.label),
        url_parses(l.url),
        url_host(l.url) == Some(meetup_host()),
        url_query(l.url) is Some,
        crate::text::contains_seq(url_query(l.url)->0, tracker_param()),
    ensures
        parse_line_spec("    * "@ + render_link(l)) == Err::<LineView, ParseErrorView>(
            ParseErrorView::UrlContainsTracker(l.url),
        ),
{
    let s = "    * "@ + render_link(l);
    reveal_strlit("    * ");
    lemma_links_line_dispatch(render_link(l));
    assert(s.subrange(6, 6 + render_link(l).len() as int) =~= render_link(l));
    lemma_p_link_rendered(s, 6, l);
}

/// A title line written from links that pass the checks of title links is
/// read back as those links.
pub proof fn lemma_title_line_round_trip(ls: Seq<LinkView>)
    requires
        ls.len() > 0,
        forall|i: int| 0 <= i < ls.len() ==> is_link_text_free(#[trigger] ls[i]),
        forall|i: int| 0 <= i < ls.len() ==> link_fault(#[trigger] ls[i], true) is None,
    ensures
        parse_line_spec("    * "@ + render_links(ls, " | "@)) == Ok::<LineView, ParseErrorView>(
            LineView::EventLinks(ls),
        ),
{
    let body = render_links(ls, " | "@);
    let s = "    * "@ + body;
    reveal_strlit("    * ");
    reveal_strlit(" | ");
    lemma_links_line_dispatch(body);
    assert(s.subrange(6, s.len() as int) =~= body);
    lemma_p_links_rendered(s, 6, ls, " | "@, true);
}

} // verus!

verus! {

use crate::date::{
    digit_char, digit_run, digit_val, digits_value, is_digit, padded, pow10, render_date,
    scan_date, valid_date, CalendarDate,
};
use crate::events::{
    render_event_date, render_location, render_overview, EventDate, LocationView, OverviewView,
};
use crate::grammar::{p_date_at, p_event_date, p_location, p_overview};

proof fn lemma_digit_char(k: int)
    requires
        0 <= k < 10,
    ensures
        is_digit(digit_char(k)),
        digit_val(digit_char(k)) == k,
{
    if k == 0 {
        assert(digit_char(0) == '0');
    } else if k == 1 {
        assert(digit_char(1) == '1');
    } else if k == 2 {
        assert(digit_char(2) == '2');
    } else if k == 3 {
        assert(digit_char(3) == '3');
    } else if k == 4 {
        assert(digit_char(4) == '4');
    } else if k == 5 {
        assert(digit_char(5) == '5');
    } else if k == 6 {
        assert(digit_char(6) == '6');
    } else if k == 7 {
        assert(digit_char(7) == '7');
    } else if k == 8 {
        assert(digit_char(8) == '8');
    } else {
        assert(digit_char(9) == '9');
    }
}

proof fn lemma_padded_len(n: int, w: nat)
    ensures
        padded(n, w).len() == w,
    decreases w,
{
    if w > 0 {
        lemma_padded_len(n / 10, (w - 1) as nat);
    }
}

/// `n` written with `w` digits at `pos` is read back as `n`.
proof fn lemma_padded_value(s: Seq<char>, pos: int, n: int, w: nat)
    requires
        0 <= n < pow10(w),
        holds_at(s, pos, padded(n, w)),
    ensures
        digits_value(s, pos, pos + w) == n,
        forall|i: int| pos <= i < pos + w ==> is_digit(#[trigger] s[i]),
    decreases w,
{
    lemma_padded_len(n, w);
    if w > 0 {
        let p = padded(n / 10, (w - 1) as nat);
        lemma_padded_len(n / 10, (w - 1) as nat);
        assert(padded(n, w) == p.push(digit_char(n % 10)));
        assert(s.subrange(pos, pos + w - 1) =~= padded(n, w).subrange(0, w - 1));
        assert(padded(n, w).subrange(0, w - 1) =~= p);
        assert(pow10(w) == 10 * pow10((w - 1) as nat));
        assert(n / 10 < pow10((w - 1) as nat));
        lemma_padded_value(s, pos, n / 10, (w - 1) as nat);
        assert(s[pos + w - 1] == s.subrange(pos, pos + w)[w - 1]);
        assert(s[pos + w - 1] == digit_char(n % 10));
        lemma_digit_char(n % 10);
        assert(digits_value(s, pos, pos + w) == digits_value(s, pos, pos + w - 1) * 10 + digit_val(
            s[pos + w - 1],
        ));
    }
}

proof fn lemma_digit_run_full(s: Seq<char>, pos: int, max: nat)
    requires
        0 <= pos,
        pos + max <= s.len(),
        forall|i: int| pos <= i < pos + max ==> is_digit(#[trigger] s[i]),
    ensures
        digit_run(s, pos, max) == max,
    decreases max,
{
    if max > 0 {
        assert(is_digit(s[pos]));
        lemma_digit_run_full(s, pos + 1, (max - 1) as nat);
    }
}

/// A date that the calendar has, with a year of at most four digits.
pub open spec fn date_is_writable(d: CalendarDate) -> bool {
    valid_date(d) && d.year <= 9999
}

/// A date written `YYYY-MM-DD` at `pos` is read back as itself.
proof fn lemma_p_date_rendered(s: Seq<char>, pos: int, d: CalendarDate)
    requires
        date_is_writable(d),
        holds_at(s, pos, render_date(d)),
    ensures
        p_date_at(s, pos) == Ok::<(CalendarDate, int), ParseErrorView>((d, pos + 10)),
{
    reveal_with_fuel(pow10, 5);
    let y = padded(d.year as int, 4);
    let mo = padded(d.month as int, 2);
    let da = padded(d.day as int, 2);
    lemma_padded_len(d.year as int, 4);
    lemma_padded_len(d.month as int, 2);
    lemma_padded_len(d.day as int, 2);
    let r = render_date(d);
    assert(r == y + seq!['-'] + mo + seq!['-'] + da);
    assert(r.len() == 10);
    let t = s.subrange(pos, pos + 10);
    assert(t == r);
    assert(s.subrange(pos, pos + 4) =~= t.subrange(0, 4));
    assert(t.subrange(0, 4) =~= y);
    assert(s.subrange(pos + 5, pos + 7) =~= t.subrange(5, 7));
    assert(t.subrange(5, 7) =~= mo);
    assert(s.subrange(pos + 8, pos + 10) =~= t.subrange(8, 10));
    assert(t.subrange(8, 10) =~= da);
    lemma_padded_value(s, pos, d.year as int, 4);
    lemma_padded_value(s, pos + 5, d.month as int, 2);
    lemma_padded_value(s, pos + 8, d.day as int, 2);
    assert(s[pos + 4] == t[4]);
    assert(s[pos + 7] == t[7]);
    lemma_prefix_char(s, pos + 4, '-');
    lemma_prefix_char(s, pos + 7, '-');
    lemma_digit_run_full(s, pos, 4);
    lemma_digit_run_full(s, pos + 5, 2);
    lemma_digit_run_full(s, pos + 8, 2);
    assert(scan_date(s, pos) == Some((d, pos + 10)));
}

/// The event's dates can be written and read back.
pub open spec fn event_date_is_writable(d: EventDate) -> bool {
    match d {
        EventDate::Date(x) => date_is_writable(x),
        EventDate::DateRange { start, end } => date_is_writable(start) && date_is_writable(end),
    }
}

proof fn lemma_render_date_len(d: CalendarDate)
    requires
        d.year <= 9999,
    ensures
        render_date(d).len() == 10,
{
    lemma_padded_len(d.year as int, 4);
    lemma_padded_len(d.month as int, 2);
    lemma_padded_len(d.day as int, 2);
}

/// An event date written at `pos` and followed by ` | ` is read back.
proof fn lemma_p_event_date_rendered(s: Seq<char>, pos: int, d: EventDate)
    requires
        event_date_is_writable(d),
        holds_at(s, pos, render_event_date(d) + " | "@),
    ensures
        p_event_date(s, pos) == Ok::<(EventDate, int), ParseErrorView>(
            (d, pos + render_event_date(d).len()),
        ),
{
    reveal_strlit(" | ");
    reveal_strlit(" - ");
    let r = render_event_date(d) + " | "@;
    let t = s.subrange(pos, pos + r.len());
    assert(t == r);
    match d {
        EventDate::Date(x) => {
            lemma_render_date_len(x);
            assert(s.subrange(pos, pos + 10) =~= t.subrange(0, 10));
            assert(t.subrange(0, 10) =~= render_date(x));
            lemma_p_date_rendered(s, pos, x);
            assert(s[pos + 11] == t[11]);
            assert(t[11] == '|');
            if has_prefix_at(s, pos + 10, " - "@) {
                assert(s.subrange(pos + 10, pos + 13)[1] == s[pos + 11]);
            }
        },
        EventDate::DateRange { start, end } => {
            lemma_render_date_len(start);
            lemma_render_date_len(end);
            assert(s.subrange(pos, pos + 10) =~= t.subrange(0, 10));
            assert(t.subrange(0, 10) =~= render_date(start));
            lemma_p_date_rendered(s, pos, start);
            assert(s.subrange(pos + 10, pos + 13) =~= t.subrange(10, 13));
            assert(t.subrange(10, 13) =~= " - "@);
            assert(s.subrange(pos + 13, pos + 23) =~= t.subrange(13, 23));
            assert(t.subrange(13, 23) =~= render_date(end));
            lemma_p_date_rendered(s, pos + 13, end);
        },
    }
}

/// The location reads back as itself when written before ` | `: a text in
/// parentheses holds no `)`; an in-person text does not start with
/// `Virtual` or `Hybrid` and holds no ` |`.
pub open spec fn location_is_writable(l: LocationView) -> bool {
    match l {
        LocationView::Virtual => true,
        LocationView::VirtualWithLocation(t) => forall|i: int| 0 <= i < t.len() ==> t[i] != ')',
        LocationView::Hybrid(t) => forall|i: int| 0 <= i < t.len() ==> t[i] != ')',
        LocationView::InPerson(t) => !has_prefix_at(t, 0, "Virtual"@) && !has_prefix_at(
            t,
            0,
            "Hybrid"@,
        ) && forall|i: int| !has_prefix_at(t, i, " |"@),
    }
}

/// A text without `)`, in parentheses after `word`, read back.
proof fn lemma_paren_text(s: Seq<char>, pos: int, w: int, t: Seq<char>)
    requires
        0 <= pos,
        forall|i: int| 0 <= i < t.len() ==> t[i] != ')',
        holds_at(s, pos + w, " ("@ + t + ")"@),
        w >= 0,
    ensures
        has_prefix_at(s, pos + w, " ("@),
        find_lit(s, pos + w + 2, ")"@) == Some(pos + w + 2 + t.len()),
        s.subrange(pos + w + 2, pos + w + 2 + t.len()) == t,
{
    reveal_strlit(" (");
    reveal_strlit(")");
    let r = " ("@ + t + ")"@;
    let q = s.subrange(pos + w, pos + w + r.len());
    assert(q == r);
    assert(s.subrange(pos + w, pos + w + 2) =~= q.subrange(0, 2));
    assert(q.subrange(0, 2) =~= " ("@);
    assert forall|j: int| pos + w + 2 <= j < pos + w + 2 + t.len() implies s[j] != ')' by {
        assert(s[j] == q[j - pos - w]);
        assert(q[j - pos - w] == t[j - pos - w - 2]);
    }
    assert(s[pos + w + 2 + t.len()] == q[2 + t.len() as int]);
    lemma_find_char(s, pos + w + 2, pos + w + 2 + t.len(), ')');
    assert(")"@ =~= seq![')']);
    assert(s.subrange(pos + w + 2, pos + w + 2 + t.len()) =~= q.subrange(2, 2 + t.len() as int));
    assert(q.subrange(2, 2 + t.len() as int) =~= t);
}

/// A location written at `pos` and followed by ` | ` is read back.
proof fn lemma_p_location_rendered(s: Seq<char>, pos: int, l: LocationView)
    requires
        location_is_writable(l),
        holds_at(s, pos, render_location(l) + " | "@),
    ensures
        p_location(s, pos) == Ok::<(LocationView, int), ParseErrorView>(
            (l, pos + render_location(l).len()),
        ),
{
    reveal_strlit(" | ");
    reveal_strlit("Virtual");
    reveal_strlit("Hybrid");
    reveal_strlit("Virtual (");
    reveal_strlit("Hybrid (");
    reveal_strlit(" (");
    reveal_strlit(")");
    reveal_strlit(" |");
    let r = render_location(l) + " | "@;
    let q = s.subrange(pos, pos + r.len());
    assert(q == r);
    assert forall|i: int| 0 <= i < r.len() implies s[pos + i] == r[i] by {
        assert(q[i] == s[pos + i]);
    }
    match l {
        LocationView::Virtual => {
            assert(s.subrange(pos, pos + 7) =~= "Virtual"@);
            if has_prefix_at(s, pos + 7, " ("@) {
                assert(s.subrange(pos + 7, pos + 9)[1] == s[pos + 8]);
                assert(r[8] == '|');
            }
        },
        LocationView::VirtualWithLocation(t) => {
            assert(s.subrange(pos, pos + 7) =~= "Virtual"@);
            assert(render_location(l) =~= "Virtual"@ + (" ("@ + t + ")"@));
            assert(s.subrange(pos + 7, pos + 7 + t.len() + 3) =~= q.subrange(7, 7 + t.len() as int + 3));
            assert(q.subrange(7, 7 + t.len() as int + 3) =~= " ("@ + t + ")"@);
            lemma_paren_text(s, pos, 7, t);
        },
        LocationView::Hybrid(t) => {
            assert(r[0] == "Hybrid ("@[0]);
            assert(s[pos + 0] == r[0]);
            assert(s[pos] == 'H');
            if has_prefix_at(s, pos, "Virtual"@) {
                assert(s.subrange(pos, pos + 7)[0] == s[pos]);
            }
            assert(s.subrange(pos, pos + 6) =~= "Hybrid"@);
            assert(render_location(l) =~= "Hybrid"@ + (" ("@ + t + ")"@));
            assert(s.subrange(pos + 6, pos + 6 + t.len() + 3) =~= q.subrange(6, 6 + t.len() as int + 3));
            assert(q.subrange(6, 6 + t.len() as int + 3) =~= " ("@ + t + ")"@);
            lemma_paren_text(s, pos, 6, t);
        },
        LocationView::InPerson(t) => {
            let n = t.len() as int;
            assert(r[n] == " | "@[0]);
            assert(r[n + 1] == " | "@[1]);
            assert(s[pos + n] == r[n]);
            assert(s[pos + n + 1] == r[n + 1]);
            assert(s[pos + n] == ' ');
            assert(s[pos + n + 1] == '|');
            if has_prefix_at(s, pos, "Virtual"@) {
                if n >= 7 {
                    assert(s.subrange(pos, pos + 7) =~= t.subrange(0, 7));
                } else {
                    assert(s.subrange(pos, pos + 7)[n] == s[pos + n]);
                    assert("Virtual"@[n] != ' ');
                }
            }
            if has_prefix_at(s, pos, "Hybrid"@) {
                if n >= 6 {
                    assert(s.subrange(pos, pos + 6) =~= t.subrange(0, 6));
                } else {
                    assert(s.subrange(pos, pos + 6)[n] == s[pos + n]);
                    assert("Hybrid"@[n] != ' ');
                }
            }
            assert(s.subrange(pos + n, pos + n + 2) =~= " |"@);
            assert forall|j: int| pos <= j < pos + n implies !has_prefix_at(s, j, " |"@) by {
                if has_prefix_at(s, j, " |"@) {
                    if j + 2 <= pos + n {
                        assert(s[pos + (j - pos)] == r[j - pos]);
                        assert(s[pos + (j - pos + 1)] == r[j - pos + 1]);
                        assert(r[j - pos] == t[j - pos]);
                        assert(r[j - pos + 1] == t[j - pos + 1]);
                        assert(s.subrange(j, j + 2) =~= t.subrange(j - pos, j - pos + 2));
                        assert(has_prefix_at(t, j - pos, " |"@));
                    } else {
                        assert(s.subrange(j, j + 2)[1] == s[pos + n]);
                    }
                }
            }
            lemma_find_first(s, pos, pos + n, " |"@);
            assert(s.subrange(pos, pos + n) =~= t);
        },
    }
}

/// The overview can be written and read back: its dates can be written,
/// its location too, and it has group links that pass the link checks.
pub open spec fn overview_is_writable(o: OverviewView) -> bool {
    &&& event_date_is_writable(o.date)
    &&& location_is_writable(o.location)
    &&& o.groups.len() > 0
    &&& forall|i: int| 0 <= i < o.groups.len() ==> is_link_text_free(#[trigger] o.groups[i])
    &&& forall|i: int| 0 <= i < o.groups.len() ==> link_fault(#[trigger] o.groups[i], false) is None
}

proof fn lemma_holds_mid(x: Seq<char>, y: Seq<char>, z: Seq<char>)
    ensures
        holds_at(x + y + z, x.len() as int, y),
{
    assert((x + y + z).subrange(x.len() as int, (x.len() + y.len()) as int) =~= y);
}

proof fn lemma_holds_tail(x: Seq<char>, y: Seq<char>)
    ensures
        (x + y).subrange(x.len() as int, (x + y).len() as int) == y,
{
    assert((x + y).subrange(x.len() as int, (x + y).len() as int) =~= y);
}

/// A line that starts with the overview prefix is read as an overview.
proof fn lemma_overview_line_dispatch(rest: Seq<char>)
    ensures
        parse_line_spec("* "@ + rest) == p_overview("* "@ + rest),
{
    let s = "* "@ + rest;
    reveal(parse_line_spec);
    reveal_strlit("## Upcoming Events");
    reveal_strlit("If you are running a Rust event please add it to the [calendar]");
    reveal_strlit("Rusty Events between ");
    reveal_strlit("### ");
    reveal_strlit("* ");
    assert(s[0] == '*');
    assert(s.len() > 0);
    assert(s != start_marker()) by {
        assert(start_marker()[0] == '#');
    }
    assert(!has_prefix_at(s, 0, end_marker())) by {
        if has_prefix_at(s, 0, end_marker()) {
            assert(s.subrange(0, 63)[0] == s[0]);
        }
    }
    assert(!has_prefix_at(s, 0, date_range_prefix())) by {
        if has_prefix_at(s, 0, date_range_prefix()) {
            assert(s.subrange(0, 21)[0] == s[0]);
        }
    }
    assert(!has_prefix_at(s, 0, region_prefix())) by {
        if has_prefix_at(s, 0, region_prefix()) {
            assert(s.subrange(0, 4)[0] == s[0]);
        }
    }
    assert(s.subrange(0, 2) =~= overview_prefix());
}

/// An overview line written from an overview that can be written is read
/// back as that overview.
#[verifier::rlimit(80)]
pub proof fn lemma_overview_line_round_trip(o: OverviewView)
    requires
        overview_is_writable(o),
    ensures
        parse_line_spec("* "@ + render_overview(o)) == Ok::<LineView, ParseErrorView>(
            LineView::EventOverview(o),
        ),
{
    reveal_strlit(" | ");
    reveal_strlit(" + ");
    reveal_strlit("* ");
    let body = render_overview(o);
    let s = "* "@ + body;
    lemma_overview_line_dispatch(body);
    let dt = render_event_date(o.date);
    let lc = render_location(o.location);
    let gs = render_links(o.groups, " + "@);
    assert(body == dt + " | "@ + lc + " | "@ + gs);
    let e1 = 2 + dt.len() as int;
    let e2 = e1 + 3 + lc.len() as int;
    lemma_overview_layout(dt, lc, gs);
    assert(s == "* "@ + dt + " | "@ + lc + " | "@ + gs);
    lemma_p_event_date_rendered(s, 2, o.date);
    lemma_p_location_rendered(s, e1 + 3, o.location);
    lemma_p_links_rendered(s, e2 + 3, o.groups, " + "@, false);
    lemma_p_overview_compose(s, o, e1, e2);
}

/// Where the parts of an overview line stand.
proof fn lemma_overview_layout(dt: Seq<char>, lc: Seq<char>, gs: Seq<char>)
    ensures
        ({
            let s = "* "@ + dt + " | "@ + lc + " | "@ + gs;
            let e1 = 2 + dt.len() as int;
            let e2 = e1 + 3 + lc.len() as int;
            &&& holds_at(s, 2, dt + " | "@)
            &&& has_prefix_at(s, e1, " | "@)
            &&& holds_at(s, e1 + 3, lc + " | "@)
            &&& has_prefix_at(s, e2, " | "@)
            &&& s.subrange(e2 + 3, s.len() as int) == gs
        }),
{
    reveal_strlit(" | ");
    reveal_strlit("* ");
    let a = "* "@;
    let bar = " | "@;
    let s = a + dt + bar + lc + bar + gs;
    let n = dt.len() as int;
    let k = lc.len() as int;
    assert(holds_at(s, 2, dt + bar)) by {
        assert(s =~= a + (dt + bar) + (lc + bar + gs));
        lemma_holds_mid(a, dt + bar, lc + bar + gs);
    }
    assert(has_prefix_at(s, 2 + n, bar)) by {
        assert(s =~= (a + dt) + bar + (lc + bar + gs));
        lemma_holds_mid(a + dt, bar, lc + bar + gs);
    }
    assert(holds_at(s, 2 + n + 3, lc + bar)) by {
        assert(s =~= (a + dt + bar) + (lc + bar) + gs);
        lemma_holds_mid(a + dt + bar, lc + bar, gs);
    }
    assert(has_prefix_at(s, 2 + n + 3 + k, bar)) by {
        assert(s =~= (a + dt + bar + lc) + bar + gs);
        lemma_holds_mid(a + dt + bar + lc, bar, gs);
    }
    assert(s.subrange(2 + n + 3 + k + 3, s.len() as int) == gs) by {
        assert(s =~= (a + dt + bar + lc + bar) + gs);
        lemma_holds_tail(a + dt + bar + lc + bar, gs);
    }
}

proof fn lemma_p_overview_compose(s: Seq<char>, o: OverviewView, e1: int, e2: int)
    requires
        p_event_date(s, 2) == Ok::<(EventDate, int), ParseErrorView>((o.date, e1)),
        has_prefix_at(s, e1, " | "@),
        p_location(s, e1 + 3) == Ok::<(LocationView, int), ParseErrorView>((o.location, e2)),
        has_prefix_at(s, e2, " | "@),
        p_links(s, e2 + 3, " + "@, false) == Ok::<Seq<LinkView>, ParseErrorView>(o.groups),
    ensures
        p_overview(s) == Ok::<LineView, ParseErrorView>(LineView::EventOverview(o)),
{
}

} // verus!

verus! {

/// A group link needs no bold label: an overview whose first group link is
/// not wrapped in bold markers is read back all the same.
pub proof fn lemma_group_label_may_be_plain(o: OverviewView)
    requires
        overview_is_writable(o),
        !is_bold(o.groups[0].label),
    ensures
        parse_line_spec("* "@ + render_overview(o)) == Ok::<LineView, ParseErrorView>(
            LineView::EventOverview(o),
        ),
{
    lemma_overview_line_round_trip(o);
}

} // verus!

verus! {

use crate::events::{render_listing, ListingView};
use crate::reader::{lines_from, lines_of};

/// No line break in the text.
pub open spec fn one_line(t: Seq<char>) -> bool {
    forall|i: int| 0 <= i < t.len() ==> t[i] != '\n'
}

/// A text of two lines, each ending with a line break, is read as those
/// two lines.
proof fn lemma_two_lines(x: Seq<char>, y: Seq<char>)
    requires
        one_line(x),
        one_line(y),
    ensures
        lines_of(x + "\n"@ + y + "\n"@) == seq![x, y],
{
    reveal_strlit("\n");
    let s = x + "\n"@ + y + "\n"@;
    let n = x.len() as int;
    let k = y.len() as int;
    assert("\n"@ =~= seq!['\n']);
    assert(s.len() == n + k + 2);
    assert(s[n] == '\n');
    assert forall|j: int| 0 <= j < n implies s[j] != '\n' by {
        assert(s[j] == x[j]);
    }
    lemma_find_char(s, 0, n, '\n');
    assert(s[n + 1 + k] == '\n');
    assert forall|j: int| n + 1 <= j < n + 1 + k implies s[j] != '\n' by {
        assert(s[j] == y[j - n - 1]);
    }
    lemma_find_char(s, n + 1, n + 1 + k, '\n');
    assert(s.subrange(0, n) =~= x);
    assert(s.subrange(n + 1, n + 1 + k) =~= y);
    assert(lines_from(s, n + 2 + k) == Seq::<Seq<char>>::empty());
    assert(lines_from(s, n + 1) == seq![y] + lines_from(s, n + 2 + k));
    assert(lines_from(s, 0) == seq![x] + lines_from(s, n + 1));
    assert(seq![x] + (seq![y] + Seq::<Seq<char>>::empty()) =~= seq![x, y]);
}

/// The title links can be written on a title line and read back.
pub open spec fn title_links_are_writable(ls: Seq<LinkView>) -> bool {
    &&& ls.len() > 0
    &&& forall|i: int| 0 <= i < ls.len() ==> is_link_text_free(#[trigger] ls[i])
    &&& forall|i: int| 0 <= i < ls.len() ==> link_fault(#[trigger] ls[i], true) is None
}

proof fn lemma_concat_one_line(p: Seq<char>, t: Seq<char>)
    requires
        one_line(p),
        one_line(t),
    ensures
        one_line(p + t),
{
    assert forall|i: int| 0 <= i < (p + t).len() implies (p + t)[i] != '\n' by {
        if i >= p.len() {
            assert((p + t)[i] == t[i - p.len()]);
        } else {
            assert((p + t)[i] == p[i]);
        }
    }
}

/// The two lines of a written listing.
proof fn lemma_listing_lines(l: ListingView)
    requires
        one_line(render_overview(l.overview)),
        one_line(render_links(l.events, " | "@)),
    ensures
        lines_of(render_listing(l)) == seq![
            "* "@ + render_overview(l.overview),
            "    * "@ + render_links(l.events, " | "@),
        ],
{
    reveal_strlit("* ");
    reveal_strlit("    * ");
    let x = "* "@ + render_overview(l.overview);
    let y = "    * "@ + render_links(l.events, " | "@);
    assert(one_line("* "@));
    assert(one_line("    * "@));
    lemma_concat_one_line("* "@, render_overview(l.overview));
    lemma_concat_one_line("    * "@, render_links(l.events, " | "@));
    assert(render_listing(l) =~= x + "\n"@ + y + "\n"@);
    lemma_two_lines(x, y);
}

/// A listing written as its two lines reads back line by line as itself:
/// its overview line gives its overview, its title line its title links.
pub proof fn lemma_listing_round_trip(l: ListingView)
    requires
        overview_is_writable(l.overview),
        title_links_are_writable(l.events),
        one_line(render_overview(l.overview)),
        one_line(render_links(l.events, " | "@)),
    ensures
        lines_of(render_listing(l)) == seq![
            "* "@ + render_overview(l.overview),
            "    * "@ + render_links(l.events, " | "@),
        ],
        parse_line_spec(lines_of(render_listing(l))[0]) == Ok::<LineView, ParseErrorView>(
            LineView::EventOverview(l.overview),
        ),
        parse_line_spec(lines_of(render_listing(l))[1]) == Ok::<LineView, ParseErrorView>(
            LineView::EventLinks(l.events),
        ),
{
    let x = "* "@ + render_overview(l.overview);
    let y = "    * "@ + render_links(l.events, " | "@);
    lemma_listing_lines(l);
    let ls = lines_of(render_listing(l));
    assert(ls[0] == x);
    assert(ls[1] == y);
    lemma_overview_line_round_trip(l.overview);
    assert(parse_line_spec(x) == Ok::<LineView, ParseErrorView>(LineView::EventOverview(l.overview)));
    lemma_title_line_round_trip(l.events);
    assert(parse_line_spec(y) == Ok::<LineView, ParseErrorView>(LineView::EventLinks(l.events)));
}

} // verus!

verus! {

/// `find_lit` gives the first occurrence at or after `start`.
proof fn lemma_find_lit_first(s: Seq<char>, start: int, lit: Seq<char>)
    requires
        0 <= start,
    ensures
        find_lit(s, start, lit) matches Some(k) ==> start <= k && has_prefix_at(s, k, lit) && (
        forall|j: int| start <= j < k ==> !has_prefix_at(s, j, lit)),
    decreases s.len() - start,
{
    if lit.len() == 0 && start <= s.len() {
        assert(s.subrange(start, start) =~= lit);
    }
    if start + lit.len() > s.len() {
    } else if has_prefix_at(s, start, lit) {
    } else if start >= s.len() {
    } else {
        lemma_find_lit_first(s, start + 1, lit);
    }
}

/// No `c` stands in `s[from..to]` when the first `c` at or after `from` is
/// at `to`.
proof fn lemma_no_char_before(s: Seq<char>, from: int, to: int, c: char)
    requires
        0 <= from,
        find_lit(s, from, seq![c]) == Some(to),
    ensures
        from <= to < s.len(),
        forall|i: int| 0 <= i < s.subrange(from, to).len() ==> s.subrange(from, to)[i] != c,
{
    lemma_find_lit_first(s, from, seq![c]);
    lemma_prefix_char(s, to, c);
    assert forall|i: int| 0 <= i < s.subrange(from, to).len() implies s.subrange(from, to)[i]
        != c by {
        lemma_prefix_char(s, from + i, c);
    }
}

/// A link read at `pos` holds no `]` in its label and no `)` in its URL.
proof fn lemma_p_link_read(s: Seq<char>, pos: int)
    requires
        0 <= pos,
        p_link(s, pos) is Ok,
    ensures
        is_link_text_free(p_link(s, pos)->Ok_0.0),
        p_link(s, pos)->Ok_0.1 > pos,
        p_link(s, pos)->Ok_0.1 <= s.len(),
{
    lemma_literals();
    let c = find_lit(s, pos + 1, "]"@)->Some_0;
    lemma_no_char_before(s, pos + 1, c, ']');
    let e = find_lit(s, c + 2, ")"@)->Some_0;
    lemma_no_char_before(s, c + 2, e, ')');
}

/// Links read from `pos` are at least one, each free of `]` in its label
/// and `)` in its URL, and each passes the link checks.
proof fn lemma_p_links_read(s: Seq<char>, pos: int, delim: Seq<char>, bold: bool)
    requires
        0 <= pos,
        p_links(s, pos, delim, bold) is Ok,
    ensures
        ({
            let ls = p_links(s, pos, delim, bold)->Ok_0;
            &&& ls.len() > 0
            &&& forall|i: int| 0 <= i < ls.len() ==> is_link_text_free(#[trigger] ls[i])
            &&& forall|i: int| 0 <= i < ls.len() ==> link_fault(#[trigger] ls[i], bold) is None
        }),
    decreases s.len() - pos,
{
    lemma_p_link_read(s, pos);
    let (l, e) = p_link(s, pos)->Ok_0;
    let ls = p_links(s, pos, delim, bold)->Ok_0;
    if e == s.len() {
        assert(ls == seq![l]);
    } else {
        let next = e + delim.len();
        lemma_p_links_read(s, next, delim, bold);
        let rest = p_links(s, next, delim, bold)->Ok_0;
        assert(ls == seq![l] + rest);
        assert forall|i: int| 0 <= i < ls.len() implies is_link_text_free(#[trigger] ls[i]) by {
            if i > 0 {
                assert(ls[i] == rest[i - 1]);
            }
        }
        assert forall|i: int| 0 <= i < ls.len() implies link_fault(#[trigger] ls[i], bold) is None by {
            if i > 0 {
                assert(ls[i] == rest[i - 1]);
            }
        }
    }
}

/// A title line that was read gives title links that can be written.
proof fn lemma_title_line_read(s: Seq<char>, ls: Seq<LinkView>)
    requires
        parse_line_spec(s) == Ok::<LineView, ParseErrorView>(LineView::EventLinks(ls)),
    ensures
        title_links_are_writable(ls),
{
    reveal(parse_line_spec);
    if s.len() == 0 || s == start_marker() || has_prefix_at(s, 0, end_marker()) {
    } else if has_prefix_at(s, 0, date_range_prefix()) {
        assert(crate::grammar::p_date_range(s) is Err || crate::grammar::p_date_range(s)->Ok_0 is EventsDateRange);
    } else if has_prefix_at(s, 0, region_prefix()) {
    } else if has_prefix_at(s, 0, overview_prefix()) {
        assert(p_overview(s) is Err || p_overview(s)->Ok_0 is EventOverview);
    } else {
        lemma_p_links_read(s, 6, " | "@, true);
    }
}

/// A title line once read, written back and read again, gives the same
/// links: reading a written title line is the identity on what was read.
pub proof fn lemma_title_line_read_write(s: Seq<char>, ls: Seq<LinkView>)
    requires
        parse_line_spec(s) == Ok::<LineView, ParseErrorView>(LineView::EventLinks(ls)),
    ensures
        parse_line_spec("    * "@ + render_links(ls, " | "@)) == parse_line_spec(s),
{
    lemma_title_line_read(s, ls);
    lemma_title_line_round_trip(ls);
}

} // verus!

verus! {

pub open spec fn digit_at(s: Seq<char>, j: int) -> bool {
    0 <= j < s.len() && is_digit(s[j])
}

proof fn lemma_run_digits(s: Seq<char>, pos: int, max: nat)
    ensures
        forall|j: int| pos <= j < pos + digit_run(s, pos, max) ==> #[trigger] digit_at(s, j),
    decreases max,
{
    if max == 0 || pos < 0 || pos >= s.len() || !is_digit(s[pos]) {
    } else {
        lemma_run_digits(s, pos + 1, (max - 1) as nat);
        assert(digit_run(s, pos, max) == 1 + digit_run(s, pos + 1, (max - 1) as nat));
        assert(digit_at(s, pos));
    }
}

proof fn lemma_digits_value_bound(s: Seq<char>, a: int, b: int)
    requires
        a <= b,
        forall|j: int| a <= j < b ==> #[trigger] digit_at(s, j),
    ensures
        0 <= digits_value(s, a, b) < pow10((b - a) as nat),
    decreases b - a,
{
    if a < b {
        lemma_digits_value_bound(s, a, b - 1);
        assert(digit_at(s, b - 1));
        assert(pow10((b - a) as nat) == 10 * pow10((b - 1 - a) as nat));
    }
}

/// A date that was read can be written back.
proof fn lemma_p_date_read(s: Seq<char>, pos: int)
    requires
        p_date_at(s, pos) is Ok,
    ensures
        date_is_writable(p_date_at(s, pos)->Ok_0.0),
{
    reveal_with_fuel(pow10, 5);
    lemma_run_digits(s, pos, 4);
    lemma_digits_value_bound(s, pos, pos + 4);
}

proof fn lemma_p_event_date_read(s: Seq<char>, pos: int)
    requires
        p_event_date(s, pos) is Ok,
    ensures
        event_date_is_writable(p_event_date(s, pos)->Ok_0.0),
{
    lemma_p_date_read(s, pos);
    let e = p_date_at(s, pos)->Ok_0.1;
    if has_prefix_at(s, e, " - "@) {
        lemma_p_date_read(s, e + 3);
    }
}

/// A location that was read can be written back.
proof fn lemma_p_location_read(s: Seq<char>, pos: int)
    requires
        0 <= pos,
        p_location(s, pos) is Ok,
    ensures
        location_is_writable(p_location(s, pos)->Ok_0.0),
        p_location(s, pos)->Ok_0.1 >= pos,
{
    reveal_strlit(")");
    reveal_strlit(" |");
    reveal_strlit("Virtual");
    reveal_strlit("Hybrid");
    assert(")"@ =~= seq![')']);
    if has_prefix_at(s, pos, "Virtual"@) {
        let p = pos + 7;
        if has_prefix_at(s, p, " ("@) {
            if find_lit(s, p + 2, ")"@) is Some {
                lemma_no_char_before(s, p + 2, find_lit(s, p + 2, ")"@)->Some_0, ')');
            }
        }
    } else if has_prefix_at(s, pos, "Hybrid"@) {
        let p = pos + 6;
        lemma_no_char_before(s, p + 2, find_lit(s, p + 2, ")"@)->Some_0, ')');
    } else {
        let c = find_lit(s, pos, " |"@)->Some_0;
        lemma_find_lit_first(s, pos, " |"@);
        let t = s.subrange(pos, c);
        if has_prefix_at(t, 0, "Virtual"@) {
            assert(s.subrange(pos, pos + 7) =~= t.subrange(0, 7));
        }
        if has_prefix_at(t, 0, "Hybrid"@) {
            assert(s.subrange(pos, pos + 6) =~= t.subrange(0, 6));
        }
        assert forall|i: int| !has_prefix_at(t, i, " |"@) by {
            if has_prefix_at(t, i, " |"@) {
                assert(s.subrange(pos + i, pos + i + 2) =~= t.subrange(i, i + 2));
                assert(has_prefix_at(s, pos + i, " |"@));
            }
        }
    }
}

/// An overview line that was read gives an overview that can be written.
proof fn lemma_overview_line_read(s: Seq<char>, o: OverviewView)
    requires
        parse_line_spec(s) == Ok::<LineView, ParseErrorView>(LineView::EventOverview(o)),
    ensures
        overview_is_writable(o),
{
    reveal(parse_line_spec);
    if s.len() == 0 || s == start_marker() || has_prefix_at(s, 0, end_marker()) {
    } else if has_prefix_at(s, 0, date_range_prefix()) {
        assert(crate::grammar::p_date_range(s) is Err || crate::grammar::p_date_range(s)->Ok_0 is EventsDateRange);
    } else if has_prefix_at(s, 0, region_prefix()) {
    } else if has_prefix_at(s, 0, overview_prefix()) {
        assert(p_overview(s) == Ok::<LineView, ParseErrorView>(LineView::EventOverview(o)));
        lemma_p_event_date_read(s, 2);
        let e1 = p_event_date(s, 2)->Ok_0.1;
        lemma_p_location_read(s, e1 + 3);
        let e2 = p_location(s, e1 + 3)->Ok_0.1;
        lemma_p_links_read(s, e2 + 3, " + "@, false);
    } else {
    }
}

/// An overview line once read, written back and read again, gives the same
/// overview: reading a written overview line is the identity on what was
/// read.
pub proof fn lemma_overview_line_read_write(s: Seq<char>, o: OverviewView)
    requires
        parse_line_spec(s) == Ok::<LineView, ParseErrorView>(LineView::EventOverview(o)),
    ensures
        parse_line_spec("* "@ + render_overview(o)) == parse_line_spec(s),
{
    lemma_overview_line_read(s, o);
    lemma_overview_line_round_trip(o);
}

} // verus!
