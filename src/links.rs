//! Markdown links `[label](url)` and the rules on their URLs.
use vstd::prelude::*;

use crate::events::{links_view, LinkView, MarkdownLink};
use crate::grammar::{parse_failed, LineParseError, ParseErrorView};
use crate::text::{
    contains_exec, contains_seq, find_lit, find_lit_exec, has_prefix_at, lemma_find_lit_bounds,
    lit_at, string_of,
};

verus! {

/// Whether the `url` crate accepts the text as an absolute URL.
pub uninterp spec fn url_parses(s: Seq<char>) -> bool;

/// The host that the `url` crate reads from the text, if any.
pub uninterp spec fn url_host(s: Seq<char>) -> Option<Seq<char>>;

/// The query that the `url` crate reads from the text, if any.
pub uninterp spec fn url_query(s: Seq<char>) -> Option<Seq<char>>;

pub open spec fn opt_string_view(o: Option<String>) -> Option<Seq<char>> {
    match o {
        Some(s) => Some(s@),
        None => None,
    }
}

/// The host and query of a URL, as the `url` crate reads them.
struct UrlParts {
    host: Option<String>,
    query: Option<String>,
}

/// Relies on `url::Url::parse` (whether the text is an absolute URL), and on
/// `Url::host_str` and `Url::query` of its result.
#[verifier::external_body]
fn parse_url(s: &str) -> (r: Option<UrlParts>)
    ensures
        r is Some <==> url_parses(s@),
        r matches Some(p) ==> (opt_string_view(p.host) == url_host(s@) && opt_string_view(p.query)
            == url_query(s@)),
{
    url::Url::parse(s).ok().map(
        |u| UrlParts { host: u.host_str().map(|h| h.to_string()), query: u.query().map(|q| q.to_string()) },
    )
}

/// A link target must be an absolute URL with a host.
pub open spec fn url_ok(s: Seq<char>) -> bool {
    url_parses(s) && url_host(s) is Some
}

/// Whether the text is an absolute URL with a host.
pub fn url_is_valid(s: &str) -> (r: bool)
    ensures
        r == url_ok(s@),
{
    match parse_url(s) {
        Some(parts) => parts.host.is_some(),
        None => false,
    }
}

/// The host on which a tracker parameter is not allowed.
pub open spec fn meetup_host() -> Seq<char> {
    "www.meetup.com"@
}

/// The tracker parameter that such URLs must not carry.
pub open spec fn tracker_param() -> Seq<char> {
    "eventOrigin"@
}

/// A URL with this host and query carries the tracker.
pub open spec fn tracked_url(host: Option<Seq<char>>, query: Option<Seq<char>>) -> bool {
    &&& host == Some(meetup_host())
    &&& query is Some
    &&& contains_seq(query->0, tracker_param())
}

/// Whether a URL with this host and query carries the tracker.
pub fn has_tracker(host: &Option<String>, query: &Option<String>) -> (r: bool)
    ensures
        r == tracked_url(opt_string_view(*host), opt_string_view(*query)),
{
    match host {
        Some(h) => {
            let hv = crate::text::chars_of(h.as_str());
            if !crate::text::chars_eq(&hv, "www.meetup.com") {
                return false;
            }
        },
        None => {
            return false;
        },
    }
    match query {
        Some(q) => {
            let qv = crate::text::chars_of(q.as_str());
            contains_exec(&qv, "eventOrigin")
        },
        None => false,
    }
}

/// The label is wrapped in bold markers.
pub open spec fn is_bold(label: Seq<char>) -> bool {
    has_prefix_at(label, 0, "**"@) && has_prefix_at(label, label.len() - 2, "**"@)
}

/// What is wrong with a link, checked in this order: a title link (`bold`)
/// must have a bold label; the URL must be absolute with a host; it must not
/// carry the tracker.
pub open spec fn link_fault(l: LinkView, bold: bool) -> Option<ParseErrorView> {
    if bold && !is_bold(l.label) {
        Some(ParseErrorView::InvalidLinkLabel(l.label))
    } else if !url_ok(l.url) {
        Some(ParseErrorView::InvalidUrl(l.url))
    } else if tracked_url(url_host(l.url), url_query(l.url)) {
        Some(ParseErrorView::UrlContainsTracker(l.url))
    } else {
        None
    }
}

pub open spec fn opt_err_view(e: Option<LineParseError>) -> Option<ParseErrorView> {
    match e {
        Some(x) => Some(x@),
        None => None,
    }
}

/// What is wrong with a link, if anything (see [`link_fault`]).
pub fn check_link(link: &MarkdownLink, bold: bool) -> (r: Option<LineParseError>)
    ensures
        opt_err_view(r) == link_fault(link@, bold),
{
    if bold {
        let lv = crate::text::chars_of(link.label.as_str());
        let n = lv.len();
        if !(lit_at(&lv, 0, "**") && n >= 2 && lit_at(&lv, n - 2, "**")) {
            proof {
                if n < 2 {
                    assert(!has_prefix_at(lv@, n - 2, "**"@));
                }
            }
            return Some(LineParseError::InvalidLinkLabel(link.label.clone()));
        }
    }
    match parse_url(link.url.as_str()) {
        None => Some(LineParseError::InvalidUrl(link.url.clone())),
        Some(parts) => {
            if parts.host.is_none() {
                Some(LineParseError::InvalidUrl(link.url.clone()))
            } else if has_tracker(&parts.host, &parts.query) {
                Some(LineParseError::UrlContainsTracker(link.url.clone()))
            } else {
                None
            }
        },
    }
}

/// Reads `[label](url)` at `pos`: the label runs to the first `]`, which
/// must be followed by `(`; the URL runs to the next `)`.
pub open spec fn p_link(s: Seq<char>, pos: int) -> Result<(LinkView, int), ParseErrorView> {
    if !has_prefix_at(s, pos, "["@) {
        Err(ParseErrorView::ParseFailed(s))
    } else {
        match find_lit(s, pos + 1, "]"@) {
            None => Err(ParseErrorView::ParseFailed(s)),
            Some(c) => if !has_prefix_at(s, c + 1, "("@) {
                Err(ParseErrorView::ParseFailed(s))
            } else {
                match find_lit(s, c + 2, ")"@) {
                    None => Err(ParseErrorView::ParseFailed(s)),
                    Some(e) => Ok(
                        (LinkView { label: s.subrange(pos + 1, c), url: s.subrange(c + 2, e) }, e + 1),
                    ),
                }
            },
        }
    }
}

/// One or more links from `pos` to the end of `s`, separated by `delim`,
/// each passing [`link_fault`].
pub open spec fn p_links(s: Seq<char>, pos: int, delim: Seq<char>, bold: bool) -> Result<
    Seq<LinkView>,
    ParseErrorView,
>
    decreases s.len() - pos,
{
    match p_link(s, pos) {
        Err(e) => Err(e),
        Ok((l, e)) => match link_fault(l, bold) {
            Some(f) => Err(f),
            None => if e == s.len() {
                Ok(seq![l])
            } else if e <= pos || !has_prefix_at(s, e, delim) || delim.len() == 0 {
                Err(ParseErrorView::ParseFailed(s))
            } else {
                match p_links(s, e + delim.len(), delim, bold) {
                    Err(x) => Err(x),
                    Ok(rest) => Ok(seq![l] + rest),
                }
            },
        },
    }
}

pub open spec fn prepend_ok(acc: Seq<LinkView>, r: Result<Seq<LinkView>, ParseErrorView>) -> Result<
    Seq<LinkView>,
    ParseErrorView,
> {
    match r {
        Ok(rest) => Ok(acc + rest),
        Err(e) => Err(e),
    }
}

pub fn parse_link_at(v: &Vec<char>, pos: usize) -> (r: Result<(MarkdownLink, usize), LineParseError>)
    ensures
        match r {
            Ok((l, e)) => p_link(v@, pos as int) == Ok::<(LinkView, int), ParseErrorView>(
                (l@, e as int),
            ),
            Err(x) => p_link(v@, pos as int) == Err::<(LinkView, int), ParseErrorView>(x@),
        },
{
    let ghost s = v@;
    let _n = v.len();
    proof {
        reveal_strlit("[");
    }
    if !lit_at(v, pos, "[") {
        return Err(parse_failed(v));
    }
    proof {
        lemma_find_lit_bounds(s, pos + 1, "]"@);
    }
    let c = match find_lit_exec(v, pos + 1, "]") {
        None => {
            return Err(parse_failed(v));
        },
        Some(c) => c,
    };
    proof {
        crate::text::lemma_prefix_char(s, c as int, ']');
        crate::text::lemma_prefix_char(s, c + 1, '(');
        reveal_strlit("]");
        reveal_strlit("(");
        assert("]"@ =~= seq![']']);
        assert("("@ =~= seq!['(']);
    }
    if !lit_at(v, c + 1, "(") {
        return Err(parse_failed(v));
    }
    proof {
        lemma_find_lit_bounds(s, c + 2, ")"@);
    }
    let e = match find_lit_exec(v, c + 2, ")") {
        None => {
            return Err(parse_failed(v));
        },
        Some(e) => e,
    };
    proof {
        reveal_strlit(")");
        assert(")"@ =~= seq![')']);
        crate::text::lemma_prefix_char(s, e as int, ')');
    }
    let label = string_of(v, pos + 1, c);
    let url = string_of(v, c + 2, e);
    Ok((MarkdownLink { label, url }, e + 1))
}

pub fn parse_links_at(v: &Vec<char>, pos: usize, delim: &str, bold: bool) -> (r: Result<
    Vec<MarkdownLink>,
    LineParseError,
>)
    ensures
        match r {
            Ok(ls) => p_links(v@, pos as int, delim@, bold) == Ok::<
                Seq<LinkView>,
                ParseErrorView,
            >(links_view(ls@)),
            Err(x) => p_links(v@, pos as int, delim@, bold) == Err::<
                Seq<LinkView>,
                ParseErrorView,
            >(x@),
        },
{
    let ghost s = v@;
    let _n = v.len();
    let dn = delim.unicode_len();
    let mut out: Vec<MarkdownLink> = Vec::new();
    let mut p: usize = pos;
    loop
        invariant
            dn == delim@.len(),
            p_links(s, pos as int, delim@, bold) == prepend_ok(
                links_view(out@),
                p_links(s, p as int, delim@, bold),
            ),
            s == v@,
        decreases s.len() - p,
    {
        let (l, e) = match parse_link_at(v, p) {
            Err(x) => {
                return Err(x);
            },
            Ok(le) => le,
        };
        match check_link(&l, bold) {
            Some(f) => {
                return Err(f);
            },
            None => {},
        }
        let ghost lv = l@;
        let ghost before = out@;
        if e == v.len() {
            out.push(l);
            proof {
                assert(links_view(out@) =~= links_view(before) + seq![lv]);
            }
            return Ok(out);
        }
        if e <= p || dn == 0 || !lit_at(v, e, delim) {
            return Err(parse_failed(v));
        }
        out.push(l);
        proof {
            assert(links_view(out@) =~= links_view(before) + seq![lv]);
            let rest = p_links(s, e + dn, delim@, bold);
            match rest {
                Ok(r) => {
                    assert(links_view(before) + (seq![lv] + r) =~= links_view(out@) + r);
                },
                Err(_) => {},
            }
        }
        p = e + dn;
    }
}

} // verus!
