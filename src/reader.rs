//! Readers that hand out the lines of a newsletter one by one, numbered
//! from 1 and each read with the line grammar.
use vstd::prelude::*;

use crate::grammar::{
    end_marker, parse_line_chars, parse_line_spec, start_marker, LineParseError,
    LineView, ParseErrorView, ParsedLine,
};
use crate::text::{
    chars_of, find_lit, find_lit_exec, lemma_find_lit_bounds, string_of,
};

verus! {

/// The lines of `s` from index `pos` on: each runs up to the next line
/// break, which is dropped; text after the last break is a last line.
pub open spec fn lines_from(s: Seq<char>, pos: int) -> Seq<Seq<char>>
    decreases s.len() - pos,
{
    if pos < 0 || pos >= s.len() {
        Seq::empty()
    } else {
        match find_lit(s, pos, "\n"@) {
            Some(i) => if pos <= i < s.len() {
                seq![s.subrange(pos, i)] + lines_from(s, i + 1)
            } else {
                Seq::empty()
            },
            None => seq![s.subrange(pos, s.len() as int)],
        }
    }
}

/// The lines of a whole text.
pub open spec fn lines_of(s: Seq<char>) -> Seq<Seq<char>> {
    lines_from(s, 0)
}

/// A line that was read, with its number and its text.
#[derive(Clone, Debug, PartialEq, Eq, Hash)]
pub struct Line {
    pub line_num: u64,
    pub line_parsed: ParsedLine,
    pub line_raw: String,
}

/// A line that could not be read, with its number and its text.
#[derive(Clone, Debug, PartialEq, Eq, Hash)]
pub struct LineError {
    pub error: LineParseError,
    pub num: u64,
    pub raw: String,
}

impl Line {
    pub fn num(&self) -> (r: u64)
        ensures
            r == self.line_num,
    {
        self.line_num
    }

    pub fn parsed(&self) -> (r: &ParsedLine)
        ensures
            *r == self.line_parsed,
    {
        &self.line_parsed
    }

    pub fn raw(&self) -> (r: &str)
        ensures
            r@ == self.line_raw@,
    {
        self.line_raw.as_str()
    }
}

/// A line as handed out by a reader: its number, its text and what the
/// grammar made of it.
pub struct ItemView {
    pub num: int,
    pub raw: Seq<char>,
    pub parsed: Result<LineView, ParseErrorView>,
}

pub open spec fn item_view(x: Result<Line, LineError>) -> ItemView {
    match x {
        Ok(l) => ItemView { num: l.line_num as int, raw: l.line_raw@, parsed: Ok(l.line_parsed@) },
        Err(e) => ItemView { num: e.num as int, raw: e.raw@, parsed: Err(e.error@) },
    }
}

/// The items that the lines `ls` give when the first is numbered `first`.
pub open spec fn items_of(ls: Seq<Seq<char>>, first: int) -> Seq<ItemView> {
    Seq::new(
        ls.len(),
        |i: int| ItemView { num: first + i, raw: ls[i], parsed: parse_line_spec(ls[i]) },
    )
}

/// Reads every line of a text.
pub struct TwirReader {
    text: Vec<char>,
    pos: usize,
    line_num: u64,
}

impl TwirReader {
    #[verifier::type_invariant]
    spec fn inv(self) -> bool {
        self.pos <= self.text@.len() && self.line_num + (self.text@.len() - self.pos) <= usize::MAX
    }

    /// The lines not handed out yet.
    pub closed spec fn remaining(self) -> Seq<Seq<char>> {
        lines_from(self.text@, self.pos as int)
    }

    /// The number of the last line handed out (0 before the first).
    pub closed spec fn last_num(self) -> int {
        self.line_num as int
    }

    pub fn new(contents: &str) -> (r: TwirReader)
        ensures
            r.remaining() == lines_of(contents@),
            r.last_num() == 0,
    {
        let text = chars_of(contents);
        let _n = text.len();
        TwirReader { text, pos: 0, line_num: 0 }
    }

    /// The next line, numbered and read; `None` once all lines are out.
    pub fn next_line(&mut self) -> (r: Option<Result<Line, LineError>>)
        ensures
            match r {
                None => old(self).remaining().len() == 0 && final(self).remaining().len() == 0
                    && final(self).last_num() == old(self).last_num(),
                Some(x) => {
                    &&& old(self).remaining().len() > 0
                    &&& final(self).remaining() == old(self).remaining().drop_first()
                    &&& final(self).last_num() == old(self).last_num() + 1
                    &&& item_view(x) == (ItemView {
                        num: old(self).last_num() + 1,
                        raw: old(self).remaining()[0],
                        parsed: parse_line_spec(old(self).remaining()[0]),
                    })
                },
            },
    {
        proof {
            use_type_invariant(&*self);
        }
        let n = self.text.len();
        if self.pos >= n {
            return None;
        }
        let ghost s = self.text@;
        let ghost p0 = self.pos as int;
        proof {
            lemma_find_lit_bounds(s, p0, "\n"@);
            reveal_strlit("\n");
        }
        let start = self.pos;
        let (line, next) = match find_lit_exec(&self.text, self.pos, "\n") {
            Some(i) => {
                proof {
                    assert(lines_from(s, p0) == seq![s.subrange(p0, i as int)] + lines_from(s, i + 1));
                    assert(lines_from(s, i + 1) =~= lines_from(s, p0).drop_first());
                }
                (string_of(&self.text, start, i), i + 1)
            },
            None => {
                proof {
                    assert(lines_from(s, p0) == seq![s.subrange(p0, n as int)]);
                    assert(lines_from(s, n as int) =~= lines_from(s, p0).drop_first());
                }
                (string_of(&self.text, start, n), n)
            },
        };
        self.pos = next;
        self.line_num = self.line_num + 1;
        let lv = chars_of(line.as_str());
        let parsed = parse_line_chars(&lv);
        let num = self.line_num;
        match parsed {
            Ok(p) => Some(Ok(Line { line_num: num, line_parsed: p, line_raw: line })),
            Err(e) => Some(Err(LineError { error: e, num, raw: line })),
        }
    }
}

/// The index just after the line that holds index `i` (after its line
/// break, or the end of the text).
pub open spec fn line_end(s: Seq<char>, i: int) -> int {
    match find_lit(s, i, "\n"@) {
        Some(j) => j + 1,
        None => s.len() as int,
    }
}

/// How many line breaks stand in `s[0..n]`.
pub open spec fn breaks_before(s: Seq<char>, n: int) -> int
    decreases n,
{
    if n <= 0 {
        0
    } else {
        breaks_before(s, n - 1) + if s[n - 1] == '\n' {
            1int
        } else {
            0int
        }
    }
}

/// Where the events section stands in `s`: from the start marker up to the
/// end of the line that holds the end marker (searched after the start).
pub open spec fn section_bounds(s: Seq<char>) -> Option<(int, int)> {
    match find_lit(s, 0, start_marker()) {
        None => None,
        Some(a) => match find_lit(s, a, end_marker()) {
            None => None,
            Some(b) => Some((a, line_end(s, b))),
        },
    }
}

/// Reads the lines of the events section of a text only, keeping the line
/// numbers of the whole text.
pub struct Reader {
    lines: TwirReader,
}

impl Reader {
    /// The lines not handed out yet.
    pub closed spec fn remaining(self) -> Seq<Seq<char>> {
        self.lines.remaining()
    }

    /// The number of the last line handed out.
    pub closed spec fn last_num(self) -> int {
        self.lines.last_num()
    }

    /// A reader of the section, or `None` when the text lacks the start
    /// marker or, after it, the end marker.
    pub fn new(contents: &str) -> (r: Option<Reader>)
        ensures
            match section_bounds(contents@) {
                None => r is None,
                Some((a, b)) => r matches Some(rd) && rd.remaining() == lines_of(
                    contents@.subrange(a, b),
                ) && rd.last_num() == breaks_before(contents@, a),
            },
    {
        let v = chars_of(contents);
        let _n = v.len();
        let ghost s = v@;
        proof {
            reveal_strlit("\n");
        }
        let a = match find_lit_exec(&v, 0, "## Upcoming Events") {
            None => {
                return None;
            },
            Some(a) => a,
        };
        let b = match find_lit_exec(&v, a, "If you are running a Rust event please add it to the [calendar]") {
            None => {
                return None;
            },
            Some(b) => b,
        };
        proof {
            lemma_find_lit_bounds(s, 0, start_marker());
            lemma_find_lit_bounds(s, a as int, end_marker());
            lemma_find_lit_bounds(s, b as int, "\n"@);
        }
        let end = match find_lit_exec(&v, b, "\n") {
            Some(j) => j + 1,
            None => v.len(),
        };
        let mut section: Vec<char> = Vec::new();
        let mut i: usize = a;
        while i < end
            invariant
                a <= i <= end <= v@.len(),
                section@ =~= v@.subrange(a as int, i as int),
            decreases end - i,
        {
            section.push(v[i]);
            i = i + 1;
        }
        let mut breaks: u64 = 0;
        let mut k: usize = 0;
        while k < a
            invariant
                k <= a <= v@.len(),
                breaks == breaks_before(v@, k as int),
                breaks <= k,
            decreases a - k,
        {
            if v[k] == '\n' {
                breaks = breaks + 1;
            }
            k = k + 1;
        }
        assert(section@.len() == end - a);
        Some(Reader { lines: TwirReader { text: section, pos: 0, line_num: breaks } })
    }

    /// The next line of the section (see [`TwirReader::next_line`]).
    pub fn next_line(&mut self) -> (r: Option<Result<Line, LineError>>)
        ensures
            match r {
                None => old(self).remaining().len() == 0 && final(self).remaining().len() == 0
                    && final(self).last_num() == old(self).last_num(),
                Some(x) => {
                    &&& old(self).remaining().len() > 0
                    &&& final(self).remaining() == old(self).remaining().drop_first()
                    &&& final(self).last_num() == old(self).last_num() + 1
                    &&& item_view(x) == (ItemView {
                        num: old(self).last_num() + 1,
                        raw: old(self).remaining()[0],
                        parsed: parse_line_spec(old(self).remaining()[0]),
                    })
                },
            },
    {
        self.lines.next_line()
    }
}

} // verus!
