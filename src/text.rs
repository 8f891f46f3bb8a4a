//! Character-level helpers: text is modelled as a sequence of `char`s.
use vstd::prelude::*;

verus! {

broadcast use vstd::string::group_string_axioms;

/// `lit` occurs in `s` starting at index `pos`.
pub open spec fn has_prefix_at(s: Seq<char>, pos: int, lit: Seq<char>) -> bool {
    0 <= pos && pos + lit.len() <= s.len() && s.subrange(pos, pos + lit.len()) == lit
}

/// The first index at or after `pos` where `lit` occurs in `s`.
pub open spec fn find_lit(s: Seq<char>, pos: int, lit: Seq<char>) -> Option<int>
    decreases s.len() - pos,
{
    if pos < 0 || pos + lit.len() > s.len() {
        None
    } else if has_prefix_at(s, pos, lit) {
        Some(pos)
    } else if pos >= s.len() {
        None
    } else {
        find_lit(s, pos + 1, lit)
    }
}

/// `needle` occurs somewhere in `hay`.
pub open spec fn contains_seq(hay: Seq<char>, needle: Seq<char>) -> bool {
    exists|i: int| has_prefix_at(hay, i, needle)
}

pub proof fn lemma_find_lit_bounds(s: Seq<char>, pos: int, lit: Seq<char>)
    requires
        0 <= pos,
    ensures
        find_lit(s, pos, lit) matches Some(i) ==> pos <= i && has_prefix_at(s, i, lit),
        find_lit(s, pos, lit) is None ==> forall|j: int| pos <= j ==> !has_prefix_at(s, j, lit),
    decreases s.len() - pos,
{
    if lit.len() == 0 && pos <= s.len() {
        assert(s.subrange(pos, pos) =~= lit);
    }
    if pos + lit.len() > s.len() {
    } else if has_prefix_at(s, pos, lit) {
    } else {
        if lit.len() == 0 {
            assert(s.subrange(pos, pos) =~= lit);
        }
        lemma_find_lit_bounds(s, pos + 1, lit);
    }
}

/// `s[i]` is `c`, said as an occurrence of a one-char text.
pub proof fn lemma_prefix_char(s: Seq<char>, i: int, c: char)
    ensures
        has_prefix_at(s, i, seq![c]) <==> (0 <= i < s.len() && s[i] == c),
{
    if 0 <= i < s.len() && s[i] == c {
        assert(s.subrange(i, i + 1) =~= seq![c]);
    }
    if has_prefix_at(s, i, seq![c]) {
        assert(s.subrange(i, i + 1)[0] == s[i]);
    }
}

/// Relies on `String::push`: appends the given char to the end of the string.
#[verifier::external_body]
pub(crate) fn push_char(s: &mut String, c: char)
    ensures
        final(s)@ == old(s)@.push(c),
{
    s.push(c)
}

/// The characters of a string, in order.
pub fn chars_of(s: &str) -> (r: Vec<char>)
    ensures
        r@ == s@,
{
    let n = s.unicode_len();
    let mut v: Vec<char> = Vec::new();
    let mut i: usize = 0;
    while i < n
        invariant
            n == s@.len(),
            i <= n,
            v@ == s@.subrange(0, i as int),
        decreases n - i,
    {
        v.push(s.get_char(i));
        i = i + 1;
    }
    assert(v@ =~= s@);
    v
}

/// The characters `v[from..to]` as a string.
pub fn string_of(v: &Vec<char>, from: usize, to: usize) -> (r: String)
    requires
        from <= to <= v@.len(),
    ensures
        r@ == v@.subrange(from as int, to as int),
{
    let mut s = String::new();
    let mut i: usize = from;
    while i < to
        invariant
            from <= i <= to <= v@.len(),
            s@ =~= v@.subrange(from as int, i as int),
        decreases to - i,
    {
        push_char(&mut s, v[i]);
        i = i + 1;
    }
    s
}

/// Whether `lit` occurs in `v` at index `pos`.
pub fn lit_at(v: &Vec<char>, pos: usize, lit: &str) -> (r: bool)
    ensures
        r == has_prefix_at(v@, pos as int, lit@),
{
    let n = lit.unicode_len();
    if pos > v.len() || n > v.len() - pos {
        return false;
    }
    let mut i: usize = 0;
    while i < n
        invariant
            n == lit@.len(),
            pos + n <= v.len(),
            i <= n,
            forall|j: int| 0 <= j < i ==> v@[pos + j] == lit@[j],
        decreases n - i,
    {
        if v[pos + i] != lit.get_char(i) {
            assert(v@.subrange(pos as int, pos + n)[i as int] != lit@[i as int]);
            return false;
        }
        i = i + 1;
    }
    assert(v@.subrange(pos as int, pos + n) =~= lit@);
    true
}

/// Whether the two strings hold the same characters.
pub fn strings_equal(a: &String, b: &String) -> (r: bool)
    ensures
        r == (a@ == b@),
{
    a.eq(b)
}

/// Whether the whole of `v` equals `lit`.
pub fn chars_eq(v: &Vec<char>, lit: &str) -> (r: bool)
    ensures
        r == (v@ == lit@),
{
    let n = lit.unicode_len();
    if v.len() != n {
        return false;
    }
    let r = lit_at(v, 0, lit);
    assert(v@.subrange(0, n as int) =~= v@);
    r
}

/// The first index at or after `pos` where `lit` occurs in `v`.
pub fn find_lit_exec(v: &Vec<char>, pos: usize, lit: &str) -> (r: Option<usize>)
    ensures
        r matches Some(i) ==> find_lit(v@, pos as int, lit@) == Some(i as int),
        r is None ==> find_lit(v@, pos as int, lit@) is None,
{
    let n = lit.unicode_len();
    if pos > v.len() {
        return None;
    }
    let mut i: usize = pos;
    while n <= v.len() - i
        invariant
            pos <= i <= v@.len(),
            n == lit@.len(),
            find_lit(v@, pos as int, lit@) == find_lit(v@, i as int, lit@),
        decreases v@.len() - i,
    {
        if lit_at(v, i, lit) {
            return Some(i);
        }
        if n == 0 {
            assert(v@.subrange(i as int, i as int) =~= lit@);
        }
        i = i + 1;
    }
    None
}

/// Whether `needle` occurs anywhere in `hay`.
pub fn contains_exec(hay: &Vec<char>, needle: &str) -> (r: bool)
    ensures
        r == contains_seq(hay@, needle@),
{
    let r = find_lit_exec(hay, 0, needle);
    proof {
        lemma_find_lit_bounds(hay@, 0, needle@);
    }
    match r {
        Some(_) => true,
        None => {
            assert forall|i: int| !has_prefix_at(hay@, i, needle@) by {}
            false
        },
    }
}

} // verus!
