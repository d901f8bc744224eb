//! The canonical form of an answer line: whitespace around `=` removed, ASCII
//! letters lowered, tokens sorted and joined by single spaces.

use vstd::prelude::*;
use regex::Regex;
use crate::order::{sort_tokens, token_le};
use crate::text::{chars_of, is_whitespace, is_ws, string_of};

verus! {

#[verifier::external_type_specification]
#[verifier::external_body]
pub struct ExRegex(Regex);

#[verifier::external_type_specification]
#[verifier::external_body]
pub struct ExRegexError(regex::Error);

/// The pattern a compiled regex was built from, as `Regex::as_str` reports it.
pub uninterp spec fn regex_source(re: Regex) -> Seq<char>;

/// Relies on `regex::Regex::new`: on success the regex keeps the pattern it
/// was compiled from.
#[verifier::external_body]
fn compile(pattern: &str) -> (r: Result<Regex, regex::Error>)
    ensures
        r matches Ok(re) ==> regex_source(re) == pattern@,
{
    Regex::new(pattern)
}

/// The pattern of one `=` with any whitespace on either side.
pub open spec fn eq_spacing_pattern() -> Seq<char> {
    "\\s*=\\s*"@
}

/// Relies on `regex::Regex::replace_all` with the replacement `=`: matches are
/// found leftmost first and do not overlap, `\s` is Unicode whitespace and
/// `\s*` is greedy, so each `=` together with the whitespace run before it
/// and the one after it becomes a single `=`.
#[verifier::external_body]
fn replace_eq_spacing(re: &Regex, s: &str) -> (r: String)
    requires
        regex_source(*re) == eq_spacing_pattern(),
    ensures
        r@ == collapse_eq(s@),
{
    re.replace_all(s, "=").into_owned()
}

/// `s` starts with a run of whitespace, possibly empty, followed by `=`.
pub open spec fn ws_then_eq(s: Seq<char>) -> bool
    decreases s.len(),
{
    s.len() > 0 && (s[0] == '=' || (is_ws(s[0]) && ws_then_eq(s.drop_first())))
}

/// Scans `s` and drops whitespace that touches an `=`; `after_eq` is set
/// while the scan is in a whitespace run that directly follows an `=`.
pub open spec fn collapse_from(s: Seq<char>, after_eq: bool) -> Seq<char>
    decreases s.len(),
{
    if s.len() == 0 {
        s
    } else if is_ws(s[0]) && (after_eq || ws_then_eq(s)) {
        collapse_from(s.drop_first(), after_eq)
    } else if s[0] == '=' {
        seq!['='] + collapse_from(s.drop_first(), true)
    } else {
        seq![s[0]] + collapse_from(s.drop_first(), false)
    }
}

pub open spec fn collapse_eq(s: Seq<char>) -> Seq<char> {
    collapse_from(s, false)
}

pub open spec fn trim_start(s: Seq<char>) -> Seq<char>
    decreases s.len(),
{
    if s.len() > 0 && is_ws(s[0]) {
        trim_start(s.drop_first())
    } else {
        s
    }
}

pub open spec fn trim_end(s: Seq<char>) -> Seq<char>
    decreases s.len(),
{
    if s.len() > 0 && is_ws(s.last()) {
        trim_end(s.drop_last())
    } else {
        s
    }
}

pub open spec fn trim(s: Seq<char>) -> Seq<char> {
    trim_end(trim_start(s))
}

pub open spec fn lower_char(c: char) -> char {
    if 'A' <= c && c <= 'Z' {
        ((c as u8) + 32u8) as char
    } else {
        c
    }
}

pub open spec fn lower(s: Seq<char>) -> Seq<char> {
    s.map_values(|c: char| lower_char(c))
}

/// The maximal runs of non-whitespace characters of `s`, in order.
pub open spec fn ws_tokens(s: Seq<char>) -> Seq<Seq<char>>
    decreases s.len(),
{
    if s.len() == 0 {
        seq![]
    } else {
        let p = ws_tokens(s.drop_last());
        let c = s.last();
        if is_ws(c) {
            p
        } else if s.len() >= 2 && !is_ws(s[s.len() - 2]) && p.len() > 0 {
            p.update(p.len() - 1, p.last().push(c))
        } else {
            p.push(seq![c])
        }
    }
}

/// The tokens joined by single spaces.
pub open spec fn join_spaces(ts: Seq<Seq<char>>) -> Seq<char>
    decreases ts.len(),
{
    if ts.len() == 0 {
        seq![]
    } else if ts.len() == 1 {
        ts[0]
    } else {
        join_spaces(ts.drop_last()) + seq![' '] + ts.last()
    }
}

/// The tokens of the line after trimming, removing whitespace around `=` and
/// lowering ASCII letters, in ascending order.
pub open spec fn answer_tokens(s: Seq<char>) -> Seq<Seq<char>> {
    ws_tokens(lower(collapse_eq(trim(s)))).sort_by(token_le())
}

/// The canonical form of a line.
pub open spec fn normalize(s: Seq<char>) -> Seq<char> {
    join_spaces(answer_tokens(s))
}

fn copy_range(s: &Vec<char>, lo: usize, hi: usize) -> (r: Vec<char>)
    requires
        lo <= hi <= s.len(),
    ensures
        r@ == s@.subrange(lo as int, hi as int),
{
    let mut out: Vec<char> = Vec::new();
    let mut i: usize = lo;
    while i < hi
        invariant
            lo <= i <= hi <= s.len(),
            out@ == s@.subrange(lo as int, i as int),
        decreases hi - i,
    {
        out.push(s[i]);
        i += 1;
        assert(out@ =~= s@.subrange(lo as int, i as int));
    }
    out
}

/// Removes leading and trailing whitespace.
pub fn trim_chars(s: &Vec<char>) -> (r: Vec<char>)
    ensures
        r@ == trim(s@),
{
    let mut lo: usize = 0;
    assert(s@.subrange(0, s.len() as int) =~= s@);
    while lo < s.len() && is_whitespace(s[lo])
        invariant
            lo <= s.len(),
            trim_start(s@) == trim_start(s@.subrange(lo as int, s.len() as int)),
        decreases s.len() - lo,
    {
        assert(s@.subrange(lo as int, s.len() as int).drop_first() =~= s@.subrange(lo + 1, s.len() as int));
        lo += 1;
    }
    let mut hi: usize = s.len();
    assert(trim_start(s@) == s@.subrange(lo as int, s.len() as int));
    while hi > lo && is_whitespace(s[hi - 1])
        invariant
            lo <= hi <= s.len(),
            trim(s@) == trim_end(s@.subrange(lo as int, hi as int)),
        decreases hi,
    {
        assert(s@.subrange(lo as int, hi as int).drop_last() =~= s@.subrange(lo as int, hi - 1));
        hi -= 1;
    }
    copy_range(s, lo, hi)
}

pub fn lower_chars(s: &Vec<char>) -> (r: Vec<char>)
    ensures
        r@ == lower(s@),
{
    let mut out: Vec<char> = Vec::new();
    let mut i: usize = 0;
    while i < s.len()
        invariant
            i <= s.len(),
            out@ == lower(s@.subrange(0, i as int)),
        decreases s.len() - i,
    {
        let c = s[i];
        let l = if 'A' <= c && c <= 'Z' {
            ((c as u8) + 32u8) as char
        } else {
            c
        };
        out.push(l);
        i += 1;
        assert(out@ =~= lower(s@.subrange(0, i as int)));
    }
    assert(s@.subrange(0, s.len() as int) =~= s@);
    out
}

/// Splits on runs of whitespace.
pub fn split_ws(s: &Vec<char>) -> (r: Vec<Vec<char>>)
    ensures
        r.deep_view() == ws_tokens(s@),
{
    let mut toks: Vec<Vec<char>> = Vec::new();
    let mut i: usize = 0;
    assert(s@.subrange(0, 0) =~= Seq::<char>::empty());
    assert(toks.deep_view() =~= ws_tokens(s@.subrange(0, 0)));
    while i < s.len()
        invariant
            i <= s.len(),
            toks.deep_view() == ws_tokens(s@.subrange(0, i as int)),
            i > 0 && !is_ws(s@[i - 1]) ==> toks.len() > 0,
        decreases s.len() - i,
    {
        let c = s[i];
        let ghost pre = s@.subrange(0, i as int);
        let ghost cur = s@.subrange(0, i + 1);
        assert(cur.drop_last() =~= pre);
        assert(cur.last() == c);
        if is_whitespace(c) {
        } else if i > 0 && !is_whitespace(s[i - 1]) {
            assert(cur[cur.len() - 2] == s@[i - 1]);
            let ghost before = toks.deep_view();
            let ghost raw = toks@;
            let mut last = toks.pop().unwrap();
            assert(last@ == before.last());
            last.push(c);
            toks.push(last);
            assert(toks@ == raw.drop_last().push(last));
            assert forall|k: int| 0 <= k < toks.len() implies toks.deep_view()[k] == before.update(before.len() - 1, before.last().push(c))[k] by {
                if k < toks.len() - 1 {
                    assert(toks@[k] == raw[k]);
                }
            }
            assert(toks.deep_view() =~= before.update(before.len() - 1, before.last().push(c)));
        } else {
            let ghost before = toks.deep_view();
            let one = vec![c];
            assert(one@ =~= seq![c]);
            let ghost raw = toks@;
            toks.push(one);
            assert forall|k: int| 0 <= k < toks.len() implies toks.deep_view()[k] == before.push(seq![c])[k] by {
                if k < toks.len() - 1 {
                    assert(toks@[k] == raw[k]);
                }
            }
            assert(toks.deep_view() =~= before.push(seq![c]));
        }
        i += 1;
    }
    assert(s@.subrange(0, s.len() as int) =~= s@);
    toks
}

/// Joins tokens with single spaces.
pub fn join_tokens(ts: &Vec<Vec<char>>) -> (r: Vec<char>)
    ensures
        r@ == join_spaces(ts.deep_view()),
{
    let mut out: Vec<char> = Vec::new();
    let mut i: usize = 0;
    while i < ts.len()
        invariant
            i <= ts.len(),
            out@ == join_spaces(ts.deep_view().subrange(0, i as int)),
        decreases ts.len() - i,
    {
        let ghost pre = ts.deep_view().subrange(0, i as int);
        let ghost cur = ts.deep_view().subrange(0, i + 1);
        assert(cur.drop_last() =~= pre);
        if i > 0 {
            out.push(' ');
        }
        let t = &ts[i];
        let mut j: usize = 0;
        let ghost base = out@;
        while j < t.len()
            invariant
                j <= t.len(),
                out@ == base + t@.subrange(0, j as int),
            decreases t.len() - j,
        {
            out.push(t[j]);
            j += 1;
            assert(out@ =~= base + t@.subrange(0, j as int));
        }
        assert(t@.subrange(0, t.len() as int) =~= t@);
        assert(cur.last() == t@);
        if i == 0 {
            assert(out@ =~= join_spaces(cur));
        } else {
            assert(out@ =~= join_spaces(cur));
        }
        i += 1;
    }
    assert(ts.deep_view().subrange(0, ts.len() as int) =~= ts.deep_view());
    out
}

/// Turns answer lines into their canonical form.
pub struct Normalizer {
    replacer: Regex,
}

impl Normalizer {
    #[verifier::type_invariant]
    spec fn inv(&self) -> bool {
        regex_source(self.replacer) == eq_spacing_pattern()
    }

    /// Compiles the pattern that finds `=` with the whitespace around it;
    /// `None` where the regex engine refuses it.
    pub fn new() -> (r: Option<Normalizer>) {
        match compile("\\s*=\\s*") {
            Ok(re) => Some(Normalizer { replacer: re }),
            Err(_) => None,
        }
    }

    /// The canonical form of `answer`, as characters.
    pub fn normalize_chars(&self, answer: &Vec<char>) -> (r: Vec<char>)
        ensures
            r@ == normalize(answer@),
    {
        proof {
            use_type_invariant(self);
        }
        let trimmed = string_of(&trim_chars(answer));
        let collapsed = replace_eq_spacing(&self.replacer, trimmed.as_str());
        let lowered = lower_chars(&chars_of(collapsed.as_str()));
        let sorted = sort_tokens(split_ws(&lowered));
        join_tokens(&sorted)
    }

    /// The canonical form of `answer`.
    pub fn format_answer(&self, answer: &str) -> (r: String)
        ensures
            r@ == normalize(answer@),
    {
        string_of(&self.normalize_chars(&chars_of(answer)))
    }
}

} // verus!
