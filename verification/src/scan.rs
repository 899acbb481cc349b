//! Line scanning: keyword and regular-expression matching over the lines of a
//! page's text, each match carrying a fixed-size window of context lines.

use vstd::prelude::*;
use vstd::string::StrSliceExecFns;
use vstd::string::StringExecFns;

use crate::error::AstraPdfError;
use crate::text::{
    line_matches_keyword, lower_char, spec_contains, spec_join_nl, spec_lines, proc_str,
    split_lines, str_contains, join_lines, nl_free, lemma_lines_nl_free,
    lemma_join_then_split_count,
};

verus! {

/// One matched line, with its surrounding context.
#[derive(Debug, Clone)]
pub struct MatchResult {
    /// The matched line itself.
    pub text: String,
    /// Up to the configured number of lines just before the match, joined
    /// with newlines.
    pub context_before: String,
    /// Up to the configured number of lines just after the match, joined
    /// with newlines.
    pub context_after: String,
    /// The page the match was found on.
    pub page: u32,
    /// The 1-based line number within the page text.
    pub line_number: usize,
}

/// The lines standing in the context window before line `i`.
pub open spec fn context_before_lines(lines: Seq<Seq<char>>, i: int, n: nat) -> Seq<Seq<char>> {
    lines.subrange(
        if i - n >= 0 {
            i - n
        } else {
            0
        },
        i,
    )
}

/// The lines standing in the context window after line `i`.
pub open spec fn context_after_lines(lines: Seq<Seq<char>>, i: int, n: nat) -> Seq<Seq<char>> {
    lines.subrange(
        i + 1,
        if i + 1 + n <= lines.len() {
            i + 1 + n
        } else {
            lines.len() as int
        },
    )
}

/// `m` is the match record for line `i` of `lines` on page `page` with a
/// context window of `n` lines.
pub open spec fn match_is(
    lines: Seq<Seq<char>>,
    page: u32,
    n: nat,
    i: int,
    m: MatchResult,
) -> bool {
    &&& 0 <= i < lines.len()
    &&& m.text@ == lines[i]
    &&& m.context_before@ == spec_join_nl(context_before_lines(lines, i, n))
    &&& m.context_after@ == spec_join_nl(context_after_lines(lines, i, n))
    &&& m.page == page
    &&& m.line_number == i + 1
}

/// The indices below `i` of the lines satisfying `pred`, in increasing order.
pub open spec fn match_indices_upto(
    lines: Seq<Seq<char>>,
    pred: spec_fn(Seq<char>) -> bool,
    i: int,
) -> Seq<int>
    decreases i,
{
    if i <= 0 {
        Seq::empty()
    } else if pred(lines[i - 1]) {
        match_indices_upto(lines, pred, i - 1).push(i - 1)
    } else {
        match_indices_upto(lines, pred, i - 1)
    }
}

/// The predicate of keyword matching.
pub open spec fn keyword_pred(kw: Seq<char>, ignore_case: bool) -> spec_fn(Seq<char>) -> bool {
    |l: Seq<char>| line_matches_keyword(l, kw, ignore_case)
}

/// The set of match records for the lines satisfying `pred`: one record per
/// matching line, in line order.
pub open spec fn matches_for(
    lines: Seq<Seq<char>>,
    pred: spec_fn(Seq<char>) -> bool,
    page: u32,
    n: nat,
    ms: Seq<MatchResult>,
) -> bool {
    let idxs = match_indices_upto(lines, pred, lines.len() as int);
    &&& ms.len() == idxs.len()
    &&& forall|k: int| 0 <= k < ms.len() ==> match_is(lines, page, n, idxs[k], ms[k])
}

/// Build the match record for line `i`.
fn build_match(lines: &Vec<&str>, i: usize, page: u32, context_lines: usize) -> (m: MatchResult)
    requires
        i < lines@.len(),
    ensures
        match_is(lines.deep_view(), page, context_lines as nat, i as int, m),
{
    let ghost dv = lines.deep_view();
    let from = if i >= context_lines {
        i - context_lines
    } else {
        0
    };
    let before = join_lines(lines, from, i);
    let avail = lines.len() - (i + 1);
    let upto = if context_lines <= avail {
        i + 1 + context_lines
    } else {
        lines.len()
    };
    let after = join_lines(lines, i + 1, upto);
    proof {
        assert(dv.subrange(from as int, i as int) == context_before_lines(
            dv,
            i as int,
            context_lines as nat,
        ));
        assert(dv.subrange(i + 1, upto as int) == context_after_lines(
            dv,
            i as int,
            context_lines as nat,
        ));
    }
    MatchResult {
        text: String::from_str(lines[i]),
        context_before: before,
        context_after: after,
        page,
        line_number: i + 1,
    }
}

/// Scan `text` line by line for `keyword` as a substring, with optional ASCII
/// case folding, and return one match record per matching line.
pub fn find_keyword_matches(
    text: &str,
    keyword: &str,
    page_num: u32,
    context_lines: usize,
    ignore_case: bool,
) -> (r: Vec<MatchResult>)
    ensures
        matches_for(
            spec_lines(text@),
            keyword_pred(keyword@, ignore_case),
            page_num,
            context_lines as nat,
            r@,
        ),
{
    let lines = split_lines(text);
    let ghost dv = lines.deep_view();
    let ghost pred = keyword_pred(keyword@, ignore_case);
    let mut r: Vec<MatchResult> = Vec::new();
    let mut i: usize = 0;
    while i < lines.len()
        invariant
            dv == lines.deep_view(),
            dv.len() == lines@.len(),
            pred == keyword_pred(keyword@, ignore_case),
            0 <= i <= lines@.len(),
            r@.len() == match_indices_upto(dv, pred, i as int).len(),
            forall|k: int|
                0 <= k < r@.len() ==> match_is(
                    dv,
                    page_num,
                    context_lines as nat,
                    match_indices_upto(dv, pred, i as int)[k],
                    r@[k],
                ),
        decreases lines@.len() - i,
    {
        let hit = str_contains(lines[i], keyword, ignore_case);
        proof {
            assert(lines[i as int]@ == dv[i as int]);
            assert(hit == pred(dv[i as int]));
        }
        if hit {
            let m = build_match(&lines, i, page_num, context_lines);
            r.push(m);
            proof {
                assert(match_indices_upto(dv, pred, i + 1) == match_indices_upto(
                    dv,
                    pred,
                    i as int,
                ).push(i as int));
            }
        } else {
            proof {
                assert(match_indices_upto(dv, pred, i + 1) == match_indices_upto(
                    dv,
                    pred,
                    i as int,
                ));
            }
        }
        i += 1;
    }
    proof {
        assert(dv == spec_lines(text@));
    }
    r
}

/// Whether a regular-expression pattern compiles. The result of
/// `regex::Regex::new` depends on the pattern alone.
pub uninterp spec fn regex_compiles(p: Seq<char>) -> bool;

/// Whether a compiled pattern finds a match anywhere in a line. The result of
/// `regex::Regex::is_match` depends on the pattern and the haystack alone.
pub uninterp spec fn regex_matches(p: Seq<char>, line: Seq<char>) -> bool;

/// Declares `regex::Regex` so that a compiled pattern can stand in a field;
/// its inside stays opaque to the verifier.
#[verifier::external_type_specification]
#[verifier::external_body]
pub struct ExRegex(regex::Regex);

/// A compiled regular expression, kept with the pattern it was built from.
pub(crate) struct CompiledPattern {
    pattern: String,
    regex: regex::Regex,
}

impl View for CompiledPattern {
    type V = Seq<char>;

    closed spec fn view(&self) -> Seq<char> {
        self.pattern@
    }
}

impl CompiledPattern {
    /// Relies on `regex::Regex::new`: it compiles exactly the patterns of the
    /// regex syntax, deterministically in the pattern, and reports the others
    /// in its error.
    #[verifier::external_body]
    pub(crate) fn new(pattern: &str) -> (r: Result<CompiledPattern, String>)
        ensures
            r is Ok <==> regex_compiles(pattern@),
            r matches Ok(c) ==> c@ == pattern@,
    {
        match regex::Regex::new(pattern) {
            Ok(re) => Ok(CompiledPattern { pattern: pattern.to_string(), regex: re }),
            Err(e) => Err(e.to_string()),
        }
    }

    /// Relies on `regex::Regex::is_match`: whether the pattern matches
    /// anywhere in the line depends on the pattern and the line alone.
    #[verifier::external_body]
    pub(crate) fn is_match(&self, line: &str) -> (r: bool)
        ensures
            r == regex_matches(self@, line@),
    {
        self.regex.is_match(line)
    }
}

/// The predicate of regular-expression matching.
pub open spec fn regex_pred(p: Seq<char>) -> spec_fn(Seq<char>) -> bool {
    |l: Seq<char>| regex_matches(p, l)
}

/// Scan `text` line by line with an already compiled pattern and return one
/// match record per line the pattern matches.
pub(crate) fn scan_compiled(text: &str, cp: &CompiledPattern, page_num: u32, context_lines: usize) -> (r:
    Vec<MatchResult>)
    ensures
        matches_for(spec_lines(text@), regex_pred(cp@), page_num, context_lines as nat, r@),
{
    let ghost pat = cp@;
    let lines = split_lines(text);
    let ghost dv = lines.deep_view();
    let ghost pred = regex_pred(cp@);
    let mut r: Vec<MatchResult> = Vec::new();
    let mut i: usize = 0;
    while i < lines.len()
        invariant
            dv == lines.deep_view(),
            dv.len() == lines@.len(),
            pred == regex_pred(pat),
            cp@ == pat,
            0 <= i <= lines@.len(),
            r@.len() == match_indices_upto(dv, pred, i as int).len(),
            forall|k: int|
                0 <= k < r@.len() ==> match_is(
                    dv,
                    page_num,
                    context_lines as nat,
                    match_indices_upto(dv, pred, i as int)[k],
                    r@[k],
                ),
        decreases lines@.len() - i,
    {
        let hit = cp.is_match(lines[i]);
        proof {
            assert(lines[i as int]@ == dv[i as int]);
            assert(hit == pred(dv[i as int]));
        }
        if hit {
            let m = build_match(&lines, i, page_num, context_lines);
            r.push(m);
            proof {
                assert(match_indices_upto(dv, pred, i + 1) == match_indices_upto(
                    dv,
                    pred,
                    i as int,
                ).push(i as int));
            }
        } else {
            proof {
                assert(match_indices_upto(dv, pred, i + 1) == match_indices_upto(
                    dv,
                    pred,
                    i as int,
                ));
            }
        }
        i += 1;
    }
    proof {
        assert(dv == spec_lines(text@));
    }
    r
}

/// Scan `text` line by line with a regular expression and return one match
/// record per line the pattern matches. The pattern is compiled first: an
/// invalid pattern fails the whole scan before any line is read.
pub fn find_regex_matches(text: &str, pattern: &str, page_num: u32, context_lines: usize) -> (r:
    Result<Vec<MatchResult>, AstraPdfError>)
    ensures
        r is Ok <==> regex_compiles(pattern@),
        r matches Err(e) ==> e is RegexError,
        r matches Ok(v) ==> matches_for(
            spec_lines(text@),
            regex_pred(pattern@),
            page_num,
            context_lines as nat,
            v@,
        ),
{
    let cp = match CompiledPattern::new(pattern) {
        Ok(c) => c,
        Err(msg) => {
            return Err(AstraPdfError::RegexError(msg));
        },
    };
    Ok(scan_compiled(text, &cp, page_num, context_lines))
}

/// Law: a context window never includes the matched line, holds at most `n`
/// lines, and holds exactly the lines just before (resp. after) the match, in
/// their original order.
pub proof fn lemma_context_window(lines: Seq<Seq<char>>, i: int, n: nat)
    requires
        0 <= i < lines.len(),
    ensures
        context_before_lines(lines, i, n).len() <= n,
        context_after_lines(lines, i, n).len() <= n,
        context_before_lines(lines, i, n).len() == if i - n >= 0 {
            n as int
        } else {
            i
        },
        context_after_lines(lines, i, n).len() == if i + 1 + n <= lines.len() {
            n as int
        } else {
            lines.len() - i - 1
        },
        forall|k: int|
            0 <= k < context_before_lines(lines, i, n).len() ==> context_before_lines(lines, i, n)[k]
                == lines[i - context_before_lines(lines, i, n).len() + k],
        forall|k: int|
            0 <= k < context_after_lines(lines, i, n).len() ==> context_after_lines(lines, i, n)[k]
                == lines[i + 1 + k],
{
}

/// Law: the context texts of a match over the lines of `text` each hold at
/// most `n` lines when split again — the window never exceeds its configured
/// size, and the matched line itself is not among them.
pub proof fn lemma_context_text_line_bound(
    text: Seq<char>,
    page: u32,
    n: nat,
    i: int,
    m: MatchResult,
)
    requires
        match_is(spec_lines(text), page, n, i, m),
    ensures
        spec_lines(m.context_before@).len() <= n,
        spec_lines(m.context_after@).len() <= n,
{
    let lines = spec_lines(text);
    lemma_lines_nl_free(text);
    let cb = context_before_lines(lines, i, n);
    let ca = context_after_lines(lines, i, n);
    assert forall|k: int| 0 <= k < cb.len() implies nl_free(#[trigger] cb[k]) by {
        assert(cb[k] == lines[if i - n >= 0 {
            i - n
        } else {
            0
        } + k]);
    }
    assert forall|k: int| 0 <= k < ca.len() implies nl_free(#[trigger] ca[k]) by {
        assert(ca[k] == lines[i + 1 + k]);
    }
    lemma_join_then_split_count(cb);
    lemma_join_then_split_count(ca);
}

/// Two strings of equal length whose characters agree up to ASCII case.
pub open spec fn ascii_case_variant(a: Seq<char>, b: Seq<char>) -> bool {
    a.len() == b.len() && forall|i: int| 0 <= i < a.len() ==> lower_char(a[i]) == lower_char(b[i])
}

/// Law: with `ignore_case` set, keyword matching does not change under any
/// ASCII case permutation of the line or of the keyword.
pub proof fn lemma_ignore_case_invariant(
    line1: Seq<char>,
    kw1: Seq<char>,
    line2: Seq<char>,
    kw2: Seq<char>,
)
    requires
        ascii_case_variant(line1, line2),
        ascii_case_variant(kw1, kw2),
    ensures
        line_matches_keyword(line1, kw1, true) == line_matches_keyword(line2, kw2, true),
{
    assert(proc_str(line1, true) =~= proc_str(line2, true));
    assert(proc_str(kw1, true) =~= proc_str(kw2, true));
}

} // verus!
