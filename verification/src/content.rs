//! Recovery of visible text from a PDF content stream: a lightweight scan for
//! text-showing operator lines, taking the outermost parenthesised string
//! literal of each and resolving the PDF string escapes.
//!
//! The greedy first-`(`/last-`)` choice assumes one string literal per line;
//! a line carrying several literals, or nested parentheses, is mis-extracted.
//! That is a known limitation of this best-effort scan, backed by the
//! whole-document fallback, not something this module tries to repair.

use vstd::prelude::*;
use vstd::string::StrSliceExecFns;
use vstd::string::StringExecFns;

use crate::text::{
    char_index, lemma_char_index, lemma_char_index_unique, lemma_proc_str_id, spec_contains,
    spec_lines, spec_replace, spec_trim, split_lines, str_contains, trim_ws, replace_str,
};

verus! {

/// PDF string unescaping as three sequential literal replacements, in this
/// order: `\(` to `(`, then `\)` to `)`, then `\\` to `\`.
pub open spec fn spec_unescape(t: Seq<char>) -> Seq<char> {
    spec_replace(
        spec_replace(spec_replace(t, seq!['\\', '('], seq!['(']), seq!['\\', ')'], seq![')']),
        seq!['\\', '\\'],
        seq!['\\'],
    )
}

/// The text fragment recovered from one content-stream line: on a line that
/// mentions a text-showing operator, the unescaped characters between the
/// first `(` and the last `)`, when that span is non-empty.
pub open spec fn line_fragment(line: Seq<char>) -> Option<Seq<char>> {
    if spec_contains(line, seq!['T', 'j']) || spec_contains(line, seq!['T', 'J']) {
        let start = char_index(line, '(');
        let end = line.len() - 1 - char_index(line.reverse(), ')');
        if start < line.len() && end > start {
            Some(spec_unescape(line.subrange(start + 1, end)))
        } else {
            None
        }
    } else {
        None
    }
}

/// All fragments of the given lines, each followed by one space.
pub open spec fn fragments_concat(ls: Seq<Seq<char>>) -> Seq<char>
    decreases ls.len(),
{
    if ls.len() == 0 {
        Seq::empty()
    } else {
        let rest = fragments_concat(ls.skip(1));
        match line_fragment(ls[0]) {
            Some(f) => f + seq![' '] + rest,
            None => rest,
        }
    }
}

/// The candidate text of a content stream: every fragment, space separated,
/// trimmed at both ends.
pub open spec fn spec_content_text(s: Seq<char>) -> Seq<char> {
    spec_trim(fragments_concat(spec_lines(s)))
}

proof fn lemma_fragments_concat_snoc(ls: Seq<Seq<char>>, x: Seq<char>)
    ensures
        fragments_concat(ls.push(x)) == fragments_concat(ls) + match line_fragment(x) {
            Some(f) => f + seq![' '],
            None => Seq::<char>::empty(),
        },
    decreases ls.len(),
{
    if ls.len() == 0 {
        assert(ls.push(x).skip(1) =~= Seq::<Seq<char>>::empty());
        assert(fragments_concat(Seq::<Seq<char>>::empty()) == Seq::<char>::empty());
        assert(ls.push(x)[0] == x);
        match line_fragment(x) {
            Some(f) => {
                assert(fragments_concat(ls.push(x)) =~= Seq::<char>::empty() + (f + seq![' '])
                    + Seq::<char>::empty());
                assert(fragments_concat(ls.push(x)) =~= fragments_concat(ls) + (f + seq![' ']));
            },
            None => {
                assert(fragments_concat(ls.push(x)) =~= fragments_concat(ls)
                    + Seq::<char>::empty());
            },
        }
    } else {
        lemma_fragments_concat_snoc(ls.skip(1), x);
        assert(ls.push(x).skip(1) =~= ls.skip(1).push(x));
        assert(ls.push(x)[0] == ls[0]);
        match line_fragment(x) {
            Some(f) => {
                assert(fragments_concat(ls.push(x)) =~= fragments_concat(ls) + (f + seq![' ']));
            },
            None => {
                assert(fragments_concat(ls.push(x)) =~= fragments_concat(ls)
                    + Seq::<char>::empty());
            },
        }
    }
}

/// Index of the first occurrence of `c` in `s`, or the length when absent.
fn find_char(s: &str, c: char) -> (i: usize)
    ensures
        i == char_index(s@, c),
        i <= s@.len(),
{
    let n = s.unicode_len();
    let mut i: usize = 0;
    while i < n && s.get_char(i) != c
        invariant
            n == s@.len(),
            0 <= i <= n,
            forall|k: int| 0 <= k < i ==> s@[k] != c,
        decreases n - i,
    {
        i += 1;
    }
    proof {
        lemma_char_index_unique(s@, c, i as int);
    }
    i
}

/// Index of the last occurrence of `c` in `s`, when there is one.
fn rfind_char(s: &str, c: char) -> (r: Option<usize>)
    ensures
        r is Some <==> char_index(s@.reverse(), c) < s@.len(),
        r matches Some(i) ==> i == s@.len() - 1 - char_index(s@.reverse(), c) && i < s@.len(),
{
    let n = s.unicode_len();
    let ghost rev = s@.reverse();
    let mut k: usize = n;
    while k > 0
        invariant
            n == s@.len(),
            0 <= k <= n,
            rev == s@.reverse(),
            forall|j: int| k <= j < n ==> s@[j] != c,
        decreases k,
    {
        if s.get_char(k - 1) == c {
            proof {
                assert forall|j: int| 0 <= j < n - k implies rev[j] != c by {
                    assert(rev[j] == s@[n - 1 - j]);
                }
                assert(rev[n - (k - 1) - 1] == s@[k - 1]);
                lemma_char_index_unique(rev, c, n - k);
            }
            return Some(k - 1);
        }
        k -= 1;
    }
    proof {
        assert forall|j: int| 0 <= j < n implies rev[j] != c by {
            assert(rev[j] == s@[n - 1 - j]);
        }
        lemma_char_index_unique(rev, c, n as int);
    }
    None
}

/// The fragment of one content-stream line, per `line_fragment`.
fn line_fragment_exec(line: &str) -> (r: Option<String>)
    ensures
        r is Some <==> line_fragment(line@) is Some,
        r matches Some(f) ==> line_fragment(line@) matches Some(g) && f@ == g,
{
    let has_op = str_contains(line, "Tj", false) || str_contains(line, "TJ", false);
    proof {
        reveal_strlit("Tj");
        reveal_strlit("TJ");
        lemma_proc_str_id(line@);
        lemma_proc_str_id("Tj"@);
        lemma_proc_str_id("TJ"@);
        assert("Tj"@ =~= seq!['T', 'j']);
        assert("TJ"@ =~= seq!['T', 'J']);
    }
    if !has_op {
        return None;
    }
    let n = line.unicode_len();
    let start = find_char(line, '(');
    let last = rfind_char(line, ')');
    proof {
        lemma_char_index(line@, '(');
    }
    match last {
        Some(end) => {
            if start < n && end > start {
                let inner = line.substring_char(start + 1, end);
                proof {
                    assert(inner@ =~= line@.subrange(start + 1, end as int));
                    reveal_strlit("\\(");
                    reveal_strlit("\\)");
                    reveal_strlit("\\\\");
                    reveal_strlit("(");
                    reveal_strlit(")");
                    reveal_strlit("\\");
                    assert("\\("@ =~= seq!['\\', '(']);
                    assert("\\)"@ =~= seq!['\\', ')']);
                    assert("\\\\"@ =~= seq!['\\', '\\']);
                    assert("("@ =~= seq!['(']);
                    assert(")"@ =~= seq![')']);
                    assert("\\"@ =~= seq!['\\']);
                }
                let s1 = replace_str(inner, "\\(", "(");
                let s2 = replace_str(s1.as_str(), "\\)", ")");
                let s3 = replace_str(s2.as_str(), "\\\\", "\\");
                Some(s3)
            } else {
                None
            }
        },
        None => {
            proof {
                assert(line@.len() - 1 - char_index(line@.reverse(), ')') < 0);
            }
            None
        },
    }
}

/// The candidate text of a whole content stream, already decoded to
/// characters: fragments of the operator lines, space separated and trimmed.
pub fn content_stream_text(s: &str) -> (r: String)
    ensures
        r@ == spec_content_text(s@),
{
    let lines = split_lines(s);
    let ghost dv = lines.deep_view();
    let mut acc = String::new();
    let mut i: usize = 0;
    proof {
        assert(dv.take(0) =~= Seq::<Seq<char>>::empty());
    }
    while i < lines.len()
        invariant
            dv == lines.deep_view(),
            dv.len() == lines@.len(),
            0 <= i <= lines@.len(),
            acc@ == fragments_concat(dv.take(i as int)),
        decreases lines@.len() - i,
    {
        proof {
            assert(dv.take(i + 1) =~= dv.take(i as int).push(dv[i as int]));
            lemma_fragments_concat_snoc(dv.take(i as int), dv[i as int]);
            assert(lines[i as int]@ == dv[i as int]);
        }
        match line_fragment_exec(lines[i]) {
            Some(f) => {
                acc.append(f.as_str());
                acc.append(" ");
                proof {
                    reveal_strlit(" ");
                    assert(" "@ =~= seq![' ']);
                    assert(acc@ =~= fragments_concat(dv.take(i + 1)));
                }
            },
            None => {
                proof {
                    assert(acc@ =~= fragments_concat(dv.take(i + 1)));
                }
            },
        }
        i += 1;
    }
    proof {
        assert(dv.take(dv.len() as int) =~= dv);
        assert(dv == spec_lines(s@));
    }
    let r = trim_ws(acc.as_str());
    proof {
        assert(r@ == spec_content_text(s@));
    }
    let out = String::from_str(r);
    out
}

} // verus!
