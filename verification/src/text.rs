//! Character-level text utilities: line splitting, joining, substring search,
//! ASCII lowercasing and decimal rendering, each tied to a spec-level model.

use vstd::prelude::*;
use vstd::string::StrSliceExecFns;
use vstd::string::StringExecFns;

verus! {

/// Index of the first occurrence of `c` in `s`, or `s.len()` when absent.
pub open spec fn char_index(s: Seq<char>, c: char) -> int
    decreases s.len(),
{
    if s.len() == 0 {
        0
    } else if s[0] == c {
        0
    } else {
        1 + char_index(s.skip(1), c)
    }
}

pub proof fn lemma_char_index(s: Seq<char>, c: char)
    ensures
        0 <= char_index(s, c) <= s.len(),
        forall|j: int| 0 <= j < char_index(s, c) ==> s[j] != c,
        char_index(s, c) < s.len() ==> s[char_index(s, c)] == c,
    decreases s.len(),
{
    if s.len() == 0 {
    } else if s[0] == c {
    } else {
        lemma_char_index(s.skip(1), c);
        let i = char_index(s, c);
        assert forall|j: int| 0 <= j < i implies s[j] != c by {
            if j > 0 {
                assert(s.skip(1)[j - 1] == s[j]);
            }
        }
        if i < s.len() {
            assert(s.skip(1)[i - 1] == s[i]);
        }
    }
}

/// The first index of `c` in `s` is exactly the position found by a scan that
/// saw no `c` before `i` and either hit the end or found `c` at `i`.
pub proof fn lemma_char_index_unique(s: Seq<char>, c: char, i: int)
    requires
        0 <= i <= s.len(),
        forall|j: int| 0 <= j < i ==> s[j] != c,
        i < s.len() ==> s[i] == c,
    ensures
        char_index(s, c) == i,
{
    lemma_char_index(s, c);
    let k = char_index(s, c);
    if k < i {
        assert(s[k] != c);
    }
    if i < k {
        assert(s[i] != c);
    }
}

/// A line with a final carriage return removed, as `str::lines` does before a
/// line feed.
pub open spec fn strip_cr(l: Seq<char>) -> Seq<char> {
    if l.len() > 0 && l[l.len() - 1] == '\r' {
        l.drop_last()
    } else {
        l
    }
}

/// The lines of `s`, split as `str::lines` does: segments end at `'\n'`, a
/// carriage return directly before the `'\n'` is dropped, and a final segment
/// without a terminator is kept as it stands.
pub open spec fn spec_lines(s: Seq<char>) -> Seq<Seq<char>>
    decreases s.len(),
{
    if s.len() == 0 {
        Seq::empty()
    } else {
        let i = char_index(s, '\n');
        if 0 <= i && i < s.len() {
            seq![strip_cr(s.take(i))] + spec_lines(s.skip(i + 1))
        } else {
            seq![s]
        }
    }
}

/// Split `s` into its lines, returning subslices of `s`.
pub fn split_lines<'a>(s: &'a str) -> (r: Vec<&'a str>)
    ensures
        r.deep_view() == spec_lines(s@),
{
    let n = s.unicode_len();
    let mut r: Vec<&'a str> = Vec::new();
    let mut pos: usize = 0;
    proof {
        assert(s@.skip(0) == s@);
    }
    while pos < n
        invariant
            n == s@.len(),
            pos <= n,
            r.deep_view() + spec_lines(s@.skip(pos as int)) =~= spec_lines(s@),
        decreases n - pos,
    {
        let ghost rest = s@.skip(pos as int);
        let mut j: usize = pos;
        while j < n && s.get_char(j) != '\n'
            invariant
                n == s@.len(),
                pos <= j <= n,
                forall|k: int| pos <= k < j ==> s@[k] != '\n',
            decreases n - j,
        {
            j += 1;
        }
        proof {
            assert forall|k: int| 0 <= k < j - pos implies rest[k] != '\n' by {
                assert(rest[k] == s@[pos + k]);
            }
            if j < n {
                assert(rest[j - pos] == s@[j as int]);
            }
            lemma_char_index_unique(rest, '\n', j - pos);
        }
        if j < n {
            let end = if j > pos && s.get_char(j - 1) == '\r' {
                j - 1
            } else {
                j
            };
            let line = s.substring_char(pos, end);
            proof {
                assert(rest.take(j - pos) =~= s@.subrange(pos as int, j as int));
                assert(strip_cr(rest.take(j - pos)) =~= line@);
                assert(rest.skip(j - pos + 1) =~= s@.skip(j + 1));
                assert(spec_lines(rest) == seq![line@] + spec_lines(s@.skip(j + 1)));
            }
            let ghost old_dv = r.deep_view();
            r.push(line);
            proof {
                assert(r.deep_view() =~= old_dv.push(line@));
            }
            pos = j + 1;
        } else {
            let line = s.substring_char(pos, n);
            proof {
                assert(rest =~= line@);
                assert(spec_lines(rest) == seq![line@]);
            }
            let ghost old_dv = r.deep_view();
            r.push(line);
            proof {
                assert(r.deep_view() =~= old_dv.push(line@));
                assert(s@.skip(n as int) =~= Seq::<char>::empty());
            }
            pos = n;
        }
    }
    proof {
        assert(s@.skip(n as int) =~= Seq::<char>::empty());
        assert(r.deep_view() =~= spec_lines(s@));
    }
    r
}

/// A string without line terminators.
pub open spec fn nl_free(l: Seq<char>) -> bool {
    forall|j: int| 0 <= j < l.len() ==> l[j] != '\n'
}

/// Every line that splitting produces is itself free of line terminators.
pub proof fn lemma_lines_nl_free(s: Seq<char>)
    ensures
        forall|k: int| 0 <= k < spec_lines(s).len() ==> nl_free(#[trigger] spec_lines(s)[k]),
    decreases s.len(),
{
    if s.len() == 0 {
    } else {
        let i = char_index(s, '\n');
        lemma_char_index(s, '\n');
        if 0 <= i && i < s.len() {
            lemma_lines_nl_free(s.skip(i + 1));
            let head = strip_cr(s.take(i));
            assert(nl_free(head)) by {
                assert(forall|j: int| 0 <= j < head.len() ==> head[j] == s[j] && s[j] != '\n');
            }
            assert forall|k: int| 0 <= k < spec_lines(s).len() implies nl_free(
                #[trigger] spec_lines(s)[k],
            ) by {
                if k > 0 {
                    assert(spec_lines(s)[k] == spec_lines(s.skip(i + 1))[k - 1]);
                }
            }
        } else {
            assert(nl_free(s));
        }
    }
}
pub open spec fn spec_join_nl(ls: Seq<Seq<char>>) -> Seq<char>
    decreases ls.len(),
{
    if ls.len() == 0 {
        Seq::empty()
    } else if ls.len() == 1 {
        ls[0]
    } else {
        ls[0] + seq!['\n'] + spec_join_nl(ls.skip(1))
    }
}

pub proof fn lemma_join_nl_snoc(ls: Seq<Seq<char>>, x: Seq<char>)
    ensures
        spec_join_nl(ls.push(x)) == if ls.len() == 0 {
            x
        } else {
            spec_join_nl(ls) + seq!['\n'] + x
        },
    decreases ls.len(),
{
    if ls.len() == 0 {
        assert(ls.push(x)[0] == x);
    } else if ls.len() == 1 {
        assert(ls.push(x).skip(1) =~= seq![x]);
        assert(spec_join_nl(seq![x]) == seq![x][0]);
        assert(spec_join_nl(ls.push(x)) == ls[0] + seq!['\n'] + x);
    } else {
        lemma_join_nl_snoc(ls.skip(1), x);
        assert(ls.push(x).skip(1) =~= ls.skip(1).push(x));
        assert(spec_join_nl(ls) + seq!['\n'] + x =~= ls[0] + seq!['\n'] + (spec_join_nl(ls.skip(1))
            + seq!['\n'] + x));
    }
}

/// Join `lines[from..to]` with single newlines.
pub fn join_lines(lines: &Vec<&str>, from: usize, to: usize) -> (r: String)
    requires
        from <= to <= lines@.len(),
    ensures
        r@ == spec_join_nl(lines.deep_view().subrange(from as int, to as int)),
{
    let ghost dv = lines.deep_view();
    let mut out = String::new();
    let mut i: usize = from;
    proof {
        assert(dv.subrange(from as int, from as int) =~= Seq::<Seq<char>>::empty());
    }
    while i < to
        invariant
            from <= i <= to <= lines@.len(),
            dv == lines.deep_view(),
            out@ == spec_join_nl(dv.subrange(from as int, i as int)),
        decreases to - i,
    {
        if i > from {
            out.append("\n");
            proof {
                reveal_strlit("\n");
            }
        }
        out.append(lines[i]);
        proof {
            assert(dv.subrange(from as int, i + 1) =~= dv.subrange(from as int, i as int).push(
                dv[i as int],
            ));
            lemma_join_nl_snoc(dv.subrange(from as int, i as int), dv[i as int]);
            assert(lines[i as int]@ == dv[i as int]);
            if i > from {
                assert(out@ =~= spec_join_nl(dv.subrange(from as int, i + 1)));
            } else {
                assert(out@ =~= spec_join_nl(dv.subrange(from as int, i + 1)));
            }
        }
        i += 1;
    }
    out
}

/// Joining terminator-free lines and splitting again yields at most as many
/// lines as were joined.
pub proof fn lemma_join_then_split_count(ls: Seq<Seq<char>>)
    requires
        forall|k: int| 0 <= k < ls.len() ==> nl_free(#[trigger] ls[k]),
    ensures
        spec_lines(spec_join_nl(ls)).len() <= ls.len(),
    decreases ls.len(),
{
    let j = spec_join_nl(ls);
    if ls.len() == 0 {
    } else if ls.len() == 1 {
        assert(nl_free(ls[0]));
        if j.len() == 0 {
        } else {
            lemma_char_index_unique(j, '\n', j.len() as int);
        }
    } else {
        let head = ls[0];
        let rest = spec_join_nl(ls.skip(1));
        assert(j == head + seq!['\n'] + rest);
        assert(forall|k: int| 0 <= k < head.len() ==> j[k] == head[k] && head[k] != '\n');
        assert(j[head.len() as int] == '\n');
        lemma_char_index_unique(j, '\n', head.len() as int);
        assert(j.take(head.len() as int) =~= head);
        assert(j.skip(head.len() as int + 1) =~= rest);
        assert forall|k: int| 0 <= k < ls.skip(1).len() implies nl_free(
            #[trigger] ls.skip(1)[k],
        ) by {
            assert(ls.skip(1)[k] == ls[k + 1]);
        }
        lemma_join_then_split_count(ls.skip(1));
        assert(spec_lines(j) == seq![strip_cr(head)] + spec_lines(rest));
    }
}

/// ASCII lowercasing of a single character; other characters are unchanged.
pub open spec fn lower_char(c: char) -> char {
    if 65 <= c as u32 && c as u32 <= 90 {
        ((c as u8) + 32) as char
    } else {
        c
    }
}

/// `c` processed for a comparison: lowercased when `ignore_case` holds.
pub open spec fn proc_char(c: char, ignore_case: bool) -> char {
    if ignore_case {
        lower_char(c)
    } else {
        c
    }
}

/// `s` processed for a comparison: lowercased pointwise when `ignore_case` holds.
pub open spec fn proc_str(s: Seq<char>, ignore_case: bool) -> Seq<char> {
    Seq::new(s.len(), |i: int| proc_char(s[i], ignore_case))
}

/// `needle` occurs in `hay` starting at position `i`.
pub open spec fn occurs_at(hay: Seq<char>, needle: Seq<char>, i: int) -> bool {
    0 <= i && i + needle.len() <= hay.len() && hay.subrange(i, i + needle.len()) == needle
}

/// `needle` occurs somewhere in `hay` as a contiguous subsequence.
pub open spec fn spec_contains(hay: Seq<char>, needle: Seq<char>) -> bool {
    exists|i: int| occurs_at(hay, needle, i)
}

/// A line matches a keyword when the keyword, processed for case, is a
/// substring of the processed line.
pub open spec fn line_matches_keyword(line: Seq<char>, kw: Seq<char>, ignore_case: bool) -> bool {
    spec_contains(proc_str(line, ignore_case), proc_str(kw, ignore_case))
}

fn to_lower(c: char) -> (r: char)
    ensures
        r == lower_char(c),
{
    let u = c as u32;
    if 65 <= u && u <= 90 {
        ((c as u8) + 32) as char
    } else {
        c
    }
}

fn chars_match_at(hay: &str, needle: &str, i: usize, ignore_case: bool) -> (r: bool)
    requires
        i + needle@.len() <= hay@.len(),
    ensures
        r == (proc_str(hay@, ignore_case).subrange(i as int, i + needle@.len()) == proc_str(
            needle@,
            ignore_case,
        )),
{
    let n = hay.unicode_len();
    let m = needle.unicode_len();
    let ghost ph = proc_str(hay@, ignore_case);
    let ghost pn = proc_str(needle@, ignore_case);
    let mut j: usize = 0;
    while j < m
        invariant
            m == needle@.len(),
            n == hay@.len(),
            i + m <= n,
            0 <= j <= m,
            ph == proc_str(hay@, ignore_case),
            pn == proc_str(needle@, ignore_case),
            forall|k: int| 0 <= k < j ==> ph[i + k] == pn[k],
        decreases m - j,
    {
        let hc = hay.get_char(i + j);
        let nc = needle.get_char(j);
        let a = if ignore_case {
            to_lower(hc)
        } else {
            hc
        };
        let b = if ignore_case {
            to_lower(nc)
        } else {
            nc
        };
        if a != b {
            proof {
                assert(ph[i + j] != pn[j as int]);
                assert(ph.subrange(i as int, i + m) != pn) by {
                    assert(ph.subrange(i as int, i + m)[j as int] == ph[i + j]);
                }
            }
            return false;
        }
        j += 1;
    }
    proof {
        assert(ph.subrange(i as int, i + m) =~= pn);
    }
    true
}

/// Substring containment, with optional ASCII case folding on both sides.
pub fn str_contains(hay: &str, needle: &str, ignore_case: bool) -> (r: bool)
    ensures
        r == spec_contains(proc_str(hay@, ignore_case), proc_str(needle@, ignore_case)),
{
    let n = hay.unicode_len();
    let m = needle.unicode_len();
    let ghost ph = proc_str(hay@, ignore_case);
    let ghost pn = proc_str(needle@, ignore_case);
    if m > n {
        proof {
            assert(!spec_contains(ph, pn)) by {
                assert(forall|i: int| !occurs_at(ph, pn, i));
            }
        }
        return false;
    }
    if m == 0 {
        proof {
            assert(ph.subrange(0, 0) =~= pn);
            assert(occurs_at(ph, pn, 0));
        }
        return true;
    }
    let mut i: usize = 0;
    while i <= n - m
        invariant
            n == hay@.len(),
            m == needle@.len(),
            0 < m <= n,
            0 <= i <= n - m + 1,
            ph == proc_str(hay@, ignore_case),
            pn == proc_str(needle@, ignore_case),
            forall|k: int| 0 <= k < i ==> !occurs_at(ph, pn, k),
        decreases n - i,
    {
        if chars_match_at(hay, needle, i, ignore_case) {
            proof {
                assert(occurs_at(ph, pn, i as int));
            }
            return true;
        }
        i += 1;
    }
    proof {
        assert forall|k: int| !occurs_at(ph, pn, k) by {
            if 0 <= k < i {
            } else if k >= i {
                assert(k + pn.len() > ph.len() || !(0 <= k));
            }
        }
    }
    false
}

/// Processing without case folding leaves a string unchanged.
pub proof fn lemma_proc_str_id(s: Seq<char>)
    ensures
        proc_str(s, false) == s,
{
    assert(proc_str(s, false) =~= s);
}

/// `s` with every non-overlapping occurrence of `pat`, found left to right,
/// replaced by `rep`, as `str::replace` does.
pub open spec fn spec_replace(s: Seq<char>, pat: Seq<char>, rep: Seq<char>) -> Seq<char>
    decreases s.len(),
{
    if pat.len() == 0 || s.len() < pat.len() {
        s
    } else if s.take(pat.len() as int) == pat {
        rep + spec_replace(s.skip(pat.len() as int), pat, rep)
    } else {
        seq![s[0]] + spec_replace(s.skip(1), pat, rep)
    }
}

/// Replace every occurrence of `pat` in `s` by `rep`, left to right.
pub fn replace_str(s: &str, pat: &str, rep: &str) -> (r: String)
    requires
        pat@.len() > 0,
    ensures
        r@ == spec_replace(s@, pat@, rep@),
{
    let n = s.unicode_len();
    let m = pat.unicode_len();
    let mut out = String::new();
    let mut i: usize = 0;
    proof {
        assert(s@.skip(0) == s@);
    }
    while i < n
        invariant
            n == s@.len(),
            m == pat@.len(),
            m > 0,
            0 <= i <= n,
            out@ + spec_replace(s@.skip(i as int), pat@, rep@) == spec_replace(s@, pat@, rep@),
        decreases n - i,
    {
        let ghost rest = s@.skip(i as int);
        if m <= n - i && chars_match_at(s, pat, i, false) {
            proof {
                lemma_proc_str_id(s@);
                lemma_proc_str_id(pat@);
                assert(rest.take(m as int) =~= s@.subrange(i as int, i + m));
                assert(rest.take(m as int) == pat@);
                assert(rest.skip(m as int) =~= s@.skip(i + m));
            }
            out.append(rep);
            i += m;
        } else {
            proof {
                if i + m <= n {
                    lemma_proc_str_id(s@);
                    lemma_proc_str_id(pat@);
                    assert(s@.subrange(i as int, i + m) =~= rest.take(m as int));
                }
                assert(rest.take(m as int) != pat@ || rest.len() < m);
                assert(rest[0] == s@[i as int]);
                assert(rest.skip(1) =~= s@.skip(i + 1));
            }
            let c = s.substring_char(i, i + 1);
            proof {
                assert(c@ =~= seq![s@[i as int]]);
            }
            out.append(c);
            i += 1;
        }
    }
    proof {
        assert(s@.skip(n as int) =~= Seq::<char>::empty());
    }
    out
}

/// The character for a single decimal digit.
pub open spec fn digit_char(d: nat) -> char {
    ((48 + d) as u8) as char
}

/// The decimal rendering of `n`, most significant digit first, no sign and no
/// leading zero except for `0` itself.
pub open spec fn spec_dec(n: nat) -> Seq<char>
    decreases n,
{
    if n < 10 {
        seq![digit_char(n)]
    } else {
        spec_dec(n / 10).push(digit_char(n % 10))
    }
}

fn digit_str(d: u64) -> (r: &'static str)
    requires
        d < 10,
    ensures
        r@ == seq![digit_char(d as nat)],
{
    let r: &'static str = match d {
        0 => "0",
        1 => "1",
        2 => "2",
        3 => "3",
        4 => "4",
        5 => "5",
        6 => "6",
        7 => "7",
        8 => "8",
        _ => "9",
    };
    proof {
        reveal_strlit("0");
        reveal_strlit("1");
        reveal_strlit("2");
        reveal_strlit("3");
        reveal_strlit("4");
        reveal_strlit("5");
        reveal_strlit("6");
        reveal_strlit("7");
        reveal_strlit("8");
        reveal_strlit("9");
        assert(r@ =~= seq![digit_char(d as nat)]);
    }
    r
}

/// Render `n` in decimal.
pub fn dec_u64(n: u64) -> (r: String)
    ensures
        r@ == spec_dec(n as nat),
    decreases n,
{
    if n < 10 {
        let mut s = String::new();
        s.append(digit_str(n));
        s
    } else {
        let mut s = dec_u64(n / 10);
        s.append(digit_str(n % 10));
        s
    }
}

/// ASCII whitespace, as trimmed from the ends of a page-spec token.
pub open spec fn is_ascii_ws(c: char) -> bool {
    c == ' ' || c == '\t' || c == '\n' || c == '\r' || c as u32 == 11 || c as u32 == 12
}

/// The longest prefix of `s` made of ASCII whitespace.
pub open spec fn ws_prefix_len(s: Seq<char>) -> int
    decreases s.len(),
{
    if s.len() == 0 {
        0
    } else if is_ascii_ws(s[0]) {
        1 + ws_prefix_len(s.skip(1))
    } else {
        0
    }
}

pub proof fn lemma_ws_prefix(s: Seq<char>)
    ensures
        0 <= ws_prefix_len(s) <= s.len(),
        forall|j: int| 0 <= j < ws_prefix_len(s) ==> is_ascii_ws(s[j]),
        ws_prefix_len(s) < s.len() ==> !is_ascii_ws(s[ws_prefix_len(s)]),
    decreases s.len(),
{
    if s.len() == 0 {
    } else if is_ascii_ws(s[0]) {
        lemma_ws_prefix(s.skip(1));
        assert forall|j: int| 0 <= j < ws_prefix_len(s) implies is_ascii_ws(s[j]) by {
            if j > 0 {
                assert(s.skip(1)[j - 1] == s[j]);
            }
        }
        if ws_prefix_len(s) < s.len() {
            assert(s.skip(1)[ws_prefix_len(s) - 1] == s[ws_prefix_len(s)]);
        }
    } else {
    }
}

/// `s` with ASCII whitespace removed from both ends.
pub open spec fn spec_trim(s: Seq<char>) -> Seq<char> {
    let a = ws_prefix_len(s);
    let b = ws_prefix_len(s.skip(a).reverse());
    s.skip(a).take(s.len() - a - b)
}

/// Trim ASCII whitespace from both ends of `s`.
pub fn trim_ws<'a>(s: &'a str) -> (r: &'a str)
    ensures
        r@ == spec_trim(s@),
{
    let n = s.unicode_len();
    let mut a: usize = 0;
    while a < n && is_ws_exec(s.get_char(a))
        invariant
            n == s@.len(),
            0 <= a <= n,
            forall|j: int| 0 <= j < a ==> is_ascii_ws(s@[j]),
        decreases n - a,
    {
        a += 1;
    }
    let mut b: usize = n;
    while b > a && is_ws_exec(s.get_char(b - 1))
        invariant
            n == s@.len(),
            a <= b <= n,
            forall|j: int| 0 <= j < a ==> is_ascii_ws(s@[j]),
            a < n ==> !is_ascii_ws(s@[a as int]),
            forall|j: int| b <= j < n ==> is_ascii_ws(s@[j]),
        decreases b,
    {
        b -= 1;
    }
    let r = s.substring_char(a, b);
    proof {
        let t = s@.skip(a as int);
        lemma_ws_prefix(s@);
        lemma_ws_prefix_unique(s@, a as int);
        lemma_ws_prefix_unique(t.reverse(), s@.len() - b);
        assert(r@ =~= spec_trim(s@)) by {
            assert forall|j: int| 0 <= j < s@.len() - b implies is_ascii_ws(
                #[trigger] t.reverse()[j],
            ) by {
                assert(t.reverse()[j] == s@[s@.len() - 1 - j]);
            }
            if s@.len() - b < t.len() {
                assert(t.reverse()[s@.len() - b] == s@[b - 1]);
                if b > a {
                    assert(!is_ascii_ws(s@[b - 1]));
                }
            }
            lemma_ws_prefix_unique(t.reverse(), s@.len() - b);
        }
    }
    r
}

fn is_ws_exec(c: char) -> (r: bool)
    ensures
        r == is_ascii_ws(c),
{
    let u = c as u32;
    u == 32 || u == 9 || u == 10 || u == 13 || u == 11 || u == 12
}

pub proof fn lemma_ws_prefix_unique(s: Seq<char>, i: int)
    requires
        0 <= i <= s.len(),
        forall|j: int| 0 <= j < i ==> is_ascii_ws(s[j]),
        i < s.len() ==> !is_ascii_ws(s[i]),
    ensures
        ws_prefix_len(s) == i,
{
    lemma_ws_prefix(s);
    let k = ws_prefix_len(s);
    if k < i {
        assert(is_ascii_ws(s[k]));
    }
    if i < k {
        assert(is_ascii_ws(s[i]));
    }
}

} // verus!
