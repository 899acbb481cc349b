//! Rendering of extraction results into plain text, JSON and CSV.

use vstd::prelude::*;
use vstd::string::StrSliceExecFns;
use vstd::string::StringExecFns;

use crate::error::AstraPdfError;
use crate::pdf::ExtractionResult;
use crate::scan::MatchResult;
use crate::text::{dec_u64, spec_dec, spec_lines, split_lines};

verus! {

/// The output format of an export.
#[derive(Debug, Clone, Copy, PartialEq, Eq, Structural)]
pub enum ExportFormat {
    Txt,
    Json,
    Csv,
}

/// Renders extraction results in one fixed format.
pub struct Exporter {
    format: ExportFormat,
}

/// The total number of matches over all pages.
pub open spec fn spec_total_matches(rs: Seq<ExtractionResult>) -> int
    decreases rs.len(),
{
    if rs.len() == 0 {
        0
    } else {
        spec_total_matches(rs.drop_last()) + rs.last().matches@.len()
    }
}

pub proof fn lemma_total_matches_nonneg(rs: Seq<ExtractionResult>)
    ensures
        spec_total_matches(rs) >= 0,
    decreases rs.len(),
{
    if rs.len() > 0 {
        lemma_total_matches_nonneg(rs.drop_last());
    }
}

/// The total match count as reported: clamped at the machine limit, which
/// real result sets never reach.
pub open spec fn spec_total_matches_clamped(rs: Seq<ExtractionResult>) -> nat {
    if spec_total_matches(rs) <= usize::MAX {
        spec_total_matches(rs) as nat
    } else {
        usize::MAX as nat
    }
}

/// Sum the per-page match counts, saturating at the machine limit.
pub fn total_matches(results: &Vec<ExtractionResult>) -> (r: usize)
    ensures
        r == spec_total_matches_clamped(results@),
{
    let ghost rs = results@;
    let mut acc: usize = 0;
    let mut i: usize = 0;
    proof {
        assert(rs.take(0) =~= Seq::<ExtractionResult>::empty());
    }
    while i < results.len()
        invariant
            rs == results@,
            0 <= i <= rs.len(),
            acc == spec_total_matches_clamped(rs.take(i as int)),
        decreases rs.len() - i,
    {
        proof {
            assert(rs.take(i + 1).drop_last() =~= rs.take(i as int));
            assert(rs.take(i + 1).last() == rs[i as int]);
            lemma_total_matches_nonneg(rs.take(i as int));
        }
        let cur = results[i].matches.len();
        if cur > usize::MAX - acc {
            acc = usize::MAX;
        } else {
            acc = acc + cur;
        }
        i += 1;
    }
    proof {
        assert(rs.take(rs.len() as int) =~= rs);
    }
    acc
}

/// The context lines of one block, each indented by two spaces and ended
/// with a newline, up to line `i`.
pub open spec fn spec_indent_lines(ls: Seq<Seq<char>>, i: int) -> Seq<char>
    decreases i,
{
    if i <= 0 {
        Seq::empty()
    } else {
        spec_indent_lines(ls, i - 1) + "  "@ + ls[i - 1] + "\n"@
    }
}

/// One match of the plain-text report: its header line, the indented
/// context before, the marked matched line, and the indented context after.
pub open spec fn spec_match_block(m: MatchResult, idx: int) -> Seq<char> {
    "Match "@ + spec_dec((idx + 1) as nat) + " (ligne "@ + spec_dec(m.line_number as nat)
        + "):\n"@ + (if m.context_before@.len() > 0 {
        "  [contexte avant]\n"@ + spec_indent_lines(
            spec_lines(m.context_before@),
            spec_lines(m.context_before@).len() as int,
        )
    } else {
        Seq::<char>::empty()
    }) + "  >>> "@ + m.text@ + "\n"@ + (if m.context_after@.len() > 0 {
        "  [contexte après]\n"@ + spec_indent_lines(
            spec_lines(m.context_after@),
            spec_lines(m.context_after@).len() as int,
        )
    } else {
        Seq::<char>::empty()
    }) + "\n"@
}

/// The first `i` match blocks of one page.
pub open spec fn spec_match_blocks(ms: Seq<MatchResult>, i: int) -> Seq<char>
    decreases i,
{
    if i <= 0 {
        Seq::empty()
    } else {
        spec_match_blocks(ms, i - 1) + spec_match_block(ms[i - 1], i - 1)
    }
}

/// One page of the plain-text report: its banner, then either the full page
/// text (no matches) or its match blocks.
pub open spec fn spec_page_block(r: ExtractionResult) -> Seq<char> {
    "\n📄 PAGE "@ + spec_dec(r.page_number as nat) + "\n"@
        + "─────────────────────────────────────\n"@ + (if r.matches@.len() == 0 {
        "\nContenu complet:\n"@ + r.content@ + "\n"@
    } else {
        "\n✨ "@ + spec_dec(r.matches@.len() as nat) + " correspondance(s) trouvée(s)\n\n"@
            + spec_match_blocks(r.matches@, r.matches@.len() as int)
    })
}

/// The first `i` page blocks.
pub open spec fn spec_page_blocks(rs: Seq<ExtractionResult>, i: int) -> Seq<char>
    decreases i,
{
    if i <= 0 {
        Seq::empty()
    } else {
        spec_page_blocks(rs, i - 1) + spec_page_block(rs[i - 1])
    }
}

/// The whole plain-text report: banner, statistics, then one block per page.
pub open spec fn spec_to_text(rs: Seq<ExtractionResult>) -> Seq<char> {
    "═══════════════════════════════════════\n"@ + "  ASTRAPDF - RÉSULTATS D'EXTRACTION\n"@
        + "═══════════════════════════════════════\n\n"@ + "📊 Statistiques:\n"@
        + "   - Pages analysées: "@ + spec_dec(rs.len()) + "\n"@
        + "   - Correspondances trouvées: "@ + spec_dec(spec_total_matches_clamped(rs)) + "\n\n"@
        + spec_page_blocks(rs, rs.len() as int)
}

/// Append every line of `block`, indented by two spaces and newline-ended.
fn append_indented(out: &mut String, block: &str)
    ensures
        final(out)@ == old(out)@ + spec_indent_lines(
            spec_lines(block@),
            spec_lines(block@).len() as int,
        ),
{
    let lines = split_lines(block);
    let ghost dv = lines.deep_view();
    let ghost base = out@;
    let mut i: usize = 0;
    while i < lines.len()
        invariant
            dv == lines.deep_view(),
            dv.len() == lines@.len(),
            0 <= i <= lines@.len(),
            out@ == base + spec_indent_lines(dv, i as int),
        decreases lines@.len() - i,
    {
        out.append("  ");
        out.append(lines[i]);
        out.append("\n");
        proof {
            assert(lines[i as int]@ == dv[i as int]);
        }
        i += 1;
    }
}

/// Append the plain-text block of one match.
#[verifier::spinoff_prover]
#[verifier::rlimit(100)]
fn append_match_block(out: &mut String, m: &MatchResult, idx: usize)
    requires
        idx < usize::MAX,
    ensures
        final(out)@ == old(out)@ + spec_match_block(*m, idx as int),
{
    out.append("Match ");
    let d1 = dec_u64((idx + 1) as u64);
    out.append(d1.as_str());
    out.append(" (ligne ");
    let d2 = dec_u64(m.line_number as u64);
    out.append(d2.as_str());
    out.append("):\n");
    if m.context_before.as_str().unicode_len() > 0 {
        out.append("  [contexte avant]\n");
        append_indented(out, m.context_before.as_str());
    }
    out.append("  >>> ");
    out.append(m.text.as_str());
    out.append("\n");
    if m.context_after.as_str().unicode_len() > 0 {
        out.append("  [contexte après]\n");
        append_indented(out, m.context_after.as_str());
    }
    out.append("\n");
}

/// Append the plain-text block of one page.
fn append_page_block(out: &mut String, r: &ExtractionResult)
    ensures
        final(out)@ == old(out)@ + spec_page_block(*r),
{
    out.append("\n📄 PAGE ");
    let d = dec_u64(r.page_number as u64);
    out.append(d.as_str());
    out.append("\n");
    out.append("─────────────────────────────────────\n");
    if r.matches.len() == 0 {
        out.append("\nContenu complet:\n");
        out.append(r.content.as_str());
        out.append("\n");
    } else {
        out.append("\n✨ ");
        let c = dec_u64(r.matches.len() as u64);
        out.append(c.as_str());
        out.append(" correspondance(s) trouvée(s)\n\n");
        let ghost ms = r.matches@;
        let ghost base = out@;
        let mut k: usize = 0;
        while k < r.matches.len()
            invariant
                ms == r.matches@,
                0 <= k <= ms.len(),
                out@ == base + spec_match_blocks(ms, k as int),
            decreases ms.len() - k,
        {
            append_match_block(out, &r.matches[k], k);
            k += 1;
        }
    }
}

impl Exporter {
    /// The format this exporter renders to.
    pub closed spec fn spec_format(&self) -> ExportFormat {
        self.format
    }

    /// An exporter for the given format.
    pub fn new(format: ExportFormat) -> (r: Self)
        ensures
            r.spec_format() == format,
    {
        Exporter { format }
    }

    /// Render the results as the plain-text report.
    pub fn to_text(&self, results: &Vec<ExtractionResult>) -> (r: Result<String, AstraPdfError>)
        ensures
            r matches Ok(s) && s@ == spec_to_text(results@),
    {
        let mut out = String::new();
        out.append("═══════════════════════════════════════\n");
        out.append("  ASTRAPDF - RÉSULTATS D'EXTRACTION\n");
        out.append("═══════════════════════════════════════\n\n");
        out.append("📊 Statistiques:\n");
        out.append("   - Pages analysées: ");
        let d1 = dec_u64(results.len() as u64);
        out.append(d1.as_str());
        out.append("\n");
        out.append("   - Correspondances trouvées: ");
        let tm = total_matches(results);
        let d2 = dec_u64(tm as u64);
        out.append(d2.as_str());
        out.append("\n\n");
        let ghost rs = results@;
        let ghost base = out@;
        let mut i: usize = 0;
        while i < results.len()
            invariant
                rs == results@,
                0 <= i <= rs.len(),
                out@ == base + spec_page_blocks(rs, i as int),
            decreases rs.len() - i,
        {
            append_page_block(&mut out, &results[i]);
            i += 1;
        }
        Ok(out)
    }
}

/// The character for one hexadecimal digit, lower case.
pub open spec fn hex_char(d: nat) -> char {
    if d < 10 {
        crate::text::digit_char(d)
    } else {
        ((87 + d) as u8) as char
    }
}

/// The JSON escape of one character: quote, backslash and the common control
/// characters by their short escapes, other control characters as `\u00XX`,
/// everything else as itself.
pub open spec fn spec_escape_char(c: char) -> Seq<char> {
    if c == '"' {
        seq!['\\', '"']
    } else if c == '\\' {
        seq!['\\', '\\']
    } else if c == '\n' {
        seq!['\\', 'n']
    } else if c == '\r' {
        seq!['\\', 'r']
    } else if c == '\t' {
        seq!['\\', 't']
    } else if (c as u32) < 32 {
        seq!['\\', 'u', '0', '0', hex_char((c as u32 / 16) as nat), hex_char((c as u32 % 16) as nat)]
    } else {
        seq![c]
    }
}

/// The JSON escape of the first `i` characters of `s`.
pub open spec fn spec_escape_json(s: Seq<char>, i: int) -> Seq<char>
    decreases i,
{
    if i <= 0 {
        Seq::empty()
    } else {
        spec_escape_json(s, i - 1) + spec_escape_char(s[i - 1])
    }
}

/// A JSON string literal: the escaped text between double quotes.
pub open spec fn spec_json_string(s: Seq<char>) -> Seq<char> {
    "\""@ + spec_escape_json(s, s.len() as int) + "\""@
}

fn hex_str(d: u32) -> (r: &'static str)
    requires
        d < 16,
    ensures
        r@ == seq![hex_char(d as nat)],
{
    let r: &'static str = match d {
        0 => "0",
        1 => "1",
        2 => "2",
        3 => "3",
        4 => "4",
        5 => "5",
        6 => "6",
        7 => "7",
        8 => "8",
        9 => "9",
        10 => "a",
        11 => "b",
        12 => "c",
        13 => "d",
        14 => "e",
        _ => "f",
    };
    proof {
        reveal_strlit("0");
        reveal_strlit("1");
        reveal_strlit("2");
        reveal_strlit("3");
        reveal_strlit("4");
        reveal_strlit("5");
        reveal_strlit("6");
        reveal_strlit("7");
        reveal_strlit("8");
        reveal_strlit("9");
        reveal_strlit("a");
        reveal_strlit("b");
        reveal_strlit("c");
        reveal_strlit("d");
        reveal_strlit("e");
        reveal_strlit("f");
        assert(r@ =~= seq![hex_char(d as nat)]);
    }
    r
}

/// Append `s` as a JSON string literal, quotes included.
fn append_json_string(out: &mut String, s: &str)
    ensures
        final(out)@ == old(out)@ + spec_json_string(s@),
{
    out.append("\"");
    let n = s.unicode_len();
    let mut i: usize = 0;
    let ghost mid = out@;
    while i < n
        invariant
            n == s@.len(),
            0 <= i <= n,
            out@ == mid + spec_escape_json(s@, i as int),
        decreases n - i,
    {
        let c = s.get_char(i);
        let u = c as u32;
        if u == 34 {
            out.append("\\\"");
            proof {
                reveal_strlit("\\\"");
                assert("\\\""@ =~= spec_escape_char(c));
            }
        } else if u == 92 {
            out.append("\\\\");
            proof {
                reveal_strlit("\\\\");
                assert("\\\\"@ =~= spec_escape_char(c));
            }
        } else if u == 10 {
            out.append("\\n");
            proof {
                reveal_strlit("\\n");
                assert("\\n"@ =~= spec_escape_char(c));
            }
        } else if u == 13 {
            out.append("\\r");
            proof {
                reveal_strlit("\\r");
                assert("\\r"@ =~= spec_escape_char(c));
            }
        } else if u == 9 {
            out.append("\\t");
            proof {
                reveal_strlit("\\t");
                assert("\\t"@ =~= spec_escape_char(c));
            }
        } else if u < 32 {
            out.append("\\u00");
            out.append(hex_str(u / 16));
            out.append(hex_str(u % 16));
            proof {
                reveal_strlit("\\u00");
                assert("\\u00"@ + seq![hex_char((u / 16) as nat)] + seq![hex_char((u % 16) as nat)]
                    =~= spec_escape_char(c));
            }
        } else {
            let piece = s.substring_char(i, i + 1);
            out.append(piece);
            proof {
                assert(piece@ =~= spec_escape_char(c));
            }
        }
        i += 1;
    }
    out.append("\"");
    proof {
        assert(out@ =~= old(out)@ + spec_json_string(s@));
    }
}

/// One match as a JSON object.
pub open spec fn spec_json_match(m: MatchResult) -> Seq<char> {
    "{\"text\": "@ + spec_json_string(m.text@) + ", \"line_number\": "@ + spec_dec(
        m.line_number as nat,
    ) + ", \"context_before\": "@ + spec_json_string(m.context_before@)
        + ", \"context_after\": "@ + spec_json_string(m.context_after@) + "}"@
}

/// The first `i` matches as JSON objects, comma separated.
pub open spec fn spec_json_matches(ms: Seq<MatchResult>, i: int) -> Seq<char>
    decreases i,
{
    if i <= 0 {
        Seq::empty()
    } else if i == 1 {
        spec_json_match(ms[0])
    } else {
        spec_json_matches(ms, i - 1) + ", "@ + spec_json_match(ms[i - 1])
    }
}

/// One page's results as a JSON object.
pub open spec fn spec_json_result(r: ExtractionResult) -> Seq<char> {
    "{\"page_number\": "@ + spec_dec(r.page_number as nat) + ", \"content\": "@ + spec_json_string(
        r.content@,
    ) + ", \"matches\": ["@ + spec_json_matches(r.matches@, r.matches@.len() as int) + "]}"@
}

/// The first `i` page objects, comma separated.
pub open spec fn spec_json_results(rs: Seq<ExtractionResult>, i: int) -> Seq<char>
    decreases i,
{
    if i <= 0 {
        Seq::empty()
    } else if i == 1 {
        spec_json_result(rs[0])
    } else {
        spec_json_results(rs, i - 1) + ", "@ + spec_json_result(rs[i - 1])
    }
}

/// The whole JSON document: the two summary counts, then one object per
/// page.
pub open spec fn spec_to_json(rs: Seq<ExtractionResult>) -> Seq<char> {
    "{\n  \"total_pages\": "@ + spec_dec(rs.len()) + ",\n  \"total_matches\": "@ + spec_dec(
        spec_total_matches_clamped(rs),
    ) + ",\n  \"results\": ["@ + spec_json_results(rs, rs.len() as int) + "]\n}"@
}

/// A non-empty run of the results array opens with a page object.
pub proof fn lemma_json_results_opens_with_object(rs: Seq<ExtractionResult>, n: int)
    requires
        n >= 1,
    ensures
        spec_json_results(rs, n).len() > 0,
        spec_json_results(rs, n)[0] == '{',
    decreases n,
{
    reveal_strlit("{\"page_number\": ");
    if n == 1 {
        assert(spec_json_result(rs[0])[0] == "{\"page_number\": "@[0]);
    } else {
        lemma_json_results_opens_with_object(rs, n - 1);
    }
}

/// The summary read back from the head of a JSON document written by
/// `spec_to_json`: the value after the `total_pages` key, the value after
/// the `total_matches` key (both as plain digit runs), and whether the
/// `results` array opens empty.
pub open spec fn spec_parse_json_counts(s: Seq<char>) -> Option<(int, int, bool)> {
    let p1 = "{\n  \"total_pages\": "@;
    let p2 = ",\n  \"total_matches\": "@;
    let p3 = ",\n  \"results\": ["@;
    if s.len() >= p1.len() && s.take(p1.len() as int) == p1 {
        let r1 = s.skip(p1.len() as int);
        let d1 = crate::pagespec::digits_prefix_len(r1);
        if d1 > 0 {
            let r2 = r1.skip(d1);
            if r2.len() >= p2.len() && r2.take(p2.len() as int) == p2 {
                let r3 = r2.skip(p2.len() as int);
                let d2 = crate::pagespec::digits_prefix_len(r3);
                let r4 = r3.skip(d2);
                if d2 > 0 && r4.len() > p3.len() && r4.take(p3.len() as int) == p3 {
                    Some(
                        (
                            crate::pagespec::digits_val(r1.take(d1)),
                            crate::pagespec::digits_val(r3.take(d2)),
                            r4[p3.len() as int] == ']',
                        ),
                    )
                } else {
                    None
                }
            } else {
                None
            }
        } else {
            None
        }
    } else {
        None
    }
}

/// Law: parsing back a JSON export recovers the summary exactly — the
/// number of result pages, the total number of matches as reported (clamped
/// at the machine limit), and an empty results array precisely when there
/// are no result pages.
pub proof fn lemma_json_counts_roundtrip(rs: Seq<ExtractionResult>)
    ensures
        spec_parse_json_counts(spec_to_json(rs)) == Some(
            (rs.len() as int, spec_total_matches_clamped(rs) as int, rs.len() == 0),
        ),
{
    let p1 = "{\n  \"total_pages\": "@;
    let p2 = ",\n  \"total_matches\": "@;
    let p3 = ",\n  \"results\": ["@;
    let tail = "]\n}"@;
    let body = spec_json_results(rs, rs.len() as int);
    lemma_total_matches_nonneg(rs);
    let d1 = spec_dec(rs.len());
    let d2 = spec_dec(spec_total_matches_clamped(rs));
    crate::pagespec::lemma_dec_digits(rs.len());
    crate::pagespec::lemma_dec_digits(spec_total_matches_clamped(rs));
    reveal_strlit("{\n  \"total_pages\": ");
    reveal_strlit(",\n  \"total_matches\": ");
    reveal_strlit(",\n  \"results\": [");
    let s = spec_to_json(rs);
    assert(s =~= p1 + (d1 + (p2 + (d2 + (p3 + body + tail)))));
    assert(s.take(p1.len() as int) =~= p1);
    let r1 = s.skip(p1.len() as int);
    assert(r1 =~= d1 + (p2 + (d2 + (p3 + body + tail))));
    assert(!crate::pagespec::is_digit(p2[0]));
    crate::pagespec::lemma_digits_prefix_of_concat(d1, p2 + (d2 + (p3 + body + tail)));
    assert(crate::pagespec::digits_prefix_len(r1) == d1.len());
    assert(r1.take(d1.len() as int) =~= d1);
    let r2 = r1.skip(d1.len() as int);
    assert(r2 =~= p2 + (d2 + (p3 + body + tail)));
    assert(r2.take(p2.len() as int) =~= p2);
    let r3 = r2.skip(p2.len() as int);
    assert(r3 =~= d2 + (p3 + body + tail));
    assert(!crate::pagespec::is_digit(p3[0]));
    assert((p3 + body + tail).len() > 0);
    assert((p3 + body + tail)[0] == p3[0]);
    crate::pagespec::lemma_digits_prefix_of_concat(d2, p3 + body + tail);
    assert(crate::pagespec::digits_prefix_len(r3) == d2.len());
    assert(r3.take(d2.len() as int) =~= d2);
    let r4 = r3.skip(d2.len() as int);
    assert(r4 =~= p3 + body + tail);
    assert(r4.take(p3.len() as int) =~= p3);
    reveal_strlit("]\n}");
    if rs.len() == 0 {
        assert(body.len() == 0);
        assert(r4[p3.len() as int] == tail[0]);
    } else {
        lemma_json_results_opens_with_object(rs, rs.len() as int);
        assert(r4[p3.len() as int] == body[0]);
    }
}

/// Append one match as a JSON object.
fn append_json_match(out: &mut String, m: &MatchResult)
    ensures
        final(out)@ == old(out)@ + spec_json_match(*m),
{
    out.append("{\"text\": ");
    append_json_string(out, m.text.as_str());
    out.append(", \"line_number\": ");
    let d = dec_u64(m.line_number as u64);
    out.append(d.as_str());
    out.append(", \"context_before\": ");
    append_json_string(out, m.context_before.as_str());
    out.append(", \"context_after\": ");
    append_json_string(out, m.context_after.as_str());
    out.append("}");
}

/// Append one page as a JSON object.
fn append_json_result(out: &mut String, r: &ExtractionResult)
    ensures
        final(out)@ == old(out)@ + spec_json_result(*r),
{
    out.append("{\"page_number\": ");
    let d = dec_u64(r.page_number as u64);
    out.append(d.as_str());
    out.append(", \"content\": ");
    append_json_string(out, r.content.as_str());
    out.append(", \"matches\": [");
    let ghost ms = r.matches@;
    let ghost base = out@;
    let mut k: usize = 0;
    while k < r.matches.len()
        invariant
            ms == r.matches@,
            0 <= k <= ms.len(),
            out@ == base + spec_json_matches(ms, k as int),
        decreases ms.len() - k,
    {
        if k > 0 {
            out.append(", ");
        }
        append_json_match(out, &r.matches[k]);
        k += 1;
    }
    out.append("]}");
}

impl Exporter {
    /// Render the results as a JSON document.
    pub fn to_json(&self, results: &Vec<ExtractionResult>) -> (r: Result<String, AstraPdfError>)
        ensures
            r matches Ok(s) && s@ == spec_to_json(results@),
    {
        let mut out = String::new();
        out.append("{\n  \"total_pages\": ");
        let d1 = dec_u64(results.len() as u64);
        out.append(d1.as_str());
        out.append(",\n  \"total_matches\": ");
        let tm = total_matches(results);
        let d2 = dec_u64(tm as u64);
        out.append(d2.as_str());
        out.append(",\n  \"results\": [");
        let ghost rs = results@;
        let ghost base = out@;
        let mut i: usize = 0;
        while i < results.len()
            invariant
                rs == results@,
                0 <= i <= rs.len(),
                out@ == base + spec_json_results(rs, i as int),
            decreases rs.len() - i,
        {
            if i > 0 {
                out.append(", ");
            }
            append_json_result(&mut out, &results[i]);
            i += 1;
        }
        out.append("]\n}");
        Ok(out)
    }
}

/// What `csv::Writer` produces for these rows, written in order into memory.
pub uninterp spec fn csv_of(rows: Seq<Seq<Seq<char>>>) -> Seq<char>;

/// Relies on `csv::Writer` (default configuration: comma delimiter, `\n`
/// terminator, quoting only where needed) writing into an in-memory buffer:
/// the encoding is a pure function of the rows, and with records of equal
/// width and an infallible sink it cannot fail.
#[verifier::external_body]
fn csv_encode(rows: &Vec<Vec<String>>) -> (r: Option<String>)
    ensures
        r matches Some(s) ==> s@ == csv_of(rows.deep_view()),
        (forall|i: int| 0 <= i < rows@.len() ==> (#[trigger] rows@[i])@.len() == 5) ==> r is Some,
{
    let mut w = csv::Writer::from_writer(vec![]);
    for row in rows.iter() {
        if w.write_record(row).is_err() {
            return None;
        }
    }
    match w.into_inner() {
        Ok(bytes) => String::from_utf8(bytes).ok(),
        Err(_) => None,
    }
}

/// The CSV header row.
pub open spec fn spec_csv_header() -> Seq<Seq<char>> {
    seq![
        "page_number"@,
        "line_number"@,
        "matched_text"@,
        "context_before"@,
        "context_after"@,
    ]
}

/// The CSV row of one match.
pub open spec fn spec_csv_match_row(page: u32, m: MatchResult) -> Seq<Seq<char>> {
    seq![
        spec_dec(page as nat),
        spec_dec(m.line_number as nat),
        m.text@,
        m.context_before@,
        m.context_after@,
    ]
}

/// The CSV row of a page without matches: just its number.
pub open spec fn spec_csv_empty_row(page: u32) -> Seq<Seq<char>> {
    seq![
        spec_dec(page as nat),
        Seq::<char>::empty(),
        Seq::<char>::empty(),
        Seq::<char>::empty(),
        Seq::<char>::empty(),
    ]
}

/// The rows of the first `k` matches of one page.
pub open spec fn spec_csv_page_rows(r: ExtractionResult, k: int) -> Seq<Seq<Seq<char>>>
    decreases k,
{
    if k <= 0 {
        Seq::empty()
    } else {
        spec_csv_page_rows(r, k - 1).push(spec_csv_match_row(r.page_number, r.matches@[k - 1]))
    }
}

/// The rows of one page: one per match, or a single page-number row when it
/// has none.
pub open spec fn spec_csv_rows_of(r: ExtractionResult) -> Seq<Seq<Seq<char>>> {
    if r.matches@.len() == 0 {
        seq![spec_csv_empty_row(r.page_number)]
    } else {
        spec_csv_page_rows(r, r.matches@.len() as int)
    }
}

/// The rows of the first `i` pages.
pub open spec fn spec_csv_data_rows(rs: Seq<ExtractionResult>, i: int) -> Seq<Seq<Seq<char>>>
    decreases i,
{
    if i <= 0 {
        Seq::empty()
    } else {
        spec_csv_data_rows(rs, i - 1) + spec_csv_rows_of(rs[i - 1])
    }
}

/// All CSV rows: the header, then the data rows in page order.
pub open spec fn spec_csv_rows(rs: Seq<ExtractionResult>) -> Seq<Seq<Seq<char>>> {
    seq![spec_csv_header()] + spec_csv_data_rows(rs, rs.len() as int)
}

fn csv_match_row(page: u32, m: &MatchResult) -> (row: Vec<String>)
    ensures
        row.deep_view() == spec_csv_match_row(page, *m),
        row@.len() == 5,
{
    let mut row: Vec<String> = Vec::new();
    row.push(dec_u64(page as u64));
    row.push(dec_u64(m.line_number as u64));
    row.push(m.text.clone());
    row.push(m.context_before.clone());
    row.push(m.context_after.clone());
    proof {
        assert(row.deep_view() =~= spec_csv_match_row(page, *m));
    }
    row
}

fn csv_empty_row(page: u32) -> (row: Vec<String>)
    ensures
        row.deep_view() == spec_csv_empty_row(page),
        row@.len() == 5,
{
    let mut row: Vec<String> = Vec::new();
    row.push(dec_u64(page as u64));
    row.push(String::new());
    row.push(String::new());
    row.push(String::new());
    row.push(String::new());
    proof {
        assert(row.deep_view() =~= spec_csv_empty_row(page));
    }
    row
}

impl Exporter {
    /// Render the results as CSV: a header row, then one row per match, and
    /// a bare page-number row for a page without matches.
    pub fn to_csv(&self, results: &Vec<ExtractionResult>) -> (r: Result<String, AstraPdfError>)
        ensures
            r matches Ok(s) && s@ == csv_of(spec_csv_rows(results@)),
    {
        let mut rows: Vec<Vec<String>> = Vec::new();
        let mut header: Vec<String> = Vec::new();
        header.push(String::from_str("page_number"));
        header.push(String::from_str("line_number"));
        header.push(String::from_str("matched_text"));
        header.push(String::from_str("context_before"));
        header.push(String::from_str("context_after"));
        proof {
            assert(header.deep_view() =~= spec_csv_header());
        }
        rows.push(header);
        let ghost rs = results@;
        let mut i: usize = 0;
        while i < results.len()
            invariant
                rs == results@,
                0 <= i <= rs.len(),
                rows.deep_view() =~= seq![spec_csv_header()] + spec_csv_data_rows(rs, i as int),
                forall|k: int| 0 <= k < rows@.len() ==> (#[trigger] rows@[k])@.len() == 5,
            decreases rs.len() - i,
        {
            let r = &results[i];
            let ghost before_dv = rows.deep_view();
            if r.matches.len() == 0 {
                let row = csv_empty_row(r.page_number);
                let ghost row_dv = row.deep_view();
                rows.push(row);
                proof {
                    assert(rows.deep_view() =~= before_dv.push(row_dv));
                    assert(spec_csv_rows_of(rs[i as int]) =~= seq![
                        spec_csv_empty_row(r.page_number),
                    ]);
                    assert(spec_csv_data_rows(rs, i + 1) == spec_csv_data_rows(rs, i as int)
                        + spec_csv_rows_of(rs[i as int]));
                    assert(rows.deep_view() =~= seq![spec_csv_header()] + spec_csv_data_rows(
                        rs,
                        i + 1,
                    ));
                }
            } else {
                let ghost base = rows.deep_view();
                let mut k: usize = 0;
                proof {
                    assert(base + spec_csv_page_rows(*r, 0) =~= base);
                }
                while k < r.matches.len()
                    invariant
                        rs == results@,
                        i < rs.len(),
                        r == &results[i as int],
                        base == before_dv,
                        0 <= k <= r.matches@.len(),
                        rows.deep_view() =~= base + spec_csv_page_rows(*r, k as int),
                        forall|j: int| 0 <= j < rows@.len() ==> (#[trigger] rows@[j])@.len() == 5,
                    decreases r.matches@.len() - k,
                {
                    let row = csv_match_row(r.page_number, &r.matches[k]);
                    let ghost row_dv = row.deep_view();
                    rows.push(row);
                    proof {
                        assert(row_dv == spec_csv_match_row(r.page_number, r.matches@[k as int]));
                        assert(rows.deep_view() =~= (base + spec_csv_page_rows(*r, k as int)).push(
                            row_dv,
                        ));
                        assert(spec_csv_page_rows(*r, k + 1) == spec_csv_page_rows(
                            *r,
                            k as int,
                        ).push(row_dv));
                        assert(rows.deep_view() =~= base + spec_csv_page_rows(*r, k + 1));
                    }
                    k += 1;
                }
                proof {
                    assert(spec_csv_rows_of(rs[i as int]) == spec_csv_page_rows(
                        *r,
                        r.matches@.len() as int,
                    ));
                    assert(spec_csv_data_rows(rs, i + 1) == spec_csv_data_rows(rs, i as int)
                        + spec_csv_rows_of(rs[i as int]));
                }
                proof {
                    assert(rows.deep_view() =~= seq![spec_csv_header()] + spec_csv_data_rows(
                        rs,
                        i + 1,
                    ));
                }
            }
            i += 1;
        }
        proof {
            assert(rows.deep_view() =~= spec_csv_rows(rs));
        }
        match csv_encode(&rows) {
            Some(s) => Ok(s),
            None => Err(AstraPdfError::ExportError(String::new())),
        }
    }

    /// Render the results in this exporter's format.
    pub fn render(&self, results: &Vec<ExtractionResult>) -> (r: Result<String, AstraPdfError>)
        ensures
            r is Ok,
            self.spec_format() is Txt ==> (r matches Ok(s) && s@ == spec_to_text(results@)),
            self.spec_format() is Json ==> (r matches Ok(s) && s@ == spec_to_json(results@)),
            self.spec_format() is Csv ==> (r matches Ok(s) && s@ == csv_of(
                spec_csv_rows(results@),
            )),
    {
        match self.format {
            ExportFormat::Txt => self.to_text(results),
            ExportFormat::Json => self.to_json(results),
            ExportFormat::Csv => self.to_csv(results),
        }
    }
}

} // verus!
