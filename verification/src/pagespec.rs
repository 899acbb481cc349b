//! Parsing of page-range specifications: comma-separated tokens, each a
//! positive integer or an inclusive `start-end` range.

use vstd::prelude::*;
use vstd::string::StrSliceExecFns;
use vstd::string::StringExecFns;

use crate::error::AstraPdfError;
use crate::text::{char_index, lemma_char_index, lemma_char_index_unique, spec_trim, trim_ws};

verus! {

/// A decimal digit character.
pub open spec fn is_digit(c: char) -> bool {
    48 <= c as u32 <= 57
}

/// The numeric value of a digit character.
pub open spec fn digit_val(c: char) -> int {
    c as u32 - 48
}

/// Every character of `s` is a decimal digit.
pub open spec fn all_digits(s: Seq<char>) -> bool {
    forall|i: int| 0 <= i < s.len() ==> is_digit(s[i])
}

/// The numeric value of a digit string, most significant digit first.
pub open spec fn digits_val(s: Seq<char>) -> int
    decreases s.len(),
{
    if s.len() == 0 {
        0
    } else {
        digits_val(s.drop_last()) * 10 + digit_val(s.last())
    }
}

pub proof fn lemma_digits_val_nonneg(s: Seq<char>)
    requires
        all_digits(s),
    ensures
        digits_val(s) >= 0,
    decreases s.len(),
{
    if s.len() > 0 {
        assert(all_digits(s.drop_last()));
        lemma_digits_val_nonneg(s.drop_last());
    }
}

pub proof fn lemma_digits_val_mono(s: Seq<char>, i: int)
    requires
        all_digits(s),
        0 <= i <= s.len(),
    ensures
        digits_val(s) >= digits_val(s.take(i)),
    decreases s.len() - i,
{
    if i == s.len() {
        assert(s.take(i) =~= s);
    } else {
        lemma_digits_val_mono(s, i + 1);
        assert(s.take(i + 1).drop_last() =~= s.take(i));
        assert(s.take(i + 1).last() == s[i]);
        assert(all_digits(s.take(i)));
        lemma_digits_val_nonneg(s.take(i));
        assert(digits_val(s.take(i + 1)) == digits_val(s.take(i)) * 10 + digit_val(s[i]));
    }
}

/// A decimal rendering is at least one digit long, all digits, and stands
/// for the number it was rendered from.
pub proof fn lemma_dec_digits(n: nat)
    ensures
        crate::text::spec_dec(n).len() >= 1,
        all_digits(crate::text::spec_dec(n)),
        digits_val(crate::text::spec_dec(n)) == n,
    decreases n,
{
    let s = crate::text::spec_dec(n);
    if n < 10 {
        assert(s =~= seq![crate::text::digit_char(n)]);
        assert(s.drop_last() =~= Seq::<char>::empty());
        assert(digits_val(s.drop_last()) == 0);
        assert(s.last() == crate::text::digit_char(n));
        assert(crate::text::digit_char(n) as u32 == 48 + n);
        assert(is_digit(crate::text::digit_char(n)));
        assert(digits_val(s) == digit_val(crate::text::digit_char(n)));
    } else {
        lemma_dec_digits(n / 10);
        let head = crate::text::spec_dec(n / 10);
        assert(s == head.push(crate::text::digit_char(n % 10)));
        assert(s.drop_last() =~= head);
        assert(s.last() == crate::text::digit_char(n % 10));
        assert(all_digits(s)) by {
            assert(forall|i: int|
                0 <= i < head.len() ==> s[i] == head[i] && is_digit(head[i]));
        }
        assert(digits_val(s) == digits_val(head) * 10 + digit_val(s.last()));
    }
}

/// The length of the longest digit prefix of `s`.
pub open spec fn digits_prefix_len(s: Seq<char>) -> int
    decreases s.len(),
{
    if s.len() > 0 && is_digit(s[0]) {
        1 + digits_prefix_len(s.skip(1))
    } else {
        0
    }
}

/// A digit string followed by text opening with a non-digit has exactly the
/// digit string as its digit prefix.
pub proof fn lemma_digits_prefix_of_concat(x: Seq<char>, y: Seq<char>)
    requires
        all_digits(x),
        y.len() > 0,
        !is_digit(y[0]),
    ensures
        digits_prefix_len(x + y) == x.len(),
    decreases x.len(),
{
    if x.len() == 0 {
        assert(x + y =~= y);
    } else {
        assert((x + y)[0] == x[0]);
        assert((x + y).skip(1) =~= x.skip(1) + y);
        assert(all_digits(x.skip(1)));
        lemma_digits_prefix_of_concat(x.skip(1), y);
    }
}

/// A token parsed as `u32` the way `str::parse::<u32>` does: an optional
/// leading `+`, then at least one digit, with the value within range.
pub open spec fn spec_parse_u32(t: Seq<char>) -> Option<u32> {
    let d = if t.len() > 0 && t[0] == '+' {
        t.skip(1)
    } else {
        t
    };
    if d.len() > 0 && all_digits(d) && digits_val(d) <= u32::MAX {
        Some(digits_val(d) as u32)
    } else {
        None
    }
}

/// Parse a trimmed token as `u32`, as `str::parse::<u32>` would.
pub fn parse_u32(t: &str) -> (r: Option<u32>)
    ensures
        r == spec_parse_u32(t@),
{
    let n = t.unicode_len();
    let start: usize = if n > 0 && t.get_char(0) == '+' {
        1
    } else {
        0
    };
    let ghost d = if t@.len() > 0 && t@[0] == '+' {
        t@.skip(1)
    } else {
        t@
    };
    proof {
        assert(d =~= t@.skip(start as int));
    }
    if n == start {
        return None;
    }
    let mut acc: u64 = 0;
    let mut i: usize = start;
    proof {
        assert(d.take(0) =~= Seq::<char>::empty());
    }
    while i < n
        invariant
            n == t@.len(),
            start <= i <= n,
            d == t@.skip(start as int),
            d == (if t@.len() > 0 && t@[0] == '+' {
                t@.skip(1)
            } else {
                t@
            }),
            d.len() == n - start,
            all_digits(d.take(i - start)),
            acc == digits_val(d.take(i - start)),
            acc <= u32::MAX,
        decreases n - i,
    {
        let c = t.get_char(i);
        let u = c as u32;
        proof {
            assert(d[i - start] == t@[i as int]);
        }
        if u < 48 || u > 57 {
            proof {
                assert(!is_digit(d[i - start]));
                assert(!all_digits(d));
            }
            return None;
        }
        let dv: u64 = (u - 48) as u64;
        let next: u64 = acc * 10 + dv;
        proof {
            assert(d.take(i - start + 1).drop_last() =~= d.take(i - start));
            assert(d.take(i - start + 1).last() == d[i - start]);
            assert(all_digits(d.take(i - start + 1)));
        }
        if next > 0xffff_ffff {
            proof {
                if all_digits(d) {
                    lemma_digits_val_mono(d, i - start + 1);
                }
            }
            return None;
        }
        acc = next;
        i += 1;
    }
    proof {
        assert(d.take(n - start) =~= d);
    }
    Some(acc as u32)
}

/// The pages `lo..=hi`, in order.
pub open spec fn range_seq(lo: u32, hi: u32) -> Seq<u32> {
    Seq::new((hi - lo + 1) as nat, |i: int| (lo + i) as u32)
}

/// One comma-separated token expanded to its pages: a single page number, or
/// an inclusive range written `start-end` with exactly two bounds and
/// `start <= end`. Bounds are trimmed before parsing; any failure rejects the
/// token.
pub open spec fn spec_parse_token(t: Seq<char>) -> Option<Seq<u32>> {
    let i = char_index(t, '-');
    if 0 <= i && i < t.len() {
        let a = t.take(i);
        let b = t.skip(i + 1);
        if char_index(b, '-') < b.len() {
            None
        } else {
            match (spec_parse_u32(spec_trim(a)), spec_parse_u32(spec_trim(b))) {
                (Some(x), Some(y)) => if x <= y {
                    Some(range_seq(x, y))
                } else {
                    None
                },
                _ => None,
            }
        }
    } else {
        match spec_parse_u32(spec_trim(t)) {
            Some(x) => Some(seq![x]),
            None => None,
        }
    }
}

/// A whole page specification expanded to its pages: tokens split on commas,
/// each expanded by `spec_parse_token`, concatenated in written order; any
/// failing token rejects the whole specification.
pub open spec fn spec_parse_pages(s: Seq<char>) -> Option<Seq<u32>>
    decreases s.len(),
{
    let i = char_index(s, ',');
    if 0 <= i && i < s.len() {
        match (spec_parse_token(s.take(i)), spec_parse_pages(s.skip(i + 1))) {
            (Some(a), Some(b)) => Some(a + b),
            _ => None,
        }
    } else {
        match spec_parse_token(s) {
            Some(a) => Some(a),
            None => None,
        }
    }
}

fn find_char_from(s: &str, c: char, from: usize) -> (i: usize)
    requires
        from <= s@.len(),
    ensures
        from <= i <= s@.len(),
        i - from == char_index(s@.skip(from as int), c),
    decreases s@.len() - from,
{
    let n = s.unicode_len();
    let mut i: usize = from;
    while i < n && s.get_char(i) != c
        invariant
            n == s@.len(),
            from <= i <= n,
            forall|k: int| from <= k < i ==> s@[k] != c,
        decreases n - i,
    {
        i += 1;
    }
    proof {
        let rest = s@.skip(from as int);
        assert forall|k: int| 0 <= k < i - from implies rest[k] != c by {
            assert(rest[k] == s@[from + k]);
        }
        if i < n {
            assert(rest[i - from] == s@[i as int]);
        }
        lemma_char_index_unique(rest, c, i - from);
    }
    i
}

/// Expand one token. Returns the pages it stands for, or `None` when the
/// token is rejected.
fn parse_token(t: &str) -> (r: Option<Vec<u32>>)
    ensures
        r is Some <==> spec_parse_token(t@) is Some,
        r matches Some(v) ==> spec_parse_token(t@) matches Some(w) && v@ == w,
{
    let n = t.unicode_len();
    let dash = find_char_from(t, '-', 0);
    proof {
        assert(t@.skip(0) == t@);
    }
    if dash < n {
        let a = t.substring_char(0, dash);
        let b = t.substring_char(dash + 1, n);
        proof {
            assert(a@ =~= t@.take(dash as int));
            assert(b@ =~= t@.skip(dash + 1));
        }
        let dash2 = find_char_from(b, '-', 0);
        proof {
            assert(b@.skip(0) == b@);
        }
        if dash2 < b.unicode_len() {
            return None;
        }
        let x = match parse_u32(trim_ws(a)) {
            Some(x) => x,
            None => {
                return None;
            },
        };
        let y = match parse_u32(trim_ws(b)) {
            Some(y) => y,
            None => {
                return None;
            },
        };
        if x > y {
            return None;
        }
        let mut v: Vec<u32> = Vec::new();
        let count: u64 = (y - x) as u64 + 1;
        let mut k: u64 = 0;
        while k < count
            invariant
                count == y - x + 1,
                x <= y <= u32::MAX,
                0 <= k <= count,
                v@.len() == k,
                forall|j: int| 0 <= j < k ==> v@[j] == (x + j) as u32,
            decreases count - k,
        {
            v.push(x + (k as u32));
            k += 1;
        }
        proof {
            assert(v@ =~= range_seq(x, y));
        }
        Some(v)
    } else {
        match parse_u32(trim_ws(t)) {
            Some(x) => {
                let mut v: Vec<u32> = Vec::new();
                v.push(x);
                proof {
                    assert(v@ =~= seq![x]);
                }
                Some(v)
            },
            None => None,
        }
    }
}

fn append_all(out: &mut Vec<u32>, v: &Vec<u32>)
    ensures
        final(out)@ == old(out)@ + v@,
{
    let ghost prev = out@;
    let mut vi: usize = 0;
    proof {
        assert(out@ =~= prev + v@.take(0));
    }
    while vi < v.len()
        invariant
            0 <= vi <= v@.len(),
            out@ == prev + v@.take(vi as int),
        decreases v@.len() - vi,
    {
        proof {
            assert(v@.take(vi + 1) =~= v@.take(vi as int).push(v@[vi as int]));
        }
        out.push(v[vi]);
        vi += 1;
    }
    proof {
        assert(v@.take(v@.len() as int) =~= v@);
    }
}

/// Parse a page specification such as `1,3,5-10` into the ordered pages it
/// names. Tokens appear in written order, ranges are inclusive, duplicates
/// are kept; any malformed token or reversed range fails the whole call.
pub fn parse_page_spec(s: &str) -> (r: Result<Vec<u32>, AstraPdfError>)
    ensures
        r is Ok <==> spec_parse_pages(s@) is Some,
        r matches Ok(v) ==> spec_parse_pages(s@) matches Some(w) && v@ == w,
        r matches Err(e) ==> e is PageSpecParseError,
{
    let n = s.unicode_len();
    let mut out: Vec<u32> = Vec::new();
    let mut pos: usize = 0;
    let ghost whole = spec_parse_pages(s@);
    proof {
        assert(s@.skip(0) == s@);
    }
    loop
        invariant
            n == s@.len(),
            0 <= pos <= n,
            whole == spec_parse_pages(s@),
            match spec_parse_pages(s@.skip(pos as int)) {
                Some(rest) => whole matches Some(w) && w == out@ + rest,
                None => whole is None,
            },
        decreases n - pos,
    {
        let ghost rest = s@.skip(pos as int);
        let comma = find_char_from(s, ',', pos);
        proof {
            lemma_char_index(rest, ',');
        }
        let token = s.substring_char(pos, comma);
        proof {
            assert(token@ =~= rest.take(comma - pos));
        }
        if comma < n {
            proof {
                assert(rest.skip(comma - pos + 1) =~= s@.skip(comma + 1));
            }
            match parse_token(token) {
                Some(v) => {
                    append_all(&mut out, &v);
                    pos = comma + 1;
                },
                None => {
                    return Err(
                        AstraPdfError::PageSpecParseError(
                            String::from_str(token),
                        ),
                    );
                },
            }
        } else {
            proof {
                assert(token@ =~= rest);
            }
            match parse_token(token) {
                Some(v) => {
                    append_all(&mut out, &v);
                    return Ok(out);
                },
                None => {
                    return Err(
                        AstraPdfError::PageSpecParseError(
                            String::from_str(token),
                        ),
                    );
                },
            }
        }
    }
}

} // verus!
