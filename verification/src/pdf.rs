//! The PDF analyzer: page enumeration, per-page text recovery with a
//! whole-document fallback, and the extraction and search front doors.
//!
//! The fallback text is not computed here: whole-document extraction is an
//! outside routine that can abort on malformed input, so the caller runs it
//! once when opening a document and hands the analyzer its outcome as a
//! plain optional string. Every contract then speaks of that supplied
//! value, and the analyzer itself never panics.

use vstd::prelude::*;
use vstd::string::StrSliceExecFns;
use vstd::string::StringExecFns;

use crate::content::{content_stream_text, spec_content_text};
use crate::error::AstraPdfError;
use crate::pagespec::{parse_page_spec, spec_parse_pages};
use crate::scan::{
    match_indices_upto, keyword_pred, regex_pred, match_is, find_keyword_matches, scan_compiled,
    CompiledPattern, regex_compiles,
};
use crate::text::{spec_lines, split_lines, str_contains};

pub use crate::scan::MatchResult;

verus! {

/// Declares `lopdf::Document` so that it can stand in fields and signatures;
/// its inside stays opaque to the verifier.
#[verifier::external_type_specification]
#[verifier::external_body]
pub struct ExDocument(lopdf::Document);

/// Whether `lopdf::Document::load_mem` accepts these bytes as a PDF
/// container. Parsing is a pure function of the bytes.
pub uninterp spec fn doc_load_ok(bytes: Seq<u8>) -> bool;

/// The page numbers that `lopdf::Document::get_pages` reports, in the order
/// of its keys.
pub uninterp spec fn doc_pages(d: lopdf::Document) -> Seq<u32>;

/// The internal object reference that `get_pages` maps a page number to.
pub uninterp spec fn doc_page_id(d: lopdf::Document, page: u32) -> Option<(u32, u16)>;

/// The bytes that `lopdf::Document::get_page_content` recovers for a page
/// object: its content streams, decompressed where possible, concatenated.
pub uninterp spec fn doc_raw_content(d: lopdf::Document, id: (u32, u16)) -> Seq<u8>;

/// The key/value rendering of the trailer's Info dictionary.
pub uninterp spec fn doc_metadata(d: lopdf::Document) -> Seq<(Seq<char>, Seq<char>)>;

/// UTF-8 decoding with replacement characters, a pure function of the bytes.
pub uninterp spec fn lossy_decode(bytes: Seq<u8>) -> Seq<char>;

/// Relies on `lopdf::Document::load_mem`: parses a PDF container from
/// memory, deterministically in the bytes.
#[verifier::external_body]
fn load_document(bytes: &Vec<u8>) -> (r: Result<lopdf::Document, String>)
    ensures
        r is Ok <==> doc_load_ok(bytes@),
{
    lopdf::Document::load_mem(bytes.as_slice()).map_err(|e| e.to_string())
}

/// Relies on `lopdf::Document::get_pages`: its keys are the document's page
/// numbers, handed out here in key order.
#[verifier::external_body]
fn page_numbers(d: &lopdf::Document) -> (r: Vec<u32>)
    ensures
        r@ == doc_pages(*d),
{
    d.get_pages().keys().copied().collect()
}

/// Relies on `lopdf::Document::get_pages`: the same map, looked up at one
/// page number.
#[verifier::external_body]
fn page_id_of(d: &lopdf::Document, page: u32) -> (r: Option<(u32, u16)>)
    ensures
        r == doc_page_id(*d, page),
        r is Some <==> doc_pages(*d).contains(page),
{
    d.get_pages().get(&page).copied()
}

/// Relies on `lopdf::Document::get_page_content`: the page's content stream
/// bytes, a pure function of the document and the page object reference.
#[verifier::external_body]
fn raw_page_content(d: &lopdf::Document, id: (u32, u16)) -> (r: Vec<u8>)
    ensures
        r@ == doc_raw_content(*d, id),
{
    d.get_page_content(id)
}

/// Relies on `String::from_utf8_lossy`: UTF-8 decoding with U+FFFD for
/// invalid sequences, a pure function of the bytes.
#[verifier::external_body]
fn utf8_lossy(bytes: &Vec<u8>) -> (r: String)
    ensures
        r@ == lossy_decode(bytes@),
{
    String::from_utf8_lossy(bytes.as_slice()).to_string()
}

/// An opened PDF document: its parsed object structure, together with the
/// whole-document fallback text the caller recovered for it, if any.
pub struct PdfAnalyzer {
    fallback: Option<String>,
    document: lopdf::Document,
}

/// One processed page: its number, its full recovered text, and the matches
/// found on it.
#[derive(Debug, Clone)]
pub struct ExtractionResult {
    pub page_number: u32,
    pub content: String,
    pub matches: Vec<MatchResult>,
}

/// The text recovered from the page's own content stream, when it is usable:
/// the structural scan of the decoded stream, provided the page object is
/// known and the scan yields anything.
pub open spec fn page_primary_text(d: lopdf::Document, page: u32) -> Option<Seq<char>> {
    match doc_page_id(d, page) {
        Some(id) => {
            let t = spec_content_text(lossy_decode(doc_raw_content(d, id)));
            if t.len() > 0 {
                Some(t)
            } else {
                None
            }
        },
        None => None,
    }
}

/// The text of a page: the structural scan where usable, else the supplied
/// whole-document fallback; `None` when neither is available.
pub open spec fn spec_page_text(d: lopdf::Document, fb: Option<Seq<char>>, page: u32) -> Option<
    Seq<char>,
> {
    match page_primary_text(d, page) {
        Some(t) => Some(t),
        None => fb,
    }
}

impl PdfAnalyzer {
    /// The whole-document fallback text this analyzer was opened with.
    pub closed spec fn spec_fallback(&self) -> Option<Seq<char>> {
        opt_view(self.fallback)
    }

    /// The parsed document.
    pub closed spec fn spec_doc(&self) -> lopdf::Document {
        self.document
    }

    /// Open an analyzer over the raw bytes of a PDF file. The caller also
    /// supplies the whole-document fallback text it recovered for these
    /// bytes, or `None` when that recovery failed; the analyzer serves it
    /// for any page whose structural scan yields nothing.
    pub fn new(bytes: Vec<u8>, fallback_text: Option<String>) -> (r: Result<
        PdfAnalyzer,
        AstraPdfError,
    >)
        ensures
            r is Ok <==> doc_load_ok(bytes@),
            r matches Ok(a) ==> a.spec_fallback() == opt_view(fallback_text),
            r matches Err(e) ==> e is PdfOpenError,
    {
        match load_document(&bytes) {
            Ok(d) => Ok(PdfAnalyzer { fallback: fallback_text, document: d }),
            Err(msg) => Err(AstraPdfError::PdfOpenError(msg)),
        }
    }

    /// The number of pages the document reports.
    pub fn get_page_count(&self) -> (r: u32)
        ensures
            r == doc_pages(self.spec_doc()).len() as u32,
    {
        let pages = page_numbers(&self.document);
        #[verifier::truncate] (pages.len() as u32)
    }

    /// Relies on lopdf's trailer dictionary and `Object`'s Debug rendering:
    /// the entries of the Info dictionary as key/value strings, a pure
    /// function of the document. An Info entry held behind a reference, or
    /// absent, yields no entries, as does a malformed one.
    #[verifier::external_body]
    pub fn get_metadata(&self) -> (r: Vec<(String, String)>)
        ensures
            r.deep_view() == doc_metadata(self.spec_doc()),
    {
        let mut metadata = Vec::new();
        if let Ok(info) = self.document.trailer.get(b"Info") {
            if let Ok(info_dict) = info.as_dict() {
                for (key, value) in info_dict.iter() {
                    let key_str = String::from_utf8_lossy(key).to_string();
                    let value_str = format!("{:?}", value);
                    metadata.push((key_str, value_str));
                }
            }
        }
        metadata
    }

    /// Recover the text of one page: try the page's own content stream
    /// first; where that is unavailable or yields nothing, serve the
    /// whole-document fallback text supplied when the analyzer was opened.
    pub fn extract_text_from_page(&self, page_num: u32) -> (r: Result<String, AstraPdfError>)
        ensures
            r is Ok <==> spec_page_text(self.spec_doc(), self.spec_fallback(), page_num) is Some,
            r matches Ok(t) ==> spec_page_text(self.spec_doc(), self.spec_fallback(), page_num)
                == Some(t@),
            r matches Err(e) ==> e is ExtractionError,
    {
        match page_id_of(&self.document, page_num) {
            Some(id) => {
                let content = raw_page_content(&self.document, id);
                let decoded = utf8_lossy(&content);
                let text = content_stream_text(decoded.as_str());
                if text.as_str().unicode_len() > 0 {
                    return Ok(text);
                }
            },
            None => {},
        }
        match &self.fallback {
            Some(t) => Ok(t.clone()),
            None => Err(
                AstraPdfError::ExtractionError(
                    String::from_str("Erreur lors de l'extraction du texte"),
                ),
            ),
        }
    }
}

/// The view of an optional string.
pub open spec fn opt_view(o: Option<String>) -> Option<Seq<char>> {
    match o {
        Some(s) => Some(s@),
        None => None,
    }
}

/// The pages an extraction runs over: the parsed specification where one is
/// given, else every page the document reports, in document order.
pub open spec fn spec_selected_pages(d: lopdf::Document, spec_opt: Option<Seq<char>>) -> Option<
    Seq<u32>,
> {
    match spec_opt {
        Some(s) => spec_parse_pages(s),
        None => Some(doc_pages(d)),
    }
}

/// `ms` holds exactly the match records of the page: the keyword matches
/// first, then the regular-expression matches, each in line order.
pub open spec fn page_matches_ok(
    text: Seq<char>,
    kw: Option<Seq<char>>,
    re: Option<Seq<char>>,
    page: u32,
    n: nat,
    ic: bool,
    ms: Seq<MatchResult>,
) -> bool {
    let lines = spec_lines(text);
    let ki = match kw {
        Some(k) => match_indices_upto(lines, keyword_pred(k, ic), lines.len() as int),
        None => Seq::<int>::empty(),
    };
    let ri = match re {
        Some(p) => match_indices_upto(lines, regex_pred(p), lines.len() as int),
        None => Seq::<int>::empty(),
    };
    &&& ms.len() == ki.len() + ri.len()
    &&& forall|k: int| 0 <= k < ki.len() ==> match_is(lines, page, n, ki[k], ms[k])
    &&& forall|k: int| 0 <= k < ri.len() ==> match_is(lines, page, n, ri[k], ms[ki.len() + k])
}

/// Some supplied query matches at least one line of the text.
pub open spec fn page_has_hits(
    text: Seq<char>,
    kw: Option<Seq<char>>,
    re: Option<Seq<char>>,
    ic: bool,
) -> bool {
    let lines = spec_lines(text);
    ||| (kw matches Some(k) && match_indices_upto(lines, keyword_pred(k, ic), lines.len() as int).len() > 0)
    ||| (re matches Some(p) && match_indices_upto(lines, regex_pred(p), lines.len() as int).len() > 0)
}

/// A page belongs in the output when it has at least one match, or when no
/// query was supplied at all (full-dump mode).
pub open spec fn page_included(
    text: Seq<char>,
    kw: Option<Seq<char>>,
    re: Option<Seq<char>>,
    ic: bool,
) -> bool {
    page_has_hits(text, kw, re, ic) || (kw is None && re is None)
}

/// `res` is the extraction record of `page`: its number, its full recovered
/// text, and exactly its match records.
pub open spec fn result_ok(
    d: lopdf::Document,
    fb: Option<Seq<char>>,
    kw: Option<Seq<char>>,
    re: Option<Seq<char>>,
    n: nat,
    ic: bool,
    page: u32,
    res: ExtractionResult,
) -> bool {
    &&& res.page_number == page
    &&& spec_page_text(d, fb, page) matches Some(t) && res.content@ == t && page_matches_ok(
        t,
        kw,
        re,
        page,
        n,
        ic,
        res.matches@,
    ) && page_included(t, kw, re, ic)
}

/// Of the first `i` selected pages, those that belong in the output, in
/// selection order.
pub open spec fn included_pages_upto(
    d: lopdf::Document,
    fb: Option<Seq<char>>,
    pages: Seq<u32>,
    kw: Option<Seq<char>>,
    re: Option<Seq<char>>,
    ic: bool,
    i: int,
) -> Seq<u32>
    decreases i,
{
    if i <= 0 {
        Seq::empty()
    } else {
        let rest = included_pages_upto(d, fb, pages, kw, re, ic, i - 1);
        match spec_page_text(d, fb, pages[i - 1]) {
            Some(t) => if page_included(t, kw, re, ic) {
                rest.push(pages[i - 1])
            } else {
                rest
            },
            None => rest,
        }
    }
}

/// Every one of the pages has recoverable text.
pub open spec fn all_pages_ok(d: lopdf::Document, fb: Option<Seq<char>>, pages: Seq<u32>) -> bool {
    forall|j: int| 0 <= j < pages.len() ==> spec_page_text(d, fb, pages[j]) is Some
}

impl PdfAnalyzer {
    /// Resolve an optional page specification to the concrete pages to
    /// process.
    pub fn get_pages_to_process(&self, pages_spec: &Option<String>) -> (r: Result<
        Vec<u32>,
        AstraPdfError,
    >)
        ensures
            r is Ok <==> spec_selected_pages(self.spec_doc(), opt_view(*pages_spec)) is Some,
            r matches Ok(v) ==> spec_selected_pages(self.spec_doc(), opt_view(*pages_spec))
                == Some(v@),
            r matches Err(e) ==> e is PageSpecParseError,
    {
        match pages_spec {
            Some(s) => parse_page_spec(s.as_str()),
            None => Ok(page_numbers(&self.document)),
        }
    }

    /// Extract text and matches from the selected pages.
    ///
    /// Fails, in this order of checks: on a malformed page specification; on
    /// an invalid regular-expression pattern, before any page is read; on the
    /// first selected page whose text cannot be recovered. Otherwise returns,
    /// in selection order, one record per page that has at least one match —
    /// or one per selected page, with no matches, when neither a keyword nor
    /// a pattern was supplied.
    pub fn extract(
        &self,
        keyword: &Option<String>,
        regex_pattern: &Option<String>,
        pages_spec: &Option<String>,
        context_lines: usize,
        ignore_case: bool,
    ) -> (r: Result<Vec<ExtractionResult>, AstraPdfError>)
        ensures
            r is Ok <==> (spec_selected_pages(self.spec_doc(), opt_view(*pages_spec)) matches Some(
                pages,
            ) && (opt_view(*regex_pattern) matches Some(p) ==> regex_compiles(p)) && all_pages_ok(
                self.spec_doc(),
                self.spec_fallback(),
                pages,
            )),
            r matches Ok(v) ==> (spec_selected_pages(self.spec_doc(), opt_view(*pages_spec))
                matches Some(pages) && {
                let inc = included_pages_upto(
                    self.spec_doc(),
                    self.spec_fallback(),
                    pages,
                    opt_view(*keyword),
                    opt_view(*regex_pattern),
                    ignore_case,
                    pages.len() as int,
                );
                &&& v@.len() == inc.len()
                &&& forall|k: int|
                    0 <= k < v@.len() ==> result_ok(
                        self.spec_doc(),
                        self.spec_fallback(),
                        opt_view(*keyword),
                        opt_view(*regex_pattern),
                        context_lines as nat,
                        ignore_case,
                        inc[k],
                        v@[k],
                    )
            }),
            r matches Err(e) ==> {
                let sel = spec_selected_pages(self.spec_doc(), opt_view(*pages_spec));
                &&& (sel is None ==> e is PageSpecParseError)
                &&& (sel is Some && (opt_view(*regex_pattern) matches Some(p)
                    && !regex_compiles(p)) ==> e is RegexError)
                &&& (sel is Some && (opt_view(*regex_pattern) matches Some(p) ==> regex_compiles(
                    p,
                )) ==> e is ExtractionError)
            },
    {
        let ghost d = self.spec_doc();
        let ghost fb = self.spec_fallback();
        let ghost kwv = opt_view(*keyword);
        let ghost rev = opt_view(*regex_pattern);
        let pages = match self.get_pages_to_process(pages_spec) {
            Ok(p) => p,
            Err(e) => {
                return Err(e);
            },
        };
        let compiled: Option<CompiledPattern> = match regex_pattern {
            Some(p) => match CompiledPattern::new(p.as_str()) {
                Ok(c) => Some(c),
                Err(msg) => {
                    return Err(AstraPdfError::RegexError(msg));
                },
            },
            None => None,
        };
        let mut results: Vec<ExtractionResult> = Vec::new();
        let mut i: usize = 0;
        while i < pages.len()
            invariant
                d == self.spec_doc(),
                fb == self.spec_fallback(),
                kwv == opt_view(*keyword),
                rev == opt_view(*regex_pattern),
                spec_selected_pages(d, opt_view(*pages_spec)) == Some(pages@),
                match rev {
                    Some(p) => compiled matches Some(c) && c@ == p && regex_compiles(p),
                    None => compiled is None,
                },
                (keyword is Some <==> kwv is Some) && (regex_pattern is Some <==> rev is Some),
                0 <= i <= pages@.len(),
                forall|j: int| 0 <= j < i ==> spec_page_text(d, fb, pages@[j]) is Some,
                results@.len() == included_pages_upto(
                    d,
                    fb,
                    pages@,
                    kwv,
                    rev,
                    ignore_case,
                    i as int,
                ).len(),
                forall|k: int|
                    0 <= k < results@.len() ==> result_ok(
                        d,
                        fb,
                        kwv,
                        rev,
                        context_lines as nat,
                        ignore_case,
                        included_pages_upto(d, fb, pages@, kwv, rev, ignore_case, i as int)[k],
                        results@[k],
                    ),
            decreases pages@.len() - i,
        {
            let page_num = pages[i];
            let text = match self.extract_text_from_page(page_num) {
                Ok(t) => t,
                Err(e) => {
                    proof {
                        assert(spec_page_text(d, fb, pages@[i as int]) is None);
                    }
                    return Err(e);
                },
            };
            let ghost t = text@;
            let mut matches: Vec<MatchResult> = match keyword {
                Some(kw) => find_keyword_matches(
                    text.as_str(),
                    kw.as_str(),
                    page_num,
                    context_lines,
                    ignore_case,
                ),
                None => Vec::new(),
            };
            let ghost kw_part = matches@;
            match &compiled {
                Some(cp) => {
                    let mut rv = scan_compiled(text.as_str(), cp, page_num, context_lines);
                    matches.append(&mut rv);
                },
                None => {},
            }
            proof {
                assert(page_matches_ok(
                    t,
                    kwv,
                    rev,
                    page_num,
                    context_lines as nat,
                    ignore_case,
                    matches@,
                ));
            }
            let no_query = keyword.is_none() && regex_pattern.is_none();
            if matches.len() > 0 || no_query {
                proof {
                    assert(page_included(t, kwv, rev, ignore_case));
                }
                results.push(ExtractionResult { page_number: page_num, content: text, matches });
            } else {
                proof {
                    assert(!page_included(t, kwv, rev, ignore_case));
                }
            }
            i += 1;
        }
        Ok(results)
    }
}

/// One line matched by an interactive search: the line itself with its
/// direct neighbours for display.
#[derive(Debug, Clone)]
pub struct SearchHit {
    /// The page the line was found on.
    pub page: u32,
    /// The 1-based line number within that page's text.
    pub line_number: usize,
    /// The matched line.
    pub line: String,
    /// The line just before, where there is one.
    pub prev: Option<String>,
    /// The line just after, where there is one.
    pub next: Option<String>,
}

/// The hits of one page of an interactive search.
#[derive(Debug, Clone)]
pub struct PageSearchHits {
    /// The page number.
    pub page: u32,
    /// Its hits, in line order.
    pub hits: Vec<SearchHit>,
}

/// `h` is the search record of line `i`.
pub open spec fn search_hit_is(lines: Seq<Seq<char>>, page: u32, i: int, h: SearchHit) -> bool {
    &&& 0 <= i < lines.len()
    &&& h.page == page
    &&& h.line_number == i + 1
    &&& h.line@ == lines[i]
    &&& (match h.prev {
        Some(p) => i > 0 && p@ == lines[i - 1],
        None => i == 0,
    })
    &&& (match h.next {
        Some(nx) => i < lines.len() - 1 && nx@ == lines[i + 1],
        None => i == lines.len() - 1,
    })
}

/// `hs` holds exactly the search records of the lines the query matches, in
/// line order.
pub open spec fn search_hits_ok(
    lines: Seq<Seq<char>>,
    page: u32,
    q: Seq<char>,
    ic: bool,
    hs: Seq<SearchHit>,
) -> bool {
    let idxs = match_indices_upto(lines, keyword_pred(q, ic), lines.len() as int);
    &&& hs.len() == idxs.len()
    &&& forall|k: int| 0 <= k < hs.len() ==> search_hit_is(lines, page, idxs[k], hs[k])
}

/// Scan one page's text for the query, line by line.
fn search_page(text: &str, page: u32, query: &str, ignore_case: bool) -> (r: Vec<SearchHit>)
    ensures
        search_hits_ok(spec_lines(text@), page, query@, ignore_case, r@),
{
    let lines = split_lines(text);
    let ghost dv = lines.deep_view();
    let ghost pred = keyword_pred(query@, ignore_case);
    let mut r: Vec<SearchHit> = Vec::new();
    let mut i: usize = 0;
    while i < lines.len()
        invariant
            dv == lines.deep_view(),
            dv.len() == lines@.len(),
            pred == keyword_pred(query@, ignore_case),
            0 <= i <= lines@.len(),
            r@.len() == match_indices_upto(dv, pred, i as int).len(),
            forall|k: int|
                0 <= k < r@.len() ==> search_hit_is(
                    dv,
                    page,
                    match_indices_upto(dv, pred, i as int)[k],
                    r@[k],
                ),
        decreases lines@.len() - i,
    {
        let hit = str_contains(lines[i], query, ignore_case);
        proof {
            assert(lines[i as int]@ == dv[i as int]);
            assert(hit == pred(dv[i as int]));
        }
        if hit {
            let prev = if i > 0 {
                Some(String::from_str(lines[i - 1]))
            } else {
                None
            };
            let next = if i + 1 < lines.len() {
                Some(String::from_str(lines[i + 1]))
            } else {
                None
            };
            let h = SearchHit {
                page,
                line_number: i + 1,
                line: String::from_str(lines[i]),
                prev,
                next,
            };
            r.push(h);
            proof {
                assert(match_indices_upto(dv, pred, i + 1) == match_indices_upto(
                    dv,
                    pred,
                    i as int,
                ).push(i as int));
            }
        } else {
            proof {
                assert(match_indices_upto(dv, pred, i + 1) == match_indices_upto(
                    dv,
                    pred,
                    i as int,
                ));
            }
        }
        i += 1;
    }
    proof {
        assert(dv == spec_lines(text@));
    }
    r
}

/// Law: with neither a keyword nor a pattern supplied, every selected page
/// whose text is recoverable is included in the output, in selection order.
pub proof fn lemma_full_dump_includes_all(
    d: lopdf::Document,
    fb: Option<Seq<char>>,
    pages: Seq<u32>,
    ic: bool,
    i: int,
)
    requires
        0 <= i <= pages.len(),
        forall|j: int| 0 <= j < i ==> spec_page_text(d, fb, pages[j]) is Some,
    ensures
        included_pages_upto(d, fb, pages, None, None, ic, i) == pages.take(i),
    decreases i,
{
    if i <= 0 {
        assert(included_pages_upto(d, fb, pages, None, None, ic, i) =~= pages.take(i));
    } else {
        lemma_full_dump_includes_all(d, fb, pages, ic, i - 1);
        assert(page_included(
            spec_page_text(d, fb, pages[i - 1]).unwrap(),
            None,
            None,
            ic,
        ));
        assert(pages.take(i) =~= pages.take(i - 1).push(pages[i - 1]));
    }
}

/// Law: with a query supplied that matches on none of the pages, no page is
/// included: the output is empty.
pub proof fn lemma_no_hits_excludes_all(
    d: lopdf::Document,
    fb: Option<Seq<char>>,
    pages: Seq<u32>,
    kw: Option<Seq<char>>,
    re: Option<Seq<char>>,
    ic: bool,
    i: int,
)
    requires
        kw is Some || re is Some,
        forall|j: int|
            0 <= j < i ==> (#[trigger] spec_page_text(d, fb, pages[j]) matches Some(t)
                ==> !page_has_hits(t, kw, re, ic)),
    ensures
        included_pages_upto(d, fb, pages, kw, re, ic, i).len() == 0,
    decreases i,
{
    if i > 0 {
        lemma_no_hits_excludes_all(d, fb, pages, kw, re, ic, i - 1);
    }
}

impl PdfAnalyzer {
    /// Search every page of the document for a query string, line by line,
    /// with optional ASCII case folding. Returns one entry per page, in
    /// document order, each holding that page's hits; fails on the first
    /// page whose text cannot be recovered.
    pub fn search(&self, query: &str, ignore_case: bool) -> (r: Result<
        Vec<PageSearchHits>,
        AstraPdfError,
    >)
        ensures
            r is Ok <==> all_pages_ok(self.spec_doc(), self.spec_fallback(), doc_pages(self.spec_doc())),
            r matches Ok(v) ==> {
                let pages = doc_pages(self.spec_doc());
                &&& v@.len() == pages.len()
                &&& forall|k: int|
                    0 <= k < v@.len() ==> (#[trigger] v@[k]).page == pages[k] && (spec_page_text(
                        self.spec_doc(),
                        self.spec_fallback(),
                        pages[k],
                    ) matches Some(t) && search_hits_ok(
                        spec_lines(t),
                        pages[k],
                        query@,
                        ignore_case,
                        v@[k].hits@,
                    ))
            },
            r matches Err(e) ==> e is ExtractionError,
    {
        let ghost d = self.spec_doc();
        let ghost fb = self.spec_fallback();
        let pages = page_numbers(&self.document);
        let mut out: Vec<PageSearchHits> = Vec::new();
        let mut i: usize = 0;
        while i < pages.len()
            invariant
                d == self.spec_doc(),
                fb == self.spec_fallback(),
                pages@ == doc_pages(d),
                0 <= i <= pages@.len(),
                out@.len() == i,
                forall|j: int| 0 <= j < i ==> spec_page_text(d, fb, pages@[j]) is Some,
                forall|k: int|
                    0 <= k < i ==> (#[trigger] out@[k]).page == pages@[k] && (spec_page_text(
                        d,
                        fb,
                        pages@[k],
                    ) matches Some(t) && search_hits_ok(
                        spec_lines(t),
                        pages@[k],
                        query@,
                        ignore_case,
                        out@[k].hits@,
                    )),
            decreases pages@.len() - i,
        {
            let page_num = pages[i];
            let text = match self.extract_text_from_page(page_num) {
                Ok(t) => t,
                Err(e) => {
                    proof {
                        assert(spec_page_text(d, fb, pages@[i as int]) is None);
                    }
                    return Err(e);
                },
            };
            let hits = search_page(text.as_str(), page_num, query, ignore_case);
            out.push(PageSearchHits { page: page_num, hits });
            i += 1;
        }
        Ok(out)
    }
}

} // verus!

