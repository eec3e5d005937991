use vstd::prelude::*;
use vstd::string::StrSliceExecFns;

use crate::error::TulnaError;
use crate::parsing::janusql_parser::{pair_string_views, spec_junwrap};
use crate::parsing::rspql_parser::prefix_views;
use crate::parsing::tokens::{
    find_from, find_sub_from, join_lines, lines_of, spec_find_from, spec_find_sub_from,
    spec_is_ws, spec_join_nl, spec_lines, spec_skip_ws, spec_tokens, spec_trim, sub_chars,
    tokens_of, trim_chars,
};
use crate::text::{
    chars_eq_str, chars_of, copy_chars, push_all, push_str_chars, spec_has_prefix, spec_upper,
    string_from_chars, to_upper, views_of,
};

verus! {

// ---------------------------------------------------------------------------
// SPARQL parsing
//
// The parser reads a query line by line: prefixes, the SELECT clause with its
// modifiers, FROM and FROM NAMED graphs, and the WHERE clause delimited by
// balanced braces; LIMIT and OFFSET are read from anywhere in the query.
// ---------------------------------------------------------------------------

/// Type of a SPARQL query.
#[derive(Debug, Clone, PartialEq, Eq, Structural)]
pub enum QueryType {
    Select,
    Construct,
    Ask,
    Describe,
}

/// A parsed SPARQL query.
#[derive(Debug, Clone)]
pub struct ParsedSparqlQuery {
    pub query_type: QueryType,
    pub prefixes: Vec<(String, String)>,
    pub select_clause: String,
    pub from_clauses: Vec<String>,
    pub from_named_clauses: Vec<String>,
    pub where_clause: String,
    pub order_by: Option<String>,
    pub limit: Option<u64>,
    pub offset: Option<u64>,
    pub distinct: bool,
    pub reduced: bool,
    pub original_query: String,
}

/// The running state of the line scan.
pub ghost struct SparqlScan {
    pub in_where: bool,
    pub depth: int,
    pub wlines: Seq<Seq<char>>,
    pub prefixes: Seq<(Seq<char>, Seq<char>)>,
    pub select: Seq<char>,
    pub distinct: bool,
    pub reduced: bool,
    pub froms: Seq<Seq<char>>,
    pub fnameds: Seq<Seq<char>>,
}

/// The brace balance of a string: opening braces minus closing braces.
pub open spec fn spec_brace_balance(s: Seq<char>) -> int
    decreases s.len(),
{
    if s.len() == 0 {
        0
    } else {
        spec_brace_balance(s.drop_last()) + (if s.last() == '{' {
            1int
        } else if s.last() == '}' {
            -1int
        } else {
            0int
        })
    }
}

fn brace_balance(s: &Vec<char>) -> (r: i128)
    ensures
        r == spec_brace_balance(s@),
{
    let mut r: i128 = 0;
    let mut i: usize = 0;
    while i < s.len()
        invariant
            i <= s@.len(),
            -(i as int) <= r <= i as int,
            r == spec_brace_balance(s@.subrange(0, i as int)),
        decreases s@.len() - i,
    {
        let c = s[i];
        proof {
            assert(s@.subrange(0, i + 1).drop_last() =~= s@.subrange(0, i as int));
            assert(s@.subrange(0, i + 1).last() == s@[i as int]);
        }
        if c == '{' {
            r = r + 1;
        } else if c == '}' {
            r = r - 1;
        }
        i = i + 1;
    }
    proof {
        assert(s@.subrange(0, s@.len() as int) =~= s@);
    }
    r
}

/// `PREFIX p: <iri>` of a line whose upper-cased trim starts with `PREFIX`.
pub open spec fn spec_sprefix_of_line(t: Seq<char>) -> Option<(Seq<char>, Seq<char>)> {
    let tk = spec_tokens(t);
    if tk.len() >= 3 && tk[1].len() >= 1 && tk[1][tk[1].len() - 1] == ':' && tk[2].len() >= 2
        && tk[2][0] == '<' && tk[2][tk[2].len() - 1] == '>' {
        Some((tk[1].drop_last(), tk[2].subrange(1, tk[2].len() - 1)))
    } else {
        None
    }
}

fn sprefix_of_line(t: &Vec<char>) -> (r: Option<(Vec<char>, Vec<char>)>)
    ensures
        ({
            let spec_r = spec_sprefix_of_line(t@);
            match r {
                Some(p) => spec_r == Some((p.0@, p.1@)),
                None => spec_r is None,
            }
        }),
{
    let tk = tokens_of(t);
    let ghost tkv = spec_tokens(t@);
    if tk.len() >= 3 {
        proof {
            assert forall|j: int| 0 <= j < 3 implies tkv[j] == tk@[j]@ by {}
        }
        let t1 = &tk[1];
        let t2 = &tk[2];
        if t1.len() >= 1 && t1[t1.len() - 1] == ':' && t2.len() >= 2 && t2[0] == '<' && t2[t2.len()
            - 1] == '>' {
            let name = sub_chars(t1, 0, t1.len() - 1);
            let iri = sub_chars(t2, 1, t2.len() - 1);
            proof {
                assert(name@ =~= tkv[1].drop_last());
            }
            return Some((name, iri));
        }
        return None;
    }
    None
}

/// The SELECT clause of a line: the text between the `SELECT` keyword (and an
/// optional `DISTINCT` or `REDUCED` modifier) and the first `WHERE`, `FROM`
/// or `{` marker.
pub open spec fn spec_select_of_line(t: Seq<char>) -> Option<(Seq<char>, bool, bool)> {
    let u = spec_upper(t);
    let s0 = spec_skip_ws(u, 6);
    if s0 <= 6 || s0 > u.len() {
        None
    } else {
        let dist = spec_has_prefix(u.subrange(s0, u.len() as int), "DISTINCT"@) && spec_skip_ws(
            u,
            s0 + 8,
        ) > s0 + 8;
        let red = spec_has_prefix(u.subrange(s0, u.len() as int), "REDUCED"@) && spec_skip_ws(
            u,
            s0 + 7,
        ) > s0 + 7;
        let c0 = if dist {
            spec_skip_ws(u, s0 + 8)
        } else if red {
            spec_skip_ws(u, s0 + 7)
        } else {
            s0
        };
        if c0 + 1 > u.len() {
            None
        } else {
            let cut = spec_min3(
                spec_find_sub_from(u, "WHERE"@, c0 + 1),
                spec_find_sub_from(u, "FROM"@, c0 + 1),
                spec_find_from(u, c0 + 1, '{'),
            );
            if cut < u.len() {
                Some((spec_trim(t.subrange(c0, cut)), dist, red))
            } else {
                None
            }
        }
    }
}

pub open spec fn spec_min3(a: int, b: int, c: int) -> int {
    if a <= b && a <= c {
        a
    } else if b <= c {
        b
    } else {
        c
    }
}

fn select_of_line(t: &Vec<char>) -> (r: Option<(Vec<char>, bool, bool)>)
    requires
        t@.len() >= 6,
    ensures
        ({
            let spec_r = spec_select_of_line(t@);
            match r {
                Some(p) => spec_r == Some((p.0@, p.1, p.2)),
                None => spec_r is None,
            }
        }),
{
    let u = to_upper(t);
    let mut s0: usize = 6;
    while s0 < u.len() && crate::parsing::tokens::is_ws(u[s0])
        invariant
            6 <= s0 <= u@.len(),
            spec_skip_ws(u@, 6) == spec_skip_ws(u@, s0 as int),
        decreases u@.len() - s0,
    {
        s0 = s0 + 1;
    }
    proof {
        assert(spec_skip_ws(u@, s0 as int) == s0);
    }
    if s0 == 6 {
        return None;
    }
    let rest = sub_chars(&u, s0, u.len());
    proof {
        reveal_strlit("DISTINCT");
        reveal_strlit("REDUCED");
    }
    let dist = crate::text::has_prefix(&rest, "DISTINCT") && skip_ws_from(&u, s0 + 8) > s0 + 8;
    let red = crate::text::has_prefix(&rest, "REDUCED") && skip_ws_from(&u, s0 + 7) > s0 + 7;
    let c0: usize = if dist {
        skip_ws_from(&u, s0 + 8)
    } else if red {
        skip_ws_from(&u, s0 + 7)
    } else {
        s0
    };
    if c0 >= u.len() {
        return None;
    }
    let m1 = find_sub_from(&u, "WHERE", c0 + 1);
    let m2 = find_sub_from(&u, "FROM", c0 + 1);
    let m3 = find_from(&u, c0 + 1, '{');
    let cut = if m1 <= m2 && m1 <= m3 {
        m1
    } else if m2 <= m3 {
        m2
    } else {
        m3
    };
    if cut < u.len() {
        let raw = sub_chars(t, c0, cut);
        let clause = trim_chars(&raw);
        Some((clause, dist, red))
    } else {
        None
    }
}

/// The first non-whitespace position at or after `i`.
fn skip_ws_from(s: &Vec<char>, i: usize) -> (r: usize)
    ensures
        r == spec_skip_ws(s@, i as int),
        i <= s@.len() ==> i <= r <= s@.len(),
        i > s@.len() ==> r == s@.len(),
{
    if i > s.len() {
        return s.len();
    }
    let mut j = i;
    while j < s.len() && crate::parsing::tokens::is_ws(s[j])
        invariant
            i <= j <= s@.len(),
            spec_skip_ws(s@, i as int) == spec_skip_ws(s@, j as int),
        decreases s@.len() - j,
    {
        j = j + 1;
    }
    proof {
        assert(spec_skip_ws(s@, j as int) == j);
    }
    j
}

/// The scan state after the first `i` lines.
pub open spec fn spec_sparql_scan_at(ls: Seq<Seq<char>>, i: int) -> SparqlScan
    decreases i,
{
    if i <= 0 || i > ls.len() {
        SparqlScan {
            in_where: false,
            depth: 0,
            wlines: Seq::empty(),
            prefixes: Seq::empty(),
            select: Seq::empty(),
            distinct: false,
            reduced: false,
            froms: Seq::empty(),
            fnameds: Seq::empty(),
        }
    } else {
        let st = spec_sparql_scan_at(ls, i - 1);
        spec_sparql_line_step(st, ls[i - 1])
    }
}

/// One line of the scan.
pub open spec fn spec_sparql_line_step(st: SparqlScan, raw: Seq<char>) -> SparqlScan {
    let t = spec_trim(raw);
    let u = spec_upper(t);
    if t.len() == 0 {
        if st.in_where {
            SparqlScan { wlines: st.wlines.push(raw), ..st }
        } else {
            st
        }
    } else if spec_has_prefix(u, "PREFIX"@) {
        match spec_sprefix_of_line(t) {
            Some(p) => SparqlScan { prefixes: st.prefixes.push(p), ..st },
            None => st,
        }
    } else if spec_has_prefix(u, "SELECT"@) {
        match spec_select_of_line(t) {
            Some((clause, d, r)) => SparqlScan {
                select: clause,
                distinct: st.distinct || d,
                reduced: st.reduced || r,
                ..st
            },
            None => st,
        }
    } else if spec_has_prefix(u, "FROM NAMED"@) {
        let tk = spec_tokens(t);
        if tk.len() >= 3 {
            SparqlScan { fnameds: st.fnameds.push(spec_junwrap(tk[2], st.prefixes)), ..st }
        } else {
            st
        }
    } else if spec_has_prefix(u, "FROM"@) {
        let tk = spec_tokens(t);
        if tk.len() >= 2 {
            SparqlScan { froms: st.froms.push(spec_junwrap(tk[1], st.prefixes)), ..st }
        } else {
            st
        }
    } else if spec_has_prefix(u, "WHERE"@) || spec_has_prefix(t, "{"@) {
        SparqlScan {
            in_where: true,
            depth: spec_clamp_depth(st.depth + spec_brace_balance(t)),
            wlines: st.wlines.push(raw),
            ..st
        }
    } else if st.in_where {
        let d = spec_clamp_depth(st.depth + spec_brace_balance(t));
        SparqlScan { in_where: d != 0, depth: d, wlines: st.wlines.push(raw), ..st }
    } else {
        st
    }
}

/// Brace depth, saturated at a nesting bound far beyond any real query.
pub open spec fn spec_clamp_depth(d: int) -> int {
    if d > 1000000000 {
        1000000000
    } else if d < -1000000000 {
        -1000000000
    } else {
        d
    }
}

// ---------------------------------------------------------------------------
// Whole-query extraction: query type, LIMIT, OFFSET, ORDER BY
// ---------------------------------------------------------------------------

/// A `SELECT` keyword with a `WHERE`, `FROM` or `{` marker after it.
pub open spec fn spec_select_matches(u: Seq<char>) -> bool {
    let k = spec_find_sub_from(u, "SELECT"@, 0);
    k < u.len() && k + 7 <= u.len() && spec_min3(
        spec_find_sub_from(u, "WHERE"@, k + 7),
        spec_find_sub_from(u, "FROM"@, k + 7),
        spec_find_from(u, k + 7, '{'),
    ) < u.len()
}

/// A keyword followed (after whitespace) by an opening brace.
pub open spec fn spec_kw_then_brace(u: Seq<char>, kw: Seq<char>) -> bool {
    let k = spec_find_sub_from(u, kw, 0);
    let b = spec_skip_ws(u, k + kw.len());
    k < u.len() && 0 <= b < u.len() && u[b] == '{'
}

/// A `DESCRIBE` keyword with a marker after it.
pub open spec fn spec_describe_matches(u: Seq<char>) -> bool {
    let k = spec_find_sub_from(u, "DESCRIBE"@, 0);
    k < u.len() && k + 9 <= u.len() && spec_min3(
        spec_find_sub_from(u, "WHERE"@, k + 9),
        spec_find_sub_from(u, "FROM"@, k + 9),
        spec_find_from(u, k + 9, '{'),
    ) < u.len()
}

/// A SPARQL query text the parser rejects: an unrecognizable query form, or
/// a LIMIT or OFFSET value past 64 bits.
pub open spec fn spec_sparql_parse_errs(q: Seq<char>) -> bool {
    ||| spec_determine_query_type(q) is None
    ||| spec_keyword_number(q, "LIMIT"@) is Overflow
    ||| spec_keyword_number(q, "OFFSET"@) is Overflow
}

/// The type of a query, or `None` when no form matches.
pub open spec fn spec_determine_query_type(q: Seq<char>) -> Option<QueryType> {
    let u = spec_upper(q);
    if spec_select_matches(u) {
        Some(QueryType::Select)
    } else if spec_kw_then_brace(u, "CONSTRUCT"@) {
        Some(QueryType::Construct)
    } else if spec_kw_then_brace(u, "ASK"@) {
        Some(QueryType::Ask)
    } else if spec_describe_matches(u) {
        Some(QueryType::Describe)
    } else if crate::text::spec_contains_seq(u, "SELECT"@) {
        Some(QueryType::Select)
    } else {
        None
    }
}

/// The end of a digit run starting at `i`.
pub open spec fn spec_digits_end(s: Seq<char>, i: int) -> int
    decreases s.len() - i,
{
    if i < 0 {
        0
    } else if i >= s.len() {
        s.len() as int
    } else if crate::text::spec_is_digit(s[i]) {
        spec_digits_end(s, i + 1)
    } else {
        i
    }
}

/// The outcome of reading a keyword-number clause.
pub ghost enum NumParse {
    NoMatch,
    Val(u64),
    Overflow,
}

/// `<kw> <digits>` read from anywhere in the query (the keyword is matched
/// case-insensitively, with at least one whitespace before the number).
pub open spec fn spec_keyword_number(q: Seq<char>, kw: Seq<char>) -> NumParse {
    let u = spec_upper(q);
    let k = spec_find_sub_from(u, kw, 0);
    if k >= u.len() {
        NumParse::NoMatch
    } else {
        let d0 = spec_skip_ws(q, k + kw.len());
        if d0 <= k + kw.len() || d0 >= q.len() {
            NumParse::NoMatch
        } else {
            let d1 = spec_digits_end(q, d0);
            if d1 <= d0 {
                NumParse::NoMatch
            } else {
                let v = crate::text::spec_dec_val(q.subrange(d0, d1));
                if v <= u64::MAX {
                    NumParse::Val(v as u64)
                } else {
                    NumParse::Overflow
                }
            }
        }
    }
}

/// The `ORDER BY` clause: the trimmed text between `ORDER BY` and the first
/// `LIMIT` or `OFFSET` keyword (or the end of the query).
pub open spec fn spec_order_by(q: Seq<char>) -> Option<Seq<char>> {
    let u = spec_upper(q);
    let k = spec_find_sub_from(u, "ORDER"@, 0);
    if k >= u.len() {
        None
    } else {
        let b0 = spec_skip_ws(q, k + 5);
        if b0 <= k + 5 || !crate::text::spec_occurs_at(u, "BY"@, b0) {
            None
        } else {
            let c0 = spec_skip_ws(q, b0 + 2);
            if c0 <= b0 + 2 || c0 >= q.len() {
                None
            } else {
                let cut = (if spec_find_sub_from(u, "LIMIT"@, c0 + 1) <= spec_find_sub_from(
                    u,
                    "OFFSET"@,
                    c0 + 1,
                ) {
                    spec_find_sub_from(u, "LIMIT"@, c0 + 1)
                } else {
                    spec_find_sub_from(u, "OFFSET"@, c0 + 1)
                });
                Some(spec_trim(q.subrange(c0, cut)))
            }
        }
    }
}

fn digits_end(s: &Vec<char>, i: usize) -> (r: usize)
    requires
        i <= s@.len(),
    ensures
        r == spec_digits_end(s@, i as int),
        i <= r <= s@.len(),
{
    let mut j = i;
    while j < s.len() && crate::text::is_digit(s[j])
        invariant
            i <= j <= s@.len(),
            spec_digits_end(s@, i as int) == spec_digits_end(s@, j as int),
        decreases s@.len() - j,
    {
        j = j + 1;
    }
    proof {
        assert(spec_digits_end(s@, j as int) == j);
    }
    j
}

fn keyword_number(q: &Vec<char>, u: &Vec<char>, kw: &str) -> (r: Result<Option<u64>, TulnaError>)
    requires
        u@ == spec_upper(q@),
    ensures
        ({
            let spec_r = spec_keyword_number(q@, kw@);
            match r {
                Ok(Some(v)) => spec_r == NumParse::Val(v),
                Ok(None) => spec_r is NoMatch,
                Err(e) => spec_r is Overflow && e is ParseError,
            }
        }),
{
    proof {
        assert(u@.len() == q@.len());
    }
    let k = find_sub_from(u, kw, 0);
    if k >= u.len() {
        return Ok(None);
    }
    let kwlen = kw.unicode_len();
    proof {
        crate::parsing::tokens::lemma_find_sub_from(u@, kw@, 0);
        assert(k + kwlen <= u@.len());
    }
    let d0 = skip_ws_from(q, k + kwlen);
    if d0 <= k + kwlen || d0 >= q.len() {
        return Ok(None);
    }
    let d1 = digits_end(q, d0);
    if d1 <= d0 {
        return Ok(None);
    }
    proof {
        lemma_digits_run(q@, d0 as int, d1 as int);
    }
    match crate::text::parse_u64_digits(q, d0, d1) {
        Some(v) => Ok(Some(v)),
        None => Err(TulnaError::ParseError(string_from_chars(&chars_of(
            "number does not fit in 64 bits",
        )))),
    }
}

/// Characters of a digit run are digits.
proof fn lemma_digits_run(s: Seq<char>, i: int, j: int)
    requires
        0 <= i <= j <= s.len(),
        j == spec_digits_end(s, i),
    ensures
        crate::text::spec_all_digits(s.subrange(i, j)),
    decreases j - i,
{
    if i < j {
        assert(crate::text::spec_is_digit(s[i]));
        lemma_digits_run(s, i + 1, j);
        assert forall|m: int| 0 <= m < j - i implies crate::text::spec_is_digit(
            #[trigger] s.subrange(i, j)[m]) by {
            if m > 0 {
                assert(s.subrange(i + 1, j)[m - 1] == s.subrange(i, j)[m]);
            }
        }
    }
}

fn order_by_of(q: &Vec<char>, u: &Vec<char>) -> (r: Option<Vec<char>>)
    requires
        u@ == spec_upper(q@),
    ensures
        ({
            let spec_r = spec_order_by(q@);
            match r {
                Some(v) => spec_r == Some(v@),
                None => spec_r is None,
            }
        }),
{
    proof {
        assert(u@.len() == q@.len());
    }
    let k = find_sub_from(u, "ORDER", 0);
    if k >= u.len() {
        return None;
    }
    proof {
        crate::parsing::tokens::lemma_find_sub_from(u@, "ORDER"@, 0);
        reveal_strlit("ORDER");
        assert(k + 5 <= u@.len());
    }
    let b0 = skip_ws_from(q, k + 5);
    let has_by = b0 > k + 5 && u.len() >= 2 && b0 <= u.len() - 2 && {
        let b_tok = sub_chars(u, b0, b0 + 2);
        chars_eq_str(&b_tok, "BY")
    };
    proof {
        reveal_strlit("BY");
        if b0 + 2 <= u@.len() && b0 > k + 5 {
            assert(u@.subrange(b0 as int, b0 + 2) =~= u@.subrange(b0 as int, b0 + "BY"@.len()));
        }
        if b0 + 2 > u@.len() {
            assert(!crate::text::spec_occurs_at(u@, "BY"@, b0 as int));
        }
    }
    if !has_by {
        return None;
    }
    let c0 = skip_ws_from(q, b0 + 2);
    if c0 <= b0 + 2 || c0 >= q.len() {
        return None;
    }
    let m1 = find_sub_from(u, "LIMIT", c0 + 1);
    let m2 = find_sub_from(u, "OFFSET", c0 + 1);
    let cut = if m1 <= m2 {
        m1
    } else {
        m2
    };
    let raw = sub_chars(q, c0, cut);
    Some(trim_chars(&raw))
}

// ---------------------------------------------------------------------------
// The parser
// ---------------------------------------------------------------------------

/// Parser for SPARQL queries.
pub struct SparqlParser;

/// What a successful parse of a SPARQL query returns.
pub open spec fn spec_sparql_parse_ok(q: Seq<char>, p: ParsedSparqlQuery) -> bool {
    let ls = spec_lines(q);
    let st = spec_sparql_scan_at(ls, ls.len() as int);
    &&& spec_determine_query_type(q) == Some(p.query_type)
    &&& pair_string_views(p.prefixes@) == st.prefixes
    &&& p.select_clause@ == st.select
    &&& crate::isomorphism::graph_isomorphism::string_views(p.from_clauses@) == st.froms
    &&& crate::isomorphism::graph_isomorphism::string_views(p.from_named_clauses@) == st.fnameds
    &&& p.where_clause@ == spec_join_nl(st.wlines)
    &&& p.distinct == st.distinct
    &&& p.reduced == st.reduced
    &&& (match p.order_by {
        Some(ob) => spec_order_by(q) == Some(ob@),
        None => spec_order_by(q) is None,
    })
    &&& (match p.limit {
        Some(v) => spec_keyword_number(q, "LIMIT"@) == NumParse::Val(v),
        None => spec_keyword_number(q, "LIMIT"@) is NoMatch,
    })
    &&& (match p.offset {
        Some(v) => spec_keyword_number(q, "OFFSET"@) == NumParse::Val(v),
        None => spec_keyword_number(q, "OFFSET"@) is NoMatch,
    })
    &&& p.original_query@ == q
}

impl SparqlParser {
    pub fn new() -> (r: Result<SparqlParser, TulnaError>)
        ensures
            r is Ok,
    {
        Ok(SparqlParser)
    }

    /// Decides the query type; `None` means no known form matches.
    pub fn determine_query_type(&self, query: &Vec<char>) -> (r: Option<QueryType>)
        ensures
            r == spec_determine_query_type(query@),
    {
        let u = to_upper(query);
        let k = find_sub_from(&u, "SELECT", 0);
        proof {
            crate::parsing::tokens::lemma_find_sub_from(u@, "SELECT"@, 0);
            reveal_strlit("SELECT");
        }
        if k < u.len() {
            let start = if u.len() - k > 7 { k + 7 } else { u.len() };
            proof {
                if u@.len() - k <= 7 {
                    assert(spec_find_sub_from(u@, "WHERE"@, k + 7) == u@.len());
                    assert(spec_find_sub_from(u@, "FROM"@, k + 7) == u@.len());
                    assert(spec_find_from(u@, k + 7, '{') == u@.len());
                    assert(spec_find_sub_from(u@, "WHERE"@, start as int) == u@.len()) by {
                        crate::parsing::tokens::lemma_find_sub_from(u@, "WHERE"@, start as int);
                        reveal_strlit("WHERE");
                    }
                    assert(spec_find_sub_from(u@, "FROM"@, start as int) == u@.len()) by {
                        crate::parsing::tokens::lemma_find_sub_from(u@, "FROM"@, start as int);
                        reveal_strlit("FROM");
                    }
                    assert(spec_find_from(u@, start as int, '{') == u@.len()) by {
                        crate::parsing::tokens::lemma_find_from(u@, start as int, '{');
                    }
                }
            }
            let m1 = find_sub_from(&u, "WHERE", start);
            let m2 = find_sub_from(&u, "FROM", start);
            let m3 = find_from(&u, start, '{');
            if (if m1 <= m2 && m1 <= m3 { m1 } else if m2 <= m3 { m2 } else { m3 }) < u.len() {
                return Some(QueryType::Select);
            }
        }
        if Self::kw_then_brace(&u, "CONSTRUCT") {
            return Some(QueryType::Construct);
        }
        if Self::kw_then_brace(&u, "ASK") {
            return Some(QueryType::Ask);
        }
        let kd = find_sub_from(&u, "DESCRIBE", 0);
        proof {
            crate::parsing::tokens::lemma_find_sub_from(u@, "DESCRIBE"@, 0);
            reveal_strlit("DESCRIBE");
        }
        if kd < u.len() {
            let start = if u.len() - kd > 9 { kd + 9 } else { u.len() };
            proof {
                if u@.len() - kd <= 9 {
                    assert(spec_find_sub_from(u@, "WHERE"@, kd + 9) == u@.len());
                    assert(spec_find_sub_from(u@, "FROM"@, kd + 9) == u@.len());
                    assert(spec_find_from(u@, kd + 9, '{') == u@.len());
                    assert(spec_find_sub_from(u@, "WHERE"@, start as int) == u@.len()) by {
                        crate::parsing::tokens::lemma_find_sub_from(u@, "WHERE"@, start as int);
                        reveal_strlit("WHERE");
                    }
                    assert(spec_find_sub_from(u@, "FROM"@, start as int) == u@.len()) by {
                        crate::parsing::tokens::lemma_find_sub_from(u@, "FROM"@, start as int);
                        reveal_strlit("FROM");
                    }
                    assert(spec_find_from(u@, start as int, '{') == u@.len()) by {
                        crate::parsing::tokens::lemma_find_from(u@, start as int, '{');
                    }
                }
            }
            let m1 = find_sub_from(&u, "WHERE", start);
            let m2 = find_sub_from(&u, "FROM", start);
            let m3 = find_from(&u, start, '{');
            if (if m1 <= m2 && m1 <= m3 { m1 } else if m2 <= m3 { m2 } else { m3 }) < u.len() {
                return Some(QueryType::Describe);
            }
        }
        if k < u.len() {
            proof {
                assert(crate::text::spec_occurs_at(u@, "SELECT"@, k as int));
            }
            return Some(QueryType::Select);
        }
        proof {
            if crate::text::spec_contains_seq(u@, "SELECT"@) {
                let j = choose|j: int| crate::text::spec_occurs_at(u@, "SELECT"@, j);
                lemma_find_sub_finds(u@, "SELECT"@, 0, j);
            }
        }
        None
    }

    fn kw_then_brace(u: &Vec<char>, kw: &str) -> (r: bool)
        ensures
            r == spec_kw_then_brace(u@, kw@),
    {
        let k = find_sub_from(u, kw, 0);
        let kwlen = kw.unicode_len();
        proof {
            crate::parsing::tokens::lemma_find_sub_from(u@, kw@, 0);
        }
        if k >= u.len() {
            return false;
        }
        let b = skip_ws_from(u, k + kwlen);
        b < u.len() && u[b] == '{'
    }

    /// Parses a SPARQL query. The only errors are an unrecognizable query
    /// form and a LIMIT or OFFSET value past 64 bits.
    pub fn parse(&self, query: &str) -> (r: Result<ParsedSparqlQuery, TulnaError>)
        ensures
            r matches Err(e) ==> e is ParseError,
            r matches Ok(p) ==> spec_sparql_parse_ok(query@, p),
            r is Err <==> spec_sparql_parse_errs(query@),
    {
        let q = chars_of(query);
        let u = to_upper(&q);
        let qt = match self.determine_query_type(&q) {
            Some(t) => t,
            None => {
                return Err(TulnaError::ParseError(string_from_chars(&chars_of(
                    "unable to determine the query type",
                ))));
            },
        };
        let lines = lines_of(&q);
        let ghost ls = spec_lines(query@);
        let mut in_where = false;
        let mut depth: i128 = 0;
        let mut wlines: Vec<Vec<char>> = Vec::new();
        let mut prefixes: Vec<(Vec<char>, Vec<char>)> = Vec::new();
        let mut select: Vec<char> = Vec::new();
        let mut distinct = false;
        let mut reduced = false;
        let mut froms: Vec<Vec<char>> = Vec::new();
        let mut fnameds: Vec<Vec<char>> = Vec::new();
        let mut i: usize = 0;
        proof {
            assert(views_of(wlines@) =~= spec_sparql_scan_at(ls, 0).wlines);
            assert(prefix_views(prefixes@) =~= spec_sparql_scan_at(ls, 0).prefixes);
            assert(views_of(froms@) =~= spec_sparql_scan_at(ls, 0).froms);
            assert(views_of(fnameds@) =~= spec_sparql_scan_at(ls, 0).fnameds);
            assert(select@ =~= spec_sparql_scan_at(ls, 0).select);
        }
        while i < lines.len()
            invariant
                ls == spec_lines(query@),
                views_of(lines@) == ls,
                i <= lines@.len(),
                in_where == spec_sparql_scan_at(ls, i as int).in_where,
                depth == spec_sparql_scan_at(ls, i as int).depth,
                -1000000000 <= depth <= 1000000000,
                views_of(wlines@) == spec_sparql_scan_at(ls, i as int).wlines,
                prefix_views(prefixes@) == spec_sparql_scan_at(ls, i as int).prefixes,
                select@ == spec_sparql_scan_at(ls, i as int).select,
                distinct == spec_sparql_scan_at(ls, i as int).distinct,
                reduced == spec_sparql_scan_at(ls, i as int).reduced,
                views_of(froms@) == spec_sparql_scan_at(ls, i as int).froms,
                views_of(fnameds@) == spec_sparql_scan_at(ls, i as int).fnameds,
            decreases lines@.len() - i,
        {
            proof {
                assert(views_of(lines@)[i as int] == lines@[i as int]@);
            }
            let raw = &lines[i];
            let t = trim_chars(raw);
            let ut = to_upper(&t);
            let ghost st = spec_sparql_scan_at(ls, i as int);
            let ghost st2 = spec_sparql_scan_at(ls, i + 1);
            proof {
                assert(st2 == spec_sparql_line_step(st, ls[i as int]));
            }
            if t.len() == 0 {
                if in_where {
                    wlines.push(copy_chars(raw));
                    proof {
                        assert(views_of(wlines@) =~= st2.wlines);
                    }
                }
            } else if crate::text::has_prefix(&ut, "PREFIX") {
                match sprefix_of_line(&t) {
                    Some((name, iri)) => {
                        prefixes.push((name, iri));
                        proof {
                            assert(prefix_views(prefixes@) =~= st2.prefixes);
                        }
                    },
                    None => {},
                }
            } else if crate::text::has_prefix(&ut, "SELECT") {
                proof {
                    reveal_strlit("SELECT");
                }
                match select_of_line(&t) {
                    Some((clause, d, r)) => {
                        select = clause;
                        distinct = distinct || d;
                        reduced = reduced || r;
                    },
                    None => {},
                }
            } else if crate::text::has_prefix(&ut, "FROM NAMED") {
                let tk = tokens_of(&t);
                if tk.len() >= 3 {
                    proof {
                        assert(spec_tokens(t@)[2] == tk@[2]@);
                    }
                    let g = crate::parsing::janusql_parser::junwrap_pub(&tk[2], &prefixes);
                    fnameds.push(g);
                    proof {
                        assert(views_of(fnameds@) =~= st2.fnameds);
                    }
                }
            } else if crate::text::has_prefix(&ut, "FROM") {
                let tk = tokens_of(&t);
                if tk.len() >= 2 {
                    proof {
                        assert(spec_tokens(t@)[1] == tk@[1]@);
                    }
                    let g = crate::parsing::janusql_parser::junwrap_pub(&tk[1], &prefixes);
                    froms.push(g);
                    proof {
                        assert(views_of(froms@) =~= st2.froms);
                    }
                }
            } else if crate::text::has_prefix(&ut, "WHERE") || crate::text::has_prefix(&t, "{") {
                in_where = true;
                let b = brace_balance(&t);
                let tl = t.len();
                proof {
                    lemma_balance_bound(t@);
                }
                depth = clamp_depth(depth + b);
                wlines.push(copy_chars(raw));
                proof {
                    assert(views_of(wlines@) =~= st2.wlines);
                }
            } else if in_where {
                let b = brace_balance(&t);
                let tl = t.len();
                proof {
                    lemma_balance_bound(t@);
                }
                depth = clamp_depth(depth + b);
                wlines.push(copy_chars(raw));
                if depth == 0 {
                    in_where = false;
                }
                proof {
                    assert(views_of(wlines@) =~= st2.wlines);
                }
            }
            i = i + 1;
        }
        let where_clause = join_lines(&wlines);
        let limit = match keyword_number(&q, &u, "LIMIT") {
            Ok(v) => v,
            Err(e) => {
                return Err(e);
            },
        };
        let offset = match keyword_number(&q, &u, "OFFSET") {
            Ok(v) => v,
            Err(e) => {
                return Err(e);
            },
        };
        let order_by = match order_by_of(&q, &u) {
            Some(ob) => Some(string_from_chars(&ob)),
            None => None,
        };
        // convert the accumulated character vectors to strings
        let mut out_prefixes: Vec<(String, String)> = Vec::new();
        let mut oi: usize = 0;
        while oi < prefixes.len()
            invariant
                oi <= prefixes@.len(),
                out_prefixes@.len() == oi,
                forall|j: int|
                    0 <= j < oi ==> #[trigger] out_prefixes@[j].0@ == prefixes@[j].0@
                        && out_prefixes@[j].1@ == prefixes@[j].1@,
            decreases prefixes@.len() - oi,
        {
            let name = string_from_chars(&prefixes[oi].0);
            let iri = string_from_chars(&prefixes[oi].1);
            out_prefixes.push((name, iri));
            oi = oi + 1;
        }
        proof {
            assert forall|j: int| 0 <= j < prefixes@.len() implies pair_string_views(
                out_prefixes@)[j] == prefix_views(prefixes@)[j] by {
                assert(out_prefixes@[j].0@ == prefixes@[j].0@);
                assert(out_prefixes@[j].1@ == prefixes@[j].1@);
            }
            assert(pair_string_views(out_prefixes@) =~= prefix_views(prefixes@));
        }
        let from_clauses = strings_of(&froms);
        let from_named_clauses = strings_of(&fnameds);
        Ok(
            ParsedSparqlQuery {
                query_type: qt,
                prefixes: out_prefixes,
                select_clause: string_from_chars(&select),
                from_clauses,
                from_named_clauses,
                where_clause: string_from_chars(&where_clause),
                order_by,
                limit,
                offset,
                distinct,
                reduced,
                original_query: string_from_chars(&q),
            },
        )
    }
}

/// When a substring occurs somewhere, searching from 0 finds an occurrence.
proof fn lemma_find_sub_finds(s: Seq<char>, sub: Seq<char>, i: int, j: int)
    requires
        0 <= i <= j,
        sub.len() > 0,
        crate::text::spec_occurs_at(s, sub, j),
    ensures
        spec_find_sub_from(s, sub, i) <= j,
    decreases j - i,
{
    if i < j && s.subrange(i, i + sub.len()) != sub {
        lemma_find_sub_finds(s, sub, i + 1, j);
    }
}

/// Converts character vectors to strings, preserving views.
fn strings_of(v: &Vec<Vec<char>>) -> (r: Vec<String>)
    ensures
        crate::isomorphism::graph_isomorphism::string_views(r@) == views_of(v@),
{
    let mut r: Vec<String> = Vec::new();
    let mut i: usize = 0;
    while i < v.len()
        invariant
            i <= v@.len(),
            r@.len() == i,
            forall|j: int| 0 <= j < i ==> #[trigger] r@[j]@ == v@[j]@,
        decreases v@.len() - i,
    {
        r.push(string_from_chars(&v[i]));
        i = i + 1;
    }
    proof {
        assert forall|j: int|
            0 <= j < v@.len() implies crate::isomorphism::graph_isomorphism::string_views(
            r@)[j] == views_of(v@)[j] by {
            assert(r@[j]@ == v@[j]@);
        }
        assert(crate::isomorphism::graph_isomorphism::string_views(r@) =~= views_of(v@));
    }
    r
}

/// The brace balance of a string is bounded by its length.
proof fn lemma_balance_bound(s: Seq<char>)
    ensures
        -(s.len() as int) <= spec_brace_balance(s) <= s.len() as int,
    decreases s.len(),
{
    if s.len() > 0 {
        lemma_balance_bound(s.drop_last());
    }
}

/// Saturates the brace depth.
fn clamp_depth(d: i128) -> (r: i128)
    ensures
        r == spec_clamp_depth(d as int),
{
    if d > 1000000000 {
        1000000000
    } else if d < -1000000000 {
        -1000000000
    } else {
        d
    }
}

// ---------------------------------------------------------------------------
// Accessors on parsed queries
// ---------------------------------------------------------------------------

impl SparqlParser {
    /// Abbreviates an IRI through the prefix table: the first declared
    /// namespace that prefixes it wins; otherwise the IRI is angle-wrapped.
    pub fn wrap_iri(&self, iri: &str, prefixes: &Vec<(String, String)>) -> (r: String)
        ensures
            r@ == crate::parsing::janusql_parser::spec_jwrap(iri@, pair_string_views(prefixes@)),
    {
        let ic = chars_of(iri);
        let mut i: usize = 0;
        while i < prefixes.len()
            invariant
                ic@ == iri@,
                i <= prefixes@.len(),
                crate::parsing::janusql_parser::spec_jwrap(iri@, pair_string_views(prefixes@))
                    == crate::parsing::janusql_parser::spec_jwrap_at(
                    iri@,
                    pair_string_views(prefixes@),
                    i as int,
                ),
            decreases prefixes@.len() - i,
        {
            proof {
                assert(pair_string_views(prefixes@)[i as int] == (prefixes@[i as int].0@,
                prefixes@[i as int].1@));
            }
            let ns = &prefixes[i].1;
            if crate::text::has_prefix(&ic, ns.as_str()) {
                let mut r = chars_of(prefixes[i].0.as_str());
                r.push(':');
                let nlen = ns.as_str().unicode_len();
                let local = sub_chars(&ic, nlen, ic.len());
                push_all(&mut r, &local);
                proof {
                    assert(r@ =~= prefixes@[i as int].0@ + seq![':'] + iri@.subrange(
                        prefixes@[i as int].1@.len() as int, iri@.len() as int));
                }
                return string_from_chars(&r);
            }
            i = i + 1;
        }
        let mut r: Vec<char> = Vec::new();
        r.push('<');
        push_all(&mut r, &ic);
        r.push('>');
        proof {
            assert(r@ =~= seq!['<'] + iri@ + seq!['>']);
        }
        string_from_chars(&r)
    }

    /// The graph names of `GRAPH <g>` groups in a WHERE clause, in order.
    pub fn extract_graph_patterns(&self, where_clause: &str) -> (r: Vec<String>)
        ensures
            crate::isomorphism::graph_isomorphism::string_views(r@) == spec_graph_patterns(
                spec_tokens(where_clause@),
            ),
    {
        let w = chars_of(where_clause);
        let tk = tokens_of(&w);
        let ghost tkv = spec_tokens(where_clause@);
        let mut r: Vec<String> = Vec::new();
        let mut i: usize = 0;
        while i < tk.len()
            invariant
                views_of(tk@) == tkv,
                i <= tk@.len(),
                crate::isomorphism::graph_isomorphism::string_views(r@) == spec_graph_patterns(
                    tkv.subrange(0, i as int),
                ),
            decreases tk@.len() - i,
        {
            let ghost pre = tkv.subrange(0, i as int);
            let ghost post = tkv.subrange(0, i + 1);
            proof {
                assert(post.drop_last() =~= pre);
                assert(post.last() == tkv[i as int]);
                assert(tkv[i as int] == tk@[i as int]@);
            }
            let prev_is_graph = if i >= 1 {
                proof {
                    assert(tkv[i - 1] == tk@[i - 1]@);
                }
                let up = to_upper(&tk[i - 1]);
                chars_eq_str(&up, "GRAPH")
            } else {
                false
            };
            if prev_is_graph {
                r.push(string_from_chars(&tk[i]));
                proof {
                    assert(post[post.len() - 2] == tkv[i - 1]);
                    assert(crate::isomorphism::graph_isomorphism::string_views(
                        r@) =~= spec_graph_patterns(post));
                }
            } else {
                proof {
                    if post.len() >= 2 {
                        assert(post[post.len() - 2] == tkv[i - 1]);
                    }
                    assert(crate::isomorphism::graph_isomorphism::string_views(
                        r@) =~= spec_graph_patterns(post));
                }
            }
            i = i + 1;
        }
        proof {
            assert(tkv.subrange(0, tkv.len() as int) =~= tkv);
        }
        r
    }

    /// The variables of a SELECT clause: `*` alone, or every `?name` token.
    pub fn extract_variables(&self, select_clause: &str) -> (r: Vec<String>)
        ensures
            ({
                let t = spec_trim(select_clause@);
                if t == seq!['*'] {
                    crate::isomorphism::graph_isomorphism::string_views(r@) == seq![seq!['*']]
                } else {
                    crate::isomorphism::graph_isomorphism::string_views(r@) == spec_variables(
                        spec_tokens(select_clause@),
                    )
                }
            }),
    {
        let sc = chars_of(select_clause);
        let t = trim_chars(&sc);
        if t.len() == 1 && t[0] == '*' {
            proof {
                assert(t@ =~= seq!['*']);
            }
            let mut star: Vec<char> = Vec::new();
            star.push('*');
            let mut r: Vec<String> = Vec::new();
            r.push(string_from_chars(&star));
            proof {
                assert(crate::isomorphism::graph_isomorphism::string_views(r@) =~= seq![
                    seq!['*']]);
            }
            return r;
        }
        proof {
            assert(t@ != seq!['*']);
        }
        let tk = tokens_of(&sc);
        let ghost tkv = spec_tokens(select_clause@);
        let mut r: Vec<String> = Vec::new();
        let mut i: usize = 0;
        while i < tk.len()
            invariant
                views_of(tk@) == tkv,
                i <= tk@.len(),
                crate::isomorphism::graph_isomorphism::string_views(r@) == spec_variables(
                    tkv.subrange(0, i as int),
                ),
            decreases tk@.len() - i,
        {
            let ghost pre = tkv.subrange(0, i as int);
            let ghost post = tkv.subrange(0, i + 1);
            proof {
                assert(post.drop_last() =~= pre);
                assert(post.last() == tkv[i as int]);
                assert(tkv[i as int] == tk@[i as int]@);
            }
            let tok = &tk[i];
            if tok.len() >= 2 && tok[0] == '?' && is_word_char(tok[1]) {
                let e = word_end(tok, 1);
                let v = sub_chars(tok, 0, e);
                r.push(string_from_chars(&v));
                proof {
                    assert(v@ =~= tkv[i as int].subrange(0, spec_word_end(tkv[i as int], 1)));
                    assert(crate::isomorphism::graph_isomorphism::string_views(
                        r@) =~= spec_variables(post));
                }
            } else {
                proof {
                    assert(crate::isomorphism::graph_isomorphism::string_views(
                        r@) =~= spec_variables(post));
                }
            }
            i = i + 1;
        }
        proof {
            assert(tkv.subrange(0, tkv.len() as int) =~= tkv);
        }
        r
    }
}

/// The `GRAPH` group names among a token list.
pub open spec fn spec_graph_patterns(tk: Seq<Seq<char>>) -> Seq<Seq<char>>
    decreases tk.len(),
{
    if tk.len() == 0 {
        Seq::empty()
    } else {
        let pre = spec_graph_patterns(tk.drop_last());
        if tk.len() >= 2 && spec_upper(tk[tk.len() - 2]) == "GRAPH"@ {
            pre.push(tk.last())
        } else {
            pre
        }
    }
}

/// The end of the word-character run starting at `i`.
pub open spec fn spec_word_end(t: Seq<char>, i: int) -> int
    decreases t.len() - i,
{
    if i < 0 {
        0
    } else if i >= t.len() {
        t.len() as int
    } else if crate::parsing::janusql_parser::spec_is_word_char(t[i]) {
        spec_word_end(t, i + 1)
    } else {
        i
    }
}

/// The `?name` variables among a token list.
pub open spec fn spec_variables(tk: Seq<Seq<char>>) -> Seq<Seq<char>>
    decreases tk.len(),
{
    if tk.len() == 0 {
        Seq::empty()
    } else {
        let pre = spec_variables(tk.drop_last());
        let t = tk.last();
        if t.len() >= 2 && t[0] == '?' && crate::parsing::janusql_parser::spec_is_word_char(
            t[1],
        ) {
            pre.push(t.subrange(0, spec_word_end(t, 1)))
        } else {
            pre
        }
    }
}

fn is_word_char(c: char) -> (r: bool)
    ensures
        r == crate::parsing::janusql_parser::spec_is_word_char(c),
{
    ('a' <= c && c <= 'z') || ('A' <= c && c <= 'Z') || ('0' <= c && c <= '9') || c == '_'
}

fn word_end(t: &Vec<char>, i: usize) -> (r: usize)
    requires
        i <= t@.len(),
    ensures
        r == spec_word_end(t@, i as int),
        i <= r <= t@.len(),
{
    let mut j = i;
    while j < t.len() && is_word_char(t[j])
        invariant
            i <= j <= t@.len(),
            spec_word_end(t@, i as int) == spec_word_end(t@, j as int),
        decreases t@.len() - j,
    {
        j = j + 1;
    }
    proof {
        assert(spec_word_end(t@, j as int) == j);
    }
    j
}

// ---------------------------------------------------------------------------
// Reconstruction
// ---------------------------------------------------------------------------

/// The lines a parsed query prints as.
pub open spec fn spec_query_string_lines(p: ParsedSparqlQuery) -> Seq<Seq<char>> {
    let ps = pair_string_views(p.prefixes@);
    let prefix_lines = Seq::new(
        ps.len(),
        |i: int| "PREFIX "@ + ps[i].0 + seq![':', ' ', '<'] + ps[i].1 + seq!['>'],
    );
    let base = if ps.len() > 0 {
        prefix_lines.push(Seq::<char>::empty())
    } else {
        prefix_lines
    };
    let head = (match p.query_type {
        QueryType::Select => base.push(
            "SELECT"@ + (if p.distinct {
                " DISTINCT"@
            } else {
                Seq::<char>::empty()
            }) + (if p.reduced {
                " REDUCED"@
            } else {
                Seq::<char>::empty()
            }) + seq![' '] + p.select_clause@,
        ),
        QueryType::Construct => base.push("CONSTRUCT {"@),
        QueryType::Ask => base.push("ASK"@),
        QueryType::Describe => base.push("DESCRIBE "@ + p.select_clause@),
    });
    let froms = crate::isomorphism::graph_isomorphism::string_views(p.from_clauses@);
    let with_froms = head + Seq::new(froms.len(), |i: int| "FROM <"@ + froms[i] + seq!['>']);
    let fnameds = crate::isomorphism::graph_isomorphism::string_views(p.from_named_clauses@);
    let with_fnameds = with_froms + Seq::new(
        fnameds.len(),
        |i: int| "FROM NAMED <"@ + fnameds[i] + seq!['>'],
    );
    let with_where = if p.where_clause@.len() > 0 {
        with_fnameds.push(p.where_clause@)
    } else {
        with_fnameds
    };
    let with_ob = (match p.order_by {
        Some(ob) => with_where.push("ORDER BY "@ + ob@),
        None => with_where,
    });
    let with_limit = (match p.limit {
        Some(v) => with_ob.push("LIMIT "@ + crate::text::spec_dec(v as nat)),
        None => with_ob,
    });
    match p.offset {
        Some(v) => with_limit.push("OFFSET "@ + crate::text::spec_dec(v as nat)),
        None => with_limit,
    }
}

impl ParsedSparqlQuery {
    /// An empty SELECT query.
    pub fn new() -> (r: Self)
        ensures
            r.query_type is Select,
            r.prefixes@.len() == 0,
            r.select_clause@.len() == 0,
            r.from_clauses@.len() == 0,
            r.from_named_clauses@.len() == 0,
            r.where_clause@.len() == 0,
            r.order_by is None,
            r.limit is None,
            r.offset is None,
            !r.distinct,
            !r.reduced,
            r.original_query@.len() == 0,
    {
        ParsedSparqlQuery {
            query_type: QueryType::Select,
            prefixes: Vec::new(),
            select_clause: string_from_chars(&Vec::new()),
            from_clauses: Vec::new(),
            from_named_clauses: Vec::new(),
            where_clause: string_from_chars(&Vec::new()),
            order_by: None,
            limit: None,
            offset: None,
            distinct: false,
            reduced: false,
            original_query: string_from_chars(&Vec::new()),
        }
    }

    /// Renders the query back as text from its parts.
    #[verifier::rlimit(100)]
    pub fn to_query_string(&self) -> (r: String)
        ensures
            r@ == spec_join_nl(spec_query_string_lines(*self)),
    {
        let ghost expected = spec_query_string_lines(*self);
        let mut glines: Vec<Vec<char>> = Vec::new();
        let mut i: usize = 0;
        while i < self.prefixes.len()
            invariant
                i <= self.prefixes@.len(),
                glines@.len() == i,
                forall|j: int|
                    0 <= j < i ==> #[trigger] glines@[j]@ == "PREFIX "@ + self.prefixes@[j].0@
                        + seq![':', ' ', '<'] + self.prefixes@[j].1@ + seq!['>'],
            decreases self.prefixes@.len() - i,
        {
            let mut line = chars_of("PREFIX ");
            push_str_chars(&mut line, self.prefixes[i].0.as_str());
            line.push(':');
            line.push(' ');
            line.push('<');
            push_str_chars(&mut line, self.prefixes[i].1.as_str());
            line.push('>');
            proof {
                assert(line@ =~= "PREFIX "@ + self.prefixes@[i as int].0@ + seq![':', ' ', '<']
                    + self.prefixes@[i as int].1@ + seq!['>']);
            }
            glines.push(line);
            i = i + 1;
        }
        if self.prefixes.len() > 0 {
            glines.push(Vec::new());
        }
        let ghost ps = pair_string_views(self.prefixes@);
        let ghost prefix_lines = Seq::new(
            ps.len(),
            |j: int| "PREFIX "@ + ps[j].0 + seq![':', ' ', '<'] + ps[j].1 + seq!['>'],
        );
        let ghost base = if ps.len() > 0 {
            prefix_lines.push(Seq::<char>::empty())
        } else {
            prefix_lines
        };
        proof {
            assert forall|j: int| 0 <= j < base.len() implies views_of(glines@)[j] == base[j] by {
                if j < ps.len() {
                    assert(ps[j] == (self.prefixes@[j].0@, self.prefixes@[j].1@));
                    assert(glines@[j]@ == "PREFIX "@ + self.prefixes@[j].0@ + seq![':', ' ', '<']
                        + self.prefixes@[j].1@ + seq!['>']);
                }
            }
            assert(views_of(glines@) =~= base);
        }
        match self.query_type {
            QueryType::Select => {
                let mut line = chars_of("SELECT");
                if self.distinct {
                    push_str_chars(&mut line, " DISTINCT");
                }
                if self.reduced {
                    push_str_chars(&mut line, " REDUCED");
                }
                line.push(' ');
                push_str_chars(&mut line, self.select_clause.as_str());
                proof {
                    assert(line@ =~= "SELECT"@ + (if self.distinct {
                        " DISTINCT"@
                    } else {
                        Seq::<char>::empty()
                    }) + (if self.reduced {
                        " REDUCED"@
                    } else {
                        Seq::<char>::empty()
                    }) + seq![' '] + self.select_clause@);
                }
                glines.push(line);
            },
            QueryType::Construct => {
                glines.push(chars_of("CONSTRUCT {"));
            },
            QueryType::Ask => {
                glines.push(chars_of("ASK"));
            },
            QueryType::Describe => {
                let mut line = chars_of("DESCRIBE ");
                push_str_chars(&mut line, self.select_clause.as_str());
                glines.push(line);
            },
        }
        let ghost head = (match self.query_type {
            QueryType::Select => base.push(
                "SELECT"@ + (if self.distinct {
                    " DISTINCT"@
                } else {
                    Seq::<char>::empty()
                }) + (if self.reduced {
                    " REDUCED"@
                } else {
                    Seq::<char>::empty()
                }) + seq![' '] + self.select_clause@,
            ),
            QueryType::Construct => base.push("CONSTRUCT {"@),
            QueryType::Ask => base.push("ASK"@),
            QueryType::Describe => base.push("DESCRIBE "@ + self.select_clause@),
        });
        proof {
            assert(views_of(glines@) =~= head);
        }
        let ghost hlen = glines@.len();
        let mut i: usize = 0;
        while i < self.from_clauses.len()
            invariant
                i <= self.from_clauses@.len(),
                glines@.len() == hlen + i,
                views_of(glines@.subrange(0, hlen as int)) == head,
                hlen == head.len(),
                forall|j: int| 0 <= j < hlen ==> #[trigger] glines@[j]@ == head[j],
                forall|j: int|
                    0 <= j < i ==> #[trigger] glines@[hlen + j]@ == "FROM <"@
                        + self.from_clauses@[j]@ + seq!['>'],
            decreases self.from_clauses@.len() - i,
        {
            let mut line = chars_of("FROM <");
            push_str_chars(&mut line, self.from_clauses[i].as_str());
            line.push('>');
            glines.push(line);
            i = i + 1;
            proof {
                assert(glines@.subrange(0, hlen as int) =~= glines@.drop_last().subrange(
                    0, hlen as int));
            }
        }
        let ghost froms = crate::isomorphism::graph_isomorphism::string_views(
            self.from_clauses@,
        );
        let ghost with_froms = head + Seq::new(
            froms.len(),
            |j: int| "FROM <"@ + froms[j] + seq!['>'],
        );
        proof {
            assert forall|j: int| 0 <= j < glines@.len() implies views_of(glines@)[j]
                == with_froms[j] by {
                if j < hlen {
                    assert(glines@[j]@ == head[j]);
                } else {
                    let j2 = j - hlen;
                    assert(glines@[hlen + j2]@ == "FROM <"@ + self.from_clauses@[j2]@
                        + seq!['>']);
                }
            }
            assert(views_of(glines@) =~= with_froms);
        }
        let ghost flen = glines@.len();
        let mut i: usize = 0;
        while i < self.from_named_clauses.len()
            invariant
                i <= self.from_named_clauses@.len(),
                glines@.len() == flen + i,
                flen == with_froms.len(),
                forall|j: int| 0 <= j < flen ==> #[trigger] glines@[j]@ == with_froms[j],
                forall|j: int|
                    0 <= j < i ==> #[trigger] glines@[flen + j]@ == "FROM NAMED <"@
                        + self.from_named_clauses@[j]@ + seq!['>'],
            decreases self.from_named_clauses@.len() - i,
        {
            let mut line = chars_of("FROM NAMED <");
            push_str_chars(&mut line, self.from_named_clauses[i].as_str());
            line.push('>');
            glines.push(line);
            i = i + 1;
        }
        let ghost fnameds = crate::isomorphism::graph_isomorphism::string_views(
            self.from_named_clauses@,
        );
        let ghost with_fnameds = with_froms + Seq::new(
            fnameds.len(),
            |j: int| "FROM NAMED <"@ + fnameds[j] + seq!['>'],
        );
        proof {
            assert forall|j: int| 0 <= j < glines@.len() implies views_of(glines@)[j]
                == with_fnameds[j] by {
                if j < flen {
                    assert(glines@[j]@ == with_froms[j]);
                } else {
                    let j2 = j - flen;
                    assert(glines@[flen + j2]@ == "FROM NAMED <"@
                        + self.from_named_clauses@[j2]@ + seq!['>']);
                }
            }
            assert(views_of(glines@) =~= with_fnameds);
        }
        if self.where_clause.as_str().unicode_len() > 0 {
            glines.push(chars_of(self.where_clause.as_str()));
        }
        let ghost with_where = if self.where_clause@.len() > 0 {
            with_fnameds.push(self.where_clause@)
        } else {
            with_fnameds
        };
        proof {
            assert(views_of(glines@) =~= with_where);
        }
        match &self.order_by {
            Some(ob) => {
                let mut line = chars_of("ORDER BY ");
                push_str_chars(&mut line, ob.as_str());
                glines.push(line);
            },
            None => {},
        }
        let ghost with_ob = (match &self.order_by {
            Some(ob) => with_where.push("ORDER BY "@ + ob@),
            None => with_where,
        });
        proof {
            assert(views_of(glines@) =~= with_ob);
        }
        match self.limit {
            Some(v) => {
                let mut line = chars_of("LIMIT ");
                let d = crate::text::dec_chars(v);
                push_all(&mut line, &d);
                glines.push(line);
            },
            None => {},
        }
        let ghost with_limit = (match self.limit {
            Some(v) => with_ob.push("LIMIT "@ + crate::text::spec_dec(v as nat)),
            None => with_ob,
        });
        proof {
            assert(views_of(glines@) =~= with_limit);
        }
        match self.offset {
            Some(v) => {
                let mut line = chars_of("OFFSET ");
                let d = crate::text::dec_chars(v);
                push_all(&mut line, &d);
                glines.push(line);
            },
            None => {},
        }
        proof {
            assert(views_of(glines@) =~= expected);
        }
        let joined = join_lines(&glines);
        string_from_chars(&joined)
    }
}

} // verus!
