use vstd::prelude::*;

use crate::error::TulnaError;
use crate::isomorphism::model::{spec_normalize, NodeView, TripleView};
use crate::parsing::janusql_parser::{
    spec_janus_parse_ok, spec_jerror_at, spec_jhist_at, spec_jlive_at, JanusQLParser,
};
use crate::parsing::rspql_parser::{spec_windows_at, RSPQLParser};
use crate::parsing::sparql_parser::{
    spec_determine_query_type, spec_sparql_parse_errs, SparqlParser,
};
use crate::parsing::tokens::{
    extract_inner_braces_chars, spec_inner_braces, spec_lines, spec_tokens, spec_trim, tokens_of,
    trim_chars,
};
use crate::text::{
    chars_eq_str, chars_of, contains_str, spec_contains_seq, spec_upper, string_from_chars,
    to_upper, views_of,
};

verus! {

/// Supported query languages.
#[derive(Debug, Clone, PartialEq, Eq, Structural)]
pub enum QueryLanguage {
    SPARQL,
    RSPQL,
    JanusQL,
}

/// Node types in a triple.
#[derive(Debug, Clone)]
pub enum TripleNode {
    IRI(String),
    Variable(String),
    Literal(String),
    BlankNode(String),
}

impl View for TripleNode {
    type V = NodeView;

    open spec fn view(&self) -> NodeView {
        match self {
            TripleNode::IRI(s) => NodeView::Iri(s@),
            TripleNode::Variable(s) => NodeView::Var(s@),
            TripleNode::Literal(s) => NodeView::Literal(s@),
            TripleNode::BlankNode(s) => NodeView::Blank(s@),
        }
    }
}

/// A triple: ordered (subject, predicate, object).
#[derive(Debug, Clone)]
pub struct Triple {
    pub subject: TripleNode,
    pub predicate: TripleNode,
    pub object: TripleNode,
}

impl View for Triple {
    type V = TripleView;

    open spec fn view(&self) -> TripleView {
        TripleView { s: self.subject@, p: self.predicate@, o: self.object@ }
    }
}

/// The views of the triples of a graph pattern.
pub open spec fn view_bgp(ts: Seq<Triple>) -> Seq<TripleView> {
    ts.map_values(|t: Triple| t@)
}

// ---------------------------------------------------------------------------
// Term syntax
// ---------------------------------------------------------------------------

pub open spec fn spec_is_quote(c: char) -> bool {
    c == '"' || c == '\''
}

/// The first position `>= i` that does not hold a quote character.
pub open spec fn spec_skip_quotes(s: Seq<char>, i: int) -> int
    decreases s.len() - i,
{
    if i < 0 {
        0
    } else if i >= s.len() {
        s.len() as int
    } else if spec_is_quote(s[i]) {
        spec_skip_quotes(s, i + 1)
    } else {
        i
    }
}

/// The position after the last non-quote character at or before `j`.
pub open spec fn spec_rskip_quotes(s: Seq<char>, j: int) -> int
    decreases j,
{
    if j <= 0 {
        0
    } else if j > s.len() {
        s.len() as int
    } else if spec_is_quote(s[j - 1]) {
        spec_rskip_quotes(s, j - 1)
    } else {
        j
    }
}

/// `s` without leading and trailing quote characters.
pub open spec fn spec_trim_quotes(s: Seq<char>) -> Seq<char> {
    let from = spec_skip_quotes(s, 0);
    let to = spec_rskip_quotes(s, s.len() as int);
    if from <= to {
        s.subrange(from, to)
    } else {
        Seq::empty()
    }
}

fn is_quote(c: char) -> (r: bool)
    ensures
        r == spec_is_quote(c),
{
    c == '"' || c == '\''
}

fn trim_quotes(s: &Vec<char>) -> (r: Vec<char>)
    ensures
        r@ == spec_trim_quotes(s@),
{
    let mut from: usize = 0;
    while from < s.len() && is_quote(s[from])
        invariant
            from <= s@.len(),
            spec_skip_quotes(s@, 0) == spec_skip_quotes(s@, from as int),
        decreases s@.len() - from,
    {
        from = from + 1;
    }
    proof {
        assert(spec_skip_quotes(s@, from as int) == from);
    }
    let mut to: usize = s.len();
    while to > from && is_quote(s[to - 1])
        invariant
            from <= to <= s@.len(),
            spec_rskip_quotes(s@, s@.len() as int) == spec_rskip_quotes(s@, to as int),
            from == spec_skip_quotes(s@, 0),
        decreases to,
    {
        to = to - 1;
    }
    proof {
        if to > from {
            assert(!spec_is_quote(s@[to - 1]));
            assert(spec_rskip_quotes(s@, to as int) == to);
        } else {
            assert(spec_rskip_quotes(s@, to as int) <= to) by {
                lemma_rskip_quotes(s@, to as int);
            }
        }
    }
    if to <= from {
        let r: Vec<char> = Vec::new();
        proof {
            lemma_rskip_quotes(s@, to as int);
            assert(spec_trim_quotes(s@) =~= r@);
        }
        r
    } else {
        crate::parsing::tokens::sub_chars(s, from, to)
    }
}

proof fn lemma_rskip_quotes(s: Seq<char>, j: int)
    requires
        0 <= j <= s.len(),
    ensures
        0 <= spec_rskip_quotes(s, j) <= j,
    decreases j,
{
    if j > 0 && spec_is_quote(s[j - 1]) {
        lemma_rskip_quotes(s, j - 1);
    }
}

/// The IRI a bare `a` in predicate position abbreviates.
pub open spec fn spec_rdf_type_iri() -> Seq<char> {
    "http://www.w3.org/1999/02/22-rdf-syntax-ns#type"@
}

/// The term a token denotes: `?x` and `$x` are variables, `<u>` an IRI,
/// quoted text a literal with the quotes stripped, `_:id` a blank node, and
/// any other bare token an IRI.
pub open spec fn spec_parse_node(t: Seq<char>) -> NodeView {
    if t.len() > 0 && (t[0] == '?' || t[0] == '$') {
        NodeView::Var(t.drop_first())
    } else if t.len() >= 2 && t[0] == '<' && t[t.len() - 1] == '>' {
        NodeView::Iri(t.subrange(1, t.len() - 1))
    } else if t.len() > 0 && spec_is_quote(t[0]) {
        NodeView::Literal(spec_trim_quotes(t))
    } else if t.len() >= 2 && t[0] == '_' && t[1] == ':' {
        NodeView::Blank(t.subrange(2, t.len() as int))
    } else {
        NodeView::Iri(t)
    }
}

/// Parses a trimmed token into a term.
fn parse_node_token(t: &Vec<char>) -> (r: TripleNode)
    ensures
        r@ == spec_parse_node(t@),
{
    if t.len() > 0 && (t[0] == '?' || t[0] == '$') {
        let v = crate::parsing::tokens::sub_chars(t, 1, t.len());
        proof {
            assert(v@ =~= t@.drop_first());
        }
        TripleNode::Variable(string_from_chars(&v))
    } else if t.len() >= 2 && t[0] == '<' && t[t.len() - 1] == '>' {
        let v = crate::parsing::tokens::sub_chars(t, 1, t.len() - 1);
        TripleNode::IRI(string_from_chars(&v))
    } else if t.len() > 0 && is_quote(t[0]) {
        let v = trim_quotes(t);
        TripleNode::Literal(string_from_chars(&v))
    } else if t.len() >= 2 && t[0] == '_' && t[1] == ':' {
        let v = crate::parsing::tokens::sub_chars(t, 2, t.len());
        TripleNode::BlankNode(string_from_chars(&v))
    } else {
        TripleNode::IRI(string_from_chars(t))
    }
}

/// The predicate a token denotes: the bare token `a` abbreviates `rdf:type`.
pub open spec fn spec_parse_pred(t: Seq<char>) -> NodeView {
    if t == seq!['a'] {
        NodeView::Iri(spec_rdf_type_iri())
    } else {
        spec_parse_node(t)
    }
}

fn parse_pred_token(t: &Vec<char>) -> (r: TripleNode)
    ensures
        r@ == spec_parse_pred(t@),
{
    if t.len() == 1 && t[0] == 'a' {
        proof {
            assert(t@ =~= seq!['a']);
        }
        let iri = chars_of("http://www.w3.org/1999/02/22-rdf-syntax-ns#type");
        TripleNode::IRI(string_from_chars(&iri))
    } else {
        proof {
            assert(t@ != seq!['a']);
        }
        parse_node_token(t)
    }
}

// ---------------------------------------------------------------------------
// Triple statements
//
// Inside the depth-1 brace content, tokens form statements separated by `.`;
// a statement of exactly three tokens is a triple (the final statement may
// omit the terminating dot).
// ---------------------------------------------------------------------------

/// The statement still open after the first `i` tokens.
pub open spec fn spec_group_at(tk: Seq<Seq<char>>, i: int) -> Seq<Seq<char>>
    decreases i,
{
    if i <= 0 || i > tk.len() {
        Seq::empty()
    } else if tk[i - 1] == seq!['.'] {
        Seq::empty()
    } else {
        spec_group_at(tk, i - 1).push(tk[i - 1])
    }
}

/// The triple a three-token statement denotes.
pub open spec fn spec_triple_of_group(g: Seq<Seq<char>>) -> TripleView
    recommends
        g.len() == 3,
{
    TripleView { s: spec_parse_node(g[0]), p: spec_parse_pred(g[1]), o: spec_parse_node(g[2]) }
}

/// The triples of the statements closed within the first `i` tokens.
pub open spec fn spec_triples_at(tk: Seq<Seq<char>>, i: int) -> Seq<TripleView>
    decreases i,
{
    if i <= 0 || i > tk.len() {
        Seq::empty()
    } else if tk[i - 1] == seq!['.'] {
        let g = spec_group_at(tk, i - 1);
        if g.len() == 3 {
            spec_triples_at(tk, i - 1).push(spec_triple_of_group(g))
        } else {
            spec_triples_at(tk, i - 1)
        }
    } else {
        spec_triples_at(tk, i - 1)
    }
}

/// All triples among the statements of a token list; a final statement needs
/// no terminating dot.
pub open spec fn spec_triples_of_tokens(tk: Seq<Seq<char>>) -> Seq<TripleView> {
    let base = spec_triples_at(tk, tk.len() as int);
    let last = spec_group_at(tk, tk.len() as int);
    if last.len() == 3 {
        base.push(spec_triple_of_group(last))
    } else {
        base
    }
}

/// The triple pattern of a query text: the triples stated in the depth-1
/// content of its braces.
pub open spec fn spec_extract_bgp(s: Seq<char>) -> Seq<TripleView> {
    spec_triples_of_tokens(spec_tokens(spec_inner_braces(s)))
}

/// Extracts the triple pattern from the brace content of a query text.
pub(crate) fn extract_bgp_chars(text: &Vec<char>) -> (r: Vec<Triple>)
    ensures
        view_bgp(r@) == spec_extract_bgp(text@),
{
    let content = extract_inner_braces_chars(text);
    let tk = tokens_of(&content);
    let ghost tkv = spec_tokens(content@);
    let mut bgp: Vec<Triple> = Vec::new();
    let mut group: Vec<Vec<char>> = Vec::new();
    let mut i: usize = 0;
    proof {
        assert(views_of(group@) =~= spec_group_at(tkv, 0));
        assert(view_bgp(bgp@) =~= spec_triples_at(tkv, 0));
    }
    while i < tk.len()
        invariant
            views_of(tk@) == tkv,
            i <= tk@.len(),
            views_of(group@) == spec_group_at(tkv, i as int),
            view_bgp(bgp@) == spec_triples_at(tkv, i as int),
        decreases tk@.len() - i,
    {
        let t = &tk[i];
        proof {
            assert(tkv[i as int] == t@);
        }
        if t.len() == 1 && t[0] == '.' {
            proof {
                assert(t@ =~= seq!['.']);
            }
            if group.len() == 3 {
                let tr = Triple {
                    subject: parse_node_token(&group[0]),
                    predicate: parse_pred_token(&group[1]),
                    object: parse_node_token(&group[2]),
                };
                proof {
                    assert(views_of(group@)[0] == group@[0]@);
                    assert(views_of(group@)[1] == group@[1]@);
                    assert(views_of(group@)[2] == group@[2]@);
                    assert(tr@ == spec_triple_of_group(views_of(group@)));
                }
                bgp.push(tr);
                proof {
                    assert(view_bgp(bgp@) =~= spec_triples_at(tkv, i + 1));
                }
            } else {
                proof {
                    assert(view_bgp(bgp@) =~= spec_triples_at(tkv, i + 1));
                }
            }
            group = Vec::new();
            proof {
                assert(views_of(group@) =~= spec_group_at(tkv, i + 1));
            }
        } else {
            proof {
                assert(t@ != seq!['.']);
            }
            group.push(crate::text::copy_chars(t));
            proof {
                assert(views_of(group@) =~= spec_group_at(tkv, i + 1));
                assert(view_bgp(bgp@) =~= spec_triples_at(tkv, i + 1));
            }
        }
        i = i + 1;
    }
    if group.len() == 3 {
        let tr = Triple {
            subject: parse_node_token(&group[0]),
            predicate: parse_pred_token(&group[1]),
            object: parse_node_token(&group[2]),
        };
        proof {
            assert(views_of(group@)[0] == group@[0]@);
            assert(views_of(group@)[1] == group@[1]@);
            assert(views_of(group@)[2] == group@[2]@);
            assert(tr@ == spec_triple_of_group(views_of(group@)));
        }
        bgp.push(tr);
        proof {
            assert(view_bgp(bgp@) =~= spec_extract_bgp(text@));
        }
    } else {
        proof {
            assert(view_bgp(bgp@) =~= spec_extract_bgp(text@));
        }
    }
    bgp
}

// ---------------------------------------------------------------------------
// Language detection
// ---------------------------------------------------------------------------

/// The language a query belongs to, decided by keywords of its upper-cased
/// text: historical-window keywords mean JanusQL; registration or window
/// syntax means RSP-QL; anything else is SPARQL.
pub open spec fn spec_detect_query_type(q: Seq<char>) -> QueryLanguage {
    let u = spec_upper(q);
    if (spec_contains_seq(u, "OFFSET"@) && spec_contains_seq(u, "RANGE"@) && spec_contains_seq(
        u,
        "STEP"@,
    )) || (spec_contains_seq(u, "START"@) && spec_contains_seq(u, "END"@)) {
        QueryLanguage::JanusQL
    } else if spec_contains_seq(u, "REGISTER"@) && spec_contains_seq(u, "STREAM"@) {
        QueryLanguage::RSPQL
    } else if spec_contains_seq(u, "FROM"@) && spec_contains_seq(u, "NAMED"@)
        && spec_contains_seq(u, "WINDOW"@) && spec_contains_seq(u, "ON STREAM"@) {
        QueryLanguage::RSPQL
    } else {
        QueryLanguage::SPARQL
    }
}

/// A parsed query reduced to what the equivalence decision needs: language,
/// triple pattern, and stream or window parameters.
#[derive(Debug, Clone)]
pub struct IsomorphismQuery {
    pub query_language: QueryLanguage,
    pub bgp: Vec<Triple>,
    pub stream_name: Option<String>,
    pub window_name: Option<String>,
    pub width: Option<i64>,
    pub slide: Option<i64>,
    pub offset: Option<u64>,
    pub start: Option<u64>,
    pub end: Option<u64>,
}

/// The view of an optional string.
pub open spec fn view_opt_string(o: Option<String>) -> Option<Seq<char>> {
    match o {
        Some(s) => Some(s@),
        None => None,
    }
}

/// The view of a parsed query.
pub ghost struct IsoQueryView {
    pub query_language: QueryLanguage,
    pub bgp: Seq<TripleView>,
    pub stream_name: Option<Seq<char>>,
    pub window_name: Option<Seq<char>>,
    pub width: Option<i64>,
    pub slide: Option<i64>,
    pub offset: Option<u64>,
    pub start: Option<u64>,
    pub end: Option<u64>,
}

impl View for IsomorphismQuery {
    type V = IsoQueryView;

    open spec fn view(&self) -> IsoQueryView {
        IsoQueryView {
            query_language: self.query_language,
            bgp: view_bgp(self.bgp@),
            stream_name: view_opt_string(self.stream_name),
            window_name: view_opt_string(self.window_name),
            width: self.width,
            slide: self.slide,
            offset: self.offset,
            start: self.start,
            end: self.end,
        }
    }
}

/// What parsing a SPARQL query yields: the triple pattern of its braces, and
/// no stream parameters.
pub open spec fn spec_parse_sparql_q(q: Seq<char>) -> IsoQueryView {
    IsoQueryView {
        query_language: QueryLanguage::SPARQL,
        bgp: spec_extract_bgp(q),
        stream_name: None,
        window_name: None,
        width: None,
        slide: None,
        offset: None,
        start: None,
        end: None,
    }
}

/// What parsing an RSP-QL query yields: the triple pattern plus the first
/// window's stream parameters.
pub open spec fn spec_parse_rspql_q(q: Seq<char>) -> IsoQueryView {
    let ls = spec_lines(q);
    let ws = spec_windows_at(ls, ls.len() as int);
    if ws.len() > 0 {
        IsoQueryView {
            query_language: QueryLanguage::RSPQL,
            bgp: spec_extract_bgp(q),
            stream_name: Some(ws[0].stream_name),
            window_name: Some(ws[0].window_name),
            width: Some(ws[0].width),
            slide: Some(ws[0].slide),
            offset: None,
            start: None,
            end: None,
        }
    } else {
        IsoQueryView {
            query_language: QueryLanguage::RSPQL,
            bgp: spec_extract_bgp(q),
            stream_name: None,
            window_name: None,
            width: None,
            slide: None,
            offset: None,
            start: None,
            end: None,
        }
    }
}

/// What parsing a JanusQL query yields: the triple pattern plus the first
/// live window's parameters, or the first historical window's (with its
/// offset or interval).
pub open spec fn spec_parse_janusql_q(q: Seq<char>) -> IsoQueryView {
    let ls = spec_lines(q);
    let n = ls.len() as int;
    let live = spec_jlive_at(ls, n);
    let hist = spec_jhist_at(ls, n);
    if live.len() > 0 {
        IsoQueryView {
            query_language: QueryLanguage::JanusQL,
            bgp: spec_extract_bgp(q),
            stream_name: Some(live[0].stream_name),
            window_name: Some(live[0].window_name),
            width: Some(live[0].width as i64),
            slide: Some(live[0].slide as i64),
            offset: None,
            start: None,
            end: None,
        }
    } else if hist.len() > 0 {
        IsoQueryView {
            query_language: QueryLanguage::JanusQL,
            bgp: spec_extract_bgp(q),
            stream_name: Some(hist[0].stream_name),
            window_name: Some(hist[0].window_name),
            width: Some(hist[0].width as i64),
            slide: Some(hist[0].slide as i64),
            offset: hist[0].offset,
            start: hist[0].start,
            end: hist[0].end,
        }
    } else {
        IsoQueryView {
            query_language: QueryLanguage::JanusQL,
            bgp: spec_extract_bgp(q),
            stream_name: None,
            window_name: None,
            width: None,
            slide: None,
            offset: None,
            start: None,
            end: None,
        }
    }
}

/// What parsing a query yields, by its detected language.
pub open spec fn spec_parse_query(q: Seq<char>) -> IsoQueryView {
    match spec_detect_query_type(q) {
        QueryLanguage::SPARQL => spec_parse_sparql_q(q),
        QueryLanguage::RSPQL => spec_parse_rspql_q(q),
        QueryLanguage::JanusQL => spec_parse_janusql_q(q),
    }
}

/// A query text the parser rejects: for SPARQL an unrecognizable form or a
/// LIMIT/OFFSET value past 64 bits, for JanusQL a window bound past 64 bits;
/// RSP-QL parsing is total.
pub open spec fn spec_parse_errs(q: Seq<char>) -> bool {
    match spec_detect_query_type(q) {
        QueryLanguage::SPARQL => spec_sparql_parse_errs(q),
        QueryLanguage::RSPQL => false,
        QueryLanguage::JanusQL => spec_jerror_at(spec_lines(q), spec_lines(q).len() as int),
    }
}

/// When deciding equivalence of two query texts fails: one of them does not
/// parse, or — once the comparison reaches the two triple patterns — an IRI
/// or literal payload of a pattern begins with `_:`.
pub open spec fn spec_is_isomorphic_errs(q1: Seq<char>, q2: Seq<char>) -> bool {
    let p1 = spec_parse_query(q1);
    let p2 = spec_parse_query(q2);
    let gate = (p1.query_language is SPARQL && p2.query_language is SPARQL) || (
    spec_stream_params_eq(p1, p2) && p1.window_name == p2.window_name);
    ||| spec_parse_errs(q1)
    ||| spec_parse_errs(q2)
    ||| (gate && !(crate::isomorphism::model::bgp_valid(p1.bgp)
        && crate::isomorphism::model::bgp_valid(p2.bgp)))
}

/// The stream parameters two queries must share: stream name, width, slide,
/// offset, start and end.
pub open spec fn spec_stream_params_eq(a: IsoQueryView, b: IsoQueryView) -> bool {
    &&& a.stream_name == b.stream_name
    &&& a.width == b.width
    &&& a.slide == b.slide
    &&& a.offset == b.offset
    &&& a.start == b.start
    &&& a.end == b.end
}

/// The engine behind query equivalence: language detection, parsing, and the
/// graph-isomorphism decision on the extracted triple patterns.
pub struct QueryIsomorphism;

impl QueryIsomorphism {
    /// Detects the query language: historical-window keywords mean JanusQL,
    /// registration or window syntax means RSP-QL, anything else SPARQL.
    pub fn detect_query_type(query: &str) -> (r: QueryLanguage)
        ensures
            r == spec_detect_query_type(query@),
    {
        let q = chars_of(query);
        let upper = to_upper(&q);
        if (contains_str(&upper, "OFFSET") && contains_str(&upper, "RANGE") && contains_str(
            &upper,
            "STEP",
        )) || (contains_str(&upper, "START") && contains_str(&upper, "END")) {
            QueryLanguage::JanusQL
        } else if contains_str(&upper, "REGISTER") && contains_str(&upper, "STREAM") {
            QueryLanguage::RSPQL
        } else if contains_str(&upper, "FROM") && contains_str(&upper, "NAMED") && contains_str(
            &upper,
            "WINDOW",
        ) && contains_str(&upper, "ON STREAM") {
            QueryLanguage::RSPQL
        } else {
            QueryLanguage::SPARQL
        }
    }

    /// Extracts the triple pattern of a query text.
    pub fn extract_bgp_from_where(text: &str) -> (r: Vec<Triple>)
        ensures
            view_bgp(r@) == spec_extract_bgp(text@),
    {
        let t = chars_of(text);
        extract_bgp_chars(&t)
    }

    /// Parses a token into a term; see `spec_parse_node`.
    pub fn parse_node(node_str: &str) -> (r: TripleNode)
        ensures
            r@ == spec_parse_node(spec_trim(node_str@)),
    {
        let c = chars_of(node_str);
        let t = trim_chars(&c);
        parse_node_token(&t)
    }

    fn parse_sparql(query: &str) -> (r: Result<IsomorphismQuery, TulnaError>)
        requires
            spec_detect_query_type(query@) is SPARQL,
        ensures
            r matches Ok(p) ==> p@ == spec_parse_query(query@),
            r matches Err(e) ==> e is ParseError,
            r is Err <==> spec_parse_errs(query@),
    {
        let parser = match SparqlParser::new() {
            Ok(p) => p,
            Err(e) => {
                return Err(e);
            },
        };
        match parser.parse(query) {
            Ok(_) => {},
            Err(e) => {
                return Err(e);
            },
        }
        let bgp = Self::extract_bgp_from_where(query);
        Ok(
            IsomorphismQuery {
                query_language: QueryLanguage::SPARQL,
                bgp,
                stream_name: None,
                window_name: None,
                width: None,
                slide: None,
                offset: None,
                start: None,
                end: None,
            },
        )
    }

    fn parse_rspql(query: &str) -> (r: IsomorphismQuery)
        requires
            spec_detect_query_type(query@) is RSPQL,
        ensures
            r@ == spec_parse_query(query@),
    {
        let parser = RSPQLParser::new(string_from_chars(&chars_of(query)));
        let parsed = parser.parse();
        let bgp = Self::extract_bgp_from_where(query);
        if parsed.s2r.len() > 0 {
            let w = &parsed.s2r[0];
            proof {
                assert(crate::parsing::parsed_rspql_query::window_views(
                    parsed.s2r@)[0] == parsed.s2r@[0]@);
            }
            IsomorphismQuery {
                query_language: QueryLanguage::RSPQL,
                bgp,
                stream_name: Some(string_from_chars(&chars_of(w.stream_name.as_str()))),
                window_name: Some(string_from_chars(&chars_of(w.window_name.as_str()))),
                width: Some(w.width),
                slide: Some(w.slide),
                offset: None,
                start: None,
                end: None,
            }
        } else {
            IsomorphismQuery {
                query_language: QueryLanguage::RSPQL,
                bgp,
                stream_name: None,
                window_name: None,
                width: None,
                slide: None,
                offset: None,
                start: None,
                end: None,
            }
        }
    }

    #[verifier::truncate]
    fn parse_janusql(query: &str) -> (r: Result<IsomorphismQuery, TulnaError>)
        requires
            spec_detect_query_type(query@) is JanusQL,
        ensures
            r matches Ok(p) ==> p@ == spec_parse_query(query@),
            r matches Err(e) ==> e is ParseError,
            r is Err <==> spec_parse_errs(query@),
    {
        let parser = match JanusQLParser::new() {
            Ok(p) => p,
            Err(e) => {
                return Err(e);
            },
        };
        let parsed = match parser.parse(query) {
            Ok(p) => p,
            Err(e) => {
                return Err(e);
            },
        };
        let bgp = Self::extract_bgp_from_where(query);
        if parsed.live_windows.len() > 0 {
            let w = &parsed.live_windows[0];
            proof {
                assert(crate::parsing::janusql_parser::jwindow_views(
                    parsed.live_windows@)[0] == parsed.live_windows@[0]@);
            }
            Ok(
                IsomorphismQuery {
                    query_language: QueryLanguage::JanusQL,
                    bgp,
                    stream_name: Some(string_from_chars(&chars_of(w.stream_name.as_str()))),
                    window_name: Some(string_from_chars(&chars_of(w.window_name.as_str()))),
                    width: Some(w.width as i64),
                    slide: Some(w.slide as i64),
                    offset: None,
                    start: None,
                    end: None,
                },
            )
        } else if parsed.historical_windows.len() > 0 {
            let w = &parsed.historical_windows[0];
            proof {
                assert(crate::parsing::janusql_parser::jwindow_views(
                    parsed.historical_windows@)[0] == parsed.historical_windows@[0]@);
            }
            Ok(
                IsomorphismQuery {
                    query_language: QueryLanguage::JanusQL,
                    bgp,
                    stream_name: Some(string_from_chars(&chars_of(w.stream_name.as_str()))),
                    window_name: Some(string_from_chars(&chars_of(w.window_name.as_str()))),
                    width: Some(w.width as i64),
                    slide: Some(w.slide as i64),
                    offset: w.offset,
                    start: w.start,
                    end: w.end,
                },
            )
        } else {
            Ok(
                IsomorphismQuery {
                    query_language: QueryLanguage::JanusQL,
                    bgp,
                    stream_name: None,
                    window_name: None,
                    width: None,
                    slide: None,
                    offset: None,
                    start: None,
                    end: None,
                },
            )
        }
    }

    /// Parses a query by its detected language.
    pub fn parse_query(query: &str) -> (r: Result<IsomorphismQuery, TulnaError>)
        ensures
            r matches Ok(p) ==> p@ == spec_parse_query(query@),
            r matches Err(e) ==> e is ParseError,
            r is Err <==> spec_parse_errs(query@),
    {
        let lang = Self::detect_query_type(query);
        match lang {
            QueryLanguage::SPARQL => Self::parse_sparql(query),
            QueryLanguage::RSPQL => Ok(Self::parse_rspql(query)),
            QueryLanguage::JanusQL => Self::parse_janusql(query),
        }
    }

    /// The triple pattern of a query.
    pub fn generate_bgp_quads_from_query(query: &str) -> (r: Result<Vec<Triple>, TulnaError>)
        ensures
            r matches Ok(bgp) ==> view_bgp(bgp@) == spec_parse_query(query@).bgp,
            r matches Err(e) ==> e is ParseError,
            r is Err <==> spec_parse_errs(query@),
    {
        match Self::parse_query(query) {
            Ok(p) => Ok(p.bgp),
            Err(e) => Err(e),
        }
    }

    fn opt_string_eq(a: &Option<String>, b: &Option<String>) -> (r: bool)
        ensures
            r == (view_opt_string(*a) == view_opt_string(*b)),
    {
        match (a, b) {
            (Some(x), Some(y)) => {
                let xc = chars_of(x.as_str());
                crate::text::chars_eq_str(&xc, y.as_str())
            },
            (None, None) => true,
            _ => false,
        }
    }

    fn opt_i64_eq(a: &Option<i64>, b: &Option<i64>) -> (r: bool)
        ensures
            r == (*a == *b),
    {
        match (a, b) {
            (Some(x), Some(y)) => *x == *y,
            (None, None) => true,
            _ => false,
        }
    }

    fn opt_u64_eq(a: &Option<u64>, b: &Option<u64>) -> (r: bool)
        ensures
            r == (*a == *b),
    {
        match (a, b) {
            (Some(x), Some(y)) => *x == *y,
            (None, None) => true,
            _ => false,
        }
    }

    /// Stream parameters (stream name, width, slide, offset, start, end) of
    /// the two queries agree.
    pub(crate) fn check_stream_parameters_equal(
        q1: &IsomorphismQuery,
        q2: &IsomorphismQuery,
    ) -> (r: bool)
        ensures
            r == spec_stream_params_eq(q1@, q2@),
    {
        Self::opt_string_eq(&q1.stream_name, &q2.stream_name) && Self::opt_i64_eq(
            &q1.width,
            &q2.width,
        ) && Self::opt_i64_eq(&q1.slide, &q2.slide) && Self::opt_u64_eq(&q1.offset, &q2.offset)
            && Self::opt_u64_eq(&q1.start, &q2.start) && Self::opt_u64_eq(&q1.end, &q2.end)
    }

    /// The two queries name the same window.
    pub(crate) fn check_window_names_equal(q1: &IsomorphismQuery, q2: &IsomorphismQuery) -> (r:
        bool)
        ensures
            r == (q1@.window_name == q2@.window_name),
    {
        Self::opt_string_eq(&q1.window_name, &q2.window_name)
    }

    /// Decides isomorphism of the two queries' triple patterns.
    fn check_bgp_isomorphism(bgp1: &Vec<Triple>, bgp2: &Vec<Triple>) -> (r: Result<
        bool,
        TulnaError,
    >)
        ensures
            ({
                let na = spec_normalize(view_bgp(bgp1@));
                let nb = spec_normalize(view_bgp(bgp2@));
                let valid = crate::isomorphism::model::bgp_valid(view_bgp(bgp1@))
                    && crate::isomorphism::model::bgp_valid(view_bgp(bgp2@));
                &&& (r matches Ok(b) && b) ==> crate::isomorphism::model::spec_isomorphic(na, nb)
                &&& !valid <==> (r matches Err(e) && e is InvalidInput)
                &&& valid <==> r is Ok
                &&& valid && crate::isomorphism::model::graph_set(na).len()
                    != crate::isomorphism::model::graph_set(nb).len() ==> (r matches Ok(b) && !b)
                &&& valid && crate::isomorphism::model::ground_set(na)
                    != crate::isomorphism::model::ground_set(nb) ==> (r matches Ok(b) && !b)
                &&& valid && crate::isomorphism::model::graph_set(na)
                    == crate::isomorphism::model::graph_set(nb)
                    && crate::isomorphism::model::graph_blanks(na) == Set::<Seq<char>>::empty()
                    ==> r == Ok::<bool, TulnaError>(true)
            }),
    {
        crate::isomorphism::graph_isomorphism::GraphIsomorphism::check_bgp_isomorphism(bgp1, bgp2)
    }

    /// Decides whether two queries are equivalent: same stream and window
    /// parameters (for streaming languages), and isomorphic triple patterns.
    ///
    /// A `true` answer means some renaming of the unlabeled nodes carries one
    /// normalized pattern onto the other; differing stream parameters or
    /// window names under a streaming language always answer `false`.
    pub fn is_isomorphic(query_one: &str, query_two: &str) -> (r: Result<bool, TulnaError>)
        ensures
            (r matches Ok(b) && b) ==> crate::isomorphism::model::spec_isomorphic(
                spec_normalize(spec_parse_query(query_one@).bgp),
                spec_normalize(spec_parse_query(query_two@).bgp),
            ),
            ({
                let p1 = spec_parse_query(query_one@);
                let p2 = spec_parse_query(query_two@);
                r is Ok && !(p1.query_language is SPARQL && p2.query_language is SPARQL) && !(
                spec_stream_params_eq(p1, p2) && p1.window_name == p2.window_name) ==> r == Ok::<
                    bool,
                    TulnaError,
                >(false)
            }),
            ({
                let p1 = spec_parse_query(query_one@);
                let p2 = spec_parse_query(query_two@);
                let valid = crate::isomorphism::model::bgp_valid(p1.bgp)
                    && crate::isomorphism::model::bgp_valid(p2.bgp);
                r matches Ok(b) && b && valid ==> crate::isomorphism::model::graph_set(
                    spec_normalize(p1.bgp),
                ).len() == crate::isomorphism::model::graph_set(spec_normalize(p2.bgp)).len()
                    && crate::isomorphism::model::ground_set(spec_normalize(p1.bgp))
                    == crate::isomorphism::model::ground_set(spec_normalize(p2.bgp))
            }),
            r is Err <==> spec_is_isomorphic_errs(query_one@, query_two@),
            ({
                let p1 = spec_parse_query(query_one@);
                let p2 = spec_parse_query(query_two@);
                let na = spec_normalize(p1.bgp);
                let nb = spec_normalize(p2.bgp);
                let gate = (p1.query_language is SPARQL && p2.query_language is SPARQL) || (
                spec_stream_params_eq(p1, p2) && p1.window_name == p2.window_name);
                r is Ok && gate && crate::isomorphism::model::bgp_valid(p1.bgp)
                    && crate::isomorphism::model::bgp_valid(p2.bgp)
                    && crate::isomorphism::model::graph_set(na)
                    == crate::isomorphism::model::graph_set(nb)
                    && crate::isomorphism::model::graph_blanks(na) == Set::<Seq<char>>::empty()
                    ==> r == Ok::<bool, TulnaError>(true)
            }),
    {
        let q1 = match Self::parse_query(query_one) {
            Ok(p) => p,
            Err(e) => {
                return Err(e);
            },
        };
        let q2 = match Self::parse_query(query_two) {
            Ok(p) => p,
            Err(e) => {
                return Err(e);
            },
        };
        let both_sparql = match (&q1.query_language, &q2.query_language) {
            (QueryLanguage::SPARQL, QueryLanguage::SPARQL) => true,
            _ => false,
        };
        if !both_sparql {
            if !Self::check_stream_parameters_equal(&q1, &q2) {
                return Ok(false);
            }
            if !Self::check_window_names_equal(&q1, &q2) {
                return Ok(false);
            }
        }
        Self::check_bgp_isomorphism(&q1.bgp, &q2.bgp)
    }
}

} // verus!
