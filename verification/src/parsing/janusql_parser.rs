use vstd::prelude::*;

use crate::error::TulnaError;
use crate::parsing::rspql_parser::{
    prefix_of_line, prefix_views, spec_lookup_prefix, spec_prefix_of_line,
};
use crate::parsing::tokens::{
    join_lines, lines_of, replace_all, spec_find_from, spec_join_nl, spec_lines,
    spec_replace_all, spec_tokens, spec_trim, sub_chars, tokens_of, trim_chars,
};
use crate::text::{
    all_digits_range, chars_eq_str, chars_of, copy_chars, dec_chars, parse_u64_digits, push_all,
    push_str_chars, spec_all_digits, spec_dec, spec_dec_val, spec_has_prefix, string_from_chars,
    views_of,
};

verus! {

// ---------------------------------------------------------------------------
// JanusQL parsing
//
// JanusQL extends RSP-QL with historical windows:
// `[OFFSET o RANGE w STEP s]` (sliding into the past),
// `[START a END b]` (a fixed interval), beside the live `[RANGE w STEP s]`.
// ---------------------------------------------------------------------------

/// The kinds of window JanusQL distinguishes.
#[derive(Debug, Clone, PartialEq, Eq, Structural)]
pub enum WindowType {
    Live,
    HistoricalSliding,
    HistoricalFixed,
}

/// A window definition of a JanusQL query.
#[derive(Debug, Clone)]
pub struct WindowDefinition {
    pub window_name: String,
    pub stream_name: String,
    pub width: u64,
    pub slide: u64,
    pub offset: Option<u64>,
    pub start: Option<u64>,
    pub end: Option<u64>,
    pub window_type: WindowType,
}

/// The view of a JanusQL window definition.
pub ghost struct JWindowView {
    pub window_name: Seq<char>,
    pub stream_name: Seq<char>,
    pub width: u64,
    pub slide: u64,
    pub offset: Option<u64>,
    pub start: Option<u64>,
    pub end: Option<u64>,
    pub window_type: WindowType,
}

impl View for WindowDefinition {
    type V = JWindowView;

    open spec fn view(&self) -> JWindowView {
        JWindowView {
            window_name: self.window_name@,
            stream_name: self.stream_name@,
            width: self.width,
            slide: self.slide,
            offset: self.offset,
            start: self.start,
            end: self.end,
            window_type: self.window_type,
        }
    }
}

pub open spec fn jwindow_views(ws: Seq<WindowDefinition>) -> Seq<JWindowView> {
    ws.map_values(|w: WindowDefinition| w@)
}

/// The registered relation-to-stream operator of a query.
#[derive(Debug, Clone)]
pub struct R2SOperator {
    pub operator: String,
    pub name: String,
}

pub open spec fn view_r2s(o: Option<R2SOperator>) -> Option<(Seq<char>, Seq<char>)> {
    match o {
        Some(r) => Some((r.operator@, r.name@)),
        None => None,
    }
}

/// A parsed JanusQL query.
#[derive(Debug, Clone)]
pub struct ParsedJanusQuery {
    pub r2s: Option<R2SOperator>,
    pub live_windows: Vec<WindowDefinition>,
    pub historical_windows: Vec<WindowDefinition>,
    pub rspql_query: String,
    pub sparql_queries: Vec<String>,
    pub prefixes: Vec<(String, String)>,
    pub where_clause: String,
    pub select_clause: String,
}

// ---------------------------------------------------------------------------
// Term resolution
// ---------------------------------------------------------------------------

/// Resolves a possibly prefixed IRI: `<iri>` is unwrapped, `p:local` expands
/// through the prefix table when `p` is declared, and anything else is kept
/// as written.
pub open spec fn spec_junwrap(t: Seq<char>, ps: Seq<(Seq<char>, Seq<char>)>) -> Seq<char> {
    let tt = spec_trim(t);
    if tt.len() >= 2 && tt[0] == '<' && tt[tt.len() - 1] == '>' {
        tt.subrange(1, tt.len() - 1)
    } else {
        let k = spec_find_from(tt, 0, ':');
        if k < tt.len() {
            match spec_lookup_prefix(ps, tt.subrange(0, k)) {
                Some(iri) => iri + tt.subrange(k + 1, tt.len() as int),
                None => tt,
            }
        } else {
            tt
        }
    }
}

pub(crate) fn junwrap_pub(t: &Vec<char>, prefixes: &Vec<(Vec<char>, Vec<char>)>) -> (r: Vec<
    char,
>)
    ensures
        r@ == spec_junwrap(t@, prefix_views(prefixes@)),
{
    junwrap(t, prefixes)
}

fn junwrap(t: &Vec<char>, prefixes: &Vec<(Vec<char>, Vec<char>)>) -> (r: Vec<char>)
    ensures
        r@ == spec_junwrap(t@, prefix_views(prefixes@)),
{
    let tt = trim_chars(t);
    if tt.len() >= 2 && tt[0] == '<' && tt[tt.len() - 1] == '>' {
        sub_chars(&tt, 1, tt.len() - 1)
    } else {
        let k = crate::parsing::tokens::find_from(&tt, 0, ':');
        if k < tt.len() {
            match crate::parsing::rspql_parser::lookup_prefix(prefixes, &tt, 0, k) {
                Some(iri) => {
                    let mut r = copy_chars(iri);
                    let local = sub_chars(&tt, k + 1, tt.len());
                    push_all(&mut r, &local);
                    r
                },
                None => tt,
            }
        } else {
            tt
        }
    }
}

/// Wraps an IRI back: the first declared namespace that prefixes it gives a
/// `p:local` form; otherwise the IRI is angle-wrapped.
pub open spec fn spec_jwrap_at(iri: Seq<char>, ps: Seq<(Seq<char>, Seq<char>)>, i: int) -> Seq<
    char,
>
    decreases ps.len() - i,
{
    if i < 0 || i >= ps.len() {
        seq!['<'] + iri + seq!['>']
    } else if spec_has_prefix(iri, ps[i].1) {
        ps[i].0 + seq![':'] + iri.subrange(ps[i].1.len() as int, iri.len() as int)
    } else {
        spec_jwrap_at(iri, ps, i + 1)
    }
}

pub open spec fn spec_jwrap(iri: Seq<char>, ps: Seq<(Seq<char>, Seq<char>)>) -> Seq<char> {
    spec_jwrap_at(iri, ps, 0)
}

fn jwrap(iri: &Vec<char>, prefixes: &Vec<(Vec<char>, Vec<char>)>) -> (r: Vec<char>)
    ensures
        r@ == spec_jwrap(iri@, prefix_views(prefixes@)),
{
    let mut i: usize = 0;
    while i < prefixes.len()
        invariant
            i <= prefixes@.len(),
            spec_jwrap(iri@, prefix_views(prefixes@)) == spec_jwrap_at(
                iri@,
                prefix_views(prefixes@),
                i as int,
            ),
        decreases prefixes@.len() - i,
    {
        proof {
            assert(prefix_views(prefixes@)[i as int] == (prefixes@[i as int].0@, prefixes@[
                i as int].1@));
        }
        let ns_chars = string_from_chars(&prefixes[i].1);
        if crate::text::has_prefix(iri, ns_chars.as_str()) {
            let mut r = copy_chars(&prefixes[i].0);
            r.push(':');
            let local = sub_chars(iri, prefixes[i].1.len(), iri.len());
            push_all(&mut r, &local);
            return r;
        }
        i = i + 1;
    }
    let mut r: Vec<char> = Vec::new();
    r.push('<');
    push_all(&mut r, iri);
    r.push('>');
    proof {
        assert(r@ =~= seq!['<'] + iri@ + seq!['>']);
    }
    r
}

// ---------------------------------------------------------------------------
// Line classification
// ---------------------------------------------------------------------------

/// Empty lines and comment lines are skipped (inside a WHERE clause a
/// non-empty comment line is kept).
pub open spec fn spec_is_skipline(t: Seq<char>) -> bool {
    t.len() == 0 || spec_has_prefix(t, "/*"@) || spec_has_prefix(t, "*"@)
}

fn is_skipline(t: &Vec<char>) -> (r: bool)
    ensures
        r == spec_is_skipline(t@),
{
    t.len() == 0 || crate::text::has_prefix(t, "/*") || crate::text::has_prefix(t, "*")
}

pub open spec fn spec_is_word_char(c: char) -> bool {
    ('a' <= c <= 'z') || ('A' <= c <= 'Z') || ('0' <= c <= '9') || c == '_'
}

pub open spec fn spec_all_word(t: Seq<char>) -> bool {
    forall|i: int| 0 <= i < t.len() ==> spec_is_word_char(#[trigger] t[i])
}

fn all_word(t: &Vec<char>) -> (r: bool)
    ensures
        r == spec_all_word(t@),
{
    let mut i: usize = 0;
    while i < t.len()
        invariant
            i <= t@.len(),
            forall|j: int| 0 <= j < i ==> spec_is_word_char(#[trigger] t@[j]),
        decreases t@.len() - i,
    {
        let c = t[i];
        let ok = ('a' <= c && c <= 'z') || ('A' <= c && c <= 'Z') || ('0' <= c && c <= '9') || c
            == '_';
        if !ok {
            return false;
        }
        i = i + 1;
    }
    true
}

/// `REGISTER <op> <name> AS` of a trimmed line: the operator is a bare word,
/// the name resolves through the prefix table.
pub open spec fn spec_jregister_of_line(t: Seq<char>, ps: Seq<(Seq<char>, Seq<char>)>) -> Option<
    (Seq<char>, Seq<char>),
> {
    if !spec_has_prefix(t, "REGISTER"@) {
        None
    } else {
        let tk = spec_tokens(t);
        if tk.len() >= 4 && tk[0] == "REGISTER"@ && tk[3] == "AS"@ && tk[1].len() > 0
            && spec_all_word(tk[1]) {
            Some((tk[1], spec_junwrap(tk[2], ps)))
        } else {
            None
        }
    }
}

fn jregister_of_line(t: &Vec<char>, prefixes: &Vec<(Vec<char>, Vec<char>)>) -> (r: Option<
    (Vec<char>, Vec<char>),
>)
    ensures
        ({
            let spec_r = spec_jregister_of_line(t@, prefix_views(prefixes@));
            match r {
                Some(p) => spec_r == Some((p.0@, p.1@)),
                None => spec_r is None,
            }
        }),
{
    if !crate::text::has_prefix(t, "REGISTER") {
        return None;
    }
    let tk = tokens_of(t);
    let ghost tkv = spec_tokens(t@);
    if tk.len() >= 4 {
        proof {
            assert forall|j: int| 0 <= j < 4 implies tkv[j] == tk@[j]@ by {}
        }
        if chars_eq_str(&tk[0], "REGISTER") && chars_eq_str(&tk[3], "AS") && tk[1].len() > 0
            && all_word(&tk[1]) {
            let op = copy_chars(&tk[1]);
            let name = junwrap(&tk[2], prefixes);
            return Some((op, name));
        }
        return None;
    }
    None
}

// ---------------------------------------------------------------------------
// Window lines
// ---------------------------------------------------------------------------

/// The outcome of reading a window line: no window, a window, or a number
/// too large for 64 bits.
pub ghost enum JWindowParse {
    NoMatch,
    Win(JWindowView),
    Overflow,
}

/// A token of shape `<digits>]`, as closes a window specification.
pub open spec fn spec_digits_bracket(t: Seq<char>) -> bool {
    t.len() >= 2 && t[t.len() - 1] == ']' && spec_all_digits(t.subrange(0, t.len() - 1))
}

/// The number of a digit token, `None` past `u64::MAX`.
pub open spec fn spec_u64_of(ds: Seq<char>) -> Option<u64> {
    if spec_dec_val(ds) <= u64::MAX {
        Some(spec_dec_val(ds) as u64)
    } else {
        None
    }
}

/// Reads a window definition from a trimmed `FROM NAMED WINDOW` line, under
/// the prefix table: a historical sliding window `[OFFSET o RANGE w STEP s]`,
/// a historical fixed window `[START a END b]`, or a live window
/// `[RANGE w STEP s]`.
pub open spec fn spec_jwindow_of_line(
    t: Seq<char>,
    ps: Seq<(Seq<char>, Seq<char>)>,
) -> JWindowParse {
    if !spec_has_prefix(t, "FROM NAMED WINDOW"@) {
        JWindowParse::NoMatch
    } else {
        let tk = spec_tokens(t);
        if tk.len() >= 7 && tk[0] == "FROM"@ && tk[1] == "NAMED"@ && tk[2] == "WINDOW"@ && tk[4]
            == "ON"@ && tk[5] == "STREAM"@ {
            if tk.len() >= 13 && tk[7] == "[OFFSET"@ && spec_all_digits(tk[8]) && tk[8].len() > 0
                && tk[9] == "RANGE"@ && spec_all_digits(tk[10]) && tk[10].len() > 0 && tk[11]
                == "STEP"@ && spec_digits_bracket(tk[12]) {
                match (spec_u64_of(tk[8]), spec_u64_of(tk[10]), spec_u64_of(
                    tk[12].drop_last(),
                )) {
                    (Some(o), Some(w), Some(sl)) => JWindowParse::Win(
                        JWindowView {
                            window_name: spec_junwrap(tk[3], ps),
                            stream_name: spec_junwrap(tk[6], ps),
                            width: w,
                            slide: sl,
                            offset: Some(o),
                            start: None,
                            end: None,
                            window_type: WindowType::HistoricalSliding,
                        },
                    ),
                    _ => JWindowParse::Overflow,
                }
            } else if tk.len() >= 11 && tk[7] == "[START"@ && spec_all_digits(tk[8]) && tk[
                8].len() > 0 && tk[9] == "END"@ && spec_digits_bracket(tk[10]) {
                match (spec_u64_of(tk[8]), spec_u64_of(tk[10].drop_last())) {
                    (Some(a), Some(b)) => JWindowParse::Win(
                        JWindowView {
                            window_name: spec_junwrap(tk[3], ps),
                            stream_name: spec_junwrap(tk[6], ps),
                            width: 0,
                            slide: 0,
                            offset: None,
                            start: Some(a),
                            end: Some(b),
                            window_type: WindowType::HistoricalFixed,
                        },
                    ),
                    _ => JWindowParse::Overflow,
                }
            } else if tk.len() >= 11 && tk[7] == "[RANGE"@ && spec_all_digits(tk[8]) && tk[
                8].len() > 0 && tk[9] == "STEP"@ && spec_digits_bracket(tk[10]) {
                match (spec_u64_of(tk[8]), spec_u64_of(tk[10].drop_last())) {
                    (Some(w), Some(sl)) => JWindowParse::Win(
                        JWindowView {
                            window_name: spec_junwrap(tk[3], ps),
                            stream_name: spec_junwrap(tk[6], ps),
                            width: w,
                            slide: sl,
                            offset: None,
                            start: None,
                            end: None,
                            window_type: WindowType::Live,
                        },
                    ),
                    _ => JWindowParse::Overflow,
                }
            } else {
                JWindowParse::NoMatch
            }
        } else {
            JWindowParse::NoMatch
        }
    }
}

fn digits_bracket(t: &Vec<char>) -> (r: bool)
    ensures
        r == spec_digits_bracket(t@),
{
    t.len() >= 2 && t[t.len() - 1] == ']' && all_digits_range(t, 0, t.len() - 1)
}

fn u64_of_token(t: &Vec<char>, from: usize, to: usize) -> (r: Option<u64>)
    requires
        from <= to <= t@.len(),
        spec_all_digits(t@.subrange(from as int, to as int)),
    ensures
        r == spec_u64_of(t@.subrange(from as int, to as int)),
{
    let r = parse_u64_digits(t, from, to);
    r
}

/// Reads a window definition from a trimmed line; `Err` reports a number
/// past 64 bits.
fn jwindow_of_line(t: &Vec<char>, prefixes: &Vec<(Vec<char>, Vec<char>)>) -> (r: Result<
    Option<WindowDefinition>,
    TulnaError,
>)
    ensures
        ({
            let spec_r = spec_jwindow_of_line(t@, prefix_views(prefixes@));
            match r {
                Ok(Some(w)) => spec_r == JWindowParse::Win(w@),
                Ok(None) => spec_r is NoMatch,
                Err(e) => spec_r is Overflow && e is ParseError,
            }
        }),
{
    if !crate::text::has_prefix(t, "FROM NAMED WINDOW") {
        return Ok(None);
    }
    let tk = tokens_of(t);
    let ghost tkv = spec_tokens(t@);
    if !(tk.len() >= 7) {
        return Ok(None);
    }
    proof {
        assert forall|j: int| 0 <= j < 7 implies tkv[j] == tk@[j]@ by {}
    }
    if !(chars_eq_str(&tk[0], "FROM") && chars_eq_str(&tk[1], "NAMED") && chars_eq_str(
        &tk[2],
        "WINDOW",
    ) && chars_eq_str(&tk[4], "ON") && chars_eq_str(&tk[5], "STREAM")) {
        return Ok(None);
    }
    if tk.len() >= 13 && chars_eq_str(&tk[7], "[OFFSET") && tk[8].len() > 0 && all_digits_range(
        &tk[8],
        0,
        tk[8].len(),
    ) && chars_eq_str(&tk[9], "RANGE") && tk[10].len() > 0 && all_digits_range(
        &tk[10],
        0,
        tk[10].len(),
    ) && chars_eq_str(&tk[11], "STEP") && digits_bracket(&tk[12]) {
        proof {
            assert forall|j: int| 0 <= j < 13 implies tkv[j] == tk@[j]@ by {}
            assert(tk@[8]@.subrange(0, tk@[8]@.len() as int) =~= tkv[8]);
            assert(tk@[10]@.subrange(0, tk@[10]@.len() as int) =~= tkv[10]);
            assert(tk@[12]@.subrange(0, tk@[12]@.len() - 1) =~= tkv[12].drop_last());
        }
        let o = u64_of_token(&tk[8], 0, tk[8].len());
        let w = u64_of_token(&tk[10], 0, tk[10].len());
        let sl = u64_of_token(&tk[12], 0, tk[12].len() - 1);
        match (o, w, sl) {
            (Some(o), Some(w), Some(sl)) => Ok(
                Some(
                    WindowDefinition {
                        window_name: string_from_chars(&junwrap(&tk[3], prefixes)),
                        stream_name: string_from_chars(&junwrap(&tk[6], prefixes)),
                        width: w,
                        slide: sl,
                        offset: Some(o),
                        start: None,
                        end: None,
                        window_type: WindowType::HistoricalSliding,
                    },
                ),
            ),
            _ => Err(TulnaError::ParseError(string_from_chars(&chars_of(
                "window bound does not fit in 64 bits",
            )))),
        }
    } else if tk.len() >= 11 && chars_eq_str(&tk[7], "[START") && tk[8].len() > 0
        && all_digits_range(&tk[8], 0, tk[8].len()) && chars_eq_str(&tk[9], "END")
        && digits_bracket(&tk[10]) {
        proof {
            assert forall|j: int| 0 <= j < 11 implies tkv[j] == tk@[j]@ by {}
            assert(tk@[8]@.subrange(0, tk@[8]@.len() as int) =~= tkv[8]);
            assert(tk@[10]@.subrange(0, tk@[10]@.len() - 1) =~= tkv[10].drop_last());
        }
        let a = u64_of_token(&tk[8], 0, tk[8].len());
        let b = u64_of_token(&tk[10], 0, tk[10].len() - 1);
        match (a, b) {
            (Some(a), Some(b)) => Ok(
                Some(
                    WindowDefinition {
                        window_name: string_from_chars(&junwrap(&tk[3], prefixes)),
                        stream_name: string_from_chars(&junwrap(&tk[6], prefixes)),
                        width: 0,
                        slide: 0,
                        offset: None,
                        start: Some(a),
                        end: Some(b),
                        window_type: WindowType::HistoricalFixed,
                    },
                ),
            ),
            _ => Err(TulnaError::ParseError(string_from_chars(&chars_of(
                "window bound does not fit in 64 bits",
            )))),
        }
    } else if tk.len() >= 11 && chars_eq_str(&tk[7], "[RANGE") && tk[8].len() > 0
        && all_digits_range(&tk[8], 0, tk[8].len()) && chars_eq_str(&tk[9], "STEP")
        && digits_bracket(&tk[10]) {
        proof {
            assert forall|j: int| 0 <= j < 11 implies tkv[j] == tk@[j]@ by {}
            assert(tk@[8]@.subrange(0, tk@[8]@.len() as int) =~= tkv[8]);
            assert(tk@[10]@.subrange(0, tk@[10]@.len() - 1) =~= tkv[10].drop_last());
        }
        let w = u64_of_token(&tk[8], 0, tk[8].len());
        let sl = u64_of_token(&tk[10], 0, tk[10].len() - 1);
        match (w, sl) {
            (Some(w), Some(sl)) => Ok(
                Some(
                    WindowDefinition {
                        window_name: string_from_chars(&junwrap(&tk[3], prefixes)),
                        stream_name: string_from_chars(&junwrap(&tk[6], prefixes)),
                        width: w,
                        slide: sl,
                        offset: None,
                        start: None,
                        end: None,
                        window_type: WindowType::Live,
                    },
                ),
            ),
            _ => Err(TulnaError::ParseError(string_from_chars(&chars_of(
                "window bound does not fit in 64 bits",
            )))),
        }
    } else {
        Ok(None)
    }
}

// ---------------------------------------------------------------------------
// Line folds
// ---------------------------------------------------------------------------

pub open spec fn spec_is_jregister_line(t: Seq<char>) -> bool {
    spec_has_prefix(t, "REGISTER"@)
}

pub open spec fn spec_is_jprefix_line(t: Seq<char>) -> bool {
    spec_has_prefix(t, "PREFIX"@)
}

pub open spec fn spec_is_jselect_line(t: Seq<char>) -> bool {
    spec_has_prefix(t, "SELECT"@)
}

pub open spec fn spec_is_jwindow_line(t: Seq<char>) -> bool {
    spec_has_prefix(t, "FROM NAMED WINDOW"@)
}

pub open spec fn spec_is_jwhere_line(t: Seq<char>) -> bool {
    spec_has_prefix(t, "WHERE"@)
}

/// The prefix table after the first `i` lines.
pub open spec fn spec_jprefixes_at(ls: Seq<Seq<char>>, i: int) -> Seq<(Seq<char>, Seq<char>)>
    decreases i,
{
    if i <= 0 || i > ls.len() {
        Seq::empty()
    } else {
        let pre = spec_jprefixes_at(ls, i - 1);
        let t = spec_trim(ls[i - 1]);
        if spec_is_skipline(t) || spec_is_jregister_line(t) {
            pre
        } else if spec_is_jprefix_line(t) {
            match spec_prefix_of_line(t) {
                Some(p) => pre.push(p),
                None => pre,
            }
        } else {
            pre
        }
    }
}

/// The prefix declaration lines seen in the first `i` lines.
pub open spec fn spec_jprefix_lines_at(ls: Seq<Seq<char>>, i: int) -> Seq<Seq<char>>
    decreases i,
{
    if i <= 0 || i > ls.len() {
        Seq::empty()
    } else {
        let pre = spec_jprefix_lines_at(ls, i - 1);
        let t = spec_trim(ls[i - 1]);
        if spec_is_skipline(t) || spec_is_jregister_line(t) {
            pre
        } else if spec_is_jprefix_line(t) {
            match spec_prefix_of_line(t) {
                Some(p) => pre.push(t),
                None => pre,
            }
        } else {
            pre
        }
    }
}

/// The registration in force after the first `i` lines.
pub open spec fn spec_jr2s_at(ls: Seq<Seq<char>>, i: int) -> Option<(Seq<char>, Seq<char>)>
    decreases i,
{
    if i <= 0 || i > ls.len() {
        None
    } else {
        let t = spec_trim(ls[i - 1]);
        if !spec_is_skipline(t) && spec_is_jregister_line(t) {
            match spec_jregister_of_line(t, spec_jprefixes_at(ls, i - 1)) {
                Some(r) => Some(r),
                None => spec_jr2s_at(ls, i - 1),
            }
        } else {
            spec_jr2s_at(ls, i - 1)
        }
    }
}

/// The SELECT clause in force after the first `i` lines.
pub open spec fn spec_jselect_at(ls: Seq<Seq<char>>, i: int) -> Seq<char>
    decreases i,
{
    if i <= 0 || i > ls.len() {
        Seq::empty()
    } else {
        let t = spec_trim(ls[i - 1]);
        if !spec_is_skipline(t) && !spec_is_jregister_line(t) && !spec_is_jprefix_line(t)
            && spec_is_jselect_line(t) {
            t
        } else {
            spec_jselect_at(ls, i - 1)
        }
    }
}

/// Whether a WHERE clause has opened within the first `i` lines.
pub open spec fn spec_jin_where_at(ls: Seq<Seq<char>>, i: int) -> bool
    decreases i,
{
    if i <= 0 || i > ls.len() {
        false
    } else {
        let t = spec_trim(ls[i - 1]);
        spec_jin_where_at(ls, i - 1) || (!spec_is_skipline(t) && !spec_is_jregister_line(t)
            && !spec_is_jprefix_line(t) && !spec_is_jselect_line(t) && !spec_is_jwindow_line(t)
            && spec_is_jwhere_line(t))
    }
}

/// The lines of the WHERE clause among the first `i` lines; comment lines
/// inside the clause are kept trimmed, other lines are kept as written.
pub open spec fn spec_jwhere_lines_at(ls: Seq<Seq<char>>, i: int) -> Seq<Seq<char>>
    decreases i,
{
    if i <= 0 || i > ls.len() {
        Seq::empty()
    } else {
        let pre = spec_jwhere_lines_at(ls, i - 1);
        let raw = ls[i - 1];
        let t = spec_trim(raw);
        if spec_is_skipline(t) {
            if spec_jin_where_at(ls, i - 1) && t.len() > 0 {
                pre.push(t)
            } else {
                pre
            }
        } else if spec_is_jregister_line(t) || spec_is_jprefix_line(t) || spec_is_jselect_line(t)
            || spec_is_jwindow_line(t) {
            pre
        } else if spec_is_jwhere_line(t) {
            pre.push(raw)
        } else if spec_jin_where_at(ls, i - 1) {
            pre.push(raw)
        } else {
            pre
        }
    }
}

/// The live windows of the first `i` lines.
pub open spec fn spec_jlive_at(ls: Seq<Seq<char>>, i: int) -> Seq<JWindowView>
    decreases i,
{
    if i <= 0 || i > ls.len() {
        Seq::empty()
    } else {
        let pre = spec_jlive_at(ls, i - 1);
        let t = spec_trim(ls[i - 1]);
        if spec_is_skipline(t) || spec_is_jregister_line(t) || spec_is_jprefix_line(t)
            || spec_is_jselect_line(t) {
            pre
        } else {
            match spec_jwindow_of_line(t, spec_jprefixes_at(ls, i - 1)) {
                JWindowParse::Win(w) => if w.window_type is Live {
                    pre.push(w)
                } else {
                    pre
                },
                _ => pre,
            }
        }
    }
}

/// The historical windows of the first `i` lines.
pub open spec fn spec_jhist_at(ls: Seq<Seq<char>>, i: int) -> Seq<JWindowView>
    decreases i,
{
    if i <= 0 || i > ls.len() {
        Seq::empty()
    } else {
        let pre = spec_jhist_at(ls, i - 1);
        let t = spec_trim(ls[i - 1]);
        if spec_is_skipline(t) || spec_is_jregister_line(t) || spec_is_jprefix_line(t)
            || spec_is_jselect_line(t) {
            pre
        } else {
            match spec_jwindow_of_line(t, spec_jprefixes_at(ls, i - 1)) {
                JWindowParse::Win(w) => if w.window_type is Live {
                    pre
                } else {
                    pre.push(w)
                },
                _ => pre,
            }
        }
    }
}

/// Whether a window line with a number past 64 bits occurs within the first
/// `i` lines.
pub open spec fn spec_jerror_at(ls: Seq<Seq<char>>, i: int) -> bool
    decreases i,
{
    if i <= 0 || i > ls.len() {
        false
    } else {
        let t = spec_trim(ls[i - 1]);
        spec_jerror_at(ls, i - 1) || (!spec_is_skipline(t) && !spec_is_jregister_line(t)
            && !spec_is_jprefix_line(t) && !spec_is_jselect_line(t) && spec_jwindow_of_line(
            t,
            spec_jprefixes_at(ls, i - 1),
        ) is Overflow)
    }
}

// ---------------------------------------------------------------------------
// Generated query texts
// ---------------------------------------------------------------------------

/// The `FROM NAMED WINDOW` line a live window prints as.
pub open spec fn spec_jwindow_line_text(w: JWindowView, ps: Seq<(Seq<char>, Seq<char>)>) -> Seq<
    char,
> {
    "FROM NAMED WINDOW "@ + spec_jwrap(w.window_name, ps) + " ON STREAM "@ + spec_jwrap(
        w.stream_name,
        ps,
    ) + " [RANGE "@ + spec_dec(w.width as nat) + " STEP "@ + spec_dec(w.slide as nat) + "]"@
}

/// The lines of the generated RSP-QL query.
pub open spec fn spec_gen_rspql_lines(
    prefix_lines: Seq<Seq<char>>,
    r2s: Option<(Seq<char>, Seq<char>)>,
    select: Seq<char>,
    live: Seq<JWindowView>,
    where_clause: Seq<char>,
    ps: Seq<(Seq<char>, Seq<char>)>,
) -> Seq<Seq<char>> {
    let base = prefix_lines + seq![Seq::<char>::empty()];
    let with_r2s = match r2s {
        Some((op, name)) => base.push("REGISTER "@ + op + seq![' '] + spec_jwrap(name, ps)
            + " AS"@),
        None => base,
    };
    let with_select = if select.len() > 0 {
        with_r2s.push(select)
    } else {
        with_r2s
    };
    let with_blank = with_select.push(Seq::<char>::empty());
    let with_windows = with_blank + live.map_values(
        |w: JWindowView| spec_jwindow_line_text(w, ps),
    );
    if where_clause.len() > 0 {
        with_windows.push(where_clause)
    } else {
        with_windows
    }
}

/// The WHERE clause adapted to one historical window: `WINDOW ` becomes
/// `GRAPH `, and a `}&` marker (when present) is replaced by a timestamp
/// filter and a closing brace.
pub open spec fn spec_adapt_where(where_clause: Seq<char>, w: JWindowView) -> Seq<char> {
    let a = spec_replace_all(where_clause, "WINDOW "@, "GRAPH "@);
    if w.window_type is HistoricalFixed {
        match (w.start, w.end) {
            (Some(st), Some(en)) => spec_replace_all(
                a,
                "}&"@,
                "\n FILTER(?timestamp >= "@ + spec_dec(st as nat) + " && ?timestamp <= "@
                    + spec_dec(en as nat) + ")"@ + "\n}"@,
            ),
            _ => a,
        }
    } else if w.window_type is HistoricalSliding {
        match w.offset {
            Some(o) => spec_replace_all(
                a,
                "}&"@,
                "\n FILTER(?timestamp >= "@ + spec_dec(o as nat) + ")"@ + "\n}"@,
            ),
            _ => a,
        }
    } else {
        a
    }
}

/// The lines of one generated SPARQL query (for one historical window).
pub open spec fn spec_gen_sparql_lines(
    prefix_lines: Seq<Seq<char>>,
    select: Seq<char>,
    where_clause: Seq<char>,
    w: JWindowView,
) -> Seq<Seq<char>> {
    let base = prefix_lines + seq![Seq::<char>::empty()];
    let with_select = if select.len() > 0 {
        base.push(select)
    } else {
        base
    };
    with_select.push(Seq::<char>::empty()).push(spec_adapt_where(where_clause, w))
}

/// The generated SPARQL queries, one per historical window.
pub open spec fn spec_gen_sparqls(
    prefix_lines: Seq<Seq<char>>,
    select: Seq<char>,
    where_clause: Seq<char>,
    hist: Seq<JWindowView>,
) -> Seq<Seq<char>> {
    hist.map_values(
        |w: JWindowView| spec_join_nl(spec_gen_sparql_lines(prefix_lines, select, where_clause, w)),
    )
}

/// The views of a list of string pairs.
pub open spec fn pair_string_views(ps: Seq<(String, String)>) -> Seq<(Seq<char>, Seq<char>)> {
    ps.map_values(|p: (String, String)| (p.0@, p.1@))
}

/// The views of a list of strings.
pub open spec fn jstring_views(v: Seq<String>) -> Seq<Seq<char>> {
    v.map_values(|s: String| s@)
}

fn jwindow_line_text(w: &WindowDefinition, prefixes: &Vec<(Vec<char>, Vec<char>)>) -> (r: Vec<
    char,
>)
    ensures
        r@ == spec_jwindow_line_text(w@, prefix_views(prefixes@)),
{
    let mut r = chars_of("FROM NAMED WINDOW ");
    let wn = chars_of(w.window_name.as_str());
    let wrapped_w = jwrap(&wn, prefixes);
    push_all(&mut r, &wrapped_w);
    push_str_chars(&mut r, " ON STREAM ");
    let sn = chars_of(w.stream_name.as_str());
    let wrapped_s = jwrap(&sn, prefixes);
    push_all(&mut r, &wrapped_s);
    push_str_chars(&mut r, " [RANGE ");
    let wd = dec_chars(w.width);
    push_all(&mut r, &wd);
    push_str_chars(&mut r, " STEP ");
    let sd = dec_chars(w.slide);
    push_all(&mut r, &sd);
    push_str_chars(&mut r, "]");
    proof {
        assert(r@ =~= spec_jwindow_line_text(w@, prefix_views(prefixes@)));
    }
    r
}

fn adapt_where(where_clause: &Vec<char>, w: &WindowDefinition) -> (r: Vec<char>)
    ensures
        r@ == spec_adapt_where(where_clause@, w@),
{
    let a = replace_all(where_clause, "WINDOW ", "GRAPH ");
    match w.window_type {
        WindowType::HistoricalFixed => {
            match (w.start, w.end) {
                (Some(st), Some(en)) => {
                    let mut f = chars_of("\n FILTER(?timestamp >= ");
                    let sd = dec_chars(st);
                    push_all(&mut f, &sd);
                    push_str_chars(&mut f, " && ?timestamp <= ");
                    let ed = dec_chars(en);
                    push_all(&mut f, &ed);
                    push_str_chars(&mut f, ")");
                    push_str_chars(&mut f, "\n}");
                    let fs = string_from_chars(&f);
                    let r = replace_all(&a, "}&", fs.as_str());
                    proof {
                        assert(fs@ =~= "\n FILTER(?timestamp >= "@ + spec_dec(st as nat)
                            + " && ?timestamp <= "@ + spec_dec(en as nat) + ")"@ + "\n}"@);
                    }
                    r
                },
                _ => a,
            }
        },
        WindowType::HistoricalSliding => {
            match w.offset {
                Some(o) => {
                    let mut f = chars_of("\n FILTER(?timestamp >= ");
                    let od = dec_chars(o);
                    push_all(&mut f, &od);
                    push_str_chars(&mut f, ")");
                    push_str_chars(&mut f, "\n}");
                    let fs = string_from_chars(&f);
                    let r = replace_all(&a, "}&", fs.as_str());
                    proof {
                        assert(fs@ =~= "\n FILTER(?timestamp >= "@ + spec_dec(o as nat) + ")"@
                            + "\n}"@);
                    }
                    r
                },
                None => a,
            }
        },
        WindowType::Live => a,
    }
}

/// What a successful parse of a JanusQL query returns.
pub open spec fn spec_janus_parse_ok(q: Seq<char>, p: ParsedJanusQuery) -> bool {
    let ls = spec_lines(q);
    let n = ls.len() as int;
    let prefixes = spec_jprefixes_at(ls, n);
    let plines = spec_jprefix_lines_at(ls, n);
    let select = spec_jselect_at(ls, n);
    let wc = spec_join_nl(spec_jwhere_lines_at(ls, n));
    let live = spec_jlive_at(ls, n);
    let hist = spec_jhist_at(ls, n);
    &&& !spec_jerror_at(ls, n)
    &&& jwindow_views(p.live_windows@) == live
    &&& jwindow_views(p.historical_windows@) == hist
    &&& view_r2s(p.r2s) == spec_jr2s_at(ls, n)
    &&& pair_string_views(p.prefixes@) == prefixes
    &&& p.select_clause@ == select
    &&& p.where_clause@ == wc
    &&& p.rspql_query@ == (if live.len() > 0 {
        spec_join_nl(spec_gen_rspql_lines(plines, spec_jr2s_at(ls, n), select, live, wc, prefixes))
    } else {
        Seq::<char>::empty()
    })
    &&& jstring_views(p.sparql_queries@) == spec_gen_sparqls(plines, select, wc, hist)
}

// ---------------------------------------------------------------------------
// The parser
// ---------------------------------------------------------------------------

/// Parser for JanusQL queries.
pub struct JanusQLParser;

impl JanusQLParser {
    pub fn new() -> (r: Result<JanusQLParser, TulnaError>)
        ensures
            r is Ok,
    {
        Ok(JanusQLParser)
    }

    /// Reads a JanusQL query line by line: registration, prefixes, SELECT
    /// clause, window definitions (live and historical) and the WHERE clause;
    /// then renders the equivalent RSP-QL query (when live windows exist) and
    /// one SPARQL query per historical window. The only error reports a
    /// window bound past 64 bits.
    pub fn parse(&self, query: &str) -> (r: Result<ParsedJanusQuery, TulnaError>)
        ensures
            r matches Err(e) ==> e is ParseError && spec_jerror_at(
                spec_lines(query@),
                spec_lines(query@).len() as int,
            ),
            r matches Ok(p) ==> spec_janus_parse_ok(query@, p),
    {
        let q = chars_of(query);
        let lines = lines_of(&q);
        let ghost ls = spec_lines(query@);
        let mut prefixes: Vec<(Vec<char>, Vec<char>)> = Vec::new();
        let mut prefix_lines: Vec<Vec<char>> = Vec::new();
        let mut r2s: Option<R2SOperator> = None;
        let mut live: Vec<WindowDefinition> = Vec::new();
        let mut hist: Vec<WindowDefinition> = Vec::new();
        let mut select: Vec<char> = Vec::new();
        let mut where_lines: Vec<Vec<char>> = Vec::new();
        let mut in_where = false;
        let mut i: usize = 0;
        proof {
            assert(prefix_views(prefixes@) =~= spec_jprefixes_at(ls, 0));
            assert(views_of(prefix_lines@) =~= spec_jprefix_lines_at(ls, 0));
            assert(jwindow_views(live@) =~= spec_jlive_at(ls, 0));
            assert(jwindow_views(hist@) =~= spec_jhist_at(ls, 0));
            assert(views_of(where_lines@) =~= spec_jwhere_lines_at(ls, 0));
            assert(select@ =~= spec_jselect_at(ls, 0));
        }
        while i < lines.len()
            invariant
                ls == spec_lines(query@),
                views_of(lines@) == ls,
                i <= lines@.len(),
                prefix_views(prefixes@) == spec_jprefixes_at(ls, i as int),
                views_of(prefix_lines@) == spec_jprefix_lines_at(ls, i as int),
                jwindow_views(live@) == spec_jlive_at(ls, i as int),
                jwindow_views(hist@) == spec_jhist_at(ls, i as int),
                view_r2s(r2s) == spec_jr2s_at(ls, i as int),
                select@ == spec_jselect_at(ls, i as int),
                views_of(where_lines@) == spec_jwhere_lines_at(ls, i as int),
                in_where == spec_jin_where_at(ls, i as int),
                !spec_jerror_at(ls, i as int),
            decreases lines@.len() - i,
        {
            proof {
                assert(views_of(lines@)[i as int] == lines@[i as int]@);
            }
            let t = trim_chars(&lines[i]);
            if is_skipline(&t) {
                if in_where && t.len() > 0 {
                    where_lines.push(copy_chars(&t));
                    proof {
                        assert(views_of(where_lines@) =~= spec_jwhere_lines_at(ls, i + 1));
                    }
                }
            } else if crate::text::has_prefix(&t, "REGISTER") {
                match jregister_of_line(&t, &prefixes) {
                    Some((op, name)) => {
                        r2s = Some(
                            R2SOperator {
                                operator: string_from_chars(&op),
                                name: string_from_chars(&name),
                            },
                        );
                    },
                    None => {},
                }
            } else if crate::text::has_prefix(&t, "PREFIX") {
                match prefix_of_line(&t) {
                    Some((name, iri)) => {
                        prefixes.push((name, iri));
                        prefix_lines.push(copy_chars(&t));
                        proof {
                            assert(prefix_views(prefixes@) =~= spec_jprefixes_at(ls, i + 1));
                            assert(views_of(prefix_lines@) =~= spec_jprefix_lines_at(
                                ls, i + 1));
                        }
                    },
                    None => {},
                }
            } else if crate::text::has_prefix(&t, "SELECT") {
                select = copy_chars(&t);
            } else {
                match jwindow_of_line(&t, &prefixes) {
                    Ok(Some(w)) => {
                        let is_live = match w.window_type {
                            WindowType::Live => true,
                            _ => false,
                        };
                        if is_live {
                            live.push(w);
                            proof {
                                assert(jwindow_views(live@) =~= spec_jlive_at(ls, i + 1));
                            }
                        } else {
                            hist.push(w);
                            proof {
                                assert(jwindow_views(hist@) =~= spec_jhist_at(ls, i + 1));
                            }
                        }
                    },
                    Ok(None) => {
                        if crate::text::has_prefix(&t, "FROM NAMED WINDOW") {
                            // a window line that matches no form is consumed
                        } else if crate::text::has_prefix(&t, "WHERE") {
                            in_where = true;
                            where_lines.push(copy_chars(&lines[i]));
                            proof {
                                assert(views_of(where_lines@) =~= spec_jwhere_lines_at(
                                    ls, i + 1));
                            }
                        } else if in_where {
                            where_lines.push(copy_chars(&lines[i]));
                            proof {
                                assert(views_of(where_lines@) =~= spec_jwhere_lines_at(
                                    ls, i + 1));
                            }
                        }
                    },
                    Err(e) => {
                        proof {
                            assert(e is ParseError);
                            assert(spec_jerror_at(ls, i + 1));
                            lemma_jerror_monotone(ls, i + 1, ls.len() as int);
                            assert(spec_jerror_at(
                                spec_lines(query@),
                                spec_lines(query@).len() as int,
                            ));
                        }
                        return Err(e);
                    },
                }
            }
            i = i + 1;
        }
        let where_clause = join_lines(&where_lines);
        // the equivalent RSP-QL query, when live windows exist
        let rspql_query: Vec<char> = if live.len() > 0 {
            let mut glines: Vec<Vec<char>> = Vec::new();
            let mut pi: usize = 0;
            proof {
                assert(views_of(glines@) =~= views_of(prefix_lines@).subrange(0, 0));
            }
            while pi < prefix_lines.len()
                invariant
                    pi <= prefix_lines@.len(),
                    glines@.len() == pi,
                    forall|j: int| 0 <= j < pi ==> #[trigger] glines@[j]@ == prefix_lines@[j]@,
                decreases prefix_lines@.len() - pi,
            {
                let c = copy_chars(&prefix_lines[pi]);
                glines.push(c);
                pi = pi + 1;
            }
            proof {
                assert forall|j: int| 0 <= j < prefix_lines@.len() implies views_of(
                    glines@)[j] == views_of(prefix_lines@)[j] by {
                    assert(glines@[j]@ == prefix_lines@[j]@);
                }
                assert(views_of(glines@) =~= views_of(prefix_lines@));
            }
            glines.push(Vec::new());
            proof {
                assert(views_of(glines@) =~= views_of(prefix_lines@) + seq![
                    Seq::<char>::empty()]);
            }
            let ghost base = views_of(prefix_lines@) + seq![Seq::<char>::empty()];
            let ghost with_r2s_spec = (match view_r2s(r2s) {
                Some((op, name)) => base.push("REGISTER "@ + op + seq![' '] + spec_jwrap(
                    name, prefix_views(prefixes@)) + " AS"@),
                None => base,
            });
            match &r2s {
                Some(r) => {
                    let mut line = chars_of("REGISTER ");
                    push_str_chars(&mut line, r.operator.as_str());
                    line.push(' ');
                    let nm = chars_of(r.name.as_str());
                    let wrapped = jwrap(&nm, &prefixes);
                    push_all(&mut line, &wrapped);
                    push_str_chars(&mut line, " AS");
                    proof {
                        assert(line@ =~= "REGISTER "@ + r.operator@ + seq![' '] + spec_jwrap(
                            r.name@, prefix_views(prefixes@)) + " AS"@);
                    }
                    glines.push(line);
                },
                None => {},
            }
            proof {
                assert(views_of(glines@) =~= with_r2s_spec);
            }
            if select.len() > 0 {
                glines.push(copy_chars(&select));
            }
            let ghost with_select_spec = (if select@.len() > 0 {
                with_r2s_spec.push(select@)
            } else {
                with_r2s_spec
            });
            proof {
                assert(views_of(glines@) =~= with_select_spec);
            }
            glines.push(Vec::new());
            let ghost before_windows = views_of(glines@);
            proof {
                assert(before_windows =~= with_select_spec.push(Seq::<char>::empty()));
            }
            let mut wi: usize = 0;
            let ghost bw_len = glines@.len();
            while wi < live.len()
                invariant
                    wi <= live@.len(),
                    before_windows == views_of(glines@.subrange(0, bw_len as int)),
                    bw_len == before_windows.len(),
                    glines@.len() == bw_len + wi,
                    forall|j: int|
                        0 <= j < bw_len ==> #[trigger] glines@[j]@ == before_windows[j],
                    forall|j: int|
                        0 <= j < wi ==> #[trigger] glines@[bw_len + j]@ == spec_jwindow_line_text(
                            live@[j]@,
                            prefix_views(prefixes@),
                        ),
                decreases live@.len() - wi,
            {
                let line = jwindow_line_text(&live[wi], &prefixes);
                glines.push(line);
                wi = wi + 1;
                proof {
                    assert(glines@.subrange(0, bw_len as int) =~= glines@.drop_last().subrange(
                        0, bw_len as int));
                }
            }
            proof {
                let mapped = jwindow_views(live@).map_values(
                    |w: JWindowView| spec_jwindow_line_text(w, prefix_views(prefixes@)),
                );
                assert forall|j: int| 0 <= j < glines@.len() implies views_of(glines@)[j] == (
                before_windows + mapped)[j] by {
                    if j < bw_len {
                        assert(glines@[j]@ == before_windows[j]);
                    } else {
                        let j2 = j - bw_len;
                        assert(glines@[bw_len + j2]@ == spec_jwindow_line_text(
                            live@[j2]@,
                            prefix_views(prefixes@),
                        ));
                        assert(mapped[j2] == spec_jwindow_line_text(
                            jwindow_views(live@)[j2],
                            prefix_views(prefixes@),
                        ));
                    }
                }
                assert(views_of(glines@) =~= before_windows + mapped);
            }
            if where_clause.len() > 0 {
                glines.push(copy_chars(&where_clause));
            }
            proof {
                assert(views_of(glines@) =~= spec_gen_rspql_lines(
                    views_of(prefix_lines@),
                    view_r2s(r2s),
                    select@,
                    jwindow_views(live@),
                    where_clause@,
                    prefix_views(prefixes@),
                ));
            }
            join_lines(&glines)
        } else {
            Vec::new()
        };
        // one SPARQL query per historical window
        let mut sparql_queries: Vec<String> = Vec::new();
        let mut hi: usize = 0;
        while hi < hist.len()
            invariant
                hi <= hist@.len(),
                sparql_queries@.len() == hi,
                forall|j: int|
                    0 <= j < hi ==> #[trigger] sparql_queries@[j]@ == spec_join_nl(
                        spec_gen_sparql_lines(
                            views_of(prefix_lines@),
                            select@,
                            where_clause@,
                            hist@[j]@,
                        ),
                    ),
            decreases hist@.len() - hi,
        {
            let mut glines: Vec<Vec<char>> = Vec::new();
            let mut pi: usize = 0;
            proof {
                assert(views_of(glines@) =~= views_of(prefix_lines@).subrange(0, 0));
            }
            while pi < prefix_lines.len()
                invariant
                    pi <= prefix_lines@.len(),
                    glines@.len() == pi,
                    forall|j: int| 0 <= j < pi ==> #[trigger] glines@[j]@ == prefix_lines@[j]@,
                decreases prefix_lines@.len() - pi,
            {
                let c = copy_chars(&prefix_lines[pi]);
                glines.push(c);
                pi = pi + 1;
            }
            proof {
                assert forall|j: int| 0 <= j < prefix_lines@.len() implies views_of(
                    glines@)[j] == views_of(prefix_lines@)[j] by {
                    assert(glines@[j]@ == prefix_lines@[j]@);
                }
                assert(views_of(glines@) =~= views_of(prefix_lines@));
            }
            glines.push(Vec::new());
            proof {
                assert(views_of(glines@) =~= views_of(prefix_lines@) + seq![
                    Seq::<char>::empty()]);
            }
            let ghost sbase = views_of(prefix_lines@) + seq![Seq::<char>::empty()];
            if select.len() > 0 {
                glines.push(copy_chars(&select));
            }
            let ghost swith_select = (if select@.len() > 0 {
                sbase.push(select@)
            } else {
                sbase
            });
            proof {
                assert(views_of(glines@) =~= swith_select);
            }
            glines.push(Vec::new());
            let adapted = adapt_where(&where_clause, &hist[hi]);
            proof {
                assert(jwindow_views(hist@)[hi as int] == hist@[hi as int]@);
            }
            glines.push(adapted);
            proof {
                assert(views_of(glines@) =~= spec_gen_sparql_lines(
                    views_of(prefix_lines@),
                    select@,
                    where_clause@,
                    jwindow_views(hist@)[hi as int],
                ));
            }
            let joined = join_lines(&glines);
            sparql_queries.push(string_from_chars(&joined));
            hi = hi + 1;
        }
        proof {
            let expected = spec_gen_sparqls(
                views_of(prefix_lines@),
                select@,
                where_clause@,
                jwindow_views(hist@),
            );
            assert forall|j: int| 0 <= j < hist@.len() implies jstring_views(
                sparql_queries@)[j] == expected[j] by {
                assert(sparql_queries@[j]@ == spec_join_nl(
                    spec_gen_sparql_lines(
                        views_of(prefix_lines@),
                        select@,
                        where_clause@,
                        hist@[j]@,
                    ),
                ));
                assert(jwindow_views(hist@)[j] == hist@[j]@);
            }
            assert(jstring_views(sparql_queries@) =~= expected);
        }
        // assemble the result with string fields
        let mut out_prefixes: Vec<(String, String)> = Vec::new();
        let mut oi: usize = 0;
        while oi < prefixes.len()
            invariant
                oi <= prefixes@.len(),
                out_prefixes@.len() == oi,
                forall|j: int|
                    0 <= j < oi ==> #[trigger] out_prefixes@[j].0@ == prefixes@[j].0@
                        && out_prefixes@[j].1@ == prefixes@[j].1@,
            decreases prefixes@.len() - oi,
        {
            let name = string_from_chars(&prefixes[oi].0);
            let iri = string_from_chars(&prefixes[oi].1);
            out_prefixes.push((name, iri));
            oi = oi + 1;
        }
        proof {
            assert forall|j: int| 0 <= j < prefixes@.len() implies pair_string_views(
                out_prefixes@)[j] == prefix_views(prefixes@)[j] by {
                assert(out_prefixes@[j].0@ == prefixes@[j].0@);
                assert(out_prefixes@[j].1@ == prefixes@[j].1@);
            }
            assert(pair_string_views(out_prefixes@) =~= prefix_views(prefixes@));
        }
        Ok(
            ParsedJanusQuery {
                r2s,
                live_windows: live,
                historical_windows: hist,
                rspql_query: string_from_chars(&rspql_query),
                sparql_queries,
                prefixes: out_prefixes,
                where_clause: string_from_chars(&where_clause),
                select_clause: string_from_chars(&select),
            },
        )
    }
}

/// An error seen early stays an error over the whole query.
proof fn lemma_jerror_monotone(ls: Seq<Seq<char>>, i: int, n: int)
    requires
        0 <= i <= n <= ls.len(),
        spec_jerror_at(ls, i),
    ensures
        spec_jerror_at(ls, n),
    decreases n - i,
{
    if i < n {
        lemma_jerror_monotone(ls, i + 1, n);
    }
}

} // verus!
