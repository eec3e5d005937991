use vstd::prelude::*;

use crate::parsing::parsed_rspql_query::{
    window_views, Operator, ParsedQuery, WindowDefinition, WindowView,
};
use crate::parsing::tokens::{
    join_lines, lines_of, spec_join_nl, spec_lines, spec_tokens, spec_trim, sub_chars, tokens_of,
    trim_chars,
};
use crate::text::{
    chars_eq_str, chars_of, copy_chars, parse_i64_or_zero, push_all, push_str_chars,
    spec_has_prefix, spec_parse_i64_or0, string_from_chars, views_of,
};

verus! {

// ---------------------------------------------------------------------------
// RSP-QL parsing
//
// The query is read line by line. `REGISTER <op> <name> AS` names the output;
// `FROM NAMED WINDOW <w> ON STREAM <s> [RANGE w STEP s]` defines a window;
// `PREFIX p: <iri>` lines fill the prefix table; every other line (with a
// leading `WINDOW` keyword rewritten to `GRAPH`) joins the SPARQL text.
// ---------------------------------------------------------------------------

/// Looks a prefix up; the latest declaration wins.
pub open spec fn spec_lookup_prefix(
    ps: Seq<(Seq<char>, Seq<char>)>,
    name: Seq<char>,
) -> Option<Seq<char>>
    decreases ps.len(),
{
    if ps.len() == 0 {
        None
    } else if ps.last().0 == name {
        Some(ps.last().1)
    } else {
        spec_lookup_prefix(ps.drop_last(), name)
    }
}

/// Resolves a window or stream name: `<iri>` is unwrapped; `p:local` expands
/// through the prefix table; anything else resolves to the empty string.
pub open spec fn spec_unwrap_name(t: Seq<char>, ps: Seq<(Seq<char>, Seq<char>)>) -> Seq<char> {
    let tt = spec_trim(t);
    if tt.len() >= 2 && tt[0] == '<' && tt[tt.len() - 1] == '>' {
        tt.subrange(1, tt.len() - 1)
    } else {
        let k = crate::parsing::tokens::spec_find_from(tt, 0, ':');
        if k < tt.len() && crate::parsing::tokens::spec_find_from(tt, k + 1, ':') == tt.len() {
            match spec_lookup_prefix(ps, tt.subrange(0, k)) {
                Some(iri) => iri + tt.subrange(k + 1, tt.len() as int),
                None => Seq::empty(),
            }
        } else {
            Seq::empty()
        }
    }
}

/// `PREFIX p: <iri>` read from a trimmed line.
pub open spec fn spec_prefix_of_line(t: Seq<char>) -> Option<(Seq<char>, Seq<char>)> {
    if !spec_has_prefix(t, "PREFIX"@) {
        None
    } else {
        let tk = spec_tokens(t);
        if tk.len() >= 3 && tk[0] == "PREFIX"@ && tk[1].len() >= 1 && tk[1][tk[1].len() - 1]
            == ':' && tk[2].len() >= 2 && tk[2][0] == '<' && tk[2][tk[2].len() - 1] == '>' {
            Some((tk[1].drop_last(), tk[2].subrange(1, tk[2].len() - 1)))
        } else {
            None
        }
    }
}

pub open spec fn spec_is_register_line(t: Seq<char>) -> bool {
    spec_has_prefix(t, "REGISTER"@)
}

pub open spec fn spec_is_window_line(t: Seq<char>) -> bool {
    spec_has_prefix(t, "FROM NAMED WINDOW"@)
}

/// The window defined by a trimmed `FROM NAMED WINDOW` line, under the
/// prefixes seen so far. A width or slide that is not a decimal number
/// counts as 0.
pub open spec fn spec_window_of_line(
    t: Seq<char>,
    ps: Seq<(Seq<char>, Seq<char>)>,
) -> Option<WindowView> {
    if !spec_is_window_line(t) {
        None
    } else {
        let tk = spec_tokens(t);
        if tk.len() >= 11 && tk[0] == "FROM"@ && tk[1] == "NAMED"@ && tk[2] == "WINDOW"@ && tk[4]
            == "ON"@ && tk[5] == "STREAM"@ && tk[7] == "[RANGE"@ && tk[9] == "STEP"@ && tk[
            10].len() >= 1 && tk[10][tk[10].len() - 1] == ']' {
            Some(
                WindowView {
                    window_name: spec_unwrap_name(tk[3], ps),
                    stream_name: spec_unwrap_name(tk[6], ps),
                    width: spec_parse_i64_or0(tk[8]),
                    slide: spec_parse_i64_or0(tk[10].drop_last()),
                },
            )
        } else {
            None
        }
    }
}

/// The prefix table after the first `i` lines.
pub open spec fn spec_prefixes_at(ls: Seq<Seq<char>>, i: int) -> Seq<(Seq<char>, Seq<char>)>
    decreases i,
{
    if i <= 0 || i > ls.len() {
        Seq::empty()
    } else {
        let pre = spec_prefixes_at(ls, i - 1);
        let t = spec_trim(ls[i - 1]);
        if spec_is_register_line(t) || spec_is_window_line(t) {
            pre
        } else {
            match spec_prefix_of_line(t) {
                Some(p) => pre.push(p),
                None => pre,
            }
        }
    }
}

/// The windows defined by the first `i` lines.
pub open spec fn spec_windows_at(ls: Seq<Seq<char>>, i: int) -> Seq<WindowView>
    decreases i,
{
    if i <= 0 || i > ls.len() {
        Seq::empty()
    } else {
        let pre = spec_windows_at(ls, i - 1);
        let t = spec_trim(ls[i - 1]);
        if spec_is_register_line(t) {
            pre
        } else {
            match spec_window_of_line(t, spec_prefixes_at(ls, i - 1)) {
                Some(w) => pre.push(w),
                None => pre,
            }
        }
    }
}

/// The operator a token names.
pub open spec fn spec_parse_operator(t: Seq<char>) -> Option<Operator> {
    if t == "RStream"@ {
        Some(Operator::RStream)
    } else if t == "IStream"@ {
        Some(Operator::IStream)
    } else if t == "DStream"@ {
        Some(Operator::DStream)
    } else {
        None
    }
}

/// The output registration of a trimmed `REGISTER` line:
/// `REGISTER <op> <name> AS` with an angle-wrapped name.
pub open spec fn spec_register_of_line(t: Seq<char>) -> Option<(Operator, Seq<char>)> {
    if !spec_is_register_line(t) {
        None
    } else {
        let tk = spec_tokens(t);
        if tk.len() >= 4 && tk[0] == "REGISTER"@ && tk[3] == "AS"@ && tk[2].len() >= 2 && tk[2][0]
            == '<' && tk[2][tk[2].len() - 1] == '>' {
            match spec_parse_operator(tk[1]) {
                Some(op) => Some((op, tk[2].subrange(1, tk[2].len() - 1))),
                None => None,
            }
        } else {
            None
        }
    }
}

/// The registration in force after the first `i` lines (the last one wins);
/// `None` is the default `RStream`/`undefined`.
pub open spec fn spec_register_at(ls: Seq<Seq<char>>, i: int) -> Option<(Operator, Seq<char>)>
    decreases i,
{
    if i <= 0 || i > ls.len() {
        None
    } else {
        match spec_register_of_line(spec_trim(ls[i - 1])) {
            Some(r) => Some(r),
            None => spec_register_at(ls, i - 1),
        }
    }
}

/// A trimmed line as it joins the SPARQL text: a leading `WINDOW` keyword is
/// rewritten to `GRAPH`.
pub open spec fn spec_sparql_line(t: Seq<char>) -> Seq<char> {
    if spec_has_prefix(t, "WINDOW"@) {
        "GRAPH"@ + t.subrange(6, t.len() as int)
    } else {
        t
    }
}

/// The SPARQL lines collected from the first `i` lines: everything that is
/// neither a registration nor a window definition.
pub open spec fn spec_sparql_lines_at(ls: Seq<Seq<char>>, i: int) -> Seq<Seq<char>>
    decreases i,
{
    if i <= 0 || i > ls.len() {
        Seq::empty()
    } else {
        let pre = spec_sparql_lines_at(ls, i - 1);
        let t = spec_trim(ls[i - 1]);
        if spec_is_register_line(t) || spec_is_window_line(t) {
            pre
        } else {
            pre.push(spec_sparql_line(t))
        }
    }
}

/// Parser for RSP-QL queries.
pub struct RSPQLParser {
    pub rspql_query: String,
}

impl RSPQLParser {
    pub fn new(query: String) -> (r: Self)
        ensures
            r.rspql_query@ == query@,
    {
        Self { rspql_query: query }
    }

    /// Reads the registration, the windows, and the embedded SPARQL text out
    /// of the query, line by line.
    pub fn parse(&self) -> (r: ParsedQuery)
        ensures
            ({
                let ls = spec_lines(self.rspql_query@);
                &&& window_views(r.s2r@) == spec_windows_at(ls, ls.len() as int)
                &&& r.sparql_query@ == spec_join_nl(spec_sparql_lines_at(ls, ls.len() as int))
                &&& match spec_register_at(ls, ls.len() as int) {
                    Some((op, name)) => r.r2s.operator == op && r.r2s.name@ == name,
                    None => r.r2s.operator is RStream && r.r2s.name@ == "undefined"@,
                }
            }),
    {
        let q = chars_of(self.rspql_query.as_str());
        let lines = lines_of(&q);
        let ghost ls = spec_lines(self.rspql_query@);
        let mut parsed = ParsedQuery::new(string_from_chars(&Vec::new()));
        let mut sparql_lines: Vec<Vec<char>> = Vec::new();
        let mut prefixes: Vec<(Vec<char>, Vec<char>)> = Vec::new();
        let mut i: usize = 0;
        proof {
            assert(prefix_views(prefixes@) =~= spec_prefixes_at(ls, 0));
            assert(window_views(parsed.s2r@) =~= spec_windows_at(ls, 0));
            assert(views_of(sparql_lines@) =~= spec_sparql_lines_at(ls, 0));
        }
        while i < lines.len()
            invariant
                views_of(lines@) == ls,
                i <= lines@.len(),
                prefix_views(prefixes@) == spec_prefixes_at(ls, i as int),
                window_views(parsed.s2r@) == spec_windows_at(ls, i as int),
                views_of(sparql_lines@) == spec_sparql_lines_at(ls, i as int),
                match spec_register_at(ls, i as int) {
                    Some((op, name)) => parsed.r2s.operator == op && parsed.r2s.name@ == name,
                    None => parsed.r2s.operator is RStream && parsed.r2s.name@ == "undefined"@,
                },
            decreases lines@.len() - i,
        {
            proof {
                assert(views_of(lines@)[i as int] == lines@[i as int]@);
            }
            let t = trim_chars(&lines[i]);
            if crate::text::has_prefix(&t, "REGISTER") {
                match register_of_line(&t) {
                    Some((op, name)) => {
                        parsed.set_r2s(op, string_from_chars(&name));
                    },
                    None => {},
                }
                proof {
                    assert(spec_windows_at(ls, i + 1) =~= spec_windows_at(ls, i as int));
                    assert(spec_prefixes_at(ls, i + 1) =~= spec_prefixes_at(ls, i as int));
                    assert(spec_sparql_lines_at(ls, i + 1) =~= spec_sparql_lines_at(
                        ls, i as int));
                }
            } else if crate::text::has_prefix(&t, "FROM NAMED WINDOW") {
                match window_of_line(&t, &prefixes) {
                    Some(w) => {
                        parsed.add_s2r_window(w);
                        proof {
                            assert(window_views(parsed.s2r@) =~= spec_windows_at(ls, i + 1));
                        }
                    },
                    None => {
                        proof {
                            assert(spec_windows_at(ls, i + 1) =~= spec_windows_at(
                                ls, i as int));
                        }
                    },
                }
                proof {
                    assert(spec_prefixes_at(ls, i + 1) =~= spec_prefixes_at(ls, i as int));
                    assert(spec_sparql_lines_at(ls, i + 1) =~= spec_sparql_lines_at(
                        ls, i as int));
                    assert(spec_register_at(ls, i + 1) == spec_register_at(ls, i as int));
                }
            } else {
                let sline = if crate::text::has_prefix(&t, "WINDOW") {
                    proof {
                        reveal_strlit("WINDOW");
                    }
                    let mut g = chars_of("GRAPH");
                    let rest = sub_chars(&t, 6, t.len());
                    push_all(&mut g, &rest);
                    g
                } else {
                    copy_chars(&t)
                };
                proof {
                    assert(sline@ == spec_sparql_line(spec_trim(ls[i as int])));
                }
                match prefix_of_line(&t) {
                    Some((name, iri)) => {
                        prefixes.push((name, iri));
                        proof {
                            assert(prefix_views(prefixes@) =~= spec_prefixes_at(ls, i + 1));
                        }
                    },
                    None => {
                        proof {
                            assert(spec_prefixes_at(ls, i + 1) =~= spec_prefixes_at(
                                ls, i as int));
                        }
                    },
                }
                sparql_lines.push(sline);
                proof {
                    assert(views_of(sparql_lines@) =~= spec_sparql_lines_at(ls, i + 1));
                    assert(spec_windows_at(ls, i + 1) =~= spec_windows_at(ls, i as int));
                    assert(spec_register_at(ls, i + 1) == spec_register_at(ls, i as int));
                }
            }
            i = i + 1;
        }
        let joined = join_lines(&sparql_lines);
        parsed.set_sparql_query(string_from_chars(&joined));
        parsed
    }

    /// The operator a token names (`RStream`, `IStream` or `DStream`).
    pub fn parse_operator(op_str: &Vec<char>) -> (r: Option<Operator>)
        ensures
            r == spec_parse_operator(op_str@),
    {
        if chars_eq_str(op_str, "RStream") {
            Some(Operator::RStream)
        } else if chars_eq_str(op_str, "IStream") {
            Some(Operator::IStream)
        } else if chars_eq_str(op_str, "DStream") {
            Some(Operator::DStream)
        } else {
            None
        }
    }

    /// Resolves a possibly prefixed name against the prefix table.
    pub fn unwrap(prefixed_iri: &Vec<char>, prefixes: &Vec<(Vec<char>, Vec<char>)>) -> (r: Vec<
        char,
    >)
        ensures
            r@ == spec_unwrap_name(prefixed_iri@, prefix_views(prefixes@)),
    {
        let tt = trim_chars(prefixed_iri);
        if tt.len() >= 2 && tt[0] == '<' && tt[tt.len() - 1] == '>' {
            sub_chars(&tt, 1, tt.len() - 1)
        } else {
            let k = crate::parsing::tokens::find_from(&tt, 0, ':');
            if k < tt.len() && crate::parsing::tokens::find_from(&tt, k + 1, ':')
                == tt.len() {
                match lookup_prefix(prefixes, &tt, 0, k) {
                    Some(iri) => {
                        let mut r = copy_chars(iri);
                        let local = sub_chars(&tt, k + 1, tt.len());
                        push_all(&mut r, &local);
                        r
                    },
                    None => Vec::new(),
                }
            } else {
                Vec::new()
            }
        }
    }
}

/// The views of a prefix table.
pub open spec fn prefix_views(ps: Seq<(Vec<char>, Vec<char>)>) -> Seq<(Seq<char>, Seq<char>)> {
    ps.map_values(|p: (Vec<char>, Vec<char>)| (p.0@, p.1@))
}

/// Looks up a prefix name given as `key[from..to]`; the latest declaration
/// wins.
pub(crate) fn lookup_prefix<'a>(
    ps: &'a Vec<(Vec<char>, Vec<char>)>,
    key: &Vec<char>,
    from: usize,
    to: usize,
) -> (r: Option<&'a Vec<char>>)
    requires
        from <= to <= key@.len(),
    ensures
        ({
            let spec_r = spec_lookup_prefix(prefix_views(ps@), key@.subrange(
                from as int, to as int));
            match r {
                Some(v) => spec_r == Some(v@),
                None => spec_r is None,
            }
        }),
{
    let name = sub_chars(key, from, to);
    let mut i: usize = ps.len();
    proof {
        assert(prefix_views(ps@).subrange(0, ps@.len() as int) =~= prefix_views(ps@));
    }
    while i > 0
        invariant
            i <= ps@.len(),
            name@ == key@.subrange(from as int, to as int),
            spec_lookup_prefix(prefix_views(ps@), name@) == spec_lookup_prefix(
                prefix_views(ps@).subrange(0, i as int),
                name@,
            ),
        decreases i,
    {
        proof {
            assert(prefix_views(ps@).subrange(0, i as int).last() == (ps@[i - 1].0@, ps@[
                i - 1].1@));
            assert(prefix_views(ps@).subrange(0, i as int).drop_last() =~= prefix_views(
                ps@).subrange(0, i - 1));
        }
        if crate::text::chars_eq(&ps[i - 1].0, &name) {
            return Some(&ps[i - 1].1);
        }
        i = i - 1;
    }
    proof {
        assert(prefix_views(ps@).subrange(0, 0) =~= Seq::<(Seq<char>, Seq<char>)>::empty());
    }
    None
}

/// Reads `PREFIX p: <iri>` from a trimmed line.
pub(crate) fn prefix_of_line(t: &Vec<char>) -> (r: Option<(Vec<char>, Vec<char>)>)
    ensures
        ({
            let spec_r = spec_prefix_of_line(t@);
            match r {
                Some(p) => spec_r == Some((p.0@, p.1@)),
                None => spec_r is None,
            }
        }),
{
    if !crate::text::has_prefix(t, "PREFIX") {
        return None;
    }
    let tk = tokens_of(t);
    let ghost tkv = spec_tokens(t@);
    if tk.len() >= 3 {
        proof {
            assert(tkv[0] == tk@[0]@);
            assert(tkv[1] == tk@[1]@);
            assert(tkv[2] == tk@[2]@);
        }
        let t0 = &tk[0];
        let t1 = &tk[1];
        let t2 = &tk[2];
        if chars_eq_str(t0, "PREFIX") && t1.len() >= 1 && t1[t1.len() - 1] == ':' && t2.len() >= 2
            && t2[0] == '<' && t2[t2.len() - 1] == '>' {
            let name = sub_chars(t1, 0, t1.len() - 1);
            let iri = sub_chars(t2, 1, t2.len() - 1);
            proof {
                assert(name@ =~= tkv[1].drop_last());
            }
            return Some((name, iri));
        }
        return None;
    }
    None
}

/// Reads a window definition from a trimmed `FROM NAMED WINDOW` line.
pub(crate) fn window_of_line(t: &Vec<char>, prefixes: &Vec<(Vec<char>, Vec<char>)>) -> (r:
    Option<WindowDefinition>)
    ensures
        ({
            let spec_r = spec_window_of_line(t@, prefix_views(prefixes@));
            match r {
                Some(w) => spec_r == Some(w@),
                None => spec_r is None,
            }
        }),
{
    if !crate::text::has_prefix(t, "FROM NAMED WINDOW") {
        return None;
    }
    let tk = tokens_of(t);
    let ghost tkv = spec_tokens(t@);
    if tk.len() >= 11 {
        proof {
            assert forall|j: int| 0 <= j < 11 implies tkv[j] == tk@[j]@ by {}
        }
        let ok = chars_eq_str(&tk[0], "FROM") && chars_eq_str(&tk[1], "NAMED") && chars_eq_str(
            &tk[2],
            "WINDOW",
        ) && chars_eq_str(&tk[4], "ON") && chars_eq_str(&tk[5], "STREAM") && chars_eq_str(
            &tk[7],
            "[RANGE",
        ) && chars_eq_str(&tk[9], "STEP") && tk[10].len() >= 1 && tk[10][tk[10].len() - 1] == ']';
        if ok {
            let window_name = RSPQLParser::unwrap(&tk[3], prefixes);
            let stream_name = RSPQLParser::unwrap(&tk[6], prefixes);
            let width = parse_i64_or_zero(&tk[8]);
            let slide_tok = sub_chars(&tk[10], 0, tk[10].len() - 1);
            proof {
                assert(slide_tok@ =~= tkv[10].drop_last());
            }
            let slide = parse_i64_or_zero(&slide_tok);
            return Some(
                WindowDefinition {
                    window_name: string_from_chars(&window_name),
                    stream_name: string_from_chars(&stream_name),
                    width,
                    slide,
                },
            );
        }
        return None;
    }
    None
}

/// Reads `REGISTER <op> <name> AS` from a trimmed line.
pub(crate) fn register_of_line(t: &Vec<char>) -> (r: Option<(Operator, Vec<char>)>)
    ensures
        ({
            let spec_r = spec_register_of_line(t@);
            match r {
                Some(p) => spec_r == Some((p.0, p.1@)),
                None => spec_r is None,
            }
        }),
{
    if !crate::text::has_prefix(t, "REGISTER") {
        return None;
    }
    let tk = tokens_of(t);
    let ghost tkv = spec_tokens(t@);
    if tk.len() >= 4 {
        proof {
            assert forall|j: int| 0 <= j < 4 implies tkv[j] == tk@[j]@ by {}
        }
        let t2 = &tk[2];
        if chars_eq_str(&tk[0], "REGISTER") && chars_eq_str(&tk[3], "AS") && t2.len() >= 2 && t2[0]
            == '<' && t2[t2.len() - 1] == '>' {
            match RSPQLParser::parse_operator(&tk[1]) {
                Some(op) => {
                    let name = sub_chars(t2, 1, t2.len() - 1);
                    return Some((op, name));
                },
                None => {
                    return None;
                },
            }
        }
        return None;
    }
    None
}

} // verus!
