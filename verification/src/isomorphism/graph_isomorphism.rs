use vstd::prelude::*;

use crate::error::TulnaError;
use crate::isomorphism::assoc::{
    hash_keys, lemma_hash_map_dom, lemma_hash_map_entry, HashAssoc, NodePairs,
};
use crate::isomorphism::query_core::{view_bgp, Triple, TripleNode};
use crate::isomorphism::model::{
    enc_blank, enc_iri, enc_literal, enc_var, first_index, graph_blanks, node_upd_vars,
    node_valid, norm_node, norm_triple_at, spec_is_blank, spec_normalize, triple_has_blank,
    triple_mentions_blank, triple_upd_vars, triple_valid, vars_at, NodeView, NTripleView,
};
use crate::text::{
    chars_eq, chars_of, copy_chars, dec_chars, push_str_chars, push_all, string_from_chars,
    views_of,
};
use vstd::string::StrSliceExecFns;

verus! {

// ---------------------------------------------------------------------------
// Normalized triples
// ---------------------------------------------------------------------------

/// A triple in the engine's normalized string encoding:
/// `<iri>`, `"literal"`, and `_:` prefixed identifiers for unlabeled terms.
#[derive(Debug, Clone)]
pub struct NormalizedTriple {
    pub subject: String,
    pub predicate: String,
    pub object: String,
}

impl View for NormalizedTriple {
    type V = NTripleView;

    open spec fn view(&self) -> NTripleView {
        NTripleView { s: self.subject@, p: self.predicate@, o: self.object@ }
    }
}

/// The working representation of a normalized triple: character vectors.
pub struct CTriple {
    pub s: Vec<char>,
    pub p: Vec<char>,
    pub o: Vec<char>,
}

impl View for CTriple {
    type V = NTripleView;

    open spec fn view(&self) -> NTripleView {
        NTripleView { s: self.s@, p: self.p@, o: self.o@ }
    }
}

/// The views of a sequence of working triples.
pub open spec fn gviews(g: Seq<CTriple>) -> Seq<NTripleView> {
    g.map_values(|t: CTriple| t@)
}

/// The views of a sequence of strings.
pub open spec fn string_views(v: Seq<String>) -> Seq<Seq<char>> {
    v.map_values(|s: String| s@)
}

/// The views of a sequence of normalized triples.
pub open spec fn nviews(g: Seq<NormalizedTriple>) -> Seq<NTripleView> {
    g.map_values(|t: NormalizedTriple| t@)
}

/// Decides whether an encoded term is unlabeled (starts with `_:`).
fn is_blank_chars(t: &Vec<char>) -> (r: bool)
    ensures
        r == spec_is_blank(t@),
{
    t.len() >= 2 && t[0] == '_' && t[1] == ':'
}

/// Decides whether a string is `_:` prefixed.
fn is_blank_str(s: &str) -> (r: bool)
    ensures
        r == spec_is_blank(s@),
{
    s.unicode_len() >= 2 && s.get_char(0) == '_' && s.get_char(1) == ':'
}

fn ctriple_of(t: &NormalizedTriple) -> (r: CTriple)
    ensures
        r@ == t@,
{
    CTriple {
        s: chars_of(t.subject.as_str()),
        p: chars_of(t.predicate.as_str()),
        o: chars_of(t.object.as_str()),
    }
}

fn ctriples_of(g: &Vec<NormalizedTriple>) -> (r: Vec<CTriple>)
    ensures
        gviews(r@) == nviews(g@),
{
    let mut r: Vec<CTriple> = Vec::new();
    let mut i: usize = 0;
    while i < g.len()
        invariant
            i <= g@.len(),
            r@.len() == i,
            forall|j: int| 0 <= j < i ==> #[trigger] r@[j]@ == g@[j]@,
        decreases g@.len() - i,
    {
        let c = ctriple_of(&g[i]);
        r.push(c);
        i = i + 1;
    }
    proof {
        assert forall|j: int| 0 <= j < g@.len() implies gviews(r@)[j] == nviews(g@)[j] by {
            assert(r@[j]@ == g@[j]@);
        }
        assert(gviews(r@) =~= nviews(g@));
    }
    r
}

fn ctriple_eq(a: &CTriple, b: &CTriple) -> (r: bool)
    ensures
        r == (a@ == b@),
{
    let r = chars_eq(&a.s, &b.s) && chars_eq(&a.p, &b.p) && chars_eq(&a.o, &b.o);
    r
}

fn has_blank_triple(t: &CTriple) -> (r: bool)
    ensures
        r == triple_has_blank(t@),
{
    is_blank_chars(&t.s) || is_blank_chars(&t.p) || is_blank_chars(&t.o)
}

fn copy_ctriple(t: &CTriple) -> (r: CTriple)
    ensures
        r@ == t@,
{
    CTriple { s: copy_chars(&t.s), p: copy_chars(&t.p), o: copy_chars(&t.o) }
}

/// Linear membership test for a triple in a graph.
fn contains_triple(g: &Vec<CTriple>, t: &CTriple) -> (r: bool)
    ensures
        r == gviews(g@).contains(t@),
{
    let mut i: usize = 0;
    while i < g.len()
        invariant
            i <= g@.len(),
            forall|j: int| 0 <= j < i ==> #[trigger] gviews(g@)[j] != t@,
        decreases g@.len() - i,
    {
        if ctriple_eq(&g[i], t) {
            proof {
                assert(gviews(g@)[i as int] == t@);
            }
            return true;
        }
        i = i + 1;
    }
    proof {
        if gviews(g@).contains(t@) {
            let j = choose|j: int| 0 <= j < gviews(g@).len() && gviews(g@)[j] == t@;
            assert(gviews(g@)[j] == t@);
        }
    }
    false
}

// ---------------------------------------------------------------------------
// Validation of inputs
// ---------------------------------------------------------------------------

fn node_valid_exec(n: &TripleNode) -> (r: bool)
    ensures
        r == node_valid(n@),
{
    match n {
        TripleNode::IRI(s) => !is_blank_str(s.as_str()),
        TripleNode::Literal(s) => !is_blank_str(s.as_str()),
        TripleNode::Variable(_) => true,
        TripleNode::BlankNode(_) => true,
    }
}

/// Checks the input contract: no IRI or literal payload begins with `_:`.
pub(crate) fn bgp_valid_exec(bgp: &Vec<Triple>) -> (r: bool)
    ensures
        r == crate::isomorphism::model::bgp_valid(view_bgp(bgp@)),
{
    let mut i: usize = 0;
    while i < bgp.len()
        invariant
            i <= bgp@.len(),
            forall|j: int| 0 <= j < i ==> triple_valid(#[trigger] view_bgp(bgp@)[j]),
        decreases bgp@.len() - i,
    {
        let t = &bgp[i];
        if !(node_valid_exec(&t.subject) && node_valid_exec(&t.predicate) && node_valid_exec(
            &t.object,
        )) {
            proof {
                assert(!triple_valid(view_bgp(bgp@)[i as int]));
            }
            return false;
        }
        proof {
            assert(triple_valid(view_bgp(bgp@)[i as int]));
        }
        i = i + 1;
    }
    true
}

// ---------------------------------------------------------------------------
// Normalization: variables become `_:v<k>` in first-occurrence order,
// blank nodes keep their id under `_:u`, IRIs and literals are wrapped.
// ---------------------------------------------------------------------------

/// Renders a number in decimal (for variable numbering).
fn dec_chars_usize(n: usize) -> (r: Vec<char>)
    ensures
        r@ == crate::text::spec_dec(n as nat),
    decreases n,
{
    if n < 10 {
        let d: u64 = if n == 0 { 0 } else if n == 1 { 1 } else if n == 2 { 2 } else if n == 3 {
            3
        } else if n == 4 { 4 } else if n == 5 { 5 } else if n == 6 { 6 } else if n == 7 {
            7
        } else if n == 8 { 8 } else { 9 };
        let r = dec_chars(d);
        proof {
            assert(crate::text::spec_dec(n as nat) == crate::text::spec_dec(d as nat));
        }
        r
    } else {
        let mut r = dec_chars_usize(n / 10);
        let m = n % 10;
        let d: u64 = if m == 0 { 0 } else if m == 1 { 1 } else if m == 2 { 2 } else if m == 3 {
            3
        } else if m == 4 { 4 } else if m == 5 { 5 } else if m == 6 { 6 } else if m == 7 {
            7
        } else if m == 8 { 8 } else { 9 };
        r.push(crate::text::digit_char(d));
        proof {
            assert(crate::text::spec_digit_char(d as nat) == crate::text::spec_digit_char(
                (n as nat) % 10));
        }
        r
    }
}

/// Normalizes one node, threading the list of variables seen so far.
fn normalize_node_chars(node: &TripleNode, vars: &mut Vec<Vec<char>>) -> (r: Vec<char>)
    requires
        views_of(old(vars)@).no_duplicates(),
    ensures
        views_of(final(vars)@).no_duplicates(),
        r@ == norm_node(views_of(old(vars)@), node@),
        views_of(final(vars)@) == node_upd_vars(views_of(old(vars)@), node@),
{
    match node {
        TripleNode::IRI(s) => {
            let mut r: Vec<char> = Vec::new();
            r.push('<');
            push_str_chars(&mut r, s.as_str());
            r.push('>');
            proof {
                assert(r@ =~= enc_iri(s@));
            }
            r
        },
        TripleNode::Literal(s) => {
            let mut r: Vec<char> = Vec::new();
            r.push('"');
            push_str_chars(&mut r, s.as_str());
            r.push('"');
            proof {
                assert(r@ =~= enc_literal(s@));
            }
            r
        },
        TripleNode::BlankNode(id) => {
            let mut r: Vec<char> = Vec::new();
            r.push('_');
            r.push(':');
            r.push('u');
            push_str_chars(&mut r, id.as_str());
            proof {
                assert(r@ =~= enc_blank(id@));
            }
            r
        },
        TripleNode::Variable(v) => {
            let vc = chars_of(v.as_str());
            let ghost vlist = views_of(vars@);
            // find the first occurrence of this variable name
            let mut i: usize = 0;
            let mut found = false;
            while !found && i < vars.len()
                invariant
                    i <= vars@.len(),
                    vlist == views_of(vars@),
                    vc@ == v@,
                    forall|j: int| 0 <= j < i ==> #[trigger] vlist[j] != vc@,
                    found ==> i < vars@.len() && vlist[i as int] == vc@,
                decreases vars@.len() - i, (if found { 0int } else { 1int }),
            {
                if crate::text::chars_eq(&vars[i], &vc) {
                    proof {
                        assert(vlist[i as int] == vc@);
                    }
                    found = true;
                } else {
                    i = i + 1;
                }
            }
            let k: usize = if found {
                proof {
                    crate::isomorphism::model::lemma_first_index(vlist, vc@, i as int);
                    assert(vlist.contains(vc@));
                }
                i
            } else {
                proof {
                    if vlist.contains(vc@) {
                        let j = choose|j: int| 0 <= j < vlist.len() && vlist[j] == vc@;
                        assert(vlist[j] == vc@);
                    }
                }
                let n = vars.len();
                vars.push(vc);
                proof {
                    assert(views_of(vars@) =~= vlist.push(v@));
                    assert forall|p: int, q: int|
                        0 <= p < q < views_of(vars@).len() implies views_of(vars@)[p] != views_of(
                        vars@)[q] by {
                        if q == views_of(vars@).len() - 1 {
                            assert(views_of(vars@)[p] == vlist[p]);
                        }
                    }
                }
                n
            };
            let mut r: Vec<char> = Vec::new();
            r.push('_');
            r.push(':');
            r.push('v');
            let digits = dec_chars_usize(k);
            push_all(&mut r, &digits);
            proof {
                assert(r@ =~= enc_var(k as nat));
            }
            r
        },
    }
}

// ---------------------------------------------------------------------------
// Whole-pattern normalization
// ---------------------------------------------------------------------------

/// Normalizes a graph pattern to its canonical string form.
///
/// Variables are replaced by `_:v<k>` identifiers numbered in first-occurrence
/// order over the scan (subject, predicate, object, next triple); blank nodes
/// keep their id under `_:u`; IRIs and literals are wrapped in `<>` and `""`.
fn normalize_pattern(bgp: &Vec<Triple>) -> (r: Vec<NormalizedTriple>)
    ensures
        nviews(r@) == spec_normalize(view_bgp(bgp@)),
{
    let ghost ts = view_bgp(bgp@);
    let mut vars: Vec<Vec<char>> = Vec::new();
    let mut r: Vec<NormalizedTriple> = Vec::new();
    let mut i: usize = 0;
    proof {
        assert(views_of(vars@) =~= vars_at(ts, 0));
    }
    while i < bgp.len()
        invariant
            ts == view_bgp(bgp@),
            i <= bgp@.len(),
            r@.len() == i,
            views_of(vars@).no_duplicates(),
            views_of(vars@) == vars_at(ts, i as int),
            forall|j: int| 0 <= j < i ==> #[trigger] r@[j]@ == norm_triple_at(ts, j),
        decreases bgp@.len() - i,
    {
        let t = &bgp[i];
        proof {
            assert(ts[i as int] == bgp@[i as int]@);
        }
        let cs = normalize_node_chars(&t.subject, &mut vars);
        let cp = normalize_node_chars(&t.predicate, &mut vars);
        let co = normalize_node_chars(&t.object, &mut vars);
        let nt = NormalizedTriple {
            subject: string_from_chars(&cs),
            predicate: string_from_chars(&cp),
            object: string_from_chars(&co),
        };
        proof {
            assert(nt@ == norm_triple_at(ts, i as int));
            assert(views_of(vars@) == triple_upd_vars(vars_at(ts, i as int), ts[i as int]));
        }
        r.push(nt);
        i = i + 1;
    }
    proof {
        assert forall|j: int| 0 <= j < ts.len() implies nviews(r@)[j] == spec_normalize(ts)[j] by {
            assert(r@[j]@ == norm_triple_at(ts, j));
        }
        assert(nviews(r@) =~= spec_normalize(ts));
    }
    r
}

// ---------------------------------------------------------------------------
// Ground split
// ---------------------------------------------------------------------------

/// The subsequence of triples with at least one unlabeled position.
pub open spec fn blank_part(g: Seq<NTripleView>) -> Seq<NTripleView>
    decreases g.len(),
{
    if g.len() == 0 {
        Seq::empty()
    } else if triple_has_blank(g.last()) {
        blank_part(g.drop_last()).push(g.last())
    } else {
        blank_part(g.drop_last())
    }
}

/// The subsequence of triples with no unlabeled position.
pub open spec fn ground_part(g: Seq<NTripleView>) -> Seq<NTripleView>
    decreases g.len(),
{
    if g.len() == 0 {
        Seq::empty()
    } else if !triple_has_blank(g.last()) {
        ground_part(g.drop_last()).push(g.last())
    } else {
        ground_part(g.drop_last())
    }
}

/// Membership in the two parts of the split, and preservation of uniqueness.
pub proof fn lemma_split_parts(g: Seq<NTripleView>)
    ensures
        forall|t: NTripleView|
            #[trigger] blank_part(g).contains(t) <==> g.contains(t) && triple_has_blank(t),
        forall|t: NTripleView|
            #[trigger] ground_part(g).contains(t) <==> g.contains(t) && !triple_has_blank(t),
        g.no_duplicates() ==> blank_part(g).no_duplicates(),
        g.no_duplicates() ==> ground_part(g).no_duplicates(),
    decreases g.len(),
{
    if g.len() == 0 {
        assert forall|t: NTripleView| !(#[trigger] g.contains(t)) by {}
    } else {
        let d = g.drop_last();
        let l = g.last();
        lemma_split_parts(d);
        assert forall|t: NTripleView| #[trigger] g.contains(t) <==> d.contains(t) || t == l by {
            if g.contains(t) {
                let i = choose|i: int| 0 <= i < g.len() && g[i] == t;
                if i < g.len() - 1 {
                    assert(d[i] == t);
                }
            }
            if d.contains(t) {
                let i = choose|i: int| 0 <= i < d.len() && d[i] == t;
                assert(g[i] == t);
            }
            if t == l {
                assert(g[g.len() - 1] == t);
            }
        }
        if triple_has_blank(l) {
            assert forall|t: NTripleView|
                #[trigger] blank_part(g).contains(t) <==> blank_part(d).contains(t) || t == l by {
                let bp = blank_part(d).push(l);
                if bp.contains(t) {
                    let i = choose|i: int| 0 <= i < bp.len() && bp[i] == t;
                    if i < bp.len() - 1 {
                        assert(blank_part(d)[i] == t);
                    }
                }
                if blank_part(d).contains(t) {
                    let i = choose|i: int| 0 <= i < blank_part(d).len() && blank_part(d)[i] == t;
                    assert(bp[i] == t);
                }
                if t == l {
                    assert(bp[bp.len() - 1] == t);
                }
            }
            if g.no_duplicates() {
                assert(!d.contains(l)) by {
                    if d.contains(l) {
                        let i = choose|i: int| 0 <= i < d.len() && d[i] == l;
                        assert(g[i] == g[g.len() - 1]);
                    }
                }
                assert(!blank_part(d).contains(l));
                assert forall|p: int, q: int|
                    0 <= p < q < blank_part(g).len() implies blank_part(g)[p] != blank_part(
                    g)[q] by {
                    if q < blank_part(g).len() - 1 {
                        assert(blank_part(g)[p] == blank_part(d)[p]);
                        assert(blank_part(g)[q] == blank_part(d)[q]);
                    } else {
                        assert(blank_part(g)[q] == l);
                        assert(blank_part(g)[p] == blank_part(d)[p]);
                        assert(blank_part(d).contains(blank_part(d)[p]));
                    }
                }
            }
        } else {
            assert forall|t: NTripleView|
                #[trigger] ground_part(g).contains(t) <==> ground_part(d).contains(t) || t == l by {
                let gp = ground_part(d).push(l);
                if gp.contains(t) {
                    let i = choose|i: int| 0 <= i < gp.len() && gp[i] == t;
                    if i < gp.len() - 1 {
                        assert(ground_part(d)[i] == t);
                    }
                }
                if ground_part(d).contains(t) {
                    let i = choose|i: int| 0 <= i < ground_part(d).len() && ground_part(d)[i] == t;
                    assert(gp[i] == t);
                }
                if t == l {
                    assert(gp[gp.len() - 1] == t);
                }
            }
            if g.no_duplicates() {
                assert(!d.contains(l)) by {
                    if d.contains(l) {
                        let i = choose|i: int| 0 <= i < d.len() && d[i] == l;
                        assert(g[i] == g[g.len() - 1]);
                    }
                }
                assert(!ground_part(d).contains(l));
                assert forall|p: int, q: int|
                    0 <= p < q < ground_part(g).len() implies ground_part(g)[p] != ground_part(
                    g)[q] by {
                    if q < ground_part(g).len() - 1 {
                        assert(ground_part(g)[p] == ground_part(d)[p]);
                        assert(ground_part(g)[q] == ground_part(d)[q]);
                    } else {
                        assert(ground_part(g)[q] == l);
                        assert(ground_part(g)[p] == ground_part(d)[p]);
                        assert(ground_part(d).contains(ground_part(d)[p]));
                    }
                }
            }
        }
    }
}

/// Splits a graph into its blank-bearing and ground triples.
fn split_quads(g: &Vec<CTriple>) -> (r: (Vec<CTriple>, Vec<CTriple>))
    ensures
        gviews(r.0@) == blank_part(gviews(g@)),
        gviews(r.1@) == ground_part(gviews(g@)),
{
    let mut bq: Vec<CTriple> = Vec::new();
    let mut gq: Vec<CTriple> = Vec::new();
    let mut i: usize = 0;
    proof {
        assert(gviews(bq@) =~= blank_part(gviews(g@).subrange(0, 0)));
        assert(gviews(gq@) =~= ground_part(gviews(g@).subrange(0, 0)));
    }
    while i < g.len()
        invariant
            i <= g@.len(),
            gviews(bq@) == blank_part(gviews(g@).subrange(0, i as int)),
            gviews(gq@) == ground_part(gviews(g@).subrange(0, i as int)),
        decreases g@.len() - i,
    {
        let ghost pre = gviews(g@).subrange(0, i as int);
        let ghost post = gviews(g@).subrange(0, i + 1);
        proof {
            assert(post.drop_last() =~= pre);
            assert(post.last() == g@[i as int]@);
        }
        let c = copy_ctriple(&g[i]);
        if has_blank_triple(&c) {
            bq.push(c);
            proof {
                assert(gviews(bq@) =~= blank_part(post));
            }
        } else {
            gq.push(c);
            proof {
                assert(gviews(gq@) =~= ground_part(post));
            }
        }
        i = i + 1;
    }
    proof {
        assert(gviews(g@).subrange(0, g@.len() as int) =~= gviews(g@));
    }
    (bq, gq)
}

// ---------------------------------------------------------------------------
// Deduplication: graphs are sets of triples
// ---------------------------------------------------------------------------

/// Removes duplicate triples, keeping first occurrences in order.
fn dedup_graph(g: &Vec<CTriple>) -> (r: Vec<CTriple>)
    ensures
        gviews(r@).no_duplicates(),
        forall|t: NTripleView| #[trigger] gviews(r@).contains(t) <==> gviews(g@).contains(t),
{
    let mut r: Vec<CTriple> = Vec::new();
    let mut i: usize = 0;
    while i < g.len()
        invariant
            i <= g@.len(),
            gviews(r@).no_duplicates(),
            forall|t: NTripleView|
                #[trigger] gviews(r@).contains(t) <==> gviews(g@).subrange(0, i as int).contains(
                    t),
        decreases g@.len() - i,
    {
        let ghost pre = gviews(g@).subrange(0, i as int);
        let ghost post = gviews(g@).subrange(0, i + 1);
        let ghost old_r = r@;
        proof {
            assert forall|t: NTripleView| #[trigger] post.contains(t) <==> pre.contains(t) || t
                == g@[i as int]@ by {
                if post.contains(t) {
                    let j = choose|j: int| 0 <= j < post.len() && post[j] == t;
                    if j < post.len() - 1 {
                        assert(pre[j] == t);
                    }
                }
                if pre.contains(t) {
                    let j = choose|j: int| 0 <= j < pre.len() && pre[j] == t;
                    assert(post[j] == t);
                }
                if t == g@[i as int]@ {
                    assert(post[post.len() - 1] == t);
                }
            }
        }
        if !contains_triple(&r, &g[i]) {
            let c = copy_ctriple(&g[i]);
            r.push(c);
            proof {
                assert forall|t: NTripleView| #[trigger] gviews(r@).contains(t) <==> gviews(
                    old_r).contains(t) || t == g@[i as int]@ by {
                    if gviews(r@).contains(t) {
                        let j = choose|j: int| 0 <= j < gviews(r@).len() && gviews(r@)[j] == t;
                        if j < gviews(r@).len() - 1 {
                            assert(gviews(old_r)[j] == t);
                        }
                    }
                    if gviews(old_r).contains(t) {
                        let j = choose|j: int|
                            0 <= j < gviews(old_r).len() && gviews(old_r)[j] == t;
                        assert(gviews(r@)[j] == t);
                    }
                    if t == g@[i as int]@ {
                        assert(gviews(r@)[gviews(r@).len() - 1] == t);
                    }
                }
                assert forall|p: int, q: int|
                    0 <= p < q < gviews(r@).len() implies gviews(r@)[p] != gviews(r@)[q] by {
                    if q < gviews(r@).len() - 1 {
                        assert(gviews(old_r)[p] == gviews(r@)[p]);
                        assert(gviews(old_r)[q] == gviews(r@)[q]);
                    } else {
                        assert(gviews(r@)[p] == gviews(old_r)[p]);
                        assert(gviews(old_r).contains(gviews(old_r)[p]));
                        assert(gviews(r@)[q] == g@[i as int]@);
                    }
                }
            }
        }
        i = i + 1;
    }
    proof {
        assert(gviews(g@).subrange(0, g@.len() as int) =~= gviews(g@));
    }
    r
}

// ---------------------------------------------------------------------------
// The unlabeled identifiers of a graph (sorted, unique)
// ---------------------------------------------------------------------------

/// Collects the unlabeled identifiers of a graph, without duplicates, in
/// lexicographic order.
fn graph_blank_nodes(g: &Vec<CTriple>) -> (r: Vec<Vec<char>>)
    ensures
        views_of(r@).no_duplicates(),
        vstd::relations::sorted_by(views_of(r@), crate::text::lex_leq_fn()),
        forall|t: Seq<char>|
            #[trigger] views_of(r@).contains(t) <==> graph_blanks(gviews(g@)).contains(t),
{
    let mut acc: Vec<Vec<char>> = Vec::new();
    let mut i: usize = 0;
    while i < g.len()
        invariant
            i <= g@.len(),
            views_of(acc@).no_duplicates(),
            forall|t: Seq<char>|
                #[trigger] views_of(acc@).contains(t) <==> exists|j: int|
                    0 <= j < i && triple_mentions_blank(#[trigger] gviews(g@)[j], t),
        decreases g@.len() - i,
    {
        let c = &g[i];
        proof {
            assert(gviews(g@)[i as int] == g@[i as int]@);
        }
        if is_blank_chars(&c.s) && !crate::text::contains_chars(&acc, &c.s) {
            let ghost old_acc = acc@;
            acc.push(copy_chars(&c.s));
            proof {
                lemma_blank_push(old_acc, acc@, g@, i as int, g@[i as int]@.s);
            }
        }
        if is_blank_chars(&c.p) && !crate::text::contains_chars(&acc, &c.p) {
            let ghost old_acc = acc@;
            acc.push(copy_chars(&c.p));
            proof {
                lemma_blank_push(old_acc, acc@, g@, i as int, g@[i as int]@.p);
            }
        }
        if is_blank_chars(&c.o) && !crate::text::contains_chars(&acc, &c.o) {
            let ghost old_acc = acc@;
            acc.push(copy_chars(&c.o));
            proof {
                lemma_blank_push(old_acc, acc@, g@, i as int, g@[i as int]@.o);
            }
        }
        i = i + 1;
        proof {
            assert forall|t: Seq<char>| #[trigger] views_of(acc@).contains(t) implies exists|
                j: int| 0 <= j < i && triple_mentions_blank(#[trigger] gviews(g@)[j], t) by {}
            assert forall|t: Seq<char>|
                (exists|j: int|
                    0 <= j < i && triple_mentions_blank(#[trigger] gviews(g@)[j], t)) implies
                views_of(acc@).contains(t) by {
                let j = choose|j: int|
                    0 <= j < i && triple_mentions_blank(#[trigger] gviews(g@)[j], t);
                if j < i - 1 {
                } else {
                    assert(triple_mentions_blank(gviews(g@)[i - 1], t));
                }
            }
        }
    }
    let r = crate::text::sort_char_seqs(acc);
    proof {
        crate::text::lemma_lex_leq_total_ordering();
        views_of(acc@).lemma_sort_by_ensures(crate::text::lex_leq_fn());
        broadcast use vstd::seq_lib::group_to_multiset_ensures;

        assert forall|t: Seq<char>| #[trigger] views_of(r@).contains(t) <==> views_of(
            acc@).contains(t) by {
            assert(views_of(r@).to_multiset() == views_of(acc@).to_multiset());
            assert(views_of(r@).contains(t) <==> views_of(r@).to_multiset().count(t) > 0);
            assert(views_of(acc@).contains(t) <==> views_of(acc@).to_multiset().count(t) > 0);
        }
        views_of(acc@).lemma_multiset_has_no_duplicates();
        views_of(r@).lemma_multiset_has_no_duplicates_conv();
        assert forall|t: Seq<char>|
            #[trigger] views_of(r@).contains(t) <==> graph_blanks(gviews(g@)).contains(t) by {
            if graph_blanks(gviews(g@)).contains(t) {
                let j = choose|j: int|
                    0 <= j < gviews(g@).len() && triple_mentions_blank(#[trigger] gviews(g@)[j], t);
                assert(views_of(acc@).contains(t));
            }
        }
    }
    r
}

/// After pushing one unlabeled identifier of triple `i`, the accumulated
/// membership and uniqueness hold again.
proof fn lemma_blank_push(
    old_acc: Seq<Vec<char>>,
    new_acc: Seq<Vec<char>>,
    g: Seq<CTriple>,
    i: int,
    t: Seq<char>,
)
    requires
        0 <= i < g.len(),
        spec_is_blank(t),
        gviews(g)[i].s == t || gviews(g)[i].p == t || gviews(g)[i].o == t,
        views_of(old_acc).no_duplicates(),
        !views_of(old_acc).contains(t),
        new_acc.len() == old_acc.len() + 1,
        forall|j: int| 0 <= j < old_acc.len() ==> new_acc[j] == old_acc[j],
        new_acc[old_acc.len() as int]@ == t,
        forall|u: Seq<char>|
            #[trigger] views_of(old_acc).contains(u) ==> exists|j: int|
                0 <= j <= i && triple_mentions_blank(#[trigger] gviews(g)[j], u),
    ensures
        views_of(new_acc).no_duplicates(),
        forall|u: Seq<char>|
            #[trigger] views_of(new_acc).contains(u) <==> views_of(old_acc).contains(u) || u == t,
        forall|u: Seq<char>|
            #[trigger] views_of(new_acc).contains(u) ==> exists|j: int|
                0 <= j <= i && triple_mentions_blank(#[trigger] gviews(g)[j], u),
{
    assert forall|u: Seq<char>|
        #[trigger] views_of(new_acc).contains(u) <==> views_of(old_acc).contains(u) || u == t by {
        if views_of(new_acc).contains(u) {
            let j = choose|j: int| 0 <= j < views_of(new_acc).len() && views_of(new_acc)[j] == u;
            if j < new_acc.len() - 1 {
                assert(views_of(old_acc)[j] == u);
            }
        }
        if views_of(old_acc).contains(u) {
            let j = choose|j: int| 0 <= j < views_of(old_acc).len() && views_of(old_acc)[j] == u;
            assert(views_of(new_acc)[j] == u);
        }
        if u == t {
            assert(views_of(new_acc)[new_acc.len() - 1] == u);
        }
    }
    assert forall|p: int, q: int|
        0 <= p < q < views_of(new_acc).len() implies views_of(new_acc)[p] != views_of(
        new_acc)[q] by {
        if q < new_acc.len() - 1 {
            assert(views_of(old_acc)[p] == views_of(new_acc)[p]);
            assert(views_of(old_acc)[q] == views_of(new_acc)[q]);
        } else {
            assert(views_of(new_acc)[p] == views_of(old_acc)[p]);
            assert(views_of(old_acc).contains(views_of(old_acc)[p]));
            assert(views_of(new_acc)[q] == t);
        }
    }
    assert forall|u: Seq<char>| #[trigger] views_of(new_acc).contains(u) implies exists|j: int|
        0 <= j <= i && triple_mentions_blank(#[trigger] gviews(g)[j], u) by {
        if u == t {
            assert(triple_mentions_blank(gviews(g)[i], u));
        }
    }
}

// ---------------------------------------------------------------------------
// Signature hashing
//
// For a partial grounding `m`, the signature of a term is the hash of the
// lexicographically sorted signatures of the triples it occurs in, where the
// term itself renders as `@self`, grounded unlabeled terms render as the
// decimal of their hash, ungrounded unlabeled terms as `@blank`, and labeled
// terms as their encoding.
// ---------------------------------------------------------------------------

/// `q` has the term `t` in one of its three positions.
pub open spec fn mentions(q: NTripleView, t: Seq<char>) -> bool {
    q.s == t || q.p == t || q.o == t
}

/// The rendering of one position of a triple, seen from `target`.
pub open spec fn term_sig(m: Map<Seq<char>, u64>, target: Seq<char>, t: Seq<char>) -> Seq<char> {
    if t == target {
        "@self"@
    } else if spec_is_blank(t) {
        if m.dom().contains(t) {
            crate::text::spec_dec(m[t] as nat)
        } else {
            "@blank"@
        }
    } else {
        t
    }
}

/// The signature string of one triple, seen from `target`.
pub open spec fn quad_sig(m: Map<Seq<char>, u64>, target: Seq<char>, q: NTripleView) -> Seq<
    char,
> {
    term_sig(m, target, q.s) + seq!['|'] + term_sig(m, target, q.p) + seq!['|'] + term_sig(
        m, target, q.o)
}

/// The signatures of the triples that mention `target`, in graph order.
pub open spec fn incident_sigs(
    m: Map<Seq<char>, u64>,
    target: Seq<char>,
    quads: Seq<NTripleView>,
) -> Seq<Seq<char>>
    decreases quads.len(),
{
    if quads.len() == 0 {
        Seq::empty()
    } else if mentions(quads.last(), target) {
        incident_sigs(m, target, quads.drop_last()).push(quad_sig(m, target, quads.last()))
    } else {
        incident_sigs(m, target, quads.drop_last())
    }
}

/// Concatenation of a list of strings.
pub open spec fn concat_all(s: Seq<Seq<char>>) -> Seq<char>
    decreases s.len(),
{
    if s.len() == 0 {
        Seq::empty()
    } else {
        concat_all(s.drop_last()) + s.last()
    }
}

/// The canonical hash input for `target`: its incident signatures, sorted
/// lexicographically and concatenated.
pub open spec fn sig_input(
    m: Map<Seq<char>, u64>,
    target: Seq<char>,
    quads: Seq<NTripleView>,
) -> Seq<char> {
    concat_all(incident_sigs(m, target, quads).sort_by(crate::text::lex_leq_fn()))
}

/// The signature hash of `target` under the grounding `m`.
pub open spec fn spec_term_hash(
    m: Map<Seq<char>, u64>,
    target: Seq<char>,
    quads: Seq<NTripleView>,
) -> u64 {
    crate::hashing::spec_hash64(sig_input(m, target, quads))
}

/// A term counts as grounded when it is labeled or bound by `m`.
pub open spec fn term_grounded_in(m: Map<Seq<char>, u64>, t: Seq<char>) -> bool {
    !spec_is_blank(t) || m.dom().contains(t)
}

/// Every unlabeled term of `q` other than `target` is grounded.
pub open spec fn quad_neighbors_ok(
    m: Map<Seq<char>, u64>,
    target: Seq<char>,
    q: NTripleView,
) -> bool {
    mentions(q, target) ==> {
        &&& term_grounded_in(m, q.s) || q.s == target
        &&& term_grounded_in(m, q.p) || q.p == target
        &&& term_grounded_in(m, q.o) || q.o == target
    }
}

/// All neighbors of `target` over the whole graph are grounded: the hash of
/// `target` is stable under further refinement.
pub open spec fn neighbors_grounded(
    m: Map<Seq<char>, u64>,
    target: Seq<char>,
    quads: Seq<NTripleView>,
) -> bool {
    forall|i: int| 0 <= i < quads.len() ==> quad_neighbors_ok(m, target, #[trigger] quads[i])
}

fn term_sig_exec(hashes: &HashAssoc, target: &Vec<char>, t: &Vec<char>) -> (r: Vec<char>)
    requires
        hashes.wf(),
    ensures
        r@ == term_sig(hashes@, target@, t@),
{
    if chars_eq(t, target) {
        chars_of("@self")
    } else if is_blank_chars(t) {
        match hashes.get(t) {
            Some(h) => dec_chars(h),
            None => chars_of("@blank"),
        }
    } else {
        copy_chars(t)
    }
}

fn quad_sig_exec(hashes: &HashAssoc, target: &Vec<char>, q: &CTriple) -> (r: Vec<char>)
    requires
        hashes.wf(),
    ensures
        r@ == quad_sig(hashes@, target@, q@),
{
    let mut r = term_sig_exec(hashes, target, &q.s);
    r.push('|');
    let ps = term_sig_exec(hashes, target, &q.p);
    push_all(&mut r, &ps);
    r.push('|');
    let os = term_sig_exec(hashes, target, &q.o);
    push_all(&mut r, &os);
    proof {
        assert(r@ =~= quad_sig(hashes@, target@, q@));
    }
    r
}

fn mentions_exec(q: &CTriple, t: &Vec<char>) -> (r: bool)
    ensures
        r == mentions(q@, t@),
{
    chars_eq(&q.s, t) || chars_eq(&q.p, t) || chars_eq(&q.o, t)
}

/// Hashes one term against the current grounding.
///
/// Returns whether the term's whole neighborhood is grounded, and the term's
/// signature hash; an `Err` propagates a failure of the hash backend.
fn hash_term(target: &Vec<char>, quads: &Vec<CTriple>, hashes: &HashAssoc) -> (r: Result<
    (bool, u64),
    TulnaError,
>)
    requires
        hashes.wf(),
    ensures
        r is Ok,
        r matches Ok(p) ==> p.0 == neighbors_grounded(hashes@, target@, gviews(quads@)) && p.1
            == spec_term_hash(hashes@, target@, gviews(quads@)),
{
    let mut sigs: Vec<Vec<char>> = Vec::new();
    let mut grounded = true;
    let mut i: usize = 0;
    proof {
        assert(views_of(sigs@) =~= incident_sigs(hashes@, target@, gviews(quads@).subrange(0, 0)));
    }
    while i < quads.len()
        invariant
            hashes.wf(),
            i <= quads@.len(),
            views_of(sigs@) == incident_sigs(hashes@, target@, gviews(quads@).subrange(
                0, i as int)),
            grounded == (forall|j: int|
                0 <= j < i ==> quad_neighbors_ok(hashes@, target@, #[trigger] gviews(quads@)[j])),
        decreases quads@.len() - i,
    {
        let ghost pre = gviews(quads@).subrange(0, i as int);
        let ghost post = gviews(quads@).subrange(0, i + 1);
        proof {
            assert(post.drop_last() =~= pre);
            assert(post.last() == gviews(quads@)[i as int]);
        }
        let q = &quads[i];
        proof {
            assert(gviews(quads@)[i as int] == q@);
        }
        let ghost old_grounded = grounded;
        if mentions_exec(q, target) {
            let sig = quad_sig_exec(hashes, target, q);
            sigs.push(sig);
            proof {
                assert(views_of(sigs@) =~= incident_sigs(hashes@, target@, post));
            }
            let ok_s = chars_eq(&q.s, target) || !is_blank_chars(&q.s) || hashes.contains_key(
                &q.s);
            let ok_p = chars_eq(&q.p, target) || !is_blank_chars(&q.p) || hashes.contains_key(
                &q.p);
            let ok_o = chars_eq(&q.o, target) || !is_blank_chars(&q.o) || hashes.contains_key(
                &q.o);
            if !(ok_s && ok_p && ok_o) {
                grounded = false;
            }
            proof {
                assert(quad_neighbors_ok(hashes@, target@, q@) == (ok_s && ok_p && ok_o));
            }
        } else {
            proof {
                assert(views_of(sigs@) =~= incident_sigs(hashes@, target@, post));
                assert(quad_neighbors_ok(hashes@, target@, q@));
            }
        }
        i = i + 1;
        proof {
            assert forall|j: int|
                0 <= j < i implies (quad_neighbors_ok(hashes@, target@, #[trigger] gviews(
                quads@)[j]) == if j < i - 1 {
                quad_neighbors_ok(hashes@, target@, gviews(quads@)[j])
            } else {
                quad_neighbors_ok(hashes@, target@, q@)
            }) by {}
        }
    }
    proof {
        assert(gviews(quads@).subrange(0, quads@.len() as int) =~= gviews(quads@));
    }
    let sorted = crate::text::sort_char_seqs(sigs);
    let mut joined: Vec<char> = Vec::new();
    let mut k: usize = 0;
    proof {
        assert(joined@ =~= concat_all(views_of(sorted@).subrange(0, 0)));
    }
    while k < sorted.len()
        invariant
            k <= sorted@.len(),
            joined@ == concat_all(views_of(sorted@).subrange(0, k as int)),
        decreases sorted@.len() - k,
    {
        let ghost pre = views_of(sorted@).subrange(0, k as int);
        let ghost post = views_of(sorted@).subrange(0, k + 1);
        proof {
            assert(post.drop_last() =~= pre);
            assert(post.last() == sorted@[k as int]@);
        }
        push_all(&mut joined, &sorted[k]);
        k = k + 1;
    }
    proof {
        assert(views_of(sorted@).subrange(0, sorted@.len() as int) =~= views_of(sorted@));
    }
    match crate::hashing::hash_chars(&joined) {
        Ok(h) => Ok((grounded, h)),
        Err(e) => Err(e),
    }
}

// ---------------------------------------------------------------------------
// Iterative refinement
// ---------------------------------------------------------------------------

/// Entry `j`'s hash value also occurs at some other entry: the term is not
/// structurally unique.
pub open spec fn shares_hash(entries: Seq<(Vec<char>, u64)>, j: int) -> bool {
    exists|j2: int| 0 <= j2 < entries.len() && j2 != j && entries[j2].1 == entries[j].1
}

/// A list of distinct keys drawn from two unique pools is no longer than the
/// two pools together.
proof fn lemma_key_count(keys: Seq<Seq<char>>, s1: Seq<Seq<char>>, s2: Seq<Seq<char>>)
    requires
        keys.no_duplicates(),
        s1.no_duplicates(),
        forall|k: Seq<char>| keys.contains(k) ==> s1.contains(k) || s2.contains(k),
    ensures
        keys.len() <= s1.len() + s2.len(),
{
    broadcast use vstd::seq_lib::group_seq_properties;

    keys.unique_seq_to_set();
    s1.unique_seq_to_set();
    s2.lemma_cardinality_of_set();
    assert(keys.to_set().subset_of(s1.to_set().union(s2.to_set())));
    vstd::set_lib::lemma_len_union::<Seq<char>>(s1.to_set(), s2.to_set());
    vstd::set_lib::lemma_len_subset::<Seq<char>>(keys.to_set(), s1.to_set().union(s2.to_set()));
}

/// The refinement loop: computes signature hashes for every unlabeled
/// term, grounds terms whose neighborhood is grounded, promotes terms whose
/// hash is unique, and repeats until no new term can be grounded.
///
/// The first map extends the input grounding (entries are only added, never
/// changed) with keys drawn from `terms`; the second holds every term the
/// fixed point leaves ungrounded, and the contract characterizes that fixed
/// point: each such term carries its signature hash under the final
/// grounding, still has an ungrounded neighbor, and shares its hash with
/// some other ungrounded term (otherwise promotion by uniqueness would have
/// grounded it).
fn hash_terms(quads: &Vec<CTriple>, terms: &Vec<Vec<char>>, grounded: &HashAssoc) -> (r: Result<
    (HashAssoc, HashAssoc),
    TulnaError,
>)
    requires
        grounded.wf(),
        views_of(terms@).no_duplicates(),
    ensures
        r matches Ok(p) ==> ({
            &&& p.0.wf()
            &&& p.1.wf()
            &&& forall|k: Seq<char>|
                grounded@.dom().contains(k) ==> #[trigger] p.0@.dom().contains(k) && p.0@[k]
                    == grounded@[k]
            &&& forall|k: Seq<char>|
                #[trigger] p.0@.dom().contains(k) ==> grounded@.dom().contains(k) || views_of(
                    terms@).contains(k)
            &&& forall|k: Seq<char>|
                #[trigger] p.1@.dom().contains(k) ==> views_of(terms@).contains(k)
            &&& forall|i: int|
                0 <= i < terms@.len() ==> p.0@.dom().contains(#[trigger] terms@[i]@)
                    || p.1@.dom().contains(terms@[i]@)
            &&& forall|k: Seq<char>|
                #[trigger] p.1@.dom().contains(k) ==> !p.0@.dom().contains(k) && p.1@[k]
                    == spec_term_hash(p.0@, k, gviews(quads@)) && !neighbors_grounded(
                    p.0@,
                    k,
                    gviews(quads@),
                ) && (exists|k2: Seq<char>|
                    #[trigger] p.1@.dom().contains(k2) && k2 != k && p.1@[k2] == p.1@[k])
        }),
        r is Ok,
{
    let ghost bound = grounded.entries@.len() + terms@.len();
    let mut hashes = grounded.duplicate();
    let mut ungrounded = HashAssoc::new();
    proof {
        lemma_hash_map_dom(grounded.entries@);
        lemma_hash_map_dom(hashes.entries@);
        lemma_key_count(hashes.keys(), grounded.keys(), views_of(terms@));
    }
    let mut go = true;
    while go
        invariant
            grounded.wf(),
            views_of(terms@).no_duplicates(),
            hashes.wf(),
            ungrounded.wf(),
            bound == grounded.entries@.len() + terms@.len(),
            hashes.entries@.len() <= bound,
            forall|k: Seq<char>|
                grounded@.dom().contains(k) ==> #[trigger] hashes@.dom().contains(k) && hashes@[
                    k] == grounded@[k],
            forall|k: Seq<char>|
                #[trigger] hashes@.dom().contains(k) ==> grounded@.dom().contains(k) || views_of(
                    terms@).contains(k),
            forall|k: Seq<char>|
                #[trigger] ungrounded@.dom().contains(k) ==> views_of(terms@).contains(k),
            !go ==> forall|i: int|
                0 <= i < terms@.len() ==> hashes@.dom().contains(#[trigger] terms@[i]@)
                    || ungrounded@.dom().contains(terms@[i]@),
            !go ==> forall|j: int|
                0 <= j < ungrounded.entries@.len() ==> !hashes@.dom().contains(
                    #[trigger] ungrounded.entries@[j].0@,
                ) && ungrounded.entries@[j].1 == spec_term_hash(
                    hashes@,
                    ungrounded.entries@[j].0@,
                    gviews(quads@),
                ) && !neighbors_grounded(hashes@, ungrounded.entries@[j].0@, gviews(quads@)),
            !go ==> forall|j: int|
                0 <= j < ungrounded.entries@.len() ==> #[trigger] shares_hash(
                    ungrounded.entries@,
                    j,
                ),
        decreases bound - hashes.entries@.len(), (if go { 1int } else { 0int }),
    {
        let initial = hashes.len();
        let ghost h0 = hashes.entries@;
        ungrounded = HashAssoc::new();
        proof {
            assert forall|k: Seq<char>| grounded@.dom().contains(k) implies #[trigger] hashes@
                .dom().contains(k) && hashes@[k] == grounded@[k] by {
                assert(hashes@.dom().contains(k));
            }
        }
        let mut ti: usize = 0;
        while ti < terms.len()
            invariant
                grounded.wf(),
                views_of(terms@).no_duplicates(),
                hashes.wf(),
                ungrounded.wf(),
                bound == grounded.entries@.len() + terms@.len(),
                initial <= hashes.entries@.len() <= bound,
                initial == h0.len(),
                hashes.entries@.len() == initial ==> hashes.entries@ == h0,
                ti <= terms@.len(),
                forall|k: Seq<char>|
                    grounded@.dom().contains(k) ==> #[trigger] hashes@.dom().contains(k)
                        && hashes@[k] == grounded@[k],
                forall|k: Seq<char>|
                    #[trigger] hashes@.dom().contains(k) ==> grounded@.dom().contains(k)
                        || views_of(terms@).contains(k),
                forall|k: Seq<char>|
                    #[trigger] ungrounded@.dom().contains(k) ==> views_of(terms@).contains(k),
                forall|i: int|
                    0 <= i < ti ==> hashes@.dom().contains(#[trigger] terms@[i]@)
                        || ungrounded@.dom().contains(terms@[i]@),
                hashes.entries@.len() == initial ==> forall|j: int|
                    0 <= j < ungrounded.entries@.len() ==> !hashes@.dom().contains(
                        #[trigger] ungrounded.entries@[j].0@,
                    ) && ungrounded.entries@[j].1 == spec_term_hash(
                        hashes@,
                        ungrounded.entries@[j].0@,
                        gviews(quads@),
                    ) && !neighbors_grounded(hashes@, ungrounded.entries@[j].0@, gviews(quads@)),
            decreases terms@.len() - ti,
        {
            let term = &terms[ti];
            proof {
                assert(views_of(terms@)[ti as int] == term@);
            }
            if !hashes.contains_key(term) {
                match hash_term(term, quads, &hashes) {
                    Ok((g, h)) => {
                        if !ungrounded.contains_key(term) {
                            ungrounded.insert(copy_chars(term), h);
                        }
                        if g {
                            let ghost oldh = hashes@;
                            hashes.insert(copy_chars(term), h);
                            proof {
                                lemma_hash_map_dom(hashes.entries@);
                                lemma_hash_map_dom(grounded.entries@);
                                assert forall|k: Seq<char>| hashes.keys().contains(k) implies
                                    grounded.keys().contains(k) || views_of(terms@).contains(
                                    k) by {
                                    assert(hashes@.dom().contains(k));
                                }
                                lemma_key_count(
                                    hashes.keys(),
                                    grounded.keys(),
                                    views_of(terms@),
                                );
                                assert forall|k: Seq<char>| grounded@.dom().contains(k) implies
                                    hashes@.dom().contains(k) && hashes@[k] == grounded@[k] by {
                                    assert(oldh.dom().contains(k));
                                    assert(oldh[k] == grounded@[k]);
                                }
                            }
                        }
                    },
                    Err(e) => {
                        return Err(e);
                    },
                }
            }
            proof {
                assert forall|k: Seq<char>| grounded@.dom().contains(k) implies #[trigger]
                    hashes@.dom().contains(k) && hashes@[k] == grounded@[k] by {
                    assert(hashes@.dom().contains(k));
                }
            }
            ti = ti + 1;
        }
        // promotion by uniqueness: a term whose hash no other term shares is
        // structurally distinguished and becomes grounded
        let mut ui: usize = 0;
        while ui < ungrounded.entries.len()
            invariant
                grounded.wf(),
                views_of(terms@).no_duplicates(),
                hashes.wf(),
                ungrounded.wf(),
                bound == grounded.entries@.len() + terms@.len(),
                initial <= hashes.entries@.len() <= bound,
                initial == h0.len(),
                hashes.entries@.len() == initial ==> hashes.entries@ == h0,
                ui <= ungrounded.entries@.len(),
                forall|k: Seq<char>|
                    grounded@.dom().contains(k) ==> #[trigger] hashes@.dom().contains(k)
                        && hashes@[k] == grounded@[k],
                forall|k: Seq<char>|
                    #[trigger] hashes@.dom().contains(k) ==> grounded@.dom().contains(k)
                        || views_of(terms@).contains(k),
                forall|k: Seq<char>|
                    #[trigger] ungrounded@.dom().contains(k) ==> views_of(terms@).contains(k),
                forall|i: int|
                    0 <= i < terms@.len() ==> hashes@.dom().contains(#[trigger] terms@[i]@)
                        || ungrounded@.dom().contains(terms@[i]@),
                hashes.entries@.len() == initial ==> forall|j: int|
                    0 <= j < ungrounded.entries@.len() ==> !hashes@.dom().contains(
                        #[trigger] ungrounded.entries@[j].0@,
                    ) && ungrounded.entries@[j].1 == spec_term_hash(
                        hashes@,
                        ungrounded.entries@[j].0@,
                        gviews(quads@),
                    ) && !neighbors_grounded(hashes@, ungrounded.entries@[j].0@, gviews(quads@)),
                hashes.entries@.len() == initial ==> forall|j: int|
                    0 <= j < ui ==> #[trigger] shares_hash(ungrounded.entries@, j),
            decreases ungrounded.entries@.len() - ui,
        {
            let h = ungrounded.entries[ui].1;
            // does any other entry carry the same hash value?
            let mut another = false;
            let mut uj: usize = 0;
            while uj < ungrounded.entries.len()
                invariant
                    ui < ungrounded.entries@.len(),
                    h == ungrounded.entries@[ui as int].1,
                    uj <= ungrounded.entries@.len(),
                    another == exists|j2: int|
                        0 <= j2 < uj && j2 != ui && #[trigger] ungrounded.entries@[j2].1 == h,
                decreases ungrounded.entries@.len() - uj,
            {
                if uj != ui && ungrounded.entries[uj].1 == h {
                    another = true;
                }
                uj = uj + 1;
            }
            proof {
                if another {
                    assert(shares_hash(ungrounded.entries@, ui as int));
                }
            }
            if !another {
                let term = copy_chars(&ungrounded.entries[ui].0);
                if !hashes.contains_key(&term) {
                    proof {
                        lemma_hash_map_dom(ungrounded.entries@);
                        assert(hash_keys(ungrounded.entries@)[ui as int] == term@);
                        assert(hash_keys(ungrounded.entries@).to_set().contains(term@));
                        assert(ungrounded@.dom().contains(term@));
                    }
                    let ghost oldh = hashes@;
                    hashes.insert(term, h);
                    proof {
                        lemma_hash_map_dom(hashes.entries@);
                        lemma_hash_map_dom(grounded.entries@);
                        assert forall|k: Seq<char>| hashes.keys().contains(k) implies grounded
                            .keys().contains(k) || views_of(terms@).contains(k) by {
                            assert(hashes@.dom().contains(k));
                        }
                        lemma_key_count(hashes.keys(), grounded.keys(), views_of(terms@));
                        assert forall|k: Seq<char>| grounded@.dom().contains(k) implies hashes@
                            .dom().contains(k) && hashes@[k] == grounded@[k] by {
                            assert(oldh.dom().contains(k));
                            assert(oldh[k] == grounded@[k]);
                        }
                    }
                }
            }
            proof {
                assert forall|k: Seq<char>| grounded@.dom().contains(k) implies #[trigger]
                    hashes@.dom().contains(k) && hashes@[k] == grounded@[k] by {
                    assert(hashes@.dom().contains(k));
                }
            }
            ui = ui + 1;
        }
        go = hashes.len() != initial;
        proof {
            if !go {
                assert(hashes.entries@ == h0);
                assert(forall|j: int|
                    0 <= j < ungrounded.entries@.len() ==> #[trigger] shares_hash(
                        ungrounded.entries@,
                        j,
                    ));
            }
        }
    }
    proof {
        // translate the entry-level loop facts to the two maps
        lemma_hash_map_dom(ungrounded.entries@);
        assert forall|k: Seq<char>| #[trigger] ungrounded@.dom().contains(k) implies !hashes@
            .dom().contains(k) && ungrounded@[k] == spec_term_hash(hashes@, k, gviews(quads@))
            && !neighbors_grounded(hashes@, k, gviews(quads@)) && (exists|k2: Seq<char>|
            #[trigger] ungrounded@.dom().contains(k2) && k2 != k && ungrounded@[k2]
                == ungrounded@[k]) by {
            let j = choose|j: int|
                0 <= j < hash_keys(ungrounded.entries@).len() && hash_keys(
                    ungrounded.entries@,
                )[j] == k;
            assert(ungrounded.entries@[j].0@ == k);
            lemma_hash_map_entry(ungrounded.entries@, j);
            assert(shares_hash(ungrounded.entries@, j));
            let j2 = choose|j2: int|
                0 <= j2 < ungrounded.entries@.len() && j2 != j && ungrounded.entries@[j2].1
                    == ungrounded.entries@[j].1;
            lemma_hash_map_entry(ungrounded.entries@, j2);
            let k2 = ungrounded.entries@[j2].0@;
            assert(hash_keys(ungrounded.entries@)[j2] == k2);
            assert(hash_keys(ungrounded.entries@)[j] == k);
            assert(k2 != k);
            assert(ungrounded@.dom().contains(k2));
            assert(ungrounded@[k2] == ungrounded@[k]);
        }
    }
    Ok((hashes, ungrounded))
}

// ---------------------------------------------------------------------------
// Bijection verification
// ---------------------------------------------------------------------------

/// Applies the candidate bijection to one term.
fn rewrite_term_exec(bij: &NodePairs, t: &Vec<char>) -> (r: Vec<char>)
    requires
        bij.wf(),
    ensures
        r@ == crate::isomorphism::model::rewrite_term(bij@, t@),
{
    match bij.get(t) {
        Some(v) => copy_chars(v),
        None => copy_chars(t),
    }
}

/// Checks that rewriting every triple of `quads_a` by the bijection lands in
/// `quads_b`. Success means every rewrite is a member and the two lists
/// have equal length.
fn verify_bijection(quads_a: &Vec<CTriple>, quads_b: &Vec<CTriple>, bij: &NodePairs) -> (r: bool)
    requires
        bij.wf(),
    ensures
        r ==> quads_a@.len() == quads_b@.len() && forall|i: int|
            0 <= i < quads_a@.len() ==> gviews(quads_b@).contains(
                crate::isomorphism::model::rewrite_triple(bij@, #[trigger] gviews(quads_a@)[i]),
            ),
        quads_a@.len() == 0 && quads_b@.len() == 0 ==> r,
{
    if quads_a.len() != quads_b.len() {
        return false;
    }
    let mut i: usize = 0;
    while i < quads_a.len()
        invariant
            bij.wf(),
            i <= quads_a@.len(),
            forall|j: int|
                0 <= j < i ==> gviews(quads_b@).contains(
                    crate::isomorphism::model::rewrite_triple(
                        bij@,
                        #[trigger] gviews(quads_a@)[j],
                    ),
                ),
        decreases quads_a@.len() - i,
    {
        let q = &quads_a[i];
        proof {
            assert(gviews(quads_a@)[i as int] == q@);
        }
        let rt = CTriple {
            s: rewrite_term_exec(bij, &q.s),
            p: rewrite_term_exec(bij, &q.p),
            o: rewrite_term_exec(bij, &q.o),
        };
        proof {
            assert(rt@ == crate::isomorphism::model::rewrite_triple(bij@, q@));
        }
        if !contains_triple(quads_b, &rt) {
            return false;
        }
        i = i + 1;
    }
    true
}

// ---------------------------------------------------------------------------
// Speculative matching
// ---------------------------------------------------------------------------

/// The unlabeled identifiers of the two sides pair up under `bij`, and the
/// rewrite of each blank-bearing triple of side A is a triple of side B.
pub open spec fn matcher_post(
    bij: NodePairs,
    quads_a: Seq<CTriple>,
    quads_b: Seq<CTriple>,
    blanks_a: Seq<Vec<char>>,
    blanks_b: Seq<Vec<char>>,
) -> bool {
    &&& bij.wf()
    &&& bij.keys().to_set() == views_of(blanks_a).to_set()
    &&& bij.vals().to_set() == views_of(blanks_b).to_set()
    &&& quads_a.len() == quads_b.len()
    &&& forall|i: int|
        0 <= i < quads_a.len() ==> gviews(quads_b).contains(
            crate::isomorphism::model::rewrite_triple(bij@, #[trigger] gviews(quads_a)[i]),
        )
}

/// The recursive bijection finder: refinement plus speculative pairing.
///
/// Refines hashes, pairs grounded identifiers across the two sides, and,
/// when ambiguity remains, speculatively grounds one pair with matching
/// ungrounded hashes to a fresh shared value and recurses, backtracking to
/// the next candidate pair on failure.
fn get_bijection_inner(
    quads_a: &Vec<CTriple>,
    quads_b: &Vec<CTriple>,
    blanks_a: &Vec<Vec<char>>,
    blanks_b: &Vec<Vec<char>>,
    grounded_a: &HashAssoc,
    grounded_b: &HashAssoc,
) -> (r: Result<Option<NodePairs>, TulnaError>)
    requires
        views_of(blanks_a@).no_duplicates(),
        views_of(blanks_b@).no_duplicates(),
        blanks_a@.len() == blanks_b@.len(),
        grounded_a.wf(),
        grounded_b.wf(),
        forall|k: Seq<char>|
            #[trigger] grounded_a@.dom().contains(k) ==> views_of(blanks_a@).contains(k),
        forall|k: Seq<char>|
            #[trigger] grounded_b@.dom().contains(k) ==> views_of(blanks_b@).contains(k),
        grounded_a.entries@.len() <= blanks_a@.len(),
    ensures
        r is Ok,
        r matches Ok(Some(bij)) ==> matcher_post(bij, quads_a@, quads_b@, blanks_a@, blanks_b@),
        quads_a@.len() == 0 && quads_b@.len() == 0 && blanks_a@.len() == 0 && blanks_b@.len()
            == 0 ==> (r matches Ok(o) && o is Some),
    decreases blanks_a@.len() - grounded_a.entries@.len(),
{
    let ghost trivial = quads_a@.len() == 0 && quads_b@.len() == 0 && blanks_a@.len() == 0
        && blanks_b@.len() == 0;
    let ghost bav = views_of(blanks_a@);
    let ghost bbv = views_of(blanks_b@);
    // hash every term based on the signatures of the quads it appears in
    let (ha, ua) = match hash_terms(quads_a, blanks_a, grounded_a) {
        Ok(p) => p,
        Err(e) => {
            return Err(e);
        },
    };
    let (hb, ub) = match hash_terms(quads_b, blanks_b, grounded_b) {
        Ok(p) => p,
        Err(e) => {
            return Err(e);
        },
    };
    proof {
        if trivial {
            // with no unlabeled identifiers at all, neither side grounds
            // anything, the empty pairing is complete, and the verifier
            // accepts it
            lemma_hash_map_dom(ha.entries@);
            lemma_hash_map_dom(hb.entries@);
            assert forall|k: Seq<char>| !(#[trigger] ha@.dom().contains(k)) by {
                if grounded_a@.dom().contains(k) {
                    assert(views_of(blanks_a@).contains(k));
                }
            }
            assert forall|k: Seq<char>| !(#[trigger] hb@.dom().contains(k)) by {
                if grounded_b@.dom().contains(k) {
                    assert(views_of(blanks_b@).contains(k));
                }
            }
            if ha.entries@.len() > 0 {
                crate::isomorphism::assoc::lemma_hash_map_entry(ha.entries@, 0);
                assert(ha@.dom().contains(ha.entries@[0].0@));
            }
            if hb.entries@.len() > 0 {
                crate::isomorphism::assoc::lemma_hash_map_entry(hb.entries@, 0);
                assert(hb@.dom().contains(hb.entries@[0].0@));
            }
            assert(ha.entries@.len() == 0);
            assert(hb.entries@.len() == 0);
        }
    }
    // the two sides must ground the same number of terms, with the same
    // multiset of hash values
    if ha.len() != hb.len() {
        return Ok(None);
    }
    let mut vi: usize = 0;
    while vi < ha.entries.len()
        invariant
            trivial == (quads_a@.len() == 0 && quads_b@.len() == 0 && blanks_a@.len() == 0
                && blanks_b@.len() == 0),
            vi <= ha.entries@.len(),
            trivial ==> ha.entries@.len() == 0,
        decreases ha.entries@.len() - vi,
    {
        if !hb.contains_value(ha.entries[vi].1) {
            return Ok(None);
        }
        vi = vi + 1;
    }
    // pair grounded identifiers of side A with unused grounded identifiers of
    // side B carrying the same hash
    let mut bij = NodePairs::new();
    let mut ai: usize = 0;
    proof {
        assert(bav.subrange(0, 0) =~= Seq::<Seq<char>>::empty());
    }
    while ai < blanks_a.len()
        invariant
            trivial == (quads_a@.len() == 0 && quads_b@.len() == 0 && blanks_a@.len() == 0
                && blanks_b@.len() == 0),
            views_of(blanks_a@).no_duplicates(),
            views_of(blanks_b@).no_duplicates(),
            bav == views_of(blanks_a@),
            bbv == views_of(blanks_b@),
            ha.wf(),
            hb.wf(),
            ai <= blanks_a@.len(),
            bij.wf(),
            bij.entries@.len() <= ai,
            forall|k: Seq<char>|
                #[trigger] bij.keys().contains(k) ==> bav.subrange(0, ai as int).contains(k),
            forall|v: Seq<char>| #[trigger] bij.vals().contains(v) ==> bbv.contains(v),
        decreases blanks_a@.len() - ai,
    {
        let term_a = &blanks_a[ai];
        proof {
            assert(bav[ai as int] == term_a@);
        }
        match ha.get(term_a) {
            Some(hash_a) => {
                let mut bi: usize = 0;
                let mut paired = false;
                while bi < blanks_b.len() && !paired
                    invariant
                        views_of(blanks_a@).no_duplicates(),
                        views_of(blanks_b@).no_duplicates(),
                        bav == views_of(blanks_a@),
                        bbv == views_of(blanks_b@),
                        ha.wf(),
                        hb.wf(),
                        ai < blanks_a@.len(),
                        term_a@ == bav[ai as int],
                        bi <= blanks_b@.len(),
                        bij.wf(),
                        !paired ==> bij.entries@.len() <= ai,
                        paired ==> bij.entries@.len() <= ai + 1,
                        !paired ==> forall|k: Seq<char>|
                            #[trigger] bij.keys().contains(k) ==> bav.subrange(
                                0, ai as int).contains(k),
                        paired ==> forall|k: Seq<char>|
                            #[trigger] bij.keys().contains(k) ==> bav.subrange(
                                0, ai + 1).contains(k),
                        forall|v: Seq<char>| #[trigger] bij.vals().contains(v) ==> bbv.contains(v),
                    decreases blanks_b@.len() - bi, (if paired { 0int } else { 1int }),
                {
                    let node_b = &blanks_b[bi];
                    proof {
                        assert(bbv[bi as int] == node_b@);
                    }
                    if !bij.uses_value(node_b) {
                        match hb.get(node_b) {
                            Some(hash_b) => {
                                if hash_a == hash_b {
                                    let ghost old_keys = bij.keys();
                                    let ghost old_vals = bij.vals();
                                    proof {
                                        if bij.keys().contains(term_a@) {
                                            let j = choose|j: int|
                                                0 <= j < old_keys.len() && old_keys[j] == term_a@;
                                            assert(bav.subrange(0, ai as int).contains(term_a@));
                                            let j2 = choose|j2: int|
                                                0 <= j2 < ai && bav.subrange(
                                                    0, ai as int)[j2] == term_a@;
                                            assert(bav[j2] == bav[ai as int]);
                                        }
                                    }
                                    bij.insert(copy_chars(term_a), copy_chars(node_b));
                                    paired = true;
                                    proof {
                                        assert forall|k: Seq<char>|
                                            #[trigger] bij.keys().contains(k) implies bav.subrange(
                                            0, ai + 1).contains(k) by {
                                            let j = choose|j: int|
                                                0 <= j < bij.keys().len() && bij.keys()[j] == k;
                                            if j == bij.keys().len() - 1 {
                                                assert(k == term_a@);
                                                assert(bav.subrange(0, ai + 1)[ai as int] == k);
                                            } else {
                                                assert(old_keys[j] == k);
                                                assert(old_keys.contains(k));
                                                assert(bav.subrange(0, ai as int).contains(k));
                                                let j2 = choose|j2: int|
                                                    0 <= j2 < ai && bav.subrange(
                                                        0, ai as int)[j2] == k;
                                                assert(bav.subrange(0, ai + 1)[j2] == k);
                                            }
                                        }
                                        assert forall|v: Seq<char>|
                                            #[trigger] bij.vals().contains(v) implies bbv.contains(
                                            v) by {
                                            let j = choose|j: int|
                                                0 <= j < bij.vals().len() && bij.vals()[j] == v;
                                            if j == bij.vals().len() - 1 {
                                                assert(v == node_b@);
                                                assert(bbv[bi as int] == v);
                                            } else {
                                                assert(old_vals[j] == v);
                                                assert(old_vals.contains(v));
                                            }
                                        }
                                    }
                                }
                            },
                            None => {},
                        }
                    }
                    bi = bi + 1;
                }
            },
            None => {},
        }
        ai = ai + 1;
        proof {
            assert forall|k: Seq<char>|
                #[trigger] bij.keys().contains(k) implies bav.subrange(0, ai as int).contains(
                k) by {
                let ghost pre = bav.subrange(0, ai - 1);
                if pre.contains(k) {
                    let j = choose|j: int| 0 <= j < pre.len() && pre[j] == k;
                    assert(bav.subrange(0, ai as int)[j] == k);
                } else {
                    assert(bav.subrange(0, ai as int)[ai - 1] == k);
                }
            }
        }
    }
    proof {
        assert(bav.subrange(0, blanks_a@.len() as int) =~= bav);
    }
    // completeness: every identifier on both sides is paired
    if bij.len() == blanks_a.len() && bij.len() == blanks_b.len() {
        if verify_bijection(quads_a, quads_b, &bij) {
            proof {
                broadcast use vstd::seq_lib::seq_to_set_is_finite;

                bij.keys().unique_seq_to_set();
                bav.unique_seq_to_set();
                assert(bij.keys().to_set().subset_of(bav.to_set()));
                vstd::set_lib::lemma_subset_equality(bij.keys().to_set(), bav.to_set());
                bij.vals().unique_seq_to_set();
                bbv.unique_seq_to_set();
                assert(bij.vals().to_set().subset_of(bbv.to_set()));
                vstd::set_lib::lemma_subset_equality(bij.vals().to_set(), bbv.to_set());
            }
            return Ok(Some(bij));
        } else {
            return Ok(None);
        }
    }
    // speculation: ground one pair with matching ungrounded hashes to a fresh
    // shared value and recurse; on failure try the next candidate pair
    let mut sa: usize = 0;
    while sa < blanks_a.len()
        invariant
            views_of(blanks_a@).no_duplicates(),
            views_of(blanks_b@).no_duplicates(),
            blanks_a@.len() == blanks_b@.len(),
            bav == views_of(blanks_a@),
            bbv == views_of(blanks_b@),
            grounded_a.wf(),
            grounded_b.wf(),
            forall|k: Seq<char>|
                #[trigger] grounded_a@.dom().contains(k) ==> views_of(blanks_a@).contains(k),
            forall|k: Seq<char>|
                #[trigger] grounded_b@.dom().contains(k) ==> views_of(blanks_b@).contains(k),
            grounded_a.entries@.len() <= blanks_a@.len(),
            ha.wf(),
            hb.wf(),
            ua.wf(),
            ub.wf(),
            forall|k: Seq<char>|
                grounded_a@.dom().contains(k) ==> #[trigger] ha@.dom().contains(k),
            forall|k: Seq<char>|
                grounded_b@.dom().contains(k) ==> #[trigger] hb@.dom().contains(k),
            sa <= blanks_a@.len(),
        decreases blanks_a@.len() - sa,
    {
        let term_a = &blanks_a[sa];
        proof {
            assert(bav[sa as int] == term_a@);
        }
        // only speculate on terms that are still ungrounded
        if !ha.contains_key(term_a) {
            let ua_hash = ua.get(term_a);
            let mut sb: usize = 0;
            while sb < blanks_b.len()
                invariant
                    views_of(blanks_a@).no_duplicates(),
                    views_of(blanks_b@).no_duplicates(),
                    blanks_a@.len() == blanks_b@.len(),
                    bav == views_of(blanks_a@),
                    bbv == views_of(blanks_b@),
                    grounded_a.wf(),
                    grounded_b.wf(),
                    forall|k: Seq<char>|
                        #[trigger] grounded_a@.dom().contains(k) ==> views_of(
                            blanks_a@).contains(k),
                    forall|k: Seq<char>|
                        #[trigger] grounded_b@.dom().contains(k) ==> views_of(
                            blanks_b@).contains(k),
                    grounded_a.entries@.len() <= blanks_a@.len(),
                    ha.wf(),
                    hb.wf(),
                    ua.wf(),
                    ub.wf(),
                    forall|k: Seq<char>|
                        grounded_a@.dom().contains(k) ==> #[trigger] ha@.dom().contains(k),
                    forall|k: Seq<char>|
                        grounded_b@.dom().contains(k) ==> #[trigger] hb@.dom().contains(k),
                    sa < blanks_a@.len(),
                    term_a@ == bav[sa as int],
                    !ha@.dom().contains(term_a@),
                    sb <= blanks_b@.len(),
                decreases blanks_b@.len() - sb,
            {
                let node_b = &blanks_b[sb];
                proof {
                    assert(bbv[sb as int] == node_b@);
                }
                if !hb.contains_key(node_b) {
                    let matching = match (ua_hash, ub.get(node_b)) {
                        (Some(x), Some(y)) => x == y,
                        _ => false,
                    };
                    if matching {
                        // a fresh shared hash for the speculative pairing
                        let new_hash = match crate::hashing::hash_chars(term_a) {
                            Ok(h) => h,
                            Err(e) => {
                                return Err(e);
                            },
                        };
                        let mut new_ga = grounded_a.duplicate();
                        proof {
                            assert(!grounded_a@.dom().contains(term_a@));
                        }
                        new_ga.insert(copy_chars(term_a), new_hash);
                        let mut new_gb = grounded_b.duplicate();
                        proof {
                            assert(!grounded_b@.dom().contains(node_b@));
                        }
                        new_gb.insert(copy_chars(node_b), new_hash);
                        proof {
                            lemma_hash_map_dom(new_ga.entries@);
                            lemma_hash_map_dom(grounded_a.entries@);
                            lemma_hash_map_dom(new_gb.entries@);
                            lemma_hash_map_dom(grounded_b.entries@);
                            assert forall|k: Seq<char>|
                                #[trigger] new_ga@.dom().contains(k) implies views_of(
                                blanks_a@).contains(k) by {}
                            assert forall|k: Seq<char>|
                                #[trigger] new_gb@.dom().contains(k) implies views_of(
                                blanks_b@).contains(k) by {}
                            assert forall|k: Seq<char>| new_ga.keys().contains(k) implies views_of(
                                blanks_a@).contains(k) by {
                                assert(new_ga@.dom().contains(k));
                            }
                            lemma_key_count(
                                new_ga.keys(),
                                views_of(blanks_a@),
                                Seq::<Seq<char>>::empty(),
                            );
                        }
                        match get_bijection_inner(
                            quads_a,
                            quads_b,
                            blanks_a,
                            blanks_b,
                            &new_ga,
                            &new_gb,
                        ) {
                            Ok(Some(result)) => {
                                return Ok(Some(result));
                            },
                            Ok(None) => {},
                            Err(e) => {
                                return Err(e);
                            },
                        }
                    }
                }
                sb = sb + 1;
            }
        }
        sa = sa + 1;
    }
    Ok(None)
}

// ---------------------------------------------------------------------------
// Soundness: a complete, verified pairing is an isomorphism witness
// ---------------------------------------------------------------------------

/// Rewriting by the pairing map is injective on the terms of `a`.
proof fn lemma_rewrite_term_inj(
    m: Map<Seq<char>, Seq<char>>,
    a: Seq<NTripleView>,
    b_blanks: Set<Seq<char>>,
    t1: Seq<char>,
    t2: Seq<char>,
)
    requires
        m.dom() == graph_blanks(a),
        forall|t: Seq<char>| m.dom().contains(t) ==> b_blanks.contains(#[trigger] m[t]),
        forall|u: Seq<char>| b_blanks.contains(u) ==> spec_is_blank(u),
        forall|t1a: Seq<char>, t2a: Seq<char>|
            m.dom().contains(t1a) && m.dom().contains(t2a) && #[trigger] m[t1a] == #[trigger] m[
                t2a] ==> t1a == t2a,
        spec_is_blank(t1) ==> m.dom().contains(t1),
        spec_is_blank(t2) ==> m.dom().contains(t2),
        crate::isomorphism::model::rewrite_term(m, t1) == crate::isomorphism::model::rewrite_term(
            m, t2),
    ensures
        t1 == t2,
{
    let r1 = crate::isomorphism::model::rewrite_term(m, t1);
    let r2 = crate::isomorphism::model::rewrite_term(m, t2);
    if m.dom().contains(t1) && m.dom().contains(t2) {
    } else if m.dom().contains(t1) {
        assert(spec_is_blank(r1));
        assert(!spec_is_blank(t2));
        assert(r2 == t2);
        assert(false);
    } else if m.dom().contains(t2) {
        assert(spec_is_blank(r2));
        assert(!spec_is_blank(t1));
        assert(r1 == t1);
        assert(false);
    } else {
    }
}

/// A complete pairing whose rewrite of the blank-bearing part lands in the
/// other side's blank-bearing part, together with equal ground parts, is an
/// isomorphism witness for the whole graphs.
proof fn lemma_witness_from_parts(bij: NodePairs, a: Seq<NTripleView>, b: Seq<NTripleView>)
    requires
        bij.wf(),
        a.no_duplicates(),
        b.no_duplicates(),
        a.len() == b.len(),
        bij.keys().to_set() == graph_blanks(a),
        bij.vals().to_set() == graph_blanks(b),
        crate::isomorphism::model::ground_set(a) == crate::isomorphism::model::ground_set(b),
        forall|i: int|
            0 <= i < blank_part(a).len() ==> blank_part(b).contains(
                crate::isomorphism::model::rewrite_triple(bij@, #[trigger] blank_part(a)[i]),
            ),
    ensures
        crate::isomorphism::model::iso_witness(bij@, a, b),
{
    broadcast use vstd::seq_lib::seq_to_set_is_finite;

    let m = bij@;
    let e = bij.entries@;
    crate::isomorphism::assoc::lemma_pair_map_dom(e);
    assert(m.dom() =~= graph_blanks(a));
    // each entry is a binding of the map
    assert forall|i: int| 0 <= i < e.len() implies m.dom().contains(#[trigger] e[i].0@) && m[e[
        i].0@] == e[i].1@ by {
        crate::isomorphism::assoc::lemma_pair_map_entry(e, i);
    }
    // range: every image is an unlabeled identifier of b
    assert forall|t: Seq<char>| m.dom().contains(t) implies graph_blanks(b).contains(
        #[trigger] m[t]) by {
        assert(bij.keys().to_set().contains(t));
        let i = choose|i: int| 0 <= i < bij.keys().len() && bij.keys()[i] == t;
        assert(e[i].0@ == t);
        assert(m[t] == e[i].1@);
        assert(bij.vals()[i] == e[i].1@);
        assert(bij.vals().to_set().contains(e[i].1@));
    }
    // surjectivity onto the unlabeled identifiers of b
    assert forall|u: Seq<char>| graph_blanks(b).contains(u) implies exists|t: Seq<char>|
        m.dom().contains(t) && #[trigger] m[t] == u by {
        assert(bij.vals().to_set().contains(u));
        let i = choose|i: int| 0 <= i < bij.vals().len() && bij.vals()[i] == u;
        assert(e[i].1@ == u);
        assert(m.dom().contains(e[i].0@) && m[e[i].0@] == u);
    }
    // injectivity
    assert forall|t1: Seq<char>, t2: Seq<char>|
        m.dom().contains(t1) && m.dom().contains(t2) && #[trigger] m[t1] == #[trigger] m[t2]
        implies t1 == t2 by {
        assert(bij.keys().to_set().contains(t1));
        assert(bij.keys().to_set().contains(t2));
        let i = choose|i: int| 0 <= i < bij.keys().len() && bij.keys()[i] == t1;
        let j = choose|j: int| 0 <= j < bij.keys().len() && bij.keys()[j] == t2;
        assert(m[t1] == e[i].1@);
        assert(m[t2] == e[j].1@);
        assert(bij.vals()[i] == e[i].1@);
        assert(bij.vals()[j] == e[j].1@);
        if i != j {
            assert(bij.vals()[i] != bij.vals()[j]);
        }
    }
    assert(crate::isomorphism::model::bijection_between(m, a, b));
    // every unlabeled identifier of b is unlabeled
    assert forall|u: Seq<char>| graph_blanks(b).contains(u) implies spec_is_blank(u) by {}
    lemma_split_parts(a);
    lemma_split_parts(b);
    let rw = crate::isomorphism::model::rewrite_graph(m, a);
    // the rewrite of every triple of a is a triple of b
    assert forall|i: int| 0 <= i < a.len() implies b.to_set().contains(#[trigger] rw[i]) by {
        let t = a[i];
        assert(a.contains(t));
        assert(rw[i] == crate::isomorphism::model::rewrite_triple(m, t));
        if triple_has_blank(t) {
            assert(blank_part(a).contains(t));
            let j = choose|j: int| 0 <= j < blank_part(a).len() && blank_part(a)[j] == t;
            assert(blank_part(b).contains(
                crate::isomorphism::model::rewrite_triple(m, blank_part(a)[j])));
            assert(b.contains(crate::isomorphism::model::rewrite_triple(m, t)));
        } else {
            // ground triples are fixed by the rewrite
            assert(!spec_is_blank(t.s) && !spec_is_blank(t.p) && !spec_is_blank(t.o));
            assert(!m.dom().contains(t.s)) by {
                if m.dom().contains(t.s) {
                    assert(graph_blanks(a).contains(t.s));
                }
            }
            assert(!m.dom().contains(t.p)) by {
                if m.dom().contains(t.p) {
                    assert(graph_blanks(a).contains(t.p));
                }
            }
            assert(!m.dom().contains(t.o)) by {
                if m.dom().contains(t.o) {
                    assert(graph_blanks(a).contains(t.o));
                }
            }
            assert(crate::isomorphism::model::rewrite_triple(m, t) == t);
            assert(crate::isomorphism::model::ground_set(a).contains(t));
            assert(crate::isomorphism::model::ground_set(b).contains(t));
            assert(b.to_set().contains(t));
        }
    }
    // the rewrite is injective over a, so it has no duplicates
    assert forall|p: int, q: int| 0 <= p < q < rw.len() implies rw[p] != rw[q] by {
        let t1 = a[p];
        let t2 = a[q];
        assert(t1 != t2);
        if rw[p] == rw[q] {
            assert(crate::isomorphism::model::rewrite_triple(m, t1)
                == crate::isomorphism::model::rewrite_triple(m, t2));
            assert(spec_is_blank(t1.s) ==> m.dom().contains(t1.s)) by {
                if spec_is_blank(t1.s) {
                    assert(triple_mentions_blank(a[p], t1.s));
                }
            }
            assert(spec_is_blank(t1.p) ==> m.dom().contains(t1.p)) by {
                if spec_is_blank(t1.p) {
                    assert(triple_mentions_blank(a[p], t1.p));
                }
            }
            assert(spec_is_blank(t1.o) ==> m.dom().contains(t1.o)) by {
                if spec_is_blank(t1.o) {
                    assert(triple_mentions_blank(a[p], t1.o));
                }
            }
            assert(spec_is_blank(t2.s) ==> m.dom().contains(t2.s)) by {
                if spec_is_blank(t2.s) {
                    assert(triple_mentions_blank(a[q], t2.s));
                }
            }
            assert(spec_is_blank(t2.p) ==> m.dom().contains(t2.p)) by {
                if spec_is_blank(t2.p) {
                    assert(triple_mentions_blank(a[q], t2.p));
                }
            }
            assert(spec_is_blank(t2.o) ==> m.dom().contains(t2.o)) by {
                if spec_is_blank(t2.o) {
                    assert(triple_mentions_blank(a[q], t2.o));
                }
            }
            lemma_rewrite_term_inj(m, a, graph_blanks(b), t1.s, t2.s);
            lemma_rewrite_term_inj(m, a, graph_blanks(b), t1.p, t2.p);
            lemma_rewrite_term_inj(m, a, graph_blanks(b), t1.o, t2.o);
            assert(t1 == t2);
        }
    }
    assert(rw.no_duplicates());
    // subset of equal finite cardinality: the two triple sets are equal
    rw.unique_seq_to_set();
    b.unique_seq_to_set();
    assert(rw.to_set().subset_of(b.to_set())) by {
        assert forall|t: NTripleView| rw.to_set().contains(t) implies b.to_set().contains(t) by {
            let i = choose|i: int| 0 <= i < rw.len() && rw[i] == t;
        }
    }
    vstd::set_lib::lemma_subset_equality(rw.to_set(), b.to_set());
    assert(crate::isomorphism::model::graph_set(rw) == crate::isomorphism::model::graph_set(b));
}

// ---------------------------------------------------------------------------
// Bijection search over whole graphs
// ---------------------------------------------------------------------------

/// Finds a bijection between the unlabeled identifiers of two deduplicated
/// normalized graphs, or decides that none was found.
///
/// A returned pairing is a proved isomorphism witness. When the two ground
/// parts differ as sets, the answer is always `None`: ground triples admit
/// no relabeling.
fn get_bijection(graph_a: &Vec<CTriple>, graph_b: &Vec<CTriple>) -> (r: Result<
    Option<NodePairs>,
    TulnaError,
>)
    requires
        gviews(graph_a@).no_duplicates(),
        gviews(graph_b@).no_duplicates(),
        graph_a@.len() == graph_b@.len(),
    ensures
        r matches Ok(Some(bij)) ==> crate::isomorphism::model::iso_witness(
            bij@,
            gviews(graph_a@),
            gviews(graph_b@),
        ),
        crate::isomorphism::model::ground_set(gviews(graph_a@))
            != crate::isomorphism::model::ground_set(gviews(graph_b@)) ==> r == Ok::<
            Option<NodePairs>,
            TulnaError,
        >(None),
        graph_blanks(gviews(graph_a@)).len() != graph_blanks(gviews(graph_b@)).len() ==> r
            == Ok::<Option<NodePairs>, TulnaError>(None),
        gviews(graph_a@).to_set() == gviews(graph_b@).to_set() && graph_blanks(gviews(graph_a@))
            == Set::<Seq<char>>::empty() ==> (r matches Ok(o) && o is Some),
        r is Ok,
{
    let ghost ground_hyp = gviews(graph_a@).to_set() == gviews(graph_b@).to_set()
        && graph_blanks(gviews(graph_a@)) == Set::<Seq<char>>::empty();
    broadcast use vstd::seq_lib::seq_to_set_is_finite;

    let ghost av = gviews(graph_a@);
    let ghost bv = gviews(graph_b@);
    proof {
        lemma_split_parts(av);
        lemma_split_parts(bv);
    }
    let (bq_a, gq_a) = split_quads(graph_a);
    let (bq_b, gq_b) = split_quads(graph_b);
    proof {
        if ground_hyp {
            lemma_ground_set_congruent(av, bv);
            lemma_graph_blanks_congruent(av, bv);
            lemma_part_sets(av);
            lemma_part_sets(bv);
            lemma_split_parts(av);
            lemma_split_parts(bv);
            ground_part(av).unique_seq_to_set();
            ground_part(bv).unique_seq_to_set();
            // with equal triple sets the two ground parts have one cardinality
            assert(ground_part(av).to_set() == ground_part(bv).to_set());
            // and with no unlabeled identifiers the blank parts are empty
            if blank_part(av).len() > 0 {
                let t = blank_part(av)[0];
                assert(blank_part(av).contains(t));
                assert(triple_has_blank(t));
                let i = choose|i: int| 0 <= i < av.len() && av[i] == t;
                if spec_is_blank(t.s) {
                    assert(triple_mentions_blank(av[i], t.s));
                    assert(graph_blanks(av).contains(t.s));
                } else if spec_is_blank(t.p) {
                    assert(triple_mentions_blank(av[i], t.p));
                    assert(graph_blanks(av).contains(t.p));
                } else {
                    assert(triple_mentions_blank(av[i], t.o));
                    assert(graph_blanks(av).contains(t.o));
                }
            }
            if blank_part(bv).len() > 0 {
                let t = blank_part(bv)[0];
                assert(blank_part(bv).contains(t));
                assert(triple_has_blank(t));
                let i = choose|i: int| 0 <= i < bv.len() && bv[i] == t;
                if spec_is_blank(t.s) {
                    assert(triple_mentions_blank(bv[i], t.s));
                    assert(graph_blanks(bv).contains(t.s));
                } else if spec_is_blank(t.p) {
                    assert(triple_mentions_blank(bv[i], t.p));
                    assert(graph_blanks(bv).contains(t.p));
                } else {
                    assert(triple_mentions_blank(bv[i], t.o));
                    assert(graph_blanks(bv).contains(t.o));
                }
            }
            assert(blank_part(av).len() == 0);
            assert(blank_part(bv).len() == 0);
        }
    }
    // ground triples contain no unlabeled positions, so they must agree
    if gq_a.len() != gq_b.len() {
        proof {
            lemma_ground_sets_from_parts(av, bv);
        }
        return Ok(None);
    }
    let mut gi: usize = 0;
    while gi < gq_a.len()
        invariant
            av == gviews(graph_a@),
            bv == gviews(graph_b@),
            ground_hyp == (gviews(graph_a@).to_set() == gviews(graph_b@).to_set()
                && graph_blanks(gviews(graph_a@)) == Set::<Seq<char>>::empty()),
            ground_hyp ==> crate::isomorphism::model::ground_set(av)
                == crate::isomorphism::model::ground_set(bv),
            gviews(gq_a@) == ground_part(av),
            gviews(gq_b@) == ground_part(bv),
            gi <= gq_a@.len(),
            forall|j: int|
                0 <= j < gi ==> gviews(gq_b@).contains(#[trigger] gviews(gq_a@)[j]),
        decreases gq_a@.len() - gi,
    {
        if !contains_triple(&gq_b, &gq_a[gi]) {
            proof {
                assert(!gviews(gq_b@).contains(gviews(gq_a@)[gi as int]));
                lemma_ground_sets_differ(av, bv, gviews(gq_a@)[gi as int]);
            }
            return Ok(None);
        }
        gi = gi + 1;
    }
    // from here on the two ground parts are equal as sets
    proof {
        assert forall|t: NTripleView|
            crate::isomorphism::model::ground_set(av).contains(t)
            implies crate::isomorphism::model::ground_set(bv).contains(t) by {
            assert(ground_part(av).contains(t));
            let j = choose|j: int| 0 <= j < ground_part(av).len() && ground_part(av)[j] == t;
            assert(gviews(gq_b@).contains(gviews(gq_a@)[j]));
        }
        ground_part(av).unique_seq_to_set();
        ground_part(bv).unique_seq_to_set();
        assert(crate::isomorphism::model::ground_set(av) =~= ground_part(av).to_set()) by {
            lemma_part_sets(av);
        }
        assert(crate::isomorphism::model::ground_set(bv) =~= ground_part(bv).to_set()) by {
            lemma_part_sets(bv);
        }
        assert(crate::isomorphism::model::ground_set(av).subset_of(
            crate::isomorphism::model::ground_set(bv)));
        vstd::set_lib::lemma_subset_equality(
            crate::isomorphism::model::ground_set(av),
            crate::isomorphism::model::ground_set(bv),
        );
    }
    let blanks_a = graph_blank_nodes(graph_a);
    let blanks_b = graph_blank_nodes(graph_b);
    proof {
        if ground_hyp {
            assert(views_of(blanks_a@).len() == 0) by {
                if views_of(blanks_a@).len() > 0 {
                    assert(views_of(blanks_a@).contains(views_of(blanks_a@)[0]));
                    assert(graph_blanks(av).contains(views_of(blanks_a@)[0]));
                }
            }
            assert(views_of(blanks_b@).len() == 0) by {
                lemma_graph_blanks_congruent(av, bv);
                if views_of(blanks_b@).len() > 0 {
                    assert(views_of(blanks_b@).contains(views_of(blanks_b@)[0]));
                    assert(graph_blanks(bv).contains(views_of(blanks_b@)[0]));
                }
            }
        }
    }
    if blanks_a.len() != blanks_b.len() {
        return Ok(None);
    }
    proof {
        views_of(blanks_a@).unique_seq_to_set();
        views_of(blanks_b@).unique_seq_to_set();
        assert(views_of(blanks_a@).to_set() =~= graph_blanks(av));
        assert(views_of(blanks_b@).to_set() =~= graph_blanks(bv));
    }
    let empty_a = HashAssoc::new();
    let empty_b = HashAssoc::new();
    proof {
        assert(empty_a@.dom() =~= Set::<Seq<char>>::empty());
        assert(empty_b@.dom() =~= Set::<Seq<char>>::empty());
    }
    match get_bijection_inner(&bq_a, &bq_b, &blanks_a, &blanks_b, &empty_a, &empty_b) {
        Ok(Some(bij)) => {
            proof {
                assert(bij.keys().to_set() =~= graph_blanks(av)) by {
                    assert forall|t: Seq<char>|
                        bij.keys().to_set().contains(t) <==> graph_blanks(av).contains(t) by {
                        assert(bij.keys().to_set().contains(t) == views_of(
                            blanks_a@).to_set().contains(t));
                        assert(views_of(blanks_a@).to_set().contains(t) == views_of(
                            blanks_a@).contains(t));
                    }
                }
                assert(bij.vals().to_set() =~= graph_blanks(bv)) by {
                    assert forall|t: Seq<char>|
                        bij.vals().to_set().contains(t) <==> graph_blanks(bv).contains(t) by {
                        assert(bij.vals().to_set().contains(t) == views_of(
                            blanks_b@).to_set().contains(t));
                        assert(views_of(blanks_b@).to_set().contains(t) == views_of(
                            blanks_b@).contains(t));
                    }
                }
                lemma_witness_from_parts(bij, av, bv);
            }
            Ok(Some(bij))
        },
        Ok(None) => Ok(None),
        Err(e) => Err(e),
    }
}

/// The two split parts, as sets, are the blank and ground subsets of the
/// graph's triple set.
proof fn lemma_part_sets(g: Seq<NTripleView>)
    ensures
        ground_part(g).to_set() =~= crate::isomorphism::model::ground_set(g),
        blank_part(g).to_set() =~= Set::new(
            |t: NTripleView| g.to_set().contains(t) && triple_has_blank(t),
        ),
{
    lemma_split_parts(g);
}

/// Unequal ground-part lengths mean unequal ground sets.
proof fn lemma_ground_sets_from_parts(a: Seq<NTripleView>, b: Seq<NTripleView>)
    requires
        a.no_duplicates(),
        b.no_duplicates(),
        ground_part(a).len() != ground_part(b).len(),
    ensures
        crate::isomorphism::model::ground_set(a) != crate::isomorphism::model::ground_set(b),
{
    broadcast use vstd::seq_lib::seq_to_set_is_finite;

    lemma_split_parts(a);
    lemma_split_parts(b);
    lemma_part_sets(a);
    lemma_part_sets(b);
    ground_part(a).unique_seq_to_set();
    ground_part(b).unique_seq_to_set();
}

/// A ground triple of one side missing from the other means unequal ground
/// sets.
proof fn lemma_ground_sets_differ(a: Seq<NTripleView>, b: Seq<NTripleView>, t: NTripleView)
    requires
        ground_part(a).contains(t),
        !ground_part(b).contains(t),
    ensures
        crate::isomorphism::model::ground_set(a) != crate::isomorphism::model::ground_set(b),
{
    lemma_split_parts(a);
    lemma_split_parts(b);
    assert(crate::isomorphism::model::ground_set(a).contains(t));
    assert(!crate::isomorphism::model::ground_set(b).contains(t));
}

/// Decides isomorphism of two deduplicated normalized graphs.
fn graphs_isomorphic(da: &Vec<CTriple>, db: &Vec<CTriple>) -> (r: Result<bool, TulnaError>)
    requires
        gviews(da@).no_duplicates(),
        gviews(db@).no_duplicates(),
    ensures
        r matches Ok(b) && b ==> crate::isomorphism::model::spec_isomorphic(
            gviews(da@),
            gviews(db@),
        ),
        gviews(da@).len() != gviews(db@).len() ==> (r matches Ok(b) && !b),
        gviews(da@).len() == gviews(db@).len()
            && crate::isomorphism::model::ground_set(gviews(da@))
            != crate::isomorphism::model::ground_set(gviews(db@)) ==> (r matches Ok(b) && !b),
        gviews(da@).to_set() == gviews(db@).to_set() && graph_blanks(gviews(da@)) == Set::<
            Seq<char>,
        >::empty() ==> r == Ok::<bool, TulnaError>(true),
        r is Ok,
{
    proof {
        if gviews(da@).to_set() == gviews(db@).to_set() {
            gviews(da@).unique_seq_to_set();
            gviews(db@).unique_seq_to_set();
        }
    }
    if da.len() != db.len() {
        return Ok(false);
    }
    match get_bijection(da, db) {
        Ok(Some(bij)) => {
            proof {
                assert(crate::isomorphism::model::iso_witness(bij@, gviews(da@), gviews(db@)));
            }
            Ok(true)
        },
        Ok(None) => Ok(false),
        Err(e) => Err(e),
    }
}

// ---------------------------------------------------------------------------
// Congruence of the model notions under set-equal graph representations
// ---------------------------------------------------------------------------

/// Graphs with the same triple set have the same ground subset.
proof fn lemma_ground_set_congruent(g1: Seq<NTripleView>, g2: Seq<NTripleView>)
    requires
        g1.to_set() == g2.to_set(),
    ensures
        crate::isomorphism::model::ground_set(g1) == crate::isomorphism::model::ground_set(g2),
{
    assert(crate::isomorphism::model::ground_set(g1) =~= crate::isomorphism::model::ground_set(
        g2));
}

/// Graphs with the same triple set have the same unlabeled identifiers.
proof fn lemma_graph_blanks_congruent(g1: Seq<NTripleView>, g2: Seq<NTripleView>)
    requires
        g1.to_set() == g2.to_set(),
    ensures
        graph_blanks(g1) =~= graph_blanks(g2),
{
    assert forall|t: Seq<char>| graph_blanks(g1).contains(t) implies graph_blanks(g2).contains(
        t) by {
        let i = choose|i: int| 0 <= i < g1.len() && triple_mentions_blank(#[trigger] g1[i], t);
        assert(g1.to_set().contains(g1[i]));
        assert(g2.to_set().contains(g1[i]));
        assert(g2.contains(g1[i]));
        let j = choose|j: int| 0 <= j < g2.len() && g2[j] == g1[i];
        assert(triple_mentions_blank(g2[j], t));
    }
    assert forall|t: Seq<char>| graph_blanks(g2).contains(t) implies graph_blanks(g1).contains(
        t) by {
        let i = choose|i: int| 0 <= i < g2.len() && triple_mentions_blank(#[trigger] g2[i], t);
        assert(g2.to_set().contains(g2[i]));
        assert(g1.to_set().contains(g2[i]));
        assert(g1.contains(g2[i]));
        let j = choose|j: int| 0 <= j < g1.len() && g1[j] == g2[i];
        assert(triple_mentions_blank(g1[j], t));
    }
}

/// The triple set of a rewritten graph depends only on the graph's triple
/// set.
proof fn lemma_rewrite_set_congruent(
    m: Map<Seq<char>, Seq<char>>,
    g1: Seq<NTripleView>,
    g2: Seq<NTripleView>,
)
    requires
        g1.to_set() == g2.to_set(),
    ensures
        crate::isomorphism::model::rewrite_graph(m, g1).to_set()
            =~= crate::isomorphism::model::rewrite_graph(m, g2).to_set(),
{
    let r1 = crate::isomorphism::model::rewrite_graph(m, g1);
    let r2 = crate::isomorphism::model::rewrite_graph(m, g2);
    assert forall|t: NTripleView| r1.to_set().contains(t) implies r2.to_set().contains(t) by {
        let i = choose|i: int| 0 <= i < r1.len() && r1[i] == t;
        assert(r1[i] == crate::isomorphism::model::rewrite_triple(m, g1[i]));
        assert(g2.to_set().contains(g1[i]));
        let j = choose|j: int| 0 <= j < g2.len() && g2[j] == g1[i];
        assert(r2[j] == t);
        assert(r2.contains(t));
    }
    assert forall|t: NTripleView| r2.to_set().contains(t) implies r1.to_set().contains(t) by {
        let i = choose|i: int| 0 <= i < r2.len() && r2[i] == t;
        assert(r2[i] == crate::isomorphism::model::rewrite_triple(m, g2[i]));
        assert(g1.to_set().contains(g2[i]));
        let j = choose|j: int| 0 <= j < g1.len() && g1[j] == g2[i];
        assert(r1[j] == t);
        assert(r1.contains(t));
    }
}

/// Isomorphism depends only on the two triple sets.
pub proof fn lemma_spec_iso_congruent(
    a1: Seq<NTripleView>,
    a2: Seq<NTripleView>,
    b1: Seq<NTripleView>,
    b2: Seq<NTripleView>,
)
    requires
        a1.to_set() == a2.to_set(),
        b1.to_set() == b2.to_set(),
        crate::isomorphism::model::spec_isomorphic(a1, b1),
    ensures
        crate::isomorphism::model::spec_isomorphic(a2, b2),
{
    let m = choose|m: Map<Seq<char>, Seq<char>>|
        crate::isomorphism::model::iso_witness(m, a1, b1);
    lemma_graph_blanks_congruent(a1, a2);
    lemma_graph_blanks_congruent(b1, b2);
    lemma_rewrite_set_congruent(m, a1, a2);
    assert(m.dom() =~= graph_blanks(a2));
    assert(crate::isomorphism::model::graph_set(crate::isomorphism::model::rewrite_graph(m, a2))
        =~= crate::isomorphism::model::graph_set(b2));
    assert(crate::isomorphism::model::iso_witness(m, a2, b2));
}

// ---------------------------------------------------------------------------
// Public interface
// ---------------------------------------------------------------------------

/// Graph isomorphism checker for RDF-style graph patterns, built on the
/// hash-based grounding algorithm with iterative refinement and speculative
/// pairing.
pub struct GraphIsomorphism;

impl GraphIsomorphism {
    /// Checks whether two graph patterns are isomorphic under a renaming of
    /// their unlabeled nodes (variables and blank nodes).
    ///
    /// A `true` answer is proved sound: some bijection over the unlabeled
    /// identifiers rewrites one normalized graph onto the other's triple set.
    /// Graphs whose deduplicated triple sets differ in size, or whose ground
    /// triples differ, are never isomorphic. An IRI or literal payload
    /// beginning with `_:` is rejected as invalid input; the only other error
    /// reports the hash backend failing.
    pub fn are_isomorphic(graph1: &Vec<Triple>, graph2: &Vec<Triple>) -> (r: Result<
        bool,
        TulnaError,
    >)
        ensures
            ({
                let na = spec_normalize(view_bgp(graph1@));
                let nb = spec_normalize(view_bgp(graph2@));
                let valid = crate::isomorphism::model::bgp_valid(view_bgp(graph1@))
                    && crate::isomorphism::model::bgp_valid(view_bgp(graph2@));
                &&& (r matches Ok(b) && b) ==> crate::isomorphism::model::spec_isomorphic(na, nb)
                &&& !valid <==> (r matches Err(e) && e is InvalidInput)
                &&& valid <==> r is Ok
                &&& valid && crate::isomorphism::model::graph_set(na).len()
                    != crate::isomorphism::model::graph_set(nb).len() ==> (r matches Ok(b) && !b)
                &&& valid && crate::isomorphism::model::ground_set(na)
                    != crate::isomorphism::model::ground_set(nb) ==> (r matches Ok(b) && !b)
                &&& valid && crate::isomorphism::model::graph_set(na)
                    == crate::isomorphism::model::graph_set(nb) && graph_blanks(na) == Set::<
                    Seq<char>,
                >::empty() ==> r == Ok::<bool, TulnaError>(true)
            }),
    {
        Self::check_bgp_isomorphism(graph1, graph2)
    }

    /// Checks whether two graph patterns are isomorphic; see
    /// [`GraphIsomorphism::are_isomorphic`].
    pub fn check_bgp_isomorphism(bgp1: &Vec<Triple>, bgp2: &Vec<Triple>) -> (r: Result<
        bool,
        TulnaError,
    >)
        ensures
            ({
                let na = spec_normalize(view_bgp(bgp1@));
                let nb = spec_normalize(view_bgp(bgp2@));
                let valid = crate::isomorphism::model::bgp_valid(view_bgp(bgp1@))
                    && crate::isomorphism::model::bgp_valid(view_bgp(bgp2@));
                &&& (r matches Ok(b) && b) ==> crate::isomorphism::model::spec_isomorphic(na, nb)
                &&& !valid <==> (r matches Err(e) && e is InvalidInput)
                &&& valid <==> r is Ok
                &&& valid && crate::isomorphism::model::graph_set(na).len()
                    != crate::isomorphism::model::graph_set(nb).len() ==> (r matches Ok(b) && !b)
                &&& valid && crate::isomorphism::model::ground_set(na)
                    != crate::isomorphism::model::ground_set(nb) ==> (r matches Ok(b) && !b)
                &&& valid && crate::isomorphism::model::graph_set(na)
                    == crate::isomorphism::model::graph_set(nb) && graph_blanks(na) == Set::<
                    Seq<char>,
                >::empty() ==> r == Ok::<bool, TulnaError>(true)
            }),
    {
        broadcast use vstd::seq_lib::seq_to_set_is_finite;

        if !(bgp_valid_exec(bgp1) && bgp_valid_exec(bgp2)) {
            return Err(TulnaError::InvalidInput(String::from_str(
                "an IRI or literal payload must not begin with _:",
            )));
        }
        let ghost na = spec_normalize(view_bgp(bgp1@));
        let ghost nb = spec_normalize(view_bgp(bgp2@));
        let n1 = normalize_pattern(bgp1);
        let n2 = normalize_pattern(bgp2);
        let c1 = ctriples_of(&n1);
        let c2 = ctriples_of(&n2);
        let d1 = dedup_graph(&c1);
        let d2 = dedup_graph(&c2);
        proof {
            assert(gviews(d1@).to_set() =~= na.to_set()) by {
                assert forall|t: NTripleView|
                    gviews(d1@).to_set().contains(t) <==> na.to_set().contains(t) by {
                    assert(gviews(d1@).contains(t) <==> gviews(c1@).contains(t));
                }
            }
            assert(gviews(d2@).to_set() =~= nb.to_set()) by {
                assert forall|t: NTripleView|
                    gviews(d2@).to_set().contains(t) <==> nb.to_set().contains(t) by {
                    assert(gviews(d2@).contains(t) <==> gviews(c2@).contains(t));
                }
            }
            gviews(d1@).unique_seq_to_set();
            gviews(d2@).unique_seq_to_set();
        }
        proof {
            if crate::isomorphism::model::graph_set(na) == crate::isomorphism::model::graph_set(
                nb,
            ) && graph_blanks(na) == Set::<Seq<char>>::empty() {
                assert(gviews(d1@).to_set() == gviews(d2@).to_set());
                lemma_graph_blanks_congruent(gviews(d1@), na);
                assert(graph_blanks(gviews(d1@)) =~= Set::<Seq<char>>::empty());
            }
        }
        let r = graphs_isomorphic(&d1, &d2);
        proof {
            if r matches Ok(b) && b {
                lemma_spec_iso_congruent(gviews(d1@), na, gviews(d2@), nb);
            }
            // the ground subsets agree with those of the normalization
            assert(crate::isomorphism::model::ground_set(gviews(d1@))
                =~= crate::isomorphism::model::ground_set(na));
            assert(crate::isomorphism::model::ground_set(gviews(d2@))
                =~= crate::isomorphism::model::ground_set(nb));
        }
        r
    }

    /// Normalizes a graph pattern: variables become `_:v<k>` identifiers
    /// numbered in first-occurrence order, blank nodes keep their id under
    /// `_:u`, IRIs are wrapped in `<>` and literals in `""`.
    pub fn normalize_bgp(bgp: &Vec<Triple>) -> (r: Vec<NormalizedTriple>)
        ensures
            nviews(r@) == spec_normalize(view_bgp(bgp@)),
    {
        normalize_pattern(bgp)
    }

    /// The unlabeled identifiers of a normalized graph, each exactly once,
    /// in lexicographic order.
    pub fn get_graph_blank_nodes(graph: &Vec<NormalizedTriple>) -> (r: Vec<String>)
        ensures
            string_views(r@).no_duplicates(),
            vstd::relations::sorted_by(string_views(r@), crate::text::lex_leq_fn()),
            forall|t: Seq<char>|
                #[trigger] string_views(r@).contains(t) <==> graph_blanks(
                    nviews(graph@),
                ).contains(t),
    {
        let c = ctriples_of(graph);
        let blanks = graph_blank_nodes(&c);
        let mut out: Vec<String> = Vec::new();
        let mut i: usize = 0;
        while i < blanks.len()
            invariant
                i <= blanks@.len(),
                out@.len() == i,
                forall|j: int| 0 <= j < i ==> #[trigger] out@[j]@ == blanks@[j]@,
            decreases blanks@.len() - i,
        {
            out.push(string_from_chars(&blanks[i]));
            i = i + 1;
        }
        proof {
            assert(string_views(out@) =~= views_of(blanks@)) by {
                assert forall|j: int|
                    0 <= j < blanks@.len() implies string_views(out@)[j] == views_of(
                    blanks@)[j] by {
                    assert(out@[j]@ == blanks@[j]@);
                }
            }
        }
        out
    }

    /// Hashes a string with the engine's hash function (64 bits drawn from a
    /// 128-bit digest); `Err` propagates a failure of the hash backend.
    pub fn hash_string(data: &str) -> (r: Result<u64, TulnaError>)
        ensures
            r is Ok,
            r matches Ok(h) ==> h == crate::hashing::spec_hash64(data@),
    {
        let v = chars_of(data);
        crate::hashing::hash_chars(&v)
    }
}

} // verus!
