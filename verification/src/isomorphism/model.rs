use vstd::prelude::*;

use crate::text::spec_dec;

verus! {

// ---------------------------------------------------------------------------
// Views of the data model
//
// A term of a graph pattern is one of four sorts; a triple is an ordered
// (subject, predicate, object). The engine works on a normalized string
// encoding of terms in which variables and blank nodes — the unlabeled
// sorts — both carry the `_:` prefix, and labeled terms never do.
// ---------------------------------------------------------------------------

/// Mathematical view of one term of an input triple.
pub ghost enum NodeView {
    Iri(Seq<char>),
    Literal(Seq<char>),
    Blank(Seq<char>),
    Var(Seq<char>),
}

/// Mathematical view of one input triple.
pub ghost struct TripleView {
    pub s: NodeView,
    pub p: NodeView,
    pub o: NodeView,
}

/// Mathematical view of one normalized triple: three encoded terms.
pub ghost struct NTripleView {
    pub s: Seq<char>,
    pub p: Seq<char>,
    pub o: Seq<char>,
}

/// An encoded term denotes an unlabeled node exactly when it carries the
/// `_:` prefix.
pub open spec fn spec_is_blank(t: Seq<char>) -> bool {
    t.len() >= 2 && t[0] == '_' && t[1] == ':'
}

/// A normalized triple has an unlabeled position.
pub open spec fn triple_has_blank(t: NTripleView) -> bool {
    spec_is_blank(t.s) || spec_is_blank(t.p) || spec_is_blank(t.o)
}

/// `t` is an unlabeled identifier occurring in the triple `tr`.
pub open spec fn triple_mentions_blank(tr: NTripleView, t: Seq<char>) -> bool {
    spec_is_blank(t) && (tr.s == t || tr.p == t || tr.o == t)
}

/// The set of unlabeled identifiers of a normalized graph.
pub open spec fn graph_blanks(g: Seq<NTripleView>) -> Set<Seq<char>> {
    Set::new(|t: Seq<char>| exists|i: int| 0 <= i < g.len() && triple_mentions_blank(#[trigger] g[i], t))
}

/// The triples of a normalized graph, as a set: graphs are unordered and
/// duplicate-tolerant.
pub open spec fn graph_set(g: Seq<NTripleView>) -> Set<NTripleView> {
    g.to_set()
}

/// The ground part of a normalized graph: its triples with no unlabeled
/// position. No relabeling of unlabeled nodes can change these.
pub open spec fn ground_set(g: Seq<NTripleView>) -> Set<NTripleView> {
    Set::new(|t: NTripleView| g.to_set().contains(t) && !triple_has_blank(t))
}

// ---------------------------------------------------------------------------
// Rewriting a graph by a map over unlabeled identifiers
// ---------------------------------------------------------------------------

/// Replaces a term by its image under `m` when `m` defines one.
pub open spec fn rewrite_term(m: Map<Seq<char>, Seq<char>>, t: Seq<char>) -> Seq<char> {
    if m.dom().contains(t) {
        m[t]
    } else {
        t
    }
}

pub open spec fn rewrite_triple(m: Map<Seq<char>, Seq<char>>, t: NTripleView) -> NTripleView {
    NTripleView { s: rewrite_term(m, t.s), p: rewrite_term(m, t.p), o: rewrite_term(m, t.o) }
}

pub open spec fn rewrite_graph(m: Map<Seq<char>, Seq<char>>, g: Seq<NTripleView>) -> Seq<
    NTripleView,
> {
    g.map_values(|t: NTripleView| rewrite_triple(m, t))
}

/// `m` is a total, one-to-one correspondence from the unlabeled identifiers
/// of `a` onto those of `b`.
pub open spec fn bijection_between(
    m: Map<Seq<char>, Seq<char>>,
    a: Seq<NTripleView>,
    b: Seq<NTripleView>,
) -> bool {
    &&& m.dom() == graph_blanks(a)
    &&& forall|t: Seq<char>| m.dom().contains(t) ==> graph_blanks(b).contains(#[trigger] m[t])
    &&& forall|u: Seq<char>|
        graph_blanks(b).contains(u) ==> exists|t: Seq<char>|
            m.dom().contains(t) && #[trigger] m[t] == u
    &&& forall|t1: Seq<char>, t2: Seq<char>|
        m.dom().contains(t1) && m.dom().contains(t2) && #[trigger] m[t1] == #[trigger] m[t2]
            ==> t1 == t2
}

/// `m` witnesses that the two normalized graphs are isomorphic: it is a
/// bijection over their unlabeled identifiers, and rewriting `a` by `m`
/// yields exactly the triple set of `b`.
pub open spec fn iso_witness(
    m: Map<Seq<char>, Seq<char>>,
    a: Seq<NTripleView>,
    b: Seq<NTripleView>,
) -> bool {
    &&& bijection_between(m, a, b)
    &&& graph_set(rewrite_graph(m, a)) == graph_set(b)
}

/// The two normalized graphs are isomorphic under a renaming of their
/// unlabeled nodes.
pub open spec fn spec_isomorphic(a: Seq<NTripleView>, b: Seq<NTripleView>) -> bool {
    exists|m: Map<Seq<char>, Seq<char>>| iso_witness(m, a, b)
}

// ---------------------------------------------------------------------------
// Normalization
//
// Variables are renumbered per graph in first-occurrence order (subject,
// predicate, object, next triple) and become unlabeled `_:v<k>` identifiers;
// blank nodes keep their id under the `_:u` prefix; IRIs and literals are
// wrapped in `<>` and `""`. The four encodings are disjoint, and only the
// unlabeled ones carry the `_:` prefix.
// ---------------------------------------------------------------------------

pub open spec fn enc_iri(s: Seq<char>) -> Seq<char> {
    seq!['<'] + s + seq!['>']
}

pub open spec fn enc_literal(s: Seq<char>) -> Seq<char> {
    seq!['"'] + s + seq!['"']
}

pub open spec fn enc_blank(id: Seq<char>) -> Seq<char> {
    seq!['_', ':', 'u'] + id
}

pub open spec fn enc_var(k: nat) -> Seq<char> {
    seq!['_', ':', 'v'] + spec_dec(k)
}

/// The position of the first occurrence of `v` in `vars`.
pub open spec fn first_index(vars: Seq<Seq<char>>, v: Seq<char>) -> int
    decreases vars.len(),
{
    if vars.len() == 0 {
        0
    } else if vars[0] == v {
        0
    } else {
        1 + first_index(vars.drop_first(), v)
    }
}

/// When `v` first occurs at position `i`, `first_index` returns `i`.
pub proof fn lemma_first_index(vars: Seq<Seq<char>>, v: Seq<char>, i: int)
    requires
        0 <= i < vars.len(),
        vars[i] == v,
        forall|j: int| 0 <= j < i ==> vars[j] != v,
    ensures
        first_index(vars, v) == i,
        vars.contains(v),
    decreases i,
{
    if i == 0 {
    } else {
        assert(vars[0] != v);
        lemma_first_index(vars.drop_first(), v, i - 1);
    }
}

/// The variable list after seeing one node.
pub open spec fn node_upd_vars(vars: Seq<Seq<char>>, n: NodeView) -> Seq<Seq<char>> {
    match n {
        NodeView::Var(v) => if vars.contains(v) {
            vars
        } else {
            vars.push(v)
        },
        _ => vars,
    }
}

/// The variable list after seeing one triple (subject, then predicate, then
/// object).
pub open spec fn triple_upd_vars(vars: Seq<Seq<char>>, t: TripleView) -> Seq<Seq<char>> {
    node_upd_vars(node_upd_vars(node_upd_vars(vars, t.s), t.p), t.o)
}

/// The variable list accumulated over the first `i` triples.
pub open spec fn vars_at(ts: Seq<TripleView>, i: int) -> Seq<Seq<char>>
    decreases i,
{
    if i <= 0 {
        Seq::empty()
    } else {
        triple_upd_vars(vars_at(ts, i - 1), ts[i - 1])
    }
}

/// The encoding of one node given the variables seen so far.
pub open spec fn norm_node(vars: Seq<Seq<char>>, n: NodeView) -> Seq<char> {
    match n {
        NodeView::Iri(s) => enc_iri(s),
        NodeView::Literal(s) => enc_literal(s),
        NodeView::Blank(id) => enc_blank(id),
        NodeView::Var(v) => if vars.contains(v) {
            enc_var(first_index(vars, v) as nat)
        } else {
            enc_var(vars.len())
        },
    }
}

/// The normalization of the `i`-th triple.
pub open spec fn norm_triple_at(ts: Seq<TripleView>, i: int) -> NTripleView {
    let vars = vars_at(ts, i);
    let t = ts[i];
    let vars_s = node_upd_vars(vars, t.s);
    let vars_p = node_upd_vars(vars_s, t.p);
    NTripleView {
        s: norm_node(vars, t.s),
        p: norm_node(vars_s, t.p),
        o: norm_node(vars_p, t.o),
    }
}

/// The normalization of a whole graph pattern.
pub open spec fn spec_normalize(ts: Seq<TripleView>) -> Seq<NTripleView> {
    Seq::new(ts.len(), |i: int| norm_triple_at(ts, i))
}

// ---------------------------------------------------------------------------
// Input validity
// ---------------------------------------------------------------------------

/// A labeled payload must not begin with `_:`; otherwise the partition of
/// terms into labeled and unlabeled would be ill-defined.
pub open spec fn node_valid(n: NodeView) -> bool {
    match n {
        NodeView::Iri(s) => !spec_is_blank(s),
        NodeView::Literal(s) => !spec_is_blank(s),
        _ => true,
    }
}

pub open spec fn triple_valid(t: TripleView) -> bool {
    node_valid(t.s) && node_valid(t.p) && node_valid(t.o)
}

pub open spec fn bgp_valid(ts: Seq<TripleView>) -> bool {
    forall|i: int| 0 <= i < ts.len() ==> triple_valid(#[trigger] ts[i])
}

// ---------------------------------------------------------------------------
// Laws of the isomorphism witness at the level of the model
// ---------------------------------------------------------------------------

/// Every graph is isomorphic to itself: the identity over its unlabeled
/// identifiers is a witness.
pub proof fn lemma_spec_iso_reflexive(g: Seq<NTripleView>)
    ensures
        spec_isomorphic(g, g),
{
    let m = Map::<Seq<char>, Seq<char>>::new(
        |t: Seq<char>| graph_blanks(g).contains(t),
        |t: Seq<char>| t,
    );
    assert(m.dom() =~= graph_blanks(g));
    assert forall|i: int| 0 <= i < g.len() implies #[trigger] rewrite_graph(m, g)[i] == g[i] by {
        assert(rewrite_triple(m, g[i]) == g[i]);
    }
    assert(rewrite_graph(m, g) =~= g);
    assert(iso_witness(m, g, g));
}

/// Renaming closure: rewriting a graph by any one-to-one, blank-valued map
/// over its unlabeled identifiers yields an isomorphic graph — the map
/// itself is the witness. Variables and blank nodes are both unlabeled
/// identifiers after normalization, so this covers renaming either.
pub proof fn lemma_spec_iso_renaming(g: Seq<NTripleView>, m: Map<Seq<char>, Seq<char>>)
    requires
        m.dom() == graph_blanks(g),
        forall|t: Seq<char>| m.dom().contains(t) ==> spec_is_blank(#[trigger] m[t]),
        forall|t1: Seq<char>, t2: Seq<char>|
            m.dom().contains(t1) && m.dom().contains(t2) && #[trigger] m[t1] == #[trigger] m[t2]
                ==> t1 == t2,
    ensures
        iso_witness(m, g, rewrite_graph(m, g)),
        spec_isomorphic(g, rewrite_graph(m, g)),
{
    let rw = rewrite_graph(m, g);
    // the unlabeled identifiers of the rewritten graph are exactly the
    // images under the map
    assert forall|u: Seq<char>| graph_blanks(rw).contains(u) implies exists|t: Seq<char>|
        m.dom().contains(t) && #[trigger] m[t] == u by {
        let i = choose|i: int| 0 <= i < rw.len() && triple_mentions_blank(#[trigger] rw[i], u);
        assert(rw[i] == rewrite_triple(m, g[i]));
        if rewrite_term(m, g[i].s) == u {
            if m.dom().contains(g[i].s) {
                assert(m[g[i].s] == u);
            } else {
                assert(u == g[i].s);
                assert(triple_mentions_blank(g[i], u));
                assert(graph_blanks(g).contains(u));
                assert(false);
            }
        } else if rewrite_term(m, g[i].p) == u {
            if m.dom().contains(g[i].p) {
                assert(m[g[i].p] == u);
            } else {
                assert(u == g[i].p);
                assert(triple_mentions_blank(g[i], u));
                assert(graph_blanks(g).contains(u));
                assert(false);
            }
        } else {
            assert(rewrite_term(m, g[i].o) == u);
            if m.dom().contains(g[i].o) {
                assert(m[g[i].o] == u);
            } else {
                assert(u == g[i].o);
                assert(triple_mentions_blank(g[i], u));
                assert(graph_blanks(g).contains(u));
                assert(false);
            }
        }
    }
    assert forall|t: Seq<char>| m.dom().contains(t) implies graph_blanks(rw).contains(
        #[trigger] m[t]) by {
        assert(graph_blanks(g).contains(t));
        let i = choose|i: int| 0 <= i < g.len() && triple_mentions_blank(#[trigger] g[i], t);
        assert(rw[i] == rewrite_triple(m, g[i]));
        if g[i].s == t {
            assert(rw[i].s == m[t]);
        } else if g[i].p == t {
            assert(rw[i].p == m[t]);
        } else {
            assert(rw[i].o == m[t]);
        }
        assert(triple_mentions_blank(rw[i], m[t]));
    }
    assert(bijection_between(m, g, rw));
    assert(graph_set(rewrite_graph(m, g)) == graph_set(rw));
    assert(iso_witness(m, g, rw));
}

/// Isomorphism of normalized graphs is symmetric: the inverse of a witness
/// for `(a, b)` is a witness for `(b, a)`.
pub proof fn lemma_spec_iso_symmetric(a: Seq<NTripleView>, b: Seq<NTripleView>)
    requires
        spec_isomorphic(a, b),
    ensures
        spec_isomorphic(b, a),
{
    let m = choose|m: Map<Seq<char>, Seq<char>>| iso_witness(m, a, b);
    let w = Map::<Seq<char>, Seq<char>>::new(
        |u: Seq<char>| graph_blanks(b).contains(u),
        |u: Seq<char>| choose|t: Seq<char>| m.dom().contains(t) && m[t] == u,
    );
    assert(w.dom() =~= graph_blanks(b));
    // w maps each blank of b back to its unique preimage under m
    assert forall|u: Seq<char>| w.dom().contains(u) implies m.dom().contains(#[trigger] w[u])
        && m[w[u]] == u by {
        assert(graph_blanks(b).contains(u));
        let t = choose|t: Seq<char>| m.dom().contains(t) && m[t] == u;
        assert(m.dom().contains(t) && m[t] == u);
    }
    assert forall|t: Seq<char>| m.dom().contains(t) implies w.dom().contains(#[trigger] m[t])
        && w[m[t]] == t by {
        assert(graph_blanks(b).contains(m[t]));
        let t2 = choose|t2: Seq<char>| m.dom().contains(t2) && m[t2] == m[t];
        assert(t2 == t);
    }
    // w is a bijection from blanks of b onto blanks of a
    assert forall|u: Seq<char>| w.dom().contains(u) implies graph_blanks(a).contains(
        #[trigger] w[u]) by {}
    assert forall|t: Seq<char>| graph_blanks(a).contains(t) implies exists|u: Seq<char>|
        w.dom().contains(u) && #[trigger] w[u] == t by {
        assert(m.dom().contains(t));
        assert(w.dom().contains(m[t]) && w[m[t]] == t);
    }
    assert forall|u1: Seq<char>, u2: Seq<char>|
        w.dom().contains(u1) && w.dom().contains(u2) && #[trigger] w[u1] == #[trigger] w[u2]
        implies u1 == u2 by {
        assert(m[w[u1]] == u1 && m[w[u2]] == u2);
    }
    // rewriting b by w gives back the triple set of a
    assert forall|t: NTripleView| graph_set(b).contains(t) implies graph_set(
        rewrite_graph(m, a)).contains(t) by {}
    assert forall|i: int| 0 <= i < b.len() implies graph_set(a).contains(
        rewrite_triple(w, #[trigger] b[i])) by {
        // b[i] is the rewrite by m of some triple of a
        assert(graph_set(rewrite_graph(m, a)).contains(b[i]));
        let j = choose|j: int| 0 <= j < a.len() && #[trigger] rewrite_graph(m, a)[j] == b[i];
        let ta = a[j];
        assert(rewrite_triple(m, ta) == b[i]);
        lemma_rewrite_round_trip_term(m, w, a, b, ta.s, j);
        lemma_rewrite_round_trip_term(m, w, a, b, ta.p, j);
        lemma_rewrite_round_trip_term(m, w, a, b, ta.o, j);
        assert(rewrite_triple(w, rewrite_triple(m, ta)) == ta);
        assert(graph_set(a).contains(ta));
    }
    assert forall|t: NTripleView| graph_set(a).contains(t) implies graph_set(
        rewrite_graph(w, b)).contains(t) by {
        let j = choose|j: int| 0 <= j < a.len() && a[j] == t;
        assert(rewrite_graph(m, a)[j] == rewrite_triple(m, t));
        assert(graph_set(rewrite_graph(m, a)).contains(rewrite_triple(m, t)));
        assert(graph_set(b).contains(rewrite_triple(m, t)));
        let i = choose|i: int| 0 <= i < b.len() && b[i] == rewrite_triple(m, t);
        lemma_rewrite_round_trip_term(m, w, a, b, t.s, j);
        lemma_rewrite_round_trip_term(m, w, a, b, t.p, j);
        lemma_rewrite_round_trip_term(m, w, a, b, t.o, j);
        assert(rewrite_graph(w, b)[i] == rewrite_triple(w, rewrite_triple(m, t)));
        assert(rewrite_graph(w, b)[i] == t);
        assert(graph_set(rewrite_graph(w, b)).contains(rewrite_graph(w, b)[i]));
    }
    assert(graph_set(rewrite_graph(w, b)) =~= graph_set(a));
    assert(iso_witness(w, b, a));
}

/// Applying `m` and then its inverse `w` to one term of a triple of `a`
/// gives the term back.
proof fn lemma_rewrite_round_trip_term(
    m: Map<Seq<char>, Seq<char>>,
    w: Map<Seq<char>, Seq<char>>,
    a: Seq<NTripleView>,
    b: Seq<NTripleView>,
    t: Seq<char>,
    j: int,
)
    requires
        iso_witness(m, a, b),
        w.dom() == graph_blanks(b),
        forall|u: Seq<char>|
            w.dom().contains(u) ==> m.dom().contains(#[trigger] w[u]) && m[w[u]] == u,
        forall|u: Seq<char>|
            m.dom().contains(u) ==> w.dom().contains(#[trigger] m[u]) && w[m[u]] == u,
        0 <= j < a.len(),
        a[j].s == t || a[j].p == t || a[j].o == t,
    ensures
        rewrite_term(w, rewrite_term(m, t)) == t,
{
    if m.dom().contains(t) {
        assert(rewrite_term(m, t) == m[t]);
        assert(w.dom().contains(m[t]) && w[m[t]] == t);
    } else {
        // t is not an unlabeled identifier of a, so it is labeled and fixed
        assert(!spec_is_blank(t)) by {
            if spec_is_blank(t) {
                assert(triple_mentions_blank(a[j], t));
                assert(graph_blanks(a).contains(t));
            }
        }
        assert(rewrite_term(m, t) == t);
        assert(!w.dom().contains(t)) by {
            if w.dom().contains(t) {
                assert(graph_blanks(b).contains(t));
            }
        }
    }
}

} // verus!
