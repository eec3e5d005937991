use vstd::prelude::*;
use vstd::relations::{sorted_by, total_ordering};
use vstd::seq_lib::lemma_sorted_unique;
use vstd::string::StrSliceExecFns;

verus! {

// ---------------------------------------------------------------------------
// Conversions between `String`/`&str` and `Vec<char>`
//
// All internal text processing works on `Vec<char>`, whose view is the same
// `Seq<char>` as a string's view.
// ---------------------------------------------------------------------------

/// Collects the characters of a string slice into a vector.
pub fn chars_of(s: &str) -> (r: Vec<char>)
    ensures
        r@ == s@,
{
    let n = s.unicode_len();
    let mut r: Vec<char> = Vec::new();
    let mut i: usize = 0;
    while i < n
        invariant
            n == s@.len(),
            i <= n,
            r@ == s@.subrange(0, i as int),
        decreases n - i,
    {
        r.push(s.get_char(i));
        i = i + 1;
        proof {
            assert(r@ =~= s@.subrange(0, i as int));
        }
    }
    proof {
        assert(r@ =~= s@);
    }
    r
}

/// Relies on `String`'s `FromIterator<char>` impl: collecting characters
/// yields the string with exactly those characters.
#[verifier::external_body]
pub fn string_from_chars(v: &Vec<char>) -> (r: String)
    ensures
        r@ == v@,
{
    v.iter().collect()
}

/// Copies a character vector.
pub fn copy_chars(a: &Vec<char>) -> (r: Vec<char>)
    ensures
        r@ == a@,
{
    let mut r: Vec<char> = Vec::new();
    let mut i: usize = 0;
    while i < a.len()
        invariant
            i <= a@.len(),
            r@ == a@.subrange(0, i as int),
        decreases a@.len() - i,
    {
        r.push(a[i]);
        i = i + 1;
        proof {
            assert(r@ =~= a@.subrange(0, i as int));
        }
    }
    proof {
        assert(r@ =~= a@);
    }
    r
}

/// Appends all characters of `src` to `dst`.
pub fn push_all(dst: &mut Vec<char>, src: &Vec<char>)
    ensures
        final(dst)@ == old(dst)@ + src@,
{
    let mut i: usize = 0;
    while i < src.len()
        invariant
            i <= src@.len(),
            dst@ == old(dst)@ + src@.subrange(0, i as int),
        decreases src@.len() - i,
    {
        dst.push(src[i]);
        i = i + 1;
        proof {
            assert(dst@ =~= old(dst)@ + src@.subrange(0, i as int));
        }
    }
    proof {
        assert(dst@ =~= old(dst)@ + src@);
    }
}

/// Appends all characters of a string slice to `dst`.
pub fn push_str_chars(dst: &mut Vec<char>, s: &str)
    ensures
        final(dst)@ == old(dst)@ + s@,
{
    let n = s.unicode_len();
    let mut i: usize = 0;
    while i < n
        invariant
            n == s@.len(),
            i <= n,
            dst@ == old(dst)@ + s@.subrange(0, i as int),
        decreases n - i,
    {
        dst.push(s.get_char(i));
        i = i + 1;
        proof {
            assert(dst@ =~= old(dst)@ + s@.subrange(0, i as int));
        }
    }
    proof {
        assert(dst@ =~= old(dst)@ + s@);
    }
}

/// Decides equality of two character vectors.
pub fn chars_eq(a: &Vec<char>, b: &Vec<char>) -> (r: bool)
    ensures
        r == (a@ == b@),
{
    if a.len() != b.len() {
        proof {
            assert(a@ != b@);
        }
        return false;
    }
    let mut i: usize = 0;
    while i < a.len()
        invariant
            a@.len() == b@.len(),
            i <= a@.len(),
            forall|j: int| 0 <= j < i ==> a@[j] == b@[j],
        decreases a@.len() - i,
    {
        if a[i] != b[i] {
            return false;
        }
        i = i + 1;
    }
    proof {
        assert(a@ =~= b@);
    }
    true
}

/// Decides whether the characters of `a` equal the view of the string `s`.
pub fn chars_eq_str(a: &Vec<char>, s: &str) -> (r: bool)
    ensures
        r == (a@ == s@),
{
    let n = s.unicode_len();
    if a.len() != n {
        proof {
            assert(a@ != s@);
        }
        return false;
    }
    let mut i: usize = 0;
    while i < n
        invariant
            n == s@.len(),
            a@.len() == n,
            i <= n,
            forall|j: int| 0 <= j < i ==> a@[j] == s@[j],
        decreases n - i,
    {
        if a[i] != s.get_char(i) {
            return false;
        }
        i = i + 1;
    }
    proof {
        assert(a@ =~= s@);
    }
    true
}

// ---------------------------------------------------------------------------
// Prefix and substring tests
// ---------------------------------------------------------------------------

/// `p` is a prefix of `s`.
pub open spec fn spec_has_prefix(s: Seq<char>, p: Seq<char>) -> bool {
    p.len() <= s.len() && s.subrange(0, p.len() as int) == p
}

/// Decides whether `s` starts with the string `p`.
pub fn has_prefix(s: &Vec<char>, p: &str) -> (r: bool)
    ensures
        r == spec_has_prefix(s@, p@),
{
    let n = p.unicode_len();
    if s.len() < n {
        return false;
    }
    let mut i: usize = 0;
    while i < n
        invariant
            n == p@.len(),
            n <= s@.len(),
            i <= n,
            forall|j: int| 0 <= j < i ==> s@[j] == p@[j],
        decreases n - i,
    {
        if s[i] != p.get_char(i) {
            proof {
                assert(s@.subrange(0, n as int)[i as int] != p@[i as int]);
            }
            return false;
        }
        i = i + 1;
    }
    proof {
        assert(s@.subrange(0, n as int) =~= p@);
    }
    true
}

/// `n` occurs in `h` starting at position `i`.
pub open spec fn spec_occurs_at(h: Seq<char>, n: Seq<char>, i: int) -> bool {
    0 <= i && i + n.len() <= h.len() && h.subrange(i, i + n.len()) == n
}

/// `n` occurs somewhere in `h`.
pub open spec fn spec_contains_seq(h: Seq<char>, n: Seq<char>) -> bool {
    exists|i: int| spec_occurs_at(h, n, i)
}

/// Decides whether the string `n` occurs in `h`.
pub fn contains_str(h: &Vec<char>, n: &str) -> (r: bool)
    ensures
        r == spec_contains_seq(h@, n@),
{
    let nlen = n.unicode_len();
    let hlen = h.len();
    if nlen > hlen {
        return false;
    }
    let mut i: usize = 0;
    while i <= hlen - nlen
        invariant
            nlen == n@.len(),
            hlen == h@.len(),
            nlen <= hlen,
            i <= hlen - nlen + 1,
            forall|k: int| 0 <= k < i ==> !spec_occurs_at(h@, n@, k),
        decreases hlen - i,
    {
        let mut j: usize = 0;
        let mut hit = true;
        while j < nlen
            invariant
                nlen == n@.len(),
                hlen == h@.len(),
                i <= hlen - nlen,
                j <= nlen,
                hit ==> forall|k: int| 0 <= k < j ==> h@[i + k] == n@[k],
                !hit ==> exists|k: int| 0 <= k < n@.len() && h@[i + k] != n@[k],
            decreases nlen - j,
        {
            if h[i + j] != n.get_char(j) {
                hit = false;
                proof {
                    assert(h@[i + j as int] != n@[j as int]);
                }
                j = nlen;
            } else {
                j = j + 1;
            }
        }
        if hit {
            proof {
                assert(h@.subrange(i as int, i + n@.len()) =~= n@);
                assert(spec_occurs_at(h@, n@, i as int));
            }
            return true;
        }
        proof {
            if spec_occurs_at(h@, n@, i as int) {
                let sub = h@.subrange(i as int, i + n@.len());
                assert(sub == n@);
                let k = choose|k: int| 0 <= k < n@.len() && h@[i + k] != n@[k];
                assert(sub[k] == h@[i + k]);
                assert(false);
            }
        }
        i = i + 1;
    }
    proof {
        assert forall|k: int| !spec_occurs_at(h@, n@, k) by {
            if spec_occurs_at(h@, n@, k) {
                assert(0 <= k && k + n@.len() <= h@.len());
                assert(0 <= k < i);
            }
        }
    }
    false
}

/// Decides whether `x` occurs among the strings of `v`.
pub fn contains_chars(v: &Vec<Vec<char>>, x: &Vec<char>) -> (r: bool)
    ensures
        r == views_of(v@).contains(x@),
{
    let mut i: usize = 0;
    while i < v.len()
        invariant
            i <= v@.len(),
            forall|j: int| 0 <= j < i ==> #[trigger] v@[j]@ != x@,
        decreases v@.len() - i,
    {
        if chars_eq(&v[i], x) {
            proof {
                assert(views_of(v@)[i as int] == x@);
            }
            return true;
        }
        i = i + 1;
    }
    proof {
        if views_of(v@).contains(x@) {
            let j = choose|j: int| 0 <= j < views_of(v@).len() && views_of(v@)[j] == x@;
            assert(v@[j]@ == x@);
        }
    }
    false
}

// ---------------------------------------------------------------------------
// Lexicographic order on character sequences, and sorting
// ---------------------------------------------------------------------------

/// Lexicographic "less or equal" on character sequences, by code point.
pub open spec fn lex_leq(a: Seq<char>, b: Seq<char>) -> bool
    decreases a.len(),
{
    if a.len() == 0 {
        true
    } else if b.len() == 0 {
        false
    } else if a[0] < b[0] {
        true
    } else if a[0] > b[0] {
        false
    } else {
        lex_leq(a.drop_first(), b.drop_first())
    }
}

pub proof fn lemma_lex_leq_total(a: Seq<char>, b: Seq<char>)
    ensures
        lex_leq(a, b) || lex_leq(b, a),
    decreases a.len(),
{
    if a.len() != 0 && b.len() != 0 && !(a[0] < b[0]) && !(a[0] > b[0]) {
        lemma_lex_leq_total(a.drop_first(), b.drop_first());
    }
}

pub proof fn lemma_lex_leq_antisymmetric(a: Seq<char>, b: Seq<char>)
    requires
        lex_leq(a, b),
        lex_leq(b, a),
    ensures
        a == b,
    decreases a.len(),
{
    if a.len() == 0 {
        assert(b.len() == 0);
        assert(a =~= b);
    } else {
        assert(b.len() != 0);
        assert(a[0] == b[0]);
        lemma_lex_leq_antisymmetric(a.drop_first(), b.drop_first());
        assert forall|i: int| 0 <= i < a.len() implies a[i] == b[i] by {
            if i > 0 {
                assert(a.drop_first()[i - 1] == b.drop_first()[i - 1]);
            }
        }
        assert(a =~= b);
    }
}

pub proof fn lemma_lex_leq_transitive(a: Seq<char>, b: Seq<char>, c: Seq<char>)
    requires
        lex_leq(a, b),
        lex_leq(b, c),
    ensures
        lex_leq(a, c),
    decreases a.len(),
{
    if a.len() != 0 && b.len() != 0 && c.len() != 0 && a[0] == b[0] && b[0] == c[0] {
        lemma_lex_leq_transitive(a.drop_first(), b.drop_first(), c.drop_first());
    }
}

/// The spec-level total order used throughout: `lex_leq` as a function value.
pub open spec fn lex_leq_fn() -> spec_fn(Seq<char>, Seq<char>) -> bool {
    |a: Seq<char>, b: Seq<char>| lex_leq(a, b)
}

pub proof fn lemma_lex_leq_total_ordering()
    ensures
        total_ordering(lex_leq_fn()),
{
    let leq = lex_leq_fn();
    assert forall|a: Seq<char>| #[trigger] leq(a, a) by {
        lemma_lex_leq_total(a, a);
    }
    assert forall|a: Seq<char>, b: Seq<char>| #[trigger] leq(a, b) && #[trigger] leq(b, a)
        implies a == b by {
        lemma_lex_leq_antisymmetric(a, b);
    }
    assert forall|a: Seq<char>, b: Seq<char>, c: Seq<char>|
        #[trigger] leq(a, b) && #[trigger] leq(b, c) implies leq(a, c) by {
        lemma_lex_leq_transitive(a, b, c);
    }
    assert forall|a: Seq<char>, b: Seq<char>| #[trigger] leq(a, b) || #[trigger] leq(b, a) by {
        lemma_lex_leq_total(a, b);
    }
}

/// Decides `lex_leq` on the suffixes of two character vectors from `i` on.
fn lex_leq_from(a: &Vec<char>, b: &Vec<char>, i: usize) -> (r: bool)
    requires
        i <= a@.len(),
        i <= b@.len(),
    ensures
        r == lex_leq(a@.subrange(i as int, a@.len() as int),
            b@.subrange(i as int, b@.len() as int)),
    decreases a@.len() - i,
{
    let ghost sa = a@.subrange(i as int, a@.len() as int);
    let ghost sb = b@.subrange(i as int, b@.len() as int);
    if i >= a.len() {
        proof {
            assert(sa.len() == 0);
        }
        return true;
    }
    if i >= b.len() {
        proof {
            assert(sb.len() == 0);
            assert(sa.len() != 0);
        }
        return false;
    }
    let ca = a[i];
    let cb = b[i];
    proof {
        assert(sa[0] == a@[i as int]);
        assert(sb[0] == b@[i as int]);
    }
    if ca < cb {
        return true;
    }
    if ca > cb {
        return false;
    }
    let r = lex_leq_from(a, b, i + 1);
    proof {
        assert(sa.drop_first() =~= a@.subrange(i + 1, a@.len() as int));
        assert(sb.drop_first() =~= b@.subrange(i + 1, b@.len() as int));
    }
    r
}

/// Decides `lex_leq` on two character vectors.
pub fn lex_leq_exec(a: &Vec<char>, b: &Vec<char>) -> (r: bool)
    ensures
        r == lex_leq(a@, b@),
{
    let r = lex_leq_from(a, b, 0);
    proof {
        assert(a@.subrange(0, a@.len() as int) =~= a@);
        assert(b@.subrange(0, b@.len() as int) =~= b@);
    }
    r
}

/// The views of the elements of a vector of character vectors.
pub open spec fn views_of(v: Seq<Vec<char>>) -> Seq<Seq<char>> {
    v.map_values(|x: Vec<char>| x@)
}

/// Sorts a vector of character strings lexicographically.
///
/// The result is exactly the canonical `sort_by(lex_leq)` of the input views.
pub fn sort_char_seqs(v: Vec<Vec<char>>) -> (r: Vec<Vec<char>>)
    ensures
        views_of(r@) == views_of(v@).sort_by(lex_leq_fn()),
{
    let mut r: Vec<Vec<char>> = Vec::new();
    proof {
        assert(views_of(r@) =~= views_of(v@.subrange(0, 0)));
    }
    let mut i: usize = 0;
    while i < v.len()
        invariant
            i <= v@.len(),
            forall|p: int, q: int|
                0 <= p < q < r@.len() ==> lex_leq(#[trigger] views_of(r@)[p], #[trigger] views_of(
                    r@)[q]),
            views_of(r@).to_multiset() == views_of(v@.subrange(0, i as int)).to_multiset(),
        decreases v@.len() - i,
    {
        let x = copy_chars(&v[i]);
        let ghost old_r = r@;
        // find the insertion point: the first index whose element is not <= x
        let mut j: usize = 0;
        let mut searching = true;
        while searching && j < r.len()
            invariant
                j <= r@.len(),
                forall|k: int| 0 <= k < j ==> lex_leq(#[trigger] views_of(r@)[k], x@),
                !searching ==> j < r@.len() && !lex_leq(views_of(r@)[j as int], x@),
                r@ == old_r,
                x@ == v@[i as int]@,
            decreases r@.len() - j, (if searching { 1int } else { 0int }),
        {
            if lex_leq_exec(&r[j], &x) {
                j = j + 1;
            } else {
                searching = false;
            }
        }
        proof {
            if j < r@.len() {
                assert(!lex_leq(views_of(r@)[j as int], x@));
                lemma_lex_leq_total(views_of(r@)[j as int], x@);
                assert(lex_leq(x@, views_of(r@)[j as int]));
            }
        }
        let ghost xv = x@;
        r.insert(j, x);
        proof {
            let rv = views_of(r@);
            let ov = views_of(old_r);
            assert(rv =~= ov.subrange(0, j as int).push(xv) + ov.subrange(
                j as int, ov.len() as int));
            assert forall|p: int, q: int| 0 <= p < q < rv.len() implies lex_leq(
                #[trigger] rv[p], #[trigger] rv[q]) by {
                if p < j && q == j {
                    assert(rv[p] == ov[p]);
                    assert(rv[q] == xv);
                } else if p == j {
                    assert(rv[p] == xv);
                    assert(rv[q] == ov[q - 1]);
                    assert(lex_leq(xv, ov[j as int]));
                    if q - 1 > j {
                        assert(lex_leq(ov[j as int], ov[q - 1]));
                        lemma_lex_leq_transitive(xv, ov[j as int], ov[q - 1]);
                    }
                } else if p < j && q > j {
                    assert(rv[p] == ov[p]);
                    assert(rv[q] == ov[q - 1]);
                    if q - 1 == p {
                        lemma_lex_leq_total(ov[p], ov[p]);
                    } else {
                        assert(lex_leq(ov[p], ov[q - 1]));
                    }
                } else if p > j {
                    assert(rv[p] == ov[p - 1]);
                    assert(rv[q] == ov[q - 1]);
                    assert(lex_leq(ov[p - 1], ov[q - 1]));
                } else {
                    assert(p < j && q < j);
                    assert(rv[p] == ov[p]);
                    assert(rv[q] == ov[q]);
                    assert(lex_leq(ov[p], ov[q]));
                }
            }
            // multiset bookkeeping
            broadcast use vstd::seq_lib::group_to_multiset_ensures;

            vstd::seq_lib::lemma_multiset_commutative(
                ov.subrange(0, j as int).push(xv),
                ov.subrange(j as int, ov.len() as int),
            );
            vstd::seq_lib::lemma_multiset_commutative(ov.subrange(0, j as int), ov.subrange(
                j as int, ov.len() as int));
            assert(ov =~= ov.subrange(0, j as int) + ov.subrange(j as int, ov.len() as int));
            assert(rv.to_multiset() =~= ov.to_multiset().insert(xv));
            assert(views_of(v@.subrange(0, i + 1)) =~= views_of(v@.subrange(0, i as int)).push(
                xv));
        }
        i = i + 1;
    }
    proof {
        lemma_lex_leq_total_ordering();
        assert(v@.subrange(0, v@.len() as int) =~= v@);
        views_of(v@).lemma_sort_by_ensures(lex_leq_fn());
        assert forall|p: int, q: int| 0 <= p < q < views_of(r@).len() implies lex_leq_fn()(
            views_of(r@)[p], views_of(r@)[q]) by {
            assert(lex_leq(views_of(r@)[p], views_of(r@)[q]));
        }
        assert(sorted_by(views_of(r@), lex_leq_fn()));
        lemma_sorted_unique(views_of(r@), views_of(v@).sort_by(lex_leq_fn()), lex_leq_fn());
        assert(views_of(r@) =~= views_of(v@).sort_by(lex_leq_fn()));
    }
    r
}

// ---------------------------------------------------------------------------
// Decimal rendering and parsing
// ---------------------------------------------------------------------------

/// The character for a single decimal digit.
pub open spec fn spec_digit_char(d: nat) -> char {
    if d == 0 { '0' } else if d == 1 { '1' } else if d == 2 { '2' } else if d == 3 { '3' }
    else if d == 4 { '4' } else if d == 5 { '5' } else if d == 6 { '6' } else if d == 7 { '7' }
    else if d == 8 { '8' } else { '9' }
}

/// The decimal rendering of a natural number, without leading zeros.
pub open spec fn spec_dec(n: nat) -> Seq<char>
    decreases n,
{
    if n < 10 {
        seq![spec_digit_char(n)]
    } else {
        spec_dec(n / 10).push(spec_digit_char(n % 10))
    }
}

pub fn digit_char(d: u64) -> (r: char)
    requires
        d < 10,
    ensures
        r == spec_digit_char(d as nat),
{
    if d == 0 { '0' } else if d == 1 { '1' } else if d == 2 { '2' } else if d == 3 { '3' }
    else if d == 4 { '4' } else if d == 5 { '5' } else if d == 6 { '6' } else if d == 7 { '7' }
    else if d == 8 { '8' } else { '9' }
}

/// Renders a number in decimal.
pub fn dec_chars(n: u64) -> (r: Vec<char>)
    ensures
        r@ == spec_dec(n as nat),
    decreases n,
{
    if n < 10 {
        let mut r: Vec<char> = Vec::new();
        r.push(digit_char(n));
        proof {
            assert(r@ =~= spec_dec(n as nat));
        }
        r
    } else {
        let mut r = dec_chars(n / 10);
        r.push(digit_char(n % 10));
        r
    }
}

/// `true` when `c` is a decimal digit.
pub open spec fn spec_is_digit(c: char) -> bool {
    '0' <= c <= '9'
}

/// The numeric value of a digit character.
pub open spec fn spec_digit_val(c: char) -> nat {
    if c == '0' { 0 } else if c == '1' { 1 } else if c == '2' { 2 } else if c == '3' { 3 }
    else if c == '4' { 4 } else if c == '5' { 5 } else if c == '6' { 6 } else if c == '7' { 7 }
    else if c == '8' { 8 } else { 9 }
}

/// The value of a digit string, most significant digit first.
pub open spec fn spec_dec_val(s: Seq<char>) -> nat
    decreases s.len(),
{
    if s.len() == 0 {
        0
    } else {
        spec_dec_val(s.drop_last()) * 10 + spec_digit_val(s.last())
    }
}

pub open spec fn spec_all_digits(s: Seq<char>) -> bool {
    forall|i: int| 0 <= i < s.len() ==> spec_is_digit(#[trigger] s[i])
}

/// Decides whether `c` is a decimal digit.
pub fn is_digit(c: char) -> (r: bool)
    ensures
        r == spec_is_digit(c),
{
    '0' <= c && c <= '9'
}

/// The numeric value of a digit character.
pub fn digit_val(c: char) -> (r: u64)
    ensures
        r == spec_digit_val(c),
        r <= 9,
{
    if c == '0' { 0 } else if c == '1' { 1 } else if c == '2' { 2 } else if c == '3' { 3 }
    else if c == '4' { 4 } else if c == '5' { 5 } else if c == '6' { 6 } else if c == '7' { 7 }
    else if c == '8' { 8 } else { 9 }
}

/// Parses a string of decimal digits into a `u64`.
///
/// Returns `None` exactly when the value does not fit in a `u64`.
pub fn parse_u64_digits(s: &Vec<char>, from: usize, to: usize) -> (r: Option<u64>)
    requires
        from <= to <= s@.len(),
        spec_all_digits(s@.subrange(from as int, to as int)),
    ensures
        r matches Some(x) ==> x == spec_dec_val(s@.subrange(from as int, to as int)),
        r is None ==> spec_dec_val(s@.subrange(from as int, to as int)) > u64::MAX,
{
    let mut acc: u64 = 0;
    let mut i: usize = from;
    while i < to
        invariant
            from <= i <= to <= s@.len(),
            spec_all_digits(s@.subrange(from as int, to as int)),
            acc == spec_dec_val(s@.subrange(from as int, i as int)),
        decreases to - i,
    {
        proof {
            assert(s@.subrange(from as int, to as int)[i - from] == s@[i as int]);
        }
        let c = s[i];
        let d = digit_val(c);
        if acc > (u64::MAX - d) / 10 {
            proof {
                lemma_dec_val_monotone(s@.subrange(from as int, to as int), i - from + 1);
                assert(s@.subrange(from as int, i + 1).drop_last() =~= s@.subrange(
                    from as int, i as int));
                assert(s@.subrange(from as int, i + 1).last() == s@[i as int]);
                assert(s@.subrange(from as int, to as int).subrange(0, i - from + 1) =~= s@
                    .subrange(from as int, i + 1));
            }
            return None;
        }
        acc = acc * 10 + d;
        i = i + 1;
        proof {
            assert(s@.subrange(from as int, i as int).drop_last() =~= s@.subrange(
                from as int, i - 1));
            assert(s@.subrange(from as int, i as int).last() == s@[i - 1]);
        }
    }
    proof {
        assert(s@.subrange(from as int, i as int) =~= s@.subrange(from as int, to as int));
    }
    Some(acc)
}

/// A longer digit string (as a prefix extension) denotes a value at least as
/// large: the value of a prefix never exceeds the value of the whole.
proof fn lemma_dec_val_monotone(s: Seq<char>, i: int)
    requires
        0 < i <= s.len(),
        spec_all_digits(s),
    ensures
        spec_dec_val(s) >= spec_dec_val(s.subrange(0, i)),
    decreases s.len() - i,
{
    if i == s.len() {
        assert(s.subrange(0, i) =~= s);
    } else {
        lemma_dec_val_monotone(s, i + 1);
        let p = s.subrange(0, i + 1);
        assert(p.drop_last() =~= s.subrange(0, i));
        assert(spec_dec_val(p) == spec_dec_val(s.subrange(0, i)) * 10 + spec_digit_val(p.last()));
        assert(spec_dec_val(s.subrange(0, i)) * 10 >= spec_dec_val(s.subrange(0, i))) by (nonlinear_arith)
            requires spec_dec_val(s.subrange(0, i)) >= 0;
    }
}


/// Every character in `s[from..to]` is a decimal digit.
pub fn all_digits_range(s: &Vec<char>, from: usize, to: usize) -> (r: bool)
    requires
        from <= to <= s@.len(),
    ensures
        r == spec_all_digits(s@.subrange(from as int, to as int)),
{
    let mut i = from;
    while i < to
        invariant
            from <= i <= to <= s@.len(),
            forall|j: int| from <= j < i ==> spec_is_digit(#[trigger] s@[j]),
        decreases to - i,
    {
        if !is_digit(s[i]) {
            proof {
                assert(s@.subrange(from as int, to as int)[i - from] == s@[i as int]);
            }
            return false;
        }
        i = i + 1;
    }
    proof {
        assert forall|j: int|
            0 <= j < to - from implies spec_is_digit(#[trigger] s@.subrange(
            from as int, to as int)[j]) by {
            assert(s@.subrange(from as int, to as int)[j] == s@[from + j]);
        }
    }
    true
}

/// `t` is the decimal rendering of a value that fits in an `i64`, with an
/// optional sign.
pub open spec fn spec_valid_i64(t: Seq<char>) -> bool {
    t.len() > 0 && {
        let ds = if t[0] == '-' || t[0] == '+' {
            t.drop_first()
        } else {
            t
        };
        &&& ds.len() > 0
        &&& spec_all_digits(ds)
        &&& (if t[0] == '-' {
            spec_dec_val(ds) <= 0x8000_0000_0000_0000
        } else {
            spec_dec_val(ds) <= i64::MAX
        })
    }
}

/// The `i64` a token denotes, or 0 when it is not a valid decimal.
pub open spec fn spec_parse_i64_or0(t: Seq<char>) -> i64 {
    if !spec_valid_i64(t) {
        0
    } else {
        let ds = if t[0] == '-' || t[0] == '+' {
            t.drop_first()
        } else {
            t
        };
        if t[0] == '-' {
            (0 - spec_dec_val(ds) as int) as i64
        } else {
            spec_dec_val(ds) as i64
        }
    }
}

/// Parses a signed decimal; any malformed or out-of-range token gives 0.
pub fn parse_i64_or_zero(t: &Vec<char>) -> (r: i64)
    ensures
        r == spec_parse_i64_or0(t@),
{
    if t.len() == 0 {
        return 0;
    }
    let c0 = t[0];
    let from: usize = if c0 == '-' || c0 == '+' {
        1
    } else {
        0
    };
    let ghost ds = if c0 == '-' || c0 == '+' {
        t@.drop_first()
    } else {
        t@
    };
    proof {
        assert(ds =~= t@.subrange(from as int, t@.len() as int));
    }
    if t.len() == from {
        return 0;
    }
    if !all_digits_range(t, from, t.len()) {
        return 0;
    }
    match parse_u64_digits(t, from, t.len()) {
        Some(x) => {
            if c0 == '-' {
                if x > 0x8000_0000_0000_0000 {
                    return 0;
                }
                if x == 0x8000_0000_0000_0000 {
                    return i64::MIN;
                }
                proof {
                    assert(spec_valid_i64(t@));
                }
                return 0i64 - (x as i64);
            }
            if x > i64::MAX as u64 {
                proof {
                    assert(!spec_valid_i64(t@));
                }
                return 0;
            }
            proof {
                assert(spec_valid_i64(t@));
            }
            x as i64
        },
        None => {
            proof {
                assert(spec_dec_val(ds) > u64::MAX);
                assert(!spec_valid_i64(t@));
            }
            0
        },
    }
}

// ---------------------------------------------------------------------------
// ASCII upper-casing
// ---------------------------------------------------------------------------

/// Upper-cases an ASCII lower-case letter; any other character is unchanged.
pub open spec fn spec_upper_char(c: char) -> char {
    if c == 'a' { 'A' } else if c == 'b' { 'B' } else if c == 'c' { 'C' }
    else if c == 'd' { 'D' } else if c == 'e' { 'E' } else if c == 'f' { 'F' }
    else if c == 'g' { 'G' } else if c == 'h' { 'H' } else if c == 'i' { 'I' }
    else if c == 'j' { 'J' } else if c == 'k' { 'K' } else if c == 'l' { 'L' }
    else if c == 'm' { 'M' } else if c == 'n' { 'N' } else if c == 'o' { 'O' }
    else if c == 'p' { 'P' } else if c == 'q' { 'Q' } else if c == 'r' { 'R' }
    else if c == 's' { 'S' } else if c == 't' { 'T' } else if c == 'u' { 'U' }
    else if c == 'v' { 'V' } else if c == 'w' { 'W' } else if c == 'x' { 'X' }
    else if c == 'y' { 'Y' } else if c == 'z' { 'Z' } else { c }
}

/// Upper-cases one character.
pub fn upper_char(c: char) -> (r: char)
    ensures
        r == spec_upper_char(c),
{
    if c == 'a' { 'A' } else if c == 'b' { 'B' } else if c == 'c' { 'C' }
    else if c == 'd' { 'D' } else if c == 'e' { 'E' } else if c == 'f' { 'F' }
    else if c == 'g' { 'G' } else if c == 'h' { 'H' } else if c == 'i' { 'I' }
    else if c == 'j' { 'J' } else if c == 'k' { 'K' } else if c == 'l' { 'L' }
    else if c == 'm' { 'M' } else if c == 'n' { 'N' } else if c == 'o' { 'O' }
    else if c == 'p' { 'P' } else if c == 'q' { 'Q' } else if c == 'r' { 'R' }
    else if c == 's' { 'S' } else if c == 't' { 'T' } else if c == 'u' { 'U' }
    else if c == 'v' { 'V' } else if c == 'w' { 'W' } else if c == 'x' { 'X' }
    else if c == 'y' { 'Y' } else if c == 'z' { 'Z' } else { c }
}

pub open spec fn spec_upper(s: Seq<char>) -> Seq<char> {
    s.map_values(|c: char| spec_upper_char(c))
}

/// Upper-cases the ASCII letters of a string.
pub fn to_upper(s: &Vec<char>) -> (r: Vec<char>)
    ensures
        r@ == spec_upper(s@),
{
    let mut r: Vec<char> = Vec::new();
    let mut i: usize = 0;
    while i < s.len()
        invariant
            i <= s@.len(),
            r@ == spec_upper(s@.subrange(0, i as int)),
        decreases s@.len() - i,
    {
        r.push(upper_char(s[i]));
        i = i + 1;
        proof {
            assert(r@ =~= spec_upper(s@.subrange(0, i as int)));
        }
    }
    proof {
        assert(r@ =~= spec_upper(s@));
    }
    r
}

} // verus!
