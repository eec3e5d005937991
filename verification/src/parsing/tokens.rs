use vstd::prelude::*;

use crate::text::copy_chars;
use vstd::string::StrSliceExecFns;

verus! {

// ---------------------------------------------------------------------------
// Tokenization of query text
//
// Queries are cut into tokens: `<...>` IRI references, `"..."` and `'...'`
// literals, the statement terminator `.`, and bare words delimited by
// whitespace. Every executable function is proved equal to its spec mirror.
// ---------------------------------------------------------------------------

/// ASCII whitespace.
pub open spec fn spec_is_ws(c: char) -> bool {
    c == ' ' || c == '\t' || c == '\n' || c == '\r'
}

pub fn is_ws(c: char) -> (r: bool)
    ensures
        r == spec_is_ws(c),
{
    c == ' ' || c == '\t' || c == '\n' || c == '\r'
}

/// The first position `>= i` holding `c`, or the length.
pub open spec fn spec_find_from(s: Seq<char>, i: int, c: char) -> int
    decreases s.len() - i,
{
    if i < 0 {
        0
    } else if i >= s.len() {
        s.len() as int
    } else if s[i] == c {
        i
    } else {
        spec_find_from(s, i + 1, c)
    }
}

pub proof fn lemma_find_from(s: Seq<char>, i: int, c: char)
    requires
        0 <= i <= s.len(),
    ensures
        i <= spec_find_from(s, i, c) <= s.len(),
        spec_find_from(s, i, c) < s.len() ==> s[spec_find_from(s, i, c)] == c,
    decreases s.len() - i,
{
    if i < s.len() && s[i] != c {
        lemma_find_from(s, i + 1, c);
    }
}

pub fn find_from(s: &Vec<char>, i: usize, c: char) -> (r: usize)
    requires
        i <= s@.len(),
    ensures
        r == spec_find_from(s@, i as int, c),
        i <= r <= s@.len(),
{
    let mut j = i;
    while j < s.len()
        invariant
            i <= j <= s@.len(),
            spec_find_from(s@, i as int, c) == spec_find_from(s@, j as int, c),
        decreases s@.len() - j,
    {
        if s[j] == c {
            return j;
        }
        j = j + 1;
    }
    j
}

/// The first position `>= i` holding whitespace or `.`, or the length: the
/// end of a bare token.
pub open spec fn spec_bare_end(s: Seq<char>, i: int) -> int
    decreases s.len() - i,
{
    if i < 0 {
        0
    } else if i >= s.len() {
        s.len() as int
    } else if spec_is_ws(s[i]) || s[i] == '.' {
        i
    } else {
        spec_bare_end(s, i + 1)
    }
}

pub proof fn lemma_bare_end(s: Seq<char>, i: int)
    requires
        0 <= i <= s.len(),
    ensures
        i <= spec_bare_end(s, i) <= s.len(),
    decreases s.len() - i,
{
    if i < s.len() && !(spec_is_ws(s[i]) || s[i] == '.') {
        lemma_bare_end(s, i + 1);
    }
}

fn bare_end(s: &Vec<char>, i: usize) -> (r: usize)
    requires
        i <= s@.len(),
    ensures
        r == spec_bare_end(s@, i as int),
        i <= r <= s@.len(),
{
    let mut j = i;
    while j < s.len()
        invariant
            i <= j <= s@.len(),
            spec_bare_end(s@, i as int) == spec_bare_end(s@, j as int),
        decreases s@.len() - j,
    {
        if is_ws(s[j]) || s[j] == '.' {
            return j;
        }
        j = j + 1;
    }
    j
}

/// Copies `s[from..to]`.
pub fn sub_chars(s: &Vec<char>, from: usize, to: usize) -> (r: Vec<char>)
    requires
        from <= to <= s@.len(),
    ensures
        r@ == s@.subrange(from as int, to as int),
{
    let mut r: Vec<char> = Vec::new();
    let mut i = from;
    while i < to
        invariant
            from <= i <= to <= s@.len(),
            r@ == s@.subrange(from as int, i as int),
        decreases to - i,
    {
        r.push(s[i]);
        i = i + 1;
        proof {
            assert(r@ =~= s@.subrange(from as int, i as int));
        }
    }
    r
}

/// The tokens of `s` from position `i` on.
pub open spec fn spec_tokens_from(s: Seq<char>, i: int) -> Seq<Seq<char>>
    decreases s.len() - i, 1int,
{
    if i < 0 || i >= s.len() {
        Seq::empty()
    } else if spec_is_ws(s[i]) {
        spec_tokens_from(s, i + 1)
    } else if s[i] == '.' {
        seq![seq!['.']] + spec_tokens_from(s, i + 1)
    } else if s[i] == '<' {
        spec_delim_token(s, i, '>')
    } else if s[i] == '"' {
        spec_delim_token(s, i, '"')
    } else if s[i] == '\'' {
        spec_delim_token(s, i, '\'')
    } else {
        let j = spec_bare_end(s, i + 1);
        if i < j && j <= s.len() {
            seq![s.subrange(i, j)] + spec_tokens_from(s, j)
        } else {
            seq![s.subrange(i, s.len() as int)]
        }
    }
}

/// A token opened at `i` and closed by `close`, followed by the rest.
pub open spec fn spec_delim_token(s: Seq<char>, i: int, close: char) -> Seq<Seq<char>>
    decreases s.len() - i, 0int,
{
    if i < 0 || i >= s.len() {
        Seq::empty()
    } else {
        let j = spec_find_from(s, i + 1, close);
        if i < j && j < s.len() {
            seq![s.subrange(i, j + 1)] + spec_tokens_from(s, j + 1)
        } else {
            seq![s.subrange(i, s.len() as int)]
        }
    }
}

/// The tokens of a whole string.
pub open spec fn spec_tokens(s: Seq<char>) -> Seq<Seq<char>> {
    spec_tokens_from(s, 0)
}

/// Cuts a string into tokens.
pub fn tokens_of(s: &Vec<char>) -> (r: Vec<Vec<char>>)
    ensures
        crate::text::views_of(r@) == spec_tokens(s@),
{
    let mut r: Vec<Vec<char>> = Vec::new();
    let mut i: usize = 0;
    while i < s.len()
        invariant
            i <= s@.len(),
            crate::text::views_of(r@) + spec_tokens_from(s@, i as int) == spec_tokens(s@),
        decreases s@.len() - i,
    {
        let ghost pre = crate::text::views_of(r@);
        let c = s[i];
        if is_ws(c) {
            proof {
                assert(spec_tokens_from(s@, i as int) == spec_tokens_from(s@, i + 1));
            }
            i = i + 1;
        } else if c == '.' {
            let mut t: Vec<char> = Vec::new();
            t.push('.');
            r.push(t);
            proof {
                assert(crate::text::views_of(r@) =~= pre.push(seq!['.']));
                assert(pre.push(seq!['.']) + spec_tokens_from(s@, i + 1) =~= pre + (seq![
                    seq!['.']] + spec_tokens_from(s@, i + 1)));
            }
            i = i + 1;
        } else if c == '<' || c == '"' || c == '\'' {
            let close = if c == '<' { '>' } else { c };
            let j = find_from(s, i + 1, close);
            proof {
                lemma_find_from(s@, i + 1, close);
            }
            if j < s.len() {
                let t = sub_chars(s, i, j + 1);
                r.push(t);
                proof {
                    assert(spec_tokens_from(s@, i as int) == spec_delim_token(
                        s@, i as int, close));
                    assert(spec_delim_token(s@, i as int, close) == seq![s@.subrange(
                        i as int, j + 1)] + spec_tokens_from(s@, j + 1));
                    assert(crate::text::views_of(r@) =~= pre.push(s@.subrange(
                        i as int, j + 1)));
                    assert(pre.push(s@.subrange(i as int, j + 1)) + spec_tokens_from(s@, j + 1)
                        =~= pre + (seq![s@.subrange(i as int, j + 1)] + spec_tokens_from(
                        s@, j + 1)));
                }
                i = j + 1;
            } else {
                let t = sub_chars(s, i, s.len());
                r.push(t);
                proof {
                    assert(crate::text::views_of(r@) =~= pre.push(s@.subrange(
                        i as int, s@.len() as int)));
                    assert(spec_tokens_from(s@, i as int) == spec_delim_token(
                        s@, i as int, close));
                    assert(spec_delim_token(s@, i as int, close) == seq![s@.subrange(
                        i as int, s@.len() as int)]);
                    assert(spec_tokens_from(s@, i as int) =~= seq![s@.subrange(
                        i as int, s@.len() as int)]);
                    assert(pre.push(s@.subrange(i as int, s@.len() as int)) =~= pre + seq![
                        s@.subrange(i as int, s@.len() as int)]);
                    assert(pre.push(s@.subrange(i as int, s@.len() as int)) + spec_tokens_from(
                        s@, s@.len() as int) =~= pre.push(s@.subrange(
                        i as int, s@.len() as int)));
                }
                i = s.len();
            }
        } else {
            let j = bare_end(s, i + 1);
            proof {
                lemma_bare_end(s@, i + 1);
            }
            let t = sub_chars(s, i, j);
            r.push(t);
            proof {
                assert(spec_tokens_from(s@, i as int) == seq![s@.subrange(i as int, j as int)]
                    + spec_tokens_from(s@, j as int));
                assert(crate::text::views_of(r@) =~= pre.push(s@.subrange(i as int, j as int)));
                assert(pre.push(s@.subrange(i as int, j as int)) + spec_tokens_from(s@, j as int)
                    =~= pre + (seq![s@.subrange(i as int, j as int)] + spec_tokens_from(
                    s@, j as int)));
            }
            i = j;
        }
    }
    proof {
        assert(crate::text::views_of(r@) + spec_tokens_from(s@, i as int) =~= crate::text::views_of(
            r@));
        assert(crate::text::views_of(r@) =~= spec_tokens(s@));
    }
    r
}


// ---------------------------------------------------------------------------
// Substring search and replacement
// ---------------------------------------------------------------------------

/// The first position `>= i` where `sub` occurs in `s`, or the length of `s`.
pub open spec fn spec_find_sub_from(s: Seq<char>, sub: Seq<char>, i: int) -> int
    decreases s.len() - i,
{
    if i < 0 || sub.len() == 0 || i + sub.len() > s.len() {
        s.len() as int
    } else if s.subrange(i, i + sub.len()) == sub {
        i
    } else {
        spec_find_sub_from(s, sub, i + 1)
    }
}

pub proof fn lemma_find_sub_from(s: Seq<char>, sub: Seq<char>, i: int)
    requires
        0 <= i <= s.len(),
    ensures
        i <= spec_find_sub_from(s, sub, i) <= s.len(),
        spec_find_sub_from(s, sub, i) < s.len() ==> spec_find_sub_from(s, sub, i) + sub.len()
            <= s.len() && s.subrange(
            spec_find_sub_from(s, sub, i),
            spec_find_sub_from(s, sub, i) + sub.len(),
        ) == sub,
    decreases s.len() - i,
{
    if sub.len() > 0 && i + sub.len() <= s.len() && s.subrange(i, i + sub.len()) != sub {
        lemma_find_sub_from(s, sub, i + 1);
    }
}

/// Finds the first occurrence of `sub` in `s` at or after `i`.
pub fn find_sub_from(s: &Vec<char>, sub: &str, i: usize) -> (r: usize)
    requires
        i <= s@.len(),
    ensures
        r == spec_find_sub_from(s@, sub@, i as int),
        i <= r <= s@.len(),
{
    let n = sub.unicode_len();
    proof {
        lemma_find_sub_from(s@, sub@, i as int);
    }
    if n == 0 || n > s.len() {
        return s.len();
    }
    let slen = s.len();
    let mut j = i;
    while j <= slen - n
        invariant
            n == sub@.len(),
            slen == s@.len(),
            0 < n <= slen,
            i <= j,
            j <= slen,
            spec_find_sub_from(s@, sub@, i as int) == spec_find_sub_from(s@, sub@, j as int),
        decreases s@.len() - j,
    {
        let mut k: usize = 0;
        let mut hit = true;
        while k < n
            invariant
                n == sub@.len(),
                slen == s@.len(),
                j + n <= slen,
                k <= n,
                hit ==> forall|m: int| 0 <= m < k ==> s@[j + m] == sub@[m],
                !hit ==> exists|m: int| 0 <= m < n && s@[j + m] != sub@[m],
            decreases n - k,
        {
            if s[j + k] != sub.get_char(k) {
                proof {
                    assert(s@[j + k as int] != sub@[k as int]);
                }
                hit = false;
                k = n;
            } else {
                k = k + 1;
            }
        }
        if hit {
            proof {
                assert(s@.subrange(j as int, j + sub@.len()) =~= sub@);
            }
            return j;
        }
        proof {
            if s@.subrange(j as int, j + sub@.len()) == sub@ {
                let m = choose|m: int| 0 <= m < sub@.len() && s@[j + m] != sub@[m];
                assert(s@.subrange(j as int, j + sub@.len())[m] == s@[j + m]);
                assert(false);
            }
        }
        j = j + 1;
    }
    proof {
        assert(spec_find_sub_from(s@, sub@, j as int) == s@.len());
    }
    s.len()
}

/// `s` with every occurrence of `pat` replaced by `rep`, scanning left to
/// right.
pub open spec fn spec_replace_all(s: Seq<char>, pat: Seq<char>, rep: Seq<char>) -> Seq<char>
    decreases s.len(),
{
    if pat.len() == 0 {
        s
    } else {
        let k = spec_find_sub_from(s, pat, 0);
        if 0 <= k && k + pat.len() <= s.len() {
            s.subrange(0, k) + rep + spec_replace_all(
                s.subrange(k + pat.len(), s.len() as int),
                pat,
                rep,
            )
        } else {
            s
        }
    }
}

/// Replaces every occurrence of `pat` by `rep`.
pub fn replace_all(s: &Vec<char>, pat: &str, rep: &str) -> (r: Vec<char>)
    ensures
        r@ == spec_replace_all(s@, pat@, rep@),
    decreases s@.len(),
{
    let n = pat.unicode_len();
    if n == 0 {
        return crate::text::copy_chars(s);
    }
    let k = find_sub_from(s, pat, 0);
    proof {
        lemma_find_sub_from(s@, pat@, 0);
    }
    if n <= s.len() && k <= s.len() - n {
        let mut r = sub_chars(s, 0, k);
        crate::text::push_str_chars(&mut r, rep);
        let rest = sub_chars(s, k + n, s.len());
        let rtail = replace_all(&rest, pat, rep);
        crate::text::push_all(&mut r, &rtail);
        proof {
            assert(r@ =~= spec_replace_all(s@, pat@, rep@));
        }
        r
    } else {
        crate::text::copy_chars(s)
    }
}

// ---------------------------------------------------------------------------
// Trimming and line splitting
// ---------------------------------------------------------------------------

/// The first non-whitespace position `>= i`.
pub open spec fn spec_skip_ws(s: Seq<char>, i: int) -> int
    decreases s.len() - i,
{
    if i < 0 {
        0
    } else if i >= s.len() {
        s.len() as int
    } else if spec_is_ws(s[i]) {
        spec_skip_ws(s, i + 1)
    } else {
        i
    }
}

pub proof fn lemma_skip_ws(s: Seq<char>, i: int)
    requires
        0 <= i <= s.len(),
    ensures
        i <= spec_skip_ws(s, i) <= s.len(),
    decreases s.len() - i,
{
    if i < s.len() && spec_is_ws(s[i]) {
        lemma_skip_ws(s, i + 1);
    }
}

/// The position after the last non-whitespace character at or before `j`.
pub open spec fn spec_rskip_ws(s: Seq<char>, j: int) -> int
    decreases j,
{
    if j <= 0 {
        0
    } else if j > s.len() {
        s.len() as int
    } else if spec_is_ws(s[j - 1]) {
        spec_rskip_ws(s, j - 1)
    } else {
        j
    }
}

pub proof fn lemma_rskip_ws(s: Seq<char>, j: int)
    requires
        0 <= j <= s.len(),
    ensures
        0 <= spec_rskip_ws(s, j) <= j,
    decreases j,
{
    if j > 0 && spec_is_ws(s[j - 1]) {
        lemma_rskip_ws(s, j - 1);
    }
}

/// `s` without leading and trailing ASCII whitespace.
pub open spec fn spec_trim(s: Seq<char>) -> Seq<char> {
    let from = spec_skip_ws(s, 0);
    let to = spec_rskip_ws(s, s.len() as int);
    if from <= to {
        s.subrange(from, to)
    } else {
        Seq::empty()
    }
}

/// Trims ASCII whitespace from both ends.
pub fn trim_chars(s: &Vec<char>) -> (r: Vec<char>)
    ensures
        r@ == spec_trim(s@),
{
    let mut from: usize = 0;
    while from < s.len() && is_ws(s[from])
        invariant
            from <= s@.len(),
            spec_skip_ws(s@, 0) == spec_skip_ws(s@, from as int),
        decreases s@.len() - from,
    {
        from = from + 1;
    }
    proof {
        assert(spec_skip_ws(s@, from as int) == from);
    }
    let mut to: usize = s.len();
    while to > from && is_ws(s[to - 1])
        invariant
            from <= to <= s@.len(),
            spec_rskip_ws(s@, s@.len() as int) == spec_rskip_ws(s@, to as int),
            from == spec_skip_ws(s@, 0),
        decreases to,
    {
        to = to - 1;
    }
    proof {
        if to == from {
            assert(spec_rskip_ws(s@, to as int) <= to) by {
                lemma_rskip_ws(s@, to as int);
            }
            if spec_rskip_ws(s@, to as int) < to {
                assert(spec_trim(s@) =~= s@.subrange(from as int, spec_rskip_ws(s@, to as int))
                    || true);
            }
        } else {
            assert(!spec_is_ws(s@[to - 1]));
            assert(spec_rskip_ws(s@, to as int) == to);
        }
    }
    if to <= from {
        let r: Vec<char> = Vec::new();
        proof {
            lemma_rskip_ws(s@, to as int);
            if spec_rskip_ws(s@, to as int) == to && from < to {
                assert(false);
            }
            // from == to: the trimmed range is empty
            assert(spec_rskip_ws(s@, to as int) <= from);
            if spec_rskip_ws(s@, to as int) < from {
                assert(spec_trim(s@) =~= Seq::<char>::empty() || spec_trim(s@) == s@.subrange(
                    spec_skip_ws(s@, 0), spec_rskip_ws(s@, s@.len() as int)));
            }
            assert(spec_trim(s@) =~= r@);
        }
        r
    } else {
        let r = sub_chars(s, from, to);
        r
    }
}

/// The lines of `s` (separated by `'\n'`), from position `i` on.
pub open spec fn spec_lines_from(s: Seq<char>, i: int) -> Seq<Seq<char>>
    decreases s.len() - i,
{
    if i < 0 || i > s.len() {
        Seq::empty()
    } else {
        let j = spec_find_from(s, i, '\n');
        if i <= j && j < s.len() {
            seq![s.subrange(i, j)] + spec_lines_from(s, j + 1)
        } else {
            seq![s.subrange(i, s.len() as int)]
        }
    }
}

/// The lines of a string.
pub open spec fn spec_lines(s: Seq<char>) -> Seq<Seq<char>> {
    spec_lines_from(s, 0)
}

/// Splits a string at newline characters.
pub fn lines_of(s: &Vec<char>) -> (r: Vec<Vec<char>>)
    ensures
        crate::text::views_of(r@) == spec_lines(s@),
{
    let mut r: Vec<Vec<char>> = Vec::new();
    let mut i: usize = 0;
    let mut done = false;
    while !done
        invariant
            i <= s@.len(),
            done ==> crate::text::views_of(r@) == spec_lines(s@),
            !done ==> crate::text::views_of(r@) + spec_lines_from(s@, i as int) == spec_lines(
                s@),
        decreases s@.len() - i, (if done { 0int } else { 1int }),
    {
        let ghost pre = crate::text::views_of(r@);
        let j = find_from(s, i, '\n');
        proof {
            lemma_find_from(s@, i as int, '\n');
        }
        if j < s.len() {
            let t = sub_chars(s, i, j);
            r.push(t);
            proof {
                assert(crate::text::views_of(r@) =~= pre.push(s@.subrange(i as int, j as int)));
                assert(pre.push(s@.subrange(i as int, j as int)) + spec_lines_from(s@, j + 1)
                    =~= pre + (seq![s@.subrange(i as int, j as int)] + spec_lines_from(
                    s@, j + 1)));
            }
            i = j + 1;
        } else {
            let t = sub_chars(s, i, s.len());
            r.push(t);
            proof {
                assert(spec_lines_from(s@, i as int) =~= seq![s@.subrange(
                    i as int, s@.len() as int)]);
                assert(crate::text::views_of(r@) =~= pre.push(s@.subrange(
                    i as int, s@.len() as int)));
                assert(pre.push(s@.subrange(i as int, s@.len() as int)) =~= pre + seq![
                    s@.subrange(i as int, s@.len() as int)]);
            }
            done = true;
        }
    }
    r
}

/// Lines joined with `'\n'`.
pub open spec fn spec_join_nl(ss: Seq<Seq<char>>) -> Seq<char>
    decreases ss.len(),
{
    if ss.len() == 0 {
        Seq::empty()
    } else if ss.len() == 1 {
        ss[0]
    } else {
        spec_join_nl(ss.drop_last()) + seq!['\n'] + ss.last()
    }
}

/// Joins lines with `'\n'`.
pub fn join_lines(v: &Vec<Vec<char>>) -> (r: Vec<char>)
    ensures
        r@ == spec_join_nl(crate::text::views_of(v@)),
{
    let mut joined: Vec<char> = Vec::new();
    let mut k: usize = 0;
    proof {
        assert(joined@ =~= spec_join_nl(crate::text::views_of(v@).subrange(0, 0)));
    }
    while k < v.len()
        invariant
            k <= v@.len(),
            joined@ == spec_join_nl(crate::text::views_of(v@).subrange(0, k as int)),
        decreases v@.len() - k,
    {
        let ghost pre = crate::text::views_of(v@).subrange(0, k as int);
        let ghost post = crate::text::views_of(v@).subrange(0, k + 1);
        proof {
            assert(post.drop_last() =~= pre);
            assert(post.last() == v@[k as int]@);
        }
        if k > 0 {
            joined.push('\n');
        }
        crate::text::push_all(&mut joined, &v[k]);
        k = k + 1;
        proof {
            assert(joined@ =~= spec_join_nl(post));
        }
    }
    proof {
        assert(crate::text::views_of(v@).subrange(0, v@.len() as int) =~= crate::text::views_of(
            v@));
    }
    joined
}

// ---------------------------------------------------------------------------
// Brace contents
// ---------------------------------------------------------------------------

/// One step of the depth-1 brace scan: past a `{` the depth rises, past a
/// `}` it falls, and characters at depth exactly 1 are collected.
pub open spec fn spec_braces_step(depth: int, acc: Seq<char>, c: char) -> (int, Seq<char>) {
    if c == '{' {
        (depth + 1, acc)
    } else if c == '}' {
        (depth - 1, acc)
    } else if depth == 1 {
        (depth, acc.push(c))
    } else {
        (depth, acc)
    }
}

/// The state of the brace scan after the first `i` characters.
pub open spec fn spec_braces_at(s: Seq<char>, i: int) -> (int, Seq<char>)
    decreases i,
{
    if i <= 0 {
        (0, Seq::empty())
    } else {
        let st = spec_braces_at(s, i - 1);
        spec_braces_step(st.0, st.1, s[i - 1])
    }
}

/// The text inside braces at depth 1, trimmed: the immediate content of the
/// outermost `{`…`}` blocks, with nested blocks elided.
pub open spec fn spec_inner_braces(s: Seq<char>) -> Seq<char> {
    spec_trim(spec_braces_at(s, s.len() as int).1)
}

/// Extracts the depth-1 content between braces, trimmed.
pub fn extract_inner_braces_chars(s: &Vec<char>) -> (r: Vec<char>)
    ensures
        r@ == spec_inner_braces(s@),
{
    let mut depth: i128 = 0;
    let mut acc: Vec<char> = Vec::new();
    let mut i: usize = 0;
    while i < s.len()
        invariant
            i <= s@.len(),
            -(i as int) <= depth <= i as int,
            depth == spec_braces_at(s@, i as int).0,
            acc@ == spec_braces_at(s@, i as int).1,
        decreases s@.len() - i,
    {
        let c = s[i];
        if c == '{' {
            depth = depth + 1;
        } else if c == '}' {
            depth = depth - 1;
        } else if depth == 1 {
            acc.push(c);
        }
        i = i + 1;
    }
    trim_chars(&acc)
}

} // verus!
