//! The structural scan of a configuration document. It is deliberately not a
//! parser for the full configuration language: it recognizes one shape, an
//! attribute path followed by `=`, an optional `with <namespace>;` clause,
//! and a bracketed list of whitespace-separated entries, wherever that shape
//! first occurs in the text.
use vstd::prelude::*;
use crate::chars::is_word_char;
use crate::chars::is_ws;
use crate::chars::push_range;
use crate::chars::word_char;
use crate::chars::ws_char;

verus! {

/// First index at or after `i` holding a non-whitespace character, or the
/// length of `s` when there is none.
pub open spec fn ws_end(s: Seq<char>, i: int) -> int
    decreases s.len() - i,
{
    if i < 0 || i >= s.len() {
        s.len() as int
    } else if is_ws(s[i]) {
        ws_end(s, i + 1)
    } else {
        i
    }
}

/// End of the run of non-whitespace characters that starts at `i`.
pub open spec fn tok_end(s: Seq<char>, i: int) -> int
    decreases s.len() - i,
{
    if i < 0 || i >= s.len() || is_ws(s[i]) {
        i
    } else {
        tok_end(s, i + 1)
    }
}

/// The whitespace-separated tokens of `s` from index `i` on.
pub open spec fn tokens_from(s: Seq<char>, i: int) -> Seq<Seq<char>>
    decreases s.len() - i,
    via tokens_from_dec
{
    if i < 0 || i >= s.len() {
        Seq::empty()
    } else if is_ws(s[i]) {
        tokens_from(s, i + 1)
    } else {
        seq![s.subrange(i, tok_end(s, i))] + tokens_from(s, tok_end(s, i))
    }
}

#[via_fn]
proof fn tokens_from_dec(s: Seq<char>, i: int) {
    if 0 <= i < s.len() && !is_ws(s[i]) {
        lemma_tok_end(s, i);
    }
}

/// The whitespace-separated tokens of `s`.
pub open spec fn tokens_of(s: Seq<char>) -> Seq<Seq<char>> {
    tokens_from(s, 0)
}

/// First index at or after `i` where `c` occurs.
pub open spec fn find_char_from(s: Seq<char>, c: char, i: int) -> Option<int>
    decreases s.len() - i,
{
    if i < 0 || i >= s.len() {
        None
    } else if s[i] == c {
        Some(i)
    } else {
        find_char_from(s, c, i + 1)
    }
}

/// The attribute path `q` occurs at `i` as a standalone word followed, after
/// optional whitespace, by `=`.
pub open spec fn match_at(s: Seq<char>, q: Seq<char>, i: int) -> bool {
    &&& 0 <= i
    &&& i + q.len() <= s.len()
    &&& s.subrange(i, i + q.len()) == q
    &&& (i == 0 || !is_word_char(s[i - 1]))
    &&& ({
        let j = ws_end(s, i + q.len());
        j < s.len() && s[j] == '='
    })
}

/// First index at or after `i` where `q` matches as an attribute assignment.
pub open spec fn find_attr_from(s: Seq<char>, q: Seq<char>, i: int) -> Option<int>
    decreases s.len() - i + 1,
{
    if i < 0 || i + q.len() > s.len() {
        None
    } else if match_at(s, q, i) {
        Some(i)
    } else {
        find_attr_from(s, q, i + 1)
    }
}

pub open spec fn with_kw() -> Seq<char> {
    seq!['w', 'i', 't', 'h']
}

/// Given the index `j` of the `=` that follows the attribute path, the index
/// of the `[` that opens the list value: either directly after the `=`, or
/// after a `with <namespace>;` clause.
pub open spec fn value_open(s: Seq<char>, j: int) -> Option<int> {
    let k = ws_end(s, j + 1);
    if k < s.len() && s[k] == '[' {
        Some(k)
    } else if k + 4 <= s.len() && s.subrange(k, k + 4) == with_kw() && (k + 4 == s.len()
        || !is_word_char(s[k + 4])) {
        match find_char_from(s, ';', k + 4) {
            None => None,
            Some(m) => {
                let o = ws_end(s, m + 1);
                if o < s.len() && s[o] == '[' {
                    Some(o)
                } else {
                    None
                }
            },
        }
    } else {
        None
    }
}

/// Where the package list of attribute `q` sits in document `s`: the indices
/// of its opening `[` and closing `]`, when the document has the recognized
/// shape.
pub open spec fn locate(s: Seq<char>, q: Seq<char>) -> Option<(int, int)> {
    match find_attr_from(s, q, 0) {
        None => None,
        Some(i) => {
            let j = ws_end(s, i + q.len());
            match value_open(s, j) {
                None => None,
                Some(open) => match find_char_from(s, ']', open + 1) {
                    None => None,
                    Some(close) => Some((open, close)),
                },
            }
        },
    }
}

/// The opening-bracket index of a located list, `0` when there is none.
pub open spec fn loc_open(s: Seq<char>, q: Seq<char>) -> int {
    match locate(s, q) {
        Some((o, _)) => o,
        None => 0,
    }
}

/// The closing-bracket index of a located list, `0` when there is none.
pub open spec fn loc_close(s: Seq<char>, q: Seq<char>) -> int {
    match locate(s, q) {
        Some((_, c)) => c,
        None => 0,
    }
}

/// The entries of the package list of attribute `q` in document `s`, as
/// written, in order.
pub open spec fn entries_of(s: Seq<char>, q: Seq<char>) -> Seq<Seq<char>> {
    match locate(s, q) {
        None => Seq::empty(),
        Some((open, close)) => tokens_from(s.subrange(open + 1, close), 0),
    }
}

// ---------------------------------------------------------------------------
// Characterizations of the scanning functions.
// ---------------------------------------------------------------------------

pub proof fn lemma_ws_end(s: Seq<char>, i: int)
    requires
        0 <= i <= s.len(),
    ensures
        i <= ws_end(s, i) <= s.len(),
        forall|x: int| i <= x < ws_end(s, i) ==> is_ws(s[x]),
        ws_end(s, i) < s.len() ==> !is_ws(s[ws_end(s, i)]),
    decreases s.len() - i,
{
    if i < s.len() && is_ws(s[i]) {
        lemma_ws_end(s, i + 1);
    }
}

/// `ws_end` lands on `j` exactly when everything before `j` (from `i`) is
/// whitespace and `j` itself is not.
pub proof fn lemma_ws_end_is(s: Seq<char>, i: int, j: int)
    requires
        0 <= i <= j <= s.len(),
        forall|x: int| i <= x < j ==> is_ws(s[x]),
        j < s.len() ==> !is_ws(s[j]),
    ensures
        ws_end(s, i) == j,
    decreases j - i,
{
    if i < j {
        lemma_ws_end_is(s, i + 1, j);
    }
}

pub proof fn lemma_tok_end(s: Seq<char>, i: int)
    requires
        0 <= i <= s.len(),
    ensures
        i <= tok_end(s, i) <= s.len(),
        forall|x: int| i <= x < tok_end(s, i) ==> !is_ws(s[x]),
        tok_end(s, i) < s.len() ==> is_ws(s[tok_end(s, i)]),
        0 <= i < s.len() && !is_ws(s[i]) ==> i + 1 <= tok_end(s, i),
    decreases s.len() - i,
{
    if i < s.len() && !is_ws(s[i]) {
        lemma_tok_end(s, i + 1);
    }
}

pub proof fn lemma_tok_end_is(s: Seq<char>, i: int, j: int)
    requires
        0 <= i <= j <= s.len(),
        forall|x: int| i <= x < j ==> !is_ws(s[x]),
        j < s.len() ==> is_ws(s[j]),
    ensures
        tok_end(s, i) == j,
    decreases j - i,
{
    if i < j {
        lemma_tok_end_is(s, i + 1, j);
    }
}

pub proof fn lemma_find_char(s: Seq<char>, c: char, i: int)
    requires
        0 <= i <= s.len(),
    ensures
        match find_char_from(s, c, i) {
            Some(m) => i <= m < s.len() && s[m] == c && (forall|x: int| i <= x < m ==> s[x] != c),
            None => forall|x: int| i <= x < s.len() ==> s[x] != c,
        },
    decreases s.len() - i,
{
    if i < s.len() && s[i] != c {
        lemma_find_char(s, c, i + 1);
    }
}

pub proof fn lemma_find_char_is(s: Seq<char>, c: char, i: int, m: int)
    requires
        0 <= i <= m < s.len(),
        s[m] == c,
        forall|x: int| i <= x < m ==> s[x] != c,
    ensures
        find_char_from(s, c, i) == Some(m),
    decreases m - i,
{
    if i < m {
        lemma_find_char_is(s, c, i + 1, m);
    }
}

pub proof fn lemma_find_attr(s: Seq<char>, q: Seq<char>, i: int)
    requires
        0 <= i,
    ensures
        match find_attr_from(s, q, i) {
            Some(m) => i <= m && match_at(s, q, m) && (forall|x: int|
                i <= x < m ==> !match_at(s, q, x)),
            None => forall|x: int| i <= x ==> !match_at(s, q, x),
        },
    decreases s.len() - i + 1,
{
    if i + q.len() > s.len() {
        assert forall|x: int| i <= x implies !match_at(s, q, x) by {
            assert(x + q.len() > s.len());
        }
    } else if !match_at(s, q, i) {
        lemma_find_attr(s, q, i + 1);
    }
}

pub proof fn lemma_find_attr_is(s: Seq<char>, q: Seq<char>, i: int, m: int)
    requires
        0 <= i <= m,
        match_at(s, q, m),
        forall|x: int| i <= x < m ==> !match_at(s, q, x),
    ensures
        find_attr_from(s, q, i) == Some(m),
    decreases m - i,
{
    if i < m {
        lemma_find_attr_is(s, q, i + 1, m);
    }
}

/// What a successful `locate` guarantees about the bracket indices.
pub proof fn lemma_locate(s: Seq<char>, q: Seq<char>)
    requires
        locate(s, q) is Some,
    ensures
        match locate(s, q) {
            Some((open, close)) => {
                &&& 0 <= open < close < s.len()
                &&& s[open] == '['
                &&& s[close] == ']'
                &&& forall|x: int| open < x < close ==> s[x] != ']'
            },
            None => false,
        },
{
    let i = match find_attr_from(s, q, 0) {
        Some(i) => i,
        None => 0,
    };
    lemma_find_attr(s, q, 0);
    let j = ws_end(s, i + q.len());
    lemma_ws_end(s, i + q.len());
    let k = ws_end(s, j + 1);
    lemma_ws_end(s, j + 1);
    if !(k < s.len() && s[k] == '[') {
        let m = match find_char_from(s, ';', k + 4) {
            Some(m) => m,
            None => 0,
        };
        lemma_find_char(s, ';', k + 4);
        lemma_ws_end(s, m + 1);
    }
    let open = match value_open(s, j) {
        Some(open) => open,
        None => 0,
    };
    lemma_find_char(s, ']', open + 1);
}

/// Splicing inside the brackets does not move the attribute: a document that
/// agrees with `s` up to and including the opening bracket, and whose first
/// closing bracket after it sits at `close_t`, locates the same attribute at
/// the same opening bracket.
pub proof fn lemma_locate_agree(s: Seq<char>, t: Seq<char>, q: Seq<char>, close_t: int)
    requires
        locate(s, q) is Some,
        forall|x: int| 0 <= x <= loc_open(s, q) ==> t[x] == s[x],
        loc_open(s, q) < close_t < t.len(),
        t[close_t] == ']',
        forall|x: int| loc_open(s, q) < x < close_t ==> t[x] != ']',
    ensures
        locate(t, q) == Some((loc_open(s, q), close_t)),
{
    let open = loc_open(s, q);
    lemma_locate(s, q);
    let i = match find_attr_from(s, q, 0) {
        Some(i) => i,
        None => 0,
    };
    lemma_find_attr(s, q, 0);
    let j = ws_end(s, i + q.len());
    lemma_ws_end(s, i + q.len());
    assert(value_open(s, j) == Some(open));
    let k = ws_end(s, j + 1);
    lemma_ws_end(s, j + 1);
    // The opening bracket comes strictly after the `=`, in both shapes of the
    // value.
    if k < s.len() && s[k] == '[' {
        assert(open == k);
        assert(j < open && k <= open);
    } else {
        lemma_find_char(s, ';', k + 4);
        let m = match find_char_from(s, ';', k + 4) {
            Some(m) => m,
            None => 0,
        };
        lemma_ws_end(s, m + 1);
        assert(open == ws_end(s, m + 1));
        assert(j < open && k <= open);
    }

    // The attribute still matches at `i` in `t`.
    assert(match_at(t, q, i)) by {
        assert(t.subrange(i, i + q.len()) =~= s.subrange(i, i + q.len()));
        lemma_ws_end_is(t, i + q.len(), j);
    }
    // No earlier position matches in `t`: a match there would have been a
    // match in `s` as well, since both scans stop at or before the opening
    // bracket.
    assert forall|x: int| 0 <= x < i implies !match_at(t, q, x) by {
        if match_at(t, q, x) {
            lemma_ws_end(s, x + q.len());
            let jx = ws_end(s, x + q.len());
            if jx > open {
                assert(is_ws(s[open]));
            }
            lemma_ws_end_is(t, x + q.len(), jx);
            assert(t.subrange(x, x + q.len()) =~= s.subrange(x, x + q.len()));
            assert(match_at(s, q, x));
        }
    }
    lemma_find_attr_is(t, q, 0, i);

    // The value still opens at the same bracket.
    assert(ws_end(t, i + q.len()) == j) by {
        lemma_ws_end_is(t, i + q.len(), j);
    }
    assert(value_open(t, j) == Some(open)) by {
        lemma_ws_end_is(t, j + 1, k);
        if k < s.len() && s[k] == '[' {
        } else {
            lemma_find_char(s, ';', k + 4);
            let m = match find_char_from(s, ';', k + 4) {
                Some(m) => m,
                None => 0,
            };
            lemma_ws_end(s, m + 1);
            assert(t.subrange(k, k + 4) =~= s.subrange(k, k + 4));
            lemma_find_char_is(t, ';', k + 4, m);
            lemma_ws_end_is(t, m + 1, open);
        }
    }
    lemma_find_char_is(t, ']', open + 1, close_t);
}

// ---------------------------------------------------------------------------
// Tokenization algebra: how `tokens_of` behaves under concatenation. These
// lemmas carry the proofs that splicing entries into or out of a list leaves
// exactly the intended token sequence behind.
// ---------------------------------------------------------------------------

pub open spec fn all_ws(s: Seq<char>) -> bool {
    forall|x: int| 0 <= x < s.len() ==> is_ws(s[x])
}

pub open spec fn no_ws(s: Seq<char>) -> bool {
    forall|x: int| 0 <= x < s.len() ==> !is_ws(s[x])
}

/// No token of `a + b` straddles the boundary between `a` and `b`.
pub open spec fn boundary_ok(a: Seq<char>, b: Seq<char>) -> bool {
    a.len() == 0 || b.len() == 0 || is_ws(b[0]) || is_ws(a[a.len() - 1])
}

proof fn lemma_tok_end_shift(a: Seq<char>, b: Seq<char>, j: int)
    requires
        0 <= j <= b.len(),
    ensures
        tok_end(a + b, a.len() + j) == a.len() + tok_end(b, j),
    decreases b.len() - j,
{
    if j < b.len() {
        assert((a + b)[a.len() + j] == b[j]);
        if !is_ws(b[j]) {
            lemma_tok_end_shift(a, b, j + 1);
        }
    }
}

proof fn lemma_tokens_from_shift(a: Seq<char>, b: Seq<char>, j: int)
    requires
        0 <= j <= b.len(),
    ensures
        tokens_from(a + b, a.len() + j) == tokens_from(b, j),
    decreases b.len() - j,
{
    if j < b.len() {
        assert((a + b)[a.len() + j] == b[j]);
        if is_ws(b[j]) {
            lemma_tokens_from_shift(a, b, j + 1);
        } else {
            lemma_tok_end(b, j);
            lemma_tok_end_shift(a, b, j);
            let e = tok_end(b, j);
            assert((a + b).subrange(a.len() + j, a.len() + e) =~= b.subrange(j, e));
            lemma_tokens_from_shift(a, b, e);
        }
    }
}

proof fn lemma_tok_end_concat(a: Seq<char>, b: Seq<char>, i: int)
    requires
        0 <= i <= a.len(),
        tok_end(a, i) < a.len() || b.len() == 0 || is_ws(b[0]),
    ensures
        tok_end(a + b, i) == tok_end(a, i),
    decreases a.len() - i,
{
    if i < a.len() {
        assert((a + b)[i] == a[i]);
        if !is_ws(a[i]) {
            lemma_tok_end_concat(a, b, i + 1);
        }
    } else {
        if b.len() == 0 {
            assert(a + b =~= a);
        } else {
            assert((a + b)[a.len() as int] == b[0]);
        }
    }
}

proof fn lemma_tokens_concat_from(a: Seq<char>, b: Seq<char>, i: int)
    requires
        0 <= i <= a.len(),
        boundary_ok(a, b),
    ensures
        tokens_from(a + b, i) == tokens_from(a, i) + tokens_from(b, 0),
    decreases a.len() - i,
{
    if i == a.len() {
        lemma_tokens_from_shift(a, b, 0);
        assert(tokens_from(a, i) + tokens_from(b, 0) =~= tokens_from(b, 0));
    } else {
        assert((a + b)[i] == a[i]);
        if is_ws(a[i]) {
            lemma_tokens_concat_from(a, b, i + 1);
        } else {
            lemma_tok_end(a, i);
            let t1 = tok_end(a, i);
            if t1 == a.len() && !(b.len() == 0 || is_ws(b[0])) {
                assert(!is_ws(a[a.len() - 1]));
            }
            lemma_tok_end_concat(a, b, i);
            assert((a + b).subrange(i, t1) =~= a.subrange(i, t1));
            lemma_tokens_concat_from(a, b, t1);
            assert(seq![a.subrange(i, t1)] + (tokens_from(a, t1) + tokens_from(b, 0)) =~= (seq![
                a.subrange(i, t1),
            ] + tokens_from(a, t1)) + tokens_from(b, 0));
        }
    }
}

/// Tokenization distributes over concatenation when no token straddles the
/// boundary.
pub proof fn lemma_tokens_concat(a: Seq<char>, b: Seq<char>)
    requires
        boundary_ok(a, b),
    ensures
        tokens_of(a + b) == tokens_of(a) + tokens_of(b),
{
    lemma_tokens_concat_from(a, b, 0);
}

proof fn lemma_tokens_ws_from(s: Seq<char>, i: int)
    requires
        0 <= i <= s.len(),
        all_ws(s),
    ensures
        tokens_from(s, i) == Seq::<Seq<char>>::empty(),
    decreases s.len() - i,
{
    if i < s.len() {
        lemma_tokens_ws_from(s, i + 1);
    }
}

/// A run of whitespace holds no token.
pub proof fn lemma_tokens_all_ws(s: Seq<char>)
    requires
        all_ws(s),
    ensures
        tokens_of(s) == Seq::<Seq<char>>::empty(),
{
    lemma_tokens_ws_from(s, 0);
}

/// A nonempty run without whitespace is exactly one token.
pub proof fn lemma_token_single(t: Seq<char>)
    requires
        t.len() >= 1,
        no_ws(t),
    ensures
        tokens_of(t) == seq![t],
{
    lemma_tok_end_is(t, 0, t.len() as int);
    assert(t.subrange(0, t.len() as int) =~= t);
    assert(seq![t] + tokens_from(t, t.len() as int) =~= seq![t]);
}

/// The text that splicing appends or rebuilds: each form preceded by one
/// copy of the separator.
pub open spec fn appended_text(forms: Seq<Seq<char>>, sep: Seq<char>) -> Seq<char>
    decreases forms.len(),
{
    if forms.len() == 0 {
        Seq::empty()
    } else {
        sep + forms[0] + appended_text(forms.skip(1), sep)
    }
}

/// Tokenizing the spliced text recovers exactly the forms.
pub proof fn lemma_tokens_appended(forms: Seq<Seq<char>>, sep: Seq<char>)
    requires
        sep.len() >= 1,
        all_ws(sep),
        forall|k: int| 0 <= k < forms.len() ==> forms[k].len() >= 1 && no_ws(#[trigger] forms[k]),
    ensures
        tokens_of(appended_text(forms, sep)) == forms,
        forms.len() > 0 ==> appended_text(forms, sep).len() > 0 && is_ws(
            appended_text(forms, sep)[0],
        ),
    decreases forms.len(),
{
    if forms.len() == 0 {
        assert(tokens_of(appended_text(forms, sep)) =~= forms);
    } else {
        let f0 = forms[0];
        let rest = appended_text(forms.skip(1), sep);
        lemma_tokens_appended(forms.skip(1), sep);
        assert(appended_text(forms, sep) == (sep + f0) + rest);
        assert(boundary_ok(sep + f0, rest)) by {
            if forms.skip(1).len() > 0 {
                assert(is_ws(rest[0]));
            }
        }
        lemma_tokens_concat(sep + f0, rest);
        assert(tokens_of(sep + f0) == seq![f0]) by {
            lemma_tokens_concat(sep, f0);
            lemma_tokens_all_ws(sep);
            lemma_token_single(f0);
            assert(tokens_of(sep) + tokens_of(f0) =~= seq![f0]);
        }
        assert(seq![f0] + forms.skip(1) =~= forms);
        assert((sep + f0)[0] == sep[0]);
    }
}

/// A character absent from the separator and from every form is absent from
/// the spliced text.
pub proof fn lemma_appended_no_char(forms: Seq<Seq<char>>, sep: Seq<char>, c: char)
    requires
        forall|x: int| 0 <= x < sep.len() ==> sep[x] != c,
        forall|k: int, y: int|
            0 <= k < forms.len() && 0 <= y < forms[k].len() ==> #[trigger] forms[k][y] != c,
    ensures
        forall|x: int|
            0 <= x < appended_text(forms, sep).len() ==> #[trigger] appended_text(forms, sep)[x]
                != c,
    decreases forms.len(),
{
    if forms.len() > 0 {
        lemma_appended_no_char(forms.skip(1), sep, c);
        let a = appended_text(forms, sep);
        let rest = appended_text(forms.skip(1), sep);
        assert forall|x: int| 0 <= x < a.len() implies #[trigger] a[x] != c by {
            if x < sep.len() {
                assert(a[x] == sep[x]);
            } else if x < sep.len() + forms[0].len() {
                assert(a[x] == forms[0][x - sep.len()]);
            } else {
                assert(a[x] == rest[x - sep.len() - forms[0].len()]);
            }
        }
    }
}

/// Appending one more form extends the spliced text on the right.
pub proof fn lemma_appended_snoc(fs: Seq<Seq<char>>, f: Seq<char>, sep: Seq<char>)
    ensures
        appended_text(fs.push(f), sep) == appended_text(fs, sep) + sep + f,
    decreases fs.len(),
{
    if fs.len() == 0 {
        assert(fs.push(f).skip(1) =~= Seq::<Seq<char>>::empty());
        assert(fs.push(f)[0] == f);
        assert(appended_text(fs.push(f), sep) == sep + f + appended_text(
            Seq::<Seq<char>>::empty(),
            sep,
        ));
        assert(appended_text(fs.push(f), sep) =~= appended_text(fs, sep) + sep + f);
    } else {
        assert(fs.push(f)[0] == fs[0]);
        assert(fs.push(f).skip(1) =~= fs.skip(1).push(f));
        lemma_appended_snoc(fs.skip(1), f, sep);
        assert(sep + fs[0] + (appended_text(fs.skip(1), sep) + sep + f) =~= (sep + fs[0]
            + appended_text(fs.skip(1), sep)) + sep + f);
    }
}

/// Every token is a nonempty run without whitespace.
pub proof fn lemma_tokens_wf(s: Seq<char>, i: int)
    requires
        0 <= i <= s.len(),
    ensures
        forall|k: int|
            0 <= k < tokens_from(s, i).len() ==> (#[trigger] tokens_from(s, i)[k]).len() >= 1
                && no_ws(tokens_from(s, i)[k]),
    decreases s.len() - i,
{
    if i < s.len() {
        if is_ws(s[i]) {
            lemma_tokens_wf(s, i + 1);
            assert forall|k: int|
                0 <= k < tokens_from(s, i).len() implies (#[trigger] tokens_from(s, i)[k]).len()
                >= 1 && no_ws(tokens_from(s, i)[k]) by {
                assert(tokens_from(s, i)[k] == tokens_from(s, i + 1)[k]);
            }
        } else {
            lemma_tok_end(s, i);
            let e = tok_end(s, i);
            lemma_tokens_wf(s, e);
            assert(no_ws(s.subrange(i, e))) by {
                assert forall|x: int| 0 <= x < e - i implies !is_ws(s.subrange(i, e)[x]) by {
                    assert(s.subrange(i, e)[x] == s[i + x]);
                }
            }
            assert forall|k: int|
                0 <= k < tokens_from(s, i).len() implies (#[trigger] tokens_from(s, i)[k]).len()
                >= 1 && no_ws(tokens_from(s, i)[k]) by {
                if k == 0 {
                    assert(tokens_from(s, i)[0] == s.subrange(i, e));
                } else {
                    assert(tokens_from(s, i)[k] == tokens_from(s, e)[k - 1]);
                }
            }
        }
    }
}

/// A character absent from the text is absent from its tokens.
pub proof fn lemma_tokens_no_char(s: Seq<char>, i: int, c: char)
    requires
        0 <= i <= s.len(),
        forall|x: int| i <= x < s.len() ==> s[x] != c,
    ensures
        forall|k: int, y: int|
            0 <= k < tokens_from(s, i).len() && 0 <= y < tokens_from(s, i)[k].len()
                ==> #[trigger] tokens_from(s, i)[k][y] != c,
    decreases s.len() - i,
{
    if i < s.len() {
        if is_ws(s[i]) {
            lemma_tokens_no_char(s, i + 1, c);
            assert forall|k: int, y: int|
                0 <= k < tokens_from(s, i).len() && 0 <= y < tokens_from(s, i)[k].len() implies #[trigger] tokens_from(
                s,
                i,
            )[k][y] != c by {
                assert(tokens_from(s, i)[k] == tokens_from(s, i + 1)[k]);
            }
        } else {
            lemma_tok_end(s, i);
            let e = tok_end(s, i);
            lemma_tokens_no_char(s, e, c);
            let ts = tokens_from(s, i);
            assert forall|k: int, y: int|
                0 <= k < ts.len() && 0 <= y < ts[k].len() implies #[trigger] ts[k][y] != c by {
                if k == 0 {
                    assert(ts[0][y] == s.subrange(i, e)[y]);
                    assert(s.subrange(i, e)[y] == s[i + y]);
                } else {
                    assert(ts[k] == tokens_from(s, e)[k - 1]);
                }
            }
        }
    }
}

/// Length of `s` once trailing whitespace is dropped.
pub open spec fn rtrim_len(s: Seq<char>) -> int
    decreases s.len(),
{
    if s.len() == 0 {
        0
    } else if is_ws(s[s.len() - 1]) {
        rtrim_len(s.take(s.len() - 1))
    } else {
        s.len() as int
    }
}

pub proof fn lemma_rtrim(s: Seq<char>)
    ensures
        0 <= rtrim_len(s) <= s.len(),
        forall|x: int| rtrim_len(s) <= x < s.len() ==> is_ws(s[x]),
        rtrim_len(s) > 0 ==> !is_ws(s[rtrim_len(s) - 1]),
    decreases s.len(),
{
    if s.len() > 0 && is_ws(s[s.len() - 1]) {
        let t = s.take(s.len() - 1);
        lemma_rtrim(t);
        assert forall|x: int| rtrim_len(s) <= x < s.len() implies is_ws(s[x]) by {
            if x < s.len() - 1 {
                assert(is_ws(t[x]));
            }
        }
        if rtrim_len(s) > 0 {
            assert(!is_ws(t[rtrim_len(s) - 1]));
        }
    }
}

// ---------------------------------------------------------------------------
// Executable scanners.
// ---------------------------------------------------------------------------

pub fn ws_end_at(v: &Vec<char>, i: usize) -> (r: usize)
    requires
        i <= v@.len(),
    ensures
        r == ws_end(v@, i as int),
        i <= r <= v@.len(),
{
    let mut j = i;
    while j < v.len() && ws_char(v[j])
        invariant
            i <= j <= v@.len(),
            ws_end(v@, i as int) == ws_end(v@, j as int),
        decreases v@.len() - j,
    {
        j = j + 1;
    }
    j
}

pub fn tok_end_at(v: &Vec<char>, i: usize) -> (r: usize)
    requires
        i <= v@.len(),
    ensures
        r == tok_end(v@, i as int),
        i <= r <= v@.len(),
{
    let mut j = i;
    while j < v.len() && !ws_char(v[j])
        invariant
            i <= j <= v@.len(),
            tok_end(v@, i as int) == tok_end(v@, j as int),
        decreases v@.len() - j,
    {
        j = j + 1;
    }
    j
}

pub fn find_char_at(v: &Vec<char>, c: char, i: usize) -> (r: Option<usize>)
    requires
        i <= v@.len(),
    ensures
        match r {
            Some(m) => find_char_from(v@, c, i as int) == Some(m as int) && i <= m < v@.len(),
            None => find_char_from(v@, c, i as int) is None,
        },
{
    let mut j = i;
    while j < v.len()
        invariant
            i <= j <= v@.len(),
            find_char_from(v@, c, i as int) == find_char_from(v@, c, j as int),
        decreases v@.len() - j,
    {
        if v[j] == c {
            return Some(j);
        }
        j = j + 1;
    }
    None
}

/// The characters `v[i .. i + q.len()]` equal `q` exactly.
pub fn range_eq(v: &Vec<char>, i: usize, q: &Vec<char>) -> (b: bool)
    requires
        i + q@.len() <= v@.len(),
    ensures
        b == (v@.subrange(i as int, i + q@.len()) == q@),
{
    let n = v.len();
    let mut k: usize = 0;
    while k < q.len()
        invariant
            k <= q@.len(),
            i + q@.len() <= v@.len(),
            n == v@.len(),
            forall|x: int| 0 <= x < k ==> v@[i + x] == q@[x],
        decreases q@.len() - k,
    {
        if v[i + k] != q[k] {
            assert(v@.subrange(i as int, i + q@.len())[k as int] == v@[i + k]);
            return false;
        }
        k = k + 1;
    }
    assert(v@.subrange(i as int, i + q@.len()) =~= q@);
    true
}

fn match_at_exec(v: &Vec<char>, q: &Vec<char>, i: usize) -> (b: bool)
    requires
        i + q@.len() <= v@.len(),
    ensures
        b == match_at(v@, q@, i as int),
{
    let n = v.len();
    if !range_eq(v, i, q) {
        return false;
    }
    if i > 0 && word_char(v[i - 1]) {
        return false;
    }
    let j = ws_end_at(v, i + q.len());
    j < n && v[j] == '='
}

pub fn find_attr(v: &Vec<char>, q: &Vec<char>) -> (r: Option<usize>)
    requires
        q@.len() >= 1,
    ensures
        match r {
            Some(i) => find_attr_from(v@, q@, 0) == Some(i as int) && i + q@.len() <= v@.len(),
            None => find_attr_from(v@, q@, 0) is None,
        },
{
    if q.len() > v.len() {
        return None;
    }
    let bound = v.len() - q.len();
    let mut i: usize = 0;
    while i <= bound
        invariant
            i <= bound + 1,
            q@.len() >= 1,
            v@.len() <= usize::MAX,
            bound == v@.len() - q@.len(),
            find_attr_from(v@, q@, 0) == find_attr_from(v@, q@, i as int),
        decreases bound + 1 - i,
    {
        if match_at_exec(v, q, i) {
            return Some(i);
        }
        i = i + 1;
    }
    None
}

fn with_kw_exec() -> (w: Vec<char>)
    ensures
        w@ == with_kw(),
{
    let mut w: Vec<char> = Vec::new();
    w.push('w');
    w.push('i');
    w.push('t');
    w.push('h');
    assert(w@ =~= with_kw());
    w
}

/// The bracket indices of the package list of attribute `q`, when the
/// document has the recognized shape.
pub fn locate_list(v: &Vec<char>, q: &Vec<char>) -> (r: Option<(usize, usize)>)
    requires
        q@.len() >= 1,
    ensures
        match r {
            Some(oc) => locate(v@, q@) == Some((oc.0 as int, oc.1 as int)) && oc.0 < oc.1
                < v@.len(),
            None => locate(v@, q@) is None,
        },
{
    let i = match find_attr(v, q) {
        Some(i) => i,
        None => {
            return None;
        },
    };
    proof {
        lemma_find_attr(v@, q@, 0);
    }
    let n = v.len();
    let j = ws_end_at(v, i + q.len());
    let k = ws_end_at(v, j + 1);
    let open: usize;
    if k < v.len() && v[k] == '[' {
        open = k;
    } else {
        let w = with_kw_exec();
        if v.len() - k >= 4 && range_eq(v, k, &w) && (k + 4 == v.len() || !word_char(v[k + 4])) {
            let m = match find_char_at(v, ';', k + 4) {
                Some(m) => m,
                None => {
                    return None;
                },
            };
            let o = ws_end_at(v, m + 1);
            if o < v.len() && v[o] == '[' {
                open = o;
            } else {
                return None;
            }
        } else {
            return None;
        }
    }
    match find_char_at(v, ']', open + 1) {
        Some(close) => Some((open, close)),
        None => None,
    }
}

/// A fresh vector holding `v[lo .. hi]`.
pub fn subvec(v: &Vec<char>, lo: usize, hi: usize) -> (w: Vec<char>)
    requires
        lo <= hi <= v@.len(),
    ensures
        w@ == v@.subrange(lo as int, hi as int),
{
    let mut w: Vec<char> = Vec::new();
    push_range(&mut w, v, lo, hi);
    w
}

/// Absolute index just past the last non-whitespace character of
/// `v[lo .. hi]`, or `lo` when that range is all whitespace.
pub fn rtrim_at(v: &Vec<char>, lo: usize, hi: usize) -> (r: usize)
    requires
        lo <= hi <= v@.len(),
    ensures
        lo <= r <= hi,
        r - lo == rtrim_len(v@.subrange(lo as int, hi as int)),
{
    let ghost s = v@.subrange(lo as int, hi as int);
    let mut j = hi;
    assert(s.take(hi - lo) =~= s);
    while j > lo && ws_char(v[j - 1])
        invariant
            lo <= j <= hi <= v@.len(),
            s == v@.subrange(lo as int, hi as int),
            rtrim_len(s) == rtrim_len(s.take(j - lo)),
        decreases j,
    {
        proof {
            assert(s.take(j - lo)[j - lo - 1] == v@[j - 1]);
            assert(s.take(j - lo).take(j - lo - 1) =~= s.take(j - lo - 1));
        }
        j = j - 1;
    }
    proof {
        if j > lo {
            assert(s.take(j - lo)[j - lo - 1] == v@[j - 1]);
        }
    }
    j
}

/// The whitespace-separated tokens of `v`, each as a fresh vector.
pub fn tokenize(v: &Vec<char>) -> (ts: Vec<Vec<char>>)
    ensures
        ts.deep_view() == tokens_of(v@),
{
    let mut ts: Vec<Vec<char>> = Vec::new();
    let mut i: usize = 0;
    while i < v.len()
        invariant
            i <= v@.len(),
            tokens_of(v@) == ts.deep_view() + tokens_from(v@, i as int),
        decreases v@.len() - i,
    {
        if ws_char(v[i]) {
            i = i + 1;
        } else {
            proof {
                lemma_tok_end(v@, i as int);
            }
            let e = tok_end_at(v, i);
            let t = subvec(v, i, e);
            let ghost old_ts = ts.deep_view();
            assert(t.deep_view() =~= t@);
            ts.push(t);
            assert(ts.deep_view() =~= old_ts.push(t@));
            assert(ts.deep_view() + tokens_from(v@, e as int) =~= tokens_of(v@));
            i = e;
        }
    }
    assert(ts.deep_view() + tokens_from(v@, i as int) =~= ts.deep_view());
    ts
}

} // verus!
