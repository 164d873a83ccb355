//! The text mutator: splices package entries into or out of the bracketed
//! list of one attribute of a configuration document, leaving every other
//! byte of the document untouched. New entries receive the namespace
//! qualifier when the list does not already use it; removals match entries
//! by their bare identifier whether or not they are written qualified.
use vstd::prelude::*;
use crate::chars::chars_to_string;
use crate::chars::is_word_char;
use crate::chars::push_range;
use crate::chars::push_str_chars;
use crate::chars::to_chars;
use crate::scan::all_ws;
use crate::scan::appended_text;
use crate::scan::entries_of;
use crate::scan::locate;
use crate::scan::range_eq;
use crate::scan::rtrim_at;
use crate::scan::rtrim_len;
use crate::scan::subvec;
use crate::scan::tokenize;
use crate::scan::tokens_of;

verus! {

/// The mutation could not find the attribute with a bracketed list value.
#[derive(Debug)]
pub enum MutateError {
    MalformedDocument,
}

/// The namespace qualifier that prefixes a fully qualified entry.
pub open spec fn qual_prefix() -> Seq<char> {
    seq!['p', 'k', 'g', 's', '.']
}

/// An entry written with the namespace qualifier.
pub open spec fn is_qualified(e: Seq<char>) -> bool {
    e.len() >= 5 && e.subrange(0, 5) == qual_prefix()
}

/// The bare identifier of an entry: the qualifier stripped when present.
pub open spec fn bare(e: Seq<char>) -> Seq<char> {
    if is_qualified(e) {
        e.skip(5)
    } else {
        e
    }
}

/// A well-formed package identifier: nonempty and made of word characters.
pub open spec fn valid_pkg(p: Seq<char>) -> bool {
    p.len() >= 1 && forall|x: int| 0 <= x < p.len() ==> is_word_char(p[x])
}

pub open spec fn all_valid(ps: Seq<Seq<char>>) -> bool {
    forall|k: int| 0 <= k < ps.len() ==> valid_pkg(#[trigger] ps[k])
}

/// Does any entry of the list carry the qualifier?
pub open spec fn has_qualified(es: Seq<Seq<char>>) -> bool {
    exists|k: int| 0 <= k < es.len() && is_qualified(#[trigger] es[k])
}

/// The form in which a requested package is written into the list.
pub open spec fn add_form(p: Seq<char>, qualify: bool) -> Seq<char> {
    if qualify {
        qual_prefix() + p
    } else {
        p
    }
}

pub open spec fn add_forms(ps: Seq<Seq<char>>, qualify: bool) -> Seq<Seq<char>> {
    ps.map_values(|p: Seq<char>| add_form(p, qualify))
}

/// The separator put before each spliced entry, matching the list's
/// single-line or multi-line style.
pub open spec fn sep_for(interior: Seq<char>) -> Seq<char> {
    if interior.contains('\n') {
        seq!['\n', ' ', ' ']
    } else {
        seq![' ']
    }
}

/// The whitespace that ends a rebuilt list, keeping the closing bracket on
/// its own line in the multi-line style.
pub open spec fn trail_for(interior: Seq<char>) -> Seq<char> {
    if interior.contains('\n') {
        seq!['\n']
    } else {
        seq![' ']
    }
}

/// The attribute path a mutation works on: the one supplied, or the
/// system-wide package list by default.
pub open spec fn query_view(query: Option<&str>) -> Seq<char> {
    match query {
        Some(q) => q@,
        None => "environment.systemPackages"@,
    }
}

/// The document text after installing `ps` into the list of attribute `q`:
/// the new entries are spliced in just before the closing bracket, after the
/// last existing entry.
pub open spec fn install_text(s: Seq<char>, q: Seq<char>, ps: Seq<Seq<char>>) -> Seq<char> {
    match locate(s, q) {
        None => s,
        Some((open, close)) => {
            let interior = s.subrange(open + 1, close);
            let qualify = !has_qualified(tokens_of(interior));
            let forms = add_forms(ps, qualify);
            let ins = open + 1 + rtrim_len(interior);
            s.take(ins) + appended_text(forms, sep_for(interior)) + s.skip(ins)
        },
    }
}

/// An entry survives the removal of `ps` when its bare identifier matches
/// none of the requested packages.
pub open spec fn keeps(e: Seq<char>, ps: Seq<Seq<char>>) -> bool {
    forall|k: int| 0 <= k < ps.len() ==> bare(e) != bare(#[trigger] ps[k])
}

pub open spec fn kept_entries(es: Seq<Seq<char>>, ps: Seq<Seq<char>>) -> Seq<Seq<char>>
    decreases es.len(),
{
    if es.len() == 0 {
        Seq::empty()
    } else if keeps(es[0], ps) {
        seq![es[0]] + kept_entries(es.skip(1), ps)
    } else {
        kept_entries(es.skip(1), ps)
    }
}

/// The document text after removing `ps` from the list of attribute `q`:
/// the list is rebuilt from the surviving entries in their original order
/// and style, and the rest of the document is kept byte for byte.
pub open spec fn remove_text(s: Seq<char>, q: Seq<char>, ps: Seq<Seq<char>>) -> Seq<char> {
    match locate(s, q) {
        None => s,
        Some((open, close)) => {
            let interior = s.subrange(open + 1, close);
            let kept = kept_entries(tokens_of(interior), ps);
            s.take(open + 1) + appended_text(kept, sep_for(interior)) + trail_for(interior)
                + s.skip(close)
        },
    }
}

// ---------------------------------------------------------------------------
// What the two splices do to the entry sequence.
// ---------------------------------------------------------------------------

proof fn lemma_add_form(p: Seq<char>, qual: bool)
    requires
        valid_pkg(p),
    ensures
        add_form(p, qual).len() >= 1,
        crate::scan::no_ws(add_form(p, qual)),
        forall|y: int| 0 <= y < add_form(p, qual).len() ==> is_word_char(#[trigger] add_form(p, qual)[y]),
        qual ==> is_qualified(add_form(p, qual)) && bare(add_form(p, qual)) == p,
        !qual ==> add_form(p, qual) == p,
{
    let f = add_form(p, qual);
    if qual {
        assert(f.subrange(0, 5) =~= qual_prefix());
        assert(f.skip(5) =~= p);
        assert forall|y: int| 0 <= y < f.len() implies is_word_char(#[trigger] f[y]) by {
            if y >= 5 {
                assert(f[y] == p[y - 5]);
            }
        }
    }
    assert forall|y: int| 0 <= y < f.len() implies !crate::chars::is_ws(#[trigger] f[y]) by {
        assert(is_word_char(f[y]));
    }
}

proof fn lemma_sep_trail(interior: Seq<char>)
    ensures
        sep_for(interior).len() >= 1,
        crate::scan::all_ws(sep_for(interior)),
        forall|x: int| 0 <= x < sep_for(interior).len() ==> #[trigger] sep_for(interior)[x] != ']',
        trail_for(interior).len() >= 1,
        crate::scan::all_ws(trail_for(interior)),
        forall|x: int|
            0 <= x < trail_for(interior).len() ==> #[trigger] trail_for(interior)[x] != ']',
        crate::chars::is_ws(sep_for(interior)[0]),
        crate::chars::is_ws(trail_for(interior)[0]),
{
}

/// Installing splices the new forms in after the last entry: the entry
/// sequence of the result is the old one with the forms appended.
#[verifier::rlimit(60)]
pub proof fn lemma_install(s: Seq<char>, q: Seq<char>, ps: Seq<Seq<char>>)
    requires
        locate(s, q) is Some,
        all_valid(ps),
    ensures
        locate(install_text(s, q, ps), q) is Some,
        entries_of(install_text(s, q, ps), q) == entries_of(s, q) + add_forms(
            ps,
            !has_qualified(entries_of(s, q)),
        ),
{
    let open = crate::scan::loc_open(s, q);
    let close = crate::scan::loc_close(s, q);
    crate::scan::lemma_locate(s, q);
    assert(locate(s, q) == Some((open, close)));
    let interior = s.subrange(open + 1, close);
    let qual = !has_qualified(tokens_of(interior));
    let forms = add_forms(ps, qual);
    let sep = sep_for(interior);
    crate::scan::lemma_rtrim(interior);
    let rt = rtrim_len(interior);
    let ins = open + 1 + rt;
    let a = appended_text(forms, sep);
    let t = s.take(ins) + a + s.skip(ins);
    assert(install_text(s, q, ps) == t);
    assert(entries_of(s, q) == tokens_of(interior));
    lemma_sep_trail(interior);
    assert forall|k: int|
        0 <= k < forms.len() implies (#[trigger] forms[k]).len() >= 1 && crate::scan::no_ws(
        forms[k],
    ) && (forall|y: int| 0 <= y < forms[k].len() ==> is_word_char(#[trigger] forms[k][y])) by {
        assert(forms[k] == add_form(ps[k], qual));
        lemma_add_form(ps[k], qual);
    }
    if ps.len() == 0 {
        assert(a =~= Seq::<char>::empty());
        assert(t =~= s);
        assert(entries_of(t, q) =~= entries_of(s, q) + forms);
    } else {
        crate::scan::lemma_tokens_appended(forms, sep);
        assert forall|k: int, y: int|
            0 <= k < forms.len() && 0 <= y < forms[k].len() implies #[trigger] forms[k][y]
            != ']' by {
            assert(is_word_char(forms[k][y]));
        }
        crate::scan::lemma_appended_no_char(forms, sep, ']');
        let close_t = close + a.len();
        // How `t` reads, region by region.
        assert(t.len() == s.len() + a.len());
        assert forall|x: int| 0 <= x < ins implies t[x] == s[x] by {
            assert(t[x] == s.take(ins)[x]);
        }
        assert forall|x: int| ins <= x < ins + a.len() implies t[x] == a[x - ins] by {}
        assert forall|x: int| ins + a.len() <= x < t.len() implies t[x] == s[x - a.len()] by {
            assert(t[x] == s.skip(ins)[x - ins - a.len()]);
        }
        assert(t[close_t] == ']');
        assert forall|x: int| open < x < close_t implies t[x] != ']' by {
            if x < ins {
                assert(t[x] == s[x]);
            } else if x < ins + a.len() {
                assert(t[x] == a[x - ins]);
            } else {
                assert(t[x] == s[x - a.len()]);
            }
        }
        crate::scan::lemma_locate_agree(s, t, q, close_t);
        // The new interior is the trimmed old interior, the splice, then the
        // old trailing whitespace.
        let interior_t = t.subrange(open + 1, close_t);
        let trimmed = interior.take(rt);
        let trailing = interior.skip(rt);
        assert(all_ws(trailing)) by {
            assert forall|x: int| 0 <= x < trailing.len() implies crate::chars::is_ws(
                #[trigger] trailing[x],
            ) by {
                assert(trailing[x] == interior[rt + x]);
            }
        }
        assert(interior_t =~= trimmed + a + trailing) by {
            assert forall|x: int| 0 <= x < interior_t.len() implies interior_t[x] == (trimmed + a
                + trailing)[x] by {
                assert(interior_t[x] == t[open + 1 + x]);
                if x < rt {
                    assert(t[open + 1 + x] == s[open + 1 + x]);
                    assert(interior[x] == s[open + 1 + x]);
                } else if x < rt + a.len() {
                    assert(t[open + 1 + x] == a[x - rt]);
                } else {
                    assert(t[open + 1 + x] == s[open + 1 + x - a.len()]);
                    assert(interior[x - a.len()] == s[open + 1 + x - a.len()]);
                    assert(trailing[x - rt - a.len()] == interior[x - a.len()]);
                }
            }
        }
        assert(interior =~= trimmed + trailing);
        assert(crate::scan::boundary_ok(trimmed, trailing));
        crate::scan::lemma_tokens_concat(trimmed, trailing);
        crate::scan::lemma_tokens_all_ws(trailing);
        assert(tokens_of(interior) =~= tokens_of(trimmed));
        assert(a.len() > 0 && crate::chars::is_ws(a[0]));
        assert(crate::scan::boundary_ok(trimmed, a + trailing)) by {
            assert((a + trailing)[0] == a[0]);
        }
        assert(crate::scan::boundary_ok(a, trailing));
        crate::scan::lemma_tokens_concat(trimmed, a + trailing);
        crate::scan::lemma_tokens_concat(a, trailing);
        assert(interior_t =~= trimmed + (a + trailing));
        assert(tokens_of(interior_t) =~= tokens_of(interior) + forms);
        assert(entries_of(t, q) == tokens_of(interior_t));
    }
}

proof fn lemma_kept_sub(es: Seq<Seq<char>>, ps: Seq<Seq<char>>)
    ensures
        forall|k: int|
            0 <= k < kept_entries(es, ps).len() ==> es.contains(#[trigger] kept_entries(es, ps)[k]),
    decreases es.len(),
{
    if es.len() > 0 {
        lemma_kept_sub(es.skip(1), ps);
        let kept = kept_entries(es, ps);
        let rest = kept_entries(es.skip(1), ps);
        assert forall|k: int| 0 <= k < kept.len() implies es.contains(#[trigger] kept[k]) by {
            if keeps(es[0], ps) && k == 0 {
                assert(kept[0] == es[0]);
            } else {
                let kr = if keeps(es[0], ps) {
                    k - 1
                } else {
                    k
                };
                assert(kept[k] == rest[kr]);
                assert(es.skip(1).contains(rest[kr]));
                let j = choose|j: int| 0 <= j < es.skip(1).len() && es.skip(1)[j] == rest[kr];
                assert(es[j + 1] == rest[kr]);
            }
        }
    }
}

/// Removing rebuilds the list from exactly the surviving entries, in order.
#[verifier::rlimit(60)]
pub proof fn lemma_remove(s: Seq<char>, q: Seq<char>, ps: Seq<Seq<char>>)
    requires
        locate(s, q) is Some,
    ensures
        locate(remove_text(s, q, ps), q) is Some,
        entries_of(remove_text(s, q, ps), q) == kept_entries(entries_of(s, q), ps),
{
    let open = crate::scan::loc_open(s, q);
    let close = crate::scan::loc_close(s, q);
    crate::scan::lemma_locate(s, q);
    assert(locate(s, q) == Some((open, close)));
    let interior = s.subrange(open + 1, close);
    let es = tokens_of(interior);
    let kept = kept_entries(es, ps);
    let sep = sep_for(interior);
    let trail = trail_for(interior);
    let b = appended_text(kept, sep) + trail;
    let t = s.take(open + 1) + b + s.skip(close);
    assert(remove_text(s, q, ps) == s.take(open + 1) + appended_text(kept, sep) + trail + s.skip(
        close,
    ));
    assert(t =~= remove_text(s, q, ps));
    assert(entries_of(s, q) == es);
    lemma_sep_trail(interior);
    assert forall|y: int| 0 <= y < interior.len() implies #[trigger] interior[y] != ']' by {
        assert(interior[y] == s[open + 1 + y]);
    }
    crate::scan::lemma_tokens_wf(interior, 0);
    crate::scan::lemma_tokens_no_char(interior, 0, ']');
    lemma_kept_sub(es, ps);
    assert forall|k: int|
        0 <= k < kept.len() implies (#[trigger] kept[k]).len() >= 1 && crate::scan::no_ws(kept[k])
        && (forall|y: int| 0 <= y < kept[k].len() ==> #[trigger] kept[k][y] != ']') by {
        assert(es.contains(kept[k]));
        let j = choose|j: int| 0 <= j < es.len() && es[j] == kept[k];
        assert(es[j].len() >= 1 && crate::scan::no_ws(es[j]));
        assert forall|y: int| 0 <= y < kept[k].len() implies #[trigger] kept[k][y] != ']' by {
            assert(es[j][y] != ']');
        }
    }
    crate::scan::lemma_tokens_appended(kept, sep);
    crate::scan::lemma_appended_no_char(kept, sep, ']');
    let close_t = open + 1 + b.len();
    assert(t.len() == open + 1 + b.len() + (s.len() - close));
    assert forall|x: int| 0 <= x <= open implies t[x] == s[x] by {
        assert(t[x] == s.take(open + 1)[x]);
    }
    assert forall|x: int| open + 1 <= x < close_t implies t[x] == b[x - open - 1] by {}
    assert(t[close_t] == s.skip(close)[0]);
    assert(t[close_t] == ']');
    assert forall|x: int| open < x < close_t implies t[x] != ']' by {
        let y = x - open - 1;
        assert(t[x] == b[y]);
        if y < appended_text(kept, sep).len() {
            assert(b[y] == appended_text(kept, sep)[y]);
        } else {
            assert(b[y] == trail[y - appended_text(kept, sep).len()]);
        }
    }
    crate::scan::lemma_locate_agree(s, t, q, close_t);
    let interior_t = t.subrange(open + 1, close_t);
    assert(interior_t =~= b);
    assert(crate::scan::boundary_ok(appended_text(kept, sep), trail));
    crate::scan::lemma_tokens_concat(appended_text(kept, sep), trail);
    crate::scan::lemma_tokens_all_ws(trail);
    assert(tokens_of(interior_t) =~= kept);
    assert(entries_of(t, q) == tokens_of(interior_t));
}

// ---------------------------------------------------------------------------
// The laws of the mutator: what installing and removing do to the set of
// bare identifiers the list declares.
// ---------------------------------------------------------------------------

/// The set of bare identifiers the entries declare.
pub open spec fn bare_set(es: Seq<Seq<char>>) -> Set<Seq<char>> {
    es.map_values(|e: Seq<char>| bare(e)).to_set()
}

pub proof fn lemma_bare_set_mem(es: Seq<Seq<char>>, x: Seq<char>)
    ensures
        bare_set(es).contains(x) <==> exists|k: int| 0 <= k < es.len() && bare(#[trigger] es[k])
            == x,
{
    let m = es.map_values(|e: Seq<char>| bare(e));
    if bare_set(es).contains(x) {
        let k = choose|k: int| 0 <= k < m.len() && m[k] == x;
        assert(bare(es[k]) == x);
    }
    if exists|k: int| 0 <= k < es.len() && bare(#[trigger] es[k]) == x {
        let k = choose|k: int| 0 <= k < es.len() && bare(#[trigger] es[k]) == x;
        assert(m[k] == x);
        assert(m.contains(x));
    }
}

proof fn lemma_kept_pred(es: Seq<Seq<char>>, ps: Seq<Seq<char>>)
    ensures
        forall|k: int|
            0 <= k < kept_entries(es, ps).len() ==> keeps(#[trigger] kept_entries(es, ps)[k], ps),
    decreases es.len(),
{
    if es.len() > 0 {
        lemma_kept_pred(es.skip(1), ps);
        let kept = kept_entries(es, ps);
        let rest = kept_entries(es.skip(1), ps);
        assert forall|k: int| 0 <= k < kept.len() implies keeps(#[trigger] kept[k], ps) by {
            if keeps(es[0], ps) {
                if k > 0 {
                    assert(kept[k] == rest[k - 1]);
                }
            } else {
                assert(kept[k] == rest[k]);
            }
        }
    }
}

proof fn lemma_kept_all(es: Seq<Seq<char>>, ps: Seq<Seq<char>>)
    requires
        forall|k: int| 0 <= k < es.len() ==> keeps(#[trigger] es[k], ps),
    ensures
        kept_entries(es, ps) == es,
    decreases es.len(),
{
    if es.len() > 0 {
        assert forall|k: int| 0 <= k < es.skip(1).len() implies keeps(
            #[trigger] es.skip(1)[k],
            ps,
        ) by {
            assert(es.skip(1)[k] == es[k + 1]);
        }
        lemma_kept_all(es.skip(1), ps);
        assert(seq![es[0]] + es.skip(1) =~= es);
    }
}

proof fn lemma_kept_none(es: Seq<Seq<char>>, ps: Seq<Seq<char>>)
    requires
        forall|k: int| 0 <= k < es.len() ==> !keeps(#[trigger] es[k], ps),
    ensures
        kept_entries(es, ps) == Seq::<Seq<char>>::empty(),
    decreases es.len(),
{
    if es.len() > 0 {
        assert forall|k: int| 0 <= k < es.skip(1).len() implies !keeps(
            #[trigger] es.skip(1)[k],
            ps,
        ) by {
            assert(es.skip(1)[k] == es[k + 1]);
        }
        lemma_kept_none(es.skip(1), ps);
    }
}

proof fn lemma_kept_concat(a: Seq<Seq<char>>, b: Seq<Seq<char>>, ps: Seq<Seq<char>>)
    ensures
        kept_entries(a + b, ps) == kept_entries(a, ps) + kept_entries(b, ps),
    decreases a.len(),
{
    if a.len() == 0 {
        assert(a + b =~= b);
        assert(kept_entries(a, ps) + kept_entries(b, ps) =~= kept_entries(b, ps));
    } else {
        assert((a + b)[0] == a[0]);
        assert((a + b).skip(1) =~= a.skip(1) + b);
        lemma_kept_concat(a.skip(1), b, ps);
        if keeps(a[0], ps) {
            assert(seq![a[0]] + (kept_entries(a.skip(1), ps) + kept_entries(b, ps)) =~= (seq![
                a[0],
            ] + kept_entries(a.skip(1), ps)) + kept_entries(b, ps));
        }
    }
}

/// Installing packages disjoint from the list: re-reading the attribute
/// afterwards yields exactly the old identifiers united with the request.
pub proof fn lemma_install_set(s: Seq<char>, q: Seq<char>, ps: Seq<Seq<char>>)
    requires
        locate(s, q) is Some,
        all_valid(ps),
        forall|k: int| 0 <= k < ps.len() ==> !is_qualified(#[trigger] ps[k]),
        forall|k: int| 0 <= k < ps.len() ==> !bare_set(entries_of(s, q)).contains(#[trigger] ps[k]),
    ensures
        locate(install_text(s, q, ps), q) is Some,
        bare_set(entries_of(install_text(s, q, ps), q)) == bare_set(entries_of(s, q)).union(
            ps.to_set(),
        ),
{
    lemma_install(s, q, ps);
    let es = entries_of(s, q);
    let qual = !has_qualified(es);
    let forms = add_forms(ps, qual);
    let es2 = entries_of(install_text(s, q, ps), q);
    assert(es2 == es + forms);
    assert forall|k: int| 0 <= k < forms.len() implies bare(#[trigger] forms[k]) == ps[k] by {
        lemma_add_form(ps[k], qual);
    }
    assert(bare_set(es2) =~= bare_set(es).union(ps.to_set())) by {
        assert forall|x: Seq<char>|
            bare_set(es2).contains(x) <==> bare_set(es).union(ps.to_set()).contains(x) by {
            lemma_bare_set_mem(es2, x);
            lemma_bare_set_mem(es, x);
            if bare_set(es2).contains(x) {
                let k = choose|k: int| 0 <= k < es2.len() && bare(#[trigger] es2[k]) == x;
                if k < es.len() {
                    assert(es2[k] == es[k]);
                } else {
                    assert(es2[k] == forms[k - es.len()]);
                    assert(ps.contains(ps[k - es.len()]));
                }
            }
            if bare_set(es).contains(x) {
                let k = choose|k: int| 0 <= k < es.len() && bare(#[trigger] es[k]) == x;
                assert(bare(es2[k]) == x);
            }
            if ps.to_set().contains(x) {
                let k = choose|k: int| 0 <= k < ps.len() && ps[k] == x;
                assert(bare(es2[es.len() + k]) == x);
            }
        }
    }
}

/// Removing packages that are all present: re-reading the attribute
/// afterwards yields exactly the old identifiers minus the request.
pub proof fn lemma_remove_set(s: Seq<char>, q: Seq<char>, ps: Seq<Seq<char>>)
    requires
        locate(s, q) is Some,
        forall|k: int| 0 <= k < ps.len() ==> !is_qualified(#[trigger] ps[k]),
        forall|k: int| 0 <= k < ps.len() ==> bare_set(entries_of(s, q)).contains(#[trigger] ps[k]),
    ensures
        locate(remove_text(s, q, ps), q) is Some,
        bare_set(entries_of(remove_text(s, q, ps), q)) == bare_set(entries_of(s, q)).difference(
            ps.to_set(),
        ),
{
    lemma_remove(s, q, ps);
    let es = entries_of(s, q);
    let kept = kept_entries(es, ps);
    lemma_kept_sub(es, ps);
    lemma_kept_pred(es, ps);
    assert(bare_set(kept) =~= bare_set(es).difference(ps.to_set())) by {
        assert forall|x: Seq<char>|
            bare_set(kept).contains(x) <==> bare_set(es).difference(ps.to_set()).contains(x) by {
            lemma_bare_set_mem(kept, x);
            lemma_bare_set_mem(es, x);
            if bare_set(kept).contains(x) {
                let k = choose|k: int| 0 <= k < kept.len() && bare(#[trigger] kept[k]) == x;
                assert(es.contains(kept[k]));
                let j = choose|j: int| 0 <= j < es.len() && es[j] == kept[k];
                assert(bare(es[j]) == x);
                assert(keeps(kept[k], ps));
                if ps.to_set().contains(x) {
                    let w = choose|w: int| 0 <= w < ps.len() && ps[w] == x;
                    assert(bare(ps[w]) == x);
                }
            }
            if bare_set(es).contains(x) && !ps.to_set().contains(x) {
                let j = choose|j: int| 0 <= j < es.len() && bare(#[trigger] es[j]) == x;
                assert(keeps(es[j], ps)) by {
                    assert forall|w: int| 0 <= w < ps.len() implies bare(es[j]) != bare(
                        #[trigger] ps[w],
                    ) by {
                        if bare(es[j]) == bare(ps[w]) {
                            assert(ps.contains(ps[w]));
                        }
                    }
                }
                lemma_kept_mem(es, ps, es[j]);
                assert(kept.contains(es[j]));
                let k = choose|k: int| 0 <= k < kept.len() && kept[k] == es[j];
                assert(bare(kept[k]) == x);
            }
        }
    }
}

proof fn lemma_kept_mem(es: Seq<Seq<char>>, ps: Seq<Seq<char>>, e: Seq<char>)
    requires
        es.contains(e),
        keeps(e, ps),
    ensures
        kept_entries(es, ps).contains(e),
    decreases es.len(),
{
    let j = choose|j: int| 0 <= j < es.len() && es[j] == e;
    let kept = kept_entries(es, ps);
    if j == 0 {
        assert(kept[0] == e);
    } else {
        assert(es.skip(1)[j - 1] == e);
        assert(es.skip(1).contains(e));
        lemma_kept_mem(es.skip(1), ps, e);
        let rest = kept_entries(es.skip(1), ps);
        let k = choose|k: int| 0 <= k < rest.len() && rest[k] == e;
        if keeps(es[0], ps) {
            assert(kept[k + 1] == e);
        } else {
            assert(kept[k] == e);
        }
    }
}

/// Round trip: installing packages disjoint from the list and then removing
/// them reproduces exactly the original entry sequence, and with it the
/// original set of identifiers.
pub proof fn lemma_round_trip(s: Seq<char>, q: Seq<char>, ps: Seq<Seq<char>>)
    requires
        locate(s, q) is Some,
        all_valid(ps),
        forall|k: int| 0 <= k < ps.len() ==> !is_qualified(#[trigger] ps[k]),
        forall|k: int| 0 <= k < ps.len() ==> !bare_set(entries_of(s, q)).contains(#[trigger] ps[k]),
    ensures
        locate(install_text(s, q, ps), q) is Some,
        entries_of(remove_text(install_text(s, q, ps), q, ps), q) == entries_of(s, q),
{
    lemma_install(s, q, ps);
    let t1 = install_text(s, q, ps);
    lemma_remove(t1, q, ps);
    let es = entries_of(s, q);
    let qual = !has_qualified(es);
    let forms = add_forms(ps, qual);
    assert(entries_of(t1, q) == es + forms);
    lemma_kept_concat(es, forms, ps);
    assert forall|k: int| 0 <= k < es.len() implies keeps(#[trigger] es[k], ps) by {
        assert forall|j: int| 0 <= j < ps.len() implies bare(es[k]) != bare(#[trigger] ps[j]) by {
            if bare(es[k]) == bare(ps[j]) {
                lemma_bare_set_mem(es, ps[j]);
            }
        }
    }
    lemma_kept_all(es, ps);
    assert forall|k: int| 0 <= k < forms.len() implies !keeps(#[trigger] forms[k], ps) by {
        lemma_add_form(ps[k], qual);
        assert(bare(forms[k]) == bare(ps[k]));
    }
    lemma_kept_none(forms, ps);
    assert(es + Seq::<Seq<char>>::empty() =~= es);
}

/// When the list has no qualified entry, installing adds every request in
/// qualified form and leaves every original entry unchanged and unqualified.
pub proof fn lemma_install_qualifier(s: Seq<char>, q: Seq<char>, ps: Seq<Seq<char>>)
    requires
        locate(s, q) is Some,
        all_valid(ps),
        !has_qualified(entries_of(s, q)),
    ensures
        locate(install_text(s, q, ps), q) is Some,
        entries_of(install_text(s, q, ps), q).len() == entries_of(s, q).len() + ps.len(),
        entries_of(install_text(s, q, ps), q).take(entries_of(s, q).len() as int) == entries_of(
            s,
            q,
        ),
        forall|k: int|
            entries_of(s, q).len() <= k < entries_of(install_text(s, q, ps), q).len()
                ==> is_qualified(#[trigger] entries_of(install_text(s, q, ps), q)[k]) && bare(
                entries_of(install_text(s, q, ps), q)[k],
            ) == ps[k - entries_of(s, q).len()],
        forall|k: int|
            0 <= k < entries_of(s, q).len() ==> !is_qualified(
                #[trigger] entries_of(install_text(s, q, ps), q)[k],
            ),
{
    lemma_install(s, q, ps);
    let es = entries_of(s, q);
    let forms = add_forms(ps, true);
    let es2 = entries_of(install_text(s, q, ps), q);
    assert(es2 == es + forms);
    assert(es2.take(es.len() as int) =~= es);
    assert forall|k: int| es.len() <= k < es2.len() implies is_qualified(#[trigger] es2[k]) && bare(
        es2[k],
    ) == ps[k - es.len()] by {
        assert(es2[k] == forms[k - es.len()]);
        lemma_add_form(ps[k - es.len()], true);
    }
    assert forall|k: int| 0 <= k < es.len() implies !is_qualified(#[trigger] es2[k]) by {
        assert(es2[k] == es[k]);
    }
}

// ---------------------------------------------------------------------------
// Executable helpers.
// ---------------------------------------------------------------------------

fn qual_prefix_vec() -> (w: Vec<char>)
    ensures
        w@ == qual_prefix(),
{
    let mut w: Vec<char> = Vec::new();
    w.push('p');
    w.push('k');
    w.push('g');
    w.push('s');
    w.push('.');
    assert(w@ =~= qual_prefix());
    w
}

fn entry_qualified(t: &Vec<char>) -> (b: bool)
    ensures
        b == is_qualified(t@),
{
    if t.len() < 5 {
        return false;
    }
    let p = qual_prefix_vec();
    range_eq(t, 0, &p)
}

fn any_qualified(ts: &Vec<Vec<char>>) -> (b: bool)
    ensures
        b == has_qualified(ts.deep_view()),
{
    let mut i: usize = 0;
    while i < ts.len()
        invariant
            i <= ts@.len(),
            ts.deep_view().len() == ts@.len(),
            forall|k: int| 0 <= k < i ==> !is_qualified(#[trigger] ts.deep_view()[k]),
        decreases ts@.len() - i,
    {
        assert(ts.deep_view()[i as int] =~= ts@[i as int]@);
        if entry_qualified(&ts[i]) {
            return true;
        }
        i = i + 1;
    }
    false
}

fn contains_char(v: &Vec<char>, c: char) -> (b: bool)
    ensures
        b == v@.contains(c),
{
    let mut i: usize = 0;
    while i < v.len()
        invariant
            i <= v@.len(),
            forall|k: int| 0 <= k < i ==> v@[k] != c,
        decreases v@.len() - i,
    {
        if v[i] == c {
            return true;
        }
        i = i + 1;
    }
    false
}

/// Builds the separator for the list's style.
fn sep_vec(multiline: bool) -> (w: Vec<char>)
    ensures
        multiline ==> w@ == seq!['\n', ' ', ' '],
        !multiline ==> w@ == seq![' '],
{
    let mut w: Vec<char> = Vec::new();
    if multiline {
        w.push('\n');
        w.push(' ');
        w.push(' ');
        assert(w@ =~= seq!['\n', ' ', ' ']);
    } else {
        w.push(' ');
        assert(w@ =~= seq![' ']);
    }
    w
}

/// Builds the whitespace that closes a rebuilt list.
fn trail_vec(multiline: bool) -> (w: Vec<char>)
    ensures
        multiline ==> w@ == seq!['\n'],
        !multiline ==> w@ == seq![' '],
{
    let mut w: Vec<char> = Vec::new();
    if multiline {
        w.push('\n');
        assert(w@ =~= seq!['\n']);
    } else {
        w.push(' ');
        assert(w@ =~= seq![' ']);
    }
    w
}

/// The bare identifier of one entry.
fn bare_vec(t: &Vec<char>) -> (r: Vec<char>)
    ensures
        r@ == bare(t@),
{
    if entry_qualified(t) {
        subvec(t, 5, t.len())
    } else {
        let r = subvec(t, 0, t.len());
        assert(r@ =~= t@);
        r
    }
}

fn seq_eq(a: &Vec<char>, b: &Vec<char>) -> (r: bool)
    ensures
        r == (a@ == b@),
{
    if a.len() != b.len() {
        return false;
    }
    let r = range_eq(a, 0, b);
    proof {
        assert(a@.subrange(0, b@.len() as int) =~= a@);
    }
    r
}

/// The entry's bare identifier differs from every one of the given bare
/// identifiers.
fn keeps_exec(e: &Vec<char>, qbares: &Vec<Vec<char>>) -> (b: bool)
    ensures
        b == (forall|k: int|
            0 <= k < qbares.deep_view().len() ==> bare(e@) != #[trigger] qbares.deep_view()[k]),
{
    let eb = bare_vec(e);
    let mut k: usize = 0;
    while k < qbares.len()
        invariant
            k <= qbares@.len(),
            eb@ == bare(e@),
            qbares.deep_view().len() == qbares@.len(),
            forall|x: int| 0 <= x < k ==> bare(e@) != #[trigger] qbares.deep_view()[x],
        decreases qbares@.len() - k,
    {
        assert(qbares.deep_view()[k as int] =~= qbares@[k as int]@);
        if seq_eq(&eb, &qbares[k]) {
            return false;
        }
        k = k + 1;
    }
    true
}

proof fn lemma_kept_snoc(es: Seq<Seq<char>>, e: Seq<char>, ps: Seq<Seq<char>>)
    ensures
        kept_entries(es.push(e), ps) == if keeps(e, ps) {
            kept_entries(es, ps).push(e)
        } else {
            kept_entries(es, ps)
        },
    decreases es.len(),
{
    if es.len() == 0 {
        assert(es.push(e)[0] == e);
        assert(es.push(e).skip(1) =~= Seq::<Seq<char>>::empty());
        assert(kept_entries(Seq::<Seq<char>>::empty(), ps) =~= Seq::<Seq<char>>::empty());
        if keeps(e, ps) {
            assert(kept_entries(es.push(e), ps) =~= kept_entries(es, ps).push(e));
        } else {
            assert(kept_entries(es.push(e), ps) =~= kept_entries(es, ps));
        }
    } else {
        assert(es.push(e)[0] == es[0]);
        assert(es.push(e).skip(1) =~= es.skip(1).push(e));
        lemma_kept_snoc(es.skip(1), e, ps);
        if keeps(es[0], ps) && keeps(e, ps) {
            assert(seq![es[0]] + kept_entries(es.skip(1), ps).push(e) =~= (seq![es[0]]
                + kept_entries(es.skip(1), ps)).push(e));
        }
    }
}

fn attr_chars(query: Option<&str>) -> (v: Vec<char>)
    ensures
        v@ == query_view(query),
        query matches Some(q) ==> v@ == q@,
{
    match query {
        Some(q) => to_chars(q),
        None => to_chars("environment.systemPackages"),
    }
}

// ---------------------------------------------------------------------------
// The mutator itself.
// ---------------------------------------------------------------------------

/// Adds the packages to the attribute's list in document `f` and returns the
/// new document text. The entries are qualified when the list has no
/// qualified entry yet. Fails exactly when the attribute with a bracketed
/// list cannot be found.
pub fn pkwrite(pkgs: Vec<String>, f: &str, query: Option<&str>) -> (r: Result<
    String,
    MutateError,
>)
    requires
        all_valid(pkgs.deep_view()),
        query matches Some(q) ==> q@.len() >= 1,
    ensures
        r is Ok <==> locate(f@, query_view(query)) is Some,
        r matches Ok(out) ==> out@ == install_text(f@, query_view(query), pkgs.deep_view()),
{
    let v = to_chars(f);
    let qv = attr_chars(query);
    proof {
        if query is None {
            reveal_strlit("environment.systemPackages");
        }
    }
    let (open, close) = match crate::scan::locate_list(&v, &qv) {
        Some(oc) => oc,
        None => {
            return Err(MutateError::MalformedDocument);
        },
    };
    let interior = subvec(&v, open + 1, close);
    let ts = tokenize(&interior);
    let qualify = !any_qualified(&ts);
    let multiline = contains_char(&interior, '\n');
    let sep = sep_vec(multiline);
    let ghost sep_spec = sep_for(interior@);
    let ghost forms = add_forms(pkgs.deep_view(), qualify);
    let ins = rtrim_at(&v, open + 1, close);

    let mut mid: Vec<char> = Vec::new();
    let mut k: usize = 0;
    while k < pkgs.len()
        invariant
            k <= pkgs@.len(),
            qualify == !has_qualified(tokens_of(interior@)),
            sep@ == sep_spec,
            forms == add_forms(pkgs.deep_view(), qualify),
            pkgs.deep_view().len() == pkgs@.len(),
            mid@ == appended_text(forms.take(k as int), sep_spec),
        decreases pkgs@.len() - k,
    {
        let ghost mid0 = mid@;
        push_range(&mut mid, &sep, 0, sep.len());
        assert(mid@ == mid0 + sep_spec) by {
            assert(sep@.subrange(0, sep@.len() as int) =~= sep@);
        }
        if qualify {
            push_str_chars(&mut mid, "pkgs.");
            proof {
                reveal_strlit("pkgs.");
                assert("pkgs."@ =~= qual_prefix());
            }
        }
        push_str_chars(&mut mid, pkgs[k].as_str());
        proof {
            assert(pkgs.deep_view()[k as int] == pkgs@[k as int]@);
            let p = pkgs.deep_view()[k as int];
            assert(forms[k as int] == add_form(p, qualify));
            crate::scan::lemma_appended_snoc(forms.take(k as int), forms[k as int], sep_spec);
            assert(forms.take(k + 1) =~= forms.take(k as int).push(forms[k as int]));
            assert(mid@ =~= mid0 + sep_spec + forms[k as int]);
        }
        k = k + 1;
    }
    assert(forms.take(pkgs@.len() as int) =~= forms);

    let mut out: Vec<char> = Vec::new();
    push_range(&mut out, &v, 0, ins);
    push_range(&mut out, &mid, 0, mid.len());
    push_range(&mut out, &v, ins, v.len());
    proof {
        assert(mid@.subrange(0, mid@.len() as int) =~= mid@);
        assert(v@.subrange(0, ins as int) =~= v@.take(ins as int));
        assert(v@.subrange(ins as int, v@.len() as int) =~= v@.skip(ins as int));
        assert(out@ =~= v@.take(ins as int) + mid@ + v@.skip(ins as int));
    }
    Ok(chars_to_string(&out))
}

/// Removes the packages from the attribute's list in document `f` and
/// returns the new document text. An entry is removed when its bare
/// identifier equals the bare identifier of a requested package, whether or
/// not either is written qualified. Fails exactly when the attribute with a
/// bracketed list cannot be found.
pub fn pkrm(pkgs: Vec<String>, f: &str, query: Option<&str>) -> (r: Result<String, MutateError>)
    requires
        query matches Some(q) ==> q@.len() >= 1,
    ensures
        r is Ok <==> locate(f@, query_view(query)) is Some,
        r matches Ok(out) ==> out@ == remove_text(f@, query_view(query), pkgs.deep_view()),
{
    let v = to_chars(f);
    let qv = attr_chars(query);
    proof {
        if query is None {
            reveal_strlit("environment.systemPackages");
        }
    }
    let (open, close) = match crate::scan::locate_list(&v, &qv) {
        Some(oc) => oc,
        None => {
            return Err(MutateError::MalformedDocument);
        },
    };
    let interior = subvec(&v, open + 1, close);
    let ts = tokenize(&interior);
    let multiline = contains_char(&interior, '\n');
    let sep = sep_vec(multiline);
    let trail = trail_vec(multiline);
    let ghost sep_spec = sep_for(interior@);
    let ghost ps = pkgs.deep_view();

    let mut qbares: Vec<Vec<char>> = Vec::new();
    let mut k: usize = 0;
    while k < pkgs.len()
        invariant
            k <= pkgs@.len(),
            ps == pkgs.deep_view(),
            ps.len() == pkgs@.len(),
            qbares.deep_view().len() == k,
            forall|x: int| 0 <= x < k ==> #[trigger] qbares.deep_view()[x] == bare(ps[x]),
        decreases pkgs@.len() - k,
    {
        let pc = to_chars(pkgs[k].as_str());
        let b = bare_vec(&pc);
        let ghost qb0 = qbares.deep_view();
        assert(b.deep_view() =~= b@);
        assert(pc@ == ps[k as int]);
        qbares.push(b);
        assert(qbares.deep_view() =~= qb0.push(b@));
        k = k + 1;
    }

    let ghost es = ts.deep_view();
    let mut mid: Vec<char> = Vec::new();
    let mut i: usize = 0;
    while i < ts.len()
        invariant
            i <= ts@.len(),
            es == ts.deep_view(),
            es.len() == ts@.len(),
            sep@ == sep_spec,
            ps.len() == qbares.deep_view().len(),
            forall|x: int|
                0 <= x < ps.len() ==> #[trigger] qbares.deep_view()[x] == bare(ps[x]),
            mid@ == appended_text(kept_entries(es.take(i as int), ps), sep_spec),
        decreases ts@.len() - i,
    {
        assert(es[i as int] =~= ts@[i as int]@);
        let keep = keeps_exec(&ts[i], &qbares);
        proof {
            assert(keep == keeps(es[i as int], ps)) by {
                if keep {
                    assert forall|x: int| 0 <= x < ps.len() implies bare(es[i as int]) != bare(
                        #[trigger] ps[x],
                    ) by {
                        assert(bare(es[i as int]) != qbares.deep_view()[x]);
                    }
                }
            }
            lemma_kept_snoc(es.take(i as int), es[i as int], ps);
            assert(es.take(i + 1) =~= es.take(i as int).push(es[i as int]));
        }
        if keep {
            let ghost mid0 = mid@;
            push_range(&mut mid, &sep, 0, sep.len());
            assert(mid@ == mid0 + sep_spec) by {
                assert(sep@.subrange(0, sep@.len() as int) =~= sep@);
            }
            push_range(&mut mid, &ts[i], 0, ts[i].len());
            proof {
                assert(ts@[i as int]@.subrange(0, ts@[i as int]@.len() as int) =~= es[i as int]);
                crate::scan::lemma_appended_snoc(
                    kept_entries(es.take(i as int), ps),
                    es[i as int],
                    sep_spec,
                );
                assert(mid@ =~= appended_text(kept_entries(es.take(i as int), ps), sep_spec)
                    + sep_spec + es[i as int]);
            }
        }
        i = i + 1;
    }
    assert(es.take(es.len() as int) =~= es);

    let mut out: Vec<char> = Vec::new();
    push_range(&mut out, &v, 0, open + 1);
    push_range(&mut out, &mid, 0, mid.len());
    push_range(&mut out, &trail, 0, trail.len());
    push_range(&mut out, &v, close, v.len());
    proof {
        assert(mid@.subrange(0, mid@.len() as int) =~= mid@);
        assert(trail@.subrange(0, trail@.len() as int) =~= trail@);
        assert(trail@ == trail_for(interior@));
        assert(v@.subrange(0, open + 1 as int) =~= v@.take(open + 1 as int));
        assert(v@.subrange(close as int, v@.len() as int) =~= v@.skip(close as int));
        assert(out@ =~= v@.take(open + 1 as int) + mid@ + trail@ + v@.skip(close as int));
    }
    Ok(chars_to_string(&out))
}

} // verus!
