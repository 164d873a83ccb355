//! The search filter: whether one package matches a query. The caller
//! supplies the name, the description and the query terms already brought to
//! a common case; a package matches when every term occurs in its name or
//! its description.
use vstd::prelude::*;
use crate::chars::to_chars;
use crate::scan::range_eq;

verus! {

/// `needle` occurs contiguously inside `hay`.
pub open spec fn has_substr(hay: Seq<char>, needle: Seq<char>) -> bool {
    exists|o: int|
        0 <= o && o + needle.len() <= hay.len() && #[trigger] hay.subrange(o, o + needle.len())
            == needle
}

/// True exactly when `needle` occurs inside `hay`.
pub fn contains_substr(hay: &Vec<char>, needle: &Vec<char>) -> (b: bool)
    ensures
        b == has_substr(hay@, needle@),
{
    if needle.len() == 0 {
        proof {
            assert(hay@.subrange(0, 0 + needle@.len() as int) =~= needle@);
        }
        return true;
    }
    if needle.len() > hay.len() {
        assert(!has_substr(hay@, needle@));
        return false;
    }
    let bound = hay.len() - needle.len();
    let mut o: usize = 0;
    while o <= bound
        invariant
            needle@.len() >= 1,
            hay@.len() <= usize::MAX,
            bound == hay@.len() - needle@.len(),
            o <= bound + 1,
            forall|x: int| 0 <= x < o ==> #[trigger] hay@.subrange(x, x + needle@.len()) != needle@,
        decreases bound + 1 - o,
    {
        if range_eq(hay, o, needle) {
            return true;
        }
        o = o + 1;
    }
    proof {
        if has_substr(hay@, needle@) {
            let w = choose|w: int|
                0 <= w && w + needle@.len() <= hay@.len() && #[trigger] hay@.subrange(
                    w,
                    w + needle@.len(),
                ) == needle@;
            assert(hay@.subrange(w, w + needle@.len()) != needle@);
        }
    }
    false
}

pub open spec fn opt_view(o: Option<String>) -> Option<Seq<char>> {
    match o {
        Some(s) => Some(s@),
        None => None,
    }
}

/// One query term hits when it occurs in the name or in the description.
pub open spec fn query_hit(name: Seq<char>, desc: Option<Seq<char>>, q: Seq<char>) -> bool {
    has_substr(name, q) || (desc matches Some(d) && has_substr(d, q))
}

/// Whether a package matches a search: every query term must hit its name
/// or its description. Name, description and terms are compared as given;
/// the caller brings them to a common case first.
pub fn search_match(name: &str, desc: &Option<String>, queries: &Vec<String>) -> (b: bool)
    ensures
        b == (forall|k: int|
            0 <= k < queries.deep_view().len() ==> query_hit(
                name@,
                opt_view(*desc),
                #[trigger] queries.deep_view()[k],
            )),
{
    let nv = to_chars(name);
    let dv: Option<Vec<char>> = match desc {
        Some(d) => Some(to_chars(d.as_str())),
        None => None,
    };
    let mut k: usize = 0;
    while k < queries.len()
        invariant
            k <= queries@.len(),
            queries.deep_view().len() == queries@.len(),
            nv@ == name@,
            match dv {
                Some(d) => opt_view(*desc) == Some(d@),
                None => opt_view(*desc) is None,
            },
            forall|x: int|
                0 <= x < k ==> query_hit(name@, opt_view(*desc), #[trigger] queries.deep_view()[x]),
        decreases queries@.len() - k,
    {
        assert(queries.deep_view()[k as int] == queries@[k as int]@);
        let qv = to_chars(queries[k].as_str());
        let mut hit = contains_substr(&nv, &qv);
        if !hit {
            hit = match &dv {
                Some(d) => contains_substr(d, &qv),
                None => false,
            };
        }
        if !hit {
            return false;
        }
        k = k + 1;
    }
    true
}

} // verus!
