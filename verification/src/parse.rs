//! The installed-set reader: what is currently declared in a configuration
//! document's package list, and what the imperative package manager's
//! structured query reports.
use vstd::prelude::*;
use crate::chars::chars_to_string;
use crate::chars::to_chars;
use crate::normalize::lookup_right;
use crate::normalize::name_to_pname;
use crate::normalize::NameIndex;
use crate::scan::entries_of;
use crate::scan::locate;
use crate::scan::locate_list;
use crate::scan::subvec;
use crate::scan::tokenize;

verus! {

/// The reader found no parseable package list.
#[derive(Debug)]
pub enum ParseError {
    EmptyPkgs,
}

/// Reads the entries of the named attribute's bracketed list out of the
/// document text, as written and in order. Fails exactly when the attribute
/// with a bracketed list cannot be found.
pub fn read_list(f: &str, q: &str) -> (r: Result<Vec<String>, ParseError>)
    requires
        q@.len() >= 1,
    ensures
        r is Ok <==> locate(f@, q@) is Some,
        r matches Ok(v) ==> v.deep_view() == entries_of(f@, q@),
{
    let v = to_chars(f);
    let qv = to_chars(q);
    let (open, close) = match locate_list(&v, &qv) {
        Some(oc) => oc,
        None => {
            return Err(ParseError::EmptyPkgs);
        },
    };
    let interior = subvec(&v, open + 1, close);
    let ts = tokenize(&interior);
    let mut out: Vec<String> = Vec::new();
    let mut i: usize = 0;
    while i < ts.len()
        invariant
            i <= ts@.len(),
            ts.deep_view().len() == ts@.len(),
            out.deep_view() == ts.deep_view().take(i as int),
        decreases ts@.len() - i,
    {
        let ghost o0 = out.deep_view();
        let e = chars_to_string(&ts[i]);
        out.push(e);
        assert(ts.deep_view()[i as int] == ts@[i as int]@);
        assert(out.deep_view() =~= o0.push(ts.deep_view()[i as int]));
        assert(out.deep_view() =~= ts.deep_view().take(i + 1));
        i = i + 1;
    }
    assert(ts.deep_view().take(ts.deep_view().len() as int) =~= ts.deep_view());
    Ok(out)
}

/// The packages declared in a per-user configuration document.
pub fn hmpkgs(f: &str) -> (r: Result<Vec<String>, ParseError>)
    ensures
        r is Ok <==> locate(f@, "home.packages"@) is Some,
        r matches Ok(v) ==> v.deep_view() == entries_of(f@, "home.packages"@),
{
    proof {
        reveal_strlit("home.packages");
    }
    read_list(f, "home.packages")
}

/// The packages declared in a system configuration document.
pub fn syspkgs(f: &str) -> (r: Result<Vec<String>, ParseError>)
    ensures
        r is Ok <==> locate(f@, "environment.systemPackages"@) is Some,
        r matches Ok(v) ==> v.deep_view() == entries_of(f@, "environment.systemPackages"@),
{
    proof {
        reveal_strlit("environment.systemPackages");
    }
    read_list(f, "environment.systemPackages")
}

/// What decoding the imperative manager's structured query output yields:
/// the "name" field of each entry in the decoder's member order, or nothing
/// when the text is not of that shape. A function of the text alone.
pub uninterp spec fn env_query_names(s: Seq<char>) -> Option<Seq<Seq<char>>>;

/// Relies on serde_json::from_str and the Value accessors: the query output
/// is one JSON object whose members each carry a string "name" field; the
/// decoder is a pure function of the text, and members come in the map's
/// key order. Returns the names, or `None` when the text does not have that
/// shape.
#[verifier::external_body]
fn decode_env_query(s: &str) -> (r: Option<Vec<String>>)
    ensures
        match r {
            Some(v) => env_query_names(s@) == Some(v.deep_view()),
            None => env_query_names(s@) is None,
        },
{
    let data: serde_json::Value = match serde_json::from_str(s) {
        Ok(x) => x,
        Err(_) => return None,
    };
    let obj = data.as_object()?;
    let mut out = Vec::new();
    for (_, pkg) in obj {
        out.push(pkg.get("name")?.as_str()?.to_string());
    }
    Some(out)
}

/// Decodes the imperative package manager's query output and brings each
/// reported name to its short form through the index. Fails exactly when
/// the output cannot be decoded.
pub fn envpkgs(out: &str, index: &NameIndex) -> (r: Result<Vec<String>, ParseError>)
    ensures
        r is Ok <==> env_query_names(out@) is Some,
        r matches Ok(v) ==> (env_query_names(out@) matches Some(names) && v.deep_view().len()
            == names.len() && (forall|i: int|
            0 <= i < names.len() ==> #[trigger] v.deep_view()[i] == lookup_right(
                index@,
                names[i],
            ))),
{
    let names = match decode_env_query(out) {
        Some(names) => names,
        None => {
            return Err(ParseError::EmptyPkgs);
        },
    };
    Ok(name_to_pname(&names, index))
}

} // verus!
