//! Character-level ground work: the character classes the document scanner
//! is built on, and verified conversions between `String` / `&str` and
//! `Vec<char>`, the representation all of the text logic works over.
use vstd::prelude::*;
use vstd::string::StrSliceExecFns;

verus! {

/// Whitespace as the document scanner understands it.
pub open spec fn is_ws(c: char) -> bool {
    c == ' ' || c == '\n' || c == '\t' || c == '\r'
}

/// Characters that may make up an attribute path or a package entry:
/// everything except whitespace and the structural punctuation of the
/// configuration language.
pub open spec fn is_word_char(c: char) -> bool {
    &&& !is_ws(c)
    &&& c != '[' && c != ']'
    &&& c != '=' && c != ';'
    &&& c != '{' && c != '}'
    &&& c != '(' && c != ')'
    &&& c != '"' && c != '#'
    &&& c != ','
}

pub fn ws_char(c: char) -> (b: bool)
    ensures
        b == is_ws(c),
{
    c == ' ' || c == '\n' || c == '\t' || c == '\r'
}

pub fn word_char(c: char) -> (b: bool)
    ensures
        b == is_word_char(c),
{
    !ws_char(c) && c != '[' && c != ']' && c != '=' && c != ';' && c != '{' && c != '}' && c != '('
        && c != ')' && c != '"' && c != '#' && c != ','
}

/// The characters of a string slice, in order.
pub fn to_chars(s: &str) -> (v: Vec<char>)
    ensures
        v@ == s@,
{
    let n = s.unicode_len();
    let mut v: Vec<char> = Vec::new();
    for i in 0..n
        invariant
            n == s@.len(),
            v@ == s@.take(i as int),
    {
        v.push(s.get_char(i));
        assert(v@ =~= s@.take(i + 1 as int));
    }
    assert(s@.take(n as int) =~= s@);
    v
}

/// Relies on std's `String::push`: it appends exactly the given character.
#[verifier::external_body]
pub fn push_char(s: &mut String, c: char)
    ensures
        final(s)@ == old(s)@.push(c),
{
    s.push(c);
}

/// A `String` holding exactly the characters of `v`.
pub fn chars_to_string(v: &Vec<char>) -> (s: String)
    ensures
        s@ == v@,
{
    let mut s = String::new();
    for i in 0..v.len()
        invariant
            s@ == v@.take(i as int),
    {
        push_char(&mut s, v[i]);
        assert(s@ =~= v@.take(i + 1 as int));
    }
    assert(v@.take(v@.len() as int) =~= v@);
    s
}

/// Appends `src[lo..hi]` to `dst`.
pub fn push_range(dst: &mut Vec<char>, src: &Vec<char>, lo: usize, hi: usize)
    requires
        lo <= hi <= src@.len(),
    ensures
        final(dst)@ == old(dst)@ + src@.subrange(lo as int, hi as int),
{
    let mut i: usize = lo;
    while i < hi
        invariant
            lo <= i <= hi <= src@.len(),
            dst@ == old(dst)@ + src@.subrange(lo as int, i as int),
        decreases hi - i,
    {
        dst.push(src[i]);
        assert(dst@ =~= old(dst)@ + src@.subrange(lo as int, i + 1 as int));
        i = i + 1;
    }
}

/// Appends every character of `s` to `dst`.
pub fn push_str_chars(dst: &mut Vec<char>, s: &str)
    ensures
        final(dst)@ == old(dst)@ + s@,
{
    let n = s.unicode_len();
    let mut i: usize = 0;
    while i < n
        invariant
            n == s@.len(),
            i <= n,
            dst@ == old(dst)@ + s@.take(i as int),
        decreases n - i,
    {
        dst.push(s.get_char(i));
        assert(dst@ =~= old(dst)@ + s@.take(i + 1 as int));
        i = i + 1;
    }
    assert(old(dst)@ + s@.take(n as int) =~= old(dst)@ + s@);
}

/// A `String` holding exactly the characters `v[lo .. hi]`.
pub fn subvec_str(v: &Vec<char>, lo: usize, hi: usize) -> (s: String)
    requires
        lo <= hi <= v@.len(),
    ensures
        s@ == v@.subrange(lo as int, hi as int),
{
    let mut w: Vec<char> = Vec::new();
    push_range(&mut w, v, lo, hi);
    chars_to_string(&w)
}

/// True exactly when `s@` occurs among the views of `v`'s elements.
pub fn contains_string(v: &Vec<String>, s: &String) -> (b: bool)
    ensures
        b == v.deep_view().contains(s@),
{
    let mut i: usize = 0;
    while i < v.len()
        invariant
            i <= v@.len(),
            forall|k: int| 0 <= k < i ==> v.deep_view()[k] != s@,
            v.deep_view().len() == v@.len(),
        decreases v@.len() - i,
    {
        assert(v.deep_view()[i as int] == v@[i as int]@);
        if v[i].eq(s) {
            return true;
        }
        i = i + 1;
    }
    false
}

} // verus!
