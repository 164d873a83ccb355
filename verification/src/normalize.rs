//! The name normalizer: a bidirectional mapping between a package's short
//! identifier and its fully qualified attribute identifier, loaded from the
//! metadata cache by the caller. Both directions are total: an identifier
//! the index does not know passes through unchanged, so a stale or absent
//! cache degrades gracefully instead of failing the operation.
use vstd::prelude::*;

verus! {

/// What a lookup from short to qualified yields: the mapped identifier of
/// the first pair whose short side matches, or the key itself.
pub open spec fn lookup_left(pairs: Seq<(Seq<char>, Seq<char>)>, k: Seq<char>) -> Seq<char>
    decreases pairs.len(),
{
    if pairs.len() == 0 {
        k
    } else if pairs[0].0 == k {
        pairs[0].1
    } else {
        lookup_left(pairs.skip(1), k)
    }
}

/// The qualified-to-short direction, with the same identity fallback.
pub open spec fn lookup_right(pairs: Seq<(Seq<char>, Seq<char>)>, k: Seq<char>) -> Seq<char>
    decreases pairs.len(),
{
    if pairs.len() == 0 {
        k
    } else if pairs[0].1 == k {
        pairs[0].0
    } else {
        lookup_right(pairs.skip(1), k)
    }
}

pub open spec fn has_left(pairs: Seq<(Seq<char>, Seq<char>)>, k: Seq<char>) -> bool {
    exists|i: int| 0 <= i < pairs.len() && (#[trigger] pairs[i]).0 == k
}

pub open spec fn has_right(pairs: Seq<(Seq<char>, Seq<char>)>, k: Seq<char>) -> bool {
    exists|i: int| 0 <= i < pairs.len() && (#[trigger] pairs[i]).1 == k
}

/// The short <-> qualified index. Each side holds every key at most once,
/// as in the bidirectional cache it is loaded from.
pub struct NameIndex {
    pairs: Vec<(String, String)>,
}

impl NameIndex {
    pub closed spec fn view(&self) -> Seq<(Seq<char>, Seq<char>)> {
        self.pairs.deep_view()
    }

    /// Well-formedness: no short identifier and no qualified identifier
    /// occurs twice.
    pub open spec fn wf(&self) -> bool {
        forall|i: int, j: int|
            0 <= i < j < self@.len() ==> (#[trigger] self@[i]).0 != (#[trigger] self@[j]).0
                && self@[i].1 != self@[j].1
    }

    pub fn new() -> (r: NameIndex)
        ensures
            r@ == Seq::<(Seq<char>, Seq<char>)>::empty(),
            r.wf(),
    {
        let r = NameIndex { pairs: Vec::new() };
        assert(r@ =~= Seq::<(Seq<char>, Seq<char>)>::empty());
        r
    }

    /// True exactly when some pair's short side is `k`.
    pub fn contains_left(&self, k: &String) -> (b: bool)
        ensures
            b == has_left(self@, k@),
    {
        let mut i: usize = 0;
        while i < self.pairs.len()
            invariant
                i <= self.pairs@.len(),
                self@.len() == self.pairs@.len(),
                forall|x: int| 0 <= x < i ==> (#[trigger] self@[x]).0 != k@,
            decreases self.pairs@.len() - i,
        {
            assert(self@[i as int] == (self.pairs@[i as int].0@, self.pairs@[i as int].1@));
            if self.pairs[i].0.eq(k) {
                return true;
            }
            i = i + 1;
        }
        false
    }

    /// True exactly when some pair's qualified side is `k`.
    pub fn contains_right(&self, k: &String) -> (b: bool)
        ensures
            b == has_right(self@, k@),
    {
        let mut i: usize = 0;
        while i < self.pairs.len()
            invariant
                i <= self.pairs@.len(),
                self@.len() == self.pairs@.len(),
                forall|x: int| 0 <= x < i ==> (#[trigger] self@[x]).1 != k@,
            decreases self.pairs@.len() - i,
        {
            assert(self@[i as int] == (self.pairs@[i as int].0@, self.pairs@[i as int].1@));
            if self.pairs[i].1.eq(k) {
                return true;
            }
            i = i + 1;
        }
        false
    }

    /// Adds a pair when neither side is present yet; rejects it otherwise,
    /// keeping both directions of the index unambiguous.
    pub fn insert(&mut self, short: String, qualified: String) -> (added: bool)
        requires
            old(self).wf(),
        ensures
            final(self).wf(),
            added == (!has_left(old(self)@, short@) && !has_right(old(self)@, qualified@)),
            added ==> final(self)@ == old(self)@.push((short@, qualified@)),
            !added ==> final(self)@ == old(self)@,
    {
        if self.contains_left(&short) || self.contains_right(&qualified) {
            return false;
        }
        let ghost old_view = self@;
        let ghost sv = short@;
        let ghost qv = qualified@;
        self.pairs.push((short, qualified));
        assert(self@ =~= old_view.push((sv, qv)));
        assert forall|i: int, j: int| 0 <= i < j < self@.len() implies (#[trigger] self@[i]).0 != (
        #[trigger] self@[j]).0 && self@[i].1 != self@[j].1 by {
            if j == self@.len() - 1 {
                assert(self@[i] == old_view[i]);
            }
        }
        true
    }

    /// The qualified identifier for a short one, or the key itself when the
    /// index does not know it.
    pub fn get_by_left(&self, k: &String) -> (r: String)
        ensures
            r@ == lookup_left(self@, k@),
    {
        assert(self@.skip(0) =~= self@);
        let mut i: usize = 0;
        while i < self.pairs.len()
            invariant
                i <= self.pairs@.len(),
                self@.len() == self.pairs@.len(),
                lookup_left(self@, k@) == lookup_left(self@.skip(i as int), k@),
            decreases self.pairs@.len() - i,
        {
            proof {
                assert(self@.skip(i as int)[0] == self@[i as int]);
                assert(self@[i as int] == (self.pairs@[i as int].0@, self.pairs@[i as int].1@));
                assert(self@.skip(i as int).skip(1) =~= self@.skip(i + 1));
            }
            if self.pairs[i].0.eq(k) {
                return self.pairs[i].1.clone();
            }
            i = i + 1;
        }
        assert(self@.skip(self@.len() as int) =~= Seq::<(Seq<char>, Seq<char>)>::empty());
        k.clone()
    }

    /// The short identifier for a qualified one, or the key itself when the
    /// index does not know it.
    pub fn get_by_right(&self, k: &String) -> (r: String)
        ensures
            r@ == lookup_right(self@, k@),
    {
        assert(self@.skip(0) =~= self@);
        let mut i: usize = 0;
        while i < self.pairs.len()
            invariant
                i <= self.pairs@.len(),
                self@.len() == self.pairs@.len(),
                lookup_right(self@, k@) == lookup_right(self@.skip(i as int), k@),
            decreases self.pairs@.len() - i,
        {
            proof {
                assert(self@.skip(i as int)[0] == self@[i as int]);
                assert(self@[i as int] == (self.pairs@[i as int].0@, self.pairs@[i as int].1@));
                assert(self@.skip(i as int).skip(1) =~= self@.skip(i + 1));
            }
            if self.pairs[i].1.eq(k) {
                return self.pairs[i].0.clone();
            }
            i = i + 1;
        }
        assert(self@.skip(self@.len() as int) =~= Seq::<(Seq<char>, Seq<char>)>::empty());
        k.clone()
    }
}

/// Maps each short identifier to its qualified form; identifiers the index
/// does not know pass through unchanged.
pub fn pname_to_name(query: &Vec<String>, index: &NameIndex) -> (r: Vec<String>)
    ensures
        r.deep_view().len() == query.deep_view().len(),
        forall|i: int|
            0 <= i < query.deep_view().len() ==> #[trigger] r.deep_view()[i] == lookup_left(
                index@,
                query.deep_view()[i],
            ),
{
    let mut r: Vec<String> = Vec::new();
    let mut i: usize = 0;
    while i < query.len()
        invariant
            i <= query@.len(),
            query.deep_view().len() == query@.len(),
            r.deep_view().len() == i,
            forall|x: int|
                0 <= x < i ==> #[trigger] r.deep_view()[x] == lookup_left(
                    index@,
                    query.deep_view()[x],
                ),
        decreases query@.len() - i,
    {
        assert(query.deep_view()[i as int] == query@[i as int]@);
        let ghost r0 = r.deep_view();
        let m = index.get_by_left(&query[i]);
        r.push(m);
        assert(r.deep_view() =~= r0.push(lookup_left(index@, query.deep_view()[i as int])));
        i = i + 1;
    }
    r
}

/// Maps each qualified identifier to its short form; identifiers the index
/// does not know pass through unchanged.
pub fn name_to_pname(query: &Vec<String>, index: &NameIndex) -> (r: Vec<String>)
    ensures
        r.deep_view().len() == query.deep_view().len(),
        forall|i: int|
            0 <= i < query.deep_view().len() ==> #[trigger] r.deep_view()[i] == lookup_right(
                index@,
                query.deep_view()[i],
            ),
{
    let mut r: Vec<String> = Vec::new();
    let mut i: usize = 0;
    while i < query.len()
        invariant
            i <= query@.len(),
            query.deep_view().len() == query@.len(),
            r.deep_view().len() == i,
            forall|x: int|
                0 <= x < i ==> #[trigger] r.deep_view()[x] == lookup_right(
                    index@,
                    query.deep_view()[x],
                ),
        decreases query@.len() - i,
    {
        assert(query.deep_view()[i as int] == query@[i as int]@);
        let ghost r0 = r.deep_view();
        let m = index.get_by_right(&query[i]);
        r.push(m);
        assert(r.deep_view() =~= r0.push(lookup_right(index@, query.deep_view()[i as int])));
        i = i + 1;
    }
    r
}

} // verus!
