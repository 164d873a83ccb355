//! The diff engine: given the requested packages, the installed set and the
//! action, it computes the effective set — the packages the action actually
//! has to touch — filtering out the no-ops. An empty effective set means the
//! whole request is a no-op and nothing may be written or rebuilt.
use vstd::prelude::*;
use crate::chars::contains_string;

verus! {

/// The two mutating actions a request can ask for.
pub enum Actions {
    Install,
    Remove,
}

/// Whether one requested package belongs to the effective set: new for an
/// install, present for a removal. Matching is by exact identifier; callers
/// bring both sides to the same namespace form first.
pub open spec fn effective_one(p: Seq<char>, installed: Seq<Seq<char>>, action: Actions) -> bool {
    match action {
        Actions::Install => !installed.contains(p),
        Actions::Remove => installed.contains(p),
    }
}

/// The effective set of a request, in request order.
pub open spec fn effective_set(
    requested: Seq<Seq<char>>,
    installed: Seq<Seq<char>>,
    action: Actions,
) -> Seq<Seq<char>>
    decreases requested.len(),
{
    if requested.len() == 0 {
        Seq::empty()
    } else if effective_one(requested[0], installed, action) {
        seq![requested[0]] + effective_set(requested.skip(1), installed, action)
    } else {
        effective_set(requested.skip(1), installed, action)
    }
}

proof fn lemma_effective_snoc(
    requested: Seq<Seq<char>>,
    p: Seq<char>,
    installed: Seq<Seq<char>>,
    action: Actions,
)
    ensures
        effective_set(requested.push(p), installed, action) == if effective_one(
            p,
            installed,
            action,
        ) {
            effective_set(requested, installed, action).push(p)
        } else {
            effective_set(requested, installed, action)
        },
    decreases requested.len(),
{
    if requested.len() == 0 {
        assert(requested.push(p)[0] == p);
        assert(requested.push(p).skip(1) =~= Seq::<Seq<char>>::empty());
        assert(effective_set(Seq::<Seq<char>>::empty(), installed, action)
            =~= Seq::<Seq<char>>::empty());
        if effective_one(p, installed, action) {
            assert(effective_set(requested.push(p), installed, action) =~= effective_set(
                requested,
                installed,
                action,
            ).push(p));
        } else {
            assert(effective_set(requested.push(p), installed, action) =~= effective_set(
                requested,
                installed,
                action,
            ));
        }
    } else {
        assert(requested.push(p)[0] == requested[0]);
        assert(requested.push(p).skip(1) =~= requested.skip(1).push(p));
        lemma_effective_snoc(requested.skip(1), p, installed, action);
        if effective_one(requested[0], installed, action) && effective_one(p, installed, action) {
            assert(seq![requested[0]] + effective_set(requested.skip(1), installed, action).push(p)
                =~= (seq![requested[0]] + effective_set(requested.skip(1), installed, action)).push(
                p,
            ));
        }
    }
}

/// Computes the effective set: the requested packages an install still has
/// to add, or a removal can actually take away. Order of the request is
/// kept; an empty result means there is nothing to do.
pub fn compute_effective(requested: &Vec<String>, installed: &Vec<String>, action: &Actions) -> (r:
    Vec<String>)
    ensures
        r.deep_view() == effective_set(requested.deep_view(), installed.deep_view(), *action),
{
    let mut r: Vec<String> = Vec::new();
    let mut i: usize = 0;
    while i < requested.len()
        invariant
            i <= requested@.len(),
            requested.deep_view().len() == requested@.len(),
            r.deep_view() == effective_set(
                requested.deep_view().take(i as int),
                installed.deep_view(),
                *action,
            ),
        decreases requested@.len() - i,
    {
        let ghost req = requested.deep_view();
        assert(req[i as int] == requested@[i as int]@);
        let present = contains_string(installed, &requested[i]);
        let take: bool = match action {
            Actions::Install => !present,
            Actions::Remove => present,
        };
        proof {
            lemma_effective_snoc(req.take(i as int), req[i as int], installed.deep_view(), *action);
            assert(req.take(i + 1) =~= req.take(i as int).push(req[i as int]));
        }
        if take {
            let ghost r0 = r.deep_view();
            let p = requested[i].clone();
            r.push(p);
            assert(r.deep_view() =~= r0.push(req[i as int]));
        }
        i = i + 1;
    }
    assert(requested.deep_view().take(requested.deep_view().len() as int)
        =~= requested.deep_view());
    r
}

/// Every effective package is one of the requested packages.
pub proof fn lemma_effective_sub(
    requested: Seq<Seq<char>>,
    installed: Seq<Seq<char>>,
    action: Actions,
)
    ensures
        forall|k: int|
            0 <= k < effective_set(requested, installed, action).len() ==> requested.contains(
                #[trigger] effective_set(requested, installed, action)[k],
            ),
    decreases requested.len(),
{
    if requested.len() > 0 {
        lemma_effective_sub(requested.skip(1), installed, action);
        let eff = effective_set(requested, installed, action);
        let rest = effective_set(requested.skip(1), installed, action);
        assert forall|k: int| 0 <= k < eff.len() implies requested.contains(#[trigger] eff[k]) by {
            if effective_one(requested[0], installed, action) && k == 0 {
                assert(eff[0] == requested[0]);
            } else {
                let kr = if effective_one(requested[0], installed, action) {
                    k - 1
                } else {
                    k
                };
                assert(eff[k] == rest[kr]);
                assert(requested.skip(1).contains(rest[kr]));
                let j = choose|j: int|
                    0 <= j < requested.skip(1).len() && requested.skip(1)[j] == rest[kr];
                assert(requested[j + 1] == rest[kr]);
            }
        }
    }
}

proof fn lemma_effective_mem(
    requested: Seq<Seq<char>>,
    installed: Seq<Seq<char>>,
    action: Actions,
    p: Seq<char>,
)
    requires
        requested.contains(p),
        effective_one(p, installed, action),
    ensures
        effective_set(requested, installed, action).contains(p),
    decreases requested.len(),
{
    let j = choose|j: int| 0 <= j < requested.len() && requested[j] == p;
    let eff = effective_set(requested, installed, action);
    if j == 0 {
        assert(eff[0] == p);
    } else {
        assert(requested.skip(1)[j - 1] == p);
        assert(requested.skip(1).contains(p));
        lemma_effective_mem(requested.skip(1), installed, action, p);
        let rest = effective_set(requested.skip(1), installed, action);
        let k = choose|k: int| 0 <= k < rest.len() && rest[k] == p;
        if effective_one(requested[0], installed, action) {
            assert(eff[k + 1] == p);
        } else {
            assert(eff[k] == p);
        }
    }
}

proof fn lemma_effective_none(
    requested: Seq<Seq<char>>,
    installed: Seq<Seq<char>>,
    action: Actions,
)
    requires
        forall|k: int|
            0 <= k < requested.len() ==> !effective_one(#[trigger] requested[k], installed, action),
    ensures
        effective_set(requested, installed, action) == Seq::<Seq<char>>::empty(),
    decreases requested.len(),
{
    if requested.len() > 0 {
        assert forall|k: int| 0 <= k < requested.skip(1).len() implies !effective_one(
            #[trigger] requested.skip(1)[k],
            installed,
            action,
        ) by {
            assert(requested.skip(1)[k] == requested[k + 1]);
        }
        lemma_effective_none(requested.skip(1), installed, action);
    }
}

/// The diff engine is idempotent: once the effective set of an install is
/// treated as already installed, recomputing the same request yields an
/// empty effective set.
pub proof fn lemma_effective_idempotent(requested: Seq<Seq<char>>, installed: Seq<Seq<char>>)
    ensures
        effective_set(
            requested,
            installed + effective_set(requested, installed, Actions::Install),
            Actions::Install,
        ) == Seq::<Seq<char>>::empty(),
{
    let eff = effective_set(requested, installed, Actions::Install);
    let installed2 = installed + eff;
    assert forall|k: int| 0 <= k < requested.len() implies !effective_one(
        #[trigger] requested[k],
        installed2,
        Actions::Install,
    ) by {
        let p = requested[k];
        if installed.contains(p) {
            let j = choose|j: int| 0 <= j < installed.len() && installed[j] == p;
            assert(installed2[j] == p);
        } else {
            assert(requested.contains(p));
            lemma_effective_mem(requested, installed, Actions::Install, p);
            let j = choose|j: int| 0 <= j < eff.len() && eff[j] == p;
            assert(installed2[installed.len() + j] == p);
        }
    }
    lemma_effective_none(requested, installed2, Actions::Install);
}

} // verus!
