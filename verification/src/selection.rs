//! Picking the smallest of the results that a search has gathered, and the
//! two ways in which a solver can end without an answer.

use vstd::prelude::*;

verus! {

/// Why a solver gave no answer.
#[derive(Debug, Clone, Copy, PartialEq, Eq, Hash, Structural)]
pub enum SolveError {
    /// The input is not one that the solver is defined on.
    Malformed,
    /// The input is well formed, and the search ended without an answer.
    Exhausted,
}

/// Whether `m` satisfies `p` and nothing smaller does.
pub open spec fn is_least(p: spec_fn(nat) -> bool, m: nat) -> bool {
    p(m) && forall|q: nat| #[trigger] p(q) ==> m <= q
}

/// The least number that satisfies `p`, if any does.
pub open spec fn least(p: spec_fn(nat) -> bool) -> Option<nat> {
    if exists|m: nat| is_least(p, m) {
        Some(choose|m: nat| is_least(p, m))
    } else {
        None
    }
}

/// Whether `v` is one of the items of `results`.
pub open spec fn among(results: Seq<u64>, v: nat) -> bool {
    exists|i: int| 0 <= i < results.len() && #[trigger] results[i] == v
}

/// A number that is least is the least.
pub proof fn lemma_least_is(p: spec_fn(nat) -> bool, m: nat)
    requires
        is_least(p, m),
    ensures
        least(p) == Some(m),
{
    let chosen = choose|m: nat| is_least(p, m);
    assert(p(chosen) && p(m));
}

/// Where some number satisfies `p`, a least one does.
pub proof fn lemma_least_exists(p: spec_fn(nat) -> bool, m: nat)
    requires
        p(m),
    ensures
        least(p) is Some,
        least(p).unwrap() <= m,
        is_least(p, least(p).unwrap()),
    decreases m,
{
    if forall|q: nat| #[trigger] p(q) ==> m <= q {
        lemma_least_is(p, m);
    } else {
        let q = choose|q: nat| #[trigger] p(q) && q < m;
        lemma_least_exists(p, q);
    }
}

/// There is no least number exactly when no number satisfies `p`.
pub proof fn lemma_least_none(p: spec_fn(nat) -> bool)
    ensures
        least(p) is None <==> forall|m: nat| !#[trigger] p(m),
{
    if exists|m: nat| #[trigger] p(m) {
        let m = choose|m: nat| #[trigger] p(m);
        lemma_least_exists(p, m);
    }
}

/// The smallest item of `results`, or `None` where there is no item.
pub fn smallest(results: &Vec<u64>) -> (r: Option<u64>)
    ensures
        match r {
            Some(m) => among(results@, m as nat) && forall|v: nat|
                #[trigger] among(results@, v) ==> m <= v,
            None => results@.len() == 0,
        },
{
    if results.len() == 0 {
        return None;
    }
    let mut best: u64 = results[0];
    let mut at: usize = 1;
    while at < results.len()
        invariant
            1 <= at <= results.len(),
            exists|i: int| 0 <= i < at && #[trigger] results@[i] == best,
            forall|i: int| 0 <= i < at ==> best <= #[trigger] results@[i],
        decreases results.len() - at,
    {
        if results[at] < best {
            best = results[at];
        }
        at = at + 1;
    }
    assert(among(results@, best as nat));
    assert forall|v: nat| #[trigger] among(results@, v) implies best <= v by {
        let i = choose|i: int| 0 <= i < results@.len() && #[trigger] results@[i] == v;
    }
    Some(best)
}

} // verus!
