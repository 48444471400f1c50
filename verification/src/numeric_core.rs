//! The digit variant of the numeric core: a number of four digits or more is
//! replaced by the smallest positive result of its digit groups, until what is
//! left has fewer than four digits.

use crate::digits::digits;
use crate::digits::{lemma_digits_are_decimal, lemma_digits_lower_bound, lemma_number_below_power};
use crate::operators::{evaluate, evaluate_spec, widen, NUMERIC_CORE_OP_COMBOS};
use crate::operators::{lemma_combos_are_the_arrangements, lemma_result_bound};
use crate::operators::{lemma_small_operands_fit, OpTriple};
use crate::partition::{is_cut, is_cut_list, is_part_at, operands_at, parts_follow};
use crate::partition::{lemma_digit_count, split_into_four_parts, Cut};
use crate::selection::{among, is_least, least, smallest, SolveError};
use crate::selection::{lemma_least_is, lemma_least_none};
use vstd::arithmetic::power::*;
use vstd::prelude::*;

verus! {

/// What the `t`-th operator triple makes of the digits of `x` cut before the
/// digits `i`, `j` and `k`.
pub open spec fn yields(x: nat, i: int, j: int, k: int, t: int) -> Option<nat> {
    let (a, b, c, d) = operands_at(x, i, j, k);
    evaluate_spec(NUMERIC_CORE_OP_COMBOS[t], a, b, c, d)
}

/// Whether `r` is a positive result of some cut of the digits of `x` under
/// some operator triple.
pub open spec fn is_candidate(x: nat, r: nat) -> bool {
    r > 0 && exists|i: int, j: int, k: int, t: int|
        is_cut(digits(x).len() as int, i, j, k) && 0 <= t < 6 && #[trigger] yields(x, i, j, k, t)
            == Some(r)
}

/// The candidates of `x`, as a predicate.
pub open spec fn candidates(x: nat) -> spec_fn(nat) -> bool {
    |r: nat| is_candidate(x, r)
}

/// One step of the reduction: the smallest candidate of `x`, if it has any.
pub open spec fn reduction(x: nat) -> Option<nat> {
    least(candidates(x))
}

/// The numeric core of `x`. Zero has none. A number below 1000 is its own.
/// Any other number has the numeric core of its reduction, and none where no
/// reduction exists.
pub open spec fn numeric_core_spec(x: nat) -> Option<nat>
    decreases x,
    via numeric_core_spec_decreases
{
    if x == 0 {
        None
    } else if x < 1000 {
        Some(x)
    } else {
        match reduction(x) {
            Some(r) => numeric_core_spec(r),
            None => None,
        }
    }
}

#[via_fn]
proof fn numeric_core_spec_decreases(x: nat) {
    lemma_reduction_decreases(x);
}

/// Two numbers below the `p`-th and `q`-th power of ten have a product below
/// the `m`-th, for any `m` from `p + q` on.
proof fn lemma_product_below(a: nat, b: nat, p: nat, q: nat, m: nat)
    requires
        a < pow(10, p),
        b < pow(10, q),
        p + q <= m,
    ensures
        a * b < pow(10, m),
{
    let hi_a = pow(10, p);
    let hi_b = pow(10, q);
    assert(a * b < hi_a * hi_b) by (nonlinear_arith)
        requires
            0 <= a < hi_a,
            0 <= b < hi_b,
    ;
    lemma_pow_adds(10, p, q);
    lemma_pow_increases(10, p + q, m);
}

/// A candidate of `x` is smaller than `x`: it is below the power of ten that
/// has two digits fewer than `x`.
pub proof fn lemma_candidate_is_smaller(x: nat, r: nat)
    requires
        is_candidate(x, r),
    ensures
        0 < r < x,
{
    let ds = digits(x);
    let n = ds.len();
    let (i, j, k, t) = choose|i: int, j: int, k: int, t: int|
        is_cut(digits(x).len() as int, i, j, k) && 0 <= t < 6 && #[trigger] yields(x, i, j, k, t)
            == Some(r);
    let (a, b, c, d) = operands_at(x, i, j, k);
    lemma_digits_are_decimal(x);
    lemma_number_below_power(ds.subrange(0, i));
    lemma_number_below_power(ds.subrange(i, j));
    lemma_number_below_power(ds.subrange(j, k));
    lemma_number_below_power(ds.subrange(k, n as int));
    lemma_combos_are_the_arrangements();
    lemma_result_bound(NUMERIC_CORE_OP_COMBOS[t], a, b, c, d);
    let below = (n - 2) as nat;
    lemma_pow_increases(10, i as nat, below);
    lemma_product_below(a, b, i as nat, (j - i) as nat, below);
    lemma_product_below(a, c, i as nat, (k - j) as nat, below);
    lemma_product_below(a, d, i as nat, (n - k) as nat, below);
    assert(r < pow(10, below));
    lemma_pow_increases(10, below, (n - 1) as nat);
    lemma_digits_lower_bound(x);
}

/// Each step of the reduction gives a positive number smaller than the one it
/// started from, so the reduction of a number comes to an end.
pub proof fn lemma_reduction_decreases(x: nat)
    ensures
        reduction(x) matches Some(r) ==> 0 < r < x,
{
    if reduction(x) is Some {
        let r = reduction(x).unwrap();
        assert(is_least(candidates(x), r));
        assert(candidates(x)(r));
        lemma_candidate_is_smaller(x, r);
    }
}

/// A numeric core lies between 1 and 999.
pub proof fn lemma_numeric_core_is_short(x: nat)
    ensures
        numeric_core_spec(x) matches Some(v) ==> 1 <= v < 1000,
    decreases x,
{
    if x >= 1000 {
        lemma_reduction_decreases(x);
        if reduction(x) is Some {
            lemma_numeric_core_is_short(reduction(x).unwrap());
        }
    }
}

/// Whether `results` holds what the `t`-th operator triple makes of `x` cut at
/// `cut`, where that is a positive number.
pub open spec fn is_covered(results: Seq<u64>, x: nat, cut: Cut, t: int) -> bool {
    yields(x, cut.0 as int, cut.1 as int, cut.2 as int, t) matches Some(r) ==> r > 0 ==> among(
        results,
        r,
    )
}

/// The positive results of the first `count` pairs of a cut and an operator
/// triple: the cuts taken in the order of `cuts`, and under each cut the six
/// triples in the order of the table.
pub open spec fn results_through(x: nat, cuts: Seq<Cut>, count: nat) -> Seq<nat>
    decreases count,
{
    if count == 0 {
        Seq::empty()
    } else {
        let before = results_through(x, cuts, (count - 1) as nat);
        let cut = cuts[(count - 1) / 6];
        match yields(x, cut.0 as int, cut.1 as int, cut.2 as int, (count - 1) % 6) {
            Some(r) => if r > 0 {
                before.push(r)
            } else {
                before
            },
            None => before,
        }
    }
}

/// Machine numbers read as naturals.
pub open spec fn as_naturals(results: Seq<u64>) -> Seq<nat> {
    results.map_values(|v: u64| v as nat)
}

/// The positive results of all cuts of the digits of `x` under all six
/// operator triples: cut by cut in lexicographic order, and triple by triple
/// in the order of the table. A result comes as often as it is reached.
pub fn positive_results(x: u32) -> (results: Vec<u64>)
    requires
        x >= 1000,
    ensures
        exists|cuts: Seq<Cut>|
            is_cut_list(cuts, digits(x as nat).len() as int) && as_naturals(results@)
                == #[trigger] results_through(x as nat, cuts, 6 * cuts.len()),
        forall|r: nat| among(results@, r) <==> is_candidate(x as nat, r),
{
    let parts: Vec<[u32; 4]> = split_into_four_parts(x);
    let ghost n = digits(x as nat).len() as int;
    let ghost cuts = choose|cuts: Seq<Cut>|
        is_cut_list(cuts, n) && #[trigger] parts_follow(parts@, x as nat, cuts);
    let mut results: Vec<u64> = Vec::new();
    let mut p: usize = 0;
    while p < parts.len()
        invariant
            p <= parts.len(),
            n == digits(x as nat).len(),
            is_cut_list(cuts, n),
            parts_follow(parts@, x as nat, cuts),
            as_naturals(results@) == results_through(x as nat, cuts, (6 * p) as nat),
            forall|r: nat| among(results@, r) ==> is_candidate(x as nat, r),
            forall|s: int, t: int|
                0 <= s < p && 0 <= t < 6 ==> #[trigger] is_covered(results@, x as nat, cuts[s], t),
        decreases parts.len() - p,
    {
        let part: [u32; 4] = parts[p];
        let ghost cut = cuts[p as int];
        assert(is_part_at(parts@[p as int], x as nat, cut));
        let mut t: usize = 0;
        while t < 6
            invariant
                t <= 6,
                p < parts.len(),
                n == digits(x as nat).len(),
                is_cut_list(cuts, n),
                cut == cuts[p as int],
                p < cuts.len(),
                is_part_at(part, x as nat, cut),
                as_naturals(results@) == results_through(x as nat, cuts, (6 * p + t) as nat),
                forall|r: nat| among(results@, r) ==> is_candidate(x as nat, r),
                forall|s: int, u: int|
                    0 <= s < p && 0 <= u < 6 ==> #[trigger] is_covered(
                        results@,
                        x as nat,
                        cuts[s],
                        u,
                    ),
                forall|u: int| 0 <= u < t ==> #[trigger] is_covered(results@, x as nat, cut, u),
            decreases 6 - t,
        {
            let ops: OpTriple = NUMERIC_CORE_OP_COMBOS[t];
            proof {
                lemma_combos_are_the_arrangements();
                lemma_small_operands_fit(
                    ops,
                    part@[0] as nat,
                    part@[1] as nat,
                    part@[2] as nat,
                    part@[3] as nat,
                );
            }
            let outcome: Option<u64> = evaluate(
                ops,
                (part[0] as u64, part[1] as u64, part[2] as u64, part[3] as u64),
            );
            let ghost before = results@;
            assert(widen(outcome) == yields(
                x as nat,
                cut.0 as int,
                cut.1 as int,
                cut.2 as int,
                t as int,
            ));
            match outcome {
                Some(result) => {
                    if result > 0 {
                        results.push(result);
                        proof {
                            assert(is_candidate(x as nat, result as nat));
                            lemma_among_push(before, result);
                        }
                    }
                },
                None => {},
            }
            proof {
                let count = (6 * p + t + 1) as nat;
                assert((count - 1) / 6 == p && (count - 1) % 6 == t);
                assert(as_naturals(results@) =~= results_through(x as nat, cuts, count));
                lemma_among_grows(before, results@);
                assert forall|s: int, u: int| 0 <= s < p && 0 <= u < 6 implies #[trigger] is_covered(
                    results@,
                    x as nat,
                    cuts[s],
                    u,
                ) by {
                    assert(is_covered(before, x as nat, cuts[s], u));
                }
                assert forall|u: int| 0 <= u < t + 1 implies #[trigger] is_covered(
                    results@,
                    x as nat,
                    cut,
                    u,
                ) by {
                    if u < t {
                        assert(is_covered(before, x as nat, cut, u));
                    }
                }
            }
            t = t + 1;
        }
        p = p + 1;
    }
    proof {
        assert forall|r: nat| is_candidate(x as nat, r) implies among(results@, r) by {
            let (i, j, k, t) = choose|i: int, j: int, k: int, t: int|
                is_cut(digits(x as nat).len() as int, i, j, k) && 0 <= t < 6 && #[trigger] yields(
                    x as nat,
                    i,
                    j,
                    k,
                    t,
                ) == Some(r);
            assert(is_cut(n, i, j, k));
            lemma_digit_count(x as nat);
            let s = choose|s: int|
                0 <= s < cuts.len() && #[trigger] cuts[s] == (i as usize, j as usize, k as usize);
            assert(cuts[s].0 == i && cuts[s].1 == j && cuts[s].2 == k);
            assert(is_covered(results@, x as nat, cuts[s], t));
        }
    }
    results
}

/// What is among the items stays among them when one more is added, and the
/// new item is among them.
proof fn lemma_among_push(results: Seq<u64>, v: u64)
    ensures
        among(results.push(v), v as nat),
        forall|r: nat| among(results.push(v), r) ==> among(results, r) || r == v,
{
    let longer = results.push(v);
    assert(longer[results.len() as int] == v);
    assert forall|r: nat| among(longer, r) implies among(results, r) || r == v by {
        let i = choose|i: int| 0 <= i < longer.len() && #[trigger] longer[i] == r;
        if i < results.len() {
            assert(results[i] == r);
        }
    }
}

/// What is among the items of a sequence is among those of any sequence that
/// starts with it.
proof fn lemma_among_grows(shorter: Seq<u64>, longer: Seq<u64>)
    requires
        shorter.len() <= longer.len(),
        forall|i: int| 0 <= i < shorter.len() ==> shorter[i] == longer[i],
    ensures
        forall|r: nat| among(shorter, r) ==> among(longer, r),
{
    assert forall|r: nat| among(shorter, r) implies among(longer, r) by {
        let i = choose|i: int| 0 <= i < shorter.len() && #[trigger] shorter[i] == r;
        assert(longer[i] == r);
    }
}

/// The numeric core of `x`: `x` itself below 1000, else that of the smallest
/// positive result of its digit groups. `None` for zero, and where a number
/// on the way has no positive result.
pub fn numeric_core(x: u32) -> (r: Option<u32>)
    ensures
        match numeric_core_spec(x as nat) {
            Some(v) => r == Some(v as u32),
            None => r is None,
        },
        1 <= x < 1000 ==> r == Some(x),
        r matches Some(v) ==> 1 <= v < 1000,
    decreases x,
{
    if x == 0 {
        return None;
    } else if x < 1000 {
        Some(x)
    } else {
        let results: Vec<u64> = positive_results(x);
        proof {
            lemma_numeric_core_is_short(x as nat);
        }
        match smallest(&results) {
            None => {
                proof {
                    assert forall|r: nat| !#[trigger] candidates(x as nat)(r) by {
                        if is_candidate(x as nat, r) {
                            let i = choose|i: int| 0 <= i < results@.len() && #[trigger] results@[i] == r;
                        }
                    }
                    lemma_least_none(candidates(x as nat));
                }
                None
            },
            Some(m) => {
                proof {
                    assert(among(results@, m as nat));
                    assert forall|q: nat| #[trigger] candidates(x as nat)(q) implies m <= q by {
                        assert(among(results@, q));
                    }
                    lemma_least_is(candidates(x as nat), m as nat);
                    lemma_candidate_is_smaller(x as nat, m as nat);
                }
                // The smallest result is what a sort would put first.
                numeric_core(m as u32)
            },
        }
    }
}

/// The numeric core of `n`, or why there is none: zero is no input, and a
/// number of four digits or more may run out of positive results.
pub fn solve_number(n: u32) -> (r: Result<u32, SolveError>)
    ensures
        n == 0 ==> r == Err::<u32, SolveError>(SolveError::Malformed),
        n > 0 ==> match numeric_core_spec(n as nat) {
            Some(v) => r == Ok::<u32, SolveError>(v as u32),
            None => r == Err::<u32, SolveError>(SolveError::Exhausted),
        },
{
    if n == 0 {
        Err(SolveError::Malformed)
    } else {
        match numeric_core(n) {
            Some(v) => Ok(v),
            None => Err(SolveError::Exhausted),
        }
    }
}

} // verus!
