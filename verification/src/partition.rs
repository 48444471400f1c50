//! Cutting the decimal digits of a number into four non-empty groups, in
//! every way there is.

use crate::digits::{all_decimal, decimal_digits, digits, group_value, number};
use crate::digits::{lemma_digits_are_decimal, lemma_digits_lower_bound};
use crate::digits::{lemma_number_below_power, lemma_number_of_digits};
use itertools::Itertools;
use vstd::arithmetic::power::*;
use vstd::prelude::*;

verus! {

/// Three cut positions in a sequence of some length.
pub type Cut = (usize, usize, usize);

/// Whether cutting before the items `i`, `j` and `k` leaves four non-empty
/// runs of a sequence of `n` items.
pub open spec fn is_cut(n: int, i: int, j: int, k: int) -> bool {
    1 <= i < j < k < n
}

/// Whether `s` comes before `t` when the two are compared position by
/// position.
pub open spec fn cut_before(s: Cut, t: Cut) -> bool {
    s.0 < t.0 || (s.0 == t.0 && (s.1 < t.1 || (s.1 == t.1 && s.2 < t.2)))
}

/// In how many ways a sequence of `n` items can be cut into four non-empty
/// runs: the number of ways to choose three of its `n - 1` gaps.
pub open spec fn cut_count(n: nat) -> nat {
    if n < 4 {
        0
    } else {
        ((n - 1) * (n - 2) * (n - 3) / 6) as nat
    }
}

/// Whether `cuts` holds every cut of a sequence of `n` items, each once, the
/// earlier before the later.
pub open spec fn is_cut_list(cuts: Seq<Cut>, n: int) -> bool {
    &&& forall|t: int|
        0 <= t < cuts.len() ==> is_cut(n, (#[trigger] cuts[t]).0 as int, cuts[t].1 as int, cuts[t].2 as int)
    &&& forall|s: int, t: int|
        0 <= s < t < cuts.len() ==> cut_before(#[trigger] cuts[s], #[trigger] cuts[t])
    &&& forall|i: int, j: int, k: int| #[trigger]
        is_cut(n, i, j, k) ==> exists|t: int|
            0 <= t < cuts.len() && #[trigger] cuts[t] == (i as usize, j as usize, k as usize)
}

/// Calls `Itertools::combinations` of the itertools crate on the range from 1
/// up to, not including, `n`, with a combination length of 3, and hands each
/// combination out as a tuple.
///
/// Believed of it, not proved: a combination holds three numbers of the range
/// in rising order; the combinations come in lexicographic order, so that none
/// comes twice; every choice of three numbers of the range is among them; and
/// there are as many as there are such choices.
#[verifier::external_body]
pub(crate) fn cut_triples(n: usize) -> (cuts: Vec<Cut>)
    requires
        cut_count(n as nat) <= usize::MAX,
    ensures
        is_cut_list(cuts@, n as int),
        cuts@.len() == cut_count(n as nat),
{
    (1..n).combinations(3).map(|c| (c[0], c[1], c[2])).collect()
}

/// The four numbers that the digits of `x` write when cut before the digits
/// `i`, `j` and `k`. A group that starts with zeros is read as its value.
pub open spec fn operands_at(x: nat, i: int, j: int, k: int) -> (nat, nat, nat, nat) {
    let ds = digits(x);
    (
        number(ds.subrange(0, i)),
        number(ds.subrange(i, j)),
        number(ds.subrange(j, k)),
        number(ds.subrange(k, ds.len() as int)),
    )
}

/// Whether `part` holds the four numbers of `x` cut at `cut`.
pub open spec fn is_part_at(part: [u32; 4], x: nat, cut: Cut) -> bool {
    let (a, b, c, d) = operands_at(x, cut.0 as int, cut.1 as int, cut.2 as int);
    part@[0] == a && part@[1] == b && part@[2] == c && part@[3] == d
}

/// Whether `parts` holds the operands of `x` for each cut of `cuts`, in the
/// same order.
pub open spec fn parts_follow(parts: Seq<[u32; 4]>, x: nat, cuts: Seq<Cut>) -> bool {
    &&& parts.len() == cuts.len()
    &&& forall|t: int| 0 <= t < parts.len() ==> is_part_at(#[trigger] parts[t], x, cuts[t])
}

/// A number below 2^32 has at most ten digits, and one of at least 1000 has
/// at least four.
pub proof fn lemma_digit_count(x: nat)
    ensures
        x <= u32::MAX ==> digits(x).len() <= 10,
        x >= 1000 ==> digits(x).len() >= 4,
{
    lemma_digits_are_decimal(x);
    let n = digits(x).len();
    if x <= u32::MAX && n > 10 {
        lemma_digits_lower_bound(x);
        lemma_pow_increases(10, 10, (n - 1) as nat);
        assert(pow(10, 10) == 10_000_000_000) by {
            reveal_with_fuel(pow, 11);
        }
    }
    if x >= 1000 && n < 4 {
        lemma_number_of_digits(x);
        lemma_number_below_power(digits(x));
        lemma_pow_increases(10, n, 3);
        assert(pow(10, 3) == 1000) by {
            reveal_with_fuel(pow, 4);
        }
    }
}

/// Ten items or fewer can be cut in at most 84 ways.
pub proof fn lemma_few_cuts(n: nat)
    requires
        n <= 10,
    ensures
        cut_count(n) <= 84,
{
    if n >= 4 {
        assert((n - 1) * (n - 2) * (n - 3) <= 504) by (nonlinear_arith)
            requires
                4 <= n <= 10,
        ;
    }
}

/// The digit groups of a cut, put back end to end, are the digits again.
pub proof fn lemma_groups_make_up_the_digits(x: nat, i: int, j: int, k: int)
    requires
        is_cut(digits(x).len() as int, i, j, k),
    ensures
        ({
            let ds = digits(x);
            ds.subrange(0, i) + ds.subrange(i, j) + ds.subrange(j, k) + ds.subrange(
                k,
                ds.len() as int,
            ) == ds
        }),
{
    let ds = digits(x);
    assert(ds.subrange(0, i) + ds.subrange(i, j) + ds.subrange(j, k) + ds.subrange(
        k,
        ds.len() as int,
    ) =~= ds);
}

/// Every split of the decimal digits of `x` into four non-empty groups, each
/// group read as a number: one item for each choice of three cut positions,
/// the choices in lexicographic order.
pub fn split_into_four_parts(x: u32) -> (parts: Vec<[u32; 4]>)
    requires
        x >= 1000,
    ensures
        parts@.len() == cut_count(digits(x as nat).len()),
        exists|cuts: Seq<Cut>|
            is_cut_list(cuts, digits(x as nat).len() as int) && #[trigger] parts_follow(
                parts@,
                x as nat,
                cuts,
            ),
{
    let ds: Vec<u8> = decimal_digits(x);
    let n: usize = ds.len();
    proof {
        lemma_digit_count(x as nat);
        lemma_digits_are_decimal(x as nat);
        lemma_few_cuts(n as nat);
    }
    let cuts: Vec<Cut> = cut_triples(n);
    let mut parts: Vec<[u32; 4]> = Vec::new();
    let mut at: usize = 0;
    while at < cuts.len()
        invariant
            at <= cuts.len(),
            ds@ == digits(x as nat),
            n == ds@.len(),
            n <= 10,
            all_decimal(ds@),
            is_cut_list(cuts@, n as int),
            parts@.len() == at,
            forall|t: int| 0 <= t < at ==> is_part_at(#[trigger] parts@[t], x as nat, cuts@[t]),
        decreases cuts.len() - at,
    {
        let (i, j, k) = cuts[at];
        let part: [u32; 4] = [
            group_value(&ds, 0, i),
            group_value(&ds, i, j),
            group_value(&ds, j, k),
            group_value(&ds, k, n),
        ];
        parts.push(part);
        at = at + 1;
    }
    assert(parts_follow(parts@, x as nat, cuts@));
    parts
}

} // verus!
