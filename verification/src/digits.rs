//! Decimal digits: a number as its digit sequence, a digit sequence as a
//! number, and the bounds that tie the two to powers of ten.

use vstd::arithmetic::power::*;
use vstd::prelude::*;

verus! {

/// The decimal digits of `x`, the most significant first. Zero has the one
/// digit 0; no other number starts with it.
pub open spec fn digits(x: nat) -> Seq<u8>
    decreases x,
{
    if x < 10 {
        seq![x as u8]
    } else {
        digits(x / 10).push((x % 10) as u8)
    }
}

/// The number that a digit sequence writes; leading zeros add nothing, and
/// the empty sequence writes zero.
pub open spec fn number(s: Seq<u8>) -> nat
    decreases s.len(),
{
    if s.len() == 0 {
        0
    } else {
        number(s.drop_last()) * 10 + s.last() as nat
    }
}

/// Whether every item of `s` is a decimal digit.
pub open spec fn all_decimal(s: Seq<u8>) -> bool {
    forall|i: int| 0 <= i < s.len() ==> #[trigger] s[i] < 10
}

/// The digits of `x` as the characters `0` to `9`.
pub open spec fn decimal_text(x: nat) -> Seq<char> {
    digits(x).map_values(|d: u8| ((d as int) + ('0' as int)) as char)
}

/// A number has at least one digit, and each is below ten.
pub proof fn lemma_digits_are_decimal(x: nat)
    ensures
        digits(x).len() >= 1,
        all_decimal(digits(x)),
    decreases x,
{
    if x >= 10 {
        lemma_digits_are_decimal(x / 10);
    }
}

/// Reading the digits of a number gives the number back.
pub proof fn lemma_number_of_digits(x: nat)
    ensures
        number(digits(x)) == x,
    decreases x,
{
    if x < 10 {
        assert(seq![x as u8].drop_last() =~= Seq::<u8>::empty());
        assert(number(seq![x as u8].drop_last()) == 0);
    } else {
        lemma_number_of_digits(x / 10);
        assert(digits(x).drop_last() =~= digits(x / 10));
    }
}

/// A sequence of `n` decimal digits writes a number below the `n`-th power
/// of ten.
pub proof fn lemma_number_below_power(s: Seq<u8>)
    requires
        all_decimal(s),
    ensures
        number(s) < pow(10, s.len()),
    decreases s.len(),
{
    reveal(pow);
    if s.len() > 0 {
        lemma_number_below_power(s.drop_last());
    }
}

/// A positive number of `n` digits is at least the `n - 1`-th power of ten.
pub proof fn lemma_digits_lower_bound(x: nat)
    requires
        x > 0,
    ensures
        pow(10, (digits(x).len() - 1) as nat) <= x,
    decreases x,
{
    reveal(pow);
    if x >= 10 {
        lemma_digits_lower_bound(x / 10);
    }
}

/// The decimal digits of `x`, the most significant first.
pub fn decimal_digits(x: u32) -> (v: Vec<u8>)
    ensures
        v@ == digits(x as nat),
    decreases x,
{
    if x < 10 {
        vec![x as u8]
    } else {
        let mut v: Vec<u8> = decimal_digits(x / 10);
        v.push((x % 10) as u8);
        v
    }
}

/// The number written by the digits of `ds` from `lo` up to `hi`, of which
/// there are at most nine.
pub fn group_value(ds: &Vec<u8>, lo: usize, hi: usize) -> (r: u32)
    requires
        lo <= hi <= ds.len(),
        hi - lo <= 9,
        all_decimal(ds@),
    ensures
        r == number(ds@.subrange(lo as int, hi as int)),
{
    let mut acc: u32 = 0;
    let mut at: usize = lo;
    while at < hi
        invariant
            lo <= at <= hi <= ds.len(),
            hi - lo <= 9,
            all_decimal(ds@),
            acc == number(ds@.subrange(lo as int, at as int)),
        decreases hi - at,
    {
        proof {
            let seen = ds@.subrange(lo as int, at as int);
            let next = ds@.subrange(lo as int, at + 1);
            assert(next.drop_last() =~= seen);
            lemma_number_below_power(seen);
            lemma_pow_increases(10, seen.len(), 8);
            lemma_pow_eight();
        }
        acc = acc * 10 + ds[at] as u32;
        at = at + 1;
    }
    acc
}

/// The eighth power of ten, written out.
proof fn lemma_pow_eight()
    ensures
        pow(10, 8) == 100_000_000,
{
    reveal_with_fuel(pow, 9);
}

} // verus!
