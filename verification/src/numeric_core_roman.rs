//! Roman numerals: the value of a numeral, and the splits of a text into
//! four pieces.

use crate::partition::{cut_count, cut_triples, is_cut_list, Cut};
use vstd::prelude::*;
use vstd::string::*;

verus! {

/// What a Roman numeral is worth; any other character is worth nothing.
pub open spec fn numeral_worth(c: char) -> nat {
    if c == 'I' {
        1
    } else if c == 'V' {
        5
    } else if c == 'X' {
        10
    } else if c == 'L' {
        50
    } else if c == 'C' {
        100
    } else if c == 'D' {
        500
    } else if c == 'M' {
        1000
    } else {
        0
    }
}

/// What the character at `i` brings to the value of `s`: its worth, taken
/// off where the character after it is worth more, and added otherwise. The
/// last character is always added.
pub open spec fn signed_worth(s: Seq<char>, i: int) -> int {
    if i + 1 < s.len() && numeral_worth(s[i]) < numeral_worth(s[i + 1]) {
        -(numeral_worth(s[i]) as int)
    } else {
        numeral_worth(s[i]) as int
    }
}

/// What the first `k` characters of `s` bring to its value.
pub open spec fn partial_value(s: Seq<char>, k: nat) -> int
    decreases k,
{
    if k == 0 {
        0
    } else {
        partial_value(s, (k - 1) as nat) + signed_worth(s, k - 1)
    }
}

/// The value of the Roman numeral `s`: the sum of what each of its
/// characters brings.
pub open spec fn roman_value(s: Seq<char>) -> int {
    partial_value(s, s.len())
}

/// The value of the first `k` characters of `s`, read as a numeral of their
/// own: what all but the last of them bring to `s`, and the worth of the
/// last.
pub open spec fn value_so_far(s: Seq<char>, k: nat) -> int {
    if k == 0 {
        0
    } else {
        partial_value(s, (k - 1) as nat) + numeral_worth(s[k - 1])
    }
}

/// Reading on never lowers the value: a numeral that is worth more than the
/// one before it is worth at least twice as much.
pub proof fn lemma_value_grows(s: Seq<char>, k: nat, m: nat)
    requires
        k <= m <= s.len(),
    ensures
        0 <= value_so_far(s, k) <= value_so_far(s, m),
        value_so_far(s, s.len()) == roman_value(s),
    decreases m,
{
    if m > 0 {
        if k < m {
            lemma_value_grows(s, k, (m - 1) as nat);
        } else {
            lemma_value_grows(s, (k - 1) as nat, (m - 1) as nat);
        }
    }
}

/// The value of a Roman numeral is never negative.
pub proof fn lemma_roman_value_is_not_negative(s: Seq<char>)
    ensures
        roman_value(s) >= 0,
{
    lemma_value_grows(s, 0, s.len());
}

/// The value of the Roman numeral `s`: each numeral is added, or taken off
/// where the next one is worth more. A character that is no numeral is worth
/// nothing. The value has to fit in 64 bits.
pub fn roman_to_int(s: &str) -> (result: u64)
    requires
        roman_value(s@) <= u64::MAX,
    ensures
        result == roman_value(s@),
{
    let mut result: u64 = 0;
    let mut prev: u64 = 0;
    for c in it: s.chars()
        invariant
            it.seq() == s@,
            roman_value(s@) <= u64::MAX,
            result == value_so_far(s@, it.index() as nat),
            it.index() == 0 ==> prev == 0,
            it.index() > 0 ==> prev == numeral_worth(s@[it.index() - 1]),
    {
        let value: u64 = match c {
            'I' => 1,
            'V' => 5,
            'X' => 10,
            'L' => 50,
            'C' => 100,
            'D' => 500,
            'M' => 1000,
            _ => 0,
        };
        proof {
            lemma_value_grows(s@, (it.index() + 1) as nat, s@.len());
        }
        if value > prev {
            // The numeral before this one was added and is to be taken off.
            result += value - 2 * prev;
        } else {
            result += value;
        }
        prev = value;
    }
    proof {
        lemma_value_grows(s@, s@.len(), s@.len());
    }
    result
}

/// Whether `part` holds the four pieces of `s` cut at `cut`.
pub open spec fn is_text_part_at(part: [&str; 4], s: Seq<char>, cut: Cut) -> bool {
    &&& part@[0]@ == s.subrange(0, cut.0 as int)
    &&& part@[1]@ == s.subrange(cut.0 as int, cut.1 as int)
    &&& part@[2]@ == s.subrange(cut.1 as int, cut.2 as int)
    &&& part@[3]@ == s.subrange(cut.2 as int, s.len() as int)
}

/// Whether `parts` holds the pieces of `s` for each cut of `cuts`, in the
/// same order.
pub open spec fn text_parts_follow(parts: Seq<[&str; 4]>, s: Seq<char>, cuts: Seq<Cut>) -> bool {
    &&& parts.len() == cuts.len()
    &&& forall|t: int| 0 <= t < parts.len() ==> is_text_part_at(#[trigger] parts[t], s, cuts[t])
}

/// Every split of the ASCII text `s`, of four characters or more, into four
/// non-empty pieces: one item for each choice of three cut positions, the
/// choices in lexicographic order. The number of choices has to fit in a
/// `usize`.
pub fn split_into_four_parts_str(s: &str) -> (parts: Vec<[&str; 4]>)
    requires
        s.is_ascii(),
        s@.len() >= 4,
        cut_count(s@.len()) <= usize::MAX,
    ensures
        parts@.len() == cut_count(s@.len()),
        exists|cuts: Seq<Cut>|
            is_cut_list(cuts, s@.len() as int) && #[trigger] text_parts_follow(parts@, s@, cuts),
{
    let n: usize = s.unicode_len();
    let cuts: Vec<Cut> = cut_triples(n);
    let mut parts: Vec<[&str; 4]> = Vec::new();
    let mut at: usize = 0;
    while at < cuts.len()
        invariant
            at <= cuts.len(),
            s.is_ascii(),
            n == s@.len(),
            is_cut_list(cuts@, n as int),
            parts@.len() == at,
            forall|t: int| 0 <= t < at ==> is_text_part_at(#[trigger] parts@[t], s@, cuts@[t]),
        decreases cuts.len() - at,
    {
        let (i, j, k) = cuts[at];
        let part: [&str; 4] = [
            s.substring_ascii(0, i),
            s.substring_ascii(i, j),
            s.substring_ascii(j, k),
            s.substring_ascii(k, n),
        ];
        parts.push(part);
        at = at + 1;
    }
    assert(text_parts_follow(parts@, s@, cuts@));
    parts
}

} // verus!
