//! The letter variant of the numeric core: four letters are read as their
//! places in the alphabet, and the smallest result of the six operator
//! triples is read back as a letter.

use crate::core_cipher::ciphers::{char_to_numeric, numeric_to_char};
use crate::core_cipher::ciphers::{is_letter, letter_at, ordinal};
use crate::operators::{evaluate, evaluate_spec, widen, OpTriple, NUMERIC_CORE_OP_COMBOS};
use crate::operators::{lemma_combos_are_the_arrangements, lemma_small_operands_fit};
use crate::selection::{among, least, smallest, SolveError};
use crate::selection::{lemma_least_is, lemma_least_none};
use vstd::prelude::*;
use vstd::string::*;

verus! {

/// Whether `word` is made of exactly four letters.
pub open spec fn is_word(word: Seq<char>) -> bool {
    word.len() == 4 && forall|i: int| 0 <= i < 4 ==> is_letter(#[trigger] word[i])
}

/// What the `t`-th operator triple makes of the four letters of `word`.
pub open spec fn word_yields(word: Seq<char>, t: int) -> Option<nat> {
    evaluate_spec(
        NUMERIC_CORE_OP_COMBOS[t],
        ordinal(word[0]),
        ordinal(word[1]),
        ordinal(word[2]),
        ordinal(word[3]),
    )
}

/// Whether `r` is the result of `word` under some operator triple. Zero
/// counts.
pub open spec fn is_word_candidate(word: Seq<char>, r: nat) -> bool {
    exists|t: int| 0 <= t < 6 && #[trigger] word_yields(word, t) == Some(r)
}

/// The candidates of `word`, as a predicate.
pub open spec fn word_candidates(word: Seq<char>) -> spec_fn(nat) -> bool {
    |r: nat| is_word_candidate(word, r)
}

/// The answer to `word`. Only the smallest candidate is read as a letter:
/// where it stands for none, no larger candidate takes its place.
pub open spec fn solve_word_spec(word: Seq<char>) -> Result<char, SolveError> {
    if !is_word(word) {
        Err(SolveError::Malformed)
    } else {
        match least(word_candidates(word)) {
            Some(m) => if 1 <= m <= 26 {
                Ok(letter_at(m))
            } else {
                Err(SolveError::Exhausted)
            },
            None => Err(SolveError::Exhausted),
        }
    }
}

/// The four letters of `word` as their places in the alphabet, or `None`
/// where `word` is not made of exactly four letters.
pub fn word_operands(word: &str) -> (r: Option<(u64, u64, u64, u64)>)
    ensures
        is_word(word@) ==> r == Some(
            (
                ordinal(word@[0]) as u64,
                ordinal(word@[1]) as u64,
                ordinal(word@[2]) as u64,
                ordinal(word@[3]) as u64,
            ),
        ),
        !is_word(word@) ==> r is None,
{
    if word.unicode_len() != 4 {
        return None;
    }
    let mut numeric: Vec<u64> = Vec::new();
    let mut at: usize = 0;
    while at < 4
        invariant
            at <= 4,
            word@.len() == 4,
            numeric@.len() == at,
            forall|i: int|
                0 <= i < at ==> is_letter(#[trigger] word@[i]) && numeric@[i] == ordinal(word@[i]),
        decreases 4 - at,
    {
        match char_to_numeric(word.get_char(at)) {
            Ok(place) => numeric.push(place),
            Err(_) => {
                return None;
            },
        }
        at = at + 1;
    }
    Some((numeric[0], numeric[1], numeric[2], numeric[3]))
}

/// The letter that answers `word`, or why there is none: `word` is not made
/// of exactly four letters, or its smallest result stands for no letter.
pub fn solve_word(word: &str) -> (r: Result<char, SolveError>)
    ensures
        r == solve_word_spec(word@),
        !is_word(word@) <==> r == Err::<char, SolveError>(SolveError::Malformed),
        r matches Ok(letter) ==> 'A' <= letter <= 'Z',
{
    let operands: (u64, u64, u64, u64) = match word_operands(word) {
        Some(operands) => operands,
        None => {
            return Err(SolveError::Malformed);
        },
    };
    let mut results: Vec<u64> = Vec::new();
    let mut t: usize = 0;
    while t < 6
        invariant
            t <= 6,
            is_word(word@),
            operands.0 == ordinal(word@[0]),
            operands.1 == ordinal(word@[1]),
            operands.2 == ordinal(word@[2]),
            operands.3 == ordinal(word@[3]),
            forall|r: nat| among(results@, r) ==> is_word_candidate(word@, r),
            forall|u: int|
                0 <= u < t ==> (#[trigger] word_yields(word@, u) matches Some(r) ==> among(
                    results@,
                    r,
                )),
        decreases 6 - t,
    {
        let ops: OpTriple = NUMERIC_CORE_OP_COMBOS[t];
        proof {
            lemma_combos_are_the_arrangements();
            lemma_small_operands_fit(
                ops,
                operands.0 as nat,
                operands.1 as nat,
                operands.2 as nat,
                operands.3 as nat,
            );
        }
        // The evaluator lets the multiplication go first where the division
        // stands directly before it.
        let result: Option<u64> = evaluate(ops, operands);
        let ghost before = results@;
        assert(widen(result) == word_yields(word@, t as int));
        if result.is_some() {
            results.push(result.unwrap());
        }
        proof {
            assert forall|r: nat| among(results@, r) implies is_word_candidate(word@, r) by {
                let i = choose|i: int| 0 <= i < results@.len() && #[trigger] results@[i] == r;
                if i < before.len() {
                    assert(before[i] == r);
                    assert(among(before, r));
                }
            }
            assert forall|u: int| 0 <= u < t + 1 implies (#[trigger] word_yields(word@, u) matches Some(
                r,
            ) ==> among(results@, r)) by {
                if word_yields(word@, u) is Some {
                    let r = word_yields(word@, u).unwrap();
                    if u < t {
                        let i = choose|i: int| 0 <= i < before.len() && #[trigger] before[i] == r;
                        assert(results@[i] == r);
                    } else {
                        assert(results@[before.len() as int] == r);
                    }
                }
            }
        }
        t = t + 1;
    }
    match smallest(&results) {
        None => {
            proof {
                assert forall|r: nat| !#[trigger] word_candidates(word@)(r) by {
                    if is_word_candidate(word@, r) {
                        let u = choose|u: int| 0 <= u < 6 && #[trigger] word_yields(word@, u) == Some(r);
                        assert(among(results@, r));
                        let i = choose|i: int| 0 <= i < results@.len() && #[trigger] results@[i] == r;
                    }
                }
                lemma_least_none(word_candidates(word@));
            }
            Err(SolveError::Exhausted)
        },
        Some(m) => {
            proof {
                assert forall|q: nat| #[trigger] word_candidates(word@)(q) implies m <= q by {
                    let u = choose|u: int| 0 <= u < 6 && #[trigger] word_yields(word@, u) == Some(q);
                    assert(among(results@, q));
                }
                lemma_least_is(word_candidates(word@), m as nat);
            }
            match numeric_to_char(m) {
                Ok(letter) => Ok(letter),
                Err(_) => Err(SolveError::Exhausted),
            }
        },
    }
}

/// The letter that answers `word`, or `None` where [`solve_word`] gives an
/// error of either kind.
pub fn numeric_core_word(word: &str) -> (r: Option<char>)
    ensures
        r == match solve_word_spec(word@) {
            Ok(letter) => Some(letter),
            Err(_) => None,
        },
        !is_word(word@) ==> r is None,
{
    match solve_word(word) {
        Ok(letter) => Some(letter),
        Err(_) => None,
    }
}

} // verus!
