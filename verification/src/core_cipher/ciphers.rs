//! The ordinal cipher: `A` is 1, `Z` is 26, in either case, and back.

use crate::digits::decimal_text;
use vstd::prelude::*;

verus! {

/// Whether `c` is one of the fifty-two ASCII letters.
pub open spec fn is_letter(c: char) -> bool {
    ('A' <= c && c <= 'Z') || ('a' <= c && c <= 'z')
}

/// The upper-case form of an ASCII letter; any other character is itself.
pub open spec fn uppercase(c: char) -> char {
    if 'a' <= c && c <= 'z' {
        ((c as int) - ('a' as int) + ('A' as int)) as char
    } else {
        c
    }
}

/// The place of a letter in the alphabet, counted from 1, whatever its case.
pub open spec fn ordinal(c: char) -> nat
    recommends
        is_letter(c),
{
    ((uppercase(c) as int) - ('A' as int) + 1) as nat
}

/// The upper-case letter at place `n` of the alphabet, counted from 1.
pub open spec fn letter_at(n: nat) -> char
    recommends
        1 <= n <= 26,
{
    ((n as int) - 1 + ('A' as int)) as char
}

/// What is said of a character that is no letter.
pub open spec fn invalid_character_text(c: char) -> Seq<char> {
    "Invalid character: "@.push(c)
}

/// What is said of a number that no letter stands for.
pub open spec fn invalid_numeric_text(n: nat) -> Seq<char> {
    "Invalid numeric: "@ + decimal_text(n)
}

/// Uses `format!` of std to put `c` behind the words `Invalid character: `.
///
/// Believed of it, not proved: the text is those words followed by the
/// character itself.
#[verifier::external_body]
fn invalid_character(c: char) -> (message: String)
    ensures
        message@ == invalid_character_text(c),
{
    format!("Invalid character: {}", c)
}

/// Uses `format!` of std to put `n` behind the words `Invalid numeric: `.
///
/// Believed of it, not proved: the text is those words followed by `n` in
/// decimal digits, with no sign and no leading zero.
#[verifier::external_body]
fn invalid_numeric(n: u64) -> (message: String)
    ensures
        message@ == invalid_numeric_text(n as nat),
{
    format!("Invalid numeric: {}", n)
}

/// The place of the letter `c` in the alphabet, from 1 for `A` or `a` to 26
/// for `Z` or `z`. Any other character is an error.
pub fn char_to_numeric(c: char) -> (r: Result<u64, String>)
    ensures
        is_letter(c) ==> r == Ok::<u64, String>(ordinal(c) as u64),
        !is_letter(c) ==> r is Err && r->Err_0@ == invalid_character_text(c),
{
    if 'A' <= c && c <= 'Z' {
        Ok((c as u64) - ('A' as u64) + 1)
    } else if 'a' <= c && c <= 'z' {
        Ok((c as u64) - ('a' as u64) + 1)
    } else {
        Err(invalid_character(c))
    }
}

/// The upper-case letter at place `n` of the alphabet. Any number but 1 to 26
/// is an error.
pub fn numeric_to_char(n: u64) -> (r: Result<char, String>)
    ensures
        1 <= n <= 26 ==> r == Ok::<char, String>(letter_at(n as nat)),
        !(1 <= n <= 26) ==> r is Err && r->Err_0@ == invalid_numeric_text(n as nat),
{
    if 1 <= n && n <= 26 {
        let code: u8 = (n as u8) + 64;
        Ok(code as char)
    } else {
        Err(invalid_numeric(n))
    }
}

/// The cipher and its inverse undo each other on letters: a letter's place
/// lies in 1 to 26, and the letter at that place is the letter in upper case.
pub proof fn lemma_letter_round_trip(c: char)
    requires
        is_letter(c),
    ensures
        1 <= ordinal(c) <= 26,
        letter_at(ordinal(c)) == uppercase(c),
        ordinal(uppercase(c)) == ordinal(c),
{
}

/// The cipher and its inverse undo each other on places: the letter at a
/// place from 1 to 26 is an upper-case letter, and its place is that place.
pub proof fn lemma_place_round_trip(n: nat)
    requires
        1 <= n <= 26,
    ensures
        is_letter(letter_at(n)),
        uppercase(letter_at(n)) == letter_at(n),
        ordinal(letter_at(n)) == n,
{
}

} // verus!
