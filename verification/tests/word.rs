use blue_prince_solvers::core_cipher::numeric_core::{numeric_core_word, solve_word, word_operands};
use blue_prince_solvers::selection::SolveError;

#[test]
fn test_numeric_core_word() {
    assert_eq!(numeric_core_word("PIGS"), Some('S'));
}

#[test]
fn solve_word_agrees_with_the_example() {
    assert_eq!(solve_word("PIGS"), Ok('S'));
}

#[test]
fn the_case_of_the_letters_does_not_matter() {
    assert_eq!(numeric_core_word("pigs"), Some('S'));
    assert_eq!(numeric_core_word("PiGs"), Some('S'));
    assert_eq!(solve_word("pIgS"), Ok('S'));
}

#[test]
fn word_operands_are_the_places_of_the_letters() {
    assert_eq!(word_operands("PIGS"), Some((16, 9, 7, 19)));
    assert_eq!(word_operands("azAZ"), Some((1, 26, 1, 26)));
    assert_eq!(word_operands("PIG"), None);
    assert_eq!(word_operands("PIGS "), None);
    assert_eq!(word_operands("P1GS"), None);
}

#[test]
fn a_word_of_three_letters_is_malformed() {
    assert_eq!(solve_word("PIG"), Err(SolveError::Malformed));
    assert_eq!(numeric_core_word("PIG"), None);
}

#[test]
fn a_word_of_five_letters_is_malformed() {
    assert_eq!(solve_word("PIGSS"), Err(SolveError::Malformed));
    assert_eq!(numeric_core_word("PIGSS"), None);
}

#[test]
fn a_word_with_a_digit_is_malformed() {
    assert_eq!(solve_word("P1GS"), Err(SolveError::Malformed));
    assert_eq!(solve_word("PIG5"), Err(SolveError::Malformed));
    assert_eq!(solve_word("1234"), Err(SolveError::Malformed));
    assert_eq!(numeric_core_word("P1GS"), None);
}

#[test]
fn other_malformed_words() {
    assert_eq!(solve_word(""), Err(SolveError::Malformed));
    assert_eq!(solve_word("    "), Err(SolveError::Malformed));
    assert_eq!(solve_word("PI S"), Err(SolveError::Malformed));
    assert_eq!(solve_word("PIGÉ"), Err(SolveError::Malformed));
    // Four bytes, three characters.
    assert_eq!(solve_word("PIÉ"), Err(SolveError::Malformed));
}

#[test]
fn only_the_smallest_result_is_read_as_a_letter() {
    // 2, 2, 1, 1 gives 0 four times and 3 twice: 3 would be C, but 0 is the
    // smallest and stands for no letter.
    assert_eq!(solve_word("BBAA"), Err(SolveError::Exhausted));
    assert_eq!(numeric_core_word("BBAA"), None);
    // 26, 26, 26, 26 gives 0 three times and 25 once.
    assert_eq!(numeric_core_word("ZZZZ"), None);
}

#[test]
fn a_smallest_result_above_twenty_six_is_no_letter() {
    // 23, 15, 18, 4 gives 36 only; 25, 26, 1, 2 gives 648 only.
    assert_eq!(solve_word("WORD"), Err(SolveError::Exhausted));
    assert_eq!(solve_word("YZAB"), Err(SolveError::Exhausted));
}

#[test]
fn a_word_without_any_result_is_exhausted() {
    // 1, 2, 3, 4: no triple has a value.
    assert_eq!(solve_word("ABCD"), Err(SolveError::Exhausted));
    assert_eq!(numeric_core_word("ABCD"), None);
}

#[test]
fn a_smallest_result_of_one_is_the_first_letter() {
    // 2, 1, 1, 1 gives 1 six times.
    assert_eq!(solve_word("BAAA"), Ok('A'));
}
