use wordle_helper::constraints::{update_absent, update_positional_exclusions, update_positional_fixed, LineOutcome};
use wordle_helper::filter::{contains_char, filter_words, word_matches, ConstraintState};

fn words(list: &[&str]) -> Vec<String> {
    list.iter().map(|w| w.to_string()).collect()
}

#[test]
fn fixed_first_letter_keeps_all() {
    let dict = words(&["apple", "angle", "amble"]);
    let mut state = ConstraintState::new(5);
    assert_eq!(update_positional_fixed(&mut state.fixed, "1 a"), LineOutcome::Applied);
    assert_eq!(filter_words(&dict, &state), words(&["apple", "angle", "amble"]));
}

#[test]
fn absent_letter_removes_words() {
    let dict = words(&["apple", "angle", "amble"]);
    let mut state = ConstraintState::new(5);
    update_positional_fixed(&mut state.fixed, "1 a");
    state.absent = update_absent(state.absent, "p");
    assert_eq!(filter_words(&dict, &state), words(&["angle", "amble"]));
}

#[test]
fn exclusion_needs_letter_elsewhere() {
    let dict = words(&["angle", "amble", "snack", "bland"]);
    let mut state = ConstraintState::new(5);
    assert_eq!(update_positional_exclusions(&mut state.excluded, "2 n"), LineOutcome::Applied);
    assert!(!word_matches("angle", &state));
    assert!(!word_matches("amble", &state));
    assert!(!word_matches("snack", &state));
    assert!(word_matches("bland", &state));
    assert_eq!(filter_words(&dict, &state), words(&["bland"]));
}

#[test]
fn empty_state_keeps_dictionary_order() {
    let dict = words(&["zebra", "apple", "mango"]);
    let state = ConstraintState::new(5);
    assert_eq!(filter_words(&dict, &state), dict);
}

#[test]
fn filtering_twice_changes_nothing() {
    let dict = words(&["apple", "angle", "amble", "crane", "plane"]);
    let mut state = ConstraintState::new(5);
    state.absent = update_absent(state.absent, "r");
    update_positional_exclusions(&mut state.excluded, "3 l");
    let once = filter_words(&dict, &state);
    let twice = filter_words(&once, &state);
    assert_eq!(once, words(&["apple", "angle", "amble", "plane"]));
    assert_eq!(twice, once);
}

#[test]
fn more_constraints_never_add_candidates() {
    let dict = words(&["apple", "angle", "amble", "crane", "plane"]);
    let mut state = ConstraintState::new(5);
    let before = filter_words(&dict, &state).len();
    update_positional_fixed(&mut state.fixed, "5 e");
    let after_fixed = filter_words(&dict, &state).len();
    state.absent = update_absent(state.absent, "m");
    let after_absent = filter_words(&dict, &state).len();
    update_positional_exclusions(&mut state.excluded, "1 l");
    let after_excl = filter_words(&dict, &state).len();
    assert_eq!((before, after_fixed, after_absent, after_excl), (5, 5, 4, 3));
}

#[test]
fn full_pattern_word_is_found() {
    let dict = words(&["crane", "plane", "apple"]);
    let mut state = ConstraintState::new(5);
    for line in ["1 p", "2 l", "3 a", "4 n", "5 e"] {
        update_positional_fixed(&mut state.fixed, line);
    }
    state.absent = update_absent(state.absent, "rx");
    update_positional_exclusions(&mut state.excluded, "1 a");
    assert_eq!(filter_words(&dict, &state), words(&["plane"]));
}

#[test]
fn fixed_letter_beyond_word_rejects_it() {
    let mut state = ConstraintState::new(6);
    update_positional_fixed(&mut state.fixed, "6 s");
    assert!(!word_matches("apple", &state));
    assert!(word_matches("apples", &state));
}

#[test]
fn contains_char_finds_letters() {
    assert!(contains_char("apple", 'l'));
    assert!(!contains_char("apple", 'z'));
    assert!(!contains_char("", 'a'));
}

#[test]
fn new_state_is_empty() {
    let state = ConstraintState::new(5);
    assert_eq!(state.absent, "");
    assert_eq!(state.excluded, vec![String::new(); 5]);
    assert_eq!(state.fixed, vec![None; 5]);
}
