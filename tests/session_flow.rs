use wordle_helper::dictionary::load_words;
use wordle_helper::session::{display_choice, is_affirmative, next_phase, Display, Phase};

#[test]
fn small_result_prints_directly() {
    assert_eq!(display_choice("y", 10, 15), Display::Direct);
}

#[test]
fn large_result_goes_to_pager() {
    assert_eq!(display_choice("yes", 15, 15), Display::Pager);
    assert_eq!(display_choice("n", 10, 15), Display::Skip);
    assert_eq!(display_choice("", 10, 15), Display::Skip);
}

#[test]
fn phases_follow_in_order() {
    assert_eq!(next_phase(Phase::GatherConstraints, ""), Phase::Filter);
    assert_eq!(next_phase(Phase::Filter, ""), Phase::OfferDisplay);
    assert_eq!(next_phase(Phase::OfferDisplay, "n"), Phase::OfferContinue);
    assert_eq!(next_phase(Phase::OfferContinue, "yes"), Phase::GatherConstraints);
    assert_eq!(next_phase(Phase::OfferContinue, "no"), Phase::Done);
    assert_eq!(next_phase(Phase::OfferContinue, ""), Phase::Done);
    assert_eq!(next_phase(Phase::Done, "y"), Phase::Done);
}

#[test]
fn affirmative_means_leading_y() {
    assert!(is_affirmative("y"));
    assert!(is_affirmative("yup"));
    assert!(!is_affirmative("Y"));
    assert!(!is_affirmative(" y"));
    assert!(!is_affirmative(""));
}

#[test]
fn load_words_keeps_lines_of_length() {
    let text = "apple\nfig\nangle\n\npear\namble";
    assert_eq!(load_words(text, 5), vec!["apple", "angle", "amble"]);
    assert_eq!(load_words(text, 4), vec!["pear"]);
    assert_eq!(load_words(text, 0), vec![""]);
    assert_eq!(load_words("", 0), vec![""]);
    assert_eq!(load_words("", 5), Vec::<String>::new());
}
