use wordle_clone::GameState;
use wordle_clone::LetterMatch;
use wordle_clone::SourceExhausted;
use wordle_clone::Wordle;

fn session(target: &str) -> Wordle {
    Wordle::new(target.to_string())
}

#[test]
fn new_session_is_fresh() {
    let w = session("crane");
    assert_eq!(w.word, "crane");
    assert!(w.guesses_map.is_empty());
    assert!(w.perfect_guess.is_empty());
    assert!(w.good_guess.is_empty());
    assert!(w.bad_guess.is_empty());
    assert_eq!(w.game_state, GameState::Guessing);
    assert_eq!(w.max_number_of_guesses, 5);
}

#[test]
fn equal_guess_wins() {
    let mut w = session("crane");
    w.submit_and_test_guess("crane".to_string());
    assert_eq!(w.game_state, GameState::Won);
    assert_eq!(w.guesses_map.len(), 1);
    assert_eq!(w.guesses_map[0].0, "crane");
    assert_eq!(w.guesses_map[0].1, vec![LetterMatch::Belongs; 5]);
}

#[test]
fn guesses_are_lowercased_before_scoring() {
    let mut w = session("crane");
    w.submit_and_test_guess("CrAnE".to_string());
    assert_eq!(w.game_state, GameState::Won);
    assert_eq!(w.guesses_map[0].0, "crane");
}

#[test]
fn near_miss_stays_guessing_and_records_absence() {
    let mut w = session("crane");
    w.submit_and_test_guess("crate".to_string());
    assert_eq!(w.game_state, GameState::Guessing);
    assert_eq!(
        w.guesses_map[0].1,
        vec![
            LetterMatch::Belongs,
            LetterMatch::Belongs,
            LetterMatch::Belongs,
            LetterMatch::NotInWord,
            LetterMatch::Belongs,
        ]
    );
    assert_eq!(w.bad_guess, vec!['t']);
    // 'c', 'r', 'a', 'e' are both present and perfect at their slots.
    for c in ['c', 'r', 'a', 'e'] {
        assert!(w.good_guess.contains(&c));
        assert!(w.perfect_guess.contains(&c));
    }
    assert_eq!(w.max_number_of_guesses, 4);
}

#[test]
fn wrong_position_letters_are_present_not_perfect() {
    let mut w = session("mango");
    w.submit_and_test_guess("group".to_string());
    assert!(w.good_guess.contains(&'g'));
    assert!(w.good_guess.contains(&'o'));
    assert!(w.perfect_guess.is_empty());
    for c in ['r', 'u', 'p'] {
        assert!(w.bad_guess.contains(&c));
    }
}

#[test]
fn win_needs_the_canonical_length() {
    // Against a degenerate short target, even a guess matching at every
    // compared position does not win: the guess must have five letters.
    let mut w = session("ab");
    w.submit_and_test_guess("ab".to_string());
    assert_eq!(w.game_state, GameState::Guessing);
    assert_eq!(w.guesses_map[0].1, vec![LetterMatch::Belongs; 2]);
}

#[test]
fn budget_exhaustion_loses_on_the_extra_guess() {
    let mut w = session("abcde");
    for _ in 0..5 {
        w.submit_and_test_guess("vwxyz".to_string());
        assert_eq!(w.game_state, GameState::Guessing);
    }
    assert_eq!(w.guesses_map.len(), 5);
    assert_eq!(w.max_number_of_guesses, 0);
    w.submit_and_test_guess("qqqqq".to_string());
    assert_eq!(w.game_state, GameState::Lost);
    // The losing call scores nothing: the history never exceeds the budget.
    assert_eq!(w.guesses_map.len(), 5);
}

#[test]
fn budget_of_one_loses_on_the_second_guess() {
    let mut w = session("abcde");
    w.max_number_of_guesses = 1;
    w.submit_and_test_guess("zzzzz".to_string());
    assert_eq!(w.max_number_of_guesses, 0);
    assert_eq!(w.game_state, GameState::Guessing);
    assert_eq!(w.guesses_map.len(), 1);
    w.submit_and_test_guess("zzzzz".to_string());
    assert_eq!(w.game_state, GameState::Lost);
    assert_eq!(w.guesses_map.len(), 1);
}

#[test]
fn submission_is_a_no_op_after_winning() {
    let mut w = session("crane");
    w.submit_and_test_guess("crane".to_string());
    assert_eq!(w.game_state, GameState::Won);
    w.submit_and_test_guess("slate".to_string());
    assert_eq!(w.game_state, GameState::Won);
    assert_eq!(w.guesses_map.len(), 1);
    assert_eq!(w.max_number_of_guesses, 4);
}

#[test]
fn letter_sets_only_grow() {
    let mut w = session("crane");
    w.submit_and_test_guess("group".to_string());
    let good1 = w.good_guess.clone();
    let bad1 = w.bad_guess.clone();
    let perfect1 = w.perfect_guess.clone();
    w.submit_and_test_guess("trace".to_string());
    for c in &good1 {
        assert!(w.good_guess.contains(c));
    }
    for c in &bad1 {
        assert!(w.bad_guess.contains(c));
    }
    for c in &perfect1 {
        assert!(w.perfect_guess.contains(c));
    }
    assert!(w.good_guess.len() > good1.len());
}

#[test]
fn repeated_letters_are_recorded_once() {
    let mut w = session("crane");
    w.submit_and_test_guess("aaaaa".to_string());
    assert_eq!(w.good_guess, vec!['a']);
    assert_eq!(w.perfect_guess, vec!['a']);
    assert!(w.bad_guess.is_empty());
}

#[test]
fn reset_is_idempotent() {
    let mut w = session("crane");
    w.submit_and_test_guess("crate".to_string());
    w.submit_and_test_guess("slate".to_string());

    w.reset("mango".to_string());
    let first = snapshot(&w);
    w.reset("mango".to_string());
    let second = snapshot(&w);
    assert_eq!(first, second);

    assert_eq!(w.word, "mango");
    assert!(w.guesses_map.is_empty());
    assert!(w.perfect_guess.is_empty());
    assert!(w.good_guess.is_empty());
    assert!(w.bad_guess.is_empty());
    assert_eq!(w.game_state, GameState::Guessing);
    assert_eq!(w.max_number_of_guesses, 5);
}

fn snapshot(w: &Wordle) -> (String, Vec<char>, Vec<char>, Vec<char>, Vec<(String, Vec<LetterMatch>)>, GameState, u32) {
    (
        w.word.clone(),
        w.perfect_guess.clone(),
        w.bad_guess.clone(),
        w.good_guess.clone(),
        w.guesses_map.clone(),
        w.game_state,
        w.max_number_of_guesses,
    )
}

#[test]
fn non_letter_characters_are_scored_like_any_others() {
    // Guesses are never validated against a dictionary: digits and
    // punctuation are lowercased (unchanged) and scored normally.
    let mut w = session("ab1!?");
    w.submit_and_test_guess("AB1!?".to_string());
    assert_eq!(w.game_state, GameState::Won);
    assert_eq!(w.guesses_map[0].0, "ab1!?");
}

#[test]
fn empty_guess_is_recorded_without_winning() {
    let mut w = session("crane");
    w.submit_and_test_guess(String::new());
    assert_eq!(w.game_state, GameState::Guessing);
    assert_eq!(w.guesses_map.len(), 1);
    assert_eq!(w.guesses_map[0].0, "");
    assert!(w.guesses_map[0].1.is_empty());
    assert_eq!(w.max_number_of_guesses, 4);
}

#[test]
fn empty_word_source_is_fatal() {
    let words: Vec<String> = Vec::new();
    assert_eq!(Wordle::from_words(&words).err(), Some(SourceExhausted));
    let mut w = session("crane");
    w.submit_and_test_guess("slate".to_string());
    let before = snapshot(&w);
    assert_eq!(w.new_random_word(&words), Err(SourceExhausted));
    assert_eq!(snapshot(&w), before);
}

#[test]
fn new_random_word_reseeds_from_the_list() {
    let words = vec!["slate".to_string()];
    let mut w = session("crane");
    w.submit_and_test_guess("crane".to_string());
    assert_eq!(w.game_state, GameState::Won);
    assert_eq!(w.new_random_word(&words), Ok(()));
    assert_eq!(w.word, "slate");
    assert!(w.guesses_map.is_empty());
    assert!(w.perfect_guess.is_empty());
    assert!(w.good_guess.is_empty());
    assert!(w.bad_guess.is_empty());
    assert_eq!(w.game_state, GameState::Guessing);
    assert_eq!(w.max_number_of_guesses, 5);
}

#[test]
fn from_words_draws_a_listed_word() {
    let words = vec!["mango".to_string(), "crane".to_string(), "slate".to_string()];
    let w = Wordle::from_words(&words).unwrap();
    assert!(words.contains(&w.word));
    assert_eq!(w.game_state, GameState::Guessing);
    assert!(w.guesses_map.is_empty());
}
