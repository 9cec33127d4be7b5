use wordle_clone::compare_vec;
use wordle_clone::LetterMatch;

fn chars(s: &str) -> Vec<char> {
    s.chars().collect()
}

#[test]
fn compare_crate_against_crane() {
    // 'c', 'r', 'a' and 'e' match their positions; 't' occurs nowhere in
    // the target.
    let r = compare_vec(&chars("crate"), &chars("crane"));
    assert_eq!(
        r,
        vec![
            LetterMatch::Belongs,
            LetterMatch::Belongs,
            LetterMatch::Belongs,
            LetterMatch::NotInWord,
            LetterMatch::Belongs,
        ]
    );
}

#[test]
fn compare_group_against_mango() {
    // 'g' and 'o' occur in the target at other positions; 'r', 'u', 'p'
    // occur nowhere in it.
    let r = compare_vec(&chars("group"), &chars("mango"));
    assert_eq!(
        r,
        vec![
            LetterMatch::BelongsElsewhere,
            LetterMatch::NotInWord,
            LetterMatch::BelongsElsewhere,
            LetterMatch::NotInWord,
            LetterMatch::NotInWord,
        ]
    );
}

#[test]
fn compare_equal_words_is_all_belongs() {
    let r = compare_vec(&chars("abc"), &chars("abc"));
    assert_eq!(r, vec![LetterMatch::Belongs; 3]);
}

#[test]
fn compare_disjoint_words_is_all_not_in_word() {
    let r = compare_vec(&chars("zzzzz"), &chars("abcde"));
    assert_eq!(r, vec![LetterMatch::NotInWord; 5]);
}

#[test]
fn compare_stops_at_the_shorter_word() {
    let r = compare_vec(&chars("abcdef"), &chars("abc"));
    assert_eq!(r, vec![LetterMatch::Belongs; 3]);
    let r = compare_vec(&chars("ab"), &chars("baxxx"));
    assert_eq!(r, vec![LetterMatch::BelongsElsewhere; 2]);
}

#[test]
fn compare_counts_no_letter_frequency() {
    // The target holds a single 'a', yet every misplaced 'a' of the guess
    // is scored as present: the check is letter-existence only.
    let r = compare_vec(&chars("aaaaa"), &chars("crane"));
    assert_eq!(
        r,
        vec![
            LetterMatch::BelongsElsewhere,
            LetterMatch::BelongsElsewhere,
            LetterMatch::Belongs,
            LetterMatch::BelongsElsewhere,
            LetterMatch::BelongsElsewhere,
        ]
    );
}

#[test]
fn compare_empty_guess_is_empty() {
    let r = compare_vec(&chars(""), &chars("crane"));
    assert_eq!(r, Vec::new());
}
