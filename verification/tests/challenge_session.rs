use words_with_toddlers::challenge::{ChallengeMode, WordChallenge};
use words_with_toddlers::grade_level::GradeLevel;
use words_with_toddlers::word_list_loader::WordListLoader;

fn bank(words: &[&str]) -> Vec<String> {
    words.iter().map(|w| w.to_string()).collect()
}

/// A small word bank provider for the tests, one list per level.
fn loader() -> WordListLoader {
    WordListLoader::new(vec![
        "cat\ndog\npig\n".to_string(),
        "red\nblue\n".to_string(),
        "sun\nmoon\n".to_string(),
        "tree\nleaf\n".to_string(),
        "rain\nsnow\n".to_string(),
        "wind\nwave\n".to_string(),
        "star\ncloud\n".to_string(),
        "river\nstone\n".to_string(),
    ])
}

fn start(mode: ChallengeMode, words: &[&str]) -> WordChallenge {
    WordChallenge::new(mode, GradeLevel::PreK, bank(words)).unwrap()
}

/// Types the current target word correctly, checks it, and ends the
/// celebration, moving the session to its next word.
fn answer_correctly(s: &mut WordChallenge, provider: &WordListLoader) {
    let word = s.current_word.clone();
    s.clear_typed();
    for c in word.chars() {
        s.add_letter(c.to_ascii_uppercase());
    }
    assert!(s.check_if_correct());
    s.handle_correct_word();
    s.finish_celebration(provider);
}

/// Types a wrong answer for the current target word and records it.
fn answer_incorrectly(s: &mut WordChallenge) {
    s.clear_typed();
    s.add_letter('q');
    assert!(!s.check_if_correct());
    s.handle_incorrect_word();
}

#[test]
fn new_session_starts_at_the_chosen_level() {
    let s = start(ChallengeMode::Visual, &["cat", "dog"]);
    assert_eq!(s.grade_level, GradeLevel::PreK);
    assert_eq!(s.score, 0);
    assert_eq!(s.words_completed, 0);
    assert!(!s.is_celebrating);
    assert!(s.current_word == "cat" || s.current_word == "dog");
    let t = WordChallenge::new(ChallengeMode::Audio, GradeLevel::Third, bank(&["sun"])).unwrap();
    assert_eq!(t.grade_level, GradeLevel::Third);
    assert_eq!(t.current_word, "sun");
}

#[test]
fn empty_bank_start_is_refused() {
    assert!(WordChallenge::new(ChallengeMode::Visual, GradeLevel::PreK, bank(&[])).is_none());
}

#[test]
fn empty_bank_selection_is_a_no_op() {
    let mut s = start(ChallengeMode::Visual, &["cat"]);
    s.add_letter('c');
    s.add_letter('a');
    // Swapping in an empty bank replaces the pool, but the selection
    // that follows leaves the rest of the session untouched.
    s.update_word_list(bank(&[]));
    assert_eq!(s.current_word, "cat");
    assert_eq!(s.typed_text(), "ca");
    s.next_word();
    assert_eq!(s.current_word, "cat");
    assert_eq!(s.typed_text(), "ca");
    s.select_word_at(3);
    assert_eq!(s.current_word, "cat");
    assert_eq!(s.typed_text(), "ca");
}

#[test]
fn typed_text_is_joined_lower_case() {
    let mut s = start(ChallengeMode::Visual, &["cat"]);
    s.add_letter('C');
    s.add_letter('a');
    s.add_letter('T');
    assert_eq!(s.typed_text(), "cat");
    s.remove_last_letter();
    assert_eq!(s.typed_text(), "ca");
    s.clear_typed();
    assert_eq!(s.typed_text(), "");
}

#[test]
fn checking_is_case_insensitive() {
    let mut s = start(ChallengeMode::Visual, &["cat"]);
    s.add_letter('C');
    s.add_letter('A');
    s.add_letter('T');
    assert!(s.check_if_correct());
}

#[test]
fn input_is_ignored_while_celebrating() {
    let mut s = start(ChallengeMode::Visual, &["cat"]);
    s.add_letter('c');
    s.add_letter('a');
    s.add_letter('t');
    s.handle_correct_word();
    assert!(s.is_celebrating);
    s.add_letter('x');
    assert_eq!(s.typed_text(), "cat");
    s.remove_last_letter();
    assert_eq!(s.typed_text(), "cat");
}

#[test]
fn correct_answer_scores_and_celebrates() {
    let mut s = start(ChallengeMode::Visual, &["cat"]);
    s.add_letter('c');
    s.add_letter('a');
    s.add_letter('t');
    assert!(s.check_if_correct());
    s.handle_correct_word();
    assert_eq!(s.score, 1);
    assert_eq!(s.words_completed, 1);
    assert!(s.is_celebrating);
    assert_eq!(s.completed_count(), 1);
}

#[test]
fn wrong_answer_counts_against_the_word() {
    let mut s = start(ChallengeMode::Audio, &["cat"]);
    assert!(!s.should_reveal_word());
    answer_incorrectly(&mut s);
    answer_incorrectly(&mut s);
    assert!(!s.should_reveal_word());
    answer_incorrectly(&mut s);
    assert!(s.should_reveal_word());
    assert_eq!(s.score, 0);
}

#[test]
fn visual_mode_never_reveals() {
    let mut s = start(ChallengeMode::Visual, &["cat"]);
    for _ in 0..5 {
        answer_incorrectly(&mut s);
    }
    assert!(!s.should_reveal_word());
}

#[test]
fn exhausted_bank_is_recycled() {
    let provider = loader();
    let mut s = start(ChallengeMode::Visual, &["cat"]);
    assert_eq!(s.current_word, "cat");
    answer_correctly(&mut s, &provider);
    // The single word was completed, so the very next selection clears
    // the completed set and may re-draw it.
    assert_eq!(s.completed_count(), 0);
    assert_eq!(s.current_word, "cat");
}

#[test]
fn two_word_session_runs_end_to_end() {
    let provider = loader();
    let mut s = start(ChallengeMode::Visual, &["cat", "dog"]);
    let first = s.current_word.clone();
    assert!(first == "cat" || first == "dog");
    answer_correctly(&mut s, &provider);
    assert_eq!(s.score, 1);
    assert_eq!(s.words_completed, 1);
    let second = s.current_word.clone();
    assert!(second == "cat" || second == "dog");
    assert_ne!(second, first, "a completed word must not repeat before the bank is exhausted");
    answer_correctly(&mut s, &provider);
    assert_eq!(s.score, 2);
    // Both words are now exhausted: the selection that followed must
    // have cleared the completed set and drawn some bank word again.
    assert_eq!(s.completed_count(), 0);
    assert!(s.current_word == "cat" || s.current_word == "dog");
    assert!(!s.is_celebrating);
}

#[test]
fn ten_correct_answers_earn_a_level_raise() {
    let provider = loader();
    let mut s = start(ChallengeMode::Visual, &["cat", "dog", "pig"]);
    for _ in 0..9 {
        answer_correctly(&mut s, &provider);
        assert_eq!(s.grade_level, GradeLevel::PreK);
        assert!(!s.should_level_up());
    }
    // The tenth correct answer fills the window; finishing that round
    // evaluates the leveling rule, raises the level, resets the counter
    // and swaps in the new level's bank before selecting.
    answer_correctly(&mut s, &provider);
    assert_eq!(s.grade_level, GradeLevel::Kindergarten);
    assert_eq!(s.attempts_since_level_change, 0);
    assert!(s.current_word == "red" || s.current_word == "blue");
    assert!(!s.should_level_up());
}

#[test]
fn low_accuracy_drops_a_level() {
    let provider = loader();
    let mut s = WordChallenge::new(
        ChallengeMode::Visual,
        GradeLevel::Kindergarten,
        bank(&["red"]),
    )
    .unwrap();
    for _ in 0..10 {
        answer_incorrectly(&mut s);
    }
    assert!(s.should_level_down());
    // One correct answer at last: the trailing window still holds nine
    // misses, so finishing the round drops the level and swaps banks.
    answer_correctly(&mut s, &provider);
    assert_eq!(s.grade_level, GradeLevel::PreK);
    assert_eq!(s.attempts_since_level_change, 0);
    assert!(s.current_word == "cat" || s.current_word == "dog" || s.current_word == "pig");
}

#[test]
fn leveling_at_the_ladder_floor_changes_nothing() {
    let provider = loader();
    let mut s = start(ChallengeMode::Visual, &["cat"]);
    for _ in 0..10 {
        answer_incorrectly(&mut s);
    }
    assert!(s.should_level_down());
    s.handle_correct_word();
    s.finish_celebration(&provider);
    // No predecessor exists, so the level and the counter stay as they
    // were — and a next word is still selected.
    assert_eq!(s.grade_level, GradeLevel::PreK);
    assert_eq!(s.attempts_since_level_change, 11);
    assert_eq!(s.current_word, "cat");
    assert_eq!(s.typed_text(), "");
    assert!(!s.is_celebrating);
}

#[test]
fn middling_accuracy_changes_nothing() {
    let provider = loader();
    let mut s = start(ChallengeMode::Visual, &["cat", "dog"]);
    for _ in 0..6 {
        answer_correctly(&mut s, &provider);
    }
    for _ in 0..4 {
        answer_incorrectly(&mut s);
    }
    // Six correct of the last ten: too low to rise, too high to drop.
    assert!(!s.should_level_up());
    assert!(!s.should_level_down());
    assert_eq!(s.grade_level, GradeLevel::PreK);
}

#[test]
fn ladder_is_clamped_at_both_ends() {
    let mut s = start(ChallengeMode::Visual, &["cat"]);
    assert_eq!(s.level_down(), None);
    assert_eq!(s.grade_level, GradeLevel::PreK);
    for _ in 0..7 {
        assert!(s.level_up().is_some());
    }
    assert_eq!(s.grade_level, GradeLevel::Sixth);
    assert_eq!(s.level_up(), None);
    assert_eq!(s.grade_level, GradeLevel::Sixth);
    for _ in 0..7 {
        assert!(s.level_down().is_some());
    }
    assert_eq!(s.grade_level, GradeLevel::PreK);
    assert_eq!(s.level_down(), None);
    assert_eq!(s.grade_level, GradeLevel::PreK);
}

#[test]
fn swapping_the_bank_keeps_the_score() {
    let provider = loader();
    let mut s = start(ChallengeMode::Visual, &["cat"]);
    answer_correctly(&mut s, &provider);
    let score = s.score;
    s.update_word_list(bank(&["horse", "sheep"]));
    assert_eq!(s.score, score);
    assert!(s.current_word == "horse" || s.current_word == "sheep");
    assert_eq!(s.typed_text(), "");
}

#[test]
fn selection_accepts_an_injected_draw() {
    let mut s = start(ChallengeMode::Visual, &["cat", "dog", "pig"]);
    s.select_word_at(0);
    assert_eq!(s.current_word, "cat");
    s.select_word_at(1);
    assert_eq!(s.current_word, "dog");
    // The draw is reduced modulo the number of candidates.
    s.select_word_at(5);
    assert_eq!(s.current_word, "pig");
}

#[test]
fn selection_skips_completed_words() {
    let provider = loader();
    let mut s = start(ChallengeMode::Visual, &["cat", "dog", "pig"]);
    s.select_word_at(0);
    answer_correctly(&mut s, &provider);
    // "cat" is completed, so the candidates are now "dog" and "pig".
    s.select_word_at(0);
    assert_eq!(s.current_word, "dog");
    s.select_word_at(1);
    assert_eq!(s.current_word, "pig");
    s.select_word_at(2);
    assert_eq!(s.current_word, "dog");
}

#[test]
fn selection_recycles_deterministically() {
    let provider = loader();
    let mut s = start(ChallengeMode::Visual, &["cat", "dog"]);
    s.select_word_at(0);
    answer_correctly(&mut s, &provider);
    s.select_word_at(0);
    assert_eq!(s.current_word, "dog");
    answer_correctly(&mut s, &provider);
    // Both words are completed: the next selection clears the completed
    // set and draws from the whole bank again.
    s.select_word_at(0);
    assert_eq!(s.completed_count(), 0);
    assert_eq!(s.current_word, "cat");
}
