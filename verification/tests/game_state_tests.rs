use xmahjong::game_state::{NameEntryState, ScoreTracker};

#[test]
fn score_perfect_game() {
    let tracker = ScoreTracker { hints_used: 0, shuffles_used: 0, elapsed_seconds: 0 };
    assert_eq!(tracker.calculate_score(), 1000);
}

#[test]
fn score_with_penalties() {
    let tracker = ScoreTracker { hints_used: 2, shuffles_used: 1, elapsed_seconds: 120 };
    // 1000 - 120 - 100 - 100 = 680
    assert_eq!(tracker.calculate_score(), 680);
}

#[test]
fn score_never_negative() {
    let tracker = ScoreTracker { hints_used: 10, shuffles_used: 10, elapsed_seconds: 9999 };
    assert_eq!(tracker.calculate_score(), 0);
}

#[test]
fn score_exact_zero() {
    let tracker = ScoreTracker { hints_used: 0, shuffles_used: 0, elapsed_seconds: 1000 };
    assert_eq!(tracker.calculate_score(), 0);
}

#[test]
fn name_entry_new_creates_empty_state() {
    let entry = NameEntryState::new(500, 120);
    assert_eq!(entry.text, "");
    assert_eq!(entry.score, 500);
    assert_eq!(entry.time_seconds, 120);
    assert!(!entry.is_valid());
}

#[test]
fn name_entry_push_char_adds_characters() {
    let mut entry = NameEntryState::new(500, 120);
    assert!(entry.push_char('A'));
    assert!(entry.push_char('l'));
    assert!(entry.push_char('i'));
    assert_eq!(entry.text, "Ali");
    assert!(entry.is_valid());
}

#[test]
fn name_entry_push_char_rejects_beyond_20() {
    let mut entry = NameEntryState::new(500, 120);
    for c in "12345678901234567890".chars() {
        assert!(entry.push_char(c));
    }
    assert_eq!(entry.text.chars().count(), 20);
    assert!(entry.is_valid());

    assert!(!entry.push_char('X'));
    assert_eq!(entry.text.chars().count(), 20);
}

#[test]
fn name_entry_pop_char_removes_last() {
    let mut entry = NameEntryState::new(500, 120);
    entry.push_char('H');
    entry.push_char('i');
    assert!(entry.pop_char());
    assert_eq!(entry.text, "H");
    assert!(entry.pop_char());
    assert_eq!(entry.text, "");
    assert!(!entry.pop_char());
}

#[test]
fn name_entry_is_valid_checks_1_to_20_chars() {
    let mut entry = NameEntryState::new(500, 120);
    assert!(!entry.is_valid());

    entry.push_char('A');
    assert!(entry.is_valid());

    for c in "BCDEFGHIJKLMNOPQRST".chars() {
        entry.push_char(c);
    }
    assert_eq!(entry.text.chars().count(), 20);
    assert!(entry.is_valid());
}

// The score formula on a value where every penalty counts.
#[test]
fn score_formula_exact_value() {
    let tracker = ScoreTracker { hints_used: 3, shuffles_used: 2, elapsed_seconds: 45 };
    // 1000 - 45 - 150 - 200 = 605
    assert_eq!(tracker.calculate_score(), 605);
    assert_eq!(ScoreTracker::new().calculate_score(), 1000);
    assert_eq!(ScoreTracker::default(), ScoreTracker::new());
}

// Multi-byte characters count as one character each towards the limit.
#[test]
fn name_entry_counts_characters_not_bytes() {
    let mut entry = NameEntryState::new(1, 1);
    for _ in 0..20 {
        assert!(entry.push_char('é'));
    }
    assert!(!entry.push_char('é'));
    assert_eq!(entry.text.chars().count(), 20);
    assert!(entry.is_valid());
}
