use std::collections::HashMap;
use wordle::game_logic::{
    compute_feedback, is_valid_hard_mode, new_keyboard, update_hard_mode_constraints,
    update_keyboard,
};
use wordle::status::Status;

fn key(c: char) -> u32 {
    c as u32
}

#[test]
fn feedback_exact_match_is_all_green() {
    assert_eq!(compute_feedback("CRANE", "CRANE"), "GGGGG");
}

#[test]
fn feedback_counts_duplicate_letters_once() {
    assert_eq!(compute_feedback("SPEED", "ABIDE"), "RRYRY");
    assert_eq!(compute_feedback("ALLOW", "LOLLY"), "RYGYR");
    assert_eq!(compute_feedback("EERIE", "THEME"), "YRRRG");
}

#[test]
fn feedback_no_common_letters_is_all_red() {
    assert_eq!(compute_feedback("BUMPY", "CRANE"), "RRRRR");
}

#[test]
fn feedback_uses_first_five_characters_only() {
    assert_eq!(compute_feedback("CRANES", "CRANE"), "GGGGG");
}

#[test]
fn keyboard_starts_with_all_letters_unknown() {
    let kb = new_keyboard();
    assert_eq!(kb.len(), 26);
    for c in 'A'..='Z' {
        assert_eq!(kb.get(&key(c)), Some(&Status::Unknown));
    }
}

#[test]
fn keyboard_keeps_best_status_per_letter() {
    let mut kb = new_keyboard();
    update_keyboard("EERIE", "YRRRG", &mut kb);
    assert_eq!(kb[&key('E')], Status::Green);
    assert_eq!(kb[&key('R')], Status::Red);
    assert_eq!(kb[&key('I')], Status::Red);
    assert_eq!(kb[&key('A')], Status::Unknown);
    assert_eq!(kb.len(), 26);
}

#[test]
fn keyboard_never_downgrades() {
    let mut kb = new_keyboard();
    update_keyboard("CRANE", "GRRRR", &mut kb);
    update_keyboard("CLOTH", "RRRRR", &mut kb);
    assert_eq!(kb[&key('C')], Status::Green);
    assert_eq!(kb[&key('L')], Status::Red);
}

#[test]
fn keyboard_update_twice_changes_nothing_more() {
    let mut kb = new_keyboard();
    update_keyboard("SPEED", "RRYRY", &mut kb);
    let once = kb.clone();
    update_keyboard("SPEED", "RRYRY", &mut kb);
    assert_eq!(kb, once);
}

#[test]
fn keyboard_ignores_letters_it_does_not_hold() {
    let mut kb: HashMap<u32, Status> = HashMap::new();
    kb.insert(key('A'), Status::Red);
    update_keyboard("ABCDE", "GGGGG", &mut kb);
    assert_eq!(kb.len(), 1);
    assert_eq!(kb[&key('A')], Status::Green);
}

#[test]
fn hard_mode_accepts_anything_without_constraints() {
    let known = [None; 5];
    let min_counts = HashMap::new();
    assert!(is_valid_hard_mode("ZZZZZ", &known, &min_counts));
}

#[test]
fn hard_mode_checks_known_positions() {
    let known = [Some('C'), None, None, None, None];
    let min_counts = HashMap::new();
    assert!(is_valid_hard_mode("CLOTH", &known, &min_counts));
    assert!(!is_valid_hard_mode("BLOTS", &known, &min_counts));
}

#[test]
fn hard_mode_checks_minimum_counts() {
    let known = [None; 5];
    let mut min_counts = HashMap::new();
    min_counts.insert(key('E'), 2);
    assert!(is_valid_hard_mode("EERIE", &known, &min_counts));
    assert!(is_valid_hard_mode("GEESE", &known, &min_counts));
    assert!(!is_valid_hard_mode("CRANE", &known, &min_counts));
}

#[test]
fn hard_mode_constraints_record_greens_and_confirmed_counts() {
    let mut known = [None; 5];
    let mut min_counts = HashMap::new();
    let feedback = compute_feedback("EERIE", "THEME");
    update_hard_mode_constraints("EERIE", &feedback, &mut known, &mut min_counts);
    assert_eq!(known, [None, None, None, None, Some('E')]);
    assert_eq!(min_counts.len(), 1);
    assert_eq!(min_counts[&key('E')], 2);
}

#[test]
fn hard_mode_constraints_never_lower_a_count() {
    let mut known = [None; 5];
    let mut min_counts = HashMap::new();
    min_counts.insert(key('E'), 3);
    update_hard_mode_constraints("CRANE", "RRRRY", &mut known, &mut min_counts);
    assert_eq!(min_counts[&key('E')], 3);
    assert_eq!(known, [None; 5]);
}

#[test]
fn answer_stays_valid_in_hard_mode() {
    let answer = "THEME";
    let mut known = [None; 5];
    let mut min_counts = HashMap::new();
    for guess in ["EERIE", "TEETH", "MEMES", "THEME"] {
        let feedback = compute_feedback(guess, answer);
        update_hard_mode_constraints(guess, &feedback, &mut known, &mut min_counts);
        assert!(is_valid_hard_mode(answer, &known, &min_counts));
    }
}
