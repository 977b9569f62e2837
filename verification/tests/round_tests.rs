use wordle::display::{guess_line, keyboard_row};
use wordle::game_logic::new_keyboard;
use wordle::round::{GuessReply, Round, MAX_ATTEMPTS};
use wordle::status::Status;
use wordle::tui::{Key, TuiApp};

fn words(ws: &[&str]) -> Vec<String> {
    ws.iter().map(|w| w.to_string()).collect()
}

fn acceptables() -> Vec<String> {
    words(&["THEME", "CRANE", "EERIE", "SLATE", "ABOUT", "PLUMB", "BUMPY"])
}

#[test]
fn round_refuses_unlisted_guess() {
    let mut r = Round::new("THEME".to_string(), false);
    assert!(matches!(r.guess(&"ZZZZZ".to_string(), &acceptables()), GuessReply::Invalid));
    assert!(matches!(r.guess(&"CRAN".to_string(), &acceptables()), GuessReply::Invalid));
    assert_eq!(r.attempt, 0);
    assert!(r.guesses.is_empty());
}

#[test]
fn round_scores_and_wins() {
    let mut r = Round::new("THEME".to_string(), false);
    match r.guess(&"EERIE".to_string(), &acceptables()) {
        GuessReply::Scored(f) => assert_eq!(f, "YRRRG"),
        GuessReply::Invalid => panic!("guess refused"),
    }
    assert_eq!(r.keyboard[&('E' as u32)], Status::Green);
    assert!(!r.is_over());
    match r.guess(&"THEME".to_string(), &acceptables()) {
        GuessReply::Scored(f) => assert_eq!(f, "GGGGG"),
        GuessReply::Invalid => panic!("guess refused"),
    }
    assert!(r.won && r.is_over());
    assert_eq!(r.attempt, 2);
    assert_eq!(r.guesses, words(&["EERIE", "THEME"]));
}

#[test]
fn round_ends_after_six_misses() {
    let mut r = Round::new("THEME".to_string(), false);
    for w in ["CRANE", "SLATE", "ABOUT", "PLUMB", "BUMPY", "CRANE"] {
        assert!(matches!(r.guess(&w.to_string(), &acceptables()), GuessReply::Scored(_)));
    }
    assert_eq!(r.attempt, MAX_ATTEMPTS);
    assert!(!r.won && r.is_over());
}

#[test]
fn round_hard_mode_refuses_guess_ignoring_greens() {
    let mut r = Round::new("THEME".to_string(), true);
    assert!(matches!(r.guess(&"EERIE".to_string(), &acceptables()), GuessReply::Scored(_)));
    assert_eq!(r.known_positions, [None, None, None, None, Some('E')]);
    assert!(matches!(r.guess(&"ABOUT".to_string(), &acceptables()), GuessReply::Invalid));
    assert_eq!(r.attempt, 1);
}

#[test]
fn hard_mode_refusal_needs_no_five_letter_answer() {
    let mut a = TuiApp::new("AB".to_string(), true, Vec::new(), words(&["CRANE"]));
    a.known_positions = [Some('Z'), None, None, None, None];
    for c in "crane".chars() {
        a.handle_input(Key::Char(c));
    }
    assert!(!a.handle_input(Key::Enter));
    assert_eq!(a.message, "困难模式：必须使用已知信息");
    assert_eq!(a.attempt, 0);
    assert_eq!(a.current_input, "CRANE");
}

#[test]
fn guess_line_colors_each_letter() {
    assert_eq!(
        guess_line("EERIE", "YRRRG"),
        "\x1b[43mE\x1b[0m \x1b[41mE\x1b[0m \x1b[41mR\x1b[0m \x1b[41mI\x1b[0m \x1b[42mE\x1b[0m "
    );
}

#[test]
fn keyboard_row_colors_by_status() {
    let mut kb = new_keyboard();
    kb.insert('Q' as u32, Status::Green);
    kb.insert('E' as u32, Status::Red);
    assert_eq!(keyboard_row(&kb, "QWE"), "\x1b[42mQ\x1b[0m W\x1b[0m \x1b[41mE\x1b[0m ");
}

#[test]
fn hard_mode_refuses_short_guess_on_first_mismatch() {
    let mut a = TuiApp::new("THEME".to_string(), true, Vec::new(), words(&["ÄBCD"]));
    a.known_positions = [Some('X'), None, None, None, Some('Z')];
    a.current_input = "ÄBCD".to_string();
    assert!(!a.handle_input(Key::Enter));
    assert_eq!(a.message, "困难模式：必须使用已知信息");
    assert_eq!(a.attempt, 0);
}
