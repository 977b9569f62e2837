use wordle::status::Status;
use wordle::tui::{Key, TuiApp};

fn words(ws: &[&str]) -> Vec<String> {
    ws.iter().map(|w| w.to_string()).collect()
}

const PROMPT: &str = "猜测一个五字母单词，按回车确认";

fn app(answer: &str, hard: bool) -> TuiApp {
    TuiApp::new(
        answer.to_string(),
        hard,
        words(&["THEME", "CRANE"]),
        words(&["THEME", "CRANE", "EERIE", "SLATE", "TEETH", "ABOUT", "PLUMB", "BUMPY"]),
    )
}

fn type_word(a: &mut TuiApp, w: &str) {
    for c in w.chars() {
        assert!(!a.handle_input(Key::Char(c)));
    }
}

#[test]
fn new_app_starts_empty() {
    let a = app("THEME", false);
    assert_eq!(a.attempt, 0);
    assert_eq!(a.max_attempts, 6);
    assert!(!a.won && !a.finished);
    assert_eq!(a.message, PROMPT);
    assert_eq!(a.keyboard.len(), 26);
    assert_eq!(a.known_positions, [None; 5]);
}

#[test]
fn typing_uppercases_and_stops_at_five_letters() {
    let mut a = app("THEME", false);
    type_word(&mut a, "crane!x");
    assert_eq!(a.current_input, "CRANE");
    a.handle_input(Key::Backspace);
    assert_eq!(a.current_input, "CRAN");
    assert_eq!(a.message, PROMPT);
}

#[test]
fn backspace_on_empty_input_keeps_it_empty() {
    let mut a = app("THEME", false);
    assert!(!a.handle_input(Key::Backspace));
    assert_eq!(a.current_input, "");
}

#[test]
fn enter_before_five_letters_asks_for_more() {
    let mut a = app("THEME", false);
    type_word(&mut a, "cra");
    a.handle_input(Key::Enter);
    assert_eq!(a.message, "请输入完整的五字母单词");
    assert_eq!(a.attempt, 0);
}

#[test]
fn unknown_word_is_refused() {
    let mut a = app("THEME", false);
    type_word(&mut a, "zzzzz");
    a.handle_input(Key::Enter);
    assert_eq!(a.message, "单词不在词库中");
    assert_eq!(a.current_input, "ZZZZZ");
    assert_eq!(a.attempt, 0);
}

#[test]
fn guess_is_scored_and_recorded() {
    let mut a = app("THEME", false);
    type_word(&mut a, "eerie");
    a.handle_input(Key::Enter);
    assert_eq!(a.attempt, 1);
    assert_eq!(a.guesses, words(&["EERIE"]));
    assert_eq!(a.feedbacks, words(&["YRRRG"]));
    assert_eq!(a.keyboard[&('E' as u32)], Status::Green);
    assert_eq!(a.current_input, "");
    assert_eq!(a.message, PROMPT);
}

#[test]
fn winning_guess_finishes_the_game() {
    let mut a = app("THEME", false);
    type_word(&mut a, "crane");
    a.handle_input(Key::Enter);
    type_word(&mut a, "theme");
    a.handle_input(Key::Enter);
    assert!(a.won && a.finished);
    assert_eq!(a.attempt, 2);
    assert_eq!(a.message, "🎉 恭喜！你在第 2 次猜中了！按 ESC 退出");
    assert!(!a.handle_input(Key::Char('a')));
    assert_eq!(a.current_input, "");
    assert!(a.handle_input(Key::Esc));
}

#[test]
fn six_misses_lose_the_game() {
    let mut a = app("THEME", false);
    for w in ["crane", "slate", "about", "plumb", "bumpy", "crane"] {
        type_word(&mut a, w);
        a.handle_input(Key::Enter);
    }
    assert!(!a.won && a.finished);
    assert_eq!(a.attempt, 6);
    assert_eq!(a.message, "游戏结束！答案是 THEME。按 ESC 退出");
    assert!(!a.handle_input(Key::Enter));
}

#[test]
fn hard_mode_refuses_guess_ignoring_greens() {
    let mut a = app("THEME", true);
    type_word(&mut a, "eerie");
    a.handle_input(Key::Enter);
    assert_eq!(a.known_positions, [None, None, None, None, Some('E')]);
    type_word(&mut a, "about");
    a.handle_input(Key::Enter);
    assert_eq!(a.message, "困难模式：必须使用已知信息");
    assert_eq!(a.attempt, 1);
}

#[test]
fn escape_leaves_and_other_keys_do_nothing() {
    let mut a = app("THEME", false);
    assert!(!a.handle_input(Key::Other));
    assert_eq!(a.message, PROMPT);
    assert!(a.handle_input(Key::Esc));
}
