use wordle::game_state::{format_top_words, stats_from_records, GameRecord, GameState, GameStats};

fn words(ws: &[&str]) -> Vec<String> {
    ws.iter().map(|w| w.to_string()).collect()
}

#[test]
fn new_stats_are_empty() {
    let s = GameStats::new();
    assert_eq!((s.total_games(), s.wins(), s.losses(), s.total_attempts()), (0, 0, 0, 0));
    assert!(s.top_words(5).is_empty());
}

#[test]
fn add_game_counts_wins_losses_and_attempts() {
    let mut s = GameStats::new();
    s.add_game(true, 3, &words(&["CRANE", "SLATE", "THEME"]));
    s.add_game(false, 6, &words(&["CRANE"]));
    s.add_game(true, 2, &words(&["CRANE", "PLUMB"]));
    assert_eq!(s.total_games(), 3);
    assert_eq!(s.wins(), 2);
    assert_eq!(s.losses(), 1);
    assert_eq!(s.total_attempts(), 5);
}

#[test]
fn top_words_orders_by_count_then_word() {
    let mut s = GameStats::new();
    s.add_game(true, 3, &words(&["SLATE", "CRANE", "THEME"]));
    s.add_game(false, 2, &words(&["CRANE", "ABOUT", "SLATE"]));
    s.add_game(true, 1, &words(&["CRANE"]));
    let top = s.top_words(3);
    assert_eq!(
        top,
        vec![("CRANE".to_string(), 3), ("SLATE".to_string(), 2), ("ABOUT".to_string(), 1)]
    );
    assert_eq!(s.top_words(10).len(), 4);
    assert!(s.top_words(0).is_empty());
}

#[test]
fn top_words_counts_repeats_within_one_game() {
    let mut s = GameStats::new();
    s.add_game(false, 2, &words(&["HELLO", "HELLO"]));
    assert_eq!(s.top_words(5), vec![("HELLO".to_string(), 2)]);
}

#[test]
fn format_top_words_joins_entries_with_spaces() {
    let entries = vec![("CRANE".to_string(), 12), ("SLATE".to_string(), 3)];
    assert_eq!(format_top_words(&entries), "CRANE 12 SLATE 3");
    assert_eq!(format_top_words(&Vec::new()), "");
}

#[test]
fn stats_from_records_judges_wins_by_last_guess() {
    let records = vec![
        GameRecord { answer: "THEME".to_string(), guesses: words(&["CRANE", "THEME"]) },
        GameRecord { answer: "PLUMB".to_string(), guesses: words(&["CRANE", "SLATE"]) },
        GameRecord { answer: "ABOUT".to_string(), guesses: Vec::new() },
    ];
    let s = stats_from_records(&records);
    assert_eq!(s.total_games(), 3);
    assert_eq!(s.wins(), 1);
    assert_eq!(s.losses(), 2);
    assert_eq!(s.total_attempts(), 2);
    assert_eq!(s.top_words(2), vec![("CRANE".to_string(), 2), ("SLATE".to_string(), 1)]);
}

#[test]
fn default_state_and_record_are_empty() {
    let st = GameState::default();
    assert_eq!(st.total_rounds, 0);
    assert!(st.games.is_empty());
    let r = GameRecord::default();
    assert!(r.answer.is_empty() && r.guesses.is_empty());
}
