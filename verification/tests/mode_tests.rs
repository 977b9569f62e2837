use wordle::args::{merge_config, Args, ConfigFile};
use wordle::random::{init_random_mode, next_random_answer, random_mode_from_order, AllWordsPlayed};
use wordle::session::{
    check_mode_conflict, check_word_conflicts, is_playable_word, is_subset, keyboard_line,
    normalize_word, wants_another_round, ArgsError,
};
use wordle::game_logic::{new_keyboard, update_keyboard};

fn words(ws: &[&str]) -> Vec<String> {
    ws.iter().map(|w| w.to_string()).collect()
}

fn blank_args() -> Args {
    Args {
        word: None,
        random: false,
        difficult: false,
        stats: false,
        day: None,
        seed: None,
        final_set: None,
        acceptable_set: None,
        state: None,
        config: None,
        tui: false,
    }
}

fn blank_config() -> ConfigFile {
    ConfigFile {
        random: None,
        difficult: None,
        stats: None,
        day: None,
        seed: None,
        final_set: None,
        acceptable_set: None,
        state: None,
        word: None,
        tui: None,
    }
}

#[test]
fn config_fills_only_unset_options() {
    let mut args = blank_args();
    args.day = Some(3);
    args.word = Some("crane".to_string());
    let mut config = blank_config();
    config.random = Some(true);
    config.day = Some(9);
    config.seed = Some(42);
    config.word = Some("slate".to_string());
    config.state = Some("state.json".to_string());
    config.stats = Some(false);
    merge_config(&mut args, &config);
    assert!(args.random);
    assert!(!args.stats);
    assert_eq!(args.day, Some(3));
    assert_eq!(args.seed, Some(42));
    assert_eq!(args.word, Some("crane".to_string()));
    assert_eq!(args.state, Some("state.json".to_string()));
}

#[test]
fn config_cannot_switch_off_a_flag() {
    let mut args = blank_args();
    args.difficult = true;
    args.tui = true;
    let mut config = blank_config();
    config.difficult = Some(false);
    config.tui = Some(false);
    merge_config(&mut args, &config);
    assert!(args.difficult);
    assert!(args.tui);
}

#[test]
fn conflicting_options_are_refused() {
    let mut args = blank_args();
    args.tui = true;
    args.random = true;
    assert_eq!(check_mode_conflict(&args), Err(ArgsError::TuiWithRandom));
    args.word = Some("CRANE".to_string());
    assert_eq!(check_word_conflicts(&args), Err(ArgsError::RandomWithWord));
    args.random = false;
    args.seed = Some(1);
    assert_eq!(check_word_conflicts(&args), Err(ArgsError::DaySeedWithWord));
    assert_eq!(check_mode_conflict(&args), Ok(()));
    args.seed = None;
    assert_eq!(check_word_conflicts(&args), Ok(()));
}

#[test]
fn subset_check() {
    assert!(is_subset(&words(&["CRANE"]), &words(&["SLATE", "CRANE"])));
    assert!(!is_subset(&words(&["CRANE", "THEME"]), &words(&["SLATE", "CRANE"])));
    assert!(is_subset(&Vec::new(), &Vec::new()));
}

#[test]
fn words_are_normalized_and_checked() {
    assert_eq!(normalize_word("  crane \n"), "CRANE");
    let list = words(&["CRANE"]);
    assert!(is_playable_word(&"CRANE".to_string(), &list));
    assert!(!is_playable_word(&"SLATE".to_string(), &list));
    assert!(!is_playable_word(&"CRAN".to_string(), &words(&["CRAN"])));
}

#[test]
fn another_round_only_on_yes() {
    assert!(wants_another_round(" y\n"));
    assert!(wants_another_round("Y"));
    assert!(!wants_another_round("yes"));
    assert!(!wants_another_round(""));
}

#[test]
fn keyboard_line_lists_letters_a_to_z() {
    let mut kb = new_keyboard();
    assert_eq!(keyboard_line(&kb), "XXXXXXXXXXXXXXXXXXXXXXXXXX");
    update_keyboard("CRANE", "GRYRR", &mut kb);
    assert_eq!(keyboard_line(&kb), "YXGXRXXXXXXXXRXXXRXXXXXXXX");
}

#[test]
fn random_mode_skips_to_the_day() {
    let finals = words(&["CRANE", "SLATE", "THEME"]);
    let order = words(&["THEME", "CRANE", "SLATE"]);
    let mut st = random_mode_from_order(&finals, &Vec::new(), order, 7, 2).unwrap();
    assert_eq!(st.seed, 7);
    assert_eq!(st.initial_day, 2);
    assert_eq!(next_random_answer(&mut st), Some(("CRANE".to_string(), 2)));
    assert_eq!(next_random_answer(&mut st), Some(("SLATE".to_string(), 3)));
    assert_eq!(next_random_answer(&mut st), None);
}

#[test]
fn random_mode_refuses_when_all_played_or_day_too_far() {
    let finals = words(&["CRANE", "SLATE"]);
    let played = words(&["SLATE", "CRANE"]);
    assert_eq!(
        random_mode_from_order(&finals, &played, finals.clone(), 0, 1).err(),
        Some(AllWordsPlayed)
    );
    assert_eq!(
        random_mode_from_order(&finals, &Vec::new(), finals.clone(), 0, 4).err(),
        Some(AllWordsPlayed)
    );
    assert!(random_mode_from_order(&finals, &Vec::new(), finals.clone(), 0, 3).is_ok());
}

#[test]
fn seeded_shuffle_is_a_reordering_and_repeatable() {
    let finals = words(&["CRANE", "SLATE", "THEME", "ABOUT", "PLUMB"]);
    let a = init_random_mode(&finals, &Vec::new(), 42, 1).unwrap();
    let b = init_random_mode(&finals, &Vec::new(), 42, 1).unwrap();
    let mut got: Vec<String> = a.shuffled_words.iter().cloned().collect();
    assert_eq!(got, b.shuffled_words.iter().cloned().collect::<Vec<String>>());
    got.sort();
    let mut expected = finals.clone();
    expected.sort();
    assert_eq!(got, expected);
    let c = init_random_mode(&finals, &Vec::new(), 42, 3).unwrap();
    assert_eq!(c.shuffled_words.len(), 3);
    assert_eq!(c.shuffled_words[0], a.shuffled_words[2]);
}

#[test]
fn seeded_shuffle_moves_words() {
    let finals = words(&["CRANE", "SLATE", "THEME", "ABOUT", "PLUMB"]);
    let moved = (0..10u64).any(|seed| {
        let st = init_random_mode(&finals, &Vec::new(), seed, 1).unwrap();
        st.shuffled_words.iter().cloned().collect::<Vec<String>>() != finals
    });
    assert!(moved);
}

#[test]
fn answers_are_accepted_or_refused() {
    let finals = words(&["CRANE", "THEME"]);
    assert_eq!(wordle::session::accept_fixed_answer(" crane ", &finals), Some("CRANE".to_string()));
    assert_eq!(wordle::session::accept_fixed_answer("slate", &finals), None);
    assert_eq!(
        wordle::session::accept_typed_answer("slate\n", &finals, false),
        Ok("SLATE".to_string())
    );
    assert_eq!(
        wordle::session::accept_typed_answer("slate", &finals, true),
        Err(wordle::session::AnswerError::NotListed)
    );
    assert_eq!(
        wordle::session::accept_typed_answer("cran", &finals, false),
        Err(wordle::session::AnswerError::WrongLength)
    );
    assert!(wordle::session::skips_answer(true, &words(&["CRANE"]), &"CRANE".to_string()));
    assert!(!wordle::session::skips_answer(false, &words(&["CRANE"]), &"CRANE".to_string()));
}

#[test]
fn hard_mode_scan_stops_at_first_mismatch() {
    let known = [Some('X'), None, Some('Y'), None, None];
    let min_counts = std::collections::HashMap::new();
    assert!(!wordle::game_logic::is_valid_hard_mode("AB", &known, &min_counts));
}
