use wordle::word_sets::{load_builtin_word_sets, parse_word_set, validate_word_list, WordSetError};

#[test]
fn parse_trims_uppercases_and_sorts() {
    let r = parse_word_set("  slate \ncrane\r\nABOUT\n").unwrap();
    assert_eq!(r, vec!["ABOUT".to_string(), "CRANE".to_string(), "SLATE".to_string()]);
}

#[test]
fn parse_empty_content_gives_no_words() {
    assert_eq!(parse_word_set("").unwrap(), Vec::<String>::new());
}

#[test]
fn parse_refuses_wrong_length_first() {
    assert_eq!(
        parse_word_set("crane\nfour\nab1de\n"),
        Err(WordSetError::WrongLength("FOUR".to_string()))
    );
}

#[test]
fn parse_refuses_blank_line() {
    assert_eq!(parse_word_set("crane\n\nslate"), Err(WordSetError::WrongLength(String::new())));
}

#[test]
fn parse_refuses_non_letters() {
    assert_eq!(
        parse_word_set("crane\nab1de\nfour"),
        Err(WordSetError::NotAlphabetic("AB1DE".to_string()))
    );
}

#[test]
fn parse_counts_length_in_bytes() {
    assert_eq!(
        parse_word_set("ÉCLAT"),
        Err(WordSetError::WrongLength("ÉCLAT".to_string()))
    );
}

#[test]
fn parse_refuses_duplicates_after_uppercasing() {
    assert_eq!(parse_word_set("crane\nslate\nCRANE"), Err(WordSetError::Duplicate));
}

#[test]
fn builtin_sets_are_uppercased() {
    let (f, a) = load_builtin_word_sets(&["crane", "Slate"], &["about"]);
    assert_eq!(f, vec!["CRANE".to_string(), "SLATE".to_string()]);
    assert_eq!(a, vec!["ABOUT".to_string()]);
}

#[test]
fn validate_checks_words_as_given() {
    let ws = |v: &[&str]| v.iter().map(|w| w.to_string()).collect::<Vec<String>>();
    assert_eq!(validate_word_list(ws(&["SLATE", "CRANE"])).unwrap(), ws(&["CRANE", "SLATE"]));
    assert_eq!(validate_word_list(ws(&["crane"])).unwrap(), ws(&["crane"]));
    assert_eq!(
        validate_word_list(ws(&["CRANE", "AB-DE"])),
        Err(WordSetError::NotAlphabetic("AB-DE".to_string()))
    );
    assert_eq!(
        validate_word_list(ws(&["TOOLONG", "AB-DE"])),
        Err(WordSetError::WrongLength("TOOLONG".to_string()))
    );
    assert_eq!(validate_word_list(ws(&["CRANE", "CRANE"])), Err(WordSetError::Duplicate));
}
