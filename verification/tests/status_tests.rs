use wordle::status::Status;

#[test]
fn status_characters() {
    assert_eq!(Status::Green.to_char(), 'G');
    assert_eq!(Status::Yellow.to_char(), 'Y');
    assert_eq!(Status::Red.to_char(), 'R');
    assert_eq!(Status::Unknown.to_char(), 'X');
}

#[test]
fn status_priorities_order_statuses() {
    assert_eq!(Status::Green.priority(), 3);
    assert_eq!(Status::Yellow.priority(), 2);
    assert_eq!(Status::Red.priority(), 1);
    assert_eq!(Status::Unknown.priority(), 0);
}

#[test]
fn feedback_characters_map_to_statuses() {
    assert_eq!(Status::from_feedback('G'), Status::Green);
    assert_eq!(Status::from_feedback('Y'), Status::Yellow);
    assert_eq!(Status::from_feedback('R'), Status::Red);
    assert_eq!(Status::from_feedback('g'), Status::Unknown);
}

#[test]
fn status_character_round_trip() {
    for s in [Status::Green, Status::Yellow, Status::Red, Status::Unknown] {
        assert_eq!(Status::from_feedback(s.to_char()), s);
    }
}
