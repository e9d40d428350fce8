use ttt_registry::{parse_frame, Frame, GameError, Label};

#[test]
fn play_frame_parses_label_and_index() {
    let r = parse_frame(b"PLAY:X:4");
    assert_eq!(r, Ok(Frame::Play { label: Label::X, index: 4 }));
    let r = parse_frame(b"PLAY:O:0");
    assert_eq!(r, Ok(Frame::Play { label: Label::O, index: 0 }));
    let r = parse_frame(b"PLAY:O:8");
    assert_eq!(r, Ok(Frame::Play { label: Label::O, index: 8 }));
}

#[test]
fn play_frame_with_extra_tokens_keeps_first_three() {
    let r = parse_frame(b"PLAY:X:3:junk");
    assert_eq!(r, Ok(Frame::Play { label: Label::X, index: 3 }));
}

#[test]
fn play_index_with_leading_zero_parses() {
    let r = parse_frame(b"PLAY:X:08");
    assert_eq!(r, Ok(Frame::Play { label: Label::X, index: 8 }));
}

#[test]
fn play_frame_with_too_few_tokens_is_malformed() {
    assert_eq!(parse_frame(b"PLAY"), Err(GameError::MalformedFrame));
    assert_eq!(parse_frame(b"PLAY:X"), Err(GameError::MalformedFrame));
}

#[test]
fn play_frame_with_bad_label_is_malformed() {
    assert_eq!(parse_frame(b"PLAY:Z:4"), Err(GameError::MalformedFrame));
    assert_eq!(parse_frame(b"PLAY::4"), Err(GameError::MalformedFrame));
    assert_eq!(parse_frame(b"PLAY:XO:4"), Err(GameError::MalformedFrame));
}

#[test]
fn play_frame_with_non_numeric_index_is_malformed() {
    assert_eq!(parse_frame(b"PLAY:X:a"), Err(GameError::MalformedFrame));
    assert_eq!(parse_frame(b"PLAY:X:"), Err(GameError::MalformedFrame));
    assert_eq!(parse_frame(b"PLAY:X:4a"), Err(GameError::MalformedFrame));
}

#[test]
fn play_frame_with_out_of_range_index_is_malformed() {
    assert_eq!(parse_frame(b"PLAY:X:9"), Err(GameError::MalformedFrame));
    assert_eq!(parse_frame(b"PLAY:X:10"), Err(GameError::MalformedFrame));
    assert_eq!(parse_frame(b"PLAY:X:99999999999999999999"), Err(GameError::MalformedFrame));
}

#[test]
fn reset_frame_parses() {
    assert_eq!(parse_frame(b"RESET"), Ok(Frame::Reset));
    assert_eq!(parse_frame(b"RESET:extra"), Ok(Frame::Reset));
}

#[test]
fn leave_frame_parses() {
    assert_eq!(parse_frame(b"LEAVE"), Ok(Frame::Leave));
}

#[test]
fn unknown_commands_are_ignored_not_errors() {
    assert_eq!(parse_frame(b""), Ok(Frame::Unknown));
    assert_eq!(parse_frame(b"HELLO"), Ok(Frame::Unknown));
    assert_eq!(parse_frame(b"play:X:4"), Ok(Frame::Unknown));
    assert_eq!(parse_frame(b"RESETX"), Ok(Frame::Unknown));
    assert_eq!(parse_frame(b":PLAY:X:4"), Ok(Frame::Unknown));
}
