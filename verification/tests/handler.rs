use ttt_registry::{
    handle_frame, resolve_identity, Action, Cell, EventKind, Label, PlayerId, State,
};

fn pid(s: &str) -> PlayerId {
    PlayerId::new(String::from(s))
}

#[test]
fn play_frame_broadcasts_state() {
    let mut s = State::new();
    s.add_player_to_board("b", pid("p1")).unwrap();
    let action = handle_frame(&mut s, "b", &pid("p1"), b"PLAY:X:4");
    match action {
        Action::Broadcast { event, play_book, close } => {
            assert_eq!(event, EventKind::State);
            assert_eq!(play_book[4], Cell::X);
            assert!(!close);
        }
        _ => panic!("expected a broadcast"),
    }
}

#[test]
fn reset_frame_broadcasts_reset() {
    let mut s = State::new();
    s.add_player_to_board("b", pid("p1")).unwrap();
    s.make_play_in_board("b", Label::X, 1).unwrap();
    let action = handle_frame(&mut s, "b", &pid("p1"), b"RESET");
    match action {
        Action::Broadcast { event, play_book, close } => {
            assert_eq!(event, EventKind::Reset);
            assert!(play_book.iter().all(|c| *c == Cell::Empty));
            assert!(!close);
        }
        _ => panic!("expected a broadcast"),
    }
}

#[test]
fn leave_frame_broadcasts_leave_and_closes() {
    let mut s = State::new();
    s.add_player_to_board("b", pid("p1")).unwrap();
    s.add_player_to_board("b", pid("p2")).unwrap();
    let action = handle_frame(&mut s, "b", &pid("p1"), b"LEAVE");
    match action {
        Action::Broadcast { event, close, .. } => {
            assert_eq!(event, EventKind::Leave);
            assert!(close);
        }
        _ => panic!("expected a broadcast"),
    }
    assert_eq!(s.delivery_targets("b").len(), 1);
}

#[test]
fn unknown_frame_is_ignored() {
    let mut s = State::new();
    s.add_player_to_board("b", pid("p1")).unwrap();
    let action = handle_frame(&mut s, "b", &pid("p1"), b"WHAT");
    assert!(matches!(action, Action::Ignore));
    assert_eq!(s.delivery_targets("b").len(), 1);
}

#[test]
fn malformed_frame_is_fatal_to_the_connection() {
    let mut s = State::new();
    s.add_player_to_board("b", pid("p1")).unwrap();
    let action = handle_frame(&mut s, "b", &pid("p1"), b"PLAY:X:nine");
    assert!(matches!(action, Action::Fatal));
    // The board itself is untouched.
    assert_eq!(s.delivery_targets("b").len(), 1);
}

#[test]
fn frame_for_unknown_board_is_fatal() {
    let mut s = State::new();
    let action = handle_frame(&mut s, "nowhere", &pid("p1"), b"PLAY:X:4");
    assert!(matches!(action, Action::Fatal));
}

#[test]
fn resolve_identity_prefers_the_supplied_token() {
    let p = resolve_identity(Some(String::from("returning")), String::from("minted"));
    assert_eq!(p.as_string().as_str(), "returning");
}

#[test]
fn resolve_identity_falls_back_to_the_minted_name() {
    let p = resolve_identity(None, String::from("brave.otter"));
    assert_eq!(p.as_string().as_str(), "brave.otter");
}

#[test]
fn event_kinds_serialize_to_wire_commands() {
    assert_eq!(EventKind::Init.as_str(), "INIT");
    assert_eq!(EventKind::State.as_str(), "STATE");
    assert_eq!(EventKind::Reset.as_str(), "RESET");
    assert_eq!(EventKind::Leave.as_str(), "LEAVE");
    assert_eq!(EventKind::Complete.as_str(), "COMPLETE");
}

#[test]
fn cells_and_labels_serialize_to_wire_text() {
    assert_eq!(Cell::Empty.as_str(), "");
    assert_eq!(Cell::X.as_str(), "X");
    assert_eq!(Cell::O.as_str(), "O");
    assert_eq!(Label::X.as_str(), "X");
    assert_eq!(Label::O.as_str(), "O");
    assert_eq!(Label::X.cell(), Cell::X);
    assert_eq!(Label::O.cell(), Cell::O);
}
