use ttt_registry::{Cell, GameError, Label, PlayerId, State};

fn pid(s: &str) -> PlayerId {
    PlayerId::new(String::from(s))
}

fn empty_cells() -> Vec<Cell> {
    vec![Cell::Empty; 9]
}

#[test]
fn first_join_creates_board_and_seats_x() {
    let mut s = State::new();
    let (label, cells) = s.add_player_to_board("alpha-beta", pid("p1")).unwrap();
    assert_eq!(label, Label::X);
    assert_eq!(cells, empty_cells());
}

#[test]
fn second_join_seats_o() {
    let mut s = State::new();
    s.add_player_to_board("b", pid("p1")).unwrap();
    let (label, cells) = s.add_player_to_board("b", pid("p2")).unwrap();
    assert_eq!(label, Label::O);
    assert_eq!(cells, empty_cells());
}

#[test]
fn seat_count_never_exceeds_two() {
    let mut s = State::new();
    for name in ["p1", "p2", "p3", "p4", "p1", "p2"] {
        let _ = s.add_player_to_board("b", pid(name));
    }
    assert_eq!(s.delivery_targets("b").len(), 2);
}

#[test]
fn labels_of_seated_players_are_distinct() {
    let mut s = State::new();
    s.add_player_to_board("b", pid("p1")).unwrap();
    s.add_player_to_board("b", pid("p2")).unwrap();
    let targets = s.delivery_targets("b");
    assert_eq!(targets.len(), 2);
    assert_eq!(targets[0].label, Label::X);
    assert_eq!(targets[1].label, Label::O);
}

#[test]
fn rejoin_is_idempotent() {
    let mut s = State::new();
    let (first, _) = s.add_player_to_board("b", pid("p1")).unwrap();
    let (again, _) = s.add_player_to_board("b", pid("p1")).unwrap();
    assert_eq!(first, again);
    assert_eq!(s.delivery_targets("b").len(), 1);
}

#[test]
fn rejoin_keeps_existing_label_for_second_player() {
    let mut s = State::new();
    s.add_player_to_board("b", pid("p1")).unwrap();
    s.add_player_to_board("b", pid("p2")).unwrap();
    let (again, _) = s.add_player_to_board("b", pid("p2")).unwrap();
    assert_eq!(again, Label::O);
    assert_eq!(s.delivery_targets("b").len(), 2);
}

#[test]
fn third_identity_is_rejected_with_board_full() {
    let mut s = State::new();
    s.add_player_to_board("b", pid("p1")).unwrap();
    s.add_player_to_board("b", pid("p2")).unwrap();
    let err = s.add_player_to_board("b", pid("p3")).unwrap_err();
    assert_eq!(err, GameError::BoardFull);
    assert_eq!(s.delivery_targets("b").len(), 2);
}

#[test]
fn move_writes_label_and_is_visible_to_later_moves() {
    let mut s = State::new();
    s.add_player_to_board("b", pid("p1")).unwrap();
    s.add_player_to_board("b", pid("p2")).unwrap();
    let cells = s.make_play_in_board("b", Label::X, 4).unwrap();
    assert_eq!(cells[4], Cell::X);
    let cells = s.make_play_in_board("b", Label::O, 0).unwrap();
    assert_eq!(cells[0], Cell::O);
    assert_eq!(cells[4], Cell::X);
    for i in [1, 2, 3, 5, 6, 7, 8] {
        assert_eq!(cells[i], Cell::Empty);
    }
}

#[test]
fn move_overwrites_without_occupancy_check() {
    let mut s = State::new();
    s.add_player_to_board("b", pid("p1")).unwrap();
    s.make_play_in_board("b", Label::X, 0).unwrap();
    let cells = s.make_play_in_board("b", Label::O, 0).unwrap();
    assert_eq!(cells[0], Cell::O);
}

#[test]
fn move_on_unknown_board_reports_unknown_board() {
    let mut s = State::new();
    let err = s.make_play_in_board("nowhere", Label::X, 0).unwrap_err();
    assert_eq!(err, GameError::UnknownBoard);
}

#[test]
fn reset_clears_cells_and_keeps_players() {
    let mut s = State::new();
    s.add_player_to_board("b", pid("p1")).unwrap();
    s.add_player_to_board("b", pid("p2")).unwrap();
    s.make_play_in_board("b", Label::X, 3).unwrap();
    let cells = s.reset_board("b").unwrap();
    assert_eq!(cells, empty_cells());
    assert_eq!(s.delivery_targets("b").len(), 2);
}

#[test]
fn reset_twice_is_idempotent() {
    let mut s = State::new();
    s.add_player_to_board("b", pid("p1")).unwrap();
    s.make_play_in_board("b", Label::X, 8).unwrap();
    let first = s.reset_board("b").unwrap();
    let second = s.reset_board("b").unwrap();
    assert_eq!(first, empty_cells());
    assert_eq!(second, empty_cells());
    assert_eq!(s.delivery_targets("b").len(), 1);
}

#[test]
fn reset_on_unknown_board_reports_unknown_board() {
    let mut s = State::new();
    assert_eq!(s.reset_board("nowhere").unwrap_err(), GameError::UnknownBoard);
}

#[test]
fn leave_removes_exactly_the_leaver() {
    let mut s = State::new();
    s.add_player_to_board("b", pid("p1")).unwrap();
    s.add_player_to_board("b", pid("p2")).unwrap();
    let cells = s.leave_board("b", &pid("p1")).unwrap();
    assert_eq!(cells, empty_cells());
    let targets = s.delivery_targets("b");
    assert_eq!(targets.len(), 1);
    assert_eq!(targets[0].id.as_string().as_str(), "p2");
    assert_eq!(targets[0].label, Label::O);
}

#[test]
fn leave_of_unseated_identity_is_a_no_op() {
    let mut s = State::new();
    s.add_player_to_board("b", pid("p1")).unwrap();
    s.leave_board("b", &pid("stranger")).unwrap();
    assert_eq!(s.delivery_targets("b").len(), 1);
}

#[test]
fn leave_keeps_cells() {
    let mut s = State::new();
    s.add_player_to_board("b", pid("p1")).unwrap();
    s.make_play_in_board("b", Label::X, 2).unwrap();
    let cells = s.leave_board("b", &pid("p1")).unwrap();
    assert_eq!(cells[2], Cell::X);
}

#[test]
fn leave_on_unknown_board_reports_unknown_board() {
    let mut s = State::new();
    let err = s.leave_board("nowhere", &pid("p1")).unwrap_err();
    assert_eq!(err, GameError::UnknownBoard);
}

#[test]
fn empty_board_persists_after_last_leave() {
    let mut s = State::new();
    s.add_player_to_board("b", pid("p1")).unwrap();
    s.leave_board("b", &pid("p1")).unwrap();
    // The board is still registered: a move on it succeeds.
    let cells = s.make_play_in_board("b", Label::X, 0).unwrap();
    assert_eq!(cells[0], Cell::X);
}

#[test]
fn join_after_leave_takes_the_freed_x_seat() {
    let mut s = State::new();
    s.add_player_to_board("b", pid("p1")).unwrap();
    s.add_player_to_board("b", pid("p2")).unwrap();
    s.leave_board("b", &pid("p1")).unwrap();
    let (label, _) = s.add_player_to_board("b", pid("p3")).unwrap();
    assert_eq!(label, Label::X);
}

#[test]
fn join_into_empty_board_seats_x() {
    let mut s = State::new();
    s.add_player_to_board("b", pid("p1")).unwrap();
    s.leave_board("b", &pid("p1")).unwrap();
    let (label, _) = s.add_player_to_board("b", pid("p2")).unwrap();
    assert_eq!(label, Label::X);
}

#[test]
fn find_waiting_board_names_a_half_full_board() {
    let mut s = State::new();
    assert_eq!(s.find_waiting_board(), None);
    s.add_player_to_board("full", pid("p1")).unwrap();
    s.add_player_to_board("full", pid("p2")).unwrap();
    assert_eq!(s.find_waiting_board(), None);
    s.add_player_to_board("open", pid("p3")).unwrap();
    assert_eq!(s.find_waiting_board(), Some(String::from("open")));
}

#[test]
fn delivery_targets_of_unknown_board_are_empty() {
    let s = State::new();
    assert!(s.delivery_targets("nowhere").is_empty());
}

#[test]
fn delivery_targets_come_in_seat_order() {
    let mut s = State::new();
    s.add_player_to_board("b", pid("p1")).unwrap();
    s.add_player_to_board("b", pid("p2")).unwrap();
    let targets = s.delivery_targets("b");
    assert_eq!(targets[0].id.as_string().as_str(), "p1");
    assert_eq!(targets[1].id.as_string().as_str(), "p2");
}

#[test]
fn boards_are_independent() {
    let mut s = State::new();
    s.add_player_to_board("a", pid("p1")).unwrap();
    s.add_player_to_board("b", pid("p2")).unwrap();
    s.make_play_in_board("a", Label::X, 0).unwrap();
    let cells = s.make_play_in_board("b", Label::X, 8).unwrap();
    assert_eq!(cells[0], Cell::Empty);
    assert_eq!(s.delivery_targets("a").len(), 1);
    assert_eq!(s.delivery_targets("b").len(), 1);
}

#[test]
fn full_scenario_on_one_board() {
    let mut s = State::new();
    // Board "alpha-beta" unknown: first join creates it and seats "X".
    let (l1, c1) = s.add_player_to_board("alpha-beta", pid("p1")).unwrap();
    assert_eq!(l1, Label::X);
    assert_eq!(c1, empty_cells());
    // Second identity gets "O" and the same empty cells.
    let (l2, c2) = s.add_player_to_board("alpha-beta", pid("p2")).unwrap();
    assert_eq!(l2, Label::O);
    assert_eq!(c2, empty_cells());
    // p1 plays X at 0.
    let c3 = s.make_play_in_board("alpha-beta", l1, 0).unwrap();
    assert_eq!(c3[0], Cell::X);
    // p2 plays O at 4; both moves visible.
    let c4 = s.make_play_in_board("alpha-beta", l2, 4).unwrap();
    let expected = vec![
        Cell::X,
        Cell::Empty,
        Cell::Empty,
        Cell::Empty,
        Cell::O,
        Cell::Empty,
        Cell::Empty,
        Cell::Empty,
        Cell::Empty,
    ];
    assert_eq!(c4, expected);
    // Reset clears everything.
    let c5 = s.reset_board("alpha-beta").unwrap();
    assert_eq!(c5, empty_cells());
    // p1 leaves; one seat remains.
    s.leave_board("alpha-beta", &pid("p1")).unwrap();
    assert_eq!(s.delivery_targets("alpha-beta").len(), 1);
    // A third identity now takes the freed "X" seat.
    let (l3, _) = s.add_player_to_board("alpha-beta", pid("p3")).unwrap();
    assert_eq!(l3, Label::X);
}
