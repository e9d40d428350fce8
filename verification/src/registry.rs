//! The session registry: the shared store of all boards and the five
//! operations on it.
//!
//! Every operation is specified against a mathematical transition function
//! over [`BoardModel`] sequences, so that laws about sequences of operations
//! can be stated and proved once, at the model level.
//!
//! The registry never deletes a board: one created on first join persists,
//! even with zero seated players.  A lookup miss on move, reset or leave is
//! reported as [`GameError::UnknownBoard`] rather than treated as fatal.

use vstd::prelude::*;
use crate::board::{empty_cells, empty_play_book, Board, BoardModel, BOARD_CELLS};
use crate::game::{Cell, GameError, Label};
use crate::player::{models_of, Player, PlayerId, PlayerModel};

verus! {

/// The models of a sequence of boards, in registry order.
pub open spec fn models_of_boards(boards: Seq<Board>) -> Seq<BoardModel> {
    boards.map_values(|b: Board| b@)
}

/// Every board well formed, and no two boards sharing an identifier.
pub open spec fn wf_boards(boards: Seq<BoardModel>) -> bool {
    &&& forall|i: int, j: int| 0 <= i < j < boards.len() ==> boards[i].id != boards[j].id
    &&& forall|i: int| 0 <= i < boards.len() ==> boards[i].wf()
}

/// Whether the registry holds a board under this identifier.
pub open spec fn has_board(boards: Seq<BoardModel>, id: Seq<char>) -> bool {
    exists|i: int| 0 <= i < boards.len() && boards[i].id == id
}

/// The position of the board held under this identifier.
pub open spec fn board_idx(boards: Seq<BoardModel>, id: Seq<char>) -> int {
    choose|i: int| 0 <= i < boards.len() && boards[i].id == id
}

/// The board a fresh join creates: empty cells, the candidate seated as "X".
pub open spec fn fresh_board(id: Seq<char>, pid: Seq<char>) -> BoardModel {
    BoardModel {
        id: id,
        cells: empty_cells(),
        players: seq![PlayerModel { id: pid, label: Label::X }],
    }
}

/// What `join` does: the boards afterwards, and what the caller is told.
///
/// An unknown identifier creates a fresh board with the candidate as "X".  An
/// identity already seated is a reconnect: the board is untouched and the
/// existing label handed back.  Otherwise the candidate takes the free seat
/// under the label not yet taken, or is refused with `BoardFull` when two
/// distinct identities already sit.
pub open spec fn join_model(boards: Seq<BoardModel>, id: Seq<char>, pid: Seq<char>) -> (
    Seq<BoardModel>,
    Result<(Label, Seq<Cell>), GameError>,
) {
    if !has_board(boards, id) {
        (boards.push(fresh_board(id, pid)), Ok((Label::X, empty_cells())))
    } else {
        let k = board_idx(boards, id);
        let b = boards[k];
        if b.seated(pid) {
            (boards, Ok((b.seated_label(pid), b.cells)))
        } else if b.players.len() < 2 {
            let label = b.free_label();
            let b2 = BoardModel {
                id: b.id,
                cells: b.cells,
                players: b.players.push(PlayerModel { id: pid, label: label }),
            };
            (boards.update(k, b2), Ok((label, b.cells)))
        } else {
            (boards, Err(GameError::BoardFull))
        }
    }
}

/// What `move` does: writes the label into the cell, unconditionally (no turn
/// order, no occupancy check), and returns the updated cells.
pub open spec fn move_model(
    boards: Seq<BoardModel>,
    id: Seq<char>,
    label: Label,
    cell_index: int,
) -> (Seq<BoardModel>, Result<Seq<Cell>, GameError>) {
    if !has_board(boards, id) {
        (boards, Err(GameError::UnknownBoard))
    } else {
        let k = board_idx(boards, id);
        let b = boards[k];
        let cells2 = b.cells.update(cell_index, label.spec_cell());
        let b2 = BoardModel { id: b.id, cells: cells2, players: b.players };
        (boards.update(k, b2), Ok(cells2))
    }
}

/// What `reset` does: replaces the cells with the all-empty grid; seats are
/// untouched.
pub open spec fn reset_model(boards: Seq<BoardModel>, id: Seq<char>) -> (
    Seq<BoardModel>,
    Result<Seq<Cell>, GameError>,
) {
    if !has_board(boards, id) {
        (boards, Err(GameError::UnknownBoard))
    } else {
        let k = board_idx(boards, id);
        let b = boards[k];
        let b2 = BoardModel { id: b.id, cells: empty_cells(), players: b.players };
        (boards.update(k, b2), Ok(empty_cells()))
    }
}

/// The seats left after an identity gives up its seat: the one seat it held
/// is removed, every other seat is untouched.
pub open spec fn leave_players(b: BoardModel, pid: Seq<char>) -> Seq<PlayerModel> {
    if b.seated(pid) {
        b.players.remove(b.seat_of(pid))
    } else {
        b.players
    }
}

/// What `leave` does: vacates the seat of `pid` if it holds one (zero or one
/// seats removed); cells are unaffected and returned as they stand.
pub open spec fn leave_model(boards: Seq<BoardModel>, id: Seq<char>, pid: Seq<char>) -> (
    Seq<BoardModel>,
    Result<Seq<Cell>, GameError>,
) {
    if !has_board(boards, id) {
        (boards, Err(GameError::UnknownBoard))
    } else {
        let k = board_idx(boards, id);
        let b = boards[k];
        let b2 = BoardModel { id: b.id, cells: b.cells, players: leave_players(b, pid) };
        (boards.update(k, b2), Ok(b.cells))
    }
}

/// Who a broadcast on this board reaches: every seated player, in seat
/// order; nobody when the board is unknown (delivery is then a no-op).
pub open spec fn recipients_model(boards: Seq<BoardModel>, id: Seq<char>) -> Seq<PlayerModel> {
    if has_board(boards, id) {
        boards[board_idx(boards, id)].players
    } else {
        Seq::empty()
    }
}

/// The `join` result as a model value.
pub open spec fn join_result_model(r: Result<(Label, Vec<Cell>), GameError>) -> Result<
    (Label, Seq<Cell>),
    GameError,
> {
    match r {
        Ok(p) => Ok((p.0, p.1@)),
        Err(e) => Err(e),
    }
}

/// A returned cell vector as a model value.
pub open spec fn cells_result_model(r: Result<Vec<Cell>, GameError>) -> Result<
    Seq<Cell>,
    GameError,
> {
    match r {
        Ok(c) => Ok(c@),
        Err(e) => Err(e),
    }
}

/// With identifiers unique, the position of a board under a given identifier
/// is the one position where it stands.
pub proof fn lemma_board_idx_is(boards: Seq<BoardModel>, id: Seq<char>, k: int)
    requires
        wf_boards(boards),
        0 <= k < boards.len(),
        boards[k].id == id,
    ensures
        has_board(boards, id),
        board_idx(boards, id) == k,
{
    assert(has_board(boards, id));
    let m = board_idx(boards, id);
    assert(0 <= m < boards.len() && boards[m].id == id);
    if m < k {
        assert(boards[m].id != boards[k].id);
    } else if k < m {
        assert(boards[k].id != boards[m].id);
    }
}

/// With seat identities unique, the seat of an identity is the one seat
/// where it sits.
pub proof fn lemma_seat_of_is(b: BoardModel, pid: Seq<char>, j: int)
    requires
        b.wf(),
        0 <= j < b.players.len(),
        b.players[j].id == pid,
    ensures
        b.seated(pid),
        b.seat_of(pid) == j,
{
    assert(b.seated(pid));
    let m = b.seat_of(pid);
    assert(0 <= m < b.players.len() && b.players[m].id == pid);
    if m < j {
        assert(b.players[m].id != b.players[j].id);
    } else if j < m {
        assert(b.players[j].id != b.players[m].id);
    }
}

/// The shared session registry.  All mutation of any board goes through its
/// serialized operations; callers hold board identifiers, never boards.
#[derive(Debug)]
pub struct State {
    boards: Vec<Board>,
}

impl View for State {
    type V = Seq<BoardModel>;

    closed spec fn view(&self) -> Seq<BoardModel> {
        models_of_boards(self.boards@)
    }
}

/// The first board whose identifier equals `key`, if any.
fn find_index(boards: &Vec<Board>, key: &String) -> (r: Option<usize>)
    ensures
        match r {
            Some(k) => k < boards@.len() && models_of_boards(boards@)[k as int].id == key@,
            None => !has_board(models_of_boards(boards@), key@),
        },
{
    let ghost ms = models_of_boards(boards@);
    let mut i: usize = 0;
    while i < boards.len()
        invariant
            i <= boards@.len(),
            ms == models_of_boards(boards@),
            forall|j: int| 0 <= j < i ==> ms[j].id != key@,
        decreases boards@.len() - i,
    {
        if boards[i].id == *key {
            proof {
                assert(ms[i as int].id == key@);
            }
            return Some(i);
        }
        i += 1;
    }
    proof {
        assert(!has_board(ms, key@));
    }
    None
}

impl State {
    /// Invariant of every registry value, guaranteed at all times: every
    /// board is well formed (at most two seats, no identity or label seated
    /// twice, exactly 9 cells) and no identifier names two boards.
    #[verifier::type_invariant]
    pub open spec fn wf(self) -> bool {
        wf_boards(self@)
    }

    /// A registry with no boards.
    pub fn new() -> (r: State)
        ensures
            r@ == Seq::<BoardModel>::empty(),
            wf_boards(r@),
    {
        let boards: Vec<Board> = Vec::new();
        proof {
            assert(models_of_boards(boards@) =~= Seq::<BoardModel>::empty());
        }
        State { boards }
    }

    /// Admits `player_id` to the board named `board_id`, per [`join_model`]:
    /// the assigned label and the board's cells on success, `BoardFull` when
    /// a third distinct identity knocks on a full board.
    pub fn add_player_to_board(&mut self, board_id: &str, player_id: PlayerId) -> (r: Result<
        (Label, Vec<Cell>),
        GameError,
    >)
        ensures
            wf_boards(old(self)@),
            wf_boards(final(self)@),
            final(self)@ == join_model(old(self)@, board_id@, player_id@).0,
            join_result_model(r) == join_model(old(self)@, board_id@, player_id@).1,
    {
        proof {
            use_type_invariant(&*self);
        }
        let ghost pre = self@;
        let ghost pid = player_id@;
        let mut boards: Vec<Board> = Vec::new();
        std::mem::swap(&mut boards, &mut self.boards);
        proof {
            assert(models_of_boards(Seq::<Board>::empty()) =~= Seq::<BoardModel>::empty());
        }
        let key: String = board_id.to_owned();
        let r;
        match find_index(&boards, &key) {
            None => {
                let mut players: Vec<Player> = Vec::new();
                players.push(Player { id: player_id, label: Label::X });
                let b = Board { id: key, play_book: empty_play_book(), players };
                let ghost bm = b@;
                boards.push(b);
                proof {
                    assert(bm.players =~= seq![PlayerModel { id: pid, label: Label::X }]);
                    assert(bm == fresh_board(board_id@, pid));
                    assert(models_of_boards(boards@) =~= pre.push(fresh_board(board_id@, pid)));
                    assert forall|i: int, j: int|
                        0 <= i < j < models_of_boards(boards@).len() implies models_of_boards(
                        boards@,
                    )[i].id != models_of_boards(boards@)[j].id by {
                        if j + 1 == models_of_boards(boards@).len() {
                            assert(!has_board(pre, board_id@));
                        }
                    }
                }
                r = Ok((Label::X, empty_play_book()));
            },
            Some(k) => {
                proof {
                    lemma_board_idx_is(pre, key@, k as int);
                    assert(boards@[k as int]@ == pre[k as int]);
                }
                let seat = boards[k].find_seat(&player_id);
                match seat {
                    Some(j) => {
                        proof {
                            lemma_seat_of_is(pre[k as int], pid, j as int);
                        }
                        let label = boards[k].players[j].label;
                        proof {
                            assert(label == pre[k as int].seated_label(pid));
                        }
                        let cells = crate::board::clone_cells(&boards[k].play_book);
                        r = Ok((label, cells));
                    },
                    None => {
                        if boards[k].players.len() < 2 {
                            let label = if boards[k].is_label_taken(Label::X) {
                                Label::O
                            } else {
                                Label::X
                            };
                            proof {
                                assert(label == pre[k as int].free_label());
                            }
                            let mut b = boards.remove(k);
                            proof {
                                assert(b@ == pre[k as int]);
                            }
                            let cells = crate::board::clone_cells(&b.play_book);
                            b.players.push(Player { id: player_id, label });
                            proof {
                                let b2 = join_model(pre, board_id@, pid).0[k as int];
                                assert(models_of(b.players@) =~= pre[k as int].players.push(
                                    PlayerModel { id: pid, label: pre[k as int].free_label() },
                                ));
                                assert(b@ == b2);
                            }
                            boards.insert(k, b);
                            proof {
                                let post = join_model(pre, board_id@, pid).0;
                                assert(models_of_boards(boards@) =~= post);
                                lemma_join_wf_seat(pre, board_id@, pid, k as int);
                            }
                            r = Ok((label, cells));
                        } else {
                            r = Err(GameError::BoardFull);
                        }
                    },
                }
            },
        }
        self.boards = boards;
        r
    }

    /// Writes `player_label` into cell `cell_index` of the named board, with
    /// no occupancy or turn check, and returns the updated cells.  The index
    /// must be in range; the protocol parser guarantees it.
    pub fn make_play_in_board(
        &mut self,
        board_id: &str,
        player_label: Label,
        cell_index: usize,
    ) -> (r: Result<Vec<Cell>, GameError>)
        requires
            cell_index < BOARD_CELLS,
        ensures
            wf_boards(old(self)@),
            wf_boards(final(self)@),
            final(self)@ == move_model(old(self)@, board_id@, player_label, cell_index as int).0,
            cells_result_model(r) == move_model(
                old(self)@,
                board_id@,
                player_label,
                cell_index as int,
            ).1,
    {
        proof {
            use_type_invariant(&*self);
        }
        let ghost pre = self@;
        let mut boards: Vec<Board> = Vec::new();
        std::mem::swap(&mut boards, &mut self.boards);
        proof {
            assert(models_of_boards(Seq::<Board>::empty()) =~= Seq::<BoardModel>::empty());
        }
        let key: String = board_id.to_owned();
        let r;
        match find_index(&boards, &key) {
            None => {
                r = Err(GameError::UnknownBoard);
            },
            Some(k) => {
                proof {
                    lemma_board_idx_is(pre, key@, k as int);
                }
                let mut b = boards.remove(k);
                proof {
                    assert(b@ == pre[k as int]);
                }
                b.play_book.set(cell_index, player_label.cell());
                let cells = crate::board::clone_cells(&b.play_book);
                proof {
                    let post = move_model(pre, board_id@, player_label, cell_index as int).0;
                    assert(b@ == post[k as int]);
                }
                boards.insert(k, b);
                proof {
                    let post = move_model(pre, board_id@, player_label, cell_index as int).0;
                    assert(models_of_boards(boards@) =~= post);
                    lemma_wf_update_board(pre, k as int, post[k as int]);
                }
                r = Ok(cells);
            },
        }
        self.boards = boards;
        r
    }

    /// Replaces the named board's cells with the all-empty grid; the seated
    /// players are untouched.  Returns the empty cells.
    pub fn reset_board(&mut self, board_id: &str) -> (r: Result<Vec<Cell>, GameError>)
        ensures
            wf_boards(old(self)@),
            wf_boards(final(self)@),
            final(self)@ == reset_model(old(self)@, board_id@).0,
            cells_result_model(r) == reset_model(old(self)@, board_id@).1,
    {
        proof {
            use_type_invariant(&*self);
        }
        let ghost pre = self@;
        let mut boards: Vec<Board> = Vec::new();
        std::mem::swap(&mut boards, &mut self.boards);
        proof {
            assert(models_of_boards(Seq::<Board>::empty()) =~= Seq::<BoardModel>::empty());
        }
        let key: String = board_id.to_owned();
        let r;
        match find_index(&boards, &key) {
            None => {
                r = Err(GameError::UnknownBoard);
            },
            Some(k) => {
                proof {
                    lemma_board_idx_is(pre, key@, k as int);
                }
                let mut b = boards.remove(k);
                proof {
                    assert(b@ == pre[k as int]);
                }
                b.play_book = empty_play_book();
                proof {
                    let post = reset_model(pre, board_id@).0;
                    assert(b@ == post[k as int]);
                }
                boards.insert(k, b);
                proof {
                    let post = reset_model(pre, board_id@).0;
                    assert(models_of_boards(boards@) =~= post);
                    lemma_wf_update_board(pre, k as int, post[k as int]);
                }
                r = Ok(empty_play_book());
            },
        }
        self.boards = boards;
        r
    }

    /// Vacates the seat `player_id` holds on the named board, if any; zero
    /// or one seats are removed, cells are unaffected and returned.
    pub fn leave_board(&mut self, board_id: &str, player_id: &PlayerId) -> (r: Result<
        Vec<Cell>,
        GameError,
    >)
        ensures
            wf_boards(old(self)@),
            wf_boards(final(self)@),
            final(self)@ == leave_model(old(self)@, board_id@, player_id@).0,
            cells_result_model(r) == leave_model(old(self)@, board_id@, player_id@).1,
    {
        proof {
            use_type_invariant(&*self);
        }
        let ghost pre = self@;
        let ghost pid = player_id@;
        let mut boards: Vec<Board> = Vec::new();
        std::mem::swap(&mut boards, &mut self.boards);
        proof {
            assert(models_of_boards(Seq::<Board>::empty()) =~= Seq::<BoardModel>::empty());
        }
        let key: String = board_id.to_owned();
        let r;
        match find_index(&boards, &key) {
            None => {
                r = Err(GameError::UnknownBoard);
            },
            Some(k) => {
                proof {
                    lemma_board_idx_is(pre, key@, k as int);
                }
                let mut b = boards.remove(k);
                proof {
                    assert(b@ == pre[k as int]);
                }
                match b.find_seat(player_id) {
                    Some(j) => {
                        proof {
                            lemma_seat_of_is(pre[k as int], pid, j as int);
                        }
                        b.players.remove(j);
                        proof {
                            assert(models_of(b.players@) =~= leave_players(pre[k as int], pid));
                        }
                    },
                    None => {
                    },
                }
                let cells = crate::board::clone_cells(&b.play_book);
                proof {
                    let post = leave_model(pre, board_id@, pid).0;
                    assert(b@ == post[k as int]);
                }
                boards.insert(k, b);
                proof {
                    let post = leave_model(pre, board_id@, pid).0;
                    assert(models_of_boards(boards@) =~= post);
                    lemma_leave_players_wf(pre[k as int], pid);
                    lemma_wf_update_board(pre, k as int, post[k as int]);
                }
                r = Ok(cells);
            },
        }
        self.boards = boards;
        r
    }

    /// The matchmaking scan: some board with exactly one seated player, if
    /// any.  Which of several qualifying boards is named is left open.
    pub fn find_waiting_board(&self) -> (r: Option<String>)
        ensures
            wf_boards(self@),
            match r {
                Some(name) => exists|i: int|
                    0 <= i < self@.len() && self@[i].id == name@ && self@[i].seat_count() == 1,
                None => forall|i: int| 0 <= i < self@.len() ==> self@[i].seat_count() != 1,
            },
    {
        proof {
            use_type_invariant(&*self);
        }
        let mut i: usize = 0;
        while i < self.boards.len()
            invariant
                i <= self.boards@.len(),
                self@ == models_of_boards(self.boards@),
                wf_boards(self@),
                forall|j: int| 0 <= j < i ==> self@[j].seat_count() != 1,
            decreases self.boards@.len() - i,
        {
            if self.boards[i].players.len() == 1 {
                proof {
                    assert(self@[i as int].seat_count() == 1);
                }
                return Some(self.boards[i].id.clone());
            }
            i += 1;
        }
        None
    }

    /// The participants a broadcast on the named board reaches, in seat
    /// order; empty when the board is unknown (delivery is a no-op).
    pub fn delivery_targets(&self, board_id: &str) -> (r: Vec<Player>)
        ensures
            wf_boards(self@),
            models_of(r@) == recipients_model(self@, board_id@),
    {
        proof {
            use_type_invariant(&*self);
        }
        let key: String = board_id.to_owned();
        match find_index(&self.boards, &key) {
            None => {
                let out: Vec<Player> = Vec::new();
                proof {
                    assert(models_of(out@) =~= recipients_model(self@, board_id@));
                }
                out
            },
            Some(k) => {
                proof {
                    lemma_board_idx_is(self@, key@, k as int);
                }
                crate::board::clone_players(&self.boards[k].players)
            },
        }
    }
}

/// A board stays well formed when one more player takes the free label on a
/// board with a free seat, and the registry's identifiers do not change.
pub(crate) proof fn lemma_join_wf_seat(boards: Seq<BoardModel>, id: Seq<char>, pid: Seq<char>, k: int)
    requires
        wf_boards(boards),
        0 <= k < boards.len(),
        boards[k].id == id,
        has_board(boards, id),
        board_idx(boards, id) == k,
        !boards[k].seated(pid),
        boards[k].players.len() < 2,
    ensures
        wf_boards(join_model(boards, id, pid).0),
{
    let b = boards[k];
    let label = b.free_label();
    let players2 = b.players.push(PlayerModel { id: pid, label: label });
    let b2 = BoardModel { id: b.id, cells: b.cells, players: players2 };
    assert forall|i: int, j: int| 0 <= i < j < players2.len() implies players2[i].id
        != players2[j].id by {
        if j == players2.len() - 1 {
            assert(!b.seated(pid));
            assert(b.players[i].id != pid);
        }
    }
    assert forall|i: int, j: int| 0 <= i < j < players2.len() implies players2[i].label
        != players2[j].label by {
        if j == players2.len() - 1 {
            if b.players[i].label == Label::X {
                assert(b.label_taken(Label::X));
            } else {
                assert(b.players[i].label == Label::O);
                if b.label_taken(Label::X) {
                    let m = choose|m: int|
                        0 <= m < b.players.len() && b.players[m].label == Label::X;
                    assert(b.players[m].label != b.players[i].label);
                }
            }
        }
    }
    assert(b2.wf());
    let post = join_model(boards, id, pid).0;
    assert(post == boards.update(k, b2));
}

/// Replacing one board by a well-formed board under the same identifier
/// keeps the registry well formed.
pub(crate) proof fn lemma_wf_update_board(boards: Seq<BoardModel>, k: int, b2: BoardModel)
    requires
        wf_boards(boards),
        0 <= k < boards.len(),
        b2.id == boards[k].id,
        b2.wf(),
    ensures
        wf_boards(boards.update(k, b2)),
{
}

/// Vacating one seat keeps a board well formed.
pub(crate) proof fn lemma_leave_players_wf(b: BoardModel, pid: Seq<char>)
    requires
        b.wf(),
    ensures
        (BoardModel { id: b.id, cells: b.cells, players: leave_players(b, pid) }).wf(),
{
    if b.seated(pid) {
        let s = b.seat_of(pid);
        assert(0 <= s < b.players.len() && b.players[s].id == pid);
        let players2 = b.players.remove(s);
        assert forall|i: int, j: int| 0 <= i < j < players2.len() implies players2[i].id
            != players2[j].id && players2[i].label != players2[j].label by {
            let i0 = if i < s { i } else { i + 1 };
            let j0 = if j < s { j } else { j + 1 };
            assert(players2[i] == b.players[i0]);
            assert(players2[j] == b.players[j0]);
        }
    }
}

} // verus!
