//! The board entity: one game session's state.
//!
//! A board is a 3x3 grid of cells plus at most two seated players, unique by
//! identity and by label.  Boards are pure data; every mutation goes through
//! the registry.

use vstd::prelude::*;
use crate::game::{Cell, Label};
use crate::player::{models_of, Player, PlayerModel};

verus! {

/// Number of cells of the grid.
pub const BOARD_CELLS: usize = 9;

/// In-memory representation of one session.
#[derive(Debug)]
pub struct Board {
    /// Identifier under which the registry holds this board.
    pub id: String,
    /// The 9 cells of the grid, row by row.
    pub play_book: Vec<Cell>,
    /// The seated players, in seat (insertion) order.
    pub players: Vec<Player>,
}

/// Mathematical model of a board.
pub ghost struct BoardModel {
    pub id: Seq<char>,
    pub cells: Seq<Cell>,
    pub players: Seq<PlayerModel>,
}

impl View for Board {
    type V = BoardModel;

    open spec fn view(&self) -> BoardModel {
        BoardModel { id: self.id@, cells: self.play_book@, players: models_of(self.players@) }
    }
}

/// The all-empty grid.
pub open spec fn empty_cells() -> Seq<Cell> {
    Seq::new(BOARD_CELLS as nat, |i: int| Cell::Empty)
}

impl BoardModel {
    /// Invariant of every board the registry holds: exactly 9 cells, at most
    /// two seats, and no two seats sharing an identity or a label.
    pub open spec fn wf(self) -> bool {
        &&& self.cells.len() == BOARD_CELLS
        &&& self.players.len() <= 2
        &&& forall|i: int, j: int|
            0 <= i < j < self.players.len() ==> self.players[i].id != self.players[j].id
        &&& forall|i: int, j: int|
            0 <= i < j < self.players.len() ==> self.players[i].label != self.players[j].label
    }

    /// How many seats are occupied.
    pub open spec fn seat_count(self) -> nat {
        self.players.len()
    }

    /// Whether the identity already holds a seat.
    pub open spec fn seated(self, pid: Seq<char>) -> bool {
        exists|i: int| 0 <= i < self.players.len() && self.players[i].id == pid
    }

    /// The seat index of an identity that is seated.
    pub open spec fn seat_of(self, pid: Seq<char>) -> int {
        choose|i: int| 0 <= i < self.players.len() && self.players[i].id == pid
    }

    /// The label a seated identity holds.
    pub open spec fn seated_label(self, pid: Seq<char>) -> Label {
        self.players[self.seat_of(pid)].label
    }

    /// Whether some seated player holds the label.
    pub open spec fn label_taken(self, label: Label) -> bool {
        exists|i: int| 0 <= i < self.players.len() && self.players[i].label == label
    }

    /// The label the registry hands to a newly seated player: "X" unless
    /// already taken, otherwise "O".  The first player of a board is thus
    /// always "X".
    pub open spec fn free_label(self) -> Label {
        if self.label_taken(Label::X) {
            Label::O
        } else {
            Label::X
        }
    }
}

/// A fresh play book: 9 empty cells.
pub fn empty_play_book() -> (r: Vec<Cell>)
    ensures
        r@ == empty_cells(),
{
    let mut v: Vec<Cell> = Vec::new();
    let mut i: usize = 0;
    while i < BOARD_CELLS
        invariant
            i <= BOARD_CELLS,
            v@ =~= Seq::new(i as nat, |j: int| Cell::Empty),
        decreases BOARD_CELLS - i,
    {
        v.push(Cell::Empty);
        i += 1;
    }
    proof {
        assert(v@ =~= empty_cells());
    }
    v
}

/// A copy of a cell vector, slot for slot.
pub fn clone_cells(cells: &Vec<Cell>) -> (r: Vec<Cell>)
    ensures
        r@ == cells@,
{
    let mut out: Vec<Cell> = Vec::new();
    let mut i: usize = 0;
    while i < cells.len()
        invariant
            i <= cells@.len(),
            out@ =~= cells@.subrange(0, i as int),
        decreases cells@.len() - i,
    {
        out.push(cells[i]);
        i += 1;
    }
    proof {
        assert(out@ =~= cells@);
    }
    out
}

/// A copy of a seat vector, seat for seat.
pub fn clone_players(players: &Vec<Player>) -> (r: Vec<Player>)
    ensures
        models_of(r@) == models_of(players@),
{
    let mut out: Vec<Player> = Vec::new();
    let mut i: usize = 0;
    while i < players.len()
        invariant
            i <= players@.len(),
            models_of(out@) =~= models_of(players@).subrange(0, i as int),
        decreases players@.len() - i,
    {
        let p = players[i].clone();
        proof {
            assert(p@ == models_of(players@)[i as int]);
        }
        let ghost out_pre = out@;
        out.push(p);
        proof {
            assert(models_of(out_pre).len() == out_pre.len());
            assert(out_pre.len() == i as int);
            assert(out@ == out_pre.push(p));
            assert forall|m: int| 0 <= m < out@.len() implies models_of(out@)[m] == models_of(
                players@,
            ).subrange(0, i as int + 1)[m] by {
                if m < i as int {
                    assert(out@[m] == out_pre[m]);
                    assert(models_of(out_pre)[m] == models_of(players@).subrange(0, i as int)[m]);
                } else {
                    assert(out@[m] == p);
                }
            }
            assert(models_of(out@) =~= models_of(players@).subrange(0, i as int + 1));
        }
        i += 1;
    }
    proof {
        assert(models_of(out@) =~= models_of(players@));
    }
    out
}

impl Board {
    /// The seat index of `pid` on this board, if seated: the first seat whose
    /// identity equals it.
    pub fn find_seat(&self, pid: &crate::player::PlayerId) -> (r: Option<usize>)
        ensures
            match r {
                Some(k) => k < self.players@.len() && self@.players[k as int].id == pid@,
                None => !self@.seated(pid@),
            },
    {
        let mut i: usize = 0;
        while i < self.players.len()
            invariant
                i <= self.players@.len(),
                forall|j: int| 0 <= j < i ==> self@.players[j].id != pid@,
            decreases self.players@.len() - i,
        {
            if self.players[i].id.same_player(pid) {
                return Some(i);
            }
            i += 1;
        }
        None
    }

    /// Whether some seated player already holds the label.
    pub fn is_label_taken(&self, label: Label) -> (r: bool)
        ensures
            r == self@.label_taken(label),
    {
        let mut i: usize = 0;
        while i < self.players.len()
            invariant
                i <= self.players@.len(),
                forall|j: int| 0 <= j < i ==> self@.players[j].label != label,
            decreases self.players@.len() - i,
        {
            if self.players[i].label == label {
                proof {
                    assert(self@.players[i as int].label == label);
                }
                return true;
            }
            i += 1;
        }
        false
    }
}

} // verus!
