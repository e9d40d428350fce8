//! Core vocabulary of the game: seat labels, cell values, and the kinds of
//! outbound events the dispatcher fans out.

use vstd::prelude::*;

verus! {

/// A seat label.  The registry assigns it at join time; a client never picks
/// its own.
#[derive(Clone, Copy, PartialEq, Eq, Structural, Debug)]
pub enum Label {
    X,
    O,
}

/// One slot of the 3x3 grid: empty, or claimed under a label.
#[derive(Clone, Copy, PartialEq, Eq, Structural, Debug)]
pub enum Cell {
    Empty,
    X,
    O,
}

/// The kinds of outbound events a connection can receive.
#[derive(Clone, Copy, PartialEq, Eq, Structural, Debug)]
pub enum EventKind {
    /// Unicast to a freshly admitted connection: its label and the cells.
    Init,
    /// Broadcast after a move: the updated cells.
    State,
    /// Broadcast after a reset: the cleared cells.
    Reset,
    /// Broadcast after a seat is vacated: the current cells.
    Leave,
    /// Unicast to a joiner rejected from a full board.
    Complete,
}

/// The ways a registry operation or an inbound frame can fail.
#[derive(Clone, Copy, PartialEq, Eq, Structural, Debug)]
pub enum GameError {
    /// A third identity tried to join a board whose two seats are taken.
    BoardFull,
    /// A move, reset or leave named a board the registry does not hold.
    /// The lookup miss is reported to the caller rather than treated as
    /// fatal; a connection handler closes only its own connection on it.
    UnknownBoard,
    /// An inbound frame that names a command but fails to parse: a `PLAY`
    /// with too few tokens, a label other than "X" or "O", or an index that
    /// is not a number in `[0, 9)`.  Fatal to the sending connection alone.
    MalformedFrame,
}

impl Label {
    /// The cell value a move under this label writes.
    pub open spec fn spec_cell(self) -> Cell {
        match self {
            Label::X => Cell::X,
            Label::O => Cell::O,
        }
    }

    /// The wire text of the label.
    pub open spec fn spec_str(self) -> Seq<char> {
        match self {
            Label::X => seq!['X'],
            Label::O => seq!['O'],
        }
    }

    pub fn cell(self) -> (r: Cell)
        ensures
            r == self.spec_cell(),
    {
        match self {
            Label::X => Cell::X,
            Label::O => Cell::O,
        }
    }

    pub fn as_str(self) -> (r: &'static str)
        ensures
            r@ == self.spec_str(),
    {
        proof {
            reveal_strlit("X");
            reveal_strlit("O");
        }
        match self {
            Label::X => "X",
            Label::O => "O",
        }
    }
}

impl Cell {
    /// The wire text of the cell: the empty string for an empty slot.
    pub open spec fn spec_str(self) -> Seq<char> {
        match self {
            Cell::Empty => Seq::empty(),
            Cell::X => seq!['X'],
            Cell::O => seq!['O'],
        }
    }

    pub fn as_str(self) -> (r: &'static str)
        ensures
            r@ == self.spec_str(),
    {
        proof {
            reveal_strlit("");
            reveal_strlit("X");
            reveal_strlit("O");
        }
        match self {
            Cell::Empty => "",
            Cell::X => "X",
            Cell::O => "O",
        }
    }
}

impl EventKind {
    /// The `cmd` field of the serialized event.
    pub open spec fn spec_str(self) -> Seq<char> {
        match self {
            EventKind::Init => "INIT"@,
            EventKind::State => "STATE"@,
            EventKind::Reset => "RESET"@,
            EventKind::Leave => "LEAVE"@,
            EventKind::Complete => "COMPLETE"@,
        }
    }

    pub fn as_str(self) -> (r: &'static str)
        ensures
            r@ == self.spec_str(),
    {
        match self {
            EventKind::Init => "INIT",
            EventKind::State => "STATE",
            EventKind::Reset => "RESET",
            EventKind::Leave => "LEAVE",
            EventKind::Complete => "COMPLETE",
        }
    }
}

} // verus!
