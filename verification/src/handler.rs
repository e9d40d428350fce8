//! The per-connection decision step.
//!
//! A connection handler sits in a loop: it reads the next inbound frame,
//! hands it to [`handle_frame`], performs the returned [`Action`] — fanning
//! an event out to the board's participants, ignoring the frame, or closing
//! the connection — and repeats.  All decisions are made here, on plain
//! values; the transport only carries frames in and events out.

use vstd::prelude::*;
use crate::board::BoardModel;
use crate::game::{Cell, EventKind};
use crate::player::PlayerId;
use crate::protocol::{parse_frame, parse_model, Frame};
use crate::registry::{leave_model, move_model, reset_model, wf_boards, State};

verus! {

/// What the connection handler must do after one inbound frame.
#[derive(Debug)]
pub enum Action {
    /// Fan the event out to every participant of the board, with the cells
    /// as its `play_book`; close the connection afterwards if `close`.
    Broadcast { event: EventKind, play_book: Vec<Cell>, close: bool },
    /// The frame named no known command: log it and stay active.
    Ignore,
    /// The frame was malformed, or named a board the registry does not hold:
    /// tear this connection down.  Other connections are unaffected.
    Fatal,
}

/// Mathematical model of an [`Action`].
pub ghost enum ActionModel {
    Broadcast { event: EventKind, cells: Seq<Cell>, close: bool },
    Ignore,
    Fatal,
}

/// The model of a returned action.
pub open spec fn action_model(a: Action) -> ActionModel {
    match a {
        Action::Broadcast { event, play_book, close } => ActionModel::Broadcast {
            event,
            cells: play_book@,
            close,
        },
        Action::Ignore => ActionModel::Ignore,
        Action::Fatal => ActionModel::Fatal,
    }
}

/// What one inbound frame does: the registry afterwards, and the action the
/// handler must perform.
pub open spec fn step_model(
    boards: Seq<BoardModel>,
    id: Seq<char>,
    pid: Seq<char>,
    frame: Seq<u8>,
) -> (Seq<BoardModel>, ActionModel) {
    match parse_model(frame) {
        Err(_) => (boards, ActionModel::Fatal),
        Ok(Frame::Play { label, index }) => {
            let step = move_model(boards, id, label, index as int);
            match step.1 {
                Ok(cells) => (
                    step.0,
                    ActionModel::Broadcast { event: EventKind::State, cells, close: false },
                ),
                Err(_) => (boards, ActionModel::Fatal),
            }
        },
        Ok(Frame::Reset) => {
            let step = reset_model(boards, id);
            match step.1 {
                Ok(cells) => (
                    step.0,
                    ActionModel::Broadcast { event: EventKind::Reset, cells, close: false },
                ),
                Err(_) => (boards, ActionModel::Fatal),
            }
        },
        Ok(Frame::Leave) => {
            let step = leave_model(boards, id, pid);
            match step.1 {
                Ok(cells) => (
                    step.0,
                    ActionModel::Broadcast { event: EventKind::Leave, cells, close: true },
                ),
                Err(_) => (boards, ActionModel::Fatal),
            }
        },
        Ok(Frame::Unknown) => (boards, ActionModel::Ignore),
    }
}

/// Applies one inbound frame from the connection seated as `player_id` on
/// the board named `board_id`: a `PLAY` moves, a `RESET` clears, a `LEAVE`
/// vacates the sender's seat and closes, an unknown command is ignored, and
/// a malformed frame is fatal to this connection alone.
pub fn handle_frame(state: &mut State, board_id: &str, player_id: &PlayerId, frame: &[u8]) -> (r:
    Action)
    ensures
        wf_boards(old(state)@),
        wf_boards(final(state)@),
        final(state)@ == step_model(old(state)@, board_id@, player_id@, frame@).0,
        action_model(r) == step_model(old(state)@, board_id@, player_id@, frame@).1,
{
    proof {
        use_type_invariant(&*state);
    }
    match parse_frame(frame) {
        Err(_) => Action::Fatal,
        Ok(Frame::Play { label, index }) => {
            proof {
                crate::protocol::lemma_parse_index_bound(frame@);
            }
            match state.make_play_in_board(board_id, label, index) {
                Ok(play_book) => Action::Broadcast {
                    event: EventKind::State,
                    play_book,
                    close: false,
                },
                Err(_) => Action::Fatal,
            }
        },
        Ok(Frame::Reset) => {
            match state.reset_board(board_id) {
                Ok(play_book) => Action::Broadcast {
                    event: EventKind::Reset,
                    play_book,
                    close: false,
                },
                Err(_) => Action::Fatal,
            }
        },
        Ok(Frame::Leave) => {
            match state.leave_board(board_id, player_id) {
                Ok(play_book) => Action::Broadcast {
                    event: EventKind::Leave,
                    play_book,
                    close: true,
                },
                Err(_) => Action::Fatal,
            }
        },
        Ok(Frame::Unknown) => Action::Ignore,
    }
}

} // verus!
