//! Laws of the registry, proved once at the model level.
//!
//! Each law speaks about the transition functions that the registry's
//! operations are specified against, so it covers every sequence of calls a
//! client can make.

use vstd::prelude::*;
use crate::board::{empty_cells, BoardModel};
use crate::game::{Cell, GameError, Label};
use crate::registry::{
    board_idx, fresh_board, has_board, join_model, leave_model, leave_players,
    lemma_board_idx_is, lemma_join_wf_seat, lemma_leave_players_wf, lemma_seat_of_is,
    lemma_wf_update_board, move_model, reset_model, wf_boards,
};

verus! {

/// Seat monotonicity and label uniqueness across `join`: a join keeps every
/// board well formed, so no board ever holds more than two seats, and the
/// labels among its seated players never repeat.
pub proof fn lemma_join_preserves_wf(boards: Seq<BoardModel>, id: Seq<char>, pid: Seq<char>)
    requires
        wf_boards(boards),
    ensures
        wf_boards(join_model(boards, id, pid).0),
{
    let post = join_model(boards, id, pid).0;
    if !has_board(boards, id) {
        assert forall|i: int, j: int| 0 <= i < j < post.len() implies post[i].id != post[j].id by {
            if j == post.len() - 1 {
                assert(post[i] == boards[i]);
                if boards[i].id == id {
                    assert(has_board(boards, id));
                }
            }
        }
        assert(fresh_board(id, pid).wf());
        assert forall|i: int| 0 <= i < post.len() implies post[i].wf() by {
            if i < post.len() - 1 {
                assert(post[i] == boards[i]);
            }
        }
    } else {
        let k = board_idx(boards, id);
        let b = boards[k];
        if b.seated(pid) {
        } else if b.players.len() < 2 {
            lemma_join_wf_seat(boards, id, pid, k);
        }
    }
}

/// A move keeps every board well formed: it only rewrites one cell.
pub proof fn lemma_move_preserves_wf(
    boards: Seq<BoardModel>,
    id: Seq<char>,
    label: Label,
    cell_index: int,
)
    requires
        wf_boards(boards),
        0 <= cell_index < 9,
    ensures
        wf_boards(move_model(boards, id, label, cell_index).0),
{
    if has_board(boards, id) {
        let k = board_idx(boards, id);
        let b2 = move_model(boards, id, label, cell_index).0[k];
        lemma_wf_update_board(boards, k, b2);
    }
}

/// A reset keeps every board well formed: seats are untouched and the grid
/// stays at 9 cells.
pub proof fn lemma_reset_preserves_wf(boards: Seq<BoardModel>, id: Seq<char>)
    requires
        wf_boards(boards),
    ensures
        wf_boards(reset_model(boards, id).0),
{
    if has_board(boards, id) {
        let k = board_idx(boards, id);
        let b2 = reset_model(boards, id).0[k];
        lemma_wf_update_board(boards, k, b2);
    }
}

/// A leave keeps every board well formed: it only vacates one seat.
pub proof fn lemma_leave_preserves_wf(boards: Seq<BoardModel>, id: Seq<char>, pid: Seq<char>)
    requires
        wf_boards(boards),
    ensures
        wf_boards(leave_model(boards, id, pid).0),
{
    if has_board(boards, id) {
        let k = board_idx(boards, id);
        lemma_leave_players_wf(boards[k], pid);
        let b2 = leave_model(boards, id, pid).0[k];
        lemma_wf_update_board(boards, k, b2);
    }
}

/// Idempotent rejoin: joining twice under one identity, with nothing in
/// between, leaves the registry exactly as after the first join and answers
/// both times with the same result — same label, same cells, or the same
/// refusal.
pub proof fn lemma_join_idempotent(boards: Seq<BoardModel>, id: Seq<char>, pid: Seq<char>)
    requires
        wf_boards(boards),
    ensures
        join_model(join_model(boards, id, pid).0, id, pid).0 == join_model(boards, id, pid).0,
        join_model(join_model(boards, id, pid).0, id, pid).1 == join_model(boards, id, pid).1,
{
    let s1 = join_model(boards, id, pid).0;
    lemma_join_preserves_wf(boards, id, pid);
    if !has_board(boards, id) {
        let n = boards.len() as int;
        assert(s1[n] == fresh_board(id, pid));
        lemma_board_idx_is(s1, id, n);
        lemma_seat_of_is(s1[n], pid, 0);
        assert(s1[n].seated_label(pid) == Label::X);
        assert(s1[n].cells == empty_cells());
    } else {
        let k = board_idx(boards, id);
        let b = boards[k];
        if b.seated(pid) {
        } else if b.players.len() < 2 {
            let b2 = s1[k];
            lemma_board_idx_is(s1, id, k);
            let last = b.players.len() as int;
            assert(b2.players[last].id == pid);
            lemma_seat_of_is(b2, pid, last);
            assert(b2.seated_label(pid) == b.free_label());
            assert(b2.cells == b.cells);
        }
    }
}

/// Full-board rejection: once two distinct identities are seated, a join
/// from a third distinct identity is refused with `BoardFull` and the
/// registry — the seat count included — is unchanged.
pub proof fn lemma_full_board_rejects(boards: Seq<BoardModel>, id: Seq<char>, pid: Seq<char>)
    requires
        wf_boards(boards),
        has_board(boards, id),
        boards[board_idx(boards, id)].seat_count() == 2,
        !boards[board_idx(boards, id)].seated(pid),
    ensures
        join_model(boards, id, pid).0 == boards,
        join_model(boards, id, pid).1 == Err::<(Label, Seq<Cell>), GameError>(GameError::BoardFull),
        join_model(boards, id, pid).0[board_idx(boards, id)].seat_count() == 2,
{
}

/// Move visibility: a move writes its label into its cell and leaves every
/// other cell as it was, so the cells returned by a subsequent move still
/// show the first move at its index.
pub proof fn lemma_move_visibility(
    boards: Seq<BoardModel>,
    id: Seq<char>,
    label1: Label,
    index1: int,
    label2: Label,
    index2: int,
)
    requires
        wf_boards(boards),
        has_board(boards, id),
        0 <= index1 < 9,
        0 <= index2 < 9,
    ensures
        ({
            let before = boards[board_idx(boards, id)].cells;
            let after1 = before.update(index1, label1.spec_cell());
            let after2 = after1.update(index2, label2.spec_cell());
            &&& move_model(boards, id, label1, index1).1 == Ok::<Seq<Cell>, GameError>(after1)
            &&& move_model(move_model(boards, id, label1, index1).0, id, label2, index2).1
                == Ok::<Seq<Cell>, GameError>(after2)
            &&& (index1 != index2 ==> after2[index1] == label1.spec_cell())
            &&& forall|i: int|
                0 <= i < after2.len() && i != index1 && i != index2 ==> after2[i] == before[i]
        }),
{
    let k = board_idx(boards, id);
    lemma_move_preserves_wf(boards, id, label1, index1);
    let s1 = move_model(boards, id, label1, index1).0;
    lemma_board_idx_is(s1, id, k);
}

/// Reset idempotence: resetting twice answers the all-empty grid both
/// times, and the second reset changes nothing — in particular the seated
/// players are untouched by either.
pub proof fn lemma_reset_idempotent(boards: Seq<BoardModel>, id: Seq<char>)
    requires
        wf_boards(boards),
        has_board(boards, id),
    ensures
        reset_model(boards, id).1 == Ok::<Seq<Cell>, GameError>(empty_cells()),
        reset_model(reset_model(boards, id).0, id).1 == Ok::<Seq<Cell>, GameError>(empty_cells()),
        reset_model(reset_model(boards, id).0, id).0 == reset_model(boards, id).0,
        reset_model(boards, id).0[board_idx(boards, id)].players == boards[board_idx(
            boards,
            id,
        )].players,
{
    let k = board_idx(boards, id);
    lemma_reset_preserves_wf(boards, id);
    let s1 = reset_model(boards, id).0;
    lemma_board_idx_is(s1, id, k);
    let s2 = reset_model(s1, id).0;
    assert(s2[k] == s1[k]);
    assert(s2 =~= s1);
}

/// Leave removes exactly one seat: when the identity is seated, the seat
/// count drops by one, its seat is gone, and every other player keeps both
/// seat and label; when it is not seated, the board is untouched.  Cells
/// are unaffected either way.
pub proof fn lemma_leave_removes_exactly_one(boards: Seq<BoardModel>, id: Seq<char>, pid: Seq<char>)
    requires
        wf_boards(boards),
        has_board(boards, id),
    ensures
        ({
            let b = boards[board_idx(boards, id)];
            let b2 = leave_model(boards, id, pid).0[board_idx(boards, id)];
            &&& leave_model(boards, id, pid).1 == Ok::<Seq<Cell>, GameError>(b.cells)
            &&& b2.cells == b.cells
            &&& (b.seated(pid) ==> b2.seat_count() == b.seat_count() - 1)
            &&& (!b.seated(pid) ==> b2 == b)
            &&& !b2.seated(pid)
            &&& (forall|q: Seq<char>| q != pid ==> (b2.seated(q) <==> b.seated(q)))
            &&& (forall|q: Seq<char>|
                q != pid && b.seated(q) ==> b2.seated_label(q) == b.seated_label(q))
        }),
{
    let k = board_idx(boards, id);
    let b = boards[k];
    let b2 = leave_model(boards, id, pid).0[k];
    lemma_leave_players_wf(b, pid);
    assert(b2 == BoardModel { id: b.id, cells: b.cells, players: leave_players(b, pid) });
    if b.seated(pid) {
        let s = b.seat_of(pid);
        assert(0 <= s < b.players.len() && b.players[s].id == pid);
        let ps = b.players.remove(s);
        assert(b2.players == ps);
        assert forall|m: int| 0 <= m < ps.len() implies ps[m].id != pid by {
            if m < s {
                assert(ps[m] == b.players[m]);
                assert(b.players[m].id != b.players[s].id);
            } else {
                assert(ps[m] == b.players[m + 1]);
                assert(b.players[s].id != b.players[m + 1].id);
            }
        }
        assert(!b2.seated(pid));
        assert forall|q: Seq<char>| q != pid implies (b2.seated(q) <==> b.seated(q)) by {
            if b2.seated(q) {
                let m = choose|m: int| 0 <= m < ps.len() && ps[m].id == q;
                if m < s {
                    assert(b.players[m].id == q);
                } else {
                    assert(b.players[m + 1].id == q);
                }
                assert(b.seated(q));
            }
            if b.seated(q) {
                let m = choose|m: int| 0 <= m < b.players.len() && b.players[m].id == q;
                assert(m != s);
                if m < s {
                    assert(ps[m].id == q);
                } else {
                    assert(ps[m - 1] == b.players[m]);
                    assert(ps[m - 1].id == q);
                }
                assert(b2.seated(q));
            }
        }
        assert forall|q: Seq<char>| q != pid && b.seated(q) implies b2.seated_label(q)
            == b.seated_label(q) by {
            let m = choose|m: int| 0 <= m < b.players.len() && b.players[m].id == q;
            lemma_seat_of_is(b, q, m);
            assert(m != s);
            if m < s {
                assert(ps[m] == b.players[m]);
                lemma_seat_of_is(b2, q, m);
            } else {
                assert(ps[m - 1] == b.players[m]);
                lemma_seat_of_is(b2, q, m - 1);
            }
        }
    } else {
        assert(b2 == b);
        assert forall|m: int| 0 <= m < b2.players.len() implies b2.players[m].id != pid by {
            if b2.players[m].id == pid {
                assert(b.seated(pid));
            }
        }
        assert(!b2.seated(pid));
    }
}

} // verus!
