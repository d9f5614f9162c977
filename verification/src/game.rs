//! The turn-by-turn state machine: one player move applied to the board,
//! with the resulting game status.

use vstd::prelude::*;

use crate::board::Board;
use crate::board::Cell;
use crate::board::probe_post;
use crate::board::same_layout;

verus! {

/// The three states a game can be in.
#[derive(Clone, Copy, PartialEq, Eq, Structural, Debug)]
pub enum GameStatus {
    Playing,
    Won,
    Lost,
}

/// Apply one parsed player move to the board. `row` and `col` are the
/// 1-based coordinates the player typed; `flag` says whether the move
/// toggles a flag instead of probing. A probe of a mine loses the game;
/// otherwise the game is won exactly when every mine is flagged and
/// nothing else is. Out-of-range moves leave the board unchanged.
pub fn play_turn(board: &mut Board, row: isize, col: isize, flag: bool) -> (st: GameStatus)
    requires
        old(board).wf(),
        old(board).flood_closed(),
    ensures
        final(board).wf(),
        final(board).flood_closed(),
        same_layout(*old(board), *final(board)),
        (st is Lost) <==> (!flag && old(board).in_bounds(row as int - 1, col as int - 1) && old(
            board,
        ).cell_at(row as int - 1, col as int - 1).is_mine),
        st is Lost ==> *final(board) == *old(board),
        (st is Won) <==> (!(st is Lost) && final(board).won_spec()),
        (st is Playing) <==> (!(st is Lost) && !final(board).won_spec()),
        !flag ==> probe_post(
            *old(board),
            *final(board),
            row as int - 1,
            col as int - 1,
            if st is Lost {
                Err(())
            } else {
                Ok(())
            },
        ),
        flag && old(board).in_bounds(row as int - 1, col as int - 1) ==> final(board).cells@
            == old(board).cells@.update(
            old(board).idx_of(row as int - 1, col as int - 1),
            (Cell {
                is_flag: if old(board).cell_at(row as int - 1, col as int - 1).is_visible {
                    false
                } else {
                    !old(board).cell_at(row as int - 1, col as int - 1).is_flag
                },
                ..old(board).cell_at(row as int - 1, col as int - 1)
            }),
        ),
        flag && !old(board).in_bounds(row as int - 1, col as int - 1) ==> *final(board) == *old(
            board,
        ),
{
    let mut detonated = false;
    if row >= 1 && col >= 1 {
        if flag {
            board.toggle_flag(row - 1, col - 1);
        } else {
            if board.probe(row - 1, col - 1).is_err() {
                detonated = true;
            }
        }
    } else {
        proof {
            crate::board::lemma_probe_rel_refl(*board, row as int - 1, col as int - 1);
        }
    }
    if detonated {
        GameStatus::Lost
    } else if board.is_won() {
        GameStatus::Won
    } else {
        GameStatus::Playing
    }
}

} // verus!
