//! End-of-game classification.

use vstd::prelude::*;

use crate::board::PieceColor;
use crate::game::{GameState, GameStatus};
use crate::move_gen::{has_any_legal_move, in_check, is_in_check_for_color, opposite,
    side_to_move_has_any_move, spec_opposite};

verus! {

/// The classification a position deserves: in progress while the side to
/// move has any legal move; otherwise checkmate for the opponent when that
/// side stands in check, and stalemate against it when it does not.
pub open spec fn spec_status(s: GameState) -> GameStatus {
    if has_any_legal_move(s) {
        GameStatus::InProgress
    } else if in_check(s.board@, s.active_color) {
        GameStatus::Checkmate(spec_opposite(s.active_color))
    } else {
        GameStatus::Stalemate(s.active_color)
    }
}

/// Reports whether the king of `color` is attacked.
pub fn is_in_check(state: &GameState, color: PieceColor) -> (r: bool)
    requires
        state.wf(),
    ensures
        r == in_check(state.board@, color),
{
    is_in_check_for_color(state, color)
}

/// Classifies the position as in progress, checkmate, or stalemate.
pub fn evaluate_status(state: &GameState) -> (r: GameStatus)
    requires
        state.wf(),
    ensures
        r == spec_status(*state),
{
    let active = state.active_color;

    if side_to_move_has_any_move(state) {
        return GameStatus::InProgress;
    }

    if is_in_check(state, active) {
        GameStatus::Checkmate(opposite(active))
    } else {
        GameStatus::Stalemate(active)
    }
}

} // verus!
