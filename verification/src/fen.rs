//! Position notation at the boundary: a deliberate stub that round-trips
//! only the standard starting position.

use vstd::prelude::*;

use crate::board::{in_bounds, cell_at, start_cell, start_cell_at, Board, PieceColor, Square};
use crate::game::{initial_state, is_initial_state, CastlingRights, EngineError, GameState,
    GameStatus};

verus! {

/// The standard starting position in its textual encoding.
pub open spec fn standard_start_notation() -> Seq<char> {
    "rnbqkbnr/pppppppp/8/8/8/8/PPPPPPPP/RNBQKBNR w KQkq - 0 1"@
}

/// The bare token import also accepts for a fresh game.
pub open spec fn startpos_token() -> Seq<char> {
    "startpos"@
}

/// The sentinel emitted for any position export cannot encode.
pub open spec fn unsupported_notation() -> Seq<char> {
    "unsupported-fen-serialization"@
}

/// The texts import accepts; everything else is an unsupported notation.
pub open spec fn import_accepts(s: Seq<char>) -> bool {
    s == startpos_token() || s == standard_start_notation()
}

/// What export produces for a position.
pub open spec fn export_notation(s: GameState) -> Seq<char> {
    if is_initial_state(s) {
        standard_start_notation()
    } else {
        unsupported_notation()
    }
}

/// Relies on str's PartialEq: two string slices are equal exactly when
/// their character sequences are equal.
#[verifier::external_body]
fn str_eq(a: &str, b: &str) -> (r: bool)
    ensures
        r == (a@ == b@),
{
    a == b
}

/// Imports a position: accepts only the bare "startpos" token or the
/// exact standard starting text, yielding the initial position; any other
/// input is an unsupported notation.
pub fn from_fen(fen: &str) -> (r: Result<GameState, EngineError>)
    ensures
        import_accepts(fen@) ==> (r matches Ok(s) && s.wf() && is_initial_state(s)),
        !import_accepts(fen@) ==> r == Err::<GameState, EngineError>(EngineError::UnsupportedFen),
{
    if str_eq(fen, "startpos") || str_eq(
        fen,
        "rnbqkbnr/pppppppp/8/8/8/8/PPPPPPPP/RNBQKBNR w KQkq - 0 1",
    ) {
        Ok(initial_state())
    } else {
        Err(EngineError::UnsupportedFen)
    }
}

/// Compares the board against the standard starting arrangement.
fn board_is_standard(board: &Board) -> (r: bool)
    requires
        board.wf(),
    ensures
        r == (forall|f: int, rk: int| in_bounds(f, rk) ==> cell_at(board@, f, rk) == start_cell(f, rk)),
{
    let mut rank: u8 = 0;
    while rank < 8
        invariant
            board.wf(),
            rank <= 8,
            forall|f: int, rk: int|
                in_bounds(f, rk) && rk < rank ==> cell_at(board@, f, rk) == start_cell(f, rk),
        decreases 8 - rank,
    {
        let mut file: u8 = 0;
        while file < 8
            invariant
                board.wf(),
                rank < 8,
                file <= 8,
                forall|f: int, rk: int|
                    in_bounds(f, rk) && rk < rank ==> cell_at(board@, f, rk) == start_cell(f, rk),
                forall|f: int|
                    0 <= f < file ==> cell_at(board@, f, rank as int) == start_cell(f, rank as int),
            decreases 8 - file,
        {
            let sq = Square { file, rank };
            let actual = board.get(sq);
            let expected = start_cell_at(file, rank);
            let same = match (actual, expected) {
                (None, None) => true,
                (Some(a), Some(b)) => a == b,
                _ => false,
            };
            if !same {
                return false;
            }
            file = file + 1;
        }
        rank = rank + 1;
    }
    true
}

/// Exports a position: the standard starting text exactly when the
/// position is the initial one, and the documented sentinel otherwise.
pub fn to_fen(state: &GameState) -> (r: String)
    requires
        state.wf(),
    ensures
        r@ == export_notation(*state),
{
    let initial = board_is_standard(&state.board) && matches!(state.active_color, PieceColor::White)
        && matches!(state.status, GameStatus::InProgress) && state.halfmove_clock == 0
        && state.fullmove_number == 1 && state.castling_rights == CastlingRights::standard()
        && state.en_passant_target.is_none();
    if initial {
        "rnbqkbnr/pppppppp/8/8/8/8/PPPPPPPP/RNBQKBNR w KQkq - 0 1".to_owned()
    } else {
        "unsupported-fen-serialization".to_owned()
    }
}

/// Round trip at the boundary: the initial position exports to the
/// standard starting text, which import accepts back as exactly the
/// initial position; every other position exports to the sentinel, which
/// import rejects.
pub proof fn lemma_notation_round_trip(s: GameState)
    ensures
        is_initial_state(s) ==> export_notation(s) == standard_start_notation() && import_accepts(
            export_notation(s),
        ),
        !is_initial_state(s) ==> export_notation(s) == unsupported_notation() && !import_accepts(
            export_notation(s),
        ),
{
    reveal_strlit("rnbqkbnr/pppppppp/8/8/8/8/PPPPPPPP/RNBQKBNR w KQkq - 0 1");
    reveal_strlit("startpos");
    reveal_strlit("unsupported-fen-serialization");
    assert(standard_start_notation().len() == 56);
    assert(startpos_token().len() == 8);
    assert(unsupported_notation().len() == 29);
}

} // verus!
