//! A rules-correct chess position engine: legal-move enumeration, move
//! application and end-of-game classification, specified and verified.
//!
//! A caller holds a position value, asks for the legal moves of a square,
//! applies one to obtain the next position, and reads off its status.

use vstd::prelude::*;

pub mod board;
pub mod fen;
pub mod game;
pub mod move_gen;
pub mod rules;

pub use board::{Piece, PieceColor, PieceKind, Square};
pub use game::{CastlingRights, EngineError, GameState, GameStatus, Move, MoveInput, MoveResult};

use crate::fen::{export_notation, import_accepts};
use crate::game::{apply_outcome_ok, is_initial_state, same_state, spec_apply_error};
use crate::move_gen::is_legal_move_at;
use crate::rules::spec_status;

verus! {

/// An engine owning the position of one game in progress.
#[derive(Debug)]
pub struct ChessEngine {
    state: GameState,
}

impl ChessEngine {
    /// The position the engine currently holds.
    pub closed spec fn pos(self) -> GameState {
        self.state
    }

    /// A well-formed engine holds a well-formed position.
    pub open spec fn wf(self) -> bool {
        self.pos().wf()
    }

    /// An engine holding the initial position.
    pub fn new_game() -> (r: ChessEngine)
        ensures
            r.wf(),
            is_initial_state(r.pos()),
    {
        ChessEngine { state: new_game() }
    }

    /// An engine holding an imported position.
    pub fn from_fen(fen: &str) -> (r: Result<ChessEngine, EngineError>)
        ensures
            import_accepts(fen@) ==> (r matches Ok(e) && e.wf() && is_initial_state(e.pos())),
            !import_accepts(fen@) ==> r == Err::<ChessEngine, EngineError>(
                EngineError::UnsupportedFen,
            ),
    {
        match from_fen(fen) {
            Ok(state) => Ok(ChessEngine { state }),
            Err(e) => Err(e),
        }
    }

    /// The legal moves of the piece on `square`.
    pub fn legal_moves(&self, square: Square) -> (moves: Vec<Move>)
        requires
            self.wf(),
            square.wf(),
        ensures
            forall|m: Move| #[trigger] moves@.contains(m) <==> is_legal_move_at(self.pos(), square, m),
    {
        legal_moves(&self.state, square)
    }

    /// Applies one move to the held position, advancing it on success and
    /// leaving it untouched on failure.
    pub fn apply_move(&mut self, input: MoveInput) -> (r: Result<MoveResult, EngineError>)
        requires
            old(self).wf(),
            input.from.wf(),
            input.to.wf(),
        ensures
            final(self).wf(),
            r is Err <==> spec_apply_error(old(self).pos(), input) is Some,
            (r matches Err(e) ==> Some(e) == spec_apply_error(old(self).pos(), input) && same_state(
                final(self).pos(),
                old(self).pos(),
            )),
            (r matches Ok(mr) ==> apply_outcome_ok(old(self).pos(), input, mr) && same_state(
                final(self).pos(),
                mr.state,
            )),
    {
        let result = match apply_move(&self.state, input) {
            Ok(result) => result,
            Err(e) => {
                return Err(e);
            },
        };
        self.state = result.state.dup();
        Ok(result)
    }

    /// The status of the held position.
    pub fn status(&self) -> (r: GameStatus)
        requires
            self.wf(),
        ensures
            r == spec_status(self.pos()),
    {
        status(&self.state)
    }

    /// Exports the held position.
    pub fn to_fen(&self) -> (r: String)
        requires
            self.wf(),
        ensures
            r@ == export_notation(self.pos()),
    {
        to_fen(&self.state)
    }

    /// A view of the held position.
    pub fn state(&self) -> (r: &GameState)
        ensures
            *r == self.pos(),
    {
        &self.state
    }
}

/// The position at the start of a game.
pub fn new_game() -> (r: GameState)
    ensures
        r.wf(),
        is_initial_state(r),
{
    game::initial_state()
}

/// Imports a position from its textual encoding.
pub fn from_fen(fen: &str) -> (r: Result<GameState, EngineError>)
    ensures
        import_accepts(fen@) ==> (r matches Ok(s) && s.wf() && is_initial_state(s)),
        !import_accepts(fen@) ==> r == Err::<GameState, EngineError>(EngineError::UnsupportedFen),
{
    fen::from_fen(fen)
}

/// The legal moves of the piece on `square`.
pub fn legal_moves(state: &GameState, square: Square) -> (moves: Vec<Move>)
    requires
        state.wf(),
        square.wf(),
    ensures
        forall|m: Move| #[trigger] moves@.contains(m) <==> is_legal_move_at(*state, square, m),
{
    move_gen::generate_legal_moves_for_square(state, square)
}

/// Validates and applies one move, producing the next position.
pub fn apply_move(state: &GameState, input: MoveInput) -> (r: Result<MoveResult, EngineError>)
    requires
        state.wf(),
        input.from.wf(),
        input.to.wf(),
    ensures
        r is Err <==> spec_apply_error(*state, input) is Some,
        (r matches Err(e) ==> Some(e) == spec_apply_error(*state, input)),
        (r matches Ok(mr) ==> apply_outcome_ok(*state, input, mr)),
        state.status != GameStatus::InProgress ==> r == Err::<MoveResult, EngineError>(
            EngineError::IllegalMove,
        ),
{
    let result = match game::apply_move_to_state(state, input) {
        Ok(result) => result,
        Err(e) => {
            return Err(e);
        },
    };
    Ok(MoveResult { state: result.state, move_applied: result.move_applied })
}

/// Classifies a position as in progress, checkmate, or stalemate.
pub fn status(state: &GameState) -> (r: GameStatus)
    requires
        state.wf(),
    ensures
        r == spec_status(*state),
{
    rules::evaluate_status(state)
}

/// Exports a position to its textual encoding.
pub fn to_fen(state: &GameState) -> (r: String)
    requires
        state.wf(),
    ensures
        r@ == export_notation(*state),
{
    fen::to_fen(state)
}

} // verus!
