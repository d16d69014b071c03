//! The complete game state, promotion resolution, castling-rights upkeep,
//! and the checked state-transition function.

use vstd::prelude::*;

use crate::board::{in_bounds, cell_at, start_cell, standard_start_board, Board, Piece, PieceColor,
    PieceKind, Square};
use crate::move_gen::{apply_move_unchecked, captures_piece, ep_target_after, fullmove_after,
    generate_legal_moves_for_square, halfmove_after, is_legal_move_at, lemma_legality_depends_on_core,
    post_board, same_core, spec_opposite};
use crate::rules::{evaluate_status, spec_status};

verus! {

/// A fully resolved move: source, destination, and the promotion kind,
/// present exactly when a pawn reaches the final rank.
#[derive(Clone, Copy, PartialEq, Eq, Structural, Debug)]
pub struct Move {
    pub from: Square,
    pub to: Square,
    pub promotion: Option<PieceKind>,
}

/// A caller's requested move, before promotion resolution.
#[derive(Clone, Copy, PartialEq, Eq, Structural, Debug)]
pub struct MoveInput {
    pub from: Square,
    pub to: Square,
    pub promotion: Option<PieceKind>,
}

/// The four castling permissions. Cleared monotonically, never re-granted.
#[derive(Clone, Copy, PartialEq, Eq, Structural, Debug)]
pub struct CastlingRights {
    pub white_king_side: bool,
    pub white_queen_side: bool,
    pub black_king_side: bool,
    pub black_queen_side: bool,
}

impl CastlingRights {
    /// All four rights granted, as at the start of a game.
    pub fn standard() -> (r: CastlingRights)
        ensures
            r == spec_standard_rights(),
    {
        CastlingRights {
            white_king_side: true,
            white_queen_side: true,
            black_king_side: true,
            black_queen_side: true,
        }
    }
}

/// All four castling rights granted.
pub open spec fn spec_standard_rights() -> CastlingRights {
    CastlingRights {
        white_king_side: true,
        white_queen_side: true,
        black_king_side: true,
        black_queen_side: true,
    }
}

/// Classification of a position: still playable, or decided.
#[derive(Clone, PartialEq, Eq, Structural, Debug)]
pub enum GameStatus {
    InProgress,
    Checkmate(PieceColor),
    Stalemate(PieceColor),
}

/// The complete state needed to continue play.
#[derive(Debug)]
pub struct GameState {
    pub board: Board,
    pub active_color: PieceColor,
    pub status: GameStatus,
    pub halfmove_clock: u32,
    pub fullmove_number: u32,
    pub castling_rights: CastlingRights,
    pub en_passant_target: Option<Square>,
}

impl GameState {
    /// A well-formed state has a 64-cell board and an on-board
    /// en-passant target, when one is set.
    pub open spec fn wf(self) -> bool {
        &&& self.board.wf()
        &&& match self.en_passant_target {
            Some(t) => t.wf(),
            None => true,
        }
    }

    /// A structural copy of the state.
    pub fn dup(&self) -> (r: GameState)
        requires
            self.wf(),
        ensures
            r.wf(),
            same_state(r, *self),
    {
        GameState {
            board: self.board.dup(),
            active_color: self.active_color,
            status: clone_status(&self.status),
            halfmove_clock: self.halfmove_clock,
            fullmove_number: self.fullmove_number,
            castling_rights: self.castling_rights,
            en_passant_target: self.en_passant_target,
        }
    }
}

/// Copies a status value.
pub(crate) fn clone_status(s: &GameStatus) -> (r: GameStatus)
    ensures
        r == *s,
{
    match s {
        GameStatus::InProgress => GameStatus::InProgress,
        GameStatus::Checkmate(c) => GameStatus::Checkmate(*c),
        GameStatus::Stalemate(c) => GameStatus::Stalemate(*c),
    }
}

/// Two game states that agree on every observable component.
pub open spec fn same_state(a: GameState, b: GameState) -> bool {
    &&& a.board@ == b.board@
    &&& a.active_color == b.active_color
    &&& a.status == b.status
    &&& a.halfmove_clock == b.halfmove_clock
    &&& a.fullmove_number == b.fullmove_number
    &&& a.castling_rights == b.castling_rights
    &&& a.en_passant_target == b.en_passant_target
}

/// The new position plus the move as actually applied.
#[derive(Debug)]
pub struct MoveResult {
    pub state: GameState,
    pub move_applied: Move,
}

/// The discriminated failures an operation can report.
#[derive(Clone, PartialEq, Eq, Structural, Debug)]
pub enum EngineError {
    InvalidSquare,
    NoPieceAtSource,
    NotActivePlayersPiece,
    IllegalMove,
    UnsupportedFen,
}

/// The state described by the standard starting position.
pub open spec fn is_initial_state(s: GameState) -> bool {
    &&& s.board.wf()
    &&& forall|f: int, r: int| in_bounds(f, r) ==> cell_at(s.board@, f, r) == start_cell(f, r)
    &&& s.active_color == PieceColor::White
    &&& s.status == GameStatus::InProgress
    &&& s.halfmove_clock == 0
    &&& s.fullmove_number == 1
    &&& s.castling_rights == spec_standard_rights()
    &&& s.en_passant_target is None
}

/// The position at the start of a game: standard board, White to move,
/// all rights granted, clocks at their initial values.
pub fn initial_state() -> (r: GameState)
    ensures
        r.wf(),
        is_initial_state(r),
{
    GameState {
        board: standard_start_board(),
        active_color: PieceColor::White,
        status: GameStatus::InProgress,
        halfmove_clock: 0,
        fullmove_number: 1,
        castling_rights: CastlingRights::standard(),
        en_passant_target: None,
    }
}

/// The kinds a pawn may promote to.
pub open spec fn spec_is_promo_kind(kind: PieceKind) -> bool {
    kind == PieceKind::Queen || kind == PieceKind::Rook || kind == PieceKind::Bishop
        || kind == PieceKind::Knight
}

fn is_valid_promotion_piece(kind: PieceKind) -> (r: bool)
    ensures
        r == spec_is_promo_kind(kind),
{
    match kind {
        PieceKind::Queen | PieceKind::Rook | PieceKind::Bishop | PieceKind::Knight => true,
        _ => false,
    }
}

/// Promotion resolution: required exactly when a pawn reaches the final
/// rank; an omitted kind defaults to Queen; a kind supplied when not
/// required, or an invalid kind when required, is an illegal move.
pub open spec fn spec_normalize_promotion(
    piece: Piece,
    to: Square,
    requested: Option<PieceKind>,
) -> Result<Option<PieceKind>, EngineError> {
    let requires_promotion = piece.kind == PieceKind::Pawn && (to.rank == 0 || to.rank == 7);
    if !requires_promotion {
        if requested is Some {
            Err(EngineError::IllegalMove)
        } else {
            Ok(None)
        }
    } else {
        let promotion = if requested is Some {
            requested.unwrap()
        } else {
            PieceKind::Queen
        };
        if spec_is_promo_kind(promotion) {
            Ok(Some(promotion))
        } else {
            Err(EngineError::IllegalMove)
        }
    }
}

fn normalize_promotion(piece: Piece, to: Square, requested: Option<PieceKind>) -> (r: Result<
    Option<PieceKind>,
    EngineError,
>)
    ensures
        r == spec_normalize_promotion(piece, to, requested),
{
    let requires_promotion = match piece.kind {
        PieceKind::Pawn => to.rank == 0 || to.rank == 7,
        _ => false,
    };
    if !requires_promotion {
        if requested.is_some() {
            return Err(EngineError::IllegalMove);
        }
        return Ok(None);
    }
    let promotion = match requested {
        Some(k) => k,
        None => PieceKind::Queen,
    };
    if !is_valid_promotion_piece(promotion) {
        return Err(EngineError::IllegalMove);
    }
    Ok(Some(promotion))
}

/// How one move affects the castling rights: a king move clears both of
/// that color's rights; a rook move off its home corner clears that
/// wing's right; a capture landing on a home corner clears the right of
/// whichever side owned that corner.
pub open spec fn spec_update_castling_rights(
    current: CastlingRights,
    moved_piece: Piece,
    from: Square,
    to: Square,
    is_capture: bool,
) -> CastlingRights {
    let r1 = if moved_piece.kind == PieceKind::King {
        if moved_piece.color == PieceColor::White {
            CastlingRights { white_king_side: false, white_queen_side: false, ..current }
        } else {
            CastlingRights { black_king_side: false, black_queen_side: false, ..current }
        }
    } else {
        current
    };
    let r2 = if moved_piece.kind == PieceKind::Rook {
        if moved_piece.color == PieceColor::White && from.file == 0 && from.rank == 0 {
            CastlingRights { white_queen_side: false, ..r1 }
        } else if moved_piece.color == PieceColor::White && from.file == 7 && from.rank == 0 {
            CastlingRights { white_king_side: false, ..r1 }
        } else if moved_piece.color == PieceColor::Black && from.file == 0 && from.rank == 7 {
            CastlingRights { black_queen_side: false, ..r1 }
        } else if moved_piece.color == PieceColor::Black && from.file == 7 && from.rank == 7 {
            CastlingRights { black_king_side: false, ..r1 }
        } else {
            r1
        }
    } else {
        r1
    };
    if is_capture {
        if to.file == 0 && to.rank == 0 {
            CastlingRights { white_queen_side: false, ..r2 }
        } else if to.file == 7 && to.rank == 0 {
            CastlingRights { white_king_side: false, ..r2 }
        } else if to.file == 0 && to.rank == 7 {
            CastlingRights { black_queen_side: false, ..r2 }
        } else if to.file == 7 && to.rank == 7 {
            CastlingRights { black_king_side: false, ..r2 }
        } else {
            r2
        }
    } else {
        r2
    }
}

fn update_castling_rights(
    current: CastlingRights,
    moved_piece: Piece,
    from: Square,
    to: Square,
    is_capture: bool,
) -> (r: CastlingRights)
    ensures
        r == spec_update_castling_rights(current, moved_piece, from, to, is_capture),
{
    let mut rights = current;

    if matches!(moved_piece.kind, PieceKind::King) {
        match moved_piece.color {
            PieceColor::White => {
                rights.white_king_side = false;
                rights.white_queen_side = false;
            },
            PieceColor::Black => {
                rights.black_king_side = false;
                rights.black_queen_side = false;
            },
        }
    }

    if matches!(moved_piece.kind, PieceKind::Rook) {
        match (moved_piece.color, from.file, from.rank) {
            (PieceColor::White, 0, 0) => rights.white_queen_side = false,
            (PieceColor::White, 7, 0) => rights.white_king_side = false,
            (PieceColor::Black, 0, 7) => rights.black_queen_side = false,
            (PieceColor::Black, 7, 7) => rights.black_king_side = false,
            _ => {},
        }
    }

    if is_capture {
        match (to.file, to.rank) {
            (0, 0) => rights.white_queen_side = false,
            (7, 0) => rights.white_king_side = false,
            (0, 7) => rights.black_queen_side = false,
            (7, 7) => rights.black_king_side = false,
            _ => {},
        }
    }

    rights
}

/// The failure, if any, that the checked transition reports for this
/// request: the position must be in progress, the source square occupied
/// by the side to move, the promotion well formed, and the resolved move
/// among the legal moves of the source square.
pub open spec fn spec_apply_error(s: GameState, input: MoveInput) -> Option<EngineError> {
    if s.status != GameStatus::InProgress {
        Some(EngineError::IllegalMove)
    } else {
        match cell_at(s.board@, input.from.file as int, input.from.rank as int) {
            None => Some(EngineError::NoPieceAtSource),
            Some(piece) => {
                if piece.color != s.active_color {
                    Some(EngineError::NotActivePlayersPiece)
                } else {
                    match spec_normalize_promotion(piece, input.to, input.promotion) {
                        Err(e) => Some(e),
                        Ok(promotion) => {
                            let m = Move { from: input.from, to: input.to, promotion };
                            if is_legal_move_at(s, input.from, m) {
                                None
                            } else {
                                Some(EngineError::IllegalMove)
                            }
                        },
                    }
                }
            },
        }
    }
}

/// What a successful transition guarantees: the applied move is the
/// resolved request and is legal; the new position carries the applied
/// board, the flipped side to move, the recomputed castling rights,
/// en-passant target and clocks, and a freshly evaluated status.
pub open spec fn apply_outcome_ok(s: GameState, input: MoveInput, mr: MoveResult) -> bool {
    let piece = cell_at(s.board@, input.from.file as int, input.from.rank as int).unwrap();
    &&& mr.move_applied == (Move {
        from: input.from,
        to: input.to,
        promotion: spec_normalize_promotion(piece, input.to, input.promotion).unwrap(),
    })
    &&& is_legal_move_at(s, input.from, mr.move_applied)
    &&& mr.state.wf()
    &&& mr.state.board@ == post_board(s, mr.move_applied)
    &&& mr.state.active_color == spec_opposite(s.active_color)
    &&& mr.state.castling_rights == spec_update_castling_rights(
        s.castling_rights,
        piece,
        input.from,
        input.to,
        captures_piece(s, mr.move_applied, piece),
    )
    &&& mr.state.en_passant_target == ep_target_after(s, mr.move_applied)
    &&& mr.state.halfmove_clock == halfmove_after(s, mr.move_applied)
    &&& mr.state.fullmove_number == fullmove_after(s)
    &&& mr.state.status == spec_status(mr.state)
}

/// Reports whether the list holds the move.
fn contains_move(moves: &Vec<Move>, wanted: Move) -> (r: bool)
    ensures
        r == moves@.contains(wanted),
{
    let mut i: usize = 0;
    while i < moves.len()
        invariant
            i <= moves.len(),
            forall|j: int| 0 <= j < i ==> moves@[j] != wanted,
        decreases moves.len() - i,
    {
        if moves[i].from == wanted.from && moves[i].to == wanted.to && match (
            moves[i].promotion,
            wanted.promotion,
        ) {
            (None, None) => true,
            (Some(a), Some(b)) => a == b,
            _ => false,
        } {
            proof {
                assert(moves@[i as int] == wanted);
            }
            return true;
        }
        i = i + 1;
    }
    proof {
        if moves@.contains(wanted) {
            let j = choose|j: int| 0 <= j < moves@.len() && moves@[j] == wanted;
            assert(false);
        }
    }
    false
}

/// Validates one requested move against the current position and, when it
/// is legal, produces the follow-on position together with the move as
/// actually applied. A rejected request reports its discriminated error
/// and leaves the given position untouched; once the status has left
/// `InProgress`, every request fails.
pub fn apply_move_to_state(state: &GameState, input: MoveInput) -> (r: Result<
    MoveResult,
    EngineError,
>)
    requires
        state.wf(),
        input.from.wf(),
        input.to.wf(),
    ensures
        r is Err <==> spec_apply_error(*state, input) is Some,
        (r matches Err(e) ==> Some(e) == spec_apply_error(*state, input)),
        (r matches Ok(mr) ==> apply_outcome_ok(*state, input, mr)),
        state.status != GameStatus::InProgress ==> r == Err::<MoveResult, EngineError>(
            EngineError::IllegalMove,
        ),
{
    if !matches!(state.status, GameStatus::InProgress) {
        return Err(EngineError::IllegalMove);
    }

    let piece = match state.board.get(input.from) {
        Some(p) => p,
        None => {
            return Err(EngineError::NoPieceAtSource);
        },
    };

    if piece.color != state.active_color {
        return Err(EngineError::NotActivePlayersPiece);
    }

    let promotion = match normalize_promotion(piece, input.to, input.promotion) {
        Ok(p) => p,
        Err(e) => {
            return Err(e);
        },
    };

    let requested_move = Move { from: input.from, to: input.to, promotion };

    let legal_moves = generate_legal_moves_for_square(state, input.from);
    if !contains_move(&legal_moves, requested_move) {
        return Err(EngineError::IllegalMove);
    }

    let target_piece = state.board.get(input.to);
    let is_en_passant_capture = matches!(piece.kind, PieceKind::Pawn) && input.from.file
        != input.to.file && target_piece.is_none() && match state.en_passant_target {
        Some(t) => t == input.to,
        None => false,
    };
    let is_capture = target_piece.is_some() || is_en_passant_capture;

    let mut next = apply_move_unchecked(state, &requested_move);
    next.castling_rights = update_castling_rights(
        state.castling_rights,
        piece,
        input.from,
        input.to,
        is_capture,
    );
    let ghost before_status = next;
    let status = evaluate_status(&next);
    next.status = status;
    proof {
        assert(same_core(next, before_status));
        lemma_legality_depends_on_core(next, before_status);
        assert(spec_status(next) == spec_status(before_status));
    }

    Ok(MoveResult { state: next, move_applied: requested_move })
}

} // verus!
