//! Position primitives: squares, pieces and the 8x8 board.

use vstd::prelude::*;

verus! {

/// The two sides of a chess game.
#[derive(Clone, Copy, PartialEq, Eq, Structural, Debug, Hash)]
pub enum PieceColor {
    White,
    Black,
}

/// The six piece kinds.
#[derive(Clone, Copy, PartialEq, Eq, Structural, Debug, Hash)]
pub enum PieceKind {
    Pawn,
    Knight,
    Bishop,
    Rook,
    Queen,
    King,
}

/// A piece is a color together with a kind.
#[derive(Clone, Copy, PartialEq, Eq, Structural, Debug, Hash)]
pub struct Piece {
    pub color: PieceColor,
    pub kind: PieceKind,
}

/// A board coordinate: file and rank, each in `[0, 8)` when well formed.
#[derive(Clone, Copy, PartialEq, Eq, Structural, Debug, Hash)]
pub struct Square {
    pub file: u8,
    pub rank: u8,
}

/// True when the coordinates address one of the 64 board squares.
pub open spec fn in_bounds(file: int, rank: int) -> bool {
    0 <= file < 8 && 0 <= rank < 8
}

/// The occupant that a board view holds at the given coordinates.
pub open spec fn cell_at(b: Seq<Option<Piece>>, file: int, rank: int) -> Option<Piece> {
    b[rank * 8 + file]
}

impl Square {
    /// Well-formed squares lie on the board.
    pub open spec fn wf(self) -> bool {
        self.file < 8 && self.rank < 8
    }

    /// Bounds-checked construction from raw coordinates.
    pub fn new(file: u8, rank: u8) -> (r: Option<Square>)
        ensures
            r == if file < 8 && rank < 8 {
                Some(Square { file, rank })
            } else {
                None::<Square>
            },
    {
        if file < 8 && rank < 8 {
            Some(Square { file, rank })
        } else {
            None
        }
    }
}

/// The file index named by a letter 'a'-'h' or 'A'-'H'.
pub open spec fn file_index_of(c: char) -> Option<u8> {
    let v = c as u32;
    if 97 <= v && v <= 104 {
        Some((v - 97) as u8)
    } else if 65 <= v && v <= 72 {
        Some((v - 65) as u8)
    } else {
        None
    }
}

/// The rank index named by a digit '1'-'8'.
pub open spec fn rank_index_of(c: char) -> Option<u8> {
    let v = c as u32;
    if 49 <= v && v <= 56 {
        Some((v - 49) as u8)
    } else {
        None
    }
}

/// The square named by a two-character text: a file letter (either case)
/// followed by a rank digit; anything else names none.
pub open spec fn square_of_text(s: Seq<char>) -> Option<Square> {
    if s.len() != 2 {
        None
    } else {
        match (file_index_of(s[0]), rank_index_of(s[1])) {
            (Some(f), Some(r)) => Some(Square { file: f, rank: r }),
            _ => None,
        }
    }
}

/// The lower-case letter of a file index.
pub open spec fn file_letter(f: int) -> char {
    ((97 + f) as u8) as char
}

/// The digit of a rank index.
pub open spec fn rank_digit(r: int) -> char {
    ((49 + r) as u8) as char
}

/// Relies on String::push: appends exactly one character at the end.
#[verifier::external_body]
fn push_char(s: &mut String, c: char)
    ensures
        final(s)@ == old(s)@.push(c),
{
    s.push(c)
}

impl Square {
    /// Parses two-character algebraic notation, rejecting any other form.
    pub fn from_algebraic(input: &str) -> (r: Option<Square>)
        ensures
            r == square_of_text(input@),
            r matches Some(sq) ==> sq.wf(),
    {
        if input.unicode_len() != 2 {
            return None;
        }
        let v0 = input.get_char(0) as u32;
        let v1 = input.get_char(1) as u32;
        let file: u8 = if 97 <= v0 && v0 <= 104 {
            (v0 - 97) as u8
        } else if 65 <= v0 && v0 <= 72 {
            (v0 - 65) as u8
        } else {
            return None;
        };
        if !(49 <= v1 && v1 <= 56) {
            return None;
        }
        let rank: u8 = (v1 - 49) as u8;
        Some(Square { file, rank })
    }

    /// Writes the square in algebraic notation: file letter, rank digit.
    pub fn to_algebraic(self) -> (r: String)
        requires
            self.wf(),
        ensures
            r@ == seq![file_letter(self.file as int), rank_digit(self.rank as int)],
    {
        let mut s = String::new();
        push_char(&mut s, (97 + self.file) as char);
        push_char(&mut s, (49 + self.rank) as char);
        proof {
            assert(s@ =~= seq![file_letter(self.file as int), rank_digit(self.rank as int)]);
        }
        s
    }
}

/// An 8x8 grid of occupants, viewed as a sequence of 64 cells in
/// rank-major order: the cell for (file, rank) sits at index `rank * 8 + file`.
#[derive(Debug)]
pub struct Board {
    cells: Vec<Option<Piece>>,
}

impl View for Board {
    type V = Seq<Option<Piece>>;

    closed spec fn view(&self) -> Seq<Option<Piece>> {
        self.cells@
    }
}

impl Board {
    /// A well-formed board has exactly 64 cells.
    pub open spec fn wf(self) -> bool {
        self@.len() == 64
    }

    /// The occupant of a square.
    pub fn get(&self, sq: Square) -> (r: Option<Piece>)
        requires
            self.wf(),
            sq.wf(),
        ensures
            r == cell_at(self@, sq.file as int, sq.rank as int),
    {
        self.cells[sq.rank as usize * 8 + sq.file as usize]
    }

    /// Replaces the occupant of a square, leaving every other cell unchanged.
    pub fn put(&mut self, sq: Square, occupant: Option<Piece>)
        requires
            old(self).wf(),
            sq.wf(),
        ensures
            final(self).wf(),
            final(self)@ == old(self)@.update(sq.rank as int * 8 + sq.file as int, occupant),
            cell_at(final(self)@, sq.file as int, sq.rank as int) == occupant,
            forall|f: int, r: int|
                in_bounds(f, r) && !(f == sq.file as int && r == sq.rank as int)
                    ==> cell_at(final(self)@, f, r) == cell_at(old(self)@, f, r),
    {
        let idx: usize = sq.rank as usize * 8 + sq.file as usize;
        self.cells[idx] = occupant;
        proof {
            assert forall|f: int, r: int|
                in_bounds(f, r) && !(f == sq.file as int && r == sq.rank as int)
                    implies cell_at(self@, f, r) == cell_at(old(self)@, f, r) by {
                assert(r * 8 + f != sq.rank as int * 8 + sq.file as int);
            }
        }
    }

    /// A structural copy of the board.
    pub fn dup(&self) -> (r: Board)
        requires
            self.wf(),
        ensures
            r.wf(),
            r@ == self@,
    {
        let mut cells: Vec<Option<Piece>> = Vec::new();
        let mut i: usize = 0;
        while i < 64
            invariant
                self.wf(),
                i <= 64,
                cells@ == self@.subrange(0, i as int),
            decreases 64 - i,
        {
            cells.push(self.cells[i]);
            i = i + 1;
        }
        proof {
            assert(cells@ =~= self@);
        }
        Board { cells }
    }
}

/// A board with no pieces on it.
pub fn empty_board() -> (r: Board)
    ensures
        r.wf(),
        forall|f: int, rk: int| in_bounds(f, rk) ==> cell_at(r@, f, rk) is None,
{
    let mut cells: Vec<Option<Piece>> = Vec::new();
    let mut i: usize = 0;
    while i < 64
        invariant
            i <= 64,
            cells@.len() == i,
            forall|j: int| 0 <= j < i ==> cells@[j] is None,
        decreases 64 - i,
    {
        cells.push(None);
        i = i + 1;
    }
    Board { cells }
}

/// The piece kind on the back rank at the given file in the standard start.
pub open spec fn back_rank_kind(file: int) -> PieceKind {
    if file == 0 || file == 7 {
        PieceKind::Rook
    } else if file == 1 || file == 6 {
        PieceKind::Knight
    } else if file == 2 || file == 5 {
        PieceKind::Bishop
    } else if file == 3 {
        PieceKind::Queen
    } else {
        PieceKind::King
    }
}

/// The occupant of each square in the standard starting position.
pub open spec fn start_cell(file: int, rank: int) -> Option<Piece> {
    if rank == 0 {
        Some(Piece { color: PieceColor::White, kind: back_rank_kind(file) })
    } else if rank == 1 {
        Some(Piece { color: PieceColor::White, kind: PieceKind::Pawn })
    } else if rank == 6 {
        Some(Piece { color: PieceColor::Black, kind: PieceKind::Pawn })
    } else if rank == 7 {
        Some(Piece { color: PieceColor::Black, kind: back_rank_kind(file) })
    } else {
        None
    }
}

/// The standard starting board: pawns on ranks 1 and 6, the usual back ranks.
pub fn standard_start_board() -> (r: Board)
    ensures
        r.wf(),
        forall|f: int, rk: int| in_bounds(f, rk) ==> cell_at(r@, f, rk) == start_cell(f, rk),
{
    let mut board = empty_board();
    let mut file: u8 = 0;
    while file < 8
        invariant
            board.wf(),
            file <= 8,
            forall|f: int, rk: int|
                in_bounds(f, rk) && f < file && (rk == 1 || rk == 6)
                    ==> cell_at(board@, f, rk) == start_cell(f, rk),
            forall|f: int, rk: int|
                in_bounds(f, rk) && !(rk == 1 || rk == 6)
                    ==> cell_at(board@, f, rk) is None,
        decreases 8 - file,
    {
        board.put(
            Square { file, rank: 1 },
            Some(Piece { color: PieceColor::White, kind: PieceKind::Pawn }),
        );
        board.put(
            Square { file, rank: 6 },
            Some(Piece { color: PieceColor::Black, kind: PieceKind::Pawn }),
        );
        file = file + 1;
    }
    let mut file: u8 = 0;
    while file < 8
        invariant
            board.wf(),
            file <= 8,
            forall|f: int, rk: int|
                in_bounds(f, rk) && (rk == 1 || rk == 6)
                    ==> cell_at(board@, f, rk) == start_cell(f, rk),
            forall|f: int, rk: int|
                in_bounds(f, rk) && f < file && (rk == 0 || rk == 7)
                    ==> cell_at(board@, f, rk) == start_cell(f, rk),
            forall|f: int, rk: int|
                in_bounds(f, rk) && !(rk == 0 || rk == 1 || rk == 6 || rk == 7)
                    ==> cell_at(board@, f, rk) is None,
            forall|f: int, rk: int|
                in_bounds(f, rk) && f >= file && (rk == 0 || rk == 7)
                    ==> cell_at(board@, f, rk) is None,
        decreases 8 - file,
    {
        let kind = back_rank_piece(file);
        board.put(Square { file, rank: 0 }, Some(Piece { color: PieceColor::White, kind }));
        board.put(Square { file, rank: 7 }, Some(Piece { color: PieceColor::Black, kind }));
        file = file + 1;
    }
    board
}

/// Executable table of the standard starting position.
pub(crate) fn start_cell_at(file: u8, rank: u8) -> (r: Option<Piece>)
    requires
        file < 8,
        rank < 8,
    ensures
        r == start_cell(file as int, rank as int),
{
    if rank == 0 {
        Some(Piece { color: PieceColor::White, kind: back_rank_piece(file) })
    } else if rank == 1 {
        Some(Piece { color: PieceColor::White, kind: PieceKind::Pawn })
    } else if rank == 6 {
        Some(Piece { color: PieceColor::Black, kind: PieceKind::Pawn })
    } else if rank == 7 {
        Some(Piece { color: PieceColor::Black, kind: back_rank_piece(file) })
    } else {
        None
    }
}

/// Executable table of the standard back rank.
fn back_rank_piece(file: u8) -> (k: PieceKind)
    requires
        file < 8,
    ensures
        k == back_rank_kind(file as int),
{
    if file == 0 || file == 7 {
        PieceKind::Rook
    } else if file == 1 || file == 6 {
        PieceKind::Knight
    } else if file == 2 || file == 5 {
        PieceKind::Bishop
    } else if file == 3 {
        PieceKind::Queen
    } else {
        PieceKind::King
    }
}

} // verus!
