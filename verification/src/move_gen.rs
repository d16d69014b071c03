//! Attack detection, pseudo-legal move generation, unchecked move
//! application, and the legality filter.

use vstd::prelude::*;
use vstd::math::abs;

use crate::board::{in_bounds, cell_at, Board, Piece, PieceColor, PieceKind, Square};
use crate::game::{spec_is_promo_kind, GameState, Move};

verus! {

/// The side opposing `c`.
pub open spec fn spec_opposite(c: PieceColor) -> PieceColor {
    if c == PieceColor::White {
        PieceColor::Black
    } else {
        PieceColor::White
    }
}

/// The side opposing `color`.
pub fn opposite(color: PieceColor) -> (r: PieceColor)
    ensures
        r == spec_opposite(color),
{
    match color {
        PieceColor::White => PieceColor::Black,
        PieceColor::Black => PieceColor::White,
    }
}

/// The rank pawns of color `c` advance toward: up for White, down for Black.
pub open spec fn pawn_dir(c: PieceColor) -> int {
    if c == PieceColor::White {
        1
    } else {
        -1
    }
}

/// The rank a pawn of color `c` starts on.
pub open spec fn pawn_start_rank(c: PieceColor) -> int {
    if c == PieceColor::White {
        1
    } else {
        6
    }
}

/// The rank the king of color `c` starts on.
pub open spec fn home_rank(c: PieceColor) -> int {
    if c == PieceColor::White {
        0
    } else {
        7
    }
}

/// A coordinate after taking `k` steps of size `step`.
pub open spec fn ray_coord(c: int, step: int, k: nat) -> int
    decreases k,
{
    if k == 0 {
        c
    } else {
        ray_coord(c, step, (k - 1) as nat) + step
    }
}

/// The first `n` squares strictly after (f, r) along direction (sf, sr)
/// are on the board and empty.
pub open spec fn ray_clear(
    b: Seq<Option<Piece>>,
    f: int,
    r: int,
    sf: int,
    sr: int,
    n: nat,
) -> bool
    decreases n,
{
    n == 0 || {
        let cf = ray_coord(f, sf, n);
        let cr = ray_coord(r, sr, n);
        ray_clear(b, f, r, sf, sr, (n - 1) as nat) && in_bounds(cf, cr) && cell_at(b, cf, cr) is None
    }
}

/// The ray from (f, r) in direction (sf, sr) reaches (tf, tr): the target
/// lies some `k >= 1` steps along, with every square strictly between empty.
pub open spec fn ray_reaches(
    b: Seq<Option<Piece>>,
    f: int,
    r: int,
    sf: int,
    sr: int,
    tf: int,
    tr: int,
) -> bool {
    exists|k: nat|
        1 <= k && tf == ray_coord(f, sf, k) && tr == ray_coord(r, sr, k) && ray_clear(
            b,
            f,
            r,
            sf,
            sr,
            (k - 1) as nat,
        )
}

/// Some diagonal ray from (f, r) reaches (tf, tr).
pub open spec fn diag_reaches(b: Seq<Option<Piece>>, f: int, r: int, tf: int, tr: int) -> bool {
    ||| ray_reaches(b, f, r, 1, 1, tf, tr)
    ||| ray_reaches(b, f, r, 1, -1, tf, tr)
    ||| ray_reaches(b, f, r, -1, 1, tf, tr)
    ||| ray_reaches(b, f, r, -1, -1, tf, tr)
}

/// Some horizontal or vertical ray from (f, r) reaches (tf, tr).
pub open spec fn line_reaches(b: Seq<Option<Piece>>, f: int, r: int, tf: int, tr: int) -> bool {
    ||| ray_reaches(b, f, r, 1, 0, tf, tr)
    ||| ray_reaches(b, f, r, -1, 0, tf, tr)
    ||| ray_reaches(b, f, r, 0, 1, tf, tr)
    ||| ray_reaches(b, f, r, 0, -1, tf, tr)
}

/// A knight's jump: offsets (1, 2) or (2, 1) in any sign combination.
pub open spec fn knight_jump(df: int, dr: int) -> bool {
    (abs(df) == 1 && abs(dr) == 2) || (abs(df) == 2 && abs(dr) == 1)
}

/// The movement pattern of `p`, standing at (f, r), reaches the square
/// (tf, tr), honoring blockers for the sliding kinds. Pawns here cover
/// only their diagonal capture squares.
pub open spec fn piece_attacks(
    b: Seq<Option<Piece>>,
    f: int,
    r: int,
    tf: int,
    tr: int,
    p: Piece,
) -> bool {
    let df = tf - f;
    let dr = tr - r;
    match p.kind {
        PieceKind::Pawn => dr == pawn_dir(p.color) && (df == 1 || df == -1),
        PieceKind::Knight => knight_jump(df, dr),
        PieceKind::Bishop => diag_reaches(b, f, r, tf, tr),
        PieceKind::Rook => line_reaches(b, f, r, tf, tr),
        PieceKind::Queen => diag_reaches(b, f, r, tf, tr) || line_reaches(b, f, r, tf, tr),
        PieceKind::King => (df != 0 || dr != 0) && -1 <= df <= 1 && -1 <= dr <= 1,
    }
}

/// A piece of color `by` stands at (f, r) and attacks (tf, tr).
pub open spec fn attacker_at(
    b: Seq<Option<Piece>>,
    f: int,
    r: int,
    tf: int,
    tr: int,
    by: PieceColor,
) -> bool {
    in_bounds(f, r) && match cell_at(b, f, r) {
        Some(p) => p.color == by && piece_attacks(b, f, r, tf, tr, p),
        None => false,
    }
}

/// Some piece of color `by` attacks (tf, tr).
pub open spec fn square_attacked(b: Seq<Option<Piece>>, tf: int, tr: int, by: PieceColor) -> bool {
    exists|f: int, r: int| attacker_at(b, f, r, tf, tr, by)
}

/// Linear scan for the first cell holding the king of color `c`,
/// starting at index `i` in rank-major order.
pub open spec fn king_scan(b: Seq<Option<Piece>>, c: PieceColor, i: int) -> Option<int>
    decreases 64 - i,
{
    if i < 0 || i >= 64 {
        None
    } else if cell_holds_king(b[i], c) {
        Some(i)
    } else {
        king_scan(b, c, i + 1)
    }
}

/// The cell holds the king of color `c`.
pub open spec fn cell_holds_king(cell: Option<Piece>, c: PieceColor) -> bool {
    match cell {
        Some(p) => p.color == c && p.kind == PieceKind::King,
        None => false,
    }
}

/// The king of color `c` (the first one found in scan order) is attacked
/// by the opposing side; false when no king is on the board.
pub open spec fn in_check(b: Seq<Option<Piece>>, c: PieceColor) -> bool {
    match king_scan(b, c, 0) {
        Some(i) => square_attacked(b, i % 8, i / 8, spec_opposite(c)),
        None => false,
    }
}

/// Unfolds `ray_coord` into an affine expression, case split on the step.
proof fn lemma_ray_coord(c: int, step: int, k: nat)
    requires
        -1 <= step <= 1,
    ensures
        step == 0 ==> ray_coord(c, step, k) == c,
        step == 1 ==> ray_coord(c, step, k) == c + k,
        step == -1 ==> ray_coord(c, step, k) == c - k,
    decreases k,
{
    if k > 0 {
        lemma_ray_coord(c, step, (k - 1) as nat);
    }
}

/// A clear ray's prefix squares are on the board and empty.
proof fn lemma_ray_clear_prefix(
    b: Seq<Option<Piece>>,
    f: int,
    r: int,
    sf: int,
    sr: int,
    n: nat,
    m: nat,
)
    requires
        ray_clear(b, f, r, sf, sr, n),
        1 <= m <= n,
    ensures
        in_bounds(ray_coord(f, sf, m), ray_coord(r, sr, m)),
        cell_at(b, ray_coord(f, sf, m), ray_coord(r, sr, m)) is None,
    decreases n,
{
    if m < n {
        lemma_ray_clear_prefix(b, f, r, sf, sr, (n - 1) as nat, m);
    }
}

/// What a successful ray implies about where the target lies relative to
/// the origin, stated as an implication so it can be invoked broadly.
proof fn lemma_ray_facts(
    b: Seq<Option<Piece>>,
    f: int,
    r: int,
    sf: int,
    sr: int,
    tf: int,
    tr: int,
)
    requires
        -1 <= sf <= 1,
        -1 <= sr <= 1,
        !(sf == 0 && sr == 0),
    ensures
        ray_reaches(b, f, r, sf, sr, tf, tr) ==> {
            &&& (sf == 0 ==> tf == f)
            &&& (sf == 1 ==> tf > f)
            &&& (sf == -1 ==> tf < f)
            &&& (sr == 0 ==> tr == r)
            &&& (sr == 1 ==> tr > r)
            &&& (sr == -1 ==> tr < r)
            &&& (sf != 0 && sr != 0 ==> abs(tf - f) == abs(tr - r))
        },
{
    if ray_reaches(b, f, r, sf, sr, tf, tr) {
        let k = choose|k: nat|
            1 <= k && tf == ray_coord(f, sf, k) && tr == ray_coord(r, sr, k) && ray_clear(
                b,
                f,
                r,
                sf,
                sr,
                (k - 1) as nat,
            );
        lemma_ray_coord(f, sf, k);
        lemma_ray_coord(r, sr, k);
    }
}

/// Walks the ray from (f, r) in direction (sf, sr), reporting whether it
/// reaches (tf, tr) before a blocker or the edge of the board.
fn ray_probe(board: &Board, f: u8, r: u8, sf: i8, sr: i8, tf: u8, tr: u8) -> (res: bool)
    requires
        board.wf(),
        f < 8 && r < 8,
        tf < 8 && tr < 8,
        -1 <= sf <= 1,
        -1 <= sr <= 1,
        !(sf == 0 && sr == 0),
    ensures
        res == ray_reaches(board@, f as int, r as int, sf as int, sr as int, tf as int, tr as int),
{
    let ghost b = board@;
    let ghost ff = f as int;
    let ghost rr = r as int;
    let ghost gsf = sf as int;
    let ghost gsr = sr as int;
    let mut k: u16 = 1;
    let mut cf: i16 = f as i16 + sf as i16;
    let mut cr: i16 = r as i16 + sr as i16;
    proof {
        lemma_ray_coord(ff, gsf, 1);
        lemma_ray_coord(rr, gsr, 1);
    }
    loop
        invariant
            board.wf(),
            b == board@,
            ff == f as int && rr == r as int && gsf == sf as int && gsr == sr as int,
            f < 8 && r < 8 && tf < 8 && tr < 8,
            -1 <= sf <= 1 && -1 <= sr <= 1 && !(sf == 0 && sr == 0),
            1 <= k <= 16,
            cf == ray_coord(ff, gsf, k as nat),
            cr == ray_coord(rr, gsr, k as nat),
            ray_clear(b, ff, rr, gsf, gsr, (k - 1) as nat),
            forall|j: nat|
                1 <= j < k ==> !(tf == ray_coord(ff, gsf, j) && tr == ray_coord(rr, gsr, j)),
        decreases 20 - k,
    {
        proof {
            lemma_ray_coord(ff, gsf, k as nat);
            lemma_ray_coord(rr, gsr, k as nat);
        }
        if cf < 0 || cf >= 8 || cr < 0 || cr >= 8 {
            // The ray leaves the board before reaching the target.
            proof {
                assert forall|j: nat|
                    1 <= j && tf == ray_coord(ff, gsf, j) && tr == ray_coord(rr, gsr, j) implies
                    !ray_clear(b, ff, rr, gsf, gsr, (j - 1) as nat) by {
                    lemma_ray_coord(ff, gsf, j);
                    lemma_ray_coord(rr, gsr, j);
                    // j < k is excluded by the loop invariant; j == k would put the
                    // target off the board; j > k leaves square k inside the prefix.
                    if j > k {
                        if ray_clear(b, ff, rr, gsf, gsr, (j - 1) as nat) {
                            lemma_ray_clear_prefix(b, ff, rr, gsf, gsr, (j - 1) as nat, k as nat);
                        }
                    }
                }
            }
            return false;
        }
        let sq = Square { file: cf as u8, rank: cr as u8 };
        if cf == tf as i16 && cr == tr as i16 {
            proof {
                assert(tf == ray_coord(ff, gsf, k as nat) && tr == ray_coord(rr, gsr, k as nat)
                    && ray_clear(b, ff, rr, gsf, gsr, (k - 1) as nat));
            }
            return true;
        }
        let occupant = board.get(sq);
        if occupant.is_some() {
            // Blocked before the target.
            proof {
                assert forall|j: nat|
                    1 <= j && tf == ray_coord(ff, gsf, j) && tr == ray_coord(rr, gsr, j) implies
                    !ray_clear(b, ff, rr, gsf, gsr, (j - 1) as nat) by {
                    lemma_ray_coord(ff, gsf, j);
                    lemma_ray_coord(rr, gsr, j);
                    if j > k {
                        if ray_clear(b, ff, rr, gsf, gsr, (j - 1) as nat) {
                            lemma_ray_clear_prefix(b, ff, rr, gsf, gsr, (j - 1) as nat, k as nat);
                        }
                    }
                }
            }
            return false;
        }
        proof {
            lemma_ray_coord(ff, gsf, (k + 1) as nat);
            lemma_ray_coord(rr, gsr, (k + 1) as nat);
            assert(ray_clear(b, ff, rr, gsf, gsr, k as nat));
        }
        k = k + 1;
        cf = cf + sf as i16;
        cr = cr + sr as i16;
    }
}

/// Decides whether the movement pattern of `piece`, standing at `from`,
/// reaches `target` on the current board.
fn piece_attacks_square(state: &GameState, from: Square, target: Square, piece: Piece) -> (res:
    bool)
    requires
        state.wf(),
        from.wf(),
        target.wf(),
    ensures
        res == piece_attacks(
            state.board@,
            from.file as int,
            from.rank as int,
            target.file as int,
            target.rank as int,
            piece,
        ),
{
    let ghost b = state.board@;
    let ghost ff = from.file as int;
    let ghost fr = from.rank as int;
    let ghost tfi = target.file as int;
    let ghost tri = target.rank as int;
    let df: i16 = target.file as i16 - from.file as i16;
    let dr: i16 = target.rank as i16 - from.rank as i16;

    match piece.kind {
        PieceKind::Pawn => {
            let direction: i16 = match piece.color {
                PieceColor::White => 1,
                PieceColor::Black => -1,
            };
            dr == direction && (df == -1 || df == 1)
        },
        PieceKind::Knight => {
            let adf = if df < 0 {
                -df
            } else {
                df
            };
            let adr = if dr < 0 {
                -dr
            } else {
                dr
            };
            (adf == 1 && adr == 2) || (adf == 2 && adr == 1)
        },
        PieceKind::Bishop => {
            proof {
                lemma_ray_facts(b, ff, fr, 1, 1, tfi, tri);
                lemma_ray_facts(b, ff, fr, 1, -1, tfi, tri);
                lemma_ray_facts(b, ff, fr, -1, 1, tfi, tri);
                lemma_ray_facts(b, ff, fr, -1, -1, tfi, tri);
            }
            if df == 0 || dr == 0 {
                return false;
            }
            let adf = if df < 0 {
                -df
            } else {
                df
            };
            let adr = if dr < 0 {
                -dr
            } else {
                dr
            };
            if adf != adr {
                return false;
            }
            let sf: i8 = if df > 0 {
                1
            } else {
                -1
            };
            let sr: i8 = if dr > 0 {
                1
            } else {
                -1
            };
            ray_probe(&state.board, from.file, from.rank, sf, sr, target.file, target.rank)
        },
        PieceKind::Rook => {
            proof {
                lemma_ray_facts(b, ff, fr, 1, 0, tfi, tri);
                lemma_ray_facts(b, ff, fr, -1, 0, tfi, tri);
                lemma_ray_facts(b, ff, fr, 0, 1, tfi, tri);
                lemma_ray_facts(b, ff, fr, 0, -1, tfi, tri);
            }
            if df == 0 && dr == 0 {
                return false;
            }
            if df != 0 && dr != 0 {
                return false;
            }
            if df == 0 {
                let sr: i8 = if dr > 0 {
                    1
                } else {
                    -1
                };
                ray_probe(&state.board, from.file, from.rank, 0, sr, target.file, target.rank)
            } else {
                let sf: i8 = if df > 0 {
                    1
                } else {
                    -1
                };
                ray_probe(&state.board, from.file, from.rank, sf, 0, target.file, target.rank)
            }
        },
        PieceKind::Queen => {
            proof {
                lemma_ray_facts(b, ff, fr, 1, 1, tfi, tri);
                lemma_ray_facts(b, ff, fr, 1, -1, tfi, tri);
                lemma_ray_facts(b, ff, fr, -1, 1, tfi, tri);
                lemma_ray_facts(b, ff, fr, -1, -1, tfi, tri);
                lemma_ray_facts(b, ff, fr, 1, 0, tfi, tri);
                lemma_ray_facts(b, ff, fr, -1, 0, tfi, tri);
                lemma_ray_facts(b, ff, fr, 0, 1, tfi, tri);
                lemma_ray_facts(b, ff, fr, 0, -1, tfi, tri);
            }
            if df == 0 && dr == 0 {
                return false;
            }
            if df == 0 || dr == 0 {
                let sf: i8 = if df == 0 {
                    0
                } else if df > 0 {
                    1
                } else {
                    -1
                };
                let sr: i8 = if dr == 0 {
                    0
                } else if dr > 0 {
                    1
                } else {
                    -1
                };
                ray_probe(&state.board, from.file, from.rank, sf, sr, target.file, target.rank)
            } else {
                let adf = if df < 0 {
                    -df
                } else {
                    df
                };
                let adr = if dr < 0 {
                    -dr
                } else {
                    dr
                };
                if adf != adr {
                    return false;
                }
                let sf: i8 = if df > 0 {
                    1
                } else {
                    -1
                };
                let sr: i8 = if dr > 0 {
                    1
                } else {
                    -1
                };
                ray_probe(&state.board, from.file, from.rank, sf, sr, target.file, target.rank)
            }
        },
        PieceKind::King => {
            (df != 0 || dr != 0) && -1 <= df && df <= 1 && -1 <= dr && dr <= 1
        },
    }
}

/// Reports whether any piece of `by_color` attacks `target`.
pub fn is_square_attacked_by(state: &GameState, target: Square, by_color: PieceColor) -> (res:
    bool)
    requires
        state.wf(),
        target.wf(),
    ensures
        res == square_attacked(state.board@, target.file as int, target.rank as int, by_color),
{
    let ghost b = state.board@;
    let ghost tfi = target.file as int;
    let ghost tri = target.rank as int;
    let mut rank: u8 = 0;
    while rank < 8
        invariant
            state.wf(),
            target.wf(),
            b == state.board@,
            tfi == target.file as int && tri == target.rank as int,
            rank <= 8,
            forall|f: int, r: int| 0 <= r < rank && 0 <= f < 8 ==> !attacker_at(b, f, r, tfi, tri, by_color),
        decreases 8 - rank,
    {
        let mut file: u8 = 0;
        while file < 8
            invariant
                state.wf(),
                target.wf(),
                b == state.board@,
                tfi == target.file as int && tri == target.rank as int,
                rank < 8,
                file <= 8,
                forall|f: int, r: int| 0 <= r < rank && 0 <= f < 8 ==> !attacker_at(b, f, r, tfi, tri, by_color),
                forall|f: int| 0 <= f < file ==> !attacker_at(b, f, rank as int, tfi, tri, by_color),
            decreases 8 - file,
        {
            let from = Square { file, rank };
            match state.board.get(from) {
                Some(piece) => {
                    if piece.color == by_color
                        && piece_attacks_square(state, from, target, piece) {
                        proof {
                            assert(attacker_at(b, file as int, rank as int, tfi, tri, by_color));
                        }
                        return true;
                    }
                },
                None => {},
            }
            file = file + 1;
        }
        rank = rank + 1;
    }
    false
}

/// Finds the square of the first king of `color` in rank-major scan order.
fn find_king_square(state: &GameState, color: PieceColor) -> (r: Option<Square>)
    requires
        state.wf(),
    ensures
        match r {
            Some(sq) => sq.wf() && king_scan(state.board@, color, 0) == Some(
                sq.rank as int * 8 + sq.file as int,
            ),
            None => king_scan(state.board@, color, 0) is None,
        },
{
    let ghost b = state.board@;
    let mut rank: u8 = 0;
    while rank < 8
        invariant
            state.wf(),
            b == state.board@,
            rank <= 8,
            forall|i: int| 0 <= i < rank as int * 8 ==> !cell_holds_king(b[i], color),
        decreases 8 - rank,
    {
        let mut file: u8 = 0;
        while file < 8
            invariant
                state.wf(),
                b == state.board@,
                rank < 8,
                file <= 8,
                forall|i: int| 0 <= i < rank as int * 8 + file as int ==> !cell_holds_king(b[i], color),
            decreases 8 - file,
        {
            let square = Square { file, rank };
            match state.board.get(square) {
                Some(piece) => {
                    if piece.color == color && matches!(piece.kind, PieceKind::King) {
                        proof {
                            let idx = rank as int * 8 + file as int;
                            assert(cell_holds_king(b[idx], color));
                            lemma_king_scan_finds(b, color, idx);
                        }
                        return Some(square);
                    }
                },
                None => {},
            }
            file = file + 1;
        }
        rank = rank + 1;
    }
    proof {
        lemma_king_scan_none(b, color);
    }
    None
}

/// If no cell before `j` holds the king, the scan from 0 equals the scan from `j`.
proof fn lemma_king_scan_skip(b: Seq<Option<Piece>>, c: PieceColor, j: int)
    requires
        0 <= j <= 64,
        forall|i: int| 0 <= i < j ==> !cell_holds_king(b[i], c),
    ensures
        king_scan(b, c, 0) == king_scan(b, c, j),
    decreases j,
{
    if j > 0 {
        lemma_king_scan_skip(b, c, j - 1);
    }
}

/// A king cell at `idx`, with none earlier, is what the scan returns.
proof fn lemma_king_scan_finds(b: Seq<Option<Piece>>, c: PieceColor, idx: int)
    requires
        0 <= idx < 64,
        cell_holds_king(b[idx], c),
        forall|i: int| 0 <= i < idx ==> !cell_holds_king(b[i], c),
    ensures
        king_scan(b, c, 0) == Some(idx),
{
    lemma_king_scan_skip(b, c, idx);
}

/// With no king cell at all, the scan returns nothing.
proof fn lemma_king_scan_none(b: Seq<Option<Piece>>, c: PieceColor)
    requires
        forall|i: int| 0 <= i < 64 ==> !cell_holds_king(b[i], c),
    ensures
        king_scan(b, c, 0) is None,
{
    lemma_king_scan_skip(b, c, 64);
}

/// Reports whether the king of `color` is attacked; false when that king
/// is absent (a defensive default, not a reachable game state).
pub fn is_in_check_for_color(state: &GameState, color: PieceColor) -> (res: bool)
    requires
        state.wf(),
    ensures
        res == in_check(state.board@, color),
{
    let king_square = match find_king_square(state, color) {
        Some(sq) => sq,
        None => {
            return false;
        },
    };
    let enemy = opposite(color);
    let ghost idx = king_square.rank as int * 8 + king_square.file as int;
    proof {
        assert(idx % 8 == king_square.file as int && idx / 8 == king_square.rank as int) by (nonlinear_arith)
            requires
                idx == king_square.rank as int * 8 + king_square.file as int,
                0 <= (king_square.file as int) && (king_square.file as int) < 8,
                0 <= (king_square.rank as int) && (king_square.rank as int) < 8,
        ;
    }
    is_square_attacked_by(state, king_square, enemy)
}

/// The destination may be occupied only by an enemy of `c`.
pub open spec fn dest_ok(b: Seq<Option<Piece>>, tf: int, tr: int, c: PieceColor) -> bool {
    match cell_at(b, tf, tr) {
        Some(p) => p.color != c,
        None => true,
    }
}

/// An enemy of `c` occupies the square.
pub open spec fn enemy_at(b: Seq<Option<Piece>>, tf: int, tr: int, c: PieceColor) -> bool {
    match cell_at(b, tf, tr) {
        Some(p) => p.color != c,
        None => false,
    }
}

/// A move's promotion field is filled exactly when its destination lies on
/// a final rank, and then only with a promotable kind.
pub open spec fn promo_field_ok(m: Move) -> bool {
    if m.to.rank == 0 || m.to.rank == 7 {
        match m.promotion {
            Some(k) => spec_is_promo_kind(k),
            None => false,
        }
    } else {
        m.promotion is None
    }
}

/// The pawn movement rule: single push onto an empty square, double push
/// from the start rank through an empty square, diagonal capture, or an
/// en-passant capture onto the current target square beside an enemy pawn.
pub open spec fn pawn_move_ok(s: GameState, sq: Square, m: Move, c: PieceColor) -> bool {
    let b = s.board@;
    let ff = sq.file as int;
    let fr = sq.rank as int;
    let tf = m.to.file as int;
    let tr = m.to.rank as int;
    let d = pawn_dir(c);
    in_bounds(tf, tr) && {
        ||| (promo_field_ok(m) && tf == ff && tr == fr + d && cell_at(b, tf, tr) is None)
        ||| (promo_field_ok(m) && (tf == ff - 1 || tf == ff + 1) && tr == fr + d && enemy_at(
            b,
            tf,
            tr,
            c,
        ))
        ||| (m.promotion is None && tf == ff && fr == pawn_start_rank(c) && tr == fr + 2 * d
            && cell_at(b, ff, fr + d) is None && cell_at(b, tf, tr) is None)
        ||| (m.promotion is None && (tf == ff - 1 || tf == ff + 1) && tr == fr + d
            && s.en_passant_target == Some(m.to) && match cell_at(b, tf, fr) {
            Some(p) => p.kind == PieceKind::Pawn && p.color != c,
            None => false,
        })
    }
}

/// The right to castle on the king's side of the board.
pub open spec fn kingside_right(s: GameState, c: PieceColor) -> bool {
    if c == PieceColor::White {
        s.castling_rights.white_king_side
    } else {
        s.castling_rights.black_king_side
    }
}

/// The right to castle on the queen's side of the board.
pub open spec fn queenside_right(s: GameState, c: PieceColor) -> bool {
    if c == PieceColor::White {
        s.castling_rights.white_queen_side
    } else {
        s.castling_rights.black_queen_side
    }
}

/// The castling rule: the king stands on its home square and is not in
/// check; for the chosen wing the right is still held, the rook is on its
/// corner, the squares between are empty, and no square the king crosses
/// (destination included) is attacked. The move records only the king's
/// two-file step; the rook's relocation is a side effect of application.
pub open spec fn castle_ok(s: GameState, sq: Square, m: Move, c: PieceColor) -> bool {
    let b = s.board@;
    let h = home_rank(c);
    let e = spec_opposite(c);
    &&& m.promotion is None
    &&& sq.file == 4 && sq.rank as int == h
    &&& !square_attacked(b, 4, h, e)
    &&& m.to.rank as int == h
    &&& {
        ||| (m.to.file == 6 && kingside_right(s, c) && cell_at(b, 7, h) == Some(
            Piece { color: c, kind: PieceKind::Rook },
        ) && cell_at(b, 5, h) is None && cell_at(b, 6, h) is None && !square_attacked(b, 5, h, e)
            && !square_attacked(b, 6, h, e))
        ||| (m.to.file == 2 && queenside_right(s, c) && cell_at(b, 0, h) == Some(
            Piece { color: c, kind: PieceKind::Rook },
        ) && cell_at(b, 1, h) is None && cell_at(b, 2, h) is None && cell_at(b, 3, h) is None
            && !square_attacked(b, 3, h, e) && !square_attacked(b, 2, h, e))
    }
}

/// A single-square king step.
pub open spec fn king_step_ok(b: Seq<Option<Piece>>, sq: Square, m: Move, c: PieceColor) -> bool {
    let df = m.to.file as int - sq.file as int;
    let dr = m.to.rank as int - sq.rank as int;
    (df != 0 || dr != 0) && -1 <= df <= 1 && -1 <= dr <= 1 && dest_ok(
        b,
        m.to.file as int,
        m.to.rank as int,
        c,
    )
}

/// The pseudo-legal move relation: `m` obeys the movement pattern of the
/// piece standing at `sq`, ignoring whether it would leave the mover's own
/// king in check.
pub open spec fn is_pseudo_move(s: GameState, sq: Square, m: Move) -> bool {
    let b = s.board@;
    &&& sq.wf()
    &&& m.from == sq
    &&& match cell_at(b, sq.file as int, sq.rank as int) {
        None => false,
        Some(p) => {
            let tf = m.to.file as int;
            let tr = m.to.rank as int;
            let df = tf - sq.file as int;
            let dr = tr - sq.rank as int;
            match p.kind {
                PieceKind::Pawn => pawn_move_ok(s, sq, m, p.color),
                PieceKind::Knight => m.promotion is None && m.to.wf() && knight_jump(df, dr)
                    && dest_ok(b, tf, tr, p.color),
                PieceKind::Bishop => m.promotion is None && m.to.wf() && diag_reaches(
                    b,
                    sq.file as int,
                    sq.rank as int,
                    tf,
                    tr,
                ) && dest_ok(b, tf, tr, p.color),
                PieceKind::Rook => m.promotion is None && m.to.wf() && line_reaches(
                    b,
                    sq.file as int,
                    sq.rank as int,
                    tf,
                    tr,
                ) && dest_ok(b, tf, tr, p.color),
                PieceKind::Queen => m.promotion is None && m.to.wf() && (diag_reaches(
                    b,
                    sq.file as int,
                    sq.rank as int,
                    tf,
                    tr,
                ) || line_reaches(b, sq.file as int, sq.rank as int, tf, tr)) && dest_ok(
                    b,
                    tf,
                    tr,
                    p.color,
                ),
                PieceKind::King => (m.promotion is None && m.to.wf() && king_step_ok(
                    b,
                    sq,
                    m,
                    p.color,
                )) || castle_ok(s, sq, m, p.color),
            }
        },
    }
}

/// Appending an element extends the members of a sequence by exactly it.
proof fn lemma_push_contains<A>(s: Seq<A>, x: A)
    ensures
        forall|m: A| #[trigger] s.push(x).contains(m) <==> s.contains(m) || m == x,
{
    assert forall|m: A| #[trigger] s.push(x).contains(m) implies s.contains(m) || m == x by {
        let i = choose|i: int| 0 <= i < s.push(x).len() && s.push(x)[i] == m;
        if i < s.len() {
            assert(s[i] == m);
        }
    }
    assert forall|m: A| s.contains(m) || m == x implies #[trigger] s.push(x).contains(m) by {
        if s.contains(m) {
            let i = choose|i: int| 0 <= i < s.len() && s[i] == m;
            assert(s.push(x)[i] == m);
        } else {
            assert(s.push(x)[s.len() as int] == m);
        }
    }
}

/// The shape of the moves `push_move_with_optional_promotion` appends.
pub open spec fn pushed_form(m: Move, from: Square, to: Square, kind: PieceKind) -> bool {
    m.from == from && m.to == to && if kind == PieceKind::Pawn {
        promo_field_ok(m)
    } else {
        m.promotion is None
    }
}

/// Appends the move, expanded into the four promotion choices when a pawn
/// reaches a final rank.
fn push_move_with_optional_promotion(moves: &mut Vec<Move>, from: Square, to: Square, kind: PieceKind)
    ensures
        forall|m: Move|
            final(moves)@.contains(m) <==> old(moves)@.contains(m) || pushed_form(m, from, to, kind),
{
    let is_pawn = matches!(kind, PieceKind::Pawn);
    if is_pawn && (to.rank == 0 || to.rank == 7) {
        proof {
            lemma_push_contains(moves@, Move { from, to, promotion: Some(PieceKind::Queen) });
        }
        moves.push(Move { from, to, promotion: Some(PieceKind::Queen) });
        proof {
            lemma_push_contains(moves@, Move { from, to, promotion: Some(PieceKind::Rook) });
        }
        moves.push(Move { from, to, promotion: Some(PieceKind::Rook) });
        proof {
            lemma_push_contains(moves@, Move { from, to, promotion: Some(PieceKind::Bishop) });
        }
        moves.push(Move { from, to, promotion: Some(PieceKind::Bishop) });
        proof {
            lemma_push_contains(moves@, Move { from, to, promotion: Some(PieceKind::Knight) });
        }
        moves.push(Move { from, to, promotion: Some(PieceKind::Knight) });
    } else {
        proof {
            lemma_push_contains(moves@, Move { from, to, promotion: None });
        }
        moves.push(Move { from, to, promotion: None });
    }
}

/// The shape of a move appended by `try_offset`.
pub open spec fn offset_move_form(
    b: Seq<Option<Piece>>,
    from: Square,
    df: int,
    dr: int,
    m: Move,
    c: PieceColor,
) -> bool {
    &&& m.from == from
    &&& m.promotion is None
    &&& m.to.wf()
    &&& m.to.file as int == from.file as int + df
    &&& m.to.rank as int == from.rank as int + dr
    &&& dest_ok(b, m.to.file as int, m.to.rank as int, c)
}

/// Appends the move to the square offset by (df, dr), when that square is
/// on the board and free of friendly pieces.
fn try_offset(state: &GameState, from: Square, color: PieceColor, df: i8, dr: i8, moves: &mut Vec<
    Move,
>)
    requires
        state.wf(),
        from.wf(),
        -2 <= df <= 2,
        -2 <= dr <= 2,
    ensures
        forall|m: Move|
            final(moves)@.contains(m) <==> old(moves)@.contains(m) || offset_move_form(
                state.board@,
                from,
                df as int,
                dr as int,
                m,
                color,
            ),
{
    let tf: i16 = from.file as i16 + df as i16;
    let tr: i16 = from.rank as i16 + dr as i16;
    if 0 <= tf && tf < 8 && 0 <= tr && tr < 8 {
        let to = Square { file: tf as u8, rank: tr as u8 };
        let push_it = match state.board.get(to) {
            Some(p) => p.color != color,
            None => true,
        };
        if push_it {
            proof {
                lemma_push_contains(moves@, Move { from, to, promotion: None });
            }
            moves.push(Move { from, to, promotion: None });
        }
    }
}

/// The shape of a move appended while walking one ray.
pub open spec fn ray_move_form(
    b: Seq<Option<Piece>>,
    from: Square,
    sf: int,
    sr: int,
    m: Move,
    c: PieceColor,
) -> bool {
    &&& m.from == from
    &&& m.promotion is None
    &&& m.to.wf()
    &&& ray_reaches(b, from.file as int, from.rank as int, sf, sr, m.to.file as int, m.to.rank as int)
    &&& dest_ok(b, m.to.file as int, m.to.rank as int, c)
}

/// The moves collected so far while walking a ray: every square from one
/// to `k - 1` steps along the direction, as a plain move.
pub open spec fn ray_prefix_form(from: Square, sf: int, sr: int, k: nat, m: Move) -> bool {
    &&& m.from == from
    &&& m.promotion is None
    &&& m.to.wf()
    &&& exists|j: nat|
        1 <= j < k && m.to.file as int == ray_coord(from.file as int, sf, j) && m.to.rank as int
            == ray_coord(from.rank as int, sr, j)
}

/// Truncating a clear ray keeps it clear.
proof fn lemma_ray_clear_trunc(
    b: Seq<Option<Piece>>,
    f: int,
    r: int,
    sf: int,
    sr: int,
    n: nat,
    m: nat,
)
    requires
        ray_clear(b, f, r, sf, sr, n),
        m <= n,
    ensures
        ray_clear(b, f, r, sf, sr, m),
    decreases n,
{
    if m < n {
        lemma_ray_clear_trunc(b, f, r, sf, sr, (n - 1) as nat, m);
    }
}

/// Walks one ray from `from`, appending a move for every empty square and
/// one capture move for a blocking enemy piece.
fn generate_sliding_moves(
    state: &GameState,
    from: Square,
    color: PieceColor,
    sf: i8,
    sr: i8,
    moves: &mut Vec<Move>,
)
    requires
        state.wf(),
        from.wf(),
        -1 <= sf <= 1,
        -1 <= sr <= 1,
        !(sf == 0 && sr == 0),
    ensures
        forall|m: Move|
            final(moves)@.contains(m) <==> old(moves)@.contains(m) || ray_move_form(
                state.board@,
                from,
                sf as int,
                sr as int,
                m,
                color,
            ),
{
    let ghost b = state.board@;
    let ghost ff = from.file as int;
    let ghost fr = from.rank as int;
    let ghost gsf = sf as int;
    let ghost gsr = sr as int;
    let mut k: u16 = 1;
    let mut cf: i16 = from.file as i16 + sf as i16;
    let mut cr: i16 = from.rank as i16 + sr as i16;
    proof {
        lemma_ray_coord(ff, gsf, 1);
        lemma_ray_coord(fr, gsr, 1);
    }
    loop
        invariant
            state.wf(),
            from.wf(),
            b == state.board@,
            ff == from.file as int && fr == from.rank as int,
            gsf == sf as int && gsr == sr as int,
            -1 <= sf <= 1 && -1 <= sr <= 1 && !(sf == 0 && sr == 0),
            1 <= k <= 16,
            cf == ray_coord(ff, gsf, k as nat),
            cr == ray_coord(fr, gsr, k as nat),
            ray_clear(b, ff, fr, gsf, gsr, (k - 1) as nat),
            forall|m: Move|
                moves@.contains(m) <==> old(moves)@.contains(m) || ray_prefix_form(
                    from,
                    gsf,
                    gsr,
                    k as nat,
                    m,
                ),
        decreases 20 - k,
    {
        proof {
            lemma_ray_coord(ff, gsf, k as nat);
            lemma_ray_coord(fr, gsr, k as nat);
        }
        if cf < 0 || cf >= 8 || cr < 0 || cr >= 8 {
            // The ray has left the board: what is collected is exactly what it reaches.
            proof {
                lemma_ray_exit_empty(b, from, gsf, gsr, k as nat, color);
            }
            return;
        }
        let to = Square { file: cf as u8, rank: cr as u8 };
        match state.board.get(to) {
            Some(target_piece) => {
                if target_piece.color != color {
                    proof {
                        lemma_push_contains(moves@, Move { from, to, promotion: None });
                    }
                    moves.push(Move { from, to, promotion: None });
                    proof {
                        lemma_ray_exit_blocked(b, from, gsf, gsr, k as nat, color, true);
                        assert forall|m: Move|
                            moves@.contains(m) <==> old(moves)@.contains(m) || ray_move_form(
                                b,
                                from,
                                gsf,
                                gsr,
                                m,
                                color,
                            ) by {
                            let m0 = Move { from, to, promotion: None };
                            if m == m0 {
                                assert(ray_move_form(b, from, gsf, gsr, m, color));
                            }
                        }
                    }
                } else {
                    proof {
                        lemma_ray_exit_blocked(b, from, gsf, gsr, k as nat, color, false);
                    }
                }
                return;
            },
            None => {
                proof {
                    lemma_push_contains(moves@, Move { from, to, promotion: None });
                }
                moves.push(Move { from, to, promotion: None });
                proof {
                    lemma_ray_coord(ff, gsf, (k + 1) as nat);
                    lemma_ray_coord(fr, gsr, (k + 1) as nat);
                    assert(ray_clear(b, ff, fr, gsf, gsr, k as nat));
                    let m0 = Move { from, to, promotion: None };
                    assert(m0.to.file as int == ray_coord(ff, gsf, k as nat) && m0.to.rank as int
                        == ray_coord(fr, gsr, k as nat));
                    assert(ray_prefix_form(from, gsf, gsr, (k + 1) as nat, m0));
                    assert forall|m: Move|
                        #[trigger] ray_prefix_form(from, gsf, gsr, k as nat, m) implies
                        ray_prefix_form(from, gsf, gsr, (k + 1) as nat, m) by {
                        let j = choose|j: nat|
                            1 <= j < k && m.to.file as int == ray_coord(ff, gsf, j)
                                && m.to.rank as int == ray_coord(fr, gsr, j);
                        assert(1 <= j < k + 1 && m.to.file as int == ray_coord(ff, gsf, j)
                            && m.to.rank as int == ray_coord(fr, gsr, j));
                    }
                    assert forall|m: Move|
                        ray_prefix_form(from, gsf, gsr, (k + 1) as nat, m) && m != m0 implies
                        ray_prefix_form(from, gsf, gsr, k as nat, m) by {
                        let j = choose|j: nat|
                            1 <= j < k + 1 && m.to.file as int == ray_coord(ff, gsf, j)
                                && m.to.rank as int == ray_coord(fr, gsr, j);
                        if j == k {
                            assert(m.to == m0.to);
                            assert(m == m0);
                        } else {
                            assert(1 <= j < k && m.to.file as int == ray_coord(ff, gsf, j)
                                && m.to.rank as int == ray_coord(fr, gsr, j));
                        }
                    }
                }
                k = k + 1;
                cf = cf + sf as i16;
                cr = cr + sr as i16;
            },
        }
    }
}

/// The occupant of a square of the position's board.
fn piece_at(state: &GameState, square: Square) -> (r: Option<Piece>)
    requires
        state.wf(),
        square.wf(),
    ensures
        r == cell_at(state.board@, square.file as int, square.rank as int),
{
    state.board.get(square)
}

/// The square holds no piece.
fn is_empty(state: &GameState, square: Square) -> (r: bool)
    requires
        state.wf(),
        square.wf(),
    ensures
        r == (cell_at(state.board@, square.file as int, square.rank as int) is None),
{
    piece_at(state, square).is_none()
}

/// The square holds a piece of the side opposing `color`.
fn is_enemy_piece(state: &GameState, square: Square, color: PieceColor) -> (r: bool)
    requires
        state.wf(),
        square.wf(),
    ensures
        r == enemy_at(state.board@, square.file as int, square.rank as int, color),
{
    match piece_at(state, square) {
        Some(piece) => piece.color != color,
        None => false,
    }
}

/// The rank the king of `color` starts on.
fn king_home_rank(color: PieceColor) -> (r: u8)
    ensures
        r as int == home_rank(color),
{
    match color {
        PieceColor::White => 0,
        PieceColor::Black => 7,
    }
}

/// This color's (king-side, queen-side) castling rights.
fn castling_rights_for_color(state: &GameState, color: PieceColor) -> (r: (bool, bool))
    ensures
        r.0 == kingside_right(*state, color),
        r.1 == queenside_right(*state, color),
{
    match color {
        PieceColor::White => (
            state.castling_rights.white_king_side,
            state.castling_rights.white_queen_side,
        ),
        PieceColor::Black => (
            state.castling_rights.black_king_side,
            state.castling_rights.black_queen_side,
        ),
    }
}

/// Appends the castling moves available to the king of `color` standing
/// on `from`.
fn add_castling_moves(state: &GameState, from: Square, color: PieceColor, moves: &mut Vec<Move>)
    requires
        state.wf(),
        from.wf(),
    ensures
        forall|m: Move|
            final(moves)@.contains(m) <==> old(moves)@.contains(m) || (m.from == from && castle_ok(
                *state,
                from,
                m,
                color,
            )),
{
    let home = king_home_rank(color);
    if from.file != 4 || from.rank != home {
        return;
    }
    let enemy = opposite(color);
    if is_square_attacked_by(state, from, enemy) {
        return;
    }
    let (king_side_allowed, queen_side_allowed) = castling_rights_for_color(state, color);

    if king_side_allowed {
        let fsq = Square { file: 5, rank: from.rank };
        let gsq = Square { file: 6, rank: from.rank };
        let rook_square = Square { file: 7, rank: from.rank };
        let rook_ok = match piece_at(state, rook_square) {
            Some(piece) => piece.color == color && matches!(piece.kind, PieceKind::Rook),
            None => false,
        };
        if rook_ok && is_empty(state, fsq) && is_empty(state, gsq) && !is_square_attacked_by(
            state,
            fsq,
            enemy,
        ) && !is_square_attacked_by(state, gsq, enemy) {
            proof {
                lemma_push_contains(moves@, Move { from, to: gsq, promotion: None });
            }
            moves.push(Move { from, to: gsq, promotion: None });
        }
    }

    if queen_side_allowed {
        let bsq = Square { file: 1, rank: from.rank };
        let csq = Square { file: 2, rank: from.rank };
        let dsq = Square { file: 3, rank: from.rank };
        let rook_square = Square { file: 0, rank: from.rank };
        let rook_ok = match piece_at(state, rook_square) {
            Some(piece) => piece.color == color && matches!(piece.kind, PieceKind::Rook),
            None => false,
        };
        if rook_ok && is_empty(state, bsq) && is_empty(state, csq) && is_empty(state, dsq)
            && !is_square_attacked_by(state, dsq, enemy) && !is_square_attacked_by(
            state,
            csq,
            enemy,
        ) {
            proof {
                lemma_push_contains(moves@, Move { from, to: csq, promotion: None });
            }
            moves.push(Move { from, to: csq, promotion: None });
        }
    }
}

/// Appends every pawn move available from `sq`.
fn pawn_moves(state: &GameState, sq: Square, piece: Piece, moves: &mut Vec<Move>)
    requires
        state.wf(),
        sq.wf(),
        piece.kind == PieceKind::Pawn,
    ensures
        forall|m: Move|
            final(moves)@.contains(m) <==> old(moves)@.contains(m) || (m.from == sq && pawn_move_ok(
                *state,
                sq,
                m,
                piece.color,
            )),
{
    let color = piece.color;
    let direction: i16 = match color {
        PieceColor::White => 1,
        PieceColor::Black => -1,
    };
    let start_rank: u8 = match color {
        PieceColor::White => 1,
        PieceColor::Black => 6,
    };
    let one_r: i16 = sq.rank as i16 + direction;
    if one_r < 0 || one_r >= 8 {
        return;
    }
    let one_step = Square { file: sq.file, rank: one_r as u8 };
    if is_empty(state, one_step) {
        push_move_with_optional_promotion(moves, sq, one_step, PieceKind::Pawn);
        if sq.rank == start_rank {
            let two_r: i16 = sq.rank as i16 + 2 * direction;
            let two_step = Square { file: sq.file, rank: two_r as u8 };
            if is_empty(state, two_step) {
                proof {
                    lemma_push_contains(moves@, Move { from: sq, to: two_step, promotion: None });
                }
                moves.push(Move { from: sq, to: two_step, promotion: None });
            }
        }
    }

    // Diagonal captures, one file to each side.
    let left_f: i16 = sq.file as i16 - 1;
    if left_f >= 0 {
        let capture_square = Square { file: left_f as u8, rank: one_r as u8 };
        if is_enemy_piece(state, capture_square, color) {
            push_move_with_optional_promotion(moves, sq, capture_square, PieceKind::Pawn);
        }
    }
    let right_f: i16 = sq.file as i16 + 1;
    if right_f < 8 {
        let capture_square = Square { file: right_f as u8, rank: one_r as u8 };
        if is_enemy_piece(state, capture_square, color) {
            push_move_with_optional_promotion(moves, sq, capture_square, PieceKind::Pawn);
        }
    }

    // En-passant capture onto the current target square.
    if let Some(en_passant_target) = state.en_passant_target {
        if left_f >= 0 && en_passant_target.file as i16 == left_f && en_passant_target.rank as i16
            == one_r {
            let adjacent = Square { file: left_f as u8, rank: sq.rank };
            let pawn_beside = match piece_at(state, adjacent) {
                Some(p) => matches!(p.kind, PieceKind::Pawn) && p.color != color,
                None => false,
            };
            if pawn_beside {
                proof {
                    lemma_push_contains(
                        moves@,
                        Move { from: sq, to: en_passant_target, promotion: None },
                    );
                }
                moves.push(Move { from: sq, to: en_passant_target, promotion: None });
            }
        }
        if right_f < 8 && en_passant_target.file as i16 == right_f && en_passant_target.rank as i16
            == one_r {
            let adjacent = Square { file: right_f as u8, rank: sq.rank };
            let pawn_beside = match piece_at(state, adjacent) {
                Some(p) => matches!(p.kind, PieceKind::Pawn) && p.color != color,
                None => false,
            };
            if pawn_beside {
                proof {
                    lemma_push_contains(
                        moves@,
                        Move { from: sq, to: en_passant_target, promotion: None },
                    );
                }
                moves.push(Move { from: sq, to: en_passant_target, promotion: None });
            }
        }
    }
}

/// Enumerates the candidate moves of the piece on `square`, honoring its
/// movement pattern but ignoring whether the mover's king is left in
/// check: the returned list holds exactly the pseudo-legal moves.
pub fn generate_pseudo_legal_moves_for_square(state: &GameState, square: Square) -> (moves: Vec<
    Move,
>)
    requires
        state.wf(),
        square.wf(),
    ensures
        forall|m: Move| #[trigger] moves@.contains(m) <==> is_pseudo_move(*state, square, m),
{
    let mut moves: Vec<Move> = Vec::new();
    let piece = match piece_at(state, square) {
        Some(piece) => piece,
        None => {
            return moves;
        },
    };

    match piece.kind {
        PieceKind::Pawn => {
            pawn_moves(state, square, piece, &mut moves);
        },
        PieceKind::Knight => {
            try_offset(state, square, piece.color, -2, -1, &mut moves);
            try_offset(state, square, piece.color, -2, 1, &mut moves);
            try_offset(state, square, piece.color, -1, -2, &mut moves);
            try_offset(state, square, piece.color, -1, 2, &mut moves);
            try_offset(state, square, piece.color, 1, -2, &mut moves);
            try_offset(state, square, piece.color, 1, 2, &mut moves);
            try_offset(state, square, piece.color, 2, -1, &mut moves);
            try_offset(state, square, piece.color, 2, 1, &mut moves);
        },
        PieceKind::Bishop => {
            generate_sliding_moves(state, square, piece.color, -1, -1, &mut moves);
            generate_sliding_moves(state, square, piece.color, 1, -1, &mut moves);
            generate_sliding_moves(state, square, piece.color, -1, 1, &mut moves);
            generate_sliding_moves(state, square, piece.color, 1, 1, &mut moves);
        },
        PieceKind::Rook => {
            generate_sliding_moves(state, square, piece.color, -1, 0, &mut moves);
            generate_sliding_moves(state, square, piece.color, 1, 0, &mut moves);
            generate_sliding_moves(state, square, piece.color, 0, -1, &mut moves);
            generate_sliding_moves(state, square, piece.color, 0, 1, &mut moves);
        },
        PieceKind::Queen => {
            generate_sliding_moves(state, square, piece.color, -1, -1, &mut moves);
            generate_sliding_moves(state, square, piece.color, 1, -1, &mut moves);
            generate_sliding_moves(state, square, piece.color, -1, 1, &mut moves);
            generate_sliding_moves(state, square, piece.color, 1, 1, &mut moves);
            generate_sliding_moves(state, square, piece.color, -1, 0, &mut moves);
            generate_sliding_moves(state, square, piece.color, 1, 0, &mut moves);
            generate_sliding_moves(state, square, piece.color, 0, -1, &mut moves);
            generate_sliding_moves(state, square, piece.color, 0, 1, &mut moves);
        },
        PieceKind::King => {
            try_offset(state, square, piece.color, -1, -1, &mut moves);
            try_offset(state, square, piece.color, 0, -1, &mut moves);
            try_offset(state, square, piece.color, 1, -1, &mut moves);
            try_offset(state, square, piece.color, -1, 0, &mut moves);
            try_offset(state, square, piece.color, 1, 0, &mut moves);
            try_offset(state, square, piece.color, -1, 1, &mut moves);
            try_offset(state, square, piece.color, 0, 1, &mut moves);
            try_offset(state, square, piece.color, 1, 1, &mut moves);
            add_castling_moves(state, square, piece.color, &mut moves);
        },
    }

    moves
}

/// At an off-board exit after `k` steps, the collected prefix is exactly
/// the set of reachable ray moves.
proof fn lemma_ray_exit_empty(
    b: Seq<Option<Piece>>,
    from: Square,
    sf: int,
    sr: int,
    k: nat,
    c: PieceColor,
)
    requires
        from.wf(),
        -1 <= sf <= 1,
        -1 <= sr <= 1,
        !(sf == 0 && sr == 0),
        1 <= k,
        ray_clear(b, from.file as int, from.rank as int, sf, sr, (k - 1) as nat),
        !in_bounds(
            ray_coord(from.file as int, sf, k),
            ray_coord(from.rank as int, sr, k),
        ),
    ensures
        forall|m: Move|
            ray_prefix_form(from, sf, sr, k, m) <==> ray_move_form(b, from, sf, sr, m, c),
{
    let ff = from.file as int;
    let fr = from.rank as int;
    assert forall|m: Move| ray_prefix_form(from, sf, sr, k, m) implies ray_move_form(
        b,
        from,
        sf,
        sr,
        m,
        c,
    ) by {
        let j = choose|j: nat|
            1 <= j < k && m.to.file as int == ray_coord(ff, sf, j) && m.to.rank as int == ray_coord(
                fr,
                sr,
                j,
            );
        lemma_ray_clear_trunc(b, ff, fr, sf, sr, (k - 1) as nat, (j - 1) as nat);
        lemma_ray_clear_prefix(b, ff, fr, sf, sr, (k - 1) as nat, j);
        assert(cell_at(b, m.to.file as int, m.to.rank as int) is None);
    }
    assert forall|m: Move| ray_move_form(b, from, sf, sr, m, c) implies ray_prefix_form(
        from,
        sf,
        sr,
        k,
        m,
    ) by {
        let j = choose|j: nat|
            1 <= j && m.to.file as int == ray_coord(ff, sf, j) && m.to.rank as int == ray_coord(
                fr,
                sr,
                j,
            ) && ray_clear(b, ff, fr, sf, sr, (j - 1) as nat);
        if j == k {
            assert(false);
        } else if j > k {
            lemma_ray_clear_prefix(b, ff, fr, sf, sr, (j - 1) as nat, k);
            assert(false);
        }
        assert(1 <= j < k && m.to.file as int == ray_coord(ff, sf, j) && m.to.rank as int
            == ray_coord(fr, sr, j));
    }
}

/// At a blocked exit after `k` steps (an occupant at step `k`), the
/// reachable ray moves are the collected prefix, plus the capture of an
/// enemy occupant.
proof fn lemma_ray_exit_blocked(
    b: Seq<Option<Piece>>,
    from: Square,
    sf: int,
    sr: int,
    k: nat,
    c: PieceColor,
    enemy: bool,
)
    requires
        from.wf(),
        -1 <= sf <= 1,
        -1 <= sr <= 1,
        !(sf == 0 && sr == 0),
        1 <= k,
        ray_clear(b, from.file as int, from.rank as int, sf, sr, (k - 1) as nat),
        in_bounds(ray_coord(from.file as int, sf, k), ray_coord(from.rank as int, sr, k)),
        match cell_at(b, ray_coord(from.file as int, sf, k), ray_coord(from.rank as int, sr, k)) {
            Some(p) => enemy == (p.color != c),
            None => false,
        },
    ensures
        forall|m: Move|
            ray_move_form(b, from, sf, sr, m, c) <==> ray_prefix_form(from, sf, sr, k, m) || (
            enemy && m == (Move {
                from,
                to: Square {
                    file: ray_coord(from.file as int, sf, k) as u8,
                    rank: ray_coord(from.rank as int, sr, k) as u8,
                },
                promotion: None,
            })),
{
    let ff = from.file as int;
    let fr = from.rank as int;
    let bto = Square {
        file: ray_coord(ff, sf, k) as u8,
        rank: ray_coord(fr, sr, k) as u8,
    };
    assert forall|m: Move| ray_move_form(b, from, sf, sr, m, c) implies ray_prefix_form(
        from,
        sf,
        sr,
        k,
        m,
    ) || (enemy && m == (Move { from, to: bto, promotion: None })) by {
        let j = choose|j: nat|
            1 <= j && m.to.file as int == ray_coord(ff, sf, j) && m.to.rank as int == ray_coord(
                fr,
                sr,
                j,
            ) && ray_clear(b, ff, fr, sf, sr, (j - 1) as nat);
        if j == k {
            assert(m.to == bto);
            assert(enemy) by {
                assert(dest_ok(b, m.to.file as int, m.to.rank as int, c));
            }
        } else if j > k {
            lemma_ray_clear_prefix(b, ff, fr, sf, sr, (j - 1) as nat, k);
            assert(false);
        } else {
            assert(1 <= j < k && m.to.file as int == ray_coord(ff, sf, j) && m.to.rank as int
                == ray_coord(fr, sr, j));
        }
    }
    assert forall|m: Move|
        ray_prefix_form(from, sf, sr, k, m) || (enemy && m == (Move {
            from,
            to: bto,
            promotion: None,
        })) implies ray_move_form(b, from, sf, sr, m, c) by {
        if ray_prefix_form(from, sf, sr, k, m) {
            let j = choose|j: nat|
                1 <= j < k && m.to.file as int == ray_coord(ff, sf, j) && m.to.rank as int
                    == ray_coord(fr, sr, j);
            lemma_ray_clear_trunc(b, ff, fr, sf, sr, (k - 1) as nat, (j - 1) as nat);
            lemma_ray_clear_prefix(b, ff, fr, sf, sr, (k - 1) as nat, j);
            assert(cell_at(b, m.to.file as int, m.to.rank as int) is None);
        } else {
            assert(m.to.file as int == ray_coord(ff, sf, k) && m.to.rank as int == ray_coord(
                fr,
                sr,
                k,
            ));
        }
    }
}

/// The piece as it lands: its kind replaced when the move promotes.
pub open spec fn moved_piece_after(p: Piece, m: Move) -> Piece {
    match m.promotion {
        Some(k) => Piece { color: p.color, kind: k },
        None => p,
    }
}

/// The move is an en-passant capture: a pawn stepping diagonally onto the
/// empty current target square.
pub open spec fn is_ep_capture(s: GameState, m: Move, p: Piece) -> bool {
    &&& p.kind == PieceKind::Pawn
    &&& m.from.file != m.to.file
    &&& cell_at(s.board@, m.to.file as int, m.to.rank as int) is None
    &&& s.en_passant_target == Some(m.to)
}

/// The move is a castle: a king stepping two files.
pub open spec fn is_castle_move(m: Move, p: Piece) -> bool {
    p.kind == PieceKind::King && (m.to.file as int - m.from.file as int == 2 || m.from.file as int
        - m.to.file as int == 2)
}

/// The occupant of (f, r) after applying a pseudo-legal move: the moved
/// (possibly promoted) piece lands on the destination; the source empties;
/// an en-passant capture clears the jumped pawn behind the destination;
/// a castle relocates the rook from its corner; all else is untouched.
pub open spec fn applied_cell(s: GameState, m: Move, f: int, r: int) -> Option<Piece> {
    let b = s.board@;
    let p = cell_at(b, m.from.file as int, m.from.rank as int).unwrap();
    let tf = m.to.file as int;
    let tr = m.to.rank as int;
    let ff = m.from.file as int;
    let fr = m.from.rank as int;
    if f == tf && r == tr {
        Some(moved_piece_after(p, m))
    } else if is_castle_move(m, p) && tf > ff && f == 5 && r == fr {
        cell_at(b, 7, fr)
    } else if is_castle_move(m, p) && tf > ff && f == 7 && r == fr {
        None
    } else if is_castle_move(m, p) && tf < ff && f == 3 && r == fr {
        cell_at(b, 0, fr)
    } else if is_castle_move(m, p) && tf < ff && f == 0 && r == fr {
        None
    } else if is_ep_capture(s, m, p) && f == tf && r == fr {
        None
    } else if f == ff && r == fr {
        None
    } else {
        cell_at(b, f, r)
    }
}

/// The whole board after applying a pseudo-legal move.
pub open spec fn post_board(s: GameState, m: Move) -> Seq<Option<Piece>> {
    Seq::new(64, |i: int| applied_cell(s, m, i % 8, i / 8))
}

/// The move is a pawn's two-rank advance.
pub open spec fn is_double_push(m: Move, p: Piece) -> bool {
    p.kind == PieceKind::Pawn && (m.to.rank as int - m.from.rank as int == 2 || m.from.rank as int
        - m.to.rank as int == 2)
}

/// The en-passant target after the move: the skipped square after a
/// double push, cleared otherwise.
pub open spec fn ep_target_after(s: GameState, m: Move) -> Option<Square> {
    let p = cell_at(s.board@, m.from.file as int, m.from.rank as int).unwrap();
    if is_double_push(m, p) {
        Some(
            Square {
                file: m.from.file,
                rank: ((m.from.rank as int + m.to.rank as int) / 2) as u8,
            },
        )
    } else {
        None
    }
}

/// The move displaces an opposing piece, directly or en passant.
pub open spec fn captures_piece(s: GameState, m: Move, p: Piece) -> bool {
    cell_at(s.board@, m.to.file as int, m.to.rank as int) is Some || is_ep_capture(s, m, p)
}

/// Increment capped at the type's maximum, so clocks cannot wrap.
pub open spec fn inc_sat(x: u32) -> u32 {
    if x < 0xffff_ffffu32 {
        (x + 1) as u32
    } else {
        x
    }
}

/// The halfmove clock after the move: reset by a pawn move or a capture,
/// advanced otherwise.
pub open spec fn halfmove_after(s: GameState, m: Move) -> u32 {
    let p = cell_at(s.board@, m.from.file as int, m.from.rank as int).unwrap();
    if p.kind == PieceKind::Pawn || captures_piece(s, m, p) {
        0u32
    } else {
        inc_sat(s.halfmove_clock)
    }
}

/// The fullmove number after the move: advanced when Black just moved.
pub open spec fn fullmove_after(s: GameState) -> u32 {
    if s.active_color == PieceColor::Black {
        inc_sat(s.fullmove_number)
    } else {
        s.fullmove_number
    }
}

/// Increments a clock, capped at the type's maximum.
fn bump_clock(x: u32) -> (r: u32)
    ensures
        r == inc_sat(x),
{
    if x < 0xffff_ffffu32 {
        x + 1
    } else {
        x
    }
}

/// Applies a pseudo-legal move without re-validating legality, producing
/// the follow-on position; castling rights and status are left for the
/// checked transition to recompute.
pub(crate) fn apply_move_unchecked(state: &GameState, mv: &Move) -> (next: GameState)
    requires
        state.wf(),
        is_pseudo_move(*state, mv.from, *mv),
    ensures
        next.wf(),
        next.board@ == post_board(*state, *mv),
        next.active_color == spec_opposite(state.active_color),
        next.castling_rights == state.castling_rights,
        next.status == state.status,
        next.en_passant_target == ep_target_after(*state, *mv),
        next.halfmove_clock == halfmove_after(*state, *mv),
        next.fullmove_number == fullmove_after(*state),
{
    let ghost s = *state;
    let ghost m = *mv;
    let moving_piece = match piece_at(state, mv.from) {
        Some(p) => p,
        None => {
            proof {
                assert(false);
            }
            Piece { color: PieceColor::White, kind: PieceKind::Pawn }
        },
    };
    proof {
        assert(mv.to.wf()) by {
            if moving_piece.kind == PieceKind::King {
                assert(mv.to.wf());
            }
        }
    }
    let target_before = piece_at(state, mv.to);
    let is_en_passant = matches!(moving_piece.kind, PieceKind::Pawn) && mv.from.file != mv.to.file
        && target_before.is_none() && match state.en_passant_target {
        Some(t) => t == mv.to,
        None => false,
    };

    let mut board = state.board.dup();
    board.put(mv.from, None);

    if is_en_passant {
        let capture_square = Square { file: mv.to.file, rank: mv.from.rank };
        board.put(capture_square, None);
    }

    let df: i16 = mv.to.file as i16 - mv.from.file as i16;
    if matches!(moving_piece.kind, PieceKind::King) && (df == 2 || df == -2) {
        proof {
            assert(castle_ok(s, mv.from, m, moving_piece.color));
        }
        let rank = mv.from.rank;
        if df == 2 {
            let rook_from = Square { file: 7, rank };
            let rook_to = Square { file: 5, rank };
            let rook = board.get(rook_from);
            board.put(rook_from, None);
            board.put(rook_to, rook);
        } else {
            let rook_from = Square { file: 0, rank };
            let rook_to = Square { file: 3, rank };
            let rook = board.get(rook_from);
            board.put(rook_from, None);
            board.put(rook_to, rook);
        }
    }

    let landed = match mv.promotion {
        Some(kind) => Piece { color: moving_piece.color, kind },
        None => moving_piece,
    };
    board.put(mv.to, Some(landed));

    proof {
        assert forall|i: int| 0 <= i < 64 implies board@[i] == post_board(s, m)[i] by {
            let f = i % 8;
            let r = i / 8;
            assert(i == r * 8 + f && 0 <= f < 8 && 0 <= r < 8) by (nonlinear_arith)
                requires
                    0 <= i < 64 && f == i % 8 && r == i / 8,
            ;
            assert(cell_at(board@, f, r) == board@[i]);
            assert(post_board(s, m)[i] == applied_cell(s, m, f, r));
        }
        assert(board@ =~= post_board(s, m));
    }

    let is_capture = target_before.is_some() || is_en_passant;
    let double_push = matches!(moving_piece.kind, PieceKind::Pawn) && {
        let dr: i16 = mv.to.rank as i16 - mv.from.rank as i16;
        dr == 2 || dr == -2
    };
    let en_passant_target = if double_push {
        Some(
            Square {
                file: mv.from.file,
                rank: ((mv.from.rank as u16 + mv.to.rank as u16) / 2) as u8,
            },
        )
    } else {
        None
    };
    let halfmove_clock = if matches!(moving_piece.kind, PieceKind::Pawn) || is_capture {
        0
    } else {
        bump_clock(state.halfmove_clock)
    };
    let fullmove_number = if matches!(state.active_color, PieceColor::Black) {
        bump_clock(state.fullmove_number)
    } else {
        state.fullmove_number
    };

    GameState {
        board,
        active_color: opposite(state.active_color),
        status: crate::game::clone_status(&state.status),
        halfmove_clock,
        fullmove_number,
        castling_rights: state.castling_rights,
        en_passant_target,
    }
}

/// The legal-move relation: the square holds a piece of the side to move,
/// the move is pseudo-legal, and applying it leaves the mover's own king
/// out of check.
pub open spec fn is_legal_move_at(s: GameState, sq: Square, m: Move) -> bool {
    match cell_at(s.board@, sq.file as int, sq.rank as int) {
        Some(p) => p.color == s.active_color && is_pseudo_move(s, sq, m) && !in_check(
            post_board(s, m),
            p.color,
        ),
        None => false,
    }
}

/// Enumerates the legal moves of the piece on `square`: exactly the
/// pseudo-legal moves of the side to move that do not leave its own king
/// in check. Empty when the square is empty or holds an opposing piece.
pub fn generate_legal_moves_for_square(state: &GameState, square: Square) -> (moves: Vec<Move>)
    requires
        state.wf(),
        square.wf(),
    ensures
        forall|m: Move| #[trigger] moves@.contains(m) <==> is_legal_move_at(*state, square, m),
{
    let mut legal: Vec<Move> = Vec::new();
    let piece = match piece_at(state, square) {
        Some(piece) => piece,
        None => {
            return legal;
        },
    };
    if piece.color != state.active_color {
        return legal;
    }

    let candidates = generate_pseudo_legal_moves_for_square(state, square);
    let mut i: usize = 0;
    while i < candidates.len()
        invariant
            state.wf(),
            square.wf(),
            cell_at(state.board@, square.file as int, square.rank as int) == Some(piece),
            piece.color == state.active_color,
            i <= candidates.len(),
            forall|m: Move| #[trigger] candidates@.contains(m) <==> is_pseudo_move(*state, square, m),
            forall|m: Move|
                #[trigger] legal@.contains(m) <==> (candidates@.subrange(0, i as int).contains(m)
                    && is_legal_move_at(*state, square, m)),
        decreases candidates.len() - i,
    {
        let mv = candidates[i];
        proof {
            assert(candidates@.contains(candidates@[i as int]));
        }
        let next = apply_move_unchecked(state, &mv);
        let leaves_king_exposed = is_in_check_for_color(&next, piece.color);
        if !leaves_king_exposed {
            proof {
                lemma_push_contains(legal@, mv);
            }
            legal.push(mv);
        }
        proof {
            assert(candidates@.subrange(0, i as int + 1) =~= candidates@.subrange(
                0,
                i as int,
            ).push(candidates@[i as int]));
            lemma_push_contains(candidates@.subrange(0, i as int), candidates@[i as int]);
        }
        i = i + 1;
    }
    proof {
        assert(candidates@.subrange(0, candidates@.len() as int) =~= candidates@);
    }
    legal
}

/// Reports whether some legal move from `from` lands on `to`.
pub fn is_legal_move(state: &GameState, from: Square, to: Square) -> (r: bool)
    requires
        state.wf(),
        from.wf(),
    ensures
        r == exists|m: Move| #[trigger] is_legal_move_at(*state, from, m) && m.to == to,
{
    let moves = generate_legal_moves_for_square(state, from);
    let mut i: usize = 0;
    while i < moves.len()
        invariant
            i <= moves.len(),
            forall|m: Move| #[trigger] moves@.contains(m) <==> is_legal_move_at(*state, from, m),
            forall|j: int| 0 <= j < i ==> moves@[j].to != to,
        decreases moves.len() - i,
    {
        if moves[i].to == to {
            proof {
                assert(moves@.contains(moves@[i as int]));
            }
            return true;
        }
        i = i + 1;
    }
    proof {
        if exists|m: Move| #[trigger] is_legal_move_at(*state, from, m) && m.to == to {
            let m = choose|m: Move| #[trigger] is_legal_move_at(*state, from, m) && m.to == to;
            assert(moves@.contains(m));
            let j = choose|j: int| 0 <= j < moves@.len() && moves@[j] == m;
            assert(false);
        }
    }
    false
}

/// En passant: while the target square is set, a pawn standing beside it
/// on the capturing rank has the diagonal capture onto the (empty) target
/// among its pseudo-legal moves; applying that capture removes the jumped
/// pawn from the square behind the target — not the target's occupant,
/// which is none — and the resulting position carries no target.
pub proof fn lemma_en_passant_capture(s: GameState, sq: Square, m: Move)
    requires
        sq.wf(),
        m.from == sq,
        m.promotion is None,
        cell_at(s.board@, sq.file as int, sq.rank as int) matches Some(p) && p.kind
            == PieceKind::Pawn,
        s.en_passant_target == Some(m.to),
        m.to.wf(),
        m.to.file as int == sq.file as int - 1 || m.to.file as int == sq.file as int + 1,
        m.to.rank as int == sq.rank as int + pawn_dir(
            cell_at(s.board@, sq.file as int, sq.rank as int).unwrap().color,
        ),
        cell_at(s.board@, m.to.file as int, m.to.rank as int) is None,
        cell_at(s.board@, m.to.file as int, sq.rank as int) matches Some(q) && q.kind
            == PieceKind::Pawn && q.color != cell_at(
            s.board@,
            sq.file as int,
            sq.rank as int,
        ).unwrap().color,
    ensures
        is_pseudo_move(s, sq, m),
        cell_at(post_board(s, m), m.to.file as int, sq.rank as int) is None,
        cell_at(post_board(s, m), m.to.file as int, m.to.rank as int) == Some(
            cell_at(s.board@, sq.file as int, sq.rank as int).unwrap(),
        ),
        ep_target_after(s, m) is None,
{
    let p = cell_at(s.board@, sq.file as int, sq.rank as int).unwrap();
    assert(pawn_move_ok(s, sq, m, p.color));
    let tf = m.to.file as int;
    let tr = m.to.rank as int;
    let fr = sq.rank as int;
    assert(is_ep_capture(s, m, p));
    assert(cell_at(post_board(s, m), tf, fr) == applied_cell(s, m, tf, fr)) by {
        assert(fr * 8 + tf < 64);
        assert((fr * 8 + tf) % 8 == tf && (fr * 8 + tf) / 8 == fr) by (nonlinear_arith)
            requires
                0 <= tf < 8 && 0 <= fr < 8,
        ;
    }
    assert(cell_at(post_board(s, m), tf, tr) == applied_cell(s, m, tf, tr)) by {
        assert(tr * 8 + tf < 64);
        assert((tr * 8 + tf) % 8 == tf && (tr * 8 + tf) / 8 == tr) by (nonlinear_arith)
            requires
                0 <= tf < 8 && 0 <= tr < 8,
        ;
    }
}

/// The king-side castle is offered among the candidate moves exactly
/// under the castling rule: right held, rook on its corner, the path
/// empty, and neither the king's square nor a square it crosses attacked.
/// In particular it is withheld whenever any of those squares is
/// attacked, rights notwithstanding.
pub proof fn lemma_kingside_castle_offer(s: GameState, sq: Square, m: Move)
    requires
        sq.wf(),
        cell_at(s.board@, sq.file as int, sq.rank as int) matches Some(p) && p.kind
            == PieceKind::King,
        m.from == sq,
        m.promotion is None,
        m.to == (Square { file: 6, rank: sq.rank }),
        sq.file == 4,
    ensures
        is_pseudo_move(s, sq, m) <==> castle_ok(
            s,
            sq,
            m,
            cell_at(s.board@, sq.file as int, sq.rank as int).unwrap().color,
        ),
        is_pseudo_move(s, sq, m) ==> {
            let c = cell_at(s.board@, sq.file as int, sq.rank as int).unwrap().color;
            let h = home_rank(c);
            let e = spec_opposite(c);
            &&& !square_attacked(s.board@, 4, h, e)
            &&& !square_attacked(s.board@, 5, h, e)
            &&& !square_attacked(s.board@, 6, h, e)
        },
{
}

/// Legal moves never leave the mover's own king in check: every move the
/// legality filter admits is pseudo-legal, and applying it yields a board
/// on which the moving side does not stand in check.
pub proof fn lemma_legal_moves_are_safe(s: GameState, sq: Square, m: Move)
    requires
        is_legal_move_at(s, sq, m),
    ensures
        is_pseudo_move(s, sq, m),
        cell_at(s.board@, sq.file as int, sq.rank as int) matches Some(p) && p.color
            == s.active_color && !in_check(post_board(s, m), p.color),
{
}

/// Two states agree on everything move legality depends on: the board,
/// the side to move, the castling rights and the en-passant target. The
/// status tag, in particular, plays no part.
pub open spec fn same_core(a: GameState, b: GameState) -> bool {
    &&& a.board@ == b.board@
    &&& a.active_color == b.active_color
    &&& a.castling_rights == b.castling_rights
    &&& a.en_passant_target == b.en_passant_target
}

/// Move legality is a function of the core alone: states that agree on
/// it admit the same pseudo-legal and legal moves.
pub proof fn lemma_legality_depends_on_core(a: GameState, b: GameState)
    requires
        same_core(a, b),
    ensures
        forall|sq: Square, m: Move|
            #[trigger] is_pseudo_move(a, sq, m) == is_pseudo_move(b, sq, m),
        forall|sq: Square, m: Move|
            #[trigger] is_legal_move_at(a, sq, m) == is_legal_move_at(b, sq, m),
        has_any_legal_move(a) == has_any_legal_move(b),
{
    assert forall|sq: Square, m: Move|
        #[trigger] is_pseudo_move(a, sq, m) == is_pseudo_move(b, sq, m) by {
        assert(pawn_move_ok(a, sq, m, PieceColor::White) == pawn_move_ok(
            b,
            sq,
            m,
            PieceColor::White,
        ));
        assert(pawn_move_ok(a, sq, m, PieceColor::Black) == pawn_move_ok(
            b,
            sq,
            m,
            PieceColor::Black,
        ));
        assert(castle_ok(a, sq, m, PieceColor::White) == castle_ok(b, sq, m, PieceColor::White));
        assert(castle_ok(a, sq, m, PieceColor::Black) == castle_ok(b, sq, m, PieceColor::Black));
    }
    assert forall|sq: Square, m: Move|
        #[trigger] is_legal_move_at(a, sq, m) == is_legal_move_at(b, sq, m) by {
        assert(is_pseudo_move(a, sq, m) == is_pseudo_move(b, sq, m));
        if is_pseudo_move(a, sq, m) {
            assert(post_board(a, m) =~= post_board(b, m));
        }
    }
    if has_any_legal_move(a) {
        let (sq, m) = choose|sq: Square, m: Move| sq.wf() && #[trigger] is_legal_move_at(a, sq, m);
        assert(is_legal_move_at(b, sq, m));
        assert(has_any_legal_move(b));
    }
    if has_any_legal_move(b) {
        let (sq, m) = choose|sq: Square, m: Move| sq.wf() && #[trigger] is_legal_move_at(b, sq, m);
        assert(is_legal_move_at(a, sq, m));
        assert(has_any_legal_move(a));
    }
}

/// The side to move has at least one legal move somewhere on the board.
pub open spec fn has_any_legal_move(s: GameState) -> bool {
    exists|sq: Square, m: Move| sq.wf() && #[trigger] is_legal_move_at(s, sq, m)
}

/// Scans the board for any legal move of the side to move.
pub fn side_to_move_has_any_move(state: &GameState) -> (r: bool)
    requires
        state.wf(),
    ensures
        r == has_any_legal_move(*state),
{
    let mut rank: u8 = 0;
    while rank < 8
        invariant
            state.wf(),
            rank <= 8,
            forall|sq: Square, m: Move|
                sq.wf() && (sq.rank as int) < rank as int ==> !#[trigger] is_legal_move_at(
                    *state,
                    sq,
                    m,
                ),
        decreases 8 - rank,
    {
        let mut file: u8 = 0;
        while file < 8
            invariant
                state.wf(),
                rank < 8,
                file <= 8,
                forall|sq: Square, m: Move|
                    sq.wf() && (sq.rank as int) < rank as int ==> !#[trigger] is_legal_move_at(
                        *state,
                        sq,
                        m,
                    ),
                forall|sq: Square, m: Move|
                    sq.wf() && sq.rank == rank && (sq.file as int) < file as int
                        ==> !#[trigger] is_legal_move_at(*state, sq, m),
            decreases 8 - file,
        {
            let square = Square { file, rank };
            let moves = generate_legal_moves_for_square(state, square);
            if moves.len() > 0 {
                proof {
                    assert(moves@.contains(moves@[0]));
                    assert(square.wf() && is_legal_move_at(*state, square, moves@[0]));
                }
                return true;
            }
            proof {
                assert forall|m: Move| !is_legal_move_at(*state, square, m) by {
                    if is_legal_move_at(*state, square, m) {
                        assert(moves@.contains(m));
                    }
                }
            }
            file = file + 1;
        }
        rank = rank + 1;
    }
    proof {
        if has_any_legal_move(*state) {
            let (sq, m) = choose|sq: Square, m: Move|
                sq.wf() && #[trigger] is_legal_move_at(*state, sq, m);
            assert(false);
        }
    }
    false
}

} // verus!
