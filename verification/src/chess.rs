//! Plain-value model of chess moves: squares as indices `0..64`, piece
//! roles, game outcomes, and the UCI move descriptor that keys the move
//! dictionary.
//!
//! Squares are numbered `a1 = 0`, `b1 = 1`, ..., `h8 = 63`, so the file of a
//! square is `s % 8` and its rank is `s / 8`.

use vstd::prelude::*;

verus! {

/// A piece kind. Used both for promotion pieces and for describing the
/// attack pattern that generates dictionary moves.
#[derive(Clone, Copy, Debug, PartialEq, Eq)]
pub enum PieceRole {
    Pawn,
    Knight,
    Bishop,
    Rook,
    Queen,
    King,
}

/// The outcome of a finished game. Games whose PGN result is unknown (`*`)
/// are dropped before an outcome value is ever formed.
#[derive(Clone, Copy, Debug, PartialEq, Eq)]
pub enum GameOutcome {
    WhiteWins,
    BlackWins,
    Draw,
}

/// A UCI move descriptor: origin square, destination square, and optional
/// promotion piece. `Null` and `Put` mirror the null move and the drop move
/// of the UCI text form; neither ever receives a dictionary token.
#[derive(Clone, Copy, Debug, PartialEq, Eq)]
pub enum Uci {
    Null,
    Normal { from: u8, to: u8, promotion: Option<PieceRole> },
    Put { role: PieceRole, to: u8 },
}

pub open spec fn on_board(s: int) -> bool {
    0 <= s < 64
}

pub open spec fn file_of(s: int) -> int {
    s % 8
}

pub open spec fn rank_of(s: int) -> int {
    s / 8
}

/// Absolute difference.
pub open spec fn dist(a: int, b: int) -> int {
    if a >= b {
        a - b
    } else {
        b - a
    }
}

/// `a` and `b` share a file or a rank (rook line).
pub open spec fn same_rook_line(a: int, b: int) -> bool {
    file_of(a) == file_of(b) || rank_of(a) == rank_of(b)
}

/// `a` and `b` lie on a common diagonal.
pub open spec fn same_diagonal(a: int, b: int) -> bool {
    dist(file_of(a), file_of(b)) == dist(rank_of(a), rank_of(b))
}

/// `b` is a knight's jump away from `a`.
pub open spec fn knight_jump(a: int, b: int) -> bool {
    ||| dist(file_of(a), file_of(b)) == 1 && dist(rank_of(a), rank_of(b)) == 2
    ||| dist(file_of(a), file_of(b)) == 2 && dist(rank_of(a), rank_of(b)) == 1
}

/// The attack pattern of a single white piece of the given role standing
/// alone on an empty board: exactly the squares it attacks from `a`.
pub open spec fn attacks(role: PieceRole, a: int, b: int) -> bool {
    match role {
        PieceRole::Pawn => rank_of(b) == rank_of(a) + 1 && dist(file_of(a), file_of(b)) == 1,
        PieceRole::Knight => knight_jump(a, b),
        PieceRole::Bishop => a != b && same_diagonal(a, b),
        PieceRole::Rook => a != b && same_rook_line(a, b),
        PieceRole::Queen => a != b && (same_rook_line(a, b) || same_diagonal(a, b)),
        PieceRole::King => a != b && dist(file_of(a), file_of(b)) <= 1 && dist(
            rank_of(a),
            rank_of(b),
        ) <= 1,
    }
}

/// Some single piece attacks `b` from `a`: the union of the six attack
/// patterns above.
pub open spec fn any_piece_attacks(a: int, b: int) -> bool {
    exists|r: PieceRole| attacks(r, a, b)
}

/// Closed form of `any_piece_attacks`: a queen line or a knight jump.
/// Every origin/destination pair of a legal chess move (castling written as
/// the king's two-square move, en passant as a pawn diagonal) is of this
/// shape.
pub open spec fn queen_or_knight(a: int, b: int) -> bool {
    a != b && (same_rook_line(a, b) || same_diagonal(a, b) || knight_jump(a, b))
}

/// The union of the six single-piece attack patterns is exactly the
/// queen-line-or-knight-jump relation.
pub proof fn lemma_attack_union(a: int, b: int)
    ensures
        any_piece_attacks(a, b) <==> queen_or_knight(a, b),
{
    if any_piece_attacks(a, b) {
        let r = choose|r: PieceRole| attacks(r, a, b);
        assert(attacks(r, a, b));
        assert(queen_or_knight(a, b));
    }
    if queen_or_knight(a, b) {
        if same_rook_line(a, b) || same_diagonal(a, b) {
            assert(attacks(PieceRole::Queen, a, b));
        } else {
            assert(attacks(PieceRole::Knight, a, b));
        }
    }
}

/// A white-style promotion step: origin on the seventh rank, destination on
/// the eighth, moving straight ahead or capturing one file to the side.
pub open spec fn white_promotion(from: int, to: int) -> bool {
    rank_of(from) == 6 && rank_of(to) == 7 && dist(file_of(from), file_of(to)) <= 1
}

/// A black-style promotion step: origin on the second rank, destination on
/// the first.
pub open spec fn black_promotion(from: int, to: int) -> bool {
    rank_of(from) == 1 && rank_of(to) == 0 && dist(file_of(from), file_of(to)) <= 1
}

/// The four pieces a pawn may promote to.
pub open spec fn promotion_role(r: PieceRole) -> bool {
    r == PieceRole::Bishop || r == PieceRole::Knight || r == PieceRole::Rook || r == PieceRole::Queen
}

/// The domain of the move dictionary: every single-piece pseudo-legal
/// origin/destination pair without promotion, plus the promotion variants.
pub open spec fn dict_domain(m: Uci) -> bool {
    match m {
        Uci::Normal { from, to, promotion } => {
            &&& on_board(from as int)
            &&& on_board(to as int)
            &&& match promotion {
                None => queen_or_knight(from as int, to as int),
                Some(p) => promotion_role(p) && (white_promotion(from as int, to as int)
                    || black_promotion(from as int, to as int)),
            }
        },
        _ => false,
    }
}

/// Decides `queen_or_knight` for two squares.
pub fn is_attack(from: u8, to: u8) -> (r: bool)
    requires
        from < 64,
        to < 64,
    ensures
        r == queen_or_knight(from as int, to as int),
{
    if from == to {
        return false;
    }
    let ff = from % 8;
    let fr = from / 8;
    let tf = to % 8;
    let tr = to / 8;
    let df = if ff >= tf {
        ff - tf
    } else {
        tf - ff
    };
    let dr = if fr >= tr {
        fr - tr
    } else {
        tr - fr
    };
    ff == tf || fr == tr || df == dr || (df == 1 && dr == 2) || (df == 2 && dr == 1)
}

} // verus!
