//! Piece-square tables in the style of PeSTO, midgame and endgame, indexed
//! from white's side (a1 = 0, h8 = 63).
use vstd::prelude::*;
use crate::types::{Color, Piece, Score};

verus! {

pub const PAWN_MG: [Score; 64] = [
    0, 0, 0, 0, 0, 0, 0, 0,
    5, 10, 10, -20, -20, 10, 10, 5,
    5, -5, -10, 0, 0, -10, -5, 5,
    0, 0, 0, 20, 20, 0, 0, 0,
    5, 5, 10, 25, 25, 10, 5, 5,
    10, 10, 20, 30, 30, 20, 10, 10,
    50, 50, 50, 50, 50, 50, 50, 50,
    0, 0, 0, 0, 0, 0, 0, 0,
];

pub const PAWN_EG: [Score; 64] = [
    0, 0, 0, 0, 0, 0, 0, 0,
    10, 10, 10, 10, 10, 10, 10, 10,
    10, 10, 10, 10, 10, 10, 10, 10,
    20, 20, 20, 20, 20, 20, 20, 20,
    30, 30, 30, 30, 30, 30, 30, 30,
    50, 50, 50, 50, 50, 50, 50, 50,
    80, 80, 80, 80, 80, 80, 80, 80,
    0, 0, 0, 0, 0, 0, 0, 0,
];

pub const KNIGHT_MG: [Score; 64] = [
    -50, -40, -30, -30, -30, -30, -40, -50,
    -40, -20, 0, 5, 5, 0, -20, -40,
    -30, 5, 10, 15, 15, 10, 5, -30,
    -30, 0, 15, 20, 20, 15, 0, -30,
    -30, 5, 15, 20, 20, 15, 5, -30,
    -30, 0, 10, 15, 15, 10, 0, -30,
    -40, -20, 0, 0, 0, 0, -20, -40,
    -50, -40, -30, -30, -30, -30, -40, -50,
];

pub const KNIGHT_EG: [Score; 64] = [
    -40, -20, -15, -15, -15, -15, -20, -40,
    -20, 0, 10, 10, 10, 10, 0, -20,
    -15, 10, 20, 25, 25, 20, 10, -15,
    -15, 10, 25, 30, 30, 25, 10, -15,
    -15, 10, 25, 30, 30, 25, 10, -15,
    -15, 10, 20, 25, 25, 20, 10, -15,
    -20, 0, 10, 10, 10, 10, 0, -20,
    -40, -20, -15, -15, -15, -15, -20, -40,
];

pub const BISHOP_MG: [Score; 64] = [
    -20, -10, -10, -10, -10, -10, -10, -20,
    -10, 5, 0, 0, 0, 0, 5, -10,
    -10, 10, 10, 10, 10, 10, 10, -10,
    -10, 0, 10, 10, 10, 10, 0, -10,
    -10, 5, 5, 10, 10, 5, 5, -10,
    -10, 0, 5, 10, 10, 5, 0, -10,
    -10, 0, 0, 0, 0, 0, 0, -10,
    -20, -10, -10, -10, -10, -10, -10, -20,
];

pub const BISHOP_EG: [Score; 64] = [
    -20, -10, -10, -10, -10, -10, -10, -20,
    -10, 0, 0, 0, 0, 0, 0, -10,
    -10, 0, 10, 10, 10, 10, 0, -10,
    -10, 0, 10, 10, 10, 10, 0, -10,
    -10, 0, 10, 10, 10, 10, 0, -10,
    -10, 0, 10, 10, 10, 10, 0, -10,
    -10, 0, 0, 0, 0, 0, 0, -10,
    -20, -10, -10, -10, -10, -10, -10, -20,
];

pub const ROOK_MG: [Score; 64] = [
    0, 0, 0, 5, 5, 0, 0, 0,
    -5, 0, 0, 0, 0, 0, 0, -5,
    -5, 0, 0, 0, 0, 0, 0, -5,
    -5, 0, 0, 0, 0, 0, 0, -5,
    -5, 0, 0, 0, 0, 0, 0, -5,
    -5, 0, 0, 0, 0, 0, 0, -5,
    5, 10, 10, 10, 10, 10, 10, 5,
    0, 0, 0, 0, 0, 0, 0, 0,
];

pub const ROOK_EG: [Score; 64] = [
    0, 0, 0, 0, 0, 0, 0, 0,
    0, 0, 0, 0, 0, 0, 0, 0,
    0, 0, 0, 0, 0, 0, 0, 0,
    5, 5, 5, 5, 5, 5, 5, 5,
    5, 5, 5, 5, 5, 5, 5, 5,
    10, 10, 10, 10, 10, 10, 10, 10,
    20, 20, 20, 20, 20, 20, 20, 20,
    10, 10, 10, 10, 10, 10, 10, 10,
];

pub const QUEEN_MG: [Score; 64] = [
    -20, -10, -10, -5, -5, -10, -10, -20,
    -10, 0, 5, 0, 0, 0, 0, -10,
    -10, 5, 5, 5, 5, 5, 0, -10,
    0, 0, 5, 5, 5, 5, 0, -5,
    -5, 0, 5, 5, 5, 5, 0, -5,
    -10, 0, 5, 5, 5, 5, 0, -10,
    -10, 0, 0, 0, 0, 0, 0, -10,
    -20, -10, -10, -5, -5, -10, -10, -20,
];

pub const QUEEN_EG: [Score; 64] = [
    -20, -10, -10, -5, -5, -10, -10, -20,
    -10, 0, 0, 0, 0, 0, 0, -10,
    -10, 0, 5, 5, 5, 5, 0, -10,
    -5, 0, 5, 10, 10, 5, 0, -5,
    -5, 0, 5, 10, 10, 5, 0, -5,
    -10, 0, 5, 5, 5, 5, 0, -10,
    -10, 0, 0, 0, 0, 0, 0, -10,
    -20, -10, -10, -5, -5, -10, -10, -20,
];

pub const KING_MG: [Score; 64] = [
    20, 30, 10, 0, 0, 10, 30, 20,
    20, 20, 0, 0, 0, 0, 20, 20,
    -10, -20, -20, -20, -20, -20, -20, -10,
    -20, -30, -30, -40, -40, -30, -30, -20,
    -30, -40, -40, -50, -50, -40, -40, -30,
    -30, -40, -40, -50, -50, -40, -40, -30,
    -30, -40, -40, -50, -50, -40, -40, -30,
    -30, -40, -40, -50, -50, -40, -40, -30,
];

pub const KING_EG: [Score; 64] = [
    -50, -30, -30, -30, -30, -30, -30, -50,
    -30, -20, -10, 0, 0, -10, -20, -30,
    -30, -10, 20, 30, 30, 20, -10, -30,
    -30, -10, 30, 40, 40, 30, -10, -30,
    -30, -10, 30, 40, 40, 30, -10, -30,
    -30, -10, 20, 30, 30, 20, -10, -30,
    -30, -30, 0, 0, 0, 0, -30, -30,
    -50, -30, -30, -30, -30, -30, -30, -50,
];

/// The table index of square `sq` for a piece of colour `color`: black
/// pieces read the table with the ranks mirrored.
pub open spec fn spec_pst_index(sq: u8, color: Color) -> u8 {
    if color == Color::White {
        sq
    } else {
        sq ^ 56u8
    }
}

/// Midgame table value of `piece` at table index `idx`.
pub open spec fn spec_pst_mg_idx(piece: Piece, idx: int) -> Score {
    match piece {
        Piece::Pawn => PAWN_MG@[idx],
        Piece::Knight => KNIGHT_MG@[idx],
        Piece::Bishop => BISHOP_MG@[idx],
        Piece::Rook => ROOK_MG@[idx],
        Piece::Queen => QUEEN_MG@[idx],
        Piece::King => KING_MG@[idx],
    }
}

/// Endgame table value of `piece` at table index `idx`.
pub open spec fn spec_pst_eg_idx(piece: Piece, idx: int) -> Score {
    match piece {
        Piece::Pawn => PAWN_EG@[idx],
        Piece::Knight => KNIGHT_EG@[idx],
        Piece::Bishop => BISHOP_EG@[idx],
        Piece::Rook => ROOK_EG@[idx],
        Piece::Queen => QUEEN_EG@[idx],
        Piece::King => KING_EG@[idx],
    }
}

pub open spec fn pst_bounded(v: Score) -> bool {
    -50 <= v <= 80
}

/// Every table value lies in [-50, 80].
pub proof fn lemma_pst_bounds(piece: Piece, idx: int)
    requires
        0 <= idx < 64,
    ensures
        pst_bounded(spec_pst_mg_idx(piece, idx)),
        pst_bounded(spec_pst_eg_idx(piece, idx)),
{
    assert(forall|i: int| 0 <= i < 64 ==> pst_bounded(#[trigger] PAWN_MG@[i]));
    assert(forall|i: int| 0 <= i < 64 ==> pst_bounded(#[trigger] PAWN_EG@[i]));
    assert(forall|i: int| 0 <= i < 64 ==> pst_bounded(#[trigger] KNIGHT_MG@[i]));
    assert(forall|i: int| 0 <= i < 64 ==> pst_bounded(#[trigger] KNIGHT_EG@[i]));
    assert(forall|i: int| 0 <= i < 64 ==> pst_bounded(#[trigger] BISHOP_MG@[i]));
    assert(forall|i: int| 0 <= i < 64 ==> pst_bounded(#[trigger] BISHOP_EG@[i]));
    assert(forall|i: int| 0 <= i < 64 ==> pst_bounded(#[trigger] ROOK_MG@[i]));
    assert(forall|i: int| 0 <= i < 64 ==> pst_bounded(#[trigger] ROOK_EG@[i]));
    assert(forall|i: int| 0 <= i < 64 ==> pst_bounded(#[trigger] QUEEN_MG@[i]));
    assert(forall|i: int| 0 <= i < 64 ==> pst_bounded(#[trigger] QUEEN_EG@[i]));
    assert(forall|i: int| 0 <= i < 64 ==> pst_bounded(#[trigger] KING_MG@[i]));
    assert(forall|i: int| 0 <= i < 64 ==> pst_bounded(#[trigger] KING_EG@[i]));
}

/// The table index of a square for a piece of the given colour.
pub fn pst_index(sq: u8, color: Color) -> (r: usize)
    requires
        sq < 64,
    ensures
        r == spec_pst_index(sq, color),
        r < 64,
{
    if color == Color::White {
        sq as usize
    } else {
        assert(sq ^ 56u8 < 64) by (bit_vector)
            requires
                sq < 64,
        ;
        (sq ^ 56u8) as usize
    }
}

/// Midgame piece-square value of `piece` of colour `color` on `sq`.
pub fn pst_mg(piece: Piece, sq: u8, color: Color) -> (r: Score)
    requires
        sq < 64,
    ensures
        r == spec_pst_mg_idx(piece, spec_pst_index(sq, color) as int),
{
    let idx = pst_index(sq, color);
    pst_mg_idx(piece, idx)
}

/// Endgame piece-square value of `piece` of colour `color` on `sq`.
pub fn pst_eg(piece: Piece, sq: u8, color: Color) -> (r: Score)
    requires
        sq < 64,
    ensures
        r == spec_pst_eg_idx(piece, spec_pst_index(sq, color) as int),
{
    let idx = pst_index(sq, color);
    pst_eg_idx(piece, idx)
}

/// Midgame value of `piece` at an already mirrored table index.
pub fn pst_mg_idx(piece: Piece, idx: usize) -> (r: Score)
    requires
        idx < 64,
    ensures
        r == spec_pst_mg_idx(piece, idx as int),
        pst_bounded(r),
{
    proof {
        lemma_pst_bounds(piece, idx as int);
    }
    match piece {
        Piece::Pawn => PAWN_MG[idx],
        Piece::Knight => KNIGHT_MG[idx],
        Piece::Bishop => BISHOP_MG[idx],
        Piece::Rook => ROOK_MG[idx],
        Piece::Queen => QUEEN_MG[idx],
        Piece::King => KING_MG[idx],
    }
}

/// Endgame value of `piece` at an already mirrored table index.
pub fn pst_eg_idx(piece: Piece, idx: usize) -> (r: Score)
    requires
        idx < 64,
    ensures
        r == spec_pst_eg_idx(piece, idx as int),
        pst_bounded(r),
{
    proof {
        lemma_pst_bounds(piece, idx as int);
    }
    match piece {
        Piece::Pawn => PAWN_EG[idx],
        Piece::Knight => KNIGHT_EG[idx],
        Piece::Bishop => BISHOP_EG[idx],
        Piece::Rook => ROOK_EG[idx],
        Piece::Queen => QUEEN_EG[idx],
        Piece::King => KING_EG[idx],
    }
}

} // verus!
