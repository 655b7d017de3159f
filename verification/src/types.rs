//! Scores, piece values and the engine's derived constants.
use vstd::prelude::*;
pub use crate::chess::move_to_uci;

verus! {

/// A score in centipawns, from the point of view of some side.
pub type Score = i32;

pub const MATE_SCORE: Score = 99_999;
pub const DRAW_SCORE: Score = 0;
pub const INF_SCORE: Score = 999_999;
pub const MAX_PLY: usize = 128;
pub const MATE_THRESHOLD: Score = 99_871;

pub const PAWN_VALUE: Score = 100;
pub const KNIGHT_VALUE: Score = 320;
pub const BISHOP_VALUE: Score = 330;
pub const ROOK_VALUE: Score = 500;
pub const QUEEN_VALUE: Score = 900;

pub const TOTAL_PHASE: i32 = 24;

/// Average branching factor of chess.
pub const BRANCHING_FACTOR: Score = 35;
/// Tempo value: `100 * ln(35) / (1 + ln(35))`.
pub const TEMPO: Score = 78;
/// Average value of a non-king piece: `(100 + 320 + 330 + 500 + 900) / 5`.
pub const V_AVG: Score = 430;
/// Average value realised by a SEE-positive capture: `(100 + 430) / 2`.
pub const V_CAP_REALIZED: Score = 265;
pub const ASP_WINDOW: Score = 30;
pub const PROBCUT_MARGIN: Score = 100;
pub const RFP_IMPROVING: Score = 115;
pub const RFP_NOT_IMPROVING: Score = 97;
pub const FUT_IMPROVING: Score = 150;
pub const FUT_NOT_IMPROVING: Score = 120;

/// The side of a player.
#[derive(Clone, Copy, PartialEq, Eq, Structural, Debug)]
pub enum Color {
    White,
    Black,
}

/// A kind of chess piece, ordered by approximate material value.
#[derive(Clone, Copy, PartialEq, Eq, Structural, Debug)]
pub enum Piece {
    Pawn,
    Knight,
    Bishop,
    Rook,
    Queen,
    King,
}

impl Color {
    pub open spec fn spec_index(self) -> int {
        match self {
            Color::White => 0,
            Color::Black => 1,
        }
    }

    /// The index of this colour: 0 for white, 1 for black.
    pub fn index(self) -> (r: usize)
        ensures
            r == self.spec_index(),
    {
        match self {
            Color::White => 0,
            Color::Black => 1,
        }
    }

    pub open spec fn spec_other(self) -> Color {
        match self {
            Color::White => Color::Black,
            Color::Black => Color::White,
        }
    }

    /// The opposing colour.
    pub fn other(self) -> (r: Color)
        ensures
            r == self.spec_other(),
    {
        match self {
            Color::White => Color::Black,
            Color::Black => Color::White,
        }
    }
}

impl Piece {
    pub open spec fn spec_index(self) -> int {
        match self {
            Piece::Pawn => 0,
            Piece::Knight => 1,
            Piece::Bishop => 2,
            Piece::Rook => 3,
            Piece::Queen => 4,
            Piece::King => 5,
        }
    }

    /// The index of this piece kind, from 0 (pawn) to 5 (king).
    pub fn index(self) -> (r: usize)
        ensures
            r == self.spec_index(),
            r < 6,
    {
        match self {
            Piece::Pawn => 0,
            Piece::Knight => 1,
            Piece::Bishop => 2,
            Piece::Rook => 3,
            Piece::Queen => 4,
            Piece::King => 5,
        }
    }

    pub open spec fn spec_from_index(i: int) -> Piece {
        if i == 0 {
            Piece::Pawn
        } else if i == 1 {
            Piece::Knight
        } else if i == 2 {
            Piece::Bishop
        } else if i == 3 {
            Piece::Rook
        } else if i == 4 {
            Piece::Queen
        } else {
            Piece::King
        }
    }

    /// The piece kind with the given index (indices above 5 give the king).
    pub fn from_index(i: usize) -> (r: Piece)
        ensures
            r == Piece::spec_from_index(i as int),
            i < 6 ==> r.spec_index() == i,
    {
        if i == 0 {
            Piece::Pawn
        } else if i == 1 {
            Piece::Knight
        } else if i == 2 {
            Piece::Bishop
        } else if i == 3 {
            Piece::Rook
        } else if i == 4 {
            Piece::Queen
        } else {
            Piece::King
        }
    }
}

/// Converts a mate score from ply-relative to root-relative form.
pub open spec fn spec_score_to_tt(score: int, ply: int) -> int {
    if score > MATE_THRESHOLD {
        score + ply
    } else if score < -MATE_THRESHOLD {
        score - ply
    } else {
        score
    }
}

/// Converts a root-relative mate score back to ply-relative form.
pub open spec fn spec_score_from_tt(score: int, ply: int) -> int {
    if score > MATE_THRESHOLD {
        score - ply
    } else if score < -MATE_THRESHOLD {
        score + ply
    } else {
        score
    }
}

/// Mate scores are stored in the transposition table relative to the root:
/// a winning mate score grows by the ply, a losing one shrinks by it, and
/// every other score is stored unchanged.
pub fn score_to_tt(score: Score, ply: usize) -> (r: Score)
    requires
        score > MATE_THRESHOLD ==> i32::MIN <= score + (ply as i32) <= i32::MAX,
        score < -MATE_THRESHOLD ==> i32::MIN <= score - (ply as i32) <= i32::MAX,
    ensures
        r == spec_score_to_tt(score as int, (ply as i32) as int),
{
    let p = ply as i32;
    if score > MATE_THRESHOLD {
        score + p
    } else if score < -MATE_THRESHOLD {
        score - p
    } else {
        score
    }
}

/// The reverse of [`score_to_tt`]: a root-relative mate score read back at
/// some ply.
pub fn score_from_tt(score: Score, ply: usize) -> (r: Score)
    requires
        score > MATE_THRESHOLD ==> i32::MIN <= score - (ply as i32) <= i32::MAX,
        score < -MATE_THRESHOLD ==> i32::MIN <= score + (ply as i32) <= i32::MAX,
    ensures
        r == spec_score_from_tt(score as int, (ply as i32) as int),
{
    let p = ply as i32;
    if score > MATE_THRESHOLD {
        score - p
    } else if score < -MATE_THRESHOLD {
        score + p
    } else {
        score
    }
}

/// A score stored at some ply and read back at the same ply is the score
/// that was stored.
pub proof fn lemma_tt_score_roundtrip(score: int, ply: int)
    requires
        0 <= ply,
    ensures
        spec_score_from_tt(spec_score_to_tt(score, ply), ply) == score,
{
}

/// A mate score stored at ply `p1` and read back at ply `p2` moves by the
/// ply difference; any other score is read back unchanged at every ply.
pub proof fn lemma_tt_score_ply_shift(score: int, p1: int, p2: int)
    requires
        0 <= p1,
    ensures
        score > MATE_THRESHOLD ==> spec_score_from_tt(spec_score_to_tt(score, p1), p2) == score
            + p1 - p2,
        score < -MATE_THRESHOLD ==> spec_score_from_tt(spec_score_to_tt(score, p1), p2) == score
            - p1 + p2,
        -MATE_THRESHOLD <= score <= MATE_THRESHOLD ==> spec_score_from_tt(
            spec_score_to_tt(score, p1),
            p2,
        ) == score,
{
}

pub open spec fn spec_piece_value(piece: Piece) -> int {
    match piece {
        Piece::Pawn => PAWN_VALUE as int,
        Piece::Knight => KNIGHT_VALUE as int,
        Piece::Bishop => BISHOP_VALUE as int,
        Piece::Rook => ROOK_VALUE as int,
        Piece::Queen => QUEEN_VALUE as int,
        Piece::King => 0,
    }
}

/// Material value of a piece in centipawns (the king counts 0).
pub fn piece_value(piece: Piece) -> (r: Score)
    ensures
        r == spec_piece_value(piece),
        0 <= r <= QUEEN_VALUE,
{
    match piece {
        Piece::Pawn => PAWN_VALUE,
        Piece::Knight => KNIGHT_VALUE,
        Piece::Bishop => BISHOP_VALUE,
        Piece::Rook => ROOK_VALUE,
        Piece::Queen => QUEEN_VALUE,
        Piece::King => 0,
    }
}

pub open spec fn spec_phase_weight(piece: Piece) -> int {
    match piece {
        Piece::Pawn => 0,
        Piece::Knight => 1,
        Piece::Bishop => 1,
        Piece::Rook => 2,
        Piece::Queen => 4,
        Piece::King => 0,
    }
}

/// Weight of a piece in the 24-point game phase.
pub fn phase_weight(piece: Piece) -> (r: i32)
    ensures
        r == spec_phase_weight(piece),
        0 <= r <= 4,
{
    match piece {
        Piece::Pawn => 0,
        Piece::Knight => 1,
        Piece::Bishop => 1,
        Piece::Rook => 2,
        Piece::Queen => 4,
        Piece::King => 0,
    }
}

} // verus!
