//! Static exchange evaluation: the material balance of the capture sequence
//! on one square, each side recapturing with its least valuable attacker and
//! free to stop when continuing would lose.
use vstd::prelude::*;
use crate::bits::{bit, has, lowest, first_square};
use crate::chess::{Move, PosData, pawn_attacks, knight_attacks, bishop_attacks, rook_attacks, king_attacks, pawn_attack_moves, knight_moves, bishop_moves, rook_moves, king_moves};
use crate::geom::{max, file, rank};
use crate::types::{Color, Piece, Score, spec_piece_value, piece_value, PAWN_VALUE};

verus! {

/// Pieces of colour `c` that attack `sq` when the occupied squares are
/// `occ` (the piece bitboards themselves are those of the position).
pub open spec fn attackers(d: PosData, sq: u8, occ: u64, c: Color) -> u64 {
    let pieces = d.color_bb(c);
    (pawn_attacks(sq, c.spec_other()) & pieces & d.piece_bb(Piece::Pawn)) | (knight_attacks(sq)
        & pieces & d.piece_bb(Piece::Knight)) | (bishop_attacks(sq, occ) & pieces & (d.piece_bb(
        Piece::Bishop,
    ) | d.piece_bb(Piece::Queen))) | (rook_attacks(sq, occ) & pieces & (d.piece_bb(Piece::Rook)
        | d.piece_bb(Piece::Queen))) | (king_attacks(sq) & pieces & d.piece_bb(Piece::King))
}

/// Pieces of colour `c` attacking `sq` with `occupied` as the occupied
/// squares.
pub fn attackers_to(d: &PosData, sq: u8, occupied: u64, c: Color) -> (r: u64)
    requires
        sq < 64,
    ensures
        r == attackers(*d, sq, occupied, c),
{
    let pieces = d.colors_of(c);
    let pawns = pawn_attack_moves(sq, c.other()) & pieces & d.pieces_of(Piece::Pawn);
    let knights = knight_moves(sq) & pieces & d.pieces_of(Piece::Knight);
    let bishops = bishop_moves(sq, occupied) & pieces & (d.pieces_of(Piece::Bishop) | d.pieces_of(
        Piece::Queen,
    ));
    let rooks = rook_moves(sq, occupied) & pieces & (d.pieces_of(Piece::Rook) | d.pieces_of(
        Piece::Queen,
    ));
    let kings = king_moves(sq) & pieces & d.pieces_of(Piece::King);
    pawns | knights | bishops | rooks | kings
}

/// The least valuable of the pieces in `att`, with its square: the
/// lowest-indexed square among the pieces of the cheapest kind present.
pub open spec fn least(d: PosData, att: u64) -> Option<(u8, Piece)> {
    if att & d.piece_bb(Piece::Pawn) != 0 {
        Some((lowest(att & d.piece_bb(Piece::Pawn)) as u8, Piece::Pawn))
    } else if att & d.piece_bb(Piece::Knight) != 0 {
        Some((lowest(att & d.piece_bb(Piece::Knight)) as u8, Piece::Knight))
    } else if att & d.piece_bb(Piece::Bishop) != 0 {
        Some((lowest(att & d.piece_bb(Piece::Bishop)) as u8, Piece::Bishop))
    } else if att & d.piece_bb(Piece::Rook) != 0 {
        Some((lowest(att & d.piece_bb(Piece::Rook)) as u8, Piece::Rook))
    } else if att & d.piece_bb(Piece::Queen) != 0 {
        Some((lowest(att & d.piece_bb(Piece::Queen)) as u8, Piece::Queen))
    } else if att & d.piece_bb(Piece::King) != 0 {
        Some((lowest(att & d.piece_bb(Piece::King)) as u8, Piece::King))
    } else {
        None
    }
}

fn lowest_nonempty(bb: u64) -> (r: u8)
    requires
        bb != 0,
    ensures
        r == lowest(bb),
        r < 64,
        bit(bb, r),
{
    let r = first_square(bb);
    proof {
        if r == 64 {
            crate::chess::lemma_empty_when_no_lowest(bb);
        }
    }
    r
}

/// The least valuable attacker among `att`.
pub fn least_attacker(d: &PosData, att: u64) -> (r: Option<(u8, Piece)>)
    ensures
        r == least(*d, att),
        r matches Some(x) ==> x.0 < 64,
{
    let b0 = att & d.pieces_of(Piece::Pawn);
    if b0 != 0 {
        return Some((lowest_nonempty(b0), Piece::Pawn));
    }
    let b1 = att & d.pieces_of(Piece::Knight);
    if b1 != 0 {
        return Some((lowest_nonempty(b1), Piece::Knight));
    }
    let b2 = att & d.pieces_of(Piece::Bishop);
    if b2 != 0 {
        return Some((lowest_nonempty(b2), Piece::Bishop));
    }
    let b3 = att & d.pieces_of(Piece::Rook);
    if b3 != 0 {
        return Some((lowest_nonempty(b3), Piece::Rook));
    }
    let b4 = att & d.pieces_of(Piece::Queen);
    if b4 != 0 {
        return Some((lowest_nonempty(b4), Piece::Queen));
    }
    let b5 = att & d.pieces_of(Piece::King);
    if b5 != 0 {
        return Some((lowest_nonempty(b5), Piece::King));
    }
    None
}

/// Whether `mv` is an en passant capture: a pawn moving diagonally to the
/// empty en passant square.
pub open spec fn en_passant_capture(d: PosData, mv: Move) -> bool {
    &&& d.piece_at(mv.from) == Some(Piece::Pawn)
    &&& d.piece_at(mv.to) is None
    &&& file(mv.from as int) != file(mv.to as int)
    &&& d.en_passant == Some((mv.to % 8) as u8)
}

/// Whether `mv` captures: its target square is occupied, or it captures en
/// passant.
pub open spec fn capture(d: PosData, mv: Move) -> bool {
    d.piece_at(mv.to) is Some || en_passant_capture(d, mv)
}

pub fn is_en_passant_capture(d: &PosData, mv: Move) -> (r: bool)
    requires
        mv.wf(),
    ensures
        r == en_passant_capture(*d, mv),
{
    d.piece_on(mv.from) == Some(Piece::Pawn) && d.piece_on(mv.to).is_none() && mv.from % 8 != mv.to
        % 8 && d.en_passant == Some(mv.to % 8)
}

pub fn is_capture(d: &PosData, mv: Move) -> (r: bool)
    requires
        mv.wf(),
    ensures
        r == capture(*d, mv),
{
    d.piece_on(mv.to).is_some() || is_en_passant_capture(d, mv)
}

/// Value of a piece kind held in an option, or `default`.
pub open spec fn value_or(p: Option<Piece>, default: int) -> int {
    match p {
        Some(q) => spec_piece_value(q),
        None => default,
    }
}

/// The exchange on `to` from step `k`, where `g` is the balance after step
/// `k`, `side` is to recapture with `occ` occupied, and `target` is the value
/// of the piece now standing on `to`: the balance at step `k` once both
/// sides stop when continuing would lose. At most 31 recaptures are played.
pub open spec fn swap(d: PosData, to: u8, occ: u64, side: Color, target: int, g: int, k: int) -> int
    decreases 32 - k,
{
    if k >= 31 || k < 0 {
        g
    } else {
        match least(d, attackers(d, to, occ, side) & occ) {
            None => g,
            Some(x) => {
                let v = swap(
                    d,
                    to,
                    occ & !(1u64 << x.0),
                    side.spec_other(),
                    spec_piece_value(x.1),
                    target - g,
                    k + 1,
                );
                -max(-g, v)
            },
        }
    }
}

/// The square of the pawn an en passant capture by `mv` removes, if any.
pub open spec fn ep_victim(d: PosData, mv: Move) -> Option<int> {
    if d.side_to_move == Color::White {
        if rank(mv.to as int) >= 1 {
            Some(mv.to - 8)
        } else {
            None
        }
    } else {
        if rank(mv.to as int) <= 6 {
            Some(mv.to + 8)
        } else {
            None
        }
    }
}

/// The static exchange value of `mv`.
pub open spec fn spec_see(d: PosData, mv: Move) -> int {
    let target = match mv.promotion {
        Some(p) => spec_piece_value(p),
        None => spec_piece_value(d.piece_at(mv.from).unwrap()),
    };
    if d.piece_at(mv.from) is None {
        0
    } else {
        swap(d, mv.to, see_occupancy(d, mv), d.side_to_move.spec_other(), target, see_first_gain(d, mv), 0)
    }
}

/// What `mv` wins at once: the captured piece (a pawn for en passant) plus,
/// for a promotion, the promoted piece less the pawn.
pub open spec fn see_first_gain(d: PosData, mv: Move) -> int {
    let victim = if d.piece_at(mv.to) is Some {
        spec_piece_value(d.piece_at(mv.to).unwrap())
    } else if en_passant_capture(d, mv) {
        PAWN_VALUE as int
    } else {
        0
    };
    victim + match mv.promotion {
        Some(p) => spec_piece_value(p) - PAWN_VALUE,
        None => 0,
    }
}

/// The occupied squares once `mv` is made (the mover off its square and on
/// the target, an en passant victim removed).
pub open spec fn see_occupancy(d: PosData, mv: Move) -> u64 {
    let occ1 = d.occ() & !(1u64 << mv.from);
    let occ2 = if d.piece_at(mv.to) is None {
        occ1 | (1u64 << mv.to)
    } else {
        occ1
    };
    if en_passant_capture(d, mv) && ep_victim(d, mv) is Some {
        occ2 & !(1u64 << (ep_victim(d, mv).unwrap() as u8))
    } else {
        occ2
    }
}

/// The exchange on the target square never gives more than the first
/// capture wins, and gives exactly that when no opponent piece attacks the
/// target once the move is made.
pub proof fn law_see_first_gain(d: PosData, mv: Move)
    requires
        d.piece_at(mv.from) is Some,
    ensures
        spec_see(d, mv) <= see_first_gain(d, mv),
        attackers(d, mv.to, see_occupancy(d, mv), d.side_to_move.spec_other()) & see_occupancy(d, mv)
            == 0 ==> spec_see(d, mv) == see_first_gain(d, mv),
{
    let occ = see_occupancy(d, mv);
    let att = attackers(d, mv.to, occ, d.side_to_move.spec_other()) & occ;
    if att == 0 {
        assert(forall|x: u64| #[trigger] (0u64 & x) == 0u64) by (bit_vector);
    }
}

proof fn lemma_swap_bounds(d: PosData, to: u8, occ: u64, side: Color, target: int, g: int, k: int)
    requires
        0 <= target <= 900,
        -2000 * (k + 1) <= g <= 2000 * (k + 1),
        0 <= k <= 31,
    ensures
        -2000 * 33 <= swap(d, to, occ, side, target, g, k) <= 2000 * 33,
    decreases 32 - k,
{
    if k < 31 {
        match least(d, attackers(d, to, occ, side) & occ) {
            None => {},
            Some(x) => {
                lemma_swap_bounds(
                    d,
                    to,
                    occ & !(1u64 << x.0),
                    side.spec_other(),
                    spec_piece_value(x.1),
                    target - g,
                    k + 1,
                );
            },
        }
    }
}

fn swap_exec(
    d: &PosData,
    to: u8,
    occ: u64,
    side: Color,
    target: i32,
    g: i32,
    k: i32,
) -> (r: i32)
    requires
        to < 64,
        0 <= target <= 900,
        0 <= k <= 31,
        -2000 * (k + 1) <= g <= 2000 * (k + 1),
    ensures
        r == swap(*d, to, occ, side, target as int, g as int, k as int),
    decreases 32 - k,
{
    proof {
        lemma_swap_bounds(*d, to, occ, side, target as int, g as int, k as int);
    }
    if k >= 31 {
        return g;
    }
    let att = attackers_to(d, to, occ, side) & occ;
    match least_attacker(d, att) {
        None => g,
        Some((from, piece)) => {
            let v = swap_exec(
                d,
                to,
                occ & !(1u64 << from),
                side.other(),
                piece_value(piece),
                target - g,
                k + 1,
            );
            proof {
                lemma_swap_bounds(
                    *d,
                    to,
                    occ & !(1u64 << from),
                    side.spec_other(),
                    spec_piece_value(piece),
                    (target - g) as int,
                    k + 1,
                );
            }
            if -g >= v {
                g
            } else {
                -v
            }
        },
    }
}

/// Static exchange evaluation of `mv`: the material it wins (or loses, if
/// negative) once every recapture on its target square that pays has been
/// played, least valuable attacker first. A promotion counts the promoted
/// piece; en passant counts a pawn. 0 when no piece stands on the origin.
pub fn see(d: &PosData, mv: Move) -> (r: Score)
    requires
        mv.wf(),
    ensures
        r == spec_see(*d, mv),
        -66_000 <= r <= 66_000,
{
    let attacker = match d.piece_on(mv.from) {
        Some(p) => p,
        None => {
            return 0;
        },
    };
    let victim_piece = d.piece_on(mv.to);
    let ep = is_en_passant_capture(d, mv);
    let mut g0: i32 = match victim_piece {
        Some(v) => piece_value(v),
        None => if ep {
            PAWN_VALUE
        } else {
            0
        },
    };
    if let Some(promo) = mv.promotion {
        g0 = g0 + piece_value(promo) - PAWN_VALUE;
    }
    let mut occupied = d.occupied() & !(1u64 << mv.from);
    if victim_piece.is_none() {
        occupied = occupied | (1u64 << mv.to);
    }
    if ep {
        if d.side_to_move == Color::White {
            if mv.to / 8 >= 1 {
                occupied = occupied & !(1u64 << (mv.to - 8));
            }
        } else {
            if mv.to / 8 <= 6 {
                occupied = occupied & !(1u64 << (mv.to + 8));
            }
        }
    }
    let target = match mv.promotion {
        Some(p) => piece_value(p),
        None => piece_value(attacker),
    };
    proof {
        lemma_swap_bounds(*d, mv.to, occupied, d.side_to_move.spec_other(), target as int, g0 as int, 0);
    }
    swap_exec(d, mv.to, occupied, d.side_to_move.other(), target, g0, 0)
}

/// Two bitboards that share square `s` share a member.
proof fn lemma_shared_square(a: u64, b: u64, s: u8)
    requires
        s < 64,
        bit(a, s),
        bit(b, s),
    ensures
        a & b != 0,
{
    crate::bits::lemma_bit_and(a, b, s);
    assert(a & b == 0 ==> ((a & b) >> s) & 1u64 != 1u64) by (bit_vector)
        requires
            s < 64,
    ;
}

/// A nonempty bitboard has a lowest member, and it is a member.
proof fn lemma_lowest_member(a: u64)
    requires
        a != 0,
    ensures
        0 <= lowest(a) < 64,
        bit(a, lowest(a) as u8),
{
    crate::bits::lemma_lowest_from_bounds(a, 0);
    if lowest(a) == 64 {
        crate::chess::lemma_empty_when_no_lowest(a);
    }
}

/// Each recapture of the exchange takes the least valuable attacker: the
/// piece chosen among `att` stands on a square of `att` and is of its kind,
/// no other attacker but a king is worth less, and the king is chosen only
/// when nothing else attacks; nothing is chosen only when `att` holds no
/// piece.
pub proof fn law_least_attacker(d: PosData, att: u64)
    ensures
        least(d, att) matches Some(x) ==> {
            &&& x.0 < 64
            &&& bit(att, x.0)
            &&& bit(d.piece_bb(x.1), x.0)
            &&& forall|s: u8, q: Piece|
                s < 64 && bit(att, s) && #[trigger] bit(d.piece_bb(q), s) ==> (if x.1 == Piece::King {
                    q == Piece::King
                } else {
                    q == Piece::King || spec_piece_value(x.1) <= spec_piece_value(q)
                })
        },
        least(d, att) is None ==> forall|s: u8, q: Piece|
            s < 64 && bit(att, s) ==> !#[trigger] bit(d.piece_bb(q), s),
{
    let pw = att & d.piece_bb(Piece::Pawn);
    let kn = att & d.piece_bb(Piece::Knight);
    let bi = att & d.piece_bb(Piece::Bishop);
    let ro = att & d.piece_bb(Piece::Rook);
    let qu = att & d.piece_bb(Piece::Queen);
    let ki = att & d.piece_bb(Piece::King);
    assert forall|s: u8, q: Piece| s < 64 && bit(att, s) && #[trigger] bit(d.piece_bb(q), s) implies att
        & d.piece_bb(q) != 0 by {
        lemma_shared_square(att, d.piece_bb(q), s);
    }
    let b = if pw != 0 {
        pw
    } else if kn != 0 {
        kn
    } else if bi != 0 {
        bi
    } else if ro != 0 {
        ro
    } else if qu != 0 {
        qu
    } else {
        ki
    };
    if b != 0 {
        lemma_lowest_member(b);
        let p = least(d, att).unwrap().1;
        crate::bits::lemma_bit_and(att, d.piece_bb(p), lowest(b) as u8);
    }
}

} // verus!
