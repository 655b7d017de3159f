//! The static evaluation: material and piece-square tables interpolated
//! between midgame and endgame over a 24-point phase, mobility, king attack
//! and safety, pawn structure (cached) and passed pawns, minor-piece and
//! rook terms, and the endgame corrections. Scores are from white's point
//! of view.
use vstd::prelude::*;
use crate::bits::{bit, has, count, popcount, count_below, file_mask, sum_below, sum_squares, or_below, or_squares, any_square, lowest, lemma_count_below_bounds, lemma_sum_below_bounds};
use crate::chess::{PosData, Position, knight_attacks, bishop_attacks, rook_attacks, king_attacks, pawn_attacks, knight_moves, bishop_moves, rook_moves, king_moves, pawn_attack_moves};
use crate::endgame::{sign, sign_of, cnt, count_of, first_of, first_of_exec, small, spec_endgame_solver, endgame_solver, spec_endgame_progress, endgame_progress, spec_endgame_scale, endgame_scale, spec_rook_endgame_geometry, rook_endgame_geometry};
use crate::geom::{min, max, abs, tdiv, clamp, rank, file, imin, imax, iabs, iclamp, lemma_shr8, lemma_shr16, lemma_shr1, lemma_tdiv_bound};
use crate::pawns::{file_count, doubled_below, pawn_files, spec_pawn_structure, evaluate_pawn_structure, spec_passers, evaluate_passers};
use crate::pst::{spec_pst_mg_idx, spec_pst_eg_idx, spec_pst_index, pst_mg_idx, pst_eg_idx, pst_index, pst_bounded};
use crate::types::{Color, Piece, Score, spec_piece_value, spec_phase_weight, piece_value, phase_weight, TOTAL_PHASE, DRAW_SCORE};

verus! {

/// A bound on the magnitude of every evaluation.
pub const EVAL_BOUND: i32 = 860_000;

/// Midgame-weight threshold below which king safety is not scored.
pub const KING_SAFETY_MIN_MG: i32 = 51;

/// Whether a pawn of colour `c` stands on the square of rank `r`, file `f`.
pub open spec fn pawn_on(d: PosData, c: Color, r: int, f: int) -> bool {
    0 <= r < 8 && 0 <= f < 8 && d.piece_at((r * 8 + f) as u8) == Some(Piece::Pawn) && d.color_at(
        (r * 8 + f) as u8,
    ) == Some(c)
}

/// Shield value of file `f` for a king of colour `c` on rank `kr`: 2 for an
/// own pawn right in front, 1 for one two ranks ahead.
pub open spec fn shield_file(d: PosData, c: Color, kr: int, f: int) -> int {
    let dir = if c == Color::White {
        1int
    } else {
        -1int
    };
    if !(0 <= f < 8) {
        0
    } else if pawn_on(d, c, kr + dir, f) {
        2
    } else if pawn_on(d, c, kr + 2 * dir, f) {
        1
    } else {
        0
    }
}

/// Castling-right index of colour `c`: short at `2c`, long at `2c + 1`.
pub open spec fn castle_short(d: PosData, c: Color) -> bool {
    d.castling@[2 * c.spec_index()] is Some
}

pub open spec fn castle_long(d: PosData, c: Color) -> bool {
    d.castling@[2 * c.spec_index() + 1] is Some
}

/// King safety of one side at midgame weight `mg256`.
pub open spec fn side_king_safety(d: PosData, c: Color, mg256: int) -> int {
    let ksq = d.king_sq(c);
    let kr = rank(ksq);
    let kf = file(ksq);
    let rights = (if castle_short(d, c) {
        15int
    } else {
        0int
    }) + (if castle_long(d, c) {
        10int
    } else {
        0int
    });
    let shield = shield_file(d, c, kr, kf - 1) + shield_file(d, c, kr, kf) + shield_file(
        d,
        c,
        kr,
        kf + 1,
    );
    let shield_term = tdiv(15 * mg256 * (shield - 3), 256) / 2;
    let home = if c == Color::White {
        0int
    } else {
        7int
    };
    let uncastled = if mg256 > 102 && kr == home && 2 <= kf <= 5 && !castle_short(d, c)
        && !castle_long(d, c) {
        -((30 * mg256) / 256)
    } else {
        0
    };
    rights + shield_term + uncastled
}

/// King safety, white minus black: castling rights, the pawn shield, and a
/// penalty for an uncastled king in the centre without rights.
pub open spec fn spec_king_safety(d: PosData, mg256: int) -> int {
    if mg256 < 51 {
        0
    } else {
        side_king_safety(d, Color::White, mg256) - side_king_safety(d, Color::Black, mg256)
    }
}

fn pawn_on_exec(d: &PosData, c: Color, r: i32, f: i32) -> (b: bool)
    ensures
        b == pawn_on(*d, c, r as int, f as int),
{
    if 0 <= r && r < 8 && 0 <= f && f < 8 {
        let sq = (r * 8 + f) as u8;
        d.piece_on(sq) == Some(Piece::Pawn) && d.color_on(sq) == Some(c)
    } else {
        false
    }
}

fn shield_file_exec(d: &PosData, c: Color, kr: i32, f: i32) -> (v: i32)
    requires
        0 <= kr < 8,
        -1 <= f <= 8,
    ensures
        v == shield_file(*d, c, kr as int, f as int),
        0 <= v <= 2,
{
    let dir: i32 = if c == Color::White {
        1
    } else {
        -1
    };
    if !(0 <= f && f < 8) {
        0
    } else if pawn_on_exec(d, c, kr + dir, f) {
        2
    } else if pawn_on_exec(d, c, kr + 2 * dir, f) {
        1
    } else {
        0
    }
}

fn side_king_safety_exec(d: &PosData, c: Color, mg256: i32) -> (v: i32)
    requires
        d.wf(),
        0 <= mg256 <= 256,
    ensures
        v == side_king_safety(*d, c, mg256 as int),
        -100 <= v <= 100,
{
    let ksq = d.king(c);
    let kr = (ksq / 8) as i32;
    let kf = (ksq % 8) as i32;
    let short = d.castling[2 * c.index()].is_some();
    let long = d.castling[2 * c.index() + 1].is_some();
    let mut score: i32 = 0;
    if short {
        score = score + 15;
    }
    if long {
        score = score + 10;
    }
    let shield = shield_file_exec(d, c, kr, kf - 1) + shield_file_exec(d, c, kr, kf)
        + shield_file_exec(d, c, kr, kf + 1);
    assert(-15 * 256 * 3 <= 15 * mg256 * (shield - 3) <= 15 * 256 * 3) by (nonlinear_arith)
        requires
            0 <= mg256 <= 256,
            0 <= shield <= 6,
    ;
    let t = 15 * mg256 * (shield - 3) / 256;
    proof {
        lemma_shr1(t);
    }
    score = score + (t >> 1u32);
    if mg256 > 102 {
        let home: i32 = if c == Color::White {
            0
        } else {
            7
        };
        if kr == home && 2 <= kf && kf <= 5 {
            if !short && !long {
                let m = 30 * mg256;
                proof {
                    lemma_shr8(m);
                }
                score = score - (m >> 8u32);
            }
        }
    }
    score
}

/// King safety, white minus black, at midgame weight `mg256` (0 below 51):
/// +15 for a short and +10 for a long castling right, the pawn shield
/// (2 per own pawn right in front of the king, 1 per pawn two ranks ahead,
/// on the king's and the adjacent files) against a par of 3, weighted
/// `15 * mg256 / 512`, and `-30 * mg256 / 256` for a king left in the centre
/// of its home rank without castling rights while `mg256 > 102`.
pub fn eval_king_safety(d: &PosData, mg256: i32) -> (r: Score)
    requires
        d.wf(),
        0 <= mg256 <= 256,
    ensures
        r == spec_king_safety(*d, mg256 as int),
        -200 <= r <= 200,
{
    if mg256 < KING_SAFETY_MIN_MG {
        return 0;
    }
    let w = side_king_safety_exec(d, Color::White, mg256);
    let b = side_king_safety_exec(d, Color::Black, mg256);
    w - b
}


/// Piece value plus piece-square value of a piece of kind `p`, colour `c`
/// on `s`, from the endgame table when `eg` and the midgame one otherwise.
pub open spec fn psq_value(p: Piece, c: Color, s: u8, eg: bool) -> int {
    spec_piece_value(p) + if eg {
        spec_pst_eg_idx(p, spec_pst_index(s, c) as int) as int
    } else {
        spec_pst_mg_idx(p, spec_pst_index(s, c) as int) as int
    }
}

/// Material and piece-square total of the pieces of kind `p`, colour `c`.
pub open spec fn kind_material(d: PosData, c: Color, p: Piece, eg: bool) -> int {
    sum_squares(d.colored(c, p), |s: u8| psq_value(p, c, s, eg))
}

/// Material and piece-square total of colour `c`.
pub open spec fn side_material(d: PosData, c: Color, eg: bool) -> int {
    kind_material(d, c, Piece::Pawn, eg) + kind_material(d, c, Piece::Knight, eg) + kind_material(
        d,
        c,
        Piece::Bishop,
        eg,
    ) + kind_material(d, c, Piece::Rook, eg) + kind_material(d, c, Piece::Queen, eg)
        + kind_material(d, c, Piece::King, eg)
}

/// Material and piece-square balance, white minus black.
pub open spec fn material(d: PosData, eg: bool) -> int {
    side_material(d, Color::White, eg) - side_material(d, Color::Black, eg)
}

/// Adding square `s`, not in `bb`, to `bb` adds `f(s)` to its sum below `n`
/// when `s` is below `n`.
proof fn lemma_sum_add_square(bb: u64, f: spec_fn(u8) -> int, s: u8, n: int)
    requires
        s < 64,
        !bit(bb, s),
        0 <= n <= 64,
    ensures
        sum_below(bb | (1u64 << s), f, n) == sum_below(bb, f, n) + if s < n {
            f(s)
        } else {
            0
        },
    decreases n,
{
    if n > 0 {
        lemma_sum_add_square(bb, f, s, n - 1);
        crate::bits::lemma_bit_or(bb, 1u64 << s, (n - 1) as u8);
        crate::bits::lemma_bit_single(s, (n - 1) as u8);
    }
}

/// The bitboard identities behind placing a piece on an empty square `s`:
/// the placed kind and colour gain `s`, every other pair keeps its squares.
proof fn lemma_place_square(cc: u64, pp: u64, other: u64, s: u8)
    requires
        s < 64,
        (other >> s) & 1u64 != 1u64,
    ensures
        (cc | (1u64 << s)) & (pp | (1u64 << s)) == (cc & pp) | (1u64 << s),
        (cc | (1u64 << s)) & other == cc & other,
        other & (pp | (1u64 << s)) == other & pp,
{
    assert((cc | (1u64 << s)) & (pp | (1u64 << s)) == (cc & pp) | (1u64 << s)) by (bit_vector)
        requires
            s < 64,
    ;
    assert((other >> s) & 1u64 != 1u64 ==> (cc | (1u64 << s)) & other == cc & other
        && other & (pp | (1u64 << s)) == other & pp) by (bit_vector)
        requires
            s < 64,
    ;
}

/// Material counts every piece kind: placing a piece of kind `p` and colour
/// `c` on an empty square `s` raises `c`'s material by the piece's value
/// plus its piece-square table value there, and leaves the other side's
/// material unchanged.
pub proof fn law_side_material_add_piece(d: PosData, d2: PosData, c: Color, p: Piece, s: u8, eg: bool)
    requires
        s < 64,
        forall|k: int| 0 <= k < 6 ==> !bit(#[trigger] d.pieces@[k], s),
        !bit(d.colors@[0], s),
        !bit(d.colors@[1], s),
        d2.pieces@ == d.pieces@.update(p.spec_index(), d.piece_bb(p) | (1u64 << s)),
        d2.colors@ == d.colors@.update(c.spec_index(), d.color_bb(c) | (1u64 << s)),
    ensures
        side_material(d2, c, eg) == side_material(d, c, eg) + spec_piece_value(p) + if eg {
            spec_pst_eg_idx(p, spec_pst_index(s, c) as int) as int
        } else {
            spec_pst_mg_idx(p, spec_pst_index(s, c) as int) as int
        },
        side_material(d2, c.spec_other(), eg) == side_material(d, c.spec_other(), eg),
{
    let b = 1u64 << s;
    let oc = c.spec_other();
    assert forall|q: Piece| #![trigger d2.colored(c, q)] #![trigger d2.colored(oc, q)]
        (q != p ==> d2.colored(c, q) == d.colored(c, q)) && d2.colored(oc, q) == d.colored(oc, q) && (q == p
            ==> d2.colored(c, q) == d.colored(c, q) | b) by {
        lemma_place_square(d.color_bb(c), d.piece_bb(p), d.piece_bb(q), s);
        lemma_place_square(d.color_bb(c), d.piece_bb(p), d.color_bb(oc), s);
    }
    let f = |t: u8| psq_value(p, c, t, eg);
    crate::bits::lemma_bit_and(d.color_bb(c), d.piece_bb(p), s);
    lemma_sum_add_square(d.colored(c, p), f, s, 64);
    assert(kind_material(d2, c, p, eg) == kind_material(d, c, p, eg) + psq_value(p, c, s, eg));
}

/// Game phase before capping: 1 per minor, 2 per rook, 4 per queen.
pub open spec fn raw_phase(d: PosData) -> int {
    cnt(d, Color::White, Piece::Knight) + cnt(d, Color::White, Piece::Bishop) + 2 * cnt(
        d,
        Color::White,
        Piece::Rook,
    ) + 4 * cnt(d, Color::White, Piece::Queen) + cnt(d, Color::Black, Piece::Knight) + cnt(
        d,
        Color::Black,
        Piece::Bishop,
    ) + 2 * cnt(d, Color::Black, Piece::Rook) + 4 * cnt(d, Color::Black, Piece::Queen)
}

fn kind_material_exec(d: &PosData, c: Color, p: Piece, eg: bool) -> (v: i32)
    ensures
        v == kind_material(*d, c, p, eg),
        -50 * 64 <= v <= 980 * 64,
{
    let bb = d.colored_pieces(c, p);
    let val = piece_value(p);
    let ghost f = |s: u8| psq_value(p, c, s, eg);
    let mut acc: i32 = 0;
    let mut s: u8 = 0;
    while s < 64
        invariant
            s <= 64,
            bb == d.colored(c, p),
            val == spec_piece_value(p),
            0 <= val <= 900,
            f == (|s: u8| psq_value(p, c, s, eg)),
            acc == sum_below(bb, f, s as int),
            -50 * s <= acc <= 980 * s,
        decreases 64 - s,
    {
        proof {
            assert(sum_below(bb, f, s as int + 1) == sum_below(bb, f, s as int) + if bit(bb, s) {
                f(s)
            } else {
                0
            });
        }
        if has(bb, s) {
            let idx = pst_index(s, c);
            let t = if eg {
                pst_eg_idx(p, idx)
            } else {
                pst_mg_idx(p, idx)
            };
            acc = acc + (val + t);
        }
        s = s + 1;
    }
    acc
}

fn side_material_exec(d: &PosData, c: Color, eg: bool) -> (v: i32)
    ensures
        v == side_material(*d, c, eg),
        -6 * 50 * 64 <= v <= 6 * 980 * 64,
{
    kind_material_exec(d, c, Piece::Pawn, eg) + kind_material_exec(d, c, Piece::Knight, eg)
        + kind_material_exec(d, c, Piece::Bishop, eg) + kind_material_exec(d, c, Piece::Rook, eg)
        + kind_material_exec(d, c, Piece::Queen, eg) + kind_material_exec(d, c, Piece::King, eg)
}

/// King-zone attack weight of a piece kind.
pub open spec fn katk_weight(p: Piece) -> int {
    match p {
        Piece::Knight => 2,
        Piece::Bishop => 2,
        Piece::Rook => 3,
        Piece::Queen => 5,
        _ => 0,
    }
}

/// Squares a piece of kind `p` on `s` attacks, for the four piece kinds
/// that mobility counts.
pub open spec fn piece_att(d: PosData, p: Piece, s: u8) -> u64 {
    let occ = d.occ();
    match p {
        Piece::Knight => knight_attacks(s),
        Piece::Bishop => bishop_attacks(s, occ),
        Piece::Rook => rook_attacks(s, occ),
        Piece::Queen => bishop_attacks(s, occ) | rook_attacks(s, occ),
        _ => 0u64,
    }
}

/// The king of colour `c` and the squares around it.
pub open spec fn king_ring(d: PosData, c: Color) -> u64 {
    king_attacks(d.king_sq(c) as u8) | (1u64 << (d.king_sq(c) as u8))
}

pub open spec fn kind_mob(d: PosData, c: Color, p: Piece) -> int {
    sum_squares(d.colored(c, p), |s: u8| popcount(piece_att(d, p, s)) as int)
}

pub open spec fn kind_att(d: PosData, c: Color, p: Piece) -> u64 {
    or_squares(d.colored(c, p), |s: u8| piece_att(d, p, s))
}

pub open spec fn kind_kz(d: PosData, c: Color, p: Piece) -> int {
    sum_squares(
        d.colored(c, p),
        |s: u8| popcount(piece_att(d, p, s) & king_ring(d, c.spec_other())) * katk_weight(p),
    )
}

/// Squares attacked by the knights, bishops, rooks and queens of `c`.
pub open spec fn mob(d: PosData, c: Color) -> int {
    kind_mob(d, c, Piece::Knight) + kind_mob(d, c, Piece::Bishop) + kind_mob(d, c, Piece::Rook)
        + kind_mob(d, c, Piece::Queen)
}

pub open spec fn piece_attacks(d: PosData, c: Color) -> u64 {
    kind_att(d, c, Piece::Knight) | kind_att(d, c, Piece::Bishop) | kind_att(d, c, Piece::Rook)
        | kind_att(d, c, Piece::Queen)
}

/// Weighted attacks of the pieces of `c` on the enemy king's zone.
pub open spec fn king_zone_attacks(d: PosData, c: Color) -> int {
    kind_kz(d, c, Piece::Knight) + kind_kz(d, c, Piece::Bishop) + kind_kz(d, c, Piece::Rook)
        + kind_kz(d, c, Piece::Queen)
}

fn piece_att_exec(d: &PosData, p: Piece, s: u8) -> (r: u64)
    requires
        s < 64,
    ensures
        r == piece_att(*d, p, s),
{
    let occ = d.occupied();
    match p {
        Piece::Knight => knight_moves(s),
        Piece::Bishop => bishop_moves(s, occ),
        Piece::Rook => rook_moves(s, occ),
        Piece::Queen => bishop_moves(s, occ) | rook_moves(s, occ),
        _ => 0u64,
    }
}

fn katk_weight_exec(p: Piece) -> (r: i32)
    ensures
        r == katk_weight(p),
        0 <= r <= 5,
{
    match p {
        Piece::Knight => 2,
        Piece::Bishop => 2,
        Piece::Rook => 3,
        Piece::Queen => 5,
        _ => 0,
    }
}

fn kind_stats(d: &PosData, c: Color, p: Piece, ring: u64) -> (r: (i32, u64, i32))
    requires
        ring == king_ring(*d, c.spec_other()),
        popcount(ring) <= 9,
    ensures
        r.0 == kind_mob(*d, c, p),
        r.1 == kind_att(*d, c, p),
        r.2 == kind_kz(*d, c, p),
        0 <= r.0 <= 64 * 64,
        0 <= r.2 <= 64 * 45,
        r.2 <= 45 * popcount(d.colored(c, p)),
{
    let bb = d.colored_pieces(c, p);
    let w = katk_weight_exec(p);
    let ghost fm = |s: u8| popcount(piece_att(*d, p, s)) as int;
    let ghost fa = |s: u8| piece_att(*d, p, s);
    let ghost fk = |s: u8| popcount(piece_att(*d, p, s) & king_ring(*d, c.spec_other())) * katk_weight(p);
    let mut m: i32 = 0;
    let mut a: u64 = 0;
    let mut k: i32 = 0;
    let mut s: u8 = 0;
    while s < 64
        invariant
            s <= 64,
            bb == d.colored(c, p),
            ring == king_ring(*d, c.spec_other()),
            popcount(ring) <= 9,
            w == katk_weight(p),
            0 <= w <= 5,
            fm == (|s: u8| popcount(piece_att(*d, p, s)) as int),
            fa == (|s: u8| piece_att(*d, p, s)),
            fk == (|s: u8| popcount(piece_att(*d, p, s) & king_ring(*d, c.spec_other())) * katk_weight(p)),
            m == sum_below(bb, fm, s as int),
            a == or_below(bb, fa, s as int),
            k == sum_below(bb, fk, s as int),
            0 <= m <= 64 * s,
            0 <= k <= 45 * s,
            k <= 45 * count_below(bb, s as int),
        decreases 64 - s,
    {
        proof {
            assert(sum_below(bb, fm, s as int + 1) == sum_below(bb, fm, s as int) + if bit(bb, s) {
                fm(s)
            } else {
                0
            });
            assert(sum_below(bb, fk, s as int + 1) == sum_below(bb, fk, s as int) + if bit(bb, s) {
                fk(s)
            } else {
                0
            });
            assert(or_below(bb, fa, s as int + 1) == (or_below(bb, fa, s as int) | if bit(bb, s) {
                fa(s)
            } else {
                0u64
            }));
        }
        if has(bb, s) {
            let att = piece_att_exec(d, p, s);
            let n = count(att);
            let hits = count(att & ring) as i32;
            proof {
                crate::bits::lemma_count_and_le(att, ring, 64);
            }
            assert(0 <= hits * w <= 45) by (nonlinear_arith)
                requires
                    0 <= hits <= 9,
                    0 <= w <= 5,
            ;
            m = m + n as i32;
            a = a | att;
            k = k + hits * w;
        } else {
            a = a | 0u64;
        }
        s = s + 1;
    }
    (m, a, k)
}

/// Mobility count, attacked squares and king-zone attack units of `c`.
fn side_stats(d: &PosData, c: Color) -> (r: (i32, u64, i32))
    requires
        d.wf(),
    ensures
        r.0 == mob(*d, c),
        r.1 == piece_attacks(*d, c),
        r.2 == king_zone_attacks(*d, c),
        0 <= r.0 <= 4 * 64 * 64,
        0 <= r.2 <= 675,
{
    let ek = d.king(c.other());
    let km = king_moves(ek);
    let ring = km | crate::bits::square_bb(ek);
    proof {
        crate::bits::lemma_count_or_single(km, ek, 64);
    }
    let (m1, a1, k1) = kind_stats(d, c, Piece::Knight, ring);
    let (m2, a2, k2) = kind_stats(d, c, Piece::Bishop, ring);
    let (m3, a3, k3) = kind_stats(d, c, Piece::Rook, ring);
    let (m4, a4, k4) = kind_stats(d, c, Piece::Queen, ring);
    (m1 + m2 + m3 + m4, a1 | a2 | a3 | a4, k1 + k2 + k3 + k4)
}


pub const NOT_A_FILE: u64 = 0xfefe_fefe_fefe_fefe;
pub const NOT_H_FILE: u64 = 0x7f7f_7f7f_7f7f_7f7f;

/// Squares attacked by the pawns of `c`.
pub open spec fn pawn_atk(d: PosData, c: Color) -> u64 {
    let p = d.colored(c, Piece::Pawn);
    if c == Color::White {
        ((p & NOT_A_FILE) << 7u64) | ((p & NOT_H_FILE) << 9u64)
    } else {
        ((p & NOT_H_FILE) >> 7u64) | ((p & NOT_A_FILE) >> 9u64)
    }
}

fn pawn_atk_exec(d: &PosData, c: Color) -> (r: u64)
    ensures
        r == pawn_atk(*d, c),
{
    let p = d.colored_pieces(c, Piece::Pawn);
    if c == Color::White {
        ((p & NOT_A_FILE) << 7u64) | ((p & NOT_H_FILE) << 9u64)
    } else {
        ((p & NOT_H_FILE) >> 7u64) | ((p & NOT_A_FILE) >> 9u64)
    }
}

/// All squares attacked by `c`, kings aside.
pub open spec fn all_att(d: PosData, c: Color) -> u64 {
    piece_attacks(d, c) | pawn_atk(d, c)
}

/// Value of `c`'s pieces of kind `p` that are attacked and undefended,
/// a quarter of each piece's value.
pub open spec fn kind_hanging(d: PosData, c: Color, p: Piece) -> int {
    popcount(all_att(d, c.spec_other()) & d.colored(c, p) & !all_att(d, c)) * spec_piece_value(p)
        / 4
}

pub open spec fn hanging(d: PosData, c: Color) -> int {
    kind_hanging(d, c, Piece::Knight) + kind_hanging(d, c, Piece::Bishop) + kind_hanging(
        d,
        c,
        Piece::Rook,
    ) + kind_hanging(d, c, Piece::Queen)
}

fn kind_hanging_exec(d: &PosData, c: Color, p: Piece, own_att: u64, enemy_att: u64) -> (r: i32)
    requires
        own_att == all_att(*d, c),
        enemy_att == all_att(*d, c.spec_other()),
    ensures
        r == kind_hanging(*d, c, p),
        0 <= r <= 64 * 225,
{
    let pv = piece_value(p);
    let n = count(enemy_att & d.colored_pieces(c, p) & !own_att) as i32;
    assert(0 <= n * pv <= 64 * 900) by (nonlinear_arith)
        requires
            0 <= n <= 64,
            0 <= pv <= 900,
    ;
    n * pv / 4
}

fn hanging_exec(d: &PosData, c: Color, own_att: u64, enemy_att: u64) -> (r: i32)
    requires
        own_att == all_att(*d, c),
        enemy_att == all_att(*d, c.spec_other()),
    ensures
        r == hanging(*d, c),
        0 <= r <= 4 * 64 * 225,
{
    kind_hanging_exec(d, c, Piece::Knight, own_att, enemy_att) + kind_hanging_exec(
        d,
        c,
        Piece::Bishop,
        own_att,
        enemy_att,
    ) + kind_hanging_exec(d, c, Piece::Rook, own_att, enemy_att) + kind_hanging_exec(
        d,
        c,
        Piece::Queen,
        own_att,
        enemy_att,
    )
}

/// `sqrt(i) * 256` for mobility counts up to 64.
pub const ISQRT_Q8: [i32; 65] = [
    0, 256, 362, 443, 512, 572, 626, 676, 724, 768, 810, 849, 887, 922, 957, 989,
    1024, 1055, 1086, 1116, 1145, 1173, 1200, 1227, 1253, 1280, 1305, 1330, 1355, 1379, 1403, 1426,
    1448, 1471, 1493, 1515, 1536, 1557, 1578, 1598, 1619, 1638, 1658, 1677, 1696, 1715, 1734, 1752,
    1770, 1788, 1806, 1824, 1841, 1858, 1875, 1892, 1909, 1925, 1941, 1957, 1973, 1989, 2005, 2020,
    2048,
];

/// Mobility score: square roots of the two sides' mobility counts, weighted
/// `(768 + 4 * mg256) / 65536`.
pub open spec fn mob_score(d: PosData, mg256: int) -> int {
    (3 * 256 + 4 * mg256) * (ISQRT_Q8@[min(mob(d, Color::White), 64)] - ISQRT_Q8@[min(
        mob(d, Color::Black),
        64,
    )]) / 65536
}

fn mob_score_exec(w_mob: i32, b_mob: i32, mg256: i32) -> (r: i32)
    requires
        0 <= w_mob,
        0 <= b_mob,
        0 <= mg256 <= 256,
    ensures
        r == (3 * 256 + 4 * mg256) * (ISQRT_Q8@[min(w_mob as int, 64)] - ISQRT_Q8@[min(
            b_mob as int,
            64,
        )]) / 65536,
        -60 <= r <= 60,
{
    assert(forall|i: int| 0 <= i <= 64 ==> 0 <= #[trigger] ISQRT_Q8@[i] <= 2048);
    let mob_coeff = 3 * 256 + 4 * mg256;
    let w_sqrt = ISQRT_Q8[imin(w_mob, 64) as usize];
    let b_sqrt = ISQRT_Q8[imin(b_mob, 64) as usize];
    assert(-1792 * 2048 <= mob_coeff * (w_sqrt - b_sqrt) <= 1792 * 2048) by (nonlinear_arith)
        requires
            768 <= mob_coeff <= 1792,
            -2048 <= w_sqrt - b_sqrt <= 2048,
    ;
    let x = mob_coeff * (w_sqrt - b_sqrt);
    proof {
        lemma_shr16(x);
    }
    x >> 16u32
}


/// Safe checking squares of the kind given by `checks` for attacker `a`
/// against the king of the other side: attacked by `a`, not attacked by the
/// defender, not occupied by `a`.
pub open spec fn safe_checks(d: PosData, a: Color, checks: u64) -> int {
    min(
        popcount(checks & all_att(d, a) & !all_att(d, a.spec_other()) & !d.color_bb(a)) as int,
        2,
    )
}

/// Pawn shield of the king of defender `def` against the attack model: own
/// pawns on the three squares in front of the king.
pub open spec fn attack_shield(d: PosData, def: Color) -> int {
    let ek = d.king_sq(def);
    let r = rank(ek) + if def == Color::White {
        1int
    } else {
        -1int
    };
    let f = file(ek);
    (if pawn_on(d, def, r, f - 1) {
        1int
    } else {
        0int
    }) + (if pawn_on(d, def, r, f) {
        1int
    } else {
        0int
    }) + (if pawn_on(d, def, r, f + 1) {
        1int
    } else {
        0int
    })
}

/// Attack units of attacker `a` against the other king.
pub open spec fn attack_units(d: PosData, a: Color) -> int {
    let def = a.spec_other();
    let ek = d.king_sq(def) as u8;
    let occ = d.occ();
    king_zone_attacks(d, a) + safe_checks(d, a, knight_attacks(ek)) * 3 + safe_checks(
        d,
        a,
        bishop_attacks(ek, occ),
    ) * 2 + safe_checks(d, a, rook_attacks(ek, occ)) * 4 + (3 - attack_shield(d, def)) * 3
}

/// The quadratic king-attack danger of attacker `a`: `units^2 / 64`,
/// midgame-weighted, once there are at least 4 units.
pub open spec fn attack_danger(d: PosData, a: Color, mg256: int) -> int {
    let units = attack_units(d, a);
    if units >= 4 {
        tdiv((units * units / 64) * mg256, 256)
    } else {
        0
    }
}

fn attack_danger_exec(
    d: &PosData,
    a: Color,
    mg256: i32,
    kz: i32,
    own_att: u64,
    enemy_att: u64,
) -> (r: i32)
    requires
        d.wf(),
        0 <= mg256 <= 256,
        kz == king_zone_attacks(*d, a),
        0 <= kz <= 675,
        own_att == all_att(*d, a),
        enemy_att == all_att(*d, a.spec_other()),
    ensures
        r == attack_danger(*d, a, mg256 as int),
        0 <= r <= 8000,
{
    let def = a.other();
    let ek = d.king(def);
    let occ = d.occupied();
    let safe_mask = !enemy_att;
    let not_own = !d.colors_of(a);
    let n_checks = count(knight_moves(ek) & own_att & safe_mask & not_own) as i32;
    let b_checks = count(bishop_moves(ek, occ) & own_att & safe_mask & not_own) as i32;
    let r_checks = count(rook_moves(ek, occ) & own_att & safe_mask & not_own) as i32;
    let mut units = kz;
    units = units + imin(n_checks, 2) * 3;
    units = units + imin(b_checks, 2) * 2;
    units = units + imin(r_checks, 2) * 4;
    let ek_f = (ek % 8) as i32;
    let ek_r = (ek / 8) as i32;
    let sr = if def == Color::White {
        ek_r + 1
    } else {
        ek_r - 1
    };
    let mut shield: i32 = 0;
    if pawn_on_exec(d, def, sr, ek_f - 1) {
        shield = shield + 1;
    }
    if pawn_on_exec(d, def, sr, ek_f) {
        shield = shield + 1;
    }
    if pawn_on_exec(d, def, sr, ek_f + 1) {
        shield = shield + 1;
    }
    units = units + (3 - shield) * 3;
    if units >= 4 {
        assert(0 <= units * units <= 710 * 710) by (nonlinear_arith)
            requires
                4 <= units <= 710,
        ;
        let q = units * units / 64;
        assert(0 <= q * mg256 <= 710 * 710 / 64 * 256) by (nonlinear_arith)
            requires
                0 <= q <= 710 * 710 / 64,
                0 <= mg256 <= 256,
        ;
        q * mg256 / 256
    } else {
        0
    }
}

/// Squares of black's half of the board, and of white's.
pub const BLACK_HALF: u64 = 0xffff_ffff_0000_0000;
pub const WHITE_HALF: u64 = 0x0000_0000_ffff_ffff;

/// Space: squares in the enemy half attacked only by one's own side,
/// midgame-weighted when `mg256 > 64`.
pub open spec fn space_score(d: PosData, mg256: int) -> int {
    let w_only = all_att(d, Color::White) & !all_att(d, Color::Black);
    let b_only = all_att(d, Color::Black) & !all_att(d, Color::White);
    if mg256 > 64 {
        tdiv((popcount(w_only & BLACK_HALF) - popcount(b_only & WHITE_HALF)) * mg256, 256)
    } else {
        0
    }
}

/// Pawn threats on minor pieces, 15 each, midgame-weighted when
/// `mg256 > 64`.
pub open spec fn threat_score(d: PosData, mg256: int) -> int {
    let b_minors = d.colored(Color::Black, Piece::Knight) | d.colored(Color::Black, Piece::Bishop);
    let w_minors = d.colored(Color::White, Piece::Knight) | d.colored(Color::White, Piece::Bishop);
    let w_threats = popcount(pawn_atk(d, Color::White) & b_minors) as int;
    let b_threats = popcount(pawn_atk(d, Color::Black) & w_minors) as int;
    if mg256 > 64 {
        tdiv((w_threats - b_threats) * 15 * mg256, 256)
    } else {
        0
    }
}

fn space_score_exec(w_att: u64, b_att: u64, mg256: i32, Ghost(d): Ghost<PosData>) -> (r: i32)
    requires
        w_att == all_att(d, Color::White),
        b_att == all_att(d, Color::Black),
        0 <= mg256 <= 256,
    ensures
        r == space_score(d, mg256 as int),
        -64 <= r <= 64,
{
    if mg256 > 64 {
        let w_only = w_att & !b_att;
        let b_only = b_att & !w_att;
        let w_space = count(w_only & BLACK_HALF) as i32;
        let b_space = count(b_only & WHITE_HALF) as i32;
        assert(-64 * 256 <= (w_space - b_space) * mg256 <= 64 * 256) by (nonlinear_arith)
            requires
                -64 <= w_space - b_space <= 64,
                0 <= mg256 <= 256,
        ;
        proof {
            lemma_tdiv_bound((w_space - b_space) * mg256, 256, 64);
        }
        (w_space - b_space) * mg256 / 256
    } else {
        0
    }
}

fn threat_score_exec(d: &PosData, w_patk: u64, b_patk: u64, mg256: i32) -> (r: i32)
    requires
        w_patk == pawn_atk(*d, Color::White),
        b_patk == pawn_atk(*d, Color::Black),
        0 <= mg256 <= 256,
    ensures
        r == threat_score(*d, mg256 as int),
        -960 <= r <= 960,
{
    if mg256 > 64 {
        let b_minors = d.colored_pieces(Color::Black, Piece::Knight) | d.colored_pieces(
            Color::Black,
            Piece::Bishop,
        );
        let w_threats = count(w_patk & b_minors) as i32;
        let w_minors = d.colored_pieces(Color::White, Piece::Knight) | d.colored_pieces(
            Color::White,
            Piece::Bishop,
        );
        let b_threats = count(b_patk & w_minors) as i32;
        assert(-960 * 256 <= (w_threats - b_threats) * 15 * mg256 <= 960 * 256) by (nonlinear_arith)
            requires
                -64 <= w_threats - b_threats <= 64,
                0 <= mg256 <= 256,
        ;
        proof {
            lemma_tdiv_bound((w_threats - b_threats) * 15 * mg256, 256, 960);
        }
        (w_threats - b_threats) * 15 * mg256 / 256
    } else {
        0
    }
}


/// Whether an enemy pawn can ever attack a knight of colour `c` on `s`: an
/// enemy pawn on an adjacent file, on a rank from which it can still
/// advance to the knight's side.
pub open spec fn outpost_challenged(d: PosData, c: Color, s: int) -> bool {
    let r = rank(s);
    let f = file(s);
    any_square(
        d.colored(c.spec_other(), Piece::Pawn),
        |q: u8|
            abs(file(q as int) - f) == 1 && if c == Color::White {
                r + 1 <= rank(q as int) <= 6
            } else {
                1 <= rank(q as int) < r
            },
    )
}

/// Outpost bonus of a knight of colour `c` on `s`: in the enemy half,
/// defended by an own pawn, never challengeable by an enemy pawn.
pub open spec fn outpost_term(d: PosData, c: Color, s: int) -> int {
    let r = rank(s);
    let in_half = if c == Color::White {
        r >= 4
    } else {
        r <= 3
    };
    let defended = pawn_attacks(s as u8, c.spec_other()) & d.colored(c, Piece::Pawn) != 0;
    if in_half && defended && !outpost_challenged(d, c, s) {
        15 + 5 * (if c == Color::White {
            r - 4
        } else {
            3 - r
        })
    } else {
        0
    }
}

pub open spec fn side_outposts(d: PosData, c: Color) -> int {
    sum_squares(d.colored(c, Piece::Knight), |s: u8| outpost_term(d, c, s as int))
}

/// Knight outposts, white minus black.
pub open spec fn outpost_score(d: PosData) -> int {
    side_outposts(d, Color::White) - side_outposts(d, Color::Black)
}

fn outpost_challenged_exec(d: &PosData, c: Color, s: u8) -> (b: bool)
    requires
        s < 64,
    ensures
        b == outpost_challenged(*d, c, s as int),
{
    let enemy = d.colored_pieces(c.other(), Piece::Pawn);
    let r = (s / 8) as i32;
    let f = (s % 8) as i32;
    let ghost pred = |q: u8|
        abs(file(q as int) - f) == 1 && if c == Color::White {
            r + 1 <= rank(q as int) <= 6
        } else {
            1 <= rank(q as int) < r
        };
    let mut found = false;
    let mut t: u8 = 0;
    while t < 64
        invariant
            t <= 64,
            s < 64,
            r == rank(s as int),
            f == file(s as int),
            enemy == d.colored(c.spec_other(), Piece::Pawn),
            pred == (|q: u8|
                abs(file(q as int) - f) == 1 && if c == Color::White {
                    r + 1 <= rank(q as int) <= 6
                } else {
                    1 <= rank(q as int) < r
                }),
            found == crate::bits::any_below(enemy, pred, t as int),
        decreases 64 - t,
    {
        proof {
            assert(crate::bits::any_below(enemy, pred, t as int + 1) == (crate::bits::any_below(
                enemy,
                pred,
                t as int,
            ) || (bit(enemy, t) && pred(t))));
        }
        if has(enemy, t) {
            let qf = (t % 8) as i32;
            let qr = (t / 8) as i32;
            let in_range = if c == Color::White {
                r + 1 <= qr && qr <= 6
            } else {
                1 <= qr && qr < r
            };
            if iabs(qf - f) == 1 && in_range {
                found = true;
            }
        }
        t = t + 1;
    }
    found
}

fn outpost_term_exec(d: &PosData, c: Color, s: u8) -> (v: i32)
    requires
        s < 64,
    ensures
        v == outpost_term(*d, c, s as int),
        0 <= v <= 30,
{
    let r = (s / 8) as i32;
    let in_half = if c == Color::White {
        r >= 4
    } else {
        r <= 3
    };
    if in_half {
        let defended = pawn_attack_moves(s, c.other()) & d.colored_pieces(c, Piece::Pawn) != 0;
        if defended && !outpost_challenged_exec(d, c, s) {
            return 15 + 5 * (if c == Color::White {
                r - 4
            } else {
                3 - r
            });
        }
    }
    0
}

fn side_outposts_exec(d: &PosData, c: Color) -> (v: i32)
    ensures
        v == side_outposts(*d, c),
        0 <= v <= 30 * 64,
{
    let bb = d.colored_pieces(c, Piece::Knight);
    let ghost f = |s: u8| outpost_term(*d, c, s as int);
    let mut acc: i32 = 0;
    let mut s: u8 = 0;
    while s < 64
        invariant
            s <= 64,
            bb == d.colored(c, Piece::Knight),
            f == (|s: u8| outpost_term(*d, c, s as int)),
            acc == sum_below(bb, f, s as int),
            0 <= acc <= 30 * s,
        decreases 64 - s,
    {
        proof {
            assert(sum_below(bb, f, s as int + 1) == sum_below(bb, f, s as int) + if bit(bb, s) {
                f(s)
            } else {
                0
            });
        }
        if has(bb, s) {
            acc = acc + outpost_term_exec(d, c, s);
        }
        s = s + 1;
    }
    acc
}

/// Number of pawns of `c` standing on squares of the same colour as `sq`.
pub open spec fn same_colour_pawns(d: PosData, c: Color, sq: int) -> int {
    sum_squares(
        d.colored(c, Piece::Pawn),
        |p: u8|
            if (rank(p as int) + file(p as int)) % 2 == (rank(sq) + file(sq)) % 2 {
                1int
            } else {
                0int
            },
    )
}

/// Penalty of 3 per own pawn on the colour of a lone bishop, white minus
/// black.
pub open spec fn bishop_complex_score(d: PosData) -> int {
    (if cnt(d, Color::White, Piece::Bishop) == 1 {
        -3 * same_colour_pawns(d, Color::White, first_of(d, Color::White, Piece::Bishop))
    } else {
        0
    }) - (if cnt(d, Color::Black, Piece::Bishop) == 1 {
        -3 * same_colour_pawns(d, Color::Black, first_of(d, Color::Black, Piece::Bishop))
    } else {
        0
    })
}

fn same_colour_pawns_exec(d: &PosData, c: Color, sq: u8) -> (v: i32)
    requires
        sq < 64,
    ensures
        v == same_colour_pawns(*d, c, sq as int),
        0 <= v <= 64,
{
    let bb = d.colored_pieces(c, Piece::Pawn);
    let b_light = ((sq / 8) as i32 + (sq % 8) as i32) % 2;
    let ghost f = |p: u8|
        if (rank(p as int) + file(p as int)) % 2 == (rank(sq as int) + file(sq as int)) % 2 {
            1int
        } else {
            0int
        };
    let mut acc: i32 = 0;
    let mut s: u8 = 0;
    while s < 64
        invariant
            s <= 64,
            sq < 64,
            bb == d.colored(c, Piece::Pawn),
            b_light == (rank(sq as int) + file(sq as int)) % 2,
            f == (|p: u8|
                if (rank(p as int) + file(p as int)) % 2 == (rank(sq as int) + file(sq as int))
                    % 2 {
                    1int
                } else {
                    0int
                }),
            acc == sum_below(bb, f, s as int),
            0 <= acc <= s,
        decreases 64 - s,
    {
        proof {
            assert(sum_below(bb, f, s as int + 1) == sum_below(bb, f, s as int) + if bit(bb, s) {
                f(s)
            } else {
                0
            });
        }
        if has(bb, s) {
            let p_light = ((s / 8) as i32 + (s % 8) as i32) % 2;
            if p_light == b_light {
                acc = acc + 1;
            }
        }
        s = s + 1;
    }
    acc
}

fn bishop_complex_exec(d: &PosData, w_bishops: i32, b_bishops: i32) -> (v: i32)
    requires
        w_bishops == cnt(*d, Color::White, Piece::Bishop),
        b_bishops == cnt(*d, Color::Black, Piece::Bishop),
    ensures
        v == bishop_complex_score(*d),
        -192 <= v <= 192,
{
    let mut score: i32 = 0;
    if w_bishops == 1 {
        let bsq = first_of_exec(d, Color::White, Piece::Bishop);
        score = score + -3 * same_colour_pawns_exec(d, Color::White, bsq);
    }
    if b_bishops == 1 {
        let bsq = first_of_exec(d, Color::Black, Piece::Bishop);
        score = score - -3 * same_colour_pawns_exec(d, Color::Black, bsq);
    }
    score
}

/// Files with no pawn of either colour, below file `n`.
pub open spec fn open_files_below(d: PosData, n: int) -> int
    decreases n,
{
    if n <= 0 {
        0
    } else {
        open_files_below(d, n - 1) + if file_count(d, Color::White, n - 1) == 0 && file_count(
            d,
            Color::Black,
            n - 1,
        ) == 0 {
            1int
        } else {
            0int
        }
    }
}

/// Openness out of 256: fewer pawns and more open files open the board.
pub open spec fn openness256(d: PosData) -> int {
    let total_pawns = cnt(d, Color::White, Piece::Pawn) + cnt(d, Color::Black, Piece::Pawn);
    tdiv((16 - total_pawns + open_files_below(d, 8)) * 256, 24)
}

/// Bishop pair bonus, growing with openness, white minus black.
pub open spec fn bishop_pair_score(d: PosData) -> int {
    let bonus = 20 + (48 * openness256(d)) / 256;
    (if cnt(d, Color::White, Piece::Bishop) >= 2 {
        bonus
    } else {
        0
    }) - (if cnt(d, Color::Black, Piece::Bishop) >= 2 {
        bonus
    } else {
        0
    })
}

fn bishop_pair_exec(
    d: &PosData,
    w_files: &[u8; 8],
    b_files: &[u8; 8],
    total_pawns: i32,
    w_bishops: i32,
    b_bishops: i32,
) -> (v: i32)
    requires
        forall|f: int| 0 <= f < 8 ==> #[trigger] w_files@[f] == file_count(*d, Color::White, f),
        forall|f: int| 0 <= f < 8 ==> #[trigger] b_files@[f] == file_count(*d, Color::Black, f),
        total_pawns == cnt(*d, Color::White, Piece::Pawn) + cnt(*d, Color::Black, Piece::Pawn),
        0 <= total_pawns <= 128,
        w_bishops == cnt(*d, Color::White, Piece::Bishop),
        b_bishops == cnt(*d, Color::Black, Piece::Bishop),
    ensures
        v == bishop_pair_score(*d),
        -2000 <= v <= 2000,
{
    let mut open_files: i32 = 0;
    let mut f: usize = 0;
    while f < 8
        invariant
            f <= 8,
            forall|g: int| 0 <= g < 8 ==> #[trigger] w_files@[g] == file_count(*d, Color::White, g),
            forall|g: int| 0 <= g < 8 ==> #[trigger] b_files@[g] == file_count(*d, Color::Black, g),
            open_files == open_files_below(*d, f as int),
            0 <= open_files <= f,
        decreases 8 - f,
    {
        if w_files[f] == 0 && b_files[f] == 0 {
            open_files = open_files + 1;
        }
        f = f + 1;
    }
    let openness = (16 - total_pawns + open_files) * 256 / 24;
    let x = 48 * openness;
    proof {
        lemma_shr8(x);
    }
    let bonus = 20 + (x >> 8u32);
    let mut score: i32 = 0;
    if w_bishops >= 2 {
        score = score + bonus;
    }
    if b_bishops >= 2 {
        score = score - bonus;
    }
    score
}


/// Squares of rank `r`.
pub open spec fn rank_mask(r: int) -> u64 {
    0xffu64 << ((8 * r) as u64)
}

/// Bonus of a rook of colour `c` on `s`: for an open (15) or half-open (10)
/// file, more near the enemy king's file in the midgame; for the seventh
/// rank, with its enemy pawns and an enemy king on the back rank.
pub open spec fn rook_term(d: PosData, c: Color, s: int, mg256: int) -> int {
    let f = file(s);
    let r = rank(s);
    let ek = d.king_sq(c.spec_other());
    let base = if file_count(d, c.spec_other(), f) == 0 {
        15int
    } else {
        10int
    };
    let fd = abs(f - file(ek));
    let kf = 256 + max(2 - fd, 0) * mg256 / 2;
    let open_part = if file_count(d, c, f) == 0 {
        base * kf / 256
    } else {
        0
    };
    let seventh = if c == Color::White {
        6int
    } else {
        1int
    };
    let back = if c == Color::White {
        7int
    } else {
        0int
    };
    let kob = if rank(ek) == back {
        1int
    } else {
        0int
    };
    let targets = popcount(d.colored(c.spec_other(), Piece::Pawn) & rank_mask(seventh)) as int;
    let r7 = 10 + 5 * targets + 10 * kob;
    let seventh_part = if r == seventh {
        r7 * mg256 / 256
    } else {
        0
    };
    open_part + seventh_part
}

pub open spec fn side_rooks(d: PosData, c: Color, mg256: int) -> int {
    sum_squares(d.colored(c, Piece::Rook), |s: u8| rook_term(d, c, s as int, mg256))
}

/// Rook bonuses, white minus black.
pub open spec fn rook_score(d: PosData, mg256: int) -> int {
    side_rooks(d, Color::White, mg256) - side_rooks(d, Color::Black, mg256)
}

fn rook_term_exec(
    d: &PosData,
    c: Color,
    s: u8,
    mg256: i32,
    own_files: &[u8; 8],
    enemy_files: &[u8; 8],
) -> (v: i32)
    requires
        d.wf(),
        s < 64,
        0 <= mg256 <= 256,
        forall|f: int| 0 <= f < 8 ==> #[trigger] own_files@[f] == file_count(*d, c, f),
        forall|f: int| 0 <= f < 8 ==> #[trigger] enemy_files@[f] == file_count(
            *d,
            c.spec_other(),
            f,
        ),
    ensures
        v == rook_term(*d, c, s as int, mg256 as int),
        0 <= v <= 400,
{
    let f = (s % 8) as usize;
    let r = (s / 8) as i32;
    let ek = d.king(c.other());
    let ek_file = (ek % 8) as i32;
    let mut score: i32 = 0;
    if own_files[f] == 0 {
        let base: i32 = if enemy_files[f] == 0 {
            15
        } else {
            10
        };
        let fd = iabs(f as i32 - ek_file);
        let m = imax(2 - fd, 0);
        assert(0 <= m * mg256 <= 512) by (nonlinear_arith)
            requires
                0 <= m <= 2,
                0 <= mg256 <= 256,
        ;
        let kf = 256 + m * mg256 / 2;
        assert(0 <= base * kf <= 15 * 512) by (nonlinear_arith)
            requires
                10 <= base <= 15,
                256 <= kf <= 512,
        ;
        let x = base * kf;
        proof {
            lemma_shr8(x);
        }
        score = score + (x >> 8u32);
    }
    let seventh: i32 = if c == Color::White {
        6
    } else {
        1
    };
    if r == seventh {
        let back: i32 = if c == Color::White {
            7
        } else {
            0
        };
        let kob: i32 = if (ek / 8) as i32 == back {
            1
        } else {
            0
        };
        let mask: u64 = if c == Color::White {
            0xffu64 << 48u64
        } else {
            0xffu64 << 8u64
        };
        let targets = count(d.colored_pieces(c.other(), Piece::Pawn) & mask) as i32;
        let r7 = 10 + 5 * targets + 10 * kob;
        assert(0 <= r7 * mg256 <= 340 * 256) by (nonlinear_arith)
            requires
                10 <= r7 <= 340,
                0 <= mg256 <= 256,
        ;
        let y = r7 * mg256;
        proof {
            lemma_shr8(y);
        }
        score = score + (y >> 8u32);
    }
    score
}

fn side_rooks_exec(
    d: &PosData,
    c: Color,
    mg256: i32,
    own_files: &[u8; 8],
    enemy_files: &[u8; 8],
) -> (v: i32)
    requires
        d.wf(),
        0 <= mg256 <= 256,
        forall|f: int| 0 <= f < 8 ==> #[trigger] own_files@[f] == file_count(*d, c, f),
        forall|f: int| 0 <= f < 8 ==> #[trigger] enemy_files@[f] == file_count(
            *d,
            c.spec_other(),
            f,
        ),
    ensures
        v == side_rooks(*d, c, mg256 as int),
        0 <= v <= 400 * 64,
{
    let bb = d.colored_pieces(c, Piece::Rook);
    let ghost g = |s: u8| rook_term(*d, c, s as int, mg256 as int);
    let mut acc: i32 = 0;
    let mut s: u8 = 0;
    while s < 64
        invariant
            s <= 64,
            d.wf(),
            0 <= mg256 <= 256,
            forall|f: int| 0 <= f < 8 ==> #[trigger] own_files@[f] == file_count(*d, c, f),
            forall|f: int| 0 <= f < 8 ==> #[trigger] enemy_files@[f] == file_count(
                *d,
                c.spec_other(),
                f,
            ),
            bb == d.colored(c, Piece::Rook),
            g == (|s: u8| rook_term(*d, c, s as int, mg256 as int)),
            acc == sum_below(bb, g, s as int),
            0 <= acc <= 400 * s,
        decreases 64 - s,
    {
        proof {
            assert(sum_below(bb, g, s as int + 1) == sum_below(bb, g, s as int) + if bit(bb, s) {
                g(s)
            } else {
                0
            });
        }
        if has(bb, s) {
            acc = acc + rook_term_exec(d, c, s, mg256, own_files, enemy_files);
        }
        s = s + 1;
    }
    acc
}


/// A cached pawn-structure score.
#[derive(Clone, Copy, Debug)]
pub struct PawnEntry {
    pub key: u64,
    pub score: Score,
}

/// Bytes taken by one pawn-table entry (8 + 4, aligned to 8).
pub const PAWN_ENTRY_BYTES: usize = 16;

/// A direct-mapped cache of pawn-structure scores keyed by a hash of the
/// pawn bitboards. A hit returns the stored score without checking that the
/// pawns are the same (two pawn structures may share a key).
pub struct PawnTable {
    entries: Vec<PawnEntry>,
    mask: usize,
}

impl PawnTable {
    pub closed spec fn entries(&self) -> Seq<PawnEntry> {
        self.entries@
    }

    pub closed spec fn mask(&self) -> usize {
        self.mask
    }

    /// The table has `mask + 1` slots, and every stored score is one that a
    /// pawn structure can have.
    pub closed spec fn wf(&self) -> bool {
        &&& self.entries@.len() == self.mask + 1
        &&& forall|i: int|
            0 <= i < self.entries@.len() ==> -31_000 <= #[trigger] self.entries@[i].score <= 31_000
    }

    /// A table of about `size_kb` kilobytes, rounded up to a power of two of
    /// entries, each with key 0 and score 0.
    pub fn new(size_kb: usize) -> (r: Self)
        requires
            size_kb < 4_194_304,
        ensures
            r.wf(),
            r.entries().len() == crate::tt::spec_next_power_of_two(
                (size_kb * 1024 / 16) as int,
            ),
            forall|i: int|
                0 <= i < r.entries().len() ==> (#[trigger] r.entries()[i]).key == 0
                    && r.entries()[i].score == 0,
    {
        let count = crate::tt::next_power_of_two((size_kb * 1024) / PAWN_ENTRY_BYTES);
        let mut entries: Vec<PawnEntry> = Vec::new();
        while entries.len() < count
            invariant
                entries.len() <= count,
                forall|i: int|
                    0 <= i < entries@.len() ==> (#[trigger] entries@[i]).key == 0 && entries@[i].score
                        == 0,
            decreases count - entries.len(),
        {
            entries.push(PawnEntry { key: 0, score: 0 });
        }
        PawnTable { entries, mask: count - 1 }
    }

    pub open spec fn slot(&self, key: u64) -> int {
        ((key as usize) & self.mask()) as int
    }

    /// The score stored for `key`, if its slot holds `key`.
    pub open spec fn lookup(&self, key: u64) -> Option<Score> {
        let e = self.entries()[self.slot(key)];
        if e.key == key {
            Some(e.score)
        } else {
            None
        }
    }

    proof fn lemma_slot(&self, key: u64)
        requires
            self.wf(),
        ensures
            0 <= self.slot(key) < self.entries().len(),
    {
        let m = self.mask;
        let k = key as usize;
        assert(k & m <= m) by (bit_vector);
    }

    fn probe(&self, key: u64) -> (r: Option<Score>)
        requires
            self.wf(),
        ensures
            r == self.lookup(key),
            r matches Some(s) ==> -31_000 <= s <= 31_000,
    {
        proof {
            self.lemma_slot(key);
        }
        let e = self.entries[key as usize & self.mask];
        if e.key == key {
            Some(e.score)
        } else {
            None
        }
    }

    fn store(&mut self, key: u64, score: Score)
        requires
            old(self).wf(),
            -31_000 <= score <= 31_000,
        ensures
            final(self).wf(),
            final(self).mask() == old(self).mask(),
            final(self).entries() == old(self).entries().update(
                old(self).slot(key),
                PawnEntry { key, score },
            ),
    {
        proof {
            self.lemma_slot(key);
        }
        let idx = key as usize & self.mask;
        self.entries.set(idx, PawnEntry { key, score });
    }
}

/// Evaluation state: the pawn-structure cache.
pub struct Evaluator {
    pub pawn_table: PawnTable,
}

impl Evaluator {
    pub open spec fn wf(&self) -> bool {
        self.pawn_table.wf()
    }

    /// An evaluator with a 256 KB pawn table.
    pub fn new() -> (r: Self)
        ensures
            r.wf(),
            r.pawn_table.entries().len() == crate::tt::spec_next_power_of_two(16384),
            forall|i: int|
                0 <= i < r.pawn_table.entries().len() ==> (#[trigger] r.pawn_table.entries()[i]).key
                    == 0 && r.pawn_table.entries()[i].score == 0,
    {
        Evaluator { pawn_table: PawnTable::new(256) }
    }
}

/// The key of the pawn structure: white pawns xor black pawns times a
/// constant (wrapping).
pub open spec fn pawn_key(d: PosData) -> u64 {
    d.colored(Color::White, Piece::Pawn) ^ ((d.colored(Color::Black, Piece::Pawn) as nat
        * 0x9e37_79b9_7f4a_7c15u64 as nat) % 0x1_0000_0000_0000_0000nat) as u64
}

/// The pawn-structure score an evaluator uses for `d`: the cached one on a
/// key hit, else the computed one.
pub open spec fn pawn_score_with(t: PawnTable, d: PosData) -> int {
    match t.lookup(pawn_key(d)) {
        Some(s) => s as int,
        None => spec_pawn_structure(d),
    }
}

/// The pawn table after an evaluation that reaches the pawn structure.
pub open spec fn pawn_table_after(t: PawnTable, d: PosData) -> Seq<PawnEntry> {
    match t.lookup(pawn_key(d)) {
        Some(s) => t.entries(),
        None => t.entries().update(
            t.slot(pawn_key(d)),
            PawnEntry { key: pawn_key(d), score: spec_pawn_structure(d) as i32 },
        ),
    }
}

/// Phase capped at 24, and the midgame weight out of 256.
pub open spec fn phase_of(d: PosData) -> int {
    min(raw_phase(d), TOTAL_PHASE as int)
}

pub open spec fn mg_weight(d: PosData) -> int {
    phase_of(d) * 256 / 24
}

/// Interpolation between midgame and endgame values.
pub open spec fn interpolate(mgv: int, egv: int, mg256: int) -> int {
    (mgv * mg256 + egv * (256 - mg256)) / 256
}

/// Scaling toward a draw in the last 20 plies before the fifty-move rule.
pub open spec fn fifty_move_scale(total: int, halfmove: int) -> int {
    if halfmove >= 90 {
        tdiv(total * (100 - halfmove), 10)
    } else if halfmove >= 80 {
        tdiv(total * (110 - halfmove), 30)
    } else {
        total
    }
}

/// The endgame corrections applied to every evaluated score.
pub open spec fn finish(d: PosData, total: int) -> int {
    spec_rook_endgame_geometry(
        d,
        spec_endgame_scale(d, spec_endgame_progress(d, total, phase_of(d))),
    )
}

/// Whether the cheap material-only evaluation is used.
pub open spec fn lazy(d: PosData) -> bool {
    abs(interpolate(material(d, false), material(d, true), mg_weight(d))) >= 400
}

/// The full midgame total, given the pawn-structure score `ps`.
pub open spec fn total_mg(d: PosData, ps: int) -> int {
    let mg256 = mg_weight(d);
    material(d, false) + mob_score(d, mg256) + bishop_pair_score(d) + rook_score(d, mg256) + ps
        + spec_passers(d, phase_of(d)) + spec_king_safety(d, mg256) + (attack_danger(
        d,
        Color::White,
        mg256,
    ) - attack_danger(d, Color::Black, mg256)) + tdiv(
        (hanging(d, Color::Black) - hanging(d, Color::White)) * mg256,
        256,
    ) + threat_score(d, mg256) + space_score(d, mg256) + outpost_score(d) + bishop_complex_score(d)
}

/// The full endgame total, given the pawn-structure score `ps`.
pub open spec fn total_eg(d: PosData, ps: int) -> int {
    let mg256 = mg_weight(d);
    let eg_mob = tdiv(tdiv(mob_score(d, mg256) * (256 - mg256), max(mg256, 64)), 2);
    material(d, true) + eg_mob + bishop_pair_score(d) + rook_score(d, mg256) + ps + spec_passers(
        d,
        phase_of(d),
    ) + outpost_score(d) + bishop_complex_score(d)
}

/// The evaluation of `d` from white's point of view, given the
/// pawn-structure score `ps` that the cache provides.
pub open spec fn spec_evaluate(d: PosData, ps: int) -> int {
    let mg256 = mg_weight(d);
    if popcount(d.occ()) == 2 {
        DRAW_SCORE as int
    } else if spec_endgame_solver(d) is Some {
        spec_endgame_solver(d).unwrap()
    } else if lazy(d) {
        finish(d, interpolate(material(d, false) + ps, material(d, true) + ps, mg256))
    } else {
        finish(
            d,
            fifty_move_scale(
                interpolate(total_mg(d, ps), total_eg(d, ps), mg256),
                d.halfmove_clock as int,
            ),
        )
    }
}

/// Whether evaluation stops before the pawn structure.
pub open spec fn early_exit(d: PosData) -> bool {
    popcount(d.occ()) == 2 || spec_endgame_solver(d) is Some
}

fn raw_phase_exec(d: &PosData) -> (r: i32)
    ensures
        r == raw_phase(*d),
        0 <= r <= 8 * 64 * 2,
{
    count_of(d, Color::White, Piece::Knight) + count_of(d, Color::White, Piece::Bishop) + 2
        * count_of(d, Color::White, Piece::Rook) + 4 * count_of(d, Color::White, Piece::Queen)
        + count_of(d, Color::Black, Piece::Knight) + count_of(d, Color::Black, Piece::Bishop) + 2
        * count_of(d, Color::Black, Piece::Rook) + 4 * count_of(d, Color::Black, Piece::Queen)
}

fn interpolate_exec(mgv: i32, egv: i32, mg256: i32) -> (r: i32)
    requires
        0 <= mg256 <= 256,
        -4_000_000 <= mgv <= 4_000_000,
        -4_000_000 <= egv <= 4_000_000,
    ensures
        r == interpolate(mgv as int, egv as int, mg256 as int),
        -4_000_000 <= r <= 4_000_000,
        -max(abs(mgv as int), abs(egv as int)) <= r <= max(abs(mgv as int), abs(egv as int)),
{
    let eg256 = 256 - mg256;
    assert(-4_000_000 * 256 <= mgv * mg256 + egv * eg256 <= 4_000_000 * 256 && -4_000_000 * 256
        <= mgv * mg256 <= 4_000_000 * 256 && -4_000_000 * 256 <= egv * eg256 <= 4_000_000 * 256)
        by (nonlinear_arith)
        requires
            0 <= mg256 <= 256,
            eg256 == 256 - mg256,
            -4_000_000 <= mgv <= 4_000_000,
            -4_000_000 <= egv <= 4_000_000,
    ;
    let x = mgv * mg256 + egv * eg256;
    proof {
        lemma_shr8(x);
        let b = max(abs(mgv as int), abs(egv as int));
        assert(-b * 256 <= x <= b * 256) by (nonlinear_arith)
            requires
                -b <= mgv <= b,
                -b <= egv <= b,
                0 <= mg256 <= 256,
                eg256 == 256 - mg256,
                x == mgv * mg256 + egv * eg256,
        ;
    }
    x >> 8u32
}

/// The pawn-structure score through the cache.
fn cached_pawn_score(
    eval: &mut Evaluator,
    d: &PosData,
    w_files: &[u8; 8],
    b_files: &[u8; 8],
) -> (r: Score)
    requires
        old(eval).wf(),
        forall|f: int| 0 <= f < 8 ==> #[trigger] w_files@[f] == file_count(*d, Color::White, f),
        forall|f: int| 0 <= f < 8 ==> #[trigger] b_files@[f] == file_count(*d, Color::Black, f),
    ensures
        final(eval).wf(),
        r == pawn_score_with(old(eval).pawn_table, *d),
        -31_000 <= r <= 31_000,
        final(eval).pawn_table.entries() == pawn_table_after(old(eval).pawn_table, *d),
        final(eval).pawn_table.mask() == old(eval).pawn_table.mask(),
{
    let wp = d.colored_pieces(Color::White, Piece::Pawn);
    let bp = d.colored_pieces(Color::Black, Piece::Pawn);
    let key = wp ^ bp.wrapping_mul(0x9e37_79b9_7f4a_7c15u64);
    match eval.pawn_table.probe(key) {
        Some(s) => s,
        None => {
            let s = evaluate_pawn_structure(w_files, b_files, d);
            eval.pawn_table.store(key, s);
            s
        },
    }
}


fn finish_exec(d: &PosData, total: i32, phase: i32) -> (r: Score)
    requires
        d.wf(),
        phase == phase_of(*d),
        -7_000_000 <= total <= 7_000_000,
    ensures
        r == finish(*d, total as int),
        abs(r as int) <= abs(total as int) + 2300,
{
    let t1 = endgame_progress(d, total, phase);
    let t2 = endgame_scale(d, t1);
    rook_endgame_geometry(d, t2)
}

fn fifty_move_exec(total: i32, halfmove: u8) -> (r: i32)
    requires
        halfmove <= 100,
        -4_000_000 <= total <= 4_000_000,
    ensures
        r == fifty_move_scale(total as int, halfmove as int),
        abs(r as int) <= abs(total as int),
{
    let hm = halfmove as i32;
    if hm >= 90 {
        assert(abs(total * (100 - hm)) <= abs(total as int) * 10) by (nonlinear_arith)
            requires
                0 <= 100 - hm <= 10,
        ;
        proof {
            if total >= 0 {
                lemma_tdiv_bound(total * (100 - hm), 10, total as int);
            } else {
                lemma_tdiv_bound(total * (100 - hm), 10, -total);
            }
        }
        total * (100 - hm) / 10
    } else if hm >= 80 {
        assert(abs(total * (110 - hm)) <= abs(total as int) * 30) by (nonlinear_arith)
            requires
                21 <= 110 - hm <= 30,
        ;
        proof {
            if total >= 0 {
                lemma_tdiv_bound(total * (110 - hm), 30, total as int);
            } else {
                lemma_tdiv_bound(total * (110 - hm), 30, -total);
            }
        }
        total * (110 - hm) / 30
    } else {
        total
    }
}

/// The midgame and endgame totals of the full evaluation.
#[verifier::rlimit(60)]
fn full_totals(
    d: &PosData,
    w_files: &[u8; 8],
    b_files: &[u8; 8],
    mg: i32,
    eg: i32,
    phase: i32,
    mg256: i32,
    ps: i32,
) -> (r: (i32, i32))
    requires
        d.wf(),
        forall|f: int| 0 <= f < 8 ==> #[trigger] w_files@[f] == file_count(*d, Color::White, f),
        forall|f: int| 0 <= f < 8 ==> #[trigger] b_files@[f] == file_count(*d, Color::Black, f),
        mg == material(*d, false),
        eg == material(*d, true),
        -400_000 <= mg <= 400_000,
        -400_000 <= eg <= 400_000,
        phase == phase_of(*d),
        mg256 == mg_weight(*d),
        0 <= mg256 <= 256,
        -31_000 <= ps <= 31_000,
    ensures
        r.0 == total_mg(*d, ps as int),
        r.1 == total_eg(*d, ps as int),
        -850_000 <= r.0 <= 850_000,
        -800_000 <= r.1 <= 800_000,
{
    let eg256 = 256 - mg256;
    let (w_mob, w_patt, w_kz) = side_stats(d, Color::White);
    let (b_mob, b_patt, b_kz) = side_stats(d, Color::Black);
    let w_patk = pawn_atk_exec(d, Color::White);
    let b_patk = pawn_atk_exec(d, Color::Black);
    let w_att = w_patt | w_patk;
    let b_att = b_patt | b_patk;
    let w_hanging = hanging_exec(d, Color::White, w_att, b_att);
    let b_hanging = hanging_exec(d, Color::Black, b_att, w_att);
    let mob = mob_score_exec(w_mob, b_mob, mg256);
    assert(-57600 * 256 <= (b_hanging - w_hanging) * mg256 <= 57600 * 256) by (nonlinear_arith)
        requires
            -57600 <= b_hanging - w_hanging <= 57600,
            0 <= mg256 <= 256,
    ;
    proof {
        lemma_tdiv_bound((b_hanging - w_hanging) * mg256, 256, 57600);
    }
    let hanging_score = (b_hanging - w_hanging) * mg256 / 256;
    let threat = threat_score_exec(d, w_patk, b_patk, mg256);
    let king_attack = attack_danger_exec(d, Color::White, mg256, w_kz, w_att, b_att)
        - attack_danger_exec(d, Color::Black, mg256, b_kz, b_att, w_att);
    let space = space_score_exec(w_att, b_att, mg256, Ghost(*d));
    let outpost = side_outposts_exec(d, Color::White) - side_outposts_exec(d, Color::Black);
    let w_bishops = count_of(d, Color::White, Piece::Bishop);
    let b_bishops = count_of(d, Color::Black, Piece::Bishop);
    let complex = bishop_complex_exec(d, w_bishops, b_bishops);
    let total_pawns = count_of(d, Color::White, Piece::Pawn) + count_of(d, Color::Black, Piece::Pawn);
    let pair = bishop_pair_exec(d, w_files, b_files, total_pawns, w_bishops, b_bishops);
    let rook = side_rooks_exec(d, Color::White, mg256, w_files, b_files) - side_rooks_exec(
        d,
        Color::Black,
        mg256,
        b_files,
        w_files,
    );
    let passer = evaluate_passers(d, w_files, b_files, phase);
    let king_safety = eval_king_safety(d, mg256);
    let tmg = mg + mob + pair + rook + ps + passer + king_safety + king_attack + hanging_score
        + threat + space + outpost + complex;
    assert(-60 * 256 <= mob * eg256 <= 60 * 256) by (nonlinear_arith)
        requires
            -60 <= mob <= 60,
            0 <= eg256 <= 256,
    ;
    let m = imax(mg256, 64);
    proof {
        lemma_tdiv_bound(mob * eg256, m as int, 240);
    }
    let q = mob * eg256 / m;
    let eg_mob = q / 2;
    let teg = eg + eg_mob + pair + rook + ps + passer + outpost + complex;
    (tmg, teg)
}

/// Evaluates a position from white's point of view. Bare kings are drawn;
/// positions an endgame solver covers get its score; when the material and
/// piece-square balance alone is at least 400, only the pawn structure is
/// added; otherwise all terms are summed for midgame and endgame,
/// interpolated by phase, and scaled toward a draw in the last 20 plies of
/// the fifty-move count. Then the endgame progress, scaling and rook-endgame
/// corrections apply. The pawn-structure score comes from the evaluator's
/// cache when its slot holds the same key, and is stored there otherwise.
pub fn evaluate(pos: &Position, eval: &mut Evaluator) -> (r: Score)
    requires
        pos@.wf(),
        old(eval).wf(),
    ensures
        final(eval).wf(),
        r == spec_evaluate(pos@, pawn_score_with(old(eval).pawn_table, pos@)),
        final(eval).pawn_table.mask() == old(eval).pawn_table.mask(),
        early_exit(pos@) ==> final(eval).pawn_table.entries() == old(eval).pawn_table.entries(),
        !early_exit(pos@) ==> final(eval).pawn_table.entries() == pawn_table_after(
            old(eval).pawn_table,
            pos@,
        ),
        -EVAL_BOUND <= r <= EVAL_BOUND,
{
    let d = pos.data();
    if count(d.occupied()) == 2 {
        return DRAW_SCORE;
    }
    if let Some(s) = endgame_solver(d) {
        return s;
    }
    let w_files = pawn_files(d, Color::White);
    let b_files = pawn_files(d, Color::Black);
    let mg = side_material_exec(d, Color::White, false) - side_material_exec(d, Color::Black, false);
    let eg = side_material_exec(d, Color::White, true) - side_material_exec(d, Color::Black, true);
    let phase = imin(raw_phase_exec(d), TOTAL_PHASE);
    let mg256 = phase * 256 / TOTAL_PHASE;
    let rough = interpolate_exec(mg, eg, mg256);
    let ps = cached_pawn_score(eval, d, &w_files, &b_files);
    if iabs(rough) >= 400 {
        let total = interpolate_exec(mg + ps, eg + ps, mg256);
        return finish_exec(d, total, phase);
    }
    let (tmg, teg) = full_totals(d, &w_files, &b_files, mg, eg, phase, mg256, ps);
    let total = interpolate_exec(tmg, teg, mg256);
    let total = fifty_move_exec(total, d.halfmove_clock);
    finish_exec(d, total, phase)
}

/// Evaluating a position again with the table its evaluation left gives
/// the same score: the pawn-table entry for its pawn structure then holds
/// the score that evaluation used.
pub proof fn lemma_evaluate_again(t1: PawnTable, t2: PawnTable, d: PosData)
    requires
        t1.wf(),
        t2.mask() == t1.mask(),
        early_exit(d) ==> t2.entries() == t1.entries(),
        !early_exit(d) ==> t2.entries() == pawn_table_after(t1, d),
    ensures
        spec_evaluate(d, pawn_score_with(t2, d)) == spec_evaluate(d, pawn_score_with(t1, d)),
{
    if !early_exit(d) {
        t1.lemma_slot(pawn_key(d));
        crate::pawns::lemma_pawn_structure_bounds(d);
        assert(t2.slot(pawn_key(d)) == t1.slot(pawn_key(d)));
        assert(pawn_score_with(t2, d) == pawn_score_with(t1, d));
    }
}

/// Every entry of the pawn table is either untouched (key 0, score 0) or
/// holds the pawn-structure score of a position of `seen` under its key.
pub open spec fn cache_from(t: PawnTable, seen: Set<PosData>) -> bool {
    forall|i: int|
        0 <= i < t.entries().len() ==> {
            let e = #[trigger] t.entries()[i];
            (e.key == 0 && e.score == 0) || exists|p: PosData|
                #[trigger] seen.contains(p) && e.key == pawn_key(p) && e.score == spec_pawn_structure(p)
        }
}

/// Among the positions of `seen`, positions with the same pawn key have the
/// same pawns, and key 0 belongs only to positions without pawns.
pub open spec fn keys_identify(seen: Set<PosData>) -> bool {
    &&& forall|p: PosData, q: PosData|
        #[trigger] seen.contains(p) && #[trigger] seen.contains(q) && pawn_key(p) == pawn_key(q)
            ==> p.colored(Color::White, Piece::Pawn) == q.colored(Color::White, Piece::Pawn) && p.colored(
            Color::Black,
            Piece::Pawn,
        ) == q.colored(Color::Black, Piece::Pawn)
    &&& forall|p: PosData|
        #[trigger] seen.contains(p) && pawn_key(p) == 0 ==> p.colored(Color::White, Piece::Pawn) == 0
            && p.colored(Color::Black, Piece::Pawn) == 0
}

proof fn lemma_sum_of_none(f: spec_fn(u8) -> int, n: int)
    ensures
        sum_below(0u64, f, n) == 0,
    decreases n,
{
    if n > 0 {
        lemma_sum_of_none(f, n - 1);
        let s = (n - 1) as u8;
        assert(((0u64 >> s) & 1u64) != 1u64) by (bit_vector);
    }
}

proof fn lemma_count_of_none(n: int)
    ensures
        count_below(0u64, n) == 0,
    decreases n,
{
    if n > 0 {
        lemma_count_of_none(n - 1);
        let s = (n - 1) as u8;
        assert(((0u64 >> s) & 1u64) != 1u64) by (bit_vector);
    }
}

proof fn lemma_no_doubled(d: PosData, c: Color, n: int)
    requires
        d.colored(c, Piece::Pawn) == 0,
    ensures
        doubled_below(d, c, n) == 0,
    decreases n,
{
    if n > 0 {
        lemma_no_doubled(d, c, n - 1);
        let m = file_mask(n - 1);
        assert(0u64 & m == 0u64) by (bit_vector);
        lemma_count_of_none(64);
    }
}

/// A position without pawns has pawn-structure score 0.
proof fn lemma_no_pawns_no_structure(d: PosData)
    requires
        d.colored(Color::White, Piece::Pawn) == 0,
        d.colored(Color::Black, Piece::Pawn) == 0,
    ensures
        spec_pawn_structure(d) == 0,
{
    lemma_sum_of_none(|s: u8| crate::pawns::pawn_term(d, Color::White, s as int), 64);
    lemma_sum_of_none(|s: u8| crate::pawns::pawn_term(d, Color::Black, s as int), 64);
    lemma_no_doubled(d, Color::White, 8);
    lemma_no_doubled(d, Color::Black, 8);
}

/// The pawn-structure score depends on the pawns alone.
proof fn lemma_structure_by_pawns(p: PosData, q: PosData)
    requires
        p.colored(Color::White, Piece::Pawn) == q.colored(Color::White, Piece::Pawn),
        p.colored(Color::Black, Piece::Pawn) == q.colored(Color::Black, Piece::Pawn),
    ensures
        spec_pawn_structure(p) == spec_pawn_structure(q),
{
    assert((|s: u8| crate::pawns::pawn_term(p, Color::White, s as int)) =~= (|s: u8|
        crate::pawns::pawn_term(q, Color::White, s as int)));
    assert((|s: u8| crate::pawns::pawn_term(p, Color::Black, s as int)) =~= (|s: u8|
        crate::pawns::pawn_term(q, Color::Black, s as int)));
    assert forall|f: int| #[trigger] file_count(p, Color::White, f) == file_count(q, Color::White, f) by {}
    assert forall|f: int| #[trigger] file_count(p, Color::Black, f) == file_count(q, Color::Black, f) by {}
    lemma_doubled_same(p, q, Color::White, 8);
    lemma_doubled_same(p, q, Color::Black, 8);
}

proof fn lemma_doubled_same(p: PosData, q: PosData, c: Color, n: int)
    requires
        p.colored(c, Piece::Pawn) == q.colored(c, Piece::Pawn),
    ensures
        doubled_below(p, c, n) == doubled_below(q, c, n),
    decreases n,
{
    if n > 0 {
        lemma_doubled_same(p, q, c, n - 1);
    }
}

/// The pawn cache never changes an evaluation: for a table built from
/// positions whose keys identify their pawn structures, the evaluation of
/// one of them (or of a new position whose key clashes with none) equals
/// the evaluation with a fresh table.
pub proof fn law_pawn_cache_transparent(t: PawnTable, fresh: PawnTable, seen: Set<PosData>, d: PosData)
    requires
        t.wf(),
        fresh.wf(),
        cache_from(t, seen),
        forall|i: int|
            0 <= i < fresh.entries().len() ==> (#[trigger] fresh.entries()[i]).key == 0
                && fresh.entries()[i].score == 0,
        keys_identify(seen.insert(d)),
    ensures
        spec_evaluate(d, pawn_score_with(t, d)) == spec_evaluate(d, pawn_score_with(fresh, d)),
        pawn_score_with(t, d) == spec_pawn_structure(d),
{
    let all = seen.insert(d);
    assert(all.contains(d));
    t.lemma_slot(pawn_key(d));
    fresh.lemma_slot(pawn_key(d));
    if pawn_key(d) == 0 {
        lemma_no_pawns_no_structure(d);
    }
    let e = t.entries()[t.slot(pawn_key(d))];
    if e.key == pawn_key(d) {
        if !(e.key == 0 && e.score == 0) {
            let p = choose|p: PosData|
                #[trigger] seen.contains(p) && e.key == pawn_key(p) && e.score == spec_pawn_structure(p);
            assert(all.contains(p));
            lemma_structure_by_pawns(p, d);
        }
    }
}

/// An evaluation keeps the pawn table built from the positions seen so far,
/// now with the evaluated position among them.
pub proof fn law_evaluation_keeps_cache(t1: PawnTable, t2: PawnTable, seen: Set<PosData>, d: PosData)
    requires
        t1.wf(),
        t2.wf(),
        cache_from(t1, seen),
        t2.mask() == t1.mask(),
        early_exit(d) ==> t2.entries() == t1.entries(),
        !early_exit(d) ==> t2.entries() == pawn_table_after(t1, d),
    ensures
        cache_from(t2, seen.insert(d)),
{
    let all = seen.insert(d);
    assert forall|i: int| 0 <= i < t2.entries().len() implies {
        let e = #[trigger] t2.entries()[i];
        (e.key == 0 && e.score == 0) || exists|p: PosData|
            #[trigger] all.contains(p) && e.key == pawn_key(p) && e.score == spec_pawn_structure(p)
    } by {
        t1.lemma_slot(pawn_key(d));
        crate::pawns::lemma_pawn_structure_bounds(d);
        let e1 = t1.entries()[i];
        if !early_exit(d) && t1.lookup(pawn_key(d)) is None && i == t1.slot(pawn_key(d)) {
            assert(all.contains(d));
        } else {
            assert(t2.entries()[i] == e1);
            if !(e1.key == 0 && e1.score == 0) {
                let p = choose|p: PosData|
                    #[trigger] seen.contains(p) && e1.key == pawn_key(p) && e1.score == spec_pawn_structure(p);
                assert(all.contains(p));
            }
        }
    }
}

} // verus!
