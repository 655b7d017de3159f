//! Pawn structure (passed, isolated, doubled and connected pawns) and the
//! evaluation of passed pawns against the pieces and kings around them.
//! Scores are from white's point of view.
use vstd::prelude::*;
use crate::bits::{bit, has, count, popcount, sum_below, sum_squares, any_below, any_square, file_mask, lemma_bit_and};
use crate::chess::{PosData, pawn_attacks, knight_attacks, bishop_attacks, rook_attacks, king_attacks, pawn_attack_moves, knight_moves, bishop_moves, rook_moves, king_moves};
use crate::endgame::{sign, sign_of, cnt, count_of};
use crate::geom::{min, max, abs, tdiv, clamp, rank, file, cheb, imin, imax, iabs, iclamp, chebyshev, lemma_tdiv_bound};
use crate::types::{Color, Piece, Score, QUEEN_VALUE, PAWN_VALUE, TOTAL_PHASE};

verus! {

/// Base value of a passed pawn by its distance to promotion.
pub const PASSED_BASE: [Score; 8] = [0, 350, 150, 80, 40, 20, 10, 5];

/// Number of pawns of colour `c` on file `f`.
pub open spec fn file_count(d: PosData, c: Color, f: int) -> int {
    popcount(d.colored(c, Piece::Pawn) & file_mask(f)) as int
}

/// The pawn counts by file of colour `c`.
pub fn pawn_files(d: &PosData, c: Color) -> (r: [u8; 8])
    ensures
        forall|f: int| 0 <= f < 8 ==> #[trigger] r@[f] == file_count(*d, c, f),
{
    let pawns = d.colored_pieces(c, Piece::Pawn);
    let mut r: [u8; 8] = [0; 8];
    let mut f: usize = 0;
    while f < 8
        invariant
            f <= 8,
            pawns == d.colored(c, Piece::Pawn),
            forall|g: int| 0 <= g < f ==> #[trigger] r@[g] == file_count(*d, c, g),
        decreases 8 - f,
    {
        let n = count(pawns & (0x0101_0101_0101_0101u64 << f));
        r[f] = n as u8;
        f = f + 1;
    }
    r
}

/// Pawns stand on ranks 2 to 7 only.
pub proof fn lemma_pawn_rank(d: PosData, c: Color, s: u8)
    requires
        d.wf(),
        s < 64,
        bit(d.colored(c, Piece::Pawn), s),
    ensures
        1 <= rank(s as int) <= 6,
{
    lemma_bit_and(d.color_bb(c), d.piece_bb(Piece::Pawn), s);
    let p = d.pieces@[0];
    assert((p >> s) & 1u64 == 1u64 && p & 0xff00_0000_0000_00ffu64 == 0 ==> 8 <= s && s < 56)
        by (bit_vector)
        requires
            s < 64,
    ;
}

/// Whether an enemy pawn on `ep` stops a pawn of colour `c` on `s` from
/// being passed: it stands on the same or an adjacent file, ahead of it.
pub open spec fn stops(c: Color, s: int, ep: int) -> bool {
    abs(file(ep) - file(s)) <= 1 && if c == Color::White {
        rank(ep) > rank(s)
    } else {
        rank(ep) < rank(s)
    }
}

/// Whether the pawn of colour `c` on `s` is passed.
pub open spec fn passed(d: PosData, c: Color, s: int) -> bool {
    !any_square(d.colored(c.spec_other(), Piece::Pawn), |ep: u8| stops(c, s, ep as int))
}

/// Distance to promotion of a pawn of colour `c` on `s`, clamped to 1..7.
pub open spec fn passer_dist(c: Color, s: int) -> int {
    clamp(
        if c == Color::White {
            7 - rank(s)
        } else {
            rank(s)
        },
        1,
        7,
    )
}

/// Whether a pawn on `o` protects or stands beside a pawn on `s`.
pub open spec fn adjacent(s: int, o: int) -> bool {
    abs(file(o) - file(s)) == 1 && abs(rank(o) - rank(s)) <= 1
}

/// Pawn-structure terms of one pawn: passed bonus, isolated penalty,
/// connected bonus.
pub open spec fn pawn_term(d: PosData, c: Color, s: int) -> int {
    let f = file(s);
    let has_nb = (f > 0 && file_count(d, c, f - 1) > 0) || (f < 7 && file_count(d, c, f + 1) > 0);
    (if passed(d, c, s) {
        PASSED_BASE@[passer_dist(c, s)] as int
    } else {
        0int
    }) + (if has_nb {
        0int
    } else {
        -20int
    }) + (if any_square(d.colored(c, Piece::Pawn), |o: u8| adjacent(s, o as int)) {
        7int
    } else {
        0int
    })
}

/// Penalty for the doubled pawns of colour `c` on files below `n`.
pub open spec fn doubled_below(d: PosData, c: Color, n: int) -> int
    decreases n,
{
    if n <= 0 {
        0
    } else {
        doubled_below(d, c, n - 1) + if file_count(d, c, n - 1) > 1 {
            12 * (file_count(d, c, n - 1) - 1)
        } else {
            0
        }
    }
}

/// Pawn structure of one side.
pub open spec fn side_structure(d: PosData, c: Color) -> int {
    sum_squares(d.colored(c, Piece::Pawn), |s: u8| pawn_term(d, c, s as int)) - doubled_below(
        d,
        c,
        8,
    )
}

/// The pawn-structure score: white's terms minus black's.
pub open spec fn spec_pawn_structure(d: PosData) -> int {
    side_structure(d, Color::White) - side_structure(d, Color::Black)
}

fn is_passed(d: &PosData, c: Color, s: u8) -> (r: bool)
    requires
        s < 64,
    ensures
        r == passed(*d, c, s as int),
{
    let enemy = d.colored_pieces(c.other(), Piece::Pawn);
    let f = (s % 8) as i32;
    let r = (s / 8) as i32;
    let ghost pred = |ep: u8| stops(c, s as int, ep as int);
    let mut blocked = false;
    let mut t: u8 = 0;
    while t < 64
        invariant
            t <= 64,
            s < 64,
            f == file(s as int),
            r == rank(s as int),
            enemy == d.colored(c.spec_other(), Piece::Pawn),
            pred == (|ep: u8| stops(c, s as int, ep as int)),
            blocked == any_below(enemy, pred, t as int),
        decreases 64 - t,
    {
        proof {
            assert(any_below(enemy, pred, t as int + 1) == (any_below(enemy, pred, t as int) || (bit(
                enemy,
                t,
            ) && pred(t))));
        }
        if has(enemy, t) {
            let ef = (t % 8) as i32;
            let er = (t / 8) as i32;
            if iabs(ef - f) <= 1 {
                if c == Color::White && er > r {
                    blocked = true;
                }
                if c == Color::Black && er < r {
                    blocked = true;
                }
            }
        }
        t = t + 1;
    }
    proof {
        assert(pred =~= (|ep: u8| stops(c, s as int, ep as int)));
    }
    !blocked
}

fn is_connected(d: &PosData, c: Color, s: u8) -> (r: bool)
    requires
        s < 64,
    ensures
        r == any_square(d.colored(c, Piece::Pawn), |o: u8| adjacent(s as int, o as int)),
{
    let own = d.colored_pieces(c, Piece::Pawn);
    let f = (s % 8) as i32;
    let r = (s / 8) as i32;
    let ghost pred = |o: u8| adjacent(s as int, o as int);
    let mut found = false;
    let mut t: u8 = 0;
    while t < 64
        invariant
            t <= 64,
            s < 64,
            f == file(s as int),
            r == rank(s as int),
            own == d.colored(c, Piece::Pawn),
            pred == (|o: u8| adjacent(s as int, o as int)),
            found == any_below(own, pred, t as int),
        decreases 64 - t,
    {
        proof {
            assert(any_below(own, pred, t as int + 1) == (any_below(own, pred, t as int) || (bit(
                own,
                t,
            ) && pred(t))));
        }
        if has(own, t) && iabs((t % 8) as i32 - f) == 1 && iabs((t / 8) as i32 - r) <= 1 {
            found = true;
        }
        t = t + 1;
    }
    proof {
        assert(pred =~= (|o: u8| adjacent(s as int, o as int)));
    }
    found
}

fn pawn_term_exec(files: &[u8; 8], d: &PosData, c: Color, s: u8) -> (r: i32)
    requires
        s < 64,
        forall|f: int| 0 <= f < 8 ==> #[trigger] files@[f] == file_count(*d, c, f),
    ensures
        r == pawn_term(*d, c, s as int),
        -20 <= r <= 357,
{
    let f = (s % 8) as usize;
    let r = (s / 8) as i32;
    let mut v: i32 = 0;
    if is_passed(d, c, s) {
        let dist = if c == Color::White {
            7 - r
        } else {
            r
        };
        let dist = iclamp(dist, 1, 7);
        v = v + PASSED_BASE[dist as usize];
    }
    let has_nb = (f > 0 && files[f - 1] > 0) || (f < 7 && files[f + 1] > 0);
    if !has_nb {
        v = v - 20;
    }
    if is_connected(d, c, s) {
        v = v + 7;
    }
    v
}

fn side_structure_exec(files: &[u8; 8], d: &PosData, c: Color) -> (r: i32)
    requires
        forall|f: int| 0 <= f < 8 ==> #[trigger] files@[f] == file_count(*d, c, f),
    ensures
        r == side_structure(*d, c),
        -8000 <= r <= 23000,
{
    let own = d.colored_pieces(c, Piece::Pawn);
    let ghost term = |t: u8| pawn_term(*d, c, t as int);
    let mut acc: i32 = 0;
    let mut s: u8 = 0;
    while s < 64
        invariant
            s <= 64,
            own == d.colored(c, Piece::Pawn),
            forall|f: int| 0 <= f < 8 ==> #[trigger] files@[f] == file_count(*d, c, f),
            term == (|t: u8| pawn_term(*d, c, t as int)),
            acc == sum_below(own, term, s as int),
            -20 * s <= acc <= 357 * s,
        decreases 64 - s,
    {
        proof {
            assert(sum_below(own, term, s as int + 1) == sum_below(own, term, s as int) + if bit(
                own,
                s,
            ) {
                term(s)
            } else {
                0
            });
        }
        if has(own, s) {
            acc = acc + pawn_term_exec(files, d, c, s);
        }
        s = s + 1;
    }
    let mut doubled: i32 = 0;
    let mut f: usize = 0;
    while f < 8
        invariant
            f <= 8,
            forall|g: int| 0 <= g < 8 ==> #[trigger] files@[g] == file_count(*d, c, g),
            doubled == doubled_below(*d, c, f as int),
            0 <= doubled <= 800 * f,
            acc == sum_below(own, term, 64),
            -20 * 64 <= acc <= 357 * 64,
        decreases 8 - f,
    {
        proof {
            crate::bits::lemma_count_below_bounds(d.colored(c, Piece::Pawn) & file_mask(f as int), 64);
        }
        if files[f] > 1 {
            doubled = doubled + 12 * (files[f] as i32 - 1);
        }
        f = f + 1;
    }
    proof {
        assert(term =~= (|t: u8| pawn_term(*d, c, t as int)));
    }
    acc - doubled
}

/// The pawn-structure score, white minus black: per pawn, the passed-pawn
/// base value by distance to promotion, -20 when isolated (no own pawn on
/// an adjacent file), +7 when connected (an own pawn diagonally or beside
/// it); per file, -12 for each pawn beyond the first. `w_files` and
/// `b_files` hold the pawn counts by file.
pub fn evaluate_pawn_structure(w_files: &[u8; 8], b_files: &[u8; 8], d: &PosData) -> (r: Score)
    requires
        forall|f: int| 0 <= f < 8 ==> #[trigger] w_files@[f] == file_count(*d, Color::White, f),
        forall|f: int| 0 <= f < 8 ==> #[trigger] b_files@[f] == file_count(*d, Color::Black, f),
    ensures
        r == spec_pawn_structure(*d),
        -31000 <= r <= 31000,
{
    let w = side_structure_exec(w_files, d, Color::White);
    let b = side_structure_exec(b_files, d, Color::Black);
    w - b
}


/// Whether side `c` attacks square `sq`.
pub open spec fn attacked(d: PosData, sq: u8, c: Color) -> bool {
    let occ = d.occ();
    let pieces = d.color_bb(c);
    ((pawn_attacks(sq, c.spec_other()) & pieces & d.piece_bb(Piece::Pawn)) | (knight_attacks(sq)
        & pieces & d.piece_bb(Piece::Knight)) | (bishop_attacks(sq, occ) & pieces & (d.piece_bb(
        Piece::Bishop,
    ) | d.piece_bb(Piece::Queen))) | (rook_attacks(sq, occ) & pieces & (d.piece_bb(Piece::Rook)
        | d.piece_bb(Piece::Queen))) | (king_attacks(sq) & pieces & d.piece_bb(Piece::King))) != 0
}

/// Whether side `c` attacks square `sq`.
pub fn square_attacked_by(d: &PosData, sq: u8, c: Color) -> (r: bool)
    requires
        sq < 64,
    ensures
        r == attacked(*d, sq, c),
{
    let occ = d.occupied();
    let pieces = d.colors_of(c);
    ((pawn_attack_moves(sq, c.other()) & pieces & d.pieces_of(Piece::Pawn)) | (knight_moves(sq)
        & pieces & d.pieces_of(Piece::Knight)) | (bishop_moves(sq, occ) & pieces & (d.pieces_of(
        Piece::Bishop,
    ) | d.pieces_of(Piece::Queen))) | (rook_moves(sq, occ) & pieces & (d.pieces_of(Piece::Rook)
        | d.pieces_of(Piece::Queen))) | (king_moves(sq) & pieces & d.pieces_of(Piece::King))) != 0
}

/// Control of a square: 1 if only `c` attacks it, -1 if only the opponent
/// does, 0 otherwise.
pub open spec fn control(d: PosData, sq: u8, c: Color) -> int {
    let own = attacked(d, sq, c);
    let enemy = attacked(d, sq, c.spec_other());
    if own && !enemy {
        1
    } else if !own && enemy {
        -1
    } else {
        0
    }
}

/// The square `step` squares ahead of a pawn of colour `c` on `s`.
pub open spec fn ahead(c: Color, s: int, step: int) -> int {
    if c == Color::White {
        s + 8 * step
    } else {
        s - 8 * step
    }
}

/// Weighted control of the first `k` squares of the promotion corridor.
pub open spec fn corridor_sum(d: PosData, c: Color, s: int, k: int) -> int
    decreases k,
{
    if k <= 0 {
        0
    } else {
        corridor_sum(d, c, s, k - 1) + control(d, ahead(c, s, k) as u8, c) * k
    }
}

/// Square of promotion for a pawn of colour `c` on file `f`.
pub open spec fn promo_square(c: Color, f: int) -> int {
    if c == Color::White {
        56 + f
    } else {
        f
    }
}

/// Whether a rook of colour `c` stands behind the pawn on `s`.
pub open spec fn rook_behind(d: PosData, c: Color, s: int) -> bool {
    any_square(
        d.colored(c, Piece::Rook),
        |rsq: u8|
            file(rsq as int) == file(s) && if c == Color::White {
                rank(rsq as int) < rank(s)
            } else {
                rank(rsq as int) > rank(s)
            },
    )
}

/// Blockade and rook-behind terms of a passed pawn of colour `c` on `s`.
pub open spec fn passer_file_terms(d: PosData, c: Color, s: int) -> int {
    let dist = passer_dist(c, s);
    let base = PASSED_BASE@[dist] as int;
    let front = ahead(c, s, 1);
    let front_ok = 0 <= rank(s) + (if c == Color::White {
        1int
    } else {
        -1int
    }) < 8;
    let blockade = if front_ok && d.piece_at(front as u8) is Some && d.color_at(front as u8) != Some(
        c,
    ) {
        -(base / 2)
    } else {
        0
    };
    let behind = if rook_behind(d, c, s) {
        base * 3 / 10
    } else {
        0
    };
    blockade + behind
}

/// King-distance and king-support terms of a passed pawn of colour `c` on
/// `s`.
pub open spec fn passer_king_terms(d: PosData, c: Color, s: int) -> int {
    let dist = passer_dist(c, s);
    let front = ahead(c, s, 1);
    let front_ok = 0 <= rank(s) + (if c == Color::White {
        1int
    } else {
        -1int
    }) < 8;
    let promo = promo_square(c, file(s));
    let ksq = d.king_sq(c);
    let eksq = d.king_sq(c.spec_other());
    let kings = max(30 - 5 * cheb(ksq, promo), 0) + 5 * cheb(eksq, promo);
    let gain = QUEEN_VALUE - PAWN_VALUE;
    let support1 = if cheb(ksq, s) == 1 {
        gain / (dist + 2)
    } else {
        0
    };
    let support = if front_ok && cheb(ksq, front) == 1 {
        max(support1, gain / (dist + 1))
    } else {
        support1
    };
    kings + support
}

/// Blockade, rook-behind, king-distance and king-support terms of a passed
/// pawn of colour `c` on `s`.
pub open spec fn passer_near(d: PosData, c: Color, s: int) -> int {
    passer_file_terms(d, c, s) + passer_king_terms(d, c, s)
}

/// The rule of the square: with at most one defending piece, a pawn the
/// defending king cannot catch is worth nearly a queen.
pub open spec fn square_rule(d: PosData, c: Color, s: int) -> int {
    let dist = passer_dist(c, s);
    let promo = promo_square(c, file(s));
    let eksq = d.king_sq(c.spec_other());
    let gain = QUEEN_VALUE - PAWN_VALUE;
    let def_pieces = cnt(d, c.spec_other(), Piece::Knight) + cnt(d, c.spec_other(), Piece::Bishop)
        + cnt(d, c.spec_other(), Piece::Rook) + cnt(d, c.spec_other(), Piece::Queen);
    let tempo_adj = if d.side_to_move != c {
        1int
    } else {
        0int
    };
    let starting_rank = if c == Color::White {
        1int
    } else {
        6int
    };
    let effective = dist + tempo_adj - (if rank(s) == starting_rank {
        1int
    } else {
        0int
    });
    if def_pieces <= 1 && cheb(eksq, promo) > effective {
        gain - dist * 10
    } else {
        0
    }
}

/// Control of the promotion corridor and square.
pub open spec fn corridor_part(d: PosData, c: Color, s: int) -> int {
    let dist = passer_dist(c, s);
    let promo = promo_square(c, file(s));
    let gain = QUEEN_VALUE - PAWN_VALUE;
    let den = max(dist * (dist + 1) / 2, 1);
    let own_promo = attacked(d, promo as u8, c);
    let enemy_promo = attacked(d, promo as u8, c.spec_other());
    let promo_ctrl = if own_promo && !enemy_promo {
        gain / (dist + 1)
    } else if enemy_promo && !own_promo {
        -(gain / (dist + 1))
    } else {
        0
    };
    tdiv(corridor_sum(d, c, s, dist) * gain, (dist + 1) * den) + promo_ctrl
}

/// The value of a passed pawn of colour `c` on `s` at game phase `phase`.
pub open spec fn passer_value(d: PosData, c: Color, s: int, phase: int) -> int {
    passer_near(d, c, s) + square_rule(d, c, s) + if phase <= TOTAL_PHASE / 4 {
        corridor_part(d, c, s)
    } else {
        0
    }
}

/// The passed-pawn score of one side.
pub open spec fn side_passers(d: PosData, c: Color, phase: int) -> int {
    sum_squares(
        d.colored(c, Piece::Pawn),
        |s: u8|
            if passed(d, c, s as int) {
                passer_value(d, c, s as int, phase)
            } else {
                0
            },
    )
}

/// The passed-pawn score, white minus black.
pub open spec fn spec_passers(d: PosData, phase: int) -> int {
    side_passers(d, Color::White, phase) - side_passers(d, Color::Black, phase)
}

fn has_rook_behind(d: &PosData, c: Color, s: u8) -> (r: bool)
    requires
        s < 64,
    ensures
        r == rook_behind(*d, c, s as int),
{
    let rooks = d.colored_pieces(c, Piece::Rook);
    let f = s % 8;
    let r = s / 8;
    let ghost pred = |rsq: u8|
        file(rsq as int) == file(s as int) && if c == Color::White {
            rank(rsq as int) < rank(s as int)
        } else {
            rank(rsq as int) > rank(s as int)
        };
    let mut found = false;
    let mut t: u8 = 0;
    while t < 64
        invariant
            t <= 64,
            s < 64,
            f == file(s as int),
            r == rank(s as int),
            rooks == d.colored(c, Piece::Rook),
            pred == (|rsq: u8|
                file(rsq as int) == file(s as int) && if c == Color::White {
                    rank(rsq as int) < rank(s as int)
                } else {
                    rank(rsq as int) > rank(s as int)
                }),
            found == any_below(rooks, pred, t as int),
        decreases 64 - t,
    {
        proof {
            assert(any_below(rooks, pred, t as int + 1) == (any_below(rooks, pred, t as int) || (bit(
                rooks,
                t,
            ) && pred(t))));
        }
        if has(rooks, t) && t % 8 == f {
            let behind = if c == Color::White {
                t / 8 < r
            } else {
                t / 8 > r
            };
            if behind {
                found = true;
            }
        }
        t = t + 1;
    }
    found
}

fn control_of(d: &PosData, sq: u8, c: Color) -> (r: i32)
    requires
        sq < 64,
    ensures
        r == control(*d, sq, c),
        -1 <= r <= 1,
{
    let own_ctrl = square_attacked_by(d, sq, c);
    let enemy_ctrl = square_attacked_by(d, sq, c.other());
    if own_ctrl && !enemy_ctrl {
        1
    } else if !own_ctrl && enemy_ctrl {
        -1
    } else {
        0
    }
}

fn dist_of(c: Color, s: u8) -> (r: i32)
    requires
        s < 64,
    ensures
        r == passer_dist(c, s as int),
        1 <= r <= 7,
{
    let r = (s / 8) as i32;
    iclamp(
        if c == Color::White {
            7 - r
        } else {
            r
        },
        1,
        7,
    )
}

fn passer_file_terms_exec(d: &PosData, c: Color, s: u8) -> (v: i32)
    requires
        d.wf(),
        s < 64,
        bit(d.colored(c, Piece::Pawn), s),
    ensures
        v == passer_file_terms(*d, c, s as int),
        -175 <= v <= 105,
{
    proof {
        lemma_pawn_rank(*d, c, s);
    }
    let dist = dist_of(c, s);
    let base = PASSED_BASE[dist as usize];
    let mut pp: i32 = 0;
    let front = if c == Color::White {
        s + 8
    } else {
        s - 8
    };
    if d.piece_on(front).is_some() && d.color_on(front) != Some(c) {
        pp = pp - base / 2;
    }
    if has_rook_behind(d, c, s) {
        pp = pp + base * 3 / 10;
    }
    pp
}

fn passer_king_terms_exec(d: &PosData, c: Color, s: u8) -> (v: i32)
    requires
        d.wf(),
        s < 64,
        bit(d.colored(c, Piece::Pawn), s),
    ensures
        v == passer_king_terms(*d, c, s as int),
        0 <= v <= 470,
{
    proof {
        lemma_pawn_rank(*d, c, s);
    }
    let f = (s % 8) as i32;
    let dist = dist_of(c, s);
    let front = if c == Color::White {
        s + 8
    } else {
        s - 8
    };
    let promo: u8 = if c == Color::White {
        (56 + f) as u8
    } else {
        f as u8
    };
    let ksq = d.king(c);
    let eksq = d.king(c.other());
    let kings = imax(30 - 5 * chebyshev(ksq, promo), 0) + 5 * chebyshev(eksq, promo);
    let gain = QUEEN_VALUE - PAWN_VALUE;
    assert(0 <= 800int / (dist + 2) <= 400 && 0 <= 800int / (dist + 1) <= 400) by (nonlinear_arith)
        requires
            1 <= dist <= 7,
    ;
    let mut king_support: i32 = 0;
    if chebyshev(ksq, s) == 1 {
        king_support = imax(king_support, gain / (dist + 2));
    }
    if chebyshev(ksq, front) == 1 {
        king_support = imax(king_support, gain / (dist + 1));
    }
    kings + king_support
}

fn passer_near_exec(d: &PosData, c: Color, s: u8) -> (v: i32)
    requires
        d.wf(),
        s < 64,
        bit(d.colored(c, Piece::Pawn), s),
    ensures
        v == passer_near(*d, c, s as int),
        -200 <= v <= 600,
{
    passer_file_terms_exec(d, c, s) + passer_king_terms_exec(d, c, s)
}

fn square_rule_exec(d: &PosData, c: Color, s: u8) -> (v: i32)
    requires
        d.wf(),
        s < 64,
    ensures
        v == square_rule(*d, c, s as int),
        0 <= v <= 800,
{
    let f = (s % 8) as i32;
    let r = (s / 8) as i32;
    let dist = dist_of(c, s);
    let promo: u8 = if c == Color::White {
        (56 + f) as u8
    } else {
        f as u8
    };
    let eksq = d.king(c.other());
    let gain = QUEEN_VALUE - PAWN_VALUE;
    let enemy = c.other();
    let def_pieces = count_of(d, enemy, Piece::Knight) + count_of(d, enemy, Piece::Bishop)
        + count_of(d, enemy, Piece::Rook) + count_of(d, enemy, Piece::Queen);
    if def_pieces <= 1 {
        let king_dist_to_promo = chebyshev(eksq, promo);
        let tempo_adj: i32 = if d.side_to_move != c {
            1
        } else {
            0
        };
        let starting_rank: i32 = if c == Color::White {
            1
        } else {
            6
        };
        let effective_pawn_dist = dist + tempo_adj - if r == starting_rank {
            1
        } else {
            0
        };
        if king_dist_to_promo > effective_pawn_dist {
            return gain - dist * 10;
        }
    }
    0
}

fn corridor_exec(d: &PosData, c: Color, s: u8) -> (v: i32)
    requires
        d.wf(),
        s < 64,
        bit(d.colored(c, Piece::Pawn), s),
    ensures
        v == corridor_part(*d, c, s as int),
        -800 <= v <= 800,
{
    proof {
        lemma_pawn_rank(*d, c, s);
    }
    let f = (s % 8) as i32;
    let r = (s / 8) as i32;
    let dist = dist_of(c, s);
    let gain = QUEEN_VALUE - PAWN_VALUE;
    assert(1 <= dist * (dist + 1) / 2 <= 28) by (nonlinear_arith)
        requires
            1 <= dist <= 7,
    ;
    let corridor_den = imax(dist * (dist + 1) / 2, 1);
    let mut corridor_num: i32 = 0;
    let mut step: i32 = 1;
    while step <= dist
        invariant
            1 <= step <= dist + 1,
            1 <= dist <= 7,
            1 <= r <= 6,
            r == rank(s as int),
            s < 64,
            dist == passer_dist(c, s as int),
            c == Color::White ==> dist == 7 - r,
            c == Color::Black ==> dist == r,
            corridor_num == corridor_sum(*d, c, s as int, step - 1),
            -(step - 1) * step / 2 <= corridor_num <= (step - 1) * step / 2,
        decreases dist + 1 - step,
    {
        let csq: u8 = if c == Color::White {
            (s as i32 + 8 * step) as u8
        } else {
            (s as i32 - 8 * step) as u8
        };
        let ctl = control_of(d, csq, c);
        assert(-step * (step + 1) / 2 <= corridor_num + ctl * step <= step * (step + 1) / 2 && -7
            <= ctl * step <= 7 && -28 <= corridor_num + ctl * step <= 28) by (nonlinear_arith)
            requires
                -1 <= ctl <= 1,
                1 <= step <= 7,
                -(step - 1) * step / 2 <= corridor_num <= (step - 1) * step / 2,
        ;
        corridor_num = corridor_num + ctl * step;
        step = step + 1;
    }
    assert(1 <= (dist + 1) * corridor_den <= 8 * 28) by (nonlinear_arith)
        requires
            1 <= dist <= 7,
            1 <= corridor_den <= 28,
    ;
    let promo: u8 = if c == Color::White {
        (56 + f) as u8
    } else {
        f as u8
    };
    assert(-(400 * ((dist + 1) * corridor_den)) <= corridor_num * gain <= 400 * ((dist + 1)
        * corridor_den)) by (nonlinear_arith)
        requires
            -dist * (dist + 1) / 2 <= corridor_num <= dist * (dist + 1) / 2,
            gain == 800,
            1 <= dist <= 7,
            corridor_den == dist * (dist + 1) / 2,
    ;
    proof {
        lemma_tdiv_bound(corridor_num * gain, (dist + 1) * corridor_den, 400);
    }
    let mut pp = corridor_num * gain / ((dist + 1) * corridor_den);
    assert(0 <= 800int / (dist + 1) <= 400) by (nonlinear_arith)
        requires
            1 <= dist <= 7,
    ;
    let own_promo_ctrl = square_attacked_by(d, promo, c);
    let enemy_promo_ctrl = square_attacked_by(d, promo, c.other());
    if own_promo_ctrl && !enemy_promo_ctrl {
        pp = pp + gain / (dist + 1);
    } else if enemy_promo_ctrl && !own_promo_ctrl {
        pp = pp - gain / (dist + 1);
    }
    pp
}

fn passer_value_exec(d: &PosData, c: Color, s: u8, phase: i32) -> (v: i32)
    requires
        d.wf(),
        s < 64,
        bit(d.colored(c, Piece::Pawn), s),
    ensures
        v == passer_value(*d, c, s as int, phase as int),
        -2000 <= v <= 3000,
{
    let near = passer_near_exec(d, c, s);
    let rule = square_rule_exec(d, c, s);
    if phase <= TOTAL_PHASE / 4 {
        near + rule + corridor_exec(d, c, s)
    } else {
        near + rule
    }
}

fn side_passers_exec(d: &PosData, c: Color, phase: i32) -> (r: i32)
    requires
        d.wf(),
    ensures
        r == side_passers(*d, c, phase as int),
        -128000 <= r <= 192000,
{
    let own = d.colored_pieces(c, Piece::Pawn);
    let ghost term = |t: u8|
        if passed(*d, c, t as int) {
            passer_value(*d, c, t as int, phase as int)
        } else {
            0
        };
    let mut acc: i32 = 0;
    let mut s: u8 = 0;
    while s < 64
        invariant
            s <= 64,
            d.wf(),
            own == d.colored(c, Piece::Pawn),
            term == (|t: u8|
                if passed(*d, c, t as int) {
                    passer_value(*d, c, t as int, phase as int)
                } else {
                    0
                }),
            acc == sum_below(own, term, s as int),
            -2000 * s <= acc <= 3000 * s,
        decreases 64 - s,
    {
        proof {
            assert(sum_below(own, term, s as int + 1) == sum_below(own, term, s as int) + if bit(
                own,
                s,
            ) {
                term(s)
            } else {
                0
            });
        }
        if has(own, s) && is_passed(d, c, s) {
            acc = acc + passer_value_exec(d, c, s, phase);
        }
        s = s + 1;
    }
    acc
}

/// Passed pawns, white minus black. For each passed pawn: half its base
/// value off when an enemy piece blocks the square ahead; 30% of it for an
/// own rook behind on the file; up to 30 for the own king near the promotion
/// square and 5 per step of the enemy king's distance from it; support of
/// the own king next to the pawn or its front square; the promotion gain
/// minus 10 per step when the defending king cannot catch it (rule of the
/// square, at most one defending piece); and, late in the game (phase at
/// most 6), the weighted control of the promotion corridor and square.
pub fn evaluate_passers(d: &PosData, w_files: &[u8; 8], b_files: &[u8; 8], phase: i32) -> (r: Score)
    requires
        d.wf(),
    ensures
        r == spec_passers(*d, phase as int),
        -320000 <= r <= 320000,
{
    let w = side_passers_exec(d, Color::White, phase);
    let b = side_passers_exec(d, Color::Black, phase);
    w - b
}

proof fn lemma_pawn_term_bounds(d: PosData, c: Color, s: int)
    requires
        0 <= s < 64,
    ensures
        -20 <= pawn_term(d, c, s) <= 357,
{
    let k = passer_dist(c, s);
    assert(1 <= k <= 7);
    assert(0 <= PASSED_BASE@[k] <= 350);
}

proof fn lemma_doubled_bounds(d: PosData, c: Color, n: int)
    requires
        0 <= n <= 8,
    ensures
        0 <= doubled_below(d, c, n) <= 756 * n,
    decreases n,
{
    if n > 0 {
        lemma_doubled_bounds(d, c, n - 1);
        crate::bits::lemma_count_below_bounds(d.colored(c, Piece::Pawn) & file_mask(n - 1), 64);
    }
}

/// Every pawn-structure score lies within +-31000.
pub proof fn lemma_pawn_structure_bounds(d: PosData)
    ensures
        -31_000 <= spec_pawn_structure(d) <= 31_000,
{
    lemma_side_structure_bounds(d, Color::White);
    lemma_side_structure_bounds(d, Color::Black);
}

proof fn lemma_side_structure_bounds(d: PosData, c: Color)
    ensures
        -1280 - 6048 <= side_structure(d, c) <= 22848,
{
    let term = |t: u8| pawn_term(d, c, t as int);
    assert forall|t: u8| t < 64 implies -20 <= #[trigger] term(t) <= 357 by {
        lemma_pawn_term_bounds(d, c, t as int);
    }
    crate::bits::lemma_sum_below_bounds(d.colored(c, Piece::Pawn), term, 64, -20, 357);
    lemma_doubled_bounds(d, c, 8);
    assert(term =~= (|t: u8| pawn_term(d, c, t as int)));
}

} // verus!
