//! Closed-form endgame knowledge: small-material solvers, mating potential,
//! drawish-endgame scaling, king-driving progress and rook-endgame geometry.
//! Scores are from white's point of view.
use vstd::prelude::*;
use crate::bits::{count, first_square, lowest, popcount, bit, lemma_lowest_from_bounds};
use crate::chess::PosData;
use crate::geom::{min, max, abs, tdiv, clamp, rank, file, cheb, edge_distance, imin, imax, iabs, iclamp, chebyshev, edge_dist};
use crate::types::{Color, Piece, Score, QUEEN_VALUE, ROOK_VALUE, BISHOP_VALUE, KNIGHT_VALUE, PAWN_VALUE, DRAW_SCORE};

verus! {

/// Number of pieces of kind `p` and colour `c`.
pub open spec fn cnt(d: PosData, c: Color, p: Piece) -> int {
    popcount(d.colored(c, p)) as int
}

/// Number of pieces of kind `p` and colour `c`.
pub fn count_of(d: &PosData, c: Color, p: Piece) -> (r: i32)
    ensures
        r == cnt(*d, c, p),
        0 <= r <= 64,
{
    count(d.colored_pieces(c, p)) as i32
}

pub open spec fn sign(c: Color) -> int {
    if c == Color::White {
        1
    } else {
        -1
    }
}

pub fn sign_of(c: Color) -> (r: i32)
    ensures
        r == sign(c),
{
    if c == Color::White {
        1
    } else {
        -1
    }
}

/// The lowest square holding a piece of kind `p` and colour `c`, or 0 if
/// there is none.
pub open spec fn first_of(d: PosData, c: Color, p: Piece) -> int {
    let s = lowest(d.colored(c, p));
    if s < 64 {
        s
    } else {
        0
    }
}

pub fn first_of_exec(d: &PosData, c: Color, p: Piece) -> (r: u8)
    ensures
        r == first_of(*d, c, p),
        r < 64,
{
    let s = first_square(d.colored_pieces(c, p));
    if s < 64 {
        s
    } else {
        0
    }
}

/// Distance (in king steps along ranks plus files) of square `s` from the
/// nearer of the two corners of the colour of the bishop's square `bsq`:
/// a1 and h8 for a bishop on the squares of a1's colour, h1 and a8 for the
/// other; only in those corners can king, bishop and knight mate.
pub open spec fn corner_distance_bn(s: int, bsq: int) -> int {
    let r = rank(s);
    let f = file(s);
    if (rank(bsq) + file(bsq)) % 2 == 0 {
        min(r + f, (7 - r) + (7 - f))
    } else {
        min(r + (7 - f), (7 - r) + f)
    }
}

/// Whether side `c` has nothing but its king.
pub open spec fn bare(d: PosData, c: Color) -> bool {
    cnt(d, c, Piece::Queen) == 0 && cnt(d, c, Piece::Rook) == 0 && cnt(d, c, Piece::Bishop) == 0
        && cnt(d, c, Piece::Knight) == 0 && cnt(d, c, Piece::Pawn) == 0
}

/// Whether side `c` has exactly `q` queens, `r` rooks, `b` bishops, `n`
/// knights and `p` pawns.
pub open spec fn has_exactly(d: PosData, c: Color, q: int, r: int, b: int, n: int, p: int) -> bool {
    cnt(d, c, Piece::Queen) == q && cnt(d, c, Piece::Rook) == r && cnt(d, c, Piece::Bishop) == b
        && cnt(d, c, Piece::Knight) == n && cnt(d, c, Piece::Pawn) == p
}

pub open spec fn promo_rank(c: Color) -> int {
    if c == Color::White {
        7
    } else {
        0
    }
}

/// King and pawn against king, for `strong` with a lone pawn: the result if
/// the rule decides, or `None` to go on.
pub open spec fn kpk(d: PosData, strong: Color) -> Option<int> {
    kpk_squares(strong, d.king_sq(strong), d.king_sq(strong.spec_other()), first_of(d, strong, Piece::Pawn))
}

/// [`kpk`] with the strong king on `sk`, the weak king on `ek` and the pawn
/// on `psq`.
pub open spec fn kpk_squares(strong: Color, sk: int, ek: int, psq: int) -> Option<int> {
    let pf = file(psq);
    let pr = rank(psq);
    let pawn_dist = abs(promo_rank(strong) - pr);
    let promo_sq = promo_rank(strong) * 8 + pf;
    let sk_dist = cheb(sk, promo_sq);
    let ek_dist = cheb(ek, promo_sq);
    let pawn_adv = if strong == Color::White {
        pr - 1
    } else {
        6 - pr
    };
    if (pf == 0 || pf == 7) && ek_dist <= pawn_dist + 1 {
        Some(DRAW_SCORE as int)
    } else if sk_dist <= 1 && ek_dist > pawn_dist + 1 {
        Some(sign(strong) * (QUEEN_VALUE - PAWN_VALUE + 100 - 10 * pawn_dist))
    } else if ek_dist <= pawn_dist && sk_dist > pawn_dist && pawn_adv <= 3 {
        Some(DRAW_SCORE as int)
    } else {
        None
    }
}

/// King, bishop and rook pawn against king with the wrong-coloured bishop.
pub open spec fn kbpk(d: PosData, strong: Color) -> Option<int> {
    kbpk_squares(
        strong,
        d.king_sq(strong.spec_other()),
        first_of(d, strong, Piece::Bishop),
        first_of(d, strong, Piece::Pawn),
    )
}

/// [`kbpk`] with the weak king on `ek`, the bishop on `bsq` and the pawn on
/// `psq`.
pub open spec fn kbpk_squares(strong: Color, ek: int, bsq: int, psq: int) -> Option<int> {
    let pf = file(psq);
    let promo_sq = promo_rank(strong) * 8 + pf;
    let bishop_color = (rank(bsq) + file(bsq)) % 2;
    let promo_color = (rank(promo_sq) + file(promo_sq)) % 2;
    if (pf == 0 || pf == 7) && bishop_color != promo_color {
        if cheb(ek, promo_sq) <= 2 {
            Some(DRAW_SCORE as int)
        } else {
            Some(sign(strong) * 30)
        }
    } else {
        None
    }
}

/// The solvers for `strong` against a bare king; `None` to go on.
pub open spec fn side_solve(d: PosData, strong: Color) -> Option<int> {
    let weak = strong.spec_other();
    let sg = sign(strong);
    let ek = d.king_sq(weak);
    let sk = d.king_sq(strong);
    let edge = edge_distance(ek);
    let king_dist = cheb(sk, ek);
    if !bare(d, weak) {
        None
    } else if has_exactly(d, strong, 1, 0, 0, 0, 0) {
        Some(sg * (QUEEN_VALUE + 200 + 50 * (3 - edge) + 20 * (7 - king_dist)))
    } else if has_exactly(d, strong, 0, 1, 0, 0, 0) {
        Some(sg * (ROOK_VALUE + 150 + 50 * (3 - edge) + 20 * (7 - king_dist)))
    } else if has_exactly(d, strong, 0, 0, 1, 1, 0) {
        Some(
            sg * (BISHOP_VALUE + KNIGHT_VALUE + 100 + 40 * max(3 - corner_distance_bn(ek, first_of(d, strong, Piece::Bishop)), 0) + 20
                * (7 - king_dist)),
        )
    } else if has_exactly(d, strong, 0, 0, 2, 0, 0) {
        Some(sg * (2 * BISHOP_VALUE + 100 + 50 * (3 - edge) + 20 * (7 - king_dist)))
    } else if has_exactly(d, strong, 0, 0, 0, 0, 1) && kpk(d, strong) is Some {
        kpk(d, strong)
    } else if has_exactly(d, strong, 0, 0, 1, 0, 1) {
        kbpk(d, strong)
    } else {
        None
    }
}

/// Queen against a pawn on or near its seventh rank, with the queen on side
/// `q_side`; `None` to go on.
pub open spec fn kqkp(d: PosData, q_side: Color) -> Option<int> {
    let p_side = q_side.spec_other();
    let psq = first_of(d, p_side, Piece::Pawn);
    let pk = d.king_sq(p_side);
    let pf = file(psq);
    let pawn_dist = abs(promo_rank(p_side) - rank(psq));
    if !has_exactly(d, q_side, 1, 0, 0, 0, 0) || !has_exactly(d, p_side, 0, 0, 0, 0, 1) {
        None
    } else if pawn_dist <= 1 && cheb(pk, psq) <= 1 && (pf == 0 || pf == 7) {
        Some(DRAW_SCORE as int)
    } else if pawn_dist <= 1 && cheb(pk, psq) <= 1 && (pf == 2 || pf == 5) && pawn_dist == 1 {
        Some(sign(q_side) * 50)
    } else if pawn_dist >= 2 {
        Some(sign(q_side) * (QUEEN_VALUE - PAWN_VALUE + 100))
    } else {
        None
    }
}

/// The solvers for `strong` against a bare king never favour the bare side.
proof fn lemma_side_solve_sign(d: PosData, strong: Color)
    ensures
        side_solve(d, strong) matches Some(v) ==> sign(strong) * v >= 0,
{
    lemma_lowest_from_bounds(d.colored(Color::White, Piece::King), 0);
    lemma_lowest_from_bounds(d.colored(Color::Black, Piece::King), 0);
    lemma_lowest_from_bounds(d.colored(strong, Piece::Pawn), 0);
    lemma_lowest_from_bounds(d.colored(strong, Piece::Bishop), 0);
    let weak = strong.spec_other();
    let ek = d.king_sq(weak);
    let sk = d.king_sq(strong);
    assert(0 <= cheb(sk, ek) <= 8);
    assert(edge_distance(ek) <= 3);
    let psq = first_of(d, strong, Piece::Pawn);
    assert(0 <= rank(psq) <= 7);
}

/// The closed-form results take the side of the material: with one side
/// down to its bare king the result never favours that side, and in queen
/// against pawn it never favours the pawn. In particular a won king and
/// pawn ending has the sign of the side with the pawn.
pub proof fn law_endgame_solver_sign(d: PosData)
    ensures
        bare(d, Color::Black) ==> (spec_endgame_solver(d) matches Some(v) ==> v >= 0),
        bare(d, Color::White) ==> (spec_endgame_solver(d) matches Some(v) ==> v <= 0),
        has_exactly(d, Color::White, 1, 0, 0, 0, 0) && has_exactly(d, Color::Black, 0, 0, 0, 0, 1) ==> (
        spec_endgame_solver(d) matches Some(v) ==> v >= 0),
        has_exactly(d, Color::Black, 1, 0, 0, 0, 0) && has_exactly(d, Color::White, 0, 0, 0, 0, 1) ==> (
        spec_endgame_solver(d) matches Some(v) ==> v <= 0),
{
    lemma_side_solve_sign(d, Color::White);
    lemma_side_solve_sign(d, Color::Black);
}

/// Square `s` seen from the other side of the board: its rank reversed.
pub open spec fn flip_rank(s: int) -> int {
    (7 - rank(s)) * 8 + file(s)
}

/// `e` is `d` with the board turned upside down and the colours exchanged,
/// as far as the endgame solvers look: the same number of pieces of each
/// kind on the other side, the kings on the flipped squares, and a lone
/// piece of a kind on the flipped square of its counterpart.
pub open spec fn colour_mirror(d: PosData, e: PosData) -> bool {
    &&& forall|c: Color, p: Piece| #[trigger] cnt(e, c.spec_other(), p) == cnt(d, c, p)
    &&& forall|c: Color, p: Piece| #[trigger] cnt(d, c, p) == cnt(e, c.spec_other(), p)
    &&& popcount(e.occ()) == popcount(d.occ())
    &&& e.king_sq(Color::Black) == flip_rank(d.king_sq(Color::White))
    &&& e.king_sq(Color::White) == flip_rank(d.king_sq(Color::Black))
    &&& forall|c: Color, p: Piece|
        cnt(d, c, p) == 1 ==> #[trigger] first_of(e, c.spec_other(), p) == flip_rank(first_of(d, c, p))
}

proof fn lemma_flip_rank(s: int)
    requires
        0 <= s < 64,
    ensures
        0 <= flip_rank(s) < 64,
        rank(flip_rank(s)) == 7 - rank(s),
        file(flip_rank(s)) == file(s),
{
}

/// The facts about squares a mirrored pair shares.
proof fn lemma_mirror_squares(d: PosData, e: PosData, strong: Color)
    requires
        d.wf(),
        colour_mirror(d, e),
    ensures
        0 <= d.king_sq(strong) < 64,
        0 <= d.king_sq(strong.spec_other()) < 64,
        e.king_sq(strong.spec_other()) == flip_rank(d.king_sq(strong)),
        e.king_sq(strong) == flip_rank(d.king_sq(strong.spec_other())),
        0 <= first_of(d, strong, Piece::Pawn) < 64,
        0 <= first_of(d, strong, Piece::Bishop) < 64,
        0 <= first_of(d, strong.spec_other(), Piece::Pawn) < 64,
        cnt(d, strong, Piece::Pawn) == 1 ==> first_of(e, strong.spec_other(), Piece::Pawn) == flip_rank(
            first_of(d, strong, Piece::Pawn),
        ),
        cnt(d, strong, Piece::Bishop) == 1 ==> first_of(e, strong.spec_other(), Piece::Bishop) == flip_rank(
            first_of(d, strong, Piece::Bishop),
        ),
        cnt(d, strong.spec_other(), Piece::Pawn) == 1 ==> first_of(e, strong, Piece::Pawn) == flip_rank(
            first_of(d, strong.spec_other(), Piece::Pawn),
        ),
{
    lemma_lowest_from_bounds(d.colored(Color::White, Piece::King), 0);
    lemma_lowest_from_bounds(d.colored(Color::Black, Piece::King), 0);
    lemma_lowest_from_bounds(d.colored(strong, Piece::Pawn), 0);
    lemma_lowest_from_bounds(d.colored(strong, Piece::Bishop), 0);
    lemma_lowest_from_bounds(d.colored(strong.spec_other(), Piece::Pawn), 0);
    if d.king_sq(Color::White) == 64 {
        crate::chess::lemma_empty_when_no_lowest(d.colored(Color::White, Piece::King));
    }
    if d.king_sq(Color::Black) == 64 {
        crate::chess::lemma_empty_when_no_lowest(d.colored(Color::Black, Piece::King));
    }
    assert(strong.spec_other().spec_other() == strong);
    assert(first_of(e, strong.spec_other(), Piece::Pawn) == flip_rank(first_of(d, strong, Piece::Pawn))
        || cnt(d, strong, Piece::Pawn) != 1);
    assert(first_of(e, strong.spec_other(), Piece::Bishop) == flip_rank(first_of(d, strong, Piece::Bishop))
        || cnt(d, strong, Piece::Bishop) != 1);
    assert(first_of(e, strong.spec_other().spec_other(), Piece::Pawn) == flip_rank(
        first_of(d, strong.spec_other(), Piece::Pawn),
    ) || cnt(d, strong.spec_other(), Piece::Pawn) != 1);
}

/// The negation of a result, if any.
pub open spec fn negated(r: Option<int>) -> Option<int> {
    match r {
        Some(v) => Some(-v),
        None => None,
    }
}

/// Turning the board over keeps king distances and edge distances, and
/// the bishop-and-knight corner distance with the bishop turned too.
proof fn lemma_flip_metrics(a: int, b: int)
    requires
        0 <= a < 64,
        0 <= b < 64,
    ensures
        cheb(flip_rank(a), flip_rank(b)) == cheb(a, b),
        edge_distance(flip_rank(a)) == edge_distance(a),
        corner_distance_bn(flip_rank(a), flip_rank(b)) == corner_distance_bn(a, b),
{
    lemma_flip_rank(a);
    lemma_flip_rank(b);
    assert((rank(flip_rank(b)) + file(flip_rank(b))) % 2 != (rank(b) + file(b)) % 2);
}

proof fn lemma_kpk_squares_mirror(strong: Color, sk: int, ek: int, psq: int)
    requires
        0 <= sk < 64,
        0 <= ek < 64,
        0 <= psq < 64,
    ensures
        kpk_squares(strong.spec_other(), flip_rank(sk), flip_rank(ek), flip_rank(psq)) == negated(
            kpk_squares(strong, sk, ek, psq),
        ),
{
    let weak = strong.spec_other();
    lemma_flip_rank(psq);
    let pf = file(psq);
    let promo_sq = promo_rank(strong) * 8 + pf;
    lemma_flip_rank(promo_sq);
    assert(promo_rank(weak) == 7 - promo_rank(strong));
    assert(rank(promo_sq) == promo_rank(strong) && file(promo_sq) == pf);
    assert(promo_rank(weak) * 8 + file(flip_rank(psq)) == flip_rank(promo_sq));
    lemma_flip_metrics(sk, promo_sq);
    lemma_flip_metrics(ek, promo_sq);
    let pawn_dist = abs(promo_rank(strong) - rank(psq));
    assert(abs(promo_rank(weak) - rank(flip_rank(psq))) == pawn_dist);
    let v = QUEEN_VALUE - PAWN_VALUE + 100 - 10 * pawn_dist;
    if strong == Color::White {
        assert(sign(strong) * v == v && sign(weak) * v == -v);
    } else {
        assert(sign(strong) * v == -v && sign(weak) * v == v);
    }
}

proof fn lemma_kbpk_squares_mirror(strong: Color, ek: int, bsq: int, psq: int)
    requires
        0 <= ek < 64,
        0 <= bsq < 64,
        0 <= psq < 64,
    ensures
        kbpk_squares(strong.spec_other(), flip_rank(ek), flip_rank(bsq), flip_rank(psq)) == negated(
            kbpk_squares(strong, ek, bsq, psq),
        ),
{
    let weak = strong.spec_other();
    lemma_flip_rank(psq);
    lemma_flip_rank(bsq);
    let pf = file(psq);
    let promo_sq = promo_rank(strong) * 8 + pf;
    lemma_flip_rank(promo_sq);
    assert(promo_rank(weak) == 7 - promo_rank(strong));
    assert(rank(promo_sq) == promo_rank(strong) && file(promo_sq) == pf);
    let promo_sq2 = promo_rank(weak) * 8 + file(flip_rank(psq));
    assert(promo_sq2 == flip_rank(promo_sq));
    lemma_flip_metrics(ek, promo_sq);
    assert(sign(weak) == -sign(strong));
}

proof fn lemma_kpk_mirror(d: PosData, e: PosData, strong: Color)
    requires
        d.wf(),
        colour_mirror(d, e),
        cnt(d, strong, Piece::Pawn) == 1,
    ensures
        kpk(e, strong.spec_other()) == negated(kpk(d, strong)),
{
    lemma_mirror_squares(d, e, strong);
    assert(strong.spec_other().spec_other() == strong);
    lemma_kpk_squares_mirror(
        strong,
        d.king_sq(strong),
        d.king_sq(strong.spec_other()),
        first_of(d, strong, Piece::Pawn),
    );
}

proof fn lemma_kbpk_mirror(d: PosData, e: PosData, strong: Color)
    requires
        d.wf(),
        colour_mirror(d, e),
        cnt(d, strong, Piece::Pawn) == 1,
        cnt(d, strong, Piece::Bishop) == 1,
    ensures
        kbpk(e, strong.spec_other()) == negated(kbpk(d, strong)),
{
    lemma_mirror_squares(d, e, strong);
    assert(strong.spec_other().spec_other() == strong);
    lemma_kbpk_squares_mirror(
        strong,
        d.king_sq(strong.spec_other()),
        first_of(d, strong, Piece::Bishop),
        first_of(d, strong, Piece::Pawn),
    );
}

/// The counts of a mirrored pair, side for side.
proof fn lemma_mirror_counts(d: PosData, e: PosData, c: Color)
    requires
        colour_mirror(d, e),
    ensures
        bare(e, c.spec_other()) == bare(d, c),
        forall|q: int, r: int, b: int, n: int, pp: int| #[trigger] has_exactly(e, c.spec_other(), q, r, b, n, pp)
            == has_exactly(d, c, q, r, b, n, pp),
{
    assert(cnt(e, c.spec_other(), Piece::Queen) == cnt(d, c, Piece::Queen));
    assert(cnt(e, c.spec_other(), Piece::Rook) == cnt(d, c, Piece::Rook));
    assert(cnt(e, c.spec_other(), Piece::Bishop) == cnt(d, c, Piece::Bishop));
    assert(cnt(e, c.spec_other(), Piece::Knight) == cnt(d, c, Piece::Knight));
    assert(cnt(e, c.spec_other(), Piece::Pawn) == cnt(d, c, Piece::Pawn));
}

#[verifier::spinoff_prover]
proof fn lemma_side_solve_mirror(d: PosData, e: PosData, strong: Color)
    requires
        d.wf(),
        colour_mirror(d, e),
    ensures
        side_solve(e, strong.spec_other()) == negated(side_solve(d, strong)),
{
    lemma_mirror_squares(d, e, strong);
    let weak = strong.spec_other();
    assert(weak.spec_other() == strong);
    assert(sign(weak) == -sign(strong));
    lemma_mirror_counts(d, e, strong);
    lemma_mirror_counts(d, e, weak);
    assert forall|x: int| #[trigger] (sign(weak) * x) == -(sign(strong) * x) by {
        if strong == Color::White {
            assert(sign(strong) * x == x);
        } else {
            assert(sign(weak) * x == x);
        }
    }
    let ek = d.king_sq(weak);
    let sk = d.king_sq(strong);
    lemma_flip_metrics(sk, ek);
    lemma_flip_metrics(ek, first_of(d, strong, Piece::Bishop));
    if has_exactly(d, strong, 0, 0, 1, 1, 0) {
        assert(first_of(e, weak, Piece::Bishop) == flip_rank(first_of(d, strong, Piece::Bishop)));
    }
    if has_exactly(d, strong, 0, 0, 0, 0, 1) {
        lemma_kpk_mirror(d, e, strong);
    }
    if has_exactly(d, strong, 0, 0, 1, 0, 1) {
        lemma_kbpk_mirror(d, e, strong);
    }
}

proof fn lemma_kqkp_mirror(d: PosData, e: PosData, q_side: Color)
    requires
        d.wf(),
        colour_mirror(d, e),
    ensures
        kqkp(e, q_side.spec_other()) == negated(kqkp(d, q_side)),
{
    let p_side = q_side.spec_other();
    lemma_mirror_squares(d, e, p_side);
    assert(p_side.spec_other() == q_side);
    assert(sign(p_side) == -sign(q_side));
    assert forall|c: Color, q: int, r: int, b: int, n: int, pp: int| #[trigger] has_exactly(e, c.spec_other(), q, r, b, n, pp)
        == has_exactly(d, c, q, r, b, n, pp) by {
        assert(cnt(e, c.spec_other(), Piece::Queen) == cnt(d, c, Piece::Queen));
        assert(cnt(e, c.spec_other(), Piece::Rook) == cnt(d, c, Piece::Rook));
        assert(cnt(e, c.spec_other(), Piece::Bishop) == cnt(d, c, Piece::Bishop));
        assert(cnt(e, c.spec_other(), Piece::Knight) == cnt(d, c, Piece::Knight));
        assert(cnt(e, c.spec_other(), Piece::Pawn) == cnt(d, c, Piece::Pawn));
    }
    assert(has_exactly(e, p_side, 1, 0, 0, 0, 0) == has_exactly(d, q_side, 1, 0, 0, 0, 0));
    assert(has_exactly(e, q_side, 0, 0, 0, 0, 1) == has_exactly(d, p_side, 0, 0, 0, 0, 1));
    if has_exactly(d, p_side, 0, 0, 0, 0, 1) {
        lemma_flip_rank(first_of(d, p_side, Piece::Pawn));
        lemma_flip_rank(d.king_sq(p_side));
    }
}

/// The endgame solver is colour-symmetric: turning the board upside down
/// and exchanging the colours negates its result (and keeps its absence).
pub proof fn law_endgame_solver_mirror(d: PosData, e: PosData)
    requires
        d.wf(),
        colour_mirror(d, e),
    ensures
        spec_endgame_solver(e) == negated(spec_endgame_solver(d)),
{
    lemma_side_solve_mirror(d, e, Color::White);
    lemma_side_solve_mirror(d, e, Color::Black);
    lemma_kqkp_mirror(d, e, Color::White);
    lemma_kqkp_mirror(d, e, Color::Black);
    lemma_side_solve_sign(d, Color::White);
    lemma_side_solve_sign(d, Color::Black);
}

/// The closed-form result for positions of at most five pieces that one of
/// the solvers covers.
pub open spec fn spec_endgame_solver(d: PosData) -> Option<int> {
    if popcount(d.occ()) > 5 {
        None
    } else if side_solve(d, Color::White) is Some {
        side_solve(d, Color::White)
    } else if side_solve(d, Color::Black) is Some {
        side_solve(d, Color::Black)
    } else if kqkp(d, Color::White) is Some {
        kqkp(d, Color::White)
    } else {
        kqkp(d, Color::Black)
    }
}

fn corner_distance(s: u8, bsq: u8) -> (r: i32)
    requires
        s < 64,
        bsq < 64,
    ensures
        r == corner_distance_bn(s as int, bsq as int),
        0 <= r <= 7,
{
    let r = (s / 8) as i32;
    let f = (s % 8) as i32;
    if ((bsq / 8) as i32 + (bsq % 8) as i32) % 2 == 0 {
        imin(r + f, (7 - r) + (7 - f))
    } else {
        imin(r + (7 - f), (7 - r) + f)
    }
}

fn is_bare(d: &PosData, c: Color) -> (r: bool)
    ensures
        r == bare(*d, c),
{
    count_of(d, c, Piece::Queen) == 0 && count_of(d, c, Piece::Rook) == 0 && count_of(
        d,
        c,
        Piece::Bishop,
    ) == 0 && count_of(d, c, Piece::Knight) == 0 && count_of(d, c, Piece::Pawn) == 0
}

fn has_exactly_exec(d: &PosData, c: Color, q: i32, r: i32, b: i32, n: i32, p: i32) -> (res: bool)
    ensures
        res == has_exactly(*d, c, q as int, r as int, b as int, n as int, p as int),
{
    count_of(d, c, Piece::Queen) == q && count_of(d, c, Piece::Rook) == r && count_of(
        d,
        c,
        Piece::Bishop,
    ) == b && count_of(d, c, Piece::Knight) == n && count_of(d, c, Piece::Pawn) == p
}

fn promo_rank_of(c: Color) -> (r: i32)
    ensures
        r == promo_rank(c),
{
    if c == Color::White {
        7
    } else {
        0
    }
}

#[verifier::spinoff_prover]
fn kpk_exec(d: &PosData, strong: Color) -> (r: Option<Score>)
    requires
        d.wf(),
    ensures
        r matches Some(v) ==> kpk(*d, strong) == Some(v as int) && -2000 <= v <= 2000,
        r is None ==> kpk(*d, strong) is None,
{
    let weak = strong.other();
    let ek = d.king(weak);
    let sk = d.king(strong);
    let psq = first_of_exec(d, strong, Piece::Pawn);
    let pf = (psq % 8) as i32;
    let pr = (psq / 8) as i32;
    let pr_promo = promo_rank_of(strong);
    let pawn_dist = iabs(pr_promo - pr);
    let promo_sq = (pr_promo * 8 + pf) as u8;
    let sk_dist = chebyshev(sk, promo_sq);
    let ek_dist = chebyshev(ek, promo_sq);
    let pawn_adv = if strong == Color::White {
        pr - 1
    } else {
        6 - pr
    };
    if (pf == 0 || pf == 7) && ek_dist <= pawn_dist + 1 {
        return Some(DRAW_SCORE);
    }
    if sk_dist <= 1 && ek_dist > pawn_dist + 1 {
        return Some(sign_of(strong) * (QUEEN_VALUE - PAWN_VALUE + 100 - 10 * pawn_dist));
    }
    if ek_dist <= pawn_dist && sk_dist > pawn_dist {
        if pawn_adv <= 3 {
            return Some(DRAW_SCORE);
        }
    }
    None
}

fn kbpk_exec(d: &PosData, strong: Color) -> (r: Option<Score>)
    requires
        d.wf(),
    ensures
        r matches Some(v) ==> kbpk(*d, strong) == Some(v as int) && -2000 <= v <= 2000,
        r is None ==> kbpk(*d, strong) is None,
{
    let weak = strong.other();
    let ek = d.king(weak);
    let bsq = first_of_exec(d, strong, Piece::Bishop);
    let psq = first_of_exec(d, strong, Piece::Pawn);
    let pf = (psq % 8) as i32;
    if pf == 0 || pf == 7 {
        let promo_sq = (promo_rank_of(strong) * 8 + pf) as u8;
        let bishop_color = ((bsq / 8) as i32 + (bsq % 8) as i32) % 2;
        let promo_color = ((promo_sq / 8) as i32 + (promo_sq % 8) as i32) % 2;
        if bishop_color != promo_color {
            let ek_dist = chebyshev(ek, promo_sq);
            if ek_dist <= 2 {
                return Some(DRAW_SCORE);
            }
            return Some(sign_of(strong) * 30);
        }
    }
    None
}

fn side_solve_exec(d: &PosData, strong: Color) -> (r: Option<Score>)
    requires
        d.wf(),
    ensures
        r matches Some(v) ==> side_solve(*d, strong) == Some(v as int) && -2000 <= v <= 2000,
        r is None ==> side_solve(*d, strong) is None,
{
    let weak = strong.other();
    let sg = sign_of(strong);
    if !is_bare(d, weak) {
        return None;
    }
    let ek = d.king(weak);
    let sk = d.king(strong);
    let edge = edge_dist(ek);
    let king_dist = chebyshev(sk, ek);
    if has_exactly_exec(d, strong, 1, 0, 0, 0, 0) {
        return Some(sg * (QUEEN_VALUE + 200 + 50 * (3 - edge) + 20 * (7 - king_dist)));
    }
    if has_exactly_exec(d, strong, 0, 1, 0, 0, 0) {
        return Some(sg * (ROOK_VALUE + 150 + 50 * (3 - edge) + 20 * (7 - king_dist)));
    }
    if has_exactly_exec(d, strong, 0, 0, 1, 1, 0) {
        let corner_d = corner_distance(ek, first_of_exec(d, strong, Piece::Bishop));
        return Some(
            sg * (BISHOP_VALUE + KNIGHT_VALUE + 100 + 40 * imax(3 - corner_d, 0) + 20 * (7
                - king_dist)),
        );
    }
    if has_exactly_exec(d, strong, 0, 0, 2, 0, 0) {
        return Some(sg * (2 * BISHOP_VALUE + 100 + 50 * (3 - edge) + 20 * (7 - king_dist)));
    }
    if has_exactly_exec(d, strong, 0, 0, 0, 0, 1) {
        let k = kpk_exec(d, strong);
        if k.is_some() {
            return k;
        }
    }
    if has_exactly_exec(d, strong, 0, 0, 1, 0, 1) {
        return kbpk_exec(d, strong);
    }
    None
}

fn kqkp_exec(d: &PosData, q_side: Color) -> (r: Option<Score>)
    requires
        d.wf(),
    ensures
        r matches Some(v) ==> kqkp(*d, q_side) == Some(v as int) && -2000 <= v <= 2000,
        r is None ==> kqkp(*d, q_side) is None,
{
    let p_side = q_side.other();
    if !has_exactly_exec(d, q_side, 1, 0, 0, 0, 0) || !has_exactly_exec(d, p_side, 0, 0, 0, 0, 1) {
        return None;
    }
    let psq = first_of_exec(d, p_side, Piece::Pawn);
    let pk = d.king(p_side);
    let pf = (psq % 8) as i32;
    let pr = (psq / 8) as i32;
    let pawn_dist = iabs(promo_rank_of(p_side) - pr);
    if pawn_dist <= 1 && chebyshev(pk, psq) <= 1 {
        if pf == 0 || pf == 7 {
            return Some(DRAW_SCORE);
        }
        if (pf == 2 || pf == 5) && pawn_dist == 1 {
            return Some(sign_of(q_side) * 50);
        }
    }
    if pawn_dist >= 2 {
        return Some(sign_of(q_side) * (QUEEN_VALUE - PAWN_VALUE + 100));
    }
    None
}

/// Closed-form results for simple endgames of at most five pieces: KQK, KRK,
/// KBNK and KBBK (winning, more so with the defending king near an edge or
/// the right corner and the kings close), KPK (rook-pawn and key-square
/// rules), KBPK with the wrong bishop (drawish), and KQ against a pawn on
/// its seventh rank (fortress draws). `None` when no solver applies.
pub fn endgame_solver(d: &PosData) -> (r: Option<Score>)
    requires
        d.wf(),
    ensures
        r matches Some(v) ==> spec_endgame_solver(*d) == Some(v as int) && -2000 <= v <= 2000,
        r is None ==> spec_endgame_solver(*d) is None,
{
    if count(d.occupied()) > 5 {
        return None;
    }
    let w = side_solve_exec(d, Color::White);
    if w.is_some() {
        return w;
    }
    let b = side_solve_exec(d, Color::Black);
    if b.is_some() {
        return b;
    }
    let qw = kqkp_exec(d, Color::White);
    if qw.is_some() {
        return qw;
    }
    kqkp_exec(d, Color::Black)
}


/// How likely side `c` is to force mate with its material, from 0 to 256.
pub open spec fn spec_mating_potential(d: PosData, c: Color) -> int {
    let n = cnt(d, c, Piece::Knight);
    let b = cnt(d, c, Piece::Bishop);
    let r = cnt(d, c, Piece::Rook);
    let q = cnt(d, c, Piece::Queen);
    let p = cnt(d, c, Piece::Pawn);
    let mat = n * KNIGHT_VALUE + b * BISHOP_VALUE + r * ROOK_VALUE + q * QUEEN_VALUE;
    let pieces = n + b + r + q;
    if pieces == 0 && p == 0 {
        0
    } else if r > 0 || q > 0 {
        min(mat * 256 / 900, 256)
    } else if pieces == 0 {
        if p > 0 {
            min(p * 77, 256)
        } else {
            0
        }
    } else if pieces == 1 {
        if p > 0 {
            min(77 + p * 64, 256)
        } else {
            0
        }
    } else if pieces == 2 && b >= 1 && n >= 1 {
        if p > 0 {
            min(179 + p * 38, 256)
        } else {
            179
        }
    } else if pieces == 2 && n == 2 {
        if p > 0 {
            min(p * 51, 256)
        } else {
            0
        }
    } else if pieces == 2 && b == 2 {
        if p > 0 {
            min(179 + p * 38, 256)
        } else {
            179
        }
    } else {
        min(mat * 256 / 900, 256)
    }
}

/// Mating potential of side `c`: 0 with no material or only a bare minor,
/// 179 for two bishops or bishop and knight, more with pawns, and material
/// over 900 (capped at 256) once a rook or queen is on the board.
pub fn mating_potential(d: &PosData, c: Color) -> (r: i32)
    ensures
        r == spec_mating_potential(*d, c),
        0 <= r <= 256,
{
    let n = count_of(d, c, Piece::Knight);
    let b = count_of(d, c, Piece::Bishop);
    let r = count_of(d, c, Piece::Rook);
    let q = count_of(d, c, Piece::Queen);
    let p = count_of(d, c, Piece::Pawn);
    let mat = n * KNIGHT_VALUE + b * BISHOP_VALUE + r * ROOK_VALUE + q * QUEEN_VALUE;
    let pieces = n + b + r + q;
    if pieces == 0 && p == 0 {
        return 0;
    }
    if r > 0 || q > 0 {
        return imin(mat * 256 / 900, 256);
    }
    if pieces == 0 {
        return if p > 0 {
            imin(p * 77, 256)
        } else {
            0
        };
    }
    if pieces == 1 {
        return if p > 0 {
            imin(77 + p * 64, 256)
        } else {
            0
        };
    }
    if pieces == 2 {
        if b >= 1 && n >= 1 {
            return if p > 0 {
                imin(179 + p * 38, 256)
            } else {
                179
            };
        }
        if n == 2 {
            return if p > 0 {
                imin(p * 51, 256)
            } else {
                0
            };
        }
        if b == 2 {
            return if p > 0 {
                imin(179 + p * 38, 256)
            } else {
                179
            };
        }
    }
    imin(mat * 256 / 900, 256)
}

/// Side `c` has no piece but pawns and its king.
pub open spec fn no_pieces(d: PosData, c: Color) -> bool {
    d.color_bb(c) & !d.piece_bb(Piece::Pawn) & !d.piece_bb(Piece::King) == 0
}

/// Whether side `c` has no piece but pawns and its king.
pub fn has_no_pieces(d: &PosData, c: Color) -> (r: bool)
    ensures
        r == no_pieces(*d, c),
{
    d.colors_of(c) & !d.pieces_of(Piece::Pawn) & !d.pieces_of(Piece::King) == 0
}

/// King and rook against a bare king, for side `c`.
pub open spec fn krk_side(d: PosData, c: Color) -> bool {
    &&& cnt(d, c, Piece::Rook) == 1
    &&& d.colored(c, Piece::Queen) == 0
    &&& d.colored(c, Piece::Knight) == 0
    &&& d.colored(c, Piece::Bishop) == 0
    &&& d.colored(c, Piece::Pawn) == 0
    &&& no_pieces(d, c.spec_other())
    &&& d.colored(c.spec_other(), Piece::Pawn) == 0
}

pub open spec fn krk_score(d: PosData, c: Color) -> int {
    sign(c) * (400 + 50 * (3 - edge_distance(d.king_sq(c.spec_other()))))
}

pub open spec fn light(s: int) -> int {
    (rank(s) + file(s)) % 2
}

/// The scaling of a raw score by mating potential and drawish material.
pub open spec fn spec_endgame_scale(d: PosData, raw: int) -> int {
    let wp = spec_mating_potential(d, Color::White);
    let bp = spec_mating_potential(d, Color::Black);
    let win_p = if raw > 0 {
        wp
    } else {
        bp
    };
    let def_p = if raw > 0 {
        bp
    } else {
        wp
    };
    let scale = if def_p > 128 {
        win_p
    } else {
        win_p * win_p / 256
    };
    let scaled = tdiv(raw * scale, 256);
    let wb = cnt(d, Color::White, Piece::Bishop);
    let bb = cnt(d, Color::Black, Piece::Bishop);
    let wn = cnt(d, Color::White, Piece::Knight);
    let bn = cnt(d, Color::Black, Piece::Knight);
    let wr = cnt(d, Color::White, Piece::Rook);
    let br = cnt(d, Color::Black, Piece::Rook);
    let wq = cnt(d, Color::White, Piece::Queen);
    let bq = cnt(d, Color::Black, Piece::Queen);
    let ocb = wb == 1 && bb == 1 && light(first_of(d, Color::White, Piece::Bishop)) != light(
        first_of(d, Color::Black, Piece::Bishop),
    );
    if abs(raw) < 10 {
        raw
    } else if win_p == 0 {
        0
    } else if krk_side(d, Color::White) {
        krk_score(d, Color::White)
    } else if krk_side(d, Color::Black) {
        krk_score(d, Color::Black)
    } else if ocb && wn == 0 && bn == 0 && wr == 0 && br == 0 && wq == 0 && bq == 0 {
        tdiv(scaled * 77, 256)
    } else if ocb && wn + bn <= 1 && wr == 0 && br == 0 && wq == 0 && bq == 0 {
        tdiv(scaled * 128, 256)
    } else if rminor_vs_r(d, Color::White) is Some {
        tdiv(scaled * rminor_vs_r(d, Color::White).unwrap(), 256)
    } else if rminor_vs_r(d, Color::Black) is Some {
        tdiv(scaled * rminor_vs_r(d, Color::Black).unwrap(), 256)
    } else {
        scaled
    }
}

/// Rook and minor against rook for `strong`: the scale out of 256 that
/// applies (40 without pawns, 100 with one pawn for the stronger side), if
/// any.
pub open spec fn rminor_vs_r(d: PosData, strong: Color) -> Option<int> {
    let weak = strong.spec_other();
    let sr = cnt(d, strong, Piece::Rook);
    let sn = cnt(d, strong, Piece::Knight);
    let sb = cnt(d, strong, Piece::Bishop);
    let sq = cnt(d, strong, Piece::Queen);
    let sp = cnt(d, strong, Piece::Pawn);
    let wr = cnt(d, weak, Piece::Rook);
    let wn = cnt(d, weak, Piece::Knight);
    let wb = cnt(d, weak, Piece::Bishop);
    let wq = cnt(d, weak, Piece::Queen);
    let wp = cnt(d, weak, Piece::Pawn);
    if sr == 1 && sn + sb == 1 && sq == 0 && wr == 1 && wn == 0 && wb == 0 && wq == 0 {
        if sp == 0 && wp == 0 {
            Some(40)
        } else if sp <= 1 && wp == 0 {
            Some(100)
        } else {
            None
        }
    } else {
        None
    }
}


fn rminor_vs_r_exec(d: &PosData, strong: Color) -> (r: Option<i32>)
    ensures
        r matches Some(v) ==> rminor_vs_r(*d, strong) == Some(v as int) && 0 <= v <= 100,
        r is None ==> rminor_vs_r(*d, strong) is None,
{
    let weak = strong.other();
    let sr = count_of(d, strong, Piece::Rook);
    let sn = count_of(d, strong, Piece::Knight);
    let sb = count_of(d, strong, Piece::Bishop);
    let sq = count_of(d, strong, Piece::Queen);
    let sp = count_of(d, strong, Piece::Pawn);
    let wr = count_of(d, weak, Piece::Rook);
    let wn = count_of(d, weak, Piece::Knight);
    let wb = count_of(d, weak, Piece::Bishop);
    let wq = count_of(d, weak, Piece::Queen);
    let wp = count_of(d, weak, Piece::Pawn);
    if sr == 1 && (sn + sb) == 1 && sq == 0 && wr == 1 && wn == 0 && wb == 0 && wq == 0 {
        if sp == 0 && wp == 0 {
            return Some(40);
        }
        if sp <= 1 && wp == 0 {
            return Some(100);
        }
    }
    None
}

fn krk_side_exec(d: &PosData, c: Color) -> (r: bool)
    ensures
        r == krk_side(*d, c),
{
    let enemy = c.other();
    count_of(d, c, Piece::Rook) == 1 && d.colored_pieces(c, Piece::Queen) == 0
        && d.colored_pieces(c, Piece::Knight) == 0 && d.colored_pieces(c, Piece::Bishop) == 0
        && d.colored_pieces(c, Piece::Pawn) == 0 && has_no_pieces(d, enemy)
        && d.colored_pieces(enemy, Piece::Pawn) == 0
}

pub open spec fn small(s: int) -> bool {
    -8_000_000 <= s <= 8_000_000
}

/// Scales a winning score toward a draw by mating potential: by the
/// winner's potential when the defender keeps real material, by its square
/// otherwise, to 0 when the winner cannot mate at all. KR against K gets a
/// fixed winning score; opposite-coloured bishops keep 30% (50% with one
/// knight), rook and minor against rook 15% (40% with one pawn). Scores
/// within 10 of zero are left alone.
pub fn endgame_scale(d: &PosData, raw: Score) -> (r: Score)
    requires
        d.wf(),
        small(raw as int),
    ensures
        r == spec_endgame_scale(*d, raw as int),
        abs(r as int) <= abs(raw as int) + 1000,
{
    if iabs(raw) < 10 {
        return raw;
    }
    let wp = mating_potential(d, Color::White);
    let bp = mating_potential(d, Color::Black);
    let (win_p, def_p) = if raw > 0 {
        (wp, bp)
    } else {
        (bp, wp)
    };
    if win_p == 0 {
        return 0;
    }
    assert(0 <= win_p * win_p <= 65536) by (nonlinear_arith)
        requires
            0 <= win_p <= 256,
    ;
    let scale = if def_p > 128 {
        win_p
    } else {
        win_p * win_p / 256
    };
    if krk_side_exec(d, Color::White) {
        let ek = d.king(Color::Black);
        return 400 + 50 * (3 - edge_dist(ek));
    }
    if krk_side_exec(d, Color::Black) {
        let ek = d.king(Color::White);
        return -(400 + 50 * (3 - edge_dist(ek)));
    }
    assert(0 <= scale <= 256) by (nonlinear_arith)
        requires
            scale == (if def_p > 128 { win_p as int } else { win_p * win_p / 256 }),
            0 <= win_p <= 256,
    ;
    assert(abs(raw * scale) <= abs(raw as int) * 256) by (nonlinear_arith)
        requires
            0 <= scale <= 256,
    ;
    let scaled = raw * scale / 256;
    assert(abs(scaled as int) <= abs(raw as int)) by (nonlinear_arith)
        requires
            scaled == tdiv(raw * scale, 256),
            abs(raw * scale) <= abs(raw as int) * 256,
    ;
    let wb = d.colored_pieces(Color::White, Piece::Bishop);
    let bb_bish = d.colored_pieces(Color::Black, Piece::Bishop);
    if count(wb) == 1 && count(bb_bish) == 1 {
        let wsq = first_of_exec(d, Color::White, Piece::Bishop);
        let bsq = first_of_exec(d, Color::Black, Piece::Bishop);
        let w_light = ((wsq / 8) as i32 + (wsq % 8) as i32) % 2;
        let b_light = ((bsq / 8) as i32 + (bsq % 8) as i32) % 2;
        if w_light != b_light {
            let wn = count_of(d, Color::White, Piece::Knight);
            let bn = count_of(d, Color::Black, Piece::Knight);
            let wr = count_of(d, Color::White, Piece::Rook);
            let br = count_of(d, Color::Black, Piece::Rook);
            let wq = count_of(d, Color::White, Piece::Queen);
            let bq = count_of(d, Color::Black, Piece::Queen);
            if wn == 0 && bn == 0 && wr == 0 && br == 0 && wq == 0 && bq == 0 {
                return scaled * 77 / 256;
            }
            if (wn + bn) <= 1 && wr == 0 && br == 0 && wq == 0 && bq == 0 {
                return scaled * 128 / 256;
            }
        }
    }
    let w = rminor_vs_r_exec(d, Color::White);
    if let Some(f) = w {
        assert(abs(scaled * f) <= abs(scaled as int) * 100) by (nonlinear_arith)
            requires
                0 <= f <= 100,
        ;
        return scaled * f / 256;
    }
    let b = rminor_vs_r_exec(d, Color::Black);
    if let Some(f) = b {
        assert(abs(scaled * f) <= abs(scaled as int) * 100) by (nonlinear_arith)
            requires
                0 <= f <= 100,
        ;
        return scaled * f / 256;
    }
    scaled
}


/// The reward for driving the losing king to the edge and bringing the
/// winning king close, growing as the game phase empties.
pub open spec fn spec_endgame_progress(d: PosData, score: int, phase: int) -> int {
    let winning = if score > 0 {
        Color::White
    } else {
        Color::Black
    };
    let losing = winning.spec_other();
    let sg = sign(winning);
    let edge_bonus = sg * (3 - edge_distance(d.king_sq(losing))) * 10;
    let proximity_bonus = sg * (7 - cheb(d.king_sq(winning), d.king_sq(losing))) * 5;
    let eg_factor = (24 - phase) * 256 / 24;
    if phase > 12 || abs(score) < PAWN_VALUE {
        score
    } else {
        score + tdiv((edge_bonus + proximity_bonus) * eg_factor, 256)
    }
}

/// When one side is at least a pawn up in an endgame (phase at most 12),
/// adds up to 30 for the losing king's nearness to an edge and up to 35 for
/// the kings' closeness, in the winner's favour, scaled by how empty the
/// board is.
pub fn endgame_progress(d: &PosData, score: Score, phase: i32) -> (r: Score)
    requires
        d.wf(),
        0 <= phase <= 24,
        small(score as int),
    ensures
        r == spec_endgame_progress(*d, score as int, phase as int),
        abs(r as int) <= abs(score as int) + 100,
{
    if phase > 24 / 2 || iabs(score) < PAWN_VALUE {
        return score;
    }
    let winning_color = if score > 0 {
        Color::White
    } else {
        Color::Black
    };
    let losing_color = winning_color.other();
    let sg = sign_of(winning_color);
    let losing_king = d.king(losing_color);
    let winning_king = d.king(winning_color);
    let edge_bonus = sg * (3 - edge_dist(losing_king)) * 10;
    let king_dist = chebyshev(winning_king, losing_king);
    let proximity_bonus = sg * (7 - king_dist) * 5;
    let eg_factor = (24 - phase) * 256 / 24;
    assert(abs((edge_bonus + proximity_bonus) * eg_factor) <= 65 * 256) by (nonlinear_arith)
        requires
            abs(edge_bonus + proximity_bonus as int) <= 65,
            0 <= eg_factor <= 256,
    ;
    let progress = (edge_bonus + proximity_bonus) * eg_factor / 256;
    score + progress
}

/// Advancement of a pawn of colour `c` on square `s` (ranks from its start).
pub open spec fn pawn_adv(c: Color, s: int) -> int {
    if c == Color::White {
        rank(s) - 1
    } else {
        6 - rank(s)
    }
}

/// Distance of a pawn of colour `c` on `s` from its promotion rank.
pub open spec fn promo_dist(c: Color, s: int) -> int {
    if c == Color::White {
        7 - rank(s)
    } else {
        rank(s)
    }
}

/// The most advanced pawn of `pp` (colour `c`) among the squares below `n`,
/// as (advancement, square); the lowest such square wins ties.
pub open spec fn most_advanced(pp: u64, c: Color, n: int) -> (int, int)
    decreases n,
{
    if n <= 0 {
        (-1, 0)
    } else {
        let prev = most_advanced(pp, c, n - 1);
        if bit(pp, (n - 1) as u8) && pawn_adv(c, n - 1) > prev.0 {
            (pawn_adv(c, n - 1), n - 1)
        } else {
            prev
        }
    }
}

/// The pawn of `pp` (colour `c`) closest to promotion among the squares
/// below `n`, as (distance, square); the lowest such square wins ties.
pub open spec fn closest_to_promotion(pp: u64, c: Color, n: int) -> (int, int)
    decreases n,
{
    if n <= 0 {
        (8, 0)
    } else {
        let prev = closest_to_promotion(pp, c, n - 1);
        if bit(pp, (n - 1) as u8) && promo_dist(c, n - 1) < prev.0 {
            (promo_dist(c, n - 1), n - 1)
        } else {
            prev
        }
    }
}

/// Rook against pawns: the rook side's only piece is one rook, the pawn side
/// has only pawns.
pub open spec fn rook_vs_pawns(d: PosData, rc: Color) -> bool {
    let pc = rc.spec_other();
    &&& cnt(d, rc, Piece::Rook) == 1
    &&& d.colored(rc, Piece::Queen) == 0
    &&& d.colored(rc, Piece::Knight) == 0
    &&& d.colored(rc, Piece::Bishop) == 0
    &&& d.colored(rc, Piece::Pawn) == 0
    &&& no_pieces(d, pc)
    &&& d.colored(pc, Piece::Pawn) != 0
}

/// The rook-against-pawns adjustment for rook side `rc`.
pub open spec fn rook_vs_pawns_score(d: PosData, rc: Color, score: int) -> int {
    let pc = rc.spec_other();
    let best = most_advanced(d.colored(pc, Piece::Pawn), pc, 64);
    let pf = file(best.1);
    let promo = if pc == Color::White {
        56 + pf
    } else {
        pf
    };
    let rk_dist = cheb(d.king_sq(rc), promo);
    let pawn_dist = promo_dist(pc, best.1);
    if !rook_vs_pawns(d, rc) || best.0 < 0 {
        score
    } else if rk_dist <= pawn_dist + 1 {
        clamp(tdiv(score, 10), -50, 50)
    } else if best.0 >= 4 {
        tdiv(score * 4, 10)
    } else {
        tdiv(score, 4)
    }
}

/// Rook and pawns against rook, for `strong`.
pub open spec fn rook_pawn_vs_rook(d: PosData, strong: Color) -> bool {
    let weak = strong.spec_other();
    &&& cnt(d, strong, Piece::Rook) == 1
    &&& d.colored(strong, Piece::Pawn) != 0
    &&& cnt(d, weak, Piece::Rook) == 1
    &&& d.colored(strong, Piece::Queen) == 0 && d.colored(weak, Piece::Queen) == 0
    &&& d.colored(strong, Piece::Knight) == 0 && d.colored(weak, Piece::Knight) == 0
    &&& d.colored(strong, Piece::Bishop) == 0 && d.colored(weak, Piece::Bishop) == 0
    &&& d.colored(weak, Piece::Pawn) == 0
}

/// The Lucena / Philidor adjustment for `strong` in rook and pawn against
/// rook.
pub open spec fn rook_pawn_score(d: PosData, strong: Color, score: int) -> int {
    let weak = strong.spec_other();
    let sg = sign(strong);
    let sk = d.king_sq(strong);
    let wk = d.king_sq(weak);
    let best = closest_to_promotion(d.colored(strong, Piece::Pawn), strong, 64);
    let pf = file(best.1);
    let pr = rank(best.1);
    let promo = if strong == Color::White {
        56 + pf
    } else {
        pf
    };
    let wk_dist = cheb(wk, promo);
    let adv = if strong == Color::White {
        pr - 1
    } else {
        6 - pr
    };
    let cutoff = abs(file(wk) - pf);
    let king_rank_ok = if strong == Color::White {
        rank(sk) >= pr
    } else {
        rank(sk) <= pr
    };
    let king_in_front = king_rank_ok && abs(file(sk) - pf) <= 1;
    let barrier: int = if strong == Color::White {
        5
    } else {
        2
    };
    let wr_sq = first_of(d, weak, Piece::Rook);
    if !rook_pawn_vs_rook(d, strong) {
        score
    } else if adv >= 5 && king_in_front && cutoff >= 1 {
        score + sg * (200 + 50 * (adv - 4) + 30 * cutoff)
    } else if adv >= 4 && cheb(sk, promo) <= 2 && wk_dist >= 3 {
        score + sg * (100 + 30 * (adv - 3))
    } else if wk_dist <= 1 && adv <= 3 && rank(wr_sq) == barrier {
        tdiv(score, 5)
    } else if wk_dist <= 1 && adv <= 3 {
        tdiv(score, 2)
    } else {
        score
    }
}

pub open spec fn spec_rook_endgame_geometry(d: PosData, score: int) -> int {
    let s1 = rook_vs_pawns_score(d, Color::White, score);
    let s2 = rook_vs_pawns_score(d, Color::Black, s1);
    let s3 = rook_pawn_score(d, Color::White, s2);
    rook_pawn_score(d, Color::Black, s3)
}

fn most_advanced_exec(pp: u64, c: Color) -> (r: (i32, u8))
    ensures
        r.0 == most_advanced(pp, c, 64).0,
        r.1 == most_advanced(pp, c, 64).1,
        r.1 < 64,
        -1 <= r.0 <= 7,
{
    let mut best_adv: i32 = -1;
    let mut best_sq: u8 = 0;
    let mut s: u8 = 0;
    while s < 64
        invariant
            s <= 64,
            best_adv == most_advanced(pp, c, s as int).0,
            best_sq == most_advanced(pp, c, s as int).1,
            best_sq < 64,
            -1 <= best_adv <= 7,
        decreases 64 - s,
    {
        if crate::bits::has(pp, s) {
            let adv = if c == Color::White {
                (s / 8) as i32 - 1
            } else {
                6 - (s / 8) as i32
            };
            if adv > best_adv {
                best_adv = adv;
                best_sq = s;
            }
        }
        s = s + 1;
    }
    (best_adv, best_sq)
}

fn closest_to_promotion_exec(pp: u64, c: Color) -> (r: (i32, u8))
    ensures
        r.0 == closest_to_promotion(pp, c, 64).0,
        r.1 == closest_to_promotion(pp, c, 64).1,
        r.1 < 64,
        0 <= r.0 <= 8,
{
    let mut best_dist: i32 = 8;
    let mut best_sq: u8 = 0;
    let mut s: u8 = 0;
    while s < 64
        invariant
            s <= 64,
            best_dist == closest_to_promotion(pp, c, s as int).0,
            best_sq == closest_to_promotion(pp, c, s as int).1,
            best_sq < 64,
            0 <= best_dist <= 8,
        decreases 64 - s,
    {
        if crate::bits::has(pp, s) {
            let dd = if c == Color::White {
                7 - (s / 8) as i32
            } else {
                (s / 8) as i32
            };
            if dd < best_dist {
                best_dist = dd;
                best_sq = s;
            }
        }
        s = s + 1;
    }
    (best_dist, best_sq)
}

fn rook_vs_pawns_exec(d: &PosData, rc: Color, score: Score) -> (r: Score)
    requires
        d.wf(),
        -8_100_000 <= score <= 8_100_000,
    ensures
        r == rook_vs_pawns_score(*d, rc, score as int),
        abs(r as int) <= abs(score as int),
{
    let pc = rc.other();
    if count_of(d, rc, Piece::Rook) != 1 {
        return score;
    }
    if d.colored_pieces(rc, Piece::Queen) != 0 || d.colored_pieces(rc, Piece::Knight) != 0
        || d.colored_pieces(rc, Piece::Bishop) != 0 || d.colored_pieces(rc, Piece::Pawn) != 0 {
        return score;
    }
    if !has_no_pieces(d, pc) {
        return score;
    }
    let pp = d.colored_pieces(pc, Piece::Pawn);
    if pp == 0 {
        return score;
    }
    let rk = d.king(rc);
    let (best_adv, best_sq) = most_advanced_exec(pp, pc);
    if best_adv < 0 {
        return score;
    }
    let pf = best_sq % 8;
    let promo = if pc == Color::White {
        56 + pf
    } else {
        pf
    };
    let rk_dist = chebyshev(rk, promo);
    let pawn_dist = if pc == Color::White {
        7 - (best_sq / 8) as i32
    } else {
        (best_sq / 8) as i32
    };
    if rk_dist <= pawn_dist + 1 {
        iclamp(score / 10, -50, 50)
    } else if best_adv >= 4 {
        score * 4 / 10
    } else {
        score / 4
    }
}

fn rook_pawn_exec(d: &PosData, strong: Color, score: Score) -> (r: Score)
    requires
        d.wf(),
        -8_100_000 <= score <= 8_102_000,
    ensures
        r == rook_pawn_score(*d, strong, score as int),
        abs(r as int) <= abs(score as int) + 600,
{
    let weak = strong.other();
    let sg = sign_of(strong);
    let sr = d.colored_pieces(strong, Piece::Rook);
    let sp = d.colored_pieces(strong, Piece::Pawn);
    let wr = d.colored_pieces(weak, Piece::Rook);
    if !(count(sr) == 1 && sp != 0 && count(wr) == 1) {
        return score;
    }
    if d.colored_pieces(strong, Piece::Queen) != 0 || d.colored_pieces(weak, Piece::Queen) != 0
        || d.colored_pieces(strong, Piece::Knight) != 0 || d.colored_pieces(weak, Piece::Knight)
        != 0 || d.colored_pieces(strong, Piece::Bishop) != 0 || d.colored_pieces(
        weak,
        Piece::Bishop,
    ) != 0 {
        return score;
    }
    if d.colored_pieces(weak, Piece::Pawn) != 0 {
        return score;
    }
    let sk = d.king(strong);
    let wk = d.king(weak);
    let (_best_dist, best_sq) = closest_to_promotion_exec(sp, strong);
    let pf = (best_sq % 8) as i32;
    let pr = (best_sq / 8) as i32;
    let promo = if strong == Color::White {
        (56 + pf) as u8
    } else {
        pf as u8
    };
    let wk_dist = chebyshev(wk, promo);
    let adv = if strong == Color::White {
        pr - 1
    } else {
        6 - pr
    };
    let cutoff = iabs((wk % 8) as i32 - pf);
    let king_rank_ok = if strong == Color::White {
        (sk / 8) as i32 >= pr
    } else {
        (sk / 8) as i32 <= pr
    };
    let king_file_near = iabs((sk % 8) as i32 - pf) <= 1;
    let king_in_front = king_rank_ok && king_file_near;
    if adv >= 5 && king_in_front && cutoff >= 1 {
        assert(-800 <= sg * (200 + 50 * (adv - 4) + 30 * cutoff) <= 800) by (nonlinear_arith)
            requires
                sg == 1 || sg == -1,
                5 <= adv <= 7,
                1 <= cutoff <= 7,
        ;
        score + sg * (200 + 50 * (adv - 4) + 30 * cutoff)
    } else if adv >= 4 && chebyshev(sk, promo) <= 2 && wk_dist >= 3 {
        assert(-400 <= sg * (100 + 30 * (adv - 3)) <= 400) by (nonlinear_arith)
            requires
                sg == 1 || sg == -1,
                4 <= adv <= 7,
        ;
        score + sg * (100 + 30 * (adv - 3))
    } else if wk_dist <= 1 {
        let wr_sq = first_of_exec(d, weak, Piece::Rook);
        let barrier: i32 = if strong == Color::White {
            5
        } else {
            2
        };
        if adv <= 3 && (wr_sq / 8) as i32 == barrier {
            score / 5
        } else if adv <= 3 {
            score / 2
        } else {
            score
        }
    } else {
        score
    }
}

/// Rook-endgame geometry. Rook against pawns: drawn (a tenth, within 50)
/// when the rook's king reaches the most advanced pawn's promotion square in
/// time, else 40% or 25% of the score. Rook and pawn against rook: a bonus
/// for a Lucena-like set-up (advanced pawn, king in front, defending king cut
/// off) or a near-promotion with the defending king away; a fifth (Philidor
/// defence) or half of the score when the defending king holds the
/// promotion square against a pawn not yet past its fourth rank.
pub fn rook_endgame_geometry(d: &PosData, score: Score) -> (r: Score)
    requires
        d.wf(),
        -8_100_000 <= score <= 8_100_000,
    ensures
        r == spec_rook_endgame_geometry(*d, score as int),
        abs(r as int) <= abs(score as int) + 1200,
{
    let s1 = rook_vs_pawns_exec(d, Color::White, score);
    let s2 = rook_vs_pawns_exec(d, Color::Black, s1);
    let s3 = rook_pawn_exec(d, Color::White, s2);
    rook_pawn_exec(d, Color::Black, s3)
}

} // verus!
