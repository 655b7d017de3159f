//! The alpha-beta searcher: iterative deepening with aspiration windows,
//! principal variation search, transposition table, pruning, reductions,
//! extensions and a quiescence search, over positions of [`crate::chess`].
use vstd::prelude::*;
use crate::chess::{
    knight_attacks, bishop_attacks, rook_attacks, pawn_attacks,
    Move, PosData, Position, GameStatus, legal_moves_of, after_move, after_null_move, legal_moves, play,
    null_move, status, knight_moves, bishop_moves, rook_moves, pawn_attack_moves, move_to_uci,
    uci_text,
};
use crate::types::{
    Color, Piece, Score, spec_piece_value, piece_value, score_to_tt, score_from_tt, MATE_SCORE,
    DRAW_SCORE, INF_SCORE, MAX_PLY, PAWN_VALUE, QUEEN_VALUE, TEMPO, V_CAP_REALIZED, ASP_WINDOW, PROBCUT_MARGIN, RFP_IMPROVING,
    RFP_NOT_IMPROVING, FUT_IMPROVING, FUT_NOT_IMPROVING, BRANCHING_FACTOR,
};
use crate::tt::{TranspositionTable, Bound, TtEntry, store_result, slot, probe_result};
use crate::eval::{
    Evaluator, PawnEntry, evaluate, EVAL_BOUND, spec_evaluate, pawn_score_with, pawn_key, early_exit,
    pawn_table_after,
};
use crate::pawns::spec_pawn_structure;
use crate::see::{see, spec_see, capture, is_capture, en_passant_capture, is_en_passant_capture, value_or};
use crate::geom::{min, max, clamp, tdiv, imin, imax, iclamp};
use crate::bits::{bit, has, count};

verus! {

#[verifier::external_type_specification]
#[verifier::external_body]
pub struct ExInstant(std::time::Instant);

/// `std::time::Instant::now`. Nothing is promised of the instant.
#[verifier::external_body]
fn now() -> std::time::Instant {
    std::time::Instant::now()
}

/// `std::time::Instant::elapsed`: the time passed since `start`. The clock
/// decides, so nothing is promised of the value.
#[verifier::external_body]
fn elapsed_since(start: &std::time::Instant) -> std::time::Duration {
    start.elapsed()
}

/// `std::time::Duration::as_millis`: the whole milliseconds of `d`. A
/// duration is opaque here, so nothing is stated of the value.
#[verifier::external_body]
fn whole_millis(d: &std::time::Duration) -> u128 {
    d.as_millis()
}

/// Whole milliseconds since `start`, truncated to 64 bits.
fn elapsed_ms(start: &std::time::Instant) -> u64 {
    let d = elapsed_since(start);
    let ms = whole_millis(&d);
    ms as u64
}

/// Bound on every score the search returns or stores in its table.
pub const SCORE_LIMIT: Score = 8_000_000;

/// Bound on the window and the result of the quiescence search.
pub const QUIESCE_LIMIT: Score = 5_000_000;

/// Bound on `ply` plus the search budget of a node (see [`budget`]): the
/// plies of a line never outgrow the `MAX_PLY` slots of the search stacks.
pub open spec fn ply_budget() -> int {
    129
}

/// Deepest iteration a search may be asked for: the budget of the root is
/// the depth plus twice the six extension steps.
pub const MAX_SEARCH_DEPTH: i32 = 117;

/// Extensions a line may collect through check, leaf-check, recapture,
/// singular and pawn-push extensions.
pub const MAX_EXT: i32 = 3;

/// What is left to search below a node: its depth (when positive) plus two
/// for each extension it may still take. Every child has less.
pub open spec fn budget(depth: int, extensions: int) -> int {
    max(depth, 0) + 2 * (6 - extensions)
}

/// How far a window at `ply` may reach: the root window is within the
/// infinite score, and each level may widen it by the probcut margin and one
/// more, and a re-search at the same ply by one.
pub open spec fn window_limit(ply: int, b: int) -> int {
    INF_SCORE + 101 * ply + 4 * (ply_budget() - ply - b)
}

/// `line` is a sequence of moves on the board, each legal in the position
/// the previous ones lead to from `p`.
pub open spec fn legal_line(p: PosData, line: Seq<Move>) -> bool
    decreases line.len(),
{
    line.len() == 0 || (legal_moves_of(p).contains(line[0]) && line[0].wf() && legal_line(
        after_move(p, line[0]),
        line.drop_first(),
    ))
}

/// A legal move followed by a legal line from the position it leads to is
/// a legal line.
pub proof fn lemma_legal_line_cons(p: PosData, mv: Move, rest: Seq<Move>)
    requires
        legal_moves_of(p).contains(mv),
        mv.wf(),
        legal_line(after_move(p, mv), rest),
    ensures
        legal_line(p, seq![mv] + rest),
{
    assert((seq![mv] + rest).drop_first() =~= rest);
    assert((seq![mv] + rest)[0] == mv);
}

/// A non-empty legal line starts with a legal move.
pub proof fn lemma_legal_line_first(p: PosData, line: Seq<Move>)
    requires
        legal_line(p, line),
        line.len() > 0,
    ensures
        legal_moves_of(p).contains(line[0]),
        line[0].wf(),
{
}

/// Some of the first `n` entries of `perm` is `j`.
pub open spec fn hits(perm: Seq<int>, n: int, j: int) -> bool {
    exists|k: int| 0 <= k < n && #[trigger] perm[k] == j
}

/// Scores of `s` in non-increasing order.
pub open spec fn sorted_desc(s: Seq<(i32, usize)>) -> bool {
    forall|i: int, j: int| 0 <= i < j < s.len() ==> s[i].0 >= s[j].0
}

/// The first position at or after `p` in `out` whose score is below `s`
/// (the length of `out` if there is none).
pub open spec fn first_below(out: Seq<(i32, usize)>, s: i32, p: int) -> int
    decreases out.len() - p,
{
    if p >= out.len() || p < 0 {
        p
    } else if out[p].0 < s {
        p
    } else {
        first_below(out, s, p + 1)
    }
}

/// The first `n` entries of `v` sorted by insertion: each entry goes before
/// the first one already placed with a lower score, so entries of equal
/// score keep their order.
pub open spec fn sorted_prefix(v: Seq<(i32, usize)>, n: int) -> Seq<(i32, usize)>
    decreases n,
{
    if n <= 0 {
        Seq::empty()
    } else {
        let o = sorted_prefix(v, n - 1);
        o.insert(first_below(o, v[n - 1].0, 0), v[n - 1])
    }
}

/// Sorts scored entries by decreasing score; entries of equal score keep
/// their order. The result holds the same entries.
pub fn sort_desc(v: Vec<(i32, usize)>) -> (r: Vec<(i32, usize)>)
    ensures
        r@ == sorted_prefix(v@, v@.len() as int),
        r@.len() == v@.len(),
        sorted_desc(r@),
        forall|k: int| 0 <= k < r@.len() ==> v@.contains(#[trigger] r@[k]),
        forall|j: int| 0 <= j < v@.len() ==> r@.contains(#[trigger] v@[j]),
{
    let mut out: Vec<(i32, usize)> = Vec::new();
    let ghost mut perm: Seq<int> = Seq::empty();
    let mut i: usize = 0;
    while i < v.len()
        invariant
            i <= v@.len(),
            out@.len() == i,
            perm.len() == i,
            sorted_desc(out@),
            forall|k: int| 0 <= k < i ==> 0 <= #[trigger] perm[k] < i && out@[k] == v@[perm[k]],
            forall|j: int| 0 <= j < i ==> #[trigger] hits(perm, i as int, j),
            out@ == sorted_prefix(v@, i as int),
        decreases v@.len() - i,
    {
        let x = v[i];
        let mut p: usize = 0;
        while p < out.len() && out[p].0 >= x.0
            invariant
                p <= out@.len(),
                forall|q: int| 0 <= q < p ==> out@[q].0 >= x.0,
                first_below(out@, x.0, 0) == first_below(out@, x.0, p as int),
            decreases out@.len() - p,
        {
            proof {
                assert(first_below(out@, x.0, p as int) == first_below(out@, x.0, p + 1));
            }
            p = p + 1;
        }
        assert(first_below(out@, x.0, p as int) == p);
        let ghost old_out = out@;
        let ghost old_perm = perm;
        out.insert(p, x);
        proof {
            perm = perm.insert(p as int, i as int);
            assert forall|a: int, b: int| 0 <= a < b < out@.len() implies out@[a].0 >= out@[b].0 by {
                if b < p {
                } else if b == p {
                } else if a < p {
                    assert(out@[b] == old_out[b - 1]);
                    if p < old_out.len() {
                        assert(old_out[p as int].0 < x.0);
                        if b - 1 > p {
                            assert(old_out[p as int].0 >= old_out[b - 1].0);
                        }
                    }
                } else if a == p {
                    assert(old_out[p as int].0 < x.0);
                    if b - 1 > p {
                        assert(old_out[p as int].0 >= old_out[b - 1].0);
                    }
                } else {
                    assert(out@[a] == old_out[a - 1]);
                    assert(out@[b] == old_out[b - 1]);
                }
            }
            assert forall|k: int| 0 <= k < i + 1 implies 0 <= #[trigger] perm[k] < i + 1 && out@[k]
                == v@[perm[k]] by {
                if k < p {
                    assert(perm[k] == old_perm[k]);
                } else if k > p {
                    assert(perm[k] == old_perm[k - 1]);
                }
            }
            assert forall|j: int| 0 <= j < i + 1 implies #[trigger] hits(perm, i + 1, j) by {
                if j == i {
                    assert(perm[p as int] == j);
                } else {
                    assert(hits(old_perm, i as int, j));
                    let k0 = choose|k: int| 0 <= k < i && #[trigger] old_perm[k] == j;
                    if k0 < p {
                        assert(perm[k0] == j);
                    } else {
                        assert(perm[k0 + 1] == j);
                    }
                }
            }
        }
        i = i + 1;
    }
    proof {
        assert forall|k: int| 0 <= k < out@.len() implies v@.contains(#[trigger] out@[k]) by {
            assert(v@[perm[k]] == out@[k]);
        }
        assert forall|j: int| 0 <= j < v@.len() implies out@.contains(#[trigger] v@[j]) by {
            assert(hits(perm, i as int, j));
            let k = choose|k: int| 0 <= k < i && #[trigger] perm[k] == j;
            assert(out@[k] == v@[j]);
        }
    }
    out
}

/// Whether a quiet move is pruned before it is played (see
/// [`Searcher::pruned_quiet`]), with `hist` the side's history table.
pub open spec fn spec_pruned_quiet(
    hist: Seq<i16>,
    mv: Move,
    i: int,
    depth: int,
    ply: int,
    color_idx: int,
    quiets_tried: int,
    quiet: bool,
    improving: bool,
    is_pv: bool,
    in_check: bool,
) -> bool {
    let shallow = !is_pv && !in_check && quiet && ply > 0 && i > 0;
    ||| shallow && depth <= 3 && quiets_tried >= (if improving {
        3 + depth * depth
    } else {
        2 + depth * depth / 2
    })
    ||| shallow && depth <= 4 && hist[pair_slot(color_idx, mv.from as int, mv.to as int)] < -(depth
        * 1024)
}

/// The recapture extension plus the pawn-push extension of a move (see
/// [`Searcher::extension_for`]).
pub open spec fn spec_extension(
    d: PosData,
    mv: Move,
    depth: int,
    extensions: int,
    is_cap: bool,
    recapture_sq: Option<u8>,
) -> int {
    (if is_cap && recapture_sq == Some(mv.to) && depth <= MAX_EXT + 2 && extensions < MAX_EXT {
        1int
    } else {
        0int
    }) + (if extensions < MAX_EXT && !is_cap && d.piece_at(mv.from) == Some(Piece::Pawn) {
        let to_rank = mv.to / 8;
        let promo_dist = if d.side_to_move == Color::White {
            7 - to_rank
        } else {
            to_rank as int
        };
        if promo_dist <= 1 {
            1int
        } else {
            0int
        }
    } else {
        0int
    })
}

/// The reduction of a move (see [`Searcher::reduction_for`]), with `hist`
/// and `cont` the history and continuation history tables and `prev` the
/// previous move's piece and square.
pub open spec fn spec_reduction(
    hist: Seq<i16>,
    cont: Seq<i16>,
    prev: (usize, usize),
    d: PosData,
    mv: Move,
    i: int,
    depth: int,
    ply: int,
    color_idx: int,
    improving: bool,
    is_pv: bool,
    in_check: bool,
    gives_check: bool,
    is_cap: bool,
) -> int {
    let late = if ply > 0 && i >= 3 && depth >= 3 && !gives_check && !is_cap && mv.promotion is None
        && !in_check {
        let base = crate::lmr::lmr_steps(depth, min(i + 1, 255), 14) + (if !improving {
            1int
        } else {
            0int
        });
        let base2 = if is_pv {
            max(base - 1, 0)
        } else {
            base
        };
        let h = hist[pair_slot(color_idx, mv.from as int, mv.to as int)] as int;
        let ch = match d.piece_at(mv.from) {
            Some(p) => cont[cont_slot(prev.0 as int, prev.1 as int, p.spec_index(), mv.to as int)]
                as int,
            None => 0,
        };
        clamp(base2 - tdiv(h + ch, 8192), 0, depth - 2)
    } else {
        0
    };
    if ply > 0 && is_cap && !gives_check && !in_check {
        max(late, spec_losing_capture_reduction(d, mv, depth, i))
    } else {
        late
    }
}

/// Reverse futility pruning applies: not in check, not at the root, not
/// in a PV node, at depth 3 (4 when not improving) or less, and the static
/// evaluation less the margin per ply still reaches beta.
pub open spec fn rfp_cut(
    d: PosData,
    depth: int,
    alpha: int,
    beta: int,
    ply: int,
    static_eval: int,
    improving: bool,
) -> bool {
    &&& d.checkers == 0
    &&& depth <= (if improving {
        3int
    } else {
        4int
    })
    &&& ply > 0
    &&& !(beta - alpha > 1)
    &&& static_eval - (if improving {
        RFP_IMPROVING as int
    } else {
        RFP_NOT_IMPROVING as int
    }) * depth >= beta
}

/// A capture that wins material by exchange.
pub open spec fn winning_capture(d: PosData, m: Move) -> bool {
    m.wf() && capture(d, m) && spec_see(d, m) > 0
}

/// Some legal move of `d` is a capture that wins material by exchange.
pub open spec fn has_winning_capture(d: PosData) -> bool {
    exists|j: int|
        0 <= j < legal_moves_of(d).len() && #[trigger] winning_capture(d, legal_moves_of(d)[j])
}

/// `m` checkmates.
pub open spec fn mates(d: PosData, m: Move) -> bool {
    legal_moves_of(after_move(d, m)).len() == 0 && after_move(d, m).checkers != 0
}

/// The score a position without legal moves gets at `ply`: mated or drawn.
pub open spec fn terminal_score(d: PosData, ply: int) -> int {
    if d.checkers != 0 {
        -(MATE_SCORE - ply)
    } else {
        DRAW_SCORE as int
    }
}

/// Bound on the root-relative value of a score a search finds: the
/// evaluation bound plus the deepest ply (mate scores lie well inside it).
pub open spec fn value_limit() -> int {
    EVAL_BOUND + ply_budget()
}

/// Bound on a value a search finds `ply` plies from the root.
pub open spec fn ply_value_limit(ply: int) -> int {
    value_limit() - ply
}

/// `r` is a result a search with window `(alpha, beta)` can give at a node
/// whose values are bounded by `lim`: beyond the bound only as a fail-high
/// no lower than `beta` or a fail-low no higher than `alpha`.
pub open spec fn window_result(r: int, alpha: int, beta: int, lim: int) -> bool {
    min(beta, -lim) <= r <= max(alpha, lim)
}

/// A table entry's score is within the root-relative value bound on the
/// sides its bound speaks for.
pub open spec fn entry_in_limit(e: TtEntry) -> bool {
    &&& (e.bound is Upper || e.bound is Exact) ==> -value_limit() <= e.score
    &&& (e.bound is Lower || e.bound is Exact) ==> e.score <= value_limit()
}

/// Whether the table holds an entry for `key` at least `depth` deep, so
/// that a search of that position may end at the probe.
pub open spec fn table_may_cut(t: TranspositionTable, key: u64, depth: int) -> bool {
    probe_result(t.entries(), t.mask(), key) matches Some(e) && e.depth >= depth
}

/// Some legal move of `d` captures or promotes and mates.
pub open spec fn has_tactical_mate(d: PosData) -> bool {
    exists|j: int|
        0 <= j < legal_moves_of(d).len() && tactical(d, #[trigger] legal_moves_of(d)[j]) && mates(
            d,
            legal_moves_of(d)[j],
        )
}

/// Some legal move of `d` mates, and the position it leads to did not
/// occur before the root in `history`.
pub open spec fn has_new_mate(d: PosData, history: Seq<u64>) -> bool {
    exists|j: int|
        0 <= j < legal_moves_of(d).len() && mates(d, #[trigger] legal_moves_of(d)[j]) && occurrences(
            history,
            after_move(d, legal_moves_of(d)[j]).hash,
        ) == 0
}

/// Some entry of `cands` is `j`.
pub open spec fn has_index(cands: Seq<usize>, j: int) -> bool {
    exists|q: int| 0 <= q < cands.len() && cands[q] == j
}

/// A vector of `n` copies of `x`.
fn filled<T: Copy>(x: T, n: usize) -> (r: Vec<T>)
    ensures
        r@.len() == n,
        forall|i: int| 0 <= i < n ==> r@[i] == x,
{
    let mut v: Vec<T> = Vec::new();
    while v.len() < n
        invariant
            v@.len() <= n,
            forall|i: int| 0 <= i < v@.len() ==> v@[i] == x,
        decreases n - v@.len(),
    {
        v.push(x);
    }
    v
}

/// The outcome of a search.
pub struct SearchResult {
    pub best_move: Option<Move>,
    pub score: Score,
    pub depth: i32,
    pub nodes: u64,
    pub time_ms: u64,
    pub pv: Vec<Move>,
}

/// Search state: node count, transposition table, evaluator, the hashes of
/// the game before the root, and the move-ordering tables (killers per ply,
/// history and countermoves per side and squares, continuation history per
/// pair of piece and square).
pub struct Searcher {
    pub nodes: u64,
    pub tt: TranspositionTable,
    pub evaluator: Evaluator,
    root_history: Vec<u64>,
    killers: Vec<Option<Move>>,
    history: Vec<i16>,
    cont_history: Vec<i16>,
    countermove: Vec<Option<Move>>,
    move_stack: Vec<(usize, usize)>,
    hash_stack: Vec<u64>,
    eval_stack: Vec<Score>,
    start_time: std::time::Instant,
    time_limit_ms: u64,
    stop: bool,
}

/// `b` is `a` after some search work: still well formed, stopped if `a`
/// was and not stopped if `a` was not and has no time limit, with the same
/// time limit and game history.
pub closed spec fn follows(a: Searcher, b: Searcher) -> bool {
    &&& b.wf()
    &&& (a.stop ==> b.stop)
    &&& (a.time_limit_ms == u64::MAX && !a.stop ==> !b.stop)
    &&& b.time_limit_ms == a.time_limit_ms
    &&& b.root_history == a.root_history
}

/// Slot of the history or countermove entry of a side and a move's squares.
pub open spec fn pair_slot(c: int, from: int, to: int) -> int {
    (c * 64 + from) * 64 + to
}

/// Slot of the continuation history entry of a previous piece and square
/// and a current piece and square.
pub open spec fn cont_slot(pp: int, pt: int, p: int, t: int) -> int {
    ((pp * 64 + pt) * 6 + p) * 64 + t
}

/// The side whose answers to the previous move are recorded when `d` is to
/// move: the slot of the side that made that move's opponent, indexed 1 for
/// white to move and 0 for black.
pub open spec fn reply_side(d: PosData) -> int {
    if d.side_to_move == Color::White {
        1
    } else {
        0
    }
}

/// The killers after recording `mv` at `ply`: it becomes the first and the
/// old first the second, unless it is the first already; nothing changes
/// past the last ply.
pub open spec fn killers_after(k: Seq<Option<Move>>, mv: Move, ply: int) -> Seq<Option<Move>> {
    if ply >= MAX_PLY || k[2 * ply] == Some(mv) {
        k
    } else {
        k.update(2 * ply + 1, k[2 * ply]).update(2 * ply, Some(mv))
    }
}

/// `b` differs from `a` in the move-ordering tables only.
pub closed spec fn same_except_tables(a: Searcher, b: Searcher) -> bool {
    &&& b.nodes == a.nodes
    &&& b.tt == a.tt
    &&& b.evaluator == a.evaluator
    &&& b.root_history == a.root_history
    &&& b.move_stack == a.move_stack
    &&& b.hash_stack == a.hash_stack
    &&& b.eval_stack == a.eval_stack
    &&& b.start_time == a.start_time
    &&& b.time_limit_ms == a.time_limit_ms
    &&& b.stop == a.stop
}

impl Searcher {
    /// The tables have their sizes, the transposition table and evaluator
    /// are well formed, every stored score is within [`SCORE_LIMIT`], the
    /// history entries are within +-16384, and the move stack names pieces
    /// and squares.
    pub closed spec fn wf(&self) -> bool {
        &&& self.tt.wf()
        &&& self.evaluator.wf()
        &&& forall|i: int|
            0 <= i < self.tt.entries().len() ==> -SCORE_LIMIT <= (#[trigger] self.tt.entries()[i]).score
                <= SCORE_LIMIT
        &&& forall|i: int| 0 <= i < self.tt.entries().len() ==> entry_in_limit(#[trigger] self.tt.entries()[i])
        &&& self.killers@.len() == 2 * MAX_PLY
        &&& self.history@.len() == 8192
        &&& self.cont_history@.len() == 147456
        &&& forall|i: int| 0 <= i < 8192 ==> -16384 <= #[trigger] self.history@[i] <= 16384
        &&& forall|i: int| 0 <= i < 147456 ==> -16384 <= #[trigger] self.cont_history@[i] <= 16384
        &&& self.countermove@.len() == 8192
        &&& self.move_stack@.len() == MAX_PLY
        &&& forall|i: int|
            0 <= i < MAX_PLY ==> (#[trigger] self.move_stack@[i]).0 < 6 && self.move_stack@[i].1 < 64
        &&& self.hash_stack@.len() == MAX_PLY
        &&& self.eval_stack@.len() == MAX_PLY
    }

    /// The number of nodes searched.
    pub closed spec fn node_count(&self) -> u64 {
        self.nodes
    }

    /// The transposition table.
    pub closed spec fn table(&self) -> TranspositionTable {
        self.tt
    }

    /// Whether the search has run out of time.
    pub closed spec fn stopped(&self) -> bool {
        self.stop
    }

    /// The time limit of the current search in milliseconds, `u64::MAX`
    /// for none.
    pub closed spec fn time_limit(&self) -> u64 {
        self.time_limit_ms
    }

    /// The hashes of the positions of the game before the root.
    pub closed spec fn root_history(&self) -> Seq<u64> {
        self.root_history@
    }

    /// A searcher with a transposition table of about `tt_mb` megabytes and
    /// empty move-ordering tables.
    pub fn new(tt_mb: usize) -> (r: Self)
        requires
            tt_mb < 4096,
        ensures
            r.wf(),
            r.node_count() == 0,
            !r.stopped(),
            r.root_history() == Seq::<u64>::empty(),
            r.table().entries().len() == crate::tt::spec_next_power_of_two(
                (tt_mb * 1024 * 1024 / 24) as int,
            ),
            forall|i: int|
                0 <= i < r.table().entries().len() ==> r.table().entries()[i]
                    == crate::tt::empty_entry(),
    {
        let tt = TranspositionTable::new(tt_mb);
        Searcher {
            nodes: 0,
            tt,
            evaluator: Evaluator::new(),
            root_history: Vec::new(),
            killers: filled(None, 2 * MAX_PLY),
            history: filled(0i16, 8192),
            cont_history: filled(0i16, 147456),
            countermove: filled(None, 8192),
            move_stack: filled((0usize, 0usize), MAX_PLY),
            hash_stack: filled(0u64, MAX_PLY),
            eval_stack: filled(0i32, MAX_PLY),
            start_time: now(),
            time_limit_ms: u64::MAX,
            stop: false,
        }
    }

    /// Sets the hashes of the game's positions before the root, which count
    /// for repetitions.
    pub fn set_root_history(&mut self, history: Vec<u64>)
        requires
            old(self).wf(),
        ensures
            final(self).wf(),
            final(self).root_history() == history@,
            final(self).stopped() == old(self).stopped(),
    {
        self.root_history = history;
    }

    /// Sets the stop flag when the node count is a multiple of 4096 and the
    /// time limit has passed. Whether it has passed is the clock's to say.
    fn check_time(&mut self)
        requires
            old(self).wf(),
        ensures
            final(self).wf(),
            old(self).stop ==> final(self).stop,
            old(self).nodes & 4095 != 0 ==> final(self).stop == old(self).stop,
            old(self).time_limit_ms == u64::MAX ==> final(self).stop == old(self).stop,
            final(self).killers == old(self).killers,
            final(self).history == old(self).history,
            final(self).cont_history == old(self).cont_history,
            final(self).countermove == old(self).countermove,
            final(self).tt == old(self).tt,
            final(self).evaluator == old(self).evaluator,
            final(self).move_stack == old(self).move_stack,
            final(self).hash_stack == old(self).hash_stack,
            final(self).eval_stack == old(self).eval_stack,
            final(self).nodes == old(self).nodes,
            final(self).time_limit_ms == old(self).time_limit_ms,
            final(self).root_history == old(self).root_history,
            follows(*old(self), *final(self)),
    {
        if self.nodes & 4095 == 0 {
            if elapsed_ms(&self.start_time) > self.time_limit_ms {
                self.stop = true;
            }
        }
    }
}

/// `a * b` for a factor of at most 1000 and a depth-sized `b`.
pub fn scaled(a: i32, b: i32) -> (r: i32)
    requires
        0 <= a <= 1000,
        -200 <= b <= 200,
    ensures
        r == a * b,
        -200_000 <= r <= 200_000,
        0 <= b ==> 0 <= r,
        0 <= b <= 127 && a == b ==> r <= 16129,
{
    assert(-200_000 <= a * b <= 200_000) by (nonlinear_arith)
        requires
            0 <= a <= 1000,
            -200 <= b <= 200,
    ;
    assert(0 <= b ==> 0 <= a * b) by (nonlinear_arith)
        requires
            0 <= a,
    ;
    assert(0 <= b <= 127 && a == b ==> a * b <= 16129) by (nonlinear_arith);
    a * b
}

/// Whether side `c` has a knight, bishop, rook or queen.
pub open spec fn non_pawn_material(d: PosData, c: Color) -> bool {
    (d.colored(c, Piece::Knight) | d.colored(c, Piece::Bishop) | d.colored(c, Piece::Rook)
        | d.colored(c, Piece::Queen)) != 0
}

pub fn has_non_pawn_material(d: &PosData, c: Color) -> (r: bool)
    ensures
        r == non_pawn_material(*d, c),
{
    (d.colored_pieces(c, Piece::Knight) | d.colored_pieces(c, Piece::Bishop) | d.colored_pieces(
        c,
        Piece::Rook,
    ) | d.colored_pieces(c, Piece::Queen)) != 0
}

/// Value of what `mv` captures: the piece on its target, a pawn taken en
/// passant, or nothing.
pub open spec fn victim_value(d: PosData, mv: Move) -> int {
    match d.piece_at(mv.to) {
        Some(p) => spec_piece_value(p),
        None => if en_passant_capture(d, mv) {
            PAWN_VALUE as int
        } else {
            0
        },
    }
}

fn victim_value_exec(d: &PosData, mv: Move) -> (r: Score)
    requires
        mv.wf(),
    ensures
        r == victim_value(*d, mv),
        0 <= r <= 900,
{
    match d.piece_on(mv.to) {
        Some(p) => piece_value(p),
        None => if is_en_passant_capture(d, mv) {
            PAWN_VALUE
        } else {
            0
        },
    }
}

/// Ordering score of a capture or promotion: a base of 10000, sixteen times
/// its exchange value, four times the victim, the promotion piece, less an
/// eighth of the mover.
pub open spec fn spec_capture_score(d: PosData, mv: Move) -> int {
    10_000 + spec_see(d, mv) * 16 + victim_value(d, mv) * 4 + value_or(mv.promotion, 0) - value_or(
        d.piece_at(mv.from),
        0,
    ) / 8
}

pub fn capture_score(d: &PosData, mv: Move) -> (r: Score)
    requires
        mv.wf(),
    ensures
        r == spec_capture_score(*d, mv),
        -1_100_000 <= r <= 1_100_000,
{
    let victim = victim_value_exec(d, mv);
    let attacker = match d.piece_on(mv.from) {
        Some(p) => piece_value(p),
        None => 0,
    };
    let promo = match mv.promotion {
        Some(p) => piece_value(p),
        None => 0,
    };
    10_000 + see(d, mv) * 16 + victim * 4 + promo - attacker / 8
}

/// Extra reduction of a losing capture: from depth 3 and the fifth move on,
/// a capture that is no promotion and whose exchange loses at least the
/// larger of half the mover, the victim and a pawn is reduced by one, plus a
/// quarter of the depth, plus its loss in pawns up to two, within 1 and
/// `depth - 2`.
pub open spec fn spec_losing_capture_reduction(d: PosData, mv: Move, depth: int, idx: int) -> int {
    let see_loss = -spec_see(d, mv);
    if depth < 3 || idx < 4 || mv.promotion is Some || see_loss <= 0 {
        0
    } else {
        let attacker = max(value_or(d.piece_at(mv.from), PAWN_VALUE as int), PAWN_VALUE as int);
        let margin = max(max(attacker / 2, victim_value(d, mv)), PAWN_VALUE as int);
        if see_loss < margin {
            0
        } else {
            clamp(1 + depth / 4 + min(see_loss / 100, 2), 1, depth - 2)
        }
    }
}

pub fn losing_capture_reduction(d: &PosData, mv: Move, depth: i32, move_index: usize) -> (r: i32)
    requires
        mv.wf(),
        depth < 1000,
    ensures
        r == spec_losing_capture_reduction(*d, mv, depth as int, move_index as int),
        0 <= r <= max(depth - 2, 0),
{
    if depth < 3 || move_index < 4 || mv.promotion.is_some() {
        return 0;
    }
    let see_loss = -see(d, mv);
    if see_loss <= 0 {
        return 0;
    }
    let attacker = imax(
        match d.piece_on(mv.from) {
            Some(p) => piece_value(p),
            None => PAWN_VALUE,
        },
        PAWN_VALUE,
    );
    let victim = victim_value_exec(d, mv);
    let material_margin = imax(imax(attacker / 2, victim), PAWN_VALUE);
    if see_loss < material_margin {
        return 0;
    }
    let depth_pressure = depth / 4;
    let loss_pressure = imin(see_loss / PAWN_VALUE, 2);
    iclamp(1 + depth_pressure + loss_pressure, 1, depth - 2)
}

/// History update with gravity: the entry moves toward the bonus in
/// proportion to how far it is from saturation, within +-16384.
pub open spec fn spec_gravity(val: int, bonus: int) -> int {
    clamp(val + bonus - tdiv(val * bonus, 16384), -16384, 16384)
}

pub fn gravity(val: i16, bonus: i32) -> (r: i16)
    requires
        0 <= bonus <= 20_000,
    ensures
        r == spec_gravity(val as int, bonus as int),
        -16384 <= r <= 16384,
{
    let v = val as i32;
    assert(-32768 * 20_000 <= v * bonus <= 32767 * 20_000) by (nonlinear_arith)
        requires
            -32768 <= v <= 32767,
            0 <= bonus <= 20_000,
    ;
    let nv = v + bonus - v * bonus / 16384;
    iclamp(nv, -16384, 16384) as i16
}

/// The hash at `j` same-side steps back from `ply` on the search path.
pub open spec fn path_hash(stack: Seq<u64>, ply: int, j: int) -> u64 {
    stack[ply - 2 * j]
}

/// `key` occurs on the search path an even number of plies (at least two)
/// before `ply`.
pub open spec fn repeats_on_path(stack: Seq<u64>, key: u64, ply: int) -> bool {
    exists|j: int| 1 <= j && 2 * j <= ply && #[trigger] path_hash(stack, ply, j) == key
}

impl Searcher {
    /// Whether `key` repeats a position of the same side to move on the
    /// search path, or any position of the game before the root.
    #[verifier::rlimit(100)]
    #[verifier::spinoff_prover]
    fn is_repetition(&self, key: u64, ply: usize) -> (r: bool)
        requires
            self.wf(),
            ply < MAX_PLY,
        ensures
            r == (repeats_on_path(self.hash_stack@, key, ply as int) || self.root_history@.contains(
                key,
            )),
    {
        let mut i: usize = ply;
        while i >= 2
            invariant
                ply < MAX_PLY,
                i <= ply,
                (ply - i) % 2 == 0,
                self.hash_stack@.len() == MAX_PLY,
                forall|j: int|
                    1 <= j && 2 * j <= ply - i ==> #[trigger] path_hash(
                        self.hash_stack@,
                        ply as int,
                        j,
                    ) != key,
            decreases i,
        {
            i = i - 2;
            if self.hash_stack[i] == key {
                let ghost j = (ply - i) as int / 2;
                assert(2 * j == ply - i);
                assert(path_hash(self.hash_stack@, ply as int, j) == key);
                return true;
            }
        }
        assert(!repeats_on_path(self.hash_stack@, key, ply as int)) by {
            assert forall|j: int| 1 <= j && 2 * j <= ply implies #[trigger] path_hash(
                self.hash_stack@,
                ply as int,
                j,
            ) != key by {
                if 2 * j > ply - i {
                    assert((ply - 2 * j) % 2 == i % 2);
                    assert(false);
                }
            }
        }
        let mut k: usize = 0;
        while k < self.root_history.len()
            invariant
                k <= self.root_history@.len(),
                forall|j: int| 0 <= j < k ==> self.root_history@[j] != key,
            decreases self.root_history@.len() - k,
        {
            if self.root_history[k] == key {
                return true;
            }
            k = k + 1;
        }
        false
    }

    /// Records `mv` as the first killer of `ply`, the previous first becoming
    /// the second, unless it is the first already.
    fn store_killer(&mut self, mv: Move, ply: usize)
        requires
            old(self).wf(),
        ensures
            final(self).wf(),
            same_except_tables(*old(self), *final(self)),
            final(self).killers@ == killers_after(old(self).killers@, mv, ply as int),
            final(self).history == old(self).history,
            final(self).cont_history == old(self).cont_history,
            final(self).countermove == old(self).countermove,
            final(self).stop == old(self).stop,
            follows(*old(self), *final(self)),
    {
        if ply >= MAX_PLY {
            return;
        }
        let first = self.killers[ply * 2];
        if first != Some(mv) {
            self.killers.set(ply * 2 + 1, first);
            self.killers.set(ply * 2, Some(mv));
        }
    }

    /// Rewards the quiet move `mv` of `color` with `depth * depth`.
    fn update_history(&mut self, color: Color, mv: Move, depth: i32)
        requires
            old(self).wf(),
            mv.wf(),
            1 <= depth < 128,
        ensures
            final(self).wf(),
            same_except_tables(*old(self), *final(self)),
            final(self).history@ == old(self).history@.update(
                pair_slot(color.spec_index(), mv.from as int, mv.to as int),
                spec_gravity(
                    old(self).history@[pair_slot(color.spec_index(), mv.from as int, mv.to as int)]
                        as int,
                    depth * depth,
                ) as i16,
            ),
            final(self).killers == old(self).killers,
            final(self).cont_history == old(self).cont_history,
            final(self).countermove == old(self).countermove,
            final(self).stop == old(self).stop,
            follows(*old(self), *final(self)),
    {
        let i = (color.index() * 64 + mv.from as usize) * 64 + mv.to as usize;
        let v = gravity(self.history[i], scaled(depth, depth));
        self.history.set(i, v);
    }

    /// Records `refutation` as the answer to the opponent's `prev`.
    fn store_countermove(&mut self, pos: &PosData, prev: Move, refutation: Move)
        requires
            old(self).wf(),
            prev.wf(),
        ensures
            final(self).wf(),
            same_except_tables(*old(self), *final(self)),
            final(self).countermove@ == old(self).countermove@.update(
                pair_slot(reply_side(*pos), prev.from as int, prev.to as int),
                Some(refutation),
            ),
            final(self).killers == old(self).killers,
            final(self).history == old(self).history,
            final(self).cont_history == old(self).cont_history,
            final(self).stop == old(self).stop,
            follows(*old(self), *final(self)),
    {
        let idx: usize = if pos.side_to_move == Color::White {
            1
        } else {
            0
        };
        self.countermove.set((idx * 64 + prev.from as usize) * 64 + prev.to as usize, Some(refutation));
    }

    /// The recorded answer to the opponent's previous move, if any.
    fn get_countermove(&self, pos: &PosData, prev_move: Option<Move>) -> (r: Option<Move>)
        requires
            self.wf(),
            prev_move matches Some(m) ==> m.wf(),
        ensures
            r == (match prev_move {
                None => None,
                Some(pm) => self.countermove@[pair_slot(reply_side(*pos), pm.from as int, pm.to as int)],
            }),
    {
        match prev_move {
            None => None,
            Some(pm) => {
                let idx: usize = if pos.side_to_move == Color::White {
                    1
                } else {
                    0
                };
                self.countermove[(idx * 64 + pm.from as usize) * 64 + pm.to as usize]
            },
        }
    }
}

/// Number of `true` entries of `s`.
pub open spec fn count_true(s: Seq<bool>) -> nat
    decreases s.len(),
{
    if s.len() == 0 {
        0
    } else {
        count_true(s.drop_last()) + if s.last() {
            1nat
        } else {
            0nat
        }
    }
}

proof fn lemma_count_true_update(s: Seq<bool>, i: int)
    requires
        0 <= i < s.len(),
        !s[i],
    ensures
        count_true(s.update(i, true)) == count_true(s) + 1,
    decreases s.len(),
{
    let t = s.update(i, true);
    if i == s.len() - 1 {
        assert(t.drop_last() =~= s.drop_last());
    } else {
        assert(t.drop_last() =~= s.drop_last().update(i, true));
        lemma_count_true_update(s.drop_last(), i);
    }
}

proof fn lemma_count_true_all(s: Seq<bool>)
    requires
        forall|i: int| 0 <= i < s.len() ==> s[i],
    ensures
        count_true(s) == s.len(),
    decreases s.len(),
{
    if s.len() > 0 {
        lemma_count_true_all(s.drop_last());
    }
}

proof fn lemma_count_true_none(s: Seq<bool>)
    requires
        forall|i: int| 0 <= i < s.len() ==> !s[i],
    ensures
        count_true(s) == 0,
    decreases s.len(),
{
    if s.len() > 0 {
        lemma_count_true_none(s.drop_last());
    }
}

/// A capture or a promotion.
pub open spec fn tactical(d: PosData, m: Move) -> bool {
    capture(d, m) || m.promotion is Some
}

/// The stage of a quiet move in the search order: 0 and 1 for the first
/// and second killer of `ply` (when `ply` has killer slots), 2 for the
/// countermove `cm`, 3 for the others.
pub open spec fn quiet_stage(killers: Seq<Option<Move>>, ply: int, cm: Option<Move>, mv: Move) -> int {
    if ply < MAX_PLY && killers[2 * ply] == Some(mv) {
        0
    } else if ply < MAX_PLY && killers[2 * ply + 1] == Some(mv) {
        1
    } else if cm == Some(mv) {
        2
    } else {
        3
    }
}

/// The history order of a quiet move: the history entry of the side to move
/// and the move's squares, plus, after a previous move with piece and
/// square `prev`, the continuation entry for the moving piece and target.
pub open spec fn quiet_order(
    hist: Seq<i16>,
    cont: Seq<i16>,
    prev: Option<(usize, usize)>,
    d: PosData,
    mv: Move,
) -> int {
    let c = if d.side_to_move == Color::White {
        0int
    } else {
        1int
    };
    let h = hist[pair_slot(c, mv.from as int, mv.to as int)] as int;
    let ch = match prev {
        Some(p) => match d.piece_at(mv.from) {
            Some(pc) => cont[cont_slot(p.0 as int, p.1 as int, pc.spec_index(), mv.to as int)] as int,
            None => 0int,
        },
        None => 0int,
    };
    h + ch
}

/// From index `start` on, the quiet moves of `r` come by [`quiet_stage`]
/// (first killer, second killer, countermove, the others), the others by
/// decreasing [`quiet_order`].
#[verifier::opaque]
pub open spec fn quiet_moves_ordered(
    r: Seq<Move>,
    start: int,
    d: PosData,
    killers: Seq<Option<Move>>,
    ply: int,
    cm: Option<Move>,
    hist: Seq<i16>,
    cont: Seq<i16>,
    prev: Option<(usize, usize)>,
) -> bool {
    &&& forall|k1: int, k2: int|
        start <= k1 < k2 < r.len() && !tactical(d, #[trigger] r[k1]) && !tactical(d, #[trigger] r[k2])
            ==> quiet_stage(killers, ply, cm, r[k1]) <= quiet_stage(killers, ply, cm, r[k2])
    &&& forall|k1: int, k2: int|
        start <= k1 < k2 < r.len() && !tactical(d, #[trigger] r[k1]) && !tactical(d, #[trigger] r[k2])
            && quiet_stage(killers, ply, cm, r[k1]) == 3 && quiet_stage(killers, ply, cm, r[k2]) == 3
            ==> quiet_order(hist, cont, prev, d, r[k1]) >= quiet_order(hist, cont, prev, d, r[k2])
}

/// Where the search order after the table move begins: 1 when the table
/// move is a legal move of `legal` (it then comes first), else 0.
pub open spec fn order_start(legal: Seq<Move>, tt_move: Option<Move>) -> int {
    if tt_move matches Some(t) && legal.contains(t) {
        1
    } else {
        0
    }
}

/// Whether the quiescence search, not in check, with window `(alpha,
/// beta)` and stand-pat score `stand`, always plays `mv` when it comes to
/// it: a promotion always; a capture when its ordering score is at least
/// 8400 and, in a proper window, the victim plus two pawns cannot leave
/// the stand-pat score below any alpha it may have raised to.
pub open spec fn quiesce_plays(d: PosData, mv: Move, stand: int, alpha: int, beta: int) -> bool {
    ||| mv.promotion is Some
    ||| capture(d, mv) && spec_capture_score(d, mv) >= 8400 && alpha < beta && match d.piece_at(mv.to) {
        Some(v) => stand + spec_piece_value(v) + 200 >= beta,
        None => true,
    }
}

/// Some entry of `s` is for index `j`.
pub open spec fn listed(s: Seq<(i32, usize)>, j: int) -> bool {
    exists|k: int| 0 <= k < s.len() && (#[trigger] s[k]).1 == j
}

/// The first index of `target` among the entries of `all` not yet used.
fn find_unused(used: &Vec<bool>, all: &Vec<Move>, target: Move) -> (r: Option<usize>)
    requires
        used@.len() == all@.len(),
    ensures
        r matches Some(i) ==> i < all@.len() && !used@[i as int] && all@[i as int] == target,
        r is None ==> forall|j: int| 0 <= j < all@.len() ==> used@[j] || all@[j] != target,
{
    let mut i: usize = 0;
    while i < all.len()
        invariant
            used@.len() == all@.len(),
            i <= all@.len(),
            forall|j: int| 0 <= j < i ==> used@[j] || all@[j] != target,
        decreases all@.len() - i,
    {
        if !used[i] && all[i] == target {
            return Some(i);
        }
        i = i + 1;
    }
    None
}

/// The state of move ordering: `result` holds legal moves only, every used
/// move of `all` is in `result`, and `result` has one entry per used index.
pub open spec fn picking(all: Seq<Move>, legal: Seq<Move>, used: Seq<bool>, result: Seq<Move>) -> bool {
    &&& all == legal
    &&& used.len() == all.len()
    &&& forall|k: int| 0 <= k < result.len() ==> legal.contains(#[trigger] result[k])
    &&& forall|k: int| 0 <= k < result.len() ==> (#[trigger] result[k]).wf()
    &&& forall|j: int| 0 <= j < all.len() ==> (#[trigger] all[j]).wf()
    &&& forall|i: int| 0 <= i < all.len() && #[trigger] used[i] ==> result.contains(all[i])
    &&& result.len() == count_true(used)
}

/// Appends `all[i]`, not yet used, to `result` and marks it used.
fn emit(used: &mut Vec<bool>, result: &mut Vec<Move>, all: &Vec<Move>, i: usize, Ghost(legal): Ghost<Seq<Move>>)
    requires
        i < all@.len(),
        !old(used)@[i as int],
        picking(all@, legal, old(used)@, old(result)@),
    ensures
        picking(all@, legal, final(used)@, final(result)@),
        final(used)@ == old(used)@.update(i as int, true),
        final(result)@ == old(result)@.push(all@[i as int]),
{
    proof {
        lemma_count_true_update(used@, i as int);
    }
    used.set(i, true);
    let mv = all[i];
    result.push(mv);
    proof {
        assert(result@[result@.len() - 1] == mv);
        assert forall|j: int| 0 <= j < all@.len() && #[trigger] used@[j] implies result@.contains(
            all@[j],
        ) by {
            if j == i {
                assert(result@[result@.len() - 1] == all@[j]);
            } else {
                assert(old(used)@[j]);
                let k = choose|k: int| 0 <= k < old(result)@.len() && old(result)@[k] == all@[j];
                assert(result@[k] == all@[j]);
            }
        }
        assert forall|k: int| 0 <= k < result@.len() implies legal.contains(#[trigger] result@[k]) by {
            if k == result@.len() - 1 {
                assert(legal[i as int] == result@[k]);
            } else {
                assert(result@[k] == old(result)@[k]);
            }
        }
    }
}

impl Searcher {
    /// The legal moves of `pos` in search order: the table move, captures and
    /// promotions by decreasing [`spec_capture_score`], the two killers of
    /// `ply`, the countermove, then the other moves by decreasing history
    /// plus continuation history after the previous move's piece and square.
    #[verifier::rlimit(100)]
    #[verifier::spinoff_prover]
    fn pick_moves(
        &self,
        pos: &Position,
        ply: usize,
        tt_move: Option<Move>,
        countermove: Option<Move>,
        prev_move_info: Option<(usize, usize)>,
    ) -> (r: Vec<Move>)
        requires
            self.wf(),
            pos@.wf(),
            prev_move_info matches Some(x) ==> x.0 < 6 && x.1 < 64,
        ensures
            r@.len() == legal_moves_of(pos@).len(),
            forall|k: int| 0 <= k < r@.len() ==> legal_moves_of(pos@).contains(#[trigger] r@[k]),
            forall|k: int| 0 <= k < r@.len() ==> (#[trigger] r@[k]).wf(),
            forall|j: int|
                0 <= j < legal_moves_of(pos@).len() ==> r@.contains(
                    #[trigger] legal_moves_of(pos@)[j],
                ),
            tt_move matches Some(t) ==> (legal_moves_of(pos@).contains(t) ==> r@[0] == t),
            forall|k1: int, k2: int|
                order_start(legal_moves_of(pos@), tt_move) <= k1 < k2 < r@.len() && tactical(
                    pos@,
                    #[trigger] r@[k2],
                ) ==> tactical(
                    pos@,
                    #[trigger] r@[k1],
                ),
            forall|k1: int, k2: int|
                order_start(legal_moves_of(pos@), tt_move) <= k1 < k2 < r@.len() && tactical(
                    pos@,
                    #[trigger] r@[k1],
                ) && tactical(pos@, #[trigger] r@[k2]) ==> spec_capture_score(pos@, r@[k1])
                    >= spec_capture_score(pos@, r@[k2]),
            quiet_moves_ordered(
                r@,
                order_start(legal_moves_of(pos@), tt_move),
                pos@,
                self.killers@,
                ply as int,
                countermove,
                self.history@,
                self.cont_history@,
                prev_move_info,
            ),
    {
        let d = pos.data();
        let all = legal_moves(pos);
        let ghost legal = legal_moves_of(pos@);
        let n = all.len();
        let color_idx: usize = if d.side_to_move == Color::White {
            0
        } else {
            1
        };
        let mut used: Vec<bool> = filled(false, n);
        let mut result: Vec<Move> = Vec::new();
        proof {
            lemma_count_true_none(used@);
        }
        // The table move.
        if let Some(ttm) = tt_move {
            if let Some(i) = find_unused(&used, &all, ttm) {
                emit(&mut used, &mut result, &all, i, Ghost(legal));
                assert(result@[0] == ttm);
                assert(legal.contains(ttm));
            } else {
                assert(!legal.contains(ttm)) by {
                    if legal.contains(ttm) {
                        let j = choose|j: int| 0 <= j < legal.len() && legal[j] == ttm;
                        assert(!used@[j]);
                    }
                }
            }
        }
        let ghost first = result@;
        let ghost tt_end = result@.len() as int;
        assert(tt_end == order_start(legal, tt_move));
        assert(tt_end <= 1);
        // Captures and promotions.
        let ghost used_c = used@;
        let mut caps: Vec<(i32, usize)> = Vec::new();
        let mut i: usize = 0;
        while i < n
            invariant
                n == all@.len(),
                i <= n,
                *d == pos@,
                used@ == used_c,
                picking(all@, legal, used@, result@),
                forall|k: int| 0 <= k < caps@.len() ==> (#[trigger] caps@[k]).1 < n,
                forall|k: int|
                    0 <= k < caps@.len() ==> tactical(pos@, all@[(#[trigger] caps@[k]).1 as int])
                        && caps@[k].0 == spec_capture_score(pos@, all@[caps@[k].1 as int]),
                forall|j: int|
                    0 <= j < i && !used_c[j] && tactical(pos@, all@[j]) ==> #[trigger] listed(
                        caps@,
                        j,
                    ),
                forall|j: int| 0 <= j < all@.len() ==> (#[trigger] all@[j]).wf(),
            decreases n - i,
        {
            if !used[i] {
                let mv = all[i];
                if is_capture(d, mv) || mv.promotion.is_some() {
                    let score = capture_score(d, mv);
                    let ghost before = caps@;
                    caps.push((score, i));
                    proof {
                        assert forall|j: int|
                            0 <= j < i + 1 && !used_c[j] && tactical(pos@, all@[j]) implies #[trigger] listed(
                            caps@,
                            j,
                        ) by {
                            if j < i {
                                assert(listed(before, j));
                                let k = choose|k: int|
                                    0 <= k < before.len() && (#[trigger] before[k]).1 == j;
                                assert(caps@[k] == before[k]);
                            } else {
                                assert(caps@[caps@.len() - 1].1 == j);
                            }
                        }
                    }
                }
            }
            i = i + 1;
        }
        let ghost caps_in = caps@;
        let caps = sort_desc(caps);
        proof {
            assert forall|k: int|
                0 <= k < caps@.len() implies (#[trigger] caps@[k]).1 < n && tactical(
                pos@,
                all@[caps@[k].1 as int],
            ) && caps@[k].0 == spec_capture_score(pos@, all@[caps@[k].1 as int]) by {
                assert(caps_in.contains(caps@[k]));
                let j = choose|j: int| 0 <= j < caps_in.len() && caps_in[j] == caps@[k];
                assert(caps_in[j].1 < n);
            }
            assert forall|j: int|
                0 <= j < n && !used_c[j] && tactical(pos@, all@[j]) implies #[trigger] listed(
                caps@,
                j,
            ) by {
                assert(listed(caps_in, j));
                let k = choose|k: int| 0 <= k < caps_in.len() && (#[trigger] caps_in[k]).1 == j;
                assert(caps@.contains(caps_in[k]));
                let k2 = choose|k2: int| 0 <= k2 < caps@.len() && caps@[k2] == caps_in[k];
                assert(caps@[k2].1 == j);
            }
        }
        let mut q: usize = 0;
        while q < caps.len()
            invariant
                n == all@.len(),
                q <= caps@.len(),
                *d == pos@,
                picking(all@, legal, used@, result@),
                sorted_desc(caps@),
                forall|k: int|
                    0 <= k < caps@.len() ==> (#[trigger] caps@[k]).1 < n && tactical(
                        pos@,
                        all@[caps@[k].1 as int],
                    ) && caps@[k].0 == spec_capture_score(pos@, all@[caps@[k].1 as int]),
                forall|k: int| 0 <= k < q ==> used@[(#[trigger] caps@[k]).1 as int],
                forall|j: int| 0 <= j < n && used_c[j] ==> #[trigger] used@[j],
                result@.len() >= first.len(),
                forall|k: int| 0 <= k < first.len() ==> result@[k] == first[k],
                tt_end == first.len(),
                forall|k: int| tt_end <= k < result@.len() ==> tactical(pos@, #[trigger] result@[k]),
                forall|k1: int, k2: int|
                    tt_end <= k1 < k2 < result@.len() ==> spec_capture_score(pos@, #[trigger] result@[k1])
                        >= spec_capture_score(pos@, #[trigger] result@[k2]),
                q < caps@.len() ==> forall|k: int|
                    tt_end <= k < result@.len() ==> spec_capture_score(pos@, #[trigger] result@[k])
                        >= caps@[q as int].0,
            decreases caps@.len() - q,
        {
            let idx = caps[q].1;
            if !used[idx] {
                let ghost before = result@;
                emit(&mut used, &mut result, &all, idx, Ghost(legal));
                proof {
                    assert(result@[result@.len() - 1] == all@[idx as int]);
                    assert forall|k: int| tt_end <= k < result@.len() implies tactical(
                        pos@,
                        #[trigger] result@[k],
                    ) by {
                        if k < before.len() {
                            assert(result@[k] == before[k]);
                        }
                    }
                    assert forall|k1: int, k2: int|
                        tt_end <= k1 < k2 < result@.len() implies spec_capture_score(
                        pos@,
                        #[trigger] result@[k1],
                    ) >= spec_capture_score(pos@, #[trigger] result@[k2]) by {
                        assert(result@[k1] == before[k1]);
                        if k2 < before.len() {
                            assert(result@[k2] == before[k2]);
                        }
                    }
                }
            }
            q = q + 1;
            proof {
                if q < caps@.len() {
                    assert(caps@[q - 1].0 >= caps@[q as int].0);
                }
            }
        }
        let ghost cap_end = result@.len() as int;
        let ghost prefix = result@;
        proof {
            assert forall|j: int| 0 <= j < n && tactical(pos@, all@[j]) implies #[trigger] used@[j] by {
                if !used_c[j] {
                    assert(listed(caps@, j));
                    let k = choose|k: int| 0 <= k < caps@.len() && (#[trigger] caps@[k]).1 == j;
                    assert(used@[caps@[k].1 as int]);
                }
            }
        }
        // Killers.
        if ply < MAX_PLY {
            let mut k: usize = 0;
            while k < 2
                invariant
                    n == all@.len(),
                    ply < MAX_PLY,
                    self.killers@.len() == 2 * MAX_PLY,
                    k <= 2,
                    picking(all@, legal, used@, result@),
                    0 <= cap_end <= result@.len(),
                    prefix.len() == cap_end,
                    forall|j: int| 0 <= j < cap_end ==> result@[j] == prefix[j],
                    forall|j: int| 0 <= j < n && tactical(pos@, all@[j]) ==> #[trigger] used@[j],
                    forall|j: int| cap_end <= j < result@.len() ==> !tactical(pos@, #[trigger] result@[j]),
                    all@.no_duplicates(),
                    forall|j: int|
                        cap_end <= j < result@.len() ==> quiet_stage(
                            self.killers@,
                            ply as int,
                            countermove,
                            #[trigger] result@[j],
                        ) < k,
                    forall|j: int|
                        0 <= j < n && k >= 1 && self.killers@[2 * ply as int] == Some(#[trigger] all@[j])
                            ==> used@[j],
                    forall|j: int|
                        0 <= j < n && k >= 2 && self.killers@[2 * ply + 1] == Some(#[trigger] all@[j])
                            ==> used@[j],
                    forall|j1: int, j2: int|
                        cap_end <= j1 < j2 < result@.len() ==> quiet_stage(
                            self.killers@,
                            ply as int,
                            countermove,
                            #[trigger] result@[j1],
                        ) <= quiet_stage(self.killers@, ply as int, countermove, #[trigger] result@[j2]),
                decreases 2 - k,
            {
                let ghost used_before = used@;
                if let Some(km) = self.killers[ply * 2 + k] {
                    if let Some(i) = find_unused(&used, &all, km) {
                        let ghost before = result@;
                        assert(!tactical(pos@, all@[i as int]));
                        assert(quiet_stage(self.killers@, ply as int, countermove, all@[i as int]) == k);
                        emit(&mut used, &mut result, &all, i, Ghost(legal));
                        proof {
                            assert(result@ == before.push(all@[i as int]));
                            assert forall|j: int| cap_end <= j < result@.len() implies !tactical(
                                pos@,
                                #[trigger] result@[j],
                            ) by {
                                if j < before.len() {
                                    assert(result@[j] == before[j]);
                                } else {
                                    assert(result@[j] == all@[i as int]);
                                }
                            }
                            assert forall|j: int| 0 <= j < n && self.killers@[2 * ply + k] == Some(
                                #[trigger] all@[j],
                            ) implies used@[j] by {
                                if j != i {
                                    assert(all@[j] != all@[i as int]);
                                }
                            }
                        }
                    }
                }
                k = k + 1;
            }
        }
        proof {
            assert forall|j: int|
                0 <= j < n && quiet_stage(self.killers@, ply as int, countermove, #[trigger] all@[j]) < 2
                    implies used@[j] by {
                if ply < MAX_PLY {
                } else {
                    assert(false);
                }
            }
            assert forall|j: int| cap_end <= j < result@.len() implies quiet_stage(
                self.killers@,
                ply as int,
                countermove,
                #[trigger] result@[j],
            ) < 2 by {
                if ply >= MAX_PLY {
                    assert(false);
                }
            }
        }
        // Countermove.
        let ghost kill_end = result@.len() as int;
        let ghost kill_prefix = result@;
        if let Some(cm) = countermove {
            if let Some(i) = find_unused(&used, &all, cm) {
                let ghost before = result@;
                assert(!tactical(pos@, all@[i as int]));
                assert(quiet_stage(self.killers@, ply as int, countermove, all@[i as int]) == 2);
                emit(&mut used, &mut result, &all, i, Ghost(legal));
                proof {
                    assert(result@ == before.push(all@[i as int]));
                    assert forall|j: int| cap_end <= j < result@.len() implies !tactical(
                        pos@,
                        #[trigger] result@[j],
                    ) by {
                        if j < before.len() {
                            assert(result@[j] == before[j]);
                        } else {
                            assert(result@[j] == all@[i as int]);
                        }
                    }
                    assert forall|j: int| 0 <= j < n && countermove == Some(#[trigger] all@[j]) implies used@[j] by {
                        if j != i {
                            assert(all@[j] != all@[i as int]);
                        }
                    }
                }
            }
        }
        proof {
            assert forall|j: int|
                0 <= j < n && quiet_stage(self.killers@, ply as int, countermove, #[trigger] all@[j]) < 3
                    implies used@[j] by {
                if quiet_stage(self.killers@, ply as int, countermove, all@[j]) < 2 {
                } else {
                    assert(countermove == Some(all@[j]));
                }
            }
            assert forall|j: int| cap_end <= j < result@.len() implies quiet_stage(
                self.killers@,
                ply as int,
                countermove,
                #[trigger] result@[j],
            ) <= 2 by {
                if j < kill_end {
                    assert(result@[j] == kill_prefix[j]);
                }
            }
            assert forall|j1: int, j2: int| cap_end <= j1 < j2 < result@.len() implies quiet_stage(
                self.killers@,
                ply as int,
                countermove,
                #[trigger] result@[j1],
            ) <= quiet_stage(self.killers@, ply as int, countermove, #[trigger] result@[j2]) by {
                assert(result@[j1] == kill_prefix[j1]);
                if j2 < kill_end {
                    assert(result@[j2] == kill_prefix[j2]);
                }
            }
        }
        // The remaining moves by history.
        let ghost used0 = used@;
        let mut quiets: Vec<(i32, usize)> = Vec::new();
        let mut i: usize = 0;
        while i < n
            invariant
                n == all@.len(),
                i <= n,
                used@ == used0,
                used0.len() == n,
                self.wf(),
                color_idx < 2,
                prev_move_info matches Some(x) ==> x.0 < 6 && x.1 < 64,
                forall|k: int| 0 <= k < quiets@.len() ==> (#[trigger] quiets@[k]).1 < n,
                forall|j: int| 0 <= j < i && !used0[j] ==> #[trigger] listed(quiets@, j),
                forall|j: int| 0 <= j < all@.len() ==> (#[trigger] all@[j]).wf(),
                *d == pos@,
                color_idx == (if pos@.side_to_move == Color::White {
                    0int
                } else {
                    1int
                }),
                forall|k: int|
                    0 <= k < quiets@.len() ==> (#[trigger] quiets@[k]).0 == quiet_order(
                        self.history@,
                        self.cont_history@,
                        prev_move_info,
                        pos@,
                        all@[quiets@[k].1 as int],
                    ),
            decreases n - i,
        {
            if !used[i] {
                let mv = all[i];
                let h = self.history[(color_idx * 64 + mv.from as usize) * 64 + mv.to as usize] as i32;
                let ch: i32 = match prev_move_info {
                    Some((prev_piece, prev_to)) => match d.piece_on(mv.from) {
                        Some(piece) => self.cont_history[((prev_piece * 64 + prev_to) * 6
                            + piece.index()) * 64 + mv.to as usize] as i32,
                        None => 0,
                    },
                    None => 0,
                };
                let ghost before = quiets@;
                assert(h + ch == quiet_order(self.history@, self.cont_history@, prev_move_info, pos@, mv));
                quiets.push((h + ch, i));
                proof {
                    assert(quiets@[quiets@.len() - 1].1 == i);
                    assert forall|j: int| 0 <= j < i + 1 && !used0[j] implies #[trigger] listed(quiets@, j) by {
                        if j < i {
                            assert(listed(before, j));
                            let k = choose|k: int| 0 <= k < before.len() && (#[trigger] before[k]).1 == j;
                            assert(quiets@[k] == before[k]);
                        }
                    }
                }
            }
            i = i + 1;
        }
        let ghost quiets_in = quiets@;
        let quiets = sort_desc(quiets);
        let ghost qs_start = result@.len() as int;
        let ghost spec_prefix = result@;
        proof {
            assert forall|k: int| 0 <= k < quiets@.len() implies (#[trigger] quiets@[k]).0 == quiet_order(
                self.history@, self.cont_history@, prev_move_info, pos@,
                all@[quiets@[k].1 as int],
            ) by {
                assert(quiets_in.contains(quiets@[k]));
                let j = choose|j: int| 0 <= j < quiets_in.len() && quiets_in[j] == quiets@[k];
            }
            assert forall|j: int| cap_end <= j < qs_start implies quiet_stage(
                self.killers@, ply as int, countermove,
                #[trigger] spec_prefix[j],
            ) <= 2 by {
                assert(result@[j] == spec_prefix[j]);
            }
            assert forall|j1: int, j2: int| cap_end <= j1 < j2 < qs_start implies quiet_stage(
                self.killers@, ply as int, countermove,
                #[trigger] spec_prefix[j1],
            ) <= quiet_stage(self.killers@, ply as int, countermove, #[trigger] spec_prefix[j2]) by {
                assert(result@[j1] == spec_prefix[j1]);
                assert(result@[j2] == spec_prefix[j2]);
            }
        }
        let mut q: usize = 0;
        while q < quiets.len()
            invariant
                n == all@.len(),
                q <= quiets@.len(),
                picking(all@, legal, used@, result@),
                qs_start <= result@.len(),
                spec_prefix.len() == qs_start,
                forall|j: int| 0 <= j < qs_start ==> result@[j] == spec_prefix[j],
                forall|j: int|
                    0 <= j < n && quiet_stage(self.killers@, ply as int, countermove, #[trigger] all@[j]) < 3 ==> used0[j],
                sorted_desc(quiets@),
                forall|k: int|
                    0 <= k < quiets@.len() ==> (#[trigger] quiets@[k]).0 == quiet_order(
                        self.history@, self.cont_history@, prev_move_info, pos@,
                        all@[quiets@[k].1 as int],
                    ),
                forall|j: int|
                    qs_start <= j < result@.len() ==> quiet_stage(self.killers@, ply as int, countermove, #[trigger] result@[j]) == 3,
                forall|j1: int, j2: int|
                    qs_start <= j1 < j2 < result@.len() ==> quiet_order(self.history@, self.cont_history@, prev_move_info, pos@, #[trigger] result@[j1])
                        >= quiet_order(self.history@, self.cont_history@, prev_move_info, pos@, #[trigger] result@[j2]),
                q < quiets@.len() ==> forall|j: int|
                    qs_start <= j < result@.len() ==> quiet_order(self.history@, self.cont_history@, prev_move_info, pos@, #[trigger] result@[j])
                        >= quiets@[q as int].0,
                forall|k: int| 0 <= k < quiets@.len() ==> (#[trigger] quiets@[k]).1 < n,
                forall|k: int| 0 <= k < q ==> used@[(#[trigger] quiets@[k]).1 as int],
                forall|j: int| 0 <= j < n && used0[j] ==> #[trigger] used@[j],
                0 <= cap_end <= result@.len(),
                prefix.len() == cap_end,
                forall|j: int| 0 <= j < cap_end ==> result@[j] == prefix[j],
                forall|j: int| 0 <= j < n && tactical(pos@, all@[j]) ==> #[trigger] used@[j],
                forall|j: int| cap_end <= j < result@.len() ==> !tactical(pos@, #[trigger] result@[j]),
            decreases quiets@.len() - q,
        {
            let idx = quiets[q].1;
            if !used[idx] {
                let ghost before = result@;
                assert(!used0[idx as int]);
                emit(&mut used, &mut result, &all, idx, Ghost(legal));
                proof {
                    assert forall|j: int| cap_end <= j < result@.len() implies !tactical(
                        pos@,
                        #[trigger] result@[j],
                    ) by {
                        if j < before.len() {
                            assert(result@[j] == before[j]);
                        }
                    }
                    assert(result@[result@.len() - 1] == all@[idx as int]);
                    assert forall|j: int| qs_start <= j < result@.len() implies quiet_stage(
                        self.killers@, ply as int, countermove,
                        #[trigger] result@[j],
                    ) == 3 by {
                        if j < before.len() {
                            assert(result@[j] == before[j]);
                        }
                    }
                    assert forall|j1: int, j2: int| qs_start <= j1 < j2 < result@.len() implies quiet_order(
                        self.history@, self.cont_history@, prev_move_info, pos@,
                        #[trigger] result@[j1],
                    ) >= quiet_order(self.history@, self.cont_history@, prev_move_info, pos@, #[trigger] result@[j2]) by {
                        assert(result@[j1] == before[j1]);
                        if j2 < before.len() {
                            assert(result@[j2] == before[j2]);
                        }
                    }
                }
            }
            q = q + 1;
            proof {
                if q < quiets@.len() {
                    assert(quiets@[q - 1].0 >= quiets@[q as int].0);
                }
            }
        }
        proof {
            assert forall|j: int| 0 <= j < n implies #[trigger] used@[j] by {
                if !used0[j] {
                    assert(listed(quiets_in, j));
                    let k = choose|k: int| 0 <= k < quiets_in.len() && (#[trigger] quiets_in[k]).1 == j;
                    assert(quiets@.contains(quiets_in[k]));
                    let k2 = choose|k2: int| 0 <= k2 < quiets@.len() && quiets@[k2] == quiets_in[k];
                    assert(used@[(quiets@[k2]).1 as int]);
                }
            }
            lemma_count_true_all(used@);
            assert forall|j: int| 0 <= j < legal.len() implies result@.contains(#[trigger] legal[j]) by {
                assert(used@[j]);
            }
            assert forall|k1: int, k2: int|
                tt_end <= k1 < k2 < result@.len() && tactical(pos@, #[trigger] result@[k2]) implies tactical(
                pos@,
                #[trigger] result@[k1],
            ) by {
                assert(k2 < cap_end);
                assert(result@[k1] == prefix[k1]);
            }
            assert forall|k1: int, k2: int|
                tt_end <= k1 < k2 < result@.len() && tactical(pos@, #[trigger] result@[k1]) && tactical(
                    pos@,
                    #[trigger] result@[k2],
                ) implies spec_capture_score(pos@, result@[k1]) >= spec_capture_score(pos@, result@[k2]) by {
                assert(k2 < cap_end);
                assert(result@[k1] == prefix[k1]);
                assert(result@[k2] == prefix[k2]);
            }
            reveal(quiet_moves_ordered);
            assert forall|k1: int, k2: int|
                tt_end <= k1 < k2 < result@.len() && !tactical(pos@, #[trigger] result@[k1]) && !tactical(
                    pos@,
                    #[trigger] result@[k2],
                ) implies quiet_stage(self.killers@, ply as int, countermove, result@[k1]) <= quiet_stage(self.killers@, ply as int, countermove, result@[k2]) by {
                if k1 < cap_end {
                    assert(result@[k1] == prefix[k1]);
                }
                if k2 < qs_start {
                    assert(result@[k1] == spec_prefix[k1]);
                    assert(result@[k2] == spec_prefix[k2]);
                }
            }
            assert forall|k1: int, k2: int|
                tt_end <= k1 < k2 < result@.len() && !tactical(pos@, #[trigger] result@[k1]) && !tactical(
                    pos@,
                    #[trigger] result@[k2],
                ) && quiet_stage(self.killers@, ply as int, countermove, result@[k1]) == 3 && quiet_stage(self.killers@, ply as int, countermove, result@[k2]) == 3 implies quiet_order(
                    self.history@, self.cont_history@, prev_move_info, pos@,
                    result@[k1],
                ) >= quiet_order(self.history@, self.cont_history@, prev_move_info, pos@, result@[k2]) by {
                if k1 < cap_end {
                    assert(result@[k1] == prefix[k1]);
                }
                if k1 < qs_start {
                    assert(result@[k1] == spec_prefix[k1]);
                }
                if k2 < qs_start {
                    assert(result@[k2] == spec_prefix[k2]);
                }
            }
        }
        result
    }
}

/// `mv` of `moves` is legal in `pos` when `moves` are its legal moves.
proof fn lemma_listed_legal(pos: PosData, moves: Seq<Move>, i: int)
    requires
        moves == legal_moves_of(pos),
        0 <= i < moves.len(),
    ensures
        legal_moves_of(pos).contains(moves[i]),
{
}

/// The evaluation of `p` with the pawn-structure cache `e`, from the side to
/// move's point of view.
#[verifier::opaque]
pub open spec fn static_score(e: Evaluator, p: PosData) -> int {
    let s = spec_evaluate(p, pawn_score_with(e.pawn_table, p));
    if p.side_to_move == Color::Black {
        -s
    } else {
        s
    }
}

/// The pawn-structure score a pawn cache with slots `es` and mask `m`
/// gives for `d`: the stored score on a key hit, else the computed one.
pub open spec fn cached_structure(es: Seq<PawnEntry>, m: usize, d: PosData) -> int {
    let e = es[((pawn_key(d) as usize) & m) as int];
    if e.key == pawn_key(d) {
        e.score as int
    } else {
        spec_pawn_structure(d)
    }
}

/// The slots of the pawn cache after evaluating `d`: unchanged when the
/// evaluation stops early or hits, else the slot of `d`'s key takes its
/// pawn-structure score.
#[verifier::opaque]
pub open spec fn cache_after(es: Seq<PawnEntry>, m: usize, d: PosData) -> Seq<PawnEntry> {
    let i = ((pawn_key(d) as usize) & m) as int;
    if early_exit(d) || es[i].key == pawn_key(d) {
        es
    } else {
        es.update(i, PawnEntry { key: pawn_key(d), score: spec_pawn_structure(d) as i32 })
    }
}

/// The static evaluation of `d` from the side to move's point of view with
/// the pawn cache `es`, `m`.
#[verifier::opaque]
pub open spec fn cached_eval(es: Seq<PawnEntry>, m: usize, d: PosData) -> int {
    let s = spec_evaluate(d, cached_structure(es, m, d));
    if d.side_to_move == Color::Black {
        -s
    } else {
        s
    }
}

/// Whether the quiet move `mv` of `d` lands the moving knight, bishop, rook,
/// queen or pawn on a square from which it attacks the enemy king.
pub open spec fn lands_check(d: PosData, mv: Move) -> bool {
    let ek = d.king_sq(d.side_to_move.spec_other()) as u8;
    let occ = d.occ();
    match d.piece_at(mv.from) {
        Some(Piece::Knight) => bit(knight_attacks(ek), mv.to),
        Some(Piece::Bishop) => bit(bishop_attacks(ek, occ), mv.to),
        Some(Piece::Rook) => bit(rook_attacks(ek, occ), mv.to),
        Some(Piece::Queen) => bit(bishop_attacks(ek, occ) | rook_attacks(ek, occ), mv.to),
        Some(Piece::Pawn) => bit(pawn_attacks(mv.to, d.side_to_move), ek),
        _ => false,
    }
}

/// The captures and promotions among the first `n` of `moves`, in order,
/// each with its ordering score and index.
pub open spec fn capture_list(d: PosData, moves: Seq<Move>, n: int) -> Seq<(i32, usize)>
    decreases n,
{
    if n <= 0 {
        Seq::empty()
    } else {
        let prev = capture_list(d, moves, n - 1);
        if tactical(d, moves[n - 1]) {
            prev.push((spec_capture_score(d, moves[n - 1]) as i32, (n - 1) as usize))
        } else {
            prev
        }
    }
}

/// The indices of the quiet checking moves among the first `n` of `moves`
/// (none below the first two plies of the quiescence search).
pub open spec fn quiet_check_list(d: PosData, moves: Seq<Move>, n: int, depth: int) -> Seq<usize>
    decreases n,
{
    if n <= 0 {
        Seq::empty()
    } else {
        let prev = quiet_check_list(d, moves, n - 1, depth);
        if !tactical(d, moves[n - 1]) && depth >= -1 && lands_check(d, moves[n - 1]) {
            prev.push((n - 1) as usize)
        } else {
            prev
        }
    }
}

/// The quiescence search of `d` with window `(alpha, beta)` at `depth`
/// (0 at the horizon, down to -12) and pawn cache `es`, `m`: the score and
/// the cache it leaves. In check every legal move is searched, down to
/// twelve plies, and a position without moves is mated at the depth;
/// otherwise the static evaluation stands pat, the captures and promotions
/// are searched by decreasing ordering score, and at the first two plies,
/// in tense positions, a few quiet checks follow. The search is fail-hard:
/// a score reaching beta returns beta.
#[verifier::opaque]
pub open spec fn spec_quiesce(es: Seq<PawnEntry>, m: usize, d: PosData, alpha: int, beta: int, depth: int) -> (
    int,
    Seq<PawnEntry>,
)
    decreases depth + 12, 2int, 0int,
{
    if depth < -12 {
        (0, es)
    } else if d.checkers != 0 {
        if depth <= -12 {
            (cached_eval(es, m, d), cache_after(es, m, d))
        } else if legal_moves_of(d).len() == 0 {
            (-(MATE_SCORE + depth), es)
        } else {
            evasion_run(es, m, d, 0, -INF_SCORE as int, alpha, beta, depth)
        }
    } else {
        let sp = cached_eval(es, m, d);
        let es1 = cache_after(es, m, d);
        if depth <= -8 {
            (sp, es1)
        } else if sp >= beta {
            (beta, es1)
        } else {
            let moves = legal_moves_of(d);
            let list = capture_list(d, moves, moves.len() as int);
            let caps = sorted_prefix(list, list.len() as int);
            quiet_finish(m, d, sp, list.len() as int, beta, depth, capture_run(es1, m, d, caps, 0, max(alpha, sp), sp, beta, depth))
        }
    }
}

/// The end of the quiescence search of `d` out of check, given the outcome
/// `c` of its captures (`ncaps` of them listed, stand-pat score `sp`): beta
/// on a cut, else, at the first two plies in tense positions, the quiet
/// checks over the captures' best score.
pub open spec fn quiet_finish(
    m: usize,
    d: PosData,
    sp: int,
    ncaps: int,
    beta: int,
    depth: int,
    c: (bool, int, Seq<PawnEntry>),
) -> (int, Seq<PawnEntry>)
    decreases depth + 12, 1int, 0int,
{
    if c.0 {
        (beta, c.2)
    } else {
        let moves = legal_moves_of(d);
        let checks = quiet_check_list(d, moves, moves.len() as int, depth);
        if depth >= -1 && checks.len() > 0 && (ncaps >= 3 || (sp - c.1 < 200 && c.1 - sp < 200)) {
            check_run(c.2, m, d, checks, 0, if depth >= 0 {
                3
            } else {
                1
            }, c.1, beta, depth)
        } else {
            (c.1, c.2)
        }
    }
}

/// The moves of `d`, in check, from the `i`-th on, each searched with the
/// window `(-beta, -raised)`; the best score so far is `best`.
#[verifier::opaque]
pub open spec fn evasion_run(
    es: Seq<PawnEntry>,
    m: usize,
    d: PosData,
    i: int,
    best: int,
    raised: int,
    beta: int,
    depth: int,
) -> (int, Seq<PawnEntry>)
    decreases depth + 12, 0int, legal_moves_of(d).len() - i,
{
    if i < 0 || i >= legal_moves_of(d).len() || depth <= -12 {
        (best, es)
    } else {
        let c = spec_quiesce(es, m, after_move(d, legal_moves_of(d)[i]), -beta, -raised, depth - 1);
        let score = -c.0;
        if score >= beta {
            (beta, c.1)
        } else {
            evasion_run(c.1, m, d, i + 1, max(best, score), max(raised, score), beta, depth)
        }
    }
}

/// The captures and promotions `caps` of `d` from the `k`-th on, searched
/// with alpha raised to `raised` over the stand-pat score `sp`: a capture
/// is skipped when its victim plus two pawns cannot lift the stand-pat
/// score to alpha, or when its ordering score is below 8400, promotions
/// never. The first component tells whether the search cut off at beta.
#[verifier::opaque]
pub open spec fn capture_run(
    es: Seq<PawnEntry>,
    m: usize,
    d: PosData,
    caps: Seq<(i32, usize)>,
    k: int,
    raised: int,
    sp: int,
    beta: int,
    depth: int,
) -> (bool, int, Seq<PawnEntry>)
    decreases depth + 12, 0int, caps.len() - k,
{
    if k < 0 || k >= caps.len() || depth <= -12 {
        (false, raised, es)
    } else {
        let mv = legal_moves_of(d)[caps[k].1 as int];
        let futile = match d.piece_at(mv.to) {
            Some(v) => sp + spec_piece_value(v) + 200 < raised && mv.promotion is None,
            None => false,
        };
        if futile || (caps[k].0 < 8400 && mv.promotion is None) {
            capture_run(es, m, d, caps, k + 1, raised, sp, beta, depth)
        } else {
            let c = spec_quiesce(es, m, after_move(d, mv), -beta, -raised, depth - 1);
            let score = -c.0;
            if score >= beta {
                (true, beta, c.1)
            } else {
                capture_run(c.1, m, d, caps, k + 1, max(raised, score), sp, beta, depth)
            }
        }
    }
}

/// The quiet checks `checks` of `d` from the `k`-th on, at most `maxc` in
/// all, those losing material by exchange skipped.
#[verifier::opaque]
pub open spec fn check_run(
    es: Seq<PawnEntry>,
    m: usize,
    d: PosData,
    checks: Seq<usize>,
    k: int,
    maxc: int,
    raised: int,
    beta: int,
    depth: int,
) -> (int, Seq<PawnEntry>)
    decreases depth + 12, 0int, checks.len() - k,
{
    if k < 0 || k >= checks.len() || k >= maxc || depth <= -12 {
        (raised, es)
    } else {
        let mv = legal_moves_of(d)[checks[k] as int];
        if spec_see(d, mv) < 0 {
            check_run(es, m, d, checks, k + 1, maxc, raised, beta, depth)
        } else {
            let c = spec_quiesce(es, m, after_move(d, mv), -beta, -raised, depth - 1);
            let score = -c.0;
            if score >= beta {
                (beta, c.1)
            } else {
                check_run(c.1, m, d, checks, k + 1, maxc, max(raised, score), beta, depth)
            }
        }
    }
}

/// One step of [`evasion_run`].
proof fn lemma_evasion_step(
    es: Seq<PawnEntry>,
    m: usize,
    d: PosData,
    i: int,
    best: int,
    raised: int,
    beta: int,
    depth: int,
)
    ensures
        evasion_run(es, m, d, i, best, raised, beta, depth) == (if i < 0 || i >= legal_moves_of(
            d,
        ).len() || depth <= -12 {
            (best, es)
        } else {
            let c = spec_quiesce(es, m, after_move(d, legal_moves_of(d)[i]), -beta, -raised, depth - 1);
            let score = -c.0;
            if score >= beta {
                (beta, c.1)
            } else {
                evasion_run(c.1, m, d, i + 1, max(best, score), max(raised, score), beta, depth)
            }
        }),
{
    reveal(evasion_run);
    reveal(spec_quiesce);
}

/// One step of [`capture_run`].
proof fn lemma_capture_step(
    es: Seq<PawnEntry>,
    m: usize,
    d: PosData,
    caps: Seq<(i32, usize)>,
    k: int,
    raised: int,
    sp: int,
    beta: int,
    depth: int,
)
    ensures
        capture_run(es, m, d, caps, k, raised, sp, beta, depth) == (if k < 0 || k >= caps.len() || depth
            <= -12 {
            (false, raised, es)
        } else {
            let mv = legal_moves_of(d)[caps[k].1 as int];
            let futile = match d.piece_at(mv.to) {
                Some(v) => sp + spec_piece_value(v) + 200 < raised && mv.promotion is None,
                None => false,
            };
            if futile || (caps[k].0 < 8400 && mv.promotion is None) {
                capture_run(es, m, d, caps, k + 1, raised, sp, beta, depth)
            } else {
                let c = spec_quiesce(es, m, after_move(d, mv), -beta, -raised, depth - 1);
                let score = -c.0;
                if score >= beta {
                    (true, beta, c.1)
                } else {
                    capture_run(c.1, m, d, caps, k + 1, max(raised, score), sp, beta, depth)
                }
            }
        }),
{
    reveal(capture_run);
    reveal(spec_quiesce);
}

/// One step of [`check_run`].
proof fn lemma_check_step(
    es: Seq<PawnEntry>,
    m: usize,
    d: PosData,
    checks: Seq<usize>,
    k: int,
    maxc: int,
    raised: int,
    beta: int,
    depth: int,
)
    ensures
        check_run(es, m, d, checks, k, maxc, raised, beta, depth) == (if k < 0 || k >= checks.len() || k
            >= maxc || depth <= -12 {
            (raised, es)
        } else {
            let mv = legal_moves_of(d)[checks[k] as int];
            if spec_see(d, mv) < 0 {
                check_run(es, m, d, checks, k + 1, maxc, raised, beta, depth)
            } else {
                let c = spec_quiesce(es, m, after_move(d, mv), -beta, -raised, depth - 1);
                let score = -c.0;
                if score >= beta {
                    (beta, c.1)
                } else {
                    check_run(c.1, m, d, checks, k + 1, maxc, max(raised, score), beta, depth)
                }
            }
        }),
{
    reveal(check_run);
    reveal(spec_quiesce);
}

/// [`spec_quiesce`] in check, above the depth floor, with moves: the
/// evasions from the first.
proof fn lemma_quiesce_in_check(es: Seq<PawnEntry>, m: usize, d: PosData, alpha: int, beta: int, depth: int)
    requires
        d.checkers != 0,
        -12 < depth,
        legal_moves_of(d).len() > 0,
    ensures
        spec_quiesce(es, m, d, alpha, beta, depth) == evasion_run(es, m, d, 0, -INF_SCORE as int, alpha, beta, depth),
{
    reveal(spec_quiesce);
    reveal(evasion_run);
    reveal(capture_run);
    reveal(check_run);
}

/// [`spec_quiesce`] in its leaf cases: in check at the floor or without
/// moves, or not in check at the floor or standing pat at beta.
proof fn lemma_quiesce_leaf(es: Seq<PawnEntry>, m: usize, d: PosData, alpha: int, beta: int, depth: int)
    requires
        -12 <= depth,
    ensures
        d.checkers != 0 && depth <= -12 ==> spec_quiesce(es, m, d, alpha, beta, depth) == (
            cached_eval(es, m, d),
            cache_after(es, m, d),
        ),
        d.checkers != 0 && depth > -12 && legal_moves_of(d).len() == 0 ==> spec_quiesce(
            es,
            m,
            d,
            alpha,
            beta,
            depth,
        ) == (-(MATE_SCORE + depth), es),
        d.checkers == 0 && depth <= -8 ==> spec_quiesce(es, m, d, alpha, beta, depth) == (
            cached_eval(es, m, d),
            cache_after(es, m, d),
        ),
        d.checkers == 0 && depth > -8 && cached_eval(es, m, d) >= beta ==> spec_quiesce(
            es,
            m,
            d,
            alpha,
            beta,
            depth,
        ) == (beta, cache_after(es, m, d)),
{
    reveal(spec_quiesce);
    reveal(evasion_run);
    reveal(capture_run);
    reveal(check_run);
}

/// [`spec_quiesce`] not in check, above the floor, below beta: the
/// captures, then maybe the quiet checks.
proof fn lemma_quiesce_quiet(es: Seq<PawnEntry>, m: usize, d: PosData, alpha: int, beta: int, depth: int)
    requires
        d.checkers == 0,
        -8 < depth,
        cached_eval(es, m, d) < beta,
    ensures
        spec_quiesce(es, m, d, alpha, beta, depth) == ({
            let sp = cached_eval(es, m, d);
            let moves = legal_moves_of(d);
            let list = capture_list(d, moves, moves.len() as int);
            quiet_finish(m, d, sp, list.len() as int, beta, depth, capture_run(
                cache_after(es, m, d),
                m,
                d,
                sorted_prefix(list, list.len() as int),
                0,
                max(alpha, sp),
                sp,
                beta,
                depth,
            ))
        }),
{
    reveal(spec_quiesce);
    reveal(evasion_run);
    reveal(capture_run);
    reveal(check_run);
}

impl Searcher {
    /// The static evaluation from the side to move's point of view.
    fn static_eval(&mut self, pos: &Position) -> (r: Score)
        requires
            old(self).wf(),
            pos@.wf(),
        ensures
            final(self).wf(),
            r == static_score(old(self).evaluator, pos@),
            final(self).evaluator.pawn_table.mask() == old(self).evaluator.pawn_table.mask(),
            early_exit(pos@) ==> final(self).evaluator.pawn_table.entries() == old(self).evaluator.pawn_table.entries(),
            !early_exit(pos@) ==> final(self).evaluator.pawn_table.entries() == pawn_table_after(
                old(self).evaluator.pawn_table,
                pos@,
            ),
            r == cached_eval(
                old(self).evaluator.pawn_table.entries(),
                old(self).evaluator.pawn_table.mask(),
                pos@,
            ),
            final(self).evaluator.pawn_table.entries() == cache_after(
                old(self).evaluator.pawn_table.entries(),
                old(self).evaluator.pawn_table.mask(),
                pos@,
            ),
            final(self).tt == old(self).tt,
            final(self).killers == old(self).killers,
            final(self).history == old(self).history,
            final(self).cont_history == old(self).cont_history,
            final(self).countermove == old(self).countermove,
            final(self).hash_stack == old(self).hash_stack,
            -EVAL_BOUND <= r <= EVAL_BOUND,
            final(self).stop == old(self).stop,
            final(self).nodes == old(self).nodes,
            final(self).time_limit_ms == old(self).time_limit_ms,
            final(self).root_history == old(self).root_history,
            follows(*old(self), *final(self)),
    {
        let s = evaluate(pos, &mut self.evaluator);
        proof {
            reveal(static_score);
            reveal(cached_eval);
            reveal(cache_after);
        }
        if pos.data().side_to_move == Color::Black {
            -s
        } else {
            s
        }
    }

    /// Quiescence search: in check every move is searched (down to twelve
    /// plies below the horizon, where the static evaluation is returned, and
    /// mate is scored by the distance below the horizon); otherwise the
    /// static evaluation stands pat and captures and promotions are searched
    /// best first, skipping those that cannot raise alpha by the victim plus
    /// two pawns and those whose ordering score is below 8400, and at the
    /// first two plies below the horizon, in tense positions, up to three
    /// (then one) quiet checks that do not lose material. Eight plies below
    /// the horizon the static evaluation is returned.
    #[verifier::rlimit(100)]
    #[verifier::spinoff_prover]
    fn quiesce(&mut self, pos: &Position, alpha: Score, beta: Score, depth: i32) -> (r: Score)
        requires
            old(self).wf(),
            pos@.wf(),
            -12 <= depth <= 0,
            -QUIESCE_LIMIT <= alpha <= QUIESCE_LIMIT,
            -QUIESCE_LIMIT <= beta <= QUIESCE_LIMIT,
        ensures
            final(self).wf(),
            -QUIESCE_LIMIT <= r <= QUIESCE_LIMIT,
            min(beta as int, -EVAL_BOUND) <= r <= max(alpha as int, EVAL_BOUND as int),
            final(self).stop == old(self).stop,
            old(self).stop ==> r == 0,
            !old(self).stop && pos@.checkers != 0 && depth <= -12 ==> r == static_score(
                old(self).evaluator,
                pos@,
            ),
            !old(self).stop && pos@.checkers != 0 && depth > -12 && legal_moves_of(pos@).len() == 0
                ==> r == -(MATE_SCORE + depth),
            !old(self).stop && pos@.checkers == 0 && depth <= -8 ==> r == static_score(
                old(self).evaluator,
                pos@,
            ),
            !old(self).stop && pos@.checkers == 0 && depth > -8 && static_score(old(self).evaluator, pos@)
                >= beta ==> r == beta,
            !old(self).stop && pos@.checkers == 0 && depth > -8 ==> (r == beta || ({
                let floor = max(alpha as int, static_score(old(self).evaluator, pos@));
                floor <= r && (r == floor || r < beta)
            })),
            !old(self).stop && pos@.checkers != 0 && depth > -11 && (exists|j: int|
                0 <= j < legal_moves_of(pos@).len() && mates(pos@, #[trigger] legal_moves_of(pos@)[j]))
                ==> r >= min(beta as int, MATE_SCORE + depth - 1),
            !old(self).stop && pos@.checkers == 0 && depth > -8 && (exists|j: int|
                0 <= j < legal_moves_of(pos@).len() && quiesce_plays(
                    pos@,
                    #[trigger] legal_moves_of(pos@)[j],
                    static_score(old(self).evaluator, pos@),
                    alpha as int,
                    beta as int,
                ) && mates(pos@, legal_moves_of(pos@)[j])) ==> r >= min(
                beta as int,
                MATE_SCORE + depth - 1,
            ),
            final(self).time_limit_ms == old(self).time_limit_ms,
            final(self).root_history == old(self).root_history,
            follows(*old(self), *final(self)),
            final(self).evaluator.pawn_table.mask() == old(self).evaluator.pawn_table.mask(),
            final(self).tt == old(self).tt,
            final(self).history == old(self).history,
            final(self).hash_stack == old(self).hash_stack,
            !old(self).stop ==> (r as int, final(self).evaluator.pawn_table.entries()) == spec_quiesce(
                old(self).evaluator.pawn_table.entries(),
                old(self).evaluator.pawn_table.mask(),
                pos@,
                alpha as int,
                beta as int,
                depth as int,
            ),
        decreases depth + 12,
    {
        let ghost es0 = self.evaluator.pawn_table.entries();
        let ghost m = self.evaluator.pawn_table.mask();
        self.nodes = self.nodes.wrapping_add(1);
        if self.stop {
            return 0;
        }
        let d = pos.data();
        let in_check = d.checkers != 0;
        proof {
            lemma_quiesce_leaf(es0, m, pos@, alpha as int, beta as int, depth as int);
        }
        if in_check {
            if depth <= -12 {
                return self.static_eval(pos);
            }
            let mut best = -INF_SCORE;
            let moves = legal_moves(pos);
            if moves.len() == 0 {
                return -(MATE_SCORE + depth);
            }
            proof {
                lemma_quiesce_in_check(es0, m, pos@, alpha as int, beta as int, depth as int);
            }
            let mut raised = alpha;
            let mut i: usize = 0;
            while i < moves.len()
                invariant
                    self.wf(),
                    pos@.wf(),
                    -12 < depth <= 0,
                    pos@.checkers != 0,
                    moves@ == legal_moves_of(pos@),
                    i <= moves@.len(),
                    depth > -11 ==> forall|k: int|
                        0 <= k < i && mates(pos@, #[trigger] moves@[k]) ==> best >= MATE_SCORE + depth - 1,
                    -QUIESCE_LIMIT <= raised <= QUIESCE_LIMIT,
                    -QUIESCE_LIMIT <= beta <= QUIESCE_LIMIT,
                    -INF_SCORE <= best <= QUIESCE_LIMIT,
                    raised <= max(alpha as int, EVAL_BOUND as int),
                    best <= max(alpha as int, EVAL_BOUND as int),
                    i > 0 ==> best >= min(beta as int, -EVAL_BOUND),
                    self.stop == old(self).stop,
                    !self.stop,
                    self.time_limit_ms == old(self).time_limit_ms,
                    self.root_history == old(self).root_history,
                    self.tt == old(self).tt,
                    self.history == old(self).history,
                    self.hash_stack == old(self).hash_stack,
                    self.evaluator.pawn_table.mask() == m,
                    m == old(self).evaluator.pawn_table.mask(),
                    es0 == old(self).evaluator.pawn_table.entries(),
                    evasion_run(
                        self.evaluator.pawn_table.entries(),
                        m,
                        pos@,
                        i as int,
                        best as int,
                        raised as int,
                        beta as int,
                        depth as int,
                    ) == spec_quiesce(es0, m, pos@, alpha as int, beta as int, depth as int),
                decreases moves@.len() - i,
            {
                let mv = moves[i];
                proof {
                    lemma_listed_legal(pos@, moves@, i as int);
                    lemma_evasion_step(
                        self.evaluator.pawn_table.entries(),
                        m,
                        pos@,
                        i as int,
                        best as int,
                        raised as int,
                        beta as int,
                        depth as int,
                    );
                }
                let child = play(pos, mv);
                let score = -self.quiesce(&child, -beta, -raised, depth - 1);
                if score > best {
                    best = score;
                }
                if score >= beta {
                    return beta;
                }
                if score > raised {
                    raised = score;
                }
                i = i + 1;
            }
            proof {
                lemma_evasion_step(
                    self.evaluator.pawn_table.entries(),
                    m,
                    pos@,
                    i as int,
                    best as int,
                    raised as int,
                    beta as int,
                    depth as int,
                );
            }
            return best;
        }
        let stand_pat = self.static_eval(pos);
        if depth <= -8 {
            return stand_pat;
        }
        if stand_pat >= beta {
            return beta;
        }
        proof {
            lemma_quiesce_quiet(es0, m, pos@, alpha as int, beta as int, depth as int);
        }
        let mut raised = alpha;
        if stand_pat > raised {
            raised = stand_pat;
        }
        let ghost floor = raised as int;
        let moves = legal_moves(pos);
        let mut captures: Vec<(i32, usize)> = Vec::new();
        let mut quiet_checks: Vec<usize> = Vec::new();
        let mut capture_count: usize = 0;
        let occ = d.occupied();
        let ek = d.king(d.side_to_move.other());
        let check_knight = knight_moves(ek);
        let check_bishop = bishop_moves(ek, occ);
        let check_rook = rook_moves(ek, occ);
        let mut i: usize = 0;
        while i < moves.len()
            invariant
                i <= moves@.len(),
                moves@ == legal_moves_of(pos@),
                forall|j: int| 0 <= j < moves@.len() ==> (#[trigger] moves@[j]).wf(),
                forall|k: int| 0 <= k < captures@.len() ==> (#[trigger] captures@[k]).1 < moves@.len(),
                forall|k: int| 0 <= k < quiet_checks@.len() ==> #[trigger] quiet_checks@[k] < moves@.len(),
                ek < 64,
                capture_count <= i,
                *d == pos@,
                forall|j: int| 0 <= j < i && tactical(pos@, moves@[j]) ==> #[trigger] listed(captures@, j),
                forall|k: int|
                    0 <= k < captures@.len() ==> (#[trigger] captures@[k]).0 == spec_capture_score(
                        pos@,
                        moves@[captures@[k].1 as int],
                    ),
                captures@ == capture_list(pos@, moves@, i as int),
                capture_count == captures@.len(),
                quiet_checks@ == quiet_check_list(pos@, moves@, i as int, depth as int),
                ek == pos@.king_sq(pos@.side_to_move.spec_other()),
                occ == pos@.occ(),
                check_knight == knight_attacks(ek),
                check_bishop == bishop_attacks(ek, occ),
                check_rook == rook_attacks(ek, occ),
            decreases moves@.len() - i,
        {
            let mv = moves[i];
            let ghost before = captures@;
            if is_capture(d, mv) || mv.promotion.is_some() {
                captures.push((capture_score(d, mv), i));
                proof {
                    assert(captures@[captures@.len() - 1].1 == i);
                    assert forall|j: int| 0 <= j < i + 1 && tactical(pos@, moves@[j]) implies #[trigger] listed(
                        captures@,
                        j,
                    ) by {
                        if j < i {
                            assert(listed(before, j));
                            let k = choose|k: int| 0 <= k < before.len() && (#[trigger] before[k]).1 == j;
                            assert(captures@[k] == before[k]);
                        }
                    }
                }
                capture_count = capture_count + 1;
            } else if depth >= -1 {
                if let Some(piece) = d.piece_on(mv.from) {
                    let lands_check = match piece {
                        Piece::Knight => has(check_knight, mv.to),
                        Piece::Bishop => has(check_bishop, mv.to),
                        Piece::Rook => has(check_rook, mv.to),
                        Piece::Queen => has(check_bishop | check_rook, mv.to),
                        Piece::Pawn => has(pawn_attack_moves(mv.to, d.side_to_move), ek),
                        Piece::King => false,
                    };
                    if lands_check {
                        quiet_checks.push(i);
                    }
                }
            }
            i = i + 1;
        }
        let ghost unsorted = captures@;
        let captures = sort_desc(captures);
        let ghost es1 = self.evaluator.pawn_table.entries();
        let ghost raised0 = raised as int;
        let ghost cap_out = capture_run(
            es1,
            m,
            pos@,
            captures@,
            0,
            raised0,
            stand_pat as int,
            beta as int,
            depth as int,
        );
        proof {
            assert forall|k: int| 0 <= k < captures@.len() implies (#[trigger] captures@[k]).0
                == spec_capture_score(pos@, moves@[captures@[k].1 as int]) by {
                assert(unsorted.contains(captures@[k]));
                let j = choose|j: int| 0 <= j < unsorted.len() && unsorted[j] == captures@[k];
            }
            assert forall|j: int| 0 <= j < moves@.len() && tactical(pos@, moves@[j]) implies #[trigger] listed(
                captures@,
                j,
            ) by {
                assert(listed(unsorted, j));
                let k = choose|k: int| 0 <= k < unsorted.len() && (#[trigger] unsorted[k]).1 == j;
                assert(captures@.contains(unsorted[k]));
                let k2 = choose|k2: int| 0 <= k2 < captures@.len() && captures@[k2] == unsorted[k];
                assert(captures@[k2].1 == j);
            }
            assert(spec_quiesce(es0, m, pos@, alpha as int, beta as int, depth as int) == quiet_finish(
                m,
                pos@,
                stand_pat as int,
                capture_count as int,
                beta as int,
                depth as int,
                cap_out,
            ));
        }
        let mut q: usize = 0;
        while q < captures.len()
            invariant
                self.wf(),
                pos@.wf(),
                -8 < depth <= 0,
                moves@ == legal_moves_of(pos@),
                forall|j: int| 0 <= j < moves@.len() ==> (#[trigger] moves@[j]).wf(),
                forall|k: int| 0 <= k < captures@.len() ==> (#[trigger] captures@[k]).1 < moves@.len(),
                -QUIESCE_LIMIT <= raised <= QUIESCE_LIMIT,
                -QUIESCE_LIMIT <= beta <= QUIESCE_LIMIT,
                -EVAL_BOUND <= stand_pat <= EVAL_BOUND,
                floor <= raised,
                raised == floor || raised < beta,
                raised <= max(alpha as int, EVAL_BOUND as int),
                -EVAL_BOUND <= floor,
                self.stop == old(self).stop,
                !self.stop,
                self.time_limit_ms == old(self).time_limit_ms,
                self.root_history == old(self).root_history,
                self.tt == old(self).tt,
                self.history == old(self).history,
                self.hash_stack == old(self).hash_stack,
                q <= captures@.len(),
                forall|j: int| 0 <= j < moves@.len() && tactical(pos@, moves@[j]) ==> #[trigger] listed(captures@, j),
                forall|k: int|
                    0 <= k < captures@.len() ==> (#[trigger] captures@[k]).0 == spec_capture_score(
                        pos@,
                        moves@[captures@[k].1 as int],
                    ),
                *d == pos@,
                stand_pat < beta,
                alpha < beta ==> floor < beta,
                forall|k: int|
                    0 <= k < q && quiesce_plays(
                        pos@,
                        moves@[(#[trigger] captures@[k]).1 as int],
                        stand_pat as int,
                        alpha as int,
                        beta as int,
                    ) && mates(pos@, moves@[captures@[k].1 as int]) ==> raised >= MATE_SCORE + depth - 1,
                self.evaluator.pawn_table.mask() == m,
                m == old(self).evaluator.pawn_table.mask(),
                es0 == old(self).evaluator.pawn_table.entries(),
                spec_quiesce(es0, m, pos@, alpha as int, beta as int, depth as int) == quiet_finish(
                    m,
                    pos@,
                    stand_pat as int,
                    capture_count as int,
                    beta as int,
                    depth as int,
                    cap_out,
                ),
                capture_run(
                    self.evaluator.pawn_table.entries(),
                    m,
                    pos@,
                    captures@,
                    q as int,
                    raised as int,
                    stand_pat as int,
                    beta as int,
                    depth as int,
                ) == cap_out,
            decreases captures@.len() - q,
        {
            let (see_score, idx) = captures[q];
            let mv = moves[idx];
            proof {
                lemma_capture_step(
                    self.evaluator.pawn_table.entries(),
                    m,
                    pos@,
                    captures@,
                    q as int,
                    raised as int,
                    stand_pat as int,
                    beta as int,
                    depth as int,
                );
            }
            q = q + 1;
            if let Some(victim) = d.piece_on(mv.to) {
                let delta = stand_pat + piece_value(victim) + 200;
                if delta < raised && mv.promotion.is_none() {
                    continue;
                }
            }
            if see_score < 8_400 && mv.promotion.is_none() {
                continue;
            }
            proof {
                lemma_listed_legal(pos@, moves@, idx as int);
            }
            let child = play(pos, mv);
            let score = -self.quiesce(&child, -beta, -raised, depth - 1);
            if score >= beta {
                return beta;
            }
            if score > raised {
                raised = score;
            }
        }
        proof {
            if exists|j: int|
                0 <= j < moves@.len() && quiesce_plays(
                    pos@,
                    #[trigger] moves@[j],
                    stand_pat as int,
                    alpha as int,
                    beta as int,
                ) && mates(pos@, moves@[j]) {
                let j = choose|j: int|
                    0 <= j < moves@.len() && quiesce_plays(
                        pos@,
                        #[trigger] moves@[j],
                        stand_pat as int,
                        alpha as int,
                        beta as int,
                    ) && mates(pos@, moves@[j]);
                assert(tactical(pos@, moves@[j]));
                assert(listed(captures@, j));
                let k = choose|k: int| 0 <= k < captures@.len() && (#[trigger] captures@[k]).1 == j;
                assert(raised >= MATE_SCORE + depth - 1);
            }
            lemma_capture_step(
                self.evaluator.pawn_table.entries(),
                m,
                pos@,
                captures@,
                q as int,
                raised as int,
                stand_pat as int,
                beta as int,
                depth as int,
            );
        }
        let ghost after_captures = raised;
        let ghost es2 = self.evaluator.pawn_table.entries();
        if depth >= -1 && quiet_checks.len() > 0 {
            let volatile = capture_count >= 3 || (stand_pat - raised < PAWN_VALUE * 2 && raised
                - stand_pat < PAWN_VALUE * 2);
            if volatile {
                let max_checks: usize = if depth >= 0 {
                    3
                } else {
                    1
                };
                let ghost check_out = check_run(
                    es2,
                    m,
                    pos@,
                    quiet_checks@,
                    0,
                    max_checks as int,
                    raised as int,
                    beta as int,
                    depth as int,
                );
                let mut k: usize = 0;
                while k < quiet_checks.len() && k < max_checks
                    invariant
                        self.wf(),
                        pos@.wf(),
                        -1 <= depth <= 0,
                        moves@ == legal_moves_of(pos@),
                        forall|j: int| 0 <= j < moves@.len() ==> (#[trigger] moves@[j]).wf(),
                        forall|j: int| 0 <= j < quiet_checks@.len() ==> #[trigger] quiet_checks@[j] < moves@.len(),
                        -QUIESCE_LIMIT <= raised <= QUIESCE_LIMIT,
                        -QUIESCE_LIMIT <= beta <= QUIESCE_LIMIT,
                        after_captures <= raised,
                        floor <= raised,
                        raised == floor || raised < beta,
                        raised <= max(alpha as int, EVAL_BOUND as int),
                        -EVAL_BOUND <= floor,
                        self.stop == old(self).stop,
                        !self.stop,
                        self.time_limit_ms == old(self).time_limit_ms,
                        self.root_history == old(self).root_history,
                        self.tt == old(self).tt,
                        self.history == old(self).history,
                        self.hash_stack == old(self).hash_stack,
                        self.evaluator.pawn_table.mask() == m,
                        m == old(self).evaluator.pawn_table.mask(),
                        es0 == old(self).evaluator.pawn_table.entries(),
                        check_out == spec_quiesce(es0, m, pos@, alpha as int, beta as int, depth as int),
                        *d == pos@,
                        check_run(
                            self.evaluator.pawn_table.entries(),
                            m,
                            pos@,
                            quiet_checks@,
                            k as int,
                            max_checks as int,
                            raised as int,
                            beta as int,
                            depth as int,
                        ) == check_out,
                    decreases quiet_checks@.len() - k,
                {
                    let idx = quiet_checks[k];
                    let mv = moves[idx];
                    proof {
                        lemma_check_step(
                            self.evaluator.pawn_table.entries(),
                            m,
                            pos@,
                            quiet_checks@,
                            k as int,
                            max_checks as int,
                            raised as int,
                            beta as int,
                            depth as int,
                        );
                    }
                    k = k + 1;
                    if see(d, mv) < 0 {
                        continue;
                    }
                    proof {
                        lemma_listed_legal(pos@, moves@, idx as int);
                    }
                    let child = play(pos, mv);
                    let score = -self.quiesce(&child, -beta, -raised, depth - 1);
                    if score >= beta {
                        return beta;
                    }
                    if score > raised {
                        raised = score;
                    }
                }
                proof {
                    lemma_check_step(
                        self.evaluator.pawn_table.entries(),
                        m,
                        pos@,
                        quiet_checks@,
                        k as int,
                        max_checks as int,
                        raised as int,
                        beta as int,
                        depth as int,
                    );
                }
            }
        }
        raised
    }
}

/// Number of times `x` occurs in `s`.
pub open spec fn occurrences(s: Seq<u64>, x: u64) -> nat
    decreases s.len(),
{
    if s.len() == 0 {
        0
    } else {
        occurrences(s.drop_last(), x) + if s.last() == x {
            1nat
        } else {
            0nat
        }
    }
}

/// A value that does not occur in `s` occurs in it zero times.
proof fn lemma_occurrences_absent(s: Seq<u64>, x: u64)
    requires
        !s.contains(x),
    ensures
        occurrences(s, x) == 0,
    decreases s.len(),
{
    if s.len() > 0 {
        assert(!s.drop_last().contains(x)) by {
            if s.drop_last().contains(x) {
                let j = choose|j: int| 0 <= j < s.drop_last().len() && s.drop_last()[j] == x;
                assert(s[j] == x);
            }
        }
        lemma_occurrences_absent(s.drop_last(), x);
    }
}

/// A child position `child`, searched at `ply` to `depth`, that the
/// searcher `s` hands straight to the quiescence search: not in check, with
/// moves and below the fifty-move limit, no table entry deep enough to end
/// its search, and no repetition on the search path or of the game.
#[verifier::opaque]
spec fn horizon_child(s: Searcher, child: PosData, ply: int, depth: int) -> bool {
    &&& child.checkers == 0
    &&& legal_moves_of(child).len() > 0
    &&& child.halfmove_clock < 100
    &&& !table_may_cut(s.tt, child.hash, depth)
    &&& !repeats_on_path(s.hash_stack@, child.hash, ply)
    &&& !s.root_history@.contains(child.hash)
}

/// `a` and `b` agree below index `n`.
spec fn agree_below(a: Seq<u64>, b: Seq<u64>, n: int) -> bool {
    a.len() == b.len() && forall|t: int| 0 <= t < n && t < a.len() ==> a[t] == b[t]
}

/// Search paths that agree below `ply` repeat the same keys before `ply`.
proof fn lemma_agree_repeats(a: Seq<u64>, b: Seq<u64>, key: u64, ply: int)
    requires
        agree_below(a, b, ply),
        ply <= a.len(),
    ensures
        repeats_on_path(a, key, ply) == repeats_on_path(b, key, ply),
{
    if repeats_on_path(a, key, ply) {
        let j = choose|j: int| 1 <= j && 2 * j <= ply && #[trigger] path_hash(a, ply, j) == key;
        assert(path_hash(b, ply, j) == key);
    }
    if repeats_on_path(b, key, ply) {
        let j = choose|j: int| 1 <= j && 2 * j <= ply && #[trigger] path_hash(b, ply, j) == key;
        assert(path_hash(a, ply, j) == key);
    }
}

/// The score, from the parent's side, and the pawn cache after the
/// principal variation search of the horizon child `child`, move number
/// `i`, within `(alpha, beta)`: the first move with the full window, the
/// others with a null window and, when they beat alpha, again with the full
/// window.
spec fn pvs_value(es: Seq<PawnEntry>, m: usize, child: PosData, i: int, alpha: int, beta: int) -> (
    int,
    Seq<PawnEntry>,
) {
    if i == 0 {
        let c = spec_quiesce(es, m, child, -beta, -alpha, 0);
        (-c.0, c.1)
    } else {
        let c1 = spec_quiesce(es, m, child, -alpha - 1, -alpha, 0);
        if -c1.0 > alpha {
            let c2 = spec_quiesce(c1.1, m, child, -beta, -alpha, 0);
            (-c2.0, c2.1)
        } else {
            (-c1.0, c1.1)
        }
    }
}

/// Every move of `moves` at a node of depth one leads, without extension,
/// to a horizon child (see [`horizon_child`]) of the searcher `s`.
#[verifier::opaque]
spec fn horizon_moves(
    s: Searcher,
    d: PosData,
    moves: Seq<Move>,
    ply: int,
    extensions: int,
    recapture_sq: Option<u8>,
) -> bool {
    forall|k: int|
        0 <= k < moves.len() ==> spec_extension(d, #[trigger] moves[k], 1, extensions, capture(d, moves[k]), recapture_sq)
            == 0 && horizon_child(s, after_move(d, moves[k]), ply + 1, 0)
}

/// The best score of the move loop of a node of depth one whose moves all
/// lead to horizon children, from move `k` on, with the best score `best`,
/// alpha raised to `raised` and `quiets` quiet moves tried so far: pruned
/// quiet moves are skipped, and so are quiet moves after the first at a
/// frontier node (`futility`), the others scored by [`pvs_value`] with the
/// pawn cache threaded through, and the loop ends at the first score that
/// reaches beta.
#[verifier::opaque]
spec fn move_loop_value(
    es: Seq<PawnEntry>,
    m: usize,
    d: PosData,
    moves: Seq<Move>,
    k: int,
    best: int,
    raised: int,
    beta: int,
    quiets: int,
    hist: Seq<i16>,
    ply: int,
    improving: bool,
    is_pv: bool,
    futility: bool,
) -> int
    decreases moves.len() - k,
{
    if k < 0 || k >= moves.len() {
        best
    } else {
        let mv = moves[k];
        let quiet = !capture(d, mv) && mv.promotion is None;
        let color = if d.side_to_move == Color::White {
            0int
        } else {
            1int
        };
        if spec_pruned_quiet(hist, mv, k, 1, ply, color, quiets, quiet, improving, is_pv, d.checkers != 0) {
            move_loop_value(es, m, d, moves, k + 1, best, raised, beta, quiets + 1, hist, ply, improving, is_pv, futility)
        } else if futility && quiet && k > 0 {
            move_loop_value(es, m, d, moves, k + 1, best, raised, beta, quiets, hist, ply, improving, is_pv, futility)
        } else {
            let c = pvs_value(es, m, after_move(d, mv), k, raised, beta);
            let best2 = if c.0 > best {
                c.0
            } else {
                best
            };
            let raised2 = if c.0 > best && c.0 > raised {
                c.0
            } else {
                raised
            };
            if raised2 >= beta {
                best2
            } else {
                move_loop_value(c.1, m, d, moves, k + 1, best2, raised2, beta, if quiet {
                    quiets + 1
                } else {
                    quiets
                }, hist, ply, improving, is_pv, futility)
            }
        }
    }
}

/// A store of a score within the limit keeps every stored score within it.
proof fn lemma_store_keeps_scores(
    entries: Seq<TtEntry>,
    mask: usize,
    generation: u8,
    key: u64,
    score: Score,
    static_eval: Score,
    depth: i8,
    bound: Bound,
    best_move: Option<Move>,
)
    requires
        0 <= slot(mask, key) < entries.len(),
        forall|i: int| 0 <= i < entries.len() ==> -SCORE_LIMIT <= (#[trigger] entries[i]).score <= SCORE_LIMIT,
        -SCORE_LIMIT <= score <= SCORE_LIMIT,
        forall|i: int| 0 <= i < entries.len() ==> entry_in_limit(#[trigger] entries[i]),
        (bound is Upper || bound is Exact) ==> -value_limit() <= score,
        (bound is Lower || bound is Exact) ==> score <= value_limit(),
    ensures
        ({
            let r = store_result(entries, mask, generation, key, score, static_eval, depth, bound, best_move);
            &&& r.len() == entries.len()
            &&& forall|i: int| 0 <= i < r.len() ==> -SCORE_LIMIT <= (#[trigger] r[i]).score <= SCORE_LIMIT
            &&& forall|i: int| 0 <= i < r.len() ==> entry_in_limit(#[trigger] r[i])
        }),
{
}

/// The score of a root move whose position occurred once before, by the
/// static evaluation `e` of the position it leads to: an advantage above a
/// pawn is charged (up to a queen), a side worse by more than a pawn takes
/// the draw, and otherwise half a pawn is charged.
pub open spec fn repetition_charge(e: int) -> int {
    if e > PAWN_VALUE {
        DRAW_SCORE - (if e < QUEEN_VALUE { e } else { QUEEN_VALUE as int })
    } else if e < -PAWN_VALUE {
        DRAW_SCORE as int
    } else {
        -PAWN_VALUE / 2
    }
}

impl Searcher {
    /// At the root, the score of a move whose position occurred earlier in
    /// the game: `None` when it did not, a draw when it occurred twice;
    /// after one occurrence, a side that stands better than a pawn is
    /// charged its advantage (up to a queen), a side worse by a pawn takes
    /// the draw, and otherwise half a pawn is charged.
    #[verifier::rlimit(100)]
    #[verifier::spinoff_prover]
    fn root_repetition_score(&mut self, pos: &Position, child_hash: u64) -> (r: Option<Score>)
        requires
            old(self).wf(),
            pos@.wf(),
        ensures
            follows(*old(self), *final(self)),
            final(self).stop == old(self).stop,
            r is None <==> occurrences(old(self).root_history@, child_hash) == 0,
            occurrences(old(self).root_history@, child_hash) >= 2 ==> r == Some(DRAW_SCORE),
            occurrences(old(self).root_history@, child_hash) == 1 ==> (r matches Some(s) && s
                == repetition_charge(static_score(old(self).evaluator, pos@))),
            r matches Some(s) ==> -QUEEN_VALUE <= s <= 0,
            r is None ==> *final(self) == *old(self),
    {
        let mut repeats: usize = 0;
        let mut k: usize = 0;
        while k < self.root_history.len()
            invariant
                k <= self.root_history@.len(),
                repeats == occurrences(self.root_history@.subrange(0, k as int), child_hash),
                repeats <= k,
            decreases self.root_history@.len() - k,
        {
            assert(self.root_history@.subrange(0, k + 1).drop_last() =~= self.root_history@.subrange(0, k as int));
            if self.root_history[k] == child_hash {
                repeats = repeats + 1;
            }
            k = k + 1;
        }
        assert(self.root_history@.subrange(0, k as int) =~= self.root_history@);
        if repeats == 0 {
            return None;
        }
        if repeats >= 2 {
            return Some(DRAW_SCORE);
        }
        let static_eval = self.static_eval(pos);
        if static_eval > PAWN_VALUE {
            Some(DRAW_SCORE - imin(static_eval, QUEEN_VALUE))
        } else if static_eval < -PAWN_VALUE {
            Some(DRAW_SCORE)
        } else {
            Some(-PAWN_VALUE / 2)
        }
    }

    /// Null move pruning: passes the move and searches `3 + depth / 4 +
    /// min((static_eval - beta) / (2 * tempo), 3)` plies shallower with a null
    /// window at `beta`; a fail high prunes the node, verified by a reduced
    /// search of the node itself from depth 12.
    #[verifier::rlimit(100)]
    #[verifier::spinoff_prover]
    fn null_move_prune(
        &mut self,
        pos: &Position,
        depth: i32,
        beta: Score,
        ply: usize,
        extensions: i32,
        recapture_sq: Option<u8>,
        prev_move: Option<Move>,
        static_eval: Score,
    ) -> (r: bool)
        requires
            old(self).wf(),
            pos@.wf(),
            pos@.checkers == 0,
            0 <= extensions <= 5,
            3 <= depth,
            ply + budget(depth as int, extensions as int) <= ply_budget(),
            -window_limit(ply as int, budget(depth as int, extensions as int)) <= beta
                <= window_limit(ply as int, budget(depth as int, extensions as int)),
            beta <= static_eval <= EVAL_BOUND,
            prev_move matches Some(m) ==> m.wf(),
            recapture_sq matches Some(s) ==> s < 64,
        ensures
            follows(*old(self), *final(self)),
            old(self).stop ==> r == (beta <= 0),
            !final(self).stop && depth < 12 && legal_moves_of(after_null_move(pos@)).len() == 0 ==> r
                == (-terminal_score(after_null_move(pos@), ply + 1) >= beta),
        decreases 16 * budget(depth as int, extensions as int) + 12,
    {
        let r = 3 + depth / 4 + imin((static_eval - beta) / (2 * TEMPO), 3);
        if let Some(null_pos) = null_move(pos) {
            let mut scratch: Vec<Move> = Vec::new();
            let null_score = -self.alpha_beta(
                &null_pos,
                depth - 1 - r,
                -beta,
                -beta + 1,
                &mut scratch,
                ply + 1,
                extensions,
                None,
                None,
            );
            if null_score >= beta {
                if depth >= 12 {
                    let mut scratch2: Vec<Move> = Vec::new();
                    let v = self.alpha_beta(
                        pos,
                        depth - r,
                        beta - 1,
                        beta,
                        &mut scratch2,
                        ply,
                        extensions,
                        recapture_sq,
                        prev_move,
                    );
                    return v >= beta;
                } else {
                    return true;
                }
            }
        }
        false
    }

    /// ProbCut: the captures that win material by exchange are searched four
    /// plies shallower against `beta + 100`; the first score that reaches it
    /// is returned.
    #[verifier::rlimit(100)]
    #[verifier::spinoff_prover]
    fn probcut(&mut self, pos: &Position, depth: i32, beta: Score, ply: usize, extensions: i32) -> (r:
        Option<Score>)
        requires
            old(self).wf(),
            pos@.wf(),
            0 <= extensions <= 5,
            5 <= depth,
            ply + budget(depth as int, extensions as int) <= ply_budget(),
            -window_limit(ply as int, budget(depth as int, extensions as int)) <= beta
                <= window_limit(ply as int, budget(depth as int, extensions as int)),
        ensures
            follows(*old(self), *final(self)),
            r matches Some(s) ==> -(SCORE_LIMIT - ply) <= s <= SCORE_LIMIT - ply,
            r matches Some(s) ==> s >= beta + PROBCUT_MARGIN && has_winning_capture(pos@),
            r matches Some(s) ==> s <= ply_value_limit(ply as int),
            !has_winning_capture(pos@) ==> r is None,
            old(self).stop ==> r == (if has_winning_capture(pos@) && beta + PROBCUT_MARGIN <= 0 {
                Some(0i32)
            } else {
                None
            }),
            !final(self).stop && MATE_SCORE - (ply + 1) >= beta + PROBCUT_MARGIN && (exists|j: int|
                0 <= j < legal_moves_of(pos@).len() && #[trigger] winning_capture(
                    pos@,
                    legal_moves_of(pos@)[j],
                ) && mates(pos@, legal_moves_of(pos@)[j])) ==> r is Some,
        decreases 16 * budget(depth as int, extensions as int) + 12,
    {
        let probcut_beta = beta + PROBCUT_MARGIN;
        let probcut_depth = depth - 4;
        let d = pos.data();
        let moves = legal_moves(pos);
        let mut cands: Vec<usize> = Vec::new();
        let mut i: usize = 0;
        while i < moves.len()
            invariant
                i <= moves@.len(),
                *d == pos@,
                moves@ == legal_moves_of(pos@),
                forall|j: int| 0 <= j < moves@.len() ==> (#[trigger] moves@[j]).wf(),
                forall|k: int| 0 <= k < cands@.len() ==> #[trigger] cands@[k] < moves@.len(),
                forall|k: int|
                    0 <= k < cands@.len() ==> winning_capture(pos@, moves@[#[trigger] cands@[k] as int]),
                forall|j: int|
                    0 <= j < i && winning_capture(pos@, #[trigger] moves@[j]) ==> has_index(cands@, j),
            decreases moves@.len() - i,
        {
            let mv = moves[i];
            if is_capture(d, mv) && see(d, mv) > 0 {
                let ghost before = cands@;
                cands.push(i);
                proof {
                    assert(cands@[cands@.len() - 1] == i);
                    assert forall|j: int|
                        0 <= j < i + 1 && winning_capture(pos@, #[trigger] moves@[j]) implies has_index(
                        cands@,
                        j,
                    ) by {
                        if j < i {
                            assert(has_index(before, j));
                            let q = choose|q: int| 0 <= q < before.len() && before[q] == j;
                            assert(cands@[q] == before[q]);
                        }
                    }
                }
            }
            i = i + 1;
        }
        proof {
            if has_winning_capture(pos@) {
                let j = choose|j: int|
                    0 <= j < legal_moves_of(pos@).len() && #[trigger] winning_capture(
                        pos@,
                        legal_moves_of(pos@)[j],
                    );
                assert(has_index(cands@, j));
            }
        }
        let mut k: usize = 0;
        while k < cands.len()
            invariant
                follows(*old(self), *self),
                pos@.wf(),
                moves@ == legal_moves_of(pos@),
                forall|j: int| 0 <= j < moves@.len() ==> (#[trigger] moves@[j]).wf(),
                forall|k: int| 0 <= k < cands@.len() ==> #[trigger] cands@[k] < moves@.len(),
                forall|k: int|
                    0 <= k < cands@.len() ==> winning_capture(pos@, moves@[#[trigger] cands@[k] as int]),
                forall|j: int|
                    0 <= j < moves@.len() && winning_capture(pos@, #[trigger] moves@[j]) ==> has_index(
                        cands@,
                        j,
                    ),
                has_winning_capture(pos@) ==> cands@.len() > 0,
                old(self).stop ==> (k > 0 ==> 0 < probcut_beta),
                forall|q: int|
                    0 <= q < k && mates(pos@, moves@[#[trigger] cands@[q] as int]) && MATE_SCORE - (
                    ply + 1) >= probcut_beta ==> self.stop,
                0 <= extensions <= 5,
                5 <= depth,
                probcut_depth == depth - 4,
                probcut_beta == beta + PROBCUT_MARGIN,
                ply + budget(depth as int, extensions as int) <= ply_budget(),
                -window_limit(ply as int, budget(depth as int, extensions as int)) <= beta
                    <= window_limit(ply as int, budget(depth as int, extensions as int)),
            decreases cands@.len() - k,
        {
            let idx = cands[k];
            let mv = moves[idx];
            proof {
                lemma_listed_legal(pos@, moves@, idx as int);
            }
            let child = play(pos, mv);
            let mut scratch: Vec<Move> = Vec::new();
            let score = -self.alpha_beta(
                &child,
                probcut_depth,
                -probcut_beta,
                -probcut_beta + 1,
                &mut scratch,
                ply + 1,
                extensions,
                None,
                Some(mv),
            );
            if score >= probcut_beta {
                proof {
                    assert(winning_capture(pos@, moves@[idx as int]));
                }
                return Some(score);
            }
            k = k + 1;
        }
        proof {
            if !self.stop && MATE_SCORE - (ply + 1) >= probcut_beta && (exists|j: int|
                0 <= j < legal_moves_of(pos@).len() && #[trigger] winning_capture(
                    pos@,
                    legal_moves_of(pos@)[j],
                ) && mates(pos@, legal_moves_of(pos@)[j])) {
                let j = choose|j: int|
                    0 <= j < legal_moves_of(pos@).len() && #[trigger] winning_capture(
                        pos@,
                        legal_moves_of(pos@)[j],
                    ) && mates(pos@, legal_moves_of(pos@)[j]);
                assert(has_index(cands@, j));
                let q = choose|q: int| 0 <= q < cands@.len() && cands@[q] == j;
                assert(mates(pos@, moves@[cands@[q] as int]));
            }
        }
        None
    }

    /// Singular extension test: the best null-window score against `s_beta`
    /// of every move but `excluded`, stopping at the first that reaches it.
    fn singular_search(
        &mut self,
        pos: &Position,
        depth: i32,
        s_beta: Score,
        ply: usize,
        extensions: i32,
        recapture_sq: Option<u8>,
        prev_move: Option<Move>,
        excluded: Move,
    ) -> (r: Score)
        requires
            old(self).wf(),
            pos@.wf(),
            0 <= extensions <= 5,
            0 <= depth,
            ply + 1 + budget(depth as int, extensions as int) <= ply_budget(),
            -INF_SCORE <= s_beta <= INF_SCORE,
            recapture_sq matches Some(s) ==> s < 64,
        ensures
            follows(*old(self), *final(self)),
            -INF_SCORE <= r <= SCORE_LIMIT - ply,
            (forall|j: int|
                0 <= j < legal_moves_of(pos@).len() ==> #[trigger] legal_moves_of(pos@)[j] == excluded)
                ==> r == -INF_SCORE,
            old(self).stop && (exists|j: int|
                0 <= j < legal_moves_of(pos@).len() && #[trigger] legal_moves_of(pos@)[j] != excluded)
                ==> r == 0,
            !final(self).stop && (exists|j: int|
                0 <= j < legal_moves_of(pos@).len() && #[trigger] legal_moves_of(pos@)[j] != excluded
                    && mates(pos@, legal_moves_of(pos@)[j])) ==> r >= min(
                s_beta as int,
                MATE_SCORE - ply - 1,
            ),
        decreases 16 * budget(depth as int, extensions as int) + 16,
    {
        let mut best = -INF_SCORE;
        let moves = legal_moves(pos);
        let mut i: usize = 0;
        while i < moves.len()
            invariant
                follows(*old(self), *self),
                pos@.wf(),
                moves@ == legal_moves_of(pos@),
                forall|j: int| 0 <= j < moves@.len() ==> (#[trigger] moves@[j]).wf(),
                0 <= extensions <= 5,
                0 <= depth,
                ply + 1 + budget(depth as int, extensions as int) <= ply_budget(),
                -INF_SCORE <= s_beta <= INF_SCORE,
                -INF_SCORE <= best <= SCORE_LIMIT - ply,
                recapture_sq matches Some(s) ==> s < 64,
                i <= moves@.len(),
                (forall|j: int| 0 <= j < i ==> #[trigger] moves@[j] == excluded) ==> best == -INF_SCORE,
                old(self).stop ==> best <= 0,
                old(self).stop && (exists|j: int| 0 <= j < i && #[trigger] moves@[j] != excluded)
                    ==> best == 0,
                !self.stop && (exists|j: int|
                    0 <= j < i && #[trigger] moves@[j] != excluded && mates(pos@, moves@[j])) ==> best
                    >= min(s_beta as int, MATE_SCORE - ply - 1),
            decreases moves@.len() - i,
        {
            let mv = moves[i];
            i = i + 1;
            if mv == excluded {
                continue;
            }
            proof {
                lemma_listed_legal(pos@, moves@, i - 1);
            }
            let child = play(pos, mv);
            let mut scratch: Vec<Move> = Vec::new();
            let score = -self.alpha_beta(
                &child,
                depth,
                -s_beta,
                -s_beta + 1,
                &mut scratch,
                ply + 1,
                extensions,
                recapture_sq,
                Some(mv),
            );
            if score > best {
                best = score;
            }
            if best >= s_beta {
                return best;
            }
        }
        best
    }
}

impl Searcher {
    /// Alpha-beta search of `pos` to `depth` within `(alpha, beta)` at `ply`
    /// plies from the root, writing the principal variation to `pv`.
    ///
    /// A position whose game is over scores a draw or, for the side to move
    /// when mated, `-(MATE_SCORE - ply)`; a repetition on the search path or
    /// of the game before the root scores a draw. Then come the table
    /// cutoff, internal iterative reduction, the quiescence search at the
    /// horizon (unless in check), the check extension, reverse futility
    /// pruning, razoring, null move pruning, probcut and the move loop of
    /// [`Searcher::search_moves`]; the best move found is stored in the
    /// table. A search that runs out of time returns 0.
    #[verifier::rlimit(100)]
    #[verifier::spinoff_prover]
    fn alpha_beta(
        &mut self,
        pos: &Position,
        depth: i32,
        alpha: Score,
        beta: Score,
        pv: &mut Vec<Move>,
        ply: usize,
        extensions: i32,
        recapture_sq: Option<u8>,
        prev_move: Option<Move>,
    ) -> (r: Score)
        requires
            old(self).wf(),
            pos@.wf(),
            0 <= extensions <= 5,
            -64 <= depth,
            ply + budget(depth as int, extensions as int) <= ply_budget(),
            -window_limit(ply as int, budget(depth as int, extensions as int)) <= alpha
                <= window_limit(ply as int, budget(depth as int, extensions as int)),
            -window_limit(ply as int, budget(depth as int, extensions as int)) <= beta
                <= window_limit(ply as int, budget(depth as int, extensions as int)),
            alpha < beta,
            legal_line(pos@, old(pv)@),
            prev_move matches Some(m) ==> m.wf(),
            recapture_sq matches Some(s) ==> s < 64,
        ensures
            follows(*old(self), *final(self)),
            old(self).stop ==> r == 0,
            -(SCORE_LIMIT - ply) <= r <= SCORE_LIMIT - ply,
            legal_line(pos@, final(pv)@),
            !final(self).stop && legal_moves_of(pos@).len() == 0 ==> r == (if pos@.checkers != 0 {
                -(MATE_SCORE - ply)
            } else {
                DRAW_SCORE as int
            }),
            !final(self).stop && legal_moves_of(pos@).len() > 0 && pos@.halfmove_clock >= 100 ==> r
                == DRAW_SCORE,
            old(self).stop || legal_moves_of(pos@).len() == 0 || pos@.halfmove_clock >= 100
                ==> final(pv)@ == old(pv)@,
            window_result(r as int, alpha as int, beta as int, ply_value_limit(ply as int)),
            -INF_SCORE <= alpha && beta <= INF_SCORE ==> -INF_SCORE < r < INF_SCORE,
            ply == 0 && depth >= 1 && !final(self).stop && legal_moves_of(pos@).len() > 0
                && pos@.halfmove_clock < 100 && -INF_SCORE <= alpha < r < beta ==> final(pv)@.len() > 0,
            ply == 0 && depth >= 1 && !final(self).stop && legal_moves_of(pos@).len() > 0
                && pos@.halfmove_clock < 100 && !table_may_cut(old(self).tt, pos@.hash, depth as int)
                && -INF_SCORE <= alpha < r ==> final(pv)@.len() > 0,
            ply == 0 && depth >= 1 && !final(self).stop && pos@.halfmove_clock < 100 && !table_may_cut(
                old(self).tt,
                pos@.hash,
                depth as int,
            ) && has_new_mate(pos@, old(self).root_history@) ==> r >= min(
                beta as int,
                MATE_SCORE - 1,
            ),
            depth >= 1 && !final(self).stop && legal_moves_of(pos@).len() > 0 && pos@.halfmove_clock
                < 100 && !table_may_cut(old(self).tt, pos@.hash, depth as int) && !(ply > 0 && (
            repeats_on_path(old(self).hash_stack@, pos@.hash, ply as int)
                || old(self).root_history@.contains(pos@.hash))) && -INF_SCORE <= alpha < r < beta
                ==> final(pv)@.len() > 0,
            ply > 0 && beta - alpha > 1 && depth >= 1 && !final(self).stop && pos@.halfmove_clock < 100
                && !table_may_cut(old(self).tt, pos@.hash, depth as int) && !repeats_on_path(
                old(self).hash_stack@,
                pos@.hash,
                ply as int,
            ) && !old(self).root_history@.contains(pos@.hash) && has_tactical_mate(pos@) ==> r >= min(
                beta as int,
                MATE_SCORE - ply - 1,
            ),
            depth <= 0 && pos@.checkers == 0 && !final(self).stop && legal_moves_of(pos@).len() > 0
                && pos@.halfmove_clock < 100 && !table_may_cut(old(self).tt, pos@.hash, depth as int) && !(
            ply > 0 && (repeats_on_path(old(self).hash_stack@, pos@.hash, ply as int)
                || old(self).root_history@.contains(pos@.hash))) ==> final(self).tt == old(self).tt
                && final(self).history == old(self).history && final(self).hash_stack@ == (if ply < MAX_PLY {
                old(self).hash_stack@.update(ply as int, pos@.hash)
            } else {
                old(self).hash_stack@
            }) && final(self).evaluator.pawn_table.mask() == old(self).evaluator.pawn_table.mask(),
            depth <= 0 && pos@.checkers == 0 && !final(self).stop && legal_moves_of(pos@).len() > 0
                && pos@.halfmove_clock < 100 && !table_may_cut(old(self).tt, pos@.hash, depth as int) && !(
            ply > 0 && (repeats_on_path(old(self).hash_stack@, pos@.hash, ply as int)
                || old(self).root_history@.contains(pos@.hash))) ==> (r as int,
            final(self).evaluator.pawn_table.entries()) == spec_quiesce(
                old(self).evaluator.pawn_table.entries(),
                old(self).evaluator.pawn_table.mask(),
                pos@,
                alpha as int,
                beta as int,
                0,
            ),
        decreases 16 * budget(depth as int, extensions as int) + 15,
    {
        self.nodes = self.nodes.wrapping_add(1);
        self.check_time();
        if self.stop {
            return 0;
        }
        let d = pos.data();
        if let Some(pm) = prev_move {
            if ply > 0 && ply < MAX_PLY {
                let piece_idx: usize = match d.piece_on(pm.to) {
                    Some(p) => p.index(),
                    None => 0,
                };
                self.move_stack.set(ply - 1, (piece_idx, pm.to as usize));
            }
        }
        let st = status(pos);
        if st == GameStatus::Drawn {
            return DRAW_SCORE;
        }
        if st == GameStatus::Won {
            return -(MATE_SCORE - ply as i32);
        }
        let key = d.hash;
        if ply < MAX_PLY {
            self.hash_stack.set(ply, key);
        }
        if ply > 0 && ply < MAX_PLY && self.is_repetition(key, ply) {
            proof {
                if repeats_on_path(self.hash_stack@, key, ply as int) {
                    let j = choose|j: int|
                        1 <= j && 2 * j <= ply && #[trigger] path_hash(self.hash_stack@, ply as int, j)
                            == key;
                    assert(path_hash(old(self).hash_stack@, ply as int, j) == key);
                }
            }
            return DRAW_SCORE;
        }
        let mut tt_move: Option<Move> = None;
        let mut tt_score: Option<Score> = None;
        let mut tt_depth: i32 = -1;
        proof {
            self.tt.lemma_slot_in_range(key);
        }
        let probed = self.tt.probe(key);
        if let Some(entry) = probed {
            let e = *entry;
            assert(e == self.tt.entries()[slot(self.tt.mask(), key)]);
            let score = score_from_tt(e.score, ply);
            tt_depth = e.depth as i32;
            tt_score = Some(score);
            if tt_depth >= depth {
                match e.bound {
                    Bound::Exact => {
                        if ply > 0 {
                            return score;
                        }
                    },
                    Bound::Lower => {
                        if score >= beta {
                            return score;
                        }
                    },
                    Bound::Upper => {
                        if score <= alpha {
                            return score;
                        }
                    },
                }
            }
            tt_move = e.best_move;
        }
        self.search_node(
            pos,
            depth,
            alpha,
            beta,
            pv,
            ply,
            extensions,
            recapture_sq,
            prev_move,
            key,
            tt_move,
            tt_score,
            tt_depth,
        )
    }

    /// Forward pruning of a node that is not in check at the static
    /// evaluation: reverse futility pruning at depth 3 (improving) or 4 and
    /// below, razoring at depth 4 and below when not at the futility
    /// frontier, null move pruning from depth 3 for a side with pieces
    /// outside zugzwang-prone endings, and probcut from depth 5; none at the
    /// root, and the first, second and fourth not in PV nodes. The score that
    /// prunes the node, if any.
    #[verifier::rlimit(100)]
    #[verifier::spinoff_prover]
    fn prune_node(
        &mut self,
        pos: &Position,
        depth: i32,
        alpha: Score,
        beta: Score,
        ply: usize,
        extensions: i32,
        recapture_sq: Option<u8>,
        prev_move: Option<Move>,
        static_eval: Score,
        improving: bool,
        futility: bool,
    ) -> (r: Option<Score>)
        requires
            old(self).wf(),
            pos@.wf(),
            0 <= extensions <= 5,
            1 <= depth <= 127,
            ply + budget(depth as int, extensions as int) <= ply_budget(),
            -window_limit(ply as int, budget(depth as int, extensions as int)) <= alpha
                <= window_limit(ply as int, budget(depth as int, extensions as int)),
            -window_limit(ply as int, budget(depth as int, extensions as int)) <= beta
                <= window_limit(ply as int, budget(depth as int, extensions as int)),
            alpha < beta,
            -EVAL_BOUND <= static_eval <= EVAL_BOUND,
            prev_move matches Some(m) ==> m.wf(),
            recapture_sq matches Some(s) ==> s < 64,
        ensures
            follows(*old(self), *final(self)),
            r matches Some(s) ==> -(SCORE_LIMIT - ply) <= s <= SCORE_LIMIT - ply,
            rfp_cut(
                pos@,
                depth as int,
                alpha as int,
                beta as int,
                ply as int,
                static_eval as int,
                improving,
            ) ==> r == Some(static_eval),
            ply == 0 || pos@.checkers != 0 ==> r is None,
            r matches Some(s) ==> s == static_eval || s < alpha || s == beta || s >= beta
                + PROBCUT_MARGIN,
            r matches Some(s) ==> window_result(s as int, alpha as int, beta as int, ply_value_limit(ply as int)),
            r matches Some(s) ==> s < alpha || s >= beta,
            beta - alpha > 1 ==> (r matches Some(s) ==> s == beta),
        decreases 16 * budget(depth as int, extensions as int) + 13,
    {
        let d = pos.data();
        let is_pv = beta - alpha > 1;
        let in_check = d.checkers != 0;
        let need_static = !in_check;
        let rfp_depth = if improving {
            3
        } else {
            4
        };
        if need_static && depth <= rfp_depth && ply > 0 && !is_pv {
            let margin = if improving {
                RFP_IMPROVING
            } else {
                RFP_NOT_IMPROVING
            };
            if static_eval - scaled(margin, depth) >= beta {
                return Some(static_eval);
            }
        }
        if need_static && depth <= 4 && !futility && ply > 0 && !is_pv {
            if static_eval + scaled(3 * TEMPO + V_CAP_REALIZED / 3, depth) < alpha {
                let q = self.quiesce(pos, alpha - 1, alpha, 0);
                if q < alpha {
                    return Some(q);
                }
            }
        }
        let stm = d.side_to_move;
        let zugzwang_prone = count(d.occupied()) <= 6 && d.pieces_of(Piece::Queen) == 0 && count(
            d.colored_pieces(stm, Piece::Rook),
        ) + count(d.colored_pieces(stm, Piece::Knight)) + count(d.colored_pieces(stm, Piece::Bishop))
            <= 1;
        if depth >= 3 && !in_check && ply > 0 && has_non_pawn_material(d, stm) && static_eval >= beta
            && !zugzwang_prone {
            if self.null_move_prune(
                pos,
                depth,
                beta,
                ply,
                extensions,
                recapture_sq,
                prev_move,
                static_eval,
            ) {
                return Some(beta);
            }
        }
        if depth >= 5 && !in_check && ply > 0 && !is_pv && need_static {
            if let Some(score) = self.probcut(pos, depth, beta, ply, extensions) {
                return Some(score);
            }
        }
        None
    }

    /// The moves of a node in search order (see [`Searcher::pick_moves`]):
    /// legal, well formed, and every legal move among them.
    fn node_moves(
        &self,
        pos: &Position,
        ply: usize,
        tt_move: Option<Move>,
        countermove: Option<Move>,
        prev_move_info: Option<(usize, usize)>,
    ) -> (r: Vec<Move>)
        requires
            self.wf(),
            pos@.wf(),
            prev_move_info matches Some(x) ==> x.0 < 6 && x.1 < 64,
        ensures
            r@.len() == legal_moves_of(pos@).len(),
            forall|k: int| 0 <= k < r@.len() ==> legal_moves_of(pos@).contains(#[trigger] r@[k]),
            forall|k: int| 0 <= k < r@.len() ==> (#[trigger] r@[k]).wf(),
            forall|j: int|
                0 <= j < legal_moves_of(pos@).len() ==> r@.contains(#[trigger] legal_moves_of(pos@)[j]),
    {
        self.pick_moves(pos, ply, tt_move, countermove, prev_move_info)
    }

    /// The part of [`Searcher::alpha_beta`] after the table probe, for a
    /// position with legal moves, no repetition and no table cutoff.
    #[verifier::rlimit(100)]
    #[verifier::spinoff_prover]
    fn search_node(
        &mut self,
        pos: &Position,
        depth: i32,
        alpha: Score,
        beta: Score,
        pv: &mut Vec<Move>,
        ply: usize,
        extensions: i32,
        recapture_sq: Option<u8>,
        prev_move: Option<Move>,
        key: u64,
        tt_move: Option<Move>,
        tt_score: Option<Score>,
        tt_depth: i32,
    ) -> (r: Score)
        requires
            old(self).wf(),
            !old(self).stop,
            pos@.wf(),
            key == pos@.hash,
            legal_moves_of(pos@).len() > 0,
            0 <= extensions <= 5,
            -64 <= depth,
            ply + budget(depth as int, extensions as int) <= ply_budget(),
            -window_limit(ply as int, budget(depth as int, extensions as int)) <= alpha
                <= window_limit(ply as int, budget(depth as int, extensions as int)),
            -window_limit(ply as int, budget(depth as int, extensions as int)) <= beta
                <= window_limit(ply as int, budget(depth as int, extensions as int)),
            alpha < beta,
            legal_line(pos@, old(pv)@),
            tt_score matches Some(s) ==> -SCORE_LIMIT <= s <= SCORE_LIMIT,
            prev_move matches Some(m) ==> m.wf(),
            recapture_sq matches Some(s) ==> s < 64,
        ensures
            follows(*old(self), *final(self)),
            -(SCORE_LIMIT - ply) <= r <= SCORE_LIMIT - ply,
            legal_line(pos@, final(pv)@),
            ply == 0 && depth >= 1 && !final(self).stop && -INF_SCORE <= alpha < r ==> final(pv)@.len()
                > 0,
            depth >= 1 && !final(self).stop && -INF_SCORE <= alpha < r < beta ==> final(pv)@.len() > 0,
            window_result(r as int, alpha as int, beta as int, ply_value_limit(ply as int)),
            ply == 0 && depth >= 1 && !final(self).stop && has_new_mate(
                pos@,
                old(self).root_history@,
            ) ==> r >= min(beta as int, MATE_SCORE - 1),
            ply > 0 && beta - alpha > 1 && depth >= 1 && !final(self).stop && has_tactical_mate(pos@)
                ==> r >= min(beta as int, MATE_SCORE - ply - 1),
            depth <= 0 && pos@.checkers == 0 ==> final(self).tt == old(self).tt && final(self).history
                == old(self).history && final(self).hash_stack == old(self).hash_stack
                && final(self).evaluator.pawn_table.mask() == old(self).evaluator.pawn_table.mask(),
            depth <= 0 && pos@.checkers == 0 ==> (r as int, final(self).evaluator.pawn_table.entries())
                == spec_quiesce(
                old(self).evaluator.pawn_table.entries(),
                old(self).evaluator.pawn_table.mask(),
                pos@,
                alpha as int,
                beta as int,
                0,
            ),
        decreases 16 * budget(depth as int, extensions as int) + 14,
    {
        let d = pos.data();
        let is_pv = beta - alpha > 1;
        let in_check = d.checkers != 0;
        let mut depth = depth;
        let mut extensions = extensions;
        if tt_move.is_none() && depth >= 4 && !in_check {
            depth = depth - 1;
        }
        if depth <= 0 {
            if in_check && extensions < MAX_EXT {
                depth = 1;
                extensions = extensions + 1;
            } else {
                return self.quiesce(pos, alpha, beta, 0);
            }
        }
        if in_check && depth > 0 && extensions < MAX_EXT {
            depth = depth + 1;
            extensions = extensions + 1;
        }
        assert(1 <= depth <= 127);
        let mut static_eval: Score = 0;
        let need_static = !in_check;
        if need_static {
            static_eval = self.static_eval(pos);
            if ply < MAX_PLY {
                self.eval_stack.set(ply, static_eval);
            }
        }
        let improving = if need_static && ply >= 2 {
            static_eval > self.eval_stack[ply - 2]
        } else {
            false
        };
        let fut_margin = if improving {
            FUT_IMPROVING
        } else {
            FUT_NOT_IMPROVING
        };
        let futility = need_static && depth <= 2 && !is_pv && static_eval + scaled(fut_margin, depth) < alpha;
        if let Some(score) = self.prune_node(
            pos,
            depth,
            alpha,
            beta,
            ply,
            extensions,
            recapture_sq,
            prev_move,
            static_eval,
            improving,
            futility,
        ) {
            return score;
        }
        self.search_node_moves(
            pos,
            depth,
            alpha,
            beta,
            pv,
            ply,
            extensions,
            recapture_sq,
            prev_move,
            key,
            tt_move,
            tt_score,
            tt_depth,
            static_eval,
            improving,
            futility,
        )
    }

    /// The move loop of [`Searcher::search_node`] once no pruning decided:
    /// the moves in search order searched by [`Searcher::search_moves`], and
    /// the best move found stored in the table.
    #[verifier::rlimit(100)]
    #[verifier::spinoff_prover]
    fn search_node_moves(
        &mut self,
        pos: &Position,
        depth: i32,
        alpha: Score,
        beta: Score,
        pv: &mut Vec<Move>,
        ply: usize,
        extensions: i32,
        recapture_sq: Option<u8>,
        prev_move: Option<Move>,
        key: u64,
        tt_move: Option<Move>,
        tt_score: Option<Score>,
        tt_depth: i32,
        static_eval: Score,
        improving: bool,
        futility: bool,
    ) -> (r: Score)
        requires
            old(self).wf(),
            pos@.wf(),
            key == pos@.hash,
            legal_moves_of(pos@).len() > 0,
            0 <= extensions <= 5,
            1 <= depth <= 127,
            ply + budget(depth as int, extensions as int) <= ply_budget(),
            -window_limit(ply as int, budget(depth as int, extensions as int)) <= alpha
                <= window_limit(ply as int, budget(depth as int, extensions as int)),
            -window_limit(ply as int, budget(depth as int, extensions as int)) <= beta
                <= window_limit(ply as int, budget(depth as int, extensions as int)),
            alpha < beta,
            -EVAL_BOUND <= static_eval <= EVAL_BOUND,
            legal_line(pos@, old(pv)@),
            tt_score matches Some(s) ==> -SCORE_LIMIT <= s <= SCORE_LIMIT,
            prev_move matches Some(m) ==> m.wf(),
            recapture_sq matches Some(s) ==> s < 64,
        ensures
            follows(*old(self), *final(self)),
            -(SCORE_LIMIT - ply) <= r <= SCORE_LIMIT - ply,
            legal_line(pos@, final(pv)@),
            ply == 0 && !final(self).stop && -INF_SCORE <= alpha < r ==> final(pv)@.len() > 0,
            !final(self).stop && -INF_SCORE <= alpha < r < beta ==> final(pv)@.len() > 0,
            window_result(r as int, alpha as int, beta as int, ply_value_limit(ply as int)),
            ply == 0 && !final(self).stop && has_new_mate(pos@, old(self).root_history@) ==> r >= min(
                beta as int,
                MATE_SCORE - 1,
            ),
            ply > 0 && beta - alpha > 1 && !final(self).stop && has_tactical_mate(pos@) ==> r >= min(
                beta as int,
                MATE_SCORE - ply - 1,
            ),
        decreases 16 * budget(depth as int, extensions as int) + 13,
    {
        let d = pos.data();
        let cm = self.get_countermove(d, prev_move);
        let prev_info = if ply > 0 {
            Some(self.move_stack[ply - 1])
        } else {
            None
        };
        let moves = self.node_moves(pos, ply, tt_move, cm, prev_info);
        proof {
            if ply > 0 && has_tactical_mate(pos@) {
                let j = choose|j: int|
                    0 <= j < legal_moves_of(pos@).len() && tactical(pos@, #[trigger] legal_moves_of(pos@)[j])
                        && mates(pos@, legal_moves_of(pos@)[j]);
                assert(moves@.contains(legal_moves_of(pos@)[j]));
                let k = choose|k: int| 0 <= k < moves@.len() && moves@[k] == legal_moves_of(pos@)[j];
                assert(tactical(pos@, moves@[k]) && mates(pos@, moves@[k]));
            }
            if ply == 0 && has_new_mate(pos@, self.root_history@) {
                let j = choose|j: int|
                    0 <= j < legal_moves_of(pos@).len() && mates(pos@, #[trigger] legal_moves_of(pos@)[j])
                        && occurrences(self.root_history@, after_move(pos@, legal_moves_of(pos@)[j]).hash)
                        == 0;
                assert(moves@.contains(legal_moves_of(pos@)[j]));
                let k = choose|k: int| 0 <= k < moves@.len() && moves@[k] == legal_moves_of(pos@)[j];
                assert(mates(pos@, moves@[k]));
            }
        }
        let (best_score, best_move, bound) = self.search_moves(
            pos,
            &moves,
            depth,
            alpha,
            beta,
            pv,
            ply,
            extensions,
            recapture_sq,
            prev_move,
            improving,
            futility,
            tt_move,
            tt_score,
            tt_depth,
        );
        if self.stop {
            return 0;
        }
        if let Some(bm) = best_move {
            let stored = score_to_tt(best_score, ply);
            proof {
                self.tt.lemma_slot_in_range(key);
                lemma_store_keeps_scores(
                    self.tt.entries(),
                    self.tt.mask(),
                    self.tt.generation(),
                    key,
                    stored,
                    static_eval,
                    depth as i8,
                    bound,
                    Some(bm),
                );
            }
            self.tt.store(key, stored, static_eval, depth as i8, bound, Some(bm));
        }
        best_score
    }

    /// Whether move number `i` is pruned before it is played: late move
    /// pruning of quiet moves past `2 + depth * depth / 2` (or `3 + depth *
    /// depth` when improving) tried quiets at depth 3 and below, and history
    /// pruning of quiet moves whose history is below `-1024 * depth` at depth
    /// 4 and below; neither at the root, in check, in PV nodes or for the
    /// first move.
    fn pruned_quiet(
        &self,
        mv: Move,
        i: usize,
        depth: i32,
        ply: usize,
        color_idx: usize,
        quiets_tried: usize,
        quiet: bool,
        improving: bool,
        is_pv: bool,
        in_check: bool,
    ) -> (r: bool)
        requires
            self.wf(),
            mv.wf(),
            color_idx < 2,
            1 <= depth <= 127,
        ensures
            r == spec_pruned_quiet(
                self.history@,
                mv,
                i as int,
                depth as int,
                ply as int,
                color_idx as int,
                quiets_tried as int,
                quiet,
                improving,
                is_pv,
                in_check,
            ),
    {
        if !is_pv && !in_check && depth <= 3 && quiet && ply > 0 && i > 0 {
            let lmp_threshold: usize = if improving {
                (3 + scaled(depth, depth)) as usize
            } else {
                (2 + scaled(depth, depth) / 2) as usize
            };
            if quiets_tried >= lmp_threshold {
                return true;
            }
        }
        if !is_pv && !in_check && depth <= 4 && quiet && ply > 0 && i > 0 {
            let hist = self.history[(color_idx * 64 + mv.from as usize) * 64 + mv.to as usize] as i32;
            if hist < -(depth * 1024) {
                return true;
            }
        }
        false
    }

    /// The reduction of move number `i`: the late move reduction for quiet,
    /// non-checking moves from the fourth on at depth 3 and more (one more
    /// when not improving, one less in PV nodes, less by history plus
    /// continuation history over 8192, within `0..=depth - 2`), and for
    /// captures that do not check the losing-capture reduction if larger;
    /// none at the root or in check.
    fn reduction_for(
        &self,
        d: &PosData,
        mv: Move,
        i: usize,
        depth: i32,
        ply: usize,
        color_idx: usize,
        improving: bool,
        is_pv: bool,
        in_check: bool,
        gives_check: bool,
        is_cap: bool,
    ) -> (r: i32)
        requires
            self.wf(),
            mv.wf(),
            color_idx < 2,
            1 <= depth <= 127,
            ply < MAX_PLY,
            i < usize::MAX,
        ensures
            0 <= r <= max(depth - 2, 0),
            r == spec_reduction(
                self.history@,
                self.cont_history@,
                if ply > 0 {
                    self.move_stack@[ply - 1]
                } else {
                    (0usize, 0usize)
                },
                *d,
                mv,
                i as int,
                depth as int,
                ply as int,
                color_idx as int,
                improving,
                is_pv,
                in_check,
                gives_check,
                is_cap,
            ),
    {
        let is_promotion = mv.promotion.is_some();
        let mut reduction: i32 = 0;
        if ply > 0 && i >= 3 && depth >= 3 && !gives_check && !is_cap && !is_promotion && !in_check {
            reduction = crate::lmr::lmr_base(depth, i + 1);
            if !improving {
                reduction = reduction + 1;
            }
            if is_pv {
                reduction = imax(reduction - 1, 0);
            }
            let hist = self.history[(color_idx * 64 + mv.from as usize) * 64 + mv.to as usize] as i32;
            let (prev_piece, prev_to) = self.move_stack[ply - 1];
            let ch: i32 = match d.piece_on(mv.from) {
                Some(p) => self.cont_history[((prev_piece * 64 + prev_to) * 6 + p.index()) * 64
                    + mv.to as usize] as i32,
                None => 0,
            };
            reduction = reduction - (hist + ch) / 8192;
            reduction = iclamp(reduction, 0, depth - 2);
        }
        if ply > 0 && is_cap && !gives_check && !in_check {
            reduction = imax(reduction, losing_capture_reduction(d, mv, depth, i));
        }
        reduction
    }

    /// The recapture extension (a capture on the square of the previous
    /// capture at depth `MAX_EXT + 2` and below) plus the pawn-push extension
    /// (a quiet pawn move to the last two ranks), each while fewer than
    /// [`MAX_EXT`] extensions were taken.
    fn extension_for(
        &self,
        d: &PosData,
        mv: Move,
        depth: i32,
        extensions: i32,
        is_cap: bool,
        recapture_sq: Option<u8>,
    ) -> (r: i32)
        requires
            mv.wf(),
        ensures
            0 <= r <= 2,
            extensions >= MAX_EXT ==> r == 0,
            r == spec_extension(*d, mv, depth as int, extensions as int, is_cap, recapture_sq),
    {
        let recapture_extension: i32 = if is_cap && recapture_sq == Some(mv.to) && depth <= MAX_EXT
            + 2 && extensions < MAX_EXT {
            1
        } else {
            0
        };
        let pawn_push_ext: i32 = if extensions < MAX_EXT && !is_cap && d.piece_on(mv.from) == Some(
            Piece::Pawn,
        ) {
            let to_rank = (mv.to / 8) as usize;
            let promo_dist: usize = if d.side_to_move == Color::White {
                7 - to_rank
            } else {
                to_rank
            };
            if promo_dist <= 1 {
                1
            } else {
                0
            }
        } else {
            0
        };
        recapture_extension + pawn_push_ext
    }

    /// Records the quiet move `mv` that caused a beta cutoff: killer,
    /// history, countermove of the previous move, and continuation history
    /// after the previous move's piece and square.
    fn record_cutoff(&mut self, d: &PosData, mv: Move, ply: usize, depth: i32, prev_move: Option<Move>)
        requires
            old(self).wf(),
            mv.wf(),
            1 <= depth <= 127,
            ply < MAX_PLY,
            prev_move matches Some(m) ==> m.wf(),
        ensures
            follows(*old(self), *final(self)),
            final(self).stop == old(self).stop,
            same_except_tables(*old(self), *final(self)),
            final(self).killers@ == killers_after(old(self).killers@, mv, ply as int),
            final(self).history@ == old(self).history@.update(
                pair_slot(d.side_to_move.spec_index(), mv.from as int, mv.to as int),
                spec_gravity(
                    old(self).history@[pair_slot(
                        d.side_to_move.spec_index(),
                        mv.from as int,
                        mv.to as int,
                    )] as int,
                    depth * depth,
                ) as i16,
            ),
            final(self).countermove@ == (match prev_move {
                Some(pm) => old(self).countermove@.update(
                    pair_slot(reply_side(*d), pm.from as int, pm.to as int),
                    Some(mv),
                ),
                None => old(self).countermove@,
            }),
            final(self).cont_history@ == (if ply > 0 && d.piece_at(mv.from) is Some {
                let (pp, pt) = old(self).move_stack@[ply - 1];
                let ci = cont_slot(
                    pp as int,
                    pt as int,
                    d.piece_at(mv.from).unwrap().spec_index(),
                    mv.to as int,
                );
                old(self).cont_history@.update(
                    ci,
                    spec_gravity(old(self).cont_history@[ci] as int, depth * depth) as i16,
                )
            } else {
                old(self).cont_history@
            }),
    {
        self.store_killer(mv, ply);
        self.update_history(d.side_to_move, mv, depth);
        if let Some(pm) = prev_move {
            self.store_countermove(d, pm, mv);
        }
        if ply > 0 {
            let (prev_piece, prev_to) = self.move_stack[ply - 1];
            if let Some(piece) = d.piece_on(mv.from) {
                let ci = ((prev_piece * 64 + prev_to) * 6 + piece.index()) * 64 + mv.to as usize;
                let bonus = scaled(depth, depth);
                let nv = gravity(self.cont_history[ci], bonus);
                self.cont_history.set(ci, nv);
            }
        }
    }

    /// The score of the legal move `mv` (number `i`) that leads to `child`:
    /// the singular extension test for the table move, the extensions and
    /// reduction, then the repetition score at the root, or a full-window
    /// search of the first move, or a reduced null-window search re-searched
    /// with the full window when it beats alpha. The child's principal
    /// variation goes to `child_pv`.
    #[verifier::rlimit(100)]
    #[verifier::spinoff_prover]
    fn search_child(
        &mut self,
        pos: &Position,
        child: &Position,
        mv: Move,
        i: usize,
        depth: i32,
        alpha: Score,
        beta: Score,
        child_pv: &mut Vec<Move>,
        ply: usize,
        extensions: i32,
        recapture_sq: Option<u8>,
        prev_move: Option<Move>,
        improving: bool,
        gives_check: bool,
        singular_candidate: bool,
        tt_move: Option<Move>,
        tt_score: Option<Score>,
    ) -> (r: Score)
        requires
            old(self).wf(),
            pos@.wf(),
            child@.wf(),
            mv.wf(),
            legal_moves_of(pos@).contains(mv),
            child@ == after_move(pos@, mv),
            gives_check == (child@.checkers != 0),
            i < usize::MAX,
            0 <= extensions <= 5,
            1 <= depth,
            ply + budget(depth as int, extensions as int) <= ply_budget(),
            -window_limit(ply as int, budget(depth as int, extensions as int)) <= alpha < beta
                <= window_limit(ply as int, budget(depth as int, extensions as int)),
            old(child_pv)@.len() == 0,
            singular_candidate ==> (tt_move is Some && tt_score is Some && depth >= 8 && extensions
                < MAX_EXT),
            tt_score matches Some(s) ==> -SCORE_LIMIT <= s <= SCORE_LIMIT,
            prev_move matches Some(m) ==> m.wf(),
            recapture_sq matches Some(s) ==> s < 64,
        ensures
            follows(*old(self), *final(self)),
            legal_line(child@, final(child_pv)@),
            -(SCORE_LIMIT - ply) <= r <= SCORE_LIMIT - ply,
            ply == 0 && occurrences(old(self).root_history@, child@.hash) >= 2 ==> r == DRAW_SCORE,
            r <= max(alpha as int, ply_value_limit(ply as int)),
            i == 0 ==> r >= min(beta as int, -ply_value_limit(ply as int)),
            (ply > 0 || occurrences(old(self).root_history@, child@.hash) == 0) ==> ({
                &&& old(self).stop ==> r == 0
                &&& !final(self).stop && legal_moves_of(child@).len() == 0 ==> r == -terminal_score(
                    child@,
                    ply + 1,
                )
                &&& !final(self).stop && legal_moves_of(child@).len() > 0 && child@.halfmove_clock
                    >= 100 ==> r == DRAW_SCORE
            }),
            i == 0 && depth == 1 && !final(self).stop && spec_extension(
                pos@,
                mv,
                1,
                extensions as int,
                capture(pos@, mv),
                recapture_sq,
            ) == 0 && horizon_child(*old(self), child@, ply + 1, 0) ==> r == -spec_quiesce(
                old(self).evaluator.pawn_table.entries(),
                old(self).evaluator.pawn_table.mask(),
                child@,
                -beta as int,
                -alpha as int,
                0,
            ).0,
            depth == 1 && !final(self).stop && spec_extension(
                pos@,
                mv,
                1,
                extensions as int,
                capture(pos@, mv),
                recapture_sq,
            ) == 0 && horizon_child(*old(self), child@, ply + 1, 0) ==> (r as int,
            final(self).evaluator.pawn_table.entries()) == pvs_value(
                old(self).evaluator.pawn_table.entries(),
                old(self).evaluator.pawn_table.mask(),
                child@,
                i as int,
                alpha as int,
                beta as int,
            ) && final(self).tt == old(self).tt && final(self).history == old(self).history
                && final(self).evaluator.pawn_table.mask() == old(self).evaluator.pawn_table.mask()
                && agree_below(final(self).hash_stack@, old(self).hash_stack@, ply + 1),
        decreases 16 * budget(depth as int, extensions as int) + 11,
    {
        proof {
            reveal(horizon_child);
        }
        let d = pos.data();
        let is_pv = beta - alpha > 1;
        let in_check = d.checkers != 0;
        let color_idx: usize = if d.side_to_move == Color::White {
            0
        } else {
            1
        };
        let is_cap = is_capture(d, mv);
        let mut singular_ext: i32 = 0;
        if singular_candidate && tt_move == Some(mv) {
            let ts = match tt_score {
                Some(s) => s,
                None => 0,
            };
            let s_beta = iclamp(ts - scaled(TEMPO, depth) / BRANCHING_FACTOR, -INF_SCORE, INF_SCORE);
            let s_score = self.singular_search(
                pos,
                depth / 2 - 1,
                s_beta,
                ply,
                extensions,
                recapture_sq,
                prev_move,
                mv,
            );
            if s_score < s_beta {
                singular_ext = 1;
            }
        }
        let reduction = self.reduction_for(
            d,
            mv,
            i,
            depth,
            ply,
            color_idx,
            improving,
            is_pv,
            in_check,
            gives_check,
            is_cap,
        );
        let total_ext = self.extension_for(d, mv, depth, extensions, is_cap, recapture_sq)
            + singular_ext;
        let child_extensions = extensions + total_ext;
        let child_depth = depth - 1 + total_ext;
        let next_recapture_sq = if is_cap {
            Some(mv.to)
        } else {
            None
        };
        proof {
            if ply == 0 && !self.root_history@.contains(child@.hash) {
                lemma_occurrences_absent(self.root_history@, child@.hash);
            }
        }
        let root_repeat_score = if ply == 0 {
            self.root_repetition_score(pos, child.data().hash)
        } else {
            None
        };
        if let Some(repetition_score) = root_repeat_score {
            repetition_score
        } else {
            self.search_pvs(
                child,
                mv,
                i,
                alpha,
                beta,
                child_pv,
                ply,
                child_depth,
                child_extensions,
                reduction,
                next_recapture_sq,
            )
        }
    }

    /// Principal variation search of `child`, reached by `mv`, move number
    /// `i`: the first move with the full window, the others with a null
    /// window at `reduction` plies less, re-searched with the full window
    /// when they beat alpha. The score is from the parent's side.
    fn search_pvs(
        &mut self,
        child: &Position,
        mv: Move,
        i: usize,
        alpha: Score,
        beta: Score,
        child_pv: &mut Vec<Move>,
        ply: usize,
        child_depth: i32,
        child_extensions: i32,
        reduction: i32,
        next_recapture_sq: Option<u8>,
    ) -> (r: Score)
        requires
            old(self).wf(),
            child@.wf(),
            mv.wf(),
            0 <= child_extensions <= 5,
            0 <= child_depth,
            0 <= reduction,
            ply + 1 + budget(child_depth as int, child_extensions as int) <= ply_budget(),
            -window_limit(ply + 1, budget(child_depth as int, child_extensions as int)) + 1 <= alpha
                < beta <= window_limit(ply + 1, budget(child_depth as int, child_extensions as int)),
            old(child_pv)@.len() == 0,
            next_recapture_sq matches Some(s) ==> s < 64,
        ensures
            follows(*old(self), *final(self)),
            legal_line(child@, final(child_pv)@),
            -(SCORE_LIMIT - ply - 1) <= r <= SCORE_LIMIT - ply - 1,
            old(self).stop ==> r == 0,
            !final(self).stop && legal_moves_of(child@).len() == 0 ==> r == -terminal_score(
                child@,
                ply + 1,
            ),
            r <= max(alpha as int, ply_value_limit(ply as int)),
            i == 0 ==> r >= min(beta as int, -ply_value_limit(ply as int)),
            !final(self).stop && legal_moves_of(child@).len() > 0 && child@.halfmove_clock >= 100
                ==> r == DRAW_SCORE,
            i == 0 && child_depth == 0 && !final(self).stop && horizon_child(
                *old(self),
                child@,
                ply + 1,
                0,
            ) ==> r == -spec_quiesce(
                old(self).evaluator.pawn_table.entries(),
                old(self).evaluator.pawn_table.mask(),
                child@,
                -beta as int,
                -alpha as int,
                0,
            ).0,
            child_depth == 0 && !final(self).stop && horizon_child(*old(self), child@, ply + 1, 0) ==> (r
                as int, final(self).evaluator.pawn_table.entries()) == pvs_value(
                old(self).evaluator.pawn_table.entries(),
                old(self).evaluator.pawn_table.mask(),
                child@,
                i as int,
                alpha as int,
                beta as int,
            ) && final(self).tt == old(self).tt && final(self).history == old(self).history
                && final(self).evaluator.pawn_table.mask() == old(self).evaluator.pawn_table.mask()
                && agree_below(final(self).hash_stack@, old(self).hash_stack@, ply + 1),
        decreases 16 * budget(child_depth as int, child_extensions as int) + 16,
    {
        proof {
            reveal(horizon_child);
        }
        if i == 0 {
            -self.alpha_beta(
                child,
                child_depth,
                -beta,
                -alpha,
                child_pv,
                ply + 1,
                child_extensions,
                next_recapture_sq,
                Some(mv),
            )
        } else {
            let reduced_depth = imax(child_depth - reduction, 0);
            let ghost s0 = *self;
            let s = -self.alpha_beta(
                child,
                reduced_depth,
                -alpha - 1,
                -alpha,
                child_pv,
                ply + 1,
                child_extensions,
                next_recapture_sq,
                Some(mv),
            );
            proof {
                if child_depth == 0 && horizon_child(s0, child@, ply + 1, 0) && !self.stop {
                    assert(agree_below(self.hash_stack@, s0.hash_stack@, ply + 1));
                    if ply + 1 < MAX_PLY {
                        lemma_agree_repeats(self.hash_stack@, s0.hash_stack@, child@.hash, ply + 1);
                    }
                    assert(horizon_child(*self, child@, ply + 1, 0));
                }
            }
            if s > alpha {
                child_pv.clear();
                -self.alpha_beta(
                    child,
                    child_depth,
                    -beta,
                    -alpha,
                    child_pv,
                    ply + 1,
                    child_extensions,
                    next_recapture_sq,
                    Some(mv),
                )
            } else {
                s
            }
        }
    }

    /// The move loop of [`Searcher::alpha_beta`] over `moves` in order:
    /// quiet moves may be pruned before they are played
    /// ([`Searcher::pruned_quiet`]) and, at frontier nodes, when they give no
    /// check; the others are scored by [`Searcher::search_child`]. A beta
    /// cutoff by a quiet move is recorded for move ordering. Returns the best
    /// score, the best move and the bound of the best score.
    #[verifier::rlimit(100)]
    #[verifier::spinoff_prover]
    fn search_moves(
        &mut self,
        pos: &Position,
        moves: &Vec<Move>,
        depth: i32,
        alpha: Score,
        beta: Score,
        pv: &mut Vec<Move>,
        ply: usize,
        extensions: i32,
        recapture_sq: Option<u8>,
        prev_move: Option<Move>,
        improving: bool,
        futility: bool,
        tt_move: Option<Move>,
        tt_score: Option<Score>,
        tt_depth: i32,
    ) -> (r: (Score, Option<Move>, Bound))
        requires
            old(self).wf(),
            pos@.wf(),
            0 <= extensions <= 5,
            1 <= depth,
            ply + budget(depth as int, extensions as int) <= ply_budget(),
            -window_limit(ply as int, budget(depth as int, extensions as int)) <= alpha
                <= window_limit(ply as int, budget(depth as int, extensions as int)),
            -window_limit(ply as int, budget(depth as int, extensions as int)) <= beta
                <= window_limit(ply as int, budget(depth as int, extensions as int)),
            alpha < beta,
            forall|k: int| 0 <= k < moves@.len() ==> legal_moves_of(pos@).contains(#[trigger] moves@[k]),
            forall|k: int| 0 <= k < moves@.len() ==> (#[trigger] moves@[k]).wf(),
            legal_line(pos@, old(pv)@),
            tt_score matches Some(s) ==> -SCORE_LIMIT <= s <= SCORE_LIMIT,
            prev_move matches Some(m) ==> m.wf(),
            recapture_sq matches Some(s) ==> s < 64,
        ensures
            follows(*old(self), *final(self)),
            legal_line(pos@, final(pv)@),
            -INF_SCORE <= r.0 <= SCORE_LIMIT - ply,
            r.1 matches Some(m) ==> legal_moves_of(pos@).contains(m),
            r.1 is None <==> r.0 == -INF_SCORE,
            r.2 is Upper ==> r.1 is None || r.0 <= alpha,
            r.2 is Exact ==> alpha < r.0 < beta,
            r.2 is Lower ==> r.0 >= beta,
            moves@.len() == 0 ==> r.0 == -INF_SCORE && r.1 is None && r.2 is Upper,
            !final(self).stop && r.0 > alpha && r.1 is Some ==> final(pv)@.len() > 0,
            r.0 <= max(alpha as int, ply_value_limit(ply as int)),
            !final(self).stop && moves@.len() > 0 ==> r.0 >= min(beta as int, -ply_value_limit(ply as int)),
            !final(self).stop && (exists|k: int|
                0 <= k < moves@.len() && mates(pos@, #[trigger] moves@[k]) && (tactical(pos@, moves@[k])
                    || ply == 0) && (ply > 0 || occurrences(
                    old(self).root_history@,
                    after_move(pos@, moves@[k]).hash,
                ) == 0)) ==> r.0 >= min(beta as int, MATE_SCORE - ply - 1),
            !final(self).stop && depth == 1 && moves@.len() > 0 && spec_extension(
                pos@,
                moves@[0],
                1,
                extensions as int,
                capture(pos@, moves@[0]),
                recapture_sq,
            ) == 0 && horizon_child(*old(self), after_move(pos@, moves@[0]), ply + 1, 0) ==> r.0 >= min(
                beta as int,
                -spec_quiesce(
                    old(self).evaluator.pawn_table.entries(),
                    old(self).evaluator.pawn_table.mask(),
                    after_move(pos@, moves@[0]),
                    -beta as int,
                    -alpha as int,
                    0,
                ).0,
            ),
            !final(self).stop && depth == 1 && horizon_moves(
                *old(self),
                pos@,
                moves@,
                ply as int,
                extensions as int,
                recapture_sq,
            ) ==> r.0 == move_loop_value(
                old(self).evaluator.pawn_table.entries(),
                old(self).evaluator.pawn_table.mask(),
                pos@,
                moves@,
                0,
                -INF_SCORE as int,
                alpha as int,
                beta as int,
                0,
                old(self).history@,
                ply as int,
                improving,
                beta - alpha > 1,
                futility,
            ),
        decreases 16 * budget(depth as int, extensions as int) + 12,
    {
        proof {
            reveal(move_loop_value);
        }
        let d = pos.data();
        let is_pv = beta - alpha > 1;
        let in_check = d.checkers != 0;
        let color_idx: usize = if d.side_to_move == Color::White {
            0
        } else {
            1
        };
        let mut raised = alpha;
        let mut best_score = -INF_SCORE;
        let mut best_move: Option<Move> = None;
        let mut bound = Bound::Upper;
        let mut quiets_tried: usize = 0;
        let singular_candidate = !in_check && extensions < MAX_EXT && depth >= 8 && tt_move.is_some()
            && tt_depth >= depth - 3 && tt_score.is_some();
        let ghost wl = window_limit(ply as int, budget(depth as int, extensions as int));
        let mut i: usize = 0;
        while i < moves.len()
            invariant
                follows(*old(self), *self),
                pos@.wf(),
                d == pos@,
                in_check == (d.checkers != 0),
                color_idx < 2,
                0 <= extensions <= 5,
                1 <= depth,
                ply + budget(depth as int, extensions as int) <= ply_budget(),
                wl == window_limit(ply as int, budget(depth as int, extensions as int)),
                -wl <= raised < beta <= wl,
                forall|k: int| 0 <= k < moves@.len() ==> legal_moves_of(pos@).contains(#[trigger] moves@[k]),
                forall|k: int| 0 <= k < moves@.len() ==> (#[trigger] moves@[k]).wf(),
                legal_line(pos@, pv@),
                -INF_SCORE <= best_score <= SCORE_LIMIT - ply,
                best_move matches Some(m) ==> legal_moves_of(pos@).contains(m),
                singular_candidate ==> (tt_move is Some && tt_score is Some && depth >= 8 && extensions
                    < MAX_EXT),
                tt_score matches Some(s) ==> -SCORE_LIMIT <= s <= SCORE_LIMIT,
                prev_move matches Some(m) ==> m.wf(),
                quiets_tried <= i,
                recapture_sq matches Some(s) ==> s < 64,
                best_move is None <==> best_score == -INF_SCORE,
                bound is Upper ==> (best_move is None || best_score <= alpha) && raised == alpha,
                bound is Exact ==> alpha < best_score < beta && raised == best_score,
                !(bound is Lower),
                moves@.len() == 0 ==> best_move is None && bound is Upper,
                best_score > alpha && best_move is Some ==> raised > alpha,
                raised > alpha ==> pv@.len() > 0,
                i <= moves@.len(),
                raised <= max(alpha as int, ply_value_limit(ply as int)),
                best_score <= max(alpha as int, ply_value_limit(ply as int)),
                i > 0 && !self.stop ==> best_score >= min(beta as int, -ply_value_limit(ply as int)),
                !self.stop && (exists|k: int|
                    0 <= k < i && mates(pos@, #[trigger] moves@[k]) && (tactical(pos@, moves@[k]) || ply
                        == 0) && (ply > 0 || occurrences(
                        old(self).root_history@,
                        after_move(pos@, moves@[k]).hash,
                    ) == 0)) ==> best_score >= min(beta as int, MATE_SCORE - ply - 1),
                !self.stop && depth == 1 && horizon_moves(
                *old(self),
                pos@,
                moves@,
                ply as int,
                extensions as int,
                recapture_sq,
            ) ==> self.tt == old(self).tt && self.history == old(self).history
                    && self.evaluator.pawn_table.mask() == old(self).evaluator.pawn_table.mask() && agree_below(
                    self.hash_stack@,
                    old(self).hash_stack@,
                    ply + 1,
                ),
                !self.stop && depth == 1 && horizon_moves(
                *old(self),
                pos@,
                moves@,
                ply as int,
                extensions as int,
                recapture_sq,
            ) ==> move_loop_value(
                    self.evaluator.pawn_table.entries(),
                    old(self).evaluator.pawn_table.mask(),
                    pos@,
                    moves@,
                    i as int,
                    best_score as int,
                    raised as int,
                    beta as int,
                    quiets_tried as int,
                    old(self).history@,
                    ply as int,
                    improving,
                    is_pv,
                    futility,
                ) == move_loop_value(
                old(self).evaluator.pawn_table.entries(),
                old(self).evaluator.pawn_table.mask(),
                pos@,
                moves@,
                0,
                -INF_SCORE as int,
                alpha as int,
                beta as int,
                0,
                old(self).history@,
                ply as int,
                improving,
                beta - alpha > 1,
                futility,
            ),
                is_pv == (beta - alpha > 1),
                color_idx == (if pos@.side_to_move == Color::White {
                    0int
                } else {
                    1int
                }),
                i == 0 ==> raised == alpha && self.evaluator == old(self).evaluator && self.tt == old(self).tt
                    && self.hash_stack == old(self).hash_stack && self.root_history == old(self).root_history,
                i > 0 && !self.stop && depth == 1 && moves@.len() > 0 && spec_extension(
                pos@,
                moves@[0],
                1,
                extensions as int,
                capture(pos@, moves@[0]),
                recapture_sq,
            ) == 0 && horizon_child(*old(self), after_move(pos@, moves@[0]), ply + 1, 0) ==> best_score >= min(
                beta as int,
                -spec_quiesce(
                    old(self).evaluator.pawn_table.entries(),
                    old(self).evaluator.pawn_table.mask(),
                    after_move(pos@, moves@[0]),
                    -beta as int,
                    -alpha as int,
                    0,
                ).0,
            ),
            decreases moves@.len() - i,
        {
            proof {
                reveal(horizon_moves);
                reveal(move_loop_value);
                reveal(horizon_child);
            }
            let mv = moves[i];
            let is_cap = is_capture(d, mv);
            let quiet = !is_cap && mv.promotion.is_none();
            if self.pruned_quiet(
                mv,
                i,
                depth,
                ply,
                color_idx,
                quiets_tried,
                quiet,
                improving,
                is_pv,
                in_check,
            ) {
                quiets_tried = quiets_tried + 1;
                i = i + 1;
                continue;
            }
            let child = play(pos, mv);
            let gives_check = child.data().checkers != 0;
            if futility && quiet && !gives_check && i > 0 {
                i = i + 1;
                continue;
            }
            if quiet {
                quiets_tried = quiets_tried + 1;
            }
            let mut child_pv: Vec<Move> = Vec::new();
            proof {
                if !self.stop && depth == 1 && horizon_moves(
                    *old(self),
                    pos@,
                    moves@,
                    ply as int,
                    extensions as int,
                    recapture_sq,
                ) {
                    assert(spec_extension(pos@, moves@[i as int], 1, extensions as int, capture(pos@, moves@[i as int]), recapture_sq) == 0);
                    if ply + 1 <= self.hash_stack@.len() {
                        lemma_agree_repeats(self.hash_stack@, old(self).hash_stack@, child@.hash, ply + 1);
                    } else {
                        assert(self.hash_stack@ =~= old(self).hash_stack@);
                    }
                    assert(horizon_child(*self, child@, ply + 1, 0));
                }
            }
            let score = self.search_child(
                pos,
                &child,
                mv,
                i,
                depth,
                raised,
                beta,
                &mut child_pv,
                ply,
                extensions,
                recapture_sq,
                prev_move,
                improving,
                gives_check,
                singular_candidate,
                tt_move,
                tt_score,
            );
            if self.stop {
                return (best_score, best_move, bound);
            }
            if score > best_score {
                best_score = score;
                best_move = Some(mv);
                if score > raised {
                    raised = score;
                    bound = Bound::Exact;
                    let ghost rest = child_pv@;
                    pv.clear();
                    pv.push(mv);
                    pv.append(&mut child_pv);
                    proof {
                        lemma_legal_line_cons(pos@, mv, rest);
                        assert(pv@ =~= seq![mv] + rest);
                    }
                }
            }
            if raised >= beta {
                bound = Bound::Lower;
                if quiet {
                    self.record_cutoff(d, mv, ply, depth, prev_move);
                }
                return (best_score, best_move, bound);
            }
            i = i + 1;
        }
        (best_score, best_move, bound)
    }
}

/// A copy of a list of moves.
fn copy_moves(v: &Vec<Move>) -> (r: Vec<Move>)
    ensures
        r@ == v@,
{
    let mut out: Vec<Move> = Vec::new();
    let mut i: usize = 0;
    while i < v.len()
        invariant
            i <= v@.len(),
            out@ == v@.subrange(0, i as int),
        decreases v@.len() - i,
    {
        out.push(v[i]);
        i = i + 1;
        assert(out@ =~= v@.subrange(0, i as int));
    }
    assert(out@ =~= v@);
    out
}

/// Share of the time limit, in percent, an iteration may end past: 70
/// once the best move stayed the same through depth 5 and beyond, 150 after
/// two or more changes of the best move, 85 otherwise.
pub open spec fn stability_percent(best_move_changes: int, depth: int) -> int {
    if best_move_changes == 0 && depth >= 5 {
        70
    } else if best_move_changes >= 2 {
        150
    } else {
        85
    }
}

/// Whether a search with a time limit stops after an iteration at `depth`
/// that ended `elapsed_ms` milliseconds in: when the time is past the
/// limit's [`stability_percent`] share (the scaled limit saturating at
/// `u64::MAX`). Without a limit (`u64::MAX`) it never stops on time.
pub open spec fn spec_soft_stop(elapsed_ms: int, time_limit_ms: int, best_move_changes: int, depth: int) -> bool {
    let pct = stability_percent(best_move_changes, depth);
    let scaled = if time_limit_ms * pct > u64::MAX {
        u64::MAX as int
    } else {
        time_limit_ms * pct
    };
    time_limit_ms != u64::MAX && elapsed_ms > scaled / 100
}

/// The time-management decision after an iteration (see [`spec_soft_stop`]).
pub fn soft_stop(elapsed_ms: u64, time_limit_ms: u64, best_move_changes: u32, depth: i32) -> (r: bool)
    ensures
        r == spec_soft_stop(elapsed_ms as int, time_limit_ms as int, best_move_changes as int, depth as int),
{
    if time_limit_ms == u64::MAX {
        return false;
    }
    let stability_pct: u64 = if best_move_changes == 0 && depth >= 5 {
        70
    } else if best_move_changes >= 2 {
        150
    } else {
        85
    };
    elapsed_ms > saturating_scale(time_limit_ms, stability_pct) / 100
}

/// `t * pct`, saturating at `u64::MAX`.
fn saturating_scale(t: u64, pct: u64) -> (r: u64)
    requires
        pct > 0,
    ensures
        r == if t * pct > u64::MAX { u64::MAX as int } else { t * pct },
{
    if t > u64::MAX / pct {
        assert(t * pct > u64::MAX) by (nonlinear_arith)
            requires
                t > u64::MAX / pct,
                pct > 0,
        ;
        u64::MAX
    } else {
        assert(t * pct <= u64::MAX) by (nonlinear_arith)
            requires
                t <= u64::MAX / pct,
                pct > 0,
        ;
        t * pct
    }
}

/// What a completed iteration reports: its depth and score, the nodes and
/// milliseconds spent since the search started, nodes per second, and the
/// principal variation.
pub struct SearchInfo {
    pub depth: i32,
    pub score: Score,
    pub nodes: u64,
    pub time_ms: u64,
    pub nps: u64,
    pub pv: Vec<Move>,
}

/// The state of an iterative deepening search between two iterations.
pub struct SearchControl {
    max_depth: i32,
    time_limit_ms: u64,
    next_depth: i32,
    prev_score: Score,
    prev_prev_score: Score,
    prev_best_move: Option<Move>,
    best_move_changes: u32,
    result: SearchResult,
    done: bool,
}

impl SearchControl {
    /// The result so far: the deepest completed iteration that found a
    /// principal variation, whose moves form a legal line from `root` and
    /// whose best move is its first move.
    pub closed spec fn valid(&self, root: PosData) -> bool {
        &&& 1 <= self.next_depth
        &&& self.max_depth <= MAX_SEARCH_DEPTH
        &&& !self.done ==> self.next_depth <= self.max_depth
        &&& self.best_move_changes <= self.next_depth
        &&& -SCORE_LIMIT <= self.prev_score <= SCORE_LIMIT
        &&& -SCORE_LIMIT <= self.prev_prev_score <= SCORE_LIMIT
        &&& legal_line(root, self.result.pv@)
        &&& self.result.best_move == (if self.result.pv@.len() > 0 {
            Some(self.result.pv@[0])
        } else {
            None
        })
        &&& self.result.best_move is Some ==> 1 <= self.result.depth < self.next_depth
            && self.result.depth <= self.max_depth
    }

    /// The time limit of the search in milliseconds, `u64::MAX` for none.
    pub closed spec fn time_limit(&self) -> u64 {
        self.time_limit_ms
    }

    /// The depth of the next iteration.
    pub closed spec fn next_iteration(&self) -> i32 {
        self.next_depth
    }

    /// The score of the last iteration that ran to the end (0 before any).
    pub closed spec fn last_score(&self) -> int {
        self.prev_score as int
    }

    /// The deepest iteration the search may run.
    pub closed spec fn depth_limit(&self) -> i32 {
        self.max_depth
    }

    /// Whether the search is over.
    pub closed spec fn is_done(&self) -> bool {
        self.done
    }

    /// The iterations left at most before the search is over.
    pub closed spec fn remaining(&self) -> int {
        if self.done {
            0
        } else {
            self.max_depth - self.next_depth + 1
        }
    }

    /// The result of the search so far.
    pub closed spec fn spec_result(&self) -> SearchResult {
        self.result
    }

    pub fn finished(&self) -> (r: bool)
        ensures
            r == self.is_done(),
    {
        self.done
    }

    /// The result of the search.
    pub fn into_result(self) -> (r: SearchResult)
        ensures
            r == self.spec_result(),
    {
        self.result
    }
}

impl Searcher {
    /// Starts a search to `max_depth` plies with a soft limit of
    /// `time_limit_ms` milliseconds (`u64::MAX` for none): the node count
    /// and stop flag are reset, the clock starts, the table enters a new
    /// generation and the history is halved.
    pub fn start_search(&mut self, max_depth: i32, time_limit_ms: u64) -> (r: SearchControl)
        requires
            old(self).wf(),
            max_depth <= MAX_SEARCH_DEPTH,
        ensures
            final(self).wf(),
            !final(self).stopped(),
            final(self).node_count() == 0,
            final(self).root_history() == old(self).root_history(),
            final(self).table().entries() == old(self).table().entries(),
            final(self).table().generation() == old(self).table().generation().wrapping_add(1),
            final(self).time_limit() == time_limit_ms,
            r.time_limit() == time_limit_ms,
            forall|root: PosData| #[trigger] r.valid(root),
            r.is_done() == (max_depth < 1),
            r.depth_limit() == max_depth,
            r.spec_result().best_move is None,
            r.spec_result().pv@.len() == 0,
            r.spec_result().depth == 0,
            r.spec_result().score == 0,
            r.last_score() == 0,
            r.next_iteration() == 1,
            final(self).table().mask() == old(self).table().mask(),
    {
        self.nodes = 0;
        self.start_time = now();
        self.time_limit_ms = time_limit_ms;
        self.stop = false;
        self.tt.new_search();
        let mut i: usize = 0;
        while i < self.history.len()
            invariant
                self.wf(),
                self.time_limit_ms == time_limit_ms,
                !self.stop,
                self.nodes == 0,
                self.root_history == old(self).root_history,
                self.tt.entries() == old(self).tt.entries(),
                self.tt.mask() == old(self).tt.mask(),
                self.tt.generation() == old(self).tt.generation().wrapping_add(1),
            decreases self.history@.len() - i,
        {
            let h = self.history[i] / 2;
            self.history.set(i, h);
            i = i + 1;
        }
        SearchControl {
            max_depth,
            time_limit_ms,
            next_depth: 1,
            prev_score: 0,
            prev_prev_score: 0,
            prev_best_move: None,
            best_move_changes: 0,
            result: SearchResult {
                best_move: None,
                score: 0,
                depth: 0,
                nodes: 0,
                time_ms: 0,
                pv: Vec::new(),
            },
            done: max_depth < 1,
        }
    }

    /// One aspiration-window search of `pos` at `depth`: from depth 4 the
    /// window is centred on the previous score, `ASP_WINDOW` plus a quarter
    /// of the last score swing wide from depth 5, and widened on the failing
    /// side (doubling, open past 300) until the score falls inside; a window
    /// already open on the failing side is final. The window is centred
    /// within the infinite score.
    #[verifier::rlimit(100)]
    #[verifier::spinoff_prover]
    fn aspiration(
        &mut self,
        pos: &Position,
        depth: i32,
        prev_score: Score,
        prev_prev_score: Score,
        pv: &mut Vec<Move>,
    ) -> (r: Score)
        requires
            old(self).wf(),
            pos@.wf(),
            1 <= depth <= MAX_SEARCH_DEPTH,
            -SCORE_LIMIT <= prev_score <= SCORE_LIMIT,
            -SCORE_LIMIT <= prev_prev_score <= SCORE_LIMIT,
            old(pv)@.len() == 0,
        ensures
            follows(*old(self), *final(self)),
            -SCORE_LIMIT <= r <= SCORE_LIMIT,
            legal_line(pos@, final(pv)@),
            old(self).stop ==> r == (if depth < 4 {
                0
            } else {
                prev_score
            }),
            !final(self).stop && legal_moves_of(pos@).len() == 0 ==> r == terminal_score(pos@, 0),
            !final(self).stop && legal_moves_of(pos@).len() > 0 && pos@.halfmove_clock >= 100 ==> r
                == DRAW_SCORE,
            !final(self).stop && legal_moves_of(pos@).len() > 0 && pos@.halfmove_clock < 100
                && -INF_SCORE < r < INF_SCORE ==> final(pv)@.len() > 0,
            legal_moves_of(pos@).len() == 0 || pos@.halfmove_clock >= 100 ==> final(pv)@.len() == 0,
            !final(self).stop ==> -INF_SCORE < r < INF_SCORE,
            !final(self).stop && legal_moves_of(pos@).len() > 0 && pos@.halfmove_clock < 100
                ==> final(pv)@.len() > 0,
            depth < 4 && !final(self).stop && pos@.halfmove_clock < 100 && !table_may_cut(
                old(self).tt,
                pos@.hash,
                depth as int,
            ) && has_new_mate(pos@, old(self).root_history@) ==> final(pv)@.len() > 0 && r >= MATE_SCORE
                - 1,
    {
        if depth < 4 {
            return self.alpha_beta(pos, depth, -INF_SCORE, INF_SCORE, pv, 0, 0, None, None);
        }
        let volatility: Score = if depth >= 5 {
            let diff = prev_score - prev_prev_score;
            (if diff < 0 {
                -diff
            } else {
                diff
            }) / 4
        } else {
            0
        };
        let mut delta = ASP_WINDOW + volatility;
        let centre = iclamp(prev_score, -INF_SCORE + 1, INF_SCORE - 1);
        let mut a = imax(centre - delta, -INF_SCORE);
        let mut b = imin(centre + delta, INF_SCORE);
        let mut score = prev_score;
        loop
            invariant
                follows(*old(self), *self),
                pos@.wf(),
                4 <= depth <= MAX_SEARCH_DEPTH,
                -SCORE_LIMIT <= prev_score <= SCORE_LIMIT,
                -SCORE_LIMIT <= score <= SCORE_LIMIT,
                30 <= delta <= 4_000_030,
                -INF_SCORE < centre < INF_SCORE,
                -INF_SCORE <= a < centre < b <= INF_SCORE,
                legal_line(pos@, pv@),
                old(self).stop ==> score == prev_score,
                legal_moves_of(pos@).len() == 0 || pos@.halfmove_clock >= 100 ==> pv@.len() == 0,
            ensures
                -SCORE_LIMIT <= score <= SCORE_LIMIT,
                legal_line(pos@, pv@),
                follows(*old(self), *self),
                old(self).stop ==> score == prev_score,
                !self.stop && legal_moves_of(pos@).len() == 0 ==> score == terminal_score(pos@, 0),
                !self.stop && legal_moves_of(pos@).len() > 0 && pos@.halfmove_clock >= 100 ==> score
                    == DRAW_SCORE,
                !self.stop && legal_moves_of(pos@).len() > 0 && pos@.halfmove_clock < 100 && -INF_SCORE
                    < score < INF_SCORE ==> pv@.len() > 0,
                legal_moves_of(pos@).len() == 0 || pos@.halfmove_clock >= 100 ==> pv@.len() == 0,
                !self.stop ==> -INF_SCORE < score < INF_SCORE,
            decreases (if a > -INF_SCORE {
                1int
            } else {
                0int
            }) + (if b < INF_SCORE {
                1int
            } else {
                0int
            }), 600 - min(delta as int, 600),
        {
            pv.clear();
            let s = self.alpha_beta(pos, depth, a, b, pv, 0, 0, None, None);
            if self.stop {
                break;
            }
            if s > a && s < b {
                score = s;
                break;
            }
            if s <= a {
                if a == -INF_SCORE {
                    score = s;
                    break;
                }
                if delta <= 300 {
                    delta = delta * 2;
                }
                a = if delta > 300 {
                    -INF_SCORE
                } else {
                    imax(centre - delta, -INF_SCORE)
                };
            } else {
                if b == INF_SCORE {
                    score = s;
                    break;
                }
                if delta <= 300 {
                    delta = delta * 2;
                }
                b = if delta > 300 {
                    INF_SCORE
                } else {
                    imin(centre + delta, INF_SCORE)
                };
            }
        }
        score
    }
}

impl Searcher {
    /// Runs the next iteration of the search `ctl` on `pos`, the position it
    /// was started for. An iteration that completes with a principal
    /// variation becomes the result (its first move the best move) and is
    /// reported; the move instability is counted from depth 4. The search is
    /// over when time runs out, when the soft time limit has passed (70% of
    /// it once the best move was stable through depth 5, 150% after two
    /// changes of the best move, 85% otherwise), or after `max_depth`.
    #[verifier::rlimit(100)]
    #[verifier::spinoff_prover]
    pub fn search_step(&mut self, pos: &Position, ctl: &mut SearchControl) -> (r: Option<SearchInfo>)
        requires
            old(self).wf(),
            pos@.wf(),
            old(ctl).valid(pos@),
            !old(ctl).is_done(),
            old(self).time_limit() == old(ctl).time_limit(),
        ensures
            final(self).wf(),
            final(self).root_history() == old(self).root_history(),
            final(self).time_limit() == old(self).time_limit(),
            final(ctl).time_limit() == old(ctl).time_limit(),
            old(ctl).time_limit() == u64::MAX && !old(self).stopped() ==> !final(self).stopped() && (
            final(ctl).is_done() <==> old(ctl).next_iteration() >= old(ctl).depth_limit()),
            final(ctl).valid(pos@),
            final(ctl).depth_limit() == old(ctl).depth_limit(),
            final(ctl).remaining() < old(ctl).remaining(),
            r matches Some(info) ==> info.pv@ == final(ctl).spec_result().pv@ && info.pv@.len() > 0
                && info.depth == final(ctl).spec_result().depth && info.depth == old(ctl).next_iteration(),
            r is None ==> final(ctl).spec_result() == old(ctl).spec_result(),
            final(self).stopped() ==> final(ctl).is_done(),
            old(ctl).spec_result().best_move is Some ==> final(ctl).spec_result().best_move is Some,
            final(self).stopped() ==> final(ctl).last_score() == old(ctl).last_score(),
            r matches Some(info) ==> info.score == final(ctl).last_score(),
            !final(self).stopped() && legal_moves_of(pos@).len() > 0 && pos@.halfmove_clock < 100
                && -INF_SCORE < final(ctl).last_score() < INF_SCORE ==> r is Some,
            legal_moves_of(pos@).len() == 0 || pos@.halfmove_clock >= 100 ==> r is None,
            !final(self).stopped() ==> final(ctl).next_iteration() == old(ctl).next_iteration() + 1,
            !final(self).stopped() && old(ctl).next_iteration() < 4 && pos@.halfmove_clock < 100
                && !table_may_cut(old(self).table(), pos@.hash, old(ctl).next_iteration() as int)
                && has_new_mate(pos@, old(self).root_history()) ==> r is Some
                && final(ctl).spec_result().score >= MATE_SCORE - 1,
            r matches Some(info) ==> final(ctl).spec_result().score == info.score
                && final(ctl).spec_result().nodes == final(self).node_count(),
            !final(self).stopped() && legal_moves_of(pos@).len() > 0 && pos@.halfmove_clock < 100 ==> r
                is Some,
    {
        let depth = ctl.next_depth;
        let mut pv: Vec<Move> = Vec::new();
        let score = self.aspiration(pos, depth, ctl.prev_score, ctl.prev_prev_score, &mut pv);
        if self.stop {
            ctl.done = true;
            return None;
        }
        ctl.prev_prev_score = ctl.prev_score;
        ctl.prev_score = score;
        let elapsed = elapsed_ms(&self.start_time);
        let mut info: Option<SearchInfo> = None;
        if pv.len() > 0 {
            let first = pv[0];
            if depth >= 4 {
                if ctl.prev_best_move.is_some() && ctl.prev_best_move != Some(first) {
                    ctl.best_move_changes = ctl.best_move_changes + 1;
                }
                ctl.prev_best_move = Some(first);
            }
            let nps = if elapsed > 0 {
                self.nodes.wrapping_mul(1000) / elapsed
            } else {
                0
            };
            info = Some(
                SearchInfo {
                    depth,
                    score,
                    nodes: self.nodes,
                    time_ms: elapsed,
                    nps,
                    pv: copy_moves(&pv),
                },
            );
            ctl.result = SearchResult {
                best_move: Some(first),
                score,
                depth,
                nodes: self.nodes,
                time_ms: elapsed,
                pv,
            };
        }
        if soft_stop(elapsed, ctl.time_limit_ms, ctl.best_move_changes, depth) {
            ctl.done = true;
        }
        ctl.next_depth = depth + 1;
        if ctl.next_depth > ctl.max_depth {
            ctl.done = true;
        }
        info
    }

    /// Iterative deepening search of `pos` to `max_depth` plies within about
    /// `time_limit_ms` milliseconds (`u64::MAX` for no limit), as the
    /// iterations of [`Searcher::search_step`] run to the end. The best move
    /// is legal and begins the principal variation, a legal line; there is
    /// none when the position has no legal move or no iteration completed.
    /// A finished game ends every iteration at once with nothing to report,
    /// so its iterations past the deepest one a game in progress may be
    /// searched to are not run.
    pub fn search(&mut self, pos: &Position, max_depth: i32, time_limit_ms: u64) -> (r: SearchResult)
        requires
            old(self).wf(),
            pos@.wf(),
            max_depth <= MAX_SEARCH_DEPTH || legal_moves_of(pos@).len() == 0 || pos@.halfmove_clock
                >= 100,
        ensures
            final(self).wf(),
            final(self).root_history() == old(self).root_history(),
            legal_line(pos@, r.pv@),
            r.best_move == (if r.pv@.len() > 0 {
                Some(r.pv@[0])
            } else {
                None
            }),
            r.best_move matches Some(m) ==> legal_moves_of(pos@).contains(m),
            legal_moves_of(pos@).len() == 0 ==> r.best_move is None,
            max_depth < 1 ==> r.best_move is None,
            time_limit_ms == u64::MAX ==> !final(self).stopped(),
            r.best_move is Some ==> 1 <= r.depth <= max_depth,
            legal_moves_of(pos@).len() == 0 || pos@.halfmove_clock >= 100 ==> r.best_move is None
                && r.pv@.len() == 0 && r.depth == 0 && r.score == 0,
            time_limit_ms == u64::MAX && max_depth >= 1 && pos@.halfmove_clock < 100 && !table_may_cut(
                old(self).table(),
                pos@.hash,
                1,
            ) && has_new_mate(pos@, old(self).root_history()) ==> r.best_move is Some,
            time_limit_ms == u64::MAX && max_depth == 1 && pos@.halfmove_clock < 100 && !table_may_cut(
                old(self).table(),
                pos@.hash,
                1,
            ) && has_new_mate(pos@, old(self).root_history()) ==> r.depth == 1 && r.score >= MATE_SCORE
                - 1,
            time_limit_ms == u64::MAX && max_depth >= 1 && legal_moves_of(pos@).len() > 0
                && pos@.halfmove_clock < 100 ==> r.best_move is Some && r.depth == max_depth && r.nodes
                == final(self).node_count(),
    {
        let depth_limit = if max_depth > MAX_SEARCH_DEPTH {
            MAX_SEARCH_DEPTH
        } else {
            max_depth
        };
        let mut ctl = self.start_search(depth_limit, time_limit_ms);
        assert(ctl.valid(pos@));
        while !ctl.finished()
            invariant
                self.wf(),
                pos@.wf(),
                ctl.valid(pos@),
                self.root_history() == old(self).root_history(),
                ctl.depth_limit() == depth_limit,
                depth_limit <= max_depth,
                max_depth >= 1 ==> depth_limit >= 1,
                max_depth == 1 ==> depth_limit == 1,
                self.time_limit() == ctl.time_limit(),
                ctl.time_limit() == time_limit_ms,
                time_limit_ms == u64::MAX ==> !self.stopped(),
                max_depth < 1 ==> ctl.is_done(),
                max_depth < 1 ==> ctl.spec_result().best_move is None,
                legal_moves_of(pos@).len() == 0 || pos@.halfmove_clock >= 100 ==> ctl.spec_result().best_move
                    is None && ctl.spec_result().pv@.len() == 0 && ctl.spec_result().depth == 0
                    && ctl.spec_result().score == 0,
                1 <= ctl.next_iteration(),
                time_limit_ms == u64::MAX && ctl.next_iteration() == 1 ==> self.table().entries() == old(self).table().entries()
                    && self.table().mask() == old(self).table().mask() && (max_depth >= 1
                    ==> !ctl.is_done()),
                time_limit_ms == u64::MAX && max_depth >= 1 && pos@.halfmove_clock < 100 && !table_may_cut(
                    old(self).table(),
                    pos@.hash,
                    1,
                ) && has_new_mate(pos@, old(self).root_history()) && ctl.next_iteration() > 1
                    ==> ctl.spec_result().best_move is Some,
                time_limit_ms == u64::MAX && max_depth == 1 && pos@.halfmove_clock < 100 && !table_may_cut(
                    old(self).table(),
                    pos@.hash,
                    1,
                ) && has_new_mate(pos@, old(self).root_history()) && ctl.next_iteration() > 1
                    ==> ctl.spec_result().depth == 1 && ctl.spec_result().score >= MATE_SCORE - 1,
                time_limit_ms == u64::MAX && max_depth >= 1 ==> (ctl.is_done() <==> ctl.next_iteration()
                    == depth_limit + 1) && ctl.next_iteration() <= depth_limit + 1,
                time_limit_ms == u64::MAX && legal_moves_of(pos@).len() > 0 && pos@.halfmove_clock < 100
                    && ctl.next_iteration() > 1 ==> ctl.spec_result().best_move is Some
                    && ctl.spec_result().depth == ctl.next_iteration() - 1
                    && ctl.spec_result().nodes == self.node_count(),
            decreases ctl.remaining(),
        {
            self.search_step(pos, &mut ctl);
        }
        let r = ctl.into_result();
        proof {
            if r.pv@.len() > 0 {
                lemma_legal_line_first(pos@, r.pv@);
            }
        }
        r
    }
}

/// The moves of `line` from `p` in UCI notation.
pub open spec fn line_text(p: PosData, line: Seq<Move>) -> Seq<Seq<char>>
    decreases line.len(),
{
    if line.len() == 0 {
        Seq::empty()
    } else {
        seq![uci_text(p, line[0])] + line_text(after_move(p, line[0]), line.drop_first())
    }
}

/// A legal line from `pos` in UCI notation, each move written in the
/// position it is played in.
pub fn pv_to_uci(pos: &Position, pv: &Vec<Move>) -> (r: Vec<String>)
    requires
        legal_line(pos@, pv@),
    ensures
        r@.len() == pv@.len(),
        forall|i: int| 0 <= i < r@.len() ==> (#[trigger] r@[i])@ == line_text(pos@, pv@)[i],
{
    let mut out: Vec<String> = Vec::new();
    if pv.len() == 0 {
        return out;
    }
    out.push(move_to_uci(pv[0], pos));
    let mut cur = play(pos, pv[0]);
    let ghost mut texts: Seq<Seq<char>> = seq![uci_text(pos@, pv@[0])];
    proof {
        assert(pv@.skip(1) =~= pv@.drop_first());
    }
    let mut i: usize = 1;
    while i < pv.len()
        invariant
            1 <= i <= pv@.len(),
            legal_line(cur@, pv@.skip(i as int)),
            out@.len() == i,
            texts.len() == i,
            forall|j: int| 0 <= j < i ==> (#[trigger] out@[j])@ == texts[j],
            line_text(pos@, pv@) == texts + line_text(cur@, pv@.skip(i as int)),
        decreases pv@.len() - i,
    {
        let mv = pv[i];
        let ghost rest = pv@.skip(i as int);
        assert(rest[0] == mv);
        assert(rest.drop_first() =~= pv@.skip(i + 1));
        out.push(move_to_uci(mv, &cur));
        proof {
            assert(texts.push(uci_text(cur@, mv)) + line_text(after_move(cur@, mv), pv@.skip(i + 1))
                =~= texts + line_text(cur@, rest));
            texts = texts.push(uci_text(cur@, mv));
        }
        cur = play(&cur, mv);
        i = i + 1;
    }
    proof {
        assert(pv@.skip(i as int) =~= Seq::<Move>::empty());
        assert(texts + line_text(cur@, pv@.skip(i as int)) =~= texts);
    }
    out
}

} // verus!
