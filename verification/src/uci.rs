//! The UCI commands that carry data: `position`, which sets up a board and
//! plays the listed moves, and `go`, which sets the depth and the time to
//! spend. Both work on the whitespace-separated tokens of a command line.
use vstd::prelude::*;
use crate::chess::{
    Move, PosData, Position, legal_moves_of, after_move, fen_position, uci_move_of, start_fields,
    parse_fen, startpos, legal_moves, play, parse_uci_move,
};
use crate::types::Color;

verus! {

/// Whether `t` is the text `word`.
pub fn text_is(t: &str, word: &str) -> (r: bool)
    ensures
        r == (t@ == word@),
{
    let n = t.unicode_len();
    if n != word.unicode_len() {
        return false;
    }
    let mut i: usize = 0;
    while i < n
        invariant
            n == t@.len(),
            n == word@.len(),
            i <= n,
            forall|j: int| 0 <= j < i ==> t@[j] == word@[j],
        decreases n - i,
    {
        if t.get_char(i) != word.get_char(i) {
            return false;
        }
        i = i + 1;
    }
    assert(t@ =~= word@);
    true
}

/// An ASCII decimal digit.
pub open spec fn is_digit(c: char) -> bool {
    '0' <= c <= '9'
}

/// The value of a string of decimal digits.
pub open spec fn digits_value(s: Seq<char>) -> int
    decreases s.len(),
{
    if s.len() == 0 {
        0
    } else {
        digits_value(s.drop_last()) * 10 + (s.last() as int - '0' as int)
    }
}

/// A non-empty string of decimal digits.
pub open spec fn is_number(s: Seq<char>) -> bool {
    s.len() > 0 && forall|i: int| 0 <= i < s.len() ==> is_digit(#[trigger] s[i])
}

/// What `str::parse::<u64>` reads from `s`: an optional `+` and decimal
/// digits whose value fits.
pub open spec fn spec_parse_u64(s: Seq<char>) -> Option<u64> {
    let body = if s.len() > 0 && s[0] == '+' {
        s.drop_first()
    } else {
        s
    };
    if is_number(body) && digits_value(body) <= u64::MAX {
        Some(digits_value(body) as u64)
    } else {
        None
    }
}

/// What `str::parse::<i32>` reads from `s`: an optional sign and decimal
/// digits whose value fits.
pub open spec fn spec_parse_i32(s: Seq<char>) -> Option<i32> {
    if s.len() > 0 && s[0] == '-' {
        let body = s.drop_first();
        if is_number(body) && digits_value(body) <= 0x8000_0000 {
            Some((-digits_value(body)) as i32)
        } else {
            None
        }
    } else {
        let body = if s.len() > 0 && s[0] == '+' {
            s.drop_first()
        } else {
            s
        };
        if is_number(body) && digits_value(body) <= i32::MAX {
            Some(digits_value(body) as i32)
        } else {
            None
        }
    }
}

proof fn lemma_digits_value_nonneg(s: Seq<char>)
    requires
        forall|i: int| 0 <= i < s.len() ==> is_digit(#[trigger] s[i]),
    ensures
        digits_value(s) >= 0,
    decreases s.len(),
{
    if s.len() > 0 {
        lemma_digits_value_nonneg(s.drop_last());
    }
}

/// A prefix of a string of digits has at most its value.
proof fn lemma_prefix_value_le(s: Seq<char>, k: int)
    requires
        0 <= k <= s.len(),
        forall|i: int| 0 <= i < s.len() ==> is_digit(#[trigger] s[i]),
    ensures
        digits_value(s.subrange(0, k)) <= digits_value(s),
    decreases s.len() - k,
{
    if k < s.len() {
        lemma_prefix_value_le(s, k + 1);
        assert(s.subrange(0, k + 1).drop_last() =~= s.subrange(0, k));
        assert forall|i: int| 0 <= i < k implies is_digit(#[trigger] s.subrange(0, k)[i]) by {
            assert(s.subrange(0, k)[i] == s[i]);
        }
        lemma_digits_value_nonneg(s.subrange(0, k));
        assert(s.subrange(0, k + 1).last() == s[k]);
    } else {
        assert(s.subrange(0, k) =~= s);
    }
}

/// The value of the digits of `t` from `start` on, if they are all digits,
/// there is one, and the value is at most `limit`.
fn digits_at_most(t: &str, start: usize, limit: u64) -> (r: Option<u64>)
    requires
        start <= t@.len(),
        limit >= 9,
    ensures
        r == (if is_number(t@.skip(start as int)) && digits_value(t@.skip(start as int)) <= limit {
            Some(digits_value(t@.skip(start as int)) as u64)
        } else {
            None
        }),
{
    let n = t.unicode_len();
    if start >= n {
        return None;
    }
    let ghost body = t@.skip(start as int);
    let mut v: u64 = 0;
    let mut i: usize = start;
    while i < n
        invariant
            n == t@.len(),
            start < n,
            start <= i <= n,
            body == t@.skip(start as int),
            body.len() == n - start,
            forall|j: int| 0 <= j < i - start ==> is_digit(#[trigger] body[j]),
            v == digits_value(body.subrange(0, i - start)),
            v <= limit,
            limit >= 9,
        decreases n - i,
    {
        let c = t.get_char(i);
        assert(body[i - start] == c);
        if c < '0' || c > '9' {
            assert(!is_digit(body[i - start]));
            return None;
        }
        let dgt = (c as u32 - '0' as u32) as u64;
        let ghost w = body.subrange(0, i - start + 1);
        assert(w.drop_last() =~= body.subrange(0, i - start));
        assert(w.last() == c);
        assert(digits_value(w) == v * 10 + dgt);
        if v > (limit - dgt) / 10 {
            proof {
                assert(v * 10 + dgt > limit) by (nonlinear_arith)
                    requires
                        v > (limit - dgt) / 10,
                        dgt <= 9,
                        limit >= 9,
                ;
                if is_number(body) {
                    lemma_prefix_value_le(body, i - start + 1);
                }
            }
            return None;
        }
        assert(v * 10 + dgt <= limit) by (nonlinear_arith)
            requires
                v <= (limit - dgt) / 10,
                dgt <= 9,
                limit >= 9,
        ;
        v = v * 10 + dgt;
        i = i + 1;
        assert forall|j: int| 0 <= j < i - start implies is_digit(#[trigger] body[j]) by {
            if j == i - 1 - start {
                assert(body[j] == c);
            }
        }
    }
    assert(body.subrange(0, n - start) =~= body);
    Some(v)
}

/// `str::parse::<u64>`.
pub fn parse_u64(t: &str) -> (r: Option<u64>)
    ensures
        r == spec_parse_u64(t@),
{
    let n = t.unicode_len();
    if n > 0 && t.get_char(0) == '+' {
        assert(t@.skip(1) =~= t@.drop_first());
        digits_at_most(t, 1, u64::MAX)
    } else {
        assert(t@.skip(0) =~= t@);
        digits_at_most(t, 0, u64::MAX)
    }
}

/// `str::parse::<i32>`.
pub fn parse_i32(t: &str) -> (r: Option<i32>)
    ensures
        r == spec_parse_i32(t@),
{
    let n = t.unicode_len();
    if n > 0 && t.get_char(0) == '-' {
        assert(t@.skip(1) =~= t@.drop_first());
        proof {
            if is_number(t@.drop_first()) {
                lemma_digits_value_nonneg(t@.drop_first());
            }
        }
        match digits_at_most(t, 1, 0x8000_0000) {
            Some(v) => Some((0 - v as i64) as i32),
            None => None,
        }
    } else {
        let r = if n > 0 && t.get_char(0) == '+' {
            assert(t@.skip(1) =~= t@.drop_first());
            digits_at_most(t, 1, 0x7fff_ffff)
        } else {
            assert(t@.skip(0) =~= t@);
            digits_at_most(t, 0, 0x7fff_ffff)
        };
        proof {
            if is_number(t@.drop_first()) {
                lemma_digits_value_nonneg(t@.drop_first());
            }
            if is_number(t@) {
                lemma_digits_value_nonneg(t@);
            }
        }
        match r {
            Some(v) => Some(v as i32),
            None => None,
        }
    }
}

/// The texts of the tokens of a command line.
pub open spec fn token_texts(tokens: Seq<&str>) -> Seq<Seq<char>> {
    tokens.map_values(|t: &str| t@)
}

/// The first index from `i` on whose token is `moves`, or the number of
/// tokens.
pub open spec fn moves_index(ts: Seq<Seq<char>>, i: int) -> int
    decreases ts.len() - i,
{
    if i >= ts.len() || ts[i] == "moves"@ {
        i
    } else {
        moves_index(ts, i + 1)
    }
}

/// Texts joined by single spaces.
pub open spec fn joined(parts: Seq<Seq<char>>) -> Seq<char>
    decreases parts.len(),
{
    if parts.len() == 0 {
        Seq::empty()
    } else if parts.len() == 1 {
        parts[0]
    } else {
        joined(parts.drop_last()) + seq![' '] + parts.last()
    }
}

/// Where the board description of a `position` command ends.
pub open spec fn setup_end(ts: Seq<Seq<char>>) -> int {
    if ts.len() <= 1 {
        ts.len() as int
    } else if ts[1] == "startpos"@ {
        2
    } else if ts[1] == "fen"@ {
        moves_index(ts, 2)
    } else {
        1
    }
}

/// The index of the first move token of a `position` command: the one
/// after `moves` when it follows the board description, else none.
pub open spec fn first_move(ts: Seq<Seq<char>>) -> int {
    let e = setup_end(ts);
    if e < ts.len() && ts[e] == "moves"@ {
        e + 1
    } else {
        ts.len() as int
    }
}

/// `base` is the board a `position` command sets up from `old`: the start
/// position for `startpos`, the position of the FEN text (the tokens up to
/// `moves`) for `fen` when it is read, and `old` otherwise.
pub open spec fn setup_ok(old: PosData, ts: Seq<Seq<char>>, base: PosData) -> bool {
    if ts.len() <= 1 {
        base == old
    } else if ts[1] == "startpos"@ {
        start_fields(base)
    } else if ts[1] == "fen"@ {
        base == match fen_position(joined(ts.subrange(2, moves_index(ts, 2)))) {
            Some(q) => q,
            None => old,
        }
    } else {
        base == old
    }
}

/// The position after the move text `t` in `p`, when it reads as a legal
/// move.
pub open spec fn step(p: PosData, t: Seq<char>) -> Option<PosData> {
    match uci_move_of(p, t) {
        Some(m) => if legal_moves_of(p).contains(m) {
            Some(after_move(p, m))
        } else {
            None
        },
        None => None,
    }
}

/// The position after the move texts of `ts` from `i` on, each played when
/// it reads as a legal move and skipped otherwise.
pub open spec fn play_texts(p: PosData, ts: Seq<Seq<char>>, i: int) -> PosData
    decreases ts.len() - i,
{
    if i >= ts.len() {
        p
    } else {
        play_texts(
            match step(p, ts[i]) {
                Some(q) => q,
                None => p,
            },
            ts,
            i + 1,
        )
    }
}

/// The hashes of the positions the played move texts of `ts` from `i` on
/// lead to.
pub open spec fn hashes_of(p: PosData, ts: Seq<Seq<char>>, i: int) -> Seq<u64>
    decreases ts.len() - i,
{
    if i >= ts.len() {
        Seq::empty()
    } else {
        match step(p, ts[i]) {
            Some(q) => seq![q.hash] + hashes_of(q, ts, i + 1),
            None => hashes_of(p, ts, i + 1),
        }
    }
}

/// Whether `moves` holds `mv`.
fn holds_move(moves: &Vec<Move>, mv: Move) -> (r: bool)
    ensures
        r == moves@.contains(mv),
{
    let mut i: usize = 0;
    while i < moves.len()
        invariant
            i <= moves@.len(),
            forall|j: int| 0 <= j < i ==> moves@[j] != mv,
        decreases moves@.len() - i,
    {
        if moves[i] == mv {
            return true;
        }
        i = i + 1;
    }
    false
}

/// The `position` command: sets `pos` to the start position (`startpos`)
/// or to the position of a FEN text (`fen ...`, kept unchanged when the text
/// is not a position), then plays the moves after `moves` that read as legal
/// moves, skipping the others. Returns the hashes of the positions of the
/// game: the set-up position and the position after each move played.
pub fn parse_position(tokens: &[&str], pos: &mut Position) -> (r: Vec<u64>)
    requires
        old(pos)@.wf(),
    ensures
        final(pos)@.wf(),
        exists|base: PosData|
            #[trigger] setup_ok(old(pos)@, token_texts(tokens@), base) && final(pos)@ == play_texts(
                base,
                token_texts(tokens@),
                first_move(token_texts(tokens@)),
            ) && r@ == seq![base.hash] + hashes_of(
                base,
                token_texts(tokens@),
                first_move(token_texts(tokens@)),
            ),
{
    let ghost ts = token_texts(tokens@);
    let n = tokens.len();
    let mut idx: usize = 1;
    if n > 1 {
        if text_is(tokens[1], "startpos") {
            *pos = startpos();
            idx = 2;
        } else if text_is(tokens[1], "fen") {
            idx = 2;
            let mut fen = String::new();
            proof {
                reveal_strlit(" ");
                assert(ts.subrange(2, 2) =~= Seq::<Seq<char>>::empty());
            }
            while idx < n && !text_is(tokens[idx], "moves")
                invariant
                    2 <= idx <= n,
                    n == tokens@.len(),
                    ts == token_texts(tokens@),
                    fen@ == joined(ts.subrange(2, idx as int)),
                    moves_index(ts, idx as int) == moves_index(ts, 2),
                decreases n - idx,
            {
                let ghost parts = ts.subrange(2, idx as int + 1);
                proof {
                    reveal_strlit(" ");
                }
                assert(parts.drop_last() =~= ts.subrange(2, idx as int));
                assert(parts.last() == tokens@[idx as int]@);
                assert(ts[idx as int] != "moves"@);
                if idx > 2 {
                    fen.append(" ");
                }
                fen.append(tokens[idx]);
                idx = idx + 1;
                assert(fen@ =~= joined(ts.subrange(2, idx as int)));
            }
            if let Some(p) = parse_fen(fen.as_str()) {
                *pos = p;
            }
        }
    }
    let ghost base = pos@;
    assert(setup_ok(old(pos)@, ts, base));
    let mut history: Vec<u64> = Vec::new();
    history.push(pos.data().hash);
    if idx < n && text_is(tokens[idx], "moves") {
        idx = idx + 1;
    } else {
        idx = n;
    }
    assert(idx == first_move(ts));
    assert(history@ == seq![base.hash]);
    while idx < n
        invariant
            first_move(ts) <= idx <= n,
            n == tokens@.len(),
            ts == token_texts(tokens@),
            pos@.wf(),
            play_texts(base, ts, first_move(ts)) == play_texts(pos@, ts, idx as int),
            seq![base.hash] + hashes_of(base, ts, first_move(ts)) == history@ + hashes_of(
                pos@,
                ts,
                idx as int,
            ),
        decreases n - idx,
    {
        let ghost before = pos@;
        let ghost old_hist = history@;
        assert(tokens@[idx as int]@ == ts[idx as int]);
        if let Some(mv) = parse_uci_move(pos, tokens[idx]) {
            let moves = legal_moves(pos);
            if holds_move(&moves, mv) {
                let next = play(pos, mv);
                *pos = next;
                history.push(pos.data().hash);
                assert(step(before, ts[idx as int]) == Some(pos@));
                assert(old_hist + (seq![pos@.hash] + hashes_of(pos@, ts, idx + 1)) =~= history@
                    + hashes_of(pos@, ts, idx + 1));
            } else {
                assert(step(before, ts[idx as int]) is None);
            }
        } else {
            assert(step(before, ts[idx as int]) is None);
        }
        idx = idx + 1;
    }
    history
}

/// The settings of a `go` command.
#[derive(Clone, Copy, PartialEq, Eq, Structural, Debug)]
pub struct GoSettings {
    pub depth: i32,
    pub wtime: Option<u64>,
    pub btime: Option<u64>,
    pub winc: u64,
    pub binc: u64,
    pub movestogo: Option<u64>,
    pub movetime: Option<u64>,
    pub infinite: bool,
}

/// The settings before any token: depth 64 and nothing else given.
pub open spec fn default_go() -> GoSettings {
    GoSettings {
        depth: 64,
        wtime: None,
        btime: None,
        winc: 0,
        binc: 0,
        movestogo: None,
        movetime: None,
        infinite: false,
    }
}

/// A parsed value, or `default` when the text is not a number.
pub open spec fn u64_or(t: Seq<char>, default: u64) -> u64 {
    match spec_parse_u64(t) {
        Some(v) => v,
        None => default,
    }
}

/// The settings after the tokens of `ts` from `i` on. A keyword followed by
/// a token takes it as its value (with a default when it is no number:
/// depth 64, movetime unlimited, clocks 60000, increments 0, moves to go
/// 30); `infinite` stands alone; other tokens are skipped.
pub open spec fn scan_go(ts: Seq<Seq<char>>, i: int, g: GoSettings) -> GoSettings
    decreases ts.len() - i,
{
    if i >= ts.len() {
        g
    } else if i + 1 < ts.len() && ts[i] == "depth"@ {
        scan_go(
            ts,
            i + 2,
            GoSettings {
                depth: match spec_parse_i32(ts[i + 1]) {
                    Some(v) => v,
                    None => 64,
                },
                ..g
            },
        )
    } else if i + 1 < ts.len() && ts[i] == "movetime"@ {
        scan_go(ts, i + 2, GoSettings { movetime: Some(u64_or(ts[i + 1], u64::MAX)), ..g })
    } else if i + 1 < ts.len() && ts[i] == "wtime"@ {
        scan_go(ts, i + 2, GoSettings { wtime: Some(u64_or(ts[i + 1], 60000)), ..g })
    } else if i + 1 < ts.len() && ts[i] == "btime"@ {
        scan_go(ts, i + 2, GoSettings { btime: Some(u64_or(ts[i + 1], 60000)), ..g })
    } else if i + 1 < ts.len() && ts[i] == "winc"@ {
        scan_go(ts, i + 2, GoSettings { winc: u64_or(ts[i + 1], 0), ..g })
    } else if i + 1 < ts.len() && ts[i] == "binc"@ {
        scan_go(ts, i + 2, GoSettings { binc: u64_or(ts[i + 1], 0), ..g })
    } else if i + 1 < ts.len() && ts[i] == "movestogo"@ {
        scan_go(ts, i + 2, GoSettings { movestogo: Some(u64_or(ts[i + 1], 30)), ..g })
    } else if ts[i] == "infinite"@ {
        scan_go(ts, i + 1, GoSettings { infinite: true, ..g })
    } else {
        scan_go(ts, i + 1, g)
    }
}

/// `x`, or `u64::MAX` when it is larger.
pub open spec fn sat(x: int) -> int {
    if x > u64::MAX {
        u64::MAX as int
    } else {
        x
    }
}

/// The depth and time limit of a `go` command for the side to move: a
/// fixed move time, or no limit when infinite, or else the side's clock
/// divided by the moves to go (30 unless given) plus nine tenths of its
/// increment, three times that but at most three tenths of the clock, and
/// at least 50 ms. Sums and products stop at `u64::MAX`.
pub open spec fn go_limits(g: GoSettings, stm: Color) -> (i32, u64) {
    match g.movetime {
        Some(mt) => (g.depth, mt),
        None => if g.infinite {
            (g.depth, u64::MAX)
        } else {
            let our_time: int = if stm == Color::White {
                match g.wtime {
                    Some(t) => t as int,
                    None => 60000,
                }
            } else {
                match g.btime {
                    Some(t) => t as int,
                    None => 60000,
                }
            };
            let our_inc: int = if stm == Color::White {
                g.winc as int
            } else {
                g.binc as int
            };
            let moves_left: int = match g.movestogo {
                Some(m) => m as int,
                None => 30,
            };
            let base = sat(our_time / (if moves_left >= 1 { moves_left } else { 1 }) + sat(our_inc * 9) / 10);
            let capped = if sat(base * 3) <= sat(our_time * 3) / 10 {
                sat(base * 3)
            } else {
                sat(our_time * 3) / 10
            };
            (g.depth, (if capped >= 50 { capped } else { 50 }) as u64)
        },
    }
}

/// The settings with the two sides' clocks and increments exchanged.
pub open spec fn swap_clocks(g: GoSettings) -> GoSettings {
    GoSettings { wtime: g.btime, btime: g.wtime, winc: g.binc, binc: g.winc, ..g }
}

/// The limits treat the two sides alike: white's limit is black's once
/// the clocks and increments are exchanged.
pub proof fn law_go_limits_colour_symmetric(g: GoSettings)
    ensures
        go_limits(g, Color::White) == go_limits(swap_clocks(g), Color::Black),
        go_limits(g, Color::Black) == go_limits(swap_clocks(g), Color::White),
{
}

/// The limits depend only on the clock and increment of the side to move:
/// two settings that agree on them (and on depth, move time, moves to go
/// and `infinite`) give the same limits, whatever the other side's clock
/// and increment.
pub proof fn law_go_limits_own_clock(g1: GoSettings, g2: GoSettings, stm: Color)
    requires
        g1.depth == g2.depth,
        g1.movetime == g2.movetime,
        g1.movestogo == g2.movestogo,
        g1.infinite == g2.infinite,
        stm == Color::White ==> g1.wtime == g2.wtime && g1.winc == g2.winc,
        stm == Color::Black ==> g1.btime == g2.btime && g1.binc == g2.binc,
    ensures
        go_limits(g1, stm) == go_limits(g2, stm),
{
}

/// A larger increment for the side to move never shortens its time limit.
pub proof fn law_go_limits_increment_monotone(g: GoSettings, stm: Color, inc: u64)
    requires
        stm == Color::White ==> g.winc <= inc,
        stm == Color::Black ==> g.binc <= inc,
    ensures
        go_limits(g, stm).1 <= go_limits(
            if stm == Color::White {
                GoSettings { winc: inc, ..g }
            } else {
                GoSettings { binc: inc, ..g }
            },
            stm,
        ).1,
{
    let g2 = if stm == Color::White {
        GoSettings { winc: inc, ..g }
    } else {
        GoSettings { binc: inc, ..g }
    };
    let i1: int = if stm == Color::White {
        g.winc as int
    } else {
        g.binc as int
    };
    let i2: int = inc as int;
    assert(sat(i1 * 9) <= sat(i2 * 9));
    assert(sat(i1 * 9) / 10 <= sat(i2 * 9) / 10) by (nonlinear_arith)
        requires
            sat(i1 * 9) <= sat(i2 * 9),
            0 <= sat(i1 * 9),
    ;
    let t: int = if stm == Color::White {
        match g.wtime {
            Some(t) => t as int,
            None => 60000,
        }
    } else {
        match g.btime {
            Some(t) => t as int,
            None => 60000,
        }
    };
    let ml: int = match g.movestogo {
        Some(m) => m as int,
        None => 30,
    };
    let q = t / (if ml >= 1 {
        ml
    } else {
        1
    });
    let b1 = sat(q + sat(i1 * 9) / 10);
    let b2 = sat(q + sat(i2 * 9) / 10);
    assert(b1 <= b2);
    assert(sat(b1 * 3) <= sat(b2 * 3));
}

/// The value of a token, or `default` when it is no number.
fn u64_token_or(t: &str, default: u64) -> (r: u64)
    ensures
        r == u64_or(t@, default),
{
    match parse_u64(t) {
        Some(v) => v,
        None => default,
    }
}

/// The `go` command: the search depth and the time limit in milliseconds
/// for the side to move in `pos`, from [`scan_go`] and [`go_limits`].
pub fn parse_go(tokens: &[&str], pos: &Position) -> (r: (i32, u64))
    ensures
        r == go_limits(scan_go(token_texts(tokens@), 1, default_go()), pos@.side_to_move),
{
    let ghost ts = token_texts(tokens@);
    let n = tokens.len();
    let mut g = GoSettings {
        depth: 64,
        wtime: None,
        btime: None,
        winc: 0,
        binc: 0,
        movestogo: None,
        movetime: None,
        infinite: false,
    };
    let mut i: usize = 1;
    while i < n
        invariant
            1 <= i,
            n == tokens@.len(),
            ts == token_texts(tokens@),
            scan_go(ts, 1, default_go()) == scan_go(ts, i as int, g),
        decreases n - i,
    {
        let t = tokens[i];
        assert(t@ == ts[i as int]);
        let has_value = i + 1 < n;
        if has_value {
            assert(tokens@[i + 1]@ == ts[i + 1]);
        }
        if has_value && text_is(t, "depth") {
            g.depth = match parse_i32(tokens[i + 1]) {
                Some(v) => v,
                None => 64,
            };
            i = i + 1;
        } else if has_value && text_is(t, "movetime") {
            g.movetime = Some(u64_token_or(tokens[i + 1], u64::MAX));
            i = i + 1;
        } else if has_value && text_is(t, "wtime") {
            g.wtime = Some(u64_token_or(tokens[i + 1], 60000));
            i = i + 1;
        } else if has_value && text_is(t, "btime") {
            g.btime = Some(u64_token_or(tokens[i + 1], 60000));
            i = i + 1;
        } else if has_value && text_is(t, "winc") {
            g.winc = u64_token_or(tokens[i + 1], 0);
            i = i + 1;
        } else if has_value && text_is(t, "binc") {
            g.binc = u64_token_or(tokens[i + 1], 0);
            i = i + 1;
        } else if has_value && text_is(t, "movestogo") {
            g.movestogo = Some(u64_token_or(tokens[i + 1], 30));
            i = i + 1;
        } else if text_is(t, "infinite") {
            g.infinite = true;
        }
        i = i + 1;
    }
    if let Some(mt) = g.movetime {
        return (g.depth, mt);
    }
    if g.infinite {
        return (g.depth, u64::MAX);
    }
    let white = pos.data().side_to_move == Color::White;
    let our_time = if white {
        match g.wtime {
            Some(t) => t,
            None => 60000,
        }
    } else {
        match g.btime {
            Some(t) => t,
            None => 60000,
        }
    };
    let our_inc = if white {
        g.winc
    } else {
        g.binc
    };
    let moves_left = match g.movestogo {
        Some(m) => m,
        None => 30,
    };
    let per_move = our_time / (if moves_left >= 1 {
        moves_left
    } else {
        1
    });
    let inc_part = saturating_mul(our_inc, 9) / 10;
    let base = if per_move > u64::MAX - inc_part {
        u64::MAX
    } else {
        per_move + inc_part
    };
    let a = saturating_mul(base, 3);
    let b = saturating_mul(our_time, 3) / 10;
    let capped = if a <= b {
        a
    } else {
        b
    };
    (g.depth, if capped >= 50 {
        capped
    } else {
        50
    })
}

/// `x * k`, or `u64::MAX` when it is larger.
fn saturating_mul(x: u64, k: u64) -> (r: u64)
    requires
        1 <= k <= 9,
    ensures
        r == sat(x * k),
{
    if x > u64::MAX / k {
        assert(x * k > u64::MAX) by (nonlinear_arith)
            requires
                x > u64::MAX / k,
                k >= 1,
        ;
        u64::MAX
    } else {
        assert(x * k <= u64::MAX) by (nonlinear_arith)
            requires
                x <= u64::MAX / k,
                k >= 1,
        ;
        x * k
    }
}

/// The commands of the UCI protocol that the engine answers.
#[derive(Clone, Copy, PartialEq, Eq, Structural, Debug)]
pub enum Command {
    Uci,
    IsReady,
    UciNewGame,
    Position,
    Go,
    Quit,
    Other,
}

/// The command named by the first token of a line.
pub fn command_of(t: &str) -> (r: Command)
    ensures
        r == (if t@ == "uci"@ {
            Command::Uci
        } else if t@ == "isready"@ {
            Command::IsReady
        } else if t@ == "ucinewgame"@ {
            Command::UciNewGame
        } else if t@ == "position"@ {
            Command::Position
        } else if t@ == "go"@ {
            Command::Go
        } else if t@ == "quit"@ {
            Command::Quit
        } else {
            Command::Other
        }),
{
    if text_is(t, "uci") {
        Command::Uci
    } else if text_is(t, "isready") {
        Command::IsReady
    } else if text_is(t, "ucinewgame") {
        Command::UciNewGame
    } else if text_is(t, "position") {
        Command::Position
    } else if text_is(t, "go") {
        Command::Go
    } else if text_is(t, "quit") {
        Command::Quit
    } else {
        Command::Other
    }
}

/// The move to answer `go` with: the search's best move, else the first
/// legal move, else none.
pub fn choose_move(pos: &Position, best: Option<Move>) -> (r: Option<Move>)
    ensures
        r == (match best {
            Some(m) => Some(m),
            None => if legal_moves_of(pos@).len() > 0 {
                Some(legal_moves_of(pos@)[0])
            } else {
                None
            },
        }),
        best is None ==> (r matches Some(m) ==> legal_moves_of(pos@).contains(m)),
{
    match best {
        Some(m) => Some(m),
        None => {
            let moves = legal_moves(pos);
            if moves.len() > 0 {
                Some(moves[0])
            } else {
                None
            }
        },
    }
}

/// The last hash of the history a `position` command returns is the hash of
/// the position it leaves: the set-up position when no move is played, else
/// the position after the last move played.
pub proof fn lemma_history_ends_at_position(base: PosData, ts: Seq<Seq<char>>, i: int)
    ensures
        (seq![base.hash] + hashes_of(base, ts, i)).last() == play_texts(base, ts, i).hash,
    decreases ts.len() - i,
{
    if i < ts.len() {
        match step(base, ts[i]) {
            Some(q) => {
                lemma_history_ends_at_position(q, ts, i + 1);
                assert((seq![base.hash] + hashes_of(base, ts, i)).last() == (seq![q.hash]
                    + hashes_of(q, ts, i + 1)).last());
            },
            None => {
                lemma_history_ends_at_position(base, ts, i + 1);
            },
        }
    }
}

} // verus!
