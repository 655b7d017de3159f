//! Positions and moves, with the move generator, the attack tables and the
//! notation of the `cozy_chess` crate behind trusted wrappers.
//!
//! A [`Position`] keeps the `cozy_chess` board it was made from together with
//! a plain copy of what the engine's logic reads ([`PosData`]); the two are
//! only ever built together, by the wrappers below.
use vstd::prelude::*;
use crate::bits::{bit, lowest, lowest_from, first_square, has, popcount};
use crate::types::{Color, Piece};
use cozy_chess::Color as Side;

verus! {

#[verifier::external_type_specification]
#[verifier::external_body]
pub struct ExBoard(cozy_chess::Board);

/// A move from one square to another with an optional promotion piece.
/// Castling is written as the king capturing its own rook.
#[derive(Clone, Copy, PartialEq, Eq, Structural, Debug)]
pub struct Move {
    pub from: u8,
    pub to: u8,
    pub promotion: Option<Piece>,
}

impl Move {
    pub open spec fn wf(self) -> bool {
        self.from < 64 && self.to < 64
    }

    /// A move from its squares and the index of its promotion piece.
    pub fn from_parts(from: u8, to: u8, promotion: Option<usize>) -> (r: Move)
        ensures
            r.from == from,
            r.to == to,
            r.promotion == (match promotion {
                Some(i) => Some(Piece::spec_from_index(i as int)),
                None => None,
            }),
    {
        let promotion = match promotion {
            Some(i) => Some(Piece::from_index(i)),
            None => None,
        };
        Move { from, to, promotion }
    }
}

/// The state of a game as the rules see it.
#[derive(Clone, Copy, PartialEq, Eq, Structural, Debug)]
pub enum GameStatus {
    Won,
    Drawn,
    Ongoing,
}

/// What the engine reads of a position, as plain values.
#[derive(Clone, Copy, Debug)]
pub struct PosData {
    /// Squares of each piece kind, indexed by [`Piece::index`].
    pub pieces: [u64; 6],
    /// Squares of each colour, indexed by [`Color::index`].
    pub colors: [u64; 2],
    pub side_to_move: Color,
    /// Rook files with castling rights: white short, white long, black
    /// short, black long.
    pub castling: [Option<u8>; 4],
    /// File of the en passant square, if any.
    pub en_passant: Option<u8>,
    pub halfmove_clock: u8,
    pub fullmove_number: u16,
    /// Zobrist hash of the position.
    pub hash: u64,
    /// Pieces giving check to the side to move.
    pub checkers: u64,
}

impl PosData {
    pub open spec fn piece_bb(self, p: Piece) -> u64 {
        self.pieces@[p.spec_index()]
    }

    pub open spec fn color_bb(self, c: Color) -> u64 {
        self.colors@[c.spec_index()]
    }

    pub open spec fn colored(self, c: Color, p: Piece) -> u64 {
        self.color_bb(c) & self.piece_bb(p)
    }

    pub open spec fn occ(self) -> u64 {
        self.colors@[0] | self.colors@[1]
    }

    /// The square of the king of colour `c`.
    pub open spec fn king_sq(self, c: Color) -> int {
        lowest(self.colored(c, Piece::King))
    }

    pub open spec fn piece_at(self, s: u8) -> Option<Piece> {
        if bit(self.pieces@[0], s) {
            Some(Piece::Pawn)
        } else if bit(self.pieces@[1], s) {
            Some(Piece::Knight)
        } else if bit(self.pieces@[2], s) {
            Some(Piece::Bishop)
        } else if bit(self.pieces@[3], s) {
            Some(Piece::Rook)
        } else if bit(self.pieces@[4], s) {
            Some(Piece::Queen)
        } else if bit(self.pieces@[5], s) {
            Some(Piece::King)
        } else {
            None
        }
    }

    pub open spec fn color_at(self, s: u8) -> Option<Color> {
        if bit(self.colors@[0], s) {
            Some(Color::White)
        } else if bit(self.colors@[1], s) {
            Some(Color::Black)
        } else {
            None
        }
    }

    /// Knights, bishops, rooks and queens of side `c`.
    pub open spec fn officers(self, c: Color) -> nat {
        popcount(self.colored(c, Piece::Knight)) + popcount(self.colored(c, Piece::Bishop)) + popcount(
            self.colored(c, Piece::Rook),
        ) + popcount(self.colored(c, Piece::Queen))
    }

    /// Each side has a king and at most 15 other pieces besides pawns (a
    /// board holds at most 16 pieces a side, kings included), no pawn
    /// stands on the first or last rank, the halfmove clock is at most 100,
    /// and the file numbers are files.
    pub open spec fn wf(self) -> bool {
        &&& self.colored(Color::White, Piece::King) != 0
        &&& self.colored(Color::Black, Piece::King) != 0
        &&& self.officers(Color::White) <= 15
        &&& self.officers(Color::Black) <= 15
        &&& self.pieces@[0] & 0xff00_0000_0000_00ffu64 == 0
        &&& self.halfmove_clock <= 100
        &&& (self.en_passant matches Some(f) ==> f < 8)
        &&& forall|i: int| 0 <= i < 4 ==> (#[trigger] self.castling@[i] matches Some(f) ==> f < 8)
    }

    pub fn pieces_of(&self, p: Piece) -> (r: u64)
        ensures
            r == self.piece_bb(p),
    {
        self.pieces[p.index()]
    }

    pub fn colors_of(&self, c: Color) -> (r: u64)
        ensures
            r == self.color_bb(c),
    {
        self.colors[c.index()]
    }

    /// Squares of the pieces of kind `p` and colour `c`.
    pub fn colored_pieces(&self, c: Color, p: Piece) -> (r: u64)
        ensures
            r == self.colored(c, p),
    {
        self.colors[c.index()] & self.pieces[p.index()]
    }

    pub fn occupied(&self) -> (r: u64)
        ensures
            r == self.occ(),
    {
        self.colors[0] | self.colors[1]
    }

    /// The square of the king of colour `c`.
    pub fn king(&self, c: Color) -> (r: u8)
        requires
            self.wf(),
        ensures
            r == self.king_sq(c),
            r < 64,
    {
        let r = first_square(self.colored_pieces(c, Piece::King));
        proof {
            if r == 64 {
                lemma_empty_when_no_lowest(self.colored(c, Piece::King));
            }
        }
        r
    }

    /// The kind of piece on square `s`, if any.
    pub fn piece_on(&self, s: u8) -> (r: Option<Piece>)
        requires
            s < 64,
        ensures
            r == self.piece_at(s),
    {
        if has(self.pieces[0], s) {
            Some(Piece::Pawn)
        } else if has(self.pieces[1], s) {
            Some(Piece::Knight)
        } else if has(self.pieces[2], s) {
            Some(Piece::Bishop)
        } else if has(self.pieces[3], s) {
            Some(Piece::Rook)
        } else if has(self.pieces[4], s) {
            Some(Piece::Queen)
        } else if has(self.pieces[5], s) {
            Some(Piece::King)
        } else {
            None
        }
    }

    /// The colour of the piece on square `s`, if any.
    pub fn color_on(&self, s: u8) -> (r: Option<Color>)
        requires
            s < 64,
        ensures
            r == self.color_at(s),
    {
        if has(self.colors[0], s) {
            Some(Color::White)
        } else if has(self.colors[1], s) {
            Some(Color::Black)
        } else {
            None
        }
    }
}

/// A set with no lowest member is empty.
pub proof fn lemma_empty_when_no_lowest(bb: u64)
    requires
        lowest(bb) == 64,
    ensures
        bb == 0,
{
    assert forall|i: int| 0 <= i < 64 implies !bit(bb, #[trigger] (i as u8)) by {
        lemma_no_member_from(bb, 0, i);
    }
    lemma_no_member_empty(bb);
}

proof fn lemma_no_member_from(bb: u64, i: int, j: int)
    requires
        0 <= i <= j < 64,
        lowest_from(bb, i) == 64,
    ensures
        !bit(bb, j as u8),
    decreases j - i,
{
    if i < j {
        lemma_no_member_from(bb, i + 1, j);
    }
}

/// A bitboard with no member square is zero.
pub proof fn lemma_no_member_empty(bb: u64)
    requires
        forall|i: int| 0 <= i < 64 ==> !bit(bb, #[trigger] (i as u8)),
    ensures
        bb == 0,
{
    lemma_low_bits_clear(bb, 64);
    assert(bb & (!(0xffff_ffff_ffff_ffffu64 << 64u64)) == 0 ==> bb == 0) by (bit_vector);
}

proof fn lemma_low_bits_clear(bb: u64, k: u64)
    requires
        k <= 64,
        forall|i: int| 0 <= i < 64 ==> !bit(bb, #[trigger] (i as u8)),
    ensures
        bb & (!(0xffff_ffff_ffff_ffffu64 << k)) == 0,
    decreases k,
{
    if k == 0 {
        assert(bb & (!(0xffff_ffff_ffff_ffffu64 << 0u64)) == 0) by (bit_vector);
    } else {
        let j = (k - 1) as u64;
        lemma_low_bits_clear(bb, j);
        assert(!bit(bb, j as u8));
        assert(bb & (!(0xffff_ffff_ffff_ffffu64 << j)) == 0 && (bb >> j) & 1 != 1 ==> bb & (!(
        0xffff_ffff_ffff_ffffu64 << ((j + 1) as u64))) == 0) by (bit_vector)
            requires
                j < 64,
        ;
    }
}

/// A chess position: a `cozy_chess` board together with the plain values
/// that the engine reads of it.
pub struct Position {
    board: cozy_chess::Board,
    data: PosData,
}

impl View for Position {
    type V = PosData;

    closed spec fn view(&self) -> PosData {
        self.data
    }
}

impl Default for Position {
    /// The standard starting position.
    fn default() -> (r: Position)
        ensures
            start_fields(r@),
            r@.wf(),
    {
        startpos()
    }
}

impl core::str::FromStr for Position {
    type Err = ();

    /// The position of a FEN text, when `cozy_chess` reads it as a valid
    /// position.
    fn from_str(fen: &str) -> (r: Result<Position, ()>)
        ensures
            r matches Ok(p) ==> fen_position(fen@) == Some(p@) && p@.wf(),
            r is Err ==> fen_position(fen@) is None,
    {
        match parse_fen(fen) {
            Some(p) => Ok(p),
            None => Err(()),
        }
    }
}

impl Position {
    /// The plain values of this position.
    pub fn data(&self) -> (r: &PosData)
        ensures
            *r == self@,
    {
        &self.data
    }
}

/// Wraps a `cozy_chess` board with its plain values (bitboards, side to
/// move, castling rook files, en passant file, clocks, hash and checkers),
/// read with the board's getters one field for one field.
#[verifier::external_body]
fn position_of(b: cozy_chess::Board) -> (r: Position)
    ensures
        r.board == b,
{
    let (w, k) = (b.castle_rights(Side::White), b.castle_rights(Side::Black));
    Position {
        data: PosData {
            pieces: cozy_chess::Piece::ALL.map(|p| b.pieces(p).0),
            colors: Side::ALL.map(|c| b.colors(c).0),
            side_to_move: match b.side_to_move() { Side::White => Color::White, Side::Black => Color::Black },
            castling: [w.short, w.long, k.short, k.long].map(|o| o.map(|f| f as u8)),
            en_passant: b.en_passant().map(|f| f as u8),
            halfmove_clock: b.halfmove_clock(),
            fullmove_number: b.fullmove_number(),
            hash: b.hash(),
            checkers: b.checkers().0,
        },
        board: b,
    }
}

/// The position that `cozy_chess` reads from a FEN string, if it accepts it.
pub uninterp spec fn fen_position(fen: Seq<char>) -> Option<PosData>;

/// Parses a FEN string with `cozy_chess::Board`'s `FromStr`. The result is
/// the position named [`fen_position`]; `cozy_chess` only builds boards that
/// pass its validity check, which asks for exactly one king per side, at
/// most 16 pieces per side on disjoint piece sets, no pawn on the first or
/// last rank and a halfmove clock of at most 100.
#[verifier::external_body]
pub(crate) fn parse_fen(fen: &str) -> (r: Option<Position>)
    ensures
        r matches Some(p) ==> fen_position(fen@) == Some(p@) && p@.wf(),
        r is None ==> fen_position(fen@) is None,
{
    fen.parse::<cozy_chess::Board>().ok().map(|b| position_of(b))
}

/// Every field of the standard starting position but its hash.
pub open spec fn start_fields(d: PosData) -> bool {
    &&& d.pieces@ == seq![
        0x00ff_0000_0000_ff00u64,
        0x4200_0000_0000_0042u64,
        0x2400_0000_0000_0024u64,
        0x8100_0000_0000_0081u64,
        0x0800_0000_0000_0008u64,
        0x1000_0000_0000_0010u64,
    ]
    &&& d.colors@ == seq![0x0000_0000_0000_ffffu64, 0xffff_0000_0000_0000u64]
    &&& d.side_to_move == Color::White
    &&& d.castling@ == seq![Some(7u8), Some(0u8), Some(7u8), Some(0u8)]
    &&& d.en_passant is None
    &&& d.halfmove_clock == 0
    &&& d.fullmove_number == 1
    &&& d.checkers == 0
}

/// The standard starting position, as `cozy_chess::Board::default` builds it.
/// Every field but the hash is stated.
#[verifier::external_body]
pub(crate) fn startpos() -> (r: Position)
    ensures
        start_fields(r@),
        r@.wf(),
{
    position_of(cozy_chess::Board::default())
}

/// The legal moves of a position, in the order of `cozy_chess`'s generator.
pub uninterp spec fn legal_moves_of(pos: PosData) -> Seq<Move>;

/// All legal moves of `pos`, from `cozy_chess::Board::generate_moves`: the
/// generator hands out each moving piece's targets once (a pinned piece
/// and an unpinned one are different pieces, en passant and castling land
/// on squares the piece's other targets exclude), so no move is listed
/// twice.
#[verifier::external_body]
pub(crate) fn legal_moves(pos: &Position) -> (r: Vec<Move>)
    ensures
        r@ == legal_moves_of(pos@),
        forall|i: int| 0 <= i < r@.len() ==> (#[trigger] r@[i]).wf(),
        r@.no_duplicates(),
{
    let mut v = Vec::new();
    pos.board.generate_moves(|ms| {
        v.extend(ms.into_iter().map(|m| Move::from_parts(m.from as u8, m.to as u8, m.promotion.map(|p| p as usize))));
        false
    });
    v
}

/// The position after a legal move.
pub uninterp spec fn after_move(pos: PosData, mv: Move) -> PosData;

/// Plays a legal move with `cozy_chess::Board::play_unchecked`, which may
/// panic on other moves. Legal moves keep boards valid: both kings remain,
/// no side gains pieces (a promotion turns a pawn into one), pawns promote
/// on reaching the last rank, and the halfmove clock is capped at 100.
#[verifier::external_body]
pub(crate) fn play(pos: &Position, mv: Move) -> (r: Position)
    requires
        legal_moves_of(pos@).contains(mv),
    ensures
        r@ == after_move(pos@, mv),
        r@.wf(),
{
    let mut b = pos.board.clone();
    b.play_unchecked(cozy_chess::Move {
        from: cozy_chess::Square::index(mv.from as usize),
        to: cozy_chess::Square::index(mv.to as usize),
        promotion: mv.promotion.map(|p| cozy_chess::Piece::index(p.index())),
    });
    position_of(b)
}

/// The position after passing the move.
pub uninterp spec fn after_null_move(pos: PosData) -> PosData;

/// `cozy_chess::Board::null_move`: passing is possible exactly when the side
/// to move is not in check; the pieces stay as they are.
#[verifier::external_body]
pub(crate) fn null_move(pos: &Position) -> (r: Option<Position>)
    ensures
        r is Some <==> pos@.checkers == 0,
        r matches Some(q) ==> q@ == after_null_move(pos@) && q@.wf(),
{
    pos.board.null_move().map(|b| position_of(b))
}

/// `cozy_chess::Board::status`: won (for the side that just moved) when the
/// side to move has no legal move and is in check, drawn by stalemate or by
/// the fifty-move rule, ongoing otherwise.
#[verifier::external_body]
pub(crate) fn status(pos: &Position) -> (r: GameStatus)
    ensures
        legal_moves_of(pos@).len() > 0 && pos@.halfmove_clock < 100 ==> r == GameStatus::Ongoing,
        legal_moves_of(pos@).len() > 0 && pos@.halfmove_clock >= 100 ==> r == GameStatus::Drawn,
        legal_moves_of(pos@).len() == 0 && pos@.checkers == 0 ==> r == GameStatus::Drawn,
        legal_moves_of(pos@).len() == 0 && pos@.checkers != 0 ==> r == GameStatus::Won,
{
    match pos.board.status() {
        cozy_chess::GameStatus::Won => GameStatus::Won,
        cozy_chess::GameStatus::Drawn => GameStatus::Drawn,
        cozy_chess::GameStatus::Ongoing => GameStatus::Ongoing,
    }
}

/// Files between the squares `s` and `t`.
pub open spec fn file_gap(s: int, t: int) -> int {
    if t % 8 >= s % 8 {
        t % 8 - s % 8
    } else {
        s % 8 - t % 8
    }
}

/// Ranks between the squares `s` and `t`.
pub open spec fn rank_gap(s: int, t: int) -> int {
    if t / 8 >= s / 8 {
        t / 8 - s / 8
    } else {
        s / 8 - t / 8
    }
}

/// `bb` holds exactly the squares a knight on `s` jumps to: two files and
/// one rank away, or one file and two ranks.
#[verifier::opaque]
pub open spec fn knight_set(bb: u64, s: int) -> bool {
    forall|t: u8|
        t < 64 ==> (#[trigger] bit(bb, t) <==> ((file_gap(s, t as int) == 1 && rank_gap(s, t as int) == 2)
            || (file_gap(s, t as int) == 2 && rank_gap(s, t as int) == 1)))
}

/// `bb` holds exactly the squares next to `s`, diagonals included.
#[verifier::opaque]
pub open spec fn king_set(bb: u64, s: int) -> bool {
    forall|t: u8|
        t < 64 ==> (#[trigger] bit(bb, t) <==> (file_gap(s, t as int) <= 1 && rank_gap(s, t as int) <= 1
            && t != s))
}

/// `bb` holds exactly the squares a pawn of colour `c` on `s` captures on:
/// one file aside and one rank forward (up the board for white).
#[verifier::opaque]
pub open spec fn pawn_set(bb: u64, s: int, c: Color) -> bool {
    forall|t: u8|
        t < 64 ==> (#[trigger] bit(bb, t) <==> (file_gap(s, t as int) == 1 && t / 8 == s / 8 + (if c
            == Color::White {
            1int
        } else {
            -1int
        })))
}

/// Direction of `b` from `a`: -1, 0 or 1.
pub open spec fn step_sign(a: int, b: int) -> int {
    if b > a {
        1
    } else if b < a {
        -1
    } else {
        0
    }
}

/// The square `k` steps from `s` toward `t` along their line.
pub open spec fn line_square(s: int, t: int, k: int) -> int {
    (s / 8 + k * step_sign(s / 8, t / 8)) * 8 + (s % 8 + k * step_sign(s % 8, t % 8))
}

/// No square of `occ` stands strictly between `s` and `t` on their line.
pub open spec fn clear_between(s: int, t: int, occ: u64) -> bool {
    forall|k: int|
        0 < k < (if file_gap(s, t) > rank_gap(s, t) {
            file_gap(s, t)
        } else {
            rank_gap(s, t)
        }) ==> !bit(occ, #[trigger] line_square(s, t, k) as u8)
}

/// `bb` holds exactly the squares a bishop on `s` reaches with `occ`
/// occupied: along a diagonal up to and including the first occupied square.
#[verifier::opaque]
pub open spec fn bishop_set(bb: u64, s: int, occ: u64) -> bool {
    forall|t: u8|
        t < 64 ==> (#[trigger] bit(bb, t) <==> (file_gap(s, t as int) == rank_gap(s, t as int)
            && file_gap(s, t as int) > 0 && clear_between(s, t as int, occ)))
}

/// `bb` holds exactly the squares a rook on `s` reaches with `occ` occupied:
/// along a rank or file up to and including the first occupied square.
#[verifier::opaque]
pub open spec fn rook_set(bb: u64, s: int, occ: u64) -> bool {
    forall|t: u8|
        t < 64 ==> (#[trigger] bit(bb, t) <==> ((file_gap(s, t as int) == 0) != (rank_gap(s, t as int)
            == 0) && clear_between(s, t as int, occ)))
}

/// Squares a knight on `sq` attacks.
pub uninterp spec fn knight_attacks(sq: u8) -> u64;

/// Squares a king on `sq` attacks.
pub uninterp spec fn king_attacks(sq: u8) -> u64;

/// Squares a pawn of colour `c` on `sq` attacks.
pub uninterp spec fn pawn_attacks(sq: u8, c: Color) -> u64;

/// Squares a bishop on `sq` attacks with `occ` occupied.
pub uninterp spec fn bishop_attacks(sq: u8, occ: u64) -> u64;

/// Squares a rook on `sq` attacks with `occ` occupied.
pub uninterp spec fn rook_attacks(sq: u8, occ: u64) -> u64;

/// `cozy_chess::get_knight_moves`: the squares a knight on `sq` jumps to.
#[verifier::external_body]
pub(crate) fn knight_moves(sq: u8) -> (r: u64)
    requires
        sq < 64,
    ensures
        r == knight_attacks(sq),
        knight_set(r, sq as int),
{
    cozy_chess::get_knight_moves(cozy_chess::Square::index(sq as usize)).0
}

/// `cozy_chess::get_king_moves`: the squares a king steps to, at most
/// eight.
#[verifier::external_body]
pub(crate) fn king_moves(sq: u8) -> (r: u64)
    requires
        sq < 64,
    ensures
        r == king_attacks(sq),
        popcount(r) <= 8,
        king_set(r, sq as int),
{
    cozy_chess::get_king_moves(cozy_chess::Square::index(sq as usize)).0
}

/// `cozy_chess::get_pawn_attacks`: the squares a pawn of colour `c` on
/// `sq` captures on.
#[verifier::external_body]
pub(crate) fn pawn_attack_moves(sq: u8, c: Color) -> (r: u64)
    requires
        sq < 64,
    ensures
        r == pawn_attacks(sq, c),
        pawn_set(r, sq as int, c),
{
    cozy_chess::get_pawn_attacks(
        cozy_chess::Square::index(sq as usize),
        cozy_chess::Color::index(c.index()),
    ).0
}

/// `cozy_chess::get_bishop_moves`: the squares a bishop on `sq` reaches
/// with `occ` occupied.
#[verifier::external_body]
pub(crate) fn bishop_moves(sq: u8, occ: u64) -> (r: u64)
    requires
        sq < 64,
    ensures
        r == bishop_attacks(sq, occ),
        bishop_set(r, sq as int, occ),
{
    cozy_chess::get_bishop_moves(cozy_chess::Square::index(sq as usize), cozy_chess::BitBoard(occ)).0
}

/// `cozy_chess::get_rook_moves`: the squares a rook on `sq` reaches with
/// `occ` occupied.
#[verifier::external_body]
pub(crate) fn rook_moves(sq: u8, occ: u64) -> (r: u64)
    requires
        sq < 64,
    ensures
        r == rook_attacks(sq, occ),
        rook_set(r, sq as int, occ),
{
    cozy_chess::get_rook_moves(cozy_chess::Square::index(sq as usize), cozy_chess::BitBoard(occ)).0
}

/// The character of a piece kind in move text.
pub open spec fn piece_char(p: Piece) -> char {
    match p {
        Piece::Pawn => 'p',
        Piece::Knight => 'n',
        Piece::Bishop => 'b',
        Piece::Rook => 'r',
        Piece::Queen => 'q',
        Piece::King => 'k',
    }
}

/// The two characters that name square `s`, such as `e4`.
pub open spec fn square_text(s: int) -> Seq<char> {
    seq![(('a' as int) + s % 8) as char, (('1' as int) + s / 8) as char]
}

/// Square `file` of the first rank of colour `c`.
pub open spec fn home_square(c: Color, file: int) -> int {
    match c {
        Color::White => file,
        Color::Black => 56 + file,
    }
}

/// Where a move lands in standard notation: a king that captures its own
/// castling rook lands on the g- or c-file instead.
pub open spec fn uci_target(pos: PosData, mv: Move) -> int {
    let c = pos.side_to_move;
    let short = if c == Color::White { pos.castling@[0] } else { pos.castling@[2] };
    let long = if c == Color::White { pos.castling@[1] } else { pos.castling@[3] };
    let king_moves = pos.king_sq(c) == mv.from;
    let t1 = if king_moves && (short matches Some(f) && home_square(c, f as int) == mv.to) {
        home_square(c, 6)
    } else {
        mv.to as int
    };
    if king_moves && (long matches Some(f) && home_square(c, f as int) == t1) {
        home_square(c, 2)
    } else {
        t1
    }
}

/// A move in standard UCI notation.
pub open spec fn uci_text(pos: PosData, mv: Move) -> Seq<char> {
    square_text(mv.from as int) + square_text(uci_target(pos, mv)) + match mv.promotion {
        Some(p) => seq![piece_char(p)],
        None => Seq::<char>::empty(),
    }
}

/// `cozy_chess::util::display_uci_move`, written out: castling moves, which
/// `cozy_chess` writes as king-takes-rook, are shown as the king's two-square
/// step (`e1h1` becomes `e1g1`).
#[verifier::external_body]
pub fn move_to_uci(mv: Move, pos: &Position) -> (r: String)
    requires
        mv.wf(),
    ensures
        r@ == uci_text(pos@, mv),
{
    let m = cozy_chess::Move {
        from: cozy_chess::Square::index(mv.from as usize),
        to: cozy_chess::Square::index(mv.to as usize),
        promotion: mv.promotion.map(|p| cozy_chess::Piece::index(p.index())),
    };
    cozy_chess::util::display_uci_move(&pos.board, m).to_string()
}

/// The move that `cozy_chess::util::parse_uci_move` reads from a text in
/// a position, if it reads one.
pub uninterp spec fn uci_move_of(pos: PosData, text: Seq<char>) -> Option<Move>;

/// `cozy_chess::util::parse_uci_move`: reads a move in UCI notation and turns
/// standard castling notation into king-takes-rook. The move need not be
/// legal.
#[verifier::external_body]
pub(crate) fn parse_uci_move(pos: &Position, text: &str) -> (r: Option<Move>)
    ensures
        r == uci_move_of(pos@, text@),
        r matches Some(m) ==> m.wf(),
{
    let m = cozy_chess::util::parse_uci_move(&pos.board, text).ok();
    m.map(|m| Move::from_parts(m.from as u8, m.to as u8, m.promotion.map(|p| p as usize)))
}

} // verus!
