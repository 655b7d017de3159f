//! A chess engine whose evaluation constants are derived from the rules of
//! chess and board geometry, with its evaluation, transposition table and
//! search decisions stated and proved in Verus.
pub mod types;
pub mod bits;
pub mod chess;
pub mod tt;
pub mod pst;
pub mod geom;
pub mod endgame;
pub mod pawns;
pub mod eval;
pub mod see;
pub mod lmr;
pub mod search;
pub mod uci;
