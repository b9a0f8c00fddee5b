//! A chess move generator on bitboards, verified with Verus.
//!
//! The attack tables are built once and looked up by square; those of the rook and the bishop
//! are indexed by a multiplicative hash of the blockers. A position is a set of bitboards with
//! its flags; it is read from and written as text in Forsyth-Edwards notation, its moves are
//! generated as a list, and a move is applied to it and taken back. Counting the leaves of
//! the tree of legal moves tests the whole.
//!
//! Every function carries a contract over the mathematical content of its arguments: words
//! of 64 bits for sets of squares, sequences of moves and of characters, and `Position` for a
//! board. The modules whose names end in `_laws`, and `material`, `legality` and `discovery`,
//! hold theorems about several functions at once: that a text written is read back, that no
//! move occurs twice in a list of moves, that a legal move is a pseudo-legal one that leaves
//! the mover's king unattacked, and that it keeps a valid position valid.

pub mod apply;
pub mod bitboard;
pub mod board;
pub mod castling;
pub mod check_info;
pub mod discovery;
pub mod distinct_laws;
pub mod fen;
pub mod fen_laws;
pub mod geometry;
pub mod legal_laws;
pub mod legality;
pub mod lookup_tables;
pub mod magic;
pub mod magics;
pub mod material;
pub mod move_laws;
pub mod movegen;
pub mod notation;
pub mod parse;
pub mod perft;
pub mod pseudo_laws;
pub mod rules;
pub mod start;
pub mod text;
pub mod types;
pub mod validate;
