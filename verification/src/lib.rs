//! State and move-legality engine for a chess variant on an unbounded
//! rank/file grid.
//!
//! The board stores pieces in an append-only arena with stable identities,
//! materializes default pawns lazily on first touch of a start-rank square,
//! and applies moves (including castling and en passant by positional
//! pattern) without checking legality itself; legality is a separate query
//! that delegates piece-shape questions to a pluggable [`rules::PieceRules`]
//! capability. Coordinates are arbitrary-precision integers.

pub mod bigint;
pub mod board;
pub mod laws;
pub mod moves;
pub mod pawn_rank;
pub mod piece;
pub mod rules;
