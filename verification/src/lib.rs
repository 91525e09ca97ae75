//! Chessboard geometry and candidate moves.
//!
//! A [`board::Board`] holds sixty-four [`square::Square`]s. Given the board
//! and a square, a [`piece::Piece`] lists the squares it may go to by the
//! way its kind moves: squares of the board, none of them held by its own
//! side. Whether a move leaves the own king in check, castling itself and
//! capturing in passing are left to the caller.
//!
//! The sliding pieces (bishop, rook, queen) are not stopped by pieces that
//! stand in their way: they reach every square of their lines but those
//! that their own side holds.
//!
//! Contracts are stated over plain mathematics: a coordinate is a pair of
//! integers ([`geometry::Coordinate`]), the view of a board is the map from
//! coordinates to what stands there ([`board::Occupancy`]), and the squares
//! a piece may go to are a sequence of coordinates
//! ([`piece::Piece::targets`]).

pub mod board;
pub mod file;
pub mod geometry;
pub mod piece;
pub mod rank;
pub mod square;
