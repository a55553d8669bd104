//! A greedy knight's walk on the 8x8 chessboard.
//!
//! [`board`] holds the grid of visit numbers and [`tour`] the rule that picks
//! the next square, with the walk built on it; [`path`] states what holds of
//! every walk. [`notation`] names squares by letter and digit, and [`render`]
//! gives the text form of a board, with the help of [`text`].

pub mod board;
pub mod notation;
pub mod path;
pub mod render;
pub mod text;
pub mod tour;
