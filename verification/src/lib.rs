//! A verified chess engine: board state with exact move semantics, legal
//! move enumeration, move application with win and draw detection, a
//! material evaluation that is provably antisymmetric between the sides,
//! and a depth-limited exhaustive negamax search whose result is proved to
//! be the best enumerated candidate. A position string codec comes with a
//! proved decode-of-encode round trip.
//!
//! Everything that touches the outside world — windows, input, the
//! network connection to a remote opponent — lives in the surrounding
//! application, which drives the `game` module with plain values.
pub mod pieces;
pub mod board;
pub mod search;
pub mod fen;
pub mod game;
