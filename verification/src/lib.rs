//! The core of a search-based move-selection engine for chess.
//!
//! [`game`] tracks one position with the repetition history that draw
//! detection needs, classifies positions as ongoing, won or drawn, and
//! encodes positions for a scoring function. [`mcts`] adapts that, plus
//! any scoring function, into the evaluator protocol of an external
//! tree-search driver, with the per-node statistics concurrent playouts
//! fold into. [`board`] is the trusted boundary to the external move
//! generator, and [`counts`] the verified repetition table.

pub mod board;
pub mod counts;
pub mod game;
pub mod mcts;
