//! A verified Game of Life on a fixed-size toroidal grid: the grid data
//! model and deterministic step transition, bounded cycle-detection history,
//! seed generation, a compact textual grid encoding, and the checking of
//! submitted simulation traces against a recomputed run.
pub mod game;
pub mod history;
pub mod render;
pub mod seeds;
pub mod validate;
