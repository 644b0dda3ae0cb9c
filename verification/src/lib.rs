//! Conway's Game of Life on a bounded rectangular grid with dead-border
//! semantics: an immutable board snapshot, the Moore-neighborhood rule,
//! a work partitioner that splits the cell-index space into contiguous
//! per-worker intervals, and a generation engine that advances the board
//! one tick at a time.

pub mod life;
pub mod life_image;
