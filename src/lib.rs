//! Integer skeleton of a parallel Mandelbrot grid evaluator: how the sample
//! grid is split into strips for workers, in which order each strip visits
//! its points, and how per-worker results are merged back into one sequence.

pub mod grid;
pub mod host;
pub mod slots;
