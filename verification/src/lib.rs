//! A small Wumpus World: an N-by-N grid of cells that carry hazard and
//! percept markers, an environment that owns the grid together with the
//! agent's pose and a single-use arrow, and an agent that accumulates
//! percepts into a knowledge base and picks its next move from the cells
//! it believes safe.

pub mod attr;
pub mod world;
pub mod agent;
