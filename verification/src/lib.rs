//! A stochastic lattice gas on a periodic square lattice.
//!
//! Every occupied cell of the lattice carries one particle together with the
//! direction in which that particle walks. A step of the simulation moves every
//! particle one cell along its direction unless the cell ahead is taken, and
//! then lets each particle pick a new direction with a fixed probability. The
//! pair-correlation statistic measures how often the cells at a given lattice
//! distance from a particle hold a particle too.
pub mod chance;
pub mod direction;
pub mod grid;
pub mod movement;
pub mod shell;
pub mod statistic;
pub mod system;

pub use chance::Probability;
pub use direction::VertexState;
pub use shell::{indexes_in_distance, UnsupportedDistance};
pub use statistic::Ratio;
pub use system::{ConfigError, System};
