//! The game engine: state machine, strategy, exhaustive search, results.

pub mod play;
pub mod results;
pub mod state;
pub mod strategy;

pub use play::play;
pub use results::PlayerResults;
pub use results::Results;
pub use state::State;
pub use strategy::Strategy;
