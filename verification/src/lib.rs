pub mod chain;
pub mod laws;
pub mod model;
pub mod parse;
pub mod random;

pub use model::Dice;
pub use model::Error;
