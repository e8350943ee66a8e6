pub mod board;
pub mod evaluator;
pub mod bot;
pub mod rng;
pub mod sim;
pub mod ga;
