pub mod engine;
pub mod game_def;
pub mod types;
