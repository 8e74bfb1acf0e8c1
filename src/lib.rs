
pub mod chunk;
pub mod config;
pub mod constant;
pub mod generation;
pub mod interaction;
pub mod output;
pub mod prompt;
pub mod text;
