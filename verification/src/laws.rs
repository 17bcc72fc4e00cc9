//! What holds of the library as a whole.

pub mod command;
pub mod duration;
pub mod escape;
pub mod jest;
pub mod jest_lines;
pub mod lines;
pub mod noise;
pub mod numbers;
pub mod report;
pub mod text;
pub mod vitest;
pub mod vitest_lines;
pub mod yarn;
