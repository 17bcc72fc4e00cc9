//! Compact reports of what `yarn test` prints.

pub mod ansi;
pub mod binary64;
pub mod command;
pub mod duration;
pub mod jest;
pub mod jest_report;
pub mod laws;
pub mod noise;
pub mod pattern;
pub mod runner;
pub mod test_result;
pub mod text;
pub mod vitest;
pub mod yarn;
