//! What the commands of the panel decide.

pub mod harness;
pub mod logs;
pub mod shell;
