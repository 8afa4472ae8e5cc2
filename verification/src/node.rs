//! Finding the Node.js runtime and its tools.

pub mod locate;
pub mod versions;
