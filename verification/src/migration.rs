//! Moving the plugins and skills of the old layout into the new one, and
//! taking a move back.

pub mod history;
pub mod manifest;
pub mod run;
pub mod sources;
pub mod steps;
