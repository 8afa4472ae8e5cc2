//! Fault tolerance for workbench start: attribution of failures to plugins or
//! the kernel, the ladder of start attempts, and diagnosis of a running page.

pub mod attribution;
pub mod incident;
pub mod ladder;
pub mod runtime;
