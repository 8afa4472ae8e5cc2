//! The life of the kernel: installed versions, installation, frontend source
//! maps, and the identity of the running process.

pub mod command_cache;
pub mod install;
pub mod process;
pub mod sources;
pub mod versions;
