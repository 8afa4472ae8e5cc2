//! The decision core of the dsh desktop shell.

pub mod archive;
pub mod commands;
pub mod credentials;
pub mod env;
pub mod error;
pub mod guard;
pub mod instance;
pub mod json;
pub mod kernel;
pub mod kernel_adapter;
pub mod migration;
pub mod node;
pub mod paths;
pub mod plugins;
pub mod quarantine;
pub mod settings;
pub mod sort;
pub mod text;
pub mod textmap;
pub mod yaml;
