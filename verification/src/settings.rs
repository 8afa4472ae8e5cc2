//! The shell's settings.

use crate::text;
use vstd::prelude::*;

verus! {

/// The settings that the user keeps.
#[derive(Debug)]
pub struct Settings {
    pub node_path: Option<String>,
    pub pnpm_path: Option<String>,
    pub npm_path: Option<String>,
    /// The port of the kernel's web server.
    pub port: u16,
    /// The profile that plugins are wired into.
    pub profile: String,
}

/// The content of the settings.
#[verifier::ext_equal]
pub struct SettingsModel {
    pub node_path: Option<Seq<char>>,
    pub pnpm_path: Option<Seq<char>>,
    pub npm_path: Option<Seq<char>>,
    pub port: u16,
    pub profile: Seq<char>,
}

impl View for Settings {
    type V = SettingsModel;

    open spec fn view(&self) -> SettingsModel {
        SettingsModel {
            node_path: text::opt_text(self.node_path),
            pnpm_path: text::opt_text(self.pnpm_path),
            npm_path: text::opt_text(self.npm_path),
            port: self.port,
            profile: self.profile@,
        }
    }
}

impl Clone for Settings {
    fn clone(&self) -> (r: Self)
        ensures
            r@ == self@,
    {
        Settings {
            node_path: text::copy_opt(&self.node_path),
            pnpm_path: text::copy_opt(&self.pnpm_path),
            npm_path: text::copy_opt(&self.npm_path),
            port: self.port,
            profile: self.profile.clone(),
        }
    }
}

} // verus!
