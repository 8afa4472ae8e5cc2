//! Entries of the central plugin store.

use vstd::prelude::*;

verus! {

/// The profile that plugins are wired into unless another is chosen.
pub const DEFAULT_PROFILE: &'static str = "web";

/// One installed third-party plugin.
#[derive(Debug, Clone)]
pub struct StoreItem {
    /// The store id: the directory name of the materialised plugin.
    pub id: String,
    /// The package name.
    pub name: String,
    pub origin: String,
    pub source: String,
    pub installed_version: String,
    pub latest_version: Option<String>,
    pub mode: String,
    pub pinned: bool,
    pub installed_at: String,
    pub updated_at: String,
    pub repo_url: Option<String>,
    pub description: Option<String>,
}

/// What attribution reads of a store entry.
#[verifier::ext_equal]
pub struct PluginModel {
    pub id: Seq<char>,
    pub name: Seq<char>,
}

impl View for StoreItem {
    type V = PluginModel;

    open spec fn view(&self) -> PluginModel {
        PluginModel { id: self.id@, name: self.name@ }
    }
}

/// The views of a list of store entries.
pub open spec fn plugins_of(items: Seq<StoreItem>) -> Seq<PluginModel> {
    items.map_values(|i: StoreItem| i@)
}

} // verus!
