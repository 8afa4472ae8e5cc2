//! Records of plugins that were taken out of the wiring.

use vstd::prelude::*;

verus! {

/// One quarantined plugin.
#[derive(Debug, Clone)]
pub struct QuarantineItem {
    pub id: String,
    pub name: String,
    pub reason: String,
    pub evidence: String,
    /// Seconds since the epoch.
    pub at: u64,
}

/// The content of a quarantine record.
#[verifier::ext_equal]
pub struct QuarantineModel {
    pub id: Seq<char>,
    pub name: Seq<char>,
    pub reason: Seq<char>,
    pub evidence: Seq<char>,
    pub at: u64,
}

impl View for QuarantineItem {
    type V = QuarantineModel;

    open spec fn view(&self) -> QuarantineModel {
        QuarantineModel {
            id: self.id@,
            name: self.name@,
            reason: self.reason@,
            evidence: self.evidence@,
            at: self.at,
        }
    }
}

/// The views of a list of quarantine records.
pub open spec fn records_of(items: Seq<QuarantineItem>) -> Seq<QuarantineModel> {
    items.map_values(|i: QuarantineItem| i@)
}

} // verus!
