//! What a guarded start or a diagnosis reports.

use crate::quarantine;
use crate::quarantine::{QuarantineItem, QuarantineModel};
use crate::text;
use vstd::prelude::*;

verus! {

/// The most suspects that one incident lists.
pub const MAX_SUSPECTS: usize = 8;

/// A plugin or kernel component that a piece of log evidence points at.
#[derive(Debug)]
pub struct Suspect {
    /// `plugin` or `kernel`.
    pub kind: String,
    /// The store id of a plugin, or the kernel version.
    pub id: String,
    /// The name that the panel shows.
    pub name: String,
    /// The log excerpt behind the attribution.
    pub evidence: String,
}

/// The content of a suspect.
#[verifier::ext_equal]
pub struct SuspectModel {
    pub kind: Seq<char>,
    pub id: Seq<char>,
    pub name: Seq<char>,
    pub evidence: Seq<char>,
}

impl View for Suspect {
    type V = SuspectModel;

    open spec fn view(&self) -> SuspectModel {
        SuspectModel {
            kind: self.kind@,
            id: self.id@,
            name: self.name@,
            evidence: self.evidence@,
        }
    }
}

impl Clone for Suspect {
    fn clone(&self) -> (r: Self)
        ensures
            r@ == self@,
    {
        Suspect {
            kind: self.kind.clone(),
            id: self.id.clone(),
            name: self.name.clone(),
            evidence: self.evidence.clone(),
        }
    }
}

/// The views of a list of suspects.
pub open spec fn suspects_of(v: Seq<Suspect>) -> Seq<SuspectModel> {
    v.map_values(|s: Suspect| s@)
}

/// The result of a guarded start or of a diagnosis, kept on disk so that it
/// outlives the shell.
#[derive(Debug)]
pub struct Incident {
    /// Whether a retry with some plugins off brought the workbench up.
    pub recovered: bool,
    /// Whether the workbench runs without some third-party plugins.
    pub safe_mode: bool,
    /// The summary that heads the panel.
    pub message: String,
    pub suspects: Vec<Suspect>,
    /// What was tried, in order.
    pub attempts: Vec<String>,
    /// The end of the kernel log at the time of attribution.
    pub log_tail: String,
    pub log_path: String,
    /// The next step for the user.
    pub hint: Option<String>,
    /// Seconds since the epoch.
    pub at: u64,
    /// `plugin`, `kernel`, `frontend`, `env` or `unknown`.
    pub cause: String,
    /// The page's own report, where the incident comes from a loaded page.
    pub health: Option<HealthReport>,
}

/// The content of an incident.
#[verifier::ext_equal]
pub struct IncidentModel {
    pub recovered: bool,
    pub safe_mode: bool,
    pub message: Seq<char>,
    pub suspects: Seq<SuspectModel>,
    pub attempts: Seq<Seq<char>>,
    pub log_tail: Seq<char>,
    pub log_path: Seq<char>,
    pub hint: Option<Seq<char>>,
    pub at: u64,
    pub cause: Seq<char>,
    pub health: Option<HealthModel>,
}

impl View for Incident {
    type V = IncidentModel;

    open spec fn view(&self) -> IncidentModel {
        IncidentModel {
            recovered: self.recovered,
            safe_mode: self.safe_mode,
            message: self.message@,
            suspects: suspects_of(self.suspects@),
            attempts: text::texts(self.attempts@),
            log_tail: self.log_tail@,
            log_path: self.log_path@,
            hint: text::opt_text(self.hint),
            at: self.at,
            cause: self.cause@,
            health: opt_health(self.health),
        }
    }
}

/// The health signal that the page's probe sends.
#[derive(Debug, PartialEq, Eq)]
pub struct HealthReport {
    pub kind: String,
    pub message: String,
    pub stack: String,
    pub page_url: String,
}

/// The content of a health report.
#[verifier::ext_equal]
pub struct HealthModel {
    pub kind: Seq<char>,
    pub message: Seq<char>,
    pub stack: Seq<char>,
    pub page_url: Seq<char>,
}

impl View for HealthReport {
    type V = HealthModel;

    open spec fn view(&self) -> HealthModel {
        HealthModel {
            kind: self.kind@,
            message: self.message@,
            stack: self.stack@,
            page_url: self.page_url@,
        }
    }
}

/// The view of an optional health report.
pub open spec fn opt_health(o: Option<HealthReport>) -> Option<HealthModel> {
    match o {
        Some(h) => Some(h@),
        None => None,
    }
}

impl Clone for HealthReport {
    fn clone(&self) -> (r: Self)
        ensures
            r@ == self@,
    {
        HealthReport {
            kind: self.kind.clone(),
            message: self.message.clone(),
            stack: self.stack.clone(),
            page_url: self.page_url.clone(),
        }
    }
}

impl Default for HealthReport {
    fn default() -> (r: Self)
        ensures
            r@.kind == Seq::<char>::empty(),
            r@.message == Seq::<char>::empty(),
            r@.stack == Seq::<char>::empty(),
            r@.page_url == Seq::<char>::empty(),
    {
        HealthReport {
            kind: String::new(),
            message: String::new(),
            stack: String::new(),
            page_url: String::new(),
        }
    }
}

/// Whether two reports say the same.
pub fn same_report(a: &HealthReport, b: &HealthReport) -> (r: bool)
    ensures
        r == (a@ == b@),
{
    text::same(a.kind.as_str(), b.kind.as_str()) && text::same(a.message.as_str(), b.message.as_str()) && text::same(
        a.stack.as_str(),
        b.stack.as_str(),
    ) && text::same(a.page_url.as_str(), b.page_url.as_str())
}

/// A copy of a list of suspects.
pub fn copy_suspects(v: &Vec<Suspect>) -> (r: Vec<Suspect>)
    ensures
        suspects_of(r@) == suspects_of(v@),
{
    let mut out: Vec<Suspect> = Vec::new();
    let mut i: usize = 0;
    while i < v.len()
        invariant
            i <= v.len(),
            out.len() == i,
            forall|k: int| 0 <= k < i ==> (#[trigger] out@[k])@ == v@[k]@,
        decreases v.len() - i,
    {
        out.push(v[i].clone());
        i = i + 1;
    }
    proof {
        assert(suspects_of(out@) =~= suspects_of(v@));
    }
    out
}

impl Clone for Incident {
    fn clone(&self) -> (r: Self)
        ensures
            r@ == self@,
    {
        let health = match &self.health {
            Some(h) => Some(h.clone()),
            None => None,
        };
        Incident {
            recovered: self.recovered,
            safe_mode: self.safe_mode,
            message: self.message.clone(),
            suspects: copy_suspects(&self.suspects),
            attempts: text::copy_all(&self.attempts),
            log_tail: self.log_tail.clone(),
            log_path: self.log_path.clone(),
            hint: text::copy_opt(&self.hint),
            at: self.at,
            cause: self.cause.clone(),
            health,
        }
    }
}

/// The result of the guarded start command.
#[derive(Debug, Clone)]
pub struct StartReport {
    pub port: u16,
    /// Whether the workbench serves when the command returns.
    pub running: bool,
    /// Whether some plugins are quarantined.
    pub safe_mode: bool,
    pub incident: Option<Incident>,
}

/// The quarantine records for the plugins among `suspects`, in order.
pub open spec fn records_for(
    suspects: Seq<SuspectModel>,
    reason: Seq<char>,
    at: u64,
) -> Seq<QuarantineModel>
    decreases suspects.len(),
{
    if suspects.len() == 0 {
        Seq::empty()
    } else {
        let before = records_for(suspects.drop_last(), reason, at);
        let s = suspects.last();
        if s.kind == "plugin"@ {
            before.push(
                QuarantineModel { id: s.id, name: s.name, reason, evidence: s.evidence, at },
            )
        } else {
            before
        }
    }
}

/// The quarantine records for the plugins among `suspects`. Kernel suspects
/// get none: a kernel cannot be quarantined.
pub fn suspect_records(suspects: &Vec<Suspect>, reason: &str, at: u64) -> (r: Vec<QuarantineItem>)
    ensures
        quarantine::records_of(r@) == records_for(suspects_of(suspects@), reason@, at),
{
    let mut out: Vec<QuarantineItem> = Vec::new();
    let mut i: usize = 0;
    let ghost all = suspects_of(suspects@);
    proof {
        assert(all.take(0) =~= Seq::<SuspectModel>::empty());
        assert(quarantine::records_of(out@) =~= Seq::<QuarantineModel>::empty());
    }
    while i < suspects.len()
        invariant
            i <= suspects.len(),
            all == suspects_of(suspects@),
            quarantine::records_of(out@) == records_for(all.take(i as int), reason@, at),
        decreases suspects.len() - i,
    {
        let s = &suspects[i];
        proof {
            let next = all.take(i + 1);
            assert(next.drop_last() =~= all.take(i as int));
            assert(next.last() == s@);
        }
        if text::same(s.kind.as_str(), "plugin") {
            let record = QuarantineItem {
                id: s.id.clone(),
                name: s.name.clone(),
                reason: text::owned(reason),
                evidence: s.evidence.clone(),
                at,
            };
            proof {
                assert(quarantine::records_of(out@.push(record))
                    =~= quarantine::records_of(out@).push(record@));
            }
            out.push(record);
        }
        i = i + 1;
    }
    proof {
        assert(all.take(all.len() as int) =~= all);
    }
    out
}

/// `id` is the id of one of `suspects`.
pub open spec fn blames(suspects: Seq<SuspectModel>, id: Seq<char>) -> bool {
    exists|k: int| 0 <= k < suspects.len() && (#[trigger] suspects[k]).id == id
}

/// Whether `id` is the id of one of `suspects`.
pub fn has_suspect(suspects: &Vec<Suspect>, id: &str) -> (r: bool)
    ensures
        r == blames(suspects_of(suspects@), id@),
{
    let mut i: usize = 0;
    while i < suspects.len()
        invariant
            i <= suspects.len(),
            forall|k: int| 0 <= k < i ==> (#[trigger] suspects_of(suspects@)[k]).id != id@,
        decreases suspects.len() - i,
    {
        if text::same(suspects[i].id.as_str(), id) {
            proof {
                assert(suspects_of(suspects@)[i as int].id == id@);
            }
            return true;
        }
        i = i + 1;
    }
    false
}

/// `suspects` without those whose id came before.
pub open spec fn first_by_id(suspects: Seq<SuspectModel>) -> Seq<SuspectModel>
    decreases suspects.len(),
{
    if suspects.len() == 0 {
        Seq::empty()
    } else {
        let before = first_by_id(suspects.drop_last());
        if blames(before, suspects.last().id) {
            before
        } else {
            before.push(suspects.last())
        }
    }
}

/// Merges the attributions of several attempts: of suspects with one id the
/// first one stays, with its evidence.
pub fn dedup_suspects(suspects: &Vec<Suspect>) -> (r: Vec<Suspect>)
    ensures
        suspects_of(r@) == first_by_id(suspects_of(suspects@)),
{
    let mut out: Vec<Suspect> = Vec::new();
    let mut i: usize = 0;
    let ghost all = suspects_of(suspects@);
    proof {
        assert(all.take(0) =~= Seq::<SuspectModel>::empty());
        assert(suspects_of(out@) =~= Seq::<SuspectModel>::empty());
    }
    while i < suspects.len()
        invariant
            i <= suspects.len(),
            all == suspects_of(suspects@),
            suspects_of(out@) == first_by_id(all.take(i as int)),
        decreases suspects.len() - i,
    {
        proof {
            let next = all.take(i + 1);
            assert(next.drop_last() =~= all.take(i as int));
            assert(next.last() == suspects@[i as int]@);
        }
        if !has_suspect(&out, suspects[i].id.as_str()) {
            let s = suspects[i].clone();
            proof {
                assert(suspects_of(out@.push(s)) =~= suspects_of(out@).push(s@));
            }
            out.push(s);
        }
        i = i + 1;
    }
    proof {
        assert(all.take(all.len() as int) =~= all);
    }
    out
}

/// No two suspects have one id.
pub open spec fn distinct_ids(suspects: Seq<SuspectModel>) -> bool {
    forall|i: int, j: int|
        0 <= i < j < suspects.len() ==> (#[trigger] suspects[i]).id != (#[trigger] suspects[j]).id
}

/// Merging leaves one suspect for each id that was named, and no other.
pub proof fn law_dedup_keeps_each_id_once(suspects: Seq<SuspectModel>)
    ensures
        distinct_ids(first_by_id(suspects)),
        forall|id: Seq<char>| blames(first_by_id(suspects), id) == blames(suspects, id),
    decreases suspects.len(),
{
    if suspects.len() > 0 {
        let init = suspects.drop_last();
        law_dedup_keeps_each_id_once(init);
        let before = first_by_id(init);
        let out = first_by_id(suspects);
        assert forall|id: Seq<char>| blames(out, id) == blames(suspects, id) by {
            if blames(suspects, id) {
                let k = choose|k: int|
                    0 <= k < suspects.len() && (#[trigger] suspects[k]).id == id;
                if k < init.len() {
                    assert(init[k].id == id);
                    assert(blames(init, id));
                    assert(blames(before, id));
                    let m = choose|m: int| 0 <= m < before.len() && (#[trigger] before[m]).id == id;
                    assert(out[m].id == id);
                } else if !blames(before, suspects.last().id) {
                    assert(out[out.len() - 1].id == id);
                }
            }
            if blames(out, id) {
                let m = choose|m: int| 0 <= m < out.len() && (#[trigger] out[m]).id == id;
                if m < before.len() {
                    assert(before[m].id == id);
                    assert(blames(init, id));
                    let k = choose|k: int| 0 <= k < init.len() && (#[trigger] init[k]).id == id;
                    assert(suspects[k].id == id);
                } else {
                    assert(suspects[suspects.len() - 1].id == id);
                }
            }
        }
        if !blames(before, suspects.last().id) {
            assert forall|i: int, j: int| 0 <= i < j < out.len() implies (#[trigger] out[i]).id != (
            #[trigger] out[j]).id by {
                if j == before.len() {
                    assert(before[i].id == out[i].id);
                } else {
                    assert(before[i].id != before[j].id);
                }
            }
        }
    }
}

/// Each plugin among the suspects gets a record of its own id, name and
/// evidence, and nothing else does: every record is that of such a plugin, and
/// carries the reason and the time that were given.
pub proof fn law_plugins_get_their_records(suspects: Seq<SuspectModel>, reason: Seq<char>, at: u64)
    ensures
        forall|k: int|
            0 <= k < suspects.len() && (#[trigger] suspects[k]).kind == "plugin"@ ==> exists|m: int|
                0 <= m < records_for(suspects, reason, at).len() && (#[trigger] records_for(
                    suspects,
                    reason,
                    at,
                )[m]).id == suspects[k].id && records_for(suspects, reason, at)[m].evidence
                    == suspects[k].evidence && records_for(suspects, reason, at)[m].name
                    == suspects[k].name,
        forall|m: int|
            #![trigger records_for(suspects, reason, at)[m]]
            0 <= m < records_for(suspects, reason, at).len() ==> records_for(
                suspects,
                reason,
                at,
            )[m].reason == reason && records_for(suspects, reason, at)[m].at == at && exists|k: int|
                0 <= k < suspects.len() && (#[trigger] suspects[k]).kind == "plugin"@
                    && suspects[k].id == records_for(suspects, reason, at)[m].id && suspects[k].name
                    == records_for(suspects, reason, at)[m].name && suspects[k].evidence
                    == records_for(suspects, reason, at)[m].evidence,
        records_for(suspects, reason, at).len() <= suspects.len(),
    decreases suspects.len(),
{
    if suspects.len() > 0 {
        let init = suspects.drop_last();
        let last = suspects.len() - 1;
        law_plugins_get_their_records(init, reason, at);
        let before = records_for(init, reason, at);
        let out = records_for(suspects, reason, at);
        assert forall|k: int|
            0 <= k < suspects.len() && (#[trigger] suspects[k]).kind == "plugin"@ implies exists|
            m: int,
        |
            0 <= m < out.len() && (#[trigger] out[m]).id == suspects[k].id && out[m].evidence
                == suspects[k].evidence && out[m].name == suspects[k].name by {
            if k < last {
                assert(init[k] == suspects[k]);
                let m = choose|m: int|
                    0 <= m < before.len() && (#[trigger] before[m]).id == init[k].id
                        && before[m].evidence == init[k].evidence && before[m].name == init[k].name;
                assert(out[m] == before[m]);
            } else {
                assert(out[out.len() - 1].id == suspects[k].id);
            }
        }
        assert forall|m: int| 0 <= m < out.len() implies (#[trigger] out[m]).reason == reason
            && out[m].at == at && exists|k: int|
            0 <= k < suspects.len() && (#[trigger] suspects[k]).kind == "plugin"@ && suspects[k].id
                == out[m].id && suspects[k].name == out[m].name && suspects[k].evidence
                == out[m].evidence by {
            if m < before.len() {
                assert(out[m] == before[m]);
                let k = choose|k: int|
                    0 <= k < init.len() && (#[trigger] init[k]).kind == "plugin"@ && init[k].id
                        == before[m].id && init[k].name == before[m].name && init[k].evidence
                        == before[m].evidence;
                assert(suspects[k] == init[k]);
            } else {
                assert(suspects[last].id == out[m].id);
            }
        }
    }
}

/// Of suspects with one id the first one stays, with all that it says; and
/// suspects whose ids differ all stay, in their order.
pub proof fn law_dedup_keeps_the_first(suspects: Seq<SuspectModel>, k: int)
    requires
        0 <= k < suspects.len(),
        forall|j: int| 0 <= j < k ==> (#[trigger] suspects[j]).id != suspects[k].id,
    ensures
        first_by_id(suspects).contains(suspects[k]),
        distinct_ids(suspects) ==> first_by_id(suspects) == suspects,
    decreases suspects.len(),
{
    let init = suspects.drop_last();
    let before = first_by_id(init);
    law_dedup_keeps_each_id_once(init);
    if k < init.len() {
        assert(init[k] == suspects[k]);
        assert forall|j: int| 0 <= j < k implies (#[trigger] init[j]).id != init[k].id by {
            assert(init[j] == suspects[j]);
        }
        law_dedup_keeps_the_first(init, k);
        let m = choose|m: int| 0 <= m < before.len() && before[m] == init[k];
        assert(first_by_id(suspects)[m] == suspects[k]);
    } else {
        assert(!blames(init, suspects[k].id)) by {
            if blames(init, suspects[k].id) {
                let j = choose|j: int| 0 <= j < init.len() && (#[trigger] init[j]).id == suspects[k].id;
                assert(suspects[j].id == suspects[k].id);
            }
        }
        assert(first_by_id(suspects)[before.len() as int] == suspects[k]);
    }
    if distinct_ids(suspects) {
        lemma_dedup_of_distinct(suspects);
    }
}

proof fn lemma_dedup_of_distinct(suspects: Seq<SuspectModel>)
    requires
        distinct_ids(suspects),
    ensures
        first_by_id(suspects) == suspects,
    decreases suspects.len(),
{
    if suspects.len() > 0 {
        let init = suspects.drop_last();
        let last = suspects.len() - 1;
        assert(distinct_ids(init)) by {
            assert forall|i: int, j: int| 0 <= i < j < init.len() implies (#[trigger] init[i]).id != (
            #[trigger] init[j]).id by {
                assert(suspects[i].id != suspects[j].id);
            }
        }
        lemma_dedup_of_distinct(init);
        assert(!blames(init, suspects.last().id)) by {
            if blames(init, suspects.last().id) {
                let j = choose|j: int|
                    0 <= j < init.len() && (#[trigger] init[j]).id == suspects.last().id;
                assert(suspects[j].id != suspects[last].id);
            }
        }
        assert(first_by_id(suspects) =~= suspects);
    } else {
        assert(first_by_id(suspects) =~= suspects);
    }
}

} // verus!
