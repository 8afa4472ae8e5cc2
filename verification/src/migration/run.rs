//! Moving one source: what is done with each of its entries, and what comes
//! out of it.

use crate::error::{AppError, ErrorModel};
use crate::migration::history;
use crate::migration::manifest;
use crate::migration::sources;
use crate::migration::sources::{LegacySource, MigrationItemPreview};
use crate::paths;
use crate::text;
use vstd::prelude::*;

verus! {

/// What is done where the target is there already.
#[derive(Debug, Clone, Copy, PartialEq, Eq, Structural)]
pub enum ConflictPolicy {
    /// What is newer than the source stays.
    SkipIfNewer,
    /// What is there goes into the backup, and the source takes its place.
    BackupAndOverwrite,
}

/// What is known of a file or directory.
#[derive(Debug, Clone, Copy)]
pub struct EntryMeta {
    pub is_dir: bool,
    /// When it was last changed, in nanoseconds since the epoch; the epoch
    /// where that cannot be read.
    pub modified: i128,
}

/// What is known of an entry of a source and of its place in the target.
#[derive(Debug)]
pub struct EntryFacts {
    /// None where the entry cannot be looked at.
    pub source: Option<EntryMeta>,
    pub target_exists: bool,
    /// None where the target cannot be looked at.
    pub target: Option<EntryMeta>,
}

/// What is done with an entry.
#[derive(Debug, Clone, Copy, PartialEq, Eq)]
pub enum EntryDecision {
    Copy,
    /// Nothing, and why.
    Skip(&'static str),
    /// What is there is put into the backup first.
    BackupThenCopy,
    /// The manifest of a store is merged.
    MergeManifest,
}

/// What is done with an entry, without the reason for doing nothing.
#[derive(Debug, Clone, Copy, PartialEq, Eq, Structural)]
pub enum EntryAction {
    Copy,
    Skip,
    BackupThenCopy,
    MergeManifest,
}

/// The content of a decision.
pub open spec fn action_of(d: EntryDecision) -> EntryAction {
    match d {
        EntryDecision::Copy => EntryAction::Copy,
        EntryDecision::Skip(_) => EntryAction::Skip,
        EntryDecision::BackupThenCopy => EntryAction::BackupThenCopy,
        EntryDecision::MergeManifest => EntryAction::MergeManifest,
    }
}

/// Why nothing is done, where the entry is skipped.
pub open spec fn reason_of(d: EntryDecision) -> Option<Seq<char>> {
    match d {
        EntryDecision::Skip(why) => Some(why@),
        _ => None,
    }
}

/// What the policy does with an entry, and why nothing where it does nothing.
pub open spec fn decision(f: EntryFacts, policy: ConflictPolicy) -> (EntryAction, Option<Seq<char>>) {
    if !f.target_exists {
        (EntryAction::Copy, None)
    } else {
        match (f.source, f.target) {
            (None, _) => (EntryAction::Skip, Some("源元数据不可读"@)),
            (Some(_), None) => (EntryAction::Copy, None),
            (Some(s), Some(t)) => if s.is_dir != t.is_dir {
                (EntryAction::Skip, Some("源 / 目标类型不一致"@))
            } else if policy == ConflictPolicy::SkipIfNewer && s.modified < t.modified {
                (
                    EntryAction::Skip,
                    Some(
                        if s.is_dir {
                            "目标目录比源新，跳过合并"@
                        } else {
                            "目标文件比源新"@
                        },
                    ),
                )
            } else if policy == ConflictPolicy::BackupAndOverwrite && !s.is_dir {
                (EntryAction::BackupThenCopy, None)
            } else {
                (EntryAction::Copy, None)
            },
        }
    }
}

/// Decides what is done with an entry that is no manifest.
pub fn decide_entry(facts: &EntryFacts, policy: ConflictPolicy) -> (r: EntryDecision)
    ensures
        (action_of(r), reason_of(r)) == decision(*facts, policy),
{
    if !facts.target_exists {
        return EntryDecision::Copy;
    }
    let source = match facts.source {
        Some(m) => m,
        None => {
            return EntryDecision::Skip("源元数据不可读");
        },
    };
    let target = match facts.target {
        Some(m) => m,
        None => {
            return EntryDecision::Copy;
        },
    };
    if source.is_dir != target.is_dir {
        return EntryDecision::Skip("源 / 目标类型不一致");
    }
    if policy == ConflictPolicy::SkipIfNewer && source.modified < target.modified {
        return if source.is_dir {
            EntryDecision::Skip("目标目录比源新，跳过合并")
        } else {
            EntryDecision::Skip("目标文件比源新")
        };
    }
    if policy == ConflictPolicy::BackupAndOverwrite && !source.is_dir {
        EntryDecision::BackupThenCopy
    } else {
        EntryDecision::Copy
    }
}

/// What is done with a named entry of a source.
pub open spec fn entry_action(
    source: LegacySource,
    name: Seq<char>,
    f: EntryFacts,
    policy: ConflictPolicy,
) -> EntryAction {
    if manifest::manifest_name(source, name) && f.target_exists {
        EntryAction::MergeManifest
    } else {
        decision(f, policy).0
    }
}

/// Decides what is done with a named entry of a source: a manifest that is
/// there already is merged, whatever the policy; the policy decides on the
/// rest.
pub fn plan_entry(
    source: LegacySource,
    name: &str,
    facts: &EntryFacts,
    policy: ConflictPolicy,
) -> (r: EntryDecision)
    ensures
        action_of(r) == entry_action(source, name@, *facts, policy),
        manifest::manifest_name(source, name@) && facts.target_exists || reason_of(r) == decision(
            *facts,
            policy,
        ).1,
{
    if manifest::is_store_manifest(source, name) && facts.target_exists {
        EntryDecision::MergeManifest
    } else {
        decide_entry(facts, policy)
    }
}

// ------------------------------------------------------------------- reports

/// How the move of a source went.
#[derive(Debug, Clone, Copy, PartialEq, Eq, Structural)]
pub enum MigrationStatus {
    /// There was nothing to move.
    Skipped,
    /// Every entry was handled.
    Copied,
    /// Some entries failed.
    PartialFailure,
    /// Nothing could be done.
    Failed,
}

/// What came of moving a source.
#[derive(Debug)]
pub struct MigrationItemReport {
    pub source: LegacySource,
    pub source_path: String,
    pub target_path: String,
    pub backup_path: Option<String>,
    pub files_copied: usize,
    pub files_skipped: usize,
    pub status: MigrationStatus,
    pub error: Option<String>,
}

/// The content of a report on a source.
#[verifier::ext_equal]
pub struct ItemModel {
    pub source: LegacySource,
    pub source_path: Seq<char>,
    pub target_path: Seq<char>,
    pub backup_path: Option<Seq<char>>,
    pub copied: nat,
    pub skipped: nat,
    pub status: MigrationStatus,
    pub error: Option<Seq<char>>,
}

impl View for MigrationItemReport {
    type V = ItemModel;

    open spec fn view(&self) -> ItemModel {
        ItemModel {
            source: self.source,
            source_path: self.source_path@,
            target_path: self.target_path@,
            backup_path: text::opt_text(self.backup_path),
            copied: self.files_copied as nat,
            skipped: self.files_skipped as nat,
            status: self.status,
            error: text::opt_text(self.error),
        }
    }
}

/// An entry of a source, and what came of what was done with it. What was not
/// done is not read.
#[derive(Debug)]
pub struct EntryRecord {
    /// None where the name is no text.
    pub name: Option<String>,
    pub facts: EntryFacts,
    /// The error of putting what was there into the backup.
    pub backup_error: Option<String>,
    /// The error of copying.
    pub copy_error: Option<String>,
    /// Whether manifests were merged.
    pub merged: bool,
}

/// What was found and done in moving a source.
#[derive(Debug)]
pub struct MoveFacts {
    pub source_exists: bool,
    pub target_exists: bool,
    /// The error of making the target's directory.
    pub create_error: Option<String>,
    /// The entries of the source, or the error of listing them.
    pub entries: Result<Vec<EntryRecord>, String>,
}

/// How many entries were handled, how many were left alone, and the last
/// error.
#[verifier::ext_equal]
pub struct Tally {
    pub copied: nat,
    pub skipped: nat,
    pub error: Option<Seq<char>>,
}

/// The tally after one more entry.
pub open spec fn tallied(
    t: Tally,
    source: LegacySource,
    e: EntryRecord,
    policy: ConflictPolicy,
) -> Tally {
    match e.name {
        None => Tally { error: Some("源文件名含非 UTF-8 字节，已跳过"@), ..t },
        Some(name) => match entry_action(source, name@, e.facts, policy) {
            EntryAction::Skip => Tally { skipped: t.skipped + 1, ..t },
            EntryAction::MergeManifest => if e.merged {
                Tally { copied: t.copied + 1, ..t }
            } else {
                Tally { skipped: t.skipped + 1, ..t }
            },
            action => if action == EntryAction::BackupThenCopy && e.backup_error is Some {
                Tally { error: Some(name@ + " 备份失败："@ + (e.backup_error->0)@), ..t }
            } else {
                match e.copy_error {
                    None => Tally { copied: t.copied + 1, ..t },
                    Some(err) => Tally { error: Some(name@ + "："@ + err@), ..t },
                }
            },
        },
    }
}

/// The tally of entries.
pub open spec fn tally_of(
    source: LegacySource,
    entries: Seq<EntryRecord>,
    policy: ConflictPolicy,
) -> Tally
    decreases entries.len(),
{
    if entries.len() == 0 {
        Tally { copied: 0, skipped: 0, error: None }
    } else {
        tallied(tally_of(source, entries.drop_last(), policy), source, entries.last(), policy)
    }
}

/// How a move went, by its tally.
pub open spec fn status_of(t: Tally) -> MigrationStatus {
    if t.error is None {
        MigrationStatus::Copied
    } else if t.copied == 0 && t.skipped == 0 {
        MigrationStatus::Failed
    } else {
        MigrationStatus::PartialFailure
    }
}

/// The directory that the backup of a source goes to.
pub open spec fn backup_dir(backup_root: Seq<char>, source: LegacySource) -> Seq<char> {
    paths::joined(backup_root, sources::source_key(source))
}

/// The directory that the backup of a source goes to.
pub fn backup_path_for(backup_root: &str, source: LegacySource) -> (r: String)
    ensures
        r@ == backup_dir(backup_root@, source),
{
    paths::join(backup_root, source.backup_key())
}

/// There is nothing to move.
pub open spec fn nothing_to_move(item: MigrationItemPreview, f: MoveFacts) -> bool {
    !f.source_exists || item.file_count == 0 && item.total_bytes == 0
}

/// A report without counts.
pub open spec fn bare_report(
    item: MigrationItemPreview,
    status: MigrationStatus,
    error: Option<Seq<char>>,
) -> ItemModel {
    ItemModel {
        source: item.source,
        source_path: item.source_path@,
        target_path: item.target_path@,
        backup_path: None,
        copied: 0,
        skipped: 0,
        status,
        error,
    }
}

/// What came of moving a source.
pub open spec fn item_report(
    item: MigrationItemPreview,
    policy: ConflictPolicy,
    backup_root: Seq<char>,
    f: MoveFacts,
) -> ItemModel {
    if nothing_to_move(item, f) {
        bare_report(item, MigrationStatus::Skipped, None)
    } else if f.create_error is Some {
        bare_report(
            item,
            MigrationStatus::Failed,
            Some("无法创建目标目录："@ + (f.create_error->0)@),
        )
    } else {
        match f.entries {
            Err(e) => bare_report(
                item,
                MigrationStatus::Failed,
                Some("无法读取源目录："@ + e@),
            ),
            Ok(entries) => {
                let t = tally_of(item.source, entries@, policy);
                ItemModel {
                    source: item.source,
                    source_path: item.source_path@,
                    target_path: item.target_path@,
                    backup_path: if policy == ConflictPolicy::BackupAndOverwrite
                        && f.target_exists {
                        Some(backup_dir(backup_root, item.source))
                    } else {
                        None
                    },
                    copied: t.copied,
                    skipped: t.skipped,
                    status: status_of(t),
                    error: t.error,
                }
            },
        }
    }
}

fn plain_report(item: &MigrationItemPreview, status: MigrationStatus, error: Option<String>) -> (r:
    MigrationItemReport)
    ensures
        r@ == bare_report(*item, status, text::opt_text(error)),
{
    MigrationItemReport {
        source: item.source,
        source_path: item.source_path.clone(),
        target_path: item.target_path.clone(),
        backup_path: None,
        files_copied: 0,
        files_skipped: 0,
        status,
        error,
    }
}

/// Reports on the move of a source: nothing where there was nothing to move;
/// a failure where its directory could not be read or the target's could not
/// be made; otherwise how many entries were handled and how many left alone,
/// with the last error. The source is never removed.
pub fn migrate_one(
    item: &MigrationItemPreview,
    policy: ConflictPolicy,
    backup_root: &str,
    facts: &MoveFacts,
) -> (r: MigrationItemReport)
    ensures
        r@ == item_report(*item, policy, backup_root@, *facts),
{
    if !facts.source_exists || (item.file_count == 0 && item.total_bytes == 0) {
        return plain_report(item, MigrationStatus::Skipped, None);
    }
    let backup_path = if policy == ConflictPolicy::BackupAndOverwrite && facts.target_exists {
        Some(backup_path_for(backup_root, item.source))
    } else {
        None
    };
    match &facts.create_error {
        Some(e) => {
            return plain_report(
                item,
                MigrationStatus::Failed,
                Some(text::cat2("无法创建目标目录：", e.as_str())),
            );
        },
        None => {},
    }
    let entries = match &facts.entries {
        Ok(entries) => entries,
        Err(e) => {
            return plain_report(
                item,
                MigrationStatus::Failed,
                Some(text::cat2("无法读取源目录：", e.as_str())),
            );
        },
    };
    let mut copied: usize = 0;
    let mut skipped: usize = 0;
    let mut error: Option<String> = None;
    let mut i: usize = 0;
    proof {
        assert(entries@.take(0) =~= Seq::<EntryRecord>::empty());
    }
    while i < entries.len()
        invariant
            i <= entries.len(),
            copied + skipped <= i,
            (Tally { copied: copied as nat, skipped: skipped as nat, error: text::opt_text(error) })
                == tally_of(item.source, entries@.take(i as int), policy),
        decreases entries.len() - i,
    {
        let e = &entries[i];
        proof {
            let next = entries@.take(i + 1);
            assert(next.drop_last() =~= entries@.take(i as int));
            assert(next.last() == *e);
        }
        match &e.name {
            None => {
                error = Some(text::owned("源文件名含非 UTF-8 字节，已跳过"));
            },
            Some(name) => {
                match plan_entry(item.source, name.as_str(), &e.facts, policy) {
                    EntryDecision::Skip(_) => {
                        skipped = skipped + 1;
                    },
                    EntryDecision::MergeManifest => {
                        if e.merged {
                            copied = copied + 1;
                        } else {
                            skipped = skipped + 1;
                        }
                    },
                    EntryDecision::Copy => {
                        match &e.copy_error {
                            None => {
                                copied = copied + 1;
                            },
                            Some(err) => {
                                error = Some(text::cat3(name.as_str(), "：", err.as_str()));
                            },
                        }
                    },
                    EntryDecision::BackupThenCopy => {
                        match &e.backup_error {
                            Some(err) => {
                                error =
                                Some(text::cat3(name.as_str(), " 备份失败：", err.as_str()));
                            },
                            None => {
                                match &e.copy_error {
                                    None => {
                                        copied = copied + 1;
                                    },
                                    Some(err) => {
                                        error =
                                        Some(text::cat3(name.as_str(), "：", err.as_str()));
                                    },
                                }
                            },
                        }
                    },
                }
            },
        }
        i = i + 1;
    }
    proof {
        assert(entries@.take(entries@.len() as int) =~= entries@);
    }
    let status = if error.is_none() {
        MigrationStatus::Copied
    } else if copied == 0 && skipped == 0 {
        MigrationStatus::Failed
    } else {
        MigrationStatus::PartialFailure
    };
    MigrationItemReport {
        source: item.source,
        source_path: item.source_path.clone(),
        target_path: item.target_path.clone(),
        backup_path,
        files_copied: copied,
        files_skipped: skipped,
        status,
        error,
    }
}

// ------------------------------------------------------------------ progress

/// A move that ran.
#[derive(Debug)]
pub struct MigrationReport {
    pub migration_id: String,
    pub backup_root: String,
    pub items: Vec<MigrationItemReport>,
}

/// Where a move stands.
#[derive(Debug)]
pub struct MigrationProgress {
    /// The source that is being moved, counted from one; zero before the
    /// first.
    pub step: u32,
    pub total: u32,
    pub source_label: String,
    pub stage: String,
}

/// The content of a progress event.
#[verifier::ext_equal]
pub struct ProgressModel {
    pub step: u32,
    pub total: u32,
    pub label: Seq<char>,
    pub stage: Seq<char>,
}

impl View for MigrationProgress {
    type V = ProgressModel;

    open spec fn view(&self) -> ProgressModel {
        ProgressModel {
            step: self.step,
            total: self.total,
            label: self.source_label@,
            stage: self.stage@,
        }
    }
}

/// How the end of a source's move is called.
pub open spec fn stage_text(status: MigrationStatus) -> Seq<char> {
    match status {
        MigrationStatus::Copied => "已完成"@,
        MigrationStatus::Skipped => "已跳过"@,
        MigrationStatus::PartialFailure | MigrationStatus::Failed => "失败"@,
    }
}

/// A move under way.
#[derive(Debug)]
pub struct MigrationRun {
    pub migration_id: String,
    pub backup_root: String,
    pub total: u32,
    pub items: Vec<MigrationItemReport>,
}

/// One report for each source that was moved, in the order of the sources.
pub open spec fn in_order(items: Seq<MigrationItemReport>) -> bool {
    items.len() <= sources::all_sources().len() && forall|i: int|
        0 <= i < items.len() ==> (#[trigger] items[i]).source == sources::all_sources()[i]
}

impl MigrationRun {
    /// The reports so far are those on the first sources, in order.
    pub open spec fn well_formed(self) -> bool {
        self.total == sources::all_sources().len() && in_order(self.items@)
    }
}

/// Begins a move of every source under a backup of its own, unless the
/// directory of that backup could not be made: nothing is moved yet. `taken`
/// are the names in the directory of backups before it was made.
pub fn run_migration_with_progress(
    xlink_home: &str,
    migration_id: String,
    taken: &Vec<String>,
    create_error: Option<&str>,
) -> (r: Result<(MigrationRun, MigrationProgress), AppError>)
    requires
        history::fresh_root(migration_id@, text::texts(taken@)) is Some,
    ensures
        ({
            let name = history::fresh_root(migration_id@, text::texts(taken@))->0;
            let root = history::root_path(xlink_home@, name);
            &&& !text::texts(taken@).contains(name)
            &&& r is Ok <==> create_error is None
            &&& r matches Ok(begun) ==> {
                &&& begun.0.migration_id == migration_id
                &&& begun.0.backup_root@ == root
                &&& begun.0.well_formed()
                &&& begun.0.items@ == Seq::<MigrationItemReport>::empty()
                &&& begun.1@ == (ProgressModel {
                    step: 0,
                    total: 3,
                    label: Seq::empty(),
                    stage: "准备"@,
                })
            }
            &&& r matches Err(e) ==> e@ == ErrorModel::Io(
                "无法创建备份目录 "@ + root + "："@ + (create_error->0)@,
            )
        }),
{
    let backup_root = match history::backup_root_for(xlink_home, migration_id.as_str(), taken) {
        Some(root) => root,
        None => {
            proof {
                assert(false);
            }
            String::new()
        },
    };
    match create_error {
        Some(e) => {
            return Err(
                AppError::Io(text::cat4("无法创建备份目录 ", backup_root.as_str(), "：", e)),
            );
        },
        None => {},
    }
    Ok(
        (
            MigrationRun { migration_id, backup_root, total: 3, items: Vec::new() },
            MigrationProgress {
                step: 0,
                total: 3,
                source_label: String::new(),
                stage: text::owned("准备"),
            },
        ),
    )
}

impl MigrationRun {
    /// Tells that the next source is being moved.
    pub fn begin_item(&self) -> (r: MigrationProgress)
        requires
            self.well_formed(),
            self.items.len() < self.total,
        ensures
            r@ == (ProgressModel {
                step: (self.items.len() + 1) as u32,
                total: self.total,
                label: sources::source_label(sources::all_sources()[self.items.len() as int]),
                stage: "搬运中"@,
            }),
    {
        let all = LegacySource::all();
        MigrationProgress {
            step: self.items.len() as u32 + 1,
            total: self.total,
            source_label: text::owned(all[self.items.len()].display_name()),
            stage: text::owned("搬运中"),
        }
    }

    /// Takes the report on the source that was being moved, and tells how it
    /// went.
    pub fn finish_item(&mut self, report: MigrationItemReport) -> (r: MigrationProgress)
        requires
            old(self).well_formed(),
            old(self).items.len() < old(self).total,
            report.source == sources::all_sources()[old(self).items.len() as int],
        ensures
            final(self).well_formed(),
            final(self).items@ == old(self).items@.push(report),
            final(self).migration_id == old(self).migration_id,
            final(self).backup_root == old(self).backup_root,
            final(self).total == old(self).total,
            r@ == (ProgressModel {
                step: (old(self).items.len() + 1) as u32,
                total: old(self).total,
                label: sources::source_label(report.source),
                stage: stage_text(report.status),
            }),
    {
        let step: u32 = self.items.len() as u32 + 1;
        let stage = match report.status {
            MigrationStatus::Copied => "已完成",
            MigrationStatus::Skipped => "已跳过",
            MigrationStatus::PartialFailure => "失败",
            MigrationStatus::Failed => "失败",
        };
        let label = text::owned(report.source.display_name());
        self.items.push(report);
        MigrationProgress { step, total: self.total, source_label: label, stage: text::owned(stage) }
    }
}

/// The report on a whole move: one for each source, in their order.
pub fn run_migration(run: MigrationRun) -> (r: MigrationReport)
    requires
        run.well_formed(),
        run.items.len() == run.total,
    ensures
        r.migration_id == run.migration_id,
        r.backup_root == run.backup_root,
        r.items == run.items,
        r.items.len() == sources::all_sources().len(),
        forall|i: int|
            0 <= i < r.items.len() ==> (#[trigger] r.items@[i]).source == sources::all_sources()[i],
{
    MigrationReport {
        migration_id: run.migration_id,
        backup_root: run.backup_root,
        items: run.items,
    }
}

// ---------------------------------------------------------------------- laws

/// A file or directory of the target that is newer than its source stays as it
/// is under the policy that skips what is newer, unless it is a manifest.
pub proof fn law_newer_targets_stay(
    source: LegacySource,
    name: Seq<char>,
    f: EntryFacts,
)
    requires
        f.target_exists,
        f.source matches Some(s) && (f.target matches Some(t) && s.modified < t.modified),
        !manifest::manifest_name(source, name),
    ensures
        entry_action(source, name, f, ConflictPolicy::SkipIfNewer) == EntryAction::Skip,
{
}

/// A manifest that is there is never overwritten, under either policy.
pub proof fn law_manifests_are_merged(
    source: LegacySource,
    name: Seq<char>,
    f: EntryFacts,
    policy: ConflictPolicy,
)
    requires
        manifest::manifest_name(source, name),
    ensures
        entry_action(source, name, f, policy) == (if f.target_exists {
            EntryAction::MergeManifest
        } else {
            EntryAction::Copy
        }),
{
}

/// The policy that overwrites never overwrites a file that it can look at
/// without putting it into the backup first.
pub proof fn law_files_are_backed_up(
    source: LegacySource,
    name: Seq<char>,
    f: EntryFacts,
)
    requires
        f.target_exists,
        f.source matches Some(s) && !s.is_dir,
        f.target matches Some(t) && !t.is_dir,
    ensures
        entry_action(source, name, f, ConflictPolicy::BackupAndOverwrite)
            == EntryAction::BackupThenCopy || entry_action(
            source,
            name,
            f,
            ConflictPolicy::BackupAndOverwrite,
        ) == EntryAction::MergeManifest,
{
}

/// Each entry counts at most once, and a move without an error is complete:
/// every entry was either handled or left alone.
pub proof fn law_entries_are_counted(
    source: LegacySource,
    entries: Seq<EntryRecord>,
    policy: ConflictPolicy,
)
    ensures
        ({
            let t = tally_of(source, entries, policy);
            t.copied + t.skipped <= entries.len() && (t.error is None ==> t.copied + t.skipped
                == entries.len())
        }),
    decreases entries.len(),
{
    if entries.len() > 0 {
        law_entries_are_counted(source, entries.drop_last(), policy);
        lemma_errors_stay(source, entries, policy);
    }
}

/// Where a tally has no error, every entry has a name that is text, and none
/// failed to go into the backup.
pub proof fn lemma_no_error(
    source: LegacySource,
    entries: Seq<EntryRecord>,
    policy: ConflictPolicy,
    k: int,
)
    requires
        tally_of(source, entries, policy).error is None,
        0 <= k < entries.len(),
    ensures
        entries[k].name is Some,
        entry_action(source, (entries[k].name->0)@, entries[k].facts, policy)
            == EntryAction::BackupThenCopy ==> entries[k].backup_error is None,
    decreases entries.len(),
{
    lemma_errors_stay(source, entries, policy);
    if k < entries.len() - 1 {
        lemma_no_error(source, entries.drop_last(), policy, k);
    }
}

proof fn lemma_errors_stay(
    source: LegacySource,
    entries: Seq<EntryRecord>,
    policy: ConflictPolicy,
)
    requires
        entries.len() > 0,
    ensures
        tally_of(source, entries, policy).error is None ==> tally_of(
            source,
            entries.drop_last(),
            policy,
        ).error is None,
{
}

/// A directory that is on both sides is merged into the target: always under
/// the policy that overwrites, and under the one that skips what is newer
/// unless the target was changed after the source.
pub proof fn law_directories_are_merged(
    source: LegacySource,
    name: Seq<char>,
    f: EntryFacts,
    policy: ConflictPolicy,
)
    requires
        f.target_exists,
        f.source matches Some(s) && s.is_dir,
        f.target matches Some(t) && t.is_dir,
        !manifest::manifest_name(source, name),
    ensures
        policy == ConflictPolicy::BackupAndOverwrite ==> entry_action(source, name, f, policy)
            == EntryAction::Copy,
        policy == ConflictPolicy::SkipIfNewer ==> entry_action(source, name, f, policy) == (
        if (f.target->0).modified > (f.source->0).modified {
            EntryAction::Skip
        } else {
            EntryAction::Copy
        }),
{
}

/// A file that is on both sides is never copied over one that was changed later
/// under the policy that skips what is newer, and always copied over one that
/// was not; the policy that overwrites puts it into the backup first.
pub proof fn law_files_are_replaced(
    source: LegacySource,
    name: Seq<char>,
    f: EntryFacts,
    policy: ConflictPolicy,
)
    requires
        f.target_exists,
        f.source matches Some(s) && !s.is_dir,
        f.target matches Some(t) && !t.is_dir,
        !manifest::manifest_name(source, name),
    ensures
        policy == ConflictPolicy::BackupAndOverwrite ==> entry_action(source, name, f, policy)
            == EntryAction::BackupThenCopy,
        policy == ConflictPolicy::SkipIfNewer ==> entry_action(source, name, f, policy) == (
        if (f.target->0).modified > (f.source->0).modified {
            EntryAction::Skip
        } else {
            EntryAction::Copy
        }),
{
}

/// What the target lacks, or cannot be looked at there, is copied, under either
/// policy; a file never replaces a directory, nor a directory a file; and an
/// entry that cannot be looked at is left alone where its place is taken.
pub proof fn law_places_decide(
    source: LegacySource,
    name: Seq<char>,
    f: EntryFacts,
    policy: ConflictPolicy,
)
    ensures
        !f.target_exists ==> entry_action(source, name, f, policy) == EntryAction::Copy,
        f.target_exists && !manifest::manifest_name(source, name) ==> {
            &&& f.source is None ==> entry_action(source, name, f, policy) == EntryAction::Skip
            &&& f.source is Some && f.target is None ==> entry_action(source, name, f, policy)
                == EntryAction::Copy
            &&& (f.source matches Some(s) && (f.target matches Some(t) && s.is_dir != t.is_dir))
                ==> entry_action(source, name, f, policy) == EntryAction::Skip
        },
        f.target_exists && name == "store.json"@ && source != LegacySource::SkillsActive
            ==> entry_action(source, name, f, policy) == EntryAction::MergeManifest,
        entry_action(source, name, f, policy) == EntryAction::MergeManifest ==> f.target_exists
            && name == "store.json"@ && source != LegacySource::SkillsActive,
{
}

/// The later the source was changed, the sooner it is copied: what is copied
/// stays copied where the source was changed later, all else equal. The policy
/// that overwrites does not look at times at all.
pub proof fn law_later_sources_are_not_skipped(
    source: LegacySource,
    name: Seq<char>,
    f: EntryFacts,
    g: EntryFacts,
    policy: ConflictPolicy,
)
    requires
        f.target_exists == g.target_exists,
        f.target == g.target,
        f.source matches Some(a) && (g.source matches Some(b) && a.is_dir == b.is_dir && a.modified
            <= b.modified),
    ensures
        entry_action(source, name, f, policy) != EntryAction::Skip ==> entry_action(
            source,
            name,
            g,
            policy,
        ) == entry_action(source, name, f, policy),
        policy == ConflictPolicy::BackupAndOverwrite ==> entry_action(source, name, g, policy)
            == entry_action(source, name, f, policy),
{
}

/// A reason is given exactly where nothing is done.
pub proof fn law_skips_have_reasons(f: EntryFacts, policy: ConflictPolicy)
    ensures
        decision(f, policy).1 is Some <==> decision(f, policy).0 == EntryAction::Skip,
        decision(f, policy).0 != EntryAction::MergeManifest,
{
}

/// One more entry counts once: as handled where it was copied or merged without
/// an error, as left alone where it was skipped or its manifest could not be
/// merged, and as an error otherwise. An error is the last one told.
pub proof fn law_each_entry_counts_once(
    source: LegacySource,
    entries: Seq<EntryRecord>,
    e: EntryRecord,
    policy: ConflictPolicy,
)
    ensures
        ({
            let t = tally_of(source, entries, policy);
            let u = tally_of(source, entries.push(e), policy);
            match e.name {
                None => u.error is Some && u.copied == t.copied && u.skipped == t.skipped,
                Some(name) => {
                    let action = entry_action(source, name@, e.facts, policy);
                    let fails = action == EntryAction::BackupThenCopy && e.backup_error is Some || (
                    action == EntryAction::BackupThenCopy || action == EntryAction::Copy)
                        && e.copy_error is Some;
                    let left = action == EntryAction::Skip || action == EntryAction::MergeManifest
                        && !e.merged;
                    if fails {
                        u.copied == t.copied && u.skipped == t.skipped && (u.error matches Some(why)
                            && text::begins(why, name@))
                    } else if left {
                        u.skipped == t.skipped + 1 && u.copied == t.copied && u.error == t.error
                    } else {
                        u.copied == t.copied + 1 && u.skipped == t.skipped && u.error == t.error
                    }
                },
            }
        }),
{
    let all = entries.push(e);
    assert(all.drop_last() =~= entries);
    assert(all.last() == e);
    let u = tally_of(source, all, policy);
    if let Some(name) = e.name {
        if let Some(why) = u.error {
            if why.len() >= name@.len() && why.take(name@.len() as int) =~= name@ {
                assert(why.subrange(0, name@.len() as int) =~= name@);
            }
            if e.copy_error is Some {
                let told = name@ + "："@ + (e.copy_error->0)@;
                assert(told.subrange(0, name@.len() as int) =~= name@);
            }
            if e.backup_error is Some {
                let told = name@ + " 备份失败："@ + (e.backup_error->0)@;
                assert(told.subrange(0, name@.len() as int) =~= name@);
            }
        }
    }
}

/// How the move of a source is reported: as skipped exactly where it is not
/// there or holds nothing; as failed where it could not begin; otherwise as
/// copied exactly where there was no error, and as failed only where no entry
/// was handled or left alone. The backup is told of only where something may
/// have gone into it.
pub proof fn law_reports_tell_how_it_went(
    item: MigrationItemPreview,
    policy: ConflictPolicy,
    root: Seq<char>,
    f: MoveFacts,
)
    ensures
        ({
            let r = item_report(item, policy, root, f);
            let nothing = !f.source_exists || item.file_count == 0 && item.total_bytes == 0;
            &&& r.source == item.source && r.source_path == item.source_path@ && r.target_path
                == item.target_path@
            &&& nothing <==> r.status == MigrationStatus::Skipped
            &&& nothing ==> r.error is None && r.copied == 0 && r.skipped == 0
            &&& !nothing && (f.create_error is Some || f.entries is Err) ==> r.status
                == MigrationStatus::Failed && r.error is Some && r.copied == 0
            &&& !nothing && f.create_error is None && f.entries is Ok ==> {
                &&& r.copied == tally_of(item.source, (f.entries->Ok_0)@, policy).copied
                &&& r.skipped == tally_of(item.source, (f.entries->Ok_0)@, policy).skipped
                &&& r.status == MigrationStatus::Copied <==> r.error is None
                &&& r.status == MigrationStatus::Failed <==> r.error is Some && r.copied == 0
                    && r.skipped == 0
            }
            &&& r.backup_path matches Some(path) ==> policy == ConflictPolicy::BackupAndOverwrite
                && f.target_exists && path == paths::joined(
                root,
                match item.source {
                    LegacySource::Plugins => "plugins"@,
                    LegacySource::SkillsStore => "skills-store"@,
                    LegacySource::SkillsActive => "skills-active"@,
                },
            )
        }),
{
}

/// The words for how a source went: done, skipped, or failed, also where only
/// some of it failed.
pub proof fn law_words_for_how_it_went(status: MigrationStatus)
    ensures
        stage_text(status) == "已完成"@ <==> status == MigrationStatus::Copied,
        stage_text(status) == "已跳过"@ <==> status == MigrationStatus::Skipped,
        stage_text(status) == "失败"@ <==> status == MigrationStatus::Failed || status
            == MigrationStatus::PartialFailure,
{
    reveal_strlit("已完成");
    reveal_strlit("已跳过");
    reveal_strlit("失败");
    assert("已完成"@[1] == '完' && "已跳过"@[1] == '跳' && "失败"@.len() == 2 && "已完成"@.len() == 3
        && "已跳过"@.len() == 3);
}

} // verus!
