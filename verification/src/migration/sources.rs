//! The places of the old layout, where they go, and what lies in them.

use crate::error::{AppError, ErrorModel};
use crate::paths;
use crate::text;
use vstd::prelude::*;

verus! {

/// A place of the old layout.
#[derive(Debug, Clone, Copy, PartialEq, Eq, Structural)]
pub enum LegacySource {
    /// The plugin store.
    Plugins,
    /// The skill store.
    SkillsStore,
    /// The skills in use.
    SkillsActive,
}

/// The name of a source in the directory of backups.
pub open spec fn source_key(s: LegacySource) -> Seq<char> {
    match s {
        LegacySource::Plugins => "plugins"@,
        LegacySource::SkillsStore => "skills-store"@,
        LegacySource::SkillsActive => "skills-active"@,
    }
}

/// Where a source lies under the old home.
pub open spec fn source_path(s: LegacySource, legacy_home: Seq<char>) -> Seq<char> {
    paths::joined(
        legacy_home,
        match s {
            LegacySource::Plugins => "plugins"@,
            LegacySource::SkillsStore => "skills-store"@,
            LegacySource::SkillsActive => "skills"@,
        },
    )
}

/// Where a source goes under the new home.
pub open spec fn source_target(s: LegacySource, xlink_home: Seq<char>) -> Seq<char> {
    match s {
        LegacySource::Plugins => paths::joined(xlink_home, "dsh-plugins"@),
        LegacySource::SkillsStore => paths::joined(paths::joined(xlink_home, "skills"@), "packages"@),
        LegacySource::SkillsActive => paths::joined(paths::joined(xlink_home, "skills"@), "active"@),
    }
}

/// What the user reads of a source.
pub open spec fn source_label(s: LegacySource) -> Seq<char> {
    match s {
        LegacySource::Plugins => "旧插件中央库"@,
        LegacySource::SkillsStore => "旧技能中央库"@,
        LegacySource::SkillsActive => "旧技能活动视图"@,
    }
}

impl LegacySource {
    /// Where the source lies under the old home.
    pub fn path(self, legacy_home: &str) -> (r: String)
        ensures
            r@ == source_path(self, legacy_home@),
    {
        match self {
            LegacySource::Plugins => paths::join(legacy_home, "plugins"),
            LegacySource::SkillsStore => paths::join(legacy_home, "skills-store"),
            LegacySource::SkillsActive => paths::join(legacy_home, "skills"),
        }
    }

    /// Where the source goes under the new home.
    pub fn target(self, xlink_home: &str) -> (r: String)
        ensures
            r@ == source_target(self, xlink_home@),
    {
        match self {
            LegacySource::Plugins => paths::join(xlink_home, "dsh-plugins"),
            LegacySource::SkillsStore => paths::join(
                paths::join(xlink_home, "skills").as_str(),
                "packages",
            ),
            LegacySource::SkillsActive => paths::join(
                paths::join(xlink_home, "skills").as_str(),
                "active",
            ),
        }
    }

    /// All sources, in the order in which they are handled.
    pub fn all() -> (r: [LegacySource; 3])
        ensures
            r@ == all_sources(),
    {
        let r = [LegacySource::Plugins, LegacySource::SkillsStore, LegacySource::SkillsActive];
        proof {
            assert(r@ =~= all_sources());
        }
        r
    }

    /// What the user reads of the source.
    pub fn display_name(self) -> (r: &'static str)
        ensures
            r@ == source_label(self),
    {
        match self {
            LegacySource::Plugins => "旧插件中央库",
            LegacySource::SkillsStore => "旧技能中央库",
            LegacySource::SkillsActive => "旧技能活动视图",
        }
    }

    /// The name of the source in the directory of backups.
    pub fn backup_key(self) -> (r: &'static str)
        ensures
            r@ == source_key(self),
    {
        match self {
            LegacySource::Plugins => "plugins",
            LegacySource::SkillsStore => "skills-store",
            LegacySource::SkillsActive => "skills-active",
        }
    }
}

/// All sources, in the order in which they are handled.
pub open spec fn all_sources() -> Seq<LegacySource> {
    seq![LegacySource::Plugins, LegacySource::SkillsStore, LegacySource::SkillsActive]
}

/// Sources never share a place in the directory of backups.
pub proof fn law_backup_keys_differ(a: LegacySource, b: LegacySource)
    ensures
        source_key(a) == source_key(b) <==> a == b,
        all_sources().contains(a),
{
    reveal_strlit("plugins");
    reveal_strlit("skills-store");
    reveal_strlit("skills-active");
    assert("plugins"@.len() != "skills-store"@.len());
    assert("plugins"@.len() != "skills-active"@.len());
    assert("skills-store"@.len() != "skills-active"@.len());
    assert(all_sources()[0] == LegacySource::Plugins);
    assert(all_sources()[1] == LegacySource::SkillsStore);
    assert(all_sources()[2] == LegacySource::SkillsActive);
}

// ---------------------------------------------------------------------- scan

/// What was found at a place of the old layout.
#[derive(Debug)]
pub struct SourceFacts {
    pub exists: bool,
    /// Whether it is a directory itself, and not a link to one.
    pub is_dir: bool,
    /// The sizes of the files under it. Links are not followed.
    pub files: Vec<u64>,
    /// Whether its target exists.
    pub target_exists: bool,
}

/// The sum of sizes.
pub open spec fn total_size(files: Seq<u64>) -> nat
    decreases files.len(),
{
    if files.len() == 0 {
        0
    } else {
        total_size(files.drop_last()) + files.last() as nat
    }
}

/// The files that count: none where the place is no directory.
pub open spec fn counted_files(f: SourceFacts) -> Seq<u64> {
    if f.exists && f.is_dir {
        f.files@
    } else {
        Seq::empty()
    }
}

/// The sizes of what was found fit in a machine integer.
pub open spec fn sizes_fit(f: SourceFacts) -> bool {
    total_size(f.files@) <= u64::MAX
}

proof fn lemma_total_prefix(files: Seq<u64>, i: int)
    requires
        0 <= i <= files.len(),
    ensures
        total_size(files.take(i)) <= total_size(files),
    decreases files.len() - i,
{
    if i < files.len() {
        lemma_total_prefix(files, i + 1);
        assert(files.take(i + 1).drop_last() =~= files.take(i));
    } else {
        assert(files.take(i) =~= files);
    }
}

/// Whether a place exists, how many files count, and their sizes in all.
pub fn scan_one(facts: &SourceFacts) -> (r: (bool, usize, u64))
    requires
        sizes_fit(*facts),
    ensures
        r.0 == facts.exists,
        r.1 == counted_files(*facts).len(),
        r.2 == total_size(counted_files(*facts)),
{
    if !facts.exists || !facts.is_dir {
        return (facts.exists, 0, 0);
    }
    let mut bytes: u64 = 0;
    let mut i: usize = 0;
    proof {
        assert(facts.files@.take(0) =~= Seq::<u64>::empty());
    }
    while i < facts.files.len()
        invariant
            i <= facts.files.len(),
            total_size(facts.files@) <= u64::MAX,
            bytes == total_size(facts.files@.take(i as int)),
        decreases facts.files.len() - i,
    {
        proof {
            lemma_total_prefix(facts.files@, i + 1);
            assert(facts.files@.take(i + 1).drop_last() =~= facts.files@.take(i as int));
        }
        bytes = bytes + facts.files[i];
        i = i + 1;
    }
    proof {
        assert(facts.files@.take(facts.files@.len() as int) =~= facts.files@);
    }
    (true, facts.files.len(), bytes)
}

/// What a scan reports of one source.
#[derive(Debug)]
pub struct LegacySourceInfo {
    pub source: LegacySource,
    pub path: String,
    pub target: String,
    pub exists: bool,
    pub file_count: usize,
    pub total_bytes: u64,
}

/// The report of a scan on a source.
pub open spec fn describes(
    i: LegacySourceInfo,
    s: LegacySource,
    f: SourceFacts,
    legacy_home: Seq<char>,
    xlink_home: Seq<char>,
) -> bool {
    &&& i.source == s
    &&& i.path@ == source_path(s, legacy_home)
    &&& i.target@ == source_target(s, xlink_home)
    &&& i.exists == f.exists
    &&& i.file_count == counted_files(f).len()
    &&& i.total_bytes == total_size(counted_files(f))
}

/// What was found at each place of the old layout.
#[derive(Debug)]
pub struct ScanFacts {
    pub plugins: SourceFacts,
    pub skills_store: SourceFacts,
    pub skills_active: SourceFacts,
}

/// What was found at a source.
pub open spec fn facts_of(f: ScanFacts, s: LegacySource) -> SourceFacts {
    match s {
        LegacySource::Plugins => f.plugins,
        LegacySource::SkillsStore => f.skills_store,
        LegacySource::SkillsActive => f.skills_active,
    }
}

/// The sizes of what was found fit in machine integers.
pub open spec fn scan_fits(f: ScanFacts) -> bool {
    sizes_fit(f.plugins) && sizes_fit(f.skills_store) && sizes_fit(f.skills_active)
}

fn facts_for(f: &ScanFacts, s: LegacySource) -> (r: &SourceFacts)
    ensures
        *r == facts_of(*f, s),
{
    match s {
        LegacySource::Plugins => &f.plugins,
        LegacySource::SkillsStore => &f.skills_store,
        LegacySource::SkillsActive => &f.skills_active,
    }
}

/// The report of a scan, one entry for each source in order.
pub fn scan_legacy_sources(facts: &ScanFacts, legacy_home: &str, xlink_home: &str) -> (r: Vec<
    LegacySourceInfo,
>)
    requires
        scan_fits(*facts),
    ensures
        r.len() == all_sources().len(),
        forall|i: int|
            0 <= i < r.len() ==> describes(
                #[trigger] r@[i],
                all_sources()[i],
                facts_of(*facts, all_sources()[i]),
                legacy_home@,
                xlink_home@,
            ),
{
    let all = LegacySource::all();
    let mut out: Vec<LegacySourceInfo> = Vec::new();
    let mut i: usize = 0;
    while i < 3
        invariant
            i <= 3,
            all@ == all_sources(),
            scan_fits(*facts),
            out.len() == i,
            forall|k: int|
                0 <= k < i ==> describes(
                    #[trigger] out@[k],
                    all_sources()[k],
                    facts_of(*facts, all_sources()[k]),
                    legacy_home@,
                    xlink_home@,
                ),
        decreases 3 - i,
    {
        let source = all[i];
        let (exists, file_count, total_bytes) = scan_one(facts_for(facts, source));
        out.push(
            LegacySourceInfo {
                source,
                path: source.path(legacy_home),
                target: source.target(xlink_home),
                exists,
                file_count,
                total_bytes,
            },
        );
        i = i + 1;
    }
    out
}

/// What a move would do for one source.
#[derive(Debug)]
pub struct MigrationItemPreview {
    pub source: LegacySource,
    pub display_name: String,
    pub source_path: String,
    pub target_path: String,
    pub file_count: usize,
    pub total_bytes: u64,
    pub target_exists: bool,
}

/// What a move would do.
#[derive(Debug)]
pub struct MigrationPreview {
    pub legacy_dsh_home: String,
    pub xlink_home: String,
    pub items: Vec<MigrationItemPreview>,
}

/// The preview of a source.
pub open spec fn previews(
    i: MigrationItemPreview,
    s: LegacySource,
    f: SourceFacts,
    legacy_home: Seq<char>,
    xlink_home: Seq<char>,
) -> bool {
    &&& i.source == s
    &&& i.display_name@ == source_label(s)
    &&& i.source_path@ == source_path(s, legacy_home)
    &&& i.target_path@ == source_target(s, xlink_home)
    &&& i.file_count == counted_files(f).len()
    &&& i.total_bytes == total_size(counted_files(f))
    &&& i.target_exists == f.target_exists
}

/// Something would be moved.
pub open spec fn migratable(items: Seq<MigrationItemPreview>) -> bool {
    exists|i: int|
        0 <= i < items.len() && ((#[trigger] items[i]).file_count > 0 || items[i].total_bytes > 0)
}

impl MigrationPreview {
    /// Whether some source has anything to move.
    pub fn has_migratable(&self) -> (r: bool)
        ensures
            r == migratable(self.items@),
    {
        let mut i: usize = 0;
        while i < self.items.len()
            invariant
                i <= self.items.len(),
                forall|k: int|
                    0 <= k < i ==> (#[trigger] self.items@[k]).file_count == 0
                        && self.items@[k].total_bytes == 0,
            decreases self.items.len() - i,
        {
            if self.items[i].file_count > 0 || self.items[i].total_bytes > 0 {
                return true;
            }
            i = i + 1;
        }
        false
    }
}

/// What a move would do, by a scan of the old layout.
pub fn preview_migration(facts: &ScanFacts, legacy_home: &str, xlink_home: &str) -> (r:
    MigrationPreview)
    requires
        scan_fits(*facts),
    ensures
        r.legacy_dsh_home@ == legacy_home@,
        r.xlink_home@ == xlink_home@,
        r.items.len() == all_sources().len(),
        forall|i: int|
            0 <= i < r.items.len() ==> previews(
                #[trigger] r.items@[i],
                all_sources()[i],
                facts_of(*facts, all_sources()[i]),
                legacy_home@,
                xlink_home@,
            ),
{
    let infos = scan_legacy_sources(facts, legacy_home, xlink_home);
    let mut items: Vec<MigrationItemPreview> = Vec::new();
    let mut i: usize = 0;
    while i < infos.len()
        invariant
            i <= infos.len(),
            infos.len() == all_sources().len(),
            forall|k: int|
                0 <= k < infos.len() ==> describes(
                    #[trigger] infos@[k],
                    all_sources()[k],
                    facts_of(*facts, all_sources()[k]),
                    legacy_home@,
                    xlink_home@,
                ),
            items.len() == i,
            forall|k: int|
                0 <= k < i ==> previews(
                    #[trigger] items@[k],
                    all_sources()[k],
                    facts_of(*facts, all_sources()[k]),
                    legacy_home@,
                    xlink_home@,
                ),
        decreases infos.len() - i,
    {
        let info = &infos[i];
        items.push(
            MigrationItemPreview {
                source: info.source,
                display_name: text::owned(info.source.display_name()),
                source_path: info.path.clone(),
                target_path: info.target.clone(),
                file_count: info.file_count,
                total_bytes: info.total_bytes,
                target_exists: facts_for(facts, info.source).target_exists,
            },
        );
        i = i + 1;
    }
    MigrationPreview {
        legacy_dsh_home: text::owned(legacy_home),
        xlink_home: text::owned(xlink_home),
        items,
    }
}

// ----------------------------------------------------------------- declining

/// The record of a user who declined to move.
#[derive(Debug)]
pub struct MigrationSkip {
    /// When the user declined, in milliseconds since the epoch.
    pub skipped_at_ms: Option<u64>,
    /// The sources that were there then.
    pub sources: Vec<LegacySource>,
}

impl Default for MigrationSkip {
    fn default() -> (r: Self)
        ensures
            r.skipped_at_ms is None,
            r.sources@ == Seq::<LegacySource>::empty(),
    {
        MigrationSkip { skipped_at_ms: None, sources: Vec::new() }
    }
}

/// The file of the data directory that records a declined move.
pub fn skip_state_file(data_dir: &str) -> (r: String)
    ensures
        r@ == paths::joined(data_dir@, "migration-skipped.json"@),
{
    paths::join(data_dir, "migration-skipped.json")
}

/// Whether the user declined. What was there to move does not matter.
pub fn is_migration_skipped(record: &MigrationSkip) -> (r: bool)
    ensures
        r == (record.skipped_at_ms is Some),
{
    record.skipped_at_ms.is_some()
}

/// The record of a user who declines now.
pub fn set_migration_skipped(sources: Vec<LegacySource>, now_ms: u64) -> (r: MigrationSkip)
    ensures
        r.skipped_at_ms == Some(now_ms),
        r.sources@ == sources@,
{
    MigrationSkip { skipped_at_ms: Some(now_ms), sources }
}

/// Reports on forgetting that the user declined, by why the record could not be
/// removed. Where there is no record there is nothing to do.
pub fn clear_migration_skipped(recorded: bool, error: Option<&str>) -> (r: Result<(), AppError>)
    ensures
        r is Ok <==> !recorded || error is None,
        r matches Err(e) ==> e@ == ErrorModel::Io("无法删除跳过标记："@ + (error->0)@),
{
    if !recorded {
        return Ok(());
    }
    match error {
        Some(e) => Err(AppError::Io(text::cat2("无法删除跳过标记：", e))),
        None => Ok(()),
    }
}

/// Each source goes from its place under the old home to its place under the
/// new one.
pub proof fn law_sources_have_their_places(legacy: Seq<char>, xlink: Seq<char>)
    ensures
        source_path(LegacySource::Plugins, legacy) == paths::joined(legacy, "plugins"@),
        source_path(LegacySource::SkillsStore, legacy) == paths::joined(legacy, "skills-store"@),
        source_path(LegacySource::SkillsActive, legacy) == paths::joined(legacy, "skills"@),
        source_target(LegacySource::Plugins, xlink) == paths::joined(xlink, "dsh-plugins"@),
        source_target(LegacySource::SkillsStore, xlink) == paths::joined(
            paths::joined(xlink, "skills"@),
            "packages"@,
        ),
        source_target(LegacySource::SkillsActive, xlink) == paths::joined(
            paths::joined(xlink, "skills"@),
            "active"@,
        ),
        forall|s: LegacySource| all_sources().contains(s),
        all_sources().len() == 3,
{
    assert(all_sources()[0] == LegacySource::Plugins);
    assert(all_sources()[1] == LegacySource::SkillsStore);
    assert(all_sources()[2] == LegacySource::SkillsActive);
}

/// Sizes add up: those of two lists together are the sum of both. A place that
/// is not there or is no directory counts nothing, and a directory all.
pub proof fn law_sizes_add_up(a: Seq<u64>, b: Seq<u64>, f: SourceFacts)
    ensures
        total_size(a + b) == total_size(a) + total_size(b),
        a.len() == 1 ==> total_size(a) == a[0],
        f.exists && f.is_dir ==> counted_files(f) == f.files@,
        !f.exists || !f.is_dir ==> counted_files(f).len() == 0,
    decreases b.len(),
{
    if b.len() > 0 {
        law_sizes_add_up(a, b.drop_last(), f);
        assert((a + b).drop_last() =~= a + b.drop_last());
    } else {
        assert(a + b =~= a);
    }
    if a.len() == 1 {
        assert(a.drop_last() =~= Seq::<u64>::empty());
        assert(total_size(a.drop_last()) == 0);
    }
}

} // verus!
