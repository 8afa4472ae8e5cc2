use std::collections::BTreeMap;

use dsh_xlink::migration::history::{
    backup_root_for, check_rollback, next_migration_id, rollback_migration, RestoreFacts,
    RestoreRecord, RollbackFacts, RollbackReport, RollbackStatus,
};
use dsh_xlink::migration::manifest::merge_store_manifest;
use dsh_xlink::migration::run::{
    migrate_one, plan_entry, run_migration, run_migration_with_progress, ConflictPolicy,
    EntryFacts, EntryMeta, EntryRecord, MigrationReport, MoveFacts,
};
use dsh_xlink::migration::sources::{
    preview_migration, LegacySource, MigrationItemPreview, ScanFacts, SourceFacts,
};
use dsh_xlink::migration::steps::{plan_restore, plan_steps, FileStep};
use dsh_xlink::paths::join;

/// The old home lies inside the new one.
const HOME: &str = "/base";
const LEGACY: &str = "/base/legacy";

/// Files in memory: their contents, and when they were last changed. A backup
/// is known by its name, even with nothing in it.
#[derive(Default)]
struct Disk {
    files: BTreeMap<String, (String, i128)>,
    backups: Vec<String>,
}

impl Disk {
    fn write(&mut self, path: &str, content: &str, modified: i128) {
        self.files.insert(path.to_string(), (content.to_string(), modified));
    }

    fn read(&self, path: &str) -> Option<&str> {
        self.files.get(path).map(|f| f.0.as_str())
    }

    /// The names of the files directly in a directory.
    fn names_in(&self, dir: &str) -> Vec<String> {
        let head = format!("{dir}/");
        self.files
            .keys()
            .filter_map(|p| p.strip_prefix(&head))
            .filter(|n| !n.contains('/'))
            .map(|n| n.to_string())
            .collect()
    }

    fn holds(&self, dir: &str) -> bool {
        let head = format!("{dir}/");
        self.files.keys().any(|p| p.starts_with(&head))
    }

    fn meta(&self, path: &str) -> Option<EntryMeta> {
        self.files.get(path).map(|f| EntryMeta { is_dir: false, modified: f.1 })
    }

    fn take(&mut self, step: &FileStep) {
        match step {
            FileStep::Copy { from, to } => {
                let file = self.files[from].clone();
                self.files.insert(to.clone(), file);
            }
            FileStep::Merge { from, to } => {
                let merged = merge_store_manifest(&self.files[from].0, &self.files[to].0);
                if let Ok(merged) = merged {
                    self.files.insert(to.clone(), (merged, 0));
                }
            }
            FileStep::Remove { path, .. } => {
                self.files.remove(path);
            }
            FileStep::Move { from, to, .. } => {
                let file = self.files.remove(from).expect("something to move");
                self.files.insert(to.clone(), file);
            }
        }
    }

    fn found(&self, source: LegacySource) -> SourceFacts {
        let dir = source.path(LEGACY);
        let files = self
            .names_in(&dir)
            .iter()
            .map(|n| self.files[&join(&dir, n)].0.len() as u64)
            .collect::<Vec<_>>();
        SourceFacts {
            exists: !files.is_empty(),
            is_dir: true,
            files,
            target_exists: self.holds(&source.target(HOME)),
        }
    }

    fn migrate_item(
        &mut self,
        item: &MigrationItemPreview,
        policy: ConflictPolicy,
        root: &str,
    ) -> MoveFacts {
        let target_exists = self.holds(&item.target_path);
        let mut entries = Vec::new();
        for name in self.names_in(&item.source_path) {
            let facts = EntryFacts {
                source: self.meta(&join(&item.source_path, &name)),
                target_exists: self.meta(&join(&item.target_path, &name)).is_some(),
                target: self.meta(&join(&item.target_path, &name)),
            };
            let decision = plan_entry(item.source, &name, &facts, policy);
            for step in plan_steps(item, &name, decision, root, target_exists) {
                self.take(&step);
            }
            entries.push(EntryRecord {
                name: Some(name),
                facts,
                backup_error: None,
                copy_error: None,
                merged: true,
            });
        }
        let source_exists = !entries.is_empty();
        MoveFacts { source_exists, target_exists, create_error: None, entries: Ok(entries) }
    }

    fn run_migration(&mut self, policy: ConflictPolicy) -> MigrationReport {
        let id = next_migration_id(1_700_000_000, 7);
        let taken = self.backups.clone();
        let root = backup_root_for(HOME, &id, &taken).expect("a free name");
        self.backups.push(root.rsplit('/').next().expect("a name").to_string());
        let (mut run, _) =
            run_migration_with_progress(HOME, id, &taken, None).expect("the move begins");
        assert_eq!(run.backup_root, root);
        let found = ScanFacts {
            plugins: self.found(LegacySource::Plugins),
            skills_store: self.found(LegacySource::SkillsStore),
            skills_active: self.found(LegacySource::SkillsActive),
        };
        for item in &preview_migration(&found, LEGACY, HOME).items {
            run.begin_item();
            let facts = self.migrate_item(item, policy, &root);
            run.finish_item(migrate_one(item, policy, &root, &facts));
        }
        run_migration(run)
    }

    fn restore(&mut self, source: LegacySource, root: &str) -> RestoreFacts {
        let from = join(root, source.backup_key());
        let to = source.target(HOME);
        let mut entries = Vec::new();
        for name in self.names_in(&from) {
            let target_there = self.meta(&join(&to, &name)).is_some();
            for step in plan_restore(&to, &from, &name, false, target_there) {
                self.take(&step);
            }
            entries.push(RestoreRecord {
                quoted_name: format!("{name:?}"),
                name,
                is_dir: false,
                target_there,
                meta_error: None,
                restore_error: None,
            });
        }
        RestoreFacts { found: !entries.is_empty(), entries: Ok(entries), create_error: None }
    }

    fn rollback(&mut self, id: &str) -> RollbackReport {
        let names = self.backups.clone();
        let mut facts = Vec::new();
        for name in check_rollback(id, &names).expect("a backup") {
            let root = format!("{HOME}/backups/{name}");
            facts.push(RollbackFacts {
                plugins: self.restore(LegacySource::Plugins, &root),
                skills_store: self.restore(LegacySource::SkillsStore, &root),
                skills_active: self.restore(LegacySource::SkillsActive, &root),
            });
        }
        rollback_migration(id, HOME, &names, &facts).expect("rollback")
    }
}

#[test]
fn run_migration_does_not_remove_legacy_source() {
    let mut disk = Disk::default();
    let store = join(&LegacySource::Plugins.path(LEGACY), "store.json");
    disk.write(&store, "{}", 1);

    disk.run_migration(ConflictPolicy::SkipIfNewer);
    assert_eq!(disk.read(&store), Some("{}"), "旧源必须保留——回滚路径依赖它");
    assert_eq!(disk.read("/base/dsh-plugins/store.json"), Some("{}"));
}

#[test]
fn rollback_preserves_legacy_source() {
    let mut disk = Disk::default();
    let legacy = join(&LegacySource::Plugins.path(LEGACY), "from-old.txt");
    disk.write(&legacy, "x", 100);
    disk.write(&join(&LegacySource::Plugins.target(HOME), "from-old.txt"), "y", 40);

    let report = disk.run_migration(ConflictPolicy::BackupAndOverwrite);
    disk.rollback(&report.migration_id);
    assert_eq!(disk.read(&legacy), Some("x"), "rollback 不能改旧源");
}

#[test]
fn rollback_restores_backup_after_target_was_overwritten_by_user() {
    let mut disk = Disk::default();
    let legacy = join(&LegacySource::Plugins.path(LEGACY), "shared.txt");
    let target = join(&LegacySource::Plugins.target(HOME), "shared.txt");
    disk.write(&legacy, "from-old", 100);
    disk.write(&target, "from-new", 40);

    let report = disk.run_migration(ConflictPolicy::BackupAndOverwrite);
    assert_eq!(disk.read(&target), Some("from-old"));
    disk.write(&target, "user-changed", 200);

    let rb = disk.rollback(&report.migration_id);
    assert_eq!(
        disk.read(&target),
        Some("from-new"),
        "rollback 必须按 backup 内容覆盖用户的最新修改——回滚语义就是回到迁移前"
    );
    assert_eq!(rb.items[0].status, RollbackStatus::Restored);
    assert_eq!(rb.items[0].files_restored, 1);
    assert!(rb.items[0].error.is_none());
    for item in &rb.items[1..] {
        assert_eq!(item.status, RollbackStatus::NotFound);
        assert_eq!(item.files_restored, 0);
    }
    assert_eq!(disk.read(&legacy), Some("from-old"));
}

#[test]
fn the_latest_of_two_backups_decides() {
    let mut disk = Disk::default();
    let target = join(&LegacySource::SkillsActive.target(HOME), "f");
    disk.write(&join(&LegacySource::SkillsActive.path(LEGACY), "f"), "source", 1);
    disk.write(&target, "first", 1);
    let one = disk.run_migration(ConflictPolicy::BackupAndOverwrite);
    disk.write(&target, "second", 1);
    let two = disk.run_migration(ConflictPolicy::BackupAndOverwrite);
    assert_eq!(one.migration_id, two.migration_id);
    assert_ne!(one.backup_root, two.backup_root);

    let rb = disk.rollback(&one.migration_id);
    assert_eq!(rb.items.len(), 6);
    assert_eq!(rb.items[2].status, RollbackStatus::Restored);
    assert_eq!(rb.items[5].status, RollbackStatus::Restored);
    assert_eq!(disk.read(&target), Some("second"));
}
