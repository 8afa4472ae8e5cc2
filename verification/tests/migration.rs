use dsh_xlink::migration::history::{
    backup_root_for, check_rollback, collect_source_keys, epoch_to_ymdhms, find_backup_roots,
    list_migrations, migration_name, moment_at, next_migration_id, parse_backup_dir_name,
    rollback_migration, rollback_one, BackupFacts, Civil, DirEntry, RestoreFacts, RestoreRecord,
    RollbackFacts, RollbackStatus,
};
use dsh_xlink::migration::manifest::{is_store_manifest, merge_store_manifest, ManifestError};
use dsh_xlink::migration::run::{
    backup_path_for, decide_entry, migrate_one, plan_entry, run_migration,
    run_migration_with_progress, ConflictPolicy, EntryDecision, EntryFacts, EntryMeta,
    EntryRecord, MigrationItemReport, MigrationStatus, MoveFacts,
};
use dsh_xlink::migration::steps::{plan_restore, plan_steps, FileStep};
use dsh_xlink::paths::skills_active_root;
use dsh_xlink::migration::sources::{
    clear_migration_skipped, is_migration_skipped, preview_migration, scan_legacy_sources, set_migration_skipped,
    skip_state_file, LegacySource, MigrationItemPreview, MigrationSkip, ScanFacts, SourceFacts,
};

const LEGACY: &str = "/home/u/.dsh";
const HOME: &str = "/home/u/.xlink";

fn absent() -> SourceFacts {
    SourceFacts { exists: false, is_dir: false, files: vec![], target_exists: false }
}

fn present(files: &[u64], target_exists: bool) -> SourceFacts {
    SourceFacts { exists: true, is_dir: true, files: files.to_vec(), target_exists }
}

fn preview_of(files: &[u64], target_exists: bool) -> MigrationItemPreview {
    let facts = ScanFacts {
        plugins: present(files, target_exists),
        skills_store: absent(),
        skills_active: absent(),
    };
    let mut preview = preview_migration(&facts, LEGACY, HOME);
    let at = preview.items.iter().position(|i| i.source == LegacySource::Plugins).unwrap();
    preview.items.remove(at)
}

fn file(modified: i128) -> Option<EntryMeta> {
    Some(EntryMeta { is_dir: false, modified })
}

fn entry(name: &str, facts: EntryFacts, merged: bool) -> EntryRecord {
    EntryRecord {
        name: Some(name.to_string()),
        facts,
        backup_error: None,
        copy_error: None,
        merged,
    }
}

fn moved(target_exists: bool, entries: Vec<EntryRecord>) -> MoveFacts {
    MoveFacts { source_exists: true, target_exists, create_error: None, entries: Ok(entries) }
}

fn nothing_to_restore() -> RestoreFacts {
    RestoreFacts { found: false, entries: Ok(vec![]), create_error: None }
}

fn restore(names: &[&str]) -> RestoreFacts {
    RestoreFacts {
        found: true,
        entries: Ok(names
            .iter()
            .map(|n| RestoreRecord {
                name: n.to_string(),
                is_dir: false,
                target_there: true,
                quoted_name: format!("{n:?}"),
                meta_error: None,
                restore_error: None,
            })
            .collect()),
        create_error: None,
    }
}

#[test]
fn scan_legacy_sources_does_not_create_directories() {
    let facts = ScanFacts { plugins: absent(), skills_store: absent(), skills_active: absent() };
    let infos = scan_legacy_sources(&facts, LEGACY, HOME);
    assert_eq!(infos.len(), 3, "必须扫全 3 个旧来源");
    for info in &infos {
        assert!(!info.exists, "{} 不应存在", info.source.display_name());
        assert_eq!(info.file_count, 0);
        assert_eq!(info.total_bytes, 0);
    }
}

#[test]
fn scan_legacy_sources_counts_existing_files() {
    let facts = ScanFacts {
        plugins: present(&[3, 1, 3], false),
        skills_store: absent(),
        skills_active: absent(),
    };
    let infos = scan_legacy_sources(&facts, LEGACY, HOME);
    let plugins_info = infos
        .iter()
        .find(|i| i.source == LegacySource::Plugins)
        .expect("plugins info");
    assert!(plugins_info.exists);
    assert_eq!(plugins_info.file_count, 3);
    assert_eq!(plugins_info.total_bytes, 7);
    for other in infos.iter().filter(|i| i.source != LegacySource::Plugins) {
        assert!(!other.exists, "{} 必须不存在", other.source.display_name());
    }
}

#[test]
fn preview_migration_reports_target_paths_and_existing_flags() {
    let facts = ScanFacts {
        plugins: present(&[1], false),
        skills_store: present(&[1], false),
        skills_active: present(&[1], false),
    };
    let preview = preview_migration(&facts, LEGACY, HOME);
    assert!(preview.has_migratable(), "至少有一条可迁移来源");
    assert_eq!(preview.items.len(), 3);
    for item in &preview.items {
        assert!(item.file_count >= 1);
        assert!(item.total_bytes >= 1);
        assert!(
            !item.target_exists,
            "{} 的目标 {} 在全新 home 下不应存在",
            item.display_name,
            item.target_path
        );
        assert_eq!(item.source_path, item.source.path(LEGACY));
        assert_eq!(item.target_path, item.source.target(HOME));
    }
}

#[test]
fn legacy_source_target_matches_new_layout_paths() {
    let cases = [
        (LegacySource::Plugins, format!("{HOME}/dsh-plugins")),
        (LegacySource::SkillsStore, format!("{HOME}/skills/packages")),
        (LegacySource::SkillsActive, skills_active_root(HOME)),
    ];
    for (source, expected) in cases {
        assert_eq!(
            source.target(HOME),
            expected,
            "{:?} 的目标路径必须与新布局一致",
            source
        );
    }
}

#[test]
fn preview_reports_target_conflicts_when_new_layout_already_present() {
    let plugins_item = preview_of(&[1], true);
    assert!(
        plugins_item.target_exists,
        "新布局 dsh-plugins 已存在，preview 必须如实报告"
    );
}

#[test]
fn run_migration_copies_old_plugins_into_new_layout() {
    let id = next_migration_id(1_700_000_000, 0xABCDEF12);
    assert!(id.starts_with("Auto"));
    let root = backup_root_for(HOME, &id, &vec![]).unwrap();
    let item = preview_of(&[8, 3], false);
    let free = || EntryFacts { source: file(1), target_exists: false, target: None };
    let facts = moved(
        false,
        vec![
            entry("store.json", free(), false),
            entry("pkg-a", EntryFacts { source: Some(EntryMeta { is_dir: true, modified: 1 }), ..free() }, false),
        ],
    );
    let plugins_item = migrate_one(&item, ConflictPolicy::SkipIfNewer, &root, &facts);
    assert_eq!(plugins_item.status, MigrationStatus::Copied);
    assert!(plugins_item.files_copied >= 2);
    assert!(plugins_item.error.is_none());

    let refused = run_migration_with_progress(HOME, id.clone(), &vec![], Some("denied"));
    assert_eq!(
        refused.unwrap_err().message(),
        format!("I/O 错误：无法创建备份目录 {root}：denied")
    );
    let (mut run, first) =
        run_migration_with_progress(HOME, id.clone(), &vec![], None).expect("begin");
    assert_eq!(first.step, 0);
    assert_eq!(first.total, 3);
    let begun = run.begin_item();
    assert_eq!(begun.source_label, LegacySource::Plugins.display_name());
    let done = run.finish_item(plugins_item);
    assert_eq!(done.step, 1);
    for source in [LegacySource::SkillsStore, LegacySource::SkillsActive] {
        assert_eq!(run.begin_item().source_label, source.display_name());
        let done = run.finish_item(MigrationItemReport {
            source,
            source_path: source.path(LEGACY),
            target_path: source.target(HOME),
            backup_path: None,
            files_copied: 0,
            files_skipped: 0,
            status: MigrationStatus::Skipped,
            error: None,
        });
        assert_eq!(done.stage, "已跳过");
    }
    let report = run_migration(run);
    assert_eq!(report.migration_id, id);
    assert_eq!(report.backup_root, root);
    assert!(report.items.iter().any(|i| i.source == LegacySource::Plugins));
}

#[test]
fn run_migration_skips_sources_with_no_migratable_content() {
    let facts = ScanFacts {
        plugins: present(&[], false),
        skills_store: present(&[], false),
        skills_active: present(&[], false),
    };
    let preview = preview_migration(&facts, LEGACY, HOME);
    assert_eq!(preview.items.len(), 3);
    let reports: Vec<MigrationItemReport> = preview
        .items
        .iter()
        .map(|item| migrate_one(item, ConflictPolicy::SkipIfNewer, "/b", &moved(false, vec![])))
        .collect();
    for item in &reports {
        assert_eq!(item.status, MigrationStatus::Skipped);
        assert_eq!(item.files_copied, 0);
    }
}

#[test]
fn run_migration_skip_if_newer_preserves_existing_target_with_newer_mtime() {
    let item = preview_of(&[11], true);
    let newer = EntryFacts { source: file(100), target_exists: true, target: file(110) };
    let plugins_item = migrate_one(
        &item,
        ConflictPolicy::SkipIfNewer,
        "/b",
        &moved(true, vec![entry("from-old.txt", newer, false)]),
    );
    assert_eq!(plugins_item.status, MigrationStatus::Copied);
    assert!(plugins_item.files_skipped >= 1, "目标比源新，必须跳过");
    assert_eq!(plugins_item.files_copied, 0);
}

#[test]
fn run_migration_merges_store_manifest_instead_of_skip_or_overwrite() {
    let newer = EntryFacts { source: file(40), target_exists: true, target: file(100) };
    assert!(is_store_manifest(LegacySource::Plugins, "store.json"));
    assert_eq!(
        plan_entry(LegacySource::Plugins, "store.json", &newer, ConflictPolicy::SkipIfNewer),
        EntryDecision::MergeManifest
    );
    let item = preview_of(&[200], true);
    let plugins_item = migrate_one(
        &item,
        ConflictPolicy::SkipIfNewer,
        "/b",
        &moved(true, vec![entry("store.json", newer, true)]),
    );
    assert_eq!(plugins_item.status, MigrationStatus::Copied);

    let written = merge_store_manifest(
        r#"{"schemaVersion":1,"items":[
                {"id":"shared","name":"shared","origin":"npm"},
                {"id":"only-old","name":"only-old","origin":"npm"}]}"#,
        r#"{"schemaVersion":1,"items":[
                {"id":"shared","name":"shared-renamed","origin":"npm"}],
                "lastCheckedAt":"1"}"#,
    )
    .expect("merge");
    let merged: serde_json::Value =
        serde_json::from_str(&written).expect("merged store.json 必须仍是合法 JSON");
    let items = merged["items"].as_array().expect("items 数组");
    let ids: Vec<&str> = items.iter().filter_map(|i| i["id"].as_str()).collect();
    assert_eq!(ids.len(), 2, "合并后不允许重复条目：{ids:?}");
    assert!(ids.contains(&"only-old"), "源独有条目必须被并入：{ids:?}");
    let shared = items
        .iter()
        .find(|i| i["id"] == "shared")
        .expect("shared 条目");
    assert_eq!(
        shared["name"], "shared-renamed",
        "目标已有条目必须原样保留，不被源覆盖"
    );
    assert_eq!(merged["lastCheckedAt"], "1", "目标清单其它顶层字段原样保留");
}

#[test]
fn run_migration_backup_and_overwrite_moves_old_target_under_backups() {
    let item = preview_of(&[8], true);
    let older = EntryFacts { source: file(100), target_exists: true, target: file(40) };
    assert_eq!(
        decide_entry(&older, ConflictPolicy::BackupAndOverwrite),
        EntryDecision::BackupThenCopy
    );
    let plugins_item = migrate_one(
        &item,
        ConflictPolicy::BackupAndOverwrite,
        "/b",
        &moved(true, vec![entry("shared.txt", older, false)]),
    );
    assert_eq!(
        plugins_item.backup_path.as_deref(),
        Some(backup_path_for("/b", LegacySource::Plugins).as_str()),
        "BackupAndOverwrite 必须记录 backup_path"
    );
    assert_eq!(plugins_item.backup_path.as_deref(), Some("/b/plugins"));
    assert_eq!(plugins_item.files_copied, 1);
}

#[test]
fn run_migration_appends_index_when_backup_root_exists() {
    let id = "Auto20260101-000000-1";
    let r1 = backup_root_for(HOME, id, &vec![]).expect("r1");
    let r2 = backup_root_for(HOME, id, &vec![id.to_string()]).expect("r2");
    let r3 = backup_root_for(HOME, id, &vec![id.to_string(), format!("{id}.2")]).expect("r3");
    assert_ne!(r1, r2);
    assert_eq!(r1, format!("{HOME}/backups/{id}"));
    assert_eq!(r2, format!("{HOME}/backups/{id}.2"));
    assert_eq!(r3, format!("{HOME}/backups/{id}.3"));
}

#[test]
fn rollback_restores_old_target_after_backup_and_overwrite() {
    let facts = RollbackFacts {
        plugins: restore(&["shared.txt"]),
        skills_store: nothing_to_restore(),
        skills_active: nothing_to_restore(),
    };
    let rb = rollback_migration("Auto1", HOME, &vec!["Auto1".into()], &vec![facts])
        .expect("rollback");
    let plugins_item = rb
        .items
        .iter()
        .find(|i| i.source == LegacySource::Plugins)
        .expect("plugins item");
    assert_eq!(plugins_item.status, RollbackStatus::Restored);
    assert_eq!(plugins_item.files_restored, 1);
    assert!(
        plugins_item.error.is_none(),
        "rollback 不该报错：{error:?}",
        error = plugins_item.error
    );
    assert_eq!(plugins_item.target_path, LegacySource::Plugins.target(HOME));
    assert_eq!(plugins_item.backup_path, format!("{HOME}/backups/Auto1/plugins"));
}

#[test]
fn rollback_is_noop_for_items_without_backup() {
    let facts = RollbackFacts {
        plugins: nothing_to_restore(),
        skills_store: nothing_to_restore(),
        skills_active: nothing_to_restore(),
    };
    let rb = rollback_migration("Auto1", HOME, &vec!["Auto1".into()], &vec![facts])
        .expect("rollback");
    assert_eq!(rb.items.len(), 3);
    for item in &rb.items {
        assert_eq!(item.status, RollbackStatus::NotFound);
        assert_eq!(item.files_restored, 0);
    }
}

#[test]
fn rollback_errors_when_migration_id_not_found() {
    let err = check_rollback("never-existed", &vec!["other".into()]).unwrap_err();
    let msg = err.message();
    assert!(
        msg.contains("never-existed"),
        "错误信息必须包含 migration id：{msg}"
    );
}

#[test]
fn rollback_errors_when_migration_id_is_empty() {
    let err = rollback_migration("", HOME, &vec![], &vec![]).unwrap_err();
    assert!(err.message().contains("migration id 不能为空"));
}

fn backup(name: &str, modified: u64, keys: &[&str]) -> BackupFacts {
    BackupFacts {
        name: name.to_string(),
        path: format!("{HOME}/backups/{name}"),
        is_dir: true,
        modified: Some(modified),
        entries: keys.iter().map(|k| DirEntry { name: k.to_string(), is_dir: true }).collect(),
    }
}

#[test]
fn list_migrations_is_empty_when_no_backup_root() {
    let summaries = list_migrations(&vec![]);
    assert!(summaries.is_empty());
}

#[test]
fn list_migrations_collects_root_entries_with_sources() {
    let id = next_migration_id(1_700_000_000, 1);
    let summaries = list_migrations(&vec![backup(&id, 1_700_000_000, &["plugins"])]);
    assert_eq!(summaries.len(), 1);
    let summary = &summaries[0];
    assert!(summary.migration_id.starts_with("Auto"));
    assert!(
        summary.sources.iter().any(|s| s == "plugins"),
        "summary 必须报告 sources 含 plugins：{:?}",
        summary.sources
    );
    assert_eq!(summary.backup_root, format!("{HOME}/backups/{id}"));
    assert!(summary.created_at.is_some());
}

#[test]
fn list_migrations_ignores_dot_indexed_backup_dirs() {
    let id = next_migration_id(1_700_000_000, 1);
    let summaries =
        list_migrations(&vec![backup(&id, 100, &["plugins"]), backup(&format!("{id}.2"), 102, &[])]);
    assert_eq!(summaries.len(), 1, "root + .2 后缀必须只列一次");
    assert_eq!(summaries[0].migration_id, id);
}

#[test]
fn list_migrations_sorts_newest_first() {
    let old = next_migration_id(1_700_000_000, 1);
    let new = next_migration_id(1_700_000_002, 1);
    let summaries = list_migrations(&vec![
        backup(&old, 1_700_000_000, &[]),
        backup(&new, 1_700_000_002, &[]),
    ]);
    assert_eq!(summaries.len(), 2);
    assert_ne!(summaries[0].migration_id, summaries[1].migration_id);
    let a = summaries[0].created_at.as_deref().expect("created_at");
    let b = summaries[1].created_at.as_deref().expect("created_at");
    assert!(a >= b, "最近一次的迁移必须排第一");
    assert_eq!(summaries[0].migration_id, new);
}

#[test]
fn a_moment_is_told_by_the_clock_of_a_place() {
    let c = moment_at(1_700_000_000, Some(0));
    assert_eq!(c, Civil { year: 2023, month: 11, day: 14, hour: 22, minute: 13, second: 20 });
    let east = moment_at(1_700_000_000, Some(8 * 3600));
    assert_eq!((east.day, east.hour), (15, 6));
    let before = moment_at(u64::MAX, Some(0));
    assert_eq!((before.year, before.month, before.second), (1969, 12, 59));
    assert_eq!(moment_at(i64::MAX as u64, Some(0)).year, 1970);
    let here = epoch_to_ymdhms(1_700_000_000);
    assert_eq!((here.year, here.month, here.second), (2023, 11, 20));
    assert_eq!(migration_name(c, 0xab), "Auto20231114-221320-00ab");
}

#[test]
fn backups_are_found_by_number_the_oldest_first() {
    let names = |list: &[&str]| list.iter().map(|n| n.to_string()).collect::<Vec<_>>();
    let there = names(&["a.10", "a.2", "b", "a", "a.02", "a.x", "a.3", "ab.2"]);
    assert_eq!(find_backup_roots("a", &there), names(&["a", "a.2", "a.3", "a.10"]));
    assert_eq!(find_backup_roots("a.2", &there), names(&["a.2"]));
    assert_eq!(find_backup_roots("c", &there), names(&[]));
    assert_eq!(find_backup_roots("a", &names(&["a.2"])), names(&["a.2"]));
    assert_eq!(parse_backup_dir_name("a.2"), Some(("a".into(), false)));
    assert_eq!(parse_backup_dir_name("a"), Some(("a".into(), true)));
    assert_eq!(
        collect_source_keys(&vec![
            DirEntry { name: "plugins".into(), is_dir: true },
            DirEntry { name: "notes".into(), is_dir: false },
        ]),
        vec!["plugins".to_string()]
    );
}

#[test]
fn every_backup_of_a_move_is_put_back() {
    let facts = |files: &[&str]| RollbackFacts {
        plugins: restore(files),
        skills_store: nothing_to_restore(),
        skills_active: nothing_to_restore(),
    };
    let names = vec!["Auto1.2".to_string(), "Auto1".to_string()];
    let rb = rollback_migration("Auto1", HOME, &names, &vec![facts(&["x"]), facts(&["x", "y"])])
        .expect("rollback");
    assert_eq!(rb.backup_root, format!("{HOME}/backups/Auto1"));
    assert_eq!(rb.items.len(), 6);
    assert_eq!(rb.items[0].backup_path, format!("{HOME}/backups/Auto1/plugins"));
    assert_eq!(rb.items[0].files_restored, 1);
    assert_eq!(rb.items[3].backup_path, format!("{HOME}/backups/Auto1.2/plugins"));
    assert_eq!(rb.items[3].files_restored, 2);
}

#[test]
fn times_of_fewer_digits_are_earlier() {
    let summaries = list_migrations(&vec![backup("a", 9, &[]), backup("b", 1_700_000_000, &[])]);
    assert_eq!(summaries[0].migration_id, "b");
}

#[test]
fn what_is_overwritten_is_moved_first_and_comes_back() {
    let item = preview_of(&[8], true);
    let plan = plan_steps(&item, "f", EntryDecision::BackupThenCopy, "/b", true);
    let target = format!("{}/f", item.target_path);
    assert!(matches!(&plan[0], FileStep::Move { from, to, tree: false }
        if *from == target && to == "/b/plugins/f"));
    assert!(matches!(&plan[1], FileStep::Copy { from, to }
        if *from == format!("{}/f", item.source_path) && *to == target));
    assert!(plan_steps(&item, "f", EntryDecision::Skip("no"), "/b", true).is_empty());
    let back = plan_restore(&item.target_path, "/b/plugins", "f", false, true);
    assert!(matches!(&back[0], FileStep::Remove { path, tree: false } if *path == target));
    assert!(matches!(&back[1], FileStep::Move { from, to, tree: false }
        if from == "/b/plugins/f" && *to == target));
    assert_eq!(plan_restore("/t", "/b", "d", true, false).len(), 1);
}

#[test]
fn a_restore_that_loses_an_entry_is_partial() {
    let mut facts = restore(&["a", "b"]);
    if let Ok(entries) = &mut facts.entries {
        entries[1].restore_error = Some("denied".into());
    }
    let (restored, status, error) = rollback_one(&facts);
    assert_eq!(restored, 1);
    assert_eq!(status, RollbackStatus::PartialFailure);
    assert!(error.unwrap().contains("denied"));
    let unreadable =
        RestoreFacts { found: true, entries: Err("io".into()), create_error: None };
    assert_eq!(rollback_one(&unreadable).1, RollbackStatus::Failed);
}

#[test]
fn a_move_that_fails_says_why() {
    let item = preview_of(&[8], false);
    let refused = MoveFacts {
        source_exists: true,
        target_exists: false,
        create_error: Some("denied".into()),
        entries: Ok(vec![]),
    };
    let r = migrate_one(&item, ConflictPolicy::SkipIfNewer, "/b", &refused);
    assert_eq!(r.status, MigrationStatus::Failed);
    assert_eq!(r.error.as_deref(), Some("无法创建目标目录：denied"));
    let free = || EntryFacts { source: file(1), target_exists: false, target: None };
    let mut lost = entry("a", free(), false);
    lost.copy_error = Some("disk full".into());
    let r = migrate_one(
        &item,
        ConflictPolicy::SkipIfNewer,
        "/b",
        &moved(false, vec![lost, entry("b", free(), false)]),
    );
    assert_eq!(r.status, MigrationStatus::PartialFailure);
    assert_eq!(r.files_copied, 1);
}

#[test]
fn a_manifest_that_cannot_be_merged_is_left_alone() {
    assert!(matches!(merge_store_manifest("{}", "nope"), Err(ManifestError::Target(_))));
    assert_eq!(ManifestError::Target("e".into()).message("/s", "/t"), "/t：e");
    assert_eq!(ManifestError::Source("e".into()).message("/s", "/t"), "/s：e");
    assert_eq!(ManifestError::NoItems.message("/s", "/t"), "目标清单缺少 items 数组");
    assert!(matches!(
        merge_store_manifest("nope", "{\"items\":[]}"),
        Err(ManifestError::Source(_))
    ));
    assert!(matches!(
        merge_store_manifest("{\"items\":[]}", "{\"items\":1}"),
        Err(ManifestError::NoItems)
    ));
    assert!(!is_store_manifest(LegacySource::SkillsStore, "other.json"));
}

#[test]
fn a_declined_move_is_remembered() {
    let record = set_migration_skipped(vec![LegacySource::Plugins], 5);
    assert!(is_migration_skipped(&record));
    assert!(!is_migration_skipped(&MigrationSkip { skipped_at_ms: None, sources: vec![] }));
    assert!(skip_state_file("/k").starts_with("/k/"));
    assert!(clear_migration_skipped(false, Some("e")).is_ok());
    assert!(clear_migration_skipped(true, None).is_ok());
    assert_eq!(
        clear_migration_skipped(true, Some("e")).unwrap_err().message(),
        "I/O 错误：无法删除跳过标记：e"
    );
    assert_eq!(LegacySource::all().len(), 3);
    assert_eq!(LegacySource::Plugins.backup_key(), "plugins");
}
