use dsh_xlink::instance::{
    allocate_port, delete_instance_dirs, ensure_instance_dirs, instance_root_for_display,
    load_or_migrate, load_record_from_disk, load_registry, load_runtime, read_pid, read_port,
    resolve_default, save_record_to_disk, shell_default_instance_key, write_pid, write_port,
    InstanceLock, InstanceRecord, InstanceRegistry, InstanceRuntime, InstanceStatus,
    RegistryError, StateRead, CURRENT_INSTANCE_SCHEMA_VERSION, CURRENT_REGISTRY_SCHEMA_VERSION,
    DEFAULT_PORT_BASE, DEFAULT_PORT_CEILING, KERNEL_FAMILY_DSH,
};
use dsh_xlink::paths::{validate_id_component, ShellMode};

fn sample_record(id: &str, port: u16, family: &str) -> InstanceRecord {
    InstanceRecord::new("/xlink", id, family, port, 1700000000000)
}

#[test]
fn load_registry_returns_default_when_missing() {
    let registry = load_registry(StateRead::Missing).expect("missing is OK");
    assert_eq!(registry.schema_version, CURRENT_REGISTRY_SCHEMA_VERSION);
    assert!(registry.instances.is_empty());
    assert!(registry.default_instance_id.is_none());
}

#[test]
fn save_and_load_registry_round_trips() {
    let mut registry = InstanceRegistry::default();
    registry
        .add(sample_record("default", 3090, KERNEL_FAMILY_DSH))
        .expect("add default");
    registry
        .add(sample_record("work", 3091, KERNEL_FAMILY_DSH))
        .expect("add work");
    registry.default_instance_id = Some("work".to_string());

    let restored = load_registry(StateRead::Loaded(registry)).expect("load");
    assert_eq!(restored.instances.len(), 2);
    assert_eq!(restored.default_instance_id.as_deref(), Some("work"));
    assert_eq!(restored.get("work").map(|r| r.port), Some(3091));
}

#[test]
fn registries_that_cannot_be_used_are_told() {
    let newer = InstanceRegistry {
        schema_version: 2,
        default_instance_id: None,
        instances: vec![],
    };
    let error = load_registry(StateRead::Loaded(newer)).expect_err("newer form");
    assert_eq!(
        error.message(),
        "实例注册表 schema 版本 2 高于当前实现支持的 1，请升级 dsh-xlink"
    );
    let error = load_registry(StateRead::Corrupt { reason: "bad".into() }).expect_err("corrupt");
    assert_eq!(error.message(), "实例注册表已损坏（bad）");
    assert_eq!(RegistryError::Serialize("x".into()).message(), "序列化注册表失败：x");
    assert_eq!(RegistryError::Io("x".into()).message(), "写入注册表失败：x");
    let fallback =
        load_or_migrate(StateRead::Corrupt { reason: "bad".into() }, "/x", Some("1"), 3090, 7);
    assert!(fallback.instances.is_empty());
}

#[test]
fn the_older_layout_becomes_the_default_instance() {
    let registry = load_or_migrate(StateRead::Missing, "/x", Some("0.1.5"), 3095, 7);
    assert_eq!(registry.instances.len(), 1);
    let record = &registry.instances[0];
    assert_eq!(record.id, "default");
    assert_eq!(record.kernel_family, "dsh");
    assert_eq!(record.kernel_version.as_deref(), Some("0.1.5"));
    assert_eq!(record.port, 3095);
    assert_eq!(record.workspace, "/x/kernels/dsh/instances/default/workspace");
    assert!(load_or_migrate(StateRead::Missing, "/x", None, 3095, 7).instances.is_empty());
    let kept = load_or_migrate(StateRead::Loaded(registry), "/x", Some("9"), 1, 8);
    assert_eq!(kept.instances[0].port, 3095);
}

#[test]
fn records_that_climb_are_not_written() {
    let record = |profile: &str, workspace: &str| InstanceRecord {
        schema_version: CURRENT_INSTANCE_SCHEMA_VERSION,
        id: "default".to_string(),
        kernel_family: KERNEL_FAMILY_DSH.to_string(),
        kernel_version: None,
        profile: profile.to_string(),
        port: 3090,
        workspace: workspace.to_string(),
        created_at_ms: 0,
        label: None,
    };
    assert!(save_record_to_disk(&record("web", "/tmp/a..b")).is_ok());
    assert!(save_record_to_disk(&record("../x", "/tmp")).is_err());
    assert!(save_record_to_disk(&record("web", "/tmp/../etc")).is_err());
    assert!(save_record_to_disk(&record("web", "C:\\a\\..\\b")).is_err());
}

#[test]
fn registry_rejects_duplicate_id() {
    let mut registry = InstanceRegistry::default();
    registry
        .add(sample_record("alpha", 3090, KERNEL_FAMILY_DSH))
        .expect("first add");
    let error = registry
        .add(sample_record("alpha", 3091, KERNEL_FAMILY_DSH))
        .expect_err("duplicate should be rejected");
    assert!(error.contains("实例 id 已存在"), "实际：{error}");
}

#[test]
fn registry_rejects_path_traversal_id() {
    let mut registry = InstanceRegistry::default();
    for bad in ["..", "a/b", "", "CON"] {
        let record = InstanceRecord {
            schema_version: CURRENT_INSTANCE_SCHEMA_VERSION,
            id: bad.to_string(),
            kernel_family: KERNEL_FAMILY_DSH.to_string(),
            kernel_version: None,
            profile: "web".to_string(),
            port: 3090,
            workspace: String::new(),
            created_at_ms: 0,
            label: None,
        };
        let result = registry.add(record);
        assert!(result.is_err(), "非法 id {bad:?} 应被拒绝");
        assert!(registry.instances.is_empty(), "{bad:?} 不应进入注册表");
    }
}

#[test]
fn ids_are_single_components() {
    for bad in [".", "a\\b", "con.txt", "LPT1", "com9.log", "a b", "é", "Nul"] {
        assert!(validate_id_component(bad).is_err(), "{bad:?}");
    }
    for good in ["default", "a.b-c_D9", "CONSOLE", "LPT0", "COM10", ".hidden"] {
        assert!(validate_id_component(good).is_ok(), "{good:?}");
    }
}

#[test]
fn removing_undoes_adding() {
    let mut registry = InstanceRegistry::default();
    registry.add(sample_record("a", 1, "dsh")).unwrap();
    registry.add(sample_record("b", 2, "dsh")).unwrap();
    assert_eq!(registry.index_of("b"), Some(1));
    let gone = registry.remove("b").unwrap();
    assert_eq!(gone.port, 2);
    assert_eq!(registry.index_of("b"), None);
    assert_eq!(registry.index_of("a"), Some(0));
    assert!(registry.remove("b").is_none());
    registry.get_mut("a").unwrap().port = 7;
    assert_eq!(registry.get("a").unwrap().port, 7);
    assert!(registry.get_mut("zzz").is_none());
    assert!(registry.is_compatible());
}

#[test]
fn allocate_port_avoids_used() {
    let used = vec![3090u16, 3091, 3092];
    let port = allocate_port(DEFAULT_PORT_BASE, DEFAULT_PORT_CEILING, &used).unwrap();
    assert_eq!(port, 3093, "应跳过 3090/3091/3092 命中下一个可用值");
}

#[test]
fn allocate_port_returns_none_when_exhausted() {
    let mut used = Vec::new();
    for p in DEFAULT_PORT_BASE..DEFAULT_PORT_BASE + 5 {
        used.push(p);
    }
    assert!(allocate_port(DEFAULT_PORT_BASE, DEFAULT_PORT_BASE + 5, &used).is_none());
    assert!(allocate_port(5, 5, &vec![]).is_none());
    assert!(allocate_port(6, 5, &vec![]).is_none());
    assert_eq!(allocate_port(65534, 65535, &vec![]), Some(65534));
}

#[test]
fn instance_lock_acquire_release() {
    let (lock, content) =
        InstanceLock::acquire(KERNEL_FAMILY_DSH, "default", 42, "test-owner").expect("lock");
    assert_eq!(content, "42 test-owner\n");
    assert_eq!(lock.family(), "dsh");
    assert_eq!(lock.id(), "default");
    assert!(InstanceLock::acquire(KERNEL_FAMILY_DSH, "..", 42, "test-owner").is_err());
}

#[test]
fn pid_record_handles_old_and_new_format() {
    let text = write_pid(12345, 3090);
    let pid = read_pid(Some(&text)).expect("read pid");
    assert_eq!(pid.pid, 12345);
    assert_eq!(pid.port, Some(3090));
    let legacy = read_pid(Some("77\n")).expect("legacy");
    assert_eq!(legacy.pid, 77);
    assert_eq!(legacy.port, None);
    assert!(read_pid(None).is_none());
    assert!(read_pid(Some("x")).is_none());
}

#[test]
fn a_port_is_read_back() {
    assert_eq!(read_port(Some(&write_port(3090))), Some(3090));
    assert_eq!(read_port(Some("65536")), None);
    assert_eq!(read_port(Some("")), None);
    assert_eq!(read_port(None), None);
}

#[test]
fn ensure_dirs_creates_dsh_home_layout() {
    let record = sample_record("default", 3090, KERNEL_FAMILY_DSH);
    let dirs = ensure_instance_dirs("/xlink", &record).expect("ensure dirs");
    let home_dir = "/xlink/kernels/dsh/instances/default";
    for sub in ["home", "workspace", "runtime"] {
        assert!(dirs.contains(&format!("{home_dir}/{sub}")), "缺子目录：{sub}");
    }
    for sub in ["profiles", "sessions", "storages", "attachments/v1", "logs"] {
        assert!(dirs.contains(&format!("{home_dir}/home/{sub}")), "缺 DSH 子目录：{sub}");
    }
    assert_eq!(dirs.len(), 8);
    assert_eq!(delete_instance_dirs("/xlink", &record), Ok(home_dir.to_string()));
    assert_eq!(instance_root_for_display("/xlink", "dsh", "default"), home_dir);
}

#[test]
fn save_record_round_trip() {
    let record = InstanceRecord {
        schema_version: CURRENT_INSTANCE_SCHEMA_VERSION,
        id: "default".to_string(),
        kernel_family: KERNEL_FAMILY_DSH.to_string(),
        kernel_version: Some("0.1.5-rc.1".to_string()),
        profile: "web".to_string(),
        port: 3090,
        workspace: "/tmp/workspace".to_string(),
        created_at_ms: 1700000000000,
        label: Some("默认实例".to_string()),
    };
    save_record_to_disk(&record).expect("save");
    let restored = load_record_from_disk(Some(record.clone())).expect("load");
    assert_eq!(restored.kernel_version.as_deref(), Some("0.1.5-rc.1"));
    assert_eq!(restored.label.as_deref(), Some("默认实例"));
    let mut newer = record;
    newer.schema_version = 2;
    assert!(load_record_from_disk(Some(newer)).is_none());
    assert!(load_record_from_disk(None).is_none());
}

#[test]
fn runtime_round_trip() {
    let missing = load_runtime(None);
    assert_eq!(missing.status, InstanceStatus::Stopped);

    let mut runtime = InstanceRuntime::stopped(1700000000000);
    runtime.status = InstanceStatus::Running;
    runtime.pid = Some(12345);
    runtime.port = Some(3090);
    runtime.started_at_ms = Some(1700000000000);
    let restored = load_runtime(Some(runtime));
    assert_eq!(restored.status, InstanceStatus::Running);
    assert_eq!(restored.pid, Some(12345));
    assert_eq!(restored.port, Some(3090));

    let mut newer = InstanceRuntime::stopped(5);
    newer.schema_version = 2;
    newer.status = InstanceStatus::Running;
    assert_eq!(load_runtime(Some(newer)).status, InstanceStatus::Stopped);
}

#[test]
fn defaults_of_an_instance() {
    assert_eq!(resolve_default(), ("dsh", "default"));
    let record = sample_record("work", 3091, "dsh");
    assert_eq!(record.workspace, "/xlink/kernels/dsh/instances/work/workspace");
    assert_eq!(record.profile, "web");
    assert_eq!(record.kernel_version, None);
    assert!(record.is_compatible());
    assert_eq!(shell_default_instance_key(ShellMode::Dev), "dev::default");
    assert_eq!(shell_default_instance_key(ShellMode::Release), "release::default");
}
