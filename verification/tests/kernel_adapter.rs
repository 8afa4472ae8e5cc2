use dsh_xlink::instance::{InstanceRecord, KERNEL_FAMILY_DSH};
use dsh_xlink::kernel_adapter::{
    adapters, lookup, resolve_install_root, AdapterCapabilities, AdapterCapability, AdapterError,
    DshAdapter, InstancePlan, KernelAdapter, LaunchFacts, LaunchPlan, McodeAdapter, PreparedFiles,
};

const HOME: &str = "/xlink";

fn sample_record() -> InstanceRecord {
    InstanceRecord::new(HOME, "default", KERNEL_FAMILY_DSH, 3090, 1700000000000)
}

fn nothing_there() -> PreparedFiles {
    PreparedFiles { package_json: false, workspace_yml: false, patch_yml: false }
}

fn ready() -> LaunchFacts {
    LaunchFacts { bin_ready: true, profile_ready: true, windows: false }
}

#[test]
fn adapter_capabilities_round_trip() {
    let caps = AdapterCapabilities::from_iter(&[
        AdapterCapability::InstallVersion,
        AdapterCapability::ProfileWiring,
    ]);
    assert!(caps.contains(AdapterCapability::InstallVersion));
    assert!(caps.contains(AdapterCapability::ProfileWiring));
    assert!(!caps.contains(AdapterCapability::HotReload));
    assert_eq!(
        caps.list(),
        vec![
            AdapterCapability::InstallVersion,
            AdapterCapability::ProfileWiring,
        ]
    );
}

#[test]
fn capabilities_have_names() {
    assert_eq!(AdapterCapability::InstallVersion.as_str(), "install-version");
    assert_eq!(AdapterCapability::ProfileWiring.as_str(), "profile-wiring");
    assert_eq!(AdapterCapability::DshHomeEnv.as_str(), "dsh-home-env");
    assert_eq!(AdapterCapability::HotReload.as_str(), "hot-reload");
}

#[test]
fn dsh_adapter_declares_expected_capabilities() {
    let adapter = DshAdapter;
    let caps = adapter.capabilities();
    assert!(caps.contains(AdapterCapability::InstallVersion));
    assert!(caps.contains(AdapterCapability::ProfileWiring));
    assert!(caps.contains(AdapterCapability::DshHomeEnv));
    assert!(!caps.contains(AdapterCapability::HotReload));
}

#[test]
fn lookup_finds_dsh() {
    let adapter = lookup(KERNEL_FAMILY_DSH).expect("dsh adapter");
    assert_eq!(adapter.family(), KERNEL_FAMILY_DSH);
    assert!(lookup("does-not-exist").is_none());
}

#[test]
fn validate_version_rejects_empty() {
    let adapter = DshAdapter;
    assert!(adapter.validate_version("").is_err());
    assert!(adapter.validate_version("0.1.5-rc.1").is_ok());
    assert!(adapter.validate_version("v1.2.3").is_ok());
}

#[test]
fn resolve_install_dir_returns_none_when_missing() {
    let adapter = DshAdapter;
    assert!(adapter.resolve_install_dir(HOME, "/legacy", "0.1.5", false, false).is_none());
    assert!(adapter.resolve_install_dir(HOME, "/legacy", "..", true, true).is_none());
    assert_eq!(
        adapter.resolve_install_dir(HOME, "/legacy", "0.1.5", true, true).as_deref(),
        Some("/xlink/kernels/dsh/versions/0.1.5")
    );
    assert_eq!(
        adapter.resolve_install_dir(HOME, "/legacy", "0.1.5", false, true).as_deref(),
        Some("/legacy/kernels/0.1.5")
    );
}

#[test]
fn sets_of_capabilities_are_their_members() {
    let a = AdapterCapabilities::from_iter(&[
        AdapterCapability::HotReload,
        AdapterCapability::InstallVersion,
        AdapterCapability::HotReload,
    ]);
    let b = AdapterCapabilities::from_iter(&[
        AdapterCapability::InstallVersion,
        AdapterCapability::HotReload,
    ]);
    assert_eq!(a, b);
    assert_eq!(AdapterCapabilities::from_iter(&a.list()), a);
    assert_eq!(AdapterCapabilities::from_iter(&[]), AdapterCapabilities::none());
}

#[test]
fn prepare_instance_creates_dsh_home_layout() {
    let adapter = DshAdapter;
    let mut record = sample_record();
    record.kernel_version = Some("0.1.5-rc.1".into());
    let plan = adapter.prepare_instance(HOME, &record, &nothing_there()).expect("prepare");

    let dsh_home = DshAdapter::dsh_home_for(HOME, &record);
    assert_eq!(dsh_home, "/xlink/kernels/dsh/instances/default/home");
    let paths: Vec<&str> = plan.files.iter().map(|f| f.path.as_str()).collect();
    assert_eq!(
        paths,
        vec![
            "/xlink/kernels/dsh/instances/default/home/profiles/web/package.json",
            "/xlink/kernels/dsh/instances/default/home/profiles/web/pnpm-workspace.yaml",
            "/xlink/kernels/dsh/instances/default/home/cordis.patch.yml",
        ]
    );
    let text = &plan.files[0].content;
    assert!(text.contains("kernel_family"));
    assert!(text.contains("schema_version"));
    let parsed: serde_json::Value = serde_json::from_str(text).unwrap();
    assert_eq!(parsed["name"], "dsh-xlink-instance-default");
    assert_eq!(parsed["private"], true);
    assert_eq!(parsed["version"], "0.0.0");
    assert_eq!(parsed["schema_version"], 1);
    assert_eq!(parsed["kernel_family"], "dsh");
    assert!(text.starts_with("{\n  \""), "indented: {text}");
    assert!(text.ends_with("}\n"));
    assert_eq!(plan.files[1].content, "packages:\n  - .\n");
    assert_eq!(
        plan.files[2].content,
        "# dsh-xlink managed cordis patch\nschema_version: 1\n"
    );
    assert_eq!(
        plan.dirs.last().map(String::as_str),
        Some("/xlink/kernels/dsh/instances/default/home/profiles/web")
    );
    let present = PreparedFiles { package_json: true, workspace_yml: true, patch_yml: true };
    assert!(adapter.prepare_instance(HOME, &record, &present).unwrap().files.is_empty());
}

#[test]
fn prepare_instance_refuses_what_is_no_component() {
    let mut record = sample_record();
    record.profile = "a/b".into();
    let err = DshAdapter.prepare_instance(HOME, &record, &nothing_there()).expect_err("profile");
    assert!(matches!(&err, AdapterError::InvalidProfile(p) if p == "a/b"));
    assert_eq!(err.message(), "profile 名非法：\"a/b\"");
    let mut record = sample_record();
    record.id = "..".into();
    let err = DshAdapter.prepare_instance(HOME, &record, &nothing_there()).expect_err("id");
    assert!(matches!(err, AdapterError::Io(_)));
}

#[test]
fn resolve_install_root_falls_back_to_legacy() {
    let mut record = sample_record();
    record.kernel_version = Some("0.1.5-rc.1".into());
    let resolved = resolve_install_root(HOME, &record, "/legacy", false, true)
        .expect("legacy fallback should hit");
    assert_eq!(resolved, "/legacy/kernels/0.1.5-rc.1");
    let resolved = resolve_install_root(HOME, &record, "/legacy", true, true).unwrap();
    assert_eq!(resolved, "/xlink/kernels/dsh/versions/0.1.5-rc.1");
}

#[test]
fn resolve_install_root_errors_when_missing() {
    let mut record = sample_record();
    record.kernel_version = Some("0.1.5-rc.1".into());
    let err = resolve_install_root(HOME, &record, "/legacy", false, false).expect_err("should miss");
    match err {
        AdapterError::VersionNotInstalled { family, version } => {
            assert_eq!(family, KERNEL_FAMILY_DSH);
            assert_eq!(version, "0.1.5-rc.1");
        }
        other => panic!("unexpected: {other:?}"),
    }
}

#[test]
fn start_rejects_missing_binary() {
    let adapter = DshAdapter;
    let mut record = sample_record();
    record.kernel_version = Some("0.1.5-rc.1".into());
    let facts = LaunchFacts { bin_ready: false, profile_ready: true, windows: false };
    let err = adapter.start(HOME, &record, "/empty", &facts).expect_err("应拒绝");
    match err {
        AdapterError::VersionNotInstalled { .. } => {}
        other => panic!("unexpected: {other:?}"),
    }
    let facts = LaunchFacts { bin_ready: true, profile_ready: false, windows: false };
    let err = adapter.start(HOME, &record, "/empty", &facts).expect_err("应拒绝");
    assert!(matches!(
        err,
        AdapterError::InvalidProfile(m) if m == "实例 default 的 profile web 目录尚未准备好"
    ));
}

#[test]
fn start_launches_in_the_workspace() {
    let record = sample_record();
    let plan = DshAdapter.start(HOME, &record, "/root", &ready()).unwrap();
    assert_eq!(
        plan.args,
        vec![
            "/root/node_modules/@deepseek-ai/dsh/lib/bin.js",
            "web",
            "--no-open",
            "--port",
            "3090",
        ]
    );
    assert_eq!(plan.workspace, "/xlink/kernels/dsh/instances/default/workspace");
    assert_eq!(plan.env.len(), 3);
    assert_eq!(plan.env[0].0, "DSH_HOME");
    assert_eq!(plan.env[0].1, "/xlink/kernels/dsh/instances/default/home");
    assert_eq!(plan.env[1], ("DSH_PROFILE".to_string(), "web".to_string()));
    assert_eq!(
        plan.env[2],
        ("DSH_CUSTOM_SKILL_DIRS".to_string(), "/xlink/skills/active".to_string())
    );
}

struct MinimalAdapter;

impl KernelAdapter for MinimalAdapter {
    fn family(&self) -> &'static str {
        KERNEL_FAMILY_DSH
    }
    fn capabilities(&self) -> AdapterCapabilities {
        AdapterCapabilities::none()
    }
    fn display_name(&self) -> &'static str {
        "minimal"
    }
    fn resolve_install_dir(&self, _: &str, _: &str, _version: &str, _: bool, _: bool) -> Option<String> {
        None
    }
    fn validate_version(&self, _version: &str) -> Result<(), String> {
        Ok(())
    }
    fn prepare_instance(
        &self,
        _: &str,
        _record: &InstanceRecord,
        _: &PreparedFiles,
    ) -> Result<InstancePlan, AdapterError> {
        Ok(InstancePlan { dirs: vec![], files: vec![] })
    }
    fn start(
        &self,
        _: &str,
        _record: &InstanceRecord,
        _install_root: &str,
        _: &LaunchFacts,
    ) -> Result<LaunchPlan, AdapterError> {
        Err(AdapterError::Io("unused".into()))
    }
}

#[test]
fn custom_skill_dirs_default_returns_empty_for_minimal_adapter() {
    assert!(MinimalAdapter.custom_skill_dirs(HOME).is_empty());
}

#[test]
fn dsh_adapter_custom_skill_dirs_returns_skills_active_root() {
    let dirs = DshAdapter.custom_skill_dirs(HOME);
    assert_eq!(dirs.len(), 1);
    assert_eq!(dirs[0], "/xlink/skills/active");
}

#[test]
fn adapters_returns_both_dsh_and_mcode() {
    let mut adapters = adapters();
    adapters.sort_by(|a, b| a.family().cmp(b.family()));
    let families: Vec<_> = adapters.iter().map(|a| a.family()).collect();
    assert_eq!(families, vec!["dsh", "mcode"]);
}

#[test]
fn lookup_finds_mcode() {
    let adapter = lookup("mcode").expect("mcode adapter must be registered");
    assert_eq!(adapter.family(), "mcode");
    assert_eq!(adapter.display_name(), "Mcode (mock)");
}

#[test]
fn mcode_adapter_declares_no_capabilities() {
    let caps = McodeAdapter.capabilities();
    assert!(caps.list().is_empty(), "mock 不应声明任何能力位");
}

#[test]
fn mcode_adapter_resolve_install_dir_returns_none() {
    assert!(McodeAdapter.resolve_install_dir(HOME, "/legacy", "0.1.0", true, true).is_none());
}

#[test]
fn mcode_adapter_prepare_instance_rejects_as_unsupported() {
    let mut record = sample_record();
    record.kernel_family = "mcode".into();
    record.kernel_version = Some("0.1.0".into());
    let err = McodeAdapter
        .prepare_instance(HOME, &record, &nothing_there())
        .expect_err("mock 不应真准备");
    match err {
        AdapterError::VersionNotInstalled { .. } => {}
        other => panic!("unexpected: {other:?}"),
    }
}

#[test]
fn mcode_adapter_start_rejects_as_unsupported() {
    let mut record = sample_record();
    record.kernel_family = "mcode".into();
    record.kernel_version = Some("0.1.0".into());
    let err = McodeAdapter
        .start(HOME, &record, "/empty", &ready())
        .expect_err("mock 不应真启动");
    match err {
        AdapterError::VersionNotInstalled { .. } => {}
        other => panic!("unexpected: {other:?}"),
    }
}

#[test]
fn mcode_adapter_custom_skill_dirs_returns_empty() {
    assert!(McodeAdapter.custom_skill_dirs(HOME).is_empty());
}

#[test]
fn dsh_and_mcode_have_distinct_family_strings() {
    assert_ne!(McodeAdapter.family(), DshAdapter.family());
}

#[test]
fn adapter_errors_tell_what_is_wrong() {
    let e = AdapterError::VersionNotInstalled { family: "dsh".into(), version: "1".into() };
    assert_eq!(e.message(), "内核族 dsh 的版本 1 未安装或安装不完整");
    assert_eq!(
        AdapterError::PortBusy { port: 3090, owner_pid: Some(7) }.message(),
        "端口 3090 已被无关进程占用（pid 7）"
    );
    assert_eq!(
        AdapterError::PortBusy { port: 3090, owner_pid: None }.message(),
        "端口 3090 已被无关进程占用"
    );
    assert_eq!(
        AdapterError::NativeModuleMissing { package: "p".into(), relative: "r".into() }.message(),
        "内核依赖的原生模块未构建完成：p（缺 r）"
    );
    assert_eq!(AdapterError::Io("x".into()).message(), "I/O 错误：x");
    assert_eq!(AdapterError::Pnpm("x".into()).message(), "pnpm 启动失败：x");
    assert_eq!(AdapterError::Unsupported("x".into()).message(), "适配器不支持该操作：x");
    assert_eq!(AdapterError::InvalidProfile("a\"b".into()).message(), "profile 名非法：\"a\\\"b\"");
}
