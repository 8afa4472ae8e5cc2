use dsh_xlink::kernel::command_cache::{get, put};
use dsh_xlink::kernel::install::{
    format_native_modules_error, install_args, install_log_spec, install_version,
    install_version_into, rotate_install_logs, smoke_load_native_modules,
    smoke_load_probe_script, smoke_load_targets, stub_package, verify_native_modules, ExitInfo,
    InstallAction, InstallEvent, LogFile,
};
use dsh_xlink::kernel::process::{
    command_is_kernel, kill_pid, launch_args, lsof_working_dir, parse_netstat_listener_pid,
    pid_is_kernel, port_listen_pid, port_listener_identity, process_command, process_state,
    read_pid_record, reap_orphans, recorded_kernel_port, start, start_maybe, start_outcome,
    stop,
    workbench_pid, workbench_running, write_pid, KernelEvidence, KillAction, KillEvent,
    ListenerIdentity, PidRecord, ProcessState, StartPlan,
};
use dsh_xlink::kernel::sources::{
    frontend_dist_dir, is_javascript, materialize_missing_source_maps, source_map_path, Script, StoreEntry, EMPTY_SOURCE_MAP,
};
use dsh_xlink::kernel::versions::{
    active_file, data_dir, dirs_home, display_short, ellipsize_middle, incident_path, kernel_dir, list_installed, read_active, set_active, status,
    uninstall, with_active, write_active, StatusFacts, VersionEntry,
};

const NETSTAT_SAMPLE: &str = "\
活动连接

  协议  本地地址          外部地址        状态           PID
  TCP    127.0.0.1:30900        0.0.0.0:0              LISTENING       9001
  TCP    127.0.0.1:3090         0.0.0.0:0              LISTENING       4242
  TCP    127.0.0.1:3090         127.0.0.1:51000        ESTABLISHED     4242
  TCP    127.0.0.1:51000        127.0.0.1:3090         ESTABLISHED     7777
  TCP    [::1]:3090             [::]:0                 LISTENING       4242
  UDP    127.0.0.1:3090         *:*                                    5555
";

fn strings(items: &[&str]) -> Vec<String> {
    items.iter().map(|s| s.to_string()).collect()
}

#[test]
fn kernel_command_identity_accepts_real_forms_and_rejects_near_misses() {
    assert!(command_is_kernel(
        "/usr/local/bin/node /Users/u/.dsh/desktop/kernels/0.1.5/lib/node_modules/@deepseek-ai/dsh/lib/bin.js --port 3090"
    ));
    assert!(command_is_kernel(
        r"C:\nodejs\node.exe C:\Users\u\.dsh\desktop\kernels\0.1.5\node_modules\@DeepSeek-AI\dsh\lib\bin.js --port 3090"
    ));
    assert!(!command_is_kernel(
        "/usr/bin/node /p/node_modules/@deepseek-ai/dsh-tools/lib/bin.js"
    ));
    assert!(!command_is_kernel("/usr/bin/python3 -m http.server 3090"));
    assert!(!command_is_kernel(""));
}

#[test]
fn netstat_parser_does_not_confuse_a_longer_port() {
    assert_eq!(parse_netstat_listener_pid(NETSTAT_SAMPLE, 3090), Some(4242));
    assert_eq!(
        parse_netstat_listener_pid(NETSTAT_SAMPLE, 30900),
        Some(9001)
    );
}

#[test]
fn netstat_parser_ignores_non_listening_and_foreign_address_matches() {
    let only_established = "\
  协议  本地地址          外部地址        状态           PID
  TCP    127.0.0.1:51000        127.0.0.1:3090         ESTABLISHED     7777
";
    assert_eq!(parse_netstat_listener_pid(only_established, 3090), None);

    let only_udp = "\
  协议  本地地址          外部地址        状态           PID
  UDP    127.0.0.1:3090         *:*                                    5555
";
    assert_eq!(parse_netstat_listener_pid(only_udp, 3090), None);
}

#[test]
fn netstat_parser_accepts_ipv6_loopback_and_empty_output() {
    let ipv6 = "\
  TCP    [::1]:3091             [::]:0                 LISTENING       321
";
    assert_eq!(parse_netstat_listener_pid(ipv6, 3091), Some(321));
    assert_eq!(parse_netstat_listener_pid("", 3090), None);
    assert_eq!(
        parse_netstat_listener_pid("  协议  本地地址  外部地址  状态  PID\n", 3090),
        None
    );
}

#[test]
fn creates_empty_maps_only_for_missing_javascript_source_map_references() {
    let script = |name: &str, source: &str| Script {
        path: format!("/root/assets/{name}"),
        source: source.to_string(),
    };
    let scripts = vec![
        script(
            "index.js",
            "console.log('workbench');\n//# sourceMappingURL=index.js.map\n",
        ),
        script("already.js", "//# sourceMappingURL=already.js.map\n"),
        script(
            "inline.js",
            "//# sourceMappingURL=data:application/json;base64,AAAA\n",
        ),
        script("escape.js", "//# sourceMappingURL=../../outside.js.map\n"),
    ];
    let present = strings(&["/root/assets/already.js.map"]);
    let created = materialize_missing_source_maps(&scripts, &present, "/root", false);

    assert_eq!(created, strings(&["/root/assets/index.js.map"]));
    assert_eq!(
        EMPTY_SOURCE_MAP,
        r#"{"version":3,"sources":[],"names":[],"mappings":""}"#
    );
}

#[test]
fn finds_frontend_dist_in_pnpm_layout_and_strips_version_prefix() {
    let entries = vec![
        StoreEntry { name: "@deepseek-ai+dsh@0.1.2-alpha.1".into(), has_dist: true },
        StoreEntry {
            name: "@deepseek-ai+dsh-web-frontend@0.1.2-alpha.1_peerhash".into(),
            has_dist: true,
        },
    ];
    assert_eq!(
        frontend_dist_dir("/root", "v0.1.2-alpha.1", false, &entries).as_deref(),
        Some("/root/node_modules/.pnpm/@deepseek-ai+dsh-web-frontend@0.1.2-alpha.1_peerhash/node_modules/@deepseek-ai/dsh-web-frontend/dist")
    );
    assert_eq!(frontend_dist_dir("/root", "v0.1.3", false, &entries), None);
}

fn no_evidence() -> KernelEvidence {
    KernelEvidence {
        record: None,
        record_command: None,
        record_listener: None,
        port_open: false,
        listener: None,
        listener_command: None,
        listener_again: None,
    }
}

#[test]
fn refuses_to_change_active_version_while_workbench_is_serving() {
    let mut evidence = no_evidence();
    evidence.record = Some(PidRecord { pid: 77, port: Some(3090) });
    evidence.record_command =
        Some("sh -c sleep 30; : @deepseek-ai/dsh/lib/bin.js web --port 3090".into());
    let running = workbench_running(&evidence, 0);
    assert!(running);

    let error =
        set_active(running, 0, true, "0.1.2").expect_err("running workbench must block switch");

    assert!(error
        .message()
        .contains("请先点击「关闭工作台」停止工作台后再切换内核"));
}

#[test]
fn switching_active_version_is_allowed_when_only_an_unrelated_listener_holds_the_port() {
    let mut evidence = no_evidence();
    evidence.port_open = true;
    evidence.listener = Some(12);
    evidence.listener_command = Some("/usr/bin/python3 -m http.server 3090".into());
    evidence.listener_again = Some(12);
    let running = workbench_running(&evidence, 3090);
    let error =
        set_active(running, 3090, false, "0.1.2").expect_err("missing version must still fail");
    let text = error.message();
    assert!(
        !text.contains("工作台正在启动或运行"),
        "无关监听者不应阻止切换内核，实际：{text}"
    );
    assert!(
        text.contains("未安装"),
        "应当因为版本未安装而失败，实际：{text}"
    );
}

#[test]
fn display_short_substitutes_home_with_tilde() {
    assert_eq!(display_short("/home/u/.dsh/desktop", "/home/u"), "~/.dsh/desktop");
}

#[test]
fn display_short_falls_back_to_full_path_outside_home() {
    let outside = "/custom/redirect/.dsh/desktop";
    assert_eq!(display_short(outside, "/home/u"), outside);
}

#[test]
fn an_empty_home_leaves_the_root() {
    assert_eq!(display_short("/a/b", ""), "~//a/b");
    assert_eq!(display_short("//a/./b//", ""), "~///a/./b");
    assert_eq!(display_short("/", ""), "~//");
    assert_eq!(display_short("a/b", ""), "~/a/b");
    assert_eq!(display_short("", ""), "~");
    assert_eq!(display_short("/a/b", "/"), "~/a/b");
}

#[test]
fn display_short_keeps_tilde_only_when_path_equals_home() {
    assert_eq!(display_short("/home/u", "/home/u"), "~");
}

#[test]
fn verify_native_modules_flags_missing_fs_ext_binary() {
    let missing = verify_native_modules(&strings(&["fs-ext"]), &vec![]).expect_err("应报告缺失");
    assert!(
        missing.iter().any(|(pkg, _)| pkg == "fs-ext"),
        "missing list 必须包含 fs-ext：{:?}",
        missing
    );
    let rendered = format_native_modules_error(&missing, "/root/install.log");
    assert!(rendered.contains("fs-ext"), "渲染文案：{rendered}");
    assert!(
        rendered.contains("设置"),
        "应提示到设置页安装运行时：{rendered}"
    );
}

#[test]
fn verify_native_modules_passes_when_binary_exists() {
    verify_native_modules(
        &strings(&["fs-ext"]),
        &strings(&["fs-ext/build/Release/fs_ext.node"]),
    )
    .expect("fs_ext.node 在位时必须通过");
}

#[test]
fn verify_native_modules_passes_when_node_addon_system_present_and_fs_ext_absent() {
    verify_native_modules(
        &strings(&["@deepseek-ai/node-addon-system-darwin-x64"]),
        &strings(&["@deepseek-ai/node-addon-system-darwin-x64/bin/system.node"]),
    )
    .expect("fs-ext 缺席但 node-addon-system prebuild 就位时必须通过");
}

#[test]
fn verify_native_modules_flags_missing_node_addon_system_binary() {
    let missing = verify_native_modules(
        &strings(&["@deepseek-ai/node-addon-system-darwin-x64"]),
        &vec![],
    )
    .expect_err("应报告缺失");
    assert!(
        missing
            .iter()
            .any(|(pkg, _)| pkg == "@deepseek-ai/node-addon-system-darwin-x64"),
        "missing list 必须包含 node-addon-system-darwin-x64：{:?}",
        missing
    );
    let rendered = format_native_modules_error(&missing, "/root/install.log");
    assert!(
        rendered.contains("node-addon-system"),
        "渲染文案：{rendered}"
    );
    assert!(
        !rendered.contains("Node 25"),
        "不应把 Node 版本建议强加给 node-addon-system 缺失：{rendered}"
    );
}

#[test]
fn format_native_modules_error_combines_hints_for_both_families() {
    let log = "/tmp/dsh-install-test.log";
    let missing = vec![
        ("fs-ext".to_string(), "build/Release/fs_ext.node"),
        (
            "@deepseek-ai/node-addon-system-linux-x64".to_string(),
            "bin/system.node",
        ),
    ];
    let rendered = format_native_modules_error(&missing, log);
    assert!(rendered.contains("设置"), "应给出 Node 24 建议：{rendered}");
    assert!(
        rendered.contains("optionalDependencies"),
        "应给出 node-addon-system 重试建议：{rendered}"
    );
    let settings_pos = rendered.find("设置").unwrap();
    let optional_pos = rendered.find("optionalDependencies").unwrap();
    assert!(
        settings_pos < optional_pos,
        "Node 建议应排在 node-addon-system 建议之前：{rendered}"
    );
}

#[test]
fn smoke_load_probe_script_requires_real_native_loading() {
    let script = smoke_load_probe_script();
    assert!(
        script.contains("require.resolve"),
        "探针必须先 require.resolve 再 require：{script}"
    );
    assert!(
        script.contains("\n    require(t);") || script.contains("\n    require("),
        "探针必须对每个目标真实 require 一次（不是仅解析）：{script}"
    );
    let targets = smoke_load_targets();
    assert!(!targets.is_empty(), "SMOKE_LOAD_TARGETS 不能为空");
    assert!(
        targets.contains(&"@deepseek-ai/dsh-session-persistence-jsonl".to_string()),
        "探针目标里必须包含 dsh-session-persistence-jsonl：{:?}",
        targets
    );
    assert!(
        script.contains("PROBE-FAIL"),
        "缺少 PROBE-FAIL 约定：{script}"
    );
    assert!(
        script.contains("process.exit(2)"),
        "缺少 exit(2) 约定：{script}"
    );
    assert!(script.contains("[\"@deepseek-ai/dsh-fs-local\",\"@deepseek-ai/dsh-subprocess-local\""));
}

#[test]
fn smoke_load_native_modules_fails_when_target_unresolved() {
    let captured = strings(&[
        "PROBE-FAIL @deepseek-ai/dsh-fs-local UNRESOLVED MODULE_NOT_FOUND",
        "PROBE-FAIL-COUNT 11/11",
    ]);
    let result =
        smoke_load_native_modules(&Ok(ExitInfo { success: false, code: Some(2) }), &captured);
    assert!(
        result.is_err(),
        "空内核目录必须被探针报错：captured={captured:?}"
    );
    let err = result.unwrap_err();
    assert!(err.contains("探针"), "错误文案应当提到探针：{err}");
    assert!(err.contains("Node 探针报告内核依赖无法加载"));
}

#[test]
fn smoke_load_native_modules_invokes_node() {
    let script = match install_version_into(
        InstallEvent::NativeListed { installed: vec![], built: vec![] },
        "/logs/install.log",
    )
    .action
    {
        InstallAction::Probe(script) => script,
        other => panic!("{other:?}"),
    };
    assert!(script.contains("PROBE-"));
}

#[test]
fn unrelated_listener_on_the_port_is_not_a_running_workbench() {
    let mut evidence = no_evidence();
    evidence.port_open = true;
    evidence.listener = Some(12);
    evidence.listener_command = Some("/target/debug/deps/dsh_xlink-0".into());
    evidence.listener_again = Some(12);
    assert!(
        !workbench_running(&evidence, 3090),
        "无关进程占用的端口不能被判成正在运行的工作台"
    );
    let shown = status(StatusFacts {
        entries: vec![],
        active_content: None,
        active_bin: false,
        running: workbench_running(&evidence, 3090),
        port: 3090,
        data_dir: "/d".into(),
        home: "/home/u".into(),
        settings_warning: None,
    });
    assert!(!shown.running, "状态快照同样不能把无关监听者报成运行中");

    let error = start_maybe(3090, true, false, Some(12), None)
        .expect_err("端口被无关进程占用时必须报错，而不是静默认为已在运行");
    assert!(
        error.message().contains("已被其它进程占用"),
        "错误信息应说明端口冲突，实际：{}",
        error.message()
    );
}

#[test]
fn failed_fresh_install_leaves_no_half_built_version() {
    let step = install_version_into(
        InstallEvent::PnpmEnded { ran: Err("No such file".into()), bin_ready: false },
        "/logs/install.log",
    );
    match step.action {
        InstallAction::Finish(Err(error)) => assert!(!error.message().is_empty()),
        other => panic!("pnpm 不存在时必须失败：{other:?}"),
    }
    assert!(install_version(true, false), "失败的全新安装不得留下半成品目录");
    assert!(!install_version(true, true));
    assert!(!install_version(false, false));
    assert!(list_installed(&vec![]).is_empty(), "半成品不得出现在已安装列表里");
}

#[test]
fn stale_pid_record_is_not_a_running_workbench() {
    let mut evidence = no_evidence();
    assert!(
        !workbench_running(&evidence, 0),
        "没有 pid 记录时不应报告工作台在运行"
    );
    evidence.record = read_pid_record(Some(&write_pid(u32::MAX, 3090)));
    assert_eq!(evidence.record, Some(PidRecord { pid: u32::MAX, port: Some(3090) }));
    assert!(
        !workbench_running(&evidence, 0),
        "陈旧的 pid 记录不能被判成正在运行的工作台"
    );
}

#[test]
fn pid_record_carries_the_start_port_and_accepts_the_legacy_format() {
    let written = write_pid(4321, 3091);
    assert_eq!(
        read_pid_record(Some(&written)),
        Some(PidRecord {
            pid: 4321,
            port: Some(3091)
        })
    );
    assert_eq!(recorded_kernel_port(Some(&written)), Some(3091));

    assert_eq!(
        read_pid_record(Some("4321\n")),
        Some(PidRecord {
            pid: 4321,
            port: None
        })
    );
    assert_eq!(recorded_kernel_port(Some("4321\n")), None);

    assert_eq!(read_pid_record(Some("not-a-pid\n")), None);
    assert_eq!(read_pid_record(None), None);
}

#[test]
fn process_state_distinguishes_gone_from_unknown() {
    assert_eq!(
        process_state(&Some((true, "/bin/sh -c sleep 5\n".into()))),
        ProcessState::Alive,
        "活着的子进程"
    );
    assert_eq!(
        process_state(&Some((false, String::new()))),
        ProcessState::Gone,
        "已回收的 pid"
    );
    assert_eq!(process_state(&None), ProcessState::Unknown);
    assert!(stop(5, ProcessState::Alive).is_err());
    assert!(stop(5, ProcessState::Gone).is_ok());
    assert!(stop(5, ProcessState::Unknown).is_ok());
}

#[test]
fn recorded_port_mismatch_is_not_our_workbench() {
    let command = "/bin/sh -c sleep 5; true @deepseek-ai/dsh/lib/bin.js --port 45231";
    let pid = 4000;
    assert!(pid_is_kernel(pid, None, Some(command), None));
    assert!(
        !pid_is_kernel(pid, Some(45232), Some(command), None),
        "端口不一致必须被拒绝"
    );

    let mut evidence = no_evidence();
    evidence.record_command = Some(command.into());
    evidence.record = read_pid_record(Some(&write_pid(pid, 45232)));
    assert!(
        !workbench_running(&evidence, 0),
        "记录端口与内核实际端口不一致时不得认领"
    );

    evidence.record = read_pid_record(Some(&write_pid(pid, 45231)));
    assert_eq!(workbench_pid(&evidence, 0), Some(pid));
}

#[test]
fn a_listener_is_named_by_its_command() {
    assert_eq!(port_listener_identity(None, Some("x")), ListenerIdentity::Unknown);
    assert_eq!(port_listener_identity(Some(1), None), ListenerIdentity::Unknown);
    assert_eq!(port_listener_identity(Some(1), Some("x")), ListenerIdentity::NotKernel);
    assert_eq!(
        port_listener_identity(Some(1), Some("node a/@deepseek-ai/dsh/lib/bin.js")),
        ListenerIdentity::Kernel
    );
    assert_eq!(port_listen_pid(Some("4242\n"), None), Some(4242));
    assert_eq!(process_command(Some((true, "a b\n".into()))).as_deref(), Some("a b\n"));
    assert_eq!(process_command(Some((true, " \n".into()))), None);
    assert_eq!(process_command(Some((false, "a".into()))), None);
    assert_eq!(process_command(None), None);
    assert_eq!(lsof_working_dir("p12\nfcwd\nn/data/x\n").as_deref(), Some("/data/x"));
}

#[test]
fn a_stop_waits_and_then_kills() {
    let looked = |polls: u32, alive: bool| {
        kill_pid(12, Some(3090), &KillEvent::Looked { polls, alive })
    };
    assert_eq!(looked(0, true), KillAction::Wait);
    assert_eq!(looked(9, true), KillAction::Wait);
    assert_eq!(looked(10, true), KillAction::Kill);
    assert_eq!(looked(3, false), KillAction::Done);
    let e = stop(12, ProcessState::Alive).unwrap_err();
    assert!(e.message().contains("无法停止内核进程 12："));
}

#[test]
fn a_process_that_is_not_the_kernel_is_left_alone() {
    let known = |port: Option<u16>, command: Option<&str>, listener: Option<u32>| {
        kill_pid(
            12,
            port,
            &KillEvent::Identified { command: command.map(|c| c.to_string()), listener },
        )
    };
    let kernel = "node /a/@deepseek-ai/dsh/lib/bin.js web --no-open --port 3090";
    assert_eq!(known(Some(3090), Some(kernel), Some(12)), KillAction::Terminate);
    assert_eq!(known(Some(3090), Some(kernel), None), KillAction::Terminate);
    assert_eq!(known(None, Some(kernel), Some(13)), KillAction::Terminate);
    assert_eq!(known(Some(3090), Some(kernel), Some(13)), KillAction::Leave);
    assert_eq!(known(Some(3091), Some(kernel), Some(12)), KillAction::Leave);
    assert_eq!(known(None, Some("/usr/bin/vim"), None), KillAction::Leave);
    assert_eq!(known(None, None, None), KillAction::Leave);
}

#[test]
fn a_kernel_that_does_not_come_up_is_reported() {
    assert!(start_outcome(None, None).is_ok());
    let spawn = start_outcome(Some("ENOENT"), None).unwrap_err();
    assert_eq!(spawn.message(), "I/O 错误：无法启动内核：ENOENT");
    let logs = start_outcome(None, Some("EACCES")).unwrap_err();
    assert_eq!(logs.message(), "I/O 错误：无法接管内核日志：EACCES");
}

#[test]
fn a_command_line_is_remembered_for_three_seconds() {
    let mut cache = None;
    put(&mut cache, 7, 1000, &None);
    assert!(cache.is_none());
    put(&mut cache, 7, 1000, &Some("node".to_string()));
    assert_eq!(get(&cache, 7, 3999).as_deref(), Some("node"));
    assert_eq!(get(&cache, 7, 4000), None);
    assert_eq!(get(&cache, 8, 1001), None);
    put(&mut cache, 7, 2000, &None);
    assert_eq!(get(&cache, 7, 3999).as_deref(), Some("node"));
}

#[test]
fn a_kernel_is_started_on_a_free_port() {
    let args = start("/k/bin.js", true, false, "0.1.2", 3090).unwrap();
    assert_eq!(args, launch_args("/k/bin.js", 3090));
    assert!(args.contains(&"--port".to_string()) && args.contains(&"3090".to_string()));
    assert!(start("/k/bin.js", false, false, "0.1.2", 3090).is_err());
    assert!(start("/k/bin.js", true, true, "0.1.2", 3090).is_err());
    assert!(matches!(start_maybe(3090, true, true, None, None), Ok(StartPlan::AlreadyServing)));
    assert!(matches!(
        start_maybe(3090, false, false, None, Some("0.1.2".into())),
        Ok(StartPlan::Start(v)) if v == "0.1.2"
    ));
    let e = start_maybe(3090, false, false, None, None).unwrap_err();
    assert!(e.message().contains("尚未选择内核版本"));
}

#[test]
fn orphans_are_kernels_of_other_processes() {
    let list = "  10 node /a/@deepseek-ai/dsh/lib/bin.js web --port 1\n  11 bash\n  12 node /a/@deepseek-ai/dsh/lib/bin.js web --port 2\n  13 node /a/@deepseek-ai/dsh/lib/bin.js\n";
    assert_eq!(reap_orphans(list, 12), vec![10]);
}

#[test]
fn a_version_directory_counts_by_what_is_in_it() {
    let entry = |name: &str, is_dir: bool| VersionEntry {
        name: name.to_string(),
        is_dir,
        bin_size: 5,
    };
    let mut installed =
        list_installed(&vec![entry("0.1.2", true), entry("note.txt", false), entry("0.1.10", true)]);
    let names: Vec<&str> = installed.iter().map(|v| v.version.as_str()).collect();
    assert_eq!(names.len(), 2);
    assert!(!names.contains(&"note.txt"));
    with_active(&mut installed, Some("0.1.10"));
    assert!(installed.iter().all(|v| v.active == (v.version == "0.1.10")));
    assert_eq!(read_active(Some(" 0.1.2\n".into())).as_deref(), Some("0.1.2"));
    assert_eq!(read_active(Some("  ".into())), None);
    assert!(write_active(None).is_none());
    assert!(write_active(Some("0.1.2")).unwrap().starts_with("0.1.2"));
    assert!(uninstall(Some("0.1.2"), "0.1.2", true).is_err());
    assert!(uninstall(Some("0.1.3"), "0.1.2", true).is_ok());
    assert!(set_active(false, 3090, true, "0.1.2").is_ok());
}

#[test]
fn the_data_directory_has_fixed_places() {
    assert_eq!(dirs_home(Some("/home/u".into()), Some("C:/u".into())), "/home/u");
    assert_eq!(dirs_home(None, Some("C:/u".into())), "C:/u");
    assert_eq!(dirs_home(None, None), ".");
    assert_eq!(kernel_dir("/d", "0.1.2"), "/d/kernels/0.1.2");
    assert!(active_file("/d").starts_with("/d/"));
    assert_eq!(incident_path("/d"), "/d/last-incident.json");
    assert_eq!(data_dir(None, None, "/home/u", "desktop"), "/home/u/.dsh/desktop");
    assert!(is_javascript("a.mjs") && is_javascript("a.js") && is_javascript("a.cjs"));
    assert!(!is_javascript("a.js.map") && !is_javascript(".js"));
}

#[test]
fn long_paths_are_cut_in_the_middle() {
    assert_eq!(ellipsize_middle("short", 38), "short");
    let cut = ellipsize_middle(&"x".repeat(100), 38);
    assert_eq!(cut, format!("{}…{}", "x".repeat(15), "x".repeat(23)));
    assert_eq!(ellipsize_middle("/abc/def/ghi/jkl", 10), "/…/jkl");
    assert_eq!(
        data_dir(Some("/d".into()), Some("/h".into()), "/home/u", "desktop"),
        "/d"
    );
}

#[test]
fn an_install_ends_well_by_the_probe_alone() {
    let log = "/logs/install.log";
    let ok = || ExitInfo { success: true, code: Some(0) };
    assert!(matches!(
        install_version_into(InstallEvent::PnpmEnded { ran: Ok(ok()), bin_ready: true }, log).action,
        InstallAction::ListNative
    ));
    assert!(matches!(
        install_version_into(InstallEvent::PnpmEnded { ran: Ok(ok()), bin_ready: false }, log).action,
        InstallAction::Finish(Err(_))
    ));
    assert!(matches!(
        install_version_into(
            InstallEvent::NativeListed { installed: strings(&["fs-ext"]), built: vec![] },
            log
        )
        .action,
        InstallAction::Finish(Err(_))
    ));
    let last = install_version_into(InstallEvent::Probed { ran: Ok(ok()), lines: vec![] }, log);
    assert!(matches!(last.action, InstallAction::Finish(Ok(()))));
    assert_eq!(last.progress, strings(&["内核安装成功"]));
    let failed = install_version_into(
        InstallEvent::Probed {
            ran: Ok(ExitInfo { success: false, code: Some(-3) }),
            lines: vec![],
        },
        log,
    );
    match failed.action {
        InstallAction::Finish(Err(e)) => assert!(e.message().contains("Node 探针以退出码 -3 结束")),
        other => panic!("{other:?}"),
    }
}

#[test]
fn the_stub_package_is_named_after_its_version() {
    assert_eq!(
        stub_package("0.1.2"),
        "{\"name\":\"dsh-kernel-0_1_2\",\"private\":true,\"version\":\"1.0.0\"}\n"
    );
    let begun = install_version_into(
        InstallEvent::Begun { prefix: "/k/0.1.2".into(), version: "0.1.2".into() },
        "/logs/install.log",
    );
    assert_eq!(begun.progress.len(), 1);
    match begun.action {
        InstallAction::RunPnpm { stub, args } => {
            assert_eq!(stub, stub_package("0.1.2"));
            assert_eq!(args, install_args("/k/0.1.2", "0.1.2"));
        }
        other => panic!("{other:?}"),
    }
    let args = install_args("/k/0.1.2", "0.1.2");
    assert_eq!(args[0], "add");
    assert_eq!(args.last().unwrap(), "@deepseek-ai/dsh@0.1.2");
}

#[test]
fn source_maps_do_not_climb_by_backslashes() {
    let at = |reference: &str, windows: bool| {
        source_map_path("/root/a/x.js", reference, "/root", windows)
    };
    assert_eq!(at("..\\m.map", true).as_deref(), Some("/root/m.map"));
    assert_eq!(at("..\\..\\m.map", true), None);
    assert_eq!(at("C:m.map", true), None);
    assert_eq!(at("m.map", false).as_deref(), Some("/root/a/m.map"));
}

#[test]
fn old_install_logs_are_dropped() {
    let mut files: Vec<LogFile> = (0..12u64)
        .map(|i| LogFile { name: format!("install-{i}.log"), modified: i })
        .collect();
    files.push(LogFile { name: "pnpm-install-1.log".into(), modified: 0 });
    files.push(LogFile { name: "kernel.log".into(), modified: 0 });
    let dropped = rotate_install_logs(&files, "install-11.log");
    assert!(!dropped.contains(&"install-11.log".to_string()));
    assert!(!dropped.contains(&"pnpm-install-1.log".to_string()));
    assert_eq!(dropped, vec!["install-1.log".to_string(), "install-0.log".to_string()]);
    let nine: Vec<LogFile> = (0..9u64)
        .map(|i| LogFile { name: format!("install-{i}.log"), modified: i })
        .collect();
    assert!(rotate_install_logs(&nine, "install-x.log").is_empty());
    assert!(rotate_install_logs(&vec![], "x").is_empty());
    let spec = install_log_spec("dsh", "0.1.2");
    assert!(spec.path_for("/logs", "20260101").starts_with("/logs"));
}
