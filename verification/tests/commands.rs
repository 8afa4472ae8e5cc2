use dsh_xlink::commands::harness::{
    bounded_health_text, harness_port_conflict, kernel_running, kernel_workbench_url,
    kernel_workbench_url_from_log, open_harness, replace_child_slot, report_harness_fault,
    check_window_url, window_outcome, workbench_url_responds, ChildPoll, HarnessAction,
    HarnessFacts, UrlAction, UrlEvent,
};
use dsh_xlink::commands::logs::{
    collect_log_entries, compare_log_names, log_sort_key, open_log_window, read_log_file,
    log_window_outcome, validate_log_name, LogFileEntry, LogWindowEnd,
};
use dsh_xlink::commands::shell::{
    add_official_chat_tab, app_err, cached_node, check_version, chrome_backdrop,
    close_official_chat,
    complete_kernel_install, confirm_close_shell, detect_node, focus_main_shell, get_status,
    load_bundled_patches, merge_settings, minimize_shell,
    official_chat_tabs, open_official_chat, patch_status, plugin_install, plugin_resolve,
    promise_pnpm, run, save_settings, should_relayout_for_trigger, start_kernel, stop_kernel,
    switch_official_chat_tab, ChatFault, ChatPlan, NodeCache, OfficialChatRelayoutTrigger, PluginResolution,
    ShellAction, ShellEvent, StartGate, VersionUse,
};
use dsh_xlink::guard::incident::HealthReport;
use dsh_xlink::error::AppError;
use dsh_xlink::kernel::process::{KernelEvidence, ListenerIdentity, PidRecord};
use dsh_xlink::kernel::versions::KernelStatus;
use dsh_xlink::node::locate::NodeInfo;
use dsh_xlink::settings::Settings;

fn strings(names: &[&str]) -> Vec<String> {
    names.iter().map(|n| n.to_string()).collect()
}

fn node(ok: bool) -> NodeInfo {
    NodeInfo {
        path: "/opt/node/bin/node".into(),
        version: Some("v24.0.0".into()),
        ok,
        reason: "because".into(),
    }
}

#[test]
fn merge_keeps_paths_the_panel_did_not_submit() {
    let previous = Settings {
        node_path: Some("/opt/node/bin/node".into()),
        pnpm_path: Some("/opt/node/bin/pnpm".into()),
        npm_path: Some("/opt/node/bin/npm".into()),
        port: 3090,
        profile: "web".into(),
    };
    let incoming = Settings {
        node_path: None,
        pnpm_path: None,
        npm_path: None,
        port: 3100,
        profile: "dev".into(),
    };

    let merged = merge_settings(&incoming, &previous);
    assert_eq!(merged.node_path.as_deref(), Some("/opt/node/bin/node"));
    assert_eq!(merged.pnpm_path.as_deref(), Some("/opt/node/bin/pnpm"));
    assert_eq!(merged.npm_path.as_deref(), Some("/opt/node/bin/npm"));
    assert_eq!(merged.port, 3100, "面板提交的字段必须生效");
    assert_eq!(merged.profile, "dev");

    let clear = Settings {
        node_path: Some(String::new()),
        ..incoming.clone()
    };
    assert_eq!(
        merge_settings(&clear, &previous).node_path.as_deref(),
        Some("")
    );

    assert_eq!(
        save_settings(&incoming, &previous, true).err().as_deref(),
        Some("工作台正在运行，无法修改端口（当前 3090，新值 3100）。请先点击「关闭工作台」停止工作台，再回来保存设置")
    );
    assert_eq!(save_settings(&incoming, &previous, false).unwrap().port, 3100);
    let same_port = Settings { port: 3090, ..incoming.clone() };
    assert_eq!(save_settings(&same_port, &previous, true).unwrap().profile, "dev");
}

#[test]
fn install_completion_does_not_start_kernel() {
    let version = "0.1.2-alpha.test";
    let done = complete_kernel_install(&None, false, 0, true, version)
        .expect("complete install")
        .expect("the first version becomes the active one");
    assert_eq!(done.content, "0.1.2-alpha.test\n");
    assert_eq!(done.progress, "已切换到版本 0.1.2-alpha.test");
    let later = complete_kernel_install(&Some("0.1.1".into()), false, 0, true, version);
    assert!(matches!(later, Ok(None)));
    assert_eq!(
        complete_kernel_install(&None, false, 0, false, version).err().as_deref(),
        Some("内核错误：版本 0.1.2-alpha.test 未安装或安装不完整")
    );
}

#[test]
fn waits_for_current_token_when_daily_log_contains_previous_process_token() {
    let port = 3090;
    let stale_token = "stale-process-token";
    let current_token = "current-process-token";
    let mut log = format!("dsh web: http://127.0.0.1:{port}/?token={stale_token}\n");
    let responds = |url: &str| url.contains(&format!("token={current_token}"));
    let mut rounds = 0;
    let mut event = UrlEvent::LogRead(log.clone());
    let result = loop {
        match kernel_workbench_url(event, port, "/logs/kernel.log") {
            UrlAction::Try(url) => {
                let answers = responds(&url);
                event = UrlEvent::Tried { url, answers };
            }
            UrlAction::TryBare(url) => {
                event = UrlEvent::BareTried { answers: responds(&url), past_deadline: false };
            }
            UrlAction::Wait => {
                rounds += 1;
                log.push_str(&format!("dsh web: http://127.0.0.1:{port}/?token={current_token}\n"));
                event = UrlEvent::LogRead(log.clone());
            }
            UrlAction::Finish(result) => break result,
        }
    };
    assert_eq!(rounds, 1);
    assert_eq!(
        result,
        Ok(format!("http://127.0.0.1:{port}/?token={current_token}"))
    );
}

#[test]
fn the_search_for_the_address_gives_up_at_its_deadline() {
    match kernel_workbench_url(
        UrlEvent::BareTried { answers: false, past_deadline: true },
        3090,
        "/logs/kernel.log",
    ) {
        UrlAction::Finish(Err(e)) => assert_eq!(
            e,
            "无法确认内核工作台地址，请打开日志后重试（日志：/logs/kernel.log）"
        ),
        other => panic!("unexpected: {other:?}"),
    }
    match kernel_workbench_url(UrlEvent::LogRead("nothing".into()), 3090, "") {
        UrlAction::TryBare(url) => assert_eq!(url, "http://127.0.0.1:3090"),
        other => panic!("unexpected: {other:?}"),
    }
    assert_eq!(
        kernel_workbench_url_from_log("http://127.0.0.1:3090/?token=a_B-9 x", 3090).as_deref(),
        Some("http://127.0.0.1:3090/?token=a_B-9")
    );
    assert_eq!(kernel_workbench_url_from_log("http://127.0.0.1:3090/?token= x", 3090), None);
    assert_eq!(kernel_workbench_url_from_log("http://127.0.0.1:3091/?token=a", 3090), None);
}

#[test]
fn only_pages_and_redirections_answer() {
    assert!(workbench_url_responds(Some(200)));
    assert!(workbench_url_responds(Some(303)));
    assert!(workbench_url_responds(Some(399)));
    assert!(!workbench_url_responds(Some(400)));
    assert!(!workbench_url_responds(Some(401)));
    assert!(!workbench_url_responds(Some(199)));
    assert!(!workbench_url_responds(None));
}

#[test]
fn relayouts_for_geometry_events_but_not_focus_loss() {
    assert!(should_relayout_for_trigger(
        OfficialChatRelayoutTrigger::Geometry,
    ));
    assert!(should_relayout_for_trigger(
        OfficialChatRelayoutTrigger::Focused(true),
    ));
    assert!(!should_relayout_for_trigger(
        OfficialChatRelayoutTrigger::Focused(false),
    ));
    assert!(!should_relayout_for_trigger(
        OfficialChatRelayoutTrigger::Other,
    ));
}

fn sorted(names: &[&str]) -> Vec<String> {
    let mut owned: Vec<String> = names.iter().map(|n| n.to_string()).collect();
    owned.sort_by(|a, b| compare_log_names(a, b));
    owned
}

#[test]
fn listing_includes_rotated_backups_and_skips_other_extensions() {
    let mut files = Vec::new();
    for name in [
        "release-kernel-2026-09-09.log",
        "notes.txt",
        "release-kernel-2026-09-10.2.log",
        "legacy.log.1",
        "release-kernel-2026-09-10.log",
        "release-kernel-2026-09-10.1.log",
    ] {
        files.push(LogFileEntry { name: name.to_string(), size: 1 });
    }
    let listed: Vec<String> =
        collect_log_entries(&files).into_iter().map(|entry| entry.name).collect();
    assert_eq!(
        listed,
        vec![
            "release-kernel-2026-09-10.log",
            "release-kernel-2026-09-10.1.log",
            "release-kernel-2026-09-10.2.log",
            "release-kernel-2026-09-09.log",
        ]
    );
}

#[test]
fn listing_reports_file_sizes() {
    let files =
        vec![LogFileEntry { name: "release-kernel-2026-09-10.log".into(), size: "12345".len() as u64 }];
    let entries = collect_log_entries(&files);
    assert_eq!(entries.len(), 1);
    assert_eq!(entries[0].size, 5);
}

#[test]
fn log_sort_key_splits_base_and_generation() {
    assert_eq!(
        log_sort_key("release-kernel-2026-09-10.log"),
        ("release-kernel-2026-09-10".to_string(), 0)
    );
    assert_eq!(
        log_sort_key("release-kernel-2026-09-10.1.log"),
        ("release-kernel-2026-09-10".to_string(), 1)
    );
    assert_eq!(log_sort_key("a.b.log"), ("a.b".to_string(), 0));
    assert_eq!(log_sort_key("x.10.log"), ("x".to_string(), 10));
    assert_eq!(log_sort_key("kernel"), ("kernel".to_string(), 0));
    assert_eq!(log_sort_key("x.4294967296.log"), ("x.4294967296".to_string(), 0));
    assert_eq!(log_sort_key("x..log"), ("x.".to_string(), 0));
    assert_eq!(log_sort_key("x.+1.log"), ("x.+1".to_string(), 0));
}

#[test]
fn newest_log_first_then_its_backups_in_order() {
    assert_eq!(
        sorted(&[
            "release-kernel-2026-09-09.log",
            "release-kernel-2026-09-10.2.log",
            "release-kernel-2026-09-10.log",
            "release-kernel-2026-09-10.1.log",
        ]),
        vec![
            "release-kernel-2026-09-10.log",
            "release-kernel-2026-09-10.1.log",
            "release-kernel-2026-09-10.2.log",
            "release-kernel-2026-09-09.log",
        ]
    );
}

#[test]
fn two_digit_generations_sort_numerically() {
    assert_eq!(
        sorted(&["x.log", "x.2.log", "x.10.log"]),
        vec!["x.log", "x.2.log", "x.10.log"]
    );
}

#[test]
fn refuses_to_open_a_port_held_by_a_known_non_kernel() {
    let reason = harness_port_conflict(3090, ListenerIdentity::NotKernel)
        .expect("已知的非内核监听者必须被拒绝");
    assert!(reason.contains("3090"), "理由里要带上端口：{reason}");
    assert!(reason.contains("设置"), "要给出可操作的下一步：{reason}");
}

#[test]
fn allows_the_kernel_and_unknown_listeners() {
    assert!(harness_port_conflict(3090, ListenerIdentity::Kernel).is_none());
    assert!(harness_port_conflict(3090, ListenerIdentity::Unknown).is_none());
}

#[test]
fn replacing_a_dead_handle_reaps_it_instead_of_leaving_a_zombie() {
    let (wait, warning) = replace_child_slot(&Some(ChildPoll::Exited));
    assert!(!wait);
    assert!(warning.is_none(), "已退出的旧句柄应被静默回收：{warning:?}");
}

#[test]
fn replacing_a_live_handle_hands_it_to_a_background_reaper() {
    let pid = 4711;
    let (wait, warning) = replace_child_slot(&Some(ChildPoll::Running { pid }));
    assert!(wait);
    let warning = warning.expect("仍在运行的旧句柄必须报告出来");
    assert!(
        warning.contains(&pid.to_string()),
        "诊断里要带上旧 pid：{warning}"
    );
    let (wait, warning) = replace_child_slot(&Some(ChildPoll::Failed("e".into())));
    assert!(!wait);
    assert_eq!(warning.as_deref(), Some("回收上一个内核句柄失败：e"));
    assert_eq!(replace_child_slot(&None), (false, None));
}

#[test]
fn log_name_validation_rejects_anything_that_could_escape_logs_dir() {
    for bad in [
        "",
        "kernel.log/../../etc/passwd",
        "..\\..\\windows\\system32\\config",
        "/etc/passwd",
        "sub/dir.log",
        "sub\\dir.log",
        "..",
    ] {
        assert!(
            validate_log_name(bad).is_err(),
            "{bad:?} 必须被拒绝（否则会读到 logs 目录之外）"
        );
    }
    for good in [
        "release-kernel-2026-09-10.log",
        "release-kernel-2026-09-10.1.log",
    ] {
        assert!(validate_log_name(good).is_ok(), "{good:?} 是合法日志名");
    }
}

#[test]
fn logs_are_read_and_shown_by_their_names() {
    assert_eq!(read_log_file("/logs", "a.log"), Ok("/logs/a.log".to_string()));
    assert_eq!(
        read_log_file("/logs", "a/b.log"),
        Err("非法的日志文件名：a/b.log".to_string())
    );
    let window = open_log_window("a b&c.log").unwrap();
    assert_eq!(window.page, "index.html?log=a+b%26c.log");
    assert_eq!(window.title, "日志 - a b&c.log");
    assert_eq!(open_log_window("日*.log").unwrap().page, "index.html?log=%E6%97%A5*.log");
    assert!(open_log_window("../x").is_err());
}

#[test]
fn health_reports_are_bounded() {
    let raw = |kind: &str, message: &str| HealthReport {
        kind: kind.to_string(),
        message: message.to_string(),
        stack: " s ".to_string(),
        page_url: "u".to_string(),
    };
    let ok = report_harness_fault("harness", &raw(" blank ", " m ")).unwrap();
    assert_eq!(ok.kind, "blank");
    assert_eq!(ok.message, "m");
    assert_eq!(ok.stack, "s");
    assert_eq!(
        report_harness_fault("main", &raw("blank", "m")).err().as_deref(),
        Some("工作台自检只能由 harness 窗口报告")
    );
    assert_eq!(
        report_harness_fault("harness", &raw("other", "m")).err().as_deref(),
        Some("工作台自检类型无效，请重新打开工作台")
    );
    assert_eq!(
        report_harness_fault("harness", &raw("blank", "  ")).err().as_deref(),
        Some("工作台自检的错误信息不能为空")
    );
    assert_eq!(
        report_harness_fault("harness", &raw("blank", &"字".repeat(2001))).err().as_deref(),
        Some("工作台自检的错误信息过长，请重新打开工作台")
    );
    assert!(report_harness_fault("harness", &raw("blank", &"字".repeat(2000))).is_ok());
    assert_eq!(bounded_health_text("x", " a ", 1, true), Ok("a".to_string()));
    assert_eq!(bounded_health_text("x", "", 1, false), Ok("".to_string()));
}

fn facts() -> HarnessFacts {
    HarnessFacts {
        port: 3090,
        port_open: true,
        kernel_found: true,
        identity: ListenerIdentity::Kernel,
        window_open: true,
        loaded: Some("http://127.0.0.1:3090/?token=old".into()),
        log_tail: "dsh web: http://127.0.0.1:3090/?token=old\n".into(),
    }
}

#[test]
fn an_open_workbench_is_loaded_anew_only_for_a_new_token() {
    assert!(matches!(
        open_harness(&facts()),
        Ok(HarnessAction::Raise { navigate: None })
    ));
    let mut f = facts();
    f.log_tail.push_str("dsh web: http://127.0.0.1:3090/?token=new\n");
    assert!(matches!(
        open_harness(&f),
        Ok(HarnessAction::Raise { navigate: Some(u) }) if u == "http://127.0.0.1:3090/?token=new"
    ));
    f.loaded = None;
    assert!(matches!(open_harness(&f), Ok(HarnessAction::Raise { navigate: None })));
    f.window_open = false;
    assert!(matches!(open_harness(&f), Ok(HarnessAction::Create)));
}

#[test]
fn the_workbench_is_not_opened_without_a_kernel() {
    let mut f = facts();
    f.port_open = false;
    assert_eq!(
        open_harness(&f).err().as_deref(),
        Some("端口 3090 上没有工作台，但检测到内核仍在运行。请先点击「关闭工作台」停止它，再重新启动工作台")
    );
    f.kernel_found = false;
    assert_eq!(
        open_harness(&f).err().as_deref(),
        Some("内核未在运行（端口 3090），请先点击「启动工作台」")
    );
    let mut f = facts();
    f.identity = ListenerIdentity::NotKernel;
    assert!(open_harness(&f).err().unwrap().contains("不是 dsh 内核"));
}

#[test]
fn addresses_are_checked() {
    assert_eq!(check_window_url("http://127.0.0.1:3090"), Ok(()));
    assert_eq!(
        check_window_url("not an address"),
        Err("relative URL without a base".to_string())
    );
    assert_eq!(window_outcome(Some(Ok(()))), Ok(()));
    assert_eq!(
        window_outcome(Some(Err("e".into()))),
        Err("无法创建工作台窗口：e".to_string())
    );
    assert_eq!(
        window_outcome(None),
        Err("工作台窗口创建线程已结束，未返回结果".to_string())
    );
}

#[test]
fn a_dead_handle_does_not_count_as_a_running_kernel() {
    assert_eq!(kernel_running(&Some(ChildPoll::Running { pid: 1 }), false), (true, false));
    assert_eq!(kernel_running(&Some(ChildPoll::Exited), false), (false, true));
    assert_eq!(kernel_running(&Some(ChildPoll::Exited), true), (true, true));
    assert_eq!(kernel_running(&None, true), (true, false));
}

#[test]
fn node_is_remembered_for_its_setting() {
    let mut settings = Settings {
        node_path: None,
        pnpm_path: None,
        npm_path: None,
        port: 1,
        profile: "web".into(),
    };
    let cache = detect_node(&node(true));
    assert!(cache.is_some());
    assert_eq!(cached_node(&cache, &settings).unwrap().path, "/opt/node/bin/node");
    settings.node_path = Some("/other".into());
    assert!(cached_node(&cache, &settings).is_none());
    let cache = Some(NodeCache { key: Some("/other".into()), info: node(false) });
    assert!(cached_node(&cache, &settings).is_some());
    assert!(cached_node(&None, &settings).is_none());
    assert!(detect_node(&node(false)).is_none());
    assert!(matches!(start_kernel(&node(true), false), StartGate::Go(p) if p == "/opt/node/bin/node"));
    assert!(matches!(start_kernel(&node(false), false), StartGate::Reprobe));
    assert!(matches!(start_kernel(&node(false), true), StartGate::Refuse(r) if r == "because"));
}

#[test]
fn pnpm_is_looked_for_beside_node() {
    let request = promise_pnpm(&node(true), "release", 17).unwrap();
    assert_eq!(request.node_path, "/opt/node/bin/node");
    assert_eq!(request.node_dir, "/opt/node/bin");
    assert_eq!(
        request.log.path_for("/logs", "2026-01-02"),
        "/logs/release-pnpm-install-17-2026-01-02.log"
    );
    assert_eq!(promise_pnpm(&node(false), "release", 17).err().as_deref(), Some("because"));
    let mut bare = node(true);
    bare.path = "/".into();
    assert_eq!(promise_pnpm(&bare, "release", 17).unwrap().node_dir, ".");
}

#[test]
fn versions_are_checked_at_the_door() {
    assert_eq!(check_version("1.0.0", VersionUse::Install), Ok(()));
    assert_eq!(check_version("0.1.5-rc.1", VersionUse::Install), Ok(()));
    assert!(check_version("1.0.0/..", VersionUse::Install).is_err());
    assert!(check_version("1.0", VersionUse::Install).is_err());
    assert!(check_version("1.0.0-", VersionUse::Install).is_err());
    assert_eq!(
        check_version("..", VersionUse::Remove),
        Err("版本号 \"..\" 形态非法，拒绝删除；请从「内核版本」页的已安装列表中选择版本".to_string())
    );
    assert_eq!(
        check_version("a\"b", VersionUse::ListPlugins),
        Err("版本号 \"a\\\"b\" 形态非法".to_string())
    );
    assert!(check_version("x", VersionUse::Install).unwrap_err().contains("拒绝安装"));
    assert!(check_version("x", VersionUse::Activate).unwrap_err().contains("拒绝切换"));
}

#[test]
fn plugins_are_resolved_by_name() {
    assert_eq!(plugin_resolve("remove"), Ok(PluginResolution::Remove));
    assert_eq!(plugin_resolve("enable"), Ok(PluginResolution::Enable));
    assert_eq!(
        plugin_resolve("x"),
        Err("未知操作 \"x\"，支持 remove / enable".to_string())
    );
    assert_eq!(plugin_install(None), "link");
    assert_eq!(plugin_install(Some("copy".into())), "copy");
    assert_eq!(patch_status(None, &vec![]), None);
    assert_eq!(patch_status(Some("a".into()), &vec![]).as_deref(), Some("a"));
    assert_eq!(patch_status(None, &strings(&["b", "c"])).as_deref(), Some("b；c"));
    assert_eq!(patch_status(Some("a".into()), &strings(&["b"])).as_deref(), Some("a；b"));
}

#[test]
fn chats_are_opened_and_switched() {
    let tabs = official_chat_tabs();
    let titles: Vec<&str> = tabs.iter().map(|t| t.title.as_str()).collect();
    assert_eq!(titles, vec!["DeepSeek", "千问", "MiniMax"]);
    assert_eq!(tabs[2].index, 2);
    assert_eq!(add_official_chat_tab(1).unwrap().url, "https://www.qianwen.com");
    assert_eq!(
        add_official_chat_tab(3).err().as_deref(),
        Some("官方对话页签不存在：3")
    );
    assert!(matches!(open_official_chat(true, "/d"), Ok(ChatPlan::Focus)));
    match open_official_chat(false, "/d") {
        Ok(ChatPlan::Build { profile_dir, first }) => {
            assert_eq!(profile_dir, "/d/webview-official-chat");
            assert_eq!(first.label, "official-chat-tab-0");
            assert_eq!(first.url, "https://chat.deepseek.com");
        }
        other => panic!("unexpected: {other:?}"),
    }
    let switch = switch_official_chat_tab(1, true, false).unwrap();
    assert!(switch.mount);
    assert_eq!(switch.show, "official-chat-tab-1");
    assert_eq!(switch.others, strings(&["official-chat-tab-0", "official-chat-tab-2"]));
    assert_eq!(
        switch_official_chat_tab(1, false, false).err().as_deref(),
        Some("官方对话窗口未打开")
    );
    assert!(switch_official_chat_tab(3, true, true).is_err());
    assert!(close_official_chat(true).is_ok());
}

#[test]
fn closing_the_panel_asks_while_something_runs() {
    let close = |label: &str, to_tray, kernel_running, chat_open| {
        run(&ShellEvent::CloseRequested {
            label: label.to_string(),
            to_tray,
            kernel_running,
            chat_open,
        })
    };
    assert_eq!(close("main", false, false, false), ShellAction::Pass);
    assert_eq!(
        close("main", false, true, false),
        ShellAction::AskToQuit { kernel_running: true, official_chat_open: false }
    );
    assert_eq!(
        close("main", false, false, true),
        ShellAction::AskToQuit { kernel_running: false, official_chat_open: true }
    );
    assert_eq!(close("harness", false, true, true), ShellAction::Pass);
    assert_eq!(close("main", true, true, true), ShellAction::HideToTray);
    assert_eq!(
        run(&ShellEvent::Focused { label: "harness".into(), focused: true }),
        ShellAction::WorkbenchFocused(true)
    );
    assert_eq!(
        run(&ShellEvent::Focused { label: "main".into(), focused: true }),
        ShellAction::Pass
    );
    assert_eq!(
        run(&ShellEvent::Destroyed { label: "harness".into() }),
        ShellAction::WorkbenchFocused(false)
    );
    assert_eq!(run(&ShellEvent::Exit), ShellAction::TearDown);
    assert_eq!(
        confirm_close_shell(true).unwrap(),
        strings(&["official-chat", "harness", "log-viewer"])
    );
    assert!(confirm_close_shell(false).is_err());
    assert!(focus_main_shell(true).is_ok());
    assert_eq!(app_err("/d", "e"), "e（数据目录：/d）");
}

#[test]
fn the_panel_shows_what_is_known() {
    let view = get_status(
        "1.2.3".into(),
        true,
        KernelStatus {
            installed: vec![],
            active: None,
            active_installed: false,
            running: false,
            port: 3090,
            data_dir: "/d".into(),
            settings_warning: None,
        },
        NodeInfo { path: "/n".into(), version: None, ok: false, reason: "r".into() },
        Settings {
            node_path: None,
            pnpm_path: None,
            npm_path: None,
            port: 3090,
            profile: "web".into(),
        },
        vec![],
        None,
        true,
    );
    assert_eq!(view.shell_version, "1.2.3");
    assert!(view.dev_build && view.official_chat_open);
    assert!(view.last_incident.is_none());
    assert_eq!(view.node.reason, "r");
}

#[test]
fn stopping_ends_the_kernel_on_the_port_it_was_started_on() {
    let evidence = KernelEvidence {
        record: Some(PidRecord { pid: 77, port: Some(3090) }),
        record_command: Some("node /a/@deepseek-ai/dsh/lib/bin.js web --port 3090".into()),
        record_listener: Some(77),
        port_open: false,
        listener: None,
        listener_command: None,
        listener_again: None,
    };
    let plan = stop_kernel(Ok(()), &evidence, 4000, Some("77 3090\n"));
    assert_eq!(plan.kill, Some((77, Some(3090))));
    assert!(plan.outcome.is_ok());
    let gone = KernelEvidence { record_command: None, ..evidence };
    let plan = stop_kernel(Err(AppError::Kernel("x".into())), &gone, 4000, None);
    assert_eq!(plan.kill, None);
    assert_eq!(plan.outcome.unwrap_err(), "内核错误：x");
}

#[test]
fn patches_that_cannot_be_read_are_a_warning() {
    assert!(load_bundled_patches(None).is_empty());
    assert_eq!(load_bundled_patches(Some(Ok(vec!["w".into()]))), vec!["w".to_string()]);
    assert_eq!(
        load_bundled_patches(Some(Err("e".into()))),
        vec!["读取内置补丁失败：e".to_string()]
    );
}

#[test]
fn minimising_goes_to_the_tray_on_windows_only() {
    assert_eq!(minimize_shell(true, true), Ok(true));
    assert_eq!(minimize_shell(false, false), Ok(false));
    assert_eq!(minimize_shell(true, false), Err("主壳窗口不存在（label: main）".to_string()));
    assert_eq!(chrome_backdrop(Some(false)), (0xf7, 0xf7, 0xf8, 0xff));
    assert_eq!(chrome_backdrop(Some(true)), (0x16, 0x17, 0x1a, 0xff));
    assert_eq!(chrome_backdrop(None), (0x16, 0x17, 0x1a, 0xff));
}

#[test]
fn a_log_window_that_fails_says_how() {
    assert_eq!(log_window_outcome(&LogWindowEnd::Built), Ok(()));
    let said = |end: LogWindowEnd| log_window_outcome(&end).unwrap_err();
    assert_eq!(
        said(LogWindowEnd::NotBuilt("e".into())),
        "打开日志窗口失败：e。可改用主面板的「查看日志」弹窗，或重试"
    );
    assert_eq!(said(LogWindowEnd::NoThread("e".into())), "无法启动日志窗口线程：e");
    assert_eq!(
        said(LogWindowEnd::TimedOut),
        "打开日志窗口超时（20 秒）。请重试，或改用主面板的「查看日志」弹窗"
    );
    assert_eq!(said(LogWindowEnd::NotWaited("e".into())), "等待日志窗口结果失败：e");
}

#[test]
fn chats_that_fail_say_how() {
    assert_eq!(ChatFault::LockBroken.message(), "官方对话窗口状态锁已损坏");
    assert_eq!(ChatFault::NoDataDir("e".into()).message(), "无法创建官方对话数据目录：e");
    assert_eq!(ChatFault::NoWindow("e".into()).message(), "无法创建官方对话窗口：e");
    assert_eq!(ChatFault::NoPage("e".into()).message(), "无法创建官方对话页签：e");
    assert_eq!(ChatFault::NoStrip("e".into()).message(), "无法创建官方对话页签栏：e");
    assert_eq!(
        ChatFault::WindowThreadGone.message(),
        "官方对话窗口创建线程已结束，未返回结果"
    );
    assert_eq!(
        ChatFault::PageThreadGone.message(),
        "官方对话页签创建线程已结束，未返回结果"
    );
}
