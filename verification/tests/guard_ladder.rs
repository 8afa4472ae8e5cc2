use dsh_xlink::guard::incident::{dedup_suspects, Incident, StartReport, Suspect};
use dsh_xlink::guard::ladder::{
    already_running, boot_once, guarded_start, refresh_wiring, sync_wiring_record_warning,
    watch_child, BootOutcome, BootVerdict, GuardAction, GuardDeps, GuardEvent, WatchVerdict,
};
use dsh_xlink::plugins::StoreItem;
use dsh_xlink::quarantine::QuarantineItem;

fn store_item(id: &str, name: &str) -> StoreItem {
    StoreItem {
        id: id.to_string(),
        name: name.to_string(),
        origin: String::from("npm"),
        source: name.to_string(),
        installed_version: String::from("1.0.0"),
        latest_version: None,
        mode: String::from("link"),
        pinned: false,
        installed_at: String::new(),
        updated_at: String::new(),
        repo_url: None,
        description: None,
    }
}

/// A world that answers the ladder: the outcome of each start attempt in turn,
/// and the end of the log.
struct World {
    boots: Vec<BootVerdict>,
    tail: String,
    quarantine: Vec<QuarantineItem>,
    rewired: usize,
    wiring_restored: bool,
    attempts: usize,
}

fn drive(world: &mut World, items: Vec<StoreItem>) -> StartReport {
    drive_from(world, items, false)
}

fn drive_from(world: &mut World, items: Vec<StoreItem>, prior: bool) -> StartReport {
    let deps = GuardDeps {
        port: 3090,
        log_path: "/logs/kernel.log".into(),
        store_items: items,
        kernel_label: "0.1.2".into(),
        prior_quarantine: prior,
    };
    let (mut ladder, mut step) = guarded_start(deps);
    loop {
        let event = match step.action {
            GuardAction::Boot => {
                world.attempts += 1;
                GuardEvent::Booted(world.boots.remove(0))
            }
            GuardAction::ReadLog => {
                GuardEvent::LogRead { log_error: None, tail: world.tail.clone() }
            }
            GuardAction::Quarantine(records) => {
                world.quarantine.extend(records);
                GuardEvent::Quarantined(true)
            }
            GuardAction::Rewire => {
                world.rewired += 1;
                GuardEvent::Rewired(Ok((0, true)))
            }
            GuardAction::ListQuarantined => GuardEvent::QuarantineListed(
                world.quarantine.iter().map(|q| q.id.clone()).collect(),
            ),
            GuardAction::Restore { wiring } => {
                world.quarantine.clear();
                world.wiring_restored = wiring;
                GuardEvent::Restored { error: None, installed: 1 }
            }
            GuardAction::Finish(report) => return report,
        };
        let (next, next_step) = ladder.step(event, 7);
        ladder = next;
        step = next_step;
    }
}

fn world(boots: Vec<BootVerdict>, tail: &str) -> World {
    World {
        boots,
        tail: tail.to_string(),
        quarantine: vec![],
        rewired: 0,
        wiring_restored: false,
        attempts: 0,
    }
}

fn failed() -> BootVerdict {
    BootVerdict::Failed("内核进程在就绪前退出（exit status: 1）".into())
}

#[test]
fn environment_exit_skips_the_plugin_ladder_and_the_pnpm_restore() {
    let mut w = world(
        vec![failed()],
        "Error: listen EADDRINUSE: address already in use 127.0.0.1:3090",
    );
    let report = drive(&mut w, vec![store_item("ghost", "ghost-plugin")]);
    assert!(!report.running, "环境类失败不该留下内核进程");

    let incident = report.incident.expect("必须有事故面板");
    assert_eq!(incident.cause, "env", "环境类失败必须标成 env");
    assert!(
        incident.message.contains("环境类错误"),
        "文案要点出真实原因：{}",
        incident.message
    );
    assert!(
        !incident
            .attempts
            .iter()
            .any(|entry| entry.contains("正在进入安全模式") || entry.contains("下启动成功")),
        "环境类失败不得进入安全模式；实际轨迹：{:?}",
        incident.attempts
    );
    assert!(
        incident
            .attempts
            .iter()
            .any(|entry| entry.contains("跳过接线恢复")),
        "没有改过接线就不该跑 pnpm 恢复；实际轨迹：{:?}",
        incident.attempts
    );
    assert!(w.quarantine.is_empty(), "环境类失败不得隔离任何插件");
    assert_eq!(w.attempts, 1);
    assert_eq!(w.rewired, 0);
    assert!(!w.wiring_restored);
}

#[test]
fn unrelated_port_occupant_does_not_quarantine_plugins() {
    let mut w = world(vec![BootVerdict::SpawnFailed("端口被占用".into())], "");
    let report = drive(&mut w, vec![store_item("ghost", "ghost-plugin")]);
    assert!(
        !report.running,
        "端口被无关进程占用时不得报告工作台正在运行"
    );
    let incident = report.incident.expect("incident");
    let attempts = incident.attempts.clone();
    assert!(
        !attempts.iter().any(|entry| entry.starts_with("安全模式")),
        "内核根本没被拉起来时不得进入安全模式；实际轨迹：{attempts:?}"
    );
    assert!(
        incident.suspects.is_empty(),
        "不得把任何插件列为疑似故障源"
    );
    assert!(w.quarantine.is_empty(), "环境类失败不得隔离任何插件");
}

#[test]
fn a_start_that_works_reports_nothing() {
    let mut w = world(vec![BootVerdict::Ready], "");
    let report = drive(&mut w, vec![store_item("ghost", "ghost-plugin")]);
    assert!(report.running);
    assert!(!report.safe_mode);
    assert!(report.incident.is_none());
    assert_eq!(w.attempts, 1);
}

#[test]
fn a_blamed_plugin_is_switched_off_for_the_second_attempt() {
    let mut w = world(
        vec![failed(), BootVerdict::Ready],
        "Error: Cannot find package 'ghost-plugin' imported from x",
    );
    let report = drive(
        &mut w,
        vec![store_item("ghost", "ghost-plugin"), store_item("other", "other")],
    );
    assert!(report.running);
    assert!(report.safe_mode);
    let incident: Incident = report.incident.unwrap();
    assert!(incident.recovered);
    assert_eq!(incident.cause, "plugin");
    assert_eq!(w.quarantine.len(), 1);
    assert_eq!(w.quarantine[0].id, "ghost");
    assert_eq!(w.attempts, 2);
}

#[test]
fn safe_mode_switches_every_plugin_off() {
    let mut w = world(vec![failed(), BootVerdict::Ready], "Error: something unclear");
    let report = drive(&mut w, vec![store_item("a", "a-plugin"), store_item("b", "b-plugin")]);
    assert!(report.running);
    assert!(report.safe_mode);
    let ids: Vec<&str> = w.quarantine.iter().map(|q| q.id.as_str()).collect();
    assert_eq!(ids, vec!["a", "b"]);
    assert!(report
        .incident
        .unwrap()
        .attempts
        .iter()
        .any(|a| a == "安全模式（全部第三方插件停用）下启动成功"));
}

#[test]
fn what_does_not_start_at_all_is_rolled_back() {
    let mut w = world(
        vec![failed(), BootVerdict::Hung, failed()],
        "Error: Cannot find package 'a-plugin' imported from x",
    );
    let report = drive(&mut w, vec![store_item("a", "a-plugin"), store_item("b", "b-plugin")]);
    assert!(!report.running);
    assert_eq!(w.attempts, 3);
    assert!(w.quarantine.is_empty());
    assert!(w.wiring_restored);
    let incident = report.incident.unwrap();
    assert!(!incident.recovered);
    assert!(incident.message.contains("已恢复原有插件配置"));
    assert!(incident
        .attempts
        .iter()
        .any(|a| a == "停用疑似插件后仍失败：等待内核就绪超时（30 秒）"));
}

#[test]
fn the_report_tells_whether_anything_is_quarantined() {
    let fails = || vec![failed(), failed(), failed()];
    let mut w = world(fails(), "Error: something unclear");
    let report = drive_from(&mut w, vec![store_item("a", "a-plugin")], true);
    assert!(!report.running);
    assert!(report.safe_mode, "what was quarantined before still is");
    assert!(!report.incident.unwrap().safe_mode);
    let mut w = world(fails(), "Error: something unclear");
    assert!(!drive(&mut w, vec![store_item("a", "a-plugin")]).safe_mode);
    let mut w = world(vec![BootVerdict::Ready], "");
    assert!(drive_from(&mut w, vec![], true).safe_mode);
}

#[test]
fn a_spawned_kernel_is_watched() {
    assert!(matches!(watch_child(true, Some("x".into()), true), Some(WatchVerdict::Ready)));
    assert!(matches!(
        watch_child(false, Some("x".into()), true),
        Some(WatchVerdict::Exited(s)) if s == "x"
    ));
    assert!(matches!(watch_child(false, None, true), Some(WatchVerdict::Hung)));
    assert!(watch_child(false, None, false).is_none());
    let (verdict, line) = boot_once(BootOutcome::Watched(WatchVerdict::Exited("exit 1".into())));
    assert_eq!(verdict.reason(), "内核进程在就绪前退出（exit 1）");
    assert_eq!(line.as_deref(), Some("内核进程在就绪前退出（exit 1）"));
    let (verdict, line) = boot_once(BootOutcome::Refused("no".into()));
    assert!(matches!(verdict, BootVerdict::SpawnFailed(_)));
    assert_eq!(line.as_deref(), Some("无法拉起内核进程：no"));
    assert!(already_running(3090, true).running);
    assert!(already_running(3090, true).safe_mode);
    assert!(!already_running(3090, false).safe_mode);
    assert_eq!(sync_wiring_record_warning(Ok((1, false))), None);
    assert!(sync_wiring_record_warning(Err("e".into())).is_some());
    assert!(!refresh_wiring(&Err("e".into())).is_empty());
}

#[test]
fn suspects_are_listed_once() {
    let suspect = |id: &str, evidence: &str| Suspect {
        kind: "plugin".into(),
        id: id.into(),
        name: id.into(),
        evidence: evidence.into(),
    };
    let kept = dedup_suspects(&vec![suspect("a", "1"), suspect("b", "2"), suspect("a", "3")]);
    assert_eq!(kept.len(), 2);
    assert_eq!(kept[0].evidence, "1");
}
