use dsh_xlink::kernel::install::ExitInfo;
use dsh_xlink::node::locate::{
    common_locations, ensure_pnpm, environment_candidates, exe_name, find_npm, from_path,
    list_tool_candidates, npm_prefix, probe, probe_environment, probe_managed, resolve,
    resolve_pnpm, version_of, which_in_dir, NodeInfo, PnpmAction, PnpmEvent,
    NODE_TOO_OLD_GUIDANCE, NO_NODE_FOUND_GUIDANCE,
};
use dsh_xlink::node::versions::{
    compatible, format_version, normalize_spec, nvm_candidates, nvm_root, nvm_roots,
    order_nvm_versions,
    parse_version, resolve_alias, AliasMove, NvmEntry, NvmVersion,
};
use dsh_xlink::settings::Settings;

fn vb(major: u32, minor: u32, patch: u32) -> String {
    format!("/fake/{major}.{minor}.{patch}")
}

fn at(major: u32, minor: u32, patch: u32) -> NvmVersion {
    NvmVersion { version: (major, minor, patch), path: vb(major, minor, patch) }
}

fn strings(names: &[&str]) -> Vec<String> {
    names.iter().map(|n| n.to_string()).collect()
}

/// Follows aliases over a table of files.
fn follow(files: &[(&str, &str)], start: &str) -> Option<String> {
    let (mut walk, mut step) = resolve_alias(start);
    loop {
        match step {
            AliasMove::Done(found) => return found,
            AliasMove::Read(name) => {
                let content = files.iter().find(|f| f.0 == name).map(|f| f.1);
                step = walk.step(content);
            }
        }
    }
}

fn settings() -> Settings {
    Settings {
        node_path: None,
        pnpm_path: None,
        npm_path: None,
        port: 3090,
        profile: "web".to_string(),
    }
}

fn info(path: &str, version: Option<&str>, ok: bool, reason: &str) -> NodeInfo {
    NodeInfo {
        path: path.to_string(),
        version: version.map(|v| v.to_string()),
        ok,
        reason: reason.to_string(),
    }
}

#[test]
fn parse_version_accepts_v_prefix_and_prerelease() {
    assert_eq!(parse_version("v22.19.0"), Some((22, 19, 0)));
    assert_eq!(parse_version("v24.0.0-rc.1"), Some((24, 0, 0)));
    assert_eq!(parse_version("not a version"), None);
    assert_eq!(parse_version(""), None);
}

#[test]
fn parse_version_needs_three_numbers() {
    assert_eq!(parse_version(" v22.19.0\n"), Some((22, 19, 0)));
    assert_eq!(parse_version("22.19.0"), None);
    assert_eq!(parse_version("v22.19"), None);
    assert_eq!(parse_version("v22.x.0"), None);
    assert_eq!(parse_version("v4294967296.0.0"), None);
}

#[test]
fn a_version_is_read_back() {
    let v = (22, 19, 7);
    assert_eq!(parse_version(&format!("v{}", format_version(v))), Some(v));
}

#[test]
fn compatible_versions_are_those_of_the_engine_range() {
    assert!(!compatible((22, 18, 9)));
    assert!(compatible((22, 19, 0)));
    assert!(!compatible((23, 99, 0)));
    assert!(compatible((24, 0, 0)));
    assert!(compatible((99, 0, 0)));
    assert!(!compatible((0, 0, 0)));
}

#[test]
fn normalize_spec_strips_v_and_whitespace() {
    assert_eq!(normalize_spec(Some("v22.19.0")), Some("22.19.0".into()));
    assert_eq!(normalize_spec(Some("  22  ")), Some("22".into()));
    assert_eq!(normalize_spec(Some("")), None);
    assert_eq!(normalize_spec(None), None);
}

#[test]
fn format_version_round_trips() {
    assert_eq!(format_version((22, 19, 0)), "22.19.0");
    assert_eq!(format_version((24, 0, 0)), "24.0.0");
}

#[test]
fn order_nvm_versions_picks_exact_default_first() {
    let installed = vec![at(24, 5, 0), at(22, 19, 0), at(22, 20, 0)];
    let ordered = order_nvm_versions(&installed, Some("v22.19.0"));
    assert_eq!(ordered, vec![vb(22, 19, 0), vb(24, 5, 0), vb(22, 20, 0)],);
}

#[test]
fn order_nvm_versions_resolves_partial_spec_to_newest_match() {
    let installed = vec![at(22, 19, 0), at(22, 20, 0), at(24, 5, 0)];
    let ordered = order_nvm_versions(&installed, Some("22"));
    assert_eq!(ordered, vec![vb(22, 20, 0), vb(24, 5, 0), vb(22, 19, 0)]);
}

#[test]
fn order_nvm_versions_drops_incompatible() {
    let installed = vec![at(18, 19, 0), at(22, 19, 0), at(24, 5, 0)];
    let ordered = order_nvm_versions(&installed, None);
    assert_eq!(ordered, vec![vb(24, 5, 0), vb(22, 19, 0)]);
}

#[test]
fn order_nvm_versions_unknown_spec_falls_back_to_desc_scan() {
    let installed = vec![at(22, 19, 0), at(24, 5, 0)];
    let ordered = order_nvm_versions(&installed, Some("lts/hydrogen"));
    assert_eq!(ordered, vec![vb(24, 5, 0), vb(22, 19, 0)]);
}

#[test]
fn a_pinned_version_is_tried_though_it_is_old() {
    let installed = vec![at(18, 19, 0), at(24, 5, 0)];
    assert_eq!(order_nvm_versions(&installed, Some("18")), vec![vb(18, 19, 0), vb(24, 5, 0)]);
}

#[test]
fn nvm_candidates_end_with_what_tells_no_version() {
    let entries = vec![
        NvmEntry { name: "custom".into(), node: "/nvm/custom/node".into(), present: true },
        NvmEntry { name: "v22.19.0".into(), node: "/nvm/22/node".into(), present: true },
        NvmEntry { name: "v24.0.0".into(), node: "/nvm/24/node".into(), present: true },
        NvmEntry { name: "v25.0.0".into(), node: "/nvm/25/node".into(), present: false },
    ];
    assert_eq!(
        nvm_candidates(&entries, None, None),
        strings(&["/nvm/24/node", "/nvm/22/node", "/nvm/custom/node"])
    );
    assert_eq!(
        nvm_candidates(&entries, Some("/link/node".into()), Some("22")),
        strings(&["/link/node", "/nvm/22/node", "/nvm/24/node", "/nvm/custom/node"])
    );
    assert_eq!(nvm_root(None, "/home/u"), "/home/u/.nvm");
    assert_eq!(nvm_root(Some("/nvm"), "/home/u"), "/nvm");
}

#[test]
fn resolve_alias_follows_chain_to_concrete_version() {
    let files = [("default", "lts/hydrogen\n"), ("lts/hydrogen", "20.9.0")];
    assert_eq!(follow(&files, "default"), Some("20.9.0".into()));
}

#[test]
fn resolve_alias_returns_partial_spec_when_not_a_file() {
    assert_eq!(follow(&[("default", "22\n")], "default"), Some("22".into()));
}

#[test]
fn resolve_alias_bounds_cycles() {
    let files = [("a", "b"), ("b", "a")];
    assert_eq!(
        follow(&files, "a").as_deref(),
        Some("a"),
        "alias resolution must terminate even when the chain cycles",
    );
}

#[test]
fn resolve_alias_reports_empty_alias_file_as_missing() {
    assert_eq!(follow(&[("default", "")], "default"), None);
}

#[test]
fn resolve_alias_follows_no_more_than_five_files() {
    let files = [("a", "b"), ("b", "c"), ("c", "d"), ("d", "e"), ("e", "f"), ("f", "g")];
    assert_eq!(follow(&files, "a").as_deref(), Some("f"));
}

#[test]
fn no_node_found_guidance_lists_three_install_paths() {
    let msg = NO_NODE_FOUND_GUIDANCE;
    assert!(msg.contains("nvm"), "should mention nvm");
    assert!(
        msg.contains("fnm") || msg.contains("volta"),
        "should mention an alternative version manager",
    );
    assert!(msg.contains("brew"), "should mention Homebrew on macOS");
    assert!(msg.contains("winget"), "should mention winget on Windows");
    assert!(
        msg.contains("https://nodejs.org/"),
        "should point at the official installer",
    );
    assert!(
        msg.contains("「设置」"),
        "should remind the user about the manual-path setting",
    );
}

#[test]
fn node_too_old_guidance_points_at_upgrade_paths() {
    let msg = NODE_TOO_OLD_GUIDANCE;
    assert!(msg.contains("nvm install 24"), "should mention nvm upgrade");
    assert!(
        msg.contains("https://nodejs.org/"),
        "should point at the official installer",
    );
    assert!(msg.contains("「设置」"), "should mention the manual path");
    assert!(
        !msg.contains("brew install"),
        "fresh-install commands do not belong in an upgrade message",
    );
}

#[test]
fn probes_tell_why_a_path_is_refused() {
    assert_eq!(probe("/n", false, None).reason, "路径不存在或不可读");
    assert_eq!(
        probe("/n", true, None).reason,
        "无法读取版本输出（可能不是有效的 node 可执行文件）"
    );
    let old = probe("/n", true, Some("v18.0.1".into()));
    assert!(!old.ok);
    assert_eq!(old.version.as_deref(), Some("v18.0.1"));
    assert_eq!(old.reason, "版本 18.0.1 不满足 dsh 要求（^22.19 || >=24）");
    let good = probe("/n", true, Some("v24.1.0".into()));
    assert!(good.ok);
    assert_eq!(good.reason, "可用");
    assert_eq!(version_of(true, "v24.1.0\n").as_deref(), Some("v24.1.0"));
    assert_eq!(version_of(false, "v24.1.0\n"), None);
    assert_eq!(version_of(true, "hello"), None);
}

#[test]
fn the_scan_stops_at_the_first_usable_runtime() {
    let infos = vec![
        info("/a", None, false, "x"),
        info("/b", Some("v18.0.0"), false, "old"),
        info("/c", Some("v16.0.0"), false, "older"),
        info("/d", Some("v24.0.0"), true, "可用"),
        info("/e", Some("v25.0.0"), true, "可用"),
    ];
    let scan = probe_environment(&infos);
    assert_eq!(scan.usable.unwrap().path, "/d");
    assert_eq!(scan.near_miss.unwrap().path, "/b");
}

#[test]
fn a_configured_path_falls_back_to_what_is_found() {
    let bad = || Some(info("/set", None, false, "路径不存在或不可读"));
    let managed = || Some(info("/managed", Some("v24.0.0"), true, "可用"));
    let env = vec![info("/env", Some("v24.0.0"), true, "可用")];
    let good = resolve(Some(info("/set", Some("v24.0.0"), true, "可用")), managed(), &env);
    assert_eq!(good.path, "/set");
    let fallen = resolve(bad(), managed(), &env);
    assert_eq!(fallen.path, "/managed");
    assert_eq!(
        fallen.reason,
        "配置的路径不可用（路径不存在或不可读），已自动回退到：/managed"
    );
    let fallen = resolve(bad(), None, &env);
    assert_eq!(fallen.path, "/env");
    let none = resolve(bad(), None, &vec![]);
    assert!(!none.ok);
    assert_eq!(none.path, "/set");
    assert_eq!(
        none.reason,
        format!("配置路径不可用且未找到可用 node。{NO_NODE_FOUND_GUIDANCE}")
    );
    let old = vec![info("/old", Some("v18.0.0"), false, "太老")];
    assert_eq!(
        resolve(bad(), None, &old).reason,
        format!("配置路径不可用且未找到可用 node。环境中只有 /old（太老）。{NODE_TOO_OLD_GUIDANCE}")
    );
}

#[test]
fn without_a_configured_path_the_managed_runtime_comes_first() {
    let env = vec![info("/env", Some("v24.0.0"), true, "可用")];
    let m = resolve(None, Some(info("/m", Some("v24.0.0"), true, "可用")), &env);
    assert_eq!(m.path, "/m");
    assert_eq!(m.reason, "托管运行时（自动安装到数据目录）");
    assert!(probe_managed(Some(info("/m", None, false, "x"))).is_none());
    assert_eq!(resolve(None, None, &env).path, "/env");
    let old = vec![info("/old", Some("v18.0.0"), false, "太老")];
    let none = resolve(None, None, &old);
    assert_eq!(none.path, "/old");
    assert_eq!(none.version, None);
    assert_eq!(
        none.reason,
        format!(
            "未检测到满足 dsh 要求（^22.19 || >=24）的 Node.js。检测到 /old（太老）。{NODE_TOO_OLD_GUIDANCE}"
        )
    );
    assert_eq!(resolve(None, None, &vec![]).path, "");
}

#[test]
fn tools_are_found_beside_node_and_along_the_path() {
    let mut s = settings();
    let dirs = strings(&["/a", "/b"]);
    let files = strings(&["/b/pnpm", "/b/npm", "/set/pnpm"]);
    assert_eq!(resolve_pnpm(&s, "/node", &dirs, false, &files).as_deref(), Some("/b/pnpm"));
    assert_eq!(find_npm(&s, "/b", &dirs, false, &files).as_deref(), Some("/b/npm"));
    s.pnpm_path = Some("/set/pnpm".into());
    assert_eq!(resolve_pnpm(&s, "/node", &dirs, false, &files).as_deref(), Some("/set/pnpm"));
    s.pnpm_path = Some("/gone/pnpm".into());
    assert_eq!(resolve_pnpm(&s, "/node", &dirs, false, &files).as_deref(), Some("/b/pnpm"));
    assert_eq!(resolve_pnpm(&s, "/node", &dirs, false, &vec![]), None);
    let windows = strings(&["/a/pnpm.exe", "/a/pnpm.cmd"]);
    assert_eq!(which_in_dir("pnpm", "/a", true, &windows).as_deref(), Some("/a/pnpm.cmd"));
    assert_eq!(which_in_dir("pnpm", "/a", false, &windows), None);
    assert_eq!(
        list_tool_candidates("pnpm", "/n", &strings(&["/a"]), true),
        strings(&[
            "/n/pnpm.cmd", "/n/pnpm.exe", "/n/pnpm", "/a/pnpm.cmd", "/a/pnpm.exe", "/a/pnpm",
        ])
    );
}

#[test]
fn candidates_are_in_order() {
    assert_eq!(exe_name("node", true), "node.exe");
    assert_eq!(exe_name("Node.EXE", true), "Node.EXE");
    assert_eq!(exe_name("node", false), "node");
    let files = strings(&["/b/node", "/usr/bin/node"]);
    assert_eq!(from_path(&strings(&["/a", "/b"]), false, &files).as_deref(), Some("/b/node"));
    let common = common_locations(false, None);
    assert_eq!(
        common,
        strings(&["/usr/local/bin/node", "/opt/homebrew/bin/node", "/usr/bin/node"])
    );
    assert_eq!(
        common_locations(true, Some("C:\\L")).last().map(String::as_str),
        Some("C:\\L\\Programs\\nodejs\\node.exe")
    );
    assert_eq!(
        environment_candidates(Some("/b/node".into()), &strings(&["/nvm"]), &common, &files),
        strings(&["/b/node", "/nvm", "/usr/bin/node"])
    );
}

#[test]
fn pnpm_is_installed_with_npm_where_it_is_missing() {
    let looked = ensure_pnpm(
        PnpmEvent::Looked { pnpm: Some("/p".into()), npm: None },
        "/log",
        false,
    );
    assert!(matches!(looked.action, PnpmAction::Finish(Ok(p)) if p == "/p"));
    let none = ensure_pnpm(PnpmEvent::Looked { pnpm: None, npm: None }, "/log", false);
    match none.action {
        PnpmAction::Finish(Err(e)) => {
            assert!(e.starts_with("未检测到 pnpm，也未找到可用的 npm（无法自动安装）。"));
            assert!(e.contains(NO_NODE_FOUND_GUIDANCE));
        }
        other => panic!("unexpected: {other:?}"),
    }
    let run = ensure_pnpm(
        PnpmEvent::Looked { pnpm: None, npm: Some("/npm".into()) },
        "/log",
        false,
    );
    assert!(run.progress.unwrap().contains("正在通过 npm 自动安装"));
    match run.action {
        PnpmAction::RunNpm { npm, args } => {
            assert_eq!(npm, "/npm");
            assert_eq!(args, strings(&["install", "-g", "pnpm"]));
        }
        other => panic!("unexpected: {other:?}"),
    }
    let failed = ensure_pnpm(
        PnpmEvent::NpmEnded(Ok(ExitInfo { success: false, code: Some(-1) })),
        "/log",
        false,
    );
    match failed.action {
        PnpmAction::Finish(Err(e)) => {
            assert!(e.contains("npm 退出码 -1"), "{e}");
            assert!(e.contains("完整日志：/log"), "{e}");
        }
        other => panic!("unexpected: {other:?}"),
    }
    let again = ensure_pnpm(
        PnpmEvent::NpmEnded(Ok(ExitInfo { success: true, code: Some(0) })),
        "/log",
        false,
    );
    assert!(matches!(again.action, PnpmAction::LookAgain));
    let not_run = ensure_pnpm(PnpmEvent::NpmEnded(Err("gone".into())), "/log", false);
    assert!(matches!(not_run.action, PnpmAction::Finish(Err(e)) if e.contains("gone")));
    assert!(matches!(
        ensure_pnpm(PnpmEvent::LookedAgain(None), "/log", false).action,
        PnpmAction::AskPrefix { args } if args == ["config", "get", "prefix"]
    ));
    let tried = ensure_pnpm(
        PnpmEvent::PrefixAsked(Ok((true, " /prefix \n".into()))),
        "/log",
        true,
    );
    assert!(matches!(
        tried.action,
        PnpmAction::TryPrefix { candidate } if candidate == "/prefix/pnpm.cmd"
    ));
    let found = ensure_pnpm(
        PnpmEvent::PrefixTried { candidate: "/prefix/pnpm".into(), is_file: true },
        "/log",
        false,
    );
    assert_eq!(found.progress.as_deref(), Some("pnpm 已就绪"));
    assert!(matches!(found.action, PnpmAction::Finish(Ok(p)) if p == "/prefix/pnpm"));
    let lost = ensure_pnpm(
        PnpmEvent::PrefixTried { candidate: "/prefix/pnpm".into(), is_file: false },
        "/log",
        false,
    );
    assert!(matches!(lost.action, PnpmAction::Finish(Err(e)) if e.ends_with("完整日志：/log")));
}

#[test]
fn npm_prefix_is_trimmed_and_checked() {
    assert_eq!(npm_prefix(Ok((true, " /p\n".into()))), Ok("/p".into()));
    assert_eq!(npm_prefix(Ok((true, " \n".into()))), Err("npm prefix 为空".into()));
    assert_eq!(
        npm_prefix(Ok((false, "/p".into()))),
        Err("npm config get prefix 失败（请检查 npm 与 Node 环境）".into())
    );
    assert_eq!(npm_prefix(Err("x".into())), Err("无法读取 npm prefix：x".into()));
}

#[test]
fn nvm_on_windows_is_looked_for_in_two_places() {
    let dirs = vec!["C:/nvm".to_string(), "C:/data/nvm".to_string(), "C:/data//nvm".to_string()];
    assert_eq!(
        nvm_roots(Some("C:/nvm"), Some("C:/data"), &dirs),
        vec!["C:/nvm".to_string(), "C:/data/nvm".to_string()]
    );
    assert_eq!(
        nvm_roots(Some("C:/data//nvm"), Some("C:/data"), &dirs),
        vec!["C:/data//nvm".to_string()]
    );
    assert_eq!(nvm_roots(Some("C:/gone"), None, &dirs), Vec::<String>::new());
    assert_eq!(nvm_roots(None, Some("C:/data"), &dirs), vec!["C:/data/nvm".to_string()]);
}
