use dsh_xlink::guard::attribution::{
    attribute, bundle_member, combo_route_members, environment_failure, excerpt,
    has_kernel_package_ref, is_anchored_plugin_hit, is_error_line, is_kernel_evidence_line,
    EVIDENCE_MAX_CHARS,
};
use dsh_xlink::guard::incident::{HealthReport, Incident, Suspect};
use dsh_xlink::guard::runtime::{
    diagnose_runtime, frontend_bundle_wording, has_client_bundle_frames, load_incident,
    log_has_http_failure, quarantine_plan, reclassify_frontend_bundle_incident, runtime_cause,
    runtime_evidence, soft_attribute_blank, RuntimeFacts,
};
use dsh_xlink::plugins::StoreItem;

fn store_item(id: &str, name: &str) -> StoreItem {
    StoreItem {
        id: id.to_string(),
        name: name.to_string(),
        origin: String::from("npm"),
        source: name.to_string(),
        installed_version: String::from("1.0.0"),
        latest_version: None,
        mode: String::from("link"),
        pinned: false,
        installed_at: String::new(),
        updated_at: String::new(),
        repo_url: None,
        description: None,
    }
}

#[test]
fn attributes_link_layout_by_materialized_path() {
    let tail = "node:internal/modules/esm/resolve\n\
                Error: Cannot find module '/Users/u/.dsh/desktop/kernels/0.1.1/plugins/@scope__pkg/lib/index.js'\n";
    let items = vec![store_item("@scope__pkg", "@scope/pkg")];
    let suspects = attribute(tail, &items, "0.1.1");
    assert_eq!(suspects.len(), 1);
    assert_eq!(suspects[0].kind, "plugin");
    assert_eq!(suspects[0].id, "@scope__pkg");
    assert!(suspects[0].evidence.contains("Cannot find module"));
}

#[test]
fn attributes_copy_layout_by_package_name() {
    let tail = "Error [ERR_MODULE_NOT_FOUND]: Cannot find package '@scope/pkg' imported from /Users/u/.dsh/profiles/web/node_modules/@scope/pkg/lib/index.js\n";
    let items = vec![store_item("@scope__pkg", "@scope/pkg")];
    let suspects = attribute(tail, &items, "0.1.1");
    assert_eq!(suspects.len(), 1);
    assert_eq!(suspects[0].name, "@scope/pkg");
}

#[test]
fn ignores_chatty_but_innocent_plugins() {
    let tail = "[loader] loading plugin alpha\n\
                [loader] loading plugin beta\n\
                Error: Cannot find package 'beta' imported from lib/index.js\n";
    let items = vec![store_item("alpha", "alpha"), store_item("beta", "beta")];
    let suspects = attribute(tail, &items, "0.1.1");
    assert_eq!(suspects.len(), 1);
    assert_eq!(suspects[0].id, "beta");
}

#[test]
fn bare_substring_occurrences_do_not_blame_short_names() {
    let tail = "Error: something failed while preparing plugins\n";
    let items = vec![store_item("p", "p"), store_item("plug_x", "plug")];
    assert!(attribute(tail, &items, "0.1.1").is_empty());
}

#[test]
fn plugin_named_like_a_url_segment_is_not_blamed() {
    let tail = "Error: GET /assets/main.js 500 Internal Server Error\n";
    let items = vec![store_item("main", "main")];
    assert!(
        attribute(tail, &items, "0.1.1").is_empty(),
        "URL 路径不是包路径，不能作为归因证据"
    );

    let tail = "Error: GET /main HTTP/1.1 500\n";
    assert!(attribute(tail, &items, "0.1.1").is_empty());
}

#[test]
fn module_paths_still_attribute_after_anchoring() {
    let items = vec![store_item("main", "main")];
    let copy_tail =
        "Error: Cannot find module '/Users/u/.dsh/profiles/web/node_modules/main/index.js'\n";
    let suspects = attribute(copy_tail, &items, "0.1.1");
    assert_eq!(suspects.len(), 1);
    assert_eq!(suspects[0].id, "main");

    let link_tail = "Error: ENOENT: no such file '/Users/u/.dsh/desktop/kernels/0.1.1/plugins/main/index.js'\n";
    assert_eq!(attribute(link_tail, &items, "0.1.1").len(), 1);
}

#[test]
fn plugin_name_that_prefixes_another_package_is_not_blamed() {
    let tail = "Error: Cannot find module '/p/node_modules/main-utils/index.js'\n";
    let items = vec![store_item("main", "main")];
    assert!(attribute(tail, &items, "0.1.1").is_empty());
}

#[test]
fn plugin_id_that_prefixes_another_id_is_not_blamed() {
    let tail = "Error: ENOENT: no such file '/p/plugins/main__extra/index.js'\n";
    let items = vec![
        store_item("main", "main"),
        store_item("main__extra", "@scope/main-extra"),
    ];
    let suspects = attribute(tail, &items, "0.1.1");
    assert_eq!(suspects.len(), 1);
    assert_eq!(
        suspects[0].id, "main__extra",
        "只有 id 与路径段完全一致的那个插件才算被命中"
    );
}

#[test]
fn no_match_yields_empty_list() {
    let tail = "Error: EADDRINUSE: address already in use 127.0.0.1:3090\n";
    let items = vec![store_item("p", "p")];
    assert!(attribute(tail, &items, "0.1.1").is_empty());
}

#[test]
fn kernel_fallback_when_no_plugin_matches() {
    let tail = "Error: Cannot find module '@deepseek-ai/dsh/lib/bin.js'\n";
    let items = vec![store_item("p", "p")];
    let suspects = attribute(tail, &items, "0.1.2");
    assert_eq!(suspects.len(), 1);
    assert_eq!(suspects[0].kind, "kernel");
    assert_eq!(suspects[0].id, "0.1.2");
}

#[test]
fn kernel_fallback_for_client_module_externals_drift() {
    let tail = "Failed to load plugins\n\
                failed to import loader entry 84ed0f28 \
                (@deepseek-ai/dsh-client-ui-theme): client-modules: \
                require(\"@deepseek-ai/dsh-client-runtime/client\") \
                missed the module table — not a platform seed word, \
                not a materialized module, and no registered package \
                factory (a build-time externals drift, or a dynamic \
                dependency that did not arrive)\n";
    let items = vec![store_item("p", "p")];
    let suspects = attribute(tail, &items, "0.1.1-rc.2");
    assert_eq!(suspects.len(), 1);
    assert_eq!(suspects[0].kind, "kernel");
    assert_eq!(suspects[0].id, "0.1.1-rc.2");
    assert!(suspects[0].evidence.contains("client-modules"));
    assert!(suspects[0].evidence.contains("build-time externals drift"));
}

#[test]
fn kernel_fallback_for_any_dsh_dash_package_in_error_line() {
    let tail = "Error: failed to load chunk for @deepseek-ai/dsh-web-app/entry\n";
    let items: Vec<StoreItem> = Vec::new();
    let suspects = attribute(tail, &items, "0.1.0");
    assert_eq!(suspects.len(), 1);
    assert_eq!(suspects[0].kind, "kernel");
}

#[test]
fn kernel_fallback_ignores_community_plugin_with_dsh_in_name() {
    let tail = "Error: Cannot find package '@scope/dsh-foo' \
                imported from plugins/@scope__dsh-foo/lib/index.js\n";
    let items = vec![store_item("@scope__dsh-foo", "@scope/dsh-foo")];
    let suspects = attribute(tail, &items, "0.1.0");
    assert_eq!(suspects.len(), 1);
    assert_eq!(suspects[0].kind, "plugin");
    assert_eq!(suspects[0].id, "@scope__dsh-foo");
}

#[test]
fn is_kernel_evidence_line_recognises_loader_phrases() {
    assert!(is_kernel_evidence_line(
        "Error: client-modules: require('x') missed the module table"
    ));
    assert!(is_kernel_evidence_line(
        "Error: a build-time externals drift was detected"
    ));
    assert!(is_kernel_evidence_line(
        "Error: missed the module table for chunk abc"
    ));
    assert!(is_kernel_evidence_line(
        "Error: not a platform seed word: foo"
    ));
    assert!(is_kernel_evidence_line(
        "Error: not a materialized module: bar"
    ));
    assert!(is_kernel_evidence_line(
        "Error: no registered package factory for baz"
    ));
    assert!(is_kernel_evidence_line(
        "Error: failed to load @deepseek-ai/dsh-base/lib/index.js"
    ));
    assert!(!is_kernel_evidence_line(
        "client-modules: pre-bundling 12 chunks"
    ));
    assert!(!is_kernel_evidence_line("Error: EADDRINUSE: port in use"));
}

#[test]
fn has_kernel_package_ref_anchors_on_boundary() {
    assert!(has_kernel_package_ref("@deepseek-ai/dsh/lib/bin.js"));
    assert!(has_kernel_package_ref(
        "(@deepseek-ai/dsh-client-ui-theme):"
    ));
    assert!(has_kernel_package_ref(
        "require(\"@deepseek-ai/dsh-client-runtime/client\")"
    ));
    assert!(has_kernel_package_ref("'@deepseek-ai/dsh-base'"));
    assert!(!has_kernel_package_ref("@scope/dsh-foo"));
    assert!(!has_kernel_package_ref("@scope/dshfoo"));
    assert!(!has_kernel_package_ref("dsh-foo"));
}

#[test]
fn runtime_cause_prefers_plugin_evidence_and_defaults_to_unknown() {
    assert_eq!(runtime_cause(&vec![]), "unknown");
    assert_eq!(
        runtime_cause(&vec![
            Suspect {
                kind: "kernel".into(),
                id: "1".into(),
                name: "dsh".into(),
                evidence: String::new(),
            },
            Suspect {
                kind: "plugin".into(),
                id: "p".into(),
                name: "plugin".into(),
                evidence: String::new(),
            }
        ]),
        "plugin"
    );
}

#[test]
fn soft_attribute_blank_lists_installed_plugins() {
    let report = HealthReport {
        kind: "blank".into(),
        message: "工作台页面加载完成后仍为空白".into(),
        stack: String::new(),
        page_url: "http://127.0.0.1:3090/".into(),
    };
    let items = vec![store_item("alpha", "alpha"), store_item("beta", "beta")];
    let soft = soft_attribute_blank(&items, &report);
    assert_eq!(soft.len(), 2);
    assert!(soft.iter().all(|s| s.kind == "plugin"));
    let names: Vec<&str> = soft.iter().map(|s| s.name.as_str()).collect();
    assert!(names.contains(&"alpha") && names.contains(&"beta"));
}

#[test]
fn soft_attribute_blank_no_plugins_returns_empty() {
    let report = HealthReport {
        kind: "blank".into(),
        message: String::new(),
        stack: String::new(),
        page_url: String::new(),
    };
    let items: Vec<StoreItem> = Vec::new();
    assert!(soft_attribute_blank(&items, &report).is_empty());
}

#[test]
fn soft_attribute_blank_ignores_non_blank_kinds() {
    let report = HealthReport {
        kind: "runtime-error".into(),
        message: String::new(),
        stack: String::new(),
        page_url: String::new(),
    };
    let items = vec![store_item("alpha", "alpha")];
    assert!(soft_attribute_blank(&items, &report).is_empty());
}

#[test]
fn log_has_http_failure_detects_5xx_and_4xx_access_lines() {
    assert!(log_has_http_failure(
        "2024-01-15T12:00:00 GET /plugins/x/main.js 500 Internal Server Error"
    ));
    assert!(log_has_http_failure(
        "127.0.0.1 - - [15/Jan/2024:12:00:00] \"GET /assets/index.css HTTP/1.1\" 404 -"
    ));
    assert!(!log_has_http_failure(
        "2024-01-15T12:00:00 info: ready on port 3090"
    ));
    assert!(!log_has_http_failure("id=12345"));
}

#[test]
fn is_error_line_catches_more_shapes() {
    assert!(is_error_line(
        "TypeError: cannot read property 'x' of undefined"
    ));
    assert!(is_error_line("Uncaught (in promise) Connection refused"));
    assert!(is_error_line("\"GET /assets/main.js HTTP/1.1\" 500 -"));
}

#[test]
fn runtime_evidence_attributes_plugin_from_frontend_stack() {
    let report = HealthReport {
        kind: "runtime-error".into(),
        message: "组件初始化失败".into(),
        stack: "at mount (http://127.0.0.1:3090/plugins/ghost/main.js:1:1)".into(),
        page_url: "http://127.0.0.1:3090".into(),
    };
    let suspects = attribute(
        &runtime_evidence(&report, ""),
        &vec![store_item("ghost", "ghost-plugin")],
        "1.0.0",
    );
    assert_eq!(suspects.len(), 1);
    assert_eq!(suspects[0].kind, "plugin");
    assert_eq!(suspects[0].id, "ghost");
}

#[test]
fn excerpt_caps_long_evidence() {
    let long_line = format!("Error: {}", "x".repeat(2000));
    let lines = vec!["context".to_string(), long_line];
    let text = excerpt(&lines, 1);
    assert!(text.chars().count() <= EVIDENCE_MAX_CHARS + 1);
    assert!(text.ends_with('…'));
}

const MACOS_BUNDLE_STACK: &str = "validateRecord@http://127.0.0.1:4090/plugins/:148814:26\n\
expandAssistantStream@http://127.0.0.1:4090/plugins/:148722:34\n\
replace@http://127.0.0.1:4090/plugins/:148874:80\n\
installWindow@http://127.0.0.1:4090/plugins/:149517:49\n\
acceptEventChange@http://127.0.0.1:4090/plugins/:149504:25\n\
publish@http://127.0.0.1:4090/plugins/:149479:29\n\
publish@http://127.0.0.1:4090/plugins/:147869:22\n\
replaceFromOpening@http://127.0.0.1:4090/plugins/:1115:25\n\
replaceGeneration@http://127.0.0.1:4090/plugins/:1093:28\n\
open@http://127.0.0.1:4090/plugins/:1011:28";



#[test]
fn combo_route_members_counts_members() {
    assert_eq!(
        combo_route_members(
            "Error: 前端堆栈：f@http://127.0.0.1:4090/plugins/??a/client.js&rev=1:2:3"
        ),
        Some(1)
    );
    assert_eq!(
        combo_route_members(
            "Error: 前端堆栈：f@http://127.0.0.1:4090/plugins/??a/client.js,b/client.js&rev=1:2:3"
        ),
        Some(2)
    );
    assert_eq!(
        combo_route_members("Error: 前端堆栈：f@http://127.0.0.1:4090/plugins/a/client.js:2:3"),
        None
    );
    assert_eq!(
        combo_route_members("/plugins/??a/client.js,a/client.js&rev=1"),
        Some(2)
    );
}

#[test]
fn bundle_member_requires_a_whole_member_segment() {
    assert!(bundle_member(
        "Error: f@http://127.0.0.1:4090/plugins/??main/client.js&rev=1:2:3",
        "main"
    ));
    assert!(bundle_member(
        "Error: f@http://127.0.0.1:4090/plugins/main/client.js:2:3",
        "main"
    ));
    assert!(!bundle_member(
        "Error: f@http://127.0.0.1:4090/plugins/??main-utils/client.js&rev=1:2:3",
        "main"
    ));
    assert!(!bundle_member(
        "Error: GET /assets/main/client.js 500",
        "main"
    ));
}

#[test]
fn single_member_combo_attributes_plugin_from_frontend_stack() {
    let report = HealthReport {
        kind: "unhandled-rejection".into(),
        message: "TypeError: 组件初始化失败".into(),
        stack:
            "at mount (http://127.0.0.1:4090/plugins/??ghost-plugin/client.js&rev=abc:12:26)"
                .into(),
        page_url: "http://127.0.0.1:4090".into(),
    };
    let suspects = attribute(
        &runtime_evidence(&report, ""),
        &vec![store_item("ghost-plugin", "ghost-plugin")],
        "1.0.0",
    );
    assert_eq!(suspects.len(), 1);
    assert_eq!(suspects[0].kind, "plugin");
    assert_eq!(suspects[0].id, "ghost-plugin");
}

#[test]
fn multi_member_combo_blames_neither_plugin_nor_kernel() {
    let evidence = runtime_evidence(
        &HealthReport {
            kind: "unhandled-rejection".into(),
            message: "TypeError: boom".into(),
            stack: "at validateRecord (http://127.0.0.1:4090/plugins/??ghost-plugin/client.js,@deepseek-ai/dsh-api-session-controller/client.js&rev=abc:148814:26)".into(),
            page_url: "http://127.0.0.1:4090".into(),
        },
        "",
    );
    assert!(
        attribute(
            &evidence,
            &vec![store_item("ghost-plugin", "ghost-plugin")],
            "1.0.0"
        )
        .is_empty(),
        "多成员组合里的插件名不能作为指向该插件的证据"
    );
    assert!(!is_kernel_evidence_line(
        "Error: 前端堆栈：at validateRecord (http://127.0.0.1:4090/plugins/??ghost-plugin/client.js,@deepseek-ai/dsh-api-session-controller/client.js&rev=abc:148814:26)"
    ));
}

#[test]
fn client_bundle_frames_only_count_frontend_stack_lines() {
    let evidence = runtime_evidence(
        &HealthReport {
            kind: "unhandled-rejection".into(),
            message: String::new(),
            stack: "validateRecord@http://127.0.0.1:4090/plugins/:148814:26".into(),
            page_url: String::new(),
        },
        "",
    );
    assert!(has_client_bundle_frames(&evidence));
    assert!(!has_client_bundle_frames(
        "Error: GET /plugins/??x/client.js 500 Internal Server Error"
    ));
}




#[test]
fn reclassification_leaves_other_incidents_alone() {
    let bundle_health = Some(HealthReport {
        kind: String::from("unhandled-rejection"),
        message: MACOS_BUNDLE_STACK.to_string(),
        stack: MACOS_BUNDLE_STACK.to_string(),
        page_url: String::from("http://127.0.0.1:4090/"),
    });
    let mut with_suspect = Incident {
        recovered: true,
        safe_mode: true,
        message: String::from("工作台已在停用以下插件后成功启动。"),
        suspects: vec![Suspect {
            kind: String::from("plugin"),
            id: String::from("ghost-plugin"),
            name: String::from("ghost-plugin"),
            evidence: String::new(),
        }],
        attempts: Vec::new(),
        log_tail: String::new(),
        log_path: String::new(),
        hint: None,
        at: 1,
        cause: String::from("plugin"),
        health: bundle_health,
    };
    reclassify_frontend_bundle_incident(&mut with_suspect);
    assert_eq!(with_suspect.cause, "plugin");
    assert_eq!(with_suspect.message, "工作台已在停用以下插件后成功启动。");

    let mut startup = Incident {
        cause: String::from("unknown"),
        health: None,
        ..with_suspect.clone()
    };
    startup.suspects.clear();
    reclassify_frontend_bundle_incident(&mut startup);
    assert_eq!(startup.cause, "unknown", "没有健康证据就不能改判");
}

#[test]
fn attribution_matches_windows_backslash_paths() {
    let items = vec![store_item("ghost-plugin", "ghost-plugin")];
    let bare =
        r"Error: at C:\Users\me\kernels\0.1.5\node_modules\ghost-plugin\lib\index.js:1:1";
    assert!(
        is_anchored_plugin_hit(bare, &items[0]),
        "反斜杠路径必须命中 node_modules/<name> 段落"
    );
    let suspects = attribute(bare, &items, "0.1.5");
    assert_eq!(suspects.len(), 1, "反斜杠路径必须能归因到插件");
    assert_eq!(suspects[0].id, "ghost-plugin");

    assert!(
        is_kernel_evidence_line(
            r"Error: Cannot find module 'C:\Users\me\kernels\0.1.5\node_modules\@deepseek-ai\dsh\lib\bin.js'"
        ),
        "反斜杠形态的内核包路径同样要命中内核命名空间"
    );
    assert!(!is_anchored_plugin_hit(
        r"Error: at C:\tmp\node_modules\ghost-plugin-utils\index.js:1:1",
        &items[0]
    ));
}

#[test]
fn environment_failure_recognizes_port_and_permission_errors() {
    assert!(environment_failure(
        "Error: listen EADDRINUSE: address already in use 127.0.0.1:3090"
    )
    .is_some());
    assert!(environment_failure("Error: EACCES: permission denied, open '/x'").is_some());
    assert!(environment_failure(
        "Error: The module was compiled against a different Node.js version using NODE_MODULE_VERSION 127"
    )
    .is_some());
    assert!(environment_failure("Error: ENOSPC: no space left on device").is_some());
    assert!(
        environment_failure("TypeError: cannot read property 'x' of undefined").is_none(),
        "普通前端/插件错误不得被当成环境类失败"
    );
    assert!(environment_failure("").is_none());
}

fn runtime_facts() -> RuntimeFacts {
    RuntimeFacts {
        now: 1_789_133_158,
        log_tail: String::new(),
        log_path: String::from("/tmp/kernel.log"),
        store_items: vec![store_item("ghost-plugin", "ghost-plugin")],
        kernel_label: String::from("0.1.5"),
    }
}

#[test]
fn runtime_client_bundle_fault_is_classified_without_blaming_anyone() {
    let report = || HealthReport {
        kind: "unhandled-rejection".into(),
        message: "TypeError: Assistant stream raw chunk must be a lossless JSON object".into(),
        stack: MACOS_BUNDLE_STACK.into(),
        page_url: "http://127.0.0.1:4090/".into(),
    };
    assert!(
        quarantine_plan(&report(), &runtime_facts()).is_none(),
        "前端 bundle 证据不得隔离任何插件"
    );

    let incident = diagnose_runtime(None, report(), runtime_facts(), false);

    assert_eq!(incident.cause, "frontend");
    assert!(
        incident.suspects.is_empty(),
        "没有包名就不许指认任何嫌疑对象"
    );
    assert!(
        incident.message.contains("前端") && incident.message.contains("bundle"),
        "文案必须点明异常来自前端 bundle：{}",
        incident.message
    );
    assert!(
        incident.message.contains("仍在运行"),
        "页面仍在运行时不得把它说成页面故障：{}",
        incident.message
    );
    let hint = incident.hint.clone().unwrap_or_default();
    assert!(
        hint.contains("消息"),
        "下一步必须引导用户反馈自检证据里的错误消息：{hint}"
    );
    assert_eq!(
        incident.health.map(|health| health.kind),
        Some(String::from("unhandled-rejection")),
        "自检证据必须原样留在事故里"
    );
}

#[test]
fn runtime_single_bundle_plugin_evidence_still_quarantines() {
    let report = || HealthReport {
        kind: "unhandled-rejection".into(),
        message: "TypeError: boom".into(),
        stack: "at mount (http://127.0.0.1:4090/plugins/??ghost-plugin/client.js&rev=abc:12:26)"
            .into(),
        page_url: "http://127.0.0.1:4090/".into(),
    };
    let quarantined = quarantine_plan(&report(), &runtime_facts()).expect("isolated");
    assert_eq!(quarantined.len(), 1);
    assert_eq!(quarantined[0].id, "ghost-plugin");

    let incident = diagnose_runtime(None, report(), runtime_facts(), true);
    assert_eq!(incident.cause, "plugin");
    assert_eq!(incident.suspects.len(), 1);
    assert_eq!(incident.suspects[0].name, "ghost-plugin");
}

#[test]
fn stored_bundle_incident_is_reclassified_without_rewriting_evidence() {
    let attempts = vec![
        String::from("工作台健康探针报告：unhandled-rejection：validateRecord@…"),
        String::from("未发现足够的插件或内核证据，暂不作强归因"),
    ];
    let stored = Incident {
        recovered: false,
        safe_mode: false,
        message: String::from("工作台页面异常，但暂未找到足够证据区分插件和内核。"),
        suspects: Vec::new(),
        attempts: attempts.clone(),
        log_tail: String::from("dsh web: http://127.0.0.1:4090/?token=…\n"),
        log_path: String::from("/tmp/kernel.log"),
        hint: Some(String::from(
            "请打开日志并重试；若持续发生，再到内核版本页切换其他版本或重新安装当前版本。",
        )),
        at: 1_789_133_158,
        cause: String::from("unknown"),
        health: Some(HealthReport {
            kind: String::from("unhandled-rejection"),
            message: MACOS_BUNDLE_STACK.to_string(),
            stack: MACOS_BUNDLE_STACK.to_string(),
            page_url: String::from("http://127.0.0.1:4090/"),
        }),
    };

    let loaded = load_incident(Some(stored)).expect("incident loads");

    assert_eq!(loaded.cause, "frontend");
    assert_eq!(loaded.message, frontend_bundle_wording().0);
    assert_eq!(loaded.hint, Some(frontend_bundle_wording().1));
    assert_eq!(loaded.attempts, attempts, "原始轨迹不得被改写");
    assert_eq!(
        loaded.log_tail, "dsh web: http://127.0.0.1:4090/?token=…\n",
        "原始日志片段不得被改写"
    );
    assert_eq!(loaded.at, 1_789_133_158);
}
