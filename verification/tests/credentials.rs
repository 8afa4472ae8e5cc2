use dsh_xlink::credentials::{
    bind_entries, classify_route, collect_refs, default_dsh_home, default_profile,
    default_reference, load_env_file, load_refs, patch_providers, profile_bindings, resolve,
    resolve_provider, CredentialSource, ProviderBinding, ProviderEntry, RefEntry,
    PROVIDER_DEEPSEEK, PROVIDER_MINIMAX_CN, PROVIDER_MINIMAX_EN, PROVIDER_ZAI_CODING_CN,
};
use dsh_xlink::instance::{InstanceRecord, InstanceRegistry};
use dsh_xlink::textmap::TextMap;
use dsh_xlink::yaml::Scalar;

const PATCH_SAMPLE: &str = r#"
- id: agent-default-model
  name: "@deepseek-ai/dsh-agent-default-model"
  config:
    provider: zai-coding-cn
    model: glm-5.3-flash
- id: llm-pi-ai
  name: "@deepseek-ai/dsh-llm-pi-ai"
  config:
    providers:
      opencode-go:
        api: openai-completions
        baseURL: https://opencode.ai/zen/v1
        apiKeyEnv: OPENCODE_GO_API_KEY
      minimax-cn:
        apiKeyEnv: MINIMAX_CN_CUSTOM_KEY
        baseURL: https://api.minimaxi.com/anthropic
      zai-coding-cn:
        apiKeyEnv: ZAI_CODING_CN_API_KEY
        models:
          - id: glm-5.3
"#;

fn map(entries: &[(&str, &str)]) -> TextMap {
    let mut out = TextMap::new();
    for (k, v) in entries {
        out.insert(k.to_string(), v.to_string());
    }
    out
}

#[test]
fn patch_providers_extracts_explicit_references_only() {
    let bindings = patch_providers(PATCH_SAMPLE);
    assert_eq!(
        bindings.len(),
        3,
        "无关条目（agent-default-model / models 列表）不产出绑定"
    );
    let minimax = bindings
        .iter()
        .find(|b| b.route == "minimax-cn")
        .expect("应有 minimax-cn");
    assert_eq!(minimax.reference, "MINIMAX_CN_CUSTOM_KEY");
    assert!(minimax.explicit);
}

#[test]
fn patches_that_are_no_sequence_declare_nothing() {
    assert!(patch_providers("a: b").is_empty());
    assert!(patch_providers("{{{").is_empty());
    assert!(patch_providers("- config: 3").is_empty());
    assert!(patch_providers("- config:\n    providers:\n      x:\n        apiKeyEnv: '  '").is_empty());
}

#[test]
fn entries_without_a_reference_make_no_binding() {
    let entries = vec![
        ProviderEntry { route: Some("a".into()), api_key_env: Some(" KEY ".into()) },
        ProviderEntry { route: None, api_key_env: Some("KEY".into()) },
        ProviderEntry { route: Some("b".into()), api_key_env: None },
        ProviderEntry { route: Some("c".into()), api_key_env: Some("  ".into()) },
    ];
    let bindings = bind_entries(&entries);
    assert_eq!(bindings.len(), 1);
    assert_eq!(bindings[0].route, "a");
    assert_eq!(bindings[0].reference, "KEY");
}

#[test]
fn classify_routes_into_subscription_providers() {
    assert_eq!(
        classify_route("minimax-cn", None),
        Some(PROVIDER_MINIMAX_CN)
    );
    assert_eq!(
        classify_route("minimax-en", None),
        Some(PROVIDER_MINIMAX_EN)
    );
    assert_eq!(
        classify_route("minimax-intl", None),
        Some(PROVIDER_MINIMAX_EN)
    );
    assert_eq!(classify_route("deepseek", None), Some(PROVIDER_DEEPSEEK));
    assert_eq!(
        classify_route("zai-coding-cn", None),
        Some(PROVIDER_ZAI_CODING_CN)
    );
    assert_eq!(
        classify_route("bigmodel", Some("https://bigmodel.cn/api/paas/v4")),
        Some(PROVIDER_ZAI_CODING_CN)
    );
    assert_eq!(
        classify_route("minimax", Some("https://api.minimaxi.com/anthropic")),
        Some(PROVIDER_MINIMAX_CN)
    );
    assert_eq!(
        classify_route("minimax", Some("https://api.minimax.io/v1")),
        Some(PROVIDER_MINIMAX_EN)
    );
    assert_eq!(
        classify_route("opencode-go", None),
        None,
        "不认识的 route 必须返回 None"
    );
}

#[test]
fn addresses_classify_routes_of_other_names() {
    assert_eq!(
        classify_route("mine", Some("https://API.DEEPSEEK.com/v1")),
        Some(PROVIDER_DEEPSEEK)
    );
    assert_eq!(classify_route("mine", Some("https://minimax.io")), Some(PROVIDER_MINIMAX_EN));
    assert_eq!(classify_route("mine", Some("https://minimax.cn")), Some(PROVIDER_MINIMAX_CN));
    assert_eq!(
        classify_route("mine", Some("https://bigmodel.cn")),
        Some(PROVIDER_ZAI_CODING_CN)
    );
    assert_eq!(classify_route("mine", Some("https://example.org")), None);
}

#[test]
fn default_reference_follows_kernel_derivation() {
    assert_eq!(
        default_reference(PROVIDER_MINIMAX_CN).as_deref(),
        Some("MINIMAX_CN_API_KEY")
    );
    assert_eq!(
        default_reference(PROVIDER_MINIMAX_EN).as_deref(),
        Some("MINIMAX_EN_API_KEY")
    );
    assert_eq!(
        default_reference(PROVIDER_DEEPSEEK).as_deref(),
        Some("DEEPSEEK_API_KEY")
    );
    assert_eq!(
        default_reference(PROVIDER_ZAI_CODING_CN).as_deref(),
        Some("ZAI_CODING_CN_API_KEY")
    );
    assert_eq!(default_reference("unknown"), None);
}

#[test]
fn resolve_prefers_env_then_credentials_then_env_file() {
    let refs = load_refs(Some(
        "version: 1\nrefs:\n  MINIMAX_CN_API_KEY: from-yaml\n  DEEPSEEK_API_KEY: ds-yaml\n",
    ));
    let env_file = load_env_file(Some("# comment\nDEEPSEEK_API_KEY=ds-env\nEMPTY_KEY=\n"));
    let env = TextMap::new();

    let resolved = resolve("MINIMAX_CN_API_KEY", &env, &refs, &env_file);
    assert_eq!(resolved.value.as_deref(), Some("from-yaml"));
    assert_eq!(resolved.source, CredentialSource::CredentialsYaml);

    let resolved = resolve("DEEPSEEK_API_KEY", &env, &refs, &env_file);
    assert_eq!(
        resolved.value.as_deref(),
        Some("ds-yaml"),
        "凭据文件优先于 .env"
    );
    assert_eq!(
        resolve("EMPTY_KEY", &env, &refs, &env_file).value,
        None,
        "空值视为未配置"
    );
    assert_eq!(resolve("MISSING_KEY", &env, &refs, &env_file).value, None);

    let env = map(&[("DEEPSEEK_API_KEY", " ds-process ")]);
    let resolved = resolve("DEEPSEEK_API_KEY", &env, &refs, &env_file);
    assert_eq!(resolved.value.as_deref(), Some("ds-process"));
    assert_eq!(resolved.source, CredentialSource::Env);
    let resolved = resolve("DEEPSEEK_API_KEY", &TextMap::new(), &TextMap::new(), &env_file);
    assert_eq!(resolved.value.as_deref(), Some("ds-env"));
    assert_eq!(resolved.source.as_str(), ".env");
}

#[test]
fn numbers_and_flags_are_values_too() {
    let refs = load_refs(Some("refs:\n  A: 2\n  B: true\n  C: [1]\n  3: x\n  D: text\n"));
    assert_eq!(refs.get("A"), Some("2"));
    assert_eq!(refs.get("B"), Some("true"));
    assert_eq!(refs.get("C"), None);
    assert_eq!(refs.get("3"), None);
    assert_eq!(refs.get("D"), Some("text"));
    assert!(load_refs(Some("refs: 3")).get("A").is_none());
    assert!(load_refs(Some(": : :")).get("A").is_none());
    let made = collect_refs(&vec![
        RefEntry { key: Some("K".into()), value: Scalar::Flag(false) },
        RefEntry { key: Some("K".into()), value: Scalar::Number("7".into()) },
        RefEntry { key: None, value: Scalar::Text("lost".into()) },
        RefEntry { key: Some("O".into()), value: Scalar::Other },
    ]);
    assert_eq!(made.get("K"), Some("7"));
    assert!(!made.contains_key("O"));
}

#[test]
fn env_file_parses_quotes_and_comments() {
    let map = load_env_file(Some("A=1\n# B=2\nC = \"three\"\nD='four'\n\n"));
    assert_eq!(map.get("A"), Some("1"));
    assert_eq!(map.get("C"), Some("three"));
    assert_eq!(map.get("D"), Some("four"));
    assert!(!map.contains_key("B"), "注释行不解析");
}

#[test]
fn env_file_edges() {
    let map = load_env_file(Some("noequals\n=value\nQ=\"\nA=1\nA=b=c\nM=\"x'\n"));
    assert!(!map.contains_key("noequals"));
    assert!(!map.contains_key(""));
    assert_eq!(map.get("Q"), Some("\""));
    assert_eq!(map.get("A"), Some("b=c"));
    assert_eq!(map.get("M"), Some("\"x'"));
}

#[test]
fn missing_files_are_treated_as_unconfigured() {
    let resolved =
        resolve("ANY_KEY", &TextMap::new(), &load_refs(None), &load_env_file(None));
    assert_eq!(resolved.value, None);
    assert!(profile_bindings(None, None).is_empty());
}

#[test]
fn the_first_patch_with_bindings_counts() {
    let other = "- config:\n    providers:\n      deepseek:\n        apiKeyEnv: OTHER\n";
    assert_eq!(profile_bindings(Some("[]"), Some(other))[0].reference, "OTHER");
    assert_eq!(profile_bindings(Some(PATCH_SAMPLE), Some(other)).len(), 3);
}

#[test]
fn a_declared_reference_is_used_in_place_of_the_usual_one() {
    let bindings = vec![ProviderBinding {
        route: "deepseek-custom".into(),
        reference: "MY_KEY".into(),
        explicit: true,
    }];
    let env = map(&[("MY_KEY", "mine"), ("DEEPSEEK_API_KEY", "usual")]);
    let none = TextMap::new();
    let found = resolve_provider(PROVIDER_DEEPSEEK, &bindings, &env, &none, &none).unwrap();
    assert_eq!(found.reference, "MY_KEY");
    assert_eq!(found.value.as_deref(), Some("mine"));
    let found = resolve_provider(PROVIDER_DEEPSEEK, &vec![], &env, &none, &none).unwrap();
    assert_eq!(found.reference, "DEEPSEEK_API_KEY");
    assert!(resolve_provider(PROVIDER_MINIMAX_CN, &bindings, &env, &none, &none).is_none());
    assert!(resolve_provider("unknown", &vec![], &env, &none, &none).is_none());
}

#[test]
fn the_default_profile_is_the_recorded_one() {
    assert_eq!(default_dsh_home("/x"), "/x/kernels/dsh/instances/default/home");
    assert_eq!(default_profile(None, "dev"), "dev");
    assert_eq!(default_profile(None, "  "), "web");
    let mut registry = InstanceRegistry::default();
    assert_eq!(default_profile(Some(&registry), "dev"), "dev");
    let mut record = InstanceRecord::new("/x", "default", "dsh", 3090, 0);
    record.profile = "recorded".into();
    registry.add(record).unwrap();
    assert_eq!(default_profile(Some(&registry), "dev"), "recorded");
}
