//! Finding the keys of model providers: which reference a provider's key has,
//! and which value the reference has. Keys are read, never kept or shown.

use crate::instance;
use crate::instance::InstanceRegistry;
use crate::paths;
use crate::text;
use crate::textmap;
use crate::textmap::TextMap;
use crate::yaml;
use crate::yaml::{Scalar, ScalarModel};
use vstd::prelude::*;

verus! {

pub const PROVIDER_MINIMAX_CN: &'static str = "minimax_cn";

pub const PROVIDER_MINIMAX_EN: &'static str = "minimax_en";

pub const PROVIDER_DEEPSEEK: &'static str = "deepseek";

pub const PROVIDER_ZAI_CODING_CN: &'static str = "zai_coding_cn";

/// The reference of the organisation that a plan belongs to.
pub const ZAI_ORGANIZATION_REF: &'static str = "ZAI_CODING_CN_ORGANIZATION";

/// The reference of the project that a plan belongs to.
pub const ZAI_PROJECT_REF: &'static str = "ZAI_CODING_CN_PROJECT";

/// The reference of the kind of a plan.
pub const ZAI_PLAN_TYPE_REF: &'static str = "ZAI_CODING_CN_PLAN_TYPE";

// -------------------------------------------------------------------- providers

/// The provider that a route's name tells.
pub open spec fn provider_by_name(route: Seq<char>, base_url: Option<Seq<char>>) -> Option<
    Seq<char>,
> {
    let low = text::lower_text(route);
    if text::has(low, "deepseek"@) {
        Some(PROVIDER_DEEPSEEK@)
    } else if text::has(low, "zai"@) || text::has(low, "bigmodel"@) || text::has(low, "glm"@) {
        Some(PROVIDER_ZAI_CODING_CN@)
    } else if text::has(low, "minimax"@) {
        if text::has(low, "cn"@) || (base_url matches Some(u) && (text::has(u, "minimaxi.com"@) || text::has(
            u,
            "minimax.cn"@,
        ))) {
            Some(PROVIDER_MINIMAX_CN@)
        } else {
            Some(PROVIDER_MINIMAX_EN@)
        }
    } else {
        None
    }
}

/// The provider that an address tells.
pub open spec fn provider_by_url(url: Seq<char>) -> Option<Seq<char>> {
    let low = text::lower_text(url);
    if text::has(low, "minimaxi.com"@) || text::has(low, "minimax.cn"@) {
        Some(PROVIDER_MINIMAX_CN@)
    } else if text::has(low, "minimax.io"@) {
        Some(PROVIDER_MINIMAX_EN@)
    } else if text::has(low, "api.deepseek.com"@) {
        Some(PROVIDER_DEEPSEEK@)
    } else if text::has(low, "bigmodel.cn"@) {
        Some(PROVIDER_ZAI_CODING_CN@)
    } else {
        None
    }
}

/// The provider of a route: by its name, or else by its address.
pub open spec fn provider_of(route: Seq<char>, base_url: Option<Seq<char>>) -> Option<Seq<char>> {
    match provider_by_name(route, base_url) {
        Some(p) => Some(p),
        None => match base_url {
            Some(u) => provider_by_url(u),
            None => None,
        },
    }
}

/// The content of a text that may be missing.
pub open spec fn opt_view(s: Option<&str>) -> Option<Seq<char>> {
    match s {
        Some(t) => Some(t@),
        None => None,
    }
}

/// The provider of a route, if it is one that is known.
pub fn classify_route(route: &str, base_url: Option<&str>) -> (r: Option<&'static str>)
    ensures
        opt_view(r) == provider_of(route@, opt_view(base_url)),
{
    let low = text::to_lower(route);
    let name = low.as_str();
    if text::contains(name, "deepseek") {
        return Some(PROVIDER_DEEPSEEK);
    }
    if text::contains(name, "zai") || text::contains(name, "bigmodel") || text::contains(
        name,
        "glm",
    ) {
        return Some(PROVIDER_ZAI_CODING_CN);
    }
    if text::contains(name, "minimax") {
        let cn = text::contains(name, "cn") || match base_url {
            Some(u) => text::contains(u, "minimaxi.com") || text::contains(u, "minimax.cn"),
            None => false,
        };
        return if cn {
            Some(PROVIDER_MINIMAX_CN)
        } else {
            Some(PROVIDER_MINIMAX_EN)
        };
    }
    match base_url {
        None => None,
        Some(u) => {
            let url_low = text::to_lower(u);
            let url = url_low.as_str();
            if text::contains(url, "minimaxi.com") || text::contains(url, "minimax.cn") {
                Some(PROVIDER_MINIMAX_CN)
            } else if text::contains(url, "minimax.io") {
                Some(PROVIDER_MINIMAX_EN)
            } else if text::contains(url, "api.deepseek.com") {
                Some(PROVIDER_DEEPSEEK)
            } else if text::contains(url, "bigmodel.cn") {
                Some(PROVIDER_ZAI_CODING_CN)
            } else {
                None
            }
        },
    }
}

/// The route of a provider that no profile speaks of.
pub open spec fn route_of(provider: Seq<char>) -> Option<Seq<char>> {
    if provider == PROVIDER_MINIMAX_CN@ {
        Some("minimax-cn"@)
    } else if provider == PROVIDER_MINIMAX_EN@ {
        Some("minimax-en"@)
    } else if provider == PROVIDER_DEEPSEEK@ {
        Some("deepseek"@)
    } else if provider == PROVIDER_ZAI_CODING_CN@ {
        Some("zai-coding-cn"@)
    } else {
        None
    }
}

fn default_route(provider: &str) -> (r: Option<&'static str>)
    ensures
        opt_view(r) == route_of(provider@),
{
    if text::same(provider, PROVIDER_MINIMAX_CN) {
        Some("minimax-cn")
    } else if text::same(provider, PROVIDER_MINIMAX_EN) {
        Some("minimax-en")
    } else if text::same(provider, PROVIDER_DEEPSEEK) {
        Some("deepseek")
    } else if text::same(provider, PROVIDER_ZAI_CODING_CN) {
        Some("zai-coding-cn")
    } else {
        None
    }
}

/// The reference that a route's key has unless a profile says otherwise.
pub open spec fn reference_of(route: Seq<char>) -> Seq<char> {
    text::swap_text(text::upper_text(route), '-', '_') + "_API_KEY"@
}

/// The reference that a provider's key has unless a profile says otherwise.
pub fn default_reference(provider: &str) -> (r: Option<String>)
    ensures
        text::opt_text(r) == (match route_of(provider@) {
            Some(route) => Some(reference_of(route)),
            None => None,
        }),
{
    match default_route(provider) {
        Some(route) => {
            let upper = text::to_upper(route);
            let name = text::swap_char(upper.as_str(), '-', '_');
            Some(text::cat2(name.as_str(), "_API_KEY"))
        },
        None => None,
    }
}

proof fn lemma_absent(s: Seq<char>, pat: Seq<char>, i: int)
    requires
        0 <= i < pat.len(),
        !s.contains(pat[i]),
    ensures
        !text::has(s, pat),
{
    if text::has(s, pat) {
        let k = choose|k: int| text::occurs_at(s, pat, k);
        assert(s.subrange(k, k + pat.len())[i] == pat[i]);
        assert(s[k + i] == pat[i]);
    }
}

proof fn lemma_begins_has(s: Seq<char>, pat: Seq<char>, k: int)
    requires
        0 <= k,
        k + pat.len() <= s.len(),
        s.subrange(k, k + pat.len()) == pat,
    ensures
        text::has(s, pat),
{
    assert(text::occurs_at(s, pat, k));
}

/// The route that is taken for a provider is classified as that provider.
pub proof fn law_default_routes_are_classified(provider: Seq<char>)
    ensures
        route_of(provider) matches Some(route) ==> provider_of(route, None) == Some(provider),
{
    reveal_strlit("deepseek");
    reveal_strlit("zai");
    reveal_strlit("bigmodel");
    reveal_strlit("glm");
    reveal_strlit("minimax");
    reveal_strlit("cn");
    reveal_strlit("minimax-cn");
    reveal_strlit("minimax-en");
    reveal_strlit("zai-coding-cn");
    reveal_strlit("minimax_cn");
    reveal_strlit("minimax_en");
    reveal_strlit("zai_coding_cn");
    assert(PROVIDER_DEEPSEEK@.len() == 8);
    assert(PROVIDER_ZAI_CODING_CN@.len() == 13);
    assert(PROVIDER_MINIMAX_CN@.len() == 10 && PROVIDER_MINIMAX_CN@[8] == 'c');
    assert(PROVIDER_MINIMAX_EN@.len() == 10 && PROVIDER_MINIMAX_EN@[8] == 'e');
    if let Some(route) = route_of(provider) {
        assert(text::lower_text(route) =~= route);
        if provider == PROVIDER_DEEPSEEK@ {
            assert(route.subrange(0, 8) =~= "deepseek"@);
            lemma_begins_has(route, "deepseek"@, 0);
        } else if provider == PROVIDER_ZAI_CODING_CN@ {
            lemma_absent(route, "deepseek"@, 4);
            assert(route.subrange(0, 3) =~= "zai"@);
            lemma_begins_has(route, "zai"@, 0);
        } else {
            lemma_absent(route, "deepseek"@, 0);
            lemma_absent(route, "zai"@, 0);
            lemma_absent(route, "bigmodel"@, 0);
            lemma_absent(route, "glm"@, 0);
            assert(route.subrange(0, 7) =~= "minimax"@);
            lemma_begins_has(route, "minimax"@, 0);
            if provider == PROVIDER_MINIMAX_CN@ {
                assert(route.subrange(8, 10) =~= "cn"@);
                lemma_begins_has(route, "cn"@, 8);
            } else {
                lemma_absent(route, "cn"@, 0);
            }
        }
    }
}

// --------------------------------------------------------------------- bindings

/// The reference that a route's key has.
#[derive(Debug)]
pub struct ProviderBinding {
    pub route: String,
    pub reference: String,
    /// A profile says so.
    pub explicit: bool,
}

/// The content of a binding.
#[verifier::ext_equal]
pub struct BindingModel {
    pub route: Seq<char>,
    pub reference: Seq<char>,
    pub explicit: bool,
}

impl View for ProviderBinding {
    type V = BindingModel;

    open spec fn view(&self) -> BindingModel {
        BindingModel {
            route: self.route@,
            reference: self.reference@,
            explicit: self.explicit,
        }
    }
}

impl Clone for ProviderBinding {
    fn clone(&self) -> (r: Self)
        ensures
            r@ == self@,
    {
        ProviderBinding {
            route: self.route.clone(),
            reference: self.reference.clone(),
            explicit: self.explicit,
        }
    }
}

/// The contents of a list of bindings.
pub open spec fn bindings_of(v: Seq<ProviderBinding>) -> Seq<BindingModel> {
    v.map_values(|b: ProviderBinding| b@)
}

/// What a profile says of a route: its name and the reference of its key, each
/// where it is a text.
#[derive(Debug)]
pub struct ProviderEntry {
    pub route: Option<String>,
    pub api_key_env: Option<String>,
}

/// The content of an entry.
pub open spec fn entry_model(e: ProviderEntry) -> (Option<Seq<char>>, Option<Seq<char>>) {
    (text::opt_text(e.route), text::opt_text(e.api_key_env))
}

/// The contents of a list of entries.
pub open spec fn entry_models(v: Seq<ProviderEntry>) -> Seq<(Option<Seq<char>>, Option<Seq<char>>)> {
    v.map_values(|e: ProviderEntry| entry_model(e))
}

/// The binding that an entry makes: none unless both texts are there and the
/// reference is not blank.
pub open spec fn entry_binding(e: (Option<Seq<char>>, Option<Seq<char>>)) -> Option<BindingModel> {
    match e {
        (Some(route), Some(reference)) if text::trim_text(reference).len() > 0 => Some(
            BindingModel { route, reference: text::trim_text(reference), explicit: true },
        ),
        _ => None,
    }
}

/// The bindings that entries make.
pub open spec fn entry_bindings(
    entries: Seq<(Option<Seq<char>>, Option<Seq<char>>)>,
) -> Seq<BindingModel>
    decreases entries.len(),
{
    if entries.len() == 0 {
        Seq::empty()
    } else {
        let before = entry_bindings(entries.drop_last());
        match entry_binding(entries.last()) {
            Some(b) => before.push(b),
            None => before,
        }
    }
}

/// The bindings that the entries of a profile make.
pub fn bind_entries(entries: &Vec<ProviderEntry>) -> (r: Vec<ProviderBinding>)
    ensures
        bindings_of(r@) == entry_bindings(entry_models(entries@)),
{
    let ghost all = entry_models(entries@);
    let mut out: Vec<ProviderBinding> = Vec::new();
    let mut i: usize = 0;
    proof {
        assert(all.take(0) =~= Seq::<(Option<Seq<char>>, Option<Seq<char>>)>::empty());
        assert(bindings_of(out@) =~= Seq::<BindingModel>::empty());
    }
    while i < entries.len()
        invariant
            i <= entries.len(),
            all == entry_models(entries@),
            bindings_of(out@) == entry_bindings(all.take(i as int)),
        decreases entries.len() - i,
    {
        let e = &entries[i];
        proof {
            assert(all[i as int] == entry_model(*e));
            assert(all.take(i + 1).drop_last() =~= all.take(i as int));
            assert(all.take(i + 1).last() == all[i as int]);
        }
        match (&e.route, &e.api_key_env) {
            (Some(route), Some(key)) => {
                let reference = text::trim(key.as_str());
                if !reference.as_str().is_empty() {
                    let b = ProviderBinding { route: route.clone(), reference, explicit: true };
                    proof {
                        assert(bindings_of(out@.push(b)) =~= bindings_of(out@).push(b@));
                    }
                    out.push(b);
                }
            },
            _ => {},
        }
        i = i + 1;
    }
    proof {
        assert(all.take(all.len() as int) =~= all);
    }
    out
}

/// The text of a value that may be missing.
pub open spec fn field_text(v: serde_yaml::Value, key: Seq<char>) -> Option<Seq<char>> {
    match yaml::yaml_field(v, key) {
        Some(f) => yaml::yaml_text(f),
        None => None,
    }
}

/// What pairs of a mapping say of routes.
pub open spec fn pair_entries(
    pairs: Seq<(serde_yaml::Value, serde_yaml::Value)>,
) -> Seq<(Option<Seq<char>>, Option<Seq<char>>)> {
    pairs.map_values(
        |p: (serde_yaml::Value, serde_yaml::Value)|
            (yaml::yaml_text(p.0), field_text(p.1, "apiKeyEnv"@)),
    )
}

/// What an entry of a patch says of routes.
pub open spec fn patch_entry(v: serde_yaml::Value) -> Seq<(Option<Seq<char>>, Option<Seq<char>>)> {
    match yaml::yaml_field(v, "config"@) {
        None => Seq::empty(),
        Some(config) => match yaml::yaml_field(config, "providers"@) {
            None => Seq::empty(),
            Some(providers) => match yaml::yaml_pairs(providers) {
                None => Seq::empty(),
                Some(pairs) => pair_entries(pairs),
            },
        },
    }
}

/// What the entries of a patch say of routes, in their order.
pub open spec fn patch_entries(list: Seq<serde_yaml::Value>) -> Seq<
    (Option<Seq<char>>, Option<Seq<char>>),
>
    decreases list.len(),
{
    if list.len() == 0 {
        Seq::empty()
    } else {
        patch_entries(list.drop_last()) + patch_entry(list.last())
    }
}

/// What a patch says of routes; nothing where it is not YAML or no sequence.
pub open spec fn patch_model(content: Seq<char>) -> Seq<(Option<Seq<char>>, Option<Seq<char>>)> {
    match yaml::yaml_parsed(content) {
        None => Seq::empty(),
        Some(value) => match yaml::yaml_list(value) {
            None => Seq::empty(),
            Some(list) => patch_entries(list),
        },
    }
}

fn push_pairs(
    out: &mut Vec<ProviderEntry>,
    pairs: &Vec<(serde_yaml::Value, serde_yaml::Value)>,
)
    ensures
        entry_models(final(out)@) == entry_models(old(out)@) + pair_entries(pairs@),
{
    let ghost first = entry_models(out@);
    let ghost all = pair_entries(pairs@);
    let mut i: usize = 0;
    proof {
        assert(first + all.take(0) =~= first);
    }
    while i < pairs.len()
        invariant
            i <= pairs.len(),
            all == pair_entries(pairs@),
            entry_models(out@) == first + all.take(i as int),
        decreases pairs.len() - i,
    {
        let route = yaml::text_of(&pairs[i].0);
        let api_key_env = match yaml::field_of(&pairs[i].1, "apiKeyEnv") {
            Some(f) => yaml::text_of(&f),
            None => None,
        };
        let e = ProviderEntry { route, api_key_env };
        proof {
            assert(all[i as int] == entry_model(e));
            assert(entry_models(out@.push(e)) =~= entry_models(out@).push(entry_model(e)));
            assert(first + all.take(i + 1) =~= (first + all.take(i as int)).push(entry_model(e)));
        }
        out.push(e);
        i = i + 1;
    }
    proof {
        assert(all.take(all.len() as int) =~= all);
    }
}

/// Reads what a patch says of routes.
pub fn read_patch(content: &str) -> (r: Vec<ProviderEntry>)
    ensures
        entry_models(r@) == patch_model(content@),
{
    let mut out: Vec<ProviderEntry> = Vec::new();
    let ghost none = Seq::<(Option<Seq<char>>, Option<Seq<char>>)>::empty();
    proof {
        assert(entry_models(out@) =~= none);
    }
    let value = match yaml::parse_yaml(content) {
        Some(v) => v,
        None => {
            return out;
        },
    };
    let list = match yaml::list_of(&value) {
        Some(l) => l,
        None => {
            return out;
        },
    };
    let mut i: usize = 0;
    proof {
        assert(list@.take(0) =~= Seq::<serde_yaml::Value>::empty());
    }
    while i < list.len()
        invariant
            i <= list.len(),
            entry_models(out@) == patch_entries(list@.take(i as int)),
        decreases list.len() - i,
    {
        proof {
            let next = list@.take(i + 1);
            assert(next.drop_last() =~= list@.take(i as int));
            assert(next.last() == list@[i as int]);
            assert(patch_entries(list@.take(i as int))
                + Seq::<(Option<Seq<char>>, Option<Seq<char>>)>::empty() =~= patch_entries(
                list@.take(i as int),
            ));
        }
        match yaml::field_of(&list[i], "config") {
            Some(config) => match yaml::field_of(&config, "providers") {
                Some(providers) => match yaml::pairs_of(&providers) {
                    Some(pairs) => {
                        push_pairs(&mut out, &pairs);
                    },
                    None => {},
                },
                None => {},
            },
            None => {},
        }
        i = i + 1;
    }
    proof {
        assert(list@.take(list@.len() as int) =~= list@);
    }
    out
}

/// The bindings that a patch declares.
pub fn patch_providers(content: &str) -> (r: Vec<ProviderBinding>)
    ensures
        bindings_of(r@) == entry_bindings(patch_model(content@)),
{
    let entries = read_patch(content);
    bind_entries(&entries)
}

/// The bindings that a patch that may be missing declares.
pub open spec fn declared(content: Option<Seq<char>>) -> Seq<BindingModel> {
    match content {
        Some(c) => entry_bindings(patch_model(c)),
        None => Seq::empty(),
    }
}

/// The bindings of a profile: those of its patch, or where that declares none,
/// of the patch under its other name.
pub fn profile_bindings(patch: Option<&str>, other: Option<&str>) -> (r: Vec<ProviderBinding>)
    ensures
        bindings_of(r@) == (if declared(opt_view(patch)).len() > 0 {
            declared(opt_view(patch))
        } else {
            declared(opt_view(other))
        }),
{
    match patch {
        Some(content) => {
            let found = patch_providers(content);
            proof {
                assert(bindings_of(found@).len() == found@.len());
            }
            if found.len() > 0 {
                return found;
            }
        },
        None => {},
    }
    match other {
        Some(content) => patch_providers(content),
        None => {
            let none: Vec<ProviderBinding> = Vec::new();
            proof {
                assert(bindings_of(none@) =~= Seq::<BindingModel>::empty());
            }
            none
        },
    }
}

// ------------------------------------------------------------------------ values

/// Where the value of a reference was found.
#[derive(Debug, Clone, Copy, PartialEq, Eq, Structural)]
pub enum CredentialSource {
    /// The environment.
    Env,
    /// The kernel's file of credentials.
    CredentialsYaml,
    /// The `.env` file.
    EnvFile,
}

impl CredentialSource {
    /// The source's name.
    pub fn as_str(self) -> (r: &'static str)
        ensures
            r@ == (match self {
                CredentialSource::Env => "env"@,
                CredentialSource::CredentialsYaml => "credentials.yaml"@,
                CredentialSource::EnvFile => ".env"@,
            }),
    {
        match self {
            CredentialSource::Env => "env",
            CredentialSource::CredentialsYaml => "credentials.yaml",
            CredentialSource::EnvFile => ".env",
        }
    }
}

/// A reference with its value, if it has one, and where that was found.
#[derive(Debug)]
pub struct ResolvedCredential {
    pub reference: String,
    pub value: Option<String>,
    pub source: CredentialSource,
}

/// The content of a resolved reference.
#[verifier::ext_equal]
pub struct CredentialModel {
    pub reference: Seq<char>,
    pub value: Option<Seq<char>>,
    pub source: CredentialSource,
}

impl View for ResolvedCredential {
    type V = CredentialModel;

    open spec fn view(&self) -> CredentialModel {
        CredentialModel {
            reference: self.reference@,
            value: text::opt_text(self.value),
            source: self.source,
        }
    }
}

/// The value that a map has for a reference; a blank one is none.
pub open spec fn set_value(map: Map<Seq<char>, Seq<char>>, reference: Seq<char>) -> Option<
    Seq<char>,
> {
    match textmap::value_in(map, reference) {
        Some(v) if text::trim_text(v).len() > 0 => Some(text::trim_text(v)),
        _ => None,
    }
}

/// The value of a reference: from the environment, or else from the file of
/// credentials, or else from the `.env` file.
pub open spec fn resolved(
    reference: Seq<char>,
    env: Map<Seq<char>, Seq<char>>,
    refs: Map<Seq<char>, Seq<char>>,
    env_file: Map<Seq<char>, Seq<char>>,
) -> CredentialModel {
    if set_value(env, reference) is Some {
        CredentialModel {
            reference,
            value: set_value(env, reference),
            source: CredentialSource::Env,
        }
    } else if set_value(refs, reference) is Some {
        CredentialModel {
            reference,
            value: set_value(refs, reference),
            source: CredentialSource::CredentialsYaml,
        }
    } else if set_value(env_file, reference) is Some {
        CredentialModel {
            reference,
            value: set_value(env_file, reference),
            source: CredentialSource::EnvFile,
        }
    } else {
        CredentialModel { reference, value: None, source: CredentialSource::Env }
    }
}

fn find_value(map: &TextMap, reference: &str) -> (r: Option<String>)
    ensures
        text::opt_text(r) == set_value(map@, reference@),
{
    match map.get(reference) {
        Some(v) => {
            let t = text::trim(v);
            if t.as_str().is_empty() {
                None
            } else {
                Some(t)
            }
        },
        None => None,
    }
}

/// Finds the value of a reference.
pub fn resolve(reference: &str, env: &TextMap, refs: &TextMap, env_file: &TextMap) -> (r:
    ResolvedCredential)
    ensures
        r@ == resolved(reference@, env@, refs@, env_file@),
{
    match find_value(env, reference) {
        Some(v) => {
            return ResolvedCredential {
                reference: text::owned(reference),
                value: Some(v),
                source: CredentialSource::Env,
            };
        },
        None => {},
    }
    match find_value(refs, reference) {
        Some(v) => {
            return ResolvedCredential {
                reference: text::owned(reference),
                value: Some(v),
                source: CredentialSource::CredentialsYaml,
            };
        },
        None => {},
    }
    match find_value(env_file, reference) {
        Some(v) => ResolvedCredential {
            reference: text::owned(reference),
            value: Some(v),
            source: CredentialSource::EnvFile,
        },
        None => ResolvedCredential {
            reference: text::owned(reference),
            value: None,
            source: CredentialSource::Env,
        },
    }
}

/// The first binding from `i` on whose route is of a provider.
pub open spec fn binding_from(bindings: Seq<BindingModel>, provider: Seq<char>, i: int) -> Option<
    BindingModel,
>
    decreases bindings.len() - i,
{
    if i < 0 || i >= bindings.len() {
        None
    } else if provider_of(bindings[i].route, None) == Some(provider) {
        Some(bindings[i])
    } else {
        binding_from(bindings, provider, i + 1)
    }
}

/// The reference of a provider's key: the one that a profile declares, or else
/// the usual one. None for a provider that is not known.
pub open spec fn bound_reference(bindings: Seq<BindingModel>, provider: Seq<char>) -> Option<
    Seq<char>,
> {
    match binding_from(bindings, provider, 0) {
        Some(b) => Some(b.reference),
        None => match route_of(provider) {
            Some(route) => Some(reference_of(route)),
            None => None,
        },
    }
}

fn find_reference(bindings: &Vec<ProviderBinding>, provider: &str) -> (r: Option<String>)
    ensures
        text::opt_text(r) == bound_reference(bindings_of(bindings@), provider@),
{
    let ghost all = bindings_of(bindings@);
    let mut i: usize = 0;
    while i < bindings.len()
        invariant
            i <= bindings.len(),
            all == bindings_of(bindings@),
            all.len() == bindings@.len(),
            binding_from(all, provider@, 0) == binding_from(all, provider@, i as int),
        decreases bindings.len() - i,
    {
        proof {
            assert(all[i as int] == bindings@[i as int]@);
        }
        match classify_route(bindings[i].route.as_str(), None) {
            Some(p) => {
                if text::same(p, provider) {
                    return Some(bindings[i].reference.clone());
                }
            },
            None => {},
        }
        i = i + 1;
    }
    default_reference(provider)
}

/// Finds the key of a provider; none where the provider is not known or its key
/// is not set.
pub fn resolve_provider(
    provider: &str,
    bindings: &Vec<ProviderBinding>,
    env: &TextMap,
    refs: &TextMap,
    env_file: &TextMap,
) -> (r: Option<ResolvedCredential>)
    ensures
        (match r {
            Some(c) => Some(c@),
            None => None,
        }) == (match bound_reference(bindings_of(bindings@), provider@) {
            Some(reference) if resolved(reference, env@, refs@, env_file@).value is Some => Some(
                resolved(reference, env@, refs@, env_file@),
            ),
            _ => None,
        }),
{
    match find_reference(bindings, provider) {
        Some(reference) => {
            let found = resolve(reference.as_str(), env, refs, env_file);
            if found.value.is_some() {
                Some(found)
            } else {
                None
            }
        },
        None => None,
    }
}

/// A value in the environment hides those in the files, and one in the file of
/// credentials hides the one in the `.env` file.
pub proof fn law_earlier_sources_come_first(
    reference: Seq<char>,
    env: Map<Seq<char>, Seq<char>>,
    refs: Map<Seq<char>, Seq<char>>,
    env_file: Map<Seq<char>, Seq<char>>,
)
    ensures
        set_value(env, reference) is Some ==> resolved(reference, env, refs, env_file).value
            == set_value(env, reference),
        set_value(env, reference) is None && set_value(refs, reference) is Some ==> resolved(
            reference,
            env,
            refs,
            env_file,
        ).value == set_value(refs, reference),
        resolved(reference, env, refs, env_file).value is None <==> set_value(env, reference)
            is None && set_value(refs, reference) is None && set_value(env_file, reference) is None,
{
}

/// A blank value counts as none: it hides nothing.
pub proof fn law_blank_values_are_unset(
    reference: Seq<char>,
    env: Map<Seq<char>, Seq<char>>,
    refs: Map<Seq<char>, Seq<char>>,
    env_file: Map<Seq<char>, Seq<char>>,
    blank: Seq<char>,
)
    requires
        text::trim_text(blank).len() == 0,
    ensures
        resolved(reference, env.insert(reference, blank), refs, env_file) == resolved(
            reference,
            env.remove(reference),
            refs,
            env_file,
        ),
        resolved(reference, env, refs, env_file).value matches Some(v) ==> v.len() > 0,
{
}

/// What a profile declares for a provider is used in place of the usual
/// reference.
pub proof fn law_declared_references_come_first(binding: BindingModel, provider: Seq<char>)
    requires
        provider_of(binding.route, None) == Some(provider),
    ensures
        bound_reference(seq![binding], provider) == Some(binding.reference),
{
    assert(seq![binding][0] == binding);
}

// ------------------------------------------------------------------------- files

/// The value of a reference in the file of credentials: a text, a number or a
/// flag.
pub open spec fn ref_value(s: ScalarModel) -> Option<Seq<char>> {
    match s {
        ScalarModel::Text(t) => Some(t),
        ScalarModel::Number(n) => Some(n),
        ScalarModel::Flag(b) => Some(
            if b {
                "true"@
            } else {
                "false"@
            },
        ),
        ScalarModel::Other => None,
    }
}

/// An entry of the file of credentials: its key, where it is a text, and its
/// value.
#[derive(Debug)]
pub struct RefEntry {
    pub key: Option<String>,
    pub value: Scalar,
}

/// The content of an entry.
pub open spec fn ref_model(e: RefEntry) -> (Option<Seq<char>>, ScalarModel) {
    (text::opt_text(e.key), e.value@)
}

/// The contents of a list of entries.
pub open spec fn ref_models(v: Seq<RefEntry>) -> Seq<(Option<Seq<char>>, ScalarModel)> {
    v.map_values(|e: RefEntry| ref_model(e))
}

/// The references that entries make.
pub open spec fn refs_map(entries: Seq<(Option<Seq<char>>, ScalarModel)>) -> Map<
    Seq<char>,
    Seq<char>,
>
    decreases entries.len(),
{
    if entries.len() == 0 {
        Map::empty()
    } else {
        let before = refs_map(entries.drop_last());
        match (entries.last().0, ref_value(entries.last().1)) {
            (Some(key), Some(value)) => before.insert(key, value),
            _ => before,
        }
    }
}

/// The references that entries make.
pub fn collect_refs(entries: &Vec<RefEntry>) -> (r: TextMap)
    ensures
        r@ == refs_map(ref_models(entries@)),
{
    let ghost all = ref_models(entries@);
    let mut out = TextMap::new();
    let mut i: usize = 0;
    proof {
        assert(all.take(0) =~= Seq::<(Option<Seq<char>>, ScalarModel)>::empty());
    }
    while i < entries.len()
        invariant
            i <= entries.len(),
            all == ref_models(entries@),
            out@ == refs_map(all.take(i as int)),
        decreases entries.len() - i,
    {
        let e = &entries[i];
        proof {
            assert(all[i as int] == ref_model(*e));
            assert(all.take(i + 1).drop_last() =~= all.take(i as int));
            assert(all.take(i + 1).last() == all[i as int]);
        }
        let value = match &e.value {
            Scalar::Text(s) => Some(s.clone()),
            Scalar::Number(s) => Some(s.clone()),
            Scalar::Flag(b) => Some(
                text::owned(
                    if *b {
                        "true"
                    } else {
                        "false"
                    },
                ),
            ),
            Scalar::Other => None,
        };
        match (&e.key, value) {
            (Some(key), Some(v)) => {
                out.insert(key.clone(), v);
            },
            _ => {},
        }
        i = i + 1;
    }
    proof {
        assert(all.take(all.len() as int) =~= all);
    }
    out
}

/// What pairs of a mapping say of references.
pub open spec fn pair_refs(
    pairs: Seq<(serde_yaml::Value, serde_yaml::Value)>,
) -> Seq<(Option<Seq<char>>, ScalarModel)> {
    pairs.map_values(
        |p: (serde_yaml::Value, serde_yaml::Value)| (yaml::yaml_text(p.0), yaml::yaml_scalar(p.1)),
    )
}

/// What a file of credentials says of references; nothing where it is not YAML
/// or has none.
pub open spec fn refs_model(content: Seq<char>) -> Seq<(Option<Seq<char>>, ScalarModel)> {
    match yaml::yaml_parsed(content) {
        None => Seq::empty(),
        Some(value) => match yaml::yaml_field(value, "refs"@) {
            None => Seq::empty(),
            Some(refs) => match yaml::yaml_pairs(refs) {
                None => Seq::empty(),
                Some(pairs) => pair_refs(pairs),
            },
        },
    }
}

/// Reads what a file of credentials says of references.
pub fn read_refs(content: &str) -> (r: Vec<RefEntry>)
    ensures
        ref_models(r@) == refs_model(content@),
{
    let mut out: Vec<RefEntry> = Vec::new();
    proof {
        assert(ref_models(out@) =~= Seq::<(Option<Seq<char>>, ScalarModel)>::empty());
    }
    let pairs = match yaml::parse_yaml(content) {
        Some(value) => match yaml::field_of(&value, "refs") {
            Some(refs) => match yaml::pairs_of(&refs) {
                Some(pairs) => pairs,
                None => {
                    return out;
                },
            },
            None => {
                return out;
            },
        },
        None => {
            return out;
        },
    };
    let ghost all = pair_refs(pairs@);
    let mut i: usize = 0;
    proof {
        assert(all.take(0) =~= Seq::<(Option<Seq<char>>, ScalarModel)>::empty());
    }
    while i < pairs.len()
        invariant
            i <= pairs.len(),
            all == pair_refs(pairs@),
            ref_models(out@) == all.take(i as int),
        decreases pairs.len() - i,
    {
        let e = RefEntry { key: yaml::text_of(&pairs[i].0), value: yaml::scalar_of(&pairs[i].1) };
        proof {
            assert(all[i as int] == ref_model(e));
            assert(ref_models(out@.push(e)) =~= ref_models(out@).push(ref_model(e)));
            assert(all.take(i + 1) =~= all.take(i as int).push(ref_model(e)));
        }
        out.push(e);
        i = i + 1;
    }
    proof {
        assert(all.take(all.len() as int) =~= all);
    }
    out
}

/// The references in the file of credentials, where there is one.
pub fn load_refs(content: Option<&str>) -> (r: TextMap)
    ensures
        r@ == (match content {
            Some(c) => refs_map(refs_model(c@)),
            None => Map::empty(),
        }),
{
    match content {
        Some(c) => {
            let entries = read_refs(c);
            collect_refs(&entries)
        },
        None => TextMap::new(),
    }
}

/// A text without the quotes around it, if it has a pair of one kind.
pub open spec fn unquoted(s: Seq<char>) -> Seq<char> {
    if s.len() >= 2 && ((s[0] == '"' && s.last() == '"') || (s[0] == '\'' && s.last() == '\'')) {
        s.subrange(1, s.len() - 1)
    } else {
        s
    }
}

/// What a line of an `.env` file sets.
pub open spec fn env_line(line: Seq<char>) -> Option<(Seq<char>, Seq<char>)> {
    let t = text::trim_text(line);
    let i = text::index_of_char(t, '=');
    if t.len() == 0 || t[0] == '#' || i >= t.len() || text::trim_text(t.take(i)).len() == 0 {
        None
    } else {
        Some((text::trim_text(t.take(i)), unquoted(text::trim_text(t.skip(i + 1)))))
    }
}

/// What the lines of an `.env` file set.
pub open spec fn env_lines(lines: Seq<Seq<char>>) -> Map<Seq<char>, Seq<char>>
    decreases lines.len(),
{
    if lines.len() == 0 {
        Map::empty()
    } else {
        let before = env_lines(lines.drop_last());
        match env_line(lines.last()) {
            Some((key, value)) => before.insert(key, value),
            None => before,
        }
    }
}

fn strip_quotes(s: &str) -> (r: String)
    ensures
        r@ == unquoted(s@),
{
    let sc = text::chars_of(s);
    let n = sc.len();
    if n >= 2 && ((sc[0] == '"' && sc[n - 1] == '"') || (sc[0] == '\'' && sc[n - 1] == '\'')) {
        let inner = text::string_of(&sc, 1, n - 1);
        proof {
            assert(inner@ =~= s@.subrange(1, s@.len() - 1));
        }
        inner
    } else {
        text::owned(s)
    }
}

fn read_env_line(line: &str) -> (r: Option<(String, String)>)
    ensures
        (match r {
            Some((k, v)) => Some((k@, v@)),
            None => None,
        }) == env_line(line@),
{
    let t = text::trim(line);
    let tc = text::chars_of(t.as_str());
    if tc.len() == 0 || tc[0] == '#' {
        return None;
    }
    let mut i: usize = 0;
    while i < tc.len() && tc[i] != '='
        invariant
            i <= tc.len(),
            forall|j: int| 0 <= j < i ==> tc@[j] != '=',
        decreases tc.len() - i,
    {
        i = i + 1;
    }
    proof {
        text::lemma_index_of_char_is(tc@, '=', i as int);
    }
    if i >= tc.len() {
        return None;
    }
    let left = text::string_of(&tc, 0, i);
    let right = text::string_of(&tc, i + 1, tc.len());
    proof {
        assert(left@ =~= t@.take(i as int));
        assert(right@ =~= t@.skip(i + 1));
    }
    let key = text::trim(left.as_str());
    if key.as_str().is_empty() {
        return None;
    }
    let value = text::trim(right.as_str());
    Some((key, strip_quotes(value.as_str())))
}

/// What an `.env` file sets, where there is one: blank lines, comments and lines
/// without a key are passed over, and of several lines for one key the last
/// counts.
pub fn load_env_file(content: Option<&str>) -> (r: TextMap)
    ensures
        r@ == (match content {
            Some(c) => env_lines(text::lines_text(c@)),
            None => Map::empty(),
        }),
{
    let mut out = TextMap::new();
    let c = match content {
        Some(c) => c,
        None => {
            return out;
        },
    };
    let lines = text::lines(c);
    let ghost all = text::texts(lines@);
    let mut i: usize = 0;
    proof {
        assert(all.take(0) =~= Seq::<Seq<char>>::empty());
    }
    while i < lines.len()
        invariant
            i <= lines.len(),
            all == text::texts(lines@),
            out@ == env_lines(all.take(i as int)),
        decreases lines.len() - i,
    {
        proof {
            assert(all[i as int] == lines@[i as int]@);
            assert(all.take(i + 1).drop_last() =~= all.take(i as int));
            assert(all.take(i + 1).last() == all[i as int]);
        }
        match read_env_line(lines[i].as_str()) {
            Some((k, v)) => {
                out.insert(k, v);
            },
            None => {},
        }
        i = i + 1;
    }
    proof {
        assert(all.take(all.len() as int) =~= all);
    }
    out
}

// ---------------------------------------------------------------------- defaults

/// The home of the default instance.
pub fn default_dsh_home(xlink_home: &str) -> (r: String)
    ensures
        r@ == paths::joined(
            paths::instance_root(
                xlink_home@,
                instance::KERNEL_FAMILY_DSH@,
                instance::DEFAULT_INSTANCE_ID@,
            ),
            "home"@,
        ),
{
    let (family, id) = instance::resolve_default();
    paths::instance_dsh_home(xlink_home, family, id)
}

/// The profile of the default instance: the one that the registry records, or
/// else the one that is set, unless that is blank.
pub fn default_profile(registry: Option<&InstanceRegistry>, set: &str) -> (r: String)
    ensures
        r@ == (match registry {
            Some(reg) if instance::place_of(reg.instances@, instance::DEFAULT_INSTANCE_ID@) is Some => {
                reg.instances@[instance::place_of(
                    reg.instances@,
                    instance::DEFAULT_INSTANCE_ID@,
                )->0].profile@
            },
            _ => if text::trim_text(set@).len() == 0 {
                "web"@
            } else {
                set@
            },
        }),
{
    let (_, id) = instance::resolve_default();
    match registry {
        Some(reg) => match reg.get(id) {
            Some(record) => {
                return record.profile.clone();
            },
            None => {},
        },
        None => {},
    }
    if text::trim(set).as_str().is_empty() {
        text::owned("web")
    } else {
        text::owned(set)
    }
}

/// A route's name tells its provider before its address does, in whatever case
/// it is written.
pub proof fn law_names_tell_the_provider(route: Seq<char>, url: Option<Seq<char>>)
    ensures
        ({
            let low = text::lower_text(route);
            let zai = text::has(low, "zai"@) || text::has(low, "bigmodel"@) || text::has(low, "glm"@);
            &&& text::has(low, "deepseek"@) ==> provider_of(route, url) == Some("deepseek"@)
            &&& !text::has(low, "deepseek"@) && zai ==> provider_of(route, url) == Some(
                "zai_coding_cn"@,
            )
            &&& !text::has(low, "deepseek"@) && !zai && text::has(low, "minimax"@) ==> provider_of(
                route,
                url,
            ) == Some(
                if text::has(low, "cn"@) || (url matches Some(u) && (text::has(u, "minimaxi.com"@)
                    || text::has(u, "minimax.cn"@))) {
                    "minimax_cn"@
                } else {
                    "minimax_en"@
                },
            )
            &&& !text::has(low, "deepseek"@) && !zai && !text::has(low, "minimax"@) && url is None
                ==> provider_of(route, url) is None
        }),
        provider_of(text::lower_text(route), url) == provider_of(route, url),
{
    if route.len() > 0 {
        text::law_small_letters(route, 0);
    } else {
        assert(text::lower_text(text::lower_text(route)) =~= text::lower_text(route));
    }
}

/// An address tells the provider of a route whose name tells none; an address
/// of nobody that is known tells none.
pub proof fn law_addresses_tell_the_provider(route: Seq<char>, url: Seq<char>)
    requires
        provider_of(route, None) is None,
    ensures
        ({
            let low = text::lower_text(url);
            let cn = text::has(low, "minimaxi.com"@) || text::has(low, "minimax.cn"@);
            let en = text::has(low, "minimax.io"@);
            let deep = text::has(low, "api.deepseek.com"@);
            let zai = text::has(low, "bigmodel.cn"@);
            &&& cn ==> provider_of(route, Some(url)) == Some("minimax_cn"@)
            &&& !cn && en ==> provider_of(route, Some(url)) == Some("minimax_en"@)
            &&& !cn && !en && deep ==> provider_of(route, Some(url)) == Some("deepseek"@)
            &&& !cn && !en && !deep && zai ==> provider_of(route, Some(url)) == Some(
                "zai_coding_cn"@,
            )
            &&& !cn && !en && !deep && !zai ==> provider_of(route, Some(url)) is None
        }),
{
}

/// The usual reference of a route is its name in capitals, with underscores for
/// hyphens, and `_API_KEY` after it.
pub proof fn law_usual_references(route: Seq<char>, i: int)
    requires
        0 <= i < route.len(),
    ensures
        ({
            let r = reference_of(route);
            &&& r.len() == route.len() + "_API_KEY"@.len()
            &&& text::ends(r, "_API_KEY"@)
            &&& route[i] == '-' ==> r[i] == '_'
            &&& route[i] != '-' && !('a' <= route[i] <= 'z') ==> r[i] == route[i]
            &&& 'a' <= route[i] <= 'z' ==> r[i] as int == route[i] as int - 32
        }),
{
    let r = reference_of(route);
    let tail = "_API_KEY"@;
    assert(r.subrange(r.len() - tail.len(), r.len() as int) =~= tail);
    let c = route[i];
    if 'a' <= c <= 'z' {
        assert(text::upper_char(c) as int == c as int - 32);
        assert(text::upper_char(c) != '-');
    }
}

/// Each known provider has a route of its own, and no other has one.
pub proof fn law_known_providers_have_routes(provider: Seq<char>)
    ensures
        route_of(provider) is Some <==> provider == "minimax_cn"@ || provider == "minimax_en"@
            || provider == "deepseek"@ || provider == "zai_coding_cn"@,
{
}

/// One more entry of a profile adds one binding where it names a route and a
/// reference that is not blank, and none otherwise; the reference is trimmed.
pub proof fn law_entries_bind_routes(
    entries: Seq<(Option<Seq<char>>, Option<Seq<char>>)>,
    e: (Option<Seq<char>>, Option<Seq<char>>),
)
    ensures
        ({
            let before = entry_bindings(entries);
            let all = entry_bindings(entries.push(e));
            if e.0 is Some && e.1 is Some && text::trim_text(e.1->0).len() > 0 {
                all.len() == before.len() + 1 && all.take(before.len() as int) == before
                    && all.last().route == e.0->0 && all.last().reference == text::trim_text(e.1->0)
                    && all.last().explicit
            } else {
                all == before
            }
        }),
{
    assert(entries.push(e).drop_last() =~= entries);
    let before = entry_bindings(entries);
    let all = entry_bindings(entries.push(e));
    if all.len() > before.len() {
        assert(all.take(before.len() as int) =~= before);
    }
}

/// A reference has the first value that is set: in the environment, in the file
/// of credentials, in the `.env` file. It is trimmed, and it is told where it
/// comes from.
pub proof fn law_values_come_with_their_source(
    reference: Seq<char>,
    value: Seq<char>,
    env: Map<Seq<char>, Seq<char>>,
    refs: Map<Seq<char>, Seq<char>>,
    env_file: Map<Seq<char>, Seq<char>>,
)
    requires
        text::trim_text(value).len() > 0,
    ensures
        resolved(reference, env.insert(reference, value), refs, env_file) == (CredentialModel {
            reference,
            value: Some(text::trim_text(value)),
            source: CredentialSource::Env,
        }),
        !env.dom().contains(reference) ==> resolved(
            reference,
            env,
            refs.insert(reference, value),
            env_file,
        ) == (CredentialModel {
            reference,
            value: Some(text::trim_text(value)),
            source: CredentialSource::CredentialsYaml,
        }),
        !env.dom().contains(reference) && !refs.dom().contains(reference) ==> resolved(
            reference,
            env,
            refs,
            env_file.insert(reference, value),
        ) == (CredentialModel {
            reference,
            value: Some(text::trim_text(value)),
            source: CredentialSource::EnvFile,
        }),
        !env.dom().contains(reference) && !refs.dom().contains(reference) && !env_file.dom().contains(
            reference,
        ) ==> resolved(reference, env, refs, env_file).value is None,
{
}

/// The first binding of a provider gives the reference of its key; a provider
/// that no binding is of has the usual one.
pub proof fn law_the_first_binding_counts(
    bindings: Seq<BindingModel>,
    provider: Seq<char>,
    k: int,
)
    ensures
        0 <= k < bindings.len() && provider_of(bindings[k].route, None) == Some(provider) && (
        forall|j: int|
            0 <= j < k ==> provider_of((#[trigger] bindings[j]).route, None) != Some(provider))
            ==> bound_reference(bindings, provider) == Some(bindings[k].reference),
        (forall|j: int|
            0 <= j < bindings.len() ==> provider_of((#[trigger] bindings[j]).route, None) != Some(
                provider,
            )) ==> bound_reference(bindings, provider) == (match route_of(provider) {
            Some(route) => Some(reference_of(route)),
            None => None,
        }),
{
    if 0 <= k < bindings.len() && (forall|j: int|
        0 <= j < k ==> provider_of((#[trigger] bindings[j]).route, None) != Some(provider)) {
        lemma_binding_skip(bindings, provider, 0, k);
    }
    if forall|j: int|
        0 <= j < bindings.len() ==> provider_of((#[trigger] bindings[j]).route, None) != Some(
            provider,
        ) {
        lemma_binding_skip(bindings, provider, 0, bindings.len() as int);
    }
}

proof fn lemma_binding_skip(bindings: Seq<BindingModel>, provider: Seq<char>, from: int, k: int)
    requires
        0 <= from <= k <= bindings.len(),
        forall|j: int|
            from <= j < k ==> provider_of((#[trigger] bindings[j]).route, None) != Some(provider),
    ensures
        binding_from(bindings, provider, from) == binding_from(bindings, provider, k),
    decreases k - from,
{
    if from < k {
        lemma_binding_skip(bindings, provider, from + 1, k);
    }
}

/// Of several entries for one reference the last one counts; an entry without a
/// key, or whose value is a list or the like, sets nothing.
pub proof fn law_later_references_replace_earlier_ones(
    entries: Seq<(Option<Seq<char>>, ScalarModel)>,
    e: (Option<Seq<char>>, ScalarModel),
)
    ensures
        ({
            let before = refs_map(entries);
            let all = refs_map(entries.push(e));
            match (e.0, e.1) {
                (Some(key), ScalarModel::Text(v)) => all == before.insert(key, v),
                (Some(key), ScalarModel::Number(v)) => all == before.insert(key, v),
                (Some(key), ScalarModel::Flag(b)) => all == before.insert(
                    key,
                    if b {
                        "true"@
                    } else {
                        "false"@
                    },
                ),
                _ => all == before,
            }
        }),
{
    assert(entries.push(e).drop_last() =~= entries);
}

/// A line `key=value` of an `.env` file sets the key to the value, without a
/// pair of quotes round it. Blank lines and comments set nothing, and of several
/// lines for one key the last one counts.
pub proof fn law_lines_set_values(
    key: Seq<char>,
    value: Seq<char>,
    lines: Seq<Seq<char>>,
    line: Seq<char>,
)
    requires
        key.len() > 0,
        value.len() > 0,
        text::trim_text(key) == key,
        text::trim_text(value) == value,
        key[0] != '#',
        value[0] != '"' && value[0] != '\'',
        forall|i: int| 0 <= i < key.len() ==> (#[trigger] key[i]) != '=',
    ensures
        env_line(key + seq!['='] + value) == Some((key, value)),
        env_lines(lines.push(key + seq!['='] + value)) == env_lines(lines).insert(key, value),
        env_line(key + seq!['='] + (seq!['"'] + value + seq!['"'])) == Some((key, value)),
        text::trim_text(line).len() == 0 || text::trim_text(line)[0] == '#' ==> env_lines(
            lines.push(line),
        ) == env_lines(lines),
{
    text::lemma_trim_keeps(key);
    text::lemma_trim_keeps(value);
    let plain = key + seq!['='] + value;
    let quoted = seq!['"'] + value + seq!['"'];
    let wrapped = key + seq!['='] + quoted;
    lemma_key_and_value(key, value);
    let f = |c: char| text::is_white(c);
    assert(!f(quoted[0]) && !f(quoted.last()));
    assert(text::trim_text(quoted) == quoted);
    lemma_key_and_value(key, quoted);
    assert(quoted.subrange(1, quoted.len() - 1) =~= value);
    assert(lines.push(plain).drop_last() =~= lines);
    assert(lines.push(line).drop_last() =~= lines);
}

proof fn lemma_key_and_value(key: Seq<char>, value: Seq<char>)
    requires
        key.len() > 0,
        value.len() > 0,
        !text::is_white(key[0]),
        !text::is_white(value.last()),
        text::trim_text(key) == key,
        text::trim_text(value) == value,
        key[0] != '#',
        forall|i: int| 0 <= i < key.len() ==> (#[trigger] key[i]) != '=',
    ensures
        env_line(key + seq!['='] + value) == Some((key, unquoted(value))),
{
    let s = key + seq!['='] + value;
    let f = |c: char| text::is_white(c);
    assert(s[0] == key[0]);
    assert(s.last() == value.last());
    assert(!f(s[0]) && !f(s.last()));
    assert(text::trim_text(s) == s);
    let n = key.len() as int;
    assert forall|j: int| 0 <= j < n implies s[j] != '=' by {
        assert(s[j] == key[j]);
    }
    assert(s[n] == '=');
    text::lemma_index_of_char_is(s, '=', n);
    assert(s.take(n) =~= key);
    assert(s.skip(n + 1) =~= value);
}

/// A patch says of a route what stands under its name among the `providers` of
/// an entry's `config`: the reference of its key is its `apiKeyEnv`. What the
/// entries of a patch say is taken in their order.
pub proof fn law_patches_are_read_by_their_fields(
    list: Seq<serde_yaml::Value>,
    entry: serde_yaml::Value,
    config: serde_yaml::Value,
    providers: serde_yaml::Value,
    pairs: Seq<(serde_yaml::Value, serde_yaml::Value)>,
    k: int,
)
    requires
        yaml::yaml_field(entry, "config"@) == Some(config),
        yaml::yaml_field(config, "providers"@) == Some(providers),
        yaml::yaml_pairs(providers) == Some(pairs),
        0 <= k < pairs.len(),
    ensures
        patch_entries(list.push(entry)) == patch_entries(list) + patch_entry(entry),
        patch_entry(entry).len() == pairs.len(),
        patch_entry(entry)[k].0 == yaml::yaml_text(pairs[k].0),
        patch_entry(entry)[k].1 == (match yaml::yaml_field(pairs[k].1, "apiKeyEnv"@) {
            Some(field) => yaml::yaml_text(field),
            None => None,
        }),
{
    assert(list.push(entry).drop_last() =~= list);
}

/// The file of credentials has its references under `refs`, each a key and a
/// value.
pub proof fn law_credentials_are_read_by_their_fields(
    content: Seq<char>,
    value: serde_yaml::Value,
    refs: serde_yaml::Value,
    pairs: Seq<(serde_yaml::Value, serde_yaml::Value)>,
    k: int,
)
    requires
        yaml::yaml_parsed(content) == Some(value),
        yaml::yaml_field(value, "refs"@) == Some(refs),
        yaml::yaml_pairs(refs) == Some(pairs),
        0 <= k < pairs.len(),
    ensures
        refs_model(content).len() == pairs.len(),
        refs_model(content)[k] == (yaml::yaml_text(pairs[k].0), yaml::yaml_scalar(pairs[k].1)),
{
}

} // verus!
