//! Kernel families: what each can do, where its versions lie, and how its
//! instances are prepared and started.

use crate::instance;
use crate::instance::{InstanceModel, InstanceRecord, KERNEL_FAMILY_DSH, KERNEL_FAMILY_MCODE};
use crate::json;
use crate::json::{JsonNode, NodeModel};
use crate::kernel::versions::KERNEL_BIN_REL;
use crate::paths;
use crate::text;
use vstd::prelude::*;

verus! {

// --------------------------------------------------------------- capabilities

/// What a kernel family may be able to do.
#[derive(Debug, Clone, Copy, PartialEq, Eq, Structural)]
pub enum AdapterCapability {
    /// New versions can be installed.
    InstallVersion,
    /// Plugins are wired into a profile.
    ProfileWiring,
    /// The kernel takes its home from the environment.
    DshHomeEnv,
    /// Plugins are taken up without a restart.
    HotReload,
}

/// The name of a capability.
pub open spec fn capability_name(cap: AdapterCapability) -> Seq<char> {
    match cap {
        AdapterCapability::InstallVersion => "install-version"@,
        AdapterCapability::ProfileWiring => "profile-wiring"@,
        AdapterCapability::DshHomeEnv => "dsh-home-env"@,
        AdapterCapability::HotReload => "hot-reload"@,
    }
}

/// The bit of a capability.
pub open spec fn capability_bit(cap: AdapterCapability) -> u32 {
    match cap {
        AdapterCapability::InstallVersion => 1u32,
        AdapterCapability::ProfileWiring => 2u32,
        AdapterCapability::DshHomeEnv => 4u32,
        AdapterCapability::HotReload => 8u32,
    }
}

impl AdapterCapability {
    /// The capability's name.
    pub fn as_str(self) -> (r: &'static str)
        ensures
            r@ == capability_name(self),
    {
        match self {
            AdapterCapability::InstallVersion => "install-version",
            AdapterCapability::ProfileWiring => "profile-wiring",
            AdapterCapability::DshHomeEnv => "dsh-home-env",
            AdapterCapability::HotReload => "hot-reload",
        }
    }

    fn bit(self) -> (r: u32)
        ensures
            r == capability_bit(self),
    {
        match self {
            AdapterCapability::InstallVersion => 1,
            AdapterCapability::ProfileWiring => 2,
            AdapterCapability::DshHomeEnv => 4,
            AdapterCapability::HotReload => 8,
        }
    }
}

/// A set of capabilities.
#[derive(Debug, Clone, Copy, PartialEq, Eq, Structural)]
pub struct AdapterCapabilities {
    flags: u32,
}

/// All capabilities, in the order in which they are listed.
pub open spec fn all_capabilities() -> Seq<AdapterCapability> {
    seq![
        AdapterCapability::InstallVersion,
        AdapterCapability::ProfileWiring,
        AdapterCapability::DshHomeEnv,
        AdapterCapability::HotReload,
    ]
}

impl AdapterCapabilities {
    /// The set holds nothing but capabilities.
    #[verifier::type_invariant]
    pub closed spec fn well_formed(self) -> bool {
        self.flags < 16
    }

    /// The capabilities of the set, in their order.
    pub open spec fn listed(self) -> Seq<AdapterCapability> {
        all_capabilities().filter(|cap: AdapterCapability| self.holds(cap))
    }

    /// The set holds a capability.
    pub closed spec fn holds(self, cap: AdapterCapability) -> bool {
        self.flags & capability_bit(cap) != 0
    }

    /// The set of nothing.
    pub fn none() -> (r: Self)
        ensures
            r.well_formed(),
            forall|cap: AdapterCapability| !r.holds(cap),
    {
        let r = AdapterCapabilities { flags: 0 };
        proof {
            assert forall|cap: AdapterCapability| !r.holds(cap) by {
                let b = capability_bit(cap);
                assert(0u32 & b == 0) by (bit_vector);
            }
        }
        r
    }

    /// The set of the capabilities in a list.
    pub fn from_iter(caps: &[AdapterCapability]) -> (r: Self)
        ensures
            r.well_formed(),
            forall|cap: AdapterCapability| r.holds(cap) <==> caps@.contains(cap),
    {
        let mut flags: u32 = 0;
        let mut i: usize = 0;
        proof {
            assert forall|cap: AdapterCapability| flags & capability_bit(cap) == 0 by {
                let b = capability_bit(cap);
                assert(0u32 & b == 0) by (bit_vector);
            }
        }
        while i < caps.len()
            invariant
                i <= caps.len(),
                flags < 16,
                forall|cap: AdapterCapability|
                    flags & #[trigger] capability_bit(cap) != 0 <==> caps@.take(i as int).contains(
                        cap,
                    ),
            decreases caps.len() - i,
        {
            let before = flags;
            let b = caps[i].bit();
            flags = flags | b;
            proof {
                assert(before < 16 && b < 16 ==> before | b < 16) by (bit_vector);
                let now = caps@[i as int];
                assert(caps@.take(i + 1) =~= caps@.take(i as int).push(now));
                assert forall|cap: AdapterCapability|
                    flags & #[trigger] capability_bit(cap) != 0 <==> caps@.take(i + 1).contains(
                        cap,
                    ) by {
                    let c = capability_bit(cap);
                    assert((before | b) & c == (before & c) | (b & c)) by (bit_vector);
                    lemma_bits_differ(now, cap);
                    let x = before & c;
                    let y = b & c;
                    assert((x | y) != 0 <==> x != 0 || y != 0) by (bit_vector);
                    let was = caps@.take(i as int);
                    if was.contains(cap) {
                        let k = choose|k: int| 0 <= k < was.len() && was[k] == cap;
                        assert(was.push(now)[k] == cap);
                    }
                    if cap == now {
                        assert(was.push(now)[i as int] == cap);
                    }
                }
            }
            i = i + 1;
        }
        proof {
            assert(caps@.take(caps@.len() as int) =~= caps@);
        }
        AdapterCapabilities { flags }
    }

    /// Whether the set holds a capability.
    pub fn contains(self, cap: AdapterCapability) -> (r: bool)
        ensures
            r == self.holds(cap),
    {
        (self.flags & cap.bit()) != 0
    }

    /// The capabilities of the set, in their order.
    pub fn list(self) -> (r: Vec<AdapterCapability>)
        ensures
            r@ == self.listed(),
    {
        let all: [AdapterCapability; 4] = [
            AdapterCapability::InstallVersion,
            AdapterCapability::ProfileWiring,
            AdapterCapability::DshHomeEnv,
            AdapterCapability::HotReload,
        ];
        let ghost f = |cap: AdapterCapability| self.holds(cap);
        let mut out: Vec<AdapterCapability> = Vec::new();
        let mut i: usize = 0;
        proof {
            assert(all@ =~= all_capabilities());
            reveal(Seq::filter);
            assert(all@.take(0) =~= Seq::<AdapterCapability>::empty());
        }
        while i < 4
            invariant
                i <= 4,
                all@ == all_capabilities(),
                f == (|cap: AdapterCapability| self.holds(cap)),
                out@ == all@.take(i as int).filter(f),
            decreases 4 - i,
        {
            let cap = all[i];
            proof {
                reveal(Seq::filter);
                assert(all@.take(i + 1).drop_last() =~= all@.take(i as int));
            }
            if self.contains(cap) {
                out.push(cap);
            }
            i = i + 1;
        }
        proof {
            assert(all@.take(4) =~= all@);
        }
        out
    }
}

/// Two sets are the same exactly where they hold the same capabilities.
pub proof fn law_sets_are_their_members(a: AdapterCapabilities, b: AdapterCapabilities)
    requires
        a.well_formed(),
        b.well_formed(),
    ensures
        a == b <==> forall|cap: AdapterCapability| a.holds(cap) == b.holds(cap),
{
    if forall|cap: AdapterCapability| a.holds(cap) == b.holds(cap) {
        let x = a.flags;
        let y = b.flags;
        assert(a.holds(AdapterCapability::InstallVersion) == b.holds(
            AdapterCapability::InstallVersion,
        ));
        assert(a.holds(AdapterCapability::ProfileWiring) == b.holds(
            AdapterCapability::ProfileWiring,
        ));
        assert(a.holds(AdapterCapability::DshHomeEnv) == b.holds(AdapterCapability::DshHomeEnv));
        assert(a.holds(AdapterCapability::HotReload) == b.holds(AdapterCapability::HotReload));
        assert(x == y) by (bit_vector)
            requires
                x < 16,
                y < 16,
                (x & 1u32 != 0) == (y & 1u32 != 0),
                (x & 2u32 != 0) == (y & 2u32 != 0),
                (x & 4u32 != 0) == (y & 4u32 != 0),
                (x & 8u32 != 0) == (y & 8u32 != 0),
        ;
    }
}

/// A list of what a set holds is without repetition, and the set that is built
/// from it is the set itself.
pub proof fn law_a_set_is_built_from_its_list(
    set: AdapterCapabilities,
    built: AdapterCapabilities,
)
    requires
        set.well_formed(),
        built.well_formed(),
        forall|cap: AdapterCapability| built.holds(cap) <==> set.listed().contains(cap),
    ensures
        built == set,
        set.listed().no_duplicates(),
{
    let all = all_capabilities();
    let f = |cap: AdapterCapability| set.holds(cap);
    assert(all.no_duplicates());
    assert forall|cap: AdapterCapability| #[trigger] built.holds(cap) == set.holds(cap) by {
        let k = match cap {
            AdapterCapability::InstallVersion => 0int,
            AdapterCapability::ProfileWiring => 1int,
            AdapterCapability::DshHomeEnv => 2int,
            AdapterCapability::HotReload => 3int,
        };
        assert(all[k] == cap);
        let kept = all.filter(f);
        if f(cap) {
            all.lemma_filter_contains(f, k);
        }
        if kept.contains(cap) {
            let j = choose|j: int| 0 <= j < kept.len() && kept[j] == cap;
            all.lemma_filter_pred(f, j);
        }
    }
    law_sets_are_their_members(set, built);
    lemma_filter_keeps_apart(all, f);
}

proof fn lemma_filter_keeps_apart(
    s: Seq<AdapterCapability>,
    f: spec_fn(AdapterCapability) -> bool,
)
    requires
        s.no_duplicates(),
    ensures
        s.filter(f).no_duplicates(),
    decreases s.len(),
{
    reveal(Seq::filter);
    if s.len() > 0 {
        let rest = s.drop_last();
        lemma_filter_keeps_apart(rest, f);
        if f(s.last()) {
            let kept = rest.filter(f);
            assert forall|k: int| 0 <= k < kept.len() implies (#[trigger] kept[k]) != s.last() by {
                rest.lemma_filter_contains_rev(f, kept[k]);
            }
        }
    }
}

proof fn lemma_bits_differ(a: AdapterCapability, b: AdapterCapability)
    ensures
        capability_bit(a) & capability_bit(b) != 0 <==> a == b,
{
    assert(1u32 & 1u32 == 1u32 && 2u32 & 2u32 == 2u32 && 4u32 & 4u32 == 4u32 && 8u32 & 8u32
        == 8u32) by (bit_vector);
    assert(1u32 & 2u32 == 0u32 && 1u32 & 4u32 == 0u32 && 1u32 & 8u32 == 0u32 && 2u32 & 1u32
        == 0u32 && 2u32 & 4u32 == 0u32 && 2u32 & 8u32 == 0u32 && 4u32 & 1u32 == 0u32 && 4u32
        & 2u32 == 0u32 && 4u32 & 8u32 == 0u32 && 8u32 & 1u32 == 0u32 && 8u32 & 2u32 == 0u32 && 8u32
        & 4u32 == 0u32) by (bit_vector);
}

// --------------------------------------------------------------------- errors

/// Why an adapter cannot do what it was asked.
#[derive(Debug)]
pub enum AdapterError {
    VersionNotInstalled { family: String, version: String },
    InvalidProfile(String),
    PortBusy { port: u16, owner_pid: Option<u32> },
    NativeModuleMissing { package: String, relative: String },
    Io(String),
    Pnpm(String),
    Unsupported(String),
}

/// The content of an error.
#[verifier::ext_equal]
pub enum AdapterErrorModel {
    VersionNotInstalled { family: Seq<char>, version: Seq<char> },
    InvalidProfile(Seq<char>),
    PortBusy { port: u16, owner_pid: Option<u32> },
    NativeModuleMissing { package: Seq<char>, relative: Seq<char> },
    Io(Seq<char>),
    Pnpm(Seq<char>),
    Unsupported(Seq<char>),
}

impl View for AdapterError {
    type V = AdapterErrorModel;

    open spec fn view(&self) -> AdapterErrorModel {
        match self {
            AdapterError::VersionNotInstalled {
                family,
                version,
            } => AdapterErrorModel::VersionNotInstalled { family: family@, version: version@ },
            AdapterError::InvalidProfile(name) => AdapterErrorModel::InvalidProfile(name@),
            AdapterError::PortBusy { port, owner_pid } => AdapterErrorModel::PortBusy {
                port: *port,
                owner_pid: *owner_pid,
            },
            AdapterError::NativeModuleMissing {
                package,
                relative,
            } => AdapterErrorModel::NativeModuleMissing {
                package: package@,
                relative: relative@,
            },
            AdapterError::Io(s) => AdapterErrorModel::Io(s@),
            AdapterError::Pnpm(s) => AdapterErrorModel::Pnpm(s@),
            AdapterError::Unsupported(s) => AdapterErrorModel::Unsupported(s@),
        }
    }
}

/// The words for an error.
pub open spec fn adapter_fault(e: AdapterErrorModel) -> Seq<char> {
    match e {
        AdapterErrorModel::VersionNotInstalled { family, version } => "内核族 "@ + family
            + " 的版本 "@ + version + " 未安装或安装不完整"@,
        AdapterErrorModel::InvalidProfile(name) => "profile 名非法："@ + text::quoted(name),
        AdapterErrorModel::PortBusy { port, owner_pid } => match owner_pid {
            Some(pid) => "端口 "@ + text::decimal_text(port as nat) + " 已被无关进程占用（pid "@
                + text::decimal_text(pid as nat) + "）"@,
            None => "端口 "@ + text::decimal_text(port as nat) + " 已被无关进程占用"@,
        },
        AdapterErrorModel::NativeModuleMissing {
            package,
            relative,
        } => "内核依赖的原生模块未构建完成："@ + package + "（缺 "@ + relative + "）"@,
        AdapterErrorModel::Io(s) => "I/O 错误："@ + s,
        AdapterErrorModel::Pnpm(s) => "pnpm 启动失败："@ + s,
        AdapterErrorModel::Unsupported(s) => "适配器不支持该操作："@ + s,
    }
}

impl AdapterError {
    /// The words for the error.
    pub fn message(&self) -> (r: String)
        ensures
            r@ == adapter_fault(self@),
    {
        match self {
            AdapterError::VersionNotInstalled { family, version } => text::cat5(
                "内核族 ",
                family.as_str(),
                " 的版本 ",
                version.as_str(),
                " 未安装或安装不完整",
            ),
            AdapterError::InvalidProfile(name) => text::cat2(
                "profile 名非法：",
                text::quote(name.as_str()).as_str(),
            ),
            AdapterError::PortBusy { port, owner_pid } => match owner_pid {
                Some(pid) => text::cat5(
                    "端口 ",
                    text::decimal(*port as u64).as_str(),
                    " 已被无关进程占用（pid ",
                    text::decimal(*pid as u64).as_str(),
                    "）",
                ),
                None => text::cat3(
                    "端口 ",
                    text::decimal(*port as u64).as_str(),
                    " 已被无关进程占用",
                ),
            },
            AdapterError::NativeModuleMissing { package, relative } => text::cat5(
                "内核依赖的原生模块未构建完成：",
                package.as_str(),
                "（缺 ",
                relative.as_str(),
                "）",
            ),
            AdapterError::Io(s) => text::cat2("I/O 错误：", s.as_str()),
            AdapterError::Pnpm(s) => text::cat2("pnpm 启动失败：", s.as_str()),
            AdapterError::Unsupported(s) => text::cat2("适配器不支持该操作：", s.as_str()),
        }
    }
}

/// The version that a record names, or nothing.
pub open spec fn version_text(record: InstanceModel) -> Seq<char> {
    match record.kernel_version {
        Some(v) => v,
        None => Seq::empty(),
    }
}

/// The error for a record whose version is not there.
pub open spec fn not_installed(record: InstanceModel) -> AdapterErrorModel {
    AdapterErrorModel::VersionNotInstalled {
        family: record.kernel_family,
        version: version_text(record),
    }
}

fn missing_version(record: &InstanceRecord) -> (r: AdapterError)
    ensures
        r@ == not_installed(record@),
{
    let version = match &record.kernel_version {
        Some(v) => v.clone(),
        None => String::new(),
    };
    proof {
        reveal_strlit("");
        if record.kernel_version is None {
            assert(version@ =~= Seq::<char>::empty());
        }
    }
    AdapterError::VersionNotInstalled { family: record.kernel_family.clone(), version }
}

// ------------------------------------------------------------------ the plans

/// Which files of an instance are there already.
#[derive(Debug, Clone, Copy)]
pub struct PreparedFiles {
    pub package_json: bool,
    pub workspace_yml: bool,
    pub patch_yml: bool,
}

/// A file to write.
#[derive(Debug)]
pub struct FilePlan {
    pub path: String,
    pub content: String,
}

/// The path and the content of a file to write.
pub open spec fn file_model(f: FilePlan) -> (Seq<char>, Seq<char>) {
    (f.path@, f.content@)
}

/// The paths and contents of files to write.
pub open spec fn file_models(files: Seq<FilePlan>) -> Seq<(Seq<char>, Seq<char>)> {
    files.map_values(|f: FilePlan| file_model(f))
}

/// What is made to prepare an instance.
#[derive(Debug)]
pub struct InstancePlan {
    /// The directories, in the order in which they are made.
    pub dirs: Vec<String>,
    /// The files, in the order in which they are written.
    pub files: Vec<FilePlan>,
}

/// How a kernel is started.
#[derive(Debug)]
pub struct LaunchPlan {
    pub args: Vec<String>,
    /// The directory that the kernel runs in, made where it is not there.
    pub workspace: String,
    /// The variables that are set for it.
    pub env: Vec<(String, String)>,
}

/// What was found before a start.
#[derive(Debug, Clone, Copy)]
pub struct LaunchFacts {
    /// The kernel's entry is there.
    pub bin_ready: bool,
    /// The directory of the instance's profile is there.
    pub profile_ready: bool,
    /// Lists of directories are separated by `;` and not by `:`.
    pub windows: bool,
}

// ---------------------------------------------------------------- the adapters

/// What the shell asks of a kernel family. Paths are given and handed back as
/// text; what is on disk is told to the adapter.
pub trait KernelAdapter {
    /// The family's name, which is that of its directory too.
    fn family(&self) -> (r: &'static str);

    /// What the family can do.
    fn capabilities(&self) -> (r: AdapterCapabilities);

    /// The name that people read.
    fn display_name(&self) -> (r: &'static str);

    /// The directory of an installed version: among the family's versions, or
    /// else where older shells put it under `legacy_root`. `ready` and
    /// `legacy_ready` say whether the kernel's entry is in the one and in the
    /// other.
    fn resolve_install_dir(
        &self,
        xlink_home: &str,
        legacy_root: &str,
        version: &str,
        ready: bool,
        legacy_ready: bool,
    ) -> (r: Option<String>);

    /// Whether a text can be a version.
    fn validate_version(&self, version: &str) -> (r: Result<(), String>);

    /// What has to be made before an instance can start.
    fn prepare_instance(
        &self,
        xlink_home: &str,
        record: &InstanceRecord,
        present: &PreparedFiles,
    ) -> (r: Result<InstancePlan, AdapterError>);

    /// Directories of skills that are handed to the kernel.
    fn custom_skill_dirs(&self, xlink_home: &str) -> (r: Vec<String>)
        default_ensures
            r@.len() == 0,
    {
        Vec::new()
    }

    /// How an instance is started.
    fn start(
        &self,
        xlink_home: &str,
        record: &InstanceRecord,
        install_root: &str,
        facts: &LaunchFacts,
    ) -> (r: Result<LaunchPlan, AdapterError>);
}

/// The home of an instance's kernel.
pub open spec fn home_of(xlink_home: Seq<char>, record: InstanceModel) -> Seq<char> {
    paths::joined(paths::instance_root(xlink_home, record.kernel_family, record.id), "home"@)
}

/// The directory of an instance's profile.
pub open spec fn profile_dir(xlink_home: Seq<char>, record: InstanceModel) -> Seq<char> {
    paths::joined(paths::joined(home_of(xlink_home, record), "profiles"@), record.profile)
}

/// The manifest that a new profile starts with.
pub open spec fn profile_manifest(record: InstanceModel) -> Seq<char> {
    json::json_indented(
        json::json_closed(
            NodeModel::Object(
                seq![
                    (
                        "name"@,
                        json::json_closed(NodeModel::Text("dsh-xlink-instance-"@ + record.id)),
                    ),
                    ("private"@, json::json_closed(NodeModel::Bool(true))),
                    ("version"@, json::json_closed(NodeModel::Text("0.0.0"@))),
                    ("schema_version"@, json::json_closed(NodeModel::Number(json::json_integer(1)))),
                    ("kernel_family"@, json::json_closed(NodeModel::Text(record.kernel_family))),
                ],
            ),
        ),
    ) + "\n"@
}

/// The files that preparing an instance writes: those that are missing.
pub open spec fn prepared_files(
    xlink_home: Seq<char>,
    record: InstanceModel,
    present: PreparedFiles,
) -> Seq<(Seq<char>, Seq<char>)> {
    let profile = profile_dir(xlink_home, record);
    let first = if present.package_json {
        Seq::empty()
    } else {
        seq![(paths::joined(profile, "package.json"@), profile_manifest(record))]
    };
    let second = if present.workspace_yml {
        first
    } else {
        first.push((paths::joined(profile, "pnpm-workspace.yaml"@), "packages:\n  - .\n"@))
    };
    if present.patch_yml {
        second
    } else {
        second.push(
            (
                paths::joined(home_of(xlink_home, record), "cordis.patch.yml"@),
                "# dsh-xlink managed cordis patch\nschema_version: 1\n"@,
            ),
        )
    }
}

/// Where older shells put a version.
pub open spec fn legacy_dir(legacy_root: Seq<char>, version: Seq<char>) -> Seq<char> {
    paths::joined(paths::joined(legacy_root, "kernels"@), version)
}

fn legacy_version_dir(legacy_root: &str, version: &str) -> (r: String)
    ensures
        r@ == legacy_dir(legacy_root@, version@),
{
    paths::join(paths::join(legacy_root, "kernels").as_str(), version)
}

/// Where a version of DeepSeek Harness lies: the new place comes first, and
/// there is none only where neither place has it.
pub open spec fn dsh_dir_of(
    xlink_home: Seq<char>,
    legacy_root: Seq<char>,
    version: Seq<char>,
    ready: bool,
    legacy_ready: bool,
) -> Option<Seq<char>> {
    if !paths::valid_id(version) {
        None
    } else if ready {
        Some(paths::version_dir(xlink_home, KERNEL_FAMILY_DSH@, version))
    } else if legacy_ready {
        Some(legacy_dir(legacy_root, version))
    } else {
        None
    }
}

/// The environment of a started kernel.
pub open spec fn launch_env(xlink_home: Seq<char>, record: InstanceModel) -> Seq<
    (Seq<char>, Seq<char>),
> {
    seq![
        ("DSH_HOME"@, home_of(xlink_home, record)),
        ("DSH_PROFILE"@, record.profile),
        ("DSH_CUSTOM_SKILL_DIRS"@, paths::joined(paths::joined(xlink_home, "skills"@), "active"@)),
    ]
}

/// The names and values of a list of variables.
pub open spec fn env_models(env: Seq<(String, String)>) -> Seq<(Seq<char>, Seq<char>)> {
    env.map_values(|e: (String, String)| (e.0@, e.1@))
}

/// DeepSeek Harness.
#[derive(Debug, Clone, Copy)]
pub struct DshAdapter;

impl Default for DshAdapter {
    fn default() -> (r: Self)
        ensures
            r == DshAdapter,
    {
        DshAdapter
    }
}

impl DshAdapter {
    /// The home that the kernel of an instance is given.
    pub fn dsh_home_for(xlink_home: &str, record: &InstanceRecord) -> (r: String)
        ensures
            r@ == home_of(xlink_home@, record@),
    {
        paths::instance_dsh_home(xlink_home, record.kernel_family.as_str(), record.id.as_str())
    }

    fn manifest(record: &InstanceRecord) -> (r: String)
        ensures
            r@ == profile_manifest(record@),
    {
        let mut fields: Vec<(String, serde_json::Value)> = Vec::new();
        let name = text::cat2("dsh-xlink-instance-", record.id.as_str());
        fields.push((text::owned("name"), json::close_json(JsonNode::Text(name))));
        fields.push((text::owned("private"), json::close_json(JsonNode::Bool(true))));
        fields.push(
            (text::owned("version"), json::close_json(JsonNode::Text(text::owned("0.0.0")))),
        );
        fields.push(
            (
                text::owned("schema_version"),
                json::close_json(JsonNode::Number(json::integer_json(1))),
            ),
        );
        fields.push(
            (
                text::owned("kernel_family"),
                json::close_json(JsonNode::Text(record.kernel_family.clone())),
            ),
        );
        let ghost model = seq![
            ("name"@, json::json_closed(NodeModel::Text("dsh-xlink-instance-"@ + record@.id))),
            ("private"@, json::json_closed(NodeModel::Bool(true))),
            ("version"@, json::json_closed(NodeModel::Text("0.0.0"@))),
            ("schema_version"@, json::json_closed(NodeModel::Number(json::json_integer(1)))),
            ("kernel_family"@, json::json_closed(NodeModel::Text(record@.kernel_family))),
        ];
        proof {
            assert(json::fields_of(fields@) =~= model);
        }
        let value = json::close_json(JsonNode::Object(fields));
        text::cat2(json::indent_json(&value).as_str(), "\n")
    }
}

impl KernelAdapter for DshAdapter {
    fn family(&self) -> (r: &'static str)
        ensures
            r@ == KERNEL_FAMILY_DSH@,
    {
        KERNEL_FAMILY_DSH
    }

    fn capabilities(&self) -> (r: AdapterCapabilities)
        ensures
            forall|cap: AdapterCapability| r.holds(cap) <==> cap != AdapterCapability::HotReload,
    {
        let caps: [AdapterCapability; 3] = [
            AdapterCapability::InstallVersion,
            AdapterCapability::ProfileWiring,
            AdapterCapability::DshHomeEnv,
        ];
        proof {
            assert(caps@[0] == AdapterCapability::InstallVersion);
            assert(caps@[1] == AdapterCapability::ProfileWiring);
            assert(caps@[2] == AdapterCapability::DshHomeEnv);
        }
        AdapterCapabilities::from_iter(&caps)
    }

    fn display_name(&self) -> (r: &'static str)
        ensures
            r@ == "DeepSeek Harness"@,
    {
        "DeepSeek Harness"
    }

    fn resolve_install_dir(
        &self,
        xlink_home: &str,
        legacy_root: &str,
        version: &str,
        ready: bool,
        legacy_ready: bool,
    ) -> (r: Option<String>)
        ensures
            text::opt_text(r) == dsh_dir_of(xlink_home@, legacy_root@, version@, ready, legacy_ready),
    {
        match paths::validate_id_component(version) {
            Ok(_) => {},
            Err(_) => {
                return None;
            },
        }
        if ready {
            Some(paths::kernel_version_dir(xlink_home, KERNEL_FAMILY_DSH, version))
        } else if legacy_ready {
            Some(legacy_version_dir(legacy_root, version))
        } else {
            None
        }
    }

    fn validate_version(&self, version: &str) -> (r: Result<(), String>)
        ensures
            r is Ok <==> version@.len() > 0,
            r matches Err(e) ==> e@ == "版本号不能为空"@,
    {
        if version.is_empty() {
            return Err(text::owned("版本号不能为空"));
        }
        Ok(())
    }

    fn prepare_instance(
        &self,
        xlink_home: &str,
        record: &InstanceRecord,
        present: &PreparedFiles,
    ) -> (r: Result<InstancePlan, AdapterError>)
        ensures
            r is Ok <==> paths::valid_id(record.id@) && paths::valid_id(record.kernel_family@) && paths::valid_id(
                record.profile@,
            ),
            r matches Ok(plan) ==> text::texts(plan.dirs@) == instance::instance_dirs(
                paths::instance_root(xlink_home@, record.kernel_family@, record.id@),
            ).push(profile_dir(xlink_home@, record@)) && file_models(plan.files@) == prepared_files(
                xlink_home@,
                record@,
                *present,
            ),
            r matches Err(e) ==> if paths::valid_id(record.id@) && paths::valid_id(record.kernel_family@) {
                e@ == AdapterErrorModel::InvalidProfile(record.profile@)
            } else {
                e@ == AdapterErrorModel::Io(paths::ID_FAULT@)
            },
    {
        match paths::validate_id_component(record.id.as_str()) {
            Ok(_) => {},
            Err(e) => {
                return Err(AdapterError::Io(text::owned(e)));
            },
        }
        match paths::validate_id_component(record.kernel_family.as_str()) {
            Ok(_) => {},
            Err(e) => {
                return Err(AdapterError::Io(text::owned(e)));
            },
        }
        match paths::validate_id_component(record.profile.as_str()) {
            Ok(_) => {},
            Err(_) => {
                return Err(AdapterError::InvalidProfile(record.profile.clone()));
            },
        }
        let mut dirs = match instance::ensure_instance_dirs(xlink_home, record) {
            Ok(dirs) => dirs,
            Err(e) => {
                return Err(AdapterError::Io(text::owned(e)));
            },
        };
        let home = Self::dsh_home_for(xlink_home, record);
        let profiles = paths::join(home.as_str(), "profiles");
        let profile = paths::join(profiles.as_str(), record.profile.as_str());
        let ghost all = text::texts(dirs@);
        let made = profile.clone();
        proof {
            assert(text::texts(dirs@.push(made)) =~= all.push(made@));
        }
        dirs.push(made);
        let mut files: Vec<FilePlan> = Vec::new();
        proof {
            assert(file_models(files@) =~= Seq::<(Seq<char>, Seq<char>)>::empty());
        }
        if !present.package_json {
            let f = FilePlan {
                path: paths::join(profile.as_str(), "package.json"),
                content: Self::manifest(record),
            };
            proof {
                assert(file_models(files@.push(f)) =~= file_models(files@).push(file_model(f)));
                assert(file_models(files@.push(f)) =~= seq![file_model(f)]);
            }
            files.push(f);
        }
        if !present.workspace_yml {
            let f = FilePlan {
                path: paths::join(profile.as_str(), "pnpm-workspace.yaml"),
                content: text::owned("packages:\n  - .\n"),
            };
            proof {
                assert(file_models(files@.push(f)) =~= file_models(files@).push(file_model(f)));
            }
            files.push(f);
        }
        if !present.patch_yml {
            let f = FilePlan {
                path: paths::join(home.as_str(), "cordis.patch.yml"),
                content: text::owned("# dsh-xlink managed cordis patch\nschema_version: 1\n"),
            };
            proof {
                assert(file_models(files@.push(f)) =~= file_models(files@).push(file_model(f)));
            }
            files.push(f);
        }
        Ok(InstancePlan { dirs, files })
    }

    fn custom_skill_dirs(&self, xlink_home: &str) -> (r: Vec<String>)
        ensures
            text::texts(r@) == seq![paths::joined(paths::joined(xlink_home@, "skills"@), "active"@)],
    {
        let mut dirs: Vec<String> = Vec::new();
        dirs.push(paths::skills_active_root(xlink_home));
        proof {
            assert(text::texts(dirs@) =~= seq![paths::joined(paths::joined(xlink_home@, "skills"@), "active"@)]);
        }
        dirs
    }

    fn start(
        &self,
        xlink_home: &str,
        record: &InstanceRecord,
        install_root: &str,
        facts: &LaunchFacts,
    ) -> (r: Result<LaunchPlan, AdapterError>)
        ensures
            r is Ok <==> facts.bin_ready && facts.profile_ready,
            r matches Ok(plan) ==> {
                &&& text::texts(plan.args@) == seq![
                    paths::joined(install_root@, KERNEL_BIN_REL@),
                    "web"@,
                    "--no-open"@,
                    "--port"@,
                    text::decimal_text(record.port as nat),
                ]
                &&& plan.workspace@ == record.workspace@
                &&& env_models(plan.env@) == launch_env(xlink_home@, record@)
            },
            r matches Err(e) ==> e@ == (if !facts.bin_ready {
                not_installed(record@)
            } else {
                AdapterErrorModel::InvalidProfile(
                    "实例 "@ + record.id@ + " 的 profile "@ + record.profile@ + " 目录尚未准备好"@,
                )
            }),
    {
        if !facts.bin_ready {
            return Err(missing_version(record));
        }
        if !facts.profile_ready {
            return Err(
                AdapterError::InvalidProfile(
                    text::cat5(
                        "实例 ",
                        record.id.as_str(),
                        " 的 profile ",
                        record.profile.as_str(),
                        " 目录尚未准备好",
                    ),
                ),
            );
        }
        let mut args: Vec<String> = Vec::new();
        args.push(paths::join(install_root, KERNEL_BIN_REL));
        args.push(text::owned("web"));
        args.push(text::owned("--no-open"));
        args.push(text::owned("--port"));
        args.push(text::decimal(record.port as u64));
        let mut env: Vec<(String, String)> = Vec::new();
        env.push((text::owned("DSH_HOME"), Self::dsh_home_for(xlink_home, record)));
        env.push((text::owned("DSH_PROFILE"), record.profile.clone()));
        let dirs = self.custom_skill_dirs(xlink_home);
        let ghost skills = paths::joined(paths::joined(xlink_home@, "skills"@), "active"@);
        proof {
            assert(text::texts(dirs@).len() == dirs@.len());
        }
        if dirs.len() > 0 {
            let list = text::join(
                &dirs,
                if facts.windows {
                    ";"
                } else {
                    ":"
                },
            );
            proof {
                reveal_with_fuel(text::join_text, 2);
                assert(list@ =~= skills);
            }
            env.push((text::owned("DSH_CUSTOM_SKILL_DIRS"), list));
        }
        proof {
            assert(text::texts(args@) =~= seq![
                paths::joined(install_root@, KERNEL_BIN_REL@),
                "web"@,
                "--no-open"@,
                "--port"@,
                text::decimal_text(record.port as nat),
            ]);
            assert(env_models(env@) =~= launch_env(xlink_home@, record@));
        }
        Ok(LaunchPlan { args, workspace: record.workspace.clone(), env })
    }
}

/// mcode, which is listed but cannot be installed or started yet.
#[derive(Debug, Clone, Copy)]
pub struct McodeAdapter;

impl McodeAdapter {
    /// The adapter.
    pub fn new() -> (r: Self)
        ensures
            r == McodeAdapter,
    {
        McodeAdapter
    }
}

impl Default for McodeAdapter {
    fn default() -> (r: Self)
        ensures
            r == McodeAdapter,
    {
        McodeAdapter
    }
}

impl KernelAdapter for McodeAdapter {
    fn family(&self) -> (r: &'static str)
        ensures
            r@ == KERNEL_FAMILY_MCODE@,
    {
        KERNEL_FAMILY_MCODE
    }

    fn capabilities(&self) -> (r: AdapterCapabilities)
        ensures
            forall|cap: AdapterCapability| !r.holds(cap),
    {
        AdapterCapabilities::none()
    }

    fn display_name(&self) -> (r: &'static str)
        ensures
            r@ == "Mcode (mock)"@,
    {
        "Mcode (mock)"
    }

    fn resolve_install_dir(
        &self,
        xlink_home: &str,
        legacy_root: &str,
        version: &str,
        ready: bool,
        legacy_ready: bool,
    ) -> (r: Option<String>)
        ensures
            r is None,
    {
        None
    }

    fn validate_version(&self, version: &str) -> (r: Result<(), String>)
        ensures
            r is Ok,
    {
        Ok(())
    }

    fn prepare_instance(
        &self,
        xlink_home: &str,
        record: &InstanceRecord,
        present: &PreparedFiles,
    ) -> (r: Result<InstancePlan, AdapterError>)
        ensures
            r matches Err(e) && e@ == not_installed(record@),
    {
        Err(missing_version(record))
    }

    fn custom_skill_dirs(&self, xlink_home: &str) -> (r: Vec<String>)
        ensures
            r@.len() == 0,
    {
        Vec::new()
    }

    fn start(
        &self,
        xlink_home: &str,
        record: &InstanceRecord,
        install_root: &str,
        facts: &LaunchFacts,
    ) -> (r: Result<LaunchPlan, AdapterError>)
        ensures
            r matches Err(e) && e@ == not_installed(record@),
    {
        Err(missing_version(record))
    }
}

/// A registered adapter.
#[derive(Debug, Clone, Copy)]
pub enum Adapter {
    Dsh(DshAdapter),
    Mcode(McodeAdapter),
}

/// The family of a registered adapter.
pub open spec fn adapter_family(a: Adapter) -> Seq<char> {
    match a {
        Adapter::Dsh(_) => KERNEL_FAMILY_DSH@,
        Adapter::Mcode(_) => KERNEL_FAMILY_MCODE@,
    }
}

impl Adapter {
    /// The adapter's family.
    pub fn family(&self) -> (r: &'static str)
        ensures
            r@ == adapter_family(*self),
    {
        match self {
            Adapter::Dsh(a) => a.family(),
            Adapter::Mcode(a) => a.family(),
        }
    }

    /// The name that people read.
    pub fn display_name(&self) -> (r: &'static str)
        ensures
            r@ == (match *self {
                Adapter::Dsh(_) => "DeepSeek Harness"@,
                Adapter::Mcode(_) => "Mcode (mock)"@,
            }),
    {
        match self {
            Adapter::Dsh(a) => a.display_name(),
            Adapter::Mcode(a) => a.display_name(),
        }
    }

    /// What the family can do.
    pub fn capabilities(&self) -> (r: AdapterCapabilities)
        ensures
            forall|cap: AdapterCapability|
                r.holds(cap) <==> *self is Dsh && cap != AdapterCapability::HotReload,
    {
        match self {
            Adapter::Dsh(a) => a.capabilities(),
            Adapter::Mcode(a) => a.capabilities(),
        }
    }

    /// The directory of an installed version, new or old.
    pub fn resolve_install_dir(
        &self,
        xlink_home: &str,
        legacy_root: &str,
        version: &str,
        ready: bool,
        legacy_ready: bool,
    ) -> (r: Option<String>)
        ensures
            text::opt_text(r) == (if *self is Dsh {
                dsh_dir_of(xlink_home@, legacy_root@, version@, ready, legacy_ready)
            } else {
                None
            }),
    {
        match self {
            Adapter::Dsh(a) => a.resolve_install_dir(
                xlink_home,
                legacy_root,
                version,
                ready,
                legacy_ready,
            ),
            Adapter::Mcode(a) => a.resolve_install_dir(
                xlink_home,
                legacy_root,
                version,
                ready,
                legacy_ready,
            ),
        }
    }
}

/// The registered adapters.
pub fn adapters() -> (r: Vec<Adapter>)
    ensures
        r@ == seq![Adapter::Dsh(DshAdapter), Adapter::Mcode(McodeAdapter)],
{
    let mut all: Vec<Adapter> = Vec::new();
    all.push(Adapter::Dsh(DshAdapter));
    all.push(Adapter::Mcode(McodeAdapter::new()));
    all
}

/// The adapter of a family.
pub open spec fn adapter_of(family: Seq<char>) -> Option<Adapter> {
    if family == KERNEL_FAMILY_DSH@ {
        Some(Adapter::Dsh(DshAdapter))
    } else if family == KERNEL_FAMILY_MCODE@ {
        Some(Adapter::Mcode(McodeAdapter))
    } else {
        None
    }
}

/// The adapter of a family.
pub fn lookup(family: &str) -> (r: Option<Adapter>)
    ensures
        r == adapter_of(family@),
{
    let all = adapters();
    if text::same(all[0].family(), family) {
        return Some(all[0]);
    }
    if text::same(all[1].family(), family) {
        return Some(all[1]);
    }
    None
}

/// The two families have names of their own, so each is found by its name.
pub proof fn law_families_differ()
    ensures
        KERNEL_FAMILY_DSH@ != KERNEL_FAMILY_MCODE@,
        adapter_of(KERNEL_FAMILY_DSH@) == Some(Adapter::Dsh(DshAdapter)),
        adapter_of(KERNEL_FAMILY_MCODE@) == Some(Adapter::Mcode(McodeAdapter)),
{
    reveal_strlit("dsh");
    reveal_strlit("mcode");
    assert(KERNEL_FAMILY_DSH@.len() != KERNEL_FAMILY_MCODE@.len());
}

/// Where the version of a record lies.
pub open spec fn install_root_of(
    xlink_home: Seq<char>,
    record: InstanceModel,
    legacy_root: Seq<char>,
    ready: bool,
    legacy_ready: bool,
) -> Option<Seq<char>> {
    if record.kernel_family == KERNEL_FAMILY_DSH@ && (record.kernel_version matches Some(v)
        && paths::valid_id(v)) && ready {
        Some(paths::version_dir(xlink_home, KERNEL_FAMILY_DSH@, version_text(record)))
    } else if legacy_ready {
        Some(legacy_dir(legacy_root, version_text(record)))
    } else {
        None
    }
}

/// Where the version of a record lies: among the family's versions, or else
/// where older shells put it. `ready` and `legacy_ready` say whether the
/// kernel's entry is in the one and in the other.
pub fn resolve_install_root(
    xlink_home: &str,
    record: &InstanceRecord,
    legacy_install_root: &str,
    ready: bool,
    legacy_ready: bool,
) -> (r: Result<String, AdapterError>)
    ensures
        match r {
            Ok(root) => install_root_of(
                xlink_home@,
                record@,
                legacy_install_root@,
                ready,
                legacy_ready,
            ) == Some(root@),
            Err(e) => install_root_of(
                xlink_home@,
                record@,
                legacy_install_root@,
                ready,
                legacy_ready,
            ) is None && e@ == not_installed(record@),
        },
{
    proof {
        law_families_differ();
        reveal_strlit("");
    }
    if let Some(adapter) = lookup(record.kernel_family.as_str()) {
        if let Some(version) = &record.kernel_version {
            if let Some(dir) = adapter.resolve_install_dir(
                xlink_home,
                legacy_install_root,
                version.as_str(),
                ready,
                legacy_ready,
            ) {
                return Ok(dir);
            }
        }
    }
    if legacy_ready {
        let version = match &record.kernel_version {
            Some(v) => v.as_str(),
            None => "",
        };
        proof {
            assert(version@ =~= version_text(record@));
        }
        return Ok(legacy_version_dir(legacy_install_root, version));
    }
    Err(missing_version(record))
}

/// A started kernel is told its own home: that of its instance, and of no other
/// of the family. It is told its profile and the skills that all share.
pub proof fn law_kernels_are_told_their_own_home(
    xlink_home: Seq<char>,
    a: InstanceModel,
    b: InstanceModel,
)
    requires
        paths::valid_id(a.id),
        paths::valid_id(b.id),
        a.kernel_family == b.kernel_family,
    ensures
        ({
            let env = launch_env(xlink_home, a);
            &&& env.contains(
                (
                    "DSH_HOME"@,
                    paths::joined(
                        paths::instance_root(xlink_home, a.kernel_family, a.id),
                        "home"@,
                    ),
                ),
            )
            &&& env.contains(("DSH_PROFILE"@, a.profile))
            &&& env.contains(
                (
                    "DSH_CUSTOM_SKILL_DIRS"@,
                    paths::joined(paths::joined(xlink_home, "skills"@), "active"@),
                ),
            )
            &&& env.len() == 3
        }),
        home_of(xlink_home, a) == home_of(xlink_home, b) <==> a.id == b.id,
{
    let env = launch_env(xlink_home, a);
    assert(env[0].0 == "DSH_HOME"@);
    assert(env[0].1 == home_of(xlink_home, a));
    assert(env[1] == ("DSH_PROFILE"@, a.profile));
    assert(env[2].0 == "DSH_CUSTOM_SKILL_DIRS"@);
    let root_a = paths::instance_root(xlink_home, a.kernel_family, a.id);
    let root_b = paths::instance_root(xlink_home, b.kernel_family, b.id);
    instance::law_instances_lie_apart(xlink_home, a.kernel_family, a.id, b.id, 0);
    reveal_strlit("home");
    assert forall|i: int| 0 <= i < "home"@.len() implies (#[trigger] "home"@[i]) != '/' by {}
    reveal_strlit(".");
    reveal_strlit("..");
    assert("home"@.len() != "."@.len() && "home"@.len() != ".."@.len());
    paths::law_joining_adds_a_part(root_a, "home"@);
    paths::law_joining_adds_a_part(root_b, "home"@);
    if home_of(xlink_home, a) == home_of(xlink_home, b) {
        let dir = paths::joined(
            paths::joined(paths::joined(xlink_home, "kernels"@), a.kernel_family),
            "instances"@,
        );
        let p = paths::path_parts(root_a);
        let q = paths::path_parts(root_b);
        assert(p.push(paths::PartModel::Normal("home"@)).drop_last() =~= p);
        assert(q.push(paths::PartModel::Normal("home"@)).drop_last() =~= q);
        paths::law_names_make_paths_of_their_own(dir, a.id, b.id);
    }
}

/// Preparing an instance writes the files that are missing, each in its place,
/// and none that is there.
pub proof fn law_only_missing_files_are_written(
    xlink_home: Seq<char>,
    record: InstanceModel,
    present: PreparedFiles,
)
    ensures
        ({
            let files = prepared_files(xlink_home, record, present);
            let profile = paths::joined(
                paths::joined(home_of(xlink_home, record), "profiles"@),
                record.profile,
            );
            let count = (if present.package_json {
                0int
            } else {
                1int
            }) + (if present.workspace_yml {
                0int
            } else {
                1int
            }) + (if present.patch_yml {
                0int
            } else {
                1int
            });
            &&& files.len() == count
            &&& !present.package_json ==> files[0].0 == paths::joined(profile, "package.json"@)
            &&& !present.workspace_yml ==> files.contains(
                (paths::joined(profile, "pnpm-workspace.yaml"@), "packages:\n  - .\n"@),
            )
            &&& !present.patch_yml ==> files.last().0 == paths::joined(
                home_of(xlink_home, record),
                "cordis.patch.yml"@,
            )
        }),
{
    let files = prepared_files(xlink_home, record, present);
    if !present.workspace_yml {
        let k: int = if present.package_json {
            0
        } else {
            1
        };
        assert(files[k] == (
            paths::joined(profile_dir(xlink_home, record), "pnpm-workspace.yaml"@),
            "packages:\n  - .\n"@,
        ));
    }
}

/// A version is taken from its own place where its entry is there, and from
/// where older shells put it only where it is not; without either there is
/// none. Only the harness has places of its own.
pub proof fn law_new_installs_come_before_old_ones(
    xlink_home: Seq<char>,
    record: InstanceModel,
    legacy_root: Seq<char>,
    ready: bool,
    legacy_ready: bool,
)
    ensures
        ({
            let r = install_root_of(xlink_home, record, legacy_root, ready, legacy_ready);
            let version = match record.kernel_version {
                Some(v) => v,
                None => Seq::<char>::empty(),
            };
            let own = record.kernel_family == "dsh"@ && record.kernel_version is Some
                && paths::valid_id(version) && ready;
            &&& own ==> r == Some(paths::version_dir(xlink_home, "dsh"@, version))
            &&& !own && legacy_ready ==> r == Some(
                paths::joined(paths::joined(legacy_root, "kernels"@), version),
            )
            &&& !own && !legacy_ready ==> r is None
        }),
{
}

/// A version of the harness is looked for in its own place first, then where
/// older shells put it; a version that is no path component is nowhere.
pub proof fn law_versions_are_looked_for_in_order(
    xlink_home: Seq<char>,
    legacy_root: Seq<char>,
    version: Seq<char>,
    ready: bool,
    legacy_ready: bool,
)
    ensures
        ({
            let r = dsh_dir_of(xlink_home, legacy_root, version, ready, legacy_ready);
            &&& r is Some <==> paths::valid_id(version) && (ready || legacy_ready)
            &&& r is Some && ready ==> r == Some(paths::version_dir(xlink_home, "dsh"@, version))
            &&& r is Some && !ready ==> r == Some(
                paths::joined(paths::joined(legacy_root, "kernels"@), version),
            )
        }),
{
}

/// Each family has one adapter, and no other name has any.
pub proof fn law_only_known_families_have_adapters(family: Seq<char>)
    ensures
        adapter_of(family) is Some <==> family == "dsh"@ || family == "mcode"@,
        adapter_of(family) matches Some(a) ==> adapter_family(a) == family,
{
}

/// Capabilities have names of their own.
pub proof fn law_capabilities_are_told_apart(a: AdapterCapability, b: AdapterCapability)
    ensures
        capability_name(a) == capability_name(b) <==> a == b,
        capability_bit(a) == capability_bit(b) <==> a == b,
{
    reveal_strlit("install-version");
    reveal_strlit("profile-wiring");
    reveal_strlit("dsh-home-env");
    reveal_strlit("hot-reload");
    assert("install-version"@.len() == 15 && "profile-wiring"@.len() == 14 && "dsh-home-env"@.len()
        == 12 && "hot-reload"@.len() == 10);
}

/// What is said of an error names what it is about: the version and its family,
/// the port and who has it, or the missing file and its package.
pub proof fn law_faults_name_what_they_are_about(
    a: Seq<char>,
    b: Seq<char>,
    port: u16,
    pid: u32,
)
    ensures
        text::has(
            adapter_fault(AdapterErrorModel::VersionNotInstalled { family: a, version: b }),
            a,
        ),
        text::has(
            adapter_fault(AdapterErrorModel::VersionNotInstalled { family: a, version: b }),
            b,
        ),
        text::has(
            adapter_fault(AdapterErrorModel::PortBusy { port, owner_pid: Some(pid) }),
            text::decimal_text(port as nat),
        ),
        text::has(
            adapter_fault(AdapterErrorModel::PortBusy { port, owner_pid: Some(pid) }),
            text::decimal_text(pid as nat),
        ),
        text::has(
            adapter_fault(AdapterErrorModel::NativeModuleMissing { package: a, relative: b }),
            a,
        ),
        text::has(
            adapter_fault(AdapterErrorModel::NativeModuleMissing { package: a, relative: b }),
            b,
        ),
        text::ends(adapter_fault(AdapterErrorModel::Io(a)), a),
        text::ends(adapter_fault(AdapterErrorModel::Pnpm(a)), a),
        text::ends(adapter_fault(AdapterErrorModel::Unsupported(a)), a),
{
    let none = Seq::<char>::empty();
    let v = adapter_fault(AdapterErrorModel::VersionNotInstalled { family: a, version: b });
    let x = " 的版本 "@ + b + " 未安装或安装不完整"@;
    text::law_texts_hold_their_parts("内核族 "@, a, x, v);
    assert(v =~= "内核族 "@ + a + x);
    text::law_texts_hold_their_parts(
        "内核族 "@ + a + " 的版本 "@,
        b,
        " 未安装或安装不完整"@,
        v,
    );
    let p = text::decimal_text(port as nat);
    let q = text::decimal_text(pid as nat);
    let busy = adapter_fault(AdapterErrorModel::PortBusy { port, owner_pid: Some(pid) });
    let y = " 已被无关进程占用（pid "@ + q + "）"@;
    text::law_texts_hold_their_parts("端口 "@, p, y, busy);
    assert(busy =~= "端口 "@ + p + y);
    text::law_texts_hold_their_parts("端口 "@ + p + " 已被无关进程占用（pid "@, q, "）"@, busy);
    let m = adapter_fault(AdapterErrorModel::NativeModuleMissing { package: a, relative: b });
    let head = "内核依赖的原生模块未构建完成："@;
    let z = "（缺 "@ + b + "）"@;
    text::law_texts_hold_their_parts(head, a, z, m);
    assert(m =~= head + a + z);
    text::law_texts_hold_their_parts(head + a + "（缺 "@, b, "）"@, m);
    text::law_texts_hold_their_parts("I/O 错误："@, a, none, a);
    text::law_texts_hold_their_parts("pnpm 启动失败："@, a, none, a);
    text::law_texts_hold_their_parts("适配器不支持该操作："@, a, none, a);
}

} // verus!
