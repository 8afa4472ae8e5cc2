//! Kernel instances: their records, the registry of them, their ports and
//! locks.

use crate::kernel::process;
use crate::kernel::process::PidRecord;
use crate::paths;
use crate::paths::ShellMode;
use crate::plugins::DEFAULT_PROFILE;
use crate::text;
use vstd::prelude::*;

verus! {

/// The newest form of the registry that is understood.
pub const CURRENT_REGISTRY_SCHEMA_VERSION: u32 = 1;

/// The newest form of an instance's record that is understood.
pub const CURRENT_INSTANCE_SCHEMA_VERSION: u32 = 1;

/// The newest form of an instance's runtime state that is understood.
pub const CURRENT_RUNTIME_SCHEMA_VERSION: u32 = 1;

/// The instance of a shell that knows no other.
pub const DEFAULT_INSTANCE_ID: &'static str = "default";

/// The kernel family of DeepSeek Harness.
pub const KERNEL_FAMILY_DSH: &'static str = "dsh";

/// The kernel family of mcode.
pub const KERNEL_FAMILY_MCODE: &'static str = "mcode";

/// The first port that a new instance may be given.
pub const DEFAULT_PORT_BASE: u16 = 3090;

/// The port below which new instances are given theirs.
pub const DEFAULT_PORT_CEILING: u16 = 32999;

/// The family and the id of the default instance.
pub fn resolve_default() -> (r: (&'static str, &'static str))
    ensures
        r.0@ == KERNEL_FAMILY_DSH@,
        r.1@ == DEFAULT_INSTANCE_ID@,
{
    (KERNEL_FAMILY_DSH, DEFAULT_INSTANCE_ID)
}

/// What an instance is doing.
#[derive(Debug, Clone, Copy, PartialEq, Eq, Structural)]
pub enum InstanceStatus {
    Created,
    Installing,
    Stopped,
    Starting,
    Running,
    Stopping,
    Failed,
    Removing,
}

// -------------------------------------------------------------------- records

/// An instance, as the registry lists it.
#[derive(Debug)]
pub struct InstanceRecord {
    pub schema_version: u32,
    /// One path component, unlike that of any other instance.
    pub id: String,
    pub kernel_family: String,
    /// None until a version is installed.
    pub kernel_version: Option<String>,
    pub profile: String,
    pub port: u16,
    /// The directory that the kernel is started in.
    pub workspace: String,
    /// Milliseconds since the epoch.
    pub created_at_ms: u64,
    /// What the user calls it.
    pub label: Option<String>,
}

/// The content of a record.
#[verifier::ext_equal]
pub struct InstanceModel {
    pub schema_version: u32,
    pub id: Seq<char>,
    pub kernel_family: Seq<char>,
    pub kernel_version: Option<Seq<char>>,
    pub profile: Seq<char>,
    pub port: u16,
    pub workspace: Seq<char>,
    pub created_at_ms: u64,
    pub label: Option<Seq<char>>,
}

impl View for InstanceRecord {
    type V = InstanceModel;

    open spec fn view(&self) -> InstanceModel {
        InstanceModel {
            schema_version: self.schema_version,
            id: self.id@,
            kernel_family: self.kernel_family@,
            kernel_version: text::opt_text(self.kernel_version),
            profile: self.profile@,
            port: self.port,
            workspace: self.workspace@,
            created_at_ms: self.created_at_ms,
            label: text::opt_text(self.label),
        }
    }
}

impl Clone for InstanceRecord {
    fn clone(&self) -> (r: Self)
        ensures
            r@ == self@,
    {
        InstanceRecord {
            schema_version: self.schema_version,
            id: self.id.clone(),
            kernel_family: self.kernel_family.clone(),
            kernel_version: text::copy_opt(&self.kernel_version),
            profile: self.profile.clone(),
            port: self.port,
            workspace: self.workspace.clone(),
            created_at_ms: self.created_at_ms,
            label: text::copy_opt(&self.label),
        }
    }
}

impl InstanceRecord {
    /// A record of a new instance, with the default profile, a workspace of its
    /// own and no version yet.
    pub fn new(
        xlink_home: &str,
        id: &str,
        kernel_family: &str,
        port: u16,
        created_at_ms: u64,
    ) -> (r: Self)
        requires
            paths::valid_id(id@),
        ensures
            r@ == (InstanceModel {
                schema_version: CURRENT_INSTANCE_SCHEMA_VERSION,
                id: id@,
                kernel_family: kernel_family@,
                kernel_version: None,
                profile: DEFAULT_PROFILE@,
                port,
                workspace: paths::joined(
                    paths::instance_root(xlink_home@, kernel_family@, id@),
                    "workspace"@,
                ),
                created_at_ms,
                label: None,
            }),
    {
        let dir = paths::instance_dir(xlink_home, kernel_family, id);
        InstanceRecord {
            schema_version: CURRENT_INSTANCE_SCHEMA_VERSION,
            id: text::owned(id),
            kernel_family: text::owned(kernel_family),
            kernel_version: None,
            profile: text::owned(DEFAULT_PROFILE),
            port,
            workspace: paths::join(dir.as_str(), "workspace"),
            created_at_ms,
            label: None,
        }
    }

    /// Whether the record's form is understood.
    pub fn is_compatible(&self) -> (r: bool)
        ensures
            r == (self.schema_version <= CURRENT_INSTANCE_SCHEMA_VERSION),
    {
        self.schema_version <= CURRENT_INSTANCE_SCHEMA_VERSION
    }
}

/// The record that was read from disk, where its form is understood.
pub fn load_record_from_disk(parsed: Option<InstanceRecord>) -> (r: Option<InstanceRecord>)
    ensures
        r == (match parsed {
            Some(rec) if rec.schema_version <= CURRENT_INSTANCE_SCHEMA_VERSION => parsed,
            _ => None,
        }),
{
    match parsed {
        Some(rec) => if rec.is_compatible() {
            Some(rec)
        } else {
            None
        },
        None => None,
    }
}

/// What the user is told of a workspace that climbs.
pub const WORKSPACE_FAULT: &'static str = "实例工作目录不能包含上级目录（..）";

/// A record that may be written to disk: its id, its family and its profile
/// each name one directory, and its workspace does not climb, by slashes of
/// either kind.
pub open spec fn storable(record: InstanceModel) -> bool {
    paths::valid_id(record.id) && paths::valid_id(record.kernel_family) && paths::valid_id(
        record.profile,
    ) && !paths::climbs(paths::slashed(record.workspace))
}

/// Whether a record may be written to disk.
pub fn save_record_to_disk(record: &InstanceRecord) -> (r: Result<(), &'static str>)
    ensures
        r is Ok <==> storable(record@),
        r matches Err(e) ==> e@ == (if paths::valid_id(record.id@) && paths::valid_id(
            record.kernel_family@,
        ) && paths::valid_id(record.profile@) {
            WORKSPACE_FAULT@
        } else {
            paths::ID_FAULT@
        }),
{
    match paths::validate_id_component(record.id.as_str()) {
        Ok(_) => {},
        Err(e) => {
            return Err(e);
        },
    }
    match paths::validate_id_component(record.kernel_family.as_str()) {
        Ok(_) => {},
        Err(e) => {
            return Err(e);
        },
    }
    match paths::validate_id_component(record.profile.as_str()) {
        Ok(_) => {},
        Err(e) => {
            return Err(e);
        },
    }
    if paths::has_parent(paths::with_slashes(record.workspace.as_str()).as_str()) {
        return Err(WORKSPACE_FAULT);
    }
    Ok(())
}

// -------------------------------------------------------------------- runtime

/// What an instance was last seen doing.
#[derive(Debug)]
pub struct InstanceRuntime {
    pub schema_version: u32,
    pub status: InstanceStatus,
    pub last_updated_ms: u64,
    pub pid: Option<u32>,
    /// The port that the running kernel was given.
    pub port: Option<u16>,
    pub started_at_ms: Option<u64>,
    pub failure_reason: Option<String>,
}

/// The state of an instance that does not run.
pub open spec fn stopped_at(updated_at_ms: u64) -> InstanceRuntime {
    InstanceRuntime {
        schema_version: CURRENT_RUNTIME_SCHEMA_VERSION,
        status: InstanceStatus::Stopped,
        last_updated_ms: updated_at_ms,
        pid: None,
        port: None,
        started_at_ms: None,
        failure_reason: None,
    }
}

impl InstanceRuntime {
    /// The state of an instance that does not run.
    pub fn stopped(updated_at_ms: u64) -> (r: Self)
        ensures
            r == stopped_at(updated_at_ms),
    {
        InstanceRuntime {
            schema_version: CURRENT_RUNTIME_SCHEMA_VERSION,
            status: InstanceStatus::Stopped,
            last_updated_ms: updated_at_ms,
            pid: None,
            port: None,
            started_at_ms: None,
            failure_reason: None,
        }
    }

    /// Whether the state's form is understood.
    pub fn is_compatible(&self) -> (r: bool)
        ensures
            r == (self.schema_version <= CURRENT_RUNTIME_SCHEMA_VERSION),
    {
        self.schema_version <= CURRENT_RUNTIME_SCHEMA_VERSION
    }
}

/// The state that was read from disk; stopped where there is none, or none
/// that is understood.
pub fn load_runtime(parsed: Option<InstanceRuntime>) -> (r: InstanceRuntime)
    ensures
        r == (match parsed {
            Some(state) if state.schema_version <= CURRENT_RUNTIME_SCHEMA_VERSION => state,
            _ => stopped_at(0),
        }),
{
    match parsed {
        Some(state) => if state.is_compatible() {
            state
        } else {
            InstanceRuntime::stopped(0)
        },
        None => InstanceRuntime::stopped(0),
    }
}

// ------------------------------------------------------------------- registry

/// All instances, in the order in which they were added.
#[derive(Debug)]
pub struct InstanceRegistry {
    pub schema_version: u32,
    /// The instance that the shell opens unless told otherwise.
    pub default_instance_id: Option<String>,
    pub instances: Vec<InstanceRecord>,
}

/// No two instances have one id.
pub open spec fn distinct(records: Seq<InstanceRecord>) -> bool {
    forall|i: int, j: int|
        0 <= i < j < records.len() ==> (#[trigger] records[i]).id@ != (#[trigger] records[j]).id@
}

/// Every id names one path component, and no two instances have one id.
pub open spec fn well_formed(records: Seq<InstanceRecord>) -> bool {
    &&& distinct(records)
    &&& forall|i: int| 0 <= i < records.len() ==> paths::valid_id((#[trigger] records[i]).id@)
}

/// The place of the first instance with an id.
pub open spec fn place_of(records: Seq<InstanceRecord>, id: Seq<char>) -> Option<int>
    decreases records.len(),
{
    if records.len() == 0 {
        None
    } else {
        match place_of(records.drop_last(), id) {
            Some(i) => Some(i),
            None => if records.last().id@ == id {
                Some(records.len() - 1)
            } else {
                None
            },
        }
    }
}

/// The place is that of an instance with the id, and there is none before it.
pub proof fn lemma_place_of(records: Seq<InstanceRecord>, id: Seq<char>)
    ensures
        match place_of(records, id) {
            Some(i) => 0 <= i < records.len() && records[i].id@ == id && forall|j: int|
                0 <= j < i ==> (#[trigger] records[j]).id@ != id,
            None => forall|j: int| 0 <= j < records.len() ==> (#[trigger] records[j]).id@ != id,
        },
    decreases records.len(),
{
    if records.len() > 0 {
        lemma_place_of(records.drop_last(), id);
        assert forall|j: int| 0 <= j < records.len() - 1 implies records.drop_last()[j]
            == #[trigger] records[j] by {}
    }
}

impl Default for InstanceRegistry {
    fn default() -> (r: Self)
        ensures
            r.schema_version == CURRENT_REGISTRY_SCHEMA_VERSION,
            r.default_instance_id is None,
            r.instances@.len() == 0,
    {
        InstanceRegistry {
            schema_version: CURRENT_REGISTRY_SCHEMA_VERSION,
            default_instance_id: None,
            instances: Vec::new(),
        }
    }
}

impl InstanceRegistry {
    /// Whether the registry's form is understood.
    pub fn is_compatible(&self) -> (r: bool)
        ensures
            r == (self.schema_version <= CURRENT_REGISTRY_SCHEMA_VERSION),
    {
        self.schema_version <= CURRENT_REGISTRY_SCHEMA_VERSION
    }

    /// The place of the first instance with an id.
    pub fn index_of(&self, id: &str) -> (r: Option<usize>)
        ensures
            match r {
                Some(i) => place_of(self.instances@, id@) == Some(i as int) && i
                    < self.instances@.len(),
                None => place_of(self.instances@, id@) is None,
            },
    {
        let mut i: usize = 0;
        while i < self.instances.len()
            invariant
                i <= self.instances.len(),
                forall|j: int| 0 <= j < i ==> (#[trigger] self.instances@[j]).id@ != id@,
            decreases self.instances.len() - i,
        {
            if text::same(self.instances[i].id.as_str(), id) {
                proof {
                    lemma_place_of(self.instances@, id@);
                    let k = place_of(self.instances@, id@);
                    assert(self.instances@[i as int].id@ == id@);
                    assert(k is Some);
                    assert(self.instances@[k->0].id@ == id@);
                }
                return Some(i);
            }
            i = i + 1;
        }
        proof {
            lemma_place_of(self.instances@, id@);
        }
        None
    }

    /// The instance with an id.
    pub fn get(&self, id: &str) -> (r: Option<&InstanceRecord>)
        ensures
            match r {
                Some(rec) => place_of(self.instances@, id@) is Some && *rec == self.instances@[place_of(
                    self.instances@,
                    id@,
                )->0],
                None => place_of(self.instances@, id@) is None,
            },
    {
        match self.index_of(id) {
            Some(i) => Some(&self.instances[i]),
            None => None,
        }
    }

    /// The instance with an id, to be changed. An instance whose id is no path
    /// component is not handed out.
    pub fn get_mut(&mut self, id: &str) -> (r: Option<&mut InstanceRecord>)
        ensures
            match r {
                Some(rec) => {
                    let k = place_of(old(self).instances@, id@);
                    &&& k is Some
                    &&& paths::valid_id(id@)
                    &&& *rec == old(self).instances@[k->0]
                    &&& final(self).instances@ == old(self).instances@.update(k->0, *final(rec))
                    &&& final(self).schema_version == old(self).schema_version
                    &&& final(self).default_instance_id == old(self).default_instance_id
                },
                None => (place_of(old(self).instances@, id@) is None || !paths::valid_id(id@))
                    && *final(self) == *old(self),
            },
    {
        let i = match self.index_of(id) {
            Some(i) => i,
            None => {
                return None;
            },
        };
        proof {
            lemma_place_of(self.instances@, id@);
        }
        match paths::validate_id_component(self.instances[i].id.as_str()) {
            Ok(_) => {},
            Err(_) => {
                return None;
            },
        }
        Some(&mut self.instances[i])
    }

    /// Adds an instance at the end. An id that is no path component, or that
    /// another instance has, is refused.
    pub fn add(&mut self, record: InstanceRecord) -> (r: Result<(), &'static str>)
        ensures
            final(self).schema_version == old(self).schema_version,
            final(self).default_instance_id == old(self).default_instance_id,
            r is Ok <==> paths::valid_id(record.id@) && place_of(old(self).instances@, record.id@) is None,
            final(self).instances@ == added(old(self).instances@, record),
            r matches Err(e) ==> e@ == (if paths::valid_id(record.id@) {
                "实例 id 已存在"@
            } else {
                paths::ID_FAULT@
            }),
    {
        match paths::validate_id_component(record.id.as_str()) {
            Ok(_) => {},
            Err(e) => {
                return Err(e);
            },
        }
        if self.index_of(record.id.as_str()).is_some() {
            return Err("实例 id 已存在");
        }
        self.instances.push(record);
        Ok(())
    }

    /// Takes the first instance with an id out.
    pub fn remove(&mut self, id: &str) -> (r: Option<InstanceRecord>)
        ensures
            final(self).schema_version == old(self).schema_version,
            final(self).default_instance_id == old(self).default_instance_id,
            final(self).instances@ == removed(old(self).instances@, id@),
            r == (match place_of(old(self).instances@, id@) {
                Some(i) => Some(old(self).instances@[i]),
                None => None,
            }),
    {
        match self.index_of(id) {
            Some(i) => Some(self.instances.remove(i)),
            None => None,
        }
    }
}

/// What adding an instance makes of the list.
pub open spec fn added(records: Seq<InstanceRecord>, record: InstanceRecord) -> Seq<
    InstanceRecord,
> {
    if paths::valid_id(record.id@) && place_of(records, record.id@) is None {
        records.push(record)
    } else {
        records
    }
}

/// What taking an instance out makes of the list.
pub open spec fn removed(records: Seq<InstanceRecord>, id: Seq<char>) -> Seq<InstanceRecord> {
    match place_of(records, id) {
        Some(i) => records.remove(i),
        None => records,
    }
}

/// Adding an instance keeps ids valid and distinct.
pub proof fn law_adding_keeps_ids_distinct(records: Seq<InstanceRecord>, record: InstanceRecord)
    requires
        well_formed(records),
    ensures
        well_formed(added(records, record)),
{
    lemma_place_of(records, record.id@);
}

/// Taking an instance out keeps ids valid and distinct.
pub proof fn law_removing_keeps_ids_distinct(records: Seq<InstanceRecord>, id: Seq<char>)
    requires
        well_formed(records),
    ensures
        well_formed(removed(records, id)),
{
    lemma_place_of(records, id);
}

/// An instance that was added is found, and taking it out again leaves the list
/// as it was.
pub proof fn law_removing_undoes_adding(records: Seq<InstanceRecord>, record: InstanceRecord)
    requires
        paths::valid_id(record.id@),
        place_of(records, record.id@) is None,
    ensures
        place_of(added(records, record), record.id@) == Some(records.len() as int),
        added(records, record)[records.len() as int] == record,
        removed(added(records, record), record.id@) == records,
{
    let all = records.push(record);
    assert(all.drop_last() =~= records);
    assert(all.remove(records.len() as int) =~= records);
}

/// Once an instance is taken out of a well-formed list, its id is free, and
/// every other instance is found as before.
pub proof fn law_removed_ids_are_free(
    records: Seq<InstanceRecord>,
    id: Seq<char>,
    other: Seq<char>,
)
    requires
        well_formed(records),
        other != id,
    ensures
        place_of(removed(records, id), id) is None,
        place_of(records, other) is Some <==> place_of(removed(records, id), other) is Some,
        place_of(records, other) is Some ==> records[place_of(records, other)->0] == removed(
            records,
            id,
        )[place_of(removed(records, id), other)->0],
{
    let after = removed(records, id);
    lemma_place_of(records, id);
    lemma_place_of(records, other);
    lemma_place_of(after, id);
    lemma_place_of(after, other);
    if let Some(i) = place_of(records, id) {
        if let Some(k) = place_of(after, id) {
            let was = if k < i {
                k
            } else {
                k + 1
            };
            assert(after[k] == records[was]);
            assert(records[was].id@ == records[i].id@);
            assert(false);
        }
        if let Some(j) = place_of(records, other) {
            let now = if j < i {
                j
            } else {
                j - 1
            };
            assert(after[now] == records[j]);
            let k = place_of(after, other)->0;
            let was = if k < i {
                k
            } else {
                k + 1
            };
            assert(after[k] == records[was]);
            if was != j {
                assert(records[was].id@ == records[j].id@);
                assert(false);
            }
        }
        if let Some(k) = place_of(after, other) {
            let was = if k < i {
                k
            } else {
                k + 1
            };
            assert(after[k] == records[was]);
        }
    }
}

/// What was found where the registry is kept.
#[derive(Debug)]
pub enum StateRead {
    Loaded(InstanceRegistry),
    Missing,
    Corrupt { reason: String },
}

/// Why the registry cannot be used.
#[derive(Debug)]
pub enum RegistryError {
    /// The file is there, but it holds no registry.
    Corrupt { reason: String },
    /// The registry has a newer form.
    IncompatibleSchema { found: u32, expected: u32 },
    Serialize(String),
    Io(String),
}

/// The words for a fault of the registry.
pub open spec fn registry_fault(e: RegistryError) -> Seq<char> {
    match e {
        RegistryError::Corrupt { reason } => "实例注册表已损坏（"@ + reason@ + "）"@,
        RegistryError::IncompatibleSchema { found, expected } => "实例注册表 schema 版本 "@
            + text::decimal_text(found as nat) + " 高于当前实现支持的 "@ + text::decimal_text(
            expected as nat,
        ) + "，请升级 dsh-xlink"@,
        RegistryError::Serialize(reason) => "序列化注册表失败："@ + reason@,
        RegistryError::Io(reason) => "写入注册表失败："@ + reason@,
    }
}

impl RegistryError {
    /// The words for the fault.
    pub fn message(&self) -> (r: String)
        ensures
            r@ == registry_fault(*self),
    {
        match self {
            RegistryError::Corrupt { reason } => text::cat3(
                "实例注册表已损坏（",
                reason.as_str(),
                "）",
            ),
            RegistryError::IncompatibleSchema { found, expected } => text::cat5(
                "实例注册表 schema 版本 ",
                text::decimal(*found as u64).as_str(),
                " 高于当前实现支持的 ",
                text::decimal(*expected as u64).as_str(),
                "，请升级 dsh-xlink",
            ),
            RegistryError::Serialize(reason) => text::cat2("序列化注册表失败：", reason.as_str()),
            RegistryError::Io(reason) => text::cat2("写入注册表失败：", reason.as_str()),
        }
    }
}

/// The registry that was read: an empty one where there is none. A file that
/// holds none, or one of a newer form, is an error.
pub fn load_registry(read: StateRead) -> (r: Result<InstanceRegistry, RegistryError>)
    ensures
        match read {
            StateRead::Loaded(reg) => if reg.schema_version <= CURRENT_REGISTRY_SCHEMA_VERSION {
                r == Ok::<InstanceRegistry, RegistryError>(reg)
            } else {
                r == Err::<InstanceRegistry, RegistryError>(
                    (RegistryError::IncompatibleSchema {
                        found: reg.schema_version,
                        expected: CURRENT_REGISTRY_SCHEMA_VERSION,
                    }),
                )
            },
            StateRead::Missing => r matches Ok(reg) && reg.schema_version
                == CURRENT_REGISTRY_SCHEMA_VERSION && reg.default_instance_id is None
                && reg.instances@.len() == 0,
            StateRead::Corrupt { reason } => r == Err::<InstanceRegistry, RegistryError>(
                (RegistryError::Corrupt { reason }),
            ),
        },
{
    match read {
        StateRead::Loaded(reg) => {
            if !reg.is_compatible() {
                return Err(
                    RegistryError::IncompatibleSchema {
                        found: reg.schema_version,
                        expected: CURRENT_REGISTRY_SCHEMA_VERSION,
                    },
                );
            }
            Ok(reg)
        },
        StateRead::Missing => Ok(InstanceRegistry::default()),
        StateRead::Corrupt { reason } => Err(RegistryError::Corrupt { reason }),
    }
}

/// The default instance with the version and the port that the older layout
/// recorded.
pub open spec fn absorbed(
    xlink_home: Seq<char>,
    version: Seq<char>,
    port: u16,
    now_ms: u64,
) -> InstanceModel {
    InstanceModel {
        schema_version: CURRENT_INSTANCE_SCHEMA_VERSION,
        id: DEFAULT_INSTANCE_ID@,
        kernel_family: KERNEL_FAMILY_DSH@,
        kernel_version: Some(version),
        profile: DEFAULT_PROFILE@,
        port,
        workspace: paths::joined(
            paths::instance_root(xlink_home, KERNEL_FAMILY_DSH@, DEFAULT_INSTANCE_ID@),
            "workspace"@,
        ),
        created_at_ms: now_ms,
        label: None,
    }
}

proof fn lemma_default_id()
    ensures
        paths::valid_id(DEFAULT_INSTANCE_ID@),
{
    let id = DEFAULT_INSTANCE_ID@;
    reveal_strlit("default");
    reveal_strlit(".");
    reveal_strlit("..");
    reveal_strlit("CON");
    reveal_strlit("PRN");
    reveal_strlit("AUX");
    reveal_strlit("NUL");
    text::lemma_index_of_char_is(id, '.', 7);
    assert(paths::device_stem(id).len() == 7);
}

/// The registry that was read. Where there is none yet, the active version and
/// the port of the older layout become the default instance; one that cannot be
/// used counts as empty.
pub fn load_or_migrate(
    read: StateRead,
    xlink_home: &str,
    legacy_active: Option<&str>,
    legacy_port: u16,
    now_ms: u64,
) -> (r: InstanceRegistry)
    ensures
        match read {
            StateRead::Loaded(reg) if reg.schema_version <= CURRENT_REGISTRY_SCHEMA_VERSION => r
                == reg,
            _ => r.schema_version == CURRENT_REGISTRY_SCHEMA_VERSION && r.default_instance_id is None
                && match (read, legacy_active) {
                (StateRead::Missing, Some(version)) => r.instances@.len() == 1 && r.instances@[0]@
                    == absorbed(xlink_home@, version@, legacy_port, now_ms),
                _ => r.instances@.len() == 0,
            },
        },
        read is Missing ==> well_formed(r.instances@),
{
    let missing = match &read {
        StateRead::Missing => true,
        _ => false,
    };
    match load_registry(read) {
        Ok(reg) => match legacy_active {
            Some(version) if missing => {
                proof {
                    lemma_default_id();
                }
                let mut record = InstanceRecord::new(
                    xlink_home,
                    DEFAULT_INSTANCE_ID,
                    KERNEL_FAMILY_DSH,
                    legacy_port,
                    now_ms,
                );
                record.kernel_version = Some(text::owned(version));
                let mut reg = reg;
                reg.instances.push(record);
                reg
            },
            _ => reg,
        },
        Err(_) => InstanceRegistry::default(),
    }
}

// ------------------------------------------------------------ process and port

/// The text that records the process of an instance.
pub fn write_pid(pid: u32, port: u16) -> (r: String)
    ensures
        r@ == process::record_text(pid, port),
{
    process::write_pid(pid, port)
}

/// Reads the record of an instance's process, in its older form without a port
/// too.
pub fn read_pid(content: Option<&str>) -> (r: Option<PidRecord>)
    ensures
        process::record_model(r) == (match content {
            Some(c) => process::record_in(c@),
            None => None,
        }),
{
    process::read_pid_record(content)
}

/// The text that records the port of an instance.
pub fn write_port(port: u16) -> (r: String)
    ensures
        r@ == text::decimal_text(port as nat) + "\n"@,
{
    text::cat2(text::decimal(port as u64).as_str(), "\n")
}

/// The port that a text records.
pub open spec fn port_in(content: Seq<char>) -> Option<nat> {
    text::number_in(text::trim_text(content), u16::MAX as nat)
}

/// Reads the record of an instance's port.
pub fn read_port(content: Option<&str>) -> (r: Option<u16>)
    ensures
        (match r {
            Some(p) => Some(p as nat),
            None => None,
        }) == (match content {
            Some(c) => port_in(c@),
            None => None,
        }),
{
    match content {
        Some(c) => match text::parse_number(text::trim(c).as_str(), u16::MAX as u64) {
            Some(n) => Some(n as u16),
            None => None,
        },
        None => None,
    }
}

/// A port that is recorded is read back.
pub proof fn law_port_is_read_back(port: u16)
    ensures
        port_in(text::decimal_text(port as nat) + "\n"@) == Some(port as nat),
{
    let d = text::decimal_text(port as nat);
    let all = d + "\n"@;
    reveal_strlit("\n");
    text::lemma_decimal_value(port as nat);
    text::lemma_number_of_decimal(port as nat, u16::MAX as nat);
    assert(all.drop_last() =~= d);
    assert(text::is_digit(d[0]));
    assert(text::is_digit(d[d.len() - 1]));
    reveal_with_fuel(text::trim_end_by, 3);
    assert(text::trim_text(all) == d);
}

/// The least port from `base` on that nobody uses, below `ceiling`.
pub fn allocate_port(base: u16, ceiling: u16, used: &Vec<u16>) -> (r: Option<u16>)
    ensures
        match r {
            Some(p) => base <= p < ceiling && !used@.contains(p) && forall|q: u16|
                base <= q < p ==> #[trigger] used@.contains(q),
            None => forall|q: u16| base <= q < ceiling ==> #[trigger] used@.contains(q),
        },
{
    let mut p: u16 = base;
    while p < ceiling
        invariant
            base <= p,
            base <= ceiling ==> p <= ceiling,
            forall|q: u16| base <= q < p ==> #[trigger] used@.contains(q),
        decreases ceiling - p,
    {
        if !uses(used, p) {
            return Some(p);
        }
        p = p + 1;
    }
    None
}

fn uses(used: &Vec<u16>, port: u16) -> (r: bool)
    ensures
        r == used@.contains(port),
{
    let mut i: usize = 0;
    while i < used.len()
        invariant
            i <= used.len(),
            forall|k: int| 0 <= k < i ==> used@[k] != port,
        decreases used.len() - i,
    {
        if used[i] == port {
            proof {
                assert(used@[i as int] == port);
            }
            return true;
        }
        i = i + 1;
    }
    false
}

// ---------------------------------------------------------------------- locks

/// The claim of a shell on an instance.
#[derive(Debug)]
pub struct InstanceLock {
    family: String,
    id: String,
}

impl InstanceLock {
    /// The family of the instance.
    pub closed spec fn family_text(&self) -> Seq<char> {
        self.family@
    }

    /// The id of the instance.
    pub closed spec fn id_text(&self) -> Seq<char> {
        self.id@
    }

    /// Claims an instance for a process, and gives the text of the lock file.
    /// An id that is no path component is refused.
    pub fn acquire(family: &str, id: &str, pid: u32, owner: &str) -> (r: Result<
        (Self, String),
        &'static str,
    >)
        ensures
            r is Ok <==> paths::valid_id(id@),
            r matches Err(e) ==> e@ == paths::ID_FAULT@,
            r matches Ok((lock, content)) ==> lock.family_text() == family@ && lock.id_text() == id@
                && content@ == text::decimal_text(pid as nat) + " "@ + owner@ + "\n"@,
    {
        match paths::validate_id_component(id) {
            Ok(_) => {},
            Err(e) => {
                return Err(e);
            },
        }
        let content = text::cat4(text::decimal(pid as u64).as_str(), " ", owner, "\n");
        Ok((InstanceLock { family: text::owned(family), id: text::owned(id) }, content))
    }

    /// The family of the instance.
    pub fn family(&self) -> (r: &str)
        ensures
            r@ == self.family_text(),
    {
        self.family.as_str()
    }

    /// The id of the instance.
    pub fn id(&self) -> (r: &str)
        ensures
            r@ == self.id_text(),
    {
        self.id.as_str()
    }
}

// ---------------------------------------------------------------- directories

/// The name under which a shell remembers its default instance.
pub fn shell_default_instance_key(mode: ShellMode) -> (r: String)
    ensures
        r@ == paths::mode_name(mode) + "::"@ + DEFAULT_INSTANCE_ID@,
{
    text::cat3(mode.as_str(), "::", DEFAULT_INSTANCE_ID)
}

/// The directories of an instance.
pub open spec fn instance_dirs(root: Seq<char>) -> Seq<Seq<char>> {
    let home = paths::joined(root, "home"@);
    seq![
        home,
        paths::joined(root, "workspace"@),
        paths::joined(root, "runtime"@),
        paths::joined(home, "profiles"@),
        paths::joined(home, "sessions"@),
        paths::joined(home, "storages"@),
        paths::joined(home, "attachments/v1"@),
        paths::joined(home, "logs"@),
    ]
}

/// The directories that an instance needs, in the order in which they are
/// made. An id that is no path component is refused.
pub fn ensure_instance_dirs(xlink_home: &str, record: &InstanceRecord) -> (r: Result<
    Vec<String>,
    &'static str,
>)
    ensures
        r is Ok <==> paths::valid_id(record.id@),
        r matches Err(e) ==> e@ == paths::ID_FAULT@,
        r matches Ok(dirs) ==> text::texts(dirs@) == instance_dirs(
            paths::instance_root(xlink_home@, record.kernel_family@, record.id@),
        ),
{
    match paths::validate_id_component(record.id.as_str()) {
        Ok(_) => {},
        Err(e) => {
            return Err(e);
        },
    }
    let root = paths::instance_dir(xlink_home, record.kernel_family.as_str(), record.id.as_str());
    let home = paths::join(root.as_str(), "home");
    let mut dirs: Vec<String> = Vec::new();
    dirs.push(paths::join(root.as_str(), "home"));
    dirs.push(paths::join(root.as_str(), "workspace"));
    dirs.push(paths::join(root.as_str(), "runtime"));
    dirs.push(paths::join(home.as_str(), "profiles"));
    dirs.push(paths::join(home.as_str(), "sessions"));
    dirs.push(paths::join(home.as_str(), "storages"));
    dirs.push(paths::join(home.as_str(), "attachments/v1"));
    dirs.push(paths::join(home.as_str(), "logs"));
    proof {
        assert(text::texts(dirs@) =~= instance_dirs(root@));
    }
    Ok(dirs)
}

/// The directory that goes when an instance is deleted. The installed versions
/// lie elsewhere and stay. An id that is no path component is refused.
pub fn delete_instance_dirs(xlink_home: &str, record: &InstanceRecord) -> (r: Result<
    String,
    &'static str,
>)
    ensures
        r is Ok <==> paths::valid_id(record.id@),
        r matches Err(e) ==> e@ == paths::ID_FAULT@,
        r matches Ok(dir) ==> dir@ == paths::instance_root(xlink_home@, record.kernel_family@, record.id@),
{
    match paths::validate_id_component(record.id.as_str()) {
        Ok(_) => Ok(
            paths::instance_dir(xlink_home, record.kernel_family.as_str(), record.id.as_str()),
        ),
        Err(e) => Err(e),
    }
}

/// Where the data of an instance lies.
pub fn instance_root_for_display(xlink_home: &str, family: &str, id: &str) -> (r: String)
    ensures
        r@ == paths::instance_root(xlink_home@, family@, id@),
{
    paths::instance_dir(xlink_home, family, id)
}

/// Instances lie apart: two ids of one family never share a directory, and
/// every directory of an instance lies under its root.
pub proof fn law_instances_lie_apart(
    xlink_home: Seq<char>,
    family: Seq<char>,
    a: Seq<char>,
    b: Seq<char>,
    k: int,
)
    requires
        paths::valid_id(a),
        paths::valid_id(b),
    ensures
        paths::instance_root(xlink_home, family, a) == paths::instance_root(xlink_home, family, b)
            <==> a == b,
        0 <= k < instance_dirs(paths::instance_root(xlink_home, family, a)).len() ==> text::begins(
            instance_dirs(paths::instance_root(xlink_home, family, a))[k],
            paths::instance_root(xlink_home, family, a),
        ),
        instance_dirs(paths::instance_root(xlink_home, family, a)).contains(
            paths::joined(paths::instance_root(xlink_home, family, a), "home"@),
        ),
        instance_dirs(paths::instance_root(xlink_home, family, a)).contains(
            paths::joined(paths::instance_root(xlink_home, family, a), "workspace"@),
        ),
        instance_dirs(paths::instance_root(xlink_home, family, a)).contains(
            paths::joined(paths::instance_root(xlink_home, family, a), "runtime"@),
        ),
{
    let dir = paths::joined(
        paths::joined(paths::joined(xlink_home, "kernels"@), family),
        "instances"@,
    );
    paths::law_names_make_paths_of_their_own(dir, a, b);
    let root = paths::instance_root(xlink_home, family, a);
    let dirs = instance_dirs(root);
    let home = paths::joined(root, "home"@);
    reveal_strlit("home");
    reveal_strlit("workspace");
    reveal_strlit("runtime");
    reveal_strlit("profiles");
    reveal_strlit("sessions");
    reveal_strlit("storages");
    reveal_strlit("attachments/v1");
    reveal_strlit("logs");
    lemma_begins_joined(root, "home"@);
    lemma_begins_joined(root, "workspace"@);
    lemma_begins_joined(root, "runtime"@);
    lemma_begins_under(root, home, "profiles"@);
    lemma_begins_under(root, home, "sessions"@);
    lemma_begins_under(root, home, "storages"@);
    lemma_begins_under(root, home, "attachments/v1"@);
    lemma_begins_under(root, home, "logs"@);
    assert(dirs[0] == home);
    assert(dirs[1] == paths::joined(root, "workspace"@));
    assert(dirs[2] == paths::joined(root, "runtime"@));
}

proof fn lemma_begins_joined(dir: Seq<char>, name: Seq<char>)
    requires
        name.len() > 0,
        name[0] != '/',
    ensures
        text::begins(paths::joined(dir, name), dir),
{
    let p = paths::joined(dir, name);
    assert(p.subrange(0, dir.len() as int) =~= dir);
}

proof fn lemma_begins_under(root: Seq<char>, dir: Seq<char>, name: Seq<char>)
    requires
        name.len() > 0,
        name[0] != '/',
        text::begins(dir, root),
    ensures
        text::begins(paths::joined(dir, name), root),
{
    lemma_begins_joined(dir, name);
    let p = paths::joined(dir, name);
    assert(p.subrange(0, root.len() as int) =~= p.subrange(0, dir.len() as int).subrange(
        0,
        root.len() as int,
    ));
}

/// A record is written only where each name in it is one path component and its
/// workspace has no step up, written with slashes of either kind.
pub proof fn law_stored_records_do_not_climb(record: InstanceModel, dir: Seq<char>)
    ensures
        storable(record) ==> !record.id.contains('/') && !record.kernel_family.contains('/')
            && !record.profile.contains('/') && !record.id.contains('\\')
            && !record.kernel_family.contains('\\') && !record.profile.contains('\\'),
        paths::slashed(record.workspace) == paths::joined(dir, ".."@) ==> !storable(record),
        paths::valid_id(record.id) && paths::valid_id(record.kernel_family) && paths::valid_id(
            record.profile,
        ) && !paths::climbs(paths::slashed(record.workspace)) ==> storable(record),
{
    if storable(record) {
        paths::law_ids_are_single_components(record.id);
        paths::law_ids_are_single_components(record.kernel_family);
        paths::law_ids_are_single_components(record.profile);
        paths::law_names_make_paths_of_their_own(dir, record.id, record.id);
    }
}

/// What older shells recorded becomes the default instance of the harness: with
/// that version, that port, and a workspace of its own.
pub proof fn law_the_older_layout_is_absorbed(
    xlink_home: Seq<char>,
    version: Seq<char>,
    port: u16,
    now_ms: u64,
)
    ensures
        ({
            let r = absorbed(xlink_home, version, port, now_ms);
            &&& r.id == "default"@
            &&& r.kernel_family == "dsh"@
            &&& r.kernel_version == Some(version)
            &&& r.port == port
            &&& r.created_at_ms == now_ms
            &&& r.profile == "web"@
            &&& text::begins(r.workspace, paths::instance_root(xlink_home, "dsh"@, "default"@))
        }),
{
    reveal_strlit("workspace");
    lemma_begins_joined(paths::instance_root(xlink_home, "dsh"@, "default"@), "workspace"@);
}

/// Adding refuses what it must and keeps the rest: the list grows by the record
/// where its id is valid and new, and stays as it is otherwise. Taking out
/// removes one record of the id, and none of another.
pub proof fn law_the_list_changes_by_one(
    records: Seq<InstanceRecord>,
    record: InstanceRecord,
    id: Seq<char>,
)
    ensures
        paths::valid_id(record.id@) && (forall|i: int|
            0 <= i < records.len() ==> (#[trigger] records[i]).id@ != record.id@) ==> added(
            records,
            record,
        ) == records.push(record),
        !paths::valid_id(record.id@) || (exists|i: int|
            0 <= i < records.len() && (#[trigger] records[i]).id@ == record.id@) ==> added(
            records,
            record,
        ) == records,
        (forall|i: int| 0 <= i < records.len() ==> (#[trigger] records[i]).id@ != id) ==> removed(
            records,
            id,
        ) == records,
        (exists|i: int| 0 <= i < records.len() && (#[trigger] records[i]).id@ == id) ==> removed(
            records,
            id,
        ).len() == records.len() - 1,
{
    lemma_place_of(records, record.id@);
    lemma_place_of(records, id);
}

} // verus!
