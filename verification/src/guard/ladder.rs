//! The ladder of a guarded start: start as wired; start without the plugins
//! that the log points at; start without any third-party plugin; give up and
//! restore. The ladder decides; its driver performs each action and hands back
//! what came of it.

use crate::guard::attribution;
use crate::guard::incident;
use crate::guard::incident::{
    Incident, IncidentModel, StartReport, Suspect, SuspectModel, MAX_SUSPECTS,
};
use crate::guard::runtime;
use crate::plugins;
use crate::plugins::{PluginModel, StoreItem};
use crate::quarantine;
use crate::quarantine::{QuarantineItem, QuarantineModel};
use crate::text;
use vstd::prelude::*;

verus! {

/// How long a spawned kernel may take to answer its port, in seconds.
pub const READY_TIMEOUT_SECS: u64 = 30;

// ------------------------------------------------------------------ watchdog

/// What came of watching a spawned kernel.
#[derive(Debug)]
pub enum WatchVerdict {
    Ready,
    /// The process exited before it served; its status.
    Exited(String),
    /// The deadline passed; the process is to be stopped.
    Hung,
}

/// What one look at a spawned kernel tells.
pub open spec fn seen(port_open: bool, exited: Option<String>, past_deadline: bool) -> Option<
    WatchVerdict,
> {
    if port_open {
        Some(WatchVerdict::Ready)
    } else {
        match exited {
            Some(status) => Some(WatchVerdict::Exited(status)),
            None => if past_deadline {
                Some(WatchVerdict::Hung)
            } else {
                None
            },
        }
    }
}

/// One look at a spawned kernel: the verdict, or none while it is to be
/// watched on. An answering port counts before an exit, and an exit before the
/// deadline; a state that cannot be read counts as still running.
pub fn watch_child(port_open: bool, exited: Option<String>, past_deadline: bool) -> (r: Option<
    WatchVerdict,
>)
    ensures
        match r {
            Some(WatchVerdict::Ready) => port_open,
            Some(WatchVerdict::Exited(status)) => !port_open && exited == Some(status),
            Some(WatchVerdict::Hung) => !port_open && exited is None && past_deadline,
            None => !port_open && exited is None && !past_deadline,
        },
        r == seen(port_open, exited, past_deadline),
{
    if port_open {
        return Some(WatchVerdict::Ready);
    }
    match exited {
        Some(status) => Some(WatchVerdict::Exited(status)),
        None => if past_deadline {
            Some(WatchVerdict::Hung)
        } else {
            None
        },
    }
}

/// What came of one start attempt.
#[derive(Debug)]
pub enum BootVerdict {
    Ready,
    /// The process came up but did not get to serve: the log may tell why.
    Failed(String),
    /// No process came up at all. The log holds nothing about it, so it is no
    /// reason to switch off plugins.
    SpawnFailed(String),
    Hung,
}

/// The content of a verdict.
#[verifier::ext_equal]
pub enum VerdictModel {
    Ready,
    Failed(Seq<char>),
    SpawnFailed(Seq<char>),
    Hung,
}

impl View for BootVerdict {
    type V = VerdictModel;

    open spec fn view(&self) -> VerdictModel {
        match self {
            BootVerdict::Ready => VerdictModel::Ready,
            BootVerdict::Failed(d) => VerdictModel::Failed(d@),
            BootVerdict::SpawnFailed(d) => VerdictModel::SpawnFailed(d@),
            BootVerdict::Hung => VerdictModel::Hung,
        }
    }
}

/// A verdict in words.
pub open spec fn reason_text(v: VerdictModel) -> Seq<char> {
    match v {
        VerdictModel::Ready => "启动成功"@,
        VerdictModel::Failed(d) => d,
        VerdictModel::SpawnFailed(d) => d,
        VerdictModel::Hung => "等待内核就绪超时（"@ + text::decimal_text(READY_TIMEOUT_SECS as nat)
            + " 秒）"@,
    }
}

impl BootVerdict {
    /// The verdict in words.
    pub fn reason(&self) -> (r: String)
        ensures
            r@ == reason_text(self@),
    {
        match self {
            BootVerdict::Ready => text::owned("启动成功"),
            BootVerdict::Failed(d) => d.clone(),
            BootVerdict::SpawnFailed(d) => d.clone(),
            BootVerdict::Hung => text::cat3(
                "等待内核就绪超时（",
                text::decimal(READY_TIMEOUT_SECS).as_str(),
                " 秒）",
            ),
        }
    }
}

/// What a start attempt met.
#[derive(Debug)]
pub enum BootOutcome {
    /// The port already answers: another shell or a left-over kernel has it.
    AlreadyServing,
    /// A kernel was spawned and watched.
    Watched(WatchVerdict),
    /// No kernel could be spawned, and why.
    Refused(String),
}

/// The verdict on a start attempt, and what to tell the user about it.
pub open spec fn boot_verdict(outcome: BootOutcome) -> (VerdictModel, Option<Seq<char>>) {
    match outcome {
        BootOutcome::AlreadyServing => (VerdictModel::Ready, None),
        BootOutcome::Watched(WatchVerdict::Ready) => (VerdictModel::Ready, None),
        BootOutcome::Watched(WatchVerdict::Exited(status)) => (
            VerdictModel::Failed("内核进程在就绪前退出（"@ + status@ + "）"@),
            Some("内核进程在就绪前退出（"@ + status@ + "）"@),
        ),
        BootOutcome::Watched(WatchVerdict::Hung) => (VerdictModel::Hung, None),
        BootOutcome::Refused(e) => (
            VerdictModel::SpawnFailed(e@),
            Some("无法拉起内核进程："@ + e@),
        ),
    }
}

/// Judges one start attempt.
pub fn boot_once(outcome: BootOutcome) -> (r: (BootVerdict, Option<String>))
    ensures
        r.0@ == boot_verdict(outcome).0,
        text::opt_text(r.1) == boot_verdict(outcome).1,
{
    match outcome {
        BootOutcome::AlreadyServing => (BootVerdict::Ready, None),
        BootOutcome::Watched(WatchVerdict::Ready) => (BootVerdict::Ready, None),
        BootOutcome::Watched(WatchVerdict::Exited(status)) => {
            let line = text::cat3("内核进程在就绪前退出（", status.as_str(), "）");
            (BootVerdict::Failed(line.clone()), Some(line))
        },
        BootOutcome::Watched(WatchVerdict::Hung) => (BootVerdict::Hung, None),
        BootOutcome::Refused(e) => {
            let line = text::cat2("无法拉起内核进程：", e.as_str());
            (BootVerdict::SpawnFailed(e), Some(line))
        },
    }
}

// -------------------------------------------------------------------- wiring

/// The warning that the plugin store keeps after the wiring was synchronised
/// ahead of the first attempt: the error, or none. A failure does not stop the
/// start.
pub fn sync_wiring_record_warning(outcome: Result<(usize, bool), String>) -> (r: Option<String>)
    ensures
        text::opt_text(r) == (match outcome {
            Ok(_) => None,
            Err(e) => Some(e@),
        }),
{
    match outcome {
        Ok(_) => None,
        Err(e) => Some(e),
    }
}

/// `true` or `false` as text.
pub open spec fn flag_text(b: bool) -> Seq<char> {
    if b {
        "true"@
    } else {
        "false"@
    }
}

/// The content of a wiring result.
pub open spec fn wiring_model(r: Result<(usize, bool), String>) -> Result<(nat, bool), Seq<char>> {
    match r {
        Ok((count, changed)) => Ok((count as nat, changed)),
        Err(e) => Err(e@),
    }
}

/// The line of the trail that tells how rewiring went.
pub open spec fn wiring_line(outcome: Result<(nat, bool), Seq<char>>) -> Seq<char> {
    match outcome {
        Ok((count, changed)) => "已按屏蔽清单重新接线（"@ + text::decimal_text(count)
            + " 个插件接入，清单变更："@ + flag_text(changed) + "）"@,
        Err(e) => "重新接线失败："@ + e,
    }
}

/// Tells how rewiring went, for the trail.
pub fn refresh_wiring(outcome: &Result<(usize, bool), String>) -> (r: String)
    ensures
        r@ == wiring_line(wiring_model(*outcome)),
{
    match outcome {
        Ok((count, changed)) => text::cat5(
            "已按屏蔽清单重新接线（",
            text::decimal(*count as u64).as_str(),
            " 个插件接入，清单变更：",
            if *changed {
                "true"
            } else {
                "false"
            },
            "）",
        ),
        Err(e) => text::cat2("重新接线失败：", e.as_str()),
    }
}

// --------------------------------------------------------------------- state

/// What a guarded start knows before its first attempt.
#[derive(Debug)]
pub struct GuardDeps {
    pub port: u16,
    pub log_path: String,
    pub store_items: Vec<StoreItem>,
    /// The active kernel version, or nothing.
    pub kernel_label: String,
    /// Whether plugins were quarantined before.
    pub prior_quarantine: bool,
}

/// The content of what a guarded start knows.
#[verifier::ext_equal]
pub struct DepsModel {
    pub port: u16,
    pub log_path: Seq<char>,
    pub items: Seq<PluginModel>,
    pub label: Seq<char>,
    pub prior_quarantine: bool,
}

impl View for GuardDeps {
    type V = DepsModel;

    open spec fn view(&self) -> DepsModel {
        DepsModel {
            port: self.port,
            log_path: self.log_path@,
            items: plugins::plugins_of(self.store_items@),
            label: self.kernel_label@,
            prior_quarantine: self.prior_quarantine,
        }
    }
}

/// What the ladder waits for.
#[derive(Debug, Clone, Copy, PartialEq, Eq, Structural)]
pub enum Stage {
    /// The first attempt.
    Boot,
    /// The log of the first attempt.
    Evidence,
    /// The quarantine records of the plugins that the log points at.
    TargetedWrite,
    TargetedWiring,
    /// The second attempt.
    TargetedBoot,
    TargetedEvidence,
    /// The ids that are quarantined by now.
    SafeIds,
    /// The quarantine records of all other plugins.
    SafeWrite,
    SafeWiring,
    /// The third attempt.
    SafeBoot,
    /// The state of before.
    Restore,
    Closed,
}

/// A guarded start under way.
#[derive(Debug)]
pub struct Ladder {
    pub deps: GuardDeps,
    pub stage: Stage,
    pub trail: Vec<String>,
    /// The end of the log of the first attempt.
    pub tail: String,
    pub env_marker: Option<String>,
    /// Whether the first attempt got a process up.
    pub kernel_started: bool,
    /// The verdict on the first attempt, in words.
    pub first_reason: String,
    pub suspects: Vec<Suspect>,
    /// Whether quarantine or wiring was changed.
    pub quarantined: bool,
}

/// The content of a guarded start.
#[verifier::ext_equal]
pub struct LadderModel {
    pub deps: DepsModel,
    pub stage: Stage,
    pub trail: Seq<Seq<char>>,
    pub tail: Seq<char>,
    pub env_marker: Option<Seq<char>>,
    pub kernel_started: bool,
    pub first_reason: Seq<char>,
    pub suspects: Seq<SuspectModel>,
    pub quarantined: bool,
}

impl View for Ladder {
    type V = LadderModel;

    open spec fn view(&self) -> LadderModel {
        LadderModel {
            deps: self.deps@,
            stage: self.stage,
            trail: text::texts(self.trail@),
            tail: self.tail@,
            env_marker: text::opt_text(self.env_marker),
            kernel_started: self.kernel_started,
            first_reason: self.first_reason@,
            suspects: incident::suspects_of(self.suspects@),
            quarantined: self.quarantined,
        }
    }
}

/// What the driver hands back.
#[derive(Debug)]
pub enum GuardEvent {
    /// A start attempt was made.
    Booted(BootVerdict),
    /// The end of the log, and an error that writing it met.
    LogRead { log_error: Option<String>, tail: String },
    /// Whether quarantine records were written.
    Quarantined(bool),
    /// The profile was wired anew: the plugins in it and whether it changed.
    Rewired(Result<(usize, bool), String>),
    /// The ids that are quarantined.
    QuarantineListed(Vec<String>),
    /// The state of before was restored: an error of wiring it, and how many
    /// kernel versions are installed.
    Restored { error: Option<String>, installed: usize },
}

/// The content of an event.
#[verifier::ext_equal]
pub enum EventModel {
    Booted(VerdictModel),
    LogRead { log_error: Option<Seq<char>>, tail: Seq<char> },
    Quarantined(bool),
    Rewired(Result<(nat, bool), Seq<char>>),
    QuarantineListed(Seq<Seq<char>>),
    Restored { error: Option<Seq<char>>, installed: nat },
}

impl View for GuardEvent {
    type V = EventModel;

    open spec fn view(&self) -> EventModel {
        match self {
            GuardEvent::Booted(v) => EventModel::Booted(v@),
            GuardEvent::LogRead { log_error, tail } => EventModel::LogRead {
                log_error: text::opt_text(*log_error),
                tail: tail@,
            },
            GuardEvent::Quarantined(ok) => EventModel::Quarantined(*ok),
            GuardEvent::Rewired(r) => EventModel::Rewired(wiring_model(*r)),
            GuardEvent::QuarantineListed(ids) => EventModel::QuarantineListed(text::texts(ids@)),
            GuardEvent::Restored { error, installed } => EventModel::Restored {
                error: text::opt_text(*error),
                installed: *installed as nat,
            },
        }
    }
}

/// What the driver is to do.
#[derive(Debug)]
pub enum GuardAction {
    /// Make a start attempt.
    Boot,
    /// Read the end of the kernel log.
    ReadLog,
    /// Add quarantine records.
    Quarantine(Vec<QuarantineItem>),
    /// Wire the profile anew.
    Rewire,
    /// List the quarantined ids.
    ListQuarantined,
    /// Put the quarantine of before back, and the wiring too where it says so.
    Restore { wiring: bool },
    /// Report. An incident in the report is saved; a report without one clears
    /// the saved incident.
    Finish(StartReport),
}

/// The content of a report.
#[verifier::ext_equal]
pub struct ReportModel {
    pub port: u16,
    pub running: bool,
    pub safe_mode: bool,
    pub incident: Option<IncidentModel>,
}

impl View for StartReport {
    type V = ReportModel;

    open spec fn view(&self) -> ReportModel {
        ReportModel {
            port: self.port,
            running: self.running,
            safe_mode: self.safe_mode,
            incident: match self.incident {
                Some(i) => Some(i@),
                None => None,
            },
        }
    }
}

/// The content of an action.
#[verifier::ext_equal]
pub enum ActionModel {
    Boot,
    ReadLog,
    Quarantine(Seq<QuarantineModel>),
    Rewire,
    ListQuarantined,
    Restore { wiring: bool },
    Finish(ReportModel),
}

impl View for GuardAction {
    type V = ActionModel;

    open spec fn view(&self) -> ActionModel {
        match self {
            GuardAction::Boot => ActionModel::Boot,
            GuardAction::ReadLog => ActionModel::ReadLog,
            GuardAction::Quarantine(records) => ActionModel::Quarantine(quarantine::records_of(records@)),
            GuardAction::Rewire => ActionModel::Rewire,
            GuardAction::ListQuarantined => ActionModel::ListQuarantined,
            GuardAction::Restore { wiring } => ActionModel::Restore { wiring: *wiring },
            GuardAction::Finish(report) => ActionModel::Finish(report@),
        }
    }
}

/// One move of the ladder: what to tell the user first, and what to do.
#[derive(Debug)]
pub struct GuardMove {
    pub progress: Option<String>,
    pub action: GuardAction,
}

/// The content of a move.
#[verifier::ext_equal]
pub struct MoveModel {
    pub progress: Option<Seq<char>>,
    pub action: ActionModel,
}

impl View for GuardMove {
    type V = MoveModel;

    open spec fn view(&self) -> MoveModel {
        MoveModel { progress: text::opt_text(self.progress), action: self.action@ }
    }
}

// --------------------------------------------------------------- transitions

/// A move without a word to the user.
pub open spec fn quiet(action: ActionModel) -> MoveModel {
    MoveModel { progress: None, action }
}

/// The kernel came up and its failure is not of the environment, so plugins
/// may be at fault.
pub open spec fn plugins_may_fail(s: LadderModel) -> bool {
    s.kernel_started && s.env_marker is None
}

/// The trail with one more line.
pub open spec fn noted(s: LadderModel, line: Seq<char>) -> LadderModel {
    LadderModel { trail: s.trail.push(line), ..s }
}

/// Gives up: the state of before is put back.
pub open spec fn give_up(s: LadderModel) -> (LadderModel, MoveModel) {
    (
        LadderModel {
            stage: Stage::Restore,
            trail: s.trail.push("已放弃自动修复，恢复原有接线与隔离状态"@),
            ..s
        },
        MoveModel {
            progress: Some("多次尝试后仍无法启动，正在恢复原有配置…"@),
            action: ActionModel::Restore { wiring: s.quarantined },
        },
    )
}

/// Goes on to safe mode where plugins may be at fault and there are any;
/// otherwise gives up.
pub open spec fn try_safe_mode(s: LadderModel) -> (LadderModel, MoveModel) {
    if plugins_may_fail(s) && s.deps.items.len() > 0 {
        (
            LadderModel { stage: Stage::SafeIds, ..s },
            MoveModel {
                progress: Some("仍未启动成功，正在进入安全模式（停用全部第三方插件）后重试…"@),
                action: ActionModel::ListQuarantined,
            },
        )
    } else {
        give_up(s)
    }
}

/// The incident of a start that worked without some plugins.
pub open spec fn recovered_incident(
    s: LadderModel,
    message: Seq<char>,
    suspects: Seq<SuspectModel>,
    trail: Seq<Seq<char>>,
    safe_mode: bool,
    now: u64,
) -> IncidentModel {
    IncidentModel {
        recovered: true,
        safe_mode,
        message,
        suspects,
        attempts: trail,
        log_tail: s.tail,
        log_path: s.deps.log_path,
        hint: None,
        at: now,
        cause: "plugin"@,
        health: None,
    }
}

/// Ends with a running workbench and an incident.
pub open spec fn finish_recovered(
    s: LadderModel,
    message: Seq<char>,
    suspects: Seq<SuspectModel>,
    line: Seq<char>,
    safe_mode: bool,
    now: u64,
) -> (LadderModel, MoveModel) {
    let t = LadderModel { stage: Stage::Closed, ..noted(s, line) };
    (
        t,
        quiet(
            ActionModel::Finish(
                ReportModel {
                    port: s.deps.port,
                    running: true,
                    safe_mode,
                    incident: Some(
                        recovered_incident(s, message, suspects, t.trail, safe_mode, now),
                    ),
                },
            ),
        ),
    )
}

/// After the first attempt: done where it serves, otherwise the log is read.
pub open spec fn after_boot(s: LadderModel, v: VerdictModel) -> (LadderModel, MoveModel) {
    if v is Ready {
        (
            LadderModel { stage: Stage::Closed, ..s },
            quiet(
                ActionModel::Finish(
                    ReportModel {
                        port: s.deps.port,
                        running: true,
                        safe_mode: s.deps.prior_quarantine,
                        incident: None,
                    },
                ),
            ),
        )
    } else {
        (
            LadderModel {
                stage: Stage::Evidence,
                kernel_started: !(v is SpawnFailed),
                first_reason: reason_text(v),
                ..noted(s, "常规启动失败："@ + reason_text(v))
            },
            quiet(ActionModel::ReadLog),
        )
    }
}

/// The state once the log of the first attempt was read: its marks of an
/// environment failure and, failing those, the suspects it points at.
pub open spec fn with_evidence(
    s: LadderModel,
    log_error: Option<Seq<char>>,
    tail: Seq<char>,
) -> LadderModel {
    let marker = attribution::env_failure(tail);
    let noted_error = match log_error {
        Some(e) => noted(s, e + "（本次日志可能不完整）"@),
        None => s,
    };
    let noted_marker = match marker {
        Some(m) => noted(
            noted_error,
            "检测到环境类失败特征（"@ + m + "），跳过插件归因与安全模式"@,
        ),
        None => noted_error,
    };
    LadderModel {
        tail,
        env_marker: marker,
        suspects: if s.kernel_started && marker is None {
            attribution::attribution(tail, s.deps.items, s.deps.label)
        } else {
            Seq::empty()
        },
        ..noted_marker
    }
}

/// The reason that the records of the second attempt give.
pub open spec fn targeted_reason() -> Seq<char> {
    "内核启动失败，错误日志指向该插件，已自动停用"@
}

/// The reason that the records of the third attempt give.
pub open spec fn safe_reason() -> Seq<char> {
    "无法定位具体引发故障的插件，安全模式已停用全部第三方插件"@
}

/// After the log of the first attempt: the plugins it points at are taken out;
/// without suspects safe mode is next.
pub open spec fn after_evidence(
    s: LadderModel,
    log_error: Option<Seq<char>>,
    tail: Seq<char>,
    now: u64,
) -> (LadderModel, MoveModel) {
    let t = with_evidence(s, log_error, tail);
    if t.suspects.len() > 0 {
        (
            LadderModel { stage: Stage::TargetedWrite, ..t },
            MoveModel {
                progress: Some("检测到疑似引发故障的插件，正在停用后重试…"@),
                action: ActionModel::Quarantine(incident::records_for(t.suspects, targeted_reason(), now)),
            },
        )
    } else {
        try_safe_mode(t)
    }
}

/// After the second attempt.
pub open spec fn after_targeted_boot(s: LadderModel, v: VerdictModel, now: u64) -> (
    LadderModel,
    MoveModel,
) {
    if v is Ready {
        finish_recovered(
            s,
            "工作台已在停用以下插件后成功启动。请查看错误原因，选择移除或保持禁用；确认插件已修复后可重新启用。"@,
            s.suspects,
            "停用疑似插件后启动成功"@,
            s.deps.prior_quarantine || runtime::some_kind(s.suspects, "plugin"@),
            now,
        )
    } else {
        (
            LadderModel {
                stage: Stage::TargetedEvidence,
                ..noted(s, "停用疑似插件后仍失败："@ + reason_text(v))
            },
            quiet(ActionModel::ReadLog),
        )
    }
}

/// The store entries that are not among `ids`, as suspects without evidence.
pub open spec fn not_listed(items: Seq<PluginModel>, ids: Seq<Seq<char>>) -> Seq<SuspectModel>
    decreases items.len(),
{
    if items.len() == 0 {
        Seq::empty()
    } else {
        let before = not_listed(items.drop_last(), ids);
        let item = items.last();
        if ids.contains(item.id) {
            before
        } else {
            before.push(
                SuspectModel {
                    kind: "plugin"@,
                    id: item.id,
                    name: item.name,
                    evidence: Seq::empty(),
                },
            )
        }
    }
}

/// The evidence of the first of `suspects`, from index `k` on, with this id.
pub open spec fn evidence_from(suspects: Seq<SuspectModel>, id: Seq<char>, k: int) -> Seq<char>
    decreases suspects.len() - k,
{
    if k < 0 || k >= suspects.len() {
        Seq::empty()
    } else if suspects[k].id == id {
        suspects[k].evidence
    } else {
        evidence_from(suspects, id, k + 1)
    }
}

/// The store entries as suspects, with the evidence that was found for them,
/// as many as the panel shows.
pub open spec fn all_as_suspects(items: Seq<PluginModel>, suspects: Seq<SuspectModel>) -> Seq<
    SuspectModel,
> {
    let len = if items.len() < MAX_SUSPECTS {
        items.len()
    } else {
        MAX_SUSPECTS as nat
    };
    Seq::new(
        len,
        |i: int|
            SuspectModel {
                kind: "plugin"@,
                id: items[i].id,
                name: items[i].name,
                evidence: evidence_from(suspects, items[i].id, 0),
            },
    )
}

/// After the third attempt.
pub open spec fn after_safe_boot(s: LadderModel, v: VerdictModel, now: u64) -> (
    LadderModel,
    MoveModel,
) {
    if v is Ready {
        finish_recovered(
            s,
            "工作台仅在不加载任何第三方插件时才能启动，已将全部插件临时停用。请逐个查看并决定移除或恢复。"@,
            all_as_suspects(s.deps.items, s.suspects),
            "安全模式（全部第三方插件停用）下启动成功"@,
            true,
            now,
        )
    } else {
        give_up(noted(s, "安全模式下仍失败："@ + reason_text(v)))
    }
}

/// Why the environment is at fault, where it is.
pub open spec fn env_reason(s: LadderModel) -> Option<Seq<char>> {
    if !s.kernel_started {
        Some("内核进程没有被拉起来："@ + s.first_reason)
    } else {
        match s.env_marker {
            Some(m) => Some("内核启动过程中报告了环境类错误（"@ + m + "）"@),
            None => None,
        }
    }
}

/// The next step after a failure that no plugin explains.
pub open spec fn plain_hint() -> Seq<char> {
    "此次失败与第三方插件无关。请通过「打开日志」查看完整内核日志；也可在「内核版本」页删除当前版本后重新安装。"@
}

/// The next step after a failure of the environment.
pub open spec fn env_hint() -> Seq<char> {
    "请按上面的原因处理后重试：端口被占用就换一个端口（设置页）或结束占用该端口的进程；\n权限 / 磁盘问题请检查数据目录是否可写、磁盘是否已满；仍不确定时用「查看日志」看完整内核日志。"@
}

/// The trail once everything was put back.
pub open spec fn restored_trail(s: LadderModel, error: Option<Seq<char>>) -> Seq<Seq<char>> {
    if !s.quarantined {
        s.trail.push("本次未改动插件接线（无归因、未进入安全模式），跳过接线恢复与 pnpm 重装"@)
    } else {
        match error {
            Some(e) => s.trail.push("恢复原接线失败："@ + e),
            None => s.trail,
        }
    }
}

/// The incident of a start that failed for good.
pub open spec fn failed_incident(
    s: LadderModel,
    error: Option<Seq<char>>,
    installed: nat,
    now: u64,
) -> IncidentModel {
    let kernel = runtime::some_kind(s.suspects, "kernel"@);
    let plain = IncidentModel {
        recovered: false,
        safe_mode: false,
        message: "多次尝试后工作台仍无法启动，已恢复原有插件配置。"@,
        suspects: incident::first_by_id(s.suspects),
        attempts: restored_trail(s, error),
        log_tail: s.tail,
        log_path: s.deps.log_path,
        hint: Some(
            if kernel || installed > 1 {
                "也可先尝试在「内核版本」页切换到其他已安装版本。"@ + plain_hint()
            } else {
                plain_hint()
            },
        ),
        at: now,
        cause: if kernel {
            "kernel"@
        } else {
            "unknown"@
        },
        health: None,
    };
    match env_reason(s) {
        Some(reason) => IncidentModel {
            message: "工作台无法启动："@ + reason + "。本次未改动任何插件配置。"@,
            hint: Some(env_hint()),
            cause: "env"@,
            ..plain
        },
        None => plain,
    }
}

/// The event is what the stage waits for.
pub open spec fn awaited(stage: Stage, event: EventModel) -> bool {
    match stage {
        Stage::Boot | Stage::TargetedBoot | Stage::SafeBoot => event is Booted,
        Stage::Evidence | Stage::TargetedEvidence => event is LogRead,
        Stage::TargetedWrite | Stage::SafeWrite => event is Quarantined,
        Stage::TargetedWiring | Stage::SafeWiring => event is Rewired,
        Stage::SafeIds => event is QuarantineListed,
        Stage::Restore => event is Restored,
        Stage::Closed => false,
    }
}

/// The next state and move.
pub open spec fn next(s: LadderModel, event: EventModel, now: u64) -> (LadderModel, MoveModel) {
    match (s.stage, event) {
        (Stage::Boot, EventModel::Booted(v)) => after_boot(s, v),
        (Stage::Evidence, EventModel::LogRead { log_error, tail }) => after_evidence(
            s,
            log_error,
            tail,
            now,
        ),
        (Stage::TargetedWrite, EventModel::Quarantined(ok)) => if ok {
            (
                LadderModel { stage: Stage::TargetedWiring, quarantined: true, ..s },
                quiet(ActionModel::Rewire),
            )
        } else {
            try_safe_mode(noted(s, "写入隔离记录失败，跳过定向停用"@))
        },
        (Stage::TargetedWiring, EventModel::Rewired(r)) => (
            LadderModel { stage: Stage::TargetedBoot, ..noted(s, wiring_line(r)) },
            quiet(ActionModel::Boot),
        ),
        (Stage::TargetedBoot, EventModel::Booted(v)) => after_targeted_boot(s, v, now),
        (Stage::TargetedEvidence, EventModel::LogRead { log_error, tail }) => try_safe_mode(
            LadderModel {
                suspects: s.suspects + attribution::attribution(tail, s.deps.items, s.deps.label),
                ..s
            },
        ),
        (Stage::SafeIds, EventModel::QuarantineListed(ids)) => (
            LadderModel { stage: Stage::SafeWrite, ..s },
            quiet(
                ActionModel::Quarantine(
                    incident::records_for(not_listed(s.deps.items, ids), safe_reason(), now),
                ),
            ),
        ),
        (Stage::SafeWrite, EventModel::Quarantined(ok)) => if ok {
            (
                LadderModel { stage: Stage::SafeWiring, quarantined: true, ..s },
                quiet(ActionModel::Rewire),
            )
        } else {
            give_up(noted(s, "写入隔离记录失败，跳过安全模式"@))
        },
        (Stage::SafeWiring, EventModel::Rewired(r)) => (
            LadderModel { stage: Stage::SafeBoot, ..noted(s, wiring_line(r)) },
            quiet(ActionModel::Boot),
        ),
        (Stage::SafeBoot, EventModel::Booted(v)) => after_safe_boot(s, v, now),
        (Stage::Restore, EventModel::Restored { error, installed }) => (
            LadderModel { stage: Stage::Closed, trail: restored_trail(s, error), ..s },
            quiet(
                ActionModel::Finish(
                    ReportModel {
                        port: s.deps.port,
                        running: false,
                        safe_mode: s.deps.prior_quarantine,
                        incident: Some(failed_incident(s, error, installed, now)),
                    },
                ),
            ),
        ),
        _ => (s, quiet(ActionModel::Boot)),
    }
}

/// The state before the first attempt.
pub open spec fn opening(deps: DepsModel) -> LadderModel {
    LadderModel {
        deps,
        stage: Stage::Boot,
        trail: Seq::empty(),
        tail: Seq::empty(),
        env_marker: None,
        kernel_started: true,
        first_reason: Seq::empty(),
        suspects: Seq::empty(),
        quarantined: false,
    }
}

// ----------------------------------------------------------------- execution

/// The report where the workbench already runs: nothing is started, and the
/// saved incident stays as it is. `quarantined` tells whether some plugins are
/// quarantined.
pub fn already_running(port: u16, quarantined: bool) -> (r: StartReport)
    ensures
        r@ == (ReportModel { port, running: true, safe_mode: quarantined, incident: None }),
{
    StartReport { port, running: true, safe_mode: quarantined, incident: None }
}

/// Opens the ladder: the first move is to start as wired.
pub fn guarded_start(deps: GuardDeps) -> (r: (Ladder, GuardMove))
    ensures
        r.0@ == opening(deps@),
        r.1@ == (MoveModel { progress: Some("正在启动工作台…"@), action: ActionModel::Boot }),
{
    let ladder = Ladder {
        deps,
        stage: Stage::Boot,
        trail: Vec::new(),
        tail: String::new(),
        env_marker: None,
        kernel_started: true,
        first_reason: String::new(),
        suspects: Vec::new(),
        quarantined: false,
    };
    proof {
        assert(ladder@.trail =~= Seq::<Seq<char>>::empty());
        assert(ladder@.suspects =~= Seq::<SuspectModel>::empty());
    }
    (ladder, GuardMove { progress: Some(text::owned("正在启动工作台…")), action: GuardAction::Boot })
}

fn is_listed_item(item: &StoreItem, ids: &Vec<String>) -> (r: bool)
    ensures
        r == text::texts(ids@).contains(item@.id),
{
    text::listed(ids, item.id.as_str())
}

fn unlisted_suspects(items: &Vec<StoreItem>, ids: &Vec<String>) -> (r: Vec<Suspect>)
    ensures
        incident::suspects_of(r@) == not_listed(plugins::plugins_of(items@), text::texts(ids@)),
{
    let mut out: Vec<Suspect> = Vec::new();
    let mut i: usize = 0;
    let ghost all = plugins::plugins_of(items@);
    proof {
        assert(all.take(0) =~= Seq::<PluginModel>::empty());
        assert(incident::suspects_of(out@) =~= Seq::<SuspectModel>::empty());
    }
    while i < items.len()
        invariant
            i <= items.len(),
            all == plugins::plugins_of(items@),
            incident::suspects_of(out@) == not_listed(all.take(i as int), text::texts(ids@)),
        decreases items.len() - i,
    {
        let item = &items[i];
        proof {
            let next = all.take(i + 1);
            assert(next.drop_last() =~= all.take(i as int));
            assert(next.last() == item@);
        }
        if !is_listed_item(item, ids) {
            let s = Suspect {
                kind: text::owned("plugin"),
                id: item.id.clone(),
                name: item.name.clone(),
                evidence: String::new(),
            };
            proof {
                assert(incident::suspects_of(out@.push(s)) =~= incident::suspects_of(out@).push(s@));
            }
            out.push(s);
        }
        i = i + 1;
    }
    proof {
        assert(all.take(all.len() as int) =~= all);
    }
    out
}

fn find_evidence(suspects: &Vec<Suspect>, id: &str) -> (r: String)
    ensures
        r@ == evidence_from(incident::suspects_of(suspects@), id@, 0),
{
    let mut i: usize = 0;
    while i < suspects.len()
        invariant
            i <= suspects.len(),
            evidence_from(incident::suspects_of(suspects@), id@, 0) == evidence_from(
                incident::suspects_of(suspects@),
                id@,
                i as int,
            ),
        decreases suspects.len() - i,
    {
        proof {
            assert(incident::suspects_of(suspects@)[i as int] == suspects@[i as int]@);
        }
        if text::same(suspects[i].id.as_str(), id) {
            return suspects[i].evidence.clone();
        }
        i = i + 1;
    }
    String::new()
}

fn items_as_suspects(items: &Vec<StoreItem>, suspects: &Vec<Suspect>) -> (r: Vec<Suspect>)
    ensures
        incident::suspects_of(r@) == all_as_suspects(plugins::plugins_of(items@), incident::suspects_of(suspects@)),
{
    let mut out: Vec<Suspect> = Vec::new();
    let mut i: usize = 0;
    while i < items.len() && i < MAX_SUSPECTS
        invariant
            i <= items.len(),
            i <= MAX_SUSPECTS,
            out.len() == i,
            forall|k: int|
                0 <= k < i ==> (#[trigger] out@[k])@ == (SuspectModel {
                    kind: "plugin"@,
                    id: items@[k].id@,
                    name: items@[k].name@,
                    evidence: evidence_from(incident::suspects_of(suspects@), items@[k].id@, 0),
                }),
        decreases items.len() - i,
    {
        out.push(
            Suspect {
                kind: text::owned("plugin"),
                id: items[i].id.clone(),
                name: items[i].name.clone(),
                evidence: find_evidence(suspects, items[i].id.as_str()),
            },
        );
        i = i + 1;
    }
    proof {
        assert(incident::suspects_of(out@) =~= all_as_suspects(
            plugins::plugins_of(items@),
            incident::suspects_of(suspects@),
        ));
    }
    out
}

impl Ladder {
    fn note(&mut self, line: String)
        ensures
            final(self)@ == noted(old(self)@, line@),
    {
        proof {
            assert(text::texts(self.trail@.push(line)) =~= text::texts(self.trail@).push(line@));
        }
        self.trail.push(line);
    }

    fn may_blame_plugins(&self) -> (r: bool)
        ensures
            r == plugins_may_fail(self@),
    {
        self.kernel_started && self.env_marker.is_none()
    }

    fn giving_up(self) -> (r: (Ladder, GuardMove))
        ensures
            (r.0@, r.1@) == give_up(self@),
    {
        let mut s = self;
        s.note(text::owned("已放弃自动修复，恢复原有接线与隔离状态"));
        s.stage = Stage::Restore;
        let action = GuardAction::Restore { wiring: s.quarantined };
        (
            s,
            GuardMove {
                progress: Some(text::owned("多次尝试后仍无法启动，正在恢复原有配置…")),
                action,
            },
        )
    }

    fn trying_safe_mode(self) -> (r: (Ladder, GuardMove))
        ensures
            (r.0@, r.1@) == try_safe_mode(self@),
    {
        let mut s = self;
        proof {
            assert(s@.deps.items.len() == s.deps.store_items@.len());
        }
        if s.may_blame_plugins() && !s.deps.store_items.is_empty() {
            s.stage = Stage::SafeIds;
            (
                s,
                GuardMove {
                    progress: Some(
                        text::owned("仍未启动成功，正在进入安全模式（停用全部第三方插件）后重试…"),
                    ),
                    action: GuardAction::ListQuarantined,
                },
            )
        } else {
            s.giving_up()
        }
    }

    fn finishing_recovered(
        self,
        message: &str,
        suspects: Vec<Suspect>,
        line: &str,
        safe_mode: bool,
        now: u64,
    ) -> (r: (Ladder, GuardMove))
        ensures
            (r.0@, r.1@) == finish_recovered(
                self@,
                message@,
                incident::suspects_of(suspects@),
                line@,
                safe_mode,
                now,
            ),
    {
        let mut s = self;
        s.note(text::owned(line));
        s.stage = Stage::Closed;
        let incident = Incident {
            recovered: true,
            safe_mode,
            message: text::owned(message),
            suspects,
            attempts: text::copy_all(&s.trail),
            log_tail: s.tail.clone(),
            log_path: s.deps.log_path.clone(),
            hint: None,
            at: now,
            cause: text::owned("plugin"),
            health: None,
        };
        let report = StartReport {
            port: s.deps.port,
            running: true,
            safe_mode,
            incident: Some(incident),
        };
        (s, GuardMove { progress: None, action: GuardAction::Finish(report) })
    }

    fn on_boot(self, v: BootVerdict) -> (r: (Ladder, GuardMove))
        ensures
            (r.0@, r.1@) == after_boot(self@, v@),
    {
        let mut s = self;
        let ready = match &v {
            BootVerdict::Ready => true,
            _ => false,
        };
        if ready {
            s.stage = Stage::Closed;
            let report = StartReport {
                port: s.deps.port,
                running: true,
                safe_mode: s.deps.prior_quarantine,
                incident: None,
            };
            (s, GuardMove { progress: None, action: GuardAction::Finish(report) })
        } else {
            let spawned = match &v {
                BootVerdict::SpawnFailed(_) => false,
                _ => true,
            };
            let reason = v.reason();
            s.note(text::cat2("常规启动失败：", reason.as_str()));
            s.kernel_started = spawned;
            s.first_reason = reason;
            s.stage = Stage::Evidence;
            (s, GuardMove { progress: None, action: GuardAction::ReadLog })
        }
    }

    fn on_evidence(self, log_error: Option<String>, tail: String, now: u64) -> (r: (
        Ladder,
        GuardMove,
    ))
        ensures
            (r.0@, r.1@) == after_evidence(self@, text::opt_text(log_error), tail@, now),
    {
        let ghost before = self@;
        let mut s = self;
        match &log_error {
            Some(e) => {
                s.note(text::cat2(e.as_str(), "（本次日志可能不完整）"));
            },
            None => {},
        }
        let marker = attribution::environment_failure(tail.as_str());
        match &marker {
            Some(m) => {
                s.note(
                    text::cat3("检测到环境类失败特征（", m.as_str(), "），跳过插件归因与安全模式"),
                );
            },
            None => {},
        }
        s.env_marker = marker;
        s.suspects =
        if s.may_blame_plugins() {
            attribution::attribute(tail.as_str(), &s.deps.store_items, s.deps.kernel_label.as_str())
        } else {
            Vec::new()
        };
        s.tail = tail;
        proof {
            if !plugins_may_fail(s@) {
                assert(s@.suspects =~= Seq::<SuspectModel>::empty());
            }
            assert(s@ =~= with_evidence(before, text::opt_text(log_error), tail@));
            assert(s@.suspects.len() == s.suspects@.len());
        }
        if !s.suspects.is_empty() {
            let records = incident::suspect_records(
                &s.suspects,
                "内核启动失败，错误日志指向该插件，已自动停用",
                now,
            );
            s.stage = Stage::TargetedWrite;
            (
                s,
                GuardMove {
                    progress: Some(text::owned("检测到疑似引发故障的插件，正在停用后重试…")),
                    action: GuardAction::Quarantine(records),
                },
            )
        } else {
            s.trying_safe_mode()
        }
    }

    fn on_targeted_boot(self, v: BootVerdict, now: u64) -> (r: (Ladder, GuardMove))
        ensures
            (r.0@, r.1@) == after_targeted_boot(self@, v@, now),
    {
        let mut s = self;
        let ready = match &v {
            BootVerdict::Ready => true,
            _ => false,
        };
        if ready {
            let suspects = incident::copy_suspects(&s.suspects);
            let safe_mode = s.deps.prior_quarantine || runtime::any_kind(&s.suspects, "plugin");
            s.finishing_recovered(
                "工作台已在停用以下插件后成功启动。请查看错误原因，选择移除或保持禁用；确认插件已修复后可重新启用。",
                suspects,
                "停用疑似插件后启动成功",
                safe_mode,
                now,
            )
        } else {
            s.note(text::cat2("停用疑似插件后仍失败：", v.reason().as_str()));
            s.stage = Stage::TargetedEvidence;
            (s, GuardMove { progress: None, action: GuardAction::ReadLog })
        }
    }

    fn on_safe_boot(self, v: BootVerdict, now: u64) -> (r: (Ladder, GuardMove))
        ensures
            (r.0@, r.1@) == after_safe_boot(self@, v@, now),
    {
        let mut s = self;
        let ready = match &v {
            BootVerdict::Ready => true,
            _ => false,
        };
        if ready {
            let suspects = items_as_suspects(&s.deps.store_items, &s.suspects);
            s.finishing_recovered(
                "工作台仅在不加载任何第三方插件时才能启动，已将全部插件临时停用。请逐个查看并决定移除或恢复。",
                suspects,
                "安全模式（全部第三方插件停用）下启动成功",
                true,
                now,
            )
        } else {
            s.note(text::cat2("安全模式下仍失败：", v.reason().as_str()));
            s.giving_up()
        }
    }

    fn environment_reason(&self) -> (r: Option<String>)
        ensures
            text::opt_text(r) == env_reason(self@),
    {
        if !self.kernel_started {
            Some(text::cat2("内核进程没有被拉起来：", self.first_reason.as_str()))
        } else {
            match &self.env_marker {
                Some(m) => Some(
                    text::cat3("内核启动过程中报告了环境类错误（", m.as_str(), "）"),
                ),
                None => None,
            }
        }
    }

    fn on_restored(self, error: Option<String>, installed: usize, now: u64) -> (r: (
        Ladder,
        GuardMove,
    ))
        ensures
            (r.0@, r.1@) == ({
                let s = self@;
                (
                    LadderModel {
                        stage: Stage::Closed,
                        trail: restored_trail(s, text::opt_text(error)),
                        ..s
                    },
                    quiet(
                        ActionModel::Finish(
                            ReportModel {
                                port: s.deps.port,
                                running: false,
                                safe_mode: s.deps.prior_quarantine,
                                incident: Some(
                                    failed_incident(s, text::opt_text(error), installed as nat, now),
                                ),
                            },
                        ),
                    ),
                )
            }),
    {
        let ghost before = self@;
        let mut s = self;
        if s.quarantined {
            match &error {
                Some(e) => {
                    s.note(text::cat2("恢复原接线失败：", e.as_str()));
                },
                None => {},
            }
        } else {
            s.note(
                text::owned("本次未改动插件接线（无归因、未进入安全模式），跳过接线恢复与 pnpm 重装"),
            );
        }
        s.stage = Stage::Closed;
        let kernel = runtime::any_kind(&s.suspects, "kernel");
        let plain =
            "此次失败与第三方插件无关。请通过「打开日志」查看完整内核日志；也可在「内核版本」页删除当前版本后重新安装。";
        let mut hint = if kernel || installed > 1 {
            text::cat2("也可先尝试在「内核版本」页切换到其他已安装版本。", plain)
        } else {
            text::owned(plain)
        };
        let mut message = text::owned("多次尝试后工作台仍无法启动，已恢复原有插件配置。");
        let mut cause = if kernel {
            text::owned("kernel")
        } else {
            text::owned("unknown")
        };
        match s.environment_reason() {
            Some(reason) => {
                message =
                text::cat3("工作台无法启动：", reason.as_str(), "。本次未改动任何插件配置。");
                hint =
                text::owned(
                    "请按上面的原因处理后重试：端口被占用就换一个端口（设置页）或结束占用该端口的进程；\n权限 / 磁盘问题请检查数据目录是否可写、磁盘是否已满；仍不确定时用「查看日志」看完整内核日志。",
                );
                cause = text::owned("env");
            },
            None => {},
        }
        let incident = Incident {
            recovered: false,
            safe_mode: false,
            message,
            suspects: incident::dedup_suspects(&s.suspects),
            attempts: text::copy_all(&s.trail),
            log_tail: s.tail.clone(),
            log_path: s.deps.log_path.clone(),
            hint: Some(hint),
            at: now,
            cause,
            health: None,
        };
        proof {
            assert(s@.trail =~= restored_trail(before, text::opt_text(error)));
            assert(incident@ =~= failed_incident(
                before,
                text::opt_text(error),
                installed as nat,
                now,
            ));
        }
        let report = StartReport {
            port: s.deps.port,
            running: false,
            safe_mode: s.deps.prior_quarantine,
            incident: Some(incident),
        };
        (s, GuardMove { progress: None, action: GuardAction::Finish(report) })
    }

    /// The next state and move, after the event that the stage waits for.
    pub fn step(self, event: GuardEvent, now: u64) -> (r: (Ladder, GuardMove))
        requires
            awaited(self.stage, event@),
        ensures
            (r.0@, r.1@) == next(self@, event@, now),
    {
        let mut s = self;
        let stage = s.stage;
        match event {
            GuardEvent::Booted(v) => {
                match stage {
                    Stage::Boot => s.on_boot(v),
                    Stage::TargetedBoot => s.on_targeted_boot(v, now),
                    _ => s.on_safe_boot(v, now),
                }
            },
            GuardEvent::LogRead { log_error, tail } => {
                if stage == Stage::Evidence {
                    s.on_evidence(log_error, tail, now)
                } else {
                    let mut more = attribution::attribute(
                        tail.as_str(),
                        &s.deps.store_items,
                        s.deps.kernel_label.as_str(),
                    );
                    let ghost a = s.suspects@;
                    let ghost b = more@;
                    s.suspects.append(&mut more);
                    proof {
                        assert(incident::suspects_of(s.suspects@) =~= incident::suspects_of(a) + incident::suspects_of(b));
                    }
                    s.trying_safe_mode()
                }
            },
            GuardEvent::Quarantined(ok) => {
                if ok {
                    s.quarantined = true;
                    s.stage =
                    if stage == Stage::TargetedWrite {
                        Stage::TargetedWiring
                    } else {
                        Stage::SafeWiring
                    };
                    (s, GuardMove { progress: None, action: GuardAction::Rewire })
                } else if stage == Stage::TargetedWrite {
                    s.note(text::owned("写入隔离记录失败，跳过定向停用"));
                    s.trying_safe_mode()
                } else {
                    s.note(text::owned("写入隔离记录失败，跳过安全模式"));
                    s.giving_up()
                }
            },
            GuardEvent::Rewired(outcome) => {
                s.note(refresh_wiring(&outcome));
                s.stage =
                if stage == Stage::TargetedWiring {
                    Stage::TargetedBoot
                } else {
                    Stage::SafeBoot
                };
                (s, GuardMove { progress: None, action: GuardAction::Boot })
            },
            GuardEvent::QuarantineListed(ids) => {
                let rest = unlisted_suspects(&s.deps.store_items, &ids);
                let records = incident::suspect_records(
                    &rest,
                    "无法定位具体引发故障的插件，安全模式已停用全部第三方插件",
                    now,
                );
                s.stage = Stage::SafeWrite;
                (s, GuardMove { progress: None, action: GuardAction::Quarantine(records) })
            },
            GuardEvent::Restored { error, installed } => s.on_restored(error, installed, now),
        }
    }
}

// ---------------------------------------------------------------------- laws

/// An event and the time at which it was handed over.
#[verifier::ext_equal]
pub struct Input {
    pub event: EventModel,
    pub now: u64,
}

/// The state after a run of events.
pub open spec fn state_after(deps: DepsModel, run: Seq<Input>) -> LadderModel
    decreases run.len(),
{
    if run.len() == 0 {
        opening(deps)
    } else {
        next(state_after(deps, run.drop_last()), run.last().event, run.last().now).0
    }
}

/// The action that a run of events ends with.
pub open spec fn action_after(deps: DepsModel, run: Seq<Input>) -> ActionModel {
    if run.len() == 0 {
        ActionModel::Boot
    } else {
        next(state_after(deps, run.drop_last()), run.last().event, run.last().now).1.action
    }
}

/// Each event of the run was awaited.
pub open spec fn legal(deps: DepsModel, run: Seq<Input>) -> bool
    decreases run.len(),
{
    run.len() == 0 || (legal(deps, run.drop_last()) && awaited(
        state_after(deps, run.drop_last()).stage,
        run.last().event,
    ))
}

/// The place of a stage on the ladder.
pub open spec fn rank(stage: Stage) -> int {
    match stage {
        Stage::Boot => 0,
        Stage::Evidence => 1,
        Stage::TargetedWrite => 2,
        Stage::TargetedWiring => 3,
        Stage::TargetedBoot => 4,
        Stage::TargetedEvidence => 5,
        Stage::SafeIds => 6,
        Stage::SafeWrite => 7,
        Stage::SafeWiring => 8,
        Stage::SafeBoot => 9,
        Stage::Restore => 10,
        Stage::Closed => 11,
    }
}

/// Every awaited event takes the ladder further, so a start ends after at most
/// eleven events.
pub proof fn law_the_ladder_ends(deps: DepsModel, run: Seq<Input>)
    requires
        legal(deps, run),
    ensures
        run.len() <= rank(state_after(deps, run).stage) <= 11,
    decreases run.len(),
{
    if run.len() > 0 {
        law_the_ladder_ends(deps, run.drop_last());
    }
}

/// How many start attempts a run has asked for.
pub open spec fn boots(deps: DepsModel, run: Seq<Input>) -> nat
    decreases run.len(),
{
    let here = if action_after(deps, run) is Boot {
        1nat
    } else {
        0nat
    };
    if run.len() == 0 {
        here
    } else {
        boots(deps, run.drop_last()) + here
    }
}

/// No start asks for more than three attempts.
pub proof fn law_at_most_three_attempts(deps: DepsModel, run: Seq<Input>)
    requires
        legal(deps, run),
    ensures
        boots(deps, run) <= 3,
{
    lemma_boots(deps, run);
}

proof fn lemma_boots(deps: DepsModel, run: Seq<Input>)
    requires
        legal(deps, run),
    ensures
        boots(deps, run) <= (if rank(state_after(deps, run).stage) < 4 {
            1
        } else if rank(state_after(deps, run).stage) < 9 {
            2nat
        } else {
            3
        }),
    decreases run.len(),
{
    if run.len() > 0 {
        lemma_boots(deps, run.drop_last());
    }
}

/// What every state of a legal run keeps: plugins are handled only while they
/// may be at fault, and what the first attempt showed never changes.
pub open spec fn sound(s: LadderModel) -> bool {
    &&& rank(s.stage) <= 1 ==> s.suspects.len() == 0 && !s.quarantined && s.env_marker is None
    &&& 2 <= rank(s.stage) <= 9 ==> plugins_may_fail(s)
    &&& rank(s.stage) >= 2 && !plugins_may_fail(s) ==> s.suspects.len() == 0 && !s.quarantined
}

proof fn lemma_sound(deps: DepsModel, run: Seq<Input>)
    requires
        legal(deps, run),
    ensures
        sound(state_after(deps, run)),
        state_after(deps, run).deps == deps,
    decreases run.len(),
{
    if run.len() > 0 {
        lemma_sound(deps, run.drop_last());
    }
}

/// The first attempt got no process up, or its log names an environment
/// failure.
pub open spec fn environment_run(run: Seq<Input>) -> bool {
    ||| run.len() >= 1 && (run[0].event matches EventModel::Booted(v) && v is SpawnFailed)
    ||| run.len() >= 2 && (run[1].event matches EventModel::LogRead { log_error, tail }
        && attribution::env_failure(tail) is Some)
}

proof fn lemma_environment(deps: DepsModel, run: Seq<Input>)
    requires
        legal(deps, run),
        environment_run(run),
    ensures
        rank(state_after(deps, run).stage) >= 1,
        rank(state_after(deps, run).stage) >= 2 ==> !plugins_may_fail(state_after(deps, run)) || (
        action_after(deps, run) is Finish && (action_after(deps, run)->Finish_0).incident is None),
        rank(state_after(deps, run).stage) == 1 ==> !state_after(deps, run).kernel_started,
        rank(state_after(deps, run).stage) == 11 && plugins_may_fail(state_after(deps, run))
            ==> run.len() == 1,
    decreases run.len(),
{
    let before = run.drop_last();
    if run.len() == 1 {
        assert(before =~= Seq::<Input>::empty());
        assert(run.last() == run[0]);
    } else {
        assert(before[0] == run[0]);
        if environment_run(before) {
            lemma_environment(deps, before);
            lemma_sound(deps, before);
            law_the_ladder_ends(deps, before);
        } else {
            assert(run.len() == 2);
            let first = before.drop_last();
            assert(first =~= Seq::<Input>::empty());
            assert(before.last() == run[0]);
            assert(run.last() == run[1]);
        }
    }
}

/// Where the environment is at fault, no move of the start quarantines or
/// rewires a plugin or goes on to safe mode; giving up leaves the wiring
/// alone, and the incident names no suspect and the environment as its cause.
pub proof fn law_environment_failures_leave_plugins_alone(deps: DepsModel, run: Seq<Input>)
    requires
        legal(deps, run),
        environment_run(run),
    ensures
        !(action_after(deps, run) is Quarantine),
        !(action_after(deps, run) is Rewire),
        !(action_after(deps, run) is ListQuarantined),
        action_after(deps, run) matches ActionModel::Restore { wiring } ==> !wiring,
        action_after(deps, run) matches ActionModel::Finish(report) ==> (report.incident matches Some(
            i,
        ) ==> i.suspects.len() == 0 && i.cause == "env"@ && !report.running),
{
    let before = run.drop_last();
    lemma_environment(deps, run);
    lemma_sound(deps, run);
    lemma_sound(deps, before);
    let s = state_after(deps, before);
    if s.stage == Stage::Restore {
        assert(incident::first_by_id(s.suspects) =~= Seq::<SuspectModel>::empty());
        if environment_run(before) {
            lemma_environment(deps, before);
        } else {
            law_the_ladder_ends(deps, before);
            assert(run.len() <= 2);
            if run.len() == 2 {
                let first = before.drop_last();
                assert(first =~= Seq::<Input>::empty());
                assert(state_after(deps, first).stage == Stage::Boot);
            }
            assert(false);
        }
    } else if run.len() >= 2 {
        law_the_ladder_ends(deps, before);
        if environment_run(before) {
            lemma_environment(deps, before);
        } else {
            let first = before.drop_last();
            assert(first =~= Seq::<Input>::empty());
            assert(run.last() == run[1]);
        }
    }
}

/// A start that fails for good ends only after the quarantine of before was
/// put back, and the wiring with it where quarantine or wiring were changed.
pub proof fn law_a_failed_start_is_rolled_back(deps: DepsModel, run: Seq<Input>)
    requires
        legal(deps, run),
        action_after(deps, run) matches ActionModel::Finish(report) && !report.running,
    ensures
        run.len() > 1,
        action_after(deps, run.drop_last()) == (ActionModel::Restore {
            wiring: state_after(deps, run).quarantined,
        }),
{
    let before = run.drop_last();
    let s = state_after(deps, before);
    assert(run.len() > 0);
    assert(s.stage == Stage::Restore);
    assert(before.len() > 0);
    lemma_restore_stage(deps, before);
}

proof fn lemma_restore_stage(deps: DepsModel, run: Seq<Input>)
    requires
        legal(deps, run),
        state_after(deps, run).stage == Stage::Restore,
    ensures
        action_after(deps, run) == (ActionModel::Restore {
            wiring: state_after(deps, run).quarantined,
        }),
{
    let s = state_after(deps, run.drop_last());
    assert(s.stage != Stage::Restore);
}

/// The event is what the action calls for.
pub open spec fn answers(action: ActionModel, event: EventModel) -> bool {
    match action {
        ActionModel::Boot => event is Booted,
        ActionModel::ReadLog => event is LogRead,
        ActionModel::Quarantine(_) => event is Quarantined,
        ActionModel::Rewire => event is Rewired,
        ActionModel::ListQuarantined => event is QuarantineListed,
        ActionModel::Restore { wiring } => event is Restored,
        ActionModel::Finish(_) => false,
    }
}

/// A driver that answers each action with the event it calls for always hands
/// over an awaited event.
pub proof fn law_answers_are_awaited(deps: DepsModel, run: Seq<Input>, event: EventModel)
    requires
        legal(deps, run),
    ensures
        answers(action_after(deps, run), event) == awaited(state_after(deps, run).stage, event),
{
    if run.len() > 0 {
        let s = state_after(deps, run.drop_last());
        assert(awaited(s.stage, run.last().event));
    }
}

/// An incident of a running workbench says that it recovered, and comes only
/// after records were written; one of a workbench that does not run is not in
/// safe mode; a start that works as wired has no incident.
pub proof fn law_recovery_is_reported(deps: DepsModel, run: Seq<Input>)
    requires
        legal(deps, run),
        action_after(deps, run) is Finish,
    ensures
        ({
            let report = action_after(deps, run)->Finish_0;
            &&& report.port == deps.port
            &&& report.incident is None ==> report.running && report.safe_mode
                == deps.prior_quarantine
            &&& report.incident matches Some(i) ==> i.recovered == report.running && i.safe_mode == (
            report.running && report.safe_mode) && (report.running ==> state_after(
                deps,
                run,
            ).quarantined && i.cause == "plugin"@)
        }),
{
    lemma_sound(deps, run.drop_last());
    lemma_wired_after_write(deps, run.drop_last());
}

proof fn lemma_wired_after_write(deps: DepsModel, run: Seq<Input>)
    requires
        legal(deps, run),
    ensures
        ({
            let s = state_after(deps, run);
            3 <= rank(s.stage) <= 5 || 8 <= rank(s.stage) <= 9 ==> s.quarantined
        }),
    decreases run.len(),
{
    if run.len() > 0 {
        lemma_wired_after_write(deps, run.drop_last());
    }
}

/// Whether the quarantine holds anything once `event` has answered `action`:
/// records that were written are in it, and giving up puts back what it held
/// before.
pub open spec fn quarantine_after(
    held: bool,
    deps: DepsModel,
    action: ActionModel,
    event: EventModel,
) -> bool {
    match (action, event) {
        (ActionModel::Quarantine(records), EventModel::Quarantined(ok)) => held || (ok
            && records.len() > 0),
        (ActionModel::Restore { wiring }, EventModel::Restored { error, installed }) =>
            deps.prior_quarantine,
        _ => held,
    }
}

/// Whether the quarantine holds anything after a run of events.
pub open spec fn quarantine_holds(deps: DepsModel, run: Seq<Input>) -> bool
    decreases run.len(),
{
    if run.len() == 0 {
        deps.prior_quarantine
    } else {
        quarantine_after(
            quarantine_holds(deps, run.drop_last()),
            deps,
            action_after(deps, run.drop_last()),
            run.last().event,
        )
    }
}

/// The ids that the run was told of are there exactly where the quarantine
/// holds anything.
pub open spec fn told_truly(deps: DepsModel, run: Seq<Input>) -> bool
    decreases run.len(),
{
    run.len() == 0 || (told_truly(deps, run.drop_last()) && (
    run.last().event matches EventModel::QuarantineListed(ids) ==> (ids.len() > 0
        <==> quarantine_holds(deps, run.drop_last()))))
}

/// The flag of a start report tells whether the quarantine holds anything when
/// the start is over, however it ended.
pub proof fn law_safe_mode_tells_of_quarantine(deps: DepsModel, run: Seq<Input>)
    requires
        legal(deps, run),
        told_truly(deps, run),
        action_after(deps, run) is Finish,
    ensures
        (action_after(deps, run)->Finish_0).safe_mode == quarantine_holds(deps, run),
{
    lemma_quarantine(deps, run);
}

proof fn lemma_quarantine(deps: DepsModel, run: Seq<Input>)
    requires
        legal(deps, run),
        told_truly(deps, run),
    ensures
        ({
            let s = state_after(deps, run);
            let held = quarantine_holds(deps, run);
            let action = action_after(deps, run);
            let blamed = runtime::some_kind(s.suspects, "plugin"@);
            match s.stage {
                Stage::Boot | Stage::Evidence => held == deps.prior_quarantine,
                Stage::TargetedWrite => (action matches ActionModel::Quarantine(records) && (
                records.len() > 0) == blamed) && held == deps.prior_quarantine,
                Stage::TargetedWiring | Stage::TargetedBoot => held == (deps.prior_quarantine
                    || blamed),
                Stage::TargetedEvidence => true,
                Stage::SafeIds => deps.items.len() > 0,
                Stage::SafeWrite => action matches ActionModel::Quarantine(records) && (held
                    || records.len() > 0),
                Stage::SafeWiring | Stage::SafeBoot => held,
                Stage::Restore => action is Restore,
                Stage::Closed => action matches ActionModel::Finish(report) && report.safe_mode == held,
            }
        }),
    decreases run.len(),
{
    if run.len() > 0 {
        let before = run.drop_last();
        lemma_quarantine(deps, before);
        lemma_sound(deps, before);
        let s = state_after(deps, before);
        let now = run.last().now;
        match run.last().event {
            EventModel::LogRead { log_error, tail } => {
                let suspects = with_evidence(s, log_error, tail).suspects;
                lemma_records(suspects, targeted_reason(), now);
            },
            EventModel::QuarantineListed(ids) => {
                let rest = not_listed(s.deps.items, ids);
                lemma_records(rest, safe_reason(), now);
                if ids.len() == 0 {
                    assert(rest.last().kind == "plugin"@);
                    assert(rest[rest.len() - 1].kind == "plugin"@);
                }
            },
            _ => {},
        }
    }
}

proof fn lemma_records(suspects: Seq<SuspectModel>, reason: Seq<char>, at: u64)
    ensures
        incident::records_for(suspects, reason, at).len() > 0 <==> runtime::some_kind(
            suspects,
            "plugin"@,
        ),
    decreases suspects.len(),
{
    if suspects.len() > 0 {
        let rest = suspects.drop_last();
        lemma_records(rest, reason, at);
        assert(suspects.last() == suspects[suspects.len() - 1]);
        if runtime::some_kind(rest, "plugin"@) {
            let k = choose|k: int| 0 <= k < rest.len() && (#[trigger] rest[k]).kind == "plugin"@;
            assert(suspects[k].kind == "plugin"@);
        }
        if runtime::some_kind(suspects, "plugin"@) && suspects.last().kind != "plugin"@ {
            let k = choose|k: int|
                0 <= k < suspects.len() && (#[trigger] suspects[k]).kind == "plugin"@;
            assert(rest[k].kind == "plugin"@);
        }
    }
}

/// The records hold this id.
pub open spec fn records_name(records: Seq<QuarantineModel>, id: Seq<char>) -> bool {
    exists|k: int| 0 <= k < records.len() && (#[trigger] records[k]).id == id
}

proof fn lemma_not_listed(items: Seq<PluginModel>, ids: Seq<Seq<char>>)
    ensures
        forall|i: int|
            0 <= i < items.len() ==> ids.contains((#[trigger] items[i]).id) || incident::blames(
                not_listed(items, ids),
                items[i].id,
            ),
        forall|k: int|
            #![trigger not_listed(items, ids)[k]]
            0 <= k < not_listed(items, ids).len() ==> not_listed(items, ids)[k].kind == "plugin"@
                && !ids.contains(not_listed(items, ids)[k].id) && exists|i: int|
                0 <= i < items.len() && (#[trigger] items[i]).id == not_listed(items, ids)[k].id
                    && items[i].name == not_listed(items, ids)[k].name,
    decreases items.len(),
{
    if items.len() > 0 {
        let init = items.drop_last();
        let last = items.len() - 1;
        lemma_not_listed(init, ids);
        let before = not_listed(init, ids);
        let out = not_listed(items, ids);
        assert forall|i: int| 0 <= i < items.len() implies ids.contains((#[trigger] items[i]).id)
            || incident::blames(out, items[i].id) by {
            if i < last {
                assert(init[i] == items[i]);
                if incident::blames(before, items[i].id) {
                    let k = choose|k: int|
                        0 <= k < before.len() && (#[trigger] before[k]).id == items[i].id;
                    assert(out[k].id == items[i].id);
                }
            } else if !ids.contains(items[i].id) {
                assert(out[out.len() - 1].id == items[i].id);
            }
        }
        assert forall|k: int| 0 <= k < out.len() implies (#[trigger] out[k]).kind == "plugin"@
            && !ids.contains(out[k].id) && exists|i: int|
            0 <= i < items.len() && (#[trigger] items[i]).id == out[k].id && items[i].name
                == out[k].name by {
            if k < before.len() {
                assert(out[k] == before[k]);
                let i = choose|i: int|
                    0 <= i < init.len() && (#[trigger] init[i]).id == before[k].id && init[i].name
                        == before[k].name;
                assert(items[i] == init[i]);
            } else {
                assert(items[last].id == out[k].id);
            }
        }
    }
}

/// Safe mode switches off every third-party plugin: whatever ids are
/// quarantined by then, each store plugin is among them or gets a record; and
/// the records are those of store plugins that were not quarantined, made now.
pub proof fn law_safe_mode_covers_every_plugin(s: LadderModel, ids: Seq<Seq<char>>, now: u64)
    requires
        s.stage == Stage::SafeIds,
    ensures
        next(s, EventModel::QuarantineListed(ids), now).1.action matches ActionModel::Quarantine(
            records,
        ) && {
            &&& forall|i: int|
                0 <= i < s.deps.items.len() ==> ids.contains((#[trigger] s.deps.items[i]).id)
                    || records_name(records, s.deps.items[i].id)
            &&& forall|k: int|
                0 <= k < records.len() ==> !ids.contains((#[trigger] records[k]).id)
                    && records[k].at == now && exists|i: int|
                    0 <= i < s.deps.items.len() && (#[trigger] s.deps.items[i]).id == records[k].id
                        && s.deps.items[i].name == records[k].name
        },
{
    let rest = not_listed(s.deps.items, ids);
    let records = incident::records_for(rest, safe_reason(), now);
    let items = s.deps.items;
    lemma_not_listed(items, ids);
    incident::law_plugins_get_their_records(rest, safe_reason(), now);
    assert forall|i: int| 0 <= i < items.len() implies ids.contains((#[trigger] items[i]).id)
        || records_name(records, items[i].id) by {
        if !ids.contains(items[i].id) {
            let k = choose|k: int| 0 <= k < rest.len() && (#[trigger] rest[k]).id == items[i].id;
            assert(rest[k].kind == "plugin"@);
            let m = choose|m: int|
                0 <= m < records.len() && (#[trigger] records[m]).id == rest[k].id
                    && records[m].evidence == rest[k].evidence && records[m].name == rest[k].name;
            assert(records[m].id == items[i].id);
        }
    }
    assert forall|k: int| 0 <= k < records.len() implies !ids.contains((#[trigger] records[k]).id)
        && records[k].at == now && exists|i: int|
        0 <= i < items.len() && (#[trigger] items[i]).id == records[k].id && items[i].name
            == records[k].name by {
        let j = choose|j: int|
            0 <= j < rest.len() && (#[trigger] rest[j]).kind == "plugin"@ && rest[j].id
                == records[k].id && rest[j].name == records[k].name && rest[j].evidence
                == records[k].evidence;
        assert(!ids.contains(rest[j].id));
    }
}

/// The ids that the quarantine holds once `event` has answered `action`: the
/// records that were written are added, and giving up puts back what it held
/// before the start.
pub open spec fn held_next(
    held: Set<Seq<char>>,
    prior: Set<Seq<char>>,
    action: ActionModel,
    event: EventModel,
) -> Set<Seq<char>> {
    match (action, event) {
        (ActionModel::Quarantine(records), EventModel::Quarantined(true)) => Set::new(
            |id: Seq<char>| held.contains(id) || records_name(records, id),
        ),
        (ActionModel::Restore { wiring }, EventModel::Restored { error, installed }) => prior,
        _ => held,
    }
}

/// The ids that the quarantine holds after a run of events.
pub open spec fn held_after(prior: Set<Seq<char>>, deps: DepsModel, run: Seq<Input>) -> Set<
    Seq<char>,
>
    decreases run.len(),
{
    if run.len() == 0 {
        prior
    } else {
        held_next(
            held_after(prior, deps, run.drop_last()),
            prior,
            action_after(deps, run.drop_last()),
            run.last().event,
        )
    }
}

/// The ids that the run was told of are those that the quarantine holds.
pub open spec fn listed_truly(prior: Set<Seq<char>>, deps: DepsModel, run: Seq<Input>) -> bool
    decreases run.len(),
{
    run.len() == 0 || (listed_truly(prior, deps, run.drop_last()) && (
    run.last().event matches EventModel::QuarantineListed(ids) ==> forall|id: Seq<char>|
        ids.contains(id) <==> held_after(prior, deps, run.drop_last()).contains(id)))
}

/// The third attempt runs without any third-party plugin: when it is made, the
/// quarantine holds every plugin of the store. The second runs without each
/// plugin that the log of the first points at.
pub proof fn law_attempts_run_without_suspects(
    prior: Set<Seq<char>>,
    deps: DepsModel,
    run: Seq<Input>,
)
    requires
        legal(deps, run),
        listed_truly(prior, deps, run),
    ensures
        state_after(deps, run).stage == Stage::SafeBoot ==> forall|i: int|
            0 <= i < deps.items.len() ==> held_after(prior, deps, run).contains(
                (#[trigger] deps.items[i]).id,
            ),
        state_after(deps, run).stage == Stage::TargetedBoot ==> run.len() >= 2 && (
        run[1].event matches EventModel::LogRead { log_error, tail } && forall|k: int|
            0 <= k < attribution::attribution(tail, deps.items, deps.label).len() && (
            #[trigger] attribution::attribution(tail, deps.items, deps.label)[k]).kind
                == "plugin"@ ==> held_after(prior, deps, run).contains(
                attribution::attribution(tail, deps.items, deps.label)[k].id,
            )),
{
    lemma_held(prior, deps, run);
}

/// What the quarantine holds while a start is under way.
proof fn lemma_held(prior: Set<Seq<char>>, deps: DepsModel, run: Seq<Input>)
    requires
        legal(deps, run),
        listed_truly(prior, deps, run),
    ensures
        ({
            let s = state_after(deps, run);
            let held = held_after(prior, deps, run);
            let action = action_after(deps, run);
            &&& s.deps == deps
            &&& rank(s.stage) <= 2 ==> held == prior
            &&& s.stage == Stage::Closed && !(action is Finish && (
            action->Finish_0).running) ==> held == prior
            &&& s.stage == Stage::Closed && action is Finish && (
            action->Finish_0).incident is None ==> held == prior
            &&& s.stage == Stage::Closed ==> action is Finish
            &&& s.stage == Stage::SafeWrite ==> (action matches ActionModel::Quarantine(records)
                && forall|i: int|
                0 <= i < deps.items.len() ==> held.contains((#[trigger] deps.items[i]).id)
                    || records_name(records, deps.items[i].id))
            &&& s.stage == Stage::SafeWiring || s.stage == Stage::SafeBoot ==> forall|i: int|
                0 <= i < deps.items.len() ==> held.contains((#[trigger] deps.items[i]).id)
            &&& s.stage == Stage::TargetedWrite ==> (action matches ActionModel::Quarantine(records)
                && forall|k: int|
                0 <= k < s.suspects.len() && (#[trigger] s.suspects[k]).kind == "plugin"@
                    ==> records_name(records, s.suspects[k].id))
            &&& s.stage == Stage::TargetedWiring || s.stage == Stage::TargetedBoot ==> forall|k: int|
                0 <= k < s.suspects.len() && (#[trigger] s.suspects[k]).kind == "plugin"@
                    ==> held.contains(s.suspects[k].id)
            &&& rank(s.stage) == 0 ==> run.len() == 0
            &&& rank(s.stage) == 1 ==> run.len() == 1
            &&& 2 <= rank(s.stage) <= 4 ==> run.len() >= 2 && (
            run[1].event matches EventModel::LogRead { log_error, tail } && s.suspects
                == attribution::attribution(tail, deps.items, deps.label) && s.tail == tail)
        }),
    decreases run.len(),
{
    if run.len() > 0 {
        let before = run.drop_last();
        lemma_held(prior, deps, before);
        lemma_sound(deps, before);
        let s = state_after(deps, before);
        let t = state_after(deps, run);
        let now = run.last().now;
        assert(awaited(s.stage, run.last().event));
        if run.len() >= 2 {
            assert(before[0] == run[0]);
            if run.len() >= 3 {
                assert(before[1] == run[1]);
            } else {
                assert(run.last() == run[1]);
            }
        }
        match run.last().event {
            EventModel::QuarantineListed(ids) => {
                law_safe_mode_covers_every_plugin(s, ids, now);
            },
            EventModel::LogRead { log_error, tail } => {
                let suspects = t.suspects;
                incident::law_plugins_get_their_records(suspects, targeted_reason(), now);
                if t.stage == Stage::TargetedWrite {
                    let records = incident::records_for(suspects, targeted_reason(), now);
                    assert forall|k: int|
                        0 <= k < suspects.len() && (#[trigger] suspects[k]).kind == "plugin"@
                            implies records_name(records, suspects[k].id) by {
                        let m = choose|m: int|
                            0 <= m < records.len() && (#[trigger] records[m]).id == suspects[k].id
                                && records[m].evidence == suspects[k].evidence && records[m].name
                                == suspects[k].name;
                        assert(records[m].id == suspects[k].id);
                    }
                }
            },
            EventModel::Restored { error, installed } => {
                lemma_restore_stage(deps, before);
            },
            _ => {},
        }
    }
}

/// A start that works as wired, or that fails for good, leaves the quarantine
/// as it was before. One that recovers by safe mode leaves every plugin of the
/// store in it.
pub proof fn law_quarantine_is_left_as_the_start_ends(
    prior: Set<Seq<char>>,
    deps: DepsModel,
    run: Seq<Input>,
)
    requires
        legal(deps, run),
        listed_truly(prior, deps, run),
        action_after(deps, run) is Finish,
    ensures
        ({
            let report = action_after(deps, run)->Finish_0;
            &&& !report.running || report.incident is None ==> held_after(prior, deps, run) == prior
            &&& state_after(deps, run.drop_last()).stage == Stage::SafeBoot ==> forall|i: int|
                0 <= i < deps.items.len() ==> held_after(prior, deps, run).contains(
                    (#[trigger] deps.items[i]).id,
                )
        }),
{
    lemma_held(prior, deps, run);
    lemma_held(prior, deps, run.drop_last());
    assert(run.len() > 0);
    assert(state_after(deps, run).stage == Stage::Closed);
}

/// A kernel that serves ends the start, running, whichever attempt it was; one
/// that does not serve never ends it at once, and after the third attempt what
/// was there before is put back.
pub proof fn law_a_start_ends_when_the_kernel_serves(s: LadderModel, v: VerdictModel, now: u64)
    requires
        awaited(s.stage, EventModel::Booted(v)),
    ensures
        ({
            let (t, m) = next(s, EventModel::Booted(v), now);
            &&& v is Ready <==> m.action is Finish
            &&& m.action matches ActionModel::Finish(report) ==> report.running && report.port
                == s.deps.port && t.stage == Stage::Closed
            &&& !(v is Ready) && s.stage == Stage::SafeBoot ==> m.action is Restore
            &&& !(v is Ready) && s.stage != Stage::SafeBoot ==> m.action is ReadLog
        }),
{
}

/// What was seen of the first attempt goes into the incident: its log, where
/// the log lies, the time, and what was tried, in order. Nothing that was noted
/// is forgotten.
pub proof fn law_incidents_tell_what_was_tried(deps: DepsModel, run: Seq<Input>)
    requires
        legal(deps, run),
        run.len() > 0,
    ensures
        state_after(deps, run.drop_last()).trail.is_prefix_of(state_after(deps, run).trail),
        action_after(deps, run) matches ActionModel::Finish(report) ==> (
        report.incident matches Some(i) ==> {
            &&& i.attempts == state_after(deps, run).trail
            &&& i.attempts.len() > 0
            &&& i.log_path == deps.log_path
            &&& i.at == run.last().now
            &&& i.health is None
            &&& run.len() >= 2
            &&& run[1].event matches EventModel::LogRead { log_error, tail } && i.log_tail == tail
        }),
{
    lemma_tail(deps, run);
    lemma_tail(deps, run.drop_last());
    lemma_sound(deps, run);
    let s = state_after(deps, run.drop_last());
    let t = state_after(deps, run);
    assert(awaited(s.stage, run.last().event));
    if run.len() >= 3 {
        assert(run.drop_last()[1] == run[1]);
    }
    assert(t.trail.len() >= s.trail.len());
    assert(s.trail =~= t.trail.take(s.trail.len() as int));
}

proof fn lemma_tail(deps: DepsModel, run: Seq<Input>)
    requires
        legal(deps, run),
    ensures
        state_after(deps, run).deps == deps,
        rank(state_after(deps, run).stage) == 0 ==> run.len() == 0,
        rank(state_after(deps, run).stage) == 1 ==> run.len() == 1,
        1 <= rank(state_after(deps, run).stage) <= 10 ==> state_after(deps, run).trail.len() > 0,
        2 <= rank(state_after(deps, run).stage) <= 10 ==> run.len() >= 2 && (
        run[1].event matches EventModel::LogRead { log_error, tail } && state_after(deps, run).tail
            == tail),
    decreases run.len(),
{
    if run.len() > 0 {
        let before = run.drop_last();
        lemma_tail(deps, before);
        assert(awaited(state_after(deps, before).stage, run.last().event));
        if run.len() >= 3 {
            assert(before[1] == run[1]);
        } else if run.len() == 2 {
            assert(run.last() == run[1]);
        }
    }
}

/// A start is given up only where plugins cannot be at fault, where there are
/// none, where the records could not be written, or where safe mode failed too.
pub proof fn law_safe_mode_is_tried_before_giving_up(deps: DepsModel, run: Seq<Input>)
    requires
        legal(deps, run),
        action_after(deps, run) is Restore,
    ensures
        ({
            let s = state_after(deps, run);
            let event = run.last().event;
            ||| !s.kernel_started
            ||| s.env_marker is Some
            ||| deps.items.len() == 0
            ||| event == EventModel::Quarantined(false)
            ||| event is Booted && state_after(deps, run.drop_last()).stage == Stage::SafeBoot
        }),
{
    lemma_tail(deps, run.drop_last());
}

/// The incident of safe mode lists the plugins of the store, as many as the
/// panel shows, each with the evidence of the first suspect of its id.
pub proof fn law_safe_mode_lists_the_store(s: LadderModel, now: u64, i: int)
    requires
        s.stage == Stage::SafeBoot,
        0 <= i < s.deps.items.len(),
        i < 8,
    ensures
        next(s, EventModel::Booted(VerdictModel::Ready), now).1.action matches ActionModel::Finish(
            report,
        ) && report.safe_mode && (report.incident matches Some(told) && told.safe_mode
            && told.suspects.len() == (if s.deps.items.len() < 8 {
            s.deps.items.len()
        } else {
            8
        }) && told.suspects[i].id == s.deps.items[i].id && told.suspects[i].name
            == s.deps.items[i].name && told.suspects[i].kind == "plugin"@ && (forall|k: int|
            0 <= k < s.suspects.len() && (#[trigger] s.suspects[k]).id == s.deps.items[i].id && (
            forall|j: int| 0 <= j < k ==> (#[trigger] s.suspects[j]).id != s.deps.items[i].id)
                ==> told.suspects[i].evidence == s.suspects[k].evidence)),
{
    let id = s.deps.items[i].id;
    assert forall|k: int|
        0 <= k < s.suspects.len() && (#[trigger] s.suspects[k]).id == id && (forall|j: int|
            0 <= j < k ==> (#[trigger] s.suspects[j]).id != id) implies evidence_from(
        s.suspects,
        id,
        0,
    ) == s.suspects[k].evidence by {
        lemma_first_evidence(s.suspects, id, 0, k);
    }
}

proof fn lemma_first_evidence(suspects: Seq<SuspectModel>, id: Seq<char>, from: int, k: int)
    requires
        0 <= from <= k < suspects.len(),
        suspects[k].id == id,
        forall|j: int| from <= j < k ==> (#[trigger] suspects[j]).id != id,
    ensures
        evidence_from(suspects, id, from) == suspects[k].evidence,
    decreases k - from,
{
    if from < k {
        lemma_first_evidence(suspects, id, from + 1, k);
    }
}

/// The incident of a start that failed for good names each suspect of either
/// attempt once and takes back nothing of what was found; it blames the kernel
/// where a suspect is the kernel, never the plugins, and always says what to do
/// next.
pub proof fn law_failures_name_their_suspects(
    s: LadderModel,
    error: Option<Seq<char>>,
    installed: nat,
    now: u64,
)
    requires
        s.stage == Stage::Restore,
    ensures
        next(s, EventModel::Restored { error, installed }, now).1.action matches ActionModel::Finish(
            report,
        ) && !report.running && report.safe_mode == s.deps.prior_quarantine && (
        report.incident matches Some(i) && {
            &&& !i.recovered
            &&& incident::distinct_ids(i.suspects)
            &&& forall|id: Seq<char>| incident::blames(i.suspects, id) == incident::blames(
                s.suspects,
                id,
            )
            &&& i.hint is Some
            &&& s.kernel_started && s.env_marker is None ==> i.cause == (if exists|k: int|
                0 <= k < s.suspects.len() && (#[trigger] s.suspects[k]).kind == "kernel"@ {
                "kernel"@
            } else {
                "unknown"@
            })
            &&& !(s.kernel_started && s.env_marker is None) ==> i.cause == "env"@
        }),
{
    incident::law_dedup_keeps_each_id_once(s.suspects);
}

/// The verdict on an attempt: ready exactly where the port was answered, by
/// this kernel or another; no process exactly where none could be spawned; hung
/// exactly where the deadline passed.
pub proof fn law_verdicts_tell_what_was_met(outcome: BootOutcome)
    ensures
        boot_verdict(outcome).0 is Ready <==> outcome is AlreadyServing || outcome
            == BootOutcome::Watched(WatchVerdict::Ready),
        boot_verdict(outcome).0 is SpawnFailed <==> outcome is Refused,
        boot_verdict(outcome).0 is Hung <==> outcome == BootOutcome::Watched(WatchVerdict::Hung),
        outcome matches BootOutcome::Refused(why) ==> text::ends(
            reason_text(boot_verdict(outcome).0),
            why@,
        ),
{
    if let BootOutcome::Refused(why) = outcome {
        assert(why@.subrange(0, why@.len() as int) =~= why@);
    }
}

/// The suspects are gathered from the logs: those of the first log where plugins
/// may be at fault, and to them those of the second. A log that could not be
/// written in full is told of.
pub proof fn law_suspects_are_gathered(
    s: LadderModel,
    log_error: Option<Seq<char>>,
    tail: Seq<char>,
    now: u64,
)
    ensures
        ({
            let event = EventModel::LogRead { log_error, tail };
            let t = next(s, event, now).0;
            let found = attribution::attribution(tail, s.deps.items, s.deps.label);
            &&& s.stage == Stage::Evidence ==> t.tail == tail && t.env_marker
                == attribution::env_failure(tail)
            &&& s.stage == Stage::Evidence && s.kernel_started && attribution::env_failure(
                tail,
            ) is None ==> t.suspects == found
            &&& s.stage == Stage::TargetedEvidence ==> t.suspects == s.suspects + found
            &&& s.stage == Stage::Evidence && log_error is Some ==> s.trail.len() < t.trail.len()
                && text::begins(t.trail[s.trail.len() as int], log_error->0)
        }),
{
    if s.stage == Stage::Evidence && log_error is Some {
        let e = log_error->0;
        let line = e + "（本次日志可能不完整）"@;
        assert(line.subrange(0, e.len() as int) =~= e);
        let t = next(s, EventModel::LogRead { log_error, tail }, now).0;
        assert(t.trail[s.trail.len() as int] == line);
    }
}

/// A start that works without the suspects tells of them: all of them, with what
/// they were blamed for, and that they were taken out.
pub proof fn law_recovery_names_the_suspects(s: LadderModel, now: u64)
    requires
        s.stage == Stage::TargetedBoot,
    ensures
        next(s, EventModel::Booted(VerdictModel::Ready), now).1.action matches ActionModel::Finish(
            report,
        ) && (report.incident matches Some(i) && i.suspects == s.suspects && i.recovered && i.cause
            == "plugin"@ && i.hint is None && i.log_tail == s.tail),
{
}

/// What went wrong with an attempt is noted, and so is how the wiring went.
pub proof fn law_failures_are_noted(s: LadderModel, v: VerdictModel, why: Seq<char>, now: u64)
    requires
        awaited(s.stage, EventModel::Booted(v)),
        v == VerdictModel::Failed(why) || v == VerdictModel::SpawnFailed(why),
    ensures
        ({
            let t = next(s, EventModel::Booted(v), now).0;
            s.trail.len() < t.trail.len() && text::ends(t.trail[s.trail.len() as int], why)
        }),
        s.stage == Stage::Boot ==> next(s, EventModel::Booted(v), now).0.kernel_started == (v is Failed),
{
    let t = next(s, EventModel::Booted(v), now).0;
    let head = match s.stage {
        Stage::Boot => "常规启动失败："@,
        Stage::TargetedBoot => "停用疑似插件后仍失败："@,
        _ => "安全模式下仍失败："@,
    };
    let line = head + why;
    assert(t.trail[s.trail.len() as int] == line);
    assert(line.subrange(head.len() as int, line.len() as int) =~= why);
}

/// A wiring that failed is noted with its error, at either attempt and when what
/// was there before is put back; one that worked is noted with its count.
pub proof fn law_wiring_is_noted(
    s: LadderModel,
    outcome: Result<(nat, bool), Seq<char>>,
    error: Seq<char>,
    installed: nat,
    now: u64,
)
    ensures
        s.stage == Stage::TargetedWiring || s.stage == Stage::SafeWiring ==> {
            let t = next(s, EventModel::Rewired(outcome), now);
            &&& t.1.action is Boot
            &&& t.0.trail.len() == s.trail.len() + 1
            &&& outcome matches Err(e) ==> text::ends(t.0.trail.last(), e)
            &&& outcome matches Ok((n, _)) ==> text::has(t.0.trail.last(), text::decimal_text(n))
        },
        s.stage == Stage::Restore && s.quarantined ==> text::ends(
            next(s, EventModel::Restored { error: Some(error), installed }, now).0.trail.last(),
            error,
        ),
{
    match outcome {
        Ok((n, changed)) => {
            let a = "已按屏蔽清单重新接线（"@;
            let d = text::decimal_text(n);
            let line = wiring_line(outcome);
            assert(line.subrange(a.len() as int, (a.len() + d.len()) as int) =~= d);
            assert(text::occurs_at(line, d, a.len() as int));
        },
        Err(e) => {
            let a = "重新接线失败："@;
            let line = wiring_line(outcome);
            assert(line.subrange(a.len() as int, line.len() as int) =~= e);
        },
    }
    let a = "恢复原接线失败："@;
    let line = a + error;
    assert(line.subrange(a.len() as int, line.len() as int) =~= error);
}

/// Where another version could be switched to, because the kernel is blamed or
/// another one is installed, the next step says so; a failure of the environment
/// has a next step of its own.
pub proof fn law_failures_say_what_to_do(
    s: LadderModel,
    error: Option<Seq<char>>,
    installed: nat,
    now: u64,
)
    requires
        s.stage == Stage::Restore,
        s.kernel_started,
        s.env_marker is None,
    ensures
        next(s, EventModel::Restored { error, installed }, now).1.action matches ActionModel::Finish(
            report,
        ) && (report.incident matches Some(i) && (i.hint matches Some(hint) && ((installed > 1
            || exists|k: int|
            0 <= k < s.suspects.len() && (#[trigger] s.suspects[k]).kind == "kernel"@)
            ==> text::begins(hint, "也可先尝试在「内核版本」页切换到其他已安装版本。"@)))),
{
    let a = "也可先尝试在「内核版本」页切换到其他已安装版本。"@;
    let hint = a + plain_hint();
    assert(hint.subrange(0, a.len() as int) =~= a);
    if exists|k: int|
        0 <= k < s.suspects.len() && (#[trigger] s.suspects[k]).kind == "kernel"@ {
        assert(runtime::some_kind(s.suspects, "kernel"@));
    }
}

/// A kernel that hangs is said to have been waited for thirty seconds.
pub proof fn law_the_deadline_is_told()
    ensures
        text::has(reason_text(VerdictModel::Hung), text::decimal_text(30)),
{
    let a = "等待内核就绪超时（"@;
    let d = text::decimal_text(30);
    let r = reason_text(VerdictModel::Hung);
    assert(r.subrange(a.len() as int, (a.len() + d.len()) as int) =~= d);
    assert(text::occurs_at(r, d, a.len() as int));
}

/// A kernel whose port answers is ready, whatever else is seen; one that ended
/// is told with how it ended; only one that neither answers nor ended by the
/// deadline hangs, and before that it is watched on.
pub proof fn law_an_answering_port_is_ready(exited: Option<String>, past_deadline: bool)
    ensures
        seen(true, exited, past_deadline) == Some(WatchVerdict::Ready),
        exited matches Some(status) ==> seen(false, exited, past_deadline) == Some(
            WatchVerdict::Exited(status),
        ),
        exited is None ==> seen(false, exited, true) == Some(WatchVerdict::Hung),
        exited is None ==> seen(false, exited, false) is None,
{
}

} // verus!
