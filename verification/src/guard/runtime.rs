//! Diagnosis of a health report that a loaded workbench page sends.

use crate::guard::attribution;
use crate::guard::incident;
use crate::guard::incident::{
    HealthModel, HealthReport, Incident, IncidentModel, Suspect, SuspectModel, MAX_SUSPECTS,
};
use crate::plugins;
use crate::plugins::{PluginModel, StoreItem};
use crate::quarantine;
use crate::quarantine::{QuarantineItem, QuarantineModel};
use crate::text;
use vstd::prelude::*;

verus! {

// ------------------------------------------------------------------ evidence

/// The stack lines of a report that are not blank, marked as error lines of
/// the page.
pub open spec fn stack_evidence(lines: Seq<Seq<char>>) -> Seq<Seq<char>>
    decreases lines.len(),
{
    if lines.len() == 0 {
        Seq::empty()
    } else {
        let before = stack_evidence(lines.drop_last());
        let line = text::trim_text(lines.last());
        if line.len() == 0 {
            before
        } else {
            before.push("Error: "@ + "前端堆栈："@ + line)
        }
    }
}

/// `label` and the trimmed `value` as one line, or nothing where it is blank.
pub open spec fn labelled(label: Seq<char>, value: Seq<char>) -> Seq<Seq<char>> {
    if text::trim_text(value).len() == 0 {
        Seq::empty()
    } else {
        seq![label + text::trim_text(value)]
    }
}

/// The report and the log as one text of error lines.
pub open spec fn evidence_text(report: HealthModel, kernel_tail: Seq<char>) -> Seq<char> {
    text::join_text(
        labelled("Error: 工作台自检类型："@, report.kind) + labelled(
            "Error: 工作台前端错误："@,
            report.message,
        ) + stack_evidence(text::lines_text(report.stack)) + labelled(
            "Error: 工作台页面地址："@,
            report.page_url,
        ) + if kernel_tail.len() == 0 {
            Seq::empty()
        } else {
            seq![kernel_tail]
        },
        "\n"@,
    )
}

fn push_labelled(out: &mut Vec<String>, label: &str, value: &str)
    ensures
        text::texts(final(out)@) == text::texts(old(out)@) + labelled(label@, value@),
{
    let v = text::trim(value);
    if !v.as_str().is_empty() {
        let line = text::cat2(label, v.as_str());
        proof {
            assert(text::texts(out@.push(line)) =~= text::texts(out@) + seq![line@]);
        }
        out.push(line);
    } else {
        proof {
            assert(text::texts(out@) + Seq::<Seq<char>>::empty() =~= text::texts(out@));
        }
    }
}

/// Puts a health report into the shape of log lines, in front of the kernel
/// log, so that attribution can read both.
pub fn runtime_evidence(report: &HealthReport, kernel_tail: &str) -> (r: String)
    ensures
        r@ == evidence_text(report@, kernel_tail@),
{
    let mut out: Vec<String> = Vec::new();
    push_labelled(&mut out, "Error: 工作台自检类型：", report.kind.as_str());
    push_labelled(&mut out, "Error: 工作台前端错误：", report.message.as_str());
    let stack = text::lines(report.stack.as_str());
    let ghost head = text::texts(out@);
    let ghost all = text::lines_text(report.stack@);
    let mut i: usize = 0;
    proof {
        assert(all.take(0) =~= Seq::<Seq<char>>::empty());
        assert(head + Seq::<Seq<char>>::empty() =~= head);
        assert(head =~= labelled("Error: 工作台自检类型："@, report.kind@) + labelled(
            "Error: 工作台前端错误："@,
            report.message@,
        ));
    }
    while i < stack.len()
        invariant
            i <= stack.len(),
            text::texts(stack@) == all,
            text::texts(out@) == head + stack_evidence(all.take(i as int)),
        decreases stack.len() - i,
    {
        let line = text::trim(stack[i].as_str());
        proof {
            let next = all.take(i + 1);
            assert(next.drop_last() =~= all.take(i as int));
            assert(next.last() == stack@[i as int]@);
        }
        if !line.as_str().is_empty() {
            let entry = text::cat3("Error: ", "前端堆栈：", line.as_str());
            proof {
                assert(text::texts(out@.push(entry)) =~= text::texts(out@).push(entry@));
                assert(head + stack_evidence(all.take(i as int)).push(entry@) =~= (head
                    + stack_evidence(all.take(i as int))).push(entry@));
            }
            out.push(entry);
        }
        i = i + 1;
    }
    proof {
        assert(all.take(all.len() as int) =~= all);
    }
    push_labelled(&mut out, "Error: 工作台页面地址：", report.page_url.as_str());
    let ghost so_far = text::texts(out@);
    if !kernel_tail.is_empty() {
        let entry = text::owned(kernel_tail);
        proof {
            assert(text::texts(out@.push(entry)) =~= so_far + seq![entry@]);
        }
        out.push(entry);
    } else {
        proof {
            assert(so_far + Seq::<Seq<char>>::empty() =~= so_far);
        }
    }
    text::join(&out, "\n")
}

/// A line of a page's stack whose frame lies in a client-module bundle.
pub open spec fn bundle_frame(line: Seq<char>) -> bool {
    text::has(line, "前端堆栈："@) && text::has(line, "/plugins/"@)
}

/// Some stack frame of the page lies in a client-module bundle.
pub open spec fn bundle_frames(evidence: Seq<char>) -> bool {
    exists|k: int|
        0 <= k < text::lines_text(evidence).len() && bundle_frame(#[trigger] text::lines_text(evidence)[k])
}

/// Whether some stack frame of the page lies in a client-module bundle. Access
/// lines of the kernel log name the same route, but only stack lines count.
pub fn has_client_bundle_frames(evidence: &str) -> (r: bool)
    ensures
        r == bundle_frames(evidence@),
{
    let all = text::lines(evidence);
    let mut i: usize = 0;
    while i < all.len()
        invariant
            i <= all.len(),
            text::texts(all@) == text::lines_text(evidence@),
            forall|k: int| 0 <= k < i ==> !bundle_frame(#[trigger] text::lines_text(evidence@)[k]),
        decreases all.len() - i,
    {
        proof {
            assert(text::texts(all@)[i as int] == all@[i as int]@);
        }
        if text::contains(all[i].as_str(), "前端堆栈：") && text::contains(all[i].as_str(), "/plugins/") {
            proof {
                assert(bundle_frame(text::lines_text(evidence@)[i as int]));
            }
            return true;
        }
        i = i + 1;
    }
    false
}

/// Some line of `log` reads like a failed HTTP access.
pub open spec fn http_failures(log: Seq<char>) -> bool {
    exists|k: int|
        0 <= k < text::lines_text(log).len() && attribution::http_failure(#[trigger] text::lines_text(log)[k])
}

/// Whether some line of a log reads like a failed HTTP access.
pub fn log_has_http_failure(tail: &str) -> (r: bool)
    ensures
        r == http_failures(tail@),
{
    let all = text::lines(tail);
    let mut i: usize = 0;
    while i < all.len()
        invariant
            i <= all.len(),
            text::texts(all@) == text::lines_text(tail@),
            forall|k: int| 0 <= k < i ==> !attribution::http_failure(#[trigger] text::lines_text(tail@)[k]),
        decreases all.len() - i,
    {
        proof {
            assert(text::texts(all@)[i as int] == all@[i as int]@);
        }
        if attribution::is_http_failure(all[i].as_str()) {
            proof {
                assert(attribution::http_failure(text::lines_text(tail@)[i as int]));
            }
            return true;
        }
        i = i + 1;
    }
    false
}

// ------------------------------------------------------------------- wording

/// The message for a page error that lies in a client bundle without a
/// package name.
pub open spec fn bundle_message() -> Seq<char> {
    "工作台页面抛出了一个未处理的前端异常，异常来自内核服务的客户端模块 bundle（/plugins/），但证据里没有包名，无法区分内核内置组件与第三方插件；工作台本身仍在运行。"@
}

/// The next step for such an error.
pub open spec fn bundle_hint() -> Seq<char> {
    "请用「打开日志」查看内核侧记录，并把上方自检证据里的「消息」一并反馈（它指出具体是哪段代码或哪条数据不合法）；若该提示反复出现，可先在插件页停用第三方插件后重启验证，再到内核版本页切换其他版本。"@
}

/// The message and the next step for a page error in a client bundle: it says
/// what the evidence supports and that the page still runs.
pub fn frontend_bundle_wording() -> (r: (String, String))
    ensures
        r.0@ == bundle_message(),
        r.1@ == bundle_hint(),
{
    (
        text::owned(
            "工作台页面抛出了一个未处理的前端异常，异常来自内核服务的客户端模块 bundle（/plugins/），但证据里没有包名，无法区分内核内置组件与第三方插件；工作台本身仍在运行。",
        ),
        text::owned(
            "请用「打开日志」查看内核侧记录，并把上方自检证据里的「消息」一并反馈（它指出具体是哪段代码或哪条数据不合法）；若该提示反复出现，可先在插件页停用第三方插件后重启验证，再到内核版本页切换其他版本。",
        ),
    )
}

/// A stored incident that the bundle rule applies to: without a cause, without
/// suspects, and with a page report whose stack lies in a client bundle.
pub open spec fn bundle_case(i: IncidentModel) -> bool {
    &&& i.cause == "unknown"@
    &&& i.suspects.len() == 0
    &&& i.health is Some
    &&& bundle_frames(evidence_text(i.health->0, Seq::empty()))
}

/// The incident as the current rules word it.
pub open spec fn reclassified(i: IncidentModel) -> IncidentModel {
    if bundle_case(i) {
        IncidentModel {
            cause: "frontend"@,
            message: bundle_message(),
            hint: Some(bundle_hint()),
            ..i
        }
    } else {
        i
    }
}

/// Judges a stored incident again by the client-bundle rule. Only the cause,
/// the message and the hint change: the suspects, the attempts and the log are
/// the record of the time.
pub fn reclassify_frontend_bundle_incident(incident: &mut Incident)
    ensures
        final(incident)@ == reclassified(old(incident)@),
{
    if !text::same(incident.cause.as_str(), "unknown") || !incident.suspects.is_empty() {
        return;
    }
    let framed = match &incident.health {
        Some(h) => {
            let evidence = runtime_evidence(h, "");
            proof {
                reveal_strlit("");
                assert(""@ =~= Seq::<char>::empty());
            }
            has_client_bundle_frames(evidence.as_str())
        },
        None => false,
    };
    if framed {
        let (message, hint) = frontend_bundle_wording();
        incident.cause = text::owned("frontend");
        incident.message = message;
        incident.hint = Some(hint);
    }
}

/// The incident that a store of incidents gives back: as read, judged again.
pub fn load_incident(stored: Option<Incident>) -> (r: Option<Incident>)
    ensures
        match (stored, r) {
            (Some(s), Some(i)) => i@ == reclassified(s@),
            (None, None) => true,
            _ => false,
        },
{
    match stored {
        Some(s) => {
            let mut i = s;
            reclassify_frontend_bundle_incident(&mut i);
            Some(i)
        },
        None => None,
    }
}

/// Judging twice is judging once.
pub proof fn law_reclassification_is_idempotent(i: IncidentModel)
    ensures
        reclassified(reclassified(i)) == reclassified(i),
{
    reveal_strlit("frontend");
    reveal_strlit("unknown");
    assert("frontend"@.len() != "unknown"@.len());
}

/// Judging again never touches the record of what happened.
pub proof fn law_reclassification_keeps_the_record(i: IncidentModel)
    ensures
        reclassified(i).suspects == i.suspects,
        reclassified(i).attempts == i.attempts,
        reclassified(i).log_tail == i.log_tail,
        reclassified(i).log_path == i.log_path,
        reclassified(i).health == i.health,
        reclassified(i).at == i.at,
        reclassified(i).recovered == i.recovered,
        reclassified(i).safe_mode == i.safe_mode,
        i.suspects.len() > 0 || i.health is None ==> reclassified(i) == i,
{
}

/// The line of the trail that repeats the report.
pub open spec fn attempt_text(report: HealthModel) -> Seq<char> {
    let kind = text::trim_text(report.kind);
    let message = text::trim_text(report.message);
    if kind.len() == 0 && message.len() == 0 {
        "工作台健康探针报告：页面异常"@
    } else if kind.len() == 0 {
        "工作台健康探针报告："@ + message
    } else if message.len() == 0 {
        "工作台健康探针报告："@ + kind
    } else {
        "工作台健康探针报告："@ + kind + "："@ + message
    }
}

/// The line of the trail that repeats the report.
pub fn runtime_attempt(report: &HealthReport) -> (r: String)
    ensures
        r@ == attempt_text(report@),
{
    let kind = text::trim(report.kind.as_str());
    let message = text::trim(report.message.as_str());
    let no_kind = kind.as_str().is_empty();
    let no_message = message.as_str().is_empty();
    if no_kind && no_message {
        text::owned("工作台健康探针报告：页面异常")
    } else if no_kind {
        text::cat2("工作台健康探针报告：", message.as_str())
    } else if no_message {
        text::cat2("工作台健康探针报告：", kind.as_str())
    } else {
        text::cat4("工作台健康探针报告：", kind.as_str(), "：", message.as_str())
    }
}

// --------------------------------------------------------------------- cause

/// Some suspect is of `kind`.
pub open spec fn some_kind(suspects: Seq<SuspectModel>, kind: Seq<char>) -> bool {
    exists|k: int| 0 <= k < suspects.len() && (#[trigger] suspects[k]).kind == kind
}

/// Whether some suspect is of `kind`.
pub fn any_kind(suspects: &Vec<Suspect>, kind: &str) -> (r: bool)
    ensures
        r == some_kind(incident::suspects_of(suspects@), kind@),
{
    let mut i: usize = 0;
    while i < suspects.len()
        invariant
            i <= suspects.len(),
            forall|k: int| 0 <= k < i ==> (#[trigger] incident::suspects_of(suspects@)[k]).kind != kind@,
        decreases suspects.len() - i,
    {
        if text::same(suspects[i].kind.as_str(), kind) {
            proof {
                assert(incident::suspects_of(suspects@)[i as int].kind == kind@);
            }
            return true;
        }
        i = i + 1;
    }
    false
}

/// The cause that a list of suspects speaks for.
pub open spec fn cause_of(suspects: Seq<SuspectModel>) -> Seq<char> {
    if some_kind(suspects, "plugin"@) {
        "plugin"@
    } else if some_kind(suspects, "kernel"@) {
        "kernel"@
    } else {
        "unknown"@
    }
}

/// The cause that a list of suspects speaks for: plugins before the kernel.
pub fn runtime_cause(suspects: &Vec<Suspect>) -> (r: &'static str)
    ensures
        r@ == cause_of(incident::suspects_of(suspects@)),
{
    if any_kind(suspects, "plugin") {
        "plugin"
    } else if any_kind(suspects, "kernel") {
        "kernel"
    } else {
        "unknown"
    }
}

/// The first `n` store entries, or all of them, as suspects with one evidence.
pub open spec fn soft_list(items: Seq<PluginModel>, n: int, evidence: Seq<char>) -> Seq<
    SuspectModel,
> {
    let len = if n < items.len() {
        n
    } else {
        items.len() as int
    };
    Seq::new(
        len as nat,
        |i: int|
            SuspectModel {
                kind: "plugin"@,
                id: items[i].id,
                name: items[i].name,
                evidence,
            },
    )
}

fn soft_list_of(items: &Vec<StoreItem>, n: usize, evidence: &str) -> (r: Vec<Suspect>)
    ensures
        incident::suspects_of(r@) == soft_list(plugins::plugins_of(items@), n as int, evidence@),
{
    let mut out: Vec<Suspect> = Vec::new();
    let mut i: usize = 0;
    while i < items.len() && i < n
        invariant
            i <= items.len(),
            i <= n,
            out.len() == i,
            forall|k: int|
                0 <= k < i ==> (#[trigger] out@[k])@ == (SuspectModel {
                    kind: "plugin"@,
                    id: items@[k].id@,
                    name: items@[k].name@,
                    evidence: evidence@,
                }),
        decreases items.len() - i,
    {
        out.push(
            Suspect {
                kind: text::owned("plugin"),
                id: items[i].id.clone(),
                name: items[i].name.clone(),
                evidence: text::owned(evidence),
            },
        );
        i = i + 1;
    }
    proof {
        assert(incident::suspects_of(out@) =~= soft_list(plugins::plugins_of(items@), n as int, evidence@));
    }
    out
}

/// The evidence text of a plugin that is listed because the page is blank.
pub open spec fn blank_evidence() -> Seq<char> {
    "工作台页面加载完成后仍为空白，未发现可见内容。内核仍在响应 HTTP 请求，但页面未渲染。"@
}

/// The evidence text of a plugin that is listed because of HTTP failures.
pub open spec fn http_evidence() -> Seq<char> {
    "内核日志出现 HTTP 4xx/5xx 响应，可能是插件静态资源加载失败"@
}

/// The installed plugins as soft suspects of a blank page.
pub open spec fn blank_suspects(items: Seq<PluginModel>, report: HealthModel) -> Seq<SuspectModel> {
    if text::trim_text(report.kind) == "blank"@ {
        soft_list(items, MAX_SUSPECTS as int, blank_evidence())
    } else {
        Seq::empty()
    }
}

/// Lists the installed plugins as soft suspects of a blank page, so that the
/// user has something to act on. Soft suspects are never quarantined.
pub fn soft_attribute_blank(store_items: &Vec<StoreItem>, report: &HealthReport) -> (r: Vec<
    Suspect,
>)
    ensures
        incident::suspects_of(r@) == blank_suspects(plugins::plugins_of(store_items@), report@),
{
    if !text::same(text::trim(report.kind.as_str()).as_str(), "blank") || store_items.is_empty() {
        let out: Vec<Suspect> = Vec::new();
        proof {
            assert(incident::suspects_of(out@) =~= blank_suspects(plugins::plugins_of(store_items@), report@));
        }
        return out;
    }
    soft_list_of(
        store_items,
        MAX_SUSPECTS,
        "工作台页面加载完成后仍为空白，未发现可见内容。内核仍在响应 HTTP 请求，但页面未渲染。",
    )
}

/// What is listed where no log line points at anything: the plugins of a blank
/// page, and those again where the log shows HTTP failures and there is room.
pub open spec fn soft_suspects(
    items: Seq<PluginModel>,
    report: HealthModel,
    tail: Seq<char>,
) -> Seq<SuspectModel> {
    let soft = blank_suspects(items, report);
    if soft.len() > 0 && http_failures(tail) {
        soft + soft_list(items, MAX_SUSPECTS - soft.len(), http_evidence())
    } else {
        soft
    }
}

fn soft_suspect_list(items: &Vec<StoreItem>, report: &HealthReport, tail: &str) -> (r: Vec<Suspect>)
    ensures
        incident::suspects_of(r@) == soft_suspects(plugins::plugins_of(items@), report@, tail@),
{
    let mut soft = soft_attribute_blank(items, report);
    proof {
        assert(incident::suspects_of(soft@).len() == soft@.len());
    }
    if !soft.is_empty() && log_has_http_failure(tail) {
        let room: usize = MAX_SUSPECTS - soft.len();
        let mut extra = soft_list_of(
            items,
            room,
            "内核日志出现 HTTP 4xx/5xx 响应，可能是插件静态资源加载失败",
        );
        let ghost a = soft@;
        let ghost b = extra@;
        soft.append(&mut extra);
        proof {
            assert(incident::suspects_of(soft@) =~= incident::suspects_of(a) + incident::suspects_of(b));
        }
    }
    soft
}

// ----------------------------------------------------------------- diagnosis

/// What a diagnosis reads beside the report.
#[derive(Debug, Clone)]
pub struct RuntimeFacts {
    /// Seconds since the epoch.
    pub now: u64,
    /// The end of the kernel log.
    pub log_tail: String,
    pub log_path: String,
    pub store_items: Vec<StoreItem>,
    /// The active kernel version, or nothing.
    pub kernel_label: String,
}

/// The content of the facts of a diagnosis.
#[verifier::ext_equal]
pub struct FactsModel {
    pub now: u64,
    pub log_tail: Seq<char>,
    pub log_path: Seq<char>,
    pub items: Seq<PluginModel>,
    pub label: Seq<char>,
}

impl View for RuntimeFacts {
    type V = FactsModel;

    open spec fn view(&self) -> FactsModel {
        FactsModel {
            now: self.now,
            log_tail: self.log_tail@,
            log_path: self.log_path@,
            items: plugins::plugins_of(self.store_items@),
            label: self.kernel_label@,
        }
    }
}

/// The suspects that log or stack lines point at.
pub open spec fn strong_suspects(report: HealthModel, facts: FactsModel) -> Seq<SuspectModel> {
    attribution::attribution(evidence_text(report, facts.log_tail), facts.items, facts.label)
}

/// The suspects of a diagnosis: those with evidence, or the soft ones.
pub open spec fn diagnosed_suspects(report: HealthModel, facts: FactsModel) -> Seq<SuspectModel> {
    if strong_suspects(report, facts).len() > 0 {
        strong_suspects(report, facts)
    } else {
        soft_suspects(facts.items, report, facts.log_tail)
    }
}

/// The cause of a diagnosis.
pub open spec fn diagnosed_cause(report: HealthModel, facts: FactsModel) -> Seq<char> {
    let cause = cause_of(diagnosed_suspects(report, facts));
    if cause == "unknown"@ && bundle_frames(evidence_text(report, facts.log_tail)) {
        "frontend"@
    } else {
        cause
    }
}

/// The plugins among the suspects are to be quarantined.
pub open spec fn isolates(report: HealthModel, facts: FactsModel) -> bool {
    strong_suspects(report, facts).len() > 0 && some_kind(
        strong_suspects(report, facts),
        "plugin"@,
    )
}

/// The reason that the quarantine records of a diagnosis give.
pub open spec fn isolation_reason() -> Seq<char> {
    "工作台运行异常，前端或内核错误证据指向该插件，已临时隔离"@
}

/// The names of the plugins among `suspects`.
pub open spec fn plugin_names(suspects: Seq<SuspectModel>) -> Seq<Seq<char>>
    decreases suspects.len(),
{
    if suspects.len() == 0 {
        Seq::empty()
    } else if suspects.last().kind == "plugin"@ {
        plugin_names(suspects.drop_last()).push(suspects.last().name)
    } else {
        plugin_names(suspects.drop_last())
    }
}

/// The names of the plugins among `suspects`, as the panel lists them.
pub open spec fn listed_names(suspects: Seq<SuspectModel>) -> Seq<char> {
    text::join_text(plugin_names(suspects), "、"@)
}

fn name_list(suspects: &Vec<Suspect>) -> (r: String)
    ensures
        r@ == listed_names(incident::suspects_of(suspects@)),
{
    let mut out: Vec<String> = Vec::new();
    let mut i: usize = 0;
    let ghost all = incident::suspects_of(suspects@);
    proof {
        assert(all.take(0) =~= Seq::<SuspectModel>::empty());
        assert(text::texts(out@) =~= Seq::<Seq<char>>::empty());
    }
    while i < suspects.len()
        invariant
            i <= suspects.len(),
            all == incident::suspects_of(suspects@),
            text::texts(out@) == plugin_names(all.take(i as int)),
        decreases suspects.len() - i,
    {
        proof {
            let next = all.take(i + 1);
            assert(next.drop_last() =~= all.take(i as int));
            assert(next.last() == suspects@[i as int]@);
        }
        if text::same(suspects[i].kind.as_str(), "plugin") {
            let name = suspects[i].name.clone();
            proof {
                assert(text::texts(out@.push(name)) =~= text::texts(out@).push(name@));
            }
            out.push(name);
        }
        i = i + 1;
    }
    proof {
        assert(all.take(all.len() as int) =~= all);
    }
    text::join(&out, "、")
}

/// What a diagnosis tells the user: the message, the next step, and the lines
/// that it adds to the trail.
#[verifier::ext_equal]
pub struct Wording {
    pub message: Seq<char>,
    pub hint: Seq<char>,
    pub trail: Seq<Seq<char>>,
}

/// The wording of a diagnosis.
pub open spec fn wording(report: HealthModel, facts: FactsModel, isolated: bool) -> Wording {
    let cause = diagnosed_cause(report, facts);
    let names = listed_names(diagnosed_suspects(report, facts));
    if cause == "plugin"@ && strong_suspects(report, facts).len() > 0 {
        if isolated {
            Wording {
                message: "工作台页面异常，错误证据指向插件「"@ + names + "」，已临时隔离；请决定如何修复。"@,
                hint: "请到插件页选择保持禁用、重新启用或移除，然后重启工作台验证。"@,
                trail: seq!["已临时隔离疑似插件："@ + names + "，重启后验证"@],
            }
        } else {
            Wording {
                message: "工作台页面异常，错误证据指向插件「"@ + names + "」，但自动隔离失败。"@,
                hint: "请先到插件页手动禁用或移除该插件，再重启工作台验证。"@,
                trail: seq!["写入插件隔离记录失败，请在插件页手动处理"@],
            }
        }
    } else if cause == "plugin"@ {
        Wording {
            message: "工作台页面加载后仍为空白，且已安装第三方插件。无法定位到具体插件的日志证据，请人工排查。"@,
            hint: "建议步骤：① 打开「内核日志」查看是否有 4xx/5xx 或资源加载错误；② 在「插件」页临时停用全部第三方插件后重启工作台；③ 若停用后正常，逐个重新启用定位问题插件。"@,
            trail: seq![
                "未发现具体的内核错误堆栈，但已安装的第三方插件无法排除："@ + names
                    + "（已列出但未自动停用）"@,
                "软信号不会自动隔离，请按下方提示人工确认。"@,
            ],
        }
    } else if cause == "frontend"@ {
        Wording {
            message: bundle_message(),
            hint: bundle_hint(),
            trail: seq![
                "错误堆栈指向内核服务的客户端模块 bundle（/plugins/ 组合路由），但证据里没有可归因的包名"@,
            ],
        }
    } else if cause == "kernel"@ {
        Wording {
            message: "工作台页面异常，错误证据指向当前内核组件，未自动修改插件。"@,
            hint: "请先查看完整内核日志，再到内核版本页切换其他版本；仍失败时删除当前版本后重新安装。"@,
            trail: seq!["错误证据指向内核组件，未自动修改插件"@],
        }
    } else if http_failures(facts.log_tail) {
        Wording {
            message: "工作台页面异常；内核仍在响应但日志含 HTTP 4xx/5xx，未定位到具体插件或内核组件。"@,
            hint: "请打开「内核日志」查看 4xx/5xx 详情；先尝试在「内核版本」页切换到其他已安装版本，仍失败时删除当前版本后重新安装。"@,
            trail: seq!["内核日志出现 HTTP 4xx/5xx，未定位到具体插件或内核组件"@],
        }
    } else {
        Wording {
            message: "工作台页面异常，但暂未找到足够证据区分插件和内核。"@,
            hint: "请打开日志并重试；若持续发生，再到内核版本页切换其他版本或重新安装当前版本。"@,
            trail: seq!["未发现足够的插件或内核证据，暂不作强归因"@],
        }
    }
}

/// The incident of a fresh diagnosis.
pub open spec fn fresh_incident(report: HealthModel, facts: FactsModel, isolated: bool) -> IncidentModel {
    let words = wording(report, facts, isolated);
    IncidentModel {
        recovered: false,
        safe_mode: false,
        message: words.message,
        suspects: diagnosed_suspects(report, facts),
        attempts: seq![attempt_text(report)] + words.trail,
        log_tail: facts.log_tail,
        log_path: facts.log_path,
        hint: Some(words.hint),
        at: facts.now,
        cause: diagnosed_cause(report, facts),
        health: Some(report),
    }
}

/// The last incident answers the same report, and is less than a minute old.
pub open spec fn still_fresh(existing: IncidentModel, report: HealthModel, now: u64) -> bool {
    existing.health == Some(report) && now - existing.at < 60
}

/// What a diagnosis gives back: the last incident where it answers the report,
/// a fresh one otherwise.
pub open spec fn diagnosis(
    existing: Option<IncidentModel>,
    report: HealthModel,
    facts: FactsModel,
    isolated: bool,
) -> IncidentModel {
    match existing {
        Some(e) if still_fresh(e, report, facts.now) => e,
        _ => fresh_incident(report, facts, isolated),
    }
}

/// Whether the last incident answers the report, so that nothing is diagnosed
/// again: it came from the same report, less than a minute ago.
pub fn answers_report(existing: &Option<Incident>, report: &HealthReport, now: u64) -> (r: bool)
    ensures
        r == (existing is Some && still_fresh((existing->0)@, report@, now)),
{
    match existing {
        Some(e) => match &e.health {
            Some(h) => incident::same_report(h, report) && (now < e.at || now - e.at < 60),
            None => false,
        },
        None => false,
    }
}

/// The suspects of a diagnosis, and whether log or stack lines name them.
fn find_suspects(report: &HealthReport, facts: &RuntimeFacts) -> (r: (Vec<Suspect>, bool))
    ensures
        incident::suspects_of(r.0@) == diagnosed_suspects(report@, facts@),
        r.1 == (strong_suspects(report@, facts@).len() > 0),
{
    let evidence = runtime_evidence(report, facts.log_tail.as_str());
    let strong = attribution::attribute(evidence.as_str(), &facts.store_items, facts.kernel_label.as_str());
    proof {
        assert(incident::suspects_of(strong@).len() == strong@.len());
    }
    if strong.is_empty() {
        (soft_suspect_list(&facts.store_items, report, facts.log_tail.as_str()), false)
    } else {
        (strong, true)
    }
}

/// The plugins that a diagnosis takes out of the wiring, so that the next
/// start is safe: those that log or stack lines point at. Nothing is to be
/// written where there are none.
pub fn quarantine_plan(report: &HealthReport, facts: &RuntimeFacts) -> (r: Option<
    Vec<QuarantineItem>,
>)
    ensures
        (r is Some) == isolates(report@, facts@),
        r is Some ==> quarantine::records_of((r->0)@) == incident::records_for(
            strong_suspects(report@, facts@),
            isolation_reason(),
            facts.now,
        ),
{
    let (suspects, strong) = find_suspects(report, facts);
    if strong && any_kind(&suspects, "plugin") {
        Some(
            incident::suspect_records(
                &suspects,
                "工作台运行异常，前端或内核错误证据指向该插件，已临时隔离",
                facts.now,
            ),
        )
    } else {
        None
    }
}

/// Diagnoses a health report without touching the running kernel. `isolated`
/// says whether the records of `quarantine_plan` were written; it is read only
/// where there were any. The last incident is given back where it already
/// answers the report.
pub fn diagnose_runtime(
    existing: Option<Incident>,
    report: HealthReport,
    facts: RuntimeFacts,
    isolated: bool,
) -> (r: Incident)
    ensures
        r@ == (if existing is Some && still_fresh((existing->0)@, report@, facts.now) {
            (existing->0)@
        } else {
            fresh_incident(report@, facts@, isolated)
        }),
        r@ == diagnosis(
            match existing {
                Some(e) => Some(e@),
                None => None,
            },
            report@,
            facts@,
            isolated,
        ),
{
    if answers_report(&existing, &report, facts.now) {
        return existing.unwrap();
    }
    let ghost hm = report@;
    let ghost fm = facts@;
    let (suspects, strong) = find_suspects(&report, &facts);
    let evidence = runtime_evidence(&report, facts.log_tail.as_str());
    let by_suspects = runtime_cause(&suspects);
    proof {
        reveal_strlit("plugin");
        reveal_strlit("kernel");
        reveal_strlit("unknown");
        reveal_strlit("frontend");
        assert("plugin"@[0] != "kernel"@[0]);
        assert("plugin"@.len() != "unknown"@.len());
        assert("plugin"@.len() != "frontend"@.len());
        assert("kernel"@.len() != "unknown"@.len());
        assert("kernel"@.len() != "frontend"@.len());
        assert("unknown"@.len() != "frontend"@.len());
    }
    let cause: &'static str = if text::same(by_suspects, "unknown") && has_client_bundle_frames(
        evidence.as_str(),
    ) {
        "frontend"
    } else {
        by_suspects
    };
    let names = name_list(&suspects);
    let mut attempts: Vec<String> = Vec::new();
    attempts.push(runtime_attempt(&report));
    let message: String;
    let hint: String;
    if text::same(cause, "plugin") && strong {
        if isolated {
            attempts.push(text::cat3("已临时隔离疑似插件：", names.as_str(), "，重启后验证"));
            message =
            text::cat3(
                "工作台页面异常，错误证据指向插件「",
                names.as_str(),
                "」，已临时隔离；请决定如何修复。",
            );
            hint = text::owned("请到插件页选择保持禁用、重新启用或移除，然后重启工作台验证。");
        } else {
            attempts.push(text::owned("写入插件隔离记录失败，请在插件页手动处理"));
            message =
            text::cat3("工作台页面异常，错误证据指向插件「", names.as_str(), "」，但自动隔离失败。");
            hint = text::owned("请先到插件页手动禁用或移除该插件，再重启工作台验证。");
        }
    } else if text::same(cause, "plugin") {
        attempts.push(
            text::cat3(
                "未发现具体的内核错误堆栈，但已安装的第三方插件无法排除：",
                names.as_str(),
                "（已列出但未自动停用）",
            ),
        );
        attempts.push(text::owned("软信号不会自动隔离，请按下方提示人工确认。"));
        message =
        text::owned(
            "工作台页面加载后仍为空白，且已安装第三方插件。无法定位到具体插件的日志证据，请人工排查。",
        );
        hint =
        text::owned(
            "建议步骤：① 打开「内核日志」查看是否有 4xx/5xx 或资源加载错误；② 在「插件」页临时停用全部第三方插件后重启工作台；③ 若停用后正常，逐个重新启用定位问题插件。",
        );
    } else if text::same(cause, "frontend") {
        attempts.push(
            text::owned(
                "错误堆栈指向内核服务的客户端模块 bundle（/plugins/ 组合路由），但证据里没有可归因的包名",
            ),
        );
        let words = frontend_bundle_wording();
        message = words.0;
        hint = words.1;
    } else if text::same(cause, "kernel") {
        attempts.push(text::owned("错误证据指向内核组件，未自动修改插件"));
        message = text::owned("工作台页面异常，错误证据指向当前内核组件，未自动修改插件。");
        hint =
        text::owned("请先查看完整内核日志，再到内核版本页切换其他版本；仍失败时删除当前版本后重新安装。");
    } else if log_has_http_failure(facts.log_tail.as_str()) {
        attempts.push(text::owned("内核日志出现 HTTP 4xx/5xx，未定位到具体插件或内核组件"));
        message =
        text::owned(
            "工作台页面异常；内核仍在响应但日志含 HTTP 4xx/5xx，未定位到具体插件或内核组件。",
        );
        hint =
        text::owned(
            "请打开「内核日志」查看 4xx/5xx 详情；先尝试在「内核版本」页切换到其他已安装版本，仍失败时删除当前版本后重新安装。",
        );
    } else {
        attempts.push(text::owned("未发现足够的插件或内核证据，暂不作强归因"));
        message = text::owned("工作台页面异常，但暂未找到足够证据区分插件和内核。");
        hint = text::owned("请打开日志并重试；若持续发生，再到内核版本页切换其他版本或重新安装当前版本。");
    }
    let incident = Incident {
        recovered: false,
        safe_mode: false,
        message,
        suspects,
        attempts,
        log_tail: facts.log_tail,
        log_path: facts.log_path,
        hint: Some(hint),
        at: facts.now,
        cause: text::owned(cause),
        health: Some(report),
    };
    proof {
        let want = fresh_incident(hm, fm, isolated);
        assert(incident@.attempts =~= want.attempts);
        assert(incident@ =~= want);
    }
    incident
}

// ---------------------------------------------------------------------- laws

/// A soft signal never quarantines anything: where no line points at a
/// suspect, there is no quarantine plan, however many plugins are listed.
pub proof fn law_soft_signals_do_not_isolate(report: HealthModel, facts: FactsModel)
    ensures
        strong_suspects(report, facts).len() == 0 ==> !isolates(report, facts),
        diagnosed_cause(report, facts) == "frontend"@ ==> !isolates(report, facts)
            && diagnosed_suspects(report, facts).len() == 0,
        diagnosed_cause(report, facts) == "kernel"@ ==> !isolates(report, facts),
{
    reveal_strlit("plugin");
    reveal_strlit("kernel");
    reveal_strlit("unknown");
    reveal_strlit("frontend");
    assert("plugin"@[0] != "kernel"@[0]);
    assert("plugin"@.len() != "unknown"@.len());
    assert("plugin"@.len() != "frontend"@.len());
    assert("kernel"@.len() != "unknown"@.len());
    assert("kernel"@.len() != "frontend"@.len());
    assert("unknown"@.len() != "frontend"@.len());
    let all = diagnosed_suspects(report, facts);
    let evidence = evidence_text(report, facts.log_tail);
    attribution::law_plugins_are_blamed_by_evidence(evidence, facts.items, facts.label);
    if diagnosed_cause(report, facts) == "frontend"@ && all.len() > 0 {
        if strong_suspects(report, facts).len() > 0 {
            let s = attribution::attribution(evidence, facts.items, facts.label)[0];
            assert(s == all[0]);
            assert(all[0].kind == "plugin"@ || all[0].kind == "kernel"@);
        } else {
            assert(all[0].kind == "plugin"@);
        }
        assert(false);
    }
}

/// A diagnosis never lists more suspects than the panel shows.
pub proof fn law_diagnosis_is_bounded(report: HealthModel, facts: FactsModel)
    ensures
        diagnosed_suspects(report, facts).len() <= MAX_SUSPECTS,
{
    attribution::law_attribution_is_bounded(
        evidence_text(report, facts.log_tail),
        facts.items,
        facts.label,
    );
}

/// A diagnosis answers the report that was handed in, and no other: what it
/// gives back carries that very report. It is the last incident only where that
/// one carries the same report and is less than a minute old; otherwise it is
/// made now, of the log at hand.
pub proof fn law_the_report_at_hand_is_answered(
    existing: Option<IncidentModel>,
    report: HealthModel,
    facts: FactsModel,
    isolated: bool,
)
    ensures
        ({
            let r = diagnosis(existing, report, facts, isolated);
            &&& r.health == Some(report)
            &&& existing is None || (existing->0).health != Some(report) || facts.now
                >= (existing->0).at + 60 ==> r.at == facts.now && r.log_tail == facts.log_tail
                && r.log_path == facts.log_path && !r.recovered && r.hint is Some
            &&& existing is Some && (existing->0).health == Some(report) && facts.now
                < (existing->0).at + 60 ==> r == existing->0
        }),
{
}

/// Handing in one report again within a minute gives the incident of the first
/// time, whatever the log shows by then; a report that says something else is
/// diagnosed on its own.
pub proof fn law_repeated_reports_are_diagnosed_once(
    first: HealthModel,
    then: FactsModel,
    again: HealthModel,
    later: FactsModel,
    isolated: bool,
    isolated_later: bool,
)
    requires
        then.now <= later.now < then.now + 60,
    ensures
        ({
            let one = diagnosis(None, first, then, isolated);
            let two = diagnosis(Some(one), again, later, isolated_later);
            &&& first == again ==> two == one
            &&& first != again ==> two == diagnosis(None, again, later, isolated_later)
        }),
{
}

/// The cause follows from the suspects: a plugin before the kernel; where there
/// is neither, the page where a frame of its stack lies in a client bundle.
pub proof fn law_the_cause_follows_from_the_suspects(report: HealthModel, facts: FactsModel)
    ensures
        ({
            let all = diagnosed_suspects(report, facts);
            let cause = diagnosed_cause(report, facts);
            let plugin = exists|k: int| 0 <= k < all.len() && (#[trigger] all[k]).kind == "plugin"@;
            let kernel = exists|k: int| 0 <= k < all.len() && (#[trigger] all[k]).kind == "kernel"@;
            let lines = text::lines_text(evidence_text(report, facts.log_tail));
            let framed = exists|j: int|
                0 <= j < lines.len() && text::has(#[trigger] lines[j], "前端堆栈："@) && text::has(
                    lines[j],
                    "/plugins/"@,
                );
            &&& plugin <==> cause == "plugin"@
            &&& !plugin && kernel <==> cause == "kernel"@
            &&& !plugin && !kernel && framed <==> cause == "frontend"@
            &&& !plugin && !kernel && !framed <==> cause == "unknown"@
            &&& fresh_incident(report, facts, true).cause == cause
            &&& fresh_incident(report, facts, true).suspects == all
        }),
{
    reveal_strlit("plugin");
    reveal_strlit("kernel");
    reveal_strlit("unknown");
    reveal_strlit("frontend");
    assert("plugin"@[0] != "kernel"@[0]);
    assert("plugin"@.len() != "unknown"@.len());
    assert("plugin"@.len() != "frontend"@.len());
    assert("kernel"@.len() != "unknown"@.len());
    assert("kernel"@.len() != "frontend"@.len());
    assert("unknown"@.len() != "frontend"@.len());
    let lines = text::lines_text(evidence_text(report, facts.log_tail));
    if bundle_frames(evidence_text(report, facts.log_tail)) {
        let k = choose|k: int| 0 <= k < lines.len() && bundle_frame(#[trigger] lines[k]);
        assert(text::has(lines[k], "前端堆栈："@) && text::has(lines[k], "/plugins/"@));
    }
    if exists|j: int|
        0 <= j < lines.len() && text::has(#[trigger] lines[j], "前端堆栈："@) && text::has(
            lines[j],
            "/plugins/"@,
        ) {
        let j = choose|j: int|
            0 <= j < lines.len() && text::has(#[trigger] lines[j], "前端堆栈："@) && text::has(
                lines[j],
                "/plugins/"@,
            );
        assert(bundle_frame(text::lines_text(evidence_text(report, facts.log_tail))[j]));
    }
}

/// Some suspect is a plugin of this id.
pub open spec fn blames_plugin(suspects: Seq<SuspectModel>, id: Seq<char>) -> bool {
    exists|k: int|
        0 <= k < suspects.len() && (#[trigger] suspects[k]).kind == "plugin"@ && suspects[k].id == id
}

/// Some record is of this id.
pub open spec fn records_plugin(records: Seq<QuarantineModel>, id: Seq<char>) -> bool {
    exists|m: int| 0 <= m < records.len() && (#[trigger] records[m]).id == id
}

/// What is quarantined after a diagnosis is exactly what log or stack lines
/// blame: there is a plan where they blame a plugin of the store, and a plugin
/// is recorded in it exactly where they blame it. Otherwise nothing is
/// quarantined.
pub proof fn law_only_blamed_plugins_are_quarantined(
    report: HealthModel,
    facts: FactsModel,
    id: Seq<char>,
)
    ensures
        ({
            let blamed = attribution::attribution(
                evidence_text(report, facts.log_tail),
                facts.items,
                facts.label,
            );
            let records = incident::records_for(
                strong_suspects(report, facts),
                isolation_reason(),
                facts.now,
            );
            &&& blames_plugin(blamed, id) ==> isolates(report, facts)
            &&& isolates(report, facts) ==> exists|other: Seq<char>| blames_plugin(blamed, other)
            &&& records_plugin(records, id) == blames_plugin(blamed, id)
        }),
{
    let strong = strong_suspects(report, facts);
    lemma_records_of_plugins(strong, isolation_reason(), facts.now, id);
    if isolates(report, facts) {
        let k = choose|k: int| 0 <= k < strong.len() && (#[trigger] strong[k]).kind == "plugin"@;
        assert(blames_plugin(strong, strong[k].id));
    }
}

proof fn lemma_records_of_plugins(
    suspects: Seq<SuspectModel>,
    reason: Seq<char>,
    at: u64,
    id: Seq<char>,
)
    ensures
        records_plugin(incident::records_for(suspects, reason, at), id) == blames_plugin(
            suspects,
            id,
        ),
        blames_plugin(suspects, id) ==> some_kind(suspects, "plugin"@),
    decreases suspects.len(),
{
    if suspects.len() > 0 {
        let init = suspects.drop_last();
        let last = suspects.len() - 1;
        lemma_records_of_plugins(init, reason, at, id);
        let before = incident::records_for(init, reason, at);
        let out = incident::records_for(suspects, reason, at);
        if blames_plugin(suspects, id) {
            let k = choose|k: int|
                0 <= k < suspects.len() && (#[trigger] suspects[k]).kind == "plugin"@
                    && suspects[k].id == id;
            if k < last {
                assert(init[k].kind == "plugin"@ && init[k].id == id);
                let m = choose|m: int| 0 <= m < before.len() && (#[trigger] before[m]).id == id;
                assert(out[m].id == id);
            } else {
                assert(out[out.len() - 1].id == id);
            }
        }
        if records_plugin(out, id) {
            let m = choose|m: int| 0 <= m < out.len() && (#[trigger] out[m]).id == id;
            if m < before.len() {
                assert(before[m].id == id);
                let k = choose|k: int|
                    0 <= k < init.len() && (#[trigger] init[k]).kind == "plugin"@ && init[k].id
                        == id;
                assert(suspects[k].kind == "plugin"@ && suspects[k].id == id);
            } else {
                assert(suspects[last].kind == "plugin"@ && suspects[last].id == id);
            }
        }
    }
}

proof fn lemma_part_in_join(parts: Seq<Seq<char>>, sep: Seq<char>, k: int)
    requires
        0 <= k < parts.len(),
    ensures
        text::has(text::join_text(parts, sep), parts[k]),
    decreases parts.len(),
{
    let whole = text::join_text(parts, sep);
    if parts.len() == 1 {
        assert(whole.subrange(0, whole.len() as int) =~= parts[k]);
        assert(text::occurs_at(whole, parts[k], 0));
    } else {
        let before = text::join_text(parts.drop_last(), sep);
        if k < parts.len() - 1 {
            lemma_part_in_join(parts.drop_last(), sep, k);
            assert(parts.drop_last()[k] == parts[k]);
            let i = choose|i: int| text::occurs_at(before, parts[k], i);
            assert(whole.subrange(i, i + parts[k].len()) =~= before.subrange(i, i + parts[k].len()));
            assert(text::occurs_at(whole, parts[k], i));
        } else {
            let i = (before + sep).len() as int;
            assert(whole.subrange(i, i + parts[k].len()) =~= parts[k]);
            assert(text::occurs_at(whole, parts[k], i));
        }
    }
}

/// What the page reports is part of the evidence: its kind, its message, its
/// address, each line of its stack that is not blank, and the whole log; and
/// each stack line stands there as an error.
pub proof fn law_evidence_holds_the_report(report: HealthModel, tail: Seq<char>)
    ensures
        ({
            let all = evidence_text(report, tail);
            &&& text::has(all, text::trim_text(report.kind))
            &&& text::has(all, text::trim_text(report.message))
            &&& text::has(all, text::trim_text(report.page_url))
            &&& text::has(all, tail)
            &&& forall|k: int|
                0 <= k < text::lines_text(report.stack).len() && text::trim_text(
                    #[trigger] text::lines_text(report.stack)[k],
                ).len() > 0 ==> text::has(
                    all,
                    "Error: 前端堆栈："@ + text::trim_text(text::lines_text(report.stack)[k]),
                )
        }),
{
    let all = evidence_text(report, tail);
    let stack = text::lines_text(report.stack);
    let a = labelled("Error: 工作台自检类型："@, report.kind);
    let b = labelled("Error: 工作台前端错误："@, report.message);
    let c = stack_evidence(stack);
    let d = labelled("Error: 工作台页面地址："@, report.page_url);
    let e = if tail.len() == 0 {
        Seq::empty()
    } else {
        seq![tail]
    };
    let parts = a + b + c + d + e;
    lemma_empty_in(all);
    if a.len() > 0 {
        assert(parts[0] == a[0]);
        lemma_part_in_join(parts, "\n"@, 0);
        lemma_has_tail(all, "Error: 工作台自检类型："@, text::trim_text(report.kind));
    } else {
        assert(text::trim_text(report.kind) =~= Seq::<char>::empty());
    }
    if b.len() > 0 {
        let i = a.len() as int;
        assert(parts[i] == b[0]);
        lemma_part_in_join(parts, "\n"@, i);
        lemma_has_tail(all, "Error: 工作台前端错误："@, text::trim_text(report.message));
    } else {
        assert(text::trim_text(report.message) =~= Seq::<char>::empty());
    }
    if d.len() > 0 {
        let i = (a + b + c).len() as int;
        assert(parts[i] == d[0]);
        lemma_part_in_join(parts, "\n"@, i);
        lemma_has_tail(all, "Error: 工作台页面地址："@, text::trim_text(report.page_url));
    } else {
        assert(text::trim_text(report.page_url) =~= Seq::<char>::empty());
    }
    if tail.len() > 0 {
        let i = (a + b + c + d).len() as int;
        assert(parts[i] == tail);
        lemma_part_in_join(parts, "\n"@, i);
    } else {
        assert(tail =~= Seq::<char>::empty());
    }
    assert forall|k: int|
        0 <= k < stack.len() && text::trim_text(#[trigger] stack[k]).len() > 0 implies text::has(
        all,
        "Error: 前端堆栈："@ + text::trim_text(stack[k]),
    ) by {
        let m = lemma_stack_line(stack, k);
        let i = (a + b).len() + m;
        assert(parts[i] == c[m]);
        lemma_part_in_join(parts, "\n"@, i);
        reveal_strlit("Error: 前端堆栈：");
        reveal_strlit("Error: ");
        reveal_strlit("前端堆栈：");
        assert("Error: 前端堆栈："@ =~= "Error: "@ + "前端堆栈："@);
    }
}

proof fn lemma_empty_in(s: Seq<char>)
    ensures
        text::has(s, Seq::<char>::empty()),
{
    assert(s.subrange(0, 0) =~= Seq::<char>::empty());
    assert(text::occurs_at(s, Seq::<char>::empty(), 0));
}

proof fn lemma_has_tail(s: Seq<char>, a: Seq<char>, b: Seq<char>)
    requires
        text::has(s, a + b),
    ensures
        text::has(s, b),
{
    let i = choose|i: int| text::occurs_at(s, a + b, i);
    let j = i + a.len();
    assert(s.subrange(j, j + b.len()) =~= s.subrange(i, i + (a + b).len()).skip(a.len() as int));
    assert((a + b).skip(a.len() as int) =~= b);
    assert(text::occurs_at(s, b, j));
}

proof fn lemma_stack_line(stack: Seq<Seq<char>>, k: int) -> (m: int)
    requires
        0 <= k < stack.len(),
        text::trim_text(stack[k]).len() > 0,
    ensures
        0 <= m < stack_evidence(stack).len(),
        stack_evidence(stack)[m] == "Error: "@ + "前端堆栈："@ + text::trim_text(stack[k]),
    decreases stack.len(),
{
    let init = stack.drop_last();
    if k < init.len() {
        assert(init[k] == stack[k]);
        let m = lemma_stack_line(init, k);
        assert(stack_evidence(stack)[m] == stack_evidence(init)[m]);
        m
    } else {
        stack_evidence(init).len() as int
    }
}

/// A blank page without other evidence lists the plugins of the store from the
/// first on, as many as the panel shows; any other report without evidence
/// lists nobody.
pub proof fn law_blank_pages_list_the_store(report: HealthModel, facts: FactsModel, i: int)
    requires
        attribution::attribution(
            evidence_text(report, facts.log_tail),
            facts.items,
            facts.label,
        ).len() == 0,
        0 <= i < facts.items.len(),
        i < 8,
    ensures
        ({
            let all = diagnosed_suspects(report, facts);
            &&& text::trim_text(report.kind) == "blank"@ ==> i < all.len() && all[i].id
                == facts.items[i].id && all[i].name == facts.items[i].name && all[i].kind
                == "plugin"@
            &&& text::trim_text(report.kind) != "blank"@ ==> all.len() == 0
            &&& all.len() <= 8
        }),
{
}

/// A stored incident is judged anew only where it has neither a cause nor a
/// suspect and a frame of its page's stack lies in a client bundle; it is then
/// the page's own, and says so.
pub proof fn law_reclassification_needs_a_frame(i: IncidentModel)
    ensures
        ({
            let lines = text::lines_text(evidence_text(i.health->0, Seq::empty()));
            let framed = exists|j: int|
                0 <= j < lines.len() && text::has(#[trigger] lines[j], "前端堆栈："@) && text::has(
                    lines[j],
                    "/plugins/"@,
                );
            if i.cause == "unknown"@ && i.suspects.len() == 0 && i.health is Some && framed {
                reclassified(i).cause == "frontend"@ && reclassified(i).hint is Some
            } else {
                reclassified(i) == i
            }
        }),
{
    let evidence = evidence_text(i.health->0, Seq::empty());
    let lines = text::lines_text(evidence);
    if bundle_frames(evidence) {
        let k = choose|k: int| 0 <= k < lines.len() && bundle_frame(#[trigger] lines[k]);
        assert(text::has(lines[k], "前端堆栈："@) && text::has(lines[k], "/plugins/"@));
    }
    if exists|j: int|
        0 <= j < lines.len() && text::has(#[trigger] lines[j], "前端堆栈："@) && text::has(
            lines[j],
            "/plugins/"@,
        ) {
        let j = choose|j: int|
            0 <= j < lines.len() && text::has(#[trigger] lines[j], "前端堆栈："@) && text::has(
                lines[j],
                "/plugins/"@,
            );
        assert(bundle_frame(text::lines_text(evidence)[j]));
    }
}

proof fn lemma_names_of_plugins(suspects: Seq<SuspectModel>, k: int) -> (m: int)
    requires
        0 <= k < suspects.len(),
        suspects[k].kind == "plugin"@,
    ensures
        0 <= m < plugin_names(suspects).len(),
        plugin_names(suspects)[m] == suspects[k].name,
    decreases suspects.len(),
{
    let init = suspects.drop_last();
    if k < init.len() {
        assert(init[k] == suspects[k]);
        let m = lemma_names_of_plugins(init, k);
        assert(plugin_names(suspects)[m] == plugin_names(init)[m]);
        m
    } else {
        plugin_names(init).len() as int
    }
}

proof fn lemma_has_within(a: Seq<char>, s: Seq<char>, b: Seq<char>, pat: Seq<char>)
    requires
        text::has(s, pat),
    ensures
        text::has(a + s + b, pat),
{
    let i = choose|i: int| text::occurs_at(s, pat, i);
    let j = i + a.len();
    let t = a + s + b;
    assert(t.subrange(j, j + pat.len()) =~= s.subrange(i, i + pat.len()));
    assert(text::occurs_at(t, pat, j));
}

/// A diagnosis that blames plugins names each of them, and says whether they
/// were taken out.
pub proof fn law_blamed_plugins_are_named(
    report: HealthModel,
    facts: FactsModel,
    isolated: bool,
    k: int,
)
    requires
        0 <= k < strong_suspects(report, facts).len(),
        strong_suspects(report, facts)[k].kind == "plugin"@,
    ensures
        ({
            let r = fresh_incident(report, facts, isolated);
            let name = strong_suspects(report, facts)[k].name;
            &&& r.cause == "plugin"@
            &&& r.suspects == strong_suspects(report, facts)
            &&& text::has(r.message, name)
            &&& isolated ==> text::has(r.message, "已临时隔离"@)
            &&& !isolated ==> text::has(r.message, "但自动隔离失败"@)
        }),
{
    let strong = strong_suspects(report, facts);
    assert(some_kind(strong, "plugin"@));
    reveal_strlit("plugin");
    reveal_strlit("unknown");
    assert("plugin"@.len() != "unknown"@.len());
    let m = lemma_names_of_plugins(strong, k);
    lemma_part_in_join(plugin_names(strong), "、"@, m);
    let names = listed_names(strong);
    let a = "工作台页面异常，错误证据指向插件「"@;
    if isolated {
        let b = "」，已临时隔离；请决定如何修复。"@;
        lemma_has_within(a, names, b, strong[k].name);
        reveal_strlit("」，已临时隔离；请决定如何修复。");
        reveal_strlit("已临时隔离");
        let w = "已临时隔离"@;
        let all = a + names + b;
        let at = (a + names).len() + 2;
        assert(all.subrange(at as int, (at + w.len()) as int) =~= w);
        assert(text::occurs_at(all, w, at as int));
    } else {
        let b = "」，但自动隔离失败。"@;
        lemma_has_within(a, names, b, strong[k].name);
        reveal_strlit("」，但自动隔离失败。");
        reveal_strlit("但自动隔离失败");
        let w = "但自动隔离失败"@;
        let all = a + names + b;
        let at = (a + names).len() + 2;
        assert(all.subrange(at as int, (at + w.len()) as int) =~= w);
        assert(text::occurs_at(all, w, at as int));
    }
}

/// The trail of a diagnosis begins with what the page reported: its kind and its
/// message.
pub proof fn law_trails_begin_with_the_report(
    report: HealthModel,
    facts: FactsModel,
    isolated: bool,
)
    ensures
        ({
            let r = fresh_incident(report, facts, isolated);
            &&& r.attempts.len() > 1
            &&& text::has(r.attempts[0], text::trim_text(report.kind))
            &&& text::has(r.attempts[0], text::trim_text(report.message))
        }),
{
    let kind = text::trim_text(report.kind);
    let message = text::trim_text(report.message);
    let line = attempt_text(report);
    let head = "工作台健康探针报告："@;
    lemma_empty_in(line);
    if kind.len() == 0 {
        assert(kind =~= Seq::<char>::empty());
    }
    if message.len() == 0 {
        assert(message =~= Seq::<char>::empty());
    }
    let none = Seq::<char>::empty();
    if kind.len() > 0 && message.len() > 0 {
        text::law_texts_hold_their_parts(head, kind, "："@ + message, line);
        assert(line =~= head + kind + ("："@ + message));
        text::law_texts_hold_their_parts(head + kind + "："@, message, none, line);
        assert(line =~= head + kind + "："@ + message + none);
    } else if kind.len() > 0 {
        text::law_texts_hold_their_parts(head, kind, none, line);
        assert(line =~= head + kind + none);
    } else if message.len() > 0 {
        text::law_texts_hold_their_parts(head, message, none, line);
        assert(line =~= head + message + none);
    }
}

/// Where the log of a blank page shows failed accesses, the plugins are listed
/// once more for those, as far as there is room.
pub proof fn law_failed_accesses_are_listed_too(report: HealthModel, facts: FactsModel)
    requires
        attribution::attribution(
            evidence_text(report, facts.log_tail),
            facts.items,
            facts.label,
        ).len() == 0,
        text::trim_text(report.kind) == "blank"@,
        0 < facts.items.len() <= 8,
    ensures
        ({
            let all = diagnosed_suspects(report, facts);
            let n = facts.items.len();
            let failing = exists|k: int|
                0 <= k < text::lines_text(facts.log_tail).len() && attribution::http_failure(
                    #[trigger] text::lines_text(facts.log_tail)[k],
                );
            &&& !failing ==> all.len() == n
            &&& failing ==> all.len() == (if 2 * n <= 8 {
                2 * n
            } else {
                8
            })
            &&& failing && n < 8 ==> all[n as int].id == facts.items[0].id
        }),
{
}

} // verus!
