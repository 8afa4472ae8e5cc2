//! The rest of what the panel asks of the shell: settings, versions, plugins,
//! the windows, and the end of the program.

use crate::commands::harness;
use crate::error;
use crate::error::AppError;
use crate::guard::incident::Incident;
use crate::guard::runtime;
use crate::kernel::install::LogSpec;
use crate::kernel::process;
use crate::kernel::process::KernelEvidence;
use crate::kernel::versions;
use crate::kernel::versions::KernelStatus;
use crate::node::locate::NodeInfo;
use crate::paths;
use crate::quarantine::QuarantineItem;
use crate::settings::{Settings, SettingsModel};
use crate::text;
use vstd::prelude::*;

verus! {

/// An error, and the data directory that it speaks of.
pub fn app_err(data_dir: &str, error: &str) -> (r: String)
    ensures
        r@ == error@ + "（数据目录："@ + data_dir@ + "）"@,
{
    text::cat4(error, "（数据目录：", data_dir, "）")
}

// ------------------------------------------------------------------------ status

/// What the panel shows.
#[derive(Debug)]
pub struct StatusView {
    pub shell_version: String,
    /// The shell is a development build.
    pub dev_build: bool,
    pub kernel: KernelStatus,
    pub node: NodeInfo,
    pub settings: Settings,
    /// The plugins that are set aside.
    pub quarantined: Vec<QuarantineItem>,
    /// The last fault, judged anew.
    pub last_incident: Option<Incident>,
    pub official_chat_open: bool,
}

/// Puts together what the panel shows. The stored fault is judged anew.
pub fn get_status(
    shell_version: String,
    dev_build: bool,
    kernel: KernelStatus,
    node: NodeInfo,
    settings: Settings,
    quarantined: Vec<QuarantineItem>,
    stored_incident: Option<Incident>,
    official_chat_open: bool,
) -> (r: StatusView)
    ensures
        r.shell_version == shell_version,
        r.dev_build == dev_build,
        r.kernel == kernel,
        r.node == node,
        r.settings == settings,
        r.quarantined == quarantined,
        r.official_chat_open == official_chat_open,
        match (stored_incident, r.last_incident) {
            (Some(s), Some(i)) => i@ == runtime::reclassified(s@),
            (None, None) => true,
            _ => false,
        },
{
    StatusView {
        shell_version,
        dev_build,
        kernel,
        node,
        settings,
        quarantined,
        last_incident: runtime::load_incident(stored_incident),
        official_chat_open,
    }
}

// ----------------------------------------------------------------- the cached Node

/// A runtime that was found, and the setting that it was found for.
#[derive(Debug)]
pub struct NodeCache {
    pub key: Option<String>,
    pub info: NodeInfo,
}

/// The runtime that is remembered for the settings, where one is. Another path
/// in the settings makes it unknown.
pub fn cached_node(cache: &Option<NodeCache>, settings: &Settings) -> (r: Option<NodeInfo>)
    ensures
        match *cache {
            Some(c) if text::opt_text(c.key) == settings@.node_path => r matches Some(i) && i@ == c.info@,
            _ => r is None,
        },
{
    match cache {
        Some(c) => {
            let same = match (&c.key, &settings.node_path) {
                (Some(a), Some(b)) => text::same(a.as_str(), b.as_str()),
                (None, None) => true,
                _ => false,
            };
            if same {
                Some(c.info.clone())
            } else {
                None
            }
        },
        None => None,
    }
}

/// What is remembered after the environment was searched: a runtime that can be
/// used, as the one of settings without a path.
pub fn detect_node(info: &NodeInfo) -> (r: Option<NodeCache>)
    ensures
        r is Some <==> info.ok,
        r matches Some(c) ==> c.key is None && c.info@ == info@,
{
    if info.ok {
        Some(NodeCache { key: None, info: info.clone() })
    } else {
        None
    }
}

/// What starting the kernel needs next.
#[derive(Debug)]
pub enum StartGate {
    /// The remembered runtime cannot be used: it is looked for anew.
    Reprobe,
    /// No runtime can be used.
    Refuse(String),
    /// The runtime to start with.
    Go(String),
}

/// Whether the kernel can be started with a runtime. One that is remembered is
/// looked for anew before it is given up.
pub fn start_kernel(info: &NodeInfo, fresh: bool) -> (r: StartGate)
    ensures
        match r {
            StartGate::Go(path) => info.ok && path@ == info.path@,
            StartGate::Reprobe => !info.ok && !fresh,
            StartGate::Refuse(reason) => !info.ok && fresh && reason@ == info.reason@,
        },
{
    if info.ok {
        StartGate::Go(info.path.clone())
    } else if fresh {
        StartGate::Refuse(info.reason.clone())
    } else {
        StartGate::Reprobe
    }
}

/// What stopping the workbench comes to.
#[derive(Debug)]
pub struct StopPlan {
    /// The process to end, with the port that it was started on where that is
    /// recorded.
    pub kill: Option<(u32, Option<u16>)>,
    /// What the user is told. The record of the process is removed in any case.
    pub outcome: Result<(), String>,
}

/// What stopping the workbench comes to, once the process that this shell
/// started, if any, was stopped or could not be: a kernel of the data directory
/// that still runs is ended, whatever port is set now.
pub fn stop_kernel(
    stopped: Result<(), AppError>,
    evidence: &KernelEvidence,
    port: u16,
    record: Option<&str>,
) -> (r: StopPlan)
    ensures
        match (process::kernel_pid(*evidence, port), r.kill) {
            (Some(pid), Some(k)) => k.0 == pid && process::port_of(k.1) == process::recorded_port(
                match record {
                    Some(c) => Some(c@),
                    None => None,
                },
            ),
            (None, None) => true,
            _ => false,
        },
        match (stopped, r.outcome) {
            (Ok(_), Ok(_)) => true,
            (Err(e), Err(said)) => said@ == error::error_text(e@),
            _ => false,
        },
{
    let kill = match process::workbench_pid(evidence, port) {
        Some(pid) => Some((pid, process::recorded_kernel_port(record))),
        None => None,
    };
    let outcome = match stopped {
        Ok(_) => Ok(()),
        Err(e) => Err(e.message()),
    };
    StopPlan { kill, outcome }
}

// ---------------------------------------------------------------------- settings

/// A path that is kept where the request does not speak of it.
pub open spec fn kept_path(incoming: Option<Seq<char>>, previous: Option<Seq<char>>) -> Option<
    Seq<char>,
> {
    if incoming is Some {
        incoming
    } else {
        previous
    }
}

/// The settings that a request makes of those before it.
pub open spec fn merged_settings(incoming: SettingsModel, previous: SettingsModel) -> SettingsModel {
    SettingsModel {
        node_path: kept_path(incoming.node_path, previous.node_path),
        pnpm_path: kept_path(incoming.pnpm_path, previous.pnpm_path),
        npm_path: kept_path(incoming.npm_path, previous.npm_path),
        port: incoming.port,
        profile: incoming.profile,
    }
}

fn keep_path(incoming: &Option<String>, previous: &Option<String>) -> (r: Option<String>)
    ensures
        text::opt_text(r) == kept_path(text::opt_text(*incoming), text::opt_text(*previous)),
{
    match incoming {
        Some(p) => Some(p.clone()),
        None => text::copy_opt(previous),
    }
}

/// The settings that a request makes of those before it: a path that the
/// request does not speak of stays; an empty one clears it.
pub fn merge_settings(incoming: &Settings, previous: &Settings) -> (r: Settings)
    ensures
        r@ == merged_settings(incoming@, previous@),
{
    Settings {
        node_path: keep_path(&incoming.node_path, &previous.node_path),
        pnpm_path: keep_path(&incoming.pnpm_path, &previous.pnpm_path),
        npm_path: keep_path(&incoming.npm_path, &previous.npm_path),
        port: incoming.port,
        profile: incoming.profile.clone(),
    }
}

/// What is said where the port cannot be changed.
pub open spec fn port_refusal(before: u16, after: u16) -> Seq<char> {
    "工作台正在运行，无法修改端口（当前 "@ + text::decimal_text(before as nat) + "，新值 "@
        + text::decimal_text(after as nat)
        + "）。请先点击「关闭工作台」停止工作台，再回来保存设置"@
}

/// The settings to save. The port cannot be changed while the workbench runs.
pub fn save_settings(incoming: &Settings, previous: &Settings, running: bool) -> (r: Result<
    Settings,
    String,
>)
    ensures
        r is Err <==> incoming.port != previous.port && running,
        r matches Ok(s) ==> s@ == merged_settings(incoming@, previous@),
        r matches Err(e) ==> e@ == port_refusal(previous.port, incoming.port),
{
    let merged = merge_settings(incoming, previous);
    if merged.port != previous.port && running {
        let lead = text::cat4(
            "工作台正在运行，无法修改端口（当前 ",
            text::decimal(previous.port as u64).as_str(),
            "，新值 ",
            text::decimal(merged.port as u64).as_str(),
        );
        return Err(
            text::cat2(
                lead.as_str(),
                "）。请先点击「关闭工作台」停止工作台，再回来保存设置",
            ),
        );
    }
    Ok(merged)
}

/// Saving what the panel sends, which has no paths, keeps every path.
pub proof fn law_paths_survive_the_panel(incoming: SettingsModel, previous: SettingsModel)
    requires
        incoming.node_path is None,
        incoming.pnpm_path is None,
        incoming.npm_path is None,
    ensures
        merged_settings(incoming, previous) == (SettingsModel {
            port: incoming.port,
            profile: incoming.profile,
            ..previous
        }),
{
}

// ---------------------------------------------------------------------- versions

/// What is asked of a version.
#[derive(Debug, Clone, Copy, PartialEq, Eq, Structural)]
pub enum VersionUse {
    Install,
    Activate,
    Remove,
    ListPlugins,
}

/// What is said of a version that is none.
pub open spec fn version_refusal(version: Seq<char>, what: VersionUse) -> Seq<char> {
    "版本号 "@ + text::quoted(version) + (match what {
        VersionUse::Install => " 形态非法，拒绝安装；请从「内核版本」页的官方发布列表中选择版本"@,
        VersionUse::Activate => " 形态非法，拒绝切换；请从「内核版本」页的已安装列表中选择版本"@,
        VersionUse::Remove => " 形态非法，拒绝删除；请从「内核版本」页的已安装列表中选择版本"@,
        VersionUse::ListPlugins => " 形态非法"@,
    })
}

/// Lets a version through that has the form of one.
pub fn check_version(version: &str, what: VersionUse) -> (r: Result<(), String>)
    ensures
        r is Ok <==> versions::kernel_version(version@),
        r matches Err(e) ==> e@ == version_refusal(version@, what),
{
    if versions::is_valid_kernel_version(version) {
        return Ok(());
    }
    let rest: &'static str = match what {
        VersionUse::Install => " 形态非法，拒绝安装；请从「内核版本」页的官方发布列表中选择版本",
        VersionUse::Activate => " 形态非法，拒绝切换；请从「内核版本」页的已安装列表中选择版本",
        VersionUse::Remove => " 形态非法，拒绝删除；请从「内核版本」页的已安装列表中选择版本",
        VersionUse::ListPlugins => " 形态非法",
    };
    Err(text::cat3("版本号 ", text::quote(version).as_str(), rest))
}

/// What is written and said once a version is installed.
#[derive(Debug)]
pub struct Activation {
    /// The new content of the file of the active version.
    pub content: String,
    pub progress: String,
}

/// Makes an installed version the active one where there is none yet. Nothing is
/// started.
pub fn complete_kernel_install(
    active: &Option<String>,
    running: bool,
    port: u16,
    bin_ready: bool,
    version: &str,
) -> (r: Result<Option<Activation>, String>)
    ensures
        *active is Some ==> r == Ok::<Option<Activation>, String>(None),
        *active is None ==> (r is Ok <==> !running && bin_ready),
        *active is None ==> (r matches Ok(a) ==> a is Some && a->0.content@ == version@ + "\n"@
            && a->0.progress@ == "已切换到版本 "@ + version@),
        r matches Err(e) ==> e@ == "内核错误："@ + (if running {
            versions::busy_text(port)
        } else {
            "版本 "@ + version@ + " 未安装或安装不完整"@
        }),
{
    if active.is_some() {
        return Ok(None);
    }
    match versions::set_active(running, port, bin_ready, version) {
        Ok(content) => Ok(
            Some(Activation { content, progress: text::cat2("已切换到版本 ", version) }),
        ),
        Err(e) => Err(e.message()),
    }
}

/// What pnpm is looked for with.
#[derive(Debug)]
pub struct PnpmRequest {
    pub node_path: String,
    pub node_dir: String,
    pub log: LogSpec,
}

/// The directory of a runtime.
pub open spec fn node_dir_of(path: Seq<char>) -> Seq<char> {
    match paths::parent_of(path) {
        Some(dir) => dir,
        None => "."@,
    }
}

/// Begins the search for pnpm with a runtime, unless that cannot be used. `kind`
/// is the shell's build and `epoch` the time in seconds: they name the log.
pub fn promise_pnpm(info: &NodeInfo, kind: &str, epoch: u64) -> (r: Result<PnpmRequest, String>)
    ensures
        r is Ok <==> info.ok,
        r matches Ok(p) ==> p.node_path@ == info.path@ && p.node_dir@ == node_dir_of(info.path@)
            && p.log.kind@ == kind@ && p.log.name@ == "pnpm-install-"@ + text::decimal_text(epoch as nat),
        r matches Err(e) ==> e@ == info.reason@,
{
    if !info.ok {
        return Err(info.reason.clone());
    }
    let node_dir = match paths::parent(info.path.as_str()) {
        Some(dir) => dir,
        None => text::owned("."),
    };
    let name = text::cat2("pnpm-install-", text::decimal(epoch).as_str());
    Ok(
        PnpmRequest {
            node_path: info.path.clone(),
            node_dir,
            log: LogSpec { kind: text::owned(kind), name },
        },
    )
}

// ----------------------------------------------------------------------- plugins

/// What is done with a plugin that was set aside.
#[derive(Debug, Clone, Copy, PartialEq, Eq, Structural)]
pub enum PluginResolution {
    Remove,
    Enable,
}

/// Reads what is to be done with a plugin that was set aside.
pub fn plugin_resolve(action: &str) -> (r: Result<PluginResolution, String>)
    ensures
        r == Ok::<PluginResolution, String>(PluginResolution::Remove) <==> action@ == "remove"@,
        r == Ok::<PluginResolution, String>(PluginResolution::Enable) <==> action@ == "enable"@,
        r is Err <==> action@ != "remove"@ && action@ != "enable"@,
        r matches Err(e) ==> e@ == "未知操作 "@ + text::quoted(action@) + "，支持 remove / enable"@,
{
    proof {
        reveal_strlit("remove");
        reveal_strlit("enable");
        assert("remove"@[0] != "enable"@[0]);
    }
    if text::same(action, "remove") {
        Ok(PluginResolution::Remove)
    } else if text::same(action, "enable") {
        Ok(PluginResolution::Enable)
    } else {
        Err(
            text::cat3("未知操作 ", text::quote(action).as_str(), "，支持 remove / enable"),
        )
    }
}

/// How a plugin is installed, where the request does not say.
pub fn plugin_install(mode: Option<String>) -> (r: String)
    ensures
        r@ == (match text::opt_text(mode) {
            Some(m) => m,
            None => "link"@,
        }),
{
    match mode {
        Some(m) => m,
        None => text::owned("link"),
    }
}

/// Warnings put together with one that is there already.
pub open spec fn merged_warning(existing: Option<Seq<char>>, loaded: Seq<Seq<char>>) -> Option<
    Seq<char>,
> {
    if loaded.len() == 0 {
        existing
    } else {
        match existing {
            Some(e) => Some(e + "；"@ + text::join_text(loaded, "；"@)),
            None => Some(text::join_text(loaded, "；"@)),
        }
    }
}

/// The warning of the patches: the one that is there, with those that loading
/// them gave.
pub fn patch_status(existing: Option<String>, loaded: &Vec<String>) -> (r: Option<String>)
    ensures
        text::opt_text(r) == merged_warning(text::opt_text(existing), text::texts(loaded@)),
{
    proof {
        assert(text::texts(loaded@).len() == loaded@.len());
    }
    if loaded.len() == 0 {
        return existing;
    }
    let all = text::join(loaded, "；");
    match existing {
        Some(e) => Some(text::cat3(e.as_str(), "；", all.as_str())),
        None => Some(all),
    }
}

/// The warnings of the patches that come with the shell, by what reading them
/// gave: none where they are not there.
pub fn load_bundled_patches(read: Option<Result<Vec<String>, String>>) -> (r: Vec<String>)
    ensures
        text::texts(r@) == (match read {
            None => Seq::<Seq<char>>::empty(),
            Some(Ok(warnings)) => text::texts(warnings@),
            Some(Err(reason)) => seq!["读取内置补丁失败："@ + reason@],
        }),
{
    let mut out: Vec<String> = Vec::new();
    match read {
        None => {
            proof {
                assert(text::texts(out@) =~= Seq::<Seq<char>>::empty());
            }
        },
        Some(Ok(warnings)) => {
            return warnings;
        },
        Some(Err(reason)) => {
            out.push(text::cat2("读取内置补丁失败：", reason.as_str()));
            proof {
                assert(text::texts(out@) =~= seq!["读取内置补丁失败："@ + reason@]);
            }
        },
    }
    out
}

// ----------------------------------------------------------------- official chats

/// The chat of DeepSeek.
pub const OFFICIAL_CHAT_URL: &'static str = "https://chat.deepseek.com";

/// The chat of Qianwen.
pub const OFFICIAL_CHAT_QIANWEN_URL: &'static str = "https://www.qianwen.com";

/// The chat of MiniMax.
pub const OFFICIAL_CHAT_MINIMAX_URL: &'static str = "https://agent.minimaxi.com";

/// How many chats there are.
pub const OFFICIAL_CHAT_COUNT: usize = 3;

/// The window of the chats.
pub const OFFICIAL_CHAT_WINDOW_LABEL: &'static str = "official-chat";

/// A chat in the list.
#[derive(Debug)]
pub struct OfficialChatTab {
    pub index: usize,
    pub title: String,
}

/// The title and the address of a chat.
pub open spec fn chat_at(index: int) -> (Seq<char>, Seq<char>) {
    if index == 0 {
        ("DeepSeek"@, OFFICIAL_CHAT_URL@)
    } else if index == 1 {
        ("千问"@, OFFICIAL_CHAT_QIANWEN_URL@)
    } else {
        ("MiniMax"@, OFFICIAL_CHAT_MINIMAX_URL@)
    }
}

/// The chats, in the order in which they are shown.
pub fn official_chat_tabs() -> (r: Vec<OfficialChatTab>)
    ensures
        r@.len() == OFFICIAL_CHAT_COUNT,
        forall|i: int|
            0 <= i < r@.len() ==> (#[trigger] r@[i]).index == i && r@[i].title@ == chat_at(i).0,
{
    let mut out: Vec<OfficialChatTab> = Vec::new();
    out.push(OfficialChatTab { index: 0, title: text::owned("DeepSeek") });
    out.push(OfficialChatTab { index: 1, title: text::owned("千问") });
    out.push(OfficialChatTab { index: 2, title: text::owned("MiniMax") });
    out
}

/// The page of a chat.
#[derive(Debug)]
pub struct ChatPage {
    pub label: String,
    pub url: String,
}

/// The name of a chat's page.
pub open spec fn chat_label(index: nat) -> Seq<char> {
    "official-chat-tab-"@ + text::decimal_text(index)
}

/// The page of a chat; there is none beyond the last one, nor where its address
/// is none.
pub fn add_official_chat_tab(index: usize) -> (r: Result<ChatPage, String>)
    ensures
        r is Ok <==> index < OFFICIAL_CHAT_COUNT && harness::url_fault(chat_at(index as int).1) is None,
        r matches Ok(p) ==> p.label@ == chat_label(index as nat) && p.url@ == chat_at(
            index as int,
        ).1,
        r matches Err(e) ==> e@ == (if index >= OFFICIAL_CHAT_COUNT {
            "官方对话页签不存在："@ + text::decimal_text(index as nat)
        } else {
            "非法页签地址："@ + harness::url_fault(chat_at(index as int).1)->0
        }),
{
    if index >= OFFICIAL_CHAT_COUNT {
        return Err(text::cat2("官方对话页签不存在：", text::decimal(index as u64).as_str()));
    }
    let url: &'static str = if index == 0 {
        OFFICIAL_CHAT_URL
    } else if index == 1 {
        OFFICIAL_CHAT_QIANWEN_URL
    } else {
        OFFICIAL_CHAT_MINIMAX_URL
    };
    match harness::check_url(url) {
        Some(e) => Err(text::cat2("非法页签地址：", e.as_str())),
        None => Ok(
            ChatPage {
                label: text::cat2("official-chat-tab-", text::decimal(index as u64).as_str()),
                url: text::owned(url),
            },
        ),
    }
}

/// What opening the chats comes to.
#[derive(Debug)]
pub enum ChatPlan {
    /// The window is brought to the front.
    Focus,
    /// The window is made, with its data in this directory and this page first.
    Build { profile_dir: String, first: ChatPage },
}

/// What opening the chats comes to: a window that is open is brought to the
/// front. Of the pages only the first is made at once.
pub fn open_official_chat(window_open: bool, data_dir: &str) -> (r: Result<ChatPlan, String>)
    ensures
        window_open ==> (r matches Ok(ChatPlan::Focus)),
        !window_open ==> match r {
            Ok(ChatPlan::Build { profile_dir, first }) => harness::url_fault(OFFICIAL_CHAT_URL@) is None
                && profile_dir@ == paths::joined(data_dir@, "webview-official-chat"@) && first.label@
                == chat_label(0) && first.url@ == OFFICIAL_CHAT_URL@,
            Ok(ChatPlan::Focus) => false,
            Err(e) => harness::url_fault(OFFICIAL_CHAT_URL@) is Some && e@ == "非法页签地址："@ + harness::url_fault(
                OFFICIAL_CHAT_URL@,
            )->0,
        },
{
    if window_open {
        return Ok(ChatPlan::Focus);
    }
    match add_official_chat_tab(0) {
        Ok(first) => Ok(
            ChatPlan::Build { profile_dir: paths::join(data_dir, "webview-official-chat"), first },
        ),
        Err(e) => Err(e),
    }
}

/// Where opening the chats, or one of them, came to an end.
#[derive(Debug)]
pub enum ChatFault {
    /// Another change of the windows broke off.
    LockBroken,
    NoDataDir(String),
    NoWindow(String),
    NoPage(String),
    NoStrip(String),
    /// The thread that makes the window ended without a word.
    WindowThreadGone,
    /// The thread that makes a page ended without a word.
    PageThreadGone,
}

impl ChatFault {
    /// What the user is told.
    pub fn message(&self) -> (r: String)
        ensures
            r@ == (match *self {
                ChatFault::LockBroken => "官方对话窗口状态锁已损坏"@,
                ChatFault::NoDataDir(e) => "无法创建官方对话数据目录："@ + e@,
                ChatFault::NoWindow(e) => "无法创建官方对话窗口："@ + e@,
                ChatFault::NoPage(e) => "无法创建官方对话页签："@ + e@,
                ChatFault::NoStrip(e) => "无法创建官方对话页签栏："@ + e@,
                ChatFault::WindowThreadGone => "官方对话窗口创建线程已结束，未返回结果"@,
                ChatFault::PageThreadGone => "官方对话页签创建线程已结束，未返回结果"@,
            }),
    {
        match self {
            ChatFault::LockBroken => text::owned("官方对话窗口状态锁已损坏"),
            ChatFault::NoDataDir(e) => text::cat2("无法创建官方对话数据目录：", e.as_str()),
            ChatFault::NoWindow(e) => text::cat2("无法创建官方对话窗口：", e.as_str()),
            ChatFault::NoPage(e) => text::cat2("无法创建官方对话页签：", e.as_str()),
            ChatFault::NoStrip(e) => text::cat2("无法创建官方对话页签栏：", e.as_str()),
            ChatFault::WindowThreadGone => text::owned("官方对话窗口创建线程已结束，未返回结果"),
            ChatFault::PageThreadGone => text::owned("官方对话页签创建线程已结束，未返回结果"),
        }
    }
}

/// What switching to a chat comes to.
#[derive(Debug)]
pub struct TabSwitch {
    /// The page is made first.
    pub mount: bool,
    /// The page that is shown.
    pub show: String,
    /// The pages that are hidden.
    pub others: Vec<String>,
}

/// The pages of the other chats.
pub open spec fn other_labels(index: nat, upto: nat) -> Seq<Seq<char>>
    decreases upto,
{
    if upto == 0 {
        Seq::empty()
    } else {
        let before = other_labels(index, (upto - 1) as nat);
        if upto - 1 == index {
            before
        } else {
            before.push(chat_label((upto - 1) as nat))
        }
    }
}

/// Switches to a chat: its page is made where it is not there yet, and shown in
/// place of the others.
pub fn switch_official_chat_tab(index: usize, window_open: bool, mounted: bool) -> (r: Result<
    TabSwitch,
    String,
>)
    ensures
        r is Ok <==> index < OFFICIAL_CHAT_COUNT && window_open,
        r matches Ok(s) ==> s.mount == !mounted && s.show@ == chat_label(index as nat) && text::texts(
            s.others@,
        ) == other_labels(index as nat, OFFICIAL_CHAT_COUNT as nat),
        r matches Err(e) ==> e@ == (if index >= OFFICIAL_CHAT_COUNT {
            "官方对话页签不存在："@ + text::decimal_text(index as nat)
        } else {
            "官方对话窗口未打开"@
        }),
{
    if index >= OFFICIAL_CHAT_COUNT {
        return Err(text::cat2("官方对话页签不存在：", text::decimal(index as u64).as_str()));
    }
    match close_official_chat(window_open) {
        Ok(_) => {},
        Err(e) => {
            return Err(e);
        },
    }
    let show = text::cat2("official-chat-tab-", text::decimal(index as u64).as_str());
    let mut others: Vec<String> = Vec::new();
    let mut i: usize = 0;
    proof {
        assert(text::texts(others@) =~= Seq::<Seq<char>>::empty());
    }
    while i < OFFICIAL_CHAT_COUNT
        invariant
            i <= OFFICIAL_CHAT_COUNT,
            text::texts(others@) == other_labels(index as nat, i as nat),
        decreases OFFICIAL_CHAT_COUNT - i,
    {
        if i != index {
            let label = text::cat2("official-chat-tab-", text::decimal(i as u64).as_str());
            proof {
                assert(text::texts(others@.push(label)) =~= text::texts(others@).push(label@));
            }
            others.push(label);
        }
        i = i + 1;
    }
    Ok(TabSwitch { mount: !mounted, show, others })
}

/// Closing the chats needs them to be open.
pub fn close_official_chat(window_open: bool) -> (r: Result<(), String>)
    ensures
        r is Ok <==> window_open,
        r matches Err(e) ==> e@ == "官方对话窗口未打开"@,
{
    if window_open {
        Ok(())
    } else {
        Err(text::owned("官方对话窗口未打开"))
    }
}

/// What may make the chats be laid out anew.
#[derive(Debug, Clone, Copy, PartialEq, Eq, Structural)]
pub enum OfficialChatRelayoutTrigger {
    /// The window's size or scale changed.
    Geometry,
    /// The window got or lost the focus.
    Focused(bool),
    Other,
}

/// Whether the chats are laid out anew.
pub fn should_relayout_for_trigger(trigger: OfficialChatRelayoutTrigger) -> (r: bool)
    ensures
        r == (trigger == OfficialChatRelayoutTrigger::Geometry || trigger
            == OfficialChatRelayoutTrigger::Focused(true)),
{
    match trigger {
        OfficialChatRelayoutTrigger::Geometry => true,
        OfficialChatRelayoutTrigger::Focused(f) => f,
        OfficialChatRelayoutTrigger::Other => false,
    }
}

// ------------------------------------------------------------- the shell's windows

/// The main window has to be there.
pub fn focus_main_shell(main_open: bool) -> (r: Result<(), String>)
    ensures
        r is Ok <==> main_open,
        r matches Err(e) ==> e@ == "主壳窗口不存在（label: main）"@,
{
    if main_open {
        Ok(())
    } else {
        Err(text::owned("主壳窗口不存在（label: main）"))
    }
}

/// Whether the main window goes to the tray when it is minimised: on Windows it
/// does, and has to be there; elsewhere nothing is to be done.
pub fn minimize_shell(windows: bool, main_open: bool) -> (r: Result<bool, String>)
    ensures
        r is Ok <==> !windows || main_open,
        r matches Ok(hides) ==> hides == windows,
        r matches Err(e) ==> e@ == "主壳窗口不存在（label: main）"@,
{
    if !windows {
        return Ok(false);
    }
    match focus_main_shell(main_open) {
        Ok(_) => Ok(true),
        Err(e) => Err(e),
    }
}

/// The colour behind a page that is not painted yet, as red, green, blue and
/// opacity. Where the theme is not known it is taken for the dark one.
pub fn chrome_backdrop(dark: Option<bool>) -> (r: (u8, u8, u8, u8))
    ensures
        r == (if dark == Some(false) {
            (0xf7u8, 0xf7u8, 0xf8u8, 0xffu8)
        } else {
            (0x16u8, 0x17u8, 0x1au8, 0xffu8)
        }),
{
    match dark {
        Some(false) => (0xf7, 0xf7, 0xf8, 0xff),
        _ => (0x16, 0x17, 0x1a, 0xff),
    }
}

/// The windows that a confirmed exit closes before the main one.
pub open spec fn closed_windows() -> Seq<Seq<char>> {
    seq!["official-chat"@, "harness"@, "log-viewer"@]
}

/// The windows that a confirmed exit closes before the main one, which has to be
/// there.
pub fn confirm_close_shell(main_open: bool) -> (r: Result<Vec<String>, String>)
    ensures
        r is Ok <==> main_open,
        r matches Ok(labels) ==> text::texts(labels@) == closed_windows(),
        r matches Err(e) ==> e@ == "主壳窗口不存在（label: main）"@,
{
    match focus_main_shell(main_open) {
        Ok(_) => {},
        Err(e) => {
            return Err(e);
        },
    }
    let mut out: Vec<String> = Vec::new();
    out.push(text::owned("official-chat"));
    out.push(text::owned("harness"));
    out.push(text::owned("log-viewer"));
    proof {
        assert(text::texts(out@) =~= closed_windows());
    }
    Ok(out)
}

/// What happened to the shell.
#[derive(Debug)]
pub enum ShellEvent {
    /// A window was asked to close.
    CloseRequested {
        label: String,
        /// The request is taken as one to go to the tray.
        to_tray: bool,
        kernel_running: bool,
        chat_open: bool,
    },
    Focused { label: String, focused: bool },
    Destroyed { label: String },
    Exit,
}

/// What the shell does about it.
#[derive(Debug, Clone, Copy, PartialEq, Eq, Structural)]
pub enum ShellAction {
    /// Nothing: what was asked for goes on.
    Pass,
    /// The window goes to the tray.
    HideToTray,
    /// The window stays, and the user is asked whether to quit.
    AskToQuit { kernel_running: bool, official_chat_open: bool },
    /// The workbench is looked at, or not any more.
    WorkbenchFocused(bool),
    /// The chats are closed, the kernel is stopped, and its record is removed.
    TearDown,
}

/// What the shell does about an event.
pub open spec fn shell_reaction(event: ShellEvent) -> ShellAction {
    match event {
        ShellEvent::CloseRequested {
            label,
            to_tray,
            kernel_running,
            chat_open,
        } => if to_tray {
            ShellAction::HideToTray
        } else if label@ == "main"@ && (kernel_running || chat_open) {
            ShellAction::AskToQuit { kernel_running, official_chat_open: chat_open }
        } else {
            ShellAction::Pass
        },
        ShellEvent::Focused { label, focused } => if label@ == "harness"@ {
            ShellAction::WorkbenchFocused(focused)
        } else {
            ShellAction::Pass
        },
        ShellEvent::Destroyed { label } => if label@ == "harness"@ {
            ShellAction::WorkbenchFocused(false)
        } else {
            ShellAction::Pass
        },
        ShellEvent::Exit => ShellAction::TearDown,
    }
}

/// Decides what the shell does about an event.
pub fn run(event: &ShellEvent) -> (r: ShellAction)
    ensures
        r == shell_reaction(*event),
{
    match event {
        ShellEvent::CloseRequested { label, to_tray, kernel_running, chat_open } => {
            if *to_tray {
                ShellAction::HideToTray
            } else if text::same(label.as_str(), "main") && (*kernel_running || *chat_open) {
                ShellAction::AskToQuit {
                    kernel_running: *kernel_running,
                    official_chat_open: *chat_open,
                }
            } else {
                ShellAction::Pass
            }
        },
        ShellEvent::Focused { label, focused } => {
            if text::same(label.as_str(), "harness") {
                ShellAction::WorkbenchFocused(*focused)
            } else {
                ShellAction::Pass
            }
        },
        ShellEvent::Destroyed { label } => {
            if text::same(label.as_str(), "harness") {
                ShellAction::WorkbenchFocused(false)
            } else {
                ShellAction::Pass
            }
        },
        ShellEvent::Exit => ShellAction::TearDown,
    }
}

/// The main window does not close unasked while the kernel runs or a chat is
/// open.
pub proof fn law_a_running_kernel_is_not_left_behind(
    label: String,
    kernel_running: bool,
    chat_open: bool,
)
    requires
        label@ == "main"@,
        kernel_running || chat_open,
    ensures
        shell_reaction(
            (ShellEvent::CloseRequested { label, to_tray: false, kernel_running, chat_open }),
        ) is AskToQuit,
{
}

/// A workbench window that is gone is not looked at, whatever it said last.
pub proof fn law_a_closed_workbench_is_not_looked_at(label: String)
    requires
        label@ == "harness"@,
    ensures
        shell_reaction((ShellEvent::Destroyed { label })) == ShellAction::WorkbenchFocused(false),
{
}

/// A request's own paths, its port and its profile are what is saved; of the
/// paths that it does not speak of, those from before.
pub proof fn law_requests_are_saved(incoming: SettingsModel, previous: SettingsModel)
    ensures
        ({
            let r = merged_settings(incoming, previous);
            &&& r.port == incoming.port && r.profile == incoming.profile
            &&& incoming.node_path is Some ==> r.node_path == incoming.node_path
            &&& incoming.node_path is None ==> r.node_path == previous.node_path
            &&& incoming.pnpm_path is Some ==> r.pnpm_path == incoming.pnpm_path
            &&& incoming.pnpm_path is None ==> r.pnpm_path == previous.pnpm_path
            &&& incoming.npm_path is Some ==> r.npm_path == incoming.npm_path
            &&& incoming.npm_path is None ==> r.npm_path == previous.npm_path
        }),
        merged_settings(incoming, merged_settings(incoming, previous)) == merged_settings(
            incoming,
            previous,
        ),
{
}

/// A window that goes to the tray is hidden, whatever runs; only the main window
/// asks before it closes, and only while something runs, and it tells what. Any
/// other window closes as it is told.
pub proof fn law_windows_close_as_told(
    label: String,
    kernel_running: bool,
    chat_open: bool,
    focused: bool,
)
    ensures
        shell_reaction(
            (ShellEvent::CloseRequested { label, to_tray: true, kernel_running, chat_open }),
        ) == ShellAction::HideToTray,
        ({
            let r = shell_reaction(
                (ShellEvent::CloseRequested { label, to_tray: false, kernel_running, chat_open }),
            );
            &&& label@ == "main"@ && (kernel_running || chat_open) ==> r == (ShellAction::AskToQuit {
                kernel_running,
                official_chat_open: chat_open,
            })
            &&& label@ != "main"@ || !kernel_running && !chat_open ==> r == ShellAction::Pass
        }),
        label@ == "harness"@ ==> shell_reaction((ShellEvent::Focused { label, focused }))
            == ShellAction::WorkbenchFocused(focused),
        label@ != "harness"@ ==> shell_reaction((ShellEvent::Focused { label, focused }))
            == ShellAction::Pass && shell_reaction((ShellEvent::Destroyed { label }))
            == ShellAction::Pass,
        shell_reaction(ShellEvent::Exit) == ShellAction::TearDown,
{
}

/// Switching to a chat hides every other page, and never the one that is shown.
pub proof fn law_other_pages_are_hidden(index: nat, upto: nat, j: nat)
    ensures
        other_labels(index, upto).contains(chat_label(j)) <==> j < upto && j != index,
        index < upto ==> other_labels(index, upto).len() == upto - 1,
        index >= upto ==> other_labels(index, upto).len() == upto,
    decreases upto,
{
    let out = other_labels(index, upto);
    if upto > 0 {
        let last = (upto - 1) as nat;
        let before = other_labels(index, last);
        law_other_pages_are_hidden(index, last, j);
        lemma_labels_differ(j, last);
        if before.contains(chat_label(j)) {
            let k = choose|k: int| 0 <= k < before.len() && before[k] == chat_label(j);
            assert(out[k] == chat_label(j));
        }
        if last != index {
            assert(out[out.len() - 1] == chat_label(last));
        }
        if out.contains(chat_label(j)) {
            let k = choose|k: int| 0 <= k < out.len() && out[k] == chat_label(j);
            if k < before.len() {
                assert(before[k] == chat_label(j));
            }
        }
    }
}

proof fn lemma_labels_differ(a: nat, b: nat)
    ensures
        chat_label(a) == chat_label(b) <==> a == b,
{
    let head = "official-chat-tab-"@;
    text::law_decimals_tell_numbers_apart(a, b);
    assert(chat_label(a).skip(head.len() as int) =~= text::decimal_text(a));
    assert(chat_label(b).skip(head.len() as int) =~= text::decimal_text(b));
}

/// The chats and their addresses, in the order in which they are shown, each
/// with a page of its own.
pub proof fn law_the_chats(a: nat, b: nat)
    ensures
        chat_at(0) == ("DeepSeek"@, "https://chat.deepseek.com"@),
        chat_at(1) == ("千问"@, "https://www.qianwen.com"@),
        chat_at(2) == ("MiniMax"@, "https://agent.minimaxi.com"@),
        chat_label(a) == chat_label(b) <==> a == b,
{
    lemma_labels_differ(a, b);
}

/// No warning is lost: one that was there stands first, and each of those that
/// loading gave is told too; without any there is none.
pub proof fn law_warnings_are_put_together(existing: Option<Seq<char>>, loaded: Seq<Seq<char>>)
    ensures
        merged_warning(existing, Seq::empty()) == existing,
        merged_warning(existing, loaded) is None <==> existing is None && loaded.len() == 0,
        existing is Some && loaded.len() > 0 ==> text::begins(
            merged_warning(existing, loaded)->0,
            existing->0,
        ),
        loaded.len() > 0 ==> text::ends(
            merged_warning(existing, loaded)->0,
            text::join_text(loaded, "；"@),
        ),
{
    if loaded.len() > 0 {
        let all = text::join_text(loaded, "；"@);
        let r = merged_warning(existing, loaded)->0;
        assert(r.subrange(r.len() - all.len(), r.len() as int) =~= all);
        if let Some(e) = existing {
            assert(r.subrange(0, e.len() as int) =~= e);
        }
    }
}

/// A confirmed exit closes every window but the main one.
pub proof fn law_an_exit_closes_the_windows()
    ensures
        closed_windows().contains("official-chat"@),
        closed_windows().contains("harness"@),
        closed_windows().contains("log-viewer"@),
        !closed_windows().contains("main"@),
{
    let w = closed_windows();
    assert(w[0] == "official-chat"@ && w[1] == "harness"@ && w[2] == "log-viewer"@);
    reveal_strlit("official-chat");
    reveal_strlit("harness");
    reveal_strlit("log-viewer");
    reveal_strlit("main");
    assert("official-chat"@.len() == 13 && "harness"@.len() == 7 && "log-viewer"@.len() == 10
        && "main"@.len() == 4);
}

} // verus!
