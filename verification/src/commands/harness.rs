//! The workbench window: where it is opened, when it is opened anew, and what
//! it may report.

use crate::guard::incident::{HealthModel, HealthReport};
use crate::kernel::process::ListenerIdentity;
use crate::text;
use vstd::prelude::*;

verus! {

// ---------------------------------------------------------------- health reports

/// The most characters of the kind of a report.
pub const MAX_KIND_CHARS: usize = 80;

/// The most characters of the message of a report.
pub const MAX_MESSAGE_CHARS: usize = 2_000;

/// The most characters of the stack of a report.
pub const MAX_STACK_CHARS: usize = 8_000;

/// The most characters of the address of a report.
pub const MAX_URL_CHARS: usize = 1_000;

/// A field of a report, trimmed, or why it is refused.
pub open spec fn bounded(field: Seq<char>, value: Seq<char>, max: nat, required: bool) -> Result<
    Seq<char>,
    Seq<char>,
> {
    let t = text::trim_text(value);
    if required && t.len() == 0 {
        Err("工作台自检的"@ + field + "不能为空"@)
    } else if t.len() > max {
        Err("工作台自检的"@ + field + "过长，请重新打开工作台"@)
    } else {
        Ok(t)
    }
}

/// The content of a result.
pub open spec fn reply(r: Result<String, String>) -> Result<Seq<char>, Seq<char>> {
    match r {
        Ok(s) => Ok(s@),
        Err(e) => Err(e@),
    }
}

/// Takes a field of a report: trimmed, not empty where it is required, and of
/// no more than `max_chars` characters.
pub fn bounded_health_text(field: &str, value: &str, max_chars: usize, required: bool) -> (r: Result<
    String,
    String,
>)
    ensures
        reply(r) == bounded(field@, value@, max_chars as nat, required),
{
    let t = text::trim(value);
    if required && t.as_str().is_empty() {
        return Err(text::cat3("工作台自检的", field, "不能为空"));
    }
    let n = text::chars_of(t.as_str()).len();
    if n > max_chars {
        return Err(text::cat3("工作台自检的", field, "过长，请重新打开工作台"));
    }
    Ok(t)
}

/// A kind of report that is known.
pub open spec fn known_kind(kind: Seq<char>) -> bool {
    kind == "blank"@ || kind == "runtime-error"@ || kind == "unhandled-rejection"@
}

/// The report that a window made, or why it is refused.
pub open spec fn accepted_report(label: Seq<char>, raw: HealthModel) -> Result<
    HealthModel,
    Seq<char>,
> {
    let kind = bounded("类型"@, raw.kind, MAX_KIND_CHARS as nat, true);
    let message = bounded("错误信息"@, raw.message, MAX_MESSAGE_CHARS as nat, true);
    let stack = bounded("错误堆栈"@, raw.stack, MAX_STACK_CHARS as nat, false);
    let page_url = bounded("页面地址"@, raw.page_url, MAX_URL_CHARS as nat, false);
    if label != "harness"@ {
        Err("工作台自检只能由 harness 窗口报告"@)
    } else if kind is Err {
        Err(kind->Err_0)
    } else if !known_kind(kind->Ok_0) {
        Err("工作台自检类型无效，请重新打开工作台"@)
    } else if message is Err {
        Err(message->Err_0)
    } else if stack is Err {
        Err(stack->Err_0)
    } else if page_url is Err {
        Err(page_url->Err_0)
    } else {
        Ok(
            HealthModel {
                kind: kind->Ok_0,
                message: message->Ok_0,
                stack: stack->Ok_0,
                page_url: page_url->Ok_0,
            },
        )
    }
}

/// Takes the report that a window made: only the workbench may report, of a
/// known kind and within bounds.
pub fn report_harness_fault(label: &str, raw: &HealthReport) -> (r: Result<HealthReport, String>)
    ensures
        match r {
            Ok(report) => accepted_report(label@, raw@) == Ok::<HealthModel, Seq<char>>(report@),
            Err(e) => accepted_report(label@, raw@) == Err::<HealthModel, Seq<char>>(e@),
        },
{
    if !text::same(label, "harness") {
        return Err(text::owned("工作台自检只能由 harness 窗口报告"));
    }
    let kind = match bounded_health_text("类型", raw.kind.as_str(), MAX_KIND_CHARS, true) {
        Ok(s) => s,
        Err(e) => {
            return Err(e);
        },
    };
    if !(text::same(kind.as_str(), "blank") || text::same(kind.as_str(), "runtime-error")
        || text::same(kind.as_str(), "unhandled-rejection")) {
        return Err(text::owned("工作台自检类型无效，请重新打开工作台"));
    }
    let message = match bounded_health_text(
        "错误信息",
        raw.message.as_str(),
        MAX_MESSAGE_CHARS,
        true,
    ) {
        Ok(s) => s,
        Err(e) => {
            return Err(e);
        },
    };
    let stack = match bounded_health_text("错误堆栈", raw.stack.as_str(), MAX_STACK_CHARS, false) {
        Ok(s) => s,
        Err(e) => {
            return Err(e);
        },
    };
    let page_url = match bounded_health_text(
        "页面地址",
        raw.page_url.as_str(),
        MAX_URL_CHARS,
        false,
    ) {
        Ok(s) => s,
        Err(e) => {
            return Err(e);
        },
    };
    Ok(HealthReport { kind, message, stack, page_url })
}

/// A report that is taken stays within its bounds, and tells something.
pub proof fn law_reports_are_bounded(label: Seq<char>, raw: HealthModel)
    ensures
        accepted_report(label, raw) matches Ok(report) ==> known_kind(report.kind)
            && 0 < report.message.len() <= MAX_MESSAGE_CHARS && report.stack.len()
            <= MAX_STACK_CHARS && report.page_url.len() <= MAX_URL_CHARS,
{
}

// ------------------------------------------------------------- the address to open

/// The address of the workbench up to its token.
pub open spec fn token_stem(port: u16) -> Seq<char> {
    "http://127.0.0.1:"@ + text::decimal_text(port as nat) + "/?token="@
}

/// A character of a token.
pub open spec fn token_char(c: char) -> bool {
    text::is_alnum(c) || c == '_' || c == '-'
}

/// How many characters of a token a text starts with.
pub open spec fn token_run(s: Seq<char>) -> int
    decreases s.len(),
{
    if s.len() > 0 && token_char(s[0]) {
        1 + token_run(s.drop_first())
    } else {
        0
    }
}

proof fn lemma_token_run(s: Seq<char>, i: int)
    requires
        0 <= i <= s.len(),
        forall|k: int| 0 <= k < i ==> token_char(#[trigger] s[k]),
        i < s.len() ==> !token_char(s[i]),
    ensures
        token_run(s) == i,
    decreases s.len(),
{
    if i > 0 {
        assert(token_char(s[0]));
        assert forall|k: int| 0 <= k < i - 1 implies token_char(#[trigger] s.drop_first()[k]) by {
            assert(token_char(s[k + 1]));
        }
        lemma_token_run(s.drop_first(), i - 1);
    }
}

/// The last address with a token that the kernel's log holds.
pub open spec fn logged_url(tail: Seq<char>, port: u16) -> Option<Seq<char>> {
    let stem = token_stem(port);
    match text::last_upto(tail, stem, tail.len() as int) {
        None => None,
        Some(i) => {
            let rest = tail.skip(i + stem.len());
            let n = token_run(rest);
            if n == 0 {
                None
            } else {
                Some(stem + rest.take(n))
            }
        },
    }
}

/// The last address with a token that the end of the kernel's log holds.
pub fn kernel_workbench_url_from_log(tail: &str, port: u16) -> (r: Option<String>)
    ensures
        text::opt_text(r) == logged_url(tail@, port),
{
    let stem = text::cat3("http://127.0.0.1:", text::decimal(port as u64).as_str(), "/?token=");
    let tc = text::chars_of(tail);
    let sc = text::chars_of(stem.as_str());
    let at = match text::rfind(&tc, &sc) {
        Some(i) => i,
        None => {
            return None;
        },
    };
    proof {
        lemma_last_upto(tail@, stem@, tail@.len() as int);
    }
    let from: usize = at + sc.len();
    let ghost rest = tail@.skip(from as int);
    let mut i: usize = from;
    while i < tc.len() && (text::alnum(tc[i]) || tc[i] == '_' || tc[i] == '-')
        invariant
            from <= i <= tc.len(),
            tc@ == tail@,
            rest == tail@.skip(from as int),
            forall|k: int| 0 <= k < i - from ==> token_char(#[trigger] rest[k]),
        decreases tc.len() - i,
    {
        proof {
            assert(rest[i - from] == tc@[i as int]);
        }
        i = i + 1;
    }
    proof {
        if i < tc.len() {
            assert(rest[i - from] == tc@[i as int]);
        }
        lemma_token_run(rest, i - from);
    }
    if i == from {
        return None;
    }
    let token = text::string_of(&tc, from, i);
    proof {
        assert(token@ =~= rest.take(i - from));
    }
    Some(text::cat2(stem.as_str(), token.as_str()))
}

proof fn lemma_last_upto(s: Seq<char>, pat: Seq<char>, upto: int)
    ensures
        text::last_upto(s, pat, upto) matches Some(i) ==> 0 <= i && i + pat.len() <= s.len() && text::occurs_at(
            s,
            pat,
            i,
        ),
    decreases upto + 1,
{
    if upto >= 0 && !text::occurs_at(s, pat, upto) {
        lemma_last_upto(s, pat, upto - 1);
    }
}

/// A status with which the workbench answers: a page, or a redirection.
pub fn workbench_url_responds(status: Option<u16>) -> (r: bool)
    ensures
        r == (status matches Some(s) && 200 <= s < 400),
{
    match status {
        Some(s) => 200 <= s && s < 400,
        None => false,
    }
}

/// What is known while the address is looked for.
#[derive(Debug)]
pub enum UrlEvent {
    /// The end of the log was read.
    LogRead(String),
    /// An address of the log was tried.
    Tried { url: String, answers: bool },
    /// The bare address was tried.
    BareTried { answers: bool, past_deadline: bool },
}

/// What is done next to find the address.
#[derive(Debug)]
pub enum UrlAction {
    /// An address of the log is tried.
    Try(String),
    /// The bare address is tried, as older kernels answer it.
    TryBare(String),
    /// The log is read again after a while.
    Wait,
    Finish(Result<String, String>),
}

/// The content of what is done next.
#[verifier::ext_equal]
pub enum UrlModel {
    Try(Seq<char>),
    TryBare(Seq<char>),
    Wait,
    Finish(Result<Seq<char>, Seq<char>>),
}

impl View for UrlAction {
    type V = UrlModel;

    open spec fn view(&self) -> UrlModel {
        match self {
            UrlAction::Try(u) => UrlModel::Try(u@),
            UrlAction::TryBare(u) => UrlModel::TryBare(u@),
            UrlAction::Wait => UrlModel::Wait,
            UrlAction::Finish(r) => UrlModel::Finish(reply(*r)),
        }
    }
}

/// The address of the workbench without a token.
pub open spec fn bare_url(port: u16) -> Seq<char> {
    "http://127.0.0.1:"@ + text::decimal_text(port as nat)
}

/// What is done after an event.
pub open spec fn url_next(event: UrlEvent, port: u16, log_path: Seq<char>) -> UrlModel {
    match event {
        UrlEvent::LogRead(tail) => match logged_url(tail@, port) {
            Some(u) => UrlModel::Try(u),
            None => UrlModel::TryBare(bare_url(port)),
        },
        UrlEvent::Tried { url, answers } => if answers {
            UrlModel::Finish(Ok(url@))
        } else {
            UrlModel::TryBare(bare_url(port))
        },
        UrlEvent::BareTried { answers, past_deadline } => if answers {
            UrlModel::Finish(Ok(bare_url(port)))
        } else if past_deadline {
            UrlModel::Finish(
                Err("无法确认内核工作台地址，请打开日志后重试（日志："@ + log_path + "）"@),
            )
        } else {
            UrlModel::Wait
        },
    }
}

/// Takes the search for the workbench's address one step on. The log may still
/// hold the token of an earlier kernel, so an address counts only once it
/// answers.
pub fn kernel_workbench_url(event: UrlEvent, port: u16, log_path: &str) -> (r: UrlAction)
    ensures
        r@ == url_next(event, port, log_path@),
{
    let bare = text::cat2("http://127.0.0.1:", text::decimal(port as u64).as_str());
    match event {
        UrlEvent::LogRead(tail) => match kernel_workbench_url_from_log(tail.as_str(), port) {
            Some(u) => UrlAction::Try(u),
            None => UrlAction::TryBare(bare),
        },
        UrlEvent::Tried { url, answers } => {
            if answers {
                UrlAction::Finish(Ok(url))
            } else {
                UrlAction::TryBare(bare)
            }
        },
        UrlEvent::BareTried { answers, past_deadline } => {
            if answers {
                UrlAction::Finish(Ok(bare))
            } else if past_deadline {
                UrlAction::Finish(
                    Err(
                        text::cat3(
                            "无法确认内核工作台地址，请打开日志后重试（日志：",
                            log_path,
                            "）",
                        ),
                    ),
                )
            } else {
                UrlAction::Wait
            }
        },
    }
}

/// An address that does not answer is never opened, whatever the log holds.
pub proof fn law_only_answering_addresses_are_opened(
    event: UrlEvent,
    port: u16,
    log_path: Seq<char>,
)
    ensures
        url_next(event, port, log_path) matches UrlModel::Finish(Ok(found)) ==> (
        event matches UrlEvent::Tried { url, answers } && answers && url@ == found) || (
        event matches UrlEvent::BareTried { answers, .. } && answers && found == bare_url(port)),
{
}

/// Among several addresses in the log the last one counts.
pub proof fn law_the_latest_token_is_tried(before: Seq<char>, token: Seq<char>, port: u16)
    requires
        token.len() > 0,
        forall|i: int| 0 <= i < token.len() ==> token_char(#[trigger] token[i]),
    ensures
        logged_url(before + token_stem(port) + token + "\n"@, port) == Some(
            token_stem(port) + token,
        ),
{
    let stem = token_stem(port);
    let tail = before + stem + token + "\n"@;
    let at = before.len() as int;
    reveal_strlit("\n");
    reveal_strlit("http://127.0.0.1:");
    reveal_strlit("/?token=");
    assert(stem[4] == ':');
    assert(tail.subrange(at, at + stem.len()) =~= stem);
    assert(text::occurs_at(tail, stem, at));
    let rest = tail.skip(at + stem.len());
    assert(rest =~= token + "\n"@);
    assert forall|k: int| at < k <= tail.len() implies !text::occurs_at(tail, stem, k) by {
        lemma_stem_stands_once(before, port, token, k);
    }
    lemma_last_at(tail, stem, tail.len() as int, at);
    assert forall|k: int| 0 <= k < token.len() implies token_char(#[trigger] rest[k]) by {
        assert(token_char(token[k]));
    }
    lemma_token_run(rest, token.len() as int);
    assert(rest.take(token.len() as int) =~= token);
}

/// Past its first pair the stem holds no two slashes in a row.
proof fn lemma_stem_slashes(port: u16)
    ensures
        token_stem(port).len() > 17,
        token_stem(port)[5] == '/',
        token_stem(port)[6] == '/',
        forall|x: int|
            5 < x < token_stem(port).len() - 1 && #[trigger] token_stem(port)[x] == '/'
                ==> token_stem(port)[x + 1] != '/',
{
    let stem = token_stem(port);
    let d = text::decimal_text(port as nat);
    let head = "http://127.0.0.1:"@;
    let foot = "/?token="@;
    reveal_strlit("http://127.0.0.1:");
    reveal_strlit("/?token=");
    text::lemma_decimal_value(port as nat);
    assert forall|x: int| 5 < x < stem.len() - 1 && #[trigger] stem[x] == '/' implies stem[x + 1]
        != '/' by {
        if x < 16 {
            assert(stem[x + 1] == head[x + 1]);
        } else if x == 16 {
            assert(stem[x] == head[x]);
        } else if x < 17 + d.len() {
            assert(stem[x] == d[x - 17]);
            assert(text::is_digit(d[x - 17]));
        } else {
            assert(stem[x + 1] == foot[x + 1 - 17 - d.len()]);
        }
    }
}

proof fn lemma_stem_stands_once(before: Seq<char>, port: u16, token: Seq<char>, k: int)
    requires
        forall|i: int| 0 <= i < token.len() ==> token_char(#[trigger] token[i]),
        k > before.len(),
    ensures
        !text::occurs_at(before + token_stem(port) + token + "\n"@, token_stem(port), k),
{
    let stem = token_stem(port);
    lemma_stem_slashes(port);
    lemma_no_later_pair(before, stem, token, k);
}

/// A later occurrence would put two slashes in a row where the text past the
/// first pair has none.
proof fn lemma_no_later_pair(before: Seq<char>, stem: Seq<char>, token: Seq<char>, k: int)
    requires
        stem.len() > 17,
        stem[5] == '/',
        stem[6] == '/',
        forall|x: int|
            5 < x < stem.len() - 1 && #[trigger] stem[x] == '/' ==> stem[x + 1] != '/',
        forall|i: int| 0 <= i < token.len() ==> token_char(#[trigger] token[i]),
        k > before.len(),
    ensures
        !text::occurs_at(before + stem + token + "\n"@, stem, k),
{
    let tail = before + stem + token + "\n"@;
    reveal_strlit("\n");
    if text::occurs_at(tail, stem, k) {
        let found = tail.subrange(k, k + stem.len());
        assert(found[5] == tail[k + 5]);
        assert(found[6] == tail[k + 6]);
        let x = k + 5 - before.len();
        if x + 1 < stem.len() {
            assert(tail[k + 5] == stem[x]);
            assert(tail[k + 6] == stem[x + 1]);
        } else {
            let y = x + 1 - stem.len();
            if y < token.len() {
                assert(tail[k + 6] == token[y]);
                assert(token_char(token[y]));
            } else {
                assert(tail[k + 6] == '\n');
            }
        }
    }
}

proof fn lemma_last_at(s: Seq<char>, pat: Seq<char>, upto: int, at: int)
    requires
        0 <= at <= upto,
        text::occurs_at(s, pat, at),
        forall|k: int| at < k <= upto ==> !text::occurs_at(s, pat, k),
    ensures
        text::last_upto(s, pat, upto) == Some(at),
    decreases upto,
{
    if upto > at {
        lemma_last_at(s, pat, upto - 1, at);
    }
}

// -------------------------------------------------------------------- opening it

/// Why the workbench is not opened on a port: its listener is known not to be
/// the kernel.
pub open spec fn conflict(port: u16, identity: ListenerIdentity) -> Option<Seq<char>> {
    match identity {
        ListenerIdentity::NotKernel => Some(
            "端口 "@ + text::decimal_text(port as nat)
                + " 被另一个程序占用，它不是 dsh 内核。请先结束占用该端口的程序，或在「设置」里换一个端口后重试"@,
        ),
        _ => None,
    }
}

/// Why the workbench is not opened on a port. A listener of which nothing is
/// known is given the benefit of the doubt.
pub fn harness_port_conflict(port: u16, identity: ListenerIdentity) -> (r: Option<String>)
    ensures
        text::opt_text(r) == conflict(port, identity),
{
    match identity {
        ListenerIdentity::NotKernel => Some(
            text::cat3(
                "端口 ",
                text::decimal(port as u64).as_str(),
                " 被另一个程序占用，它不是 dsh 内核。请先结束占用该端口的程序，或在「设置」里换一个端口后重试",
            ),
        ),
        _ => None,
    }
}

/// What is wrong with a text as an address, if anything is.
pub uninterp spec fn url_fault(s: Seq<char>) -> Option<Seq<char>>;

/// Reads an address with `url::Url::parse`, and tells in its words what is
/// wrong with it.
#[verifier::external_body]
pub(crate) fn check_url(s: &str) -> (r: Option<String>)
    ensures
        text::opt_text(r) == url_fault(s@),
{
    url::Url::parse(s).err().map(|e| e.to_string())
}

/// What was found before the workbench is opened.
#[derive(Debug)]
pub struct HarnessFacts {
    pub port: u16,
    /// Whether the port answers.
    pub port_open: bool,
    /// Whether a kernel of the data directory runs, on whatever port.
    pub kernel_found: bool,
    /// Who listens on the port.
    pub identity: ListenerIdentity,
    /// Whether the window is open.
    pub window_open: bool,
    /// The address that the window was loaded with, where it is known.
    pub loaded: Option<String>,
    /// The end of the kernel's log.
    pub log_tail: String,
}

/// What opening the workbench comes to.
#[derive(Debug)]
pub enum HarnessAction {
    /// The window is brought to the front, and loaded anew where an address is
    /// given.
    Raise { navigate: Option<String> },
    /// The window is made.
    Create,
}

/// The content of what opening comes to.
#[verifier::ext_equal]
pub enum HarnessModel {
    Raise { navigate: Option<Seq<char>> },
    Create,
}

impl View for HarnessAction {
    type V = HarnessModel;

    open spec fn view(&self) -> HarnessModel {
        match self {
            HarnessAction::Raise { navigate } => HarnessModel::Raise {
                navigate: text::opt_text(*navigate),
            },
            HarnessAction::Create => HarnessModel::Create,
        }
    }
}

/// The address that an open window is loaded anew with: the one in the log,
/// where it is another than the one that was loaded and is an address at all.
pub open spec fn fresh_url(loaded: Option<Seq<char>>, latest: Option<Seq<char>>) -> Option<
    Seq<char>,
> {
    match (loaded, latest) {
        (Some(old_url), Some(new_url)) if old_url != new_url && url_fault(new_url) is None => Some(
            new_url,
        ),
        _ => None,
    }
}

/// What opening the workbench comes to, or why it is refused.
pub open spec fn opened(f: HarnessFacts) -> Result<HarnessModel, Seq<char>> {
    let port = text::decimal_text(f.port as nat);
    if !f.port_open {
        if f.kernel_found {
            Err(
                "端口 "@ + port
                    + " 上没有工作台，但检测到内核仍在运行。请先点击「关闭工作台」停止它，再重新启动工作台"@,
            )
        } else {
            Err("内核未在运行（端口 "@ + port + "），请先点击「启动工作台」"@)
        }
    } else if conflict(f.port, f.identity) is Some {
        Err(conflict(f.port, f.identity)->0)
    } else if f.window_open {
        Ok(
            HarnessModel::Raise {
                navigate: fresh_url(text::opt_text(f.loaded), logged_url(f.log_tail@, f.port)),
            },
        )
    } else {
        Ok(HarnessModel::Create)
    }
}

/// Decides what opening the workbench comes to. A window that is open is not
/// loaded anew, which would lose its state, unless the kernel has issued a new
/// token since.
pub fn open_harness(f: &HarnessFacts) -> (r: Result<HarnessAction, String>)
    ensures
        match r {
            Ok(a) => opened(*f) == Ok::<HarnessModel, Seq<char>>(a@),
            Err(e) => opened(*f) == Err::<HarnessModel, Seq<char>>(e@),
        },
{
    let port = text::decimal(f.port as u64);
    if !f.port_open {
        if f.kernel_found {
            return Err(
                text::cat3(
                    "端口 ",
                    port.as_str(),
                    " 上没有工作台，但检测到内核仍在运行。请先点击「关闭工作台」停止它，再重新启动工作台",
                ),
            );
        }
        return Err(
            text::cat3("内核未在运行（端口 ", port.as_str(), "），请先点击「启动工作台」"),
        );
    }
    match harness_port_conflict(f.port, f.identity) {
        Some(reason) => {
            return Err(reason);
        },
        None => {},
    }
    if !f.window_open {
        return Ok(HarnessAction::Create);
    }
    let latest = kernel_workbench_url_from_log(f.log_tail.as_str(), f.port);
    let mut navigate: Option<String> = None;
    match (&f.loaded, latest) {
        (Some(old_url), Some(new_url)) => {
            if !text::same(old_url.as_str(), new_url.as_str()) {
                if check_url(new_url.as_str()).is_none() {
                    navigate = Some(new_url);
                }
            }
        },
        _ => {},
    }
    Ok(HarnessAction::Raise { navigate })
}

/// A window is left as it is while the log's address is the one that it was
/// loaded with, or where either is not known.
pub proof fn law_a_current_window_is_kept(f: HarnessFacts)
    requires
        f.port_open,
        conflict(f.port, f.identity) is None,
        f.window_open,
        text::opt_text(f.loaded) == logged_url(f.log_tail@, f.port) || f.loaded is None || logged_url(
            f.log_tail@,
            f.port,
        ) is None,
    ensures
        opened(f) == Ok::<HarnessModel, Seq<char>>(HarnessModel::Raise { navigate: None }),
{
}

/// Only a listener that is known not to be the kernel keeps the workbench shut.
pub proof fn law_unknown_listeners_are_allowed(port: u16, identity: ListenerIdentity)
    ensures
        conflict(port, identity) is Some <==> identity == ListenerIdentity::NotKernel,
{
}

/// The address to make the window with: it has to be one.
pub fn check_window_url(url: &str) -> (r: Result<(), String>)
    ensures
        r is Ok <==> url_fault(url@) is None,
        r matches Err(e) ==> url_fault(url@) == Some(e@),
{
    match check_url(url) {
        None => Ok(()),
        Some(e) => Err(e),
    }
}

/// The outcome of making the window on another thread, which may end without a
/// word.
pub fn window_outcome(built: Option<Result<(), String>>) -> (r: Result<(), String>)
    ensures
        match built {
            Some(Ok(_)) => r is Ok,
            Some(Err(e)) => r matches Err(x) && x@ == "无法创建工作台窗口："@ + e@,
            None => r matches Err(x) && x@ == "工作台窗口创建线程已结束，未返回结果"@,
        },
{
    match built {
        Some(Ok(_)) => Ok(()),
        Some(Err(e)) => Err(text::cat2("无法创建工作台窗口：", e.as_str())),
        None => Err(text::owned("工作台窗口创建线程已结束，未返回结果")),
    }
}

// --------------------------------------------------------------- the kernel's handle

/// What is known of a child process.
#[derive(Debug)]
pub enum ChildPoll {
    Exited,
    Running { pid: u32 },
    Failed(String),
}

/// What is said when a kernel's handle takes the place of another.
pub open spec fn slot_warning(previous: Option<ChildPoll>) -> Option<Seq<char>> {
    match previous {
        Some(ChildPoll::Running { pid }) => Some(
            "上一个内核进程（pid "@ + text::decimal_text(pid as nat)
                + "）仍在运行，已交给后台线程等待其退出；同一数据目录下不应同时存在两个内核，请确认是否有残留进程"@,
        ),
        Some(ChildPoll::Failed(e)) => Some("回收上一个内核句柄失败："@ + e@),
        _ => None,
    }
}

/// What becomes of the handle that a new one takes the place of: one that still
/// runs is waited for in the background. The second part says what is reported.
pub fn replace_child_slot(previous: &Option<ChildPoll>) -> (r: (bool, Option<String>))
    ensures
        r.0 == (*previous matches Some(ChildPoll::Running { .. })),
        text::opt_text(r.1) == slot_warning(*previous),
{
    match previous {
        Some(ChildPoll::Running { pid }) => (
            true,
            Some(
                text::cat3(
                    "上一个内核进程（pid ",
                    text::decimal(*pid as u64).as_str(),
                    "）仍在运行，已交给后台线程等待其退出；同一数据目录下不应同时存在两个内核，请确认是否有残留进程",
                ),
            ),
        ),
        Some(ChildPoll::Failed(e)) => (
            false,
            Some(text::cat2("回收上一个内核句柄失败：", e.as_str())),
        ),
        Some(ChildPoll::Exited) => (false, None),
        None => (false, None),
    }
}

/// Whether the kernel runs, and whether the handle is of no use any more: a
/// handle counts only while its process lives; without one, what is known of
/// the workbench decides.
pub fn kernel_running(handle: &Option<ChildPoll>, workbench: bool) -> (r: (bool, bool))
    ensures
        r.0 == ((*handle matches Some(ChildPoll::Running { .. })) || workbench),
        r.1 == (*handle is Some && !(*handle matches Some(ChildPoll::Running { .. }))),
{
    match handle {
        Some(ChildPoll::Running { .. }) => (true, false),
        Some(_) => (workbench, true),
        None => (workbench, false),
    }
}

/// A report is taken exactly where the workbench made it, of one of the three
/// known kinds, with a message, and within the bounds of each field; it is taken
/// as it was sent, without white space round its fields.
pub proof fn law_reports_that_are_taken(label: Seq<char>, raw: HealthModel)
    ensures
        ({
            let kind = text::trim_text(raw.kind);
            let message = text::trim_text(raw.message);
            let stack = text::trim_text(raw.stack);
            let url = text::trim_text(raw.page_url);
            let known = kind == "blank"@ || kind == "runtime-error"@ || kind
                == "unhandled-rejection"@;
            &&& accepted_report(label, raw) is Ok <==> label == "harness"@ && known && 0
                < message.len() <= 2000 && stack.len() <= 8000 && url.len() <= 1000
            &&& accepted_report(label, raw) matches Ok(r) ==> r.kind == kind && r.message == message
                && r.stack == stack && r.page_url == url
        }),
{
    reveal_strlit("blank");
    reveal_strlit("runtime-error");
    reveal_strlit("unhandled-rejection");
    assert("blank"@.len() == 5 && "runtime-error"@.len() == 13 && "unhandled-rejection"@.len() == 19);
}

/// The search for the address: an address of the log is tried first, the bare
/// one where there is none or it does not answer, and the log is read again
/// until the deadline. It fails only past the deadline, and names the log.
pub proof fn law_the_address_is_searched_in_order(
    tail: String,
    url: String,
    port: u16,
    log_path: Seq<char>,
)
    ensures
        ({
            let bare = "http://127.0.0.1:"@ + text::decimal_text(port as nat);
            &&& logged_url(tail@, port) matches Some(u) ==> url_next(
                UrlEvent::LogRead(tail),
                port,
                log_path,
            ) == UrlModel::Try(u)
            &&& logged_url(tail@, port) is None ==> url_next(
                UrlEvent::LogRead(tail),
                port,
                log_path,
            ) == UrlModel::TryBare(bare)
            &&& url_next(UrlEvent::Tried { url, answers: true }, port, log_path)
                == UrlModel::Finish(Ok(url@))
            &&& url_next(UrlEvent::Tried { url, answers: false }, port, log_path)
                == UrlModel::TryBare(bare)
            &&& url_next(
                UrlEvent::BareTried { answers: true, past_deadline: true },
                port,
                log_path,
            ) == UrlModel::Finish(Ok(bare))
            &&& url_next(
                UrlEvent::BareTried { answers: false, past_deadline: false },
                port,
                log_path,
            ) is Wait
            &&& url_next(
                UrlEvent::BareTried { answers: false, past_deadline: true },
                port,
                log_path,
            ) matches UrlModel::Finish(Err(why)) && text::has(why, log_path)
        }),
{
    let head = "无法确认内核工作台地址，请打开日志后重试（日志："@;
    let why = head + log_path + "）"@;
    text::law_texts_hold_their_parts(head, log_path, "）"@, why);
}

/// An address of the log is on this machine, on the port that was asked for, and
/// its token is of letters, digits, underscores and hyphens.
pub proof fn law_logged_addresses_are_local(tail: Seq<char>, port: u16)
    ensures
        logged_url(tail, port) matches Some(u) ==> {
            let stem = "http://127.0.0.1:"@ + text::decimal_text(port as nat) + "/?token="@;
            &&& text::begins(u, stem)
            &&& u.len() > stem.len()
            &&& forall|i: int|
                stem.len() <= i < u.len() ==> {
                    let c = #[trigger] u[i];
                    'a' <= c <= 'z' || 'A' <= c <= 'Z' || '0' <= c <= '9' || c == '_' || c == '-'
                }
        },
{
    if let Some(u) = logged_url(tail, port) {
        let stem = token_stem(port);
        let i = text::last_upto(tail, stem, tail.len() as int)->0;
        let rest = tail.skip(i + stem.len());
        lemma_run_is_token(rest);
        let token = rest.take(token_run(rest));
        assert(u == stem + token);
        assert(u.subrange(0, stem.len() as int) =~= stem);
        assert forall|k: int| stem.len() <= k < u.len() implies token_char(#[trigger] u[k]) by {
            assert(u[k] == rest[k - stem.len()]);
        }
    }
}

proof fn lemma_run_is_token(s: Seq<char>)
    ensures
        0 <= token_run(s) <= s.len(),
        forall|i: int| 0 <= i < token_run(s) ==> token_char(#[trigger] s[i]),
    decreases s.len(),
{
    if s.len() > 0 && token_char(s[0]) {
        let rest = s.drop_first();
        lemma_run_is_token(rest);
        assert forall|i: int| 0 <= i < token_run(s) implies token_char(#[trigger] s[i]) by {
            if i > 0 {
                assert(rest[i - 1] == s[i]);
            }
        }
    }
}

/// The workbench is opened exactly where its port answers and the listener is
/// not known to be somebody else: an open window is brought to the front, and
/// otherwise one is made. An open window is loaded anew exactly where the log
/// has another address than it was loaded with, and that is an address.
pub proof fn law_the_workbench_is_opened(f: HarnessFacts)
    ensures
        opened(f) is Ok <==> f.port_open && f.identity != ListenerIdentity::NotKernel,
        opened(f) is Ok && !f.window_open ==> opened(f) == Ok::<HarnessModel, Seq<char>>(
            HarnessModel::Create,
        ),
        opened(f) is Ok && f.window_open ==> (opened(f) matches Ok(HarnessModel::Raise { navigate })
            && {
            let latest = logged_url(f.log_tail@, f.port);
            &&& navigate is Some <==> f.loaded is Some && latest is Some && (f.loaded->0)@
                != latest->0 && url_fault(latest->0) is None
            &&& navigate is Some ==> navigate == latest
        }),
        opened(f) matches Err(why) ==> text::has(why, text::decimal_text(f.port as nat)),
{
    let port = text::decimal_text(f.port as nat);
    if let Err(why) = opened(f) {
        if !f.port_open && f.kernel_found {
            let a = "端口 "@;
            let b = " 上没有工作台，但检测到内核仍在运行。请先点击「关闭工作台」停止它，再重新启动工作台"@;
            text::law_texts_hold_their_parts(a, port, b, why);
        } else if !f.port_open {
            let a = "内核未在运行（端口 "@;
            let b = "），请先点击「启动工作台」"@;
            text::law_texts_hold_their_parts(a, port, b, why);
        } else {
            let a = "端口 "@;
            let b = " 被另一个程序占用，它不是 dsh 内核。请先结束占用该端口的程序，或在「设置」里换一个端口后重试"@;
            text::law_texts_hold_their_parts(a, port, b, why);
        }
    }
}

/// A handle that is replaced is told of exactly where its process still runs or
/// could not be asked; a process that still runs is told of by its id.
pub proof fn law_replaced_handles_are_told_of(previous: Option<ChildPoll>)
    ensures
        slot_warning(previous) is Some <==> previous is Some && !(previous->0 is Exited),
        previous matches Some(ChildPoll::Running { pid }) ==> text::has(
            slot_warning(previous)->0,
            text::decimal_text(pid as nat),
        ),
{
    if let Some(ChildPoll::Running { pid }) = previous {
        let a = "上一个内核进程（pid "@;
        let b = "）仍在运行，已交给后台线程等待其退出；同一数据目录下不应同时存在两个内核，请确认是否有残留进程"@;
        text::law_texts_hold_their_parts(
            a,
            text::decimal_text(pid as nat),
            b,
            slot_warning(previous)->0,
        );
    }
}

} // verus!
