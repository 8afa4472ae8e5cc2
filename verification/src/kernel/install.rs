//! Installing a kernel version: what is asked of the package manager, how its
//! outcome is judged, and the proof that native modules load.

use crate::error::{AppError, ErrorModel};
use crate::json;
use crate::json::{JsonNode, NodeModel};
use crate::paths;
use crate::sort;
use crate::text;
use vstd::prelude::*;

verus! {

/// Has the package manager report each event as a line.
pub const PNPM_REPORTER: &'static str = "--reporter=append-only";

/// Keeps a skipped build script from being an error.
pub const PNPM_NO_STRICT_DEP_BUILDS: &'static str = "--config.strict-dep-builds=false";

/// Lets the build scripts of native modules run.
pub const PNPM_ALLOW_ALL_BUILDS: &'static str = "--config.dangerously-allow-all-builds=true";

/// How many install logs stay beside the one that is being written.
pub const KEEP_INSTALL_LOGS: usize = 9;

// ---------------------------------------------------------------------- logs

/// A log that rolls over at the end of the day.
#[derive(Debug)]
pub struct LogSpec {
    pub kind: String,
    pub name: String,
}

/// The file name of a log on a day.
pub open spec fn log_file_name(kind: Seq<char>, name: Seq<char>, date: Seq<char>) -> Seq<char> {
    kind + "-"@ + name + "-"@ + date + ".log"@
}

impl LogSpec {
    /// The path of the log on a day.
    pub fn path_for(&self, logs_dir: &str, date: &str) -> (r: String)
        ensures
            r@ == paths::joined(logs_dir@, log_file_name(self.kind@, self.name@, date@)),
    {
        let stem = text::cat5(self.kind.as_str(), "-", self.name.as_str(), "-", date);
        let file = text::cat2(stem.as_str(), ".log");
        paths::join(logs_dir, file.as_str())
    }
}

/// The log of the running kernel.
pub fn kernel_log_spec(kind: &str) -> (r: LogSpec)
    ensures
        r.kind@ == kind@,
        r.name@ == "kernel"@,
{
    LogSpec { kind: text::owned(kind), name: text::owned("kernel") }
}

/// The log of installing a version: retries on one day share a file.
pub fn install_log_spec(kind: &str, version: &str) -> (r: LogSpec)
    ensures
        r.kind@ == kind@,
        r.name@ == "install-"@ + version@,
{
    LogSpec { kind: text::owned(kind), name: text::cat2("install-", version) }
}

/// The kernel log of a day.
pub fn current_kernel_log_path(data_dir: &str, kind: &str, date: &str) -> (r: String)
    ensures
        r@ == paths::joined(paths::joined(data_dir@, "logs"@), log_file_name(kind@, "kernel"@, date@)),
{
    let logs = crate::kernel::versions::logs_dir(data_dir);
    kernel_log_spec(kind).path_for(logs.as_str(), date)
}

/// A file among the logs.
#[derive(Debug)]
pub struct LogFile {
    pub name: String,
    /// When it was last written, as a count that grows with time.
    pub modified: u64,
}

/// A log of installing a kernel, other than the one that is to be written. The
/// logs of installing the package manager itself do not count.
pub open spec fn install_log(name: Seq<char>, keep: Seq<char>) -> bool {
    text::has(name, "install-"@) && !text::has(name, "pnpm-install-"@) && name != keep
}

/// The install logs among `files`.
pub open spec fn install_logs(files: Seq<LogFile>, keep: Seq<char>) -> Seq<LogFile> {
    files.filter(|f: LogFile| install_log(f.name@, keep))
}

/// Log `a` is newer than log `b`.
pub open spec fn newer(files: Seq<LogFile>) -> spec_fn(int, int) -> bool {
    |a: int, b: int| files[a].modified > files[b].modified
}

/// Log files, the newest first.
struct NewestFirst<'a> {
    files: &'a Vec<LogFile>,
}

impl<'a> sort::Ranked for NewestFirst<'a> {
    closed spec fn count(&self) -> nat {
        self.files@.len()
    }

    closed spec fn goes_before(&self, a: int, b: int) -> bool {
        newer(self.files@)(a, b)
    }

    fn size(&self) -> (r: usize) {
        self.files.len()
    }

    fn before(&self, a: usize, b: usize) -> (r: bool) {
        self.files[a].modified > self.files[b].modified
    }
}

/// `order` lists the install logs from the newest on.
pub open spec fn newest_first(files: Seq<LogFile>, order: Seq<usize>) -> bool {
    sort::permutes(order, files.len()) && sort::ordered(order, newer(files))
}

/// `gone` are the names of what is left of the install logs, in that order,
/// after the newest ones, which stay. Nothing goes while no more than those are
/// there.
pub open spec fn rotated(files: Seq<LogFile>, keep: Seq<char>, gone: Seq<Seq<char>>) -> bool {
    let logs = install_logs(files, keep);
    if logs.len() <= KEEP_INSTALL_LOGS {
        gone.len() == 0
    } else {
        exists|order: Seq<usize>|
            #![trigger newest_first(logs, order)]
            newest_first(logs, order) && gone.len() == logs.len() - KEEP_INSTALL_LOGS && forall|
                i: int,
            |
                0 <= i < gone.len() ==> (#[trigger] gone[i]) == logs[order[i
                    + KEEP_INSTALL_LOGS] as int].name@
    }
}

/// The install logs that are to be deleted before a new one is written: all
/// but the newest nine of them.
pub fn rotate_install_logs(files: &Vec<LogFile>, keep: &str) -> (r: Vec<String>)
    ensures
        rotated(files@, keep@, text::texts(r@)),
{
    let ghost pick = |f: LogFile| install_log(f.name@, keep@);
    let mut logs: Vec<LogFile> = Vec::new();
    let mut i: usize = 0;
    proof {
        assert(files@.take(0) =~= Seq::<LogFile>::empty());
        assert(files@.take(0).filter(pick) =~= Seq::<LogFile>::empty()) by {
            reveal(Seq::filter);
        }
    }
    while i < files.len()
        invariant
            i <= files.len(),
            pick == (|f: LogFile| install_log(f.name@, keep@)),
            same_logs(logs@, files@.take(i as int).filter(pick)),
        decreases files.len() - i,
    {
        let f = &files[i];
        proof {
            reveal(Seq::filter);
            let next = files@.take(i + 1);
            assert(next.drop_last() =~= files@.take(i as int));
            assert(next.last() == *f);
        }
        if text::contains(f.name.as_str(), "install-") && !text::contains(
            f.name.as_str(),
            "pnpm-install-",
        ) && !text::same(f.name.as_str(), keep) {
            logs.push(LogFile { name: f.name.clone(), modified: f.modified });
        }
        i = i + 1;
    }
    let ghost want = install_logs(files@, keep@);
    proof {
        assert(files@.take(files@.len() as int) =~= files@);
        assert(same_logs(logs@, want));
    }
    let mut out: Vec<String> = Vec::new();
    if logs.len() <= KEEP_INSTALL_LOGS {
        proof {
            assert(text::texts(out@).len() == 0);
        }
        return out;
    }
    let list = NewestFirst { files: &logs };
    let order = sort::order_by(&list);
    proof {
        assert forall|i: int, j: int| 0 <= i < j < order@.len() implies !newer(want)(
            (#[trigger] order@[j]) as int,
            (#[trigger] order@[i]) as int,
        ) && (newer(want)(order@[i] as int, order@[j] as int) || order@[i] < order@[j]) by {
            let rel = sort::order_of(list);
            assert(!rel(order@[j] as int, order@[i] as int) && (rel(
                order@[i] as int,
                order@[j] as int,
            ) || order@[i] < order@[j]));
        }
    }
    let mut k: usize = KEEP_INSTALL_LOGS;
    while k < order.len()
        invariant
            KEEP_INSTALL_LOGS <= k <= order.len(),
            order.len() == logs.len(),
            sort::permutes(order@, logs@.len()),
            same_logs(logs@, want),
            out.len() == k - KEEP_INSTALL_LOGS,
            forall|j: int|
                0 <= j < out.len() ==> (#[trigger] out@[j])@ == want[order@[j
                    + KEEP_INSTALL_LOGS] as int].name@,
        decreases order.len() - k,
    {
        proof {
            assert(order@[k as int] < logs@.len());
        }
        out.push(logs[order[k]].name.clone());
        k = k + 1;
    }
    proof {
        assert(newest_first(want, order@));
        assert forall|j: int| 0 <= j < text::texts(out@).len() implies (#[trigger] text::texts(out@)[j])
            == want[order@[j + KEEP_INSTALL_LOGS] as int].name@ by {
            assert(text::texts(out@)[j] == out@[j]@);
        }
    }
    out
}

/// The two lists hold files of the same names and times.
pub open spec fn same_logs(a: Seq<LogFile>, b: Seq<LogFile>) -> bool {
    &&& a.len() == b.len()
    &&& forall|i: int|
        0 <= i < a.len() ==> (#[trigger] a[i]).name@ == b[i].name@ && a[i].modified == b[i].modified
}

// ------------------------------------------------------------------- request

/// The stub package that a version is installed into, as a JSON value.
pub open spec fn stub_value(version: Seq<char>) -> serde_json::Value {
    json::json_closed(
        NodeModel::Object(
            seq![
                (
                    "name"@,
                    json::json_closed(
                        NodeModel::Text("dsh-kernel-"@ + text::swap_text(version, '.', '_')),
                    ),
                ),
                ("private"@, json::json_closed(NodeModel::Bool(true))),
                ("version"@, json::json_closed(NodeModel::Text("1.0.0"@))),
            ],
        ),
    )
}

/// The content of the stub package that a version is installed into. The
/// version is escaped, whatever it holds.
pub fn stub_package(version: &str) -> (r: String)
    ensures
        r@ == json::json_printed(stub_value(version@)) + "\n"@,
{
    let name = text::cat2("dsh-kernel-", text::swap_char(version, '.', '_').as_str());
    let mut fields: Vec<(String, serde_json::Value)> = Vec::new();
    fields.push((text::owned("name"), json::close_json(JsonNode::Text(name))));
    fields.push((text::owned("private"), json::close_json(JsonNode::Bool(true))));
    fields.push(
        (text::owned("version"), json::close_json(JsonNode::Text(text::owned("1.0.0")))),
    );
    let node = JsonNode::Object(fields);
    proof {
        assert(node@ =~= NodeModel::Object(
            seq![
                (
                    "name"@,
                    json::json_closed(
                        NodeModel::Text("dsh-kernel-"@ + text::swap_text(version@, '.', '_')),
                    ),
                ),
                ("private"@, json::json_closed(NodeModel::Bool(true))),
                ("version"@, json::json_closed(NodeModel::Text("1.0.0"@))),
            ],
        ));
    }
    let value = json::close_json(node);
    text::cat2(json::print_json(&value).as_str(), "\n")
}

/// The arguments that have a version installed under `prefix`.
pub open spec fn pnpm_args(prefix: Seq<char>, version: Seq<char>) -> Seq<Seq<char>> {
    seq![
        "add"@,
        "--prefix"@,
        prefix,
        "--ignore-workspace"@,
        "--config.node-linker=hoisted"@,
        PNPM_NO_STRICT_DEP_BUILDS@,
        PNPM_ALLOW_ALL_BUILDS@,
        PNPM_REPORTER@,
        "@deepseek-ai/dsh@"@ + version,
    ]
}

/// The arguments that have a version installed under `prefix`.
pub fn install_args(prefix: &str, version: &str) -> (r: Vec<String>)
    ensures
        text::texts(r@) == pnpm_args(prefix@, version@),
{
    let mut out: Vec<String> = Vec::new();
    out.push(text::owned("add"));
    out.push(text::owned("--prefix"));
    out.push(text::owned(prefix));
    out.push(text::owned("--ignore-workspace"));
    out.push(text::owned("--config.node-linker=hoisted"));
    out.push(text::owned(PNPM_NO_STRICT_DEP_BUILDS));
    out.push(text::owned(PNPM_ALLOW_ALL_BUILDS));
    out.push(text::owned(PNPM_REPORTER));
    out.push(text::cat2("@deepseek-ai/dsh@", version));
    proof {
        assert(text::texts(out@) =~= pnpm_args(prefix@, version@));
    }
    out
}

// ------------------------------------------------------------ native modules

/// A native module: its package and the file that a build leaves in it.
pub open spec fn native_checks() -> Seq<(Seq<char>, Seq<char>)> {
    seq![
        ("fs-ext"@, "build/Release/fs_ext.node"@),
        ("@deepseek-ai/node-addon-system-darwin-x64"@, "bin/system.node"@),
        ("@deepseek-ai/node-addon-system-darwin-arm64"@, "bin/system.node"@),
        ("@deepseek-ai/node-addon-system-linux-x64"@, "bin/system.node"@),
        ("@deepseek-ai/node-addon-system-linux-arm64"@, "bin/system.node"@),
        ("@deepseek-ai/node-addon-system-win32-x64"@, "bin/system.node"@),
        ("@deepseek-ai/node-addon-system-win32-arm64"@, "bin/system.node"@),
    ]
}

/// One native module that is looked for.
#[derive(Debug, Clone, Copy)]
pub struct NativeCheck {
    pub pkg: &'static str,
    pub rel: &'static str,
}

impl NativeCheck {
    pub fn new(pkg: &'static str, rel: &'static str) -> (r: Self)
        ensures
            r.pkg@ == pkg@,
            r.rel@ == rel@,
    {
        NativeCheck { pkg, rel }
    }
}

/// The native modules that kernels of any age may come with.
pub fn native_module_checks() -> (r: Vec<NativeCheck>)
    ensures
        r.len() == native_checks().len(),
        forall|i: int|
            0 <= i < r.len() ==> (#[trigger] r@[i]).pkg@ == native_checks()[i].0 && r@[i].rel@
                == native_checks()[i].1,
{
    vec![
        NativeCheck::new("fs-ext", "build/Release/fs_ext.node"),
        NativeCheck::new("@deepseek-ai/node-addon-system-darwin-x64", "bin/system.node"),
        NativeCheck::new("@deepseek-ai/node-addon-system-darwin-arm64", "bin/system.node"),
        NativeCheck::new("@deepseek-ai/node-addon-system-linux-x64", "bin/system.node"),
        NativeCheck::new("@deepseek-ai/node-addon-system-linux-arm64", "bin/system.node"),
        NativeCheck::new("@deepseek-ai/node-addon-system-win32-x64", "bin/system.node"),
        NativeCheck::new("@deepseek-ai/node-addon-system-win32-arm64", "bin/system.node"),
    ]
}

/// The content of a list of missing files.
pub open spec fn missing_of(v: Seq<(String, &'static str)>) -> Seq<(Seq<char>, Seq<char>)> {
    v.map_values(|m: (String, &'static str)| (m.0@, m.1@))
}

/// Of `checks`, those whose package is installed but whose file is not built.
pub open spec fn unbuilt(
    checks: Seq<(Seq<char>, Seq<char>)>,
    installed: Seq<Seq<char>>,
    built: Seq<Seq<char>>,
) -> Seq<(Seq<char>, Seq<char>)>
    decreases checks.len(),
{
    if checks.len() == 0 {
        Seq::empty()
    } else {
        let before = unbuilt(checks.drop_last(), installed, built);
        let c = checks.last();
        if installed.contains(c.0) && !built.contains(paths::joined(c.0, c.1)) {
            before.push(c)
        } else {
            before
        }
    }
}

/// Checks that every native module that is installed was built: `installed`
/// are the packages that are there, `built` the files, by their paths under
/// the directory of node modules. A package that is not there is not missed:
/// kernels of different ages come with different ones.
pub fn verify_native_modules(installed: &Vec<String>, built: &Vec<String>) -> (r: Result<
    (),
    Vec<(String, &'static str)>,
>)
    ensures
        ({
            let missing = unbuilt(native_checks(), text::texts(installed@), text::texts(built@));
            match r {
                Ok(_) => missing.len() == 0,
                Err(m) => missing.len() > 0 && missing_of(m@) == missing,
            }
        }),
{
    let checks = native_module_checks();
    let ghost all = native_checks();
    let mut out: Vec<(String, &'static str)> = Vec::new();
    let mut i: usize = 0;
    proof {
        assert(all.take(0) =~= Seq::<(Seq<char>, Seq<char>)>::empty());
        assert(missing_of(out@) =~= Seq::<(Seq<char>, Seq<char>)>::empty());
    }
    while i < checks.len()
        invariant
            i <= checks.len(),
            all == native_checks(),
            checks.len() == all.len(),
            forall|k: int|
                0 <= k < checks.len() ==> (#[trigger] checks@[k]).pkg@ == all[k].0
                    && checks@[k].rel@ == all[k].1,
            missing_of(out@) == unbuilt(all.take(i as int), text::texts(installed@), text::texts(built@)),
        decreases checks.len() - i,
    {
        let c = checks[i];
        proof {
            let next = all.take(i + 1);
            assert(next.drop_last() =~= all.take(i as int));
            assert(next.last() == all[i as int]);
        }
        if text::listed(installed, c.pkg) {
            let path = paths::join(c.pkg, c.rel);
            if !text::listed(built, path.as_str()) {
                let entry = (text::owned(c.pkg), c.rel);
                proof {
                    assert(missing_of(out@.push(entry)) =~= missing_of(out@).push(
                        (entry.0@, entry.1@),
                    ));
                }
                out.push(entry);
            }
        }
        i = i + 1;
    }
    proof {
        assert(all.take(all.len() as int) =~= all);
        assert(missing_of(out@).len() == out@.len());
    }
    if out.is_empty() {
        Ok(())
    } else {
        Err(out)
    }
}

/// The line of the report for one missing file.
pub open spec fn missing_lines(missing: Seq<(Seq<char>, Seq<char>)>) -> Seq<Seq<char>> {
    missing.map_values(
        |m: (Seq<char>, Seq<char>)| "- "@ + m.0 + "（缺 "@ + m.1 + "）"@,
    )
}

/// The advice where a module had to be compiled.
pub open spec fn compile_hint() -> Seq<char> {
    "推荐在「设置 → 运行时」点击「安装 Node.js」，让外壳使用内置的 Node 24 LTS（fs-ext 2.x 的旧 NAN C++ 头文件与 Node 25 的 V8 ABI 不兼容，系统 Node 过新会导致构建脚本即使运行也会失败）"@
}

/// The advice where a prebuilt module was not fetched.
pub open spec fn prebuilt_hint() -> Seq<char> {
    "node-addon-system 子包以 optionalDependencies 形式随平台拉入，缺失通常意味着 pnpm 没有把当前平台的 prebuild 下载下来，请重试安装或回退到其他内核版本"@
}

/// Some missing package is the one that is compiled.
pub open spec fn misses_compiled(missing: Seq<(Seq<char>, Seq<char>)>) -> bool {
    exists|i: int| 0 <= i < missing.len() && (#[trigger] missing[i]).0 == "fs-ext"@
}

/// Some missing package is one that comes prebuilt.
pub open spec fn misses_prebuilt(missing: Seq<(Seq<char>, Seq<char>)>) -> bool {
    exists|i: int|
        0 <= i < missing.len() && text::begins(
            (#[trigger] missing[i]).0,
            "@deepseek-ai/node-addon-system-"@,
        )
}

/// The advice for what is missing: first for modules that are compiled, then
/// for those that come prebuilt.
pub open spec fn native_hint(missing: Seq<(Seq<char>, Seq<char>)>) -> Seq<char> {
    if misses_compiled(missing) && misses_prebuilt(missing) {
        compile_hint() + "；"@ + prebuilt_hint() + "。"@
    } else if misses_compiled(missing) {
        compile_hint() + "。"@
    } else if misses_prebuilt(missing) {
        prebuilt_hint() + "。"@
    } else {
        Seq::empty()
    }
}

/// The report on missing native modules.
pub open spec fn native_report(missing: Seq<(Seq<char>, Seq<char>)>, log: Seq<char>) -> Seq<char> {
    "内核依赖的原生模块未构建完成："@ + text::join_text(missing_lines(missing), "、"@) + "。"@ + native_hint(
        missing,
    ) + "完整日志："@ + log
}

/// Words the report on missing native modules.
pub fn format_native_modules_error(missing: &Vec<(String, &'static str)>, log_path: &str) -> (r:
    String)
    ensures
        r@ == native_report(missing_of(missing@), log_path@),
{
    let ghost all = missing_of(missing@);
    let mut lines: Vec<String> = Vec::new();
    let mut compiled = false;
    let mut prebuilt = false;
    let mut i: usize = 0;
    while i < missing.len()
        invariant
            i <= missing.len(),
            all == missing_of(missing@),
            lines.len() == i,
            forall|k: int|
                0 <= k < i ==> (#[trigger] lines@[k])@ == "- "@ + all[k].0 + "（缺 "@ + all[k].1
                    + "）"@,
            compiled == (exists|k: int| 0 <= k < i && (#[trigger] all[k]).0 == "fs-ext"@),
            prebuilt == (exists|k: int|
                0 <= k < i && text::begins(
                    (#[trigger] all[k]).0,
                    "@deepseek-ai/node-addon-system-"@,
                )),
        decreases missing.len() - i,
    {
        let pkg = missing[i].0.as_str();
        proof {
            assert(all[i as int] == (missing@[i as int].0@, missing@[i as int].1@));
        }
        lines.push(text::cat5("- ", pkg, "（缺 ", missing[i].1, "）"));
        if text::same(pkg, "fs-ext") {
            compiled = true;
        }
        if text::starts_with(pkg, "@deepseek-ai/node-addon-system-") {
            prebuilt = true;
        }
        i = i + 1;
    }
    proof {
        assert(text::texts(lines@) =~= missing_lines(all));
    }
    let compile =
        "推荐在「设置 → 运行时」点击「安装 Node.js」，让外壳使用内置的 Node 24 LTS（fs-ext 2.x 的旧 NAN C++ 头文件与 Node 25 的 V8 ABI 不兼容，系统 Node 过新会导致构建脚本即使运行也会失败）";
    let fetch =
        "node-addon-system 子包以 optionalDependencies 形式随平台拉入，缺失通常意味着 pnpm 没有把当前平台的 prebuild 下载下来，请重试安装或回退到其他内核版本";
    let hint = if compiled && prebuilt {
        text::cat4(compile, "；", fetch, "。")
    } else if compiled {
        text::cat2(compile, "。")
    } else if prebuilt {
        text::cat2(fetch, "。")
    } else {
        String::new()
    };
    let head = text::cat4(
        "内核依赖的原生模块未构建完成：",
        text::join(&lines, "、").as_str(),
        "。",
        hint.as_str(),
    );
    text::cat3(head.as_str(), "完整日志：", log_path)
}

// --------------------------------------------------------------- smoke probe

/// The packages that the probe loads.
pub open spec fn smoke_targets() -> Seq<Seq<char>> {
    seq![
        "@deepseek-ai/dsh-fs-local"@,
        "@deepseek-ai/dsh-subprocess-local"@,
        "@deepseek-ai/dsh-bash-local"@,
        "@deepseek-ai/dsh-pwsh-local"@,
        "@deepseek-ai/dsh-session-persistence-jsonl"@,
        "@deepseek-ai/dsh-sandbox-local"@,
        "@deepseek-ai/dsh-credentials-local"@,
        "@deepseek-ai/dsh-attachment-local"@,
        "@deepseek-ai/dsh-file-reference-local"@,
        "@deepseek-ai/dsh-spill-local"@,
        "node-addon-require-builtin"@,
    ]
}

/// The packages that the probe loads: those whose entry loads native modules.
pub fn smoke_load_targets() -> (r: Vec<String>)
    ensures
        text::texts(r@) == smoke_targets(),
{
    let names: Vec<&'static str> = vec![
        "@deepseek-ai/dsh-fs-local",
        "@deepseek-ai/dsh-subprocess-local",
        "@deepseek-ai/dsh-bash-local",
        "@deepseek-ai/dsh-pwsh-local",
        "@deepseek-ai/dsh-session-persistence-jsonl",
        "@deepseek-ai/dsh-sandbox-local",
        "@deepseek-ai/dsh-credentials-local",
        "@deepseek-ai/dsh-attachment-local",
        "@deepseek-ai/dsh-file-reference-local",
        "@deepseek-ai/dsh-spill-local",
        "node-addon-require-builtin",
    ];
    let mut out: Vec<String> = Vec::new();
    let mut i: usize = 0;
    while i < names.len()
        invariant
            i <= names.len(),
            out.len() == i,
            forall|k: int| 0 <= k < i ==> (#[trigger] out@[k])@ == names@[k]@,
        decreases names.len() - i,
    {
        out.push(text::owned(names[i]));
        i = i + 1;
    }
    proof {
        assert(text::texts(out@) =~= smoke_targets());
    }
    out
}

/// What stands in the probe before the list of packages.
pub open spec fn probe_head() -> Seq<char> {
    "\nconst targets = "@
}

/// What stands in the probe after the list of packages.
pub open spec fn probe_tail() -> Seq<char> {
    ";\nconst fail = [];\nfor (const t of targets) {\n  let entry;\n  try { entry = require.resolve(t); }\n  catch (e) {\n    // 入口不可解析等同于「内核根本没把这个包拉下来」——是安装事故，\n    // 必须报错让壳知道，不允许静默跳过。\n    fail.push({ pkg: t, code: 'UNRESOLVED', message: String(e && e.message || e) });\n    console.error('PROBE-FAIL ' + t + ' UNRESOLVED ' + (e && e.code || ''));\n    continue;\n  }\n  try {\n    // require 是真正加载原生模块的入口；fs-ext / node-addon-system 等\n    // 在这一步会同步抛 'Cannot find module ./build/Release/...'。\n    require(t);\n  } catch (e) {\n    fail.push({ pkg: t, code: 'LOAD_FAILED', message: String(e && e.message || e) });\n    console.error('PROBE-FAIL ' + t + ' LOAD_FAILED ' + (e && e.code || '') + ' ' + (e && e.message || e));\n  }\n}\nif (fail.length === 0) {\n  console.log('PROBE-OK ' + targets.length);\n  process.exit(0);\n}\nconsole.error('PROBE-FAIL-COUNT ' + fail.length + '/' + targets.length);\nprocess.exit(2);\n"@
}

/// The probe for a list of packages in JSON.
pub fn probe_script(targets_json: &str) -> (r: String)
    ensures
        r@ == probe_head() + targets_json@ + probe_tail(),
{
    text::cat3(
        "\nconst targets = ",
        targets_json,
        ";\nconst fail = [];\nfor (const t of targets) {\n  let entry;\n  try { entry = require.resolve(t); }\n  catch (e) {\n    // 入口不可解析等同于「内核根本没把这个包拉下来」——是安装事故，\n    // 必须报错让壳知道，不允许静默跳过。\n    fail.push({ pkg: t, code: 'UNRESOLVED', message: String(e && e.message || e) });\n    console.error('PROBE-FAIL ' + t + ' UNRESOLVED ' + (e && e.code || ''));\n    continue;\n  }\n  try {\n    // require 是真正加载原生模块的入口；fs-ext / node-addon-system 等\n    // 在这一步会同步抛 'Cannot find module ./build/Release/...'。\n    require(t);\n  } catch (e) {\n    fail.push({ pkg: t, code: 'LOAD_FAILED', message: String(e && e.message || e) });\n    console.error('PROBE-FAIL ' + t + ' LOAD_FAILED ' + (e && e.code || '') + ' ' + (e && e.message || e));\n  }\n}\nif (fail.length === 0) {\n  console.log('PROBE-OK ' + targets.length);\n  process.exit(0);\n}\nconsole.error('PROBE-FAIL-COUNT ' + fail.length + '/' + targets.length);\nprocess.exit(2);\n",
    )
}

/// Texts as JSON values.
pub open spec fn text_values(items: Seq<Seq<char>>) -> Seq<serde_json::Value> {
    items.map_values(|t: Seq<char>| json::json_closed(NodeModel::Text(t)))
}

/// The script of the probe: it resolves and then loads each package, reports
/// each failure on a line of its own, and exits with 2 where there was one.
pub fn smoke_load_probe_script() -> (r: String)
    ensures
        r@ == probe_head() + json::json_printed(
            json::json_closed(NodeModel::List(text_values(smoke_targets()))),
        ) + probe_tail(),
{
    let targets = smoke_load_targets();
    let mut values: Vec<serde_json::Value> = Vec::new();
    let mut i: usize = 0;
    while i < targets.len()
        invariant
            i <= targets.len(),
            text::texts(targets@) == smoke_targets(),
            values.len() == i,
            forall|k: int|
                0 <= k < i ==> (#[trigger] values@[k]) == json::json_closed(
                    NodeModel::Text(targets@[k]@),
                ),
        decreases targets.len() - i,
    {
        values.push(json::close_json(JsonNode::Text(targets[i].clone())));
        i = i + 1;
    }
    proof {
        assert(values@ =~= text_values(smoke_targets())) by {
            assert(text::texts(targets@).len() == targets@.len());
            assert forall|k: int| 0 <= k < values@.len() implies values@[k] == text_values(
                smoke_targets(),
            )[k] by {
                assert(smoke_targets()[k] == text::texts(targets@)[k]);
                assert(text::texts(targets@)[k] == targets@[k]@);
            }
        }
    }
    let list = json::close_json(JsonNode::List(values));
    probe_script(json::print_json(&list).as_str())
}

// ------------------------------------------------------------------- outcome

/// How a child process ended.
#[derive(Debug)]
pub struct ExitInfo {
    pub success: bool,
    /// The exit code; none where a signal ended it.
    pub code: Option<i32>,
}

/// The most lines of the probe that a report quotes.
pub const MAX_PROBE_DETAIL_LINES: usize = 6;

/// Whether a line is one that the probe reports by, and is shown as it comes.
pub fn shows_probe_line(line: &str) -> (r: bool)
    ensures
        r == text::has(line@, "PROBE-"@),
{
    text::contains(line, "PROBE-")
}

/// The lines that the probe reports by.
pub open spec fn probe_lines(lines: Seq<Seq<char>>) -> Seq<Seq<char>>
    decreases lines.len(),
{
    if lines.len() == 0 {
        Seq::empty()
    } else if text::has(lines.last(), "PROBE-"@) {
        probe_lines(lines.drop_last()).push(lines.last())
    } else {
        probe_lines(lines.drop_last())
    }
}

/// The lines of a child's output that go to the user: those that the probe
/// reports by.
pub fn probe_report_lines(lines: &Vec<String>) -> (r: Vec<String>)
    ensures
        text::texts(r@) == probe_lines(text::texts(lines@)),
{
    let mut out: Vec<String> = Vec::new();
    let mut i: usize = 0;
    let ghost all = text::texts(lines@);
    proof {
        assert(all.take(0) =~= Seq::<Seq<char>>::empty());
        assert(text::texts(out@) =~= Seq::<Seq<char>>::empty());
    }
    while i < lines.len()
        invariant
            i <= lines.len(),
            all == text::texts(lines@),
            text::texts(out@) == probe_lines(all.take(i as int)),
        decreases lines.len() - i,
    {
        proof {
            let next = all.take(i + 1);
            assert(next.drop_last() =~= all.take(i as int));
            assert(next.last() == lines@[i as int]@);
        }
        if shows_probe_line(lines[i].as_str()) {
            let line = lines[i].clone();
            proof {
                assert(text::texts(out@.push(line)) =~= text::texts(out@).push(line@));
            }
            out.push(line);
        }
        i = i + 1;
    }
    proof {
        assert(all.take(all.len() as int) =~= all);
    }
    out
}

/// Why a probe that ended badly did so.
pub open spec fn probe_reason(code: Option<i32>) -> Seq<char> {
    match code {
        Some(c) => if c == 2 {
            "Node 探针报告内核依赖无法加载"@
        } else {
            "Node 探针以退出码 "@ + text::signed_text(c as int)
                + " 结束（探针自身的失败约定是退出码 2，因此这通常意味着 node 可执行文件没能真正跑起来，例如路径中含空格被命令解释器切碎、或该 node 与内核的 prebuild ABI 不匹配）"@
        },
        None => "Node 探针被信号终止"@,
    }
}

/// The first lines that the probe reported by.
pub open spec fn probe_detail(lines: Seq<Seq<char>>) -> Seq<Seq<char>> {
    let all = probe_lines(lines);
    if all.len() <= MAX_PROBE_DETAIL_LINES {
        all
    } else {
        all.take(MAX_PROBE_DETAIL_LINES as int)
    }
}

/// What is wrong with a probe that ended badly: the reason, and what the probe
/// reported.
pub open spec fn probe_failure(code: Option<i32>, lines: Seq<Seq<char>>) -> Seq<char> {
    if probe_detail(lines).len() == 0 {
        probe_reason(code)
    } else {
        probe_reason(code) + "；探针输出："@ + text::join_text(probe_detail(lines), " | "@)
    }
}

/// The content of a probe's result.
pub open spec fn probe_result(
    ran: Result<ExitInfo, String>,
    lines: Seq<Seq<char>>,
) -> Result<(), Seq<char>> {
    match ran {
        Err(e) => Err("无法启动 Node 探针："@ + e@),
        Ok(exit) => if exit.success {
            Ok(())
        } else {
            Err(probe_failure(exit.code, lines))
        },
    }
}

/// Judges a run of the probe. Exit code 2 is the probe's own word for a
/// failure; another one means that the probe itself did not get to run.
pub fn smoke_load_native_modules(ran: &Result<ExitInfo, String>, lines: &Vec<String>) -> (r: Result<
    (),
    String,
>)
    ensures
        (match r {
            Ok(_) => Ok::<(), Seq<char>>(()),
            Err(e) => Err(e@),
        }) == probe_result(*ran, text::texts(lines@)),
{
    let exit = match ran {
        Err(e) => {
            return Err(text::cat2("无法启动 Node 探针：", e.as_str()));
        },
        Ok(exit) => exit,
    };
    if exit.success {
        return Ok(());
    }
    let reason = match exit.code {
        Some(c) => if c == 2 {
            text::owned("Node 探针报告内核依赖无法加载")
        } else {
            text::cat3(
                "Node 探针以退出码 ",
                text::signed(c).as_str(),
                " 结束（探针自身的失败约定是退出码 2，因此这通常意味着 node 可执行文件没能真正跑起来，例如路径中含空格被命令解释器切碎、或该 node 与内核的 prebuild ABI 不匹配）",
            )
        },
        None => text::owned("Node 探针被信号终止"),
    };
    let mut detail = probe_report_lines(lines);
    let ghost all = detail@;
    proof {
        assert(text::texts(all).len() == all.len());
    }
    if detail.len() > MAX_PROBE_DETAIL_LINES {
        detail.truncate(MAX_PROBE_DETAIL_LINES);
        proof {
            assert(text::texts(detail@) =~= text::texts(all).take(MAX_PROBE_DETAIL_LINES as int));
        }
    }
    proof {
        assert(text::texts(detail@) =~= probe_detail(text::texts(lines@)));
        assert(text::texts(detail@).len() == detail@.len());
    }
    if detail.is_empty() {
        Err(reason)
    } else {
        Err(text::cat3(reason.as_str(), "；探针输出：", text::join(&detail, " | ").as_str()))
    }
}

/// What came of a step of an install.
#[derive(Debug)]
pub enum InstallEvent {
    /// A version is to be installed under this directory.
    Begun { prefix: String, version: String },
    /// The package manager ran, or could not; and whether the kernel's entry
    /// is there.
    PnpmEnded { ran: Result<ExitInfo, String>, bin_ready: bool },
    /// The packages that are there and the native files that are built.
    NativeListed { installed: Vec<String>, built: Vec<String> },
    /// The probe ran, or could not; and what it printed.
    Probed { ran: Result<ExitInfo, String>, lines: Vec<String> },
}

/// The next step of an install.
#[derive(Debug)]
pub enum InstallAction {
    /// Write this `package.json` and run the package manager with these
    /// arguments.
    RunPnpm { stub: String, args: Vec<String> },
    /// List the installed packages and the built native files.
    ListNative,
    /// Run the probe with this script.
    Probe(String),
    Finish(Result<(), AppError>),
}

/// The content of the next step.
#[verifier::ext_equal]
pub enum InstallActionModel {
    RunPnpm { stub: Seq<char>, args: Seq<Seq<char>> },
    ListNative,
    Probe(Seq<char>),
    Finish(Result<(), ErrorModel>),
}

impl View for InstallAction {
    type V = InstallActionModel;

    open spec fn view(&self) -> InstallActionModel {
        match self {
            InstallAction::RunPnpm { stub, args } => InstallActionModel::RunPnpm {
                stub: stub@,
                args: text::texts(args@),
            },
            InstallAction::ListNative => InstallActionModel::ListNative,
            InstallAction::Probe(s) => InstallActionModel::Probe(s@),
            InstallAction::Finish(Ok(_)) => InstallActionModel::Finish(Ok(())),
            InstallAction::Finish(Err(e)) => InstallActionModel::Finish(Err(e@)),
        }
    }
}

/// A move of an install: what to tell the user first, and what is next.
#[derive(Debug)]
pub struct InstallMove {
    pub progress: Vec<String>,
    pub action: InstallAction,
}

/// An exit code in words.
pub open spec fn exit_text(exit: ExitInfo) -> Seq<char> {
    match exit.code {
        Some(c) => text::signed_text(c as int),
        None => "? (信号)"@,
    }
}

/// What is told to the user once the package manager has ended.
pub open spec fn pnpm_progress(ran: Result<ExitInfo, String>, bin_ready: bool) -> Seq<Seq<char>> {
    match ran {
        Err(_) => Seq::empty(),
        Ok(exit) => if bin_ready && !exit.success {
            seq![
                "pnpm 已退出，正在校验安装结果"@,
                "注意：pnpm 以退出码 "@ + exit_text(exit)
                    + " 结束（多为依赖构建脚本未完全成功所致），已校验后续步骤"@,
            ]
        } else {
            seq!["pnpm 已退出，正在校验安装结果"@]
        },
    }
}

/// The failure of the package manager, if it is one. A bad exit code alone is
/// none where the kernel's entry is there.
pub open spec fn pnpm_failure(
    ran: Result<ExitInfo, String>,
    bin_ready: bool,
    log: Seq<char>,
) -> Option<Seq<char>> {
    match ran {
        Err(e) => Some(
            "无法运行 pnpm（"@ + e@ + "）。请确认已安装 Node.js 与 pnpm，详情见日志："@ + log,
        ),
        Ok(exit) => if bin_ready {
            None
        } else if !exit.success {
            Some(
                "pnpm 安装失败（退出码 "@ + exit_text(exit)
                    + "），请检查网络或 pnpm 配置后重试，详情见日志："@ + log,
            )
        } else {
            Some(
                "安装未产生预期的内核入口（"@ + crate::kernel::versions::KERNEL_BIN_REL@
                    + "），请查看日志："@ + log,
            )
        },
    }
}

/// The failure of the probe, worded for the user.
pub open spec fn probe_report(reason: Seq<char>, log: Seq<char>) -> Seq<char> {
    "内核依赖的可加载性校验失败："@ + reason
        + "。若探针输出里出现 `Cannot find module` 或 `NODE_MODULE_VERSION`，说明当前平台的 prebuild 未随 optionalDependencies 下载或与本机 Node 版本不匹配（重试安装或切换到其他内核版本）；若只有退出码而没有探针输出，说明 Node 探针进程本身没能启动，日志与「设置 → 运行时」里显示的 Node 路径可用于定位。完整日志："@
        + log
}

/// The next step of an install.
pub open spec fn install_action(event: InstallEvent, log: Seq<char>) -> InstallActionModel {
    match event {
        InstallEvent::Begun { prefix, version } => InstallActionModel::RunPnpm {
            stub: json::json_printed(stub_value(version@)) + "\n"@,
            args: pnpm_args(prefix@, version@),
        },
        InstallEvent::PnpmEnded { ran, bin_ready } => match pnpm_failure(ran, bin_ready, log) {
            Some(e) => InstallActionModel::Finish(Err(ErrorModel::Kernel(e))),
            None => InstallActionModel::ListNative,
        },
        InstallEvent::NativeListed { installed, built } => {
            let missing = unbuilt(native_checks(), text::texts(installed@), text::texts(built@));
            if missing.len() > 0 {
                InstallActionModel::Finish(Err(ErrorModel::Kernel(native_report(missing, log))))
            } else {
                InstallActionModel::Probe(
                    probe_head() + json::json_printed(
                        json::json_closed(NodeModel::List(text_values(smoke_targets()))),
                    ) + probe_tail(),
                )
            }
        },
        InstallEvent::Probed { ran, lines } => match probe_result(ran, text::texts(lines@)) {
            Ok(_) => InstallActionModel::Finish(Ok(())),
            Err(reason) => InstallActionModel::Finish(
                Err(ErrorModel::Kernel(probe_report(reason, log))),
            ),
        },
    }
}

/// What is told to the user before the next step.
pub open spec fn install_progress(event: InstallEvent, log: Seq<char>) -> Seq<Seq<char>> {
    match event {
        InstallEvent::Begun { prefix, version } => seq![
            "正在通过 pnpm 安装内核（首次通常需要 1~3 分钟，下方为实时日志）"@,
        ],
        InstallEvent::PnpmEnded { ran, bin_ready } => pnpm_progress(ran, bin_ready),
        InstallEvent::NativeListed { installed, built } => if install_action(
            event,
            log,
        ) is Probe {
            seq!["正在校验内核原生模块的可加载性"@]
        } else {
            Seq::empty()
        },
        InstallEvent::Probed { ran, lines } => if probe_result(ran, text::texts(lines@)) is Ok {
            seq!["内核安装成功"@]
        } else {
            Seq::empty()
        },
    }
}

fn exit_words(exit: &ExitInfo) -> (r: String)
    ensures
        r@ == exit_text(*exit),
{
    match exit.code {
        Some(c) => text::signed(c),
        None => text::owned("? (信号)"),
    }
}

fn one_line(line: String) -> (r: Vec<String>)
    ensures
        text::texts(r@) == seq![line@],
{
    let mut out: Vec<String> = Vec::new();
    out.push(line);
    proof {
        assert(text::texts(out@) =~= seq![line@]);
    }
    out
}

fn no_lines() -> (r: Vec<String>)
    ensures
        text::texts(r@) == Seq::<Seq<char>>::empty(),
{
    let out: Vec<String> = Vec::new();
    proof {
        assert(text::texts(out@) =~= Seq::<Seq<char>>::empty());
    }
    out
}

fn after_pnpm(ran: Result<ExitInfo, String>, bin_ready: bool, log_path: &str) -> (r: InstallMove)
    ensures
        text::texts(r.progress@) == pnpm_progress(ran, bin_ready),
        r.action@ == (match pnpm_failure(ran, bin_ready, log_path@) {
            Some(e) => InstallActionModel::Finish(Err(ErrorModel::Kernel(e))),
            None => InstallActionModel::ListNative,
        }),
{
    match ran {
        Err(e) => InstallMove {
            progress: no_lines(),
            action: InstallAction::Finish(
                Err(
                    AppError::Kernel(
                        text::cat4(
                            "无法运行 pnpm（",
                            e.as_str(),
                            "）。请确认已安装 Node.js 与 pnpm，详情见日志：",
                            log_path,
                        ),
                    ),
                ),
            ),
        },
        Ok(exit) => {
            let mut progress = one_line(text::owned("pnpm 已退出，正在校验安装结果"));
            let action = if bin_ready {
                if !exit.success {
                    let note = text::cat3(
                        "注意：pnpm 以退出码 ",
                        exit_words(&exit).as_str(),
                        " 结束（多为依赖构建脚本未完全成功所致），已校验后续步骤",
                    );
                    proof {
                        assert(text::texts(progress@.push(note)) =~= seq![
                            "pnpm 已退出，正在校验安装结果"@,
                            note@,
                        ]) by {
                            assert(text::texts(progress@).len() == progress@.len());
                            assert(text::texts(progress@)[0] == progress@[0]@);
                        }
                    }
                    progress.push(note);
                }
                InstallAction::ListNative
            } else if !exit.success {
                InstallAction::Finish(
                    Err(
                        AppError::Kernel(
                            text::cat4(
                                "pnpm 安装失败（退出码 ",
                                exit_words(&exit).as_str(),
                                "），请检查网络或 pnpm 配置后重试，详情见日志：",
                                log_path,
                            ),
                        ),
                    ),
                )
            } else {
                InstallAction::Finish(
                    Err(
                        AppError::Kernel(
                            text::cat4(
                                "安装未产生预期的内核入口（",
                                crate::kernel::versions::KERNEL_BIN_REL,
                                "），请查看日志：",
                                log_path,
                            ),
                        ),
                    ),
                )
            };
            InstallMove { progress, action }
        },
    }
}

/// Takes an install one step on: the package manager first, then the check for
/// native files, then the probe. Each step is taken only where the one before
/// found nothing wrong.
pub fn install_version_into(event: InstallEvent, log_path: &str) -> (r: InstallMove)
    ensures
        text::texts(r.progress@) == install_progress(event, log_path@),
        r.action@ == install_action(event, log_path@),
{
    match event {
        InstallEvent::Begun { prefix, version } => InstallMove {
            progress: one_line(
                text::owned("正在通过 pnpm 安装内核（首次通常需要 1~3 分钟，下方为实时日志）"),
            ),
            action: InstallAction::RunPnpm {
                stub: stub_package(version.as_str()),
                args: install_args(prefix.as_str(), version.as_str()),
            },
        },
        InstallEvent::PnpmEnded { ran, bin_ready } => after_pnpm(ran, bin_ready, log_path),
        InstallEvent::NativeListed { installed, built } => {
            match verify_native_modules(&installed, &built) {
                Ok(_) => InstallMove {
                    progress: one_line(text::owned("正在校验内核原生模块的可加载性")),
                    action: InstallAction::Probe(smoke_load_probe_script()),
                },
                Err(missing) => InstallMove {
                    progress: no_lines(),
                    action: InstallAction::Finish(
                        Err(AppError::Kernel(format_native_modules_error(&missing, log_path))),
                    ),
                },
            }
        },
        InstallEvent::Probed { ran, lines } => {
            match smoke_load_native_modules(&ran, &lines) {
                Ok(_) => InstallMove {
                    progress: one_line(text::owned("内核安装成功")),
                    action: InstallAction::Finish(Ok(())),
                },
                Err(reason) => InstallMove {
                    progress: no_lines(),
                    action: InstallAction::Finish(
                        Err(
                            AppError::Kernel(
                                text::cat4(
                                    "内核依赖的可加载性校验失败：",
                                    reason.as_str(),
                                    "。若探针输出里出现 `Cannot find module` 或 `NODE_MODULE_VERSION`，说明当前平台的 prebuild 未随 optionalDependencies 下载或与本机 Node 版本不匹配（重试安装或切换到其他内核版本）；若只有退出码而没有探针输出，说明 Node 探针进程本身没能启动，日志与「设置 → 运行时」里显示的 Node 路径可用于定位。完整日志：",
                                    log_path,
                                ),
                            ),
                        ),
                    ),
                },
            }
        },
    }
}

/// The directory of a version goes after an install.
pub open spec fn is_cleared(failed: bool, existed_before: bool) -> bool {
    failed && !existed_before
}

/// Whether the directory of a version is removed after an install: a fresh
/// install that failed leaves nothing behind, while one that failed over an
/// older one leaves what is there.
pub fn install_version(failed: bool, existed_before: bool) -> (r: bool)
    ensures
        r == (failed && !existed_before),
        r == is_cleared(failed, existed_before),
{
    failed && !existed_before
}

/// An install succeeds only by way of the probe: neither the package manager
/// nor the check for files can end it well.
pub proof fn law_only_the_probe_ends_an_install_well(event: InstallEvent, log: Seq<char>)
    ensures
        install_action(event, log) == InstallActionModel::Finish(Ok(())) ==> (event matches InstallEvent::Probed {
            ran,
            lines,
        } && (ran matches Ok(exit) && exit.success)),
{
}

/// The event is what the step calls for.
pub open spec fn answers_step(step: InstallActionModel, event: InstallEvent) -> bool {
    match step {
        InstallActionModel::RunPnpm { stub, args } => event is PnpmEnded,
        InstallActionModel::ListNative => event is NativeListed,
        InstallActionModel::Probe(_) => event is Probed,
        InstallActionModel::Finish(_) => false,
    }
}

/// A run of an install: it begins, and each further event answers the step
/// before.
pub open spec fn install_run(run: Seq<InstallEvent>, log: Seq<char>) -> bool {
    &&& run.len() > 0 && run[0] is Begun
    &&& forall|i: int|
        0 < i < run.len() ==> answers_step(install_action(run[i - 1], log), #[trigger] run[i])
}

/// An install that ends well went through every check: the package manager
/// ended and the kernel's entry was there, no native file that is wanted was
/// missing, and the probe loaded everything.
pub proof fn law_an_install_that_ends_well_was_checked(run: Seq<InstallEvent>, log: Seq<char>)
    requires
        install_run(run, log),
        install_action(run.last(), log) == InstallActionModel::Finish(Ok(())),
    ensures
        run.len() == 4,
        run[1] matches InstallEvent::PnpmEnded { ran, bin_ready } && ran is Ok && bin_ready,
        run[2] matches InstallEvent::NativeListed { installed, built } && unbuilt(
            native_checks(),
            text::texts(installed@),
            text::texts(built@),
        ).len() == 0,
        run[3] matches InstallEvent::Probed { ran, lines } && (ran matches Ok(exit) && exit.success),
{
    law_an_install_ends(run, log);
    let n = run.len();
    assert(run[n - 1] is Probed);
    assert(n > 1);
    assert(answers_step(install_action(run[n - 2], log), run[n - 1]));
    assert(n > 2);
    assert(answers_step(install_action(run[n - 3], log), run[n - 2]));
    assert(n > 3);
    assert(answers_step(install_action(run[n - 4], log), run[n - 3]));
}

/// An install ends after at most four events.
pub proof fn law_an_install_ends(run: Seq<InstallEvent>, log: Seq<char>)
    requires
        install_run(run, log),
    ensures
        run.len() <= 4,
{
    if run.len() > 4 {
        assert(answers_step(install_action(run[0], log), run[1]));
        assert(answers_step(install_action(run[1], log), run[2]));
        assert(answers_step(install_action(run[2], log), run[3]));
        assert(answers_step(install_action(run[3], log), run[4]));
    }
}

/// A native file that is missing is reported with its package, and one that is
/// not wanted by the install is not.
pub proof fn law_missing_native_files_are_found(
    checks: Seq<(Seq<char>, Seq<char>)>,
    installed: Seq<Seq<char>>,
    built: Seq<Seq<char>>,
    k: int,
)
    requires
        0 <= k < checks.len(),
    ensures
        installed.contains(checks[k].0) && !built.contains(paths::joined(checks[k].0, checks[k].1))
            ==> unbuilt(checks, installed, built).contains(checks[k]),
        forall|m: (Seq<char>, Seq<char>)|
            unbuilt(checks, installed, built).contains(m) ==> installed.contains(m.0)
                && !built.contains(paths::joined(m.0, m.1)),
    decreases checks.len(),
{
    let before = unbuilt(checks.drop_last(), installed, built);
    let all = unbuilt(checks, installed, built);
    let c = checks.last();
    let adds = installed.contains(c.0) && !built.contains(paths::joined(c.0, c.1));
    if checks.len() > 1 {
        if k < checks.len() - 1 {
            law_missing_native_files_are_found(checks.drop_last(), installed, built, k);
            assert(checks.drop_last()[k] == checks[k]);
        } else {
            law_missing_native_files_are_found(checks.drop_last(), installed, built, 0);
        }
    } else {
        assert(before =~= Seq::<(Seq<char>, Seq<char>)>::empty());
    }
    if adds {
        assert(all[all.len() - 1] == c);
    }
    if before.contains(checks[k]) {
        let p = choose|p: int| 0 <= p < before.len() && before[p] == checks[k];
        assert(all[p] == checks[k]);
    }
    assert forall|m: (Seq<char>, Seq<char>)| all.contains(m) implies installed.contains(m.0)
        && !built.contains(paths::joined(m.0, m.1)) by {
        let p = choose|p: int| 0 <= p < all.len() && all[p] == m;
        if p < before.len() {
            assert(before[p] == m);
            assert(before.contains(m));
        }
    }
}

/// The package manager is told to add one package: the kernel, in the version
/// that is asked for, into the directory that was given. What comes after
/// `--prefix` is that directory, and the package comes last.
pub proof fn law_the_version_goes_into_its_directory(
    prefix: String,
    version: String,
    log: Seq<char>,
    i: int,
)
    ensures
        install_action(InstallEvent::Begun { prefix, version }, log) matches InstallActionModel::RunPnpm {
            stub,
            args,
        } && {
            &&& args.len() > 3
            &&& args[0] == "add"@
            &&& args.contains("--prefix"@)
            &&& 0 <= i < args.len() && args[i] == "--prefix"@ && (forall|j: int|
                0 <= j < i ==> args[j] != "--prefix"@) ==> i + 1 < args.len() && args[i + 1]
                == prefix@
            &&& args.last() == "@deepseek-ai/dsh@"@ + version@
        },
{
    let args = pnpm_args(prefix@, version@);
    reveal_strlit("add");
    reveal_strlit("--prefix");
    assert("add"@.len() != "--prefix"@.len());
    assert(args[1] == "--prefix"@);
    assert(args[2] == prefix@);
    assert(args[0] == "add"@);
}

/// Installs of two versions, or into two directories, never ask for the same.
pub proof fn law_requests_tell_installs_apart(
    prefix: Seq<char>,
    version: Seq<char>,
    other_prefix: Seq<char>,
    other_version: Seq<char>,
)
    ensures
        pnpm_args(prefix, version) == pnpm_args(other_prefix, other_version) <==> prefix
            == other_prefix && version == other_version,
{
    let a = pnpm_args(prefix, version);
    let b = pnpm_args(other_prefix, other_version);
    let head = "@deepseek-ai/dsh@"@;
    assert(a[2] == prefix && b[2] == other_prefix);
    assert(a[8] == head + version && b[8] == head + other_version);
    assert((head + version).skip(head.len() as int) =~= version);
    assert((head + other_version).skip(head.len() as int) =~= other_version);
}

/// An install stays out of any workspace, lays modules out flat, lets build
/// scripts run, does not fail on a skipped one, and reports line by line.
pub proof fn law_requests_carry_their_options(prefix: Seq<char>, version: Seq<char>)
    ensures
        pnpm_args(prefix, version).contains("--ignore-workspace"@),
        pnpm_args(prefix, version).contains("--config.node-linker=hoisted"@),
        pnpm_args(prefix, version).contains("--config.strict-dep-builds=false"@),
        pnpm_args(prefix, version).contains("--config.dangerously-allow-all-builds=true"@),
        pnpm_args(prefix, version).contains("--reporter=append-only"@),
{
    let a = pnpm_args(prefix, version);
    assert(a[3] == "--ignore-workspace"@);
    assert(a[4] == "--config.node-linker=hoisted"@);
    assert(a[5] == "--config.strict-dep-builds=false"@);
    assert(a[6] == "--config.dangerously-allow-all-builds=true"@);
    assert(a[7] == "--reporter=append-only"@);
}

/// The install goes on after the package manager exactly where it could be run
/// and the kernel's entry is there, whatever its exit code; otherwise it ends
/// with an error that names the log.
pub proof fn law_the_entry_decides_on_the_package_manager(
    ran: Result<ExitInfo, String>,
    bin_ready: bool,
    log: Seq<char>,
)
    ensures
        ({
            let next = install_action(InstallEvent::PnpmEnded { ran, bin_ready }, log);
            if ran is Ok && bin_ready {
                next is ListNative
            } else {
                next matches InstallActionModel::Finish(Err(ErrorModel::Kernel(why))) && text::ends(
                    why,
                    log,
                ) && (ran matches Err(e) ==> text::has(why, e@))
            }
        }),
{
    let next = install_action(InstallEvent::PnpmEnded { ran, bin_ready }, log);
    if !(ran is Ok && bin_ready) {
        let why = pnpm_failure(ran, bin_ready, log)->0;
        assert(why.subrange(why.len() - log.len(), why.len() as int) =~= log);
        if let Err(e) = ran {
            let n = "无法运行 pnpm（"@.len() as int;
            assert(why.subrange(n, n + e@.len()) =~= e@);
            assert(text::occurs_at(why, e@, n));
        }
    }
}

/// The packages that come with a native file, and the file.
pub open spec fn comes_native(pkg: Seq<char>, rel: Seq<char>) -> bool {
    ||| pkg == "fs-ext"@ && rel == "build/Release/fs_ext.node"@
    ||| rel == "bin/system.node"@ && (pkg == "@deepseek-ai/node-addon-system-darwin-x64"@ || pkg
        == "@deepseek-ai/node-addon-system-darwin-arm64"@ || pkg
        == "@deepseek-ai/node-addon-system-linux-x64"@ || pkg
        == "@deepseek-ai/node-addon-system-linux-arm64"@ || pkg
        == "@deepseek-ai/node-addon-system-win32-x64"@ || pkg
        == "@deepseek-ai/node-addon-system-win32-arm64"@)
}

/// The probe is run exactly where every installed package that comes with a
/// native file has it; a package that is not installed is not missed.
pub proof fn law_installed_native_modules_are_built(
    installed: Vec<String>,
    built: Vec<String>,
    log: Seq<char>,
)
    ensures
        ({
            let next = install_action(InstallEvent::NativeListed { installed, built }, log);
            let complete = forall|pkg: Seq<char>, rel: Seq<char>|
                comes_native(pkg, rel) && text::texts(installed@).contains(pkg) ==> text::texts(
                    built@,
                ).contains(#[trigger] paths::joined(pkg, rel));
            &&& complete <==> next is Probe
            &&& !complete ==> (next matches InstallActionModel::Finish(Err(ErrorModel::Kernel(why)))
                && text::ends(why, log))
        }),
{
    let checks = native_checks();
    let there = text::texts(installed@);
    let files = text::texts(built@);
    let missing = unbuilt(checks, there, files);
    assert forall|k: int| 0 <= k < checks.len() implies comes_native(
        (#[trigger] checks[k]).0,
        checks[k].1,
    ) by {}
    assert forall|pkg: Seq<char>, rel: Seq<char>| comes_native(pkg, rel) implies exists|k: int|
        0 <= k < checks.len() && checks[k] == (pkg, rel) by {
        if pkg == "fs-ext"@ && rel == "build/Release/fs_ext.node"@ {
            assert(checks[0] == (pkg, rel));
        } else if pkg == "@deepseek-ai/node-addon-system-darwin-x64"@ {
            assert(checks[1] == (pkg, rel));
        } else if pkg == "@deepseek-ai/node-addon-system-darwin-arm64"@ {
            assert(checks[2] == (pkg, rel));
        } else if pkg == "@deepseek-ai/node-addon-system-linux-x64"@ {
            assert(checks[3] == (pkg, rel));
        } else if pkg == "@deepseek-ai/node-addon-system-linux-arm64"@ {
            assert(checks[4] == (pkg, rel));
        } else if pkg == "@deepseek-ai/node-addon-system-win32-x64"@ {
            assert(checks[5] == (pkg, rel));
        } else {
            assert(checks[6] == (pkg, rel));
        }
    }
    law_missing_native_files_are_found(checks, there, files, 0);
    if missing.len() == 0 {
        assert forall|pkg: Seq<char>, rel: Seq<char>|
            comes_native(pkg, rel) && there.contains(pkg) implies files.contains(
            #[trigger] paths::joined(pkg, rel),
        ) by {
            let k = choose|k: int| 0 <= k < checks.len() && checks[k] == (pkg, rel);
            law_missing_native_files_are_found(checks, there, files, k);
        }
    } else {
        let m = missing[0];
        assert(missing.contains(m));
        lemma_unbuilt_are_checks(checks, there, files, 0);
        let k = choose|k: int| 0 <= k < checks.len() && checks[k] == m;
        assert(comes_native(checks[k].0, checks[k].1));
        let why = native_report(missing, log);
        assert(why.subrange(why.len() - log.len(), why.len() as int) =~= log);
    }
}

proof fn lemma_unbuilt_are_checks(
    checks: Seq<(Seq<char>, Seq<char>)>,
    installed: Seq<Seq<char>>,
    built: Seq<Seq<char>>,
    i: int,
)
    requires
        0 <= i < unbuilt(checks, installed, built).len(),
    ensures
        exists|k: int| 0 <= k < checks.len() && checks[k] == unbuilt(checks, installed, built)[i],
    decreases checks.len(),
{
    let before = unbuilt(checks.drop_last(), installed, built);
    let m = unbuilt(checks, installed, built)[i];
    if i < before.len() {
        lemma_unbuilt_are_checks(checks.drop_last(), installed, built, i);
        let k = choose|k: int| 0 <= k < checks.len() - 1 && checks.drop_last()[k] == before[i];
        assert(checks[k] == m);
    } else {
        assert(checks[checks.len() - 1] == m);
    }
}

/// The probe ends the install: well exactly where it ran and exited with
/// success, and otherwise with an error that names the log.
pub proof fn law_the_probe_ends_the_install(
    ran: Result<ExitInfo, String>,
    lines: Vec<String>,
    log: Seq<char>,
)
    ensures
        ({
            let next = install_action(InstallEvent::Probed { ran, lines }, log);
            if ran matches Ok(exit) && exit.success {
                next == InstallActionModel::Finish(Ok(()))
            } else {
                next matches InstallActionModel::Finish(Err(ErrorModel::Kernel(why))) && text::ends(
                    why,
                    log,
                )
            }
        }),
{
    if let Err(reason) = probe_result(ran, text::texts(lines@)) {
        let why = probe_report(reason, log);
        assert(why.subrange(why.len() - log.len(), why.len() as int) =~= log);
    }
}

/// The probe loads every package of the kernel that has native modules behind
/// it.
pub proof fn law_the_probe_loads_what_is_native()
    ensures
        smoke_targets().contains("@deepseek-ai/dsh-fs-local"@),
        smoke_targets().contains("@deepseek-ai/dsh-subprocess-local"@),
        smoke_targets().contains("@deepseek-ai/dsh-bash-local"@),
        smoke_targets().contains("@deepseek-ai/dsh-pwsh-local"@),
        smoke_targets().contains("@deepseek-ai/dsh-session-persistence-jsonl"@),
        smoke_targets().contains("@deepseek-ai/dsh-sandbox-local"@),
        smoke_targets().contains("@deepseek-ai/dsh-credentials-local"@),
        smoke_targets().contains("@deepseek-ai/dsh-attachment-local"@),
        smoke_targets().contains("@deepseek-ai/dsh-file-reference-local"@),
        smoke_targets().contains("@deepseek-ai/dsh-spill-local"@),
        smoke_targets().contains("node-addon-require-builtin"@),
        smoke_targets().len() == 11,
{
    let t = smoke_targets();
    assert(t[0] == "@deepseek-ai/dsh-fs-local"@);
    assert(t[1] == "@deepseek-ai/dsh-subprocess-local"@);
    assert(t[2] == "@deepseek-ai/dsh-bash-local"@);
    assert(t[3] == "@deepseek-ai/dsh-pwsh-local"@);
    assert(t[4] == "@deepseek-ai/dsh-session-persistence-jsonl"@);
    assert(t[5] == "@deepseek-ai/dsh-sandbox-local"@);
    assert(t[6] == "@deepseek-ai/dsh-credentials-local"@);
    assert(t[7] == "@deepseek-ai/dsh-attachment-local"@);
    assert(t[8] == "@deepseek-ai/dsh-file-reference-local"@);
    assert(t[9] == "@deepseek-ai/dsh-spill-local"@);
    assert(t[10] == "node-addon-require-builtin"@);
}

/// The lines that go to the user are those of the output that carry the probe's
/// mark: all of them, and no other. The first of them are told with a failure.
pub proof fn law_probe_lines_carry_the_mark(lines: Seq<Seq<char>>, k: int)
    ensures
        forall|i: int| #![trigger probe_lines(lines)[i]]
            0 <= i < probe_lines(lines).len() ==> text::has(probe_lines(lines)[i], "PROBE-"@)
                && lines.contains(probe_lines(lines)[i]),
        0 <= k < lines.len() && text::has(lines[k], "PROBE-"@) ==> probe_lines(lines).contains(
            lines[k],
        ),
        probe_detail(lines).is_prefix_of(probe_lines(lines)),
        probe_detail(lines).len() == (if probe_lines(lines).len() < 6 {
            probe_lines(lines).len()
        } else {
            6
        }),
    decreases lines.len(),
{
    if lines.len() > 0 {
        let init = lines.drop_last();
        let last = lines.len() - 1;
        let before = probe_lines(init);
        let out = probe_lines(lines);
        law_probe_lines_carry_the_mark(init, k);
        assert forall|i: int| 0 <= i < out.len() implies text::has(#[trigger] out[i], "PROBE-"@)
            && lines.contains(out[i]) by {
            if i < before.len() {
                assert(out[i] == before[i]);
                let j = choose|j: int| 0 <= j < init.len() && init[j] == before[i];
                assert(lines[j] == out[i]);
            } else {
                assert(lines[last] == out[i]);
            }
        }
        if 0 <= k < lines.len() && text::has(lines[k], "PROBE-"@) {
            if k < last {
                assert(init[k] == lines[k]);
                let m = choose|m: int| 0 <= m < before.len() && before[m] == init[k];
                assert(out[m] == lines[k]);
            } else {
                assert(out[out.len() - 1] == lines[k]);
            }
        }
    }
    let all = probe_lines(lines);
    assert(all.take(all.len() as int) =~= all);
}

/// Of the install logs the newest nine stay, beside the one that is being
/// written; whatever is deleted is an install log no newer than any of those.
/// The logs of the package manager's own installs are left alone.
pub proof fn law_the_newest_install_logs_stay(
    files: Seq<LogFile>,
    keep: Seq<char>,
    gone: Seq<Seq<char>>,
)
    requires
        rotated(files, keep, gone),
    ensures
        forall|i: int|
            0 <= i < gone.len() ==> (#[trigger] gone[i]) != keep && text::has(gone[i], "install-"@)
                && !text::has(gone[i], "pnpm-install-"@) && exists|f: int|
                0 <= f < files.len() && (#[trigger] files[f]).name@ == gone[i],
        ({
            let logs = files.filter(
                |f: LogFile|
                    text::has(f.name@, "install-"@) && !text::has(f.name@, "pnpm-install-"@)
                        && f.name@ != keep,
            );
            &&& gone.len() == (if logs.len() <= 9 {
                0
            } else {
                logs.len() - 9
            })
            &&& logs.len() > 9 ==> exists|order: Seq<usize>|
                #![trigger sort::permutes(order, logs.len())]
                sort::permutes(order, logs.len()) && (forall|i: int|
                    0 <= i < gone.len() ==> (#[trigger] gone[i]) == logs[order[i + 9] as int].name@)
                    && forall|a: int, b: int|
                    0 <= a < 9 <= b < logs.len() ==> logs[(#[trigger] order[a]) as int].modified
                        >= logs[(#[trigger] order[b]) as int].modified
        }),
{
    let pick = |f: LogFile|
        text::has(f.name@, "install-"@) && !text::has(f.name@, "pnpm-install-"@) && f.name@ != keep;
    let logs = files.filter(pick);
    assert(install_logs(files, keep) =~= logs) by {
        lemma_same_filter(files, pick, |f: LogFile| install_log(f.name@, keep));
    }
    if logs.len() > 9 {
        let order = choose|order: Seq<usize>|
            #![trigger newest_first(logs, order)]
            newest_first(logs, order) && gone.len() == logs.len() - KEEP_INSTALL_LOGS && forall|
                i: int,
            |
                0 <= i < gone.len() ==> (#[trigger] gone[i]) == logs[order[i
                    + KEEP_INSTALL_LOGS] as int].name@;
        assert(sort::permutes(order, logs.len()));
        assert forall|a: int, b: int| 0 <= a < 9 <= b < logs.len() implies logs[(
        #[trigger] order[a]) as int].modified >= logs[(#[trigger] order[b]) as int].modified by {
            assert(!newer(logs)(order[b] as int, order[a] as int));
        }
        assert forall|i: int| 0 <= i < gone.len() implies (#[trigger] gone[i]) != keep && text::has(
            gone[i],
            "install-"@,
        ) && !text::has(gone[i], "pnpm-install-"@) && exists|f: int|
            0 <= f < files.len() && (#[trigger] files[f]).name@ == gone[i] by {
            let at = order[i + 9] as int;
            assert(0 <= at < logs.len());
            let log = logs[at];
            files.lemma_filter_pred(pick, at);
            files.lemma_filter_contains_rev(pick, log);
            let f = choose|f: int| 0 <= f < files.len() && files[f] == log;
            assert(files[f].name@ == gone[i]);
        }
    }
}

proof fn lemma_same_filter(
    files: Seq<LogFile>,
    a: spec_fn(LogFile) -> bool,
    b: spec_fn(LogFile) -> bool,
)
    requires
        forall|f: LogFile| #[trigger] a(f) == b(f),
    ensures
        files.filter(a) == files.filter(b),
    decreases files.len(),
{
    reveal(Seq::filter);
    if files.len() > 0 {
        lemma_same_filter(files.drop_last(), a, b);
        assert(a(files.last()) == b(files.last()));
    }
}

proof fn lemma_part_of_join(parts: Seq<Seq<char>>, sep: Seq<char>, k: int)
    requires
        0 <= k < parts.len(),
    ensures
        text::has(text::join_text(parts, sep), parts[k]),
    decreases parts.len(),
{
    let whole = text::join_text(parts, sep);
    if parts.len() == 1 {
        assert(whole.subrange(0, whole.len() as int) =~= parts[k]);
        assert(text::occurs_at(whole, parts[k], 0));
    } else {
        let before = text::join_text(parts.drop_last(), sep);
        if k < parts.len() - 1 {
            lemma_part_of_join(parts.drop_last(), sep, k);
            assert(parts.drop_last()[k] == parts[k]);
            let i = choose|i: int| text::occurs_at(before, parts[k], i);
            assert(whole.subrange(i, i + parts[k].len()) =~= before.subrange(i, i + parts[k].len()));
            assert(text::occurs_at(whole, parts[k], i));
        } else {
            let i = (before + sep).len() as int;
            assert(whole.subrange(i, i + parts[k].len()) =~= parts[k]);
            assert(text::occurs_at(whole, parts[k], i));
        }
    }
}

proof fn lemma_has_in(s: Seq<char>, mid: Seq<char>, pat: Seq<char>)
    requires
        text::has(s, mid),
        text::has(mid, pat),
    ensures
        text::has(s, pat),
{
    let i = choose|i: int| text::occurs_at(s, mid, i);
    let j = choose|j: int| text::occurs_at(mid, pat, j);
    assert(s.subrange(i + j, i + j + pat.len()) =~= s.subrange(i, i + mid.len()).subrange(
        j,
        j + pat.len(),
    ));
    assert(text::occurs_at(s, pat, i + j));
}

/// The report on missing native files names each of them with its package, and
/// advises by what is missing: a compiler's runtime for what is compiled, a new
/// attempt for what comes prebuilt.
pub proof fn law_missing_files_are_named(
    missing: Seq<(Seq<char>, Seq<char>)>,
    log: Seq<char>,
    k: int,
)
    requires
        0 <= k < missing.len(),
    ensures
        text::has(native_report(missing, log), missing[k].0),
        text::has(native_report(missing, log), missing[k].1),
        missing[k].0 == "fs-ext"@ ==> text::has(native_report(missing, log), compile_hint()),
        text::begins(missing[k].0, "@deepseek-ai/node-addon-system-"@) ==> text::has(
            native_report(missing, log),
            prebuilt_hint(),
        ),
{
    let lines = missing_lines(missing);
    let all = text::join_text(lines, "、"@);
    let r = native_report(missing, log);
    let head = "内核依赖的原生模块未构建完成："@;
    let hint = native_hint(missing);
    let line = "- "@ + missing[k].0 + "（缺 "@ + missing[k].1 + "）"@;
    assert(lines[k] == line);
    lemma_part_of_join(lines, "、"@, k);
    let tail = "。"@ + hint + "完整日志："@ + log;
    text::law_texts_hold_their_parts(head, all, tail, r);
    assert(r =~= head + all + tail);
    lemma_has_in(r, all, line);
    text::law_texts_hold_their_parts("- "@, missing[k].0, "（缺 "@ + missing[k].1 + "）"@, line);
    assert(line =~= "- "@ + missing[k].0 + ("（缺 "@ + missing[k].1 + "）"@));
    lemma_has_in(r, line, missing[k].0);
    text::law_texts_hold_their_parts("- "@ + missing[k].0 + "（缺 "@, missing[k].1, "）"@, line);
    lemma_has_in(r, line, missing[k].1);
    text::law_texts_hold_their_parts(head + all + "。"@, hint, "完整日志："@ + log, r);
    assert(r =~= head + all + "。"@ + hint + ("完整日志："@ + log));
    let none = Seq::<char>::empty();
    if missing[k].0 == "fs-ext"@ {
        assert(misses_compiled(missing));
        let rest = hint.skip(compile_hint().len() as int);
        text::law_texts_hold_their_parts(none, compile_hint(), rest, hint);
        assert(hint =~= none + compile_hint() + rest);
        lemma_has_in(r, hint, compile_hint());
    }
    if text::begins(missing[k].0, "@deepseek-ai/node-addon-system-"@) {
        assert(misses_prebuilt(missing));
        let before = hint.take(hint.len() - "。"@.len() - prebuilt_hint().len());
        text::law_texts_hold_their_parts(before, prebuilt_hint(), "。"@, hint);
        assert(hint =~= before + prebuilt_hint() + "。"@);
        lemma_has_in(r, hint, prebuilt_hint());
    }
}

/// A probe that failed tells its exit code, unless that is the one by which it
/// reports, and the lines that it reported by.
pub proof fn law_failed_probes_tell_why(code: i32, lines: Seq<Seq<char>>, k: int)
    ensures
        code != 2 ==> text::has(
            probe_failure(Some(code), lines),
            text::signed_text(code as int),
        ),
        0 <= k < probe_detail(lines).len() ==> text::has(
            probe_failure(Some(code), lines),
            probe_detail(lines)[k],
        ),
{
    let reason = probe_reason(Some(code));
    let r = probe_failure(Some(code), lines);
    let none = Seq::<char>::empty();
    let after = r.skip(reason.len() as int);
    text::law_texts_hold_their_parts(none, reason, after, r);
    assert(r =~= none + reason + after);
    if code != 2 {
        let head = "Node 探针以退出码 "@;
        let n = text::signed_text(code as int);
        let rest = reason.skip((head.len() + n.len()) as int);
        text::law_texts_hold_their_parts(head, n, rest, reason);
        assert(reason =~= head + n + rest);
        lemma_has_in(r, reason, n);
    }
    if 0 <= k < probe_detail(lines).len() {
        let all = text::join_text(probe_detail(lines), " | "@);
        lemma_part_of_join(probe_detail(lines), " | "@, k);
        text::law_texts_hold_their_parts(reason + "；探针输出："@, all, none, r);
        assert(r =~= reason + "；探针输出："@ + all + none);
        lemma_has_in(r, all, probe_detail(lines)[k]);
    }
}

/// An install that ended well is never cleared away, nor is one that failed over
/// a version that was there; a fresh one that failed is.
pub proof fn law_only_fresh_failures_are_cleared(existed_before: bool)
    ensures
        !is_cleared(false, existed_before),
        !is_cleared(true, true),
        is_cleared(true, false),
{
}

/// The log of an install is one of the logs that are rotated, whichever version
/// it is of and on whatever day, unless it is the one that is being written; it
/// is named for its build, its version and its day.
pub proof fn law_install_logs_are_rotated(
    kind: Seq<char>,
    version: Seq<char>,
    date: Seq<char>,
    keep: Seq<char>,
)
    requires
        !text::has(log_file_name(kind, "install-"@ + version, date), "pnpm-install-"@),
    ensures
        ({
            let name = log_file_name(kind, "install-"@ + version, date);
            &&& install_log(name, keep) <==> name != keep
            &&& text::begins(name, kind)
            &&& text::has(name, version)
            &&& text::ends(name, date + ".log"@)
        }),
{
    let name = log_file_name(kind, "install-"@ + version, date);
    let rest = version + "-"@ + date + ".log"@;
    text::law_texts_hold_their_parts(kind + "-"@, "install-"@, rest, name);
    assert(name =~= kind + "-"@ + "install-"@ + rest);
    text::law_texts_hold_their_parts(
        kind + "-"@ + "install-"@,
        version,
        "-"@ + date + ".log"@,
        name,
    );
    assert(name =~= kind + "-"@ + "install-"@ + version + ("-"@ + date + ".log"@));
    assert(name.subrange(0, kind.len() as int) =~= kind);
    let tail = date + ".log"@;
    assert(name.subrange(name.len() - tail.len(), name.len() as int) =~= tail);
}

} // verus!
