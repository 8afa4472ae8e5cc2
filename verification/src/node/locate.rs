//! Choosing the Node.js to run the kernel with, and the package managers beside
//! it.

use crate::kernel::install::ExitInfo;
use crate::node::versions;
use crate::paths;
use crate::settings::Settings;
use crate::text;
use vstd::prelude::*;

verus! {

/// What to do where no Node.js is found.
pub const NO_NODE_FOUND_GUIDANCE: &'static str =
    "请通过下列任一方式安装 Node.js 22.19+（或 >=24）：\n• 自动安装（推荐）：在主面板点击「帮我安装」，外壳将自动下载官方 Node.js 到数据目录（需联网）。\n• 版本管理器（推荐）：nvm 用户执行 `nvm install 24 && nvm alias default 24`；fnm 用户执行 `fnm install 24 && fnm default 24`；volta 用户执行 `volta install node@24`。\n• 系统包管理器：macOS `brew install node@24`；Ubuntu/Debian 装 NodeSource 后 `apt install nodejs`；Windows `winget install OpenJS.NodeJS.LTS`。\n• 官方安装包：从 https://nodejs.org/ 下载安装包，安装后重启本应用，或在「设置」中手动指定 node 可执行文件路径。";

/// What to do where only an old Node.js is found.
pub const NODE_TOO_OLD_GUIDANCE: &'static str =
    "请升级 Node 到 22.19+（或 >=24）：使用 nvm 的用户执行 `nvm install 24 && nvm alias default 24`；使用 fnm 的用户执行 `fnm install 24 && fnm default 24`；也可从 https://nodejs.org/ 下载新版安装包覆盖安装，或在「设置」中手动指定新版 node 可执行文件路径。";

// --------------------------------------------------------------------- probing

/// What is known of an executable that may be Node.js.
#[derive(Debug)]
pub struct NodeInfo {
    pub path: String,
    /// What it calls its version; none where it did not tell.
    pub version: Option<String>,
    /// Whether the kernel runs on it.
    pub ok: bool,
    pub reason: String,
}

/// The content of what is known.
#[verifier::ext_equal]
pub struct RuntimeModel {
    pub path: Seq<char>,
    pub version: Option<Seq<char>>,
    pub ok: bool,
    pub reason: Seq<char>,
}

impl View for NodeInfo {
    type V = RuntimeModel;

    open spec fn view(&self) -> RuntimeModel {
        RuntimeModel {
            path: self.path@,
            version: text::opt_text(self.version),
            ok: self.ok,
            reason: self.reason@,
        }
    }
}

impl Clone for NodeInfo {
    fn clone(&self) -> (r: Self)
        ensures
            r@ == self@,
    {
        NodeInfo {
            path: self.path.clone(),
            version: text::copy_opt(&self.version),
            ok: self.ok,
            reason: self.reason.clone(),
        }
    }
}

/// The contents of a list.
pub open spec fn infos_of(v: Seq<NodeInfo>) -> Seq<RuntimeModel> {
    v.map_values(|i: NodeInfo| i@)
}

/// The content of what may be missing.
pub open spec fn opt_info(i: Option<NodeInfo>) -> Option<RuntimeModel> {
    match i {
        Some(x) => Some(x@),
        None => None,
    }
}

/// The version that an executable printed, where it ended well and what it
/// printed is one.
pub open spec fn printed_version(success: bool, stdout: Seq<char>) -> Option<Seq<char>> {
    if success && versions::version_in(stdout) is Some {
        Some(text::trim_text(stdout))
    } else {
        None
    }
}

/// The version that an executable printed when asked for it.
pub fn version_of(success: bool, stdout: &str) -> (r: Option<String>)
    ensures
        text::opt_text(r) == printed_version(success, stdout@),
{
    if !success {
        return None;
    }
    if versions::parse_version(stdout).is_some() {
        Some(text::trim(stdout))
    } else {
        None
    }
}

/// The numbers of a version, or zeros where it has none.
pub open spec fn numbers_or_zero(version: Seq<char>) -> (u32, u32, u32) {
    match versions::version_in(version) {
        Some(v) => (v.0 as u32, v.1 as u32, v.2 as u32),
        None => (0u32, 0u32, 0u32),
    }
}

/// What a probe of a path reports.
pub open spec fn probed(path: Seq<char>, is_file: bool, version: Option<Seq<char>>) -> RuntimeModel {
    if !is_file {
        RuntimeModel { path, version: None, ok: false, reason: "路径不存在或不可读"@ }
    } else {
        match version {
            None => RuntimeModel {
                path,
                version: None,
                ok: false,
                reason: "无法读取版本输出（可能不是有效的 node 可执行文件）"@,
            },
            Some(v) => if versions::is_compatible(numbers_or_zero(v)) {
                RuntimeModel { path, version, ok: true, reason: "可用"@ }
            } else {
                RuntimeModel {
                    path,
                    version,
                    ok: false,
                    reason: "版本 "@ + versions::version_label(numbers_or_zero(v))
                        + " 不满足 dsh 要求（^22.19 || >=24）"@,
                }
            },
        }
    }
}

/// Judges a path by whether it is a file and by the version that it told.
pub fn probe(path: &str, is_file: bool, version: Option<String>) -> (r: NodeInfo)
    ensures
        r@ == probed(path@, is_file, text::opt_text(version)),
{
    if !is_file {
        return NodeInfo {
            path: text::owned(path),
            version: None,
            ok: false,
            reason: text::owned("路径不存在或不可读"),
        };
    }
    match version {
        None => NodeInfo {
            path: text::owned(path),
            version: None,
            ok: false,
            reason: text::owned("无法读取版本输出（可能不是有效的 node 可执行文件）"),
        },
        Some(v) => {
            let parsed = match versions::parse_version(v.as_str()) {
                Some(p) => p,
                None => (0u32, 0u32, 0u32),
            };
            if versions::compatible(parsed) {
                NodeInfo {
                    path: text::owned(path),
                    version: Some(v),
                    ok: true,
                    reason: text::owned("可用"),
                }
            } else {
                NodeInfo {
                    path: text::owned(path),
                    version: Some(v),
                    ok: false,
                    reason: text::cat3(
                        "版本 ",
                        versions::format_version(parsed).as_str(),
                        " 不满足 dsh 要求（^22.19 || >=24）",
                    ),
                }
            }
        },
    }
}

/// Only a version that the kernel runs on makes a probe succeed.
pub proof fn law_only_compatible_versions_are_ok(
    path: Seq<char>,
    is_file: bool,
    version: Option<Seq<char>>,
)
    ensures
        probed(path, is_file, version).ok <==> is_file && (version matches Some(v) && (versions::version_in(
            v,
        ) matches Some(n) && versions::is_compatible((n.0 as u32, n.1 as u32, n.2 as u32)))),
{
}

// ------------------------------------------------------------------- candidates

/// The name of an executable on the platform.
pub open spec fn exe_of(name: Seq<char>, windows: bool) -> Seq<char> {
    if windows && !text::ends(text::lower_text(name), ".exe"@) {
        name + ".exe"@
    } else {
        name
    }
}

/// The name of an executable on the platform.
pub fn exe_name(name: &str, windows: bool) -> (r: String)
    ensures
        r@ == exe_of(name@, windows),
{
    if windows && !text::ends_with(text::to_lower(name).as_str(), ".exe") {
        text::cat2(name, ".exe")
    } else {
        text::owned(name)
    }
}

/// The paths under which a tool may stand in a directory, in the order in which
/// they are tried.
pub open spec fn tool_names(name: Seq<char>, dir: Seq<char>, windows: bool) -> Seq<Seq<char>> {
    if windows {
        seq![paths::joined(dir, name + ".cmd"@), paths::joined(dir, name + ".exe"@), paths::joined(dir, name)]
    } else {
        seq![paths::joined(dir, name)]
    }
}

/// The first of `candidates` among the files that are there.
pub open spec fn first_present(candidates: Seq<Seq<char>>, files: Seq<Seq<char>>) -> Option<
    Seq<char>,
>
    decreases candidates.len(),
{
    if candidates.len() == 0 {
        None
    } else if files.contains(candidates[0]) {
        Some(candidates[0])
    } else {
        first_present(candidates.drop_first(), files)
    }
}

proof fn lemma_first_present_joined(a: Seq<Seq<char>>, b: Seq<Seq<char>>, files: Seq<Seq<char>>)
    ensures
        first_present(a + b, files) == (match first_present(a, files) {
            Some(p) => Some(p),
            None => first_present(b, files),
        }),
    decreases a.len(),
{
    if a.len() > 0 {
        assert((a + b).drop_first() =~= a.drop_first() + b);
        lemma_first_present_joined(a.drop_first(), b, files);
    } else {
        assert(a + b =~= b);
    }
}

/// The tool in a directory, where one of its forms is there.
pub fn which_in_dir(name: &str, dir: &str, windows: bool, files: &Vec<String>) -> (r: Option<
    String,
>)
    ensures
        text::opt_text(r) == first_present(tool_names(name@, dir@, windows), text::texts(files@)),
{
    proof {
        reveal_with_fuel(first_present, 4);
        let all = tool_names(name@, dir@, windows);
        if windows {
            assert(all.drop_first() =~= seq![paths::joined(dir@, name@ + ".exe"@), paths::joined(dir@, name@)]);
            assert(all.drop_first().drop_first() =~= seq![paths::joined(dir@, name@)]);
            assert(all.drop_first().drop_first().drop_first() =~= Seq::<Seq<char>>::empty());
        } else {
            assert(all.drop_first() =~= Seq::<Seq<char>>::empty());
        }
    }
    if windows {
        let cmd = paths::join(dir, text::cat2(name, ".cmd").as_str());
        if text::listed(files, cmd.as_str()) {
            return Some(cmd);
        }
        let exe = paths::join(dir, text::cat2(name, ".exe").as_str());
        if text::listed(files, exe.as_str()) {
            return Some(exe);
        }
    }
    let plain = paths::join(dir, name);
    if text::listed(files, plain.as_str()) {
        return Some(plain);
    }
    None
}

/// The paths under which a tool may stand in some directories.
pub open spec fn names_in_dirs(name: Seq<char>, dirs: Seq<Seq<char>>, windows: bool) -> Seq<
    Seq<char>,
>
    decreases dirs.len(),
{
    if dirs.len() == 0 {
        Seq::empty()
    } else {
        names_in_dirs(name, dirs.drop_last(), windows) + tool_names(name, dirs.last(), windows)
    }
}

/// Where a tool is looked for: beside Node.js, and then along the path.
pub open spec fn tool_candidates(
    name: Seq<char>,
    node_dir: Seq<char>,
    dirs: Seq<Seq<char>>,
    windows: bool,
) -> Seq<Seq<char>> {
    tool_names(name, node_dir, windows) + names_in_dirs(name, dirs, windows)
}

/// The tool that is used: the one that is set, where it is a file, or else the
/// first that is found.
pub open spec fn chosen_tool(
    configured: Option<Seq<char>>,
    name: Seq<char>,
    node_dir: Seq<char>,
    dirs: Seq<Seq<char>>,
    windows: bool,
    files: Seq<Seq<char>>,
) -> Option<Seq<char>> {
    if configured matches Some(c) && files.contains(c) {
        configured
    } else {
        first_present(tool_candidates(name, node_dir, dirs, windows), files)
    }
}

/// The paths that are worth a look for a tool.
pub fn list_tool_candidates(name: &str, node_dir: &str, dirs: &Vec<String>, windows: bool) -> (r:
    Vec<String>)
    ensures
        text::texts(r@) == tool_candidates(name@, node_dir@, text::texts(dirs@), windows),
{
    let mut out = list_tool_names(name, node_dir, windows);
    let ghost lead = tool_names(name@, node_dir@, windows);
    let ghost all = text::texts(dirs@);
    let mut i: usize = 0;
    proof {
        assert(all.take(0) =~= Seq::<Seq<char>>::empty());
        assert(lead + names_in_dirs(name@, all.take(0), windows) =~= lead);
    }
    while i < dirs.len()
        invariant
            i <= dirs.len(),
            all == text::texts(dirs@),
            text::texts(out@) == lead + names_in_dirs(name@, all.take(i as int), windows),
        decreases dirs.len() - i,
    {
        let more = list_tool_names(name, dirs[i].as_str(), windows);
        proof {
            assert(all[i as int] == dirs@[i as int]@);
            assert(all.take(i + 1).drop_last() =~= all.take(i as int));
            let was = names_in_dirs(name@, all.take(i as int), windows);
            assert(lead + was + text::texts(more@) =~= lead + (was + text::texts(more@)));
        }
        versions::append(&mut out, &more);
        i = i + 1;
    }
    proof {
        assert(all.take(all.len() as int) =~= all);
    }
    out
}

fn list_tool_names(name: &str, dir: &str, windows: bool) -> (r: Vec<String>)
    ensures
        text::texts(r@) == tool_names(name@, dir@, windows),
{
    let mut out: Vec<String> = Vec::new();
    if windows {
        out.push(paths::join(dir, text::cat2(name, ".cmd").as_str()));
        out.push(paths::join(dir, text::cat2(name, ".exe").as_str()));
    }
    out.push(paths::join(dir, name));
    proof {
        assert(text::texts(out@) =~= tool_names(name@, dir@, windows));
    }
    out
}

fn find_tool(
    configured: &Option<String>,
    name: &str,
    node_dir: &str,
    dirs: &Vec<String>,
    windows: bool,
    files: &Vec<String>,
) -> (r: Option<String>)
    ensures
        text::opt_text(r) == chosen_tool(
            text::opt_text(*configured),
            name@,
            node_dir@,
            text::texts(dirs@),
            windows,
            text::texts(files@),
        ),
{
    match configured {
        Some(c) => {
            if text::listed(files, c.as_str()) {
                return Some(c.clone());
            }
        },
        None => {},
    }
    let ghost all = text::texts(dirs@);
    let ghost there = text::texts(files@);
    let ghost lead = tool_names(name@, node_dir@, windows);
    proof {
        lemma_first_present_joined(lead, names_in_dirs(name@, all, windows), there);
    }
    match which_in_dir(name, node_dir, windows, files) {
        Some(p) => {
            return Some(p);
        },
        None => {},
    }
    let mut i: usize = 0;
    proof {
        assert(all.take(0) =~= Seq::<Seq<char>>::empty());
        lemma_first_present_joined(Seq::empty(), Seq::empty(), there);
    }
    while i < dirs.len()
        invariant
            i <= dirs.len(),
            all == text::texts(dirs@),
            there == text::texts(files@),
            lead == tool_names(name@, node_dir@, windows),
            first_present(lead, there) is None,
            !(text::opt_text(*configured) matches Some(c) && there.contains(c)),
            first_present(names_in_dirs(name@, all.take(i as int), windows), there) is None,
        decreases dirs.len() - i,
    {
        proof {
            assert(all[i as int] == dirs@[i as int]@);
            assert(all.take(i + 1).drop_last() =~= all.take(i as int));
            lemma_first_present_joined(
                names_in_dirs(name@, all.take(i as int), windows),
                tool_names(name@, all[i as int], windows),
                there,
            );
        }
        match which_in_dir(name, dirs[i].as_str(), windows, files) {
            Some(p) => {
                proof {
                    lemma_names_split(name@, all, windows, i + 1);
                    lemma_first_present_joined(
                        names_in_dirs(name@, all.take(i + 1), windows),
                        names_in_dirs(name@, all.skip(i + 1), windows),
                        there,
                    );
                    lemma_first_present_joined(lead, names_in_dirs(name@, all, windows), there);
                }
                return Some(p);
            },
            None => {},
        }
        i = i + 1;
    }
    proof {
        assert(all.take(all.len() as int) =~= all);
        lemma_first_present_joined(lead, names_in_dirs(name@, all, windows), there);
    }
    None
}

proof fn lemma_names_split(name: Seq<char>, dirs: Seq<Seq<char>>, windows: bool, k: int)
    requires
        0 <= k <= dirs.len(),
    ensures
        names_in_dirs(name, dirs, windows) == names_in_dirs(name, dirs.take(k), windows)
            + names_in_dirs(name, dirs.skip(k), windows),
    decreases dirs.len(),
{
    if k == dirs.len() {
        assert(dirs.take(k) =~= dirs);
        assert(dirs.skip(k) =~= Seq::<Seq<char>>::empty());
        assert(names_in_dirs(name, dirs, windows) + Seq::<Seq<char>>::empty() =~= names_in_dirs(
            name,
            dirs,
            windows,
        ));
    } else {
        let front = dirs.drop_last();
        lemma_names_split(name, front, windows, k);
        assert(front.take(k) =~= dirs.take(k));
        assert(dirs.skip(k).drop_last() =~= front.skip(k));
        assert(dirs.skip(k).last() == dirs.last());
        let a = names_in_dirs(name, front.take(k), windows);
        let b = names_in_dirs(name, front.skip(k), windows);
        let last = tool_names(name, dirs.last(), windows);
        assert((a + b) + last =~= a + (b + last));
    }
}

/// The pnpm that is used.
pub fn resolve_pnpm(
    settings: &Settings,
    node_dir: &str,
    dirs: &Vec<String>,
    windows: bool,
    files: &Vec<String>,
) -> (r: Option<String>)
    ensures
        text::opt_text(r) == chosen_tool(
            settings@.pnpm_path,
            "pnpm"@,
            node_dir@,
            text::texts(dirs@),
            windows,
            text::texts(files@),
        ),
{
    find_tool(&settings.pnpm_path, "pnpm", node_dir, dirs, windows, files)
}

/// The npm that is used.
pub fn find_npm(
    settings: &Settings,
    node_dir: &str,
    dirs: &Vec<String>,
    windows: bool,
    files: &Vec<String>,
) -> (r: Option<String>)
    ensures
        text::opt_text(r) == chosen_tool(
            settings@.npm_path,
            "npm"@,
            node_dir@,
            text::texts(dirs@),
            windows,
            text::texts(files@),
        ),
{
    find_tool(&settings.npm_path, "npm", node_dir, dirs, windows, files)
}

/// A tool that is set and there is used, whatever else is there.
pub proof fn law_configured_tools_come_first(
    configured: Seq<char>,
    name: Seq<char>,
    node_dir: Seq<char>,
    dirs: Seq<Seq<char>>,
    windows: bool,
    files: Seq<Seq<char>>,
)
    requires
        files.contains(configured),
    ensures
        chosen_tool(Some(configured), name, node_dir, dirs, windows, files) == Some(configured),
{
}

/// The executables along the path.
pub open spec fn nodes_in_dirs(dirs: Seq<Seq<char>>, windows: bool) -> Seq<Seq<char>> {
    dirs.map_values(|d: Seq<char>| paths::joined(d, exe_of("node"@, windows)))
}

/// The first Node.js along the path.
pub fn from_path(dirs: &Vec<String>, windows: bool, files: &Vec<String>) -> (r: Option<String>)
    ensures
        text::opt_text(r) == first_present(nodes_in_dirs(text::texts(dirs@), windows), text::texts(files@)),
{
    let exe = exe_name("node", windows);
    let ghost all = nodes_in_dirs(text::texts(dirs@), windows);
    let mut i: usize = 0;
    proof {
        assert(all.skip(0) =~= all);
    }
    while i < dirs.len()
        invariant
            i <= dirs.len(),
            exe@ == exe_of("node"@, windows),
            all == nodes_in_dirs(text::texts(dirs@), windows),
            all.len() == dirs@.len(),
            first_present(all, text::texts(files@)) == first_present(all.skip(i as int), text::texts(files@)),
        decreases dirs.len() - i,
    {
        let candidate = paths::join(dirs[i].as_str(), exe.as_str());
        proof {
            assert(text::texts(dirs@)[i as int] == dirs@[i as int]@);
            assert(all.skip(i as int)[0] == candidate@);
            assert(all.skip(i as int).drop_first() =~= all.skip(i + 1));
        }
        if text::listed(files, candidate.as_str()) {
            return Some(candidate);
        }
        i = i + 1;
    }
    None
}

/// A path under a Windows directory.
pub open spec fn windows_joined(dir: Seq<char>, name: Seq<char>) -> Seq<char> {
    if text::ends(dir, "\\"@) || text::ends(dir, "/"@) {
        dir + name
    } else {
        dir + "\\"@ + name
    }
}

/// Where Node.js is usually installed.
pub open spec fn usual_places(windows: bool, local: Option<Seq<char>>) -> Seq<Seq<char>> {
    let unix = seq!["/usr/local/bin/node"@, "/opt/homebrew/bin/node"@, "/usr/bin/node"@];
    if !windows {
        unix
    } else {
        let all = unix.push("C:\\Program Files\\nodejs\\node.exe"@);
        match local {
            Some(l) => all.push(windows_joined(l, "Programs\\nodejs\\node.exe"@)),
            None => all,
        }
    }
}

/// Where Node.js is usually installed. `local` is the user's directory for
/// programs, on Windows.
pub fn common_locations(windows: bool, local: Option<&str>) -> (r: Vec<String>)
    ensures
        text::texts(r@) == usual_places(
            windows,
            match local {
                Some(l) => Some(l@),
                None => None,
            },
        ),
{
    let mut out: Vec<String> = Vec::new();
    out.push(text::owned("/usr/local/bin/node"));
    out.push(text::owned("/opt/homebrew/bin/node"));
    out.push(text::owned("/usr/bin/node"));
    if windows {
        out.push(text::owned("C:\\Program Files\\nodejs\\node.exe"));
        match local {
            Some(l) => {
                let p = if text::ends_with(l, "\\") || text::ends_with(l, "/") {
                    text::cat2(l, "Programs\\nodejs\\node.exe")
                } else {
                    text::cat3(l, "\\", "Programs\\nodejs\\node.exe")
                };
                out.push(p);
            },
            None => {},
        }
    }
    proof {
        assert(text::texts(out@) =~= usual_places(
            windows,
            match local {
                Some(l) => Some(l@),
                None => None,
            },
        ));
    }
    out
}

/// The candidates in the order in which they are probed: the one along the
/// path, those of nvm, and the usual places that hold a file.
pub open spec fn in_order(
    on_path: Option<Seq<char>>,
    nvm: Seq<Seq<char>>,
    common: Seq<Seq<char>>,
    files: Seq<Seq<char>>,
) -> Seq<Seq<char>> {
    (match on_path {
        Some(p) => seq![p],
        None => Seq::empty(),
    }) + nvm + common.filter(|p: Seq<char>| files.contains(p))
}

/// The candidates in the order in which they are probed.
pub fn environment_candidates(
    on_path: Option<String>,
    nvm: &Vec<String>,
    common: &Vec<String>,
    files: &Vec<String>,
) -> (r: Vec<String>)
    ensures
        text::texts(r@) == in_order(text::opt_text(on_path), text::texts(nvm@), text::texts(common@), text::texts(files@)),
{
    let ghost lead: Seq<Seq<char>> = match text::opt_text(on_path) {
        Some(p) => seq![p],
        None => Seq::empty(),
    };
    let mut out: Vec<String> = Vec::new();
    match on_path {
        Some(p) => {
            out.push(p);
        },
        None => {},
    }
    proof {
        assert(text::texts(out@) =~= lead);
    }
    versions::append(&mut out, nvm);
    let ghost first = text::texts(out@);
    let ghost all = text::texts(common@);
    let ghost there = |p: Seq<char>| text::texts(files@).contains(p);
    let mut i: usize = 0;
    proof {
        reveal(Seq::filter);
        assert(all.take(0) =~= Seq::<Seq<char>>::empty());
        assert(first + all.take(0).filter(there) =~= first);
    }
    while i < common.len()
        invariant
            i <= common.len(),
            all == text::texts(common@),
            there == (|p: Seq<char>| text::texts(files@).contains(p)),
            text::texts(out@) == first + all.take(i as int).filter(there),
        decreases common.len() - i,
    {
        proof {
            reveal(Seq::filter);
            assert(all[i as int] == common@[i as int]@);
            assert(all.take(i + 1).drop_last() =~= all.take(i as int));
        }
        if text::listed(files, common[i].as_str()) {
            let p = common[i].clone();
            proof {
                let was = all.take(i as int).filter(there);
                assert(text::texts(out@.push(p)) =~= text::texts(out@).push(p@));
                assert((first + was).push(p@) =~= first + was.push(p@));
            }
            out.push(p);
        }
        i = i + 1;
    }
    proof {
        assert(all.take(all.len() as int) =~= all);
    }
    out
}

// ---------------------------------------------------------------------- scanning

/// What probing the candidates found.
#[derive(Debug)]
pub struct EnvironmentScan {
    /// The first candidate that the kernel runs on.
    pub usable: Option<NodeInfo>,
    /// The first candidate before it that told a version.
    pub near_miss: Option<NodeInfo>,
}

/// The first probe that succeeded.
pub open spec fn first_usable(infos: Seq<RuntimeModel>) -> Option<RuntimeModel>
    decreases infos.len(),
{
    if infos.len() == 0 {
        None
    } else {
        match first_usable(infos.drop_last()) {
            Some(i) => Some(i),
            None => if infos.last().ok {
                Some(infos.last())
            } else {
                None
            },
        }
    }
}

/// The first probe that told a version, of those before any success.
pub open spec fn first_near_miss(infos: Seq<RuntimeModel>) -> Option<RuntimeModel>
    decreases infos.len(),
{
    if infos.len() == 0 {
        None
    } else {
        match first_near_miss(infos.drop_last()) {
            Some(i) => Some(i),
            None => if first_usable(infos.drop_last()) is None && !infos.last().ok
                && infos.last().version is Some {
                Some(infos.last())
            } else {
                None
            },
        }
    }
}

/// Takes probes in order until one succeeds, and remembers the nearest miss.
pub fn probe_environment(infos: &Vec<NodeInfo>) -> (r: EnvironmentScan)
    ensures
        opt_info(r.usable) == first_usable(infos_of(infos@)),
        opt_info(r.near_miss) == first_near_miss(infos_of(infos@)),
{
    let mut near_miss: Option<NodeInfo> = None;
    let ghost all = infos_of(infos@);
    let mut i: usize = 0;
    proof {
        assert(all.take(0) =~= Seq::<RuntimeModel>::empty());
    }
    while i < infos.len()
        invariant
            i <= infos.len(),
            all == infos_of(infos@),
            first_usable(all.take(i as int)) is None,
            opt_info(near_miss) == first_near_miss(all.take(i as int)),
        decreases infos.len() - i,
    {
        let info = &infos[i];
        proof {
            assert(all[i as int] == info@);
            assert(all.take(i + 1).drop_last() =~= all.take(i as int));
            assert(all.take(i + 1).last() == info@);
        }
        if info.ok {
            proof {
                law_later_candidates_do_not_matter(all.take(i + 1), all.skip(i + 1));
                assert(all.take(i + 1) + all.skip(i + 1) =~= all);
            }
            return EnvironmentScan { usable: Some(info.clone()), near_miss };
        }
        if info.version.is_some() && near_miss.is_none() {
            near_miss = Some(info.clone());
        }
        i = i + 1;
    }
    proof {
        assert(all.take(all.len() as int) =~= all);
    }
    EnvironmentScan { usable: None, near_miss }
}

/// Once a probe has succeeded, candidates after it change nothing, so they need
/// not be probed.
pub proof fn law_later_candidates_do_not_matter(
    infos: Seq<RuntimeModel>,
    later: Seq<RuntimeModel>,
)
    requires
        first_usable(infos) is Some,
    ensures
        first_usable(infos + later) == first_usable(infos),
        first_near_miss(infos + later) == first_near_miss(infos),
    decreases later.len(),
{
    if later.len() == 0 {
        assert(infos + later =~= infos);
    } else {
        assert((infos + later).drop_last() =~= infos + later.drop_last());
        law_later_candidates_do_not_matter(infos, later.drop_last());
    }
}

// ---------------------------------------------------------------------- choosing

/// The runtime that the shell installed itself, where it can be used.
pub open spec fn managed_of(info: Option<RuntimeModel>) -> Option<RuntimeModel> {
    match info {
        Some(i) if i.ok => Some(
            RuntimeModel { reason: "托管运行时（自动安装到数据目录）"@, ..i },
        ),
        _ => None,
    }
}

/// The runtime that the shell installed itself, where it can be used. `info` is
/// the probe of it, where there is one.
pub fn probe_managed(info: Option<NodeInfo>) -> (r: Option<NodeInfo>)
    ensures
        opt_info(r) == managed_of(opt_info(info)),
{
    match info {
        Some(i) => if i.ok {
            Some(
                NodeInfo {
                    path: i.path,
                    version: i.version,
                    ok: true,
                    reason: text::owned("托管运行时（自动安装到数据目录）"),
                },
            )
        } else {
            None
        },
        None => None,
    }
}

/// A runtime that is used in place of the one that is set.
pub open spec fn fallen_back(detected: RuntimeModel, why: Seq<char>) -> RuntimeModel {
    RuntimeModel {
        reason: "配置的路径不可用（"@ + why + "），已自动回退到："@ + detected.path,
        ..detected
    }
}

/// What is said of the nearest miss, after `lead`.
pub open spec fn miss_detail(near: Option<RuntimeModel>, lead: Seq<char>) -> Seq<char> {
    match near {
        Some(n) => lead + n.path + "（"@ + n.reason + "）。"@,
        None => Seq::empty(),
    }
}

/// What to do, by whether a near miss was found.
pub open spec fn guidance(near: Option<RuntimeModel>) -> Seq<char> {
    if near is Some {
        NODE_TOO_OLD_GUIDANCE@
    } else {
        NO_NODE_FOUND_GUIDANCE@
    }
}

/// The runtime that is chosen: the one that is set, the one that the shell
/// installed, or the first that the environment has.
pub open spec fn chosen(
    configured: Option<RuntimeModel>,
    managed: Option<RuntimeModel>,
    infos: Seq<RuntimeModel>,
) -> RuntimeModel {
    let near = first_near_miss(infos);
    match configured {
        Some(c) => if c.ok {
            c
        } else if managed_of(managed) is Some {
            fallen_back(managed_of(managed)->0, c.reason)
        } else if first_usable(infos) is Some {
            fallen_back(first_usable(infos)->0, c.reason)
        } else {
            RuntimeModel {
                path: c.path,
                version: None,
                ok: false,
                reason: "配置路径不可用且未找到可用 node。"@ + miss_detail(near, "环境中只有 "@)
                    + guidance(near),
            }
        },
        None => if managed_of(managed) is Some {
            managed_of(managed)->0
        } else if first_usable(infos) is Some {
            first_usable(infos)->0
        } else {
            RuntimeModel {
                path: match near {
                    Some(n) => n.path,
                    None => Seq::empty(),
                },
                version: None,
                ok: false,
                reason: "未检测到满足 dsh 要求（^22.19 || >=24）的 Node.js。"@ + miss_detail(
                    near,
                    "检测到 "@,
                ) + guidance(near),
            }
        },
    }
}

fn detail_of(near: &Option<NodeInfo>, lead: &str) -> (r: String)
    ensures
        r@ == miss_detail(opt_info(*near), lead@),
{
    match near {
        Some(n) => text::cat5(lead, n.path.as_str(), "（", n.reason.as_str(), "）。"),
        None => {
            let none = String::new();
            proof {
                reveal_strlit("");
                assert(none@ =~= Seq::<char>::empty());
            }
            none
        },
    }
}

fn guidance_for(near: &Option<NodeInfo>) -> (r: &'static str)
    ensures
        r@ == guidance(opt_info(*near)),
{
    if near.is_some() {
        NODE_TOO_OLD_GUIDANCE
    } else {
        NO_NODE_FOUND_GUIDANCE
    }
}

fn fall_back(detected: NodeInfo, why: &str) -> (r: NodeInfo)
    ensures
        r@ == fallen_back(detected@, why@),
{
    let reason = text::cat4(
        "配置的路径不可用（",
        why,
        "），已自动回退到：",
        detected.path.as_str(),
    );
    NodeInfo { path: detected.path, version: detected.version, ok: detected.ok, reason }
}

/// Chooses the runtime. `configured` is the probe of the path that is set,
/// `managed` that of the runtime that the shell installed, and `infos` those of
/// the environment's candidates.
pub fn resolve(configured: Option<NodeInfo>, managed: Option<NodeInfo>, infos: &Vec<NodeInfo>) -> (r:
    NodeInfo)
    ensures
        r@ == chosen(opt_info(configured), opt_info(managed), infos_of(infos@)),
{
    match configured {
        Some(c) => {
            if c.ok {
                return c;
            }
            match probe_managed(managed) {
                Some(d) => {
                    return fall_back(d, c.reason.as_str());
                },
                None => {},
            }
            let scan = probe_environment(infos);
            match scan.usable {
                Some(d) => {
                    return fall_back(d, c.reason.as_str());
                },
                None => {},
            }
            let detail = detail_of(&scan.near_miss, "环境中只有 ");
            NodeInfo {
                path: c.path,
                version: None,
                ok: false,
                reason: text::cat3(
                    "配置路径不可用且未找到可用 node。",
                    detail.as_str(),
                    guidance_for(&scan.near_miss),
                ),
            }
        },
        None => {
            match probe_managed(managed) {
                Some(d) => {
                    return d;
                },
                None => {},
            }
            let scan = probe_environment(infos);
            match scan.usable {
                Some(d) => {
                    return d;
                },
                None => {},
            }
            let detail = detail_of(&scan.near_miss, "检测到 ");
            let reason = text::cat3(
                "未检测到满足 dsh 要求（^22.19 || >=24）的 Node.js。",
                detail.as_str(),
                guidance_for(&scan.near_miss),
            );
            let path = match scan.near_miss {
                Some(n) => n.path,
                None => {
                    let none = String::new();
                    proof {
                        reveal_strlit("");
                        assert(none@ =~= Seq::<char>::empty());
                    }
                    none
                },
            };
            NodeInfo { path, version: None, ok: false, reason }
        },
    }
}

proof fn lemma_first_usable_is_ok(infos: Seq<RuntimeModel>)
    ensures
        first_usable(infos) matches Some(i) ==> i.ok,
        first_usable(infos) is Some <==> exists|k: int| 0 <= k < infos.len() && (#[trigger] infos[k]).ok,
    decreases infos.len(),
{
    if infos.len() > 0 {
        lemma_first_usable_is_ok(infos.drop_last());
        if first_usable(infos.drop_last()) is Some {
            let k = choose|k: int|
                0 <= k < infos.drop_last().len() && (#[trigger] infos.drop_last()[k]).ok;
            assert(infos[k].ok);
        }
        if exists|k: int| 0 <= k < infos.len() && (#[trigger] infos[k]).ok {
            let k = choose|k: int| 0 <= k < infos.len() && (#[trigger] infos[k]).ok;
            if k < infos.len() - 1 {
                assert(infos.drop_last()[k].ok);
            }
        }
    }
}

/// A runtime is chosen whenever one that can be used is known, and only then.
pub proof fn law_a_usable_runtime_is_chosen(
    configured: Option<RuntimeModel>,
    managed: Option<RuntimeModel>,
    infos: Seq<RuntimeModel>,
)
    ensures
        chosen(configured, managed, infos).ok <==> (configured matches Some(c) && c.ok) || (
        managed matches Some(m) && m.ok) || exists|k: int|
            0 <= k < infos.len() && (#[trigger] infos[k]).ok,
{
    lemma_first_usable_is_ok(infos);
}

/// A path that is set and works is taken as it is.
pub proof fn law_the_configured_runtime_comes_first(
    configured: RuntimeModel,
    managed: Option<RuntimeModel>,
    infos: Seq<RuntimeModel>,
)
    requires
        configured.ok,
    ensures
        chosen(Some(configured), managed, infos) == configured,
{
}

// -------------------------------------------------------------------------- pnpm

/// Where npm puts global packages, as it told.
pub open spec fn prefix_in(asked: Result<(bool, String), String>) -> Result<Seq<char>, Seq<char>> {
    match asked {
        Err(e) => Err("无法读取 npm prefix："@ + e@),
        Ok((success, stdout)) => if !success {
            Err("npm config get prefix 失败（请检查 npm 与 Node 环境）"@)
        } else if text::trim_text(stdout@).len() == 0 {
            Err("npm prefix 为空"@)
        } else {
            Ok(text::trim_text(stdout@))
        },
    }
}

/// The content of a result.
pub open spec fn result_text(r: Result<String, String>) -> Result<Seq<char>, Seq<char>> {
    match r {
        Ok(s) => Ok(s@),
        Err(e) => Err(e@),
    }
}

/// Reads where npm puts global packages: whether it ended well, and what it
/// printed.
pub fn npm_prefix(asked: Result<(bool, String), String>) -> (r: Result<String, String>)
    ensures
        result_text(r) == prefix_in(asked),
{
    match asked {
        Err(e) => Err(text::cat2("无法读取 npm prefix：", e.as_str())),
        Ok((success, stdout)) => {
            if !success {
                return Err(text::owned("npm config get prefix 失败（请检查 npm 与 Node 环境）"));
            }
            let prefix = text::trim(stdout.as_str());
            if prefix.as_str().is_empty() {
                return Err(text::owned("npm prefix 为空"));
            }
            Ok(prefix)
        },
    }
}

/// What happened while pnpm was looked for or installed.
#[derive(Debug)]
pub enum PnpmEvent {
    /// The tools were looked for.
    Looked { pnpm: Option<String>, npm: Option<String> },
    /// npm ran to its end, or could not be run.
    NpmEnded(Result<ExitInfo, String>),
    /// pnpm was looked for again.
    LookedAgain(Option<String>),
    /// npm was asked where it puts global packages.
    PrefixAsked(Result<(bool, String), String>),
    /// The executable there was looked at.
    PrefixTried { candidate: String, is_file: bool },
}

/// What is done next.
#[derive(Debug)]
pub enum PnpmAction {
    /// npm is run, with these arguments.
    RunNpm { npm: String, args: Vec<String> },
    /// pnpm is looked for again.
    LookAgain,
    /// npm is asked where it puts global packages, with these arguments.
    AskPrefix { args: Vec<String> },
    /// The executable there is looked at.
    TryPrefix { candidate: String },
    /// The outcome.
    Finish(Result<String, String>),
}

/// The content of what is done next.
#[verifier::ext_equal]
pub enum PnpmModel {
    RunNpm { npm: Seq<char>, args: Seq<Seq<char>> },
    LookAgain,
    AskPrefix { args: Seq<Seq<char>> },
    TryPrefix { candidate: Seq<char> },
    Finish(Result<Seq<char>, Seq<char>>),
}

impl View for PnpmAction {
    type V = PnpmModel;

    open spec fn view(&self) -> PnpmModel {
        match self {
            PnpmAction::RunNpm { npm, args } => PnpmModel::RunNpm { npm: npm@, args: text::texts(args@) },
            PnpmAction::LookAgain => PnpmModel::LookAgain,
            PnpmAction::AskPrefix { args } => PnpmModel::AskPrefix { args: text::texts(args@) },
            PnpmAction::TryPrefix { candidate } => PnpmModel::TryPrefix { candidate: candidate@ },
            PnpmAction::Finish(r) => PnpmModel::Finish(result_text(*r)),
        }
    }
}

/// What is shown, and what is done next.
#[derive(Debug)]
pub struct PnpmMove {
    pub progress: Option<String>,
    pub action: PnpmAction,
}

/// What is said where there is neither pnpm nor npm.
pub open spec fn no_npm() -> Seq<char> {
    "未检测到 pnpm，也未找到可用的 npm（无法自动安装）。"@ + NO_NODE_FOUND_GUIDANCE@
        + "\n\n可选操作：① 装好 Node 后在终端执行 `npm install -g pnpm`；② 从 https://pnpm.io/installation 按平台安装；③ 在「设置」中手动指定已下载的 pnpm 可执行文件路径。"@
}

/// What is said where npm could not be run.
pub open spec fn npm_not_run(e: Seq<char>, log: Seq<char>) -> Seq<char> {
    "无法运行 npm 以自动安装 pnpm："@ + e
        + "。请检查 Node.js 安装，或在「设置」中手动指定 pnpm 路径。完整日志："@ + log
}

/// What is said where npm failed.
pub open spec fn npm_failed(code: Option<i32>, log: Seq<char>) -> Seq<char> {
    "自动安装 pnpm 失败（npm 退出码 "@ + (match code {
        Some(c) => text::signed_text(c as int),
        None => "?"@,
    })
        + "）。常见原因：网络受限、企业代理未配置 npm registry、npm prefix 权限不足（macOS/Linux 默认 prefix 需写 /usr/local，建议改用 nvm/fnm/volta 等用户级版本管理器），或 npm 本身不可用。完整日志："@
        + log
        + "\n\n可选操作：① 在终端执行 `npm install -g pnpm`；② 从 https://pnpm.io/installation 按平台安装；③ 在「设置」中指定已下载的 pnpm 可执行文件路径。"@
}

/// What is said where pnpm was installed but is not found.
pub open spec fn pnpm_lost(log: Seq<char>) -> Seq<char> {
    "npm install -g pnpm 已完成但仍未在常见位置找到 pnpm 可执行文件。请检查 npm prefix 与 PATH 设置、确认 npm prefix/bin 在本应用 PATH 内，或在「设置」中手动指定 pnpm 路径。完整日志："@
        + log
}

/// The executable of pnpm where npm puts global packages.
pub open spec fn prefix_candidate(prefix: Seq<char>, windows: bool) -> Seq<char> {
    paths::joined(
        prefix,
        if windows {
            "pnpm.cmd"@
        } else {
            "pnpm"@
        },
    )
}

/// What is done after an event.
pub open spec fn pnpm_action(event: PnpmEvent, log: Seq<char>, windows: bool) -> PnpmModel {
    match event {
        PnpmEvent::Looked { pnpm, npm } => match (pnpm, npm) {
            (Some(p), _) => PnpmModel::Finish(Ok(p@)),
            (None, None) => PnpmModel::Finish(Err(no_npm())),
            (None, Some(n)) => PnpmModel::RunNpm {
                npm: n@,
                args: seq!["install"@, "-g"@, "pnpm"@],
            },
        },
        PnpmEvent::NpmEnded(ran) => match ran {
            Err(e) => PnpmModel::Finish(Err(npm_not_run(e@, log))),
            Ok(exit) => if exit.success {
                PnpmModel::LookAgain
            } else {
                PnpmModel::Finish(Err(npm_failed(exit.code, log)))
            },
        },
        PnpmEvent::LookedAgain(found) => match found {
            Some(p) => PnpmModel::Finish(Ok(p@)),
            None => PnpmModel::AskPrefix { args: seq!["config"@, "get"@, "prefix"@] },
        },
        PnpmEvent::PrefixAsked(asked) => match prefix_in(asked) {
            Ok(prefix) => PnpmModel::TryPrefix { candidate: prefix_candidate(prefix, windows) },
            Err(_) => PnpmModel::Finish(Err(pnpm_lost(log))),
        },
        PnpmEvent::PrefixTried { candidate, is_file } => if is_file {
            PnpmModel::Finish(Ok(candidate@))
        } else {
            PnpmModel::Finish(Err(pnpm_lost(log)))
        },
    }
}

/// What is shown after an event.
pub open spec fn pnpm_progress(event: PnpmEvent) -> Option<Seq<char>> {
    match event {
        PnpmEvent::Looked { pnpm, npm } => if pnpm is None && npm is Some {
            Some(
                "未检测到 pnpm，正在通过 npm 自动安装（首次需要联网，常见 30 秒~2 分钟）"@,
            )
        } else {
            None
        },
        PnpmEvent::LookedAgain(found) => if found is Some {
            Some("pnpm 已就绪"@)
        } else {
            None
        },
        PnpmEvent::PrefixTried { candidate, is_file } => if is_file {
            Some("pnpm 已就绪"@)
        } else {
            None
        },
        _ => None,
    }
}

fn lost(log: &str) -> (r: PnpmMove)
    ensures
        r.progress is None,
        r.action@ == PnpmModel::Finish(Err(pnpm_lost(log@))),
{
    PnpmMove {
        progress: None,
        action: PnpmAction::Finish(
            Err(
                text::cat2(
                    "npm install -g pnpm 已完成但仍未在常见位置找到 pnpm 可执行文件。请检查 npm prefix 与 PATH 设置、确认 npm prefix/bin 在本应用 PATH 内，或在「设置」中手动指定 pnpm 路径。完整日志：",
                    log,
                ),
            ),
        ),
    }
}

fn after_npm(ran: Result<ExitInfo, String>, log: &str, windows: bool) -> (r: PnpmMove)
    ensures
        r.progress is None,
        r.action@ == pnpm_action(PnpmEvent::NpmEnded(ran), log@, windows),
{
    match ran {
        Err(e) => PnpmMove {
            progress: None,
            action: PnpmAction::Finish(
                Err(
                    text::cat4(
                        "无法运行 npm 以自动安装 pnpm：",
                        e.as_str(),
                        "。请检查 Node.js 安装，或在「设置」中手动指定 pnpm 路径。完整日志：",
                        log,
                    ),
                ),
            ),
        },
        Ok(exit) => {
            if exit.success {
                return PnpmMove { progress: None, action: PnpmAction::LookAgain };
            }
            let code = match exit.code {
                Some(c) => text::signed(c),
                None => text::owned("?"),
            };
            PnpmMove {
                progress: None,
                action: PnpmAction::Finish(
                    Err(
                        text::cat5(
                            "自动安装 pnpm 失败（npm 退出码 ",
                            code.as_str(),
                            "）。常见原因：网络受限、企业代理未配置 npm registry、npm prefix 权限不足（macOS/Linux 默认 prefix 需写 /usr/local，建议改用 nvm/fnm/volta 等用户级版本管理器），或 npm 本身不可用。完整日志：",
                            log,
                            "\n\n可选操作：① 在终端执行 `npm install -g pnpm`；② 从 https://pnpm.io/installation 按平台安装；③ 在「设置」中指定已下载的 pnpm 可执行文件路径。",
                        ),
                    ),
                ),
            }
        },
    }
}

/// Takes the search for pnpm one step on: it is looked for, installed with npm
/// where it is missing, looked for again, and at last looked for where npm puts
/// global packages.
pub fn ensure_pnpm(event: PnpmEvent, log: &str, windows: bool) -> (r: PnpmMove)
    ensures
        r.action@ == pnpm_action(event, log@, windows),
        text::opt_text(r.progress) == pnpm_progress(event),
{
    match event {
        PnpmEvent::Looked { pnpm, npm } => match pnpm {
            Some(p) => PnpmMove { progress: None, action: PnpmAction::Finish(Ok(p)) },
            None => match npm {
                None => PnpmMove {
                    progress: None,
                    action: PnpmAction::Finish(
                        Err(
                            text::cat3(
                                "未检测到 pnpm，也未找到可用的 npm（无法自动安装）。",
                                NO_NODE_FOUND_GUIDANCE,
                                "\n\n可选操作：① 装好 Node 后在终端执行 `npm install -g pnpm`；② 从 https://pnpm.io/installation 按平台安装；③ 在「设置」中手动指定已下载的 pnpm 可执行文件路径。",
                            ),
                        ),
                    ),
                },
                Some(n) => {
                    let mut args: Vec<String> = Vec::new();
                    args.push(text::owned("install"));
                    args.push(text::owned("-g"));
                    args.push(text::owned("pnpm"));
                    proof {
                        assert(text::texts(args@) =~= seq!["install"@, "-g"@, "pnpm"@]);
                    }
                    PnpmMove {
                        progress: Some(
                            text::owned(
                                "未检测到 pnpm，正在通过 npm 自动安装（首次需要联网，常见 30 秒~2 分钟）",
                            ),
                        ),
                        action: PnpmAction::RunNpm { npm: n, args },
                    }
                },
            },
        },
        PnpmEvent::NpmEnded(ran) => after_npm(ran, log, windows),
        PnpmEvent::LookedAgain(found) => match found {
            Some(p) => PnpmMove {
                progress: Some(text::owned("pnpm 已就绪")),
                action: PnpmAction::Finish(Ok(p)),
            },
            None => {
                let mut args: Vec<String> = Vec::new();
                args.push(text::owned("config"));
                args.push(text::owned("get"));
                args.push(text::owned("prefix"));
                proof {
                    assert(text::texts(args@) =~= seq!["config"@, "get"@, "prefix"@]);
                }
                PnpmMove { progress: None, action: PnpmAction::AskPrefix { args } }
            },
        },
        PnpmEvent::PrefixAsked(asked) => match npm_prefix(asked) {
            Ok(prefix) => {
                let candidate = paths::join(
                    prefix.as_str(),
                    if windows {
                        "pnpm.cmd"
                    } else {
                        "pnpm"
                    },
                );
                PnpmMove { progress: None, action: PnpmAction::TryPrefix { candidate } }
            },
            Err(_) => lost(log),
        },
        PnpmEvent::PrefixTried { candidate, is_file } => {
            if is_file {
                PnpmMove {
                    progress: Some(text::owned("pnpm 已就绪")),
                    action: PnpmAction::Finish(Ok(candidate)),
                }
            } else {
                lost(log)
            }
        },
    }
}

/// How far the search for pnpm is.
pub open spec fn pnpm_rank(action: PnpmModel) -> nat {
    match action {
        PnpmModel::RunNpm { .. } => 4,
        PnpmModel::LookAgain => 3,
        PnpmModel::AskPrefix { args } => 2,
        PnpmModel::TryPrefix { .. } => 1,
        PnpmModel::Finish(_) => 0,
    }
}

/// The event that answers an action.
pub open spec fn pnpm_answers(action: PnpmModel, event: PnpmEvent) -> bool {
    match action {
        PnpmModel::RunNpm { .. } => event is NpmEnded,
        PnpmModel::LookAgain => event is LookedAgain,
        PnpmModel::AskPrefix { args } => event is PrefixAsked,
        PnpmModel::TryPrefix { candidate } => event matches PnpmEvent::PrefixTried {
            candidate: c,
            ..
        } && c@ == candidate,
        PnpmModel::Finish(_) => false,
    }
}

/// Each step takes the search nearer to its end, so it ends, and npm is run at
/// most once.
pub proof fn law_the_search_for_pnpm_ends(
    action: PnpmModel,
    event: PnpmEvent,
    log: Seq<char>,
    windows: bool,
)
    requires
        pnpm_answers(action, event),
    ensures
        pnpm_rank(pnpm_action(event, log, windows)) < pnpm_rank(action),
        !(pnpm_action(event, log, windows) is RunNpm),
{
}

/// A pnpm that is there is used at once; nothing is installed.
pub proof fn law_pnpm_is_not_installed_twice(
    pnpm: String,
    npm: Option<String>,
    log: Seq<char>,
    windows: bool,
)
    ensures
        pnpm_action(PnpmEvent::Looked { pnpm: Some(pnpm), npm }, log, windows) == PnpmModel::Finish(
            Ok(pnpm@),
        ),
{
}

proof fn lemma_first_usable(infos: Seq<RuntimeModel>, k: int)
    requires
        0 <= k < infos.len(),
        infos[k].ok,
        forall|j: int| 0 <= j < k ==> !(#[trigger] infos[j]).ok,
    ensures
        first_usable(infos) == Some(infos[k]),
    decreases infos.len(),
{
    let init = infos.drop_last();
    if k < init.len() {
        assert forall|j: int| 0 <= j < k implies !(#[trigger] init[j]).ok by {
            assert(init[j] == infos[j]);
        }
        lemma_first_usable(init, k);
    } else {
        lemma_none_usable(init);
    }
}

proof fn lemma_none_usable(infos: Seq<RuntimeModel>)
    requires
        forall|j: int| 0 <= j < infos.len() ==> !(#[trigger] infos[j]).ok,
    ensures
        first_usable(infos) is None,
    decreases infos.len(),
{
    if infos.len() > 0 {
        let init = infos.drop_last();
        assert forall|j: int| 0 <= j < init.len() implies !(#[trigger] init[j]).ok by {
            assert(init[j] == infos[j]);
        }
        lemma_none_usable(init);
        assert(!infos[infos.len() - 1].ok);
    }
}

proof fn lemma_first_near_miss(infos: Seq<RuntimeModel>, k: int)
    requires
        0 <= k < infos.len(),
        infos[k].version is Some,
        forall|j: int| 0 <= j <= k ==> !(#[trigger] infos[j]).ok,
        forall|j: int| 0 <= j < k ==> (#[trigger] infos[j]).version is None,
    ensures
        first_near_miss(infos) == Some(infos[k]),
    decreases infos.len(),
{
    let init = infos.drop_last();
    if k < init.len() {
        assert forall|j: int| 0 <= j <= k implies !(#[trigger] init[j]).ok by {
            assert(init[j] == infos[j]);
        }
        assert forall|j: int| 0 <= j < k implies (#[trigger] init[j]).version is None by {
            assert(init[j] == infos[j]);
        }
        lemma_first_near_miss(init, k);
    } else {
        assert forall|j: int| 0 <= j < init.len() implies !(#[trigger] init[j]).ok
            && init[j].version is None by {
            assert(init[j] == infos[j]);
        }
        lemma_none_usable(init);
        lemma_no_near_miss(init);
        assert(!infos[k].ok);
    }
}

proof fn lemma_no_near_miss(infos: Seq<RuntimeModel>)
    requires
        forall|j: int| 0 <= j < infos.len() ==> (#[trigger] infos[j]).version is None,
    ensures
        first_near_miss(infos) is None,
    decreases infos.len(),
{
    if infos.len() > 0 {
        let init = infos.drop_last();
        assert forall|j: int| 0 <= j < init.len() implies (#[trigger] init[j]).version is None by {
            assert(init[j] == infos[j]);
        }
        lemma_no_near_miss(init);
        assert(infos[infos.len() - 1].version is None);
    }
}

/// The first runtime of the environment that can be used is chosen where
/// neither the one that is set nor the shell's own can be: its path and its
/// version are those that are reported.
pub proof fn law_the_first_usable_runtime_is_chosen(
    configured: Option<RuntimeModel>,
    managed: Option<RuntimeModel>,
    infos: Seq<RuntimeModel>,
    k: int,
)
    requires
        configured matches Some(c) ==> !c.ok,
        managed matches Some(m) ==> !m.ok,
        0 <= k < infos.len(),
        infos[k].ok,
        forall|j: int| 0 <= j < k ==> !(#[trigger] infos[j]).ok,
    ensures
        chosen(configured, managed, infos).ok,
        chosen(configured, managed, infos).path == infos[k].path,
        chosen(configured, managed, infos).version == infos[k].version,
        configured is None ==> chosen(configured, managed, infos) == infos[k],
{
    lemma_first_usable(infos, k);
}

/// The shell's own runtime comes before whatever the environment has, and after
/// the one that is set. Where something else stands in for the one that is set,
/// it is said why.
pub proof fn law_the_shells_runtime_comes_before_the_environment(
    configured: Option<RuntimeModel>,
    managed: RuntimeModel,
    infos: Seq<RuntimeModel>,
)
    requires
        managed.ok,
        configured matches Some(c) ==> !c.ok,
    ensures
        ({
            let r = chosen(configured, Some(managed), infos);
            &&& r.ok && r.path == managed.path && r.version == managed.version
            &&& configured matches Some(c) ==> text::has(r.reason, c.reason)
        }),
{
    if let Some(c) = configured {
        let r = chosen(configured, Some(managed), infos).reason;
        let n = "配置的路径不可用（"@.len() as int;
        assert(r.subrange(n, n + c.reason.len()) =~= c.reason);
        assert(text::occurs_at(r, c.reason, n));
    }
}

/// Where nothing can be used, none is chosen: no version is told, the path is
/// the one that is set, or else that of the first candidate that told a version.
pub proof fn law_no_runtime_is_made_up(
    configured: Option<RuntimeModel>,
    managed: Option<RuntimeModel>,
    infos: Seq<RuntimeModel>,
    k: int,
)
    requires
        configured matches Some(c) ==> !c.ok,
        managed matches Some(m) ==> !m.ok,
        forall|j: int| 0 <= j < infos.len() ==> !(#[trigger] infos[j]).ok,
    ensures
        ({
            let r = chosen(configured, managed, infos);
            &&& !r.ok && r.version is None
            &&& configured matches Some(c) ==> r.path == c.path
            &&& configured is None && 0 <= k < infos.len() && infos[k].version is Some && (forall|
                j: int,
            |
                0 <= j < k ==> (#[trigger] infos[j]).version is None) ==> r.path == infos[k].path
            &&& configured is None && (forall|j: int|
                0 <= j < infos.len() ==> (#[trigger] infos[j]).version is None) ==> r.path.len()
                == 0
        }),
{
    lemma_none_usable(infos);
    if 0 <= k < infos.len() && infos[k].version is Some && (forall|j: int|
        0 <= j < k ==> (#[trigger] infos[j]).version is None) {
        lemma_first_near_miss(infos, k);
    }
    if forall|j: int| 0 <= j < infos.len() ==> (#[trigger] infos[j]).version is None {
        lemma_no_near_miss(infos);
    }
}

/// A path can be used exactly where it is a file that tells a version from 22.19
/// on within 22, or from 24 on. It is reported under its own path, with the
/// version that it told.
pub proof fn law_probes_tell_what_can_be_used(
    path: Seq<char>,
    is_file: bool,
    version: Option<Seq<char>>,
)
    ensures
        ({
            let r = probed(path, is_file, version);
            &&& r.path == path
            &&& r.version == (if is_file {
                version
            } else {
                None
            })
            &&& r.ok <==> is_file && (version matches Some(v) && (versions::version_in(v) matches Some(
                n,
            ) && (n.0 as u32 == 22 && n.1 as u32 >= 19 || n.0 as u32 >= 24)))
        }),
{
}

/// What an executable printed counts as its version exactly where it ended well
/// and what it printed is one.
pub proof fn law_printed_versions_are_trimmed(success: bool, stdout: Seq<char>)
    ensures
        printed_version(success, stdout) is Some <==> success && versions::version_in(stdout) is Some,
        printed_version(success, stdout) matches Some(v) ==> v == text::trim_text(stdout),
{
}

/// The first candidate that is there is the one that is found, and where none
/// is there nothing is.
pub proof fn law_the_first_that_is_there_is_found(
    candidates: Seq<Seq<char>>,
    files: Seq<Seq<char>>,
    k: int,
)
    ensures
        0 <= k < candidates.len() && files.contains(candidates[k]) && (forall|j: int|
            0 <= j < k ==> !files.contains(#[trigger] candidates[j])) ==> first_present(
            candidates,
            files,
        ) == Some(candidates[k]),
        (forall|j: int| 0 <= j < candidates.len() ==> !files.contains(#[trigger] candidates[j]))
            ==> first_present(candidates, files) is None,
    decreases candidates.len(),
{
    if candidates.len() > 0 && !files.contains(candidates[0]) {
        let rest = candidates.drop_first();
        law_the_first_that_is_there_is_found(rest, files, k - 1);
        if 0 < k < candidates.len() && files.contains(candidates[k]) && (forall|j: int|
            0 <= j < k ==> !files.contains(#[trigger] candidates[j])) {
            assert forall|j: int| 0 <= j < k - 1 implies !files.contains(#[trigger] rest[j]) by {
                assert(rest[j] == candidates[j + 1]);
            }
            assert(rest[k - 1] == candidates[k]);
        }
        if forall|j: int| 0 <= j < candidates.len() ==> !files.contains(#[trigger] candidates[j]) {
            assert forall|j: int| 0 <= j < rest.len() implies !files.contains(#[trigger] rest[j]) by {
                assert(rest[j] == candidates[j + 1]);
            }
        }
    }
}

/// A tool beside Node.js comes before one along the path, and within a
/// directory the script that Windows runs comes before the program.
pub proof fn law_tools_beside_node_come_first(
    configured: Option<Seq<char>>,
    name: Seq<char>,
    node_dir: Seq<char>,
    dirs: Seq<Seq<char>>,
    files: Seq<Seq<char>>,
)
    requires
        configured matches Some(c) ==> !files.contains(c),
    ensures
        files.contains(paths::joined(node_dir, name)) ==> chosen_tool(
            configured,
            name,
            node_dir,
            dirs,
            false,
            files,
        ) == Some(paths::joined(node_dir, name)),
        files.contains(paths::joined(node_dir, name + ".cmd"@)) ==> chosen_tool(
            configured,
            name,
            node_dir,
            dirs,
            true,
            files,
        ) == Some(paths::joined(node_dir, name + ".cmd"@)),
        !files.contains(paths::joined(node_dir, name)) && dirs.len() > 0 && files.contains(
            paths::joined(dirs[0], name),
        ) ==> chosen_tool(configured, name, node_dir, dirs, false, files) == Some(
            paths::joined(dirs[0], name),
        ),
{
    let unix = tool_candidates(name, node_dir, dirs, false);
    let windows = tool_candidates(name, node_dir, dirs, true);
    assert(unix[0] == paths::joined(node_dir, name));
    assert(windows[0] == paths::joined(node_dir, name + ".cmd"@));
    law_the_first_that_is_there_is_found(unix, files, 0);
    law_the_first_that_is_there_is_found(windows, files, 0);
    if dirs.len() > 0 {
        lemma_first_dir(name, dirs);
        assert(unix[1] == names_in_dirs(name, dirs, false)[0]);
        assert(unix[1] == paths::joined(dirs[0], name));
        law_the_first_that_is_there_is_found(unix, files, 1);
    }
}

proof fn lemma_first_dir(name: Seq<char>, dirs: Seq<Seq<char>>)
    requires
        dirs.len() > 0,
    ensures
        names_in_dirs(name, dirs, false).len() > 0,
        names_in_dirs(name, dirs, false)[0] == paths::joined(dirs[0], name),
    decreases dirs.len(),
{
    if dirs.len() > 1 {
        lemma_first_dir(name, dirs.drop_last());
        assert(dirs.drop_last()[0] == dirs[0]);
    } else {
        assert(names_in_dirs(name, dirs.drop_last(), false).len() == 0);
        assert(dirs.last() == dirs[0]);
    }
}

/// The environment is searched along the path first, then among nvm's versions,
/// and then in the usual places, of which only those count that are there.
pub proof fn law_the_environment_is_searched_in_order(
    on_path: Option<Seq<char>>,
    nvm: Seq<Seq<char>>,
    common: Seq<Seq<char>>,
    files: Seq<Seq<char>>,
)
    ensures
        ({
            let all = in_order(on_path, nvm, common, files);
            let n: int = if on_path is Some {
                1
            } else {
                0
            };
            &&& on_path matches Some(p) ==> all.len() > 0 && all[0] == p
            &&& all.len() >= n + nvm.len()
            &&& all.subrange(n, n + nvm.len()) == nvm
            &&& forall|k: int|
                n + nvm.len() <= k < all.len() ==> common.contains(#[trigger] all[k])
                    && files.contains(all[k])
            &&& forall|j: int|
                0 <= j < common.len() && files.contains(#[trigger] common[j]) ==> all.contains(
                    common[j],
                )
        }),
{
    let there = |p: Seq<char>| files.contains(p);
    let usual = common.filter(there);
    let all = in_order(on_path, nvm, common, files);
    let n: int = if on_path is Some {
        1
    } else {
        0
    };
    assert(all.subrange(n, n + nvm.len()) =~= nvm);
    assert forall|k: int| n + nvm.len() <= k < all.len() implies common.contains(#[trigger] all[k])
        && files.contains(all[k]) by {
        let i = k - n - nvm.len();
        assert(all[k] == usual[i]);
        common.lemma_filter_pred(there, i);
        common.lemma_filter_contains_rev(there, usual[i]);
    }
    assert forall|j: int|
        0 <= j < common.len() && files.contains(#[trigger] common[j]) implies all.contains(
        common[j],
    ) by {
        assert(there(common[j]));
        common.lemma_filter_contains(there, j);
        let i = choose|i: int| 0 <= i < usual.len() && usual[i] == common[j];
        assert(all[n + nvm.len() + i] == common[j]);
    }
}

/// The usual places are looked at on every platform, and on Windows those of
/// its own as well.
pub proof fn law_usual_places(local: Seq<char>)
    ensures
        usual_places(false, None) == seq![
            "/usr/local/bin/node"@,
            "/opt/homebrew/bin/node"@,
            "/usr/bin/node"@,
        ],
        usual_places(true, Some(local)).contains("C:\\Program Files\\nodejs\\node.exe"@),
        text::begins(usual_places(true, Some(local)).last(), local),
        text::ends(usual_places(true, Some(local)).last(), "Programs\\nodejs\\node.exe"@),
{
    let all = usual_places(true, Some(local));
    assert(all[3] == "C:\\Program Files\\nodejs\\node.exe"@);
    let last = all.last();
    let tail = "Programs\\nodejs\\node.exe"@;
    assert(last.subrange(0, local.len() as int) =~= local);
    assert(last.subrange(last.len() - tail.len(), last.len() as int) =~= tail);
}

/// pnpm is installed with npm exactly where npm is there and pnpm is not; where
/// neither is there nothing is run. npm is told to install pnpm globally.
pub proof fn law_npm_installs_pnpm(
    pnpm: Option<String>,
    npm: Option<String>,
    log: Seq<char>,
    windows: bool,
)
    ensures
        ({
            let next = pnpm_action(PnpmEvent::Looked { pnpm, npm }, log, windows);
            &&& next is RunNpm <==> pnpm is None && npm is Some
            &&& next matches PnpmModel::RunNpm { npm: run, args } ==> run == (npm->0)@ && args
                == seq!["install"@, "-g"@, "pnpm"@]
            &&& next matches PnpmModel::Finish(Ok(path)) ==> pnpm matches Some(p) && p@ == path
            &&& pnpm is None && npm is None ==> next matches PnpmModel::Finish(Err(_))
        }),
{
}

/// The search ends with a path only where that path was found: by looking, by
/// looking again, or as a file where npm puts global packages. A failure tells
/// where the log is.
pub proof fn law_only_a_pnpm_that_is_there_is_used(event: PnpmEvent, log: Seq<char>, windows: bool)
    ensures
        pnpm_action(event, log, windows) matches PnpmModel::Finish(Ok(path)) ==> match event {
            PnpmEvent::Looked { pnpm, npm } => pnpm matches Some(p) && p@ == path,
            PnpmEvent::LookedAgain(found) => found matches Some(p) && p@ == path,
            PnpmEvent::PrefixTried { candidate, is_file } => is_file && candidate@ == path,
            _ => false,
        },
        event matches PnpmEvent::NpmEnded(ran) ==> (pnpm_action(event, log, windows) is LookAgain
            <==> (ran matches Ok(exit) && exit.success)),
        event matches PnpmEvent::LookedAgain(found) && found is None ==> pnpm_action(
            event,
            log,
            windows,
        ) == (PnpmModel::AskPrefix { args: seq!["config"@, "get"@, "prefix"@] }),
        event matches PnpmEvent::PrefixTried { candidate, is_file } && is_file ==> pnpm_action(
            event,
            log,
            windows,
        ) is Finish,
{
}

/// Where npm tells its prefix, pnpm is tried in it, under the name that it has
/// on the platform; where npm fails or tells nothing, the search ends without
/// a path.
pub proof fn law_the_prefix_is_tried(asked: Result<(bool, String), String>, log: Seq<char>, windows: bool)
    ensures
        ({
            let next = pnpm_action(PnpmEvent::PrefixAsked(asked), log, windows);
            let told = asked matches Ok((success, stdout)) && success && text::trim_text(
                stdout@,
            ).len() > 0;
            &&& told ==> next == (PnpmModel::TryPrefix {
                candidate: paths::joined(
                    text::trim_text((asked->Ok_0).1@),
                    if windows {
                        "pnpm.cmd"@
                    } else {
                        "pnpm"@
                    },
                ),
            })
            &&& !told ==> next matches PnpmModel::Finish(Err(_))
        }),
{
}

/// An executable carries its ending on Windows, once, and none elsewhere.
pub proof fn law_executables_carry_their_ending(name: Seq<char>)
    ensures
        exe_of(name, false) == name,
        text::ends(text::lower_text(exe_of(name, true)), ".exe"@),
        exe_of(exe_of(name, true), true) == exe_of(name, true),
        text::begins(exe_of(name, true), name),
{
    let r = exe_of(name, true);
    assert(name.subrange(0, name.len() as int) =~= name);
    assert(r.subrange(0, name.len() as int) =~= name);
    if !text::ends(text::lower_text(name), ".exe"@) {
        reveal_strlit(".exe");
        let low = text::lower_text(r);
        assert(low.subrange(low.len() - 4, low.len() as int) =~= ".exe"@);
    }
}

} // verus!
