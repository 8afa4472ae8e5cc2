//! Installed kernel versions, the active one, and the status that the panel
//! shows.

use crate::error::{AppError, ErrorModel};
use crate::paths;
use crate::text;
use vstd::prelude::*;

verus! {

/// The kernel's entry, relative to the directory of a version.
pub const KERNEL_BIN_REL: &'static str = "node_modules/@deepseek-ai/dsh/lib/bin.js";

/// The longest form of the data directory that the panel shows.
pub const DISPLAY_MAX_CHARS: usize = 38;

// --------------------------------------------------------------------- paths

/// The directory of all kernel versions.
pub fn kernels_dir(data_dir: &str) -> (r: String)
    ensures
        r@ == paths::joined(data_dir@, "kernels"@),
{
    paths::join(data_dir, "kernels")
}

/// The directory of one kernel version.
pub fn kernel_dir(data_dir: &str, version: &str) -> (r: String)
    ensures
        r@ == paths::joined(paths::joined(data_dir@, "kernels"@), version@),
{
    paths::join(kernels_dir(data_dir).as_str(), version)
}

/// The file that names the active version.
pub fn active_file(data_dir: &str) -> (r: String)
    ensures
        r@ == paths::joined(data_dir@, "active.txt"@),
{
    paths::join(data_dir, "active.txt")
}

/// The directory of the logs.
pub fn logs_dir(data_dir: &str) -> (r: String)
    ensures
        r@ == paths::joined(data_dir@, "logs"@),
{
    paths::join(data_dir, "logs")
}

/// The file that keeps the last incident.
pub fn incident_path(data_dir: &str) -> (r: String)
    ensures
        r@ == paths::joined(data_dir@, "last-incident.json"@),
{
    paths::join(data_dir, "last-incident.json")
}

/// The user's home, by the two variables that may name it.
pub fn dirs_home(home: Option<String>, user_profile: Option<String>) -> (r: String)
    ensures
        r@ == (match (home, user_profile) {
            (Some(h), _) => h@,
            (None, Some(p)) => p@,
            (None, None) => "."@,
        }),
{
    match home {
        Some(h) => h,
        None => match user_profile {
            Some(p) => p,
            None => text::owned("."),
        },
    }
}

/// The shell's data directory: a set override stands alone; otherwise it lies
/// under the dsh home, which is `.dsh` under the user's home unless it is set.
pub fn data_dir(
    override_dir: Option<String>,
    dsh_home: Option<String>,
    user_home: &str,
    subdir: &str,
) -> (r: String)
    ensures
        r@ == (match override_dir {
            Some(d) => d@,
            None => paths::joined(
                match dsh_home {
                    Some(h) => h@,
                    None => paths::joined(user_home@, ".dsh"@),
                },
                subdir@,
            ),
        }),
{
    match override_dir {
        Some(d) => d,
        None => {
            let home = match dsh_home {
                Some(h) => h,
                None => paths::join(user_home, ".dsh"),
            };
            paths::join(home.as_str(), subdir)
        },
    }
}

// ------------------------------------------------------------------- display

/// The last index below `end` at which `s` holds a slash.
pub open spec fn slash_before(s: Seq<char>, end: int) -> Option<int>
    decreases end,
{
    if end <= 0 || end > s.len() {
        None
    } else if s[end - 1] == '/' {
        Some(end - 1)
    } else {
        slash_before(s, end - 1)
    }
}

/// The first index from `start` on at which `s` holds a slash.
pub open spec fn slash_after(s: Seq<char>, start: int) -> Option<int>
    decreases s.len() - start,
{
    if start < 0 || start >= s.len() {
        None
    } else if s[start] == '/' {
        Some(start)
    } else {
        slash_after(s, start + 1)
    }
}

/// Where the kept head of a text that is too long ends.
pub open spec fn head_end(s: Seq<char>, max: int) -> int {
    match slash_before(s, max * 2 / 5) {
        Some(i) => i + 1,
        None => max * 2 / 5,
    }
}

/// Where the kept tail of a text that is too long begins.
pub open spec fn tail_begin(s: Seq<char>, max: int) -> int {
    let start = s.len() - (max - max * 2 / 5);
    match slash_after(s, start) {
        Some(i) => i,
        None => start,
    }
}

/// `s` with its middle left out where it is longer than `max`: two fifths of
/// the room go to the head, the rest to the tail, and both are cut at a slash
/// where there is one.
pub open spec fn ellipsized(s: Seq<char>, max: int) -> Seq<char> {
    if s.len() <= max {
        s
    } else {
        s.take(head_end(s, max)) + "…"@ + s.skip(tail_begin(s, max))
    }
}

proof fn lemma_slashes(s: Seq<char>, end: int, start: int)
    requires
        0 <= end <= s.len(),
        0 <= start <= s.len(),
    ensures
        slash_before(s, end) matches Some(i) ==> 0 <= i < end && s[i] == '/',
        slash_after(s, start) matches Some(i) ==> start <= i < s.len() && s[i] == '/',
    decreases end + (s.len() - start),
{
    if end > 0 && s[end - 1] != '/' {
        lemma_slashes(s, end - 1, start);
    }
    if start < s.len() && s[start] != '/' {
        lemma_slashes(s, end, start + 1);
    }
}

/// Leaves out the middle of a text that is longer than `max_chars`.
pub fn ellipsize_middle(s: &str, max_chars: usize) -> (r: String)
    ensures
        r@ == ellipsized(s@, max_chars as int),
{
    let chars = text::chars_of(s);
    if chars.len() <= max_chars {
        return text::owned(s);
    }
    let head_budget: usize = max_chars / 5 * 2 + max_chars % 5 * 2 / 5;
    let tail_budget: usize = max_chars - head_budget;
    let tail_start: usize = chars.len() - tail_budget;
    proof {
        assert(head_budget == max_chars * 2 / 5);
    }
    let mut h: usize = head_budget;
    while h > 0 && chars[h - 1] != '/'
        invariant
            h <= head_budget <= chars.len(),
            slash_before(chars@, h as int) == slash_before(chars@, head_budget as int),
        decreases h,
    {
        h = h - 1;
    }
    let head: usize = if h > 0 {
        h
    } else {
        head_budget
    };
    let mut t: usize = tail_start;
    while t < chars.len() && chars[t] != '/'
        invariant
            tail_start <= t <= chars.len(),
            slash_after(chars@, t as int) == slash_after(chars@, tail_start as int),
        decreases chars.len() - t,
    {
        t = t + 1;
    }
    let tail: usize = if t < chars.len() {
        t
    } else {
        tail_start
    };
    proof {
        assert(head == head_end(s@, max_chars as int));
        assert(tail == tail_begin(s@, max_chars as int));
    }
    let a = text::string_of(&chars, 0, head);
    let b = text::string_of(&chars, tail, chars.len());
    proof {
        assert(a@ =~= s@.take(head as int));
        assert(b@ =~= s@.skip(tail as int));
    }
    text::cat3(a.as_str(), "…", b.as_str())
}

/// A text that fits is shown as it is; one that does not is shown in at most
/// one character more than the room: a head of it, an ellipsis, and an end of
/// it.
pub proof fn law_ellipsis_fits(s: Seq<char>, max: int)
    requires
        0 <= max,
    ensures
        s.len() <= max ==> ellipsized(s, max) == s,
        ellipsized(s, max).len() <= max + 1,
        s.len() > max ==> 0 <= head_end(s, max) <= tail_begin(s, max) <= s.len(),
{
    if s.len() > max {
        lemma_slashes(s, max * 2 / 5, s.len() - (max - max * 2 / 5));
        reveal_strlit("…");
    }
}

/// The piece at `k` makes a part of the path.
pub open spec fn makes_part(pieces: Seq<Seq<char>>, rooted: bool, k: int) -> bool {
    paths::piece_part(pieces[k], !rooted && k == 0) is Some
}

/// The index of the piece, from `from` on, that makes the part after `n` more.
pub open spec fn nth_piece(pieces: Seq<Seq<char>>, rooted: bool, from: int, n: int) -> int
    decreases pieces.len() - from,
{
    if from < 0 || from >= pieces.len() {
        pieces.len() as int
    } else if !makes_part(pieces, rooted, from) {
        nth_piece(pieces, rooted, from + 1, n)
    } else if n <= 0 {
        from
    } else {
        nth_piece(pieces, rooted, from + 1, n - 1)
    }
}

/// The end of the last piece before `to` that makes a part.
pub open spec fn last_piece_end(pieces: Seq<Seq<char>>, rooted: bool, to: int) -> int
    decreases to,
{
    if to <= 0 || to > pieces.len() {
        0
    } else if makes_part(pieces, rooted, to - 1) {
        to
    } else {
        last_piece_end(pieces, rooted, to - 1)
    }
}

/// What is left of `path` after its first `n` named parts, as it is written.
pub open spec fn rest_after(path: Seq<char>, n: int) -> Seq<char> {
    let pieces = text::split_text(path, '/');
    let from = nth_piece(pieces, paths::is_rooted(path), 0, n);
    let to = last_piece_end(pieces, paths::is_rooted(path), pieces.len() as int);
    if 0 <= from <= to <= pieces.len() {
        text::join_text(pieces.subrange(from, to), "/"@)
    } else {
        Seq::empty()
    }
}

/// The number of parts of a path besides the root.
pub open spec fn named_parts(path: Seq<char>) -> int {
    paths::pieces_parts(text::split_text(path, '/'), paths::is_rooted(path)).len() as int
}

/// A path from the root as it is written, up to its last part.
pub open spec fn rooted_text(path: Seq<char>) -> Seq<char> {
    let pieces = text::split_text(path, '/');
    let to = last_piece_end(pieces, true, pieces.len() as int);
    "/"@ + (if 1 <= to <= pieces.len() {
        text::join_text(pieces.subrange(1, to), "/"@)
    } else {
        Seq::empty()
    })
}

/// What is left of `path` under `home`, as it is written. An empty home takes
/// nothing away, so that the root stays.
pub open spec fn rest_under(path: Seq<char>, home: Seq<char>) -> Seq<char> {
    if home.len() == 0 && paths::is_rooted(path) {
        rooted_text(path)
    } else {
        rest_after(path, named_parts(home))
    }
}

/// `path` with the user's home written as a tilde, where it lies under it.
pub open spec fn with_tilde(path: Seq<char>, home: Seq<char>) -> Seq<char> {
    if paths::path_parts(home).is_prefix_of(paths::path_parts(path)) {
        if paths::path_parts(path).len() == paths::path_parts(home).len() {
            "~"@
        } else {
            "~"@ + "/"@ + rest_under(path, home)
        }
    } else {
        path
    }
}

/// The data directory as the panel shows it.
pub open spec fn shown_path(path: Seq<char>, home: Seq<char>) -> Seq<char> {
    ellipsized(with_tilde(path, home), DISPLAY_MAX_CHARS as int)
}

fn rest_text(path: &str, n: usize) -> (r: String)
    ensures
        r@ == rest_after(path@, n as int),
{
    let pc = text::chars_of(path);
    let rooted = pc.len() > 0 && pc[0] == '/';
    let pieces = text::split(path, '/');
    let ghost all = text::texts(pieces@);
    let mut from: usize = 0;
    let mut left: usize = n;
    while from < pieces.len()
        invariant_except_break
            from <= pieces.len(),
            all == text::texts(pieces@),
            all == text::split_text(path@, '/'),
            nth_piece(all, rooted, 0, n as int) == nth_piece(all, rooted, from as int, left as int),
        ensures
            from <= pieces.len(),
            from == nth_piece(all, rooted, 0, n as int),
        decreases pieces.len() - from,
    {
        let piece = pieces[from].as_str();
        proof {
            assert(all[from as int] == piece@);
        }
        if is_part(piece, !rooted && from == 0) {
            if left == 0 {
                break;
            }
            left = left - 1;
        }
        from = from + 1;
    }
    let to = last_end(&pieces, rooted);
    if from > to {
        return String::new();
    }
    join_pieces(&pieces, from, to)
}

fn rooted_string(path: &str) -> (r: String)
    ensures
        r@ == rooted_text(path@),
{
    let pieces = text::split(path, '/');
    let to = last_end(&pieces, true);
    if to < 1 {
        proof {
            assert("/"@ + Seq::<char>::empty() =~= "/"@);
        }
        return text::owned("/");
    }
    text::cat2("/", join_pieces(&pieces, 1, to).as_str())
}

fn last_end(pieces: &Vec<String>, rooted: bool) -> (r: usize)
    ensures
        r == last_piece_end(text::texts(pieces@), rooted, pieces@.len() as int),
        r <= pieces.len(),
{
    let ghost all = text::texts(pieces@);
    let mut to: usize = pieces.len();
    while to > 0
        invariant_except_break
            to <= pieces.len(),
            all == text::texts(pieces@),
            last_piece_end(all, rooted, pieces@.len() as int) == last_piece_end(
                all,
                rooted,
                to as int,
            ),
        ensures
            to <= pieces.len(),
            to == last_piece_end(all, rooted, pieces@.len() as int),
        decreases to,
    {
        let piece = pieces[to - 1].as_str();
        proof {
            assert(all[to - 1] == piece@);
        }
        if is_part(piece, !rooted && to == 1) {
            break;
        }
        to = to - 1;
    }
    to
}

fn join_pieces(pieces: &Vec<String>, from: usize, to: usize) -> (r: String)
    requires
        from <= to <= pieces.len(),
    ensures
        r@ == text::join_text(text::texts(pieces@).subrange(from as int, to as int), "/"@),
{
    let mut part: Vec<String> = Vec::new();
    let mut i: usize = from;
    while i < to
        invariant
            from <= i <= to <= pieces.len(),
            part.len() == i - from,
            forall|k: int| 0 <= k < part.len() ==> (#[trigger] part@[k])@ == pieces@[from + k]@,
        decreases to - i,
    {
        part.push(pieces[i].clone());
        i = i + 1;
    }
    proof {
        assert(text::texts(part@) =~= text::texts(pieces@).subrange(from as int, to as int));
    }
    text::join(&part, "/")
}

fn is_part(piece: &str, leading: bool) -> (r: bool)
    ensures
        r == (paths::piece_part(piece@, leading) is Some),
{
    !piece.is_empty() && (leading || !text::same(piece, "."))
}

/// The data directory as the panel shows it: with a tilde for the user's home,
/// and without its middle where it is long.
pub fn display_short(path: &str, home: &str) -> (r: String)
    ensures
        r@ == shown_path(path@, home@),
{
    let pp = paths::components(path);
    let hp = paths::components(home);
    proof {
        assert(paths::parts_of(pp@).len() == pp@.len());
        assert(paths::parts_of(hp@).len() == hp@.len());
    }
    if !paths::has_prefix(&pp, &hp) {
        return ellipsize_middle(path, DISPLAY_MAX_CHARS);
    }
    if pp.len() == hp.len() {
        return ellipsize_middle("~", DISPLAY_MAX_CHARS);
    }
    let hc = text::chars_of(home);
    let pc = text::chars_of(path);
    if hc.len() == 0 && pc.len() > 0 && pc[0] == '/' {
        let shown = text::cat3("~", "/", rooted_string(path).as_str());
        return ellipsize_middle(shown.as_str(), DISPLAY_MAX_CHARS);
    }
    let rooted = hc.len() > 0 && hc[0] == '/';
    let named: usize = if rooted {
        hp.len() - 1
    } else {
        hp.len()
    };
    proof {
        assert(named == named_parts(home@));
    }
    let rest = rest_text(path, named);
    let shown = text::cat3("~", "/", rest.as_str());
    ellipsize_middle(shown.as_str(), DISPLAY_MAX_CHARS)
}

// ------------------------------------------------------------------ versions

/// A kernel version on disk.
#[derive(Debug)]
pub struct InstalledVersion {
    pub version: String,
    pub active: bool,
    /// The size of the kernel's entry, a cheap sign of a complete install.
    pub size_bytes: u64,
}

/// The content of an installed version.
#[verifier::ext_equal]
pub struct VersionModel {
    pub version: Seq<char>,
    pub active: bool,
    pub size_bytes: u64,
}

impl View for InstalledVersion {
    type V = VersionModel;

    open spec fn view(&self) -> VersionModel {
        VersionModel {
            version: self.version@,
            active: self.active,
            size_bytes: self.size_bytes,
        }
    }
}

/// The views of a list of versions.
pub open spec fn versions_of(v: Seq<InstalledVersion>) -> Seq<VersionModel> {
    v.map_values(|i: InstalledVersion| i@)
}

/// An entry of the directory of versions.
#[derive(Debug)]
pub struct VersionEntry {
    pub name: String,
    pub is_dir: bool,
    /// The size of the kernel's entry under it, or zero.
    pub bin_size: u64,
}

/// The versions among the entries of a directory: the subdirectories that are
/// not hidden.
pub open spec fn versions_in(entries: Seq<VersionEntry>) -> Seq<VersionModel>
    decreases entries.len(),
{
    if entries.len() == 0 {
        Seq::empty()
    } else {
        let before = versions_in(entries.drop_last());
        let e = entries.last();
        if e.is_dir && !text::begins(e.name@, "."@) {
            before.push(
                VersionModel { version: e.name@, active: false, size_bytes: e.bin_size },
            )
        } else {
            before
        }
    }
}

/// The installed versions, by the entries of their directory.
pub fn list_installed(entries: &Vec<VersionEntry>) -> (r: Vec<InstalledVersion>)
    ensures
        versions_of(r@) == versions_in(entries@),
{
    let mut out: Vec<InstalledVersion> = Vec::new();
    let mut i: usize = 0;
    proof {
        assert(entries@.take(0) =~= Seq::<VersionEntry>::empty());
        assert(versions_of(out@) =~= Seq::<VersionModel>::empty());
    }
    while i < entries.len()
        invariant
            i <= entries.len(),
            versions_of(out@) == versions_in(entries@.take(i as int)),
        decreases entries.len() - i,
    {
        proof {
            assert(entries@.take(i + 1).drop_last() =~= entries@.take(i as int));
        }
        let e = &entries[i];
        if e.is_dir && !text::starts_with(e.name.as_str(), ".") {
            let v = InstalledVersion {
                version: e.name.clone(),
                active: false,
                size_bytes: e.bin_size,
            };
            proof {
                assert(versions_of(out@.push(v)) =~= versions_of(out@).push(v@));
            }
            out.push(v);
        }
        i = i + 1;
    }
    proof {
        assert(entries@.take(entries@.len() as int) =~= entries@);
    }
    out
}

/// The active version that a file's content names: its text without white
/// space at its ends, unless nothing is left.
pub open spec fn active_in(content: Option<Seq<char>>) -> Option<Seq<char>> {
    match content {
        Some(c) => if text::trim_text(c).len() == 0 {
            None
        } else {
            Some(text::trim_text(c))
        },
        None => None,
    }
}

/// The active version, by the content of its file.
pub fn read_active(content: Option<String>) -> (r: Option<String>)
    ensures
        text::opt_text(r) == active_in(text::opt_text(content)),
{
    match content {
        Some(c) => {
            let t = text::trim(c.as_str());
            if t.as_str().is_empty() {
                None
            } else {
                Some(t)
            }
        },
        None => None,
    }
}

/// The content that the file of the active version is to have; none where the
/// file is to be removed.
pub fn write_active(version: Option<&str>) -> (r: Option<String>)
    ensures
        text::opt_text(r) == (match version {
            Some(v) => Some(v@ + "\n"@),
            None => None,
        }),
{
    match version {
        Some(v) => Some(text::cat2(v, "\n")),
        None => None,
    }
}

/// A version that is written is read back, where it is not blank and has no
/// white space at its ends.
pub proof fn law_active_version_is_read_back(version: Seq<char>)
    requires
        version.len() > 0,
        text::trim_text(version) == version,
    ensures
        active_in(Some(version + "\n"@)) == Some(version),
{
    reveal_strlit("\n");
    let f = |c: char| text::is_white(c);
    let s = version + "\n"@;
    text::lemma_trim_keeps(version);
    assert(s[0] == version[0]);
    assert(text::trim_start_by(s, f) == s);
    assert(s.last() == '\n');
    assert(s.drop_last() =~= version);
    assert(f(s.last()));
    assert(text::trim_end_by(s, f) == text::trim_end_by(version, f));
}

/// A list of versions with the active one marked.
pub open spec fn marked(installed: Seq<VersionModel>, active: Option<Seq<char>>) -> Seq<
    VersionModel,
> {
    installed.map_values(
        |v: VersionModel| VersionModel { active: Some(v.version) == active, ..v },
    )
}

/// Marks the active version, and no other.
pub fn with_active(installed: &mut Vec<InstalledVersion>, active: Option<&str>)
    ensures
        versions_of(final(installed)@) == marked(
            versions_of(old(installed)@),
            match active {
                Some(a) => Some(a@),
                None => None,
            },
        ),
{
    let ghost want = match active {
        Some(a) => Some(a@),
        None => None::<Seq<char>>,
    };
    let ghost before = installed@;
    let mut out: Vec<InstalledVersion> = Vec::new();
    let mut i: usize = 0;
    while i < installed.len()
        invariant
            i <= installed.len(),
            installed@ == before,
            want == (match active {
                Some(a) => Some(a@),
                None => None::<Seq<char>>,
            }),
            out.len() == i,
            forall|k: int|
                0 <= k < i ==> (#[trigger] out@[k])@ == (VersionModel {
                    active: Some(before[k].version@) == want,
                    ..before[k]@
                }),
        decreases installed.len() - i,
    {
        let is_active = match active {
            Some(a) => text::same(installed[i].version.as_str(), a),
            None => false,
        };
        out.push(
            InstalledVersion {
                version: installed[i].version.clone(),
                active: is_active,
                size_bytes: installed[i].size_bytes,
            },
        );
        i = i + 1;
    }
    proof {
        assert(versions_of(out@) =~= marked(versions_of(before), want));
    }
    *installed = out;
}

/// The snapshot that the panel shows.
#[derive(Debug)]
pub struct KernelStatus {
    pub installed: Vec<InstalledVersion>,
    pub active: Option<String>,
    pub active_installed: bool,
    pub running: bool,
    pub port: u16,
    pub data_dir: String,
    pub settings_warning: Option<String>,
}

/// What a snapshot is made of.
#[derive(Debug)]
pub struct StatusFacts {
    pub entries: Vec<VersionEntry>,
    /// The content of the file of the active version.
    pub active_content: Option<String>,
    /// Whether the entry of the active version is there.
    pub active_bin: bool,
    pub running: bool,
    pub port: u16,
    pub data_dir: String,
    pub home: String,
    pub settings_warning: Option<String>,
}

/// The snapshot of the kernel.
pub fn status(facts: StatusFacts) -> (r: KernelStatus)
    ensures
        text::opt_text(r.active) == active_in(text::opt_text(facts.active_content)),
        versions_of(r.installed@) == marked(
            versions_in(facts.entries@),
            active_in(text::opt_text(facts.active_content)),
        ),
        r.active_installed == (active_in(text::opt_text(facts.active_content)) is Some
            && facts.active_bin),
        r.running == facts.running,
        r.port == facts.port,
        r.data_dir@ == shown_path(facts.data_dir@, facts.home@),
        r.settings_warning == facts.settings_warning,
{
    let mut installed = list_installed(&facts.entries);
    let active = read_active(facts.active_content);
    match &active {
        Some(a) => with_active(&mut installed, Some(a.as_str())),
        None => with_active(&mut installed, None),
    }
    let active_installed = active.is_some() && facts.active_bin;
    KernelStatus {
        installed,
        active,
        active_installed,
        running: facts.running,
        port: facts.port,
        data_dir: display_short(facts.data_dir.as_str(), facts.home.as_str()),
        settings_warning: facts.settings_warning,
    }
}

/// At most one version name is marked active, and it is the active one.
pub proof fn law_only_the_active_version_is_marked(
    installed: Seq<VersionModel>,
    active: Option<Seq<char>>,
    i: int,
)
    requires
        0 <= i < installed.len(),
    ensures
        marked(installed, active).len() == installed.len(),
        marked(installed, active)[i].active <==> active == Some(installed[i].version),
        marked(installed, active)[i].version == installed[i].version,
        marked(installed, active)[i].size_bytes == installed[i].size_bytes,
{
}

// ------------------------------------------------------------------- changes

/// What a refusal to switch says while the workbench runs.
pub open spec fn busy_text(port: u16) -> Seq<char> {
    "工作台正在启动或运行（端口 "@ + text::decimal_text(port as nat)
        + "），请先点击「关闭工作台」停止工作台后再切换内核"@
}

/// Refuses while the workbench runs: a switch would part the running service
/// from the active version.
pub fn ensure_workbench_stopped(running: bool, port: u16) -> (r: Result<(), AppError>)
    ensures
        r is Ok <==> !running,
        r matches Err(e) ==> e@ == ErrorModel::Kernel(busy_text(port)),
{
    if running {
        Err(
            AppError::Kernel(
                text::cat3(
                    "工作台正在启动或运行（端口 ",
                    text::decimal(port as u64).as_str(),
                    "），请先点击「关闭工作台」停止工作台后再切换内核",
                ),
            ),
        )
    } else {
        Ok(())
    }
}

/// The active version may be switched, by whether the workbench runs and whether
/// the entry of the new one is there.
pub open spec fn may_switch(running: bool, bin_ready: bool) -> bool {
    !running && bin_ready
}

/// A version may be removed, by the active one and by whether it is there.
pub open spec fn may_remove(active: Option<Seq<char>>, version: Seq<char>, there: bool) -> bool {
    active != Some(version) && there
}

/// Switches the active version: refused while the workbench runs, or where the
/// version's entry is missing. The content to write is given back.
pub fn set_active(running: bool, port: u16, bin_ready: bool, version: &str) -> (r: Result<
    String,
    AppError,
>)
    ensures
        r is Ok <==> !running && bin_ready,
        r is Ok <==> may_switch(running, bin_ready),
        r matches Ok(content) ==> content@ == version@ + "\n"@,
        r matches Err(e) ==> e@ == ErrorModel::Kernel(
            if running {
                busy_text(port)
            } else {
                "版本 "@ + version@ + " 未安装或安装不完整"@
            },
        ),
{
    match ensure_workbench_stopped(running, port) {
        Ok(_) => {},
        Err(e) => {
            return Err(e);
        },
    }
    if !bin_ready {
        return Err(
            AppError::Kernel(text::cat3("版本 ", version, " 未安装或安装不完整")),
        );
    }
    Ok(text::cat2(version, "\n"))
}

/// Whether a version may be removed: not the active one, and not one that is
/// not there.
pub fn uninstall(active: Option<&str>, version: &str, dir_exists: bool) -> (r: Result<(), AppError>)
    ensures
        r is Ok <==> !(active matches Some(a) && a@ == version@) && dir_exists,
        r is Ok <==> may_remove(
            match active {
                Some(a) => Some(a@),
                None => None,
            },
            version@,
            dir_exists,
        ),
        r matches Err(e) ==> e@ == ErrorModel::Kernel(
            if active matches Some(a) && a@ == version@ {
                "正在使用版本 "@ + version@ + "，请先停止并切换到其他版本"@
            } else {
                "版本 "@ + version@ + " 未安装"@
            },
        ),
{
    let in_use = match active {
        Some(a) => text::same(a, version),
        None => false,
    };
    if in_use {
        return Err(
            AppError::Kernel(
                text::cat3("正在使用版本 ", version, "，请先停止并切换到其他版本"),
            ),
        );
    }
    if !dir_exists {
        return Err(AppError::Kernel(text::cat3("版本 ", version, " 未安装")));
    }
    Ok(())
}

// ---------------------------------------------------------------------- form

/// The end of the digits from `i` on.
pub open spec fn digits_end(s: Seq<char>, i: int) -> int
    decreases s.len() - i,
{
    if 0 <= i < s.len() && text::is_digit(s[i]) {
        digits_end(s, i + 1)
    } else {
        i
    }
}

/// A character of a suffix.
pub open spec fn suffix_char(c: char) -> bool {
    text::is_alnum(c) || c == '.' || c == '-' || c == '+'
}

/// What follows the three numbers of a version: nothing, or a mark and what it
/// marks.
pub open spec fn version_suffix(s: Seq<char>, from: int) -> bool {
    from == s.len() || (from + 1 < s.len() && (s[from] == '-' || s[from] == '+') && forall|i: int|
        from < i < s.len() ==> suffix_char(#[trigger] s[i]))
}

/// The form of a kernel version: three numbers with dots between them, and a
/// suffix after a hyphen or a plus sign.
pub open spec fn kernel_version(s: Seq<char>) -> bool {
    let a = digits_end(s, 0);
    let b = digits_end(s, a + 1);
    let c = digits_end(s, b + 1);
    &&& 0 < a < s.len() && s[a] == '.'
    &&& a + 1 < b < s.len() && s[b] == '.'
    &&& b + 1 < c <= s.len() && version_suffix(s, c)
}

fn end_of_digits(chars: &Vec<char>, from: usize) -> (r: usize)
    requires
        from <= chars.len(),
    ensures
        from <= r <= chars.len(),
        r == digits_end(chars@, from as int),
{
    let mut i: usize = from;
    while i < chars.len() && text::digit(chars[i])
        invariant
            from <= i <= chars.len(),
            digits_end(chars@, from as int) == digits_end(chars@, i as int),
        decreases chars.len() - i,
    {
        i = i + 1;
    }
    i
}

/// Whether a text has the form of a kernel version. It becomes the name of a
/// directory and part of a package file, so neither separators nor quotes pass.
pub fn is_valid_kernel_version(version: &str) -> (r: bool)
    ensures
        r == kernel_version(version@),
{
    let vc = text::chars_of(version);
    let a = end_of_digits(&vc, 0);
    if a == 0 || a >= vc.len() || vc[a] != '.' {
        return false;
    }
    let b = end_of_digits(&vc, a + 1);
    if b == a + 1 || b >= vc.len() || vc[b] != '.' {
        return false;
    }
    let c = end_of_digits(&vc, b + 1);
    if c == b + 1 {
        return false;
    }
    if c == vc.len() {
        return true;
    }
    if (vc[c] != '-' && vc[c] != '+') || c + 1 >= vc.len() {
        return false;
    }
    let mut i: usize = c + 1;
    while i < vc.len()
        invariant
            c < i <= vc.len(),
            vc@ == version@,
            a == digits_end(version@, 0),
            b == digits_end(version@, a + 1),
            c == digits_end(version@, b + 1),
            0 < a < version@.len() && version@[a as int] == '.',
            a + 1 < b < version@.len() && version@[b as int] == '.',
            b + 1 < c && c + 1 < version@.len(),
            version@[c as int] == '-' || version@[c as int] == '+',
            forall|k: int| c < k < i ==> suffix_char(#[trigger] vc@[k]),
        decreases vc.len() - i,
    {
        let ch = vc[i];
        if !(text::alnum(ch) || ch == '.' || ch == '-' || ch == '+') {
            proof {
                assert(!suffix_char(version@[i as int]));
            }
            return false;
        }
        i = i + 1;
    }
    true
}

/// A version holds no separator and no quote.
pub proof fn law_versions_are_plain(version: Seq<char>, i: int)
    requires
        kernel_version(version),
        0 <= i < version.len(),
    ensures
        suffix_char(version[i]),
{
    let a = digits_end(version, 0);
    let b = digits_end(version, a + 1);
    lemma_digits(version, 0);
    lemma_digits(version, a + 1);
    lemma_digits(version, b + 1);
}

proof fn lemma_digits(s: Seq<char>, from: int)
    requires
        0 <= from,
    ensures
        from <= digits_end(s, from),
        forall|k: int| from <= k < digits_end(s, from) ==> text::is_digit(#[trigger] s[k]),
    decreases s.len() - from,
{
    if from < s.len() && text::is_digit(s[from]) {
        lemma_digits(s, from + 1);
    }
}

/// A subdirectory counts as an installed version under its own name, unless it
/// is hidden; nothing else does.
pub proof fn law_subdirectories_are_versions(entries: Seq<VersionEntry>, e: VersionEntry)
    ensures
        ({
            let before = versions_in(entries);
            let all = versions_in(entries.push(e));
            if e.is_dir && (e.name@.len() == 0 || e.name@[0] != '.') {
                all.len() == before.len() + 1 && all.take(before.len() as int) == before
                    && all.last().version == e.name@ && all.last().size_bytes == e.bin_size
                    && !all.last().active
            } else {
                all == before
            }
        }),
{
    reveal_strlit(".");
    assert(entries.push(e).drop_last() =~= entries);
    let before = versions_in(entries);
    let all = versions_in(entries.push(e));
    if e.name@.len() > 0 {
        if e.name@[0] == '.' {
            assert(e.name@.subrange(0, 1) =~= "."@);
        } else if text::begins(e.name@, "."@) {
            assert(e.name@.subrange(0, 1)[0] == e.name@[0]);
        }
    }
    if all.len() > before.len() {
        assert(all.take(before.len() as int) =~= before);
    }
}

proof fn lemma_digits_end(s: Seq<char>, from: int, to: int)
    requires
        0 <= from <= to <= s.len(),
        forall|i: int| from <= i < to ==> text::is_digit(#[trigger] s[i]),
        to < s.len() ==> !text::is_digit(s[to]),
    ensures
        digits_end(s, from) == to,
    decreases to - from,
{
    if from < to {
        assert(text::is_digit(s[from]));
        lemma_digits_end(s, from + 1, to);
    }
}

/// Three numbers with dots between them are a version, with or without a suffix
/// of letters, digits, dots, hyphens and plus signs after a hyphen; nothing that
/// holds a slash, a quote or a space is one, nor an empty text.
pub proof fn law_the_form_of_versions(
    a: nat,
    b: nat,
    c: nat,
    suffix: Seq<char>,
    other: Seq<char>,
    i: int,
)
    requires
        suffix.len() > 0,
        forall|k: int|
            0 <= k < suffix.len() ==> {
                let x = #[trigger] suffix[k];
                'a' <= x <= 'z' || 'A' <= x <= 'Z' || '0' <= x <= '9' || x == '.' || x == '-' || x
                    == '+'
            },
    ensures
        ({
            let plain = text::decimal_text(a) + "."@ + text::decimal_text(b) + "."@
                + text::decimal_text(c);
            kernel_version(plain) && kernel_version(plain + "-"@ + suffix)
        }),
        0 <= i < other.len() && (other[i] == '/' || other[i] == '\\' || other[i] == '"' || other[i]
            == ' ' || other[i] == '@') ==> !kernel_version(other),
        other.len() == 0 ==> !kernel_version(other),
        other.len() > 0 && !('0' <= other[0] <= '9') ==> !kernel_version(other),
{
    reveal_strlit(".");
    reveal_strlit("-");
    let x = text::decimal_text(a);
    let y = text::decimal_text(b);
    let z = text::decimal_text(c);
    text::lemma_decimal_value(a);
    text::lemma_decimal_value(b);
    text::lemma_decimal_value(c);
    let plain = x + "."@ + y + "."@ + z;
    let long = plain + "-"@ + suffix;
    let p = x.len() as int;
    let q = p + 1 + y.len();
    let r = q + 1 + z.len();
    assert forall|k: int| 0 <= k < p implies text::is_digit(#[trigger] plain[k]) && text::is_digit(
        long[k],
    ) by {
        assert(text::is_digit(x[k]));
    }
    assert forall|k: int| p + 1 <= k < q implies text::is_digit(#[trigger] plain[k])
        && text::is_digit(long[k]) by {
        assert(text::is_digit(y[k - p - 1]));
    }
    assert forall|k: int| q + 1 <= k < r implies text::is_digit(#[trigger] plain[k])
        && text::is_digit(long[k]) by {
        assert(text::is_digit(z[k - q - 1]));
    }
    assert(plain[p] == '.' && plain[q] == '.');
    assert(long[p] == '.' && long[q] == '.' && long[r] == '-');
    assert forall|k: int| 0 <= k < p implies text::is_digit(#[trigger] long[k]) by {
        assert(text::is_digit(plain[k]));
    }
    assert forall|k: int| p + 1 <= k < q implies text::is_digit(#[trigger] long[k]) by {
        assert(text::is_digit(plain[k]));
    }
    assert forall|k: int| q + 1 <= k < r implies text::is_digit(#[trigger] long[k]) by {
        assert(text::is_digit(plain[k]));
    }
    lemma_digits_end(plain, 0, p);
    lemma_digits_end(plain, p + 1, q);
    lemma_digits_end(plain, q + 1, r);
    lemma_digits_end(long, 0, p);
    lemma_digits_end(long, p + 1, q);
    lemma_digits_end(long, q + 1, r);
    assert forall|k: int| r < k < long.len() implies suffix_char(#[trigger] long[k]) by {
        assert(long[k] == suffix[k - r - 1]);
    }
    if kernel_version(other) && 0 <= i < other.len() {
        law_versions_are_plain(other, i);
    }
}

/// What is shown of a text that is too long is its beginning and its end, with
/// an ellipsis between them: no more than two fifths of the room before it, and
/// no more than the rest after it. Either side is cut at a slash where there is
/// one in its room.
pub proof fn law_the_ends_of_long_texts_are_shown(s: Seq<char>, max: int)
    requires
        0 <= max < s.len(),
    ensures
        ({
            let h = head_end(s, max);
            let t = tail_begin(s, max);
            let room = max * 2 / 5;
            &&& ellipsized(s, max) == s.take(h) + "…"@ + s.skip(t)
            &&& 0 <= h <= room
            &&& s.len() - t <= max - room
            &&& h == room || h > 0 && s[h - 1] == '/'
            &&& forall|i: int| 0 <= i < room && #[trigger] s[i] == '/' ==> i < h && s[h - 1] == '/'
            &&& forall|i: int|
                s.len() - (max - room) <= i < s.len() && #[trigger] s[i] == '/' ==> t <= i && s[t]
                    == '/'
        }),
{
    let room = max * 2 / 5;
    lemma_slash_before(s, room);
    lemma_slash_after(s, s.len() - (max - room));
    law_ellipsis_fits(s, max);
}

proof fn lemma_slash_before(s: Seq<char>, end: int)
    requires
        0 <= end <= s.len(),
    ensures
        match slash_before(s, end) {
            Some(i) => 0 <= i < end && s[i] == '/' && forall|j: int| i < j < end ==> s[j] != '/',
            None => forall|j: int| 0 <= j < end ==> s[j] != '/',
        },
    decreases end,
{
    if end > 0 && s[end - 1] != '/' {
        lemma_slash_before(s, end - 1);
    }
}

proof fn lemma_slash_after(s: Seq<char>, start: int)
    requires
        0 <= start <= s.len(),
    ensures
        match slash_after(s, start) {
            Some(i) => start <= i < s.len() && s[i] == '/' && forall|j: int|
                start <= j < i ==> s[j] != '/',
            None => forall|j: int| start <= j < s.len() ==> s[j] != '/',
        },
    decreases s.len() - start,
{
    if start < s.len() && s[start] != '/' {
        lemma_slash_after(s, start + 1);
    }
}

/// The home itself is shown as a tilde, a path that does not lie under it as it
/// is, and every other one with a tilde in front. What is shown has at most 39
/// characters.
pub proof fn law_the_home_is_shown_as_a_tilde(path: Seq<char>, home: Seq<char>)
    ensures
        with_tilde(home, home) == "~"@,
        !paths::path_parts(home).is_prefix_of(paths::path_parts(path)) ==> with_tilde(path, home)
            == path,
        paths::path_parts(home).is_prefix_of(paths::path_parts(path)) ==> text::begins(
            with_tilde(path, home),
            "~"@,
        ),
        shown_path(path, home).len() <= 39,
        with_tilde(path, home).len() <= 38 ==> shown_path(path, home) == with_tilde(path, home),
{
    let w = with_tilde(path, home);
    law_ellipsis_fits(w, 38);
    reveal_strlit("~");
    let parts = paths::path_parts(home);
    assert(parts.is_prefix_of(parts));
    if paths::path_parts(home).is_prefix_of(paths::path_parts(path)) {
        assert(w.subrange(0, 1) =~= "~"@);
    }
}

/// The active version is the content of its file without white space round it;
/// a file that is missing or blank names none.
pub proof fn law_the_active_version_is_trimmed(content: Seq<char>)
    ensures
        active_in(None) is None,
        active_in(Some(content)) is None <==> text::trim_text(content).len() == 0,
        active_in(Some(content)) matches Some(v) ==> v == text::trim_text(content),
{
}

/// The version that was made the active one cannot be removed, and any other one
/// that is there can; while the workbench runs the active version stays what it
/// is.
pub proof fn law_the_active_version_stays(version: Seq<char>, other: Seq<char>, there: bool)
    requires
        version.len() > 0,
        text::trim_text(version) == version,
        other != version,
    ensures
        !may_remove(active_in(Some(version + "\n"@)), version, there),
        may_remove(active_in(Some(version + "\n"@)), other, there) == there,
        may_remove(None, version, there) == there,
        !may_switch(true, there),
        may_switch(false, there) == there,
{
    law_active_version_is_read_back(version);
}

/// What lies right under the home is shown by its name after the tilde.
pub proof fn law_names_under_the_home_are_shown(home: Seq<char>, name: Seq<char>)
    requires
        home.len() > 0,
        home.last() != '/',
        paths::valid_id(name),
    ensures
        with_tilde(paths::joined(home, name), home) == "~"@ + "/"@ + name,
{
    paths::law_ids_are_single_components(name);
    assert forall|i: int| 0 <= i < name.len() implies (#[trigger] name[i]) != '/' by {
        assert(name.contains(name[i]));
    }
    paths::law_joining_adds_a_part(home, name);
    let path = paths::joined(home, name);
    let hp = paths::path_parts(home);
    let pp = paths::path_parts(path);
    assert(pp.take(hp.len() as int) =~= hp);
    assert(hp.is_prefix_of(pp));
    reveal_strlit("/");
    assert("/"@ =~= seq!['/']);
    let pieces = text::split_text(home, '/');
    let all = text::split_text(path, '/');
    let rooted = paths::is_rooted(home);
    assert(path =~= home + seq!['/'] + name);
    assert(path[0] == home[0]);
    paths::lemma_split_push(home, name, '/');
    assert(all == pieces.push(name));
    let n = named_parts(home);
    assert(pieces.take(0) =~= Seq::<Seq<char>>::empty());
    lemma_nth_of_last(pieces, name, rooted, 0);
    assert(nth_piece(all, rooted, 0, n) == pieces.len());
    assert(makes_part(all, rooted, all.len() - 1)) by {
        assert(all[all.len() - 1] == name);
    }
    assert(last_piece_end(all, rooted, all.len() as int) == all.len());
    assert(all.subrange(pieces.len() as int, all.len() as int) =~= seq![name]);
    assert(text::join_text(seq![name], "/"@) == name);
    assert(rest_after(path, n) == name);
}

proof fn lemma_nth_of_last(pieces: Seq<Seq<char>>, name: Seq<char>, rooted: bool, from: int)
    requires
        0 <= from <= pieces.len(),
        pieces.len() > 0,
        name.len() > 0,
        name != "."@,
    ensures
        nth_piece(
            pieces.push(name),
            rooted,
            from,
            paths::pieces_parts(pieces, rooted).len() - paths::pieces_parts(
                pieces.take(from),
                rooted,
            ).len(),
        ) == pieces.len(),
        paths::pieces_parts(pieces.take(from), rooted).len() <= paths::pieces_parts(
            pieces,
            rooted,
        ).len(),
    decreases pieces.len() - from,
{
    let all = pieces.push(name);
    if from == pieces.len() {
        assert(pieces.take(from) =~= pieces);
        assert(all[from] == name);
    } else {
        lemma_nth_of_last(pieces, name, rooted, from + 1);
        let next = pieces.take(from + 1);
        assert(next.drop_last() =~= pieces.take(from));
        assert(next.last() == pieces[from]);
        assert(all[from] == pieces[from]);
    }
}

} // verus!
