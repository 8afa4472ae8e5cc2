//! Judging npm tarballs before anything of them is unpacked, and publishing
//! what was unpacked.

use crate::paths;
use crate::paths::{PartModel, PathPart};
use crate::text;
use vstd::prelude::*;

verus! {

/// The directory that every entry of a tarball lies in.
pub const ARCHIVE_ROOT: &'static str = "package";

/// The directory that a tarball is unpacked into first.
pub const EXTRACT_DIR: &'static str = ".dsh-extract";

/// The file that the shell keeps beside what it unpacked.
pub const ID_FILE: &'static str = ".dsh-id";

/// The most entries that a tarball may have.
pub const MAX_ARCHIVE_ENTRIES: usize = 100_000;

/// The most bytes that the entries of a tarball may hold.
pub const MAX_UNPACKED_BYTES: u64 = 536_870_912;

// ------------------------------------------------------------------------ paths

/// Every part is a name.
pub open spec fn all_names(parts: Seq<PartModel>) -> bool {
    forall|i: int| 0 <= i < parts.len() ==> (#[trigger] parts[i]) is Normal
}

/// A path that the shell keeps for itself.
pub open spec fn is_kept(parts: Seq<PartModel>) -> bool {
    parts == seq![PartModel::Normal(ID_FILE@)] || (parts.len() > 0 && parts[0]
        == PartModel::Normal(EXTRACT_DIR@))
}

/// Where an entry goes, relative to the destination, or why it is refused. On
/// Windows a backslash parts names too, and a drive is no place for an entry.
pub open spec fn entry_target(path: Seq<char>, windows: bool) -> Result<Seq<char>, Seq<char>> {
    let parts = paths::path_parts(paths::on_platform(path, windows));
    if parts.len() == 0 || !(parts[0] is Normal) || (windows && paths::names_drive(path)) {
        Err("归档包含非法路径："@ + path)
    } else if parts[0] != PartModel::Normal(ARCHIVE_ROOT@) {
        Err("归档根目录必须是 package/，收到 "@ + paths::part_text(parts[0]))
    } else {
        let rest = parts.drop_first();
        if !all_names(rest) {
            Err("归档包含越界路径："@ + path)
        } else if is_kept(rest) {
            Err("归档覆盖了外壳保留路径："@ + paths::rendered(rest))
        } else {
            Ok(paths::rendered(rest))
        }
    }
}

/// The content of a result.
pub open spec fn outcome(r: Result<String, String>) -> Result<Seq<char>, Seq<char>> {
    match r {
        Ok(s) => Ok(s@),
        Err(e) => Err(e@),
    }
}

fn copy_part(p: &PathPart) -> (r: PathPart)
    ensures
        r@ == p@,
{
    match p {
        PathPart::Root => PathPart::Root,
        PathPart::Current => PathPart::Current,
        PathPart::Parent => PathPart::Parent,
        PathPart::Normal(s) => PathPart::Normal(s.clone()),
    }
}

/// Where an entry of a tarball goes, relative to the destination.
pub fn relative_archive_path(path: &str, windows: bool) -> (r: Result<String, String>)
    ensures
        outcome(r) == entry_target(path@, windows),
{
    let plain = paths::for_platform(path, windows);
    let parts = paths::components(plain.as_str());
    let ghost all = paths::parts_of(parts@);
    proof {
        assert(all.len() == parts@.len());
    }
    if parts.len() == 0 || (windows && paths::has_drive(path)) {
        return Err(text::cat2("归档包含非法路径：", path));
    }
    proof {
        assert(all[0] == parts@[0]@);
    }
    match &parts[0] {
        PathPart::Normal(root) => {
            if !text::same(root.as_str(), ARCHIVE_ROOT) {
                return Err(text::cat2("归档根目录必须是 package/，收到 ", root.as_str()));
            }
        },
        _ => {
            return Err(text::cat2("归档包含非法路径：", path));
        },
    }
    let mut rest: Vec<PathPart> = Vec::new();
    let ghost below = all.drop_first();
    let mut i: usize = 1;
    proof {
        assert(paths::parts_of(rest@) =~= below.take(0));
    }
    while i < parts.len()
        invariant
            1 <= i <= parts.len(),
            all == paths::parts_of(parts@),
            all.len() == parts@.len(),
            all == paths::path_parts(paths::on_platform(path@, windows)),
            !(windows && paths::names_drive(path@)),
            all[0] == PartModel::Normal(ARCHIVE_ROOT@),
            below == all.drop_first(),
            paths::parts_of(rest@) == below.take(i - 1),
            all_names(below.take(i - 1)),
        decreases parts.len() - i,
    {
        let p = copy_part(&parts[i]);
        proof {
            assert(all[i as int] == parts@[i as int]@);
            assert(below[i - 1] == all[i as int]);
            assert(paths::parts_of(rest@.push(p)) =~= paths::parts_of(rest@).push(p@));
            assert(below.take(i as int) =~= below.take(i - 1).push(p@));
        }
        match &p {
            PathPart::Normal(_) => {},
            _ => {
                proof {
                    assert(!all_names(below)) by {
                        assert(!(below[i - 1] is Normal));
                    }
                }
                return Err(text::cat2("归档包含越界路径：", path));
            },
        }
        proof {
            assert forall|k: int| 0 <= k < i implies (#[trigger] below.take(i as int)[k]) is Normal by {
                if k < i - 1 {
                    assert(below.take(i - 1)[k] is Normal);
                }
            }
        }
        rest.push(p);
        i = i + 1;
    }
    proof {
        assert(below.take(below.len() as int) =~= below);
    }
    let relative = paths::render(&rest);
    let mut reserved = false;
    if rest.len() > 0 {
        proof {
            assert(below[0] == rest@[0]@);
        }
        let is_id = match &rest[0] {
            PathPart::Normal(s) => rest.len() == 1 && text::same(s.as_str(), ID_FILE),
            _ => false,
        };
        let is_temp = match &rest[0] {
            PathPart::Normal(s) => text::same(s.as_str(), EXTRACT_DIR),
            _ => false,
        };
        reserved = is_id || is_temp;
        proof {
            if is_id {
                assert(below =~= seq![PartModel::Normal(ID_FILE@)]);
            }
            if below == seq![PartModel::Normal(ID_FILE@)] {
                assert(below[0] == PartModel::Normal(ID_FILE@));
            }
        }
    }
    if reserved {
        return Err(text::cat2("归档覆盖了外壳保留路径：", relative.as_str()));
    }
    Ok(relative)
}

/// An entry that is accepted lies under the tarball's root by names alone: it
/// does not climb, does not start at the root or on a drive, and takes no path
/// that the shell keeps, by the separators of either platform.
pub proof fn law_archive_paths_stay_inside(path: Seq<char>, windows: bool)
    ensures
        entry_target(path, windows) matches Ok(target) ==> exists|rest: Seq<PartModel>| #[trigger]
            all_names(rest) && !is_kept(rest) && paths::path_parts(
                paths::on_platform(path, windows),
            ) == seq![PartModel::Normal(ARCHIVE_ROOT@)] + rest && target == paths::rendered(rest),
        entry_target(path, windows) is Ok ==> !(windows && paths::names_drive(path)),
{
    if entry_target(path, windows) is Ok {
        let parts = paths::path_parts(paths::on_platform(path, windows));
        let rest = parts.drop_first();
        assert(parts =~= seq![PartModel::Normal(ARCHIVE_ROOT@)] + rest);
        assert(all_names(rest));
    }
}

// ---------------------------------------------------------------------- entries

/// The type flag of a regular file.
pub const FLAG_FILE: u8 = 48;

/// The type flag of a hard link.
pub const FLAG_HARD_LINK: u8 = 49;

/// The type flag of a symbolic link.
pub const FLAG_SYMLINK: u8 = 50;

/// The type flag of a directory.
pub const FLAG_DIRECTORY: u8 = 53;

/// An entry of a tarball, as its header tells. What cannot be read is told in
/// words.
#[derive(Debug)]
pub struct ArchiveEntry {
    pub path: Result<String, String>,
    /// The type flag.
    pub flag: u8,
    pub size: Result<u64, String>,
}

/// The content of an entry.
#[verifier::ext_equal]
pub struct EntryModel {
    pub path: Result<Seq<char>, Seq<char>>,
    pub flag: u8,
    pub size: Result<u64, Seq<char>>,
}

impl View for ArchiveEntry {
    type V = EntryModel;

    open spec fn view(&self) -> EntryModel {
        EntryModel {
            path: outcome(self.path),
            flag: self.flag,
            size: match self.size {
                Ok(n) => Ok(n),
                Err(e) => Err(e@),
            },
        }
    }
}

/// The content of an entry that may not have been read.
pub open spec fn entry_read(e: Result<ArchiveEntry, String>) -> Result<EntryModel, Seq<char>> {
    match e {
        Ok(x) => Ok(x@),
        Err(s) => Err(s@),
    }
}

/// The contents of a list of entries.
pub open spec fn entries_read(v: Seq<Result<ArchiveEntry, String>>) -> Seq<
    Result<EntryModel, Seq<char>>,
> {
    v.map_values(|e: Result<ArchiveEntry, String>| entry_read(e))
}

/// The content of a listing.
pub open spec fn listing(r: Result<Vec<Result<ArchiveEntry, String>>, String>) -> Result<
    Seq<Result<EntryModel, Seq<char>>>,
    Seq<char>,
> {
    match r {
        Ok(v) => Ok(entries_read(v@)),
        Err(e) => Err(e@),
    }
}

/// The first `most` entries of a gzipped tarball.
pub uninterp spec fn tarball_entries(bytes: Seq<u8>, most: nat) -> Result<
    Seq<Result<EntryModel, Seq<char>>>,
    Seq<char>,
>;

/// Lists the first `most` entries of a gzipped tarball, with
/// `tar::Archive::entries` over `flate2::read::GzDecoder`. Of each entry it
/// tells the path, and the type flag and the size of its header; a type flag of
/// zero, which means a regular file too, is told as that of a regular file.
#[verifier::external_body]
pub(crate) fn list_tarball(bytes: &[u8], most: usize) -> (r: Result<
    Vec<Result<ArchiveEntry, String>>,
    String,
>)
    ensures
        listing(r) == tarball_entries(bytes@, most as nat),
{
    let mut archive = tar::Archive::new(flate2::read::GzDecoder::new(bytes));
    let entries = archive.entries().map_err(|e| e.to_string())?;
    let read = |e: tar::Entry<'_, flate2::read::GzDecoder<&[u8]>>| ArchiveEntry {
        path: e.path().map(|p| p.to_string_lossy().into_owned()).map_err(|x| x.to_string()),
        flag: e.header().entry_type().as_byte(),
        size: e.header().size().map_err(|x| x.to_string()),
    };
    Ok(entries.take(most).map(|e| e.map(read).map_err(|x| x.to_string())).collect())
}

// ---------------------------------------------------------------------- judging

/// Why an entry is refused, if it is. `total` is what the entries before it
/// hold.
pub open spec fn entry_fault(e: EntryModel, total: nat, windows: bool) -> Option<Seq<char>> {
    match e.path {
        Err(x) => Some("读取归档路径失败："@ + x),
        Ok(path) => match entry_target(path, windows) {
            Err(x) => Some(x),
            Ok(_) => if e.flag == FLAG_SYMLINK || e.flag == FLAG_HARD_LINK {
                Some("归档不允许符号链接或硬链接："@ + path)
            } else if e.flag != FLAG_DIRECTORY && e.flag != FLAG_FILE {
                Some("归档包含不支持的文件类型："@ + path)
            } else {
                match e.size {
                    Err(x) => Some("读取归档大小失败："@ + x),
                    Ok(size) => if total + size > u64::MAX {
                        Some("归档展开大小溢出"@)
                    } else if total + size > MAX_UNPACKED_BYTES {
                        Some("归档展开大小超过上限（512 MiB）"@)
                    } else {
                        None
                    },
                }
            },
        },
    }
}

/// What the entries of a tarball hold in all, or why it is refused: by the first
/// entry that gives a reason.
pub open spec fn judged(
    entries: Seq<Result<EntryModel, Seq<char>>>,
    windows: bool,
) -> Result<nat, Seq<char>>
    decreases entries.len(),
{
    if entries.len() == 0 {
        Ok(0)
    } else {
        match judged(entries.drop_last(), windows) {
            Err(x) => Err(x),
            Ok(total) => if entries.len() > MAX_ARCHIVE_ENTRIES {
                Err("归档条目超过上限（100000）"@)
            } else {
                match entries.last() {
                    Err(x) => Err("读取归档条目失败："@ + x),
                    Ok(e) => match entry_fault(e, total, windows) {
                        Some(x) => Err(x),
                        None => Ok(total + (e.size->Ok_0) as nat),
                    },
                }
            },
        }
    }
}

/// How many entries come before the first that gives a reason.
pub open spec fn passed(entries: Seq<Result<EntryModel, Seq<char>>>, windows: bool) -> nat
    decreases entries.len(),
{
    if entries.len() == 0 || judged(entries, windows) is Ok {
        entries.len()
    } else {
        passed(entries.drop_last(), windows)
    }
}

fn check_entry(e: &ArchiveEntry, total: u64, windows: bool) -> (r: Result<u64, String>)
    ensures
        match r {
            Ok(now) => entry_fault(e@, total as nat, windows) is None && now == total + (
            e@.size->Ok_0),
            Err(x) => entry_fault(e@, total as nat, windows) == Some(x@),
        },
{
    let path = match &e.path {
        Ok(p) => p,
        Err(x) => {
            return Err(text::cat2("读取归档路径失败：", x.as_str()));
        },
    };
    match relative_archive_path(path.as_str(), windows) {
        Ok(_) => {},
        Err(x) => {
            return Err(x);
        },
    }
    if e.flag == FLAG_SYMLINK || e.flag == FLAG_HARD_LINK {
        return Err(text::cat2("归档不允许符号链接或硬链接：", path.as_str()));
    }
    if e.flag != FLAG_DIRECTORY && e.flag != FLAG_FILE {
        return Err(text::cat2("归档包含不支持的文件类型：", path.as_str()));
    }
    let size: u64 = match &e.size {
        Ok(n) => *n,
        Err(x) => {
            return Err(text::cat2("读取归档大小失败：", x.as_str()));
        },
    };
    let now: u64 = match total.checked_add(size) {
        Some(n) => n,
        None => {
            return Err(text::owned("归档展开大小溢出"));
        },
    };
    if now > MAX_UNPACKED_BYTES {
        return Err(text::owned("归档展开大小超过上限（512 MiB）"));
    }
    Ok(now)
}

proof fn lemma_first_fault_stays(
    entries: Seq<Result<EntryModel, Seq<char>>>,
    later: Seq<Result<EntryModel, Seq<char>>>,
    windows: bool,
)
    requires
        judged(entries, windows) is Err,
    ensures
        judged(entries + later, windows) == judged(entries, windows),
        passed(entries + later, windows) == passed(entries, windows),
    decreases later.len(),
{
    if later.len() == 0 {
        assert(entries + later =~= entries);
    } else {
        assert((entries + later).drop_last() =~= entries + later.drop_last());
        lemma_first_fault_stays(entries, later.drop_last(), windows);
    }
}

/// What came of judging the entries of a tarball.
#[derive(Debug)]
pub struct Judgement {
    /// How many entries come before the first that is refused.
    pub passed: usize,
    /// What the entries hold in all, or why the tarball is refused.
    pub verdict: Result<u64, String>,
}

impl Judgement {
    /// The content of the verdict.
    pub open spec fn said(self) -> Result<nat, Seq<char>> {
        match self.verdict {
            Ok(total) => Ok(total as nat),
            Err(x) => Err(x@),
        }
    }
}

/// Judges the entries of a tarball in their order, and gives what they hold in
/// all.
pub fn judge_entries(entries: &Vec<Result<ArchiveEntry, String>>, windows: bool) -> (r: Judgement)
    ensures
        r.said() == judged(entries_read(entries@), windows),
        r.passed == passed(entries_read(entries@), windows),
{
    let ghost all = entries_read(entries@);
    let mut total: u64 = 0;
    let mut i: usize = 0;
    proof {
        assert(all.take(0) =~= Seq::<Result<EntryModel, Seq<char>>>::empty());
    }
    while i < entries.len()
        invariant
            i <= entries.len(),
            all == entries_read(entries@),
            judged(all.take(i as int), windows) == Ok::<nat, Seq<char>>(total as nat),
        decreases entries.len() - i,
    {
        let ghost upto = all.take(i + 1);
        proof {
            assert(all[i as int] == entry_read(entries@[i as int]));
            assert(upto.drop_last() =~= all.take(i as int));
            assert(upto.last() == all[i as int]);
            assert(upto + all.skip(i + 1) =~= all);
            assert(passed(all.take(i as int), windows) == i);
            if judged(upto, windows) is Err {
                lemma_first_fault_stays(upto, all.skip(i + 1), windows);
                assert(passed(upto, windows) == i);
            }
        }
        if i >= MAX_ARCHIVE_ENTRIES {
            return Judgement {
                passed: i,
                verdict: Err(text::owned("归档条目超过上限（100000）")),
            };
        }
        match &entries[i] {
            Ok(e) => match check_entry(e, total, windows) {
                Ok(now) => {
                    total = now;
                },
                Err(x) => {
                    return Judgement { passed: i, verdict: Err(x) };
                },
            },
            Err(x) => {
                return Judgement {
                    passed: i,
                    verdict: Err(text::cat2("读取归档条目失败：", x.as_str())),
                };
            },
        }
        i = i + 1;
    }
    proof {
        assert(all.take(all.len() as int) =~= all);
        assert(all.len() == entries@.len());
    }
    Judgement { passed: i, verdict: Ok(total) }
}

/// What a tarball holds in all, or why it is refused.
pub open spec fn inspected(bytes: Seq<u8>, windows: bool) -> Result<nat, Seq<char>> {
    match tarball_entries(bytes, (MAX_ARCHIVE_ENTRIES + 1) as nat) {
        Err(x) => Err("读取归档目录失败："@ + x),
        Ok(entries) => judged(entries, windows),
    }
}

/// How many entries of a tarball may be unpacked before it is refused.
pub open spec fn unpackable(bytes: Seq<u8>, windows: bool) -> nat {
    match tarball_entries(bytes, (MAX_ARCHIVE_ENTRIES + 1) as nat) {
        Err(_) => 0,
        Ok(entries) => passed(entries, windows),
    }
}

/// Judges a gzipped tarball: it may have no more than 100000 entries of no more
/// than 512 MiB in all, each a file or a directory under its root. One entry
/// more than that is read, so that too many are noticed.
pub fn judge_tarball(bytes: &[u8], windows: bool) -> (r: Judgement)
    ensures
        r.said() == inspected(bytes@, windows),
        r.passed == unpackable(bytes@, windows),
{
    match list_tarball(bytes, MAX_ARCHIVE_ENTRIES + 1) {
        Ok(entries) => judge_entries(&entries, windows),
        Err(x) => Judgement {
            passed: 0,
            verdict: Err(text::cat2("读取归档目录失败：", x.as_str())),
        },
    }
}

/// The outcome of judging a tarball and of unpacking the entries that passed:
/// an entry that could not be unpacked comes before the one that is refused.
pub fn unpacking_outcome(unpacked: Result<(), String>, verdict: Result<u64, String>) -> (r: Result<
    u64,
    String,
>)
    ensures
        match unpacked {
            Err(e) => r matches Err(x) && x@ == e@,
            Ok(_) => r == verdict,
        },
{
    match unpacked {
        Err(e) => Err(e),
        Ok(_) => verdict,
    }
}

/// A tarball that passes has no more entries and bytes than are allowed, and
/// each entry is a file or a directory whose path stays inside.
pub proof fn law_accepted_tarballs_are_bounded(
    entries: Seq<Result<EntryModel, Seq<char>>>,
    windows: bool,
    i: int,
)
    requires
        judged(entries, windows) is Ok,
        0 <= i < entries.len(),
    ensures
        entries.len() <= MAX_ARCHIVE_ENTRIES,
        (judged(entries, windows)->Ok_0) <= MAX_UNPACKED_BYTES,
        entries[i] matches Ok(e) && (e.flag == FLAG_FILE || e.flag == FLAG_DIRECTORY) && (
        e.path matches Ok(path) && entry_target(path, windows) is Ok),
    decreases entries.len(),
{
    if i < entries.len() - 1 {
        law_accepted_tarballs_are_bounded(entries.drop_last(), windows, i);
        assert(entries.drop_last()[i] == entries[i]);
    }
}

// ------------------------------------------------------------------- publishing

/// A name that was unpacked, and where it goes.
#[derive(Debug)]
pub struct Publish {
    pub name: String,
    pub target: String,
}

/// Where names go.
pub open spec fn targets(dest: Seq<char>, names: Seq<Seq<char>>) -> Seq<(Seq<char>, Seq<char>)> {
    names.map_values(|n: Seq<char>| (n, paths::joined(dest, n)))
}

/// The contents of a list.
pub open spec fn publishes(v: Seq<Publish>) -> Seq<(Seq<char>, Seq<char>)> {
    v.map_values(|p: Publish| (p.name@, p.target@))
}

/// The first name from `i` on whose target is taken.
pub open spec fn first_clash(
    dest: Seq<char>,
    names: Seq<Seq<char>>,
    taken: Seq<Seq<char>>,
    i: int,
) -> Option<Seq<char>>
    decreases names.len() - i,
{
    if i < 0 || i >= names.len() {
        None
    } else if taken.contains(names[i]) {
        Some(paths::joined(dest, names[i]))
    } else {
        first_clash(dest, names, taken, i + 1)
    }
}

/// Why what was unpacked is not published, if it is not.
pub open spec fn publish_fault(
    root_is_dir: bool,
    dest: Seq<char>,
    names: Seq<Seq<char>>,
    taken: Seq<Seq<char>>,
) -> Option<Seq<char>> {
    if !root_is_dir {
        Some("归档缺少 package/ 根目录"@)
    } else {
        match first_clash(dest, names, taken, 0) {
            Some(target) => Some("解包目标已有同名路径："@ + target),
            None => None,
        }
    }
}

/// Plans the publishing of what was unpacked: nothing is moved unless the
/// tarball's root is there and every target is free. `taken` are the names that
/// the destination has already.
pub fn publish_plan(
    root_is_dir: bool,
    dest: &str,
    names: &Vec<String>,
    taken: &Vec<String>,
) -> (r: Result<Vec<Publish>, String>)
    ensures
        match r {
            Ok(plan) => publish_fault(root_is_dir, dest@, text::texts(names@), text::texts(taken@)) is None
                && publishes(plan@) == targets(dest@, text::texts(names@)),
            Err(x) => publish_fault(root_is_dir, dest@, text::texts(names@), text::texts(taken@)) == Some(x@),
        },
{
    if !root_is_dir {
        return Err(text::owned("归档缺少 package/ 根目录"));
    }
    let ghost all = text::texts(names@);
    let mut plan: Vec<Publish> = Vec::new();
    let mut i: usize = 0;
    while i < names.len()
        invariant
            i <= names.len(),
            all == text::texts(names@),
            all.len() == names@.len(),
            first_clash(dest@, all, text::texts(taken@), 0) == first_clash(
                dest@,
                all,
                text::texts(taken@),
                i as int,
            ),
            plan.len() == i,
            root_is_dir,
            forall|k: int|
                0 <= k < i ==> (#[trigger] plan@[k]).name@ == all[k] && plan@[k].target@ == paths::joined(
                    dest@,
                    all[k],
                ),
        decreases names.len() - i,
    {
        proof {
            assert(all[i as int] == names@[i as int]@);
        }
        let target = paths::join(dest, names[i].as_str());
        if text::listed(taken, names[i].as_str()) {
            return Err(text::cat2("解包目标已有同名路径：", target.as_str()));
        }
        plan.push(Publish { name: names[i].clone(), target });
        i = i + 1;
    }
    proof {
        assert(publishes(plan@) =~= targets(dest@, all));
    }
    Ok(plan)
}

/// Where the files could not be dealt with.
#[derive(Debug)]
pub enum ExtractFault {
    NoDest(String),
    NoExtractDir(String),
    NoTarball(String),
    /// An entry, by its path, could not be unpacked.
    NotUnpacked { path: String, error: String },
    NotListed(String),
    EntryNotRead(String),
    /// What was unpacked could not be moved to this target.
    NotPublished { target: String, error: String },
}

impl ExtractFault {
    /// What the user is told.
    pub fn message(&self) -> (r: String)
        ensures
            r@ == (match *self {
                ExtractFault::NoDest(e) => "创建解包目录失败："@ + e@,
                ExtractFault::NoExtractDir(e) => "创建解包临时目录失败："@ + e@,
                ExtractFault::NoTarball(e) => "打开归档失败："@ + e@,
                ExtractFault::NotUnpacked { path, error } => "解包 "@ + path@ + " 失败："@ + error@,
                ExtractFault::NotListed(e) => "读取解包目录失败："@ + e@,
                ExtractFault::EntryNotRead(e) => "读取解包条目失败："@ + e@,
                ExtractFault::NotPublished { target, error } => "发布解包文件 "@ + target@
                    + " 失败："@ + error@,
            }),
    {
        match self {
            ExtractFault::NoDest(e) => text::cat2("创建解包目录失败：", e.as_str()),
            ExtractFault::NoExtractDir(e) => text::cat2("创建解包临时目录失败：", e.as_str()),
            ExtractFault::NoTarball(e) => text::cat2("打开归档失败：", e.as_str()),
            ExtractFault::NotUnpacked { path, error } => text::cat4(
                "解包 ",
                path.as_str(),
                " 失败：",
                error.as_str(),
            ),
            ExtractFault::NotListed(e) => text::cat2("读取解包目录失败：", e.as_str()),
            ExtractFault::EntryNotRead(e) => text::cat2("读取解包条目失败：", e.as_str()),
            ExtractFault::NotPublished { target, error } => text::cat4(
                "发布解包文件 ",
                target.as_str(),
                " 失败：",
                error.as_str(),
            ),
        }
    }
}

/// The outcome of unpacking, after the directory that it used was cleaned up:
/// its own error counts first.
pub fn extraction_outcome(result: Result<(), String>, cleanup: Result<(), String>) -> (r: Result<
    (),
    String,
>)
    ensures
        match (result, cleanup) {
            (Ok(_), Ok(_)) => r is Ok,
            (Err(e), _) => r matches Err(x) && x@ == e@,
            (Ok(_), Err(e)) => r matches Err(x) && x@ == "清理解包临时目录失败："@ + e@,
        },
{
    match result {
        Err(e) => Err(e),
        Ok(_) => match cleanup {
            Ok(_) => Ok(()),
            Err(e) => Err(text::cat2("清理解包临时目录失败：", e.as_str())),
        },
    }
}

/// Unpacking is refused where its directory is in use.
pub fn check_extract_dir(dest: &str, in_use: bool) -> (r: Result<String, String>)
    ensures
        match r {
            Ok(dir) => !in_use && dir@ == paths::joined(dest@, EXTRACT_DIR@),
            Err(x) => in_use && x@ == "解包临时目录已被占用："@ + paths::joined(dest@, EXTRACT_DIR@),
        },
{
    let dir = paths::join(dest, EXTRACT_DIR);
    if in_use {
        return Err(text::cat2("解包临时目录已被占用：", dir.as_str()));
    }
    Ok(dir)
}

/// A file right under the tarball's root goes under its own name, unless the
/// shell keeps that name; a step up, another root and the shell's own names are
/// refused.
pub proof fn law_entries_go_under_their_names(name: Seq<char>)
    requires
        paths::valid_id(name),
    ensures
        name != ".dsh-id"@ && name != ".dsh-extract"@ ==> entry_target(
            paths::joined("package"@, name),
            false,
        ) == Ok::<Seq<char>, Seq<char>>(name),
        name == ".dsh-id"@ || name == ".dsh-extract"@ ==> entry_target(
            paths::joined("package"@, name),
            false,
        ) is Err,
        entry_target(paths::joined(paths::joined("package"@, name), ".."@), false) is Err,
        entry_target(paths::joined(paths::joined("package"@, ".dsh-extract"@), name), false) is Err,
        entry_target(paths::joined("package"@, ".."@), false) is Err,
        name != "package"@ ==> entry_target(name, false) is Err,
{
    reveal_strlit("package");
    reveal_strlit(".");
    reveal_strlit("..");
    reveal_strlit("/");
    let root = "package"@;
    lemma_single_part(root);
    paths::law_ids_are_single_components(name);
    assert forall|i: int| 0 <= i < name.len() implies (#[trigger] name[i]) != '/' by {
        assert(name.contains(name[i]));
    }
    assert(".."@.len() != "."@.len());
    paths::law_joining_adds_a_part(root, name);
    paths::law_joining_adds_a_part(root, ".."@);
    paths::law_joining_adds_a_part(paths::joined(root, name), ".."@);
    let n = PartModel::Normal(name);
    let parts = paths::path_parts(paths::joined(root, name));
    assert(parts =~= seq![PartModel::Normal(root), n]);
    assert(parts.drop_first() =~= seq![n]);
    assert(paths::part_texts(seq![n]) =~= seq![name]);
    assert(paths::rendered(seq![n]) == name);
    assert(all_names(seq![n]));
    assert(seq![n][0] == n);
    if is_kept(seq![n]) {
        if seq![n] == seq![PartModel::Normal(ID_FILE@)] {
            assert(seq![n][0] == seq![PartModel::Normal(ID_FILE@)][0]);
        }
    }
    let up = paths::path_parts(paths::joined(paths::joined(root, name), ".."@));
    assert(up =~= seq![PartModel::Normal(root), n, PartModel::Parent]);
    assert(up.drop_first()[1] == PartModel::Parent);
    let out = paths::path_parts(paths::joined(root, ".."@));
    assert(out =~= seq![PartModel::Normal(root), PartModel::Parent]);
    assert(out.drop_first()[0] == PartModel::Parent);
    if name != root {
        assert(paths::path_parts(name)[0] == n);
    }
    let dir = ".dsh-extract"@;
    reveal_strlit(".dsh-extract");
    assert(dir.len() == 12);
    assert forall|i: int| 0 <= i < dir.len() implies (#[trigger] dir[i]) != '/' by {}
    paths::law_joining_adds_a_part(root, dir);
    paths::law_joining_adds_a_part(paths::joined(root, dir), name);
    let deep = paths::path_parts(paths::joined(paths::joined(root, dir), name));
    assert(deep =~= seq![PartModel::Normal(root), PartModel::Normal(dir), n]);
    assert(deep.drop_first()[0] == PartModel::Normal(dir));
}

proof fn lemma_single_part(root: Seq<char>)
    requires
        root == "package"@,
    ensures
        paths::path_parts(root) == seq![PartModel::Normal(root)],
{
    reveal_strlit("package");
    reveal_strlit(".");
    reveal_strlit("..");
    assert("package"@.len() == 7 && "."@.len() == 1 && ".."@.len() == 2);
    let none = Seq::<char>::empty();
    paths::law_joining_adds_a_part(none, root);
    assert(paths::joined(none, root) =~= root);
    assert(text::split_text(none, '/') =~= seq![none]);
    assert(seq![none].drop_last() =~= Seq::<Seq<char>>::empty());
    reveal_with_fuel(paths::pieces_parts, 2);
    assert(paths::path_parts(none) =~= Seq::<PartModel>::empty());
    assert(paths::path_parts(root) =~= seq![PartModel::Normal(root)]);
}

/// An entry passes exactly where its path is accepted, it is a regular file or
/// a directory, its size is known, and with it no more than 512 MiB are held.
/// Links never pass.
pub proof fn law_entries_that_pass(e: EntryModel, total: nat, windows: bool)
    ensures
        entry_fault(e, total, windows) is None <==> (e.path matches Ok(path) && entry_target(
            path,
            windows,
        ) is Ok) && (e.flag == 48 || e.flag == 53) && (e.size matches Ok(size) && total + size
            <= 536_870_912),
        e.flag == 49 || e.flag == 50 ==> entry_fault(e, total, windows) is Some,
{
}

/// One more entry is judged by itself and by what came before: a tarball that
/// was refused stays refused for the same reason, one that passes holds what it
/// held and what the entry holds, and no more than 100000 entries pass.
pub proof fn law_entries_are_judged_in_turn(
    entries: Seq<Result<EntryModel, Seq<char>>>,
    e: Result<EntryModel, Seq<char>>,
    windows: bool,
)
    ensures
        ({
            let before = judged(entries, windows);
            let now = judged(entries.push(e), windows);
            &&& before is Err ==> now == before
            &&& now is Ok ==> before is Ok && (e matches Ok(x) && (x.size matches Ok(size)
                && now->Ok_0 == before->Ok_0 + size && entry_fault(x, before->Ok_0, windows) is None))
            &&& before is Ok && entries.len() < 100_000 && (e matches Ok(x) && entry_fault(
                x,
                before->Ok_0,
                windows,
            ) is None) ==> now is Ok
            &&& entries.len() >= 100_000 ==> now is Err
        }),
        judged(Seq::<Result<EntryModel, Seq<char>>>::empty(), windows) == Ok::<nat, Seq<char>>(0),
{
    assert(entries.push(e).drop_last() =~= entries);
}

/// What may be unpacked before a tarball is refused is everything in front of
/// the first entry that gives a reason: up to there it passes, and with one
/// entry more it does not.
pub proof fn law_what_comes_before_the_fault_passes(
    entries: Seq<Result<EntryModel, Seq<char>>>,
    windows: bool,
)
    ensures
        passed(entries, windows) <= entries.len(),
        passed(entries, windows) == entries.len() <==> judged(entries, windows) is Ok,
        judged(entries.take(passed(entries, windows) as int), windows) is Ok,
        passed(entries, windows) < entries.len() ==> judged(
            entries.take(passed(entries, windows) as int + 1),
            windows,
        ) == judged(entries, windows),
    decreases entries.len(),
{
    let n = entries.len() as int;
    assert(entries.take(n) =~= entries);
    if entries.len() > 0 && judged(entries, windows) is Err {
        let init = entries.drop_last();
        law_what_comes_before_the_fault_passes(init, windows);
        let p = passed(init, windows) as int;
        assert(init.take(p) =~= entries.take(p));
        if p < init.len() {
            assert(init.take(p + 1) =~= entries.take(p + 1));
        }
    }
}

/// What was unpacked is published exactly where the tarball's root is there and
/// none of its names is taken; then each name goes under the destination.
pub proof fn law_nothing_is_overwritten(
    root_is_dir: bool,
    dest: Seq<char>,
    names: Seq<Seq<char>>,
    taken: Seq<Seq<char>>,
    k: int,
)
    ensures
        publish_fault(root_is_dir, dest, names, taken) is None <==> root_is_dir && forall|i: int|
            0 <= i < names.len() ==> !taken.contains(#[trigger] names[i]),
        0 <= k < names.len() ==> targets(dest, names)[k] == (names[k], paths::joined(dest, names[k])),
        targets(dest, names).len() == names.len(),
{
    lemma_first_clash(dest, names, taken, 0);
}

proof fn lemma_first_clash(dest: Seq<char>, names: Seq<Seq<char>>, taken: Seq<Seq<char>>, from: int)
    requires
        0 <= from,
    ensures
        first_clash(dest, names, taken, from) is None <==> forall|i: int|
            from <= i < names.len() ==> !taken.contains(#[trigger] names[i]),
    decreases names.len() - from,
{
    if from < names.len() && !taken.contains(names[from]) {
        lemma_first_clash(dest, names, taken, from + 1);
        if first_clash(dest, names, taken, from) is None {
            assert forall|i: int| from <= i < names.len() implies !taken.contains(
                #[trigger] names[i],
            ) by {}
        }
    }
}

} // verus!
