//! What is done to files in a move and in taking it back, step by step, and
//! what that leaves of them.

use crate::migration::history;
use crate::migration::history::{RestoreFacts, RestoreRecord, RollbackFacts};
use crate::migration::manifest;
use crate::migration::run;
use crate::migration::run::{ConflictPolicy, EntryAction, EntryDecision, EntryRecord, MoveFacts};
use crate::migration::sources;
use crate::migration::sources::{LegacySource, MigrationItemPreview};
use crate::paths;
use vstd::prelude::*;

verus! {

/// A step on files.
#[derive(Debug)]
pub enum FileStep {
    /// A file or a tree is copied over what is there.
    Copy { from: String, to: String },
    /// One manifest is merged into another.
    Merge { from: String, to: String },
    /// What is there is removed: a tree, or a file. That it fails is no matter.
    Remove { path: String, tree: bool },
    /// A file or a tree is moved to a free place, or in place of an older
    /// backup. A tree is copied and removed where it cannot be moved.
    Move { from: String, to: String, tree: bool },
}

/// The content of a step.
#[verifier::ext_equal]
pub enum StepModel {
    Copy { from: Seq<char>, to: Seq<char> },
    Merge { from: Seq<char>, to: Seq<char> },
    Remove { path: Seq<char>, tree: bool },
    Move { from: Seq<char>, to: Seq<char>, tree: bool },
}

impl View for FileStep {
    type V = StepModel;

    open spec fn view(&self) -> StepModel {
        match self {
            FileStep::Copy { from, to } => StepModel::Copy { from: from@, to: to@ },
            FileStep::Merge { from, to } => StepModel::Merge { from: from@, to: to@ },
            FileStep::Remove { path, tree } => StepModel::Remove { path: path@, tree: *tree },
            FileStep::Move { from, to, tree } => StepModel::Move {
                from: from@,
                to: to@,
                tree: *tree,
            },
        }
    }
}

/// The contents of a list of steps.
pub open spec fn step_models(v: Seq<FileStep>) -> Seq<StepModel> {
    v.map_values(|s: FileStep| s@)
}

// ---------------------------------------------------------------------- plans

/// Where an entry that is overwritten goes first: into the backup of its
/// source, where the source had a target before; otherwise it stays.
pub open spec fn backup_place(
    to_dir: Seq<char>,
    backup_dir: Seq<char>,
    name: Seq<char>,
    target_existed: bool,
) -> Seq<char> {
    if target_existed {
        paths::joined(backup_dir, name)
    } else {
        paths::joined(to_dir, name)
    }
}

/// What is done to files for an entry of a source.
pub open spec fn entry_steps(
    from_dir: Seq<char>,
    to_dir: Seq<char>,
    backup_dir: Seq<char>,
    name: Seq<char>,
    action: EntryAction,
    target_existed: bool,
) -> Seq<StepModel> {
    let from = paths::joined(from_dir, name);
    let to = paths::joined(to_dir, name);
    match action {
        EntryAction::Skip => Seq::empty(),
        EntryAction::Copy => seq![StepModel::Copy { from, to }],
        EntryAction::MergeManifest => seq![StepModel::Merge { from, to }],
        EntryAction::BackupThenCopy => seq![
            StepModel::Move {
                from: to,
                to: backup_place(to_dir, backup_dir, name, target_existed),
                tree: false,
            },
            StepModel::Copy { from, to },
        ],
    }
}

/// Plans what is done to files for an entry of a source. A step is taken only
/// where the one before it worked.
pub fn plan_steps(
    item: &MigrationItemPreview,
    name: &str,
    decision: EntryDecision,
    backup_root: &str,
    target_existed: bool,
) -> (r: Vec<FileStep>)
    ensures
        step_models(r@) == entry_steps(
            item.source_path@,
            item.target_path@,
            run::backup_dir(backup_root@, item.source),
            name@,
            run::action_of(decision),
            target_existed,
        ),
{
    let from = paths::join(item.source_path.as_str(), name);
    let to = paths::join(item.target_path.as_str(), name);
    let mut out: Vec<FileStep> = Vec::new();
    let ghost want = entry_steps(
        item.source_path@,
        item.target_path@,
        run::backup_dir(backup_root@, item.source),
        name@,
        run::action_of(decision),
        target_existed,
    );
    match decision {
        EntryDecision::Skip(_) => {},
        EntryDecision::Copy => {
            out.push(FileStep::Copy { from, to });
        },
        EntryDecision::MergeManifest => {
            out.push(FileStep::Merge { from, to });
        },
        EntryDecision::BackupThenCopy => {
            let place = if target_existed {
                let dir = run::backup_path_for(backup_root, item.source);
                paths::join(dir.as_str(), name)
            } else {
                to.clone()
            };
            out.push(FileStep::Move { from: to.clone(), to: place, tree: false });
            out.push(FileStep::Copy { from, to });
        },
    }
    proof {
        assert(step_models(out@) =~= want);
    }
    out
}

/// What is done to files for an entry of a backup: what is in its place is
/// removed, by the kind of the entry, and the entry is moved there.
pub open spec fn restore_steps(
    target_dir: Seq<char>,
    backup_dir: Seq<char>,
    name: Seq<char>,
    is_dir: bool,
    target_there: bool,
) -> Seq<StepModel> {
    let to = paths::joined(target_dir, name);
    let back = StepModel::Move { from: paths::joined(backup_dir, name), to, tree: is_dir };
    if target_there {
        seq![StepModel::Remove { path: to, tree: is_dir }, back]
    } else {
        seq![back]
    }
}

/// Plans what is done to files for an entry of a backup.
pub fn plan_restore(
    target_dir: &str,
    backup_dir: &str,
    name: &str,
    is_dir: bool,
    target_there: bool,
) -> (r: Vec<FileStep>)
    ensures
        step_models(r@) == restore_steps(target_dir@, backup_dir@, name@, is_dir, target_there),
{
    let to = paths::join(target_dir, name);
    let mut out: Vec<FileStep> = Vec::new();
    if target_there {
        out.push(FileStep::Remove { path: to.clone(), tree: is_dir });
    }
    out.push(FileStep::Move { from: paths::join(backup_dir, name), to, tree: is_dir });
    proof {
        assert(step_models(out@) =~= restore_steps(
            target_dir@,
            backup_dir@,
            name@,
            is_dir,
            target_there,
        ));
    }
    out
}

// ---------------------------------------------------------------------- files

/// The contents of files, by their paths.
pub type Files = Map<Seq<char>, Seq<u8>>;

/// The path is the directory, or lies in it.
pub open spec fn within(path: Seq<char>, dir: Seq<char>) -> bool {
    path == dir || (path.len() > dir.len() && path.take(dir.len() as int) == dir
        && path[dir.len() as int] == '/')
}

/// The two hold the same file at a path, or both none.
pub open spec fn same_at(a: Files, b: Files, path: Seq<char>) -> bool {
    a.dom().contains(path) == b.dom().contains(path) && (a.dom().contains(path) ==> a[path]
        == b[path])
}

/// The step may change a file at this path.
pub open spec fn touches(step: StepModel, path: Seq<char>) -> bool {
    match step {
        StepModel::Copy { from, to } => within(path, to),
        StepModel::Merge { from, to } => within(path, to),
        StepModel::Remove { path: gone, tree } => within(path, gone),
        StepModel::Move { from, to, tree } => within(path, to) || within(path, from),
    }
}

/// Files before and after a step that may have failed: what it does not touch
/// is as it was.
pub open spec fn leaves_rest(before: Files, step: StepModel, after: Files) -> bool {
    forall|path: Seq<char>| !touches(step, path) ==> #[trigger] same_at(before, after, path)
}

/// Files before and after a step that worked: a file that it copies or moves is
/// at its new place.
pub open spec fn worked(before: Files, step: StepModel, after: Files) -> bool {
    leaves_rest(before, step, after) && match step {
        StepModel::Copy { from, to } => before.dom().contains(from) ==> after.dom().contains(to)
            && after[to] == before[from],
        StepModel::Move { from, to, tree } => before.dom().contains(from) ==> after.dom().contains(
            to,
        ) && after[to] == before[from],
        _ => true,
    }
}

/// Files from before the first step to after the last. The first `done` steps
/// worked; of the others some may have failed or been left out.
pub open spec fn follows(files: Seq<Files>, steps: Seq<StepModel>, done: nat) -> bool {
    files.len() == steps.len() + 1 && forall|i: int|
        0 <= i < steps.len() ==> (files[i] == files[i + 1] || leaves_rest(
            files[i],
            #[trigger] steps[i],
            files[i + 1],
        )) && (i < done ==> worked(files[i], steps[i], files[i + 1]))
}

/// Files before and after steps of which the first `done` worked.
pub open spec fn carried_out(
    before: Files,
    steps: Seq<StepModel>,
    done: nat,
    after: Files,
) -> bool {
    exists|files: Seq<Files>| #[trigger]
        follows(files, steps, done) && files[0] == before && files.last() == after
}

/// Each list of files begins with what the one before it ends with.
pub open spec fn chained(worlds: Seq<Seq<Files>>) -> bool {
    &&& forall|g: int| 0 <= g < worlds.len() ==> (#[trigger] worlds[g]).len() > 0
    &&& forall|g: int|
        0 <= g && g + 1 < worlds.len() ==> (#[trigger] worlds[g]).last() == worlds[g + 1][0]
}

proof fn lemma_followed(files: Seq<Files>, steps: Seq<StepModel>, done: nat, path: Seq<char>, n: int)
    requires
        follows(files, steps, done),
        0 <= n <= steps.len(),
        forall|i: int| 0 <= i < n ==> !touches(#[trigger] steps[i], path),
    ensures
        same_at(files[0], files[n], path),
    decreases n,
{
    if n > 0 {
        lemma_followed(files, steps, done, path, n - 1);
        let step = steps[n - 1];
        assert(files[n - 1] == files[n] || leaves_rest(files[n - 1], step, files[n]));
        assert(same_at(files[n - 1], files[n], path));
    }
}

/// Steps that do not touch a path leave it as it is.
proof fn lemma_untouched(
    before: Files,
    steps: Seq<StepModel>,
    done: nat,
    after: Files,
    path: Seq<char>,
)
    requires
        carried_out(before, steps, done, after),
        forall|i: int| 0 <= i < steps.len() ==> !touches(#[trigger] steps[i], path),
    ensures
        same_at(before, after, path),
{
    let files = choose|files: Seq<Files>| #[trigger]
        follows(files, steps, done) && files[0] == before && files.last() == after;
    lemma_followed(files, steps, done, path, steps.len() as int);
}

/// What stays from each to the next stays from the first to the last.
proof fn lemma_along(files: Seq<Files>, path: Seq<char>, from: int, to: int)
    requires
        0 <= from <= to < files.len(),
        forall|i: int| from <= i < to ==> same_at(#[trigger] files[i], files[i + 1], path),
    ensures
        same_at(files[from], files[to], path),
    decreases to - from,
{
    if from < to {
        lemma_along(files, path, from, to - 1);
        assert(same_at(files[to - 1], files[to - 1 + 1], path));
    }
}

/// What stays in each list of files stays from the first to the last.
proof fn lemma_along_all(worlds: Seq<Seq<Files>>, path: Seq<char>, from: int, to: int)
    requires
        chained(worlds),
        0 <= from < to <= worlds.len(),
        forall|g: int|
            from <= g < to ==> same_at((#[trigger] worlds[g])[0], worlds[g].last(), path),
    ensures
        same_at(worlds[from][0], worlds[to - 1].last(), path),
    decreases to - from,
{
    assert(same_at(worlds[to - 1][0], worlds[to - 1].last(), path));
    if from + 1 < to {
        lemma_along_all(worlds, path, from, to - 1);
        assert(worlds[to - 2].last() == worlds[to - 2 + 1][0]);
    }
}

// ---------------------------------------------------------------------- paths

/// The name of an entry of a directory.
pub open spec fn entry_name(name: Seq<char>) -> bool {
    name.len() > 0 && forall|i: int| 0 <= i < name.len() ==> (#[trigger] name[i]) != '/'
}

/// A directory that names are put under with a slash.
spec fn plain_dir(dir: Seq<char>) -> bool {
    dir.len() > 0 && dir.last() != '/'
}

/// Neither directory lies in the other.
pub open spec fn apart(a: Seq<char>, b: Seq<char>) -> bool {
    !within(a, b) && !within(b, a)
}

/// What stands before a name under a directory.
spec fn dir_prefix(dir: Seq<char>) -> Seq<char> {
    if dir.len() == 0 || dir.last() == '/' {
        dir
    } else {
        dir + "/"@
    }
}

proof fn lemma_under(dir: Seq<char>, name: Seq<char>)
    requires
        entry_name(name),
    ensures
        paths::joined(dir, name) == dir_prefix(dir) + name,
        plain_dir(paths::joined(dir, name)),
        plain_dir(dir) ==> within(paths::joined(dir, name), dir),
{
    reveal_strlit("/");
    assert(name[0] != '/');
    let p = paths::joined(dir, name);
    assert(p =~= dir_prefix(dir) + name);
    assert(p.last() == name[name.len() - 1]);
    if plain_dir(dir) {
        assert(p.take(dir.len() as int) =~= dir);
        assert(p[dir.len() as int] == '/');
    }
}

proof fn lemma_within(path: Seq<char>, a: Seq<char>, b: Seq<char>)
    requires
        within(path, a),
        within(a, b),
    ensures
        within(path, b),
{
    if path != a && a != b {
        assert(path.take(b.len() as int) =~= a.take(b.len() as int));
        assert(path[b.len() as int] == path.take(a.len() as int)[b.len() as int]);
    }
}

proof fn lemma_apart(path: Seq<char>, a: Seq<char>, b: Seq<char>)
    requires
        within(path, a),
        apart(a, b),
    ensures
        !within(path, b),
{
    if within(path, b) {
        if a.len() == b.len() {
            assert(path.take(a.len() as int) =~= a);
            assert(path.take(b.len() as int) =~= b);
        } else if a.len() < b.len() {
            assert(b.take(a.len() as int) =~= path.take(a.len() as int));
            assert(path.take(b.len() as int) =~= b);
            assert(b[a.len() as int] == path[a.len() as int]);
            assert(path.take(a.len() as int) =~= a);
        } else {
            assert(a.take(b.len() as int) =~= path.take(b.len() as int));
            assert(path.take(a.len() as int) =~= a);
            assert(a[b.len() as int] == path[b.len() as int]);
            assert(path.take(b.len() as int) =~= b);
        }
    }
}

/// Entries of one directory lie apart.
proof fn lemma_siblings(dir: Seq<char>, a: Seq<char>, b: Seq<char>)
    requires
        entry_name(a),
        entry_name(b),
        a != b,
    ensures
        apart(paths::joined(dir, a), paths::joined(dir, b)),
{
    lemma_not_within(dir, a, b);
    lemma_not_within(dir, b, a);
}

proof fn lemma_not_within(dir: Seq<char>, a: Seq<char>, b: Seq<char>)
    requires
        entry_name(a),
        entry_name(b),
        a != b,
    ensures
        !within(paths::joined(dir, a), paths::joined(dir, b)),
{
    lemma_under(dir, a);
    lemma_under(dir, b);
    let n = dir_prefix(dir).len() as int;
    let p = paths::joined(dir, a);
    let q = paths::joined(dir, b);
    if p == q {
        assert(p.skip(n) =~= a);
        assert(q.skip(n) =~= b);
    } else if within(p, q) {
        assert(p[q.len() as int] == a[b.len() as int]);
    }
}

/// The path lies outside of what a move and taking it back may change: the
/// targets of the sources, and the backups.
pub open spec fn outside(path: Seq<char>, xlink: Seq<char>) -> bool {
    !within(path, history::backups_dir(xlink)) && forall|s: LegacySource|
        !within(path, #[trigger] sources::source_target(s, xlink))
}

/// The place of an entry in the target of its source.
pub open spec fn target_place(xlink: Seq<char>, s: LegacySource, name: Seq<char>) -> Seq<char> {
    paths::joined(sources::source_target(s, xlink), name)
}

/// The place of an entry in a backup.
pub open spec fn kept_place(
    xlink: Seq<char>,
    root: Seq<char>,
    s: LegacySource,
    name: Seq<char>,
) -> Seq<char> {
    paths::joined(run::backup_dir(history::root_path(xlink, root), s), name)
}

proof fn lemma_names()
    ensures
        entry_name("backups"@),
        entry_name("dsh-plugins"@),
        entry_name("skills"@),
        entry_name("packages"@),
        entry_name("active"@),
        entry_name("plugins"@),
        entry_name("skills-store"@),
        entry_name("skills-active"@),
        "backups"@ != "dsh-plugins"@,
        "backups"@ != "skills"@,
        "dsh-plugins"@ != "skills"@,
        "packages"@ != "active"@,
        "plugins"@ != "skills-store"@,
        "plugins"@ != "skills-active"@,
        "skills-store"@ != "skills-active"@,
{
    reveal_strlit("backups");
    reveal_strlit("dsh-plugins");
    reveal_strlit("skills");
    reveal_strlit("packages");
    reveal_strlit("active");
    reveal_strlit("plugins");
    reveal_strlit("skills-store");
    reveal_strlit("skills-active");
    assert("backups"@[0] == 'b' && "dsh-plugins"@[0] == 'd' && "skills"@[0] == 's');
    assert("skills-store"@[7] == 's' && "skills-active"@[7] == 'a');
}

/// The directories of a source under the new home: its target, and its part of
/// a backup.
proof fn lemma_dirs(xlink: Seq<char>, root: Seq<char>, s: LegacySource)
    requires
        entry_name(root),
    ensures
        plain_dir(sources::source_target(s, xlink)),
        plain_dir(run::backup_dir(history::root_path(xlink, root), s)),
        within(run::backup_dir(history::root_path(xlink, root), s), history::root_path(xlink, root)),
        within(history::root_path(xlink, root), history::backups_dir(xlink)),
        plain_dir(history::root_path(xlink, root)),
        apart(sources::source_target(s, xlink), history::backups_dir(xlink)),
{
    lemma_names();
    let backups = history::backups_dir(xlink);
    let path = history::root_path(xlink, root);
    lemma_under(xlink, "backups"@);
    lemma_under(backups, root);
    lemma_under(path, sources::source_key(s));
    lemma_under(xlink, "dsh-plugins"@);
    lemma_under(xlink, "skills"@);
    let skills = paths::joined(xlink, "skills"@);
    lemma_under(skills, "packages"@);
    lemma_under(skills, "active"@);
    lemma_siblings(xlink, "backups"@, "dsh-plugins"@);
    lemma_siblings(xlink, "backups"@, "skills"@);
    let target = sources::source_target(s, xlink);
    if s != LegacySource::Plugins {
        lemma_apart(target, skills, backups);
        if within(backups, target) {
            lemma_within(backups, target, skills);
        }
    }
}

/// The targets of two sources lie apart.
proof fn lemma_targets(xlink: Seq<char>, a: LegacySource, b: LegacySource)
    requires
        a != b,
    ensures
        apart(sources::source_target(a, xlink), sources::source_target(b, xlink)),
{
    lemma_names();
    lemma_under(xlink, "dsh-plugins"@);
    lemma_under(xlink, "skills"@);
    let skills = paths::joined(xlink, "skills"@);
    let plugins = paths::joined(xlink, "dsh-plugins"@);
    lemma_under(skills, "packages"@);
    lemma_under(skills, "active"@);
    lemma_siblings(xlink, "dsh-plugins"@, "skills"@);
    lemma_siblings(skills, "packages"@, "active"@);
    lemma_siblings(skills, "active"@, "packages"@);
    let packages = paths::joined(skills, "packages"@);
    let active = paths::joined(skills, "active"@);
    lemma_apart(packages, skills, plugins);
    lemma_apart(active, skills, plugins);
    if within(plugins, packages) {
        lemma_within(plugins, packages, skills);
    }
    if within(plugins, active) {
        lemma_within(plugins, active, skills);
    }
}

/// What lies in a place of an entry lies in the target of its source, or in the
/// backup.
proof fn lemma_places(
    xlink: Seq<char>,
    root: Seq<char>,
    s: LegacySource,
    name: Seq<char>,
    path: Seq<char>,
)
    requires
        entry_name(root),
        entry_name(name),
    ensures
        within(target_place(xlink, s, name), sources::source_target(s, xlink)),
        within(
            kept_place(xlink, root, s, name),
            run::backup_dir(history::root_path(xlink, root), s),
        ),
        within(path, target_place(xlink, s, name)) ==> within(path, sources::source_target(s, xlink)),
        within(path, kept_place(xlink, root, s, name)) ==> within(
            path,
            run::backup_dir(history::root_path(xlink, root), s),
        ) && within(path, history::root_path(xlink, root)) && within(
            path,
            history::backups_dir(xlink),
        ),
{
    lemma_dirs(xlink, root, s);
    let target = sources::source_target(s, xlink);
    let part = run::backup_dir(history::root_path(xlink, root), s);
    let whole = history::root_path(xlink, root);
    let backups = history::backups_dir(xlink);
    lemma_under(target, name);
    lemma_under(part, name);
    if within(path, target_place(xlink, s, name)) {
        lemma_within(path, target_place(xlink, s, name), target);
    }
    if within(path, kept_place(xlink, root, s, name)) {
        lemma_within(path, kept_place(xlink, root, s, name), part);
        lemma_within(path, part, whole);
        lemma_within(path, whole, backups);
    }
}

/// Neither place of an entry lies in a place of another, nor one of its own in
/// the other.
proof fn lemma_other_entry(
    xlink: Seq<char>,
    root: Seq<char>,
    s: LegacySource,
    name: Seq<char>,
    other_root: Seq<char>,
    other: LegacySource,
    other_name: Seq<char>,
)
    requires
        entry_name(root),
        entry_name(name),
        entry_name(other_root),
        entry_name(other_name),
    ensures
        !within(target_place(xlink, s, name), kept_place(xlink, other_root, other, other_name)),
        !within(kept_place(xlink, root, s, name), target_place(xlink, other, other_name)),
        s != other || name != other_name ==> !within(
            target_place(xlink, s, name),
            target_place(xlink, other, other_name),
        ),
        root != other_root || s != other || name != other_name ==> !within(
            kept_place(xlink, root, s, name),
            kept_place(xlink, other_root, other, other_name),
        ),
{
    let here = target_place(xlink, s, name);
    let kept = kept_place(xlink, root, s, name);
    let there = target_place(xlink, other, other_name);
    let backups = history::backups_dir(xlink);
    lemma_dirs(xlink, root, s);
    lemma_dirs(xlink, other_root, other);
    lemma_places(xlink, root, s, name, here);
    lemma_places(xlink, root, s, name, kept);
    lemma_places(xlink, other_root, other, other_name, here);
    lemma_places(xlink, other_root, other, other_name, kept);
    lemma_apart(here, sources::source_target(s, xlink), backups);
    if within(kept, there) {
        lemma_apart(kept, sources::source_target(other, xlink), backups);
    }
    if s != other {
        lemma_targets(xlink, s, other);
        lemma_apart(here, sources::source_target(s, xlink), sources::source_target(other, xlink));
    } else if name != other_name {
        lemma_siblings(sources::source_target(s, xlink), name, other_name);
    }
    lemma_names();
    if root != other_root {
        lemma_siblings(backups, root, other_root);
        lemma_apart(kept, history::root_path(xlink, root), history::root_path(xlink, other_root));
    } else if s != other {
        lemma_siblings(
            history::root_path(xlink, root),
            sources::source_key(s),
            sources::source_key(other),
        );
        lemma_apart(
            kept,
            run::backup_dir(history::root_path(xlink, root), s),
            run::backup_dir(history::root_path(xlink, root), other),
        );
    } else if name != other_name {
        lemma_siblings(run::backup_dir(history::root_path(xlink, root), s), name, other_name);
    }
}

// ---------------------------------------------------------------------- moves

/// A move between two homes, under a policy. `root` is the name of its backup.
pub struct MoveOf {
    pub legacy: Seq<char>,
    pub xlink: Seq<char>,
    pub root: Seq<char>,
    pub policy: ConflictPolicy,
}

/// The move of a source: what was known of it before, and what was found and
/// done.
pub struct SourceMove {
    pub item: MigrationItemPreview,
    pub facts: MoveFacts,
}

/// The entries of a source that something is done with: none where there is
/// nothing to move, or where it cannot begin.
pub open spec fn handled(m: SourceMove) -> Seq<EntryRecord> {
    if run::nothing_to_move(m.item, m.facts) || m.facts.create_error is Some {
        Seq::empty()
    } else {
        match m.facts.entries {
            Ok(entries) => entries@,
            Err(_) => Seq::empty(),
        }
    }
}

/// What is done to files for an entry: nothing where its name is no text.
pub open spec fn move_steps(m: MoveOf, s: SourceMove, e: EntryRecord) -> Seq<StepModel> {
    match e.name {
        Some(name) => entry_steps(
            sources::source_path(s.item.source, m.legacy),
            sources::source_target(s.item.source, m.xlink),
            run::backup_dir(history::root_path(m.xlink, m.root), s.item.source),
            name@,
            run::entry_action(s.item.source, name@, e.facts, m.policy),
            s.facts.target_exists,
        ),
        None => Seq::empty(),
    }
}

/// How many of the steps for an entry worked, as its record tells.
pub open spec fn move_done(m: MoveOf, s: SourceMove, e: EntryRecord) -> nat {
    match e.name {
        None => 0,
        Some(name) => match run::entry_action(s.item.source, name@, e.facts, m.policy) {
            EntryAction::Skip => 0,
            EntryAction::MergeManifest => if e.merged {
                1
            } else {
                0
            },
            EntryAction::Copy => if e.copy_error is None {
                1
            } else {
                0
            },
            EntryAction::BackupThenCopy => if e.backup_error is Some {
                0
            } else if e.copy_error is Some {
                1
            } else {
                2
            },
        },
    }
}

/// The entries of a source are named as entries of a directory are, each name
/// once.
pub open spec fn entries_named(entries: Seq<EntryRecord>) -> bool {
    &&& forall|i: int|
        0 <= i < entries.len() && (#[trigger] entries[i]).name is Some ==> entry_name(
            (entries[i].name->0)@,
        )
    &&& forall|i: int, j: int|
        0 <= i < j < entries.len() && (#[trigger] entries[i]).name is Some && (
        #[trigger] entries[j]).name is Some ==> (entries[i].name->0)@ != (entries[j].name->0)@
}

/// A move of every source in order: `worlds` are, for each source, the files
/// from before its first entry to after its last.
pub open spec fn moved(m: MoveOf, all: Seq<SourceMove>, worlds: Seq<Seq<Files>>) -> bool {
    &&& entry_name(m.root)
    &&& all.len() == sources::all_sources().len()
    &&& worlds.len() == all.len()
    &&& chained(worlds)
    &&& forall|g: int| 0 <= g < all.len() ==> source_moved(m, #[trigger] all[g], worlds[g])
    &&& forall|g: int|
        0 <= g < all.len() ==> (#[trigger] all[g]).item.source == sources::all_sources()[g]
}

/// A move of one source.
pub open spec fn source_moved(m: MoveOf, s: SourceMove, files: Seq<Files>) -> bool {
    &&& entries_named(handled(s))
    &&& files.len() == handled(s).len() + 1
    &&& forall|i: int|
        0 <= i < handled(s).len() ==> carried_out(
            files[i],
            move_steps(m, s, #[trigger] handled(s)[i]),
            move_done(m, s, handled(s)[i]),
            files[i + 1],
        )
}

/// The entry is a file that the overwriting policy replaces: a file on both
/// sides, no manifest, and put into the backup without an error.
pub open spec fn overwritten(m: MoveOf, s: SourceMove, e: EntryRecord) -> bool {
    &&& m.policy == ConflictPolicy::BackupAndOverwrite
    &&& s.facts.target_exists
    &&& e.facts.target_exists
    &&& e.facts.source matches Some(source) && !source.is_dir
    &&& e.facts.target matches Some(target) && !target.is_dir
    &&& e.name matches Some(name) && !manifest::manifest_name(s.item.source, name@)
    &&& e.backup_error is None
}

/// The place of an entry in its source.
pub open spec fn source_place(legacy: Seq<char>, s: LegacySource, name: Seq<char>) -> Seq<char> {
    paths::joined(sources::source_path(s, legacy), name)
}

/// What was found of a source is what is there as its move begins: a file of
/// the source is among its entries, as a file, unless they could not be listed;
/// and a file that is in the place of an entry was seen there, as a file.
pub open spec fn found_truly(files: Files, m: MoveOf, s: SourceMove) -> bool {
    &&& forall|name: Seq<char>| #[trigger]
        entry_name(name) && files.dom().contains(source_place(m.legacy, s.item.source, name))
            ==> !run::nothing_to_move(s.item, s.facts) && (s.facts.entries matches Ok(entries)
            ==> exists|i: int|
            0 <= i < entries.len() && is_file_entry(#[trigger] entries@[i], name))
    &&& forall|i: int|
        0 <= i < handled(s).len() && (#[trigger] handled(s)[i]).name is Some && files.dom().contains(
            target_place(m.xlink, s.item.source, (handled(s)[i].name->0)@),
        ) ==> s.facts.target_exists && handled(s)[i].facts.target_exists && (
        handled(s)[i].facts.target matches Some(target) && !target.is_dir)
}

/// The record is that of a file of this name.
pub open spec fn is_file_entry(e: EntryRecord, name: Seq<char>) -> bool {
    (e.name matches Some(n) && n@ == name) && (e.facts.source matches Some(source)
        && !source.is_dir)
}

/// The move of a source could begin, and what had to go into the backup in
/// place of an entry of this name went there without an error.
pub open spec fn put_aside(m: MoveOf, s: SourceMove, name: Seq<char>) -> bool {
    &&& s.facts.create_error is None
    &&& s.facts.entries is Ok
    &&& forall|i: int|
        0 <= i < handled(s).len() && is_file_entry(#[trigger] handled(s)[i], name)
            && run::entry_action(s.item.source, name, handled(s)[i].facts, m.policy)
            == EntryAction::BackupThenCopy ==> handled(s)[i].backup_error is None
}

/// What is done for an entry touches a path in one of its places only.
proof fn lemma_move_touches(m: MoveOf, s: SourceMove, e: EntryRecord, i: int, path: Seq<char>)
    requires
        0 <= i < move_steps(m, s, e).len(),
        touches(move_steps(m, s, e)[i], path),
    ensures
        e.name is Some,
        within(path, target_place(m.xlink, s.item.source, (e.name->0)@)) || within(
            path,
            kept_place(m.xlink, m.root, s.item.source, (e.name->0)@),
        ),
{
}

/// The move of an entry leaves a path alone that lies in neither of its places.
proof fn lemma_entry_moved(m: MoveOf, s: SourceMove, files: Seq<Files>, i: int, path: Seq<char>)
    requires
        source_moved(m, s, files),
        0 <= i < handled(s).len(),
        handled(s)[i].name matches Some(name) ==> !within(
            path,
            target_place(m.xlink, s.item.source, name@),
        ) && !within(path, kept_place(m.xlink, m.root, s.item.source, name@)),
    ensures
        same_at(files[i], files[i + 1], path),
{
    let e = handled(s)[i];
    let steps = move_steps(m, s, e);
    assert forall|j: int| 0 <= j < steps.len() implies !touches(#[trigger] steps[j], path) by {
        if touches(steps[j], path) {
            lemma_move_touches(m, s, e, j, path);
        }
    }
    lemma_untouched(files[i], steps, move_done(m, s, e), files[i + 1], path);
}

// ------------------------------------------------------------------ rollbacks

/// The entries of a source's backup that something is done with: none where
/// there is no backup, or where it cannot begin.
pub open spec fn put_back(f: RestoreFacts) -> Seq<RestoreRecord> {
    if !f.found || f.create_error is Some {
        Seq::empty()
    } else {
        match f.entries {
            Ok(entries) => entries@,
            Err(_) => Seq::empty(),
        }
    }
}

/// What is done to files for an entry of a backup: nothing where it cannot be
/// looked at.
pub open spec fn back_steps(
    xlink: Seq<char>,
    root: Seq<char>,
    s: LegacySource,
    e: RestoreRecord,
) -> Seq<StepModel> {
    if e.meta_error is Some {
        Seq::empty()
    } else {
        restore_steps(
            sources::source_target(s, xlink),
            run::backup_dir(history::root_path(xlink, root), s),
            e.name@,
            e.is_dir,
            e.target_there,
        )
    }
}

/// How many of the steps for an entry of a backup worked, as its record tells.
pub open spec fn back_done(
    xlink: Seq<char>,
    root: Seq<char>,
    s: LegacySource,
    e: RestoreRecord,
) -> nat {
    if e.restore_error is None {
        back_steps(xlink, root, s, e).len()
    } else {
        0
    }
}

/// The entries of a backup are named as entries of a directory are, each name
/// once.
pub open spec fn records_named(entries: Seq<RestoreRecord>) -> bool {
    &&& forall|i: int| 0 <= i < entries.len() ==> entry_name((#[trigger] entries[i]).name@)
    &&& forall|i: int, j: int|
        0 <= i < j < entries.len() ==> (#[trigger] entries[i]).name@ != (
        #[trigger] entries[j]).name@
}

/// Putting one source's part of a backup back: `files` are those from before
/// its first entry to after its last.
pub open spec fn source_restored(
    xlink: Seq<char>,
    root: Seq<char>,
    s: LegacySource,
    f: RestoreFacts,
    files: Seq<Files>,
) -> bool {
    &&& records_named(put_back(f))
    &&& files.len() == put_back(f).len() + 1
    &&& forall|i: int|
        0 <= i < put_back(f).len() ==> carried_out(
            files[i],
            back_steps(xlink, root, s, #[trigger] put_back(f)[i]),
            back_done(xlink, root, s, put_back(f)[i]),
            files[i + 1],
        )
}

/// The source that the `g`th report on taking a move back is on.
pub open spec fn source_at(g: int) -> LegacySource {
    sources::all_sources()[g % 3]
}

/// What was found and done for the `g`th report on taking a move back.
pub open spec fn facts_at(facts: Seq<RollbackFacts>, g: int) -> RestoreFacts {
    history::restore_facts(facts[g / 3], source_at(g))
}

/// Taking a move back through its backups `roots`, the oldest first: `worlds`
/// are, for each backup and each source in it, the files from before its first
/// entry to after its last.
pub open spec fn taken_back(
    xlink: Seq<char>,
    roots: Seq<Seq<char>>,
    facts: Seq<RollbackFacts>,
    worlds: Seq<Seq<Files>>,
) -> bool {
    &&& forall|j: int| 0 <= j < roots.len() ==> entry_name(#[trigger] roots[j])
    &&& facts.len() == roots.len()
    &&& worlds.len() == 3 * roots.len()
    &&& chained(worlds)
    &&& forall|g: int|
        0 <= g < worlds.len() ==> source_restored(
            xlink,
            roots[g / 3],
            source_at(g),
            facts_at(facts, g),
            #[trigger] worlds[g],
        )
}

/// Some entry of a backup has this name.
pub open spec fn lists(f: RestoreFacts, name: Seq<char>) -> bool {
    exists|i: int| 0 <= i < put_back(f).len() && (#[trigger] put_back(f)[i]).name@ == name
}

/// A file of a backup was found, and where the backup could be listed it is
/// among the entries.
pub open spec fn noticed(
    files: Files,
    xlink: Seq<char>,
    root: Seq<char>,
    s: LegacySource,
    name: Seq<char>,
    f: RestoreFacts,
) -> bool {
    files.dom().contains(kept_place(xlink, root, s, name)) ==> f.found && (f.entries matches Ok(
        entries,
    ) ==> exists|i: int| 0 <= i < entries.len() && (#[trigger] entries@[i]).name@ == name)
}

/// Putting an entry back leaves a path alone that lies in neither of its
/// places.
proof fn lemma_entry_restored(
    xlink: Seq<char>,
    root: Seq<char>,
    s: LegacySource,
    f: RestoreFacts,
    files: Seq<Files>,
    i: int,
    path: Seq<char>,
)
    requires
        source_restored(xlink, root, s, f, files),
        0 <= i < put_back(f).len(),
        !within(path, target_place(xlink, s, put_back(f)[i].name@)),
        !within(path, kept_place(xlink, root, s, put_back(f)[i].name@)),
    ensures
        same_at(files[i], files[i + 1], path),
{
    let e = put_back(f)[i];
    let steps = back_steps(xlink, root, s, e);
    lemma_untouched(files[i], steps, back_done(xlink, root, s, e), files[i + 1], path);
}

// ----------------------------------------------------------------------- laws

/// A move leaves every file as it is that lies outside of the targets and the
/// backups, whatever works or fails, and wherever the old home lies: so it does
/// with every such file of a source.
pub proof fn law_a_move_leaves_the_sources_alone(
    m: MoveOf,
    all: Seq<SourceMove>,
    worlds: Seq<Seq<Files>>,
    path: Seq<char>,
)
    requires
        moved(m, all, worlds),
        outside(path, m.xlink),
    ensures
        same_at(worlds[0][0], worlds.last().last(), path),
{
    assert forall|g: int| 0 <= g < worlds.len() implies same_at(
        (#[trigger] worlds[g])[0],
        worlds[g].last(),
        path,
    ) by {
        let s = all[g];
        let files = worlds[g];
        assert(source_moved(m, s, files));
        assert forall|i: int| 0 <= i < handled(s).len() implies same_at(
            #[trigger] files[i],
            files[i + 1],
            path,
        ) by {
            let e = handled(s)[i];
            if let Some(name) = e.name {
                lemma_places(m.xlink, m.root, s.item.source, name@, path);
                assert(!within(path, sources::source_target(s.item.source, m.xlink)));
            }
            lemma_entry_moved(m, s, files, i, path);
        }
        lemma_along(files, path, 0, handled(s).len() as int);
    }
    lemma_along_all(worlds, path, 0, worlds.len() as int);
}

/// Every file of a source lies outside of what a move may change where the
/// source's directory lies apart from the targets and the backups, be the old
/// home inside the new one or not.
pub proof fn law_sources_lie_outside(
    legacy: Seq<char>,
    xlink: Seq<char>,
    source: LegacySource,
    path: Seq<char>,
)
    requires
        apart(sources::source_path(source, legacy), history::backups_dir(xlink)),
        forall|s: LegacySource|
            apart(
                sources::source_path(source, legacy),
                #[trigger] sources::source_target(s, xlink),
            ),
        within(path, sources::source_path(source, legacy)),
    ensures
        outside(path, xlink),
{
    let dir = sources::source_path(source, legacy);
    lemma_apart(path, dir, history::backups_dir(xlink));
    assert forall|s: LegacySource| !within(path, #[trigger] sources::source_target(s, xlink)) by {
        lemma_apart(path, dir, sources::source_target(s, xlink));
    }
}

/// Taking a move back leaves every file as it is that lies outside of the
/// targets and the backups, whatever works or fails: so it does with every such
/// file of a source.
pub proof fn law_a_rollback_leaves_the_sources_alone(
    xlink: Seq<char>,
    roots: Seq<Seq<char>>,
    facts: Seq<RollbackFacts>,
    worlds: Seq<Seq<Files>>,
    path: Seq<char>,
)
    requires
        taken_back(xlink, roots, facts, worlds),
        roots.len() > 0,
        outside(path, xlink),
    ensures
        same_at(worlds[0][0], worlds.last().last(), path),
{
    assert forall|g: int| 0 <= g < worlds.len() implies same_at(
        (#[trigger] worlds[g])[0],
        worlds[g].last(),
        path,
    ) by {
        let s = source_at(g);
        let f = facts_at(facts, g);
        let root = roots[g / 3];
        let files = worlds[g];
        assert forall|i: int| 0 <= i < put_back(f).len() implies same_at(
            #[trigger] files[i],
            files[i + 1],
            path,
        ) by {
            lemma_places(xlink, root, s, put_back(f)[i].name@, path);
            assert(!within(path, sources::source_target(s, xlink)));
            lemma_entry_restored(xlink, root, s, f, files, i, path);
        }
        lemma_along(files, path, 0, put_back(f).len() as int);
    }
    lemma_along_all(worlds, path, 0, worlds.len() as int);
}

/// A move puts a file that it overwrites into the backup, with the content that
/// it had before the move, whatever comes of the other entries.
pub proof fn law_a_move_keeps_what_it_overwrites(
    m: MoveOf,
    all: Seq<SourceMove>,
    worlds: Seq<Seq<Files>>,
    p: int,
    k: int,
)
    requires
        moved(m, all, worlds),
        0 <= p < all.len(),
        0 <= k < handled(all[p]).len(),
        overwritten(m, all[p], handled(all[p])[k]),
        worlds[0][0].dom().contains(
            target_place(m.xlink, all[p].item.source, (handled(all[p])[k].name->0)@),
        ),
    ensures
        ({
            let source = all[p].item.source;
            let name = (handled(all[p])[k].name->0)@;
            let here = target_place(m.xlink, source, name);
            let kept = kept_place(m.xlink, m.root, source, name);
            let after = worlds.last().last();
            after.dom().contains(kept) && after[kept] == worlds[0][0][here]
        }),
{
    let s = all[p];
    let source = s.item.source;
    let e = handled(s)[k];
    let name = (e.name->0)@;
    let here = target_place(m.xlink, source, name);
    let kept = kept_place(m.xlink, m.root, source, name);
    let files = worlds[p];
    let n = handled(s).len() as int;
    assert(source_moved(m, s, files));
    assert(entry_name(name));
    assert forall|g: int| 0 <= g < worlds.len() && g != p implies same_at(
        (#[trigger] worlds[g])[0],
        worlds[g].last(),
        here,
    ) && same_at(worlds[g][0], worlds[g].last(), kept) by {
        lemma_other_source(m, all, worlds, g, p, name);
    }
    assert forall|i: int| 0 <= i < n && i != k implies same_at(
        #[trigger] files[i],
        files[i + 1],
        here,
    ) && same_at(files[i], files[i + 1], kept) by {
        if let Some(other) = handled(s)[i].name {
            if i < k {
                assert((handled(s)[i].name->0)@ != (handled(s)[k].name->0)@);
            } else {
                assert((handled(s)[k].name->0)@ != (handled(s)[i].name->0)@);
            }
            lemma_other_entry(m.xlink, m.root, source, name, m.root, source, other@);
        }
        lemma_entry_moved(m, s, files, i, here);
        lemma_entry_moved(m, s, files, i, kept);
    }
    if p > 0 {
        lemma_along_all(worlds, here, 0, p);
        assert(worlds[p - 1].last() == worlds[p - 1 + 1][0]);
    }
    lemma_along(files, here, 0, k);
    assert(same_at(worlds[0][0], files[k], here));
    let steps = move_steps(m, s, e);
    let first = StepModel::Move { from: here, to: kept, tree: false };
    assert(steps.len() == 2 && steps[0] == first);
    let done = move_done(m, s, e);
    assert(carried_out(files[k], steps, done, files[k + 1]));
    let between = choose|between: Seq<Files>| #[trigger]
        follows(between, steps, done) && between[0] == files[k] && between.last() == files[k + 1];
    assert(worked(between[0], steps[0], between[1]));
    assert(between[1].dom().contains(kept) && between[1][kept] == files[k][here]);
    lemma_other_entry(m.xlink, m.root, source, name, m.root, source, name);
    assert(!touches(steps[1], kept));
    assert(between[1] == between[2] || leaves_rest(between[1], steps[1], between[2]));
    assert(same_at(between[1], files[k + 1], kept));
    lemma_along(files, kept, k + 1, n);
    assert(same_at(files[k + 1], worlds[p].last(), kept));
    if p + 1 < worlds.len() {
        lemma_along_all(worlds, kept, p + 1, worlds.len() as int);
        assert(worlds[p].last() == worlds[p + 1][0]);
    }
}

/// Two reports are on different backups, or on different sources of one.
proof fn lemma_groups(g: int, h: int)
    requires
        0 <= g < h,
    ensures
        g / 3 < h / 3 || g / 3 == h / 3 && source_at(g) != source_at(h),
        source_at(g) == source_at(h) ==> g / 3 < h / 3,
{
    if g / 3 == h / 3 {
        assert(g % 3 < h % 3);
    }
}

/// No other entry touches the copy in a backup before its turn comes.
proof fn lemma_kept_until(
    xlink: Seq<char>,
    roots: Seq<Seq<char>>,
    facts: Seq<RollbackFacts>,
    worlds: Seq<Seq<Files>>,
    p: int,
    k: int,
)
    requires
        taken_back(xlink, roots, facts, worlds),
        forall|i: int, j: int|
            0 <= i < j < roots.len() ==> (#[trigger] roots[i]) != (#[trigger] roots[j]),
        0 <= p < worlds.len(),
        0 <= k < put_back(facts_at(facts, p)).len(),
    ensures
        same_at(
            worlds[0][0],
            worlds[p][k],
            kept_place(xlink, roots[p / 3], source_at(p), put_back(facts_at(facts, p))[k].name@),
        ),
{
    let f = facts_at(facts, p);
    let root = roots[p / 3];
    let source = source_at(p);
    let name = put_back(f)[k].name@;
    let kept = kept_place(xlink, root, source, name);
    let files = worlds[p];
    assert(source_restored(xlink, root, source, f, files));
    assert forall|g: int| 0 <= g < p implies same_at(
        (#[trigger] worlds[g])[0],
        worlds[g].last(),
        kept,
    ) by {
        let other_root = roots[g / 3];
        let other = source_at(g);
        let o = facts_at(facts, g);
        let steps = worlds[g];
        lemma_groups(g, p);
        if g / 3 != p / 3 {
            assert(roots[g / 3] != roots[p / 3]);
        }
        assert forall|i: int| 0 <= i < put_back(o).len() implies same_at(
            #[trigger] steps[i],
            steps[i + 1],
            kept,
        ) by {
            let other_name = put_back(o)[i].name@;
            lemma_other_entry(xlink, root, source, name, other_root, other, other_name);
            lemma_entry_restored(xlink, other_root, other, o, steps, i, kept);
        }
        lemma_along(steps, kept, 0, put_back(o).len() as int);
    }
    assert forall|i: int| 0 <= i < k implies same_at(
        #[trigger] files[i],
        files[i + 1],
        kept,
    ) by {
        let other_name = put_back(f)[i].name@;
        assert(put_back(f)[i].name@ != put_back(f)[k].name@);
        lemma_other_entry(xlink, root, source, name, root, source, other_name);
        lemma_entry_restored(xlink, root, source, f, files, i, kept);
    }
    if p > 0 {
        lemma_along_all(worlds, kept, 0, p);
        assert(worlds[p - 1].last() == worlds[p - 1 + 1][0]);
    }
    lemma_along(files, kept, 0, k);
}

/// No other entry touches what was put back once its turn is over.
proof fn lemma_stays_back(
    xlink: Seq<char>,
    roots: Seq<Seq<char>>,
    facts: Seq<RollbackFacts>,
    worlds: Seq<Seq<Files>>,
    p: int,
    k: int,
)
    requires
        taken_back(xlink, roots, facts, worlds),
        0 <= p < worlds.len(),
        0 <= k < put_back(facts_at(facts, p)).len(),
        forall|g: int|
            p < g < worlds.len() && source_at(g) == source_at(p) ==> !lists(
                #[trigger] facts_at(facts, g),
                put_back(facts_at(facts, p))[k].name@,
            ),
    ensures
        same_at(
            worlds[p][k + 1],
            worlds.last().last(),
            target_place(xlink, source_at(p), put_back(facts_at(facts, p))[k].name@),
        ),
{
    let f = facts_at(facts, p);
    let root = roots[p / 3];
    let source = source_at(p);
    let name = put_back(f)[k].name@;
    let here = target_place(xlink, source, name);
    let files = worlds[p];
    let n = put_back(f).len() as int;
    assert(source_restored(xlink, root, source, f, files));
    assert forall|g: int| p < g < worlds.len() implies same_at(
        (#[trigger] worlds[g])[0],
        worlds[g].last(),
        here,
    ) by {
        let other_root = roots[g / 3];
        let other = source_at(g);
        let o = facts_at(facts, g);
        let steps = worlds[g];
        assert forall|i: int| 0 <= i < put_back(o).len() implies same_at(
            #[trigger] steps[i],
            steps[i + 1],
            here,
        ) by {
            let other_name = put_back(o)[i].name@;
            if other == source && other_name == name {
                assert(lists(o, name));
            }
            lemma_other_entry(xlink, root, source, name, other_root, other, other_name);
            lemma_entry_restored(xlink, other_root, other, o, steps, i, here);
        }
        lemma_along(steps, here, 0, put_back(o).len() as int);
    }
    assert forall|i: int| k < i < n implies same_at(#[trigger] files[i], files[i + 1], here) by {
        let other_name = put_back(f)[i].name@;
        assert(put_back(f)[k].name@ != put_back(f)[i].name@);
        lemma_other_entry(xlink, root, source, name, root, source, other_name);
        lemma_entry_restored(xlink, root, source, f, files, i, here);
    }
    lemma_along(files, here, k + 1, n);
    if p + 1 < worlds.len() {
        lemma_along_all(worlds, here, p + 1, worlds.len() as int);
        assert(worlds[p].last() == worlds[p + 1][0]);
    }
}

/// An entry of a backup that came back without an error has the content that it
/// had in the backup.
proof fn lemma_comes_back(
    xlink: Seq<char>,
    root: Seq<char>,
    s: LegacySource,
    e: RestoreRecord,
    before: Files,
    after: Files,
)
    requires
        entry_name(root),
        entry_name(e.name@),
        e.meta_error is None,
        e.restore_error is None,
        carried_out(
            before,
            back_steps(xlink, root, s, e),
            back_done(xlink, root, s, e),
            after,
        ),
        before.dom().contains(kept_place(xlink, root, s, e.name@)),
    ensures
        after.dom().contains(target_place(xlink, s, e.name@)),
        after[target_place(xlink, s, e.name@)] == before[kept_place(xlink, root, s, e.name@)],
{
    let here = target_place(xlink, s, e.name@);
    let kept = kept_place(xlink, root, s, e.name@);
    let steps = back_steps(xlink, root, s, e);
    let done = back_done(xlink, root, s, e);
    let last = steps.len() - 1;
    assert(steps[last] == StepModel::Move { from: kept, to: here, tree: e.is_dir });
    let between = choose|between: Seq<Files>| #[trigger]
        follows(between, steps, done) && between[0] == before && between.last() == after;
    lemma_other_entry(xlink, root, s, e.name@, root, s, e.name@);
    if last > 0 {
        assert(steps[0] == StepModel::Remove { path: here, tree: e.is_dir });
        assert(worked(between[0], steps[0], between[1]));
        assert(same_at(between[0], between[1], kept));
    }
    assert(worked(between[last], steps[last], between[last + 1]));
}

/// Taking a move back puts a file of a backup back into its place, with the
/// content that it has in the backup, whatever is in its place, whatever older
/// backups hold and whatever comes of the other entries. No later backup has an
/// entry of its name.
pub proof fn law_a_rollback_puts_files_back(
    xlink: Seq<char>,
    roots: Seq<Seq<char>>,
    facts: Seq<RollbackFacts>,
    worlds: Seq<Seq<Files>>,
    p: int,
    k: int,
)
    requires
        taken_back(xlink, roots, facts, worlds),
        forall|i: int, j: int|
            0 <= i < j < roots.len() ==> (#[trigger] roots[i]) != (#[trigger] roots[j]),
        0 <= p < worlds.len(),
        0 <= k < put_back(facts_at(facts, p)).len(),
        put_back(facts_at(facts, p))[k].meta_error is None,
        put_back(facts_at(facts, p))[k].restore_error is None,
        forall|g: int|
            p < g < worlds.len() && source_at(g) == source_at(p) ==> !lists(
                #[trigger] facts_at(facts, g),
                put_back(facts_at(facts, p))[k].name@,
            ),
        worlds[0][0].dom().contains(
            kept_place(
                xlink,
                roots[p / 3],
                source_at(p),
                put_back(facts_at(facts, p))[k].name@,
            ),
        ),
    ensures
        ({
            let name = put_back(facts_at(facts, p))[k].name@;
            let here = target_place(xlink, source_at(p), name);
            let kept = kept_place(xlink, roots[p / 3], source_at(p), name);
            let after = worlds.last().last();
            after.dom().contains(here) && after[here] == worlds[0][0][kept]
        }),
{
    let f = facts_at(facts, p);
    let root = roots[p / 3];
    let source = source_at(p);
    let e = put_back(f)[k];
    let files = worlds[p];
    assert(source_restored(xlink, root, source, f, files));
    lemma_kept_until(xlink, roots, facts, worlds, p, k);
    lemma_stays_back(xlink, roots, facts, worlds, p, k);
    lemma_comes_back(xlink, root, source, e, files[k], files[k + 1]);
}

/// Where there is something to move and the report on a source tells of no
/// error, every file that is overwritten went into the backup.
pub proof fn law_a_move_without_error_puts_files_aside(m: MoveOf, s: SourceMove, name: Seq<char>)
    requires
        !run::nothing_to_move(s.item, s.facts),
        run::item_report(s.item, m.policy, history::root_path(m.xlink, m.root), s.facts).error is None,
    ensures
        put_aside(m, s, name),
{
    assert forall|i: int|
        0 <= i < handled(s).len() && is_file_entry(#[trigger] handled(s)[i], name)
            && run::entry_action(s.item.source, name, handled(s)[i].facts, m.policy)
            == EntryAction::BackupThenCopy implies handled(s)[i].backup_error is None by {
        run::lemma_no_error(s.item.source, handled(s), m.policy, i);
    }
}

/// A file that is both in a source and in its target, and no manifest, has its
/// old content in the target again once a move under the overwriting policy is
/// taken back, whatever was done to it in between.
///
/// `before` are the files of the move, and `after` those of taking it back.
/// What was found in each was there; the file went into the backup without an
/// error, its copy stayed there until the move was taken back, and the source's
/// part of the backup came back without an error. No later backup of the move
/// has an entry of the file's name. Nothing else has to work.
///
/// The source is reported as put back, and sources without a backup as not
/// found. No file outside of the targets and the backups changes.
pub proof fn law_rollback_restores_what_was_overwritten(
    id: Seq<char>,
    taken: Seq<Seq<char>>,
    m: MoveOf,
    all: Seq<SourceMove>,
    before: Seq<Seq<Files>>,
    p: int,
    name: Seq<char>,
    names: Seq<Seq<char>>,
    roots: Seq<Seq<char>>,
    facts: Seq<RollbackFacts>,
    after: Seq<Seq<Files>>,
)
    requires
        m.policy == ConflictPolicy::BackupAndOverwrite,
        history::fresh_root(id, taken) == Some(m.root),
        moved(m, all, before),
        0 <= p < all.len(),
        entry_name(name),
        !manifest::manifest_name(all[p].item.source, name),
        found_truly(before[p][0], m, all[p]),
        before[p][0].dom().contains(source_place(m.legacy, all[p].item.source, name)),
        before[0][0].dom().contains(target_place(m.xlink, all[p].item.source, name)),
        put_aside(m, all[p], name),
        names.contains(m.root),
        history::lists_backups(id, names, roots),
        taken_back(m.xlink, roots, facts, after),
        same_at(
            before.last().last(),
            after[0][0],
            kept_place(m.xlink, m.root, all[p].item.source, name),
        ),
        ({
            let source = all[p].item.source;
            let j = roots.index_of(m.root);
            let f = history::restore_facts(facts[j], source);
            &&& noticed(after[0][0], m.xlink, m.root, source, name, f)
            &&& history::restore_outcome(f).2 is None
            &&& forall|i: int|
                j < i < roots.len() ==> !lists(
                    history::restore_facts(#[trigger] facts[i], source),
                    name,
                )
        }),
    ensures
        ({
            let source = all[p].item.source;
            let here = target_place(m.xlink, source, name);
            let items = history::all_items(m.xlink, roots, facts);
            let end = after.last().last();
            &&& end.dom().contains(here) && end[here] == before[0][0][here]
            &&& roots.contains(m.root)
            &&& items.len() == 3 * roots.len()
            &&& ({
                let item = items[3 * roots.index_of(m.root) + p];
                item.source == source && item.status == history::RollbackStatus::Restored
                    && item.error is None && item.restored > 0
            })
            &&& forall|g: int|
                0 <= g < items.len() && !(#[trigger] facts_at(facts, g)).found ==> items[g].status
                    == history::RollbackStatus::NotFound && items[g].restored == 0
                    && items[g].error is None
            &&& forall|path: Seq<char>| #[trigger]
                outside(path, m.xlink) ==> same_at(before[0][0], before.last().last(), path)
                    && same_at(after[0][0], end, path)
        }),
{
    let s = all[p];
    let source = s.item.source;
    let kept = kept_place(m.xlink, m.root, source, name);
    // The file is an entry that is overwritten.
    let k = lemma_entry_of(m, all, before, p, name);
    law_a_move_keeps_what_it_overwrites(m, all, before, p, k);
    assert(after[0][0].dom().contains(kept));
    // The backup of the move is among those that are gone through.
    history::lemma_fresh_root_is_a_backup(id, taken);
    let at = names.index_of(m.root);
    assert(names[at] == m.root);
    assert(roots.contains(m.root));
    let j = roots.index_of(m.root);
    assert(roots[j] == m.root);
    assert forall|a: int, b: int| 0 <= a < b < roots.len() implies (#[trigger] roots[a]) != (
    #[trigger] roots[b]) by {
        assert(history::backup_index(id, roots[a])->0 < history::backup_index(id, roots[b])->0);
    }
    let g = 3 * j + p;
    assert(all[p].item.source == sources::all_sources()[p]);
    assert(g / 3 == j && g % 3 == p);
    let f = history::restore_facts(facts[j], source);
    assert(facts_at(facts, g) == f);
    assert(f.found);
    let entries = f.entries->Ok_0;
    let i = choose|i: int| 0 <= i < entries.len() && (#[trigger] entries@[i]).name@ == name;
    history::lemma_all_restored(entries@, i);
    assert(put_back(f) == entries@);
    assert forall|h: int|
        g < h < after.len() && source_at(h) == source_at(g) implies !lists(
        #[trigger] facts_at(facts, h),
        name,
    ) by {
        lemma_groups(g, h);
        assert(facts_at(facts, h) == history::restore_facts(facts[h / 3], source));
    }
    law_a_rollback_puts_files_back(m.xlink, roots, facts, after, g, i);
    // The reports.
    let items = history::all_items(m.xlink, roots, facts);
    history::law_reports_stand_in_order(m.xlink, roots, facts);
    history::law_restored_means_complete(f);
    assert(items[g] == history::rollback_item(
        source,
        history::root_path(m.xlink, roots[j]),
        m.xlink,
        f,
    ));
    assert forall|h: int|
        0 <= h < items.len() && !(#[trigger] facts_at(facts, h)).found implies items[h].status
        == history::RollbackStatus::NotFound && items[h].restored == 0 && items[h].error is None by {
        assert(items[h] == history::rollback_item(
            source_at(h),
            history::root_path(m.xlink, roots[h / 3]),
            m.xlink,
            facts_at(facts, h),
        ));
    }
    assert forall|path: Seq<char>| #[trigger] outside(path, m.xlink) implies same_at(
        before[0][0],
        before.last().last(),
        path,
    ) && same_at(after[0][0], after.last().last(), path) by {
        law_a_move_leaves_the_sources_alone(m, all, before, path);
        law_a_rollback_leaves_the_sources_alone(m.xlink, roots, facts, after, path);
    }
}

/// A file that is both in a source and in its target is an entry that the
/// overwriting policy replaces.
proof fn lemma_entry_of(
    m: MoveOf,
    all: Seq<SourceMove>,
    worlds: Seq<Seq<Files>>,
    p: int,
    name: Seq<char>,
) -> (k: int)
    requires
        m.policy == ConflictPolicy::BackupAndOverwrite,
        moved(m, all, worlds),
        0 <= p < all.len(),
        entry_name(name),
        !manifest::manifest_name(all[p].item.source, name),
        found_truly(worlds[p][0], m, all[p]),
        worlds[p][0].dom().contains(source_place(m.legacy, all[p].item.source, name)),
        worlds[0][0].dom().contains(target_place(m.xlink, all[p].item.source, name)),
        put_aside(m, all[p], name),
    ensures
        0 <= k < handled(all[p]).len(),
        handled(all[p])[k].name matches Some(n) && n@ == name,
        overwritten(m, all[p], handled(all[p])[k]),
{
    let s = all[p];
    let here = target_place(m.xlink, s.item.source, name);
    assert forall|g: int| 0 <= g < p implies same_at(
        (#[trigger] worlds[g])[0],
        worlds[g].last(),
        here,
    ) by {
        lemma_other_source(m, all, worlds, g, p, name);
    }
    if p > 0 {
        lemma_along_all(worlds, here, 0, p);
        assert(worlds[p - 1].last() == worlds[p - 1 + 1][0]);
    }
    assert(worlds[p][0].dom().contains(here));
    let entries = s.facts.entries->Ok_0;
    let k = choose|i: int| 0 <= i < entries.len() && is_file_entry(#[trigger] entries@[i], name);
    assert(handled(s) == entries@);
    assert(is_file_entry(handled(s)[k], name));
    k
}

/// The move of a source leaves the places of another's entries alone.
proof fn lemma_other_source(
    m: MoveOf,
    all: Seq<SourceMove>,
    worlds: Seq<Seq<Files>>,
    g: int,
    p: int,
    name: Seq<char>,
)
    requires
        moved(m, all, worlds),
        0 <= g < all.len(),
        0 <= p < all.len(),
        g != p,
        entry_name(name),
    ensures
        same_at(
            worlds[g][0],
            worlds[g].last(),
            target_place(m.xlink, all[p].item.source, name),
        ),
        same_at(
            worlds[g][0],
            worlds[g].last(),
            kept_place(m.xlink, m.root, all[p].item.source, name),
        ),
{
    let source = all[p].item.source;
    let here = target_place(m.xlink, source, name);
    let kept = kept_place(m.xlink, m.root, source, name);
    let o = all[g];
    let steps = worlds[g];
    assert(source_moved(m, o, steps));
    assert(o.item.source != source) by {
        assert(all[g].item.source == sources::all_sources()[g]);
        assert(all[p].item.source == sources::all_sources()[p]);
    }
    assert forall|i: int| 0 <= i < handled(o).len() implies same_at(
        #[trigger] steps[i],
        steps[i + 1],
        here,
    ) && same_at(steps[i], steps[i + 1], kept) by {
        if let Some(other) = handled(o)[i].name {
            lemma_other_entry(m.xlink, m.root, source, name, m.root, o.item.source, other@);
        }
        lemma_entry_moved(m, o, steps, i, here);
        lemma_entry_moved(m, o, steps, i, kept);
    }
    lemma_along(steps, here, 0, handled(o).len() as int);
    lemma_along(steps, kept, 0, handled(o).len() as int);
}

/// A file that is copied in a move has the content of the source in the target
/// when the move is over. It lies outside of what the move may change.
pub proof fn law_a_move_brings_files_over(
    m: MoveOf,
    all: Seq<SourceMove>,
    worlds: Seq<Seq<Files>>,
    p: int,
    k: int,
)
    requires
        moved(m, all, worlds),
        0 <= p < all.len(),
        0 <= k < handled(all[p]).len(),
        handled(all[p])[k].name is Some,
        ({
            let e = handled(all[p])[k];
            let action = run::entry_action(all[p].item.source, (e.name->0)@, e.facts, m.policy);
            e.copy_error is None && (action == EntryAction::Copy || action
                == EntryAction::BackupThenCopy && e.backup_error is None)
        }),
        outside(
            source_place(m.legacy, all[p].item.source, (handled(all[p])[k].name->0)@),
            m.xlink,
        ),
        worlds[0][0].dom().contains(
            source_place(m.legacy, all[p].item.source, (handled(all[p])[k].name->0)@),
        ),
    ensures
        ({
            let source = all[p].item.source;
            let name = (handled(all[p])[k].name->0)@;
            let here = target_place(m.xlink, source, name);
            let there = source_place(m.legacy, source, name);
            let after = worlds.last().last();
            after.dom().contains(here) && after[here] == worlds[0][0][there]
        }),
{
    let s = all[p];
    let source = s.item.source;
    let e = handled(s)[k];
    let name = (e.name->0)@;
    let here = target_place(m.xlink, source, name);
    let there = source_place(m.legacy, source, name);
    let kept = kept_place(m.xlink, m.root, source, name);
    let files = worlds[p];
    let n = handled(s).len() as int;
    assert(source_moved(m, s, files));
    assert(entry_name(name));
    lemma_unchanged_until(m, all, worlds, p, k, there);
    let steps = move_steps(m, s, e);
    let done = move_done(m, s, e);
    assert(carried_out(files[k], steps, done, files[k + 1]));
    let between = choose|between: Seq<Files>| #[trigger]
        follows(between, steps, done) && between[0] == files[k] && between.last() == files[k + 1];
    lemma_places(m.xlink, m.root, source, name, there);
    assert(!within(there, sources::source_target(source, m.xlink)));
    let last = steps.len() - 1;
    assert(steps[last] == StepModel::Copy { from: there, to: here });
    if last > 0 {
        assert(worked(between[0], steps[0], between[1]));
        assert(!touches(steps[0], there));
        assert(same_at(between[0], between[1], there));
    }
    assert(worked(between[last], steps[last], between[last + 1]));
    assert(files[k + 1].dom().contains(here) && files[k + 1][here] == worlds[0][0][there]);
    assert forall|i: int| k < i < n implies same_at(#[trigger] files[i], files[i + 1], here) by {
        if let Some(other) = handled(s)[i].name {
            assert((handled(s)[k].name->0)@ != (handled(s)[i].name->0)@);
            lemma_other_entry(m.xlink, m.root, source, name, m.root, source, other@);
        }
        lemma_entry_moved(m, s, files, i, here);
    }
    lemma_along(files, here, k + 1, n);
    assert forall|g: int| p < g < worlds.len() implies same_at(
        (#[trigger] worlds[g])[0],
        worlds[g].last(),
        here,
    ) by {
        lemma_other_source(m, all, worlds, g, p, name);
    }
    if p + 1 < worlds.len() {
        lemma_along_all(worlds, here, p + 1, worlds.len() as int);
        assert(worlds[p].last() == worlds[p + 1][0]);
    }
}

/// A file outside of what a move may change is as it was when an entry's turn
/// comes.
proof fn lemma_unchanged_until(
    m: MoveOf,
    all: Seq<SourceMove>,
    worlds: Seq<Seq<Files>>,
    p: int,
    k: int,
    path: Seq<char>,
)
    requires
        moved(m, all, worlds),
        0 <= p < all.len(),
        0 <= k < handled(all[p]).len(),
        outside(path, m.xlink),
    ensures
        same_at(worlds[0][0], worlds[p][k], path),
{
    assert forall|g: int, i: int|
        #![trigger worlds[g][i]]
        0 <= g <= p && 0 <= i < handled(all[g]).len() implies same_at(
        worlds[g][i],
        worlds[g][i + 1],
        path,
    ) by {
        let s = all[g];
        assert(source_moved(m, s, worlds[g]));
        if let Some(name) = handled(s)[i].name {
            lemma_places(m.xlink, m.root, s.item.source, name@, path);
            assert(!within(path, sources::source_target(s.item.source, m.xlink)));
        }
        lemma_entry_moved(m, s, worlds[g], i, path);
    }
    assert forall|g: int| 0 <= g < p implies same_at(
        (#[trigger] worlds[g])[0],
        worlds[g].last(),
        path,
    ) by {
        assert(source_moved(m, all[g], worlds[g]));
        lemma_along(worlds[g], path, 0, handled(all[g]).len() as int);
    }
    if p > 0 {
        lemma_along_all(worlds, path, 0, p);
        assert(worlds[p - 1].last() == worlds[p - 1 + 1][0]);
    }
    assert(source_moved(m, all[p], worlds[p]));
    lemma_along(worlds[p], path, 0, k);
}

/// A move leaves a file of a target as it is where nothing of its name is in
/// the source, or where that entry is skipped.
pub proof fn law_a_move_leaves_other_files_of_targets(
    m: MoveOf,
    all: Seq<SourceMove>,
    worlds: Seq<Seq<Files>>,
    p: int,
    name: Seq<char>,
)
    requires
        moved(m, all, worlds),
        0 <= p < all.len(),
        entry_name(name),
        forall|i: int|
            0 <= i < handled(all[p]).len() && (#[trigger] handled(all[p])[i]).name is Some && (
            handled(all[p])[i].name->0)@ == name ==> run::entry_action(
                all[p].item.source,
                name,
                handled(all[p])[i].facts,
                m.policy,
            ) == EntryAction::Skip,
    ensures
        same_at(
            worlds[0][0],
            worlds.last().last(),
            target_place(m.xlink, all[p].item.source, name),
        ),
{
    let s = all[p];
    let source = s.item.source;
    let here = target_place(m.xlink, source, name);
    let files = worlds[p];
    assert(source_moved(m, s, files));
    assert forall|i: int| 0 <= i < handled(s).len() implies same_at(
        #[trigger] files[i],
        files[i + 1],
        here,
    ) by {
        let e = handled(s)[i];
        if e.name is Some && (e.name->0)@ == name {
            let steps = move_steps(m, s, e);
            assert(steps.len() == 0);
            lemma_untouched(files[i], steps, move_done(m, s, e), files[i + 1], here);
        } else {
            if let Some(other) = e.name {
                lemma_other_entry(m.xlink, m.root, source, name, m.root, source, other@);
            }
            lemma_entry_moved(m, s, files, i, here);
        }
    }
    lemma_along(files, here, 0, handled(s).len() as int);
    assert forall|g: int| 0 <= g < worlds.len() implies same_at(
        (#[trigger] worlds[g])[0],
        worlds[g].last(),
        here,
    ) by {
        if g != p {
            lemma_other_source(m, all, worlds, g, p, name);
        }
    }
    lemma_along_all(worlds, here, 0, worlds.len() as int);
}

/// What is done for an entry is done between its place in the source and its
/// place in the target: a copy goes from the one to the other, a manifest is
/// merged from the one into the other, and a skipped entry is left alone.
pub proof fn law_steps_go_from_source_to_target(
    from_dir: Seq<char>,
    to_dir: Seq<char>,
    backup_dir: Seq<char>,
    name: Seq<char>,
    action: EntryAction,
    target_existed: bool,
)
    ensures
        ({
            let from = paths::joined(from_dir, name);
            let to = paths::joined(to_dir, name);
            let steps = entry_steps(from_dir, to_dir, backup_dir, name, action, target_existed);
            &&& action == EntryAction::Skip ==> steps.len() == 0
            &&& action == EntryAction::Copy ==> steps.len() == 1 && steps[0] == (StepModel::Copy {
                from,
                to,
            })
            &&& action == EntryAction::MergeManifest ==> steps.len() == 1 && steps[0] == (
            StepModel::Merge { from, to })
            &&& action == EntryAction::BackupThenCopy ==> steps.len() == 2 && steps[1] == (
            StepModel::Copy { from, to }) && (target_existed ==> steps[0] == (StepModel::Move {
                from: to,
                to: paths::joined(backup_dir, name),
                tree: false,
            }))
        }),
{
}

/// An entry of a backup is moved into its place, and what is there is removed
/// first, as what the entry is: a tree, or a file. Nothing is removed where
/// nothing is there.
pub proof fn law_entries_take_the_place_of_what_is_there(
    target_dir: Seq<char>,
    backup_dir: Seq<char>,
    name: Seq<char>,
    is_dir: bool,
    target_there: bool,
)
    ensures
        ({
            let steps = restore_steps(target_dir, backup_dir, name, is_dir, target_there);
            let to = paths::joined(target_dir, name);
            &&& steps.last() == (StepModel::Move {
                from: paths::joined(backup_dir, name),
                to,
                tree: is_dir,
            })
            &&& target_there ==> steps.len() == 2 && steps[0] == (StepModel::Remove {
                path: to,
                tree: is_dir,
            })
            &&& !target_there ==> steps.len() == 1
        }),
{
}

} // verus!
