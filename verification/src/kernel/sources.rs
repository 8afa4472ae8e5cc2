//! The frontend's scripts: where they lie in an install, and the source maps
//! that they name but that the package does not ship.

use crate::paths;
use crate::paths::{PartModel, PathPart};
use crate::text;
use vstd::prelude::*;

verus! {

/// The source map that is put in place of a missing one: it ends the request
/// of the inspector and maps nothing.
pub const EMPTY_SOURCE_MAP: &'static str = "{\"version\":3,\"sources\":[],\"names\":[],\"mappings\":\"\"}";

// ---------------------------------------------------------------------- dist

/// `version` without a leading `v`.
pub open spec fn bare_version(version: Seq<char>) -> Seq<char> {
    if version.len() > 0 && version[0] == 'v' {
        version.drop_first()
    } else {
        version
    }
}

/// The directory of node modules under `root`.
pub open spec fn modules_dir(root: Seq<char>) -> Seq<char> {
    paths::joined(root, "node_modules"@)
}

/// The frontend's directory where packages lie flat.
pub open spec fn flat_dist(root: Seq<char>) -> Seq<char> {
    paths::joined(
        paths::joined(paths::joined(modules_dir(root), "@deepseek-ai"@), "dsh-web-frontend"@),
        "dist"@,
    )
}

/// The frontend's directory under an entry of the package manager's store.
pub open spec fn stored_dist(root: Seq<char>, entry: Seq<char>) -> Seq<char> {
    flat_dist(paths::joined(paths::joined(modules_dir(root), ".pnpm"@), entry))
}

/// An entry of the package manager's store.
#[derive(Debug)]
pub struct StoreEntry {
    pub name: String,
    /// Whether the frontend's directory is under it.
    pub has_dist: bool,
}

/// The entry holds the frontend of the wanted version.
pub open spec fn holds_frontend(e: StoreEntry, version: Seq<char>) -> bool {
    e.has_dist && text::begins(e.name@, "@deepseek-ai+dsh-web-frontend@"@ + bare_version(version))
}

/// The first entry, from index `k` on, that holds the frontend.
pub open spec fn frontend_from(entries: Seq<StoreEntry>, version: Seq<char>, k: int) -> Option<int>
    decreases entries.len() - k,
{
    if k < 0 || k >= entries.len() {
        None
    } else if holds_frontend(entries[k], version) {
        Some(k)
    } else {
        frontend_from(entries, version, k + 1)
    }
}

fn bare(version: &str) -> (r: String)
    ensures
        r@ == bare_version(version@),
{
    let vc = text::chars_of(version);
    if vc.len() > 0 && vc[0] == 'v' {
        let out = text::string_of(&vc, 1, vc.len());
        proof {
            assert(out@ =~= version@.drop_first());
        }
        out
    } else {
        text::owned(version)
    }
}

fn flat_dist_of(root: &str) -> (r: String)
    ensures
        r@ == flat_dist(root@),
{
    let modules = paths::join(root, "node_modules");
    let scope = paths::join(modules.as_str(), "@deepseek-ai");
    let package = paths::join(scope.as_str(), "dsh-web-frontend");
    paths::join(package.as_str(), "dist")
}

/// The frontend's directory of an installed kernel: where packages lie flat,
/// or else under the first entry of the package manager's store that is named
/// for the version.
pub fn frontend_dist_dir(
    kernel_root: &str,
    version: &str,
    flat_is_dir: bool,
    entries: &Vec<StoreEntry>,
) -> (r: Option<String>)
    ensures
        text::opt_text(r) == (if flat_is_dir {
            Some(flat_dist(kernel_root@))
        } else {
            match frontend_from(entries@, version@, 0) {
                Some(k) => Some(stored_dist(kernel_root@, entries@[k].name@)),
                None => None,
            }
        }),
{
    if flat_is_dir {
        return Some(flat_dist_of(kernel_root));
    }
    let prefix = text::cat2("@deepseek-ai+dsh-web-frontend@", bare(version).as_str());
    let mut i: usize = 0;
    while i < entries.len()
        invariant
            i <= entries.len(),
            !flat_is_dir,
            prefix@ == "@deepseek-ai+dsh-web-frontend@"@ + bare_version(version@),
            frontend_from(entries@, version@, 0) == frontend_from(entries@, version@, i as int),
        decreases entries.len() - i,
    {
        let name = entries[i].name.as_str();
        if text::starts_with(name, prefix.as_str()) && entries[i].has_dist {
            let store = paths::join(
                paths::join(kernel_root, "node_modules").as_str(),
                ".pnpm",
            );
            let root = paths::join(store.as_str(), name);
            return Some(flat_dist_of(root.as_str()));
        }
        i = i + 1;
    }
    None
}

/// A file whose name has a script's extension.
pub open spec fn script_name(name: Seq<char>) -> bool {
    paths::extension_of(name) == Some("js"@) || paths::extension_of(name) == Some("mjs"@) || paths::extension_of(name)
        == Some("cjs"@)
}

/// Whether a file is a script, by its name.
pub fn is_javascript(name: &str) -> (r: bool)
    ensures
        r == script_name(name@),
{
    match paths::extension(name) {
        Some(e) => text::same(e.as_str(), "js") || text::same(e.as_str(), "mjs") || text::same(
            e.as_str(),
            "cjs",
        ),
        None => false,
    }
}

// ---------------------------------------------------------------- references

/// `s` up to its first question mark or hash sign.
pub open spec fn before_query(s: Seq<char>) -> Seq<char>
    decreases s.len(),
{
    if s.len() == 0 || s[0] == '?' || s[0] == '#' {
        Seq::empty()
    } else {
        seq![s[0]] + before_query(s.drop_first())
    }
}

/// The source map that a line names, if it names a file.
pub open spec fn line_reference(line: Seq<char>) -> Option<Seq<char>> {
    match text::first_from(line, "sourceMappingURL="@, 0) {
        None => None,
        Some(i) => {
            let value = text::trim_text(line.skip(i + "sourceMappingURL="@.len()));
            let plain = if text::ends(value, "*/"@) {
                text::trim_text(value.take(value.len() - "*/"@.len()))
            } else {
                value
            };
            let file = before_query(plain);
            if text::ends(file, ".map"@) && !text::begins(file, "data:"@) {
                Some(file)
            } else {
                None
            }
        },
    }
}

/// The reference of the last line before `end` that has one.
pub open spec fn reference_before(lines: Seq<Seq<char>>, end: int) -> Option<Seq<char>>
    decreases end,
{
    if end <= 0 || end > lines.len() {
        None
    } else {
        match line_reference(lines[end - 1]) {
            Some(r) => Some(r),
            None => reference_before(lines, end - 1),
        }
    }
}

/// The source map that a script names.
pub open spec fn reference_in(source: Seq<char>) -> Option<Seq<char>> {
    reference_before(text::lines_text(source), text::lines_text(source).len() as int)
}

proof fn lemma_before_query_is(s: Seq<char>, i: int)
    requires
        0 <= i <= s.len(),
        i < s.len() ==> s[i] == '?' || s[i] == '#',
        forall|j: int| 0 <= j < i ==> s[j] != '?' && s[j] != '#',
    ensures
        before_query(s) == s.take(i),
    decreases s.len(),
{
    if i == 0 {
        assert(s.take(0) =~= Seq::<char>::empty());
    } else {
        let t = s.drop_first();
        assert forall|j: int| 0 <= j < i - 1 implies t[j] != '?' && t[j] != '#' by {
            assert(t[j] == s[j + 1]);
        }
        lemma_before_query_is(t, i - 1);
        assert(seq![s[0]] + t.take(i - 1) =~= s.take(i));
    }
}

fn cut_query(s: &str) -> (r: String)
    ensures
        r@ == before_query(s@),
{
    let sc = text::chars_of(s);
    let mut i: usize = 0;
    while i < sc.len() && sc[i] != '?' && sc[i] != '#'
        invariant
            i <= sc.len(),
            forall|j: int| 0 <= j < i ==> sc@[j] != '?' && sc@[j] != '#',
        decreases sc.len() - i,
    {
        i = i + 1;
    }
    let out = text::string_of(&sc, 0, i);
    proof {
        lemma_before_query_is(s@, i as int);
        assert(out@ =~= s@.take(i as int));
    }
    out
}

fn reference_of_line(line: &str) -> (r: Option<String>)
    ensures
        text::opt_text(r) == line_reference(line@),
{
    let lc = text::chars_of(line);
    let mark = text::chars_of("sourceMappingURL=");
    let start: usize = match text::find_from(&lc, &mark, 0) {
        Some(i) => i + mark.len(),
        None => {
            return None;
        },
    };
    let raw = text::string_of(&lc, start, lc.len());
    proof {
        assert(raw@ =~= line@.skip(start as int));
    }
    let value = text::trim(raw.as_str());
    let plain = if text::ends_with(value.as_str(), "*/") {
        let vc = text::chars_of(value.as_str());
        let close = text::chars_of("*/");
        let body = text::string_of(&vc, 0, vc.len() - close.len());
        proof {
            assert(body@ =~= value@.take(value@.len() - "*/"@.len()));
        }
        text::trim(body.as_str())
    } else {
        value
    };
    let file = cut_query(plain.as_str());
    if text::ends_with(file.as_str(), ".map") && !text::starts_with(file.as_str(), "data:") {
        Some(file)
    } else {
        None
    }
}

/// The source map that a script names: by the last line with a directive that
/// names a `.map` file. An inline map counts for nothing.
pub fn source_map_reference(source: &str) -> (r: Option<String>)
    ensures
        text::opt_text(r) == reference_in(source@),
{
    let all = text::lines(source);
    let mut i: usize = all.len();
    while i > 0
        invariant
            i <= all.len(),
            text::texts(all@) == text::lines_text(source@),
            reference_in(source@) == reference_before(text::lines_text(source@), i as int),
        decreases i,
    {
        proof {
            assert(text::texts(all@)[i - 1] == all@[i - 1]@);
        }
        match reference_of_line(all[i - 1].as_str()) {
            Some(r) => {
                return Some(r);
            },
            None => {},
        }
        i = i - 1;
    }
    None
}

// -------------------------------------------------------------------- target

/// The path after one more part of a reference; none where it leaves the root
/// or the reference is rooted.
pub open spec fn walk_part(path: Seq<PartModel>, p: PartModel) -> Option<Seq<PartModel>> {
    match p {
        PartModel::Current => Some(path),
        PartModel::Normal(_) => Some(path.push(p)),
        PartModel::Parent => if path.len() > 0 && !(path.last() is Root) {
            Some(path.drop_last())
        } else {
            None
        },
        PartModel::Root => None,
    }
}

/// The path after the parts of a reference.
pub open spec fn walk(from: Seq<PartModel>, parts: Seq<PartModel>) -> Option<Seq<PartModel>>
    decreases parts.len(),
{
    if parts.len() == 0 {
        Some(from)
    } else {
        match walk(from, parts.drop_last()) {
            Some(path) => walk_part(path, parts.last()),
            None => None,
        }
    }
}

/// Where the source map of a script lies, if that is inside `root`. On Windows
/// a backslash parts the reference too, and a drive leads outside.
pub open spec fn map_target(
    script: Seq<char>,
    reference: Seq<char>,
    root: Seq<char>,
    windows: bool,
) -> Option<Seq<PartModel>> {
    let sp = paths::path_parts(script);
    if reference.len() == 0 || text::has(reference, "://"@) || (windows && paths::names_drive(
        reference,
    )) || sp.len() == 0 || sp.last() is Root {
        None
    } else {
        match walk(sp.drop_last(), paths::path_parts(paths::on_platform(reference, windows))) {
            Some(path) => if paths::path_parts(root).is_prefix_of(path) && path != paths::path_parts(root) {
                Some(path)
            } else {
                None
            },
            None => None,
        }
    }
}

/// Where the source map that a script names lies. Only a relative reference
/// that stays inside `root` gives a path.
pub fn source_map_path(script: &str, reference: &str, root: &str, windows: bool) -> (r: Option<
    String,
>)
    ensures
        text::opt_text(r) == (match map_target(script@, reference@, root@, windows) {
            Some(path) => Some(paths::rendered(path)),
            None => None,
        }),
{
    if reference.is_empty() || text::contains(reference, "://") || (windows && paths::has_drive(
        reference,
    )) {
        return None;
    }
    let mut path = paths::components(script);
    let ghost sp = paths::path_parts(script@);
    proof {
        assert(paths::parts_of(path@).len() == path@.len());
    }
    if path.len() == 0 {
        return None;
    }
    let at_root = match &path[path.len() - 1] {
        PathPart::Root => true,
        _ => false,
    };
    proof {
        assert(sp.last() == path@[path@.len() - 1]@);
    }
    if at_root {
        return None;
    }
    path.pop();
    let plain = paths::for_platform(reference, windows);
    let parts = paths::components(plain.as_str());
    let ghost from = sp.drop_last();
    let ghost all = paths::path_parts(paths::on_platform(reference@, windows));
    let mut i: usize = 0;
    proof {
        assert(paths::parts_of(path@) =~= from);
        assert(all.take(0) =~= Seq::<PartModel>::empty());
    }
    while i < parts.len()
        invariant
            i <= parts.len(),
            paths::parts_of(parts@) == all,
            all == paths::path_parts(paths::on_platform(reference@, windows)),
            !(windows && paths::names_drive(reference@)),
            sp == paths::path_parts(script@),
            sp.len() > 0,
            !(sp.last() is Root),
            reference@.len() > 0,
            !text::has(reference@, "://"@),
            from == sp.drop_last(),
            walk(from, all.take(i as int)) == Some(paths::parts_of(path@)),
        decreases parts.len() - i,
    {
        let ghost before = paths::parts_of(path@);
        proof {
            let next = all.take(i + 1);
            assert(next.drop_last() =~= all.take(i as int));
            assert(next.last() == parts@[i as int]@);
            assert(paths::parts_of(path@).len() == path@.len());
            lemma_walk_fails(from, all, i + 1);
        }
        match &parts[i] {
            PathPart::Root => {
                return None;
            },
            PathPart::Current => {},
            PathPart::Parent => {
                if path.len() == 0 {
                    return None;
                }
                let stuck = match &path[path.len() - 1] {
                    PathPart::Root => true,
                    _ => false,
                };
                proof {
                    assert(before.last() == path@[path@.len() - 1]@);
                }
                if stuck {
                    return None;
                }
                path.pop();
                proof {
                    assert(paths::parts_of(path@) =~= before.drop_last());
                }
            },
            PathPart::Normal(s) => {
                let p = PathPart::Normal(s.clone());
                proof {
                    assert(paths::parts_of(path@.push(p)) =~= before.push(p@));
                }
                path.push(p);
            },
        }
        i = i + 1;
    }
    proof {
        assert(all.take(all.len() as int) =~= all);
        assert(paths::parts_of(path@).len() == path@.len());
    }
    let top = paths::components(root);
    proof {
        assert(paths::parts_of(top@).len() == top@.len());
        if paths::path_parts(root@).is_prefix_of(paths::parts_of(path@)) && path@.len() == top@.len() {
            assert(paths::parts_of(path@).subrange(0, top@.len() as int) =~= paths::parts_of(path@));
        }
    }
    if paths::has_prefix(&path, &top) && path.len() != top.len() {
        Some(paths::render(&path))
    } else {
        None
    }
}

/// A walk that fails early fails.
proof fn lemma_walk_fails(from: Seq<PartModel>, parts: Seq<PartModel>, i: int)
    requires
        0 <= i <= parts.len(),
    ensures
        walk(from, parts.take(i)) is None ==> walk(from, parts) is None,
    decreases parts.len() - i,
{
    if i < parts.len() {
        lemma_walk_fails(from, parts, i + 1);
        let next = parts.take(i + 1);
        assert(next.drop_last() =~= parts.take(i));
    } else {
        assert(parts.take(i) =~= parts);
    }
}

/// No part of the path goes up.
pub open spec fn goes_down(path: Seq<PartModel>) -> bool {
    forall|k: int| 0 <= k < path.len() ==> !((#[trigger] path[k]) is Parent)
}

/// The target of a script's source map lies under the root, below it, and
/// climbs nowhere where the script's own path does not.
pub proof fn law_source_maps_stay_inside(
    script: Seq<char>,
    reference: Seq<char>,
    root: Seq<char>,
    windows: bool,
)
    requires
        goes_down(paths::path_parts(script)),
    ensures
        map_target(script, reference, root, windows) matches Some(path) ==> paths::path_parts(
            root,
        ).is_prefix_of(path) && path.len() > paths::path_parts(root).len() && goes_down(path),
{
    if let Some(path) = map_target(script, reference, root, windows) {
        let sp = paths::path_parts(script);
        let from = sp.drop_last();
        assert(goes_down(from));
        lemma_walk_goes_down(from, paths::path_parts(paths::on_platform(reference, windows)));
        if path.len() == paths::path_parts(root).len() {
            assert(path.subrange(0, path.len() as int) =~= path);
        }
    }
}

proof fn lemma_walk_goes_down(from: Seq<PartModel>, parts: Seq<PartModel>)
    requires
        goes_down(from),
    ensures
        walk(from, parts) matches Some(path) ==> goes_down(path),
    decreases parts.len(),
{
    if parts.len() > 0 {
        lemma_walk_goes_down(from, parts.drop_last());
    }
}

// -------------------------------------------------------------- missing maps

/// A script of the frontend.
#[derive(Debug)]
pub struct Script {
    pub path: String,
    pub source: String,
}

/// The path of the map that a script names inside the root.
pub open spec fn named_map(s: Script, root: Seq<char>, windows: bool) -> Option<Seq<char>> {
    match reference_in(s.source@) {
        Some(reference) => match map_target(s.path@, reference, root, windows) {
            Some(path) => Some(paths::rendered(path)),
            None => None,
        },
        None => None,
    }
}

/// The maps that are to be made: those that a script names, that are not
/// there, and that no earlier script named.
pub open spec fn missing_maps(
    scripts: Seq<Script>,
    present: Seq<Seq<char>>,
    root: Seq<char>,
    windows: bool,
) -> Seq<Seq<char>>
    decreases scripts.len(),
{
    if scripts.len() == 0 {
        Seq::empty()
    } else {
        let before = missing_maps(scripts.drop_last(), present, root, windows);
        match named_map(scripts.last(), root, windows) {
            Some(map) if !present.contains(map) && !before.contains(map) => before.push(map),
            _ => before,
        }
    }
}

/// The source maps that are to be made under `root`. A file that is present is
/// left alone.
pub fn materialize_missing_source_maps(
    scripts: &Vec<Script>,
    present: &Vec<String>,
    root: &str,
    windows: bool,
) -> (r: Vec<String>)
    ensures
        text::texts(r@) == missing_maps(scripts@, text::texts(present@), root@, windows),
{
    let mut out: Vec<String> = Vec::new();
    let mut i: usize = 0;
    proof {
        assert(scripts@.take(0) =~= Seq::<Script>::empty());
        assert(text::texts(out@) =~= Seq::<Seq<char>>::empty());
    }
    while i < scripts.len()
        invariant
            i <= scripts.len(),
            text::texts(out@) == missing_maps(
                scripts@.take(i as int),
                text::texts(present@),
                root@,
                windows,
            ),
        decreases scripts.len() - i,
    {
        proof {
            assert(scripts@.take(i + 1).drop_last() =~= scripts@.take(i as int));
        }
        let named = match source_map_reference(scripts[i].source.as_str()) {
            Some(reference) => source_map_path(
                scripts[i].path.as_str(),
                reference.as_str(),
                root,
                windows,
            ),
            None => None,
        };
        proof {
            assert(text::opt_text(named) == named_map(scripts@[i as int], root@, windows));
        }
        match named {
            Some(map) => {
                if !text::listed(present, map.as_str()) && !text::listed(&out, map.as_str()) {
                    proof {
                        assert(text::texts(out@.push(map)) =~= text::texts(out@).push(map@));
                    }
                    out.push(map);
                }
            },
            None => {},
        }
        i = i + 1;
    }
    proof {
        assert(scripts@.take(scripts@.len() as int) =~= scripts@);
    }
    out
}

/// A map is made exactly where some script names it inside the root and it is
/// not there; and none is made twice.
pub proof fn law_missing_maps_are_made(
    scripts: Seq<Script>,
    present: Seq<Seq<char>>,
    root: Seq<char>,
    windows: bool,
)
    ensures
        forall|map: Seq<char>| #[trigger]
            missing_maps(scripts, present, root, windows).contains(map) <==> !present.contains(map)
                && exists|k: int|
                0 <= k < scripts.len() && named_map(#[trigger] scripts[k], root, windows) == Some(
                    map,
                ),
        missing_maps(scripts, present, root, windows).no_duplicates(),
        missing_maps(scripts, present, root, windows).len() <= scripts.len(),
    decreases scripts.len(),
{
    let out = missing_maps(scripts, present, root, windows);
    if scripts.len() > 0 {
        let init = scripts.drop_last();
        let last = scripts.len() - 1;
        law_missing_maps_are_made(init, present, root, windows);
        let before = missing_maps(init, present, root, windows);
        assert forall|map: Seq<char>| #[trigger] out.contains(map) <==> !present.contains(map)
            && exists|k: int|
            0 <= k < scripts.len() && named_map(#[trigger] scripts[k], root, windows) == Some(map) by {
            if out.contains(map) {
                let p = choose|p: int| 0 <= p < out.len() && out[p] == map;
                if p < before.len() {
                    assert(before[p] == map);
                    assert(before.contains(map));
                    let k = choose|k: int|
                        0 <= k < init.len() && named_map(#[trigger] init[k], root, windows) == Some(
                            map,
                        );
                    assert(scripts[k] == init[k]);
                } else {
                    assert(named_map(scripts[last], root, windows) == Some(map));
                }
            }
            if !present.contains(map) && exists|k: int|
                0 <= k < scripts.len() && named_map(#[trigger] scripts[k], root, windows) == Some(
                    map,
                ) {
                let k = choose|k: int|
                    0 <= k < scripts.len() && named_map(#[trigger] scripts[k], root, windows)
                        == Some(map);
                if k < last {
                    assert(init[k] == scripts[k]);
                    assert(before.contains(map));
                }
                if before.contains(map) {
                    let p = choose|p: int| 0 <= p < before.len() && before[p] == map;
                    assert(out[p] == map);
                } else {
                    assert(out[out.len() - 1] == map);
                }
            }
        }
        if out.len() > before.len() {
            assert(out.no_duplicates()) by {
                assert forall|i: int, j: int|
                    0 <= i < out.len() && 0 <= j < out.len() && i != j implies out[i] != out[j] by {
                    if i < before.len() && j < before.len() {
                        assert(before[i] != before[j]);
                    } else if i < before.len() {
                        assert(before.contains(out[i]));
                    } else {
                        assert(before.contains(out[j]));
                    }
                }
            }
        }
    }
}

/// The last line that names a map file counts.
pub proof fn law_the_last_directive_counts(lines: Seq<Seq<char>>, k: int)
    ensures
        0 <= k < lines.len() && line_reference(lines[k]) is Some && (forall|j: int|
            k < j < lines.len() ==> line_reference(#[trigger] lines[j]) is None) ==> reference_before(
            lines,
            lines.len() as int,
        ) == line_reference(lines[k]),
        (forall|j: int| 0 <= j < lines.len() ==> line_reference(#[trigger] lines[j]) is None)
            ==> reference_before(lines, lines.len() as int) is None,
{
    if 0 <= k < lines.len() && (forall|j: int|
        k < j < lines.len() ==> line_reference(#[trigger] lines[j]) is None) {
        lemma_reference_skip(lines, k + 1, lines.len() as int);
    }
    if forall|j: int| 0 <= j < lines.len() ==> line_reference(#[trigger] lines[j]) is None {
        lemma_reference_skip(lines, 0, lines.len() as int);
    }
}

proof fn lemma_reference_skip(lines: Seq<Seq<char>>, from: int, end: int)
    requires
        0 <= from <= end <= lines.len(),
        forall|j: int| from <= j < end ==> line_reference(#[trigger] lines[j]) is None,
    ensures
        reference_before(lines, end) == reference_before(lines, from),
    decreases end - from,
{
    if from < end {
        lemma_reference_skip(lines, from, end - 1);
    }
}

/// A directive names the map file that stands after it, without a query; and
/// whatever a directive names is a map file, and no map that is written in the
/// line itself.
pub proof fn law_directives_name_map_files(
    head: Seq<char>,
    stem: Seq<char>,
    query: Seq<char>,
    line: Seq<char>,
)
    requires
        forall|i: int|
            0 <= i < stem.len() ==> (#[trigger] stem[i]) != '?' && stem[i] != '#'
                && !text::is_white(stem[i]),
        forall|i: int| 0 <= i < query.len() ==> !text::is_white(#[trigger] query[i]),
        query.len() > 0 ==> (query[0] == '?' || query[0] == '#') && query.last() != '/',
        !text::begins(stem + ".map"@, "data:"@),
        forall|i: int|
            0 <= i < head.len() ==> !text::occurs_at(
                head + "sourceMappingURL="@ + stem + ".map"@ + query,
                "sourceMappingURL="@,
                i,
            ),
    ensures
        line_reference(head + "sourceMappingURL="@ + stem + ".map"@ + query) == Some(
            stem + ".map"@,
        ),
        line_reference(line) matches Some(file) ==> text::ends(file, ".map"@) && !text::begins(
            file,
            "data:"@,
        ),
{
    reveal_strlit(".map");
    reveal_strlit("*/");
    let mark = "sourceMappingURL="@;
    let file = stem + ".map"@;
    let s = head + mark + stem + ".map"@ + query;
    let n = head.len() as int;
    assert(s.subrange(n, n + mark.len()) =~= mark);
    text::lemma_first_from(s, mark, 0);
    assert(text::occurs_at(s, mark, n));
    assert(text::first_from(s, mark, 0) == Some(n));
    let value = s.skip(n + mark.len());
    assert(value =~= file + query);
    assert(!text::is_white(value[0])) by {
        if stem.len() > 0 {
            assert(!text::is_white(stem[0]));
        } else {
            assert(value[0] == '.');
        }
    }
    assert(!text::is_white(value.last())) by {
        if query.len() > 0 {
            assert(value.last() == query[query.len() - 1]);
        } else {
            assert(value.last() == 'p');
        }
    }
    let f = |c: char| text::is_white(c);
    assert(!f(value[0]) && !f(value.last()));
    assert(text::trim_text(value) == value);
    assert(!text::ends(value, "*/"@)) by {
        if text::ends(value, "*/"@) {
            let m = value.len() - 2;
            assert(value.subrange(m, m + 2)[1] == value.last());
            assert(value.last() == '/');
        }
    }
    assert forall|i: int| 0 <= i < file.len() implies (#[trigger] file[i]) != '?' && file[i] != '#' by {
        if i < stem.len() {
            assert(stem[i] != '?' && stem[i] != '#');
        }
    }
    lemma_before_query(file, query);
    assert(file.subrange(file.len() - 4, file.len() as int) =~= ".map"@);
}

proof fn lemma_before_query(file: Seq<char>, query: Seq<char>)
    requires
        forall|i: int| 0 <= i < file.len() ==> (#[trigger] file[i]) != '?' && file[i] != '#',
        query.len() > 0 ==> query[0] == '?' || query[0] == '#',
    ensures
        before_query(file + query) == file,
    decreases file.len(),
{
    let s = file + query;
    if file.len() > 0 {
        let rest = file.drop_first();
        assert forall|i: int| 0 <= i < rest.len() implies (#[trigger] rest[i]) != '?' && rest[i]
            != '#' by {
            assert(rest[i] == file[i + 1]);
        }
        lemma_before_query(rest, query);
        assert(s.drop_first() =~= rest + query);
        assert(s[0] == file[0]);
        assert(seq![file[0]] + rest =~= file);
    } else {
        assert(s =~= query);
        assert(before_query(s) =~= file);
    }
}

/// A name goes down from where the walk is, a parent one up, and a rooted
/// reference or one that climbs past the start leads nowhere.
pub proof fn law_references_are_walked(from: Seq<PartModel>, name: Seq<char>, other: PartModel)
    ensures
        walk(from, seq![PartModel::Normal(name)]) == Some(from.push(PartModel::Normal(name))),
        walk(from, seq![PartModel::Current, PartModel::Normal(name)]) == Some(
            from.push(PartModel::Normal(name)),
        ),
        walk(from.push(PartModel::Normal(name)), seq![PartModel::Parent]) == Some(from),
        walk(Seq::empty(), seq![PartModel::Parent]) is None,
        walk(from, seq![PartModel::Root]) is None,
        walk(seq![PartModel::Root], seq![PartModel::Parent]) is None,
{
    let n = PartModel::Normal(name);
    assert(seq![n].drop_last() =~= Seq::<PartModel>::empty());
    assert(seq![PartModel::Current, n].drop_last() =~= seq![PartModel::Current]);
    assert(seq![PartModel::Current].drop_last() =~= Seq::<PartModel>::empty());
    assert(seq![PartModel::Parent].drop_last() =~= Seq::<PartModel>::empty());
    assert(seq![PartModel::Root].drop_last() =~= Seq::<PartModel>::empty());
    assert(from.push(n).drop_last() =~= from);
    reveal_with_fuel(walk, 3);
}

/// An address, an empty reference, and on Windows a drive, name no map of the
/// frontend.
pub proof fn law_addresses_name_no_map(
    script: Seq<char>,
    reference: Seq<char>,
    root: Seq<char>,
    windows: bool,
)
    ensures
        text::has(reference, "://"@) ==> map_target(script, reference, root, windows) is None,
        reference.len() == 0 ==> map_target(script, reference, root, windows) is None,
        windows && paths::names_drive(reference) ==> map_target(script, reference, root, windows) is None,
{
}

/// The store entry that is used is the first that is named for the frontend in
/// the wanted version, with or without a leading `v`, and holds it.
pub proof fn law_the_frontend_is_found(entries: Seq<StoreEntry>, version: Seq<char>, k: int)
    ensures
        frontend_from(entries, version, 0) matches Some(i) ==> 0 <= i < entries.len()
            && entries[i].has_dist && text::begins(
            entries[i].name@,
            "@deepseek-ai+dsh-web-frontend@"@ + bare_version(version),
        ),
        0 <= k < entries.len() && entries[k].has_dist && text::begins(
            entries[k].name@,
            "@deepseek-ai+dsh-web-frontend@"@ + bare_version(version),
        ) ==> (frontend_from(entries, version, 0) matches Some(i) && i <= k),
        version.len() > 0 && version[0] != 'v' ==> bare_version(version) == version && bare_version(
            seq!['v'] + version,
        ) == version,
{
    lemma_frontend_from(entries, version, 0, k);
    if version.len() > 0 && version[0] != 'v' {
        assert((seq!['v'] + version).drop_first() =~= version);
    }
}

proof fn lemma_frontend_from(entries: Seq<StoreEntry>, version: Seq<char>, from: int, k: int)
    requires
        0 <= from <= entries.len(),
    ensures
        frontend_from(entries, version, from) matches Some(i) ==> from <= i < entries.len()
            && holds_frontend(entries[i], version),
        from <= k < entries.len() && holds_frontend(entries[k], version) ==> (frontend_from(
            entries,
            version,
            from,
        ) matches Some(i) && i <= k),
    decreases entries.len() - from,
{
    if from < entries.len() && !holds_frontend(entries[from], version) {
        lemma_frontend_from(entries, version, from + 1, k);
    }
}

/// A file is a script exactly where its extension is that of one.
pub proof fn law_scripts_are_known_by_their_extension(stem: Seq<char>, ext: Seq<char>)
    requires
        stem.len() > 0,
        ext.len() > 0,
        forall|i: int| 0 <= i < ext.len() ==> (#[trigger] ext[i]) != '.',
    ensures
        script_name(stem + "."@ + ext) <==> ext == "js"@ || ext == "mjs"@ || ext == "cjs"@,
{
    paths::law_extensions_follow_the_last_dot(stem, ext);
}

} // verus!
