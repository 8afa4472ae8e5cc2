//! Paths as texts with forward slashes, and their parts.

use crate::text;
use vstd::prelude::*;

verus! {

/// `name` under `base`: a rooted name stands for itself.
pub open spec fn joined(base: Seq<char>, name: Seq<char>) -> Seq<char> {
    if name.len() > 0 && name[0] == '/' {
        name
    } else if base.len() == 0 || base.last() == '/' {
        base + name
    } else {
        base + "/"@ + name
    }
}

/// `name` under `base`.
pub fn join(base: &str, name: &str) -> (r: String)
    ensures
        r@ == joined(base@, name@),
{
    let nc = text::chars_of(name);
    if nc.len() > 0 && nc[0] == '/' {
        return text::owned(name);
    }
    let bc = text::chars_of(base);
    if bc.len() == 0 || bc[bc.len() - 1] == '/' {
        text::cat2(base, name)
    } else {
        text::cat3(base, "/", name)
    }
}

/// One part of a path.
#[derive(Debug, Clone, PartialEq, Eq)]
pub enum PathPart {
    /// The root that the path starts from.
    Root,
    /// A leading `.`.
    Current,
    /// A `..`.
    Parent,
    /// A name.
    Normal(String),
}

/// The content of a part.
#[verifier::ext_equal]
pub enum PartModel {
    Root,
    Current,
    Parent,
    Normal(Seq<char>),
}

impl View for PathPart {
    type V = PartModel;

    open spec fn view(&self) -> PartModel {
        match self {
            PathPart::Root => PartModel::Root,
            PathPart::Current => PartModel::Current,
            PathPart::Parent => PartModel::Parent,
            PathPart::Normal(s) => PartModel::Normal(s@),
        }
    }
}

/// The views of a list of parts.
pub open spec fn parts_of(v: Seq<PathPart>) -> Seq<PartModel> {
    v.map_values(|p: PathPart| p@)
}

/// The part that a piece between slashes makes, if any: an empty piece makes
/// none, nor does a `.` that is not the start of the path.
pub open spec fn piece_part(piece: Seq<char>, leading: bool) -> Option<PartModel> {
    if piece.len() == 0 {
        None
    } else if piece == "."@ {
        if leading {
            Some(PartModel::Current)
        } else {
            None
        }
    } else if piece == ".."@ {
        Some(PartModel::Parent)
    } else {
        Some(PartModel::Normal(piece))
    }
}

/// The parts that pieces make. The first piece of a path that is not rooted
/// leads.
pub open spec fn pieces_parts(pieces: Seq<Seq<char>>, rooted: bool) -> Seq<PartModel>
    decreases pieces.len(),
{
    if pieces.len() == 0 {
        Seq::empty()
    } else {
        let before = pieces_parts(pieces.drop_last(), rooted);
        match piece_part(pieces.last(), !rooted && pieces.len() == 1) {
            Some(p) => before.push(p),
            None => before,
        }
    }
}

/// The path starts at the root.
pub open spec fn is_rooted(path: Seq<char>) -> bool {
    path.len() > 0 && path[0] == '/'
}

/// The parts of a path.
pub open spec fn path_parts(path: Seq<char>) -> Seq<PartModel> {
    (if is_rooted(path) {
        seq![PartModel::Root]
    } else {
        Seq::empty()
    }) + pieces_parts(text::split_text(path, '/'), is_rooted(path))
}

fn part_of(piece: &str, leading: bool) -> (r: Option<PathPart>)
    ensures
        match r {
            Some(p) => piece_part(piece@, leading) == Some(p@),
            None => piece_part(piece@, leading) is None,
        },
{
    if piece.is_empty() {
        None
    } else if text::same(piece, ".") {
        if leading {
            Some(PathPart::Current)
        } else {
            None
        }
    } else if text::same(piece, "..") {
        Some(PathPart::Parent)
    } else {
        Some(PathPart::Normal(text::owned(piece)))
    }
}

/// The parts of a path.
pub fn components(path: &str) -> (r: Vec<PathPart>)
    ensures
        parts_of(r@) == path_parts(path@),
{
    let pc = text::chars_of(path);
    let rooted = pc.len() > 0 && pc[0] == '/';
    let pieces = text::split(path, '/');
    let mut out: Vec<PathPart> = Vec::new();
    if rooted {
        out.push(PathPart::Root);
    }
    let ghost head = parts_of(out@);
    let ghost all = text::texts(pieces@);
    let mut i: usize = 0;
    proof {
        assert(all.take(0) =~= Seq::<Seq<char>>::empty());
        assert(head + Seq::<PartModel>::empty() =~= head);
        assert(head =~= if rooted {
            seq![PartModel::Root]
        } else {
            Seq::<PartModel>::empty()
        });
    }
    while i < pieces.len()
        invariant
            i <= pieces.len(),
            all == text::texts(pieces@),
            parts_of(out@) == head + pieces_parts(all.take(i as int), rooted),
        decreases pieces.len() - i,
    {
        proof {
            let next = all.take(i + 1);
            assert(next.drop_last() =~= all.take(i as int));
            assert(next.last() == pieces@[i as int]@);
        }
        match part_of(pieces[i].as_str(), !rooted && i == 0) {
            Some(p) => {
                proof {
                    assert(parts_of(out@.push(p)) =~= parts_of(out@).push(p@));
                    assert((head + pieces_parts(all.take(i as int), rooted)).push(p@) =~= head
                        + pieces_parts(all.take(i as int), rooted).push(p@));
                }
                out.push(p);
            },
            None => {},
        }
        i = i + 1;
    }
    proof {
        assert(all.take(all.len() as int) =~= all);
    }
    out
}

/// The path with every backslash made a slash.
pub open spec fn slashed(path: Seq<char>) -> Seq<char> {
    text::swap_text(path, '\\', '/')
}

/// The path with every backslash made a slash.
pub fn with_slashes(path: &str) -> (r: String)
    ensures
        r@ == slashed(path@),
{
    text::swap_char(path, '\\', '/')
}

/// A path with forward slashes: on Windows a backslash parts names too.
pub open spec fn on_platform(path: Seq<char>, windows: bool) -> Seq<char> {
    if windows {
        slashed(path)
    } else {
        path
    }
}

/// A path with forward slashes.
pub fn for_platform(path: &str, windows: bool) -> (r: String)
    ensures
        r@ == on_platform(path@, windows),
{
    if windows {
        with_slashes(path)
    } else {
        text::owned(path)
    }
}

/// The path begins with the letter of a drive.
pub open spec fn names_drive(path: Seq<char>) -> bool {
    path.len() >= 2 && ('a' <= path[0] <= 'z' || 'A' <= path[0] <= 'Z') && path[1] == ':'
}

/// Whether the path begins with the letter of a drive.
pub fn has_drive(path: &str) -> (r: bool)
    ensures
        r == names_drive(path@),
{
    let pc = text::chars_of(path);
    pc.len() >= 2 && (('a' <= pc[0] && pc[0] <= 'z') || ('A' <= pc[0] && pc[0] <= 'Z')) && pc[1]
        == ':'
}

/// Some part of the path is a `..`.
pub open spec fn climbs(path: Seq<char>) -> bool {
    path_parts(path).contains(PartModel::Parent)
}

/// Whether some part of the path is a `..`.
pub fn has_parent(path: &str) -> (r: bool)
    ensures
        r == climbs(path@),
{
    let parts = components(path);
    let ghost all = parts_of(parts@);
    let mut i: usize = 0;
    while i < parts.len()
        invariant
            i <= parts.len(),
            all == parts_of(parts@),
            all == path_parts(path@),
            forall|k: int| 0 <= k < i ==> (#[trigger] all[k]) != PartModel::Parent,
        decreases parts.len() - i,
    {
        proof {
            assert(all[i as int] == parts@[i as int]@);
        }
        match &parts[i] {
            PathPart::Parent => {
                return true;
            },
            _ => {},
        }
        i = i + 1;
    }
    false
}

/// Whether two parts are the same.
pub fn same_part(a: &PathPart, b: &PathPart) -> (r: bool)
    ensures
        r == (a@ == b@),
{
    match (a, b) {
        (PathPart::Root, PathPart::Root) => true,
        (PathPart::Current, PathPart::Current) => true,
        (PathPart::Parent, PathPart::Parent) => true,
        (PathPart::Normal(x), PathPart::Normal(y)) => text::same(x.as_str(), y.as_str()),
        _ => false,
    }
}

/// Whether `parts` begins with `prefix`.
pub fn has_prefix(parts: &Vec<PathPart>, prefix: &Vec<PathPart>) -> (r: bool)
    ensures
        r == parts_of(prefix@).is_prefix_of(parts_of(parts@)),
{
    if prefix.len() > parts.len() {
        return false;
    }
    let mut i: usize = 0;
    while i < prefix.len()
        invariant
            i <= prefix.len() <= parts.len(),
            forall|k: int| 0 <= k < i ==> (#[trigger] prefix@[k])@ == parts@[k]@,
        decreases prefix.len() - i,
    {
        if !same_part(&parts[i], &prefix[i]) {
            proof {
                assert(parts_of(prefix@)[i as int] != parts_of(parts@)[i as int]);
                if parts_of(prefix@).is_prefix_of(parts_of(parts@)) {
                    assert(parts_of(prefix@) == parts_of(parts@).subrange(
                        0,
                        prefix@.len() as int,
                    ));
                    assert(parts_of(parts@).subrange(0, prefix@.len() as int)[i as int]
                        == parts_of(parts@)[i as int]);
                }
            }
            return false;
        }
        i = i + 1;
    }
    proof {
        assert(parts_of(prefix@) =~= parts_of(parts@).subrange(0, prefix@.len() as int));
    }
    true
}

/// Whether two paths have the same parts.
pub fn same_path(a: &str, b: &str) -> (r: bool)
    ensures
        r == (path_parts(a@) == path_parts(b@)),
{
    let x = components(a);
    let y = components(b);
    let r = x.len() == y.len() && has_prefix(&x, &y);
    proof {
        assert(parts_of(x@).len() == x@.len());
        assert(parts_of(y@).len() == y@.len());
        if x@.len() == y@.len() {
            assert(parts_of(x@).subrange(0, y@.len() as int) =~= parts_of(x@));
        }
    }
    r
}

/// The text of a part.
pub open spec fn part_text(p: PartModel) -> Seq<char> {
    match p {
        PartModel::Root => Seq::empty(),
        PartModel::Current => "."@,
        PartModel::Parent => ".."@,
        PartModel::Normal(s) => s,
    }
}

/// The texts of parts.
pub open spec fn part_texts(parts: Seq<PartModel>) -> Seq<Seq<char>> {
    parts.map_values(|p: PartModel| part_text(p))
}

/// The path that parts make. The root alone is a slash.
pub open spec fn rendered(parts: Seq<PartModel>) -> Seq<char> {
    if parts.len() == 1 && parts[0] is Root {
        "/"@
    } else {
        text::join_text(part_texts(parts), "/"@)
    }
}

/// The path that parts make.
pub fn render(parts: &Vec<PathPart>) -> (r: String)
    ensures
        r@ == rendered(parts_of(parts@)),
{
    let mut out: Vec<String> = Vec::new();
    let mut i: usize = 0;
    while i < parts.len()
        invariant
            i <= parts.len(),
            out.len() == i,
            forall|k: int| 0 <= k < i ==> (#[trigger] out@[k])@ == part_text(parts@[k]@),
        decreases parts.len() - i,
    {
        let t = match &parts[i] {
            PathPart::Root => String::new(),
            PathPart::Current => text::owned("."),
            PathPart::Parent => text::owned(".."),
            PathPart::Normal(s) => s.clone(),
        };
        out.push(t);
        i = i + 1;
    }
    proof {
        assert(text::texts(out@) =~= part_texts(parts_of(parts@)));
    }
    let only_root = parts.len() == 1 && match &parts[0] {
        PathPart::Root => true,
        _ => false,
    };
    if only_root {
        text::owned("/")
    } else {
        text::join(&out, "/")
    }
}

/// The extension of a file name: what follows its last dot, unless that dot
/// starts the name.
pub open spec fn extension_of(name: Seq<char>) -> Option<Seq<char>> {
    match text::last_upto(name, "."@, name.len() as int) {
        Some(i) if i > 0 && name != ".."@ => Some(name.skip(i + 1)),
        _ => None,
    }
}

/// The extension of a file name.
pub fn extension(name: &str) -> (r: Option<String>)
    ensures
        text::opt_text(r) == extension_of(name@),
{
    let nc = text::chars_of(name);
    let dot = text::chars_of(".");
    proof {
        reveal_strlit(".");
    }
    match text::rfind(&nc, &dot) {
        Some(i) => {
            if i > 0 && !text::same(name, "..") {
                let e = text::string_of(&nc, i + 1, nc.len());
                proof {
                    assert(e@ =~= name@.skip(i + 1));
                }
                Some(e)
            } else {
                None
            }
        },
        None => None,
    }
}

/// The path that a path lies in; none for the root and for nothing.
pub open spec fn parent_of(path: Seq<char>) -> Option<Seq<char>> {
    let parts = path_parts(path);
    if parts.len() == 0 || parts.last() is Root {
        None
    } else {
        Some(rendered(parts.drop_last()))
    }
}

/// The path that a path lies in.
pub fn parent(path: &str) -> (r: Option<String>)
    ensures
        text::opt_text(r) == parent_of(path@),
{
    let mut parts = components(path);
    let ghost all = parts_of(parts@);
    proof {
        assert(all.len() == parts@.len());
    }
    match parts.pop() {
        None => None,
        Some(last) => {
            proof {
                assert(all.last() == last@);
                assert(parts_of(parts@) =~= all.drop_last());
            }
            match last {
                PathPart::Root => None,
                _ => Some(render(&parts)),
            }
        },
    }
}

// ------------------------------------------------------------- path components

/// What is said of a name that cannot be a component.
pub const ID_FAULT: &'static str = "标识只能由字母、数字与 _-. 组成，且不能是 .、.. 或系统保留名";

/// A character that an id may hold.
pub open spec fn id_char(c: char) -> bool {
    text::is_alnum(c) || c == '_' || c == '-' || c == '.'
}

/// The part of a name that Windows compares with its device names.
pub open spec fn device_stem(name: Seq<char>) -> Seq<char> {
    text::upper_text(name.take(text::index_of_char(name, '.')))
}

/// A name that Windows keeps for a device.
pub open spec fn is_device(stem: Seq<char>) -> bool {
    ||| stem == "CON"@
    ||| stem == "PRN"@
    ||| stem == "AUX"@
    ||| stem == "NUL"@
    ||| stem.len() == 4 && (stem.take(3) == "COM"@ || stem.take(3) == "LPT"@) && '1' <= stem[3]
        <= '9'
}

/// A name that is one component of a path on every platform.
pub open spec fn valid_id(id: Seq<char>) -> bool {
    &&& id.len() > 0
    &&& forall|i: int| 0 <= i < id.len() ==> id_char(#[trigger] id[i])
    &&& id != "."@
    &&& id != ".."@
    &&& !is_device(device_stem(id))
}

fn device(stem: &str) -> (r: bool)
    ensures
        r == is_device(stem@),
{
    if text::same(stem, "CON") || text::same(stem, "PRN") || text::same(stem, "AUX")
        || text::same(stem, "NUL") {
        return true;
    }
    let sc = text::chars_of(stem);
    if sc.len() != 4 {
        return false;
    }
    let head = text::string_of(&sc, 0, 3);
    proof {
        assert(head@ =~= stem@.take(3));
    }
    (text::same(head.as_str(), "COM") || text::same(head.as_str(), "LPT")) && '1' <= sc[3] && sc[3]
        <= '9'
}

/// Whether a name can be one component of a path.
pub fn validate_id_component(id: &str) -> (r: Result<(), &'static str>)
    ensures
        r is Ok <==> valid_id(id@),
        r matches Err(e) ==> e@ == ID_FAULT@,
{
    let fault: &'static str = ID_FAULT;
    let ic = text::chars_of(id);
    if ic.len() == 0 {
        return Err(fault);
    }
    let mut i: usize = 0;
    while i < ic.len()
        invariant
            i <= ic.len(),
            ic@ == id@,
            fault@ == ID_FAULT@,
            forall|k: int| 0 <= k < i ==> id_char(#[trigger] ic@[k]),
        decreases ic.len() - i,
    {
        let c = ic[i];
        if !(text::alnum(c) || c == '_' || c == '-' || c == '.') {
            proof {
                assert(!id_char(id@[i as int]));
            }
            return Err(fault);
        }
        i = i + 1;
    }
    if text::same(id, ".") || text::same(id, "..") {
        return Err(fault);
    }
    let mut k: usize = 0;
    while k < ic.len() && ic[k] != '.'
        invariant
            k <= ic.len(),
            forall|j: int| 0 <= j < k ==> ic@[j] != '.',
        decreases ic.len() - k,
    {
        k = k + 1;
    }
    proof {
        text::lemma_index_of_char_is(ic@, '.', k as int);
    }
    let name = text::string_of(&ic, 0, k);
    proof {
        assert(name@ =~= id@.take(k as int));
    }
    let stem = text::to_upper(name.as_str());
    if device(stem.as_str()) {
        return Err(fault);
    }
    Ok(())
}

/// A valid id holds no separator: as a path it is one ordinary component, which
/// leads nowhere else.
pub proof fn law_ids_are_single_components(id: Seq<char>)
    requires
        valid_id(id),
    ensures
        !id.contains('/'),
        !id.contains('\\'),
        path_parts(id) == seq![PartModel::Normal(id)],
{
    if id.contains('/') {
        let i = choose|i: int| 0 <= i < id.len() && id[i] == '/';
        assert(id_char(id[i]));
    }
    if id.contains('\\') {
        let i = choose|i: int| 0 <= i < id.len() && id[i] == '\\';
        assert(id_char(id[i]));
    }
    assert(id_char(id[0]));
    text::lemma_index_of_char(id, '/');
    let k = text::index_of_char(id, '/');
    if k < id.len() {
        assert(id.contains(id[k]));
    }
    assert(text::split_text(id, '/') =~= seq![id]);
    reveal_strlit(".");
    reveal_strlit("..");
    assert(seq![id].drop_last() =~= Seq::<Seq<char>>::empty());
    reveal_with_fuel(pieces_parts, 2);
    assert(path_parts(id) =~= seq![PartModel::Normal(id)]);
}

// ------------------------------------------------------------------- the shell

/// The two builds of the shell, which keep their instances apart.
#[derive(Debug, Clone, Copy, PartialEq, Eq, Structural)]
pub enum ShellMode {
    Release,
    Dev,
}

impl ShellMode {
    /// The mode's name.
    pub fn as_str(self) -> (r: &'static str)
        ensures
            r@ == mode_name(self),
    {
        match self {
            ShellMode::Release => "release",
            ShellMode::Dev => "dev",
        }
    }
}

/// The name of a mode.
pub open spec fn mode_name(mode: ShellMode) -> Seq<char> {
    match mode {
        ShellMode::Release => "release"@,
        ShellMode::Dev => "dev"@,
    }
}

/// The directory of an installed version of a kernel family.
pub open spec fn version_dir(xlink_home: Seq<char>, family: Seq<char>, version: Seq<char>) -> Seq<
    char,
> {
    joined(joined(joined(joined(xlink_home, "kernels"@), family), "versions"@), version)
}

/// The directory of an installed version of a kernel family.
pub fn kernel_version_dir(xlink_home: &str, family: &str, version: &str) -> (r: String)
    ensures
        r@ == version_dir(xlink_home@, family@, version@),
{
    join(join(join(join(xlink_home, "kernels").as_str(), family).as_str(), "versions").as_str(), version)
}

/// The directory of an instance.
pub open spec fn instance_root(xlink_home: Seq<char>, family: Seq<char>, id: Seq<char>) -> Seq<
    char,
> {
    joined(joined(joined(joined(xlink_home, "kernels"@), family), "instances"@), id)
}

/// The directory of an instance.
pub fn instance_dir(xlink_home: &str, family: &str, id: &str) -> (r: String)
    ensures
        r@ == instance_root(xlink_home@, family@, id@),
{
    join(join(join(join(xlink_home, "kernels").as_str(), family).as_str(), "instances").as_str(), id)
}

/// The home that the kernel of an instance is given.
pub fn instance_dsh_home(xlink_home: &str, family: &str, id: &str) -> (r: String)
    ensures
        r@ == joined(instance_root(xlink_home@, family@, id@), "home"@),
{
    join(instance_dir(xlink_home, family, id).as_str(), "home")
}

/// The skills that every instance shares.
pub fn skills_active_root(xlink_home: &str) -> (r: String)
    ensures
        r@ == joined(joined(xlink_home@, "skills"@), "active"@),
{
    join(join(xlink_home, "skills").as_str(), "active")
}

// ---------------------------------------------------------------------- laws

proof fn lemma_no_mark(p: Seq<char>, c: char)
    requires
        forall|i: int| 0 <= i < p.len() ==> (#[trigger] p[i]) != c,
    ensures
        text::split_text(p, c) == seq![p],
{
    text::lemma_index_of_char(p, c);
    let i = text::index_of_char(p, c);
    if i < p.len() {
        assert(p[i] != c);
    }
}

/// Pieces of a text with one more piece after a mark.
pub proof fn lemma_split_push(a: Seq<char>, p: Seq<char>, c: char)
    requires
        forall|i: int| 0 <= i < p.len() ==> (#[trigger] p[i]) != c,
    ensures
        text::split_text(a + seq![c] + p, c) == text::split_text(a, c).push(p),
        text::split_text(a + p, c).len() == text::split_text(a, c).len(),
        text::split_text(a + p, c) == text::split_text(a, c).update(
            text::split_text(a, c).len() - 1,
            text::split_text(a, c).last() + p,
        ),
    decreases a.len(),
{
    let whole = a + seq![c] + p;
    let short = a + p;
    let i = text::index_of_char(a, c);
    text::lemma_index_of_char(a, c);
    if i >= a.len() {
        assert forall|j: int| 0 <= j < a.len() implies whole[j] != c && short[j] != c by {
            if a[j] == c {
                lemma_found_by(a, c, j);
            }
        }
        assert(whole[a.len() as int] == c);
        text::lemma_index_of_char_is(whole, c, a.len() as int);
        assert(whole.take(a.len() as int) =~= a);
        assert(whole.skip(a.len() as int + 1) =~= p);
        lemma_no_mark(p, c);
        assert(text::split_text(whole, c) =~= seq![a] + seq![p]);
        assert(text::split_text(a, c).push(p) =~= seq![a] + seq![p]);
        assert forall|j: int| 0 <= j < short.len() implies short[j] != c by {
            if j >= a.len() {
                assert(short[j] == p[j - a.len()]);
            }
        }
        lemma_no_mark(short, c);
        assert(seq![a].update(0, a + p) =~= seq![short]);
    } else {
        let head = a.take(i);
        let rest = a.skip(i + 1);
        lemma_split_push(rest, p, c);
        assert forall|j: int| 0 <= j < i implies whole[j] != c && short[j] != c by {
            if a[j] == c {
                lemma_found_by(a, c, j);
            }
        }
        assert(whole[i] == c && short[i] == c);
        text::lemma_index_of_char_is(whole, c, i);
        text::lemma_index_of_char_is(short, c, i);
        assert(whole.take(i) =~= head);
        assert(short.take(i) =~= head);
        assert(whole.skip(i + 1) =~= rest + seq![c] + p);
        assert(short.skip(i + 1) =~= rest + p);
        let more = text::split_text(rest, c);
        lemma_split_some(rest, c);
        assert(text::split_text(whole, c) =~= text::split_text(a, c).push(p));
        assert(text::split_text(a, c).last() == more.last());
        assert(text::split_text(short, c) =~= text::split_text(a, c).update(
            text::split_text(a, c).len() - 1,
            text::split_text(a, c).last() + p,
        ));
    }
}

proof fn lemma_split_some(s: Seq<char>, c: char)
    ensures
        text::split_text(s, c).len() > 0,
{
}

proof fn lemma_found_by(s: Seq<char>, c: char, j: int)
    requires
        0 <= j < s.len(),
        s[j] == c,
    ensures
        text::index_of_char(s, c) <= j,
    decreases s.len(),
{
    if s[0] != c {
        lemma_found_by(s.drop_first(), c, j - 1);
    }
}

proof fn lemma_last_piece(s: Seq<char>, c: char)
    requires
        s.len() > 0,
        s.last() == c,
    ensures
        text::split_text(s, c).last().len() == 0,
        text::split_text(s, c).len() > 1,
    decreases s.len(),
{
    let i = text::index_of_char(s, c);
    text::lemma_index_of_char(s, c);
    lemma_found_by(s, c, s.len() - 1);
    let rest = s.skip(i + 1);
    lemma_split_some(rest, c);
    if i < s.len() - 1 {
        assert(rest.last() == s.last());
        lemma_last_piece(rest, c);
    } else {
        lemma_no_mark(rest, c);
    }
    assert(text::split_text(s, c).last() == text::split_text(rest, c).last());
}

/// Putting a name under a directory adds one part to its path: the name, or a
/// step up where it is `..`. The parts of the directory stay.
pub proof fn law_joining_adds_a_part(dir: Seq<char>, name: Seq<char>)
    requires
        name.len() > 0,
        name != "."@,
        forall|i: int| 0 <= i < name.len() ==> (#[trigger] name[i]) != '/',
    ensures
        path_parts(joined(dir, name)) == path_parts(dir).push(
            if name == ".."@ {
                PartModel::Parent
            } else {
                PartModel::Normal(name)
            },
        ),
{
    reveal_strlit("/");
    assert("/"@ =~= seq!['/']);
    assert(name[0] != '/');
    let part = if name == ".."@ {
        PartModel::Parent
    } else {
        PartModel::Normal(name)
    };
    let whole = joined(dir, name);
    let pieces = text::split_text(dir, '/');
    let all = text::split_text(whole, '/');
    lemma_split_some(dir, '/');
    if dir.len() == 0 {
        assert(whole =~= name);
        lemma_no_mark(name, '/');
        assert(seq![name].drop_last() =~= Seq::<Seq<char>>::empty());
        assert(pieces_parts(seq![name], false) =~= seq![part]) by {
            assert(pieces_parts(seq![name].drop_last(), false) =~= Seq::<PartModel>::empty());
        }
        lemma_no_mark(dir, '/');
        assert(pieces =~= seq![dir]);
        assert(pieces_parts(seq![dir].drop_last(), false) =~= Seq::<PartModel>::empty());
        assert(path_parts(dir) =~= Seq::<PartModel>::empty());
        assert(path_parts(whole) =~= path_parts(dir).push(part));
    } else {
        let rooted = is_rooted(dir);
        assert(is_rooted(whole) == rooted) by {
            assert(whole[0] == dir[0]);
        }
        lemma_split_push(dir, name, '/');
        if dir.last() == '/' {
            assert(whole == dir + name);
            lemma_last_piece(dir, '/');
            assert(pieces.last() + name =~= name);
            assert(all == pieces.update(pieces.len() - 1, name));
            assert(all.drop_last() =~= pieces.drop_last());
            assert(all.last() == name);
            assert(pieces_parts(pieces, rooted) == pieces_parts(pieces.drop_last(), rooted));
        } else {
            assert(whole =~= dir + seq!['/'] + name);
            assert(all == pieces.push(name));
            assert(all.drop_last() =~= pieces);
            assert(all.last() == name);
        }
        assert(pieces_parts(all, rooted) =~= pieces_parts(pieces, rooted).push(part));
        assert(path_parts(whole) =~= path_parts(dir).push(part));
    }
}

/// Two names under one directory make two paths, and a step up makes a path
/// that climbs.
pub proof fn law_names_make_paths_of_their_own(dir: Seq<char>, a: Seq<char>, b: Seq<char>)
    requires
        valid_id(a),
        valid_id(b),
    ensures
        joined(dir, a) == joined(dir, b) <==> a == b,
        path_parts(joined(dir, a)) == path_parts(joined(dir, b)) <==> a == b,
        climbs(joined(dir, ".."@)),
        climbs(joined(dir, a)) == climbs(dir),
{
    law_ids_are_single_components(a);
    law_ids_are_single_components(b);
    assert forall|i: int| 0 <= i < a.len() implies (#[trigger] a[i]) != '/' by {
        assert(a.contains(a[i]));
    }
    assert forall|i: int| 0 <= i < b.len() implies (#[trigger] b[i]) != '/' by {
        assert(b.contains(b[i]));
    }
    law_joining_adds_a_part(dir, a);
    law_joining_adds_a_part(dir, b);
    reveal_strlit("..");
    reveal_strlit(".");
    assert(".."@.len() != "."@.len());
    law_joining_adds_a_part(dir, ".."@);
    let parts = path_parts(dir);
    let p = parts.push(PartModel::Normal(a));
    let q = parts.push(PartModel::Normal(b));
    if p == q {
        assert(p[parts.len() as int] == q[parts.len() as int]);
    }
    let up = parts.push(PartModel::Parent);
    assert(up[parts.len() as int] == PartModel::Parent);
    if climbs(joined(dir, a)) {
        let k = choose|k: int| 0 <= k < p.len() && p[k] == PartModel::Parent;
        assert(parts[k] == PartModel::Parent);
    }
    if climbs(dir) {
        let k = choose|k: int| 0 <= k < parts.len() && parts[k] == PartModel::Parent;
        assert(p[k] == PartModel::Parent);
    }
}

/// What an id may be: letters, digits, underscores, hyphens and dots, and at
/// least one of them; neither `.` nor `..`; and, up to its first dot and in
/// whatever case, no name of a device.
pub proof fn law_the_form_of_ids(id: Seq<char>)
    ensures
        valid_id(id) <==> {
            let stem = text::upper_text(id.take(text::index_of_char(id, '.')));
            &&& id.len() > 0
            &&& forall|i: int|
                0 <= i < id.len() ==> {
                    let c = #[trigger] id[i];
                    'a' <= c <= 'z' || 'A' <= c <= 'Z' || '0' <= c <= '9' || c == '_' || c == '-'
                        || c == '.'
                }
            &&& id != "."@ && id != ".."@
            &&& stem != "CON"@ && stem != "PRN"@ && stem != "AUX"@ && stem != "NUL"@
            &&& !(stem.len() == 4 && (stem.take(3) == "COM"@ || stem.take(3) == "LPT"@) && '1'
                <= stem[3] <= '9')
        },
{
    assert forall|i: int| 0 <= i < id.len() implies id_char(#[trigger] id[i]) == ({
        let c = id[i];
        'a' <= c <= 'z' || 'A' <= c <= 'Z' || '0' <= c <= '9' || c == '_' || c == '-' || c == '.'
    }) by {}
}

/// The extension of a file is what follows the last dot of its name, where
/// something stands before that dot.
pub proof fn law_extensions_follow_the_last_dot(stem: Seq<char>, ext: Seq<char>)
    requires
        stem.len() > 0,
        ext.len() > 0,
        forall|i: int| 0 <= i < ext.len() ==> (#[trigger] ext[i]) != '.',
    ensures
        extension_of(stem + "."@ + ext) == Some(ext),
        extension_of(ext) is None,
        extension_of("."@ + ext) is None,
{
    reveal_strlit(".");
    reveal_strlit("..");
    let name = stem + "."@ + ext;
    let n = stem.len() as int;
    assert(name.subrange(n, n + 1) =~= "."@);
    assert forall|i: int| n < i <= name.len() implies !text::occurs_at(name, "."@, i) by {
        if text::occurs_at(name, "."@, i) {
            assert(name.subrange(i, i + 1)[0] == '.');
            assert(name[i] == ext[i - n - 1]);
        }
    }
    lemma_last_dot(name, name.len() as int, n);
    assert(name.skip(n + 1) =~= ext);
    assert(name != ".."@) by {
        if name == ".."@ {
            assert(name[1] == '.');
            assert(ext[name.len() - 1 - n - 1] == name.last());
        }
    }
    assert forall|i: int| 0 <= i <= ext.len() implies !text::occurs_at(ext, "."@, i) by {
        if text::occurs_at(ext, "."@, i) {
            assert(ext.subrange(i, i + 1)[0] == ext[i]);
        }
    }
    lemma_no_dot(ext, ext.len() as int);
    let hidden = "."@ + ext;
    assert(hidden.subrange(0, 1) =~= "."@);
    assert forall|i: int| 0 < i <= hidden.len() implies !text::occurs_at(hidden, "."@, i) by {
        if text::occurs_at(hidden, "."@, i) {
            assert(hidden.subrange(i, i + 1)[0] == ext[i - 1]);
        }
    }
    lemma_last_dot(hidden, hidden.len() as int, 0);
}

proof fn lemma_last_dot(s: Seq<char>, upto: int, at: int)
    requires
        0 <= at <= upto,
        text::occurs_at(s, "."@, at),
        forall|i: int| at < i <= upto ==> !text::occurs_at(s, "."@, i),
    ensures
        text::last_upto(s, "."@, upto) == Some(at),
    decreases upto,
{
    if at < upto {
        lemma_last_dot(s, upto - 1, at);
    }
}

proof fn lemma_no_dot(s: Seq<char>, upto: int)
    requires
        forall|i: int| 0 <= i <= upto ==> !text::occurs_at(s, "."@, i),
    ensures
        text::last_upto(s, "."@, upto) is None,
    decreases upto + 1,
{
    if upto >= 0 {
        lemma_no_dot(s, upto - 1);
    }
}

/// Versions and instances of a family lie under the shell's home, each in a
/// directory of its own kind.
pub proof fn law_the_layout_of_kernels(xlink_home: Seq<char>, family: Seq<char>, id: Seq<char>)
    requires
        valid_id(family),
        valid_id(id),
    ensures
        path_parts(version_dir(xlink_home, family, id)) == path_parts(xlink_home) + seq![
            PartModel::Normal("kernels"@),
            PartModel::Normal(family),
            PartModel::Normal("versions"@),
            PartModel::Normal(id),
        ],
        path_parts(instance_root(xlink_home, family, id)) == path_parts(xlink_home) + seq![
            PartModel::Normal("kernels"@),
            PartModel::Normal(family),
            PartModel::Normal("instances"@),
            PartModel::Normal(id),
        ],
{
    reveal_strlit("kernels");
    reveal_strlit("versions");
    reveal_strlit("instances");
    reveal_strlit(".");
    reveal_strlit("..");
    assert("kernels"@.len() == 7 && "versions"@.len() == 8 && "instances"@.len() == 9);
    law_ids_are_single_components(family);
    law_ids_are_single_components(id);
    assert forall|i: int| 0 <= i < family.len() implies (#[trigger] family[i]) != '/' by {
        assert(family.contains(family[i]));
    }
    assert forall|i: int| 0 <= i < id.len() implies (#[trigger] id[i]) != '/' by {
        assert(id.contains(id[i]));
    }
    let a = joined(xlink_home, "kernels"@);
    let b = joined(a, family);
    law_joining_adds_a_part(xlink_home, "kernels"@);
    law_joining_adds_a_part(a, family);
    law_joining_adds_a_part(b, "versions"@);
    law_joining_adds_a_part(b, "instances"@);
    law_joining_adds_a_part(joined(b, "versions"@), id);
    law_joining_adds_a_part(joined(b, "instances"@), id);
    assert(path_parts(version_dir(xlink_home, family, id)) =~= path_parts(xlink_home) + seq![
        PartModel::Normal("kernels"@),
        PartModel::Normal(family),
        PartModel::Normal("versions"@),
        PartModel::Normal(id),
    ]);
    assert(path_parts(instance_root(xlink_home, family, id)) =~= path_parts(xlink_home) + seq![
        PartModel::Normal("kernels"@),
        PartModel::Normal(family),
        PartModel::Normal("instances"@),
        PartModel::Normal(id),
    ]);
}

} // verus!
