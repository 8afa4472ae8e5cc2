//! Versions of Node.js, and the order in which those that nvm installed are
//! tried.

use crate::paths;
use crate::sort;
use crate::text;
use vstd::prelude::*;

verus! {

/// The major version that is accepted from a minor version on.
pub const MIN_MAJOR: u32 = 22;

/// The least minor version of that major version.
pub const MIN_MINOR: u32 = 19;

/// The major version from which every one is accepted.
pub const MAJOR_ALT_FLOOR: u32 = 24;

// -------------------------------------------------------------------- versions

/// How many digits a text starts with.
pub open spec fn digit_run(s: Seq<char>) -> int
    decreases s.len(),
{
    if s.len() > 0 && text::is_digit(s[0]) {
        1 + digit_run(s.drop_first())
    } else {
        0
    }
}

proof fn lemma_digit_run(s: Seq<char>, i: int)
    requires
        0 <= i <= s.len(),
        forall|k: int| 0 <= k < i ==> text::is_digit(#[trigger] s[k]),
        i < s.len() ==> !text::is_digit(s[i]),
    ensures
        digit_run(s) == i,
    decreases s.len(),
{
    if i > 0 {
        assert(text::is_digit(s[0]));
        assert forall|k: int| 0 <= k < i - 1 implies text::is_digit(#[trigger] s.drop_first()[k]) by {
            assert(text::is_digit(s[k + 1]));
        }
        lemma_digit_run(s.drop_first(), i - 1);
    }
}

/// A text without its leading `v`, if it has one.
pub open spec fn after_v(s: Seq<char>) -> Option<Seq<char>> {
    if s.len() > 0 && s[0] == 'v' {
        Some(s.drop_first())
    } else {
        None
    }
}

/// The version that a text such as `v22.19.0` names. What follows the digits of
/// the third number is passed over.
pub open spec fn version_in(output: Seq<char>) -> Option<(nat, nat, nat)> {
    match after_v(text::trim_text(output)) {
        None => None,
        Some(t) => {
            let parts = text::split_text(t, '.');
            if parts.len() < 3 {
                None
            } else {
                match (
                    text::number_in(parts[0], u32::MAX as nat),
                    text::number_in(parts[1], u32::MAX as nat),
                    text::number_in(parts[2].take(digit_run(parts[2])), u32::MAX as nat),
                ) {
                    (Some(major), Some(minor), Some(patch)) => Some((major, minor, patch)),
                    _ => None,
                }
            }
        },
    }
}

/// The numbers of a version.
pub open spec fn version_numbers(v: Option<(u32, u32, u32)>) -> Option<(nat, nat, nat)> {
    match v {
        Some((major, minor, patch)) => Some((major as nat, minor as nat, patch as nat)),
        None => None,
    }
}

fn leading_digits(s: &str) -> (r: String)
    ensures
        r@ == s@.take(digit_run(s@)),
{
    let sc = text::chars_of(s);
    let mut i: usize = 0;
    while i < sc.len() && text::digit(sc[i])
        invariant
            i <= sc.len(),
            forall|k: int| 0 <= k < i ==> text::is_digit(#[trigger] sc@[k]),
        decreases sc.len() - i,
    {
        i = i + 1;
    }
    let out = text::string_of(&sc, 0, i);
    proof {
        lemma_digit_run(sc@, i as int);
        assert(out@ =~= s@.take(i as int));
    }
    out
}

fn strip_v(s: &str) -> (r: Option<String>)
    ensures
        text::opt_text(r) == after_v(s@),
{
    let sc = text::chars_of(s);
    if sc.len() > 0 && sc[0] == 'v' {
        let rest = text::string_of(&sc, 1, sc.len());
        proof {
            assert(rest@ =~= s@.drop_first());
        }
        Some(rest)
    } else {
        None
    }
}

/// Reads what `node --version` prints.
pub fn parse_version(output: &str) -> (r: Option<(u32, u32, u32)>)
    ensures
        version_numbers(r) == version_in(output@),
{
    let trimmed = text::trim(output);
    let rest = match strip_v(trimmed.as_str()) {
        Some(t) => t,
        None => {
            return None;
        },
    };
    let parts = text::split(rest.as_str(), '.');
    let ghost pieces = text::texts(parts@);
    proof {
        assert(pieces.len() == parts@.len());
    }
    if parts.len() < 3 {
        return None;
    }
    proof {
        assert(pieces[0] == parts@[0]@);
        assert(pieces[1] == parts@[1]@);
        assert(pieces[2] == parts@[2]@);
    }
    let major = text::parse_number(parts[0].as_str(), u32::MAX as u64);
    let minor = text::parse_number(parts[1].as_str(), u32::MAX as u64);
    let patch = text::parse_number(leading_digits(parts[2].as_str()).as_str(), u32::MAX as u64);
    match (major, minor, patch) {
        (Some(a), Some(b), Some(c)) => Some((a as u32, b as u32, c as u32)),
        _ => None,
    }
}

/// A version that the kernel runs on: 22.19 or later within 22, or 24 or later.
pub open spec fn is_compatible(v: (u32, u32, u32)) -> bool {
    (v.0 == MIN_MAJOR && v.1 >= MIN_MINOR) || v.0 >= MAJOR_ALT_FLOOR
}

/// Whether the kernel runs on a version.
pub fn compatible(v: (u32, u32, u32)) -> (r: bool)
    ensures
        r == is_compatible(v),
{
    (v.0 == MIN_MAJOR && v.1 >= MIN_MINOR) || v.0 >= MAJOR_ALT_FLOOR
}

/// A version in numbers and dots.
pub open spec fn version_label(v: (u32, u32, u32)) -> Seq<char> {
    text::decimal_text(v.0 as nat) + "."@ + text::decimal_text(v.1 as nat) + "."@ + text::decimal_text(v.2 as nat)
}

/// A version in numbers and dots.
pub fn format_version(v: (u32, u32, u32)) -> (r: String)
    ensures
        r@ == version_label(v),
{
    text::cat5(
        text::decimal(v.0 as u64).as_str(),
        ".",
        text::decimal(v.1 as u64).as_str(),
        ".",
        text::decimal(v.2 as u64).as_str(),
    )
}

proof fn lemma_digits_hold_no_mark(n: nat)
    ensures
        text::decimal_text(n).len() > 0,
        text::all_digits(text::decimal_text(n)),
        text::index_of_char(text::decimal_text(n), '.') == text::decimal_text(n).len(),
        digit_run(text::decimal_text(n)) == text::decimal_text(n).len(),
        !text::is_white(text::decimal_text(n)[0]),
        !text::is_white(text::decimal_text(n).last()),
{
    let d = text::decimal_text(n);
    text::lemma_decimal_value(n);
    assert forall|j: int| 0 <= j < d.len() implies d[j] != '.' by {
        assert(text::is_digit(d[j]));
    }
    text::lemma_index_of_char_is(d, '.', d.len() as int);
    lemma_digit_run(d, d.len() as int);
    assert(text::is_digit(d[0]));
    assert(text::is_digit(d[d.len() - 1]));
}

/// A version that is written with its `v` is read back.
pub proof fn law_version_is_read_back(v: (u32, u32, u32))
    ensures
        version_in("v"@ + version_label(v)) == Some((v.0 as nat, v.1 as nat, v.2 as nat)),
{
    let a = text::decimal_text(v.0 as nat);
    let b = text::decimal_text(v.1 as nat);
    let c = text::decimal_text(v.2 as nat);
    reveal_strlit("v");
    reveal_strlit(".");
    lemma_digits_hold_no_mark(v.0 as nat);
    lemma_digits_hold_no_mark(v.1 as nat);
    lemma_digits_hold_no_mark(v.2 as nat);
    let label = version_label(v);
    let whole = "v"@ + label;
    assert(whole[0] == 'v');
    assert(whole.last() == c.last());
    assert(text::trim_text(whole) == whole);
    assert(whole.drop_first() =~= label);
    let rest = b + "."@ + c;
    assert(label =~= a + "."@ + rest);
    lemma_split_at_mark(a, rest);
    lemma_split_at_mark(b, c);
    text::lemma_index_of_char(c, '.');
    assert(text::split_text(c, '.') =~= seq![c]);
    let parts = text::split_text(label, '.');
    assert(parts =~= seq![a, b, c]);
    assert(c.take(digit_run(c)) =~= c);
    text::lemma_number_of_decimal(v.0 as nat, u32::MAX as nat);
    text::lemma_number_of_decimal(v.1 as nat, u32::MAX as nat);
    text::lemma_number_of_decimal(v.2 as nat, u32::MAX as nat);
}

proof fn lemma_split_at_mark(a: Seq<char>, rest: Seq<char>)
    requires
        text::index_of_char(a, '.') == a.len(),
    ensures
        text::split_text(a + "."@ + rest, '.') == seq![a] + text::split_text(rest, '.'),
{
    reveal_strlit(".");
    let s = a + "."@ + rest;
    text::lemma_index_of_char(a, '.');
    assert forall|j: int| 0 <= j < a.len() implies s[j] != '.' by {
        assert(a[j] != '.');
    }
    assert(s[a.len() as int] == '.');
    text::lemma_index_of_char_is(s, '.', a.len() as int);
    assert(s.take(a.len() as int) =~= a);
    assert(s.skip(a.len() as int + 1) =~= rest);
}

// --------------------------------------------------------------------- aliases

/// How many alias files are followed.
pub const ALIAS_MAX_HOPS: usize = 5;

/// A walk along alias files, each of which names the next one or a version.
#[derive(Debug)]
pub struct AliasWalk {
    /// The name that was come to.
    pub name: String,
    /// The names whose files were asked for.
    pub seen: Vec<String>,
}

/// What a walk asks for next.
#[derive(Debug)]
pub enum AliasMove {
    /// The content of the alias file of this name.
    Read(String),
    /// The walk is over, with the version that it came to.
    Done(Option<String>),
}

/// The content of what a walk asks for.
#[verifier::ext_equal]
pub enum AliasModel {
    Read(Seq<char>),
    Done(Option<Seq<char>>),
}

impl View for AliasMove {
    type V = AliasModel;

    open spec fn view(&self) -> AliasModel {
        match self {
            AliasMove::Read(name) => AliasModel::Read(name@),
            AliasMove::Done(found) => AliasModel::Done(text::opt_text(*found)),
        }
    }
}

/// The version that a walk ends at: the name that it came to, unless that is
/// blank.
pub open spec fn walk_end(name: Seq<char>) -> Option<Seq<char>> {
    if text::trim_text(name).len() == 0 {
        None
    } else {
        Some(text::trim_text(name))
    }
}

/// What a walk asks for on coming to a name.
pub open spec fn walk_on(name: Seq<char>, seen: Seq<Seq<char>>) -> AliasModel {
    if seen.len() >= ALIAS_MAX_HOPS || seen.contains(name) {
        AliasModel::Done(walk_end(name))
    } else {
        AliasModel::Read(name)
    }
}

/// What a walk makes of the content of the file that it asked for: where there
/// is none, the name is the version; an empty file names nothing.
pub open spec fn walk_next(
    name: Seq<char>,
    seen: Seq<Seq<char>>,
    content: Option<Seq<char>>,
) -> AliasModel {
    match content {
        None => AliasModel::Done(walk_end(name)),
        Some(c) => if text::trim_text(c).len() == 0 {
            AliasModel::Done(None)
        } else {
            walk_on(text::trim_text(c), seen)
        },
    }
}

fn finish(name: &str) -> (r: Option<String>)
    ensures
        text::opt_text(r) == walk_end(name@),
{
    let t = text::trim(name);
    if t.as_str().is_empty() {
        None
    } else {
        Some(t)
    }
}

/// Begins a walk at an alias.
pub fn resolve_alias(start: &str) -> (r: (AliasWalk, AliasMove))
    ensures
        r.0.name@ == start@,
        text::texts(r.0.seen@) == seq![start@],
        r.1@ == AliasModel::Read(start@),
{
    let mut seen: Vec<String> = Vec::new();
    seen.push(text::owned(start));
    proof {
        assert(text::texts(seen@) =~= seq![start@]);
    }
    (AliasWalk { name: text::owned(start), seen }, AliasMove::Read(text::owned(start)))
}

impl AliasWalk {
    /// Takes the content of the alias file that was asked for, or that there is
    /// none, and goes on.
    pub fn step(&mut self, content: Option<&str>) -> (r: AliasMove)
        ensures
            r@ == walk_next(
                old(self).name@,
                text::texts(old(self).seen@),
                match content {
                    Some(c) => Some(c@),
                    None => None,
                },
            ),
            r@ matches AliasModel::Read(name) ==> final(self).name@ == name && text::texts(
                final(self).seen@,
            ) == text::texts(old(self).seen@).push(name),
    {
        let next = match content {
            None => {
                return AliasMove::Done(finish(self.name.as_str()));
            },
            Some(c) => text::trim(c),
        };
        if next.as_str().is_empty() {
            return AliasMove::Done(None);
        }
        proof {
            assert(text::texts(self.seen@).len() == self.seen@.len());
        }
        if self.seen.len() >= ALIAS_MAX_HOPS || text::listed(&self.seen, next.as_str()) {
            return AliasMove::Done(finish(next.as_str()));
        }
        let ghost before = text::texts(self.seen@);
        let name = next.clone();
        proof {
            assert(text::texts(self.seen@.push(name)) =~= before.push(name@));
        }
        self.seen.push(name);
        self.name = next.clone();
        AliasMove::Read(next)
    }
}

/// What a walk comes to when `files` tells the content of each alias file.
pub open spec fn walked(
    files: spec_fn(Seq<char>) -> Option<Seq<char>>,
    name: Seq<char>,
    seen: Seq<Seq<char>>,
) -> Option<Seq<char>>
    decreases ALIAS_MAX_HOPS - seen.len(),
{
    match walk_next(name, seen, files(name)) {
        AliasModel::Done(found) => found,
        AliasModel::Read(next) => if seen.len() < ALIAS_MAX_HOPS {
            walked(files, next, seen.push(next))
        } else {
            None
        },
    }
}

/// A walk asks for no more than five files, and never for one twice, so it
/// ends on every set of files.
pub proof fn law_alias_walk_ends(name: Seq<char>, seen: Seq<Seq<char>>, content: Option<Seq<char>>)
    ensures
        walk_next(name, seen, content) matches AliasModel::Read(next) ==> seen.len()
            < ALIAS_MAX_HOPS && !seen.contains(next),
{
}

/// Two aliases that name each other end the walk at the one that it started
/// from.
pub proof fn law_alias_cycle_ends(
    files: spec_fn(Seq<char>) -> Option<Seq<char>>,
    a: Seq<char>,
    b: Seq<char>,
)
    requires
        files(a) == Some(b),
        files(b) == Some(a),
        a != b,
        a.len() > 0,
        b.len() > 0,
        text::trim_text(a) == a,
        text::trim_text(b) == b,
    ensures
        walked(files, a, seq![a]) == Some(a),
{
    let seen = seq![a];
    assert(!seen.contains(b)) by {
        assert(seen[0] == a);
    }
    assert(walk_next(a, seen, files(a)) == AliasModel::Read(b));
    let after = seen.push(b);
    assert(after[0] == a);
    assert(after.contains(a));
    assert(walk_next(b, after, files(b)) == AliasModel::Done(Some(a)));
    reveal_with_fuel(walked, 3);
}

// --------------------------------------------------------------------- ordering

/// The version that a default names, without white space and a leading `v`.
pub open spec fn plain_spec(spec: Seq<char>) -> Option<Seq<char>> {
    let t = text::trim_text(spec);
    let s = match after_v(t) {
        Some(rest) => rest,
        None => t,
    };
    if s.len() == 0 {
        None
    } else {
        Some(s)
    }
}

/// The plain form of a default that may be missing.
pub open spec fn plain_default(spec: Option<&str>) -> Option<Seq<char>> {
    match spec {
        Some(s) => plain_spec(s@),
        None => None,
    }
}

/// The version that a default names, in its plain form.
pub fn normalize_spec(spec: Option<&str>) -> (r: Option<String>)
    ensures
        text::opt_text(r) == plain_default(spec),
{
    let t = match spec {
        Some(s) => text::trim(s),
        None => {
            return None;
        },
    };
    let s = match strip_v(t.as_str()) {
        Some(rest) => rest,
        None => t,
    };
    if s.as_str().is_empty() {
        None
    } else {
        Some(s)
    }
}

/// An installed version and its executable.
#[derive(Debug)]
pub struct NvmVersion {
    pub version: (u32, u32, u32),
    pub path: String,
}

/// The content of an installed version.
#[verifier::ext_equal]
pub struct NvmModel {
    pub version: (u32, u32, u32),
    pub path: Seq<char>,
}

impl View for NvmVersion {
    type V = NvmModel;

    open spec fn view(&self) -> NvmModel {
        NvmModel { version: self.version, path: self.path@ }
    }
}

/// The contents of a list of versions.
pub open spec fn nvm_models(v: Seq<NvmVersion>) -> Seq<NvmModel> {
    v.map_values(|x: NvmVersion| x@)
}

/// A version is newer than another.
pub open spec fn is_newer(a: (u32, u32, u32), b: (u32, u32, u32)) -> bool {
    a.0 > b.0 || (a.0 == b.0 && (a.1 > b.1 || (a.1 == b.1 && a.2 > b.2)))
}

/// Newer versions go first.
pub open spec fn newest_first(list: Seq<NvmModel>) -> spec_fn(int, int) -> bool {
    |a: int, b: int| is_newer(list[a].version, list[b].version)
}

/// `sorted` holds the entries of `list`, the newest first; entries of one
/// version keep their places.
pub open spec fn sorted_versions(list: Seq<NvmModel>, sorted: Seq<NvmModel>) -> bool {
    exists|order: Seq<usize>|
        #![trigger sort::permutes(order, list.len())]
        sort::permutes(order, list.len()) && sort::ordered(order, newest_first(list)) && sorted.len()
            == list.len() && forall|i: int|
            0 <= i < sorted.len() ==> (#[trigger] sorted[i]) == list[order[i] as int]
}

/// The first entry from `i` on whose version is exactly the one named.
pub open spec fn exact_from(sorted: Seq<NvmModel>, spec: Seq<char>, i: int) -> Option<int>
    decreases sorted.len() - i,
{
    if i < 0 || i >= sorted.len() {
        None
    } else if version_label(sorted[i].version) == spec {
        Some(i)
    } else {
        exact_from(sorted, spec, i + 1)
    }
}

/// The first entry from `i` on whose version begins with the one named.
pub open spec fn partial_from(sorted: Seq<NvmModel>, spec: Seq<char>, i: int) -> Option<int>
    decreases sorted.len() - i,
{
    if i < 0 || i >= sorted.len() {
        None
    } else if text::begins(version_label(sorted[i].version), spec + "."@) {
        Some(i)
    } else {
        partial_from(sorted, spec, i + 1)
    }
}

/// The entry that a default picks: the one of exactly that version, or the
/// first that begins with it.
pub open spec fn picked(sorted: Seq<NvmModel>, spec: Option<Seq<char>>) -> Option<int> {
    match spec {
        None => None,
        Some(s) => match exact_from(sorted, s, 0) {
            Some(i) => Some(i),
            None => partial_from(sorted, s, 0),
        },
    }
}

/// The executables of the compatible versions, without the entry `skip`.
pub open spec fn compatible_paths(sorted: Seq<NvmModel>, skip: Option<int>) -> Seq<Seq<char>>
    decreases sorted.len(),
{
    if sorted.len() == 0 {
        Seq::empty()
    } else {
        let before = compatible_paths(sorted.drop_last(), skip);
        if skip != Some(sorted.len() - 1) && is_compatible(sorted.last().version) {
            before.push(sorted.last().path)
        } else {
            before
        }
    }
}

/// The order in which installed versions are tried: the one that the default
/// picks, and then the compatible ones, the newest first.
pub open spec fn tried(sorted: Seq<NvmModel>, spec: Option<Seq<char>>) -> Seq<Seq<char>> {
    match picked(sorted, spec) {
        Some(i) => seq![sorted[i].path] + compatible_paths(sorted, Some(i)),
        None => compatible_paths(sorted, None),
    }
}

struct NewestFirst<'a> {
    list: &'a Vec<NvmVersion>,
}

impl<'a> sort::Ranked for NewestFirst<'a> {
    closed spec fn count(&self) -> nat {
        self.list@.len()
    }

    closed spec fn goes_before(&self, a: int, b: int) -> bool {
        is_newer(self.list@[a].version, self.list@[b].version)
    }

    fn size(&self) -> (r: usize) {
        self.list.len()
    }

    fn before(&self, a: usize, b: usize) -> (r: bool) {
        let x = self.list[a].version;
        let y = self.list[b].version;
        x.0 > y.0 || (x.0 == y.0 && (x.1 > y.1 || (x.1 == y.1 && x.2 > y.2)))
    }
}

fn sort_versions(installed: &Vec<NvmVersion>) -> (r: Vec<NvmVersion>)
    ensures
        sorted_versions(nvm_models(installed@), nvm_models(r@)),
{
    let ranked = NewestFirst { list: installed };
    let order = sort::order_by(&ranked);
    let mut out: Vec<NvmVersion> = Vec::new();
    let mut k: usize = 0;
    while k < order.len()
        invariant
            k <= order.len(),
            order.len() == installed.len(),
            sort::permutes(order@, installed@.len()),
            out.len() == k,
            forall|j: int| 0 <= j < k ==> (#[trigger] out@[j])@ == installed@[order@[j] as int]@,
        decreases order.len() - k,
    {
        proof {
            assert(order@[k as int] < installed@.len());
        }
        let e = &installed[order[k]];
        out.push(NvmVersion { version: e.version, path: e.path.clone() });
        k = k + 1;
    }
    proof {
        let list = nvm_models(installed@);
        let rel = sort::order_of(ranked);
        assert(sort::ordered(order@, newest_first(list))) by {
            assert forall|i: int, j: int| 0 <= i < j < order@.len() implies !newest_first(list)(
                (#[trigger] order@[j]) as int,
                (#[trigger] order@[i]) as int,
            ) && (newest_first(list)(order@[i] as int, order@[j] as int) || order@[i]
                < order@[j]) by {
                assert(!rel(order@[j] as int, order@[i] as int) && (rel(
                    order@[i] as int,
                    order@[j] as int,
                ) || order@[i] < order@[j]));
                assert(list[order@[i] as int] == installed@[order@[i] as int]@);
                assert(list[order@[j] as int] == installed@[order@[j] as int]@);
            }
        }
        assert(sort::permutes(order@, list.len()));
        assert forall|j: int| 0 <= j < nvm_models(out@).len() implies (#[trigger] nvm_models(
            out@,
        )[j]) == list[order@[j] as int] by {
            assert(nvm_models(out@)[j] == out@[j]@);
            assert(order@[j] < installed@.len());
            assert(list[order@[j] as int] == installed@[order@[j] as int]@);
        }
    }
    out
}

fn find_exact(sorted: &Vec<NvmVersion>, spec: &str) -> (r: Option<usize>)
    ensures
        match r {
            Some(i) => exact_from(nvm_models(sorted@), spec@, 0) == Some(i as int) && i
                < sorted.len(),
            None => exact_from(nvm_models(sorted@), spec@, 0) is None,
        },
{
    let mut i: usize = 0;
    while i < sorted.len()
        invariant
            i <= sorted.len(),
            exact_from(nvm_models(sorted@), spec@, 0) == exact_from(
                nvm_models(sorted@),
                spec@,
                i as int,
            ),
        decreases sorted.len() - i,
    {
        proof {
            assert(nvm_models(sorted@)[i as int] == sorted@[i as int]@);
        }
        if text::same(format_version(sorted[i].version).as_str(), spec) {
            return Some(i);
        }
        i = i + 1;
    }
    None
}

fn find_partial(sorted: &Vec<NvmVersion>, spec: &str) -> (r: Option<usize>)
    ensures
        match r {
            Some(i) => partial_from(nvm_models(sorted@), spec@, 0) == Some(i as int) && i
                < sorted.len(),
            None => partial_from(nvm_models(sorted@), spec@, 0) is None,
        },
{
    let stem = text::cat2(spec, ".");
    let mut i: usize = 0;
    while i < sorted.len()
        invariant
            i <= sorted.len(),
            stem@ == spec@ + "."@,
            partial_from(nvm_models(sorted@), spec@, 0) == partial_from(
                nvm_models(sorted@),
                spec@,
                i as int,
            ),
        decreases sorted.len() - i,
    {
        proof {
            assert(nvm_models(sorted@)[i as int] == sorted@[i as int]@);
        }
        if text::starts_with(format_version(sorted[i].version).as_str(), stem.as_str()) {
            return Some(i);
        }
        i = i + 1;
    }
    None
}

/// The order in which installed versions are tried.
pub fn order_nvm_versions(installed: &Vec<NvmVersion>, default_spec: Option<&str>) -> (r: Vec<
    String,
>)
    ensures
        exists|sorted: Seq<NvmModel>| #[trigger]
            sorted_versions(nvm_models(installed@), sorted) && text::texts(r@) == tried(
                sorted,
                plain_default(default_spec),
            ),
{
    let sorted = sort_versions(installed);
    let ghost models = nvm_models(sorted@);
    let spec = normalize_spec(default_spec);
    let head: Option<usize> = match &spec {
        None => None,
        Some(s) => match find_exact(&sorted, s.as_str()) {
            Some(i) => Some(i),
            None => find_partial(&sorted, s.as_str()),
        },
    };
    let ghost skip = match head {
        Some(i) => Some(i as int),
        None => None,
    };
    proof {
        assert(skip == picked(models, plain_default(default_spec)));
    }
    let mut out: Vec<String> = Vec::new();
    let ghost mut first: Seq<Seq<char>> = Seq::empty();
    match head {
        Some(i) => {
            let p = sorted[i].path.clone();
            out.push(p);
            proof {
                first = seq![models[i as int].path];
                assert(models[i as int] == sorted@[i as int]@);
                assert(text::texts(out@) =~= first);
            }
        },
        None => {
            proof {
                assert(text::texts(out@) =~= first);
            }
        },
    }
    let mut k: usize = 0;
    proof {
        assert(models.take(0) =~= Seq::<NvmModel>::empty());
        assert(first + compatible_paths(models.take(0), skip) =~= first);
    }
    while k < sorted.len()
        invariant
            k <= sorted.len(),
            models == nvm_models(sorted@),
            skip == (match head {
                Some(i) => Some(i as int),
                None => None,
            }),
            text::texts(out@) == first + compatible_paths(models.take(k as int), skip),
        decreases sorted.len() - k,
    {
        proof {
            assert(models[k as int] == sorted@[k as int]@);
            assert(models.take(k + 1).drop_last() =~= models.take(k as int));
        }
        let skipped = match head {
            Some(i) => i == k,
            None => false,
        };
        if !skipped && compatible(sorted[k].version) {
            let p = sorted[k].path.clone();
            proof {
                let was = compatible_paths(models.take(k as int), skip);
                assert(text::texts(out@.push(p)) =~= text::texts(out@).push(p@));
                assert((first + was).push(p@) =~= first + was.push(p@));
            }
            out.push(p);
        }
        k = k + 1;
    }
    proof {
        assert(models.take(models.len() as int) =~= models);
        assert(text::texts(out@) =~= tried(models, plain_default(default_spec)));
    }
    out
}

/// Besides the one that the default picks, only compatible versions are tried.
pub proof fn law_incompatible_versions_are_dropped(
    sorted: Seq<NvmModel>,
    skip: Option<int>,
    path: Seq<char>,
)
    requires
        compatible_paths(sorted, skip).contains(path),
    ensures
        exists|i: int|
            0 <= i < sorted.len() && skip != Some(i) && (#[trigger] sorted[i]).path == path
                && is_compatible(sorted[i].version),
    decreases sorted.len(),
{
    if sorted.len() > 0 {
        let before = compatible_paths(sorted.drop_last(), skip);
        let last = sorted.last();
        let now = compatible_paths(sorted, skip);
        let k = choose|k: int| 0 <= k < now.len() && now[k] == path;
        if k < before.len() {
            assert(before[k] == path);
            assert(before.contains(path));
            law_incompatible_versions_are_dropped(sorted.drop_last(), skip, path);
            let i = choose|i: int|
                0 <= i < sorted.drop_last().len() && skip != Some(i) && (
                #[trigger] sorted.drop_last()[i]).path == path && is_compatible(
                    sorted.drop_last()[i].version,
                );
            assert(sorted[i] == sorted.drop_last()[i]);
        } else {
            assert(sorted[sorted.len() - 1] == last);
        }
    }
}

/// Every compatible version is tried besides the one that the default picks.
pub proof fn law_compatible_versions_are_tried(
    sorted: Seq<NvmModel>,
    skip: Option<int>,
    i: int,
)
    requires
        0 <= i < sorted.len(),
        skip != Some(i),
        is_compatible(sorted[i].version),
    ensures
        compatible_paths(sorted, skip).contains(sorted[i].path),
    decreases sorted.len(),
{
    let before = compatible_paths(sorted.drop_last(), skip);
    let now = compatible_paths(sorted, skip);
    if i < sorted.len() - 1 {
        law_compatible_versions_are_tried(sorted.drop_last(), skip, i);
        let k = choose|k: int| 0 <= k < before.len() && before[k] == sorted[i].path;
        assert(now[k] == before[k]);
    } else {
        assert(now[now.len() - 1] == sorted[i].path);
    }
}

/// No two entries have one version.
pub open spec fn distinct_versions(list: Seq<NvmModel>) -> bool {
    forall|i: int, j: int|
        0 <= i < j < list.len() ==> (#[trigger] list[i]).version != (#[trigger] list[j]).version
}

proof fn lemma_sorted(list: Seq<NvmModel>, sorted: Seq<NvmModel>)
    requires
        sorted_versions(list, sorted),
        distinct_versions(list),
    ensures
        sorted.len() == list.len(),
        forall|i: int, j: int|
            0 <= i < j < sorted.len() ==> is_newer(
                (#[trigger] sorted[i]).version,
                (#[trigger] sorted[j]).version,
            ),
        forall|e: NvmModel| #[trigger] sorted.contains(e) <==> list.contains(e),
{
    let order = choose|order: Seq<usize>|
        #![trigger sort::permutes(order, list.len())]
        sort::permutes(order, list.len()) && sort::ordered(order, newest_first(list)) && sorted.len()
            == list.len() && forall|i: int|
            0 <= i < sorted.len() ==> (#[trigger] sorted[i]) == list[order[i] as int];
    assert forall|i: int, j: int| 0 <= i < j < sorted.len() implies is_newer(
        (#[trigger] sorted[i]).version,
        (#[trigger] sorted[j]).version,
    ) by {
        let a = order[i];
        let b = order[j];
        assert(!newest_first(list)(b as int, a as int));
        if a < b {
            assert(list[a as int].version != list[b as int].version);
        } else {
            assert(list[b as int].version != list[a as int].version);
        }
    }
    assert forall|e: NvmModel| #[trigger] sorted.contains(e) <==> list.contains(e) by {
        if sorted.contains(e) {
            let i = choose|i: int| 0 <= i < sorted.len() && sorted[i] == e;
            assert(order[i] < list.len());
            assert(list[order[i] as int] == e);
        }
        if list.contains(e) {
            let k = choose|k: int| 0 <= k < list.len() && list[k] == e;
            sort::lemma_holds_all(order, list.len(), k);
            let p = choose|p: int| 0 <= p < order.len() && order[p] == k;
            assert(sorted[p] == e);
        }
    }
}

proof fn lemma_same_install(a: Seq<NvmModel>, b: Seq<NvmModel>, i: int)
    requires
        a.len() == b.len(),
        forall|i: int, j: int|
            0 <= i < j < a.len() ==> is_newer(
                (#[trigger] a[i]).version,
                (#[trigger] a[j]).version,
            ),
        forall|i: int, j: int|
            0 <= i < j < b.len() ==> is_newer(
                (#[trigger] b[i]).version,
                (#[trigger] b[j]).version,
            ),
        forall|e: NvmModel| #[trigger] a.contains(e) <==> b.contains(e),
        0 <= i < a.len(),
    ensures
        a[i] == b[i],
    decreases i,
{
    assert forall|k: int| 0 <= k < i implies a[k] == b[k] by {
        lemma_same_install(a, b, k);
    }
    if a[i] != b[i] {
        assert(a.contains(a[i]));
        assert(b.contains(b[i]));
        let p = choose|p: int| 0 <= p < b.len() && b[p] == a[i];
        assert(b.contains(b[i]) <==> a.contains(b[i]));
        let q = choose|q: int| 0 <= q < a.len() && a[q] == b[i];
        if p < i {
            assert(a[p] == b[p]);
            assert(is_newer(a[p].version, a[i].version));
        } else if q < i {
            assert(a[q] == b[q]);
            assert(is_newer(b[q].version, b[i].version));
        } else {
            assert(is_newer(b[i].version, b[p].version));
            assert(is_newer(a[i].version, a[q].version));
        }
    }
}

/// The order in which versions were found does not matter: where no two have
/// one version, any order of them is tried in the same way.
pub proof fn law_the_order_of_installs_does_not_matter(
    a: Seq<NvmModel>,
    b: Seq<NvmModel>,
    sorted_a: Seq<NvmModel>,
    sorted_b: Seq<NvmModel>,
    spec: Option<Seq<char>>,
)
    requires
        distinct_versions(a),
        a.to_multiset() == b.to_multiset(),
        sorted_versions(a, sorted_a),
        sorted_versions(b, sorted_b),
    ensures
        sorted_a == sorted_b,
        tried(sorted_a, spec) == tried(sorted_b, spec),
{
    broadcast use vstd::seq_lib::group_to_multiset_ensures;

    assert(a.len() == a.to_multiset().len() && b.len() == b.to_multiset().len());
    assert forall|e: NvmModel| a.contains(e) <==> b.contains(e) by {
        assert(a.contains(e) <==> a.to_multiset().count(e) > 0);
        assert(b.contains(e) <==> b.to_multiset().count(e) > 0);
    }
    lemma_distinct_permuted(a, b);
    lemma_sorted(a, sorted_a);
    lemma_sorted(b, sorted_b);
    assert forall|i: int| 0 <= i < sorted_a.len() implies sorted_a[i] == sorted_b[i] by {
        lemma_same_install(sorted_a, sorted_b, i);
    }
    assert(sorted_a =~= sorted_b);
}

proof fn lemma_distinct_permuted(a: Seq<NvmModel>, b: Seq<NvmModel>)
    requires
        distinct_versions(a),
        a.to_multiset() == b.to_multiset(),
        forall|e: NvmModel| a.contains(e) <==> b.contains(e),
    ensures
        distinct_versions(b),
{
    assert(a.no_duplicates());
    a.lemma_multiset_has_no_duplicates();
    b.lemma_multiset_has_no_duplicates_conv();
    assert forall|i: int, j: int| 0 <= i < j < b.len() implies (#[trigger] b[i]).version != (
    #[trigger] b[j]).version by {
        assert(b[i] != b[j]);
        assert(b.contains(b[i]) && b.contains(b[j]));
        let p = choose|p: int| 0 <= p < a.len() && a[p] == b[i];
        let q = choose|q: int| 0 <= q < a.len() && a[q] == b[j];
        assert(p != q);
        if p < q {
            assert(a[p].version != a[q].version);
        } else {
            assert(a[q].version != a[p].version);
        }
    }
}

/// The version that a default names exactly is tried first; where there is
/// none, the newest that begins with it.
pub proof fn law_the_default_is_tried_first(
    list: Seq<NvmModel>,
    sorted: Seq<NvmModel>,
    spec: Seq<char>,
    e: NvmModel,
)
    requires
        distinct_versions(list),
        sorted_versions(list, sorted),
        list.contains(e),
    ensures
        version_label(e.version) == spec ==> tried(sorted, Some(spec)).len() > 0 && exists|
            first: NvmModel,
        |
            list.contains(first) && version_label(first.version) == spec && tried(
                sorted,
                Some(spec),
            )[0] == #[trigger] first.path,
        text::begins(version_label(e.version), spec + "."@) && (forall|o: NvmModel|
            #[trigger] list.contains(o) ==> version_label(o.version) != spec) ==> tried(
            sorted,
            Some(spec),
        ).len() > 0 && exists|first: NvmModel|
            list.contains(first) && text::begins(version_label(first.version), spec + "."@) && (
            first == e || is_newer(first.version, e.version)) && tried(sorted, Some(spec))[0]
                == #[trigger] first.path,
{
    lemma_sorted(list, sorted);
    let k = choose|k: int| 0 <= k < sorted.len() && sorted[k] == e;
    assert(sorted.contains(e));
    if version_label(e.version) == spec {
        lemma_exact(sorted, spec, 0, k);
        let i = exact_from(sorted, spec, 0)->0;
        assert(sorted.contains(sorted[i]));
        assert(tried(sorted, Some(spec))[0] == sorted[i].path);
    } else if text::begins(version_label(e.version), spec + "."@) && (forall|o: NvmModel|
        #[trigger] list.contains(o) ==> version_label(o.version) != spec) {
        lemma_no_exact(sorted, spec, 0);
        lemma_partial(sorted, spec, 0, k);
        let i = partial_from(sorted, spec, 0)->0;
        assert(sorted.contains(sorted[i]));
        assert(tried(sorted, Some(spec))[0] == sorted[i].path);
        if i < k {
            assert(is_newer(sorted[i].version, sorted[k].version));
        }
    }
}

proof fn lemma_exact(sorted: Seq<NvmModel>, spec: Seq<char>, from: int, k: int)
    requires
        0 <= from <= k < sorted.len(),
        version_label(sorted[k].version) == spec,
    ensures
        exact_from(sorted, spec, from) matches Some(i) && from <= i <= k && version_label(
            sorted[i].version,
        ) == spec,
    decreases k - from,
{
    if version_label(sorted[from].version) != spec {
        lemma_exact(sorted, spec, from + 1, k);
    }
}

proof fn lemma_no_exact(sorted: Seq<NvmModel>, spec: Seq<char>, from: int)
    requires
        0 <= from <= sorted.len(),
        forall|o: NvmModel| #[trigger] sorted.contains(o) ==> version_label(o.version) != spec,
    ensures
        exact_from(sorted, spec, from) is None,
    decreases sorted.len() - from,
{
    if from < sorted.len() {
        assert(sorted.contains(sorted[from]));
        lemma_no_exact(sorted, spec, from + 1);
    }
}

proof fn lemma_partial(sorted: Seq<NvmModel>, spec: Seq<char>, from: int, k: int)
    requires
        0 <= from <= k < sorted.len(),
        text::begins(version_label(sorted[k].version), spec + "."@),
    ensures
        partial_from(sorted, spec, from) matches Some(i) && from <= i <= k && text::begins(
            version_label(sorted[i].version),
            spec + "."@,
        ),
    decreases k - from,
{
    if !text::begins(version_label(sorted[from].version), spec + "."@) {
        lemma_partial(sorted, spec, from + 1, k);
    }
}

// ------------------------------------------------------------------ candidates

/// A directory that may hold a version of nvm's.
#[derive(Debug)]
pub struct NvmEntry {
    /// The directory's name.
    pub name: String,
    /// The executable that it would hold.
    pub node: String,
    /// Whether it does.
    pub present: bool,
}

/// The versions among directories whose names tell them.
pub open spec fn entry_versions(entries: Seq<NvmEntry>) -> Seq<NvmModel>
    decreases entries.len(),
{
    if entries.len() == 0 {
        Seq::empty()
    } else {
        let before = entry_versions(entries.drop_last());
        let e = entries.last();
        match version_in(e.name@) {
            Some(v) if e.present => before.push(
                NvmModel { version: (v.0 as u32, v.1 as u32, v.2 as u32), path: e.node@ },
            ),
            _ => before,
        }
    }
}

/// The executables in directories whose names tell no version.
pub open spec fn entry_others(entries: Seq<NvmEntry>) -> Seq<Seq<char>>
    decreases entries.len(),
{
    if entries.len() == 0 {
        Seq::empty()
    } else {
        let before = entry_others(entries.drop_last());
        let e = entries.last();
        if e.present && version_in(e.name@) is None {
            before.push(e.node@)
        } else {
            before
        }
    }
}

/// The executables of nvm in the order in which they are tried: the active one,
/// where there is such a link, the versions in their order, and those whose
/// version is not told.
pub fn nvm_candidates(
    entries: &Vec<NvmEntry>,
    active: Option<String>,
    default_spec: Option<&str>,
) -> (r: Vec<String>)
    ensures
        exists|sorted: Seq<NvmModel>| #[trigger]
            sorted_versions(entry_versions(entries@), sorted) && text::texts(r@) == (match text::opt_text(
                active,
            ) {
                Some(a) => seq![a],
                None => Seq::empty(),
            }) + tried(sorted, plain_default(default_spec)) + entry_others(entries@),
{
    let mut installed: Vec<NvmVersion> = Vec::new();
    let mut others: Vec<String> = Vec::new();
    let mut i: usize = 0;
    proof {
        assert(entries@.take(0) =~= Seq::<NvmEntry>::empty());
        assert(nvm_models(installed@) =~= Seq::<NvmModel>::empty());
        assert(text::texts(others@) =~= Seq::<Seq<char>>::empty());
    }
    while i < entries.len()
        invariant
            i <= entries.len(),
            nvm_models(installed@) == entry_versions(entries@.take(i as int)),
            text::texts(others@) == entry_others(entries@.take(i as int)),
        decreases entries.len() - i,
    {
        let e = &entries[i];
        proof {
            assert(entries@.take(i + 1).drop_last() =~= entries@.take(i as int));
        }
        if e.present {
            match parse_version(e.name.as_str()) {
                Some(v) => {
                    let n = NvmVersion { version: v, path: e.node.clone() };
                    proof {
                        assert(nvm_models(installed@.push(n)) =~= nvm_models(installed@).push(n@));
                    }
                    installed.push(n);
                },
                None => {
                    let p = e.node.clone();
                    proof {
                        assert(text::texts(others@.push(p)) =~= text::texts(others@).push(p@));
                    }
                    others.push(p);
                },
            }
        }
        i = i + 1;
    }
    proof {
        assert(entries@.take(entries@.len() as int) =~= entries@);
    }
    let ordered_paths = order_nvm_versions(&installed, default_spec);
    let ghost lead: Seq<Seq<char>> = match text::opt_text(active) {
        Some(a) => seq![a],
        None => Seq::empty(),
    };
    let mut out: Vec<String> = Vec::new();
    match active {
        Some(a) => {
            out.push(a);
        },
        None => {},
    }
    proof {
        assert(text::texts(out@) =~= lead);
    }
    append(&mut out, &ordered_paths);
    append(&mut out, &others);
    out
}

/// Adds copies of texts at the end of a list.
pub fn append(out: &mut Vec<String>, more: &Vec<String>)
    ensures
        text::texts(final(out)@) == text::texts(old(out)@) + text::texts(more@),
{
    let ghost first = text::texts(out@);
    let mut i: usize = 0;
    proof {
        assert(text::texts(more@).take(0) =~= Seq::<Seq<char>>::empty());
        assert(first + text::texts(more@).take(0) =~= first);
    }
    while i < more.len()
        invariant
            i <= more.len(),
            text::texts(out@) == first + text::texts(more@).take(i as int),
        decreases more.len() - i,
    {
        let s = more[i].clone();
        proof {
            assert(text::texts(more@)[i as int] == s@);
            assert(text::texts(out@.push(s)) =~= text::texts(out@).push(s@));
            assert(text::texts(more@).take(i + 1) =~= text::texts(more@).take(i as int).push(s@));
            assert((first + text::texts(more@).take(i as int)).push(s@) =~= first + text::texts(more@).take(
                i + 1,
            ));
        }
        out.push(s);
        i = i + 1;
    }
    proof {
        assert(text::texts(more@).take(more@.len() as int) =~= text::texts(more@));
    }
}

/// Where nvm keeps its versions: the directory that is set, or `.nvm` under the
/// user's home.
pub fn nvm_root(nvm_dir: Option<&str>, home: &str) -> (r: String)
    ensures
        r@ == (match nvm_dir {
            Some(d) => d@,
            None => paths::joined(home@, ".nvm"@),
        }),
{
    match nvm_dir {
        Some(d) => text::owned(d),
        None => paths::join(home, ".nvm"),
    }
}

/// Where nvm keeps its versions on Windows: the directory that is set, then the
/// usual one, as far as they are there. The same place is not listed twice.
pub open spec fn windows_roots(
    nvm_home: Option<Seq<char>>,
    appdata: Option<Seq<char>>,
    dirs: Seq<Seq<char>>,
) -> Seq<Seq<char>> {
    let set: Seq<Seq<char>> = match nvm_home {
        Some(d) if dirs.contains(d) => seq![d],
        _ => Seq::empty(),
    };
    match appdata {
        Some(a) => {
            let usual = paths::joined(a, "nvm"@);
            if dirs.contains(usual) && !(set.len() > 0 && paths::path_parts(set[0])
                == paths::path_parts(usual)) {
                set.push(usual)
            } else {
                set
            }
        },
        None => set,
    }
}

/// Where nvm keeps its versions on Windows, of the directories that are there.
pub fn nvm_roots(nvm_home: Option<&str>, appdata: Option<&str>, dirs: &Vec<String>) -> (r: Vec<
    String,
>)
    ensures
        text::texts(r@) == windows_roots(
            match nvm_home {
                Some(d) => Some(d@),
                None => None,
            },
            match appdata {
                Some(a) => Some(a@),
                None => None,
            },
            text::texts(dirs@),
        ),
{
    let mut out: Vec<String> = Vec::new();
    match nvm_home {
        Some(d) => {
            if text::listed(dirs, d) {
                out.push(text::owned(d));
            }
        },
        None => {},
    }
    let ghost set = text::texts(out@);
    proof {
        assert(set =~= match nvm_home {
            Some(d) if text::texts(dirs@).contains(d@) => seq![d@],
            _ => Seq::<Seq<char>>::empty(),
        });
    }
    match appdata {
        Some(a) => {
            let usual = paths::join(a, "nvm");
            let twice = out.len() > 0 && paths::same_path(out[0].as_str(), usual.as_str());
            if text::listed(dirs, usual.as_str()) && !twice {
                proof {
                    assert(text::texts(out@.push(usual)) =~= set.push(usual@));
                }
                out.push(usual);
            }
        },
        None => {},
    }
    out
}

/// The kernel runs on 22.19 and whatever follows within 22, on nothing of 23,
/// and on everything from 24 on. The third number does not matter.
pub proof fn law_supported_versions(major: u32, minor: u32, patch: u32)
    ensures
        major < 22 || major == 23 ==> !is_compatible((major, minor, patch)),
        major == 22 ==> (is_compatible((major, minor, patch)) <==> minor >= 19),
        major >= 24 ==> is_compatible((major, minor, patch)),
{
}

/// Versions are compared number by number, the first one first. Of two that
/// differ one is the newer, and what is newer than a newer one is newer too.
pub proof fn law_newer_versions(a: (u32, u32, u32), b: (u32, u32, u32), c: (u32, u32, u32))
    ensures
        !is_newer(a, a),
        a != b ==> is_newer(a, b) != is_newer(b, a),
        is_newer(a, b) && is_newer(b, c) ==> is_newer(a, c),
        a.0 > b.0 ==> is_newer(a, b),
        a.0 == b.0 && a.1 > b.1 ==> is_newer(a, b),
        a.0 == b.0 && a.1 == b.1 && a.2 > b.2 ==> is_newer(a, b),
{
}

/// What follows the third number of a version, such as the mark of a trial
/// version, is passed over; and a text that does not begin with a `v` names no
/// version.
pub proof fn law_marks_after_a_version_are_passed_over(
    v: (u32, u32, u32),
    mark: Seq<char>,
    other: Seq<char>,
)
    requires
        mark.len() > 0,
        !text::is_digit(mark[0]),
        !text::is_white(mark.last()),
        forall|i: int| 0 <= i < mark.len() ==> (#[trigger] mark[i]) != '.',
    ensures
        version_in("v"@ + version_label(v) + mark) == Some((v.0 as nat, v.1 as nat, v.2 as nat)),
        text::trim_text(other).len() == 0 || text::trim_text(other)[0] != 'v' ==> version_in(other) is None,
{
    let a = text::decimal_text(v.0 as nat);
    let b = text::decimal_text(v.1 as nat);
    let d = text::decimal_text(v.2 as nat);
    let c = d + mark;
    reveal_strlit("v");
    reveal_strlit(".");
    lemma_digits_hold_no_mark(v.0 as nat);
    lemma_digits_hold_no_mark(v.1 as nat);
    lemma_digits_hold_no_mark(v.2 as nat);
    let whole = "v"@ + version_label(v) + mark;
    let label = whole.drop_first();
    assert(whole[0] == 'v');
    assert(whole.last() == mark.last());
    assert(text::trim_text(whole) == whole);
    let rest = b + "."@ + c;
    assert(label =~= a + "."@ + rest);
    lemma_split_at_mark(a, rest);
    lemma_split_at_mark(b, c);
    text::lemma_index_of_char(c, '.');
    text::lemma_index_of_char(d, '.');
    assert forall|j: int| 0 <= j < c.len() implies c[j] != '.' by {
        if j < d.len() {
            assert(c[j] == d[j]);
        } else {
            assert(c[j] == mark[j - d.len()]);
        }
    }
    text::lemma_index_of_char_is(c, '.', c.len() as int);
    assert(text::split_text(c, '.') =~= seq![c]);
    let parts = text::split_text(label, '.');
    assert(parts =~= seq![a, b, c]);
    assert forall|j: int| 0 <= j < d.len() implies text::is_digit(#[trigger] c[j]) by {
        assert(text::is_digit(d[j]));
    }
    assert(c[d.len() as int] == mark[0]);
    lemma_digit_run(c, d.len() as int);
    assert(c.take(digit_run(c)) =~= d);
    text::lemma_number_of_decimal(v.0 as nat, u32::MAX as nat);
    text::lemma_number_of_decimal(v.1 as nat, u32::MAX as nat);
    text::lemma_number_of_decimal(v.2 as nat, u32::MAX as nat);
}

/// An alias that names a version leads to it, directly or by way of another
/// alias; one whose file is empty leads nowhere. No more than five files are
/// read, and the fifth still is.
pub proof fn law_aliases_lead_to_versions(
    files: spec_fn(Seq<char>) -> Option<Seq<char>>,
    a: Seq<char>,
    b: Seq<char>,
    c: Seq<char>,
    seen: Seq<Seq<char>>,
)
    requires
        a.len() > 0,
        b.len() > 0,
        c.len() > 0,
        text::trim_text(b) == b,
        text::trim_text(c) == c,
        a != b,
        c != a,
        c != b,
    ensures
        files(a) == Some(b) && files(b) is None ==> walked(files, a, seq![a]) == Some(b),
        files(a) == Some(b) && files(b) == Some(c) && files(c) is None ==> walked(
            files,
            a,
            seq![a],
        ) == Some(c),
        files(a) == Some(Seq::<char>::empty()) ==> walked(files, a, seq![a]) is None,
        seen.len() >= 5 ==> !(walk_next(a, seen, Some(b)) is Read),
        seen.len() < 5 && !seen.contains(b) ==> walk_next(a, seen, Some(b)) == AliasModel::Read(b),
{
    reveal_with_fuel(walked, 4);
    let one = seq![a];
    let two = one.push(b);
    assert(!one.contains(b));
    assert(!two.contains(c));
    assert(text::trim_text(Seq::<char>::empty()).len() == 0);
}

/// A default is read with or without its `v`, and white space round it does not
/// matter; a blank one is none.
pub proof fn law_defaults_are_read_plain(s: Seq<char>)
    requires
        text::trim_text(s) == s,
    ensures
        s.len() > 0 && s[0] != 'v' ==> plain_spec(s) == Some(s) && plain_spec("v"@ + s) == Some(s),
        s.len() == 0 ==> plain_spec(s) is None,
{
    reveal_strlit("v");
    if s.len() > 0 && s[0] != 'v' {
        let t = "v"@ + s;
        assert(t[0] == 'v');
        assert(t.last() == s.last());
        text::lemma_trim_keeps(s);
        assert(text::trim_text(t) == t);
        assert(t.drop_first() =~= s);
    }
}

/// Compatible versions are tried from the newest to the oldest.
pub proof fn law_newer_versions_are_tried_first(
    list: Seq<NvmModel>,
    sorted: Seq<NvmModel>,
    skip: Option<int>,
    i: int,
    j: int,
)
    requires
        sorted_versions(list, sorted),
        0 <= i < sorted.len(),
        0 <= j < sorted.len(),
        is_newer(sorted[i].version, sorted[j].version),
        is_compatible(sorted[i].version),
        is_compatible(sorted[j].version),
        skip != Some(i),
        skip != Some(j),
    ensures
        exists|a: int, b: int|
            0 <= a < b < compatible_paths(sorted, skip).len() && #[trigger] compatible_paths(
                sorted,
                skip,
            )[a] == sorted[i].path && #[trigger] compatible_paths(sorted, skip)[b]
                == sorted[j].path,
{
    let order = choose|order: Seq<usize>|
        #![trigger sort::permutes(order, list.len())]
        sort::permutes(order, list.len()) && sort::ordered(order, newest_first(list))
            && sorted.len() == list.len() && forall|k: int|
            0 <= k < sorted.len() ==> (#[trigger] sorted[k]) == list[order[k] as int];
    assert(sorted[i] == list[order[i] as int]);
    assert(sorted[j] == list[order[j] as int]);
    if j < i {
        assert(!newest_first(list)(order[i] as int, order[j] as int));
    }
    assert(i < j);
    let a = lemma_path_place(sorted, skip, i);
    let b = lemma_path_place(sorted, skip, j);
    lemma_places_rise(sorted, skip, i, j);
}

/// How many paths stand before the one of entry `i`.
spec fn place_of(sorted: Seq<NvmModel>, skip: Option<int>, i: int) -> int {
    compatible_paths(sorted.take(i), skip).len() as int
}

proof fn lemma_path_place(sorted: Seq<NvmModel>, skip: Option<int>, i: int) -> (a: int)
    requires
        0 <= i < sorted.len(),
        is_compatible(sorted[i].version),
        skip != Some(i),
    ensures
        a == place_of(sorted, skip, i),
        0 <= a < compatible_paths(sorted, skip).len(),
        compatible_paths(sorted, skip)[a] == sorted[i].path,
    decreases sorted.len(),
{
    let init = sorted.drop_last();
    if i < init.len() {
        let a = lemma_path_place(init, skip, i);
        assert(init.take(i) =~= sorted.take(i));
        assert(compatible_paths(sorted, skip)[a] == compatible_paths(init, skip)[a]);
        a
    } else {
        assert(sorted.take(i) =~= init);
        compatible_paths(init, skip).len() as int
    }
}

proof fn lemma_places_rise(sorted: Seq<NvmModel>, skip: Option<int>, i: int, j: int)
    requires
        0 <= i < j < sorted.len(),
        is_compatible(sorted[i].version),
        skip != Some(i),
    ensures
        place_of(sorted, skip, i) < place_of(sorted, skip, j),
    decreases j,
{
    let t = sorted.take(j);
    assert(t.drop_last() =~= sorted.take(j - 1));
    assert(t.last() == sorted[j - 1]);
    if j - 1 > i {
        lemma_places_rise(sorted, skip, i, j - 1);
    } else {
        assert(t.len() - 1 == i);
    }
}

/// A directory that holds an executable is tried as the version that its name
/// tells, or without one where it tells none; a directory without an executable
/// is not tried.
pub proof fn law_directories_are_tried(entries: Seq<NvmEntry>, e: NvmEntry)
    ensures
        ({
            let all = entries.push(e);
            &&& !e.present ==> entry_versions(all) == entry_versions(entries) && entry_others(all)
                == entry_others(entries)
            &&& e.present && version_in(e.name@) is None ==> entry_versions(all) == entry_versions(
                entries,
            ) && entry_others(all) == entry_others(entries).push(e.node@)
            &&& e.present && version_in(e.name@) is Some ==> {
                let v = version_in(e.name@)->0;
                entry_others(all) == entry_others(entries) && entry_versions(all).len()
                    == entry_versions(entries).len() + 1 && entry_versions(all).last().path
                    == e.node@ && entry_versions(all).last().version.0 == v.0 as u32
                    && entry_versions(all).last().version.1 == v.1 as u32 && entry_versions(
                    all,
                ).last().version.2 == v.2 as u32
            }
        }),
{
    assert(entries.push(e).drop_last() =~= entries);
}

/// On Windows a place of nvm's is looked at exactly where it is there: the one
/// that is set, and then the usual one, and one place never twice.
pub proof fn law_places_of_nvm_on_windows(
    set: Seq<char>,
    appdata: Seq<char>,
    dirs: Seq<Seq<char>>,
)
    ensures
        ({
            let usual = paths::joined(appdata, "nvm"@);
            let r = windows_roots(Some(set), Some(appdata), dirs);
            &&& dirs.contains(set) ==> r.len() > 0 && r[0] == set
            &&& !dirs.contains(set) && dirs.contains(usual) ==> r == seq![usual]
            &&& !dirs.contains(set) && !dirs.contains(usual) ==> r.len() == 0
            &&& dirs.contains(set) && dirs.contains(usual) ==> r.len() == (
            if paths::path_parts(set) == paths::path_parts(usual) {
                1
            } else {
                2nat
            })
            &&& r.len() == 2 ==> r[1] == usual
        }),
        windows_roots(None, None, dirs).len() == 0,
{
    let usual = paths::joined(appdata, "nvm"@);
    let r = windows_roots(Some(set), Some(appdata), dirs);
    if !dirs.contains(set) && dirs.contains(usual) {
        assert(r =~= seq![usual]);
    }
}

} // verus!
