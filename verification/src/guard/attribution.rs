//! Attribution of a start failure or page error to an installed plugin, to the
//! kernel, or to the environment, by the lines of a log.

use crate::guard::incident;
use crate::guard::incident::{Suspect, SuspectModel, MAX_SUSPECTS};
use crate::plugins;
use crate::plugins::{PluginModel, StoreItem};
use crate::text;
use vstd::prelude::*;

verus! {

/// The longest excerpt that serves as evidence, in characters.
pub const EVIDENCE_MAX_CHARS: usize = 480;

// --------------------------------------------------------------- error lines

/// A line that reads like an HTTP access with a client or server error.
pub open spec fn http_failure(line: Seq<char>) -> bool {
    let low = text::lower_text(line);
    (text::has(low, " 4"@) || text::has(low, " 5"@)) && (text::has(low, "http"@) || text::has(low, "get "@) || text::has(
        low,
        "post "@,
    ) || text::has(low, "put "@) || text::has(low, "delete "@))
}

/// A line that holds one of the words by which errors are logged.
pub open spec fn error_word(line: Seq<char>) -> bool {
    ||| text::has(line, "Error"@)
    ||| text::has(line, "error"@)
    ||| text::has(line, "ERR_"@)
    ||| text::has(line, "Cannot"@)
    ||| text::has(line, "cannot"@)
    ||| text::has(line, "throw"@)
    ||| text::has(line, "Throw"@)
    ||| text::has(line, "Failed"@)
    ||| text::has(line, "failed"@)
    ||| text::has(line, "Uncaught"@)
    ||| text::has(line, "uncaught"@)
    ||| text::has(line, "TypeError"@)
}

/// A line that may carry the reason of a failure.
pub open spec fn error_line(line: Seq<char>) -> bool {
    error_word(line) || http_failure(line)
}

/// Whether a line reads like a failed HTTP access.
pub fn is_http_failure(line: &str) -> (r: bool)
    ensures
        r == http_failure(line@),
{
    let low = text::to_lower(line);
    let low = low.as_str();
    (text::contains(low, " 4") || text::contains(low, " 5")) && (text::contains(low, "http") || text::contains(low, "get ")
        || text::contains(low, "post ") || text::contains(low, "put ") || text::contains(low, "delete "))
}

/// Whether a line may carry the reason of a failure. A start log mixes the
/// loader's chatter with real errors; only lines shaped like errors count as
/// evidence, so that a plugin that is merely mentioned is left alone.
pub fn is_error_line(line: &str) -> (r: bool)
    ensures
        r == error_line(line@),
{
    text::contains(line, "Error") || text::contains(line, "error") || text::contains(line, "ERR_") || text::contains(
        line,
        "Cannot",
    ) || text::contains(line, "cannot") || text::contains(line, "throw") || text::contains(line, "Throw") || text::contains(
        line,
        "Failed",
    ) || text::contains(line, "failed") || text::contains(line, "Uncaught") || text::contains(line, "uncaught")
        || text::contains(line, "TypeError") || is_http_failure(line)
}

/// `text` cut to `EVIDENCE_MAX_CHARS` characters, with an ellipsis where
/// something was left out.
pub open spec fn capped(text: Seq<char>) -> Seq<char> {
    if text.len() <= EVIDENCE_MAX_CHARS {
        text
    } else {
        text.take(EVIDENCE_MAX_CHARS as int) + "…"@
    }
}

/// Line `idx` with the line before and the line after it, cut to size.
pub open spec fn excerpt_text(lines: Seq<Seq<char>>, idx: int) -> Seq<char> {
    let from = if idx > 0 {
        idx - 1
    } else {
        0
    };
    let to = if idx + 2 < lines.len() {
        idx + 2
    } else {
        lines.len() as int
    };
    capped(text::join_text(lines.subrange(from, to), "\n"@))
}

/// The lines `from..to` joined by line feeds.
fn join_range(lines: &Vec<String>, from: usize, to: usize) -> (r: String)
    requires
        from <= to <= lines.len(),
    ensures
        r@ == text::join_text(text::texts(lines@).subrange(from as int, to as int), "\n"@),
{
    let mut part: Vec<String> = Vec::new();
    let mut i: usize = from;
    while i < to
        invariant
            from <= i <= to <= lines.len(),
            part.len() == i - from,
            forall|k: int| 0 <= k < part.len() ==> (#[trigger] part@[k])@ == lines@[from + k]@,
        decreases to - i,
    {
        part.push(lines[i].clone());
        i = i + 1;
    }
    proof {
        assert(text::texts(part@) =~= text::texts(lines@).subrange(from as int, to as int));
    }
    text::join(&part, "\n")
}

/// The matching line with one line of context on each side, cut to
/// `EVIDENCE_MAX_CHARS` characters.
pub fn excerpt(lines: &Vec<String>, idx: usize) -> (r: String)
    requires
        idx <= lines.len() + 1,
    ensures
        r@ == excerpt_text(text::texts(lines@), idx as int),
{
    let from: usize = if idx > 0 {
        idx - 1
    } else {
        0
    };
    let to: usize = if idx >= lines.len() || lines.len() - idx <= 2 {
        lines.len()
    } else {
        idx + 2
    };
    let joined = join_range(lines, from, to);
    let chars = text::chars_of(joined.as_str());
    if chars.len() <= EVIDENCE_MAX_CHARS {
        joined
    } else {
        let head = text::string_of(&chars, 0, EVIDENCE_MAX_CHARS);
        proof {
            assert(head@ =~= joined@.take(EVIDENCE_MAX_CHARS as int));
        }
        text::cat2(head.as_str(), "…")
    }
}

// ------------------------------------------------------------ anchored names

/// A character that can stand inside a path segment.
pub open spec fn segment_char(c: char) -> bool {
    text::is_alnum(c) || c == '.' || c == '_' || c == '-' || c == '@'
}

/// Whether `c` can stand inside a path segment. A slash, white space, a quote,
/// a bracket or a colon ends the segment.
pub fn is_path_segment_char(c: char) -> (r: bool)
    ensures
        r == segment_char(c),
{
    text::alnum(c) || c == '.' || c == '_' || c == '-' || c == '@'
}

/// A path segment ends before index `e` of `line`.
pub open spec fn segment_ends(line: Seq<char>, e: int) -> bool {
    e >= line.len() || !segment_char(line[e])
}

/// Index `k` of the occurrences of `needle` in `line`.
pub open spec fn nth_match(line: Seq<char>, needle: Seq<char>, k: int) -> int {
    text::matches_from(line, needle, 0)[k]
}

/// `line` holds `anchor` and `name` in a row, and the segment ends there.
pub open spec fn segment_path(line: Seq<char>, anchor: Seq<char>, name: Seq<char>) -> bool {
    let needle = anchor + name;
    exists|k: int|
        0 <= k < text::matches_from(line, needle, 0).len() && segment_ends(
            line,
            #[trigger] nth_match(line, needle, k) + needle.len(),
        )
}

/// Whether `line` holds `anchor` followed by `name` as a whole path segment.
/// A dash is part of a segment, so `main` is not found in `main-utils`.
pub fn has_segment_path(line: &str, anchor: &str, name: &str) -> (r: bool)
    requires
        anchor@.len() + name@.len() > 0,
    ensures
        r == segment_path(line@, anchor@, name@),
{
    let lc = text::chars_of(line);
    let needle = text::chars_of(text::cat2(anchor, name).as_str());
    let found = text::match_positions(&lc, &needle);
    let mut i: usize = 0;
    while i < found.len()
        invariant
            i <= found.len(),
            lc@ == line@,
            needle@ == anchor@ + name@,
            text::as_ints(found@) == text::matches_from(line@, needle@, 0),
            forall|k: int| 0 <= k < found.len() ==> (#[trigger] found@[k]) + needle.len()
                <= lc.len(),
            forall|k: int|
                0 <= k < i ==> !segment_ends(
                    line@,
                    #[trigger] nth_match(line@, needle@, k) + needle@.len(),
                ),
        decreases found.len() - i,
    {
        let end: usize = found[i] + needle.len();
        proof {
            assert(nth_match(line@, needle@, i as int) == text::as_ints(found@)[i as int]);
        }
        if end == lc.len() || !is_path_segment_char(lc[end]) {
            return true;
        }
        i = i + 1;
    }
    false
}

/// What stands before a bundle member: nothing, a separator of the combined
/// route, or the plugin route itself.
pub open spec fn member_starts(line: Seq<char>, start: int) -> bool {
    ||| start <= 0
    ||| line[start - 1] == '?'
    ||| line[start - 1] == ','
    ||| line[start - 1] == '/' && text::ends(line.take(start - 1), "/plugins"@)
}

/// `line` names the client bundle of `name` as a whole member of a bundle
/// route.
pub open spec fn member_of_bundle(line: Seq<char>, name: Seq<char>) -> bool {
    let needle = name + "/client.js"@;
    name.len() > 0 && exists|k: int|
        0 <= k < text::matches_from(line, needle, 0).len() && member_starts(
            line,
            #[trigger] nth_match(line, needle, k),
        ) && segment_ends(line, nth_match(line, needle, k) + needle.len())
}

fn is_member_start(lc: &Vec<char>, start: usize) -> (r: bool)
    requires
        start <= lc.len(),
    ensures
        r == member_starts(lc@, start as int),
{
    if start == 0 {
        return true;
    }
    let c = lc[start - 1];
    if c == '?' || c == ',' {
        true
    } else if c == '/' {
        let head = text::string_of(lc, 0, start - 1);
        proof {
            assert(head@ =~= lc@.take(start - 1));
        }
        text::ends_with(head.as_str(), "/plugins")
    } else {
        false
    }
}

/// Whether `line` names `<name>/client.js` as a whole member: after the start
/// of a combined route, after a comma in it, or right under `/plugins/`. A
/// file of that name in another directory does not count.
pub fn bundle_member(line: &str, name: &str) -> (r: bool)
    ensures
        r == member_of_bundle(line@, name@),
{
    let nc = text::chars_of(name);
    if nc.len() == 0 {
        return false;
    }
    let lc = text::chars_of(line);
    let needle = text::chars_of(text::cat2(name, "/client.js").as_str());
    let found = text::match_positions(&lc, &needle);
    let mut i: usize = 0;
    while i < found.len()
        invariant
            i <= found.len(),
            name@.len() > 0,
            lc@ == line@,
            needle@ == name@ + "/client.js"@,
            text::as_ints(found@) == text::matches_from(line@, needle@, 0),
            forall|k: int| 0 <= k < found.len() ==> (#[trigger] found@[k]) + needle.len()
                <= lc.len(),
            forall|k: int|
                0 <= k < i ==> !(member_starts(line@, #[trigger] nth_match(line@, needle@, k))
                    && segment_ends(line@, nth_match(line@, needle@, k) + needle@.len())),
        decreases found.len() - i,
    {
        let start: usize = found[i];
        let end: usize = start + needle.len();
        proof {
            assert(nth_match(line@, needle@, i as int) == text::as_ints(found@)[i as int]);
        }
        if is_member_start(&lc, start) && (end == lc.len() || !is_path_segment_char(lc[end])) {
            return true;
        }
        i = i + 1;
    }
    false
}

/// A character that ends a combined route.
pub open spec fn route_stop(c: char) -> bool {
    text::is_white(c) || c == '&' || c == '"' || c == '\'' || c == ')' || c == ']' || c == '<' || c == '>'
}

/// The number of characters before the first one that ends a route.
pub open spec fn route_len(s: Seq<char>) -> int
    decreases s.len(),
{
    if s.len() == 0 || route_stop(s[0]) {
        0
    } else {
        1 + route_len(s.drop_first())
    }
}

proof fn lemma_route_len_is(s: Seq<char>, i: int)
    requires
        0 <= i <= s.len(),
        i < s.len() ==> route_stop(s[i]),
        forall|j: int| 0 <= j < i ==> !route_stop(#[trigger] s[j]),
    ensures
        route_len(s) == i,
    decreases s.len(),
{
    if i > 0 {
        assert(!route_stop(s[0]));
        let t = s.drop_first();
        assert forall|j: int| 0 <= j < i - 1 implies !route_stop(#[trigger] t[j]) by {
            assert(t[j] == s[j + 1]);
        }
        lemma_route_len_is(t, i - 1);
    }
}

/// How many of `pieces` are not empty.
pub open spec fn filled(pieces: Seq<Seq<char>>) -> nat
    decreases pieces.len(),
{
    if pieces.len() == 0 {
        0
    } else {
        filled(pieces.drop_last()) + if pieces.last().len() > 0 {
            1nat
        } else {
            0nat
        }
    }
}

/// The number of members of the combined route in `line`, if it holds one.
pub open spec fn combo_members(line: Seq<char>) -> Option<nat> {
    match text::first_from(line, "/plugins/??"@, 0) {
        None => None,
        Some(i) => {
            let rest = line.skip(i + "/plugins/??"@.len());
            let n = filled(text::split_text(rest.take(route_len(rest)), ','));
            if n > 0 {
                Some(n)
            } else {
                None
            }
        },
    }
}

/// The number of members of the combined client-module route in `line`:
/// `/plugins/??<package>/client.js,<package>/client.js&rev=<hash>`.
pub fn combo_route_members(line: &str) -> (r: Option<usize>)
    ensures
        match r {
            Some(n) => combo_members(line@) == Some(n as nat),
            None => combo_members(line@) is None,
        },
{
    let lc = text::chars_of(line);
    let route = text::chars_of("/plugins/??");
    let start: usize = match text::find_from(&lc, &route, 0) {
        None => {
            return None;
        },
        Some(i) => i + route.len(),
    };
    let mut end: usize = start;
    while end < lc.len() && !(text::white(lc[end]) || lc[end] == '&' || lc[end] == '"' || lc[end] == '\''
        || lc[end] == ')' || lc[end] == ']' || lc[end] == '<' || lc[end] == '>')
        invariant
            start <= end <= lc.len(),
            forall|j: int| start <= j < end ==> !route_stop(#[trigger] lc@[j]),
        decreases lc.len() - end,
    {
        end = end + 1;
    }
    let body = text::string_of(&lc, start, end);
    proof {
        let rest = lc@.skip(start as int);
        assert forall|j: int| 0 <= j < end - start implies !route_stop(#[trigger] rest[j]) by {
            assert(rest[j] == lc@[start + j]);
        }
        if end < lc.len() {
            assert(rest[end - start] == lc@[end as int]);
        }
        lemma_route_len_is(rest, end - start);
        assert(rest.take(end - start) =~= body@);
    }
    let pieces = text::split(body.as_str(), ',');
    let mut n: usize = 0;
    let mut i: usize = 0;
    let ghost all = text::texts(pieces@);
    proof {
        assert(all.take(0) =~= Seq::<Seq<char>>::empty());
    }
    while i < pieces.len()
        invariant
            n <= i <= pieces.len(),
            all == text::texts(pieces@),
            n == filled(all.take(i as int)),
        decreases pieces.len() - i,
    {
        proof {
            let next = all.take(i + 1);
            assert(next.drop_last() =~= all.take(i as int));
            assert(next.last() == pieces@[i as int]@);
        }
        if !pieces[i].as_str().is_empty() {
            n = n + 1;
        }
        i = i + 1;
    }
    proof {
        assert(all.take(all.len() as int) =~= all);
    }
    if n > 0 {
        Some(n)
    } else {
        None
    }
}

/// A line that holds a combined route of several members. The script behind
/// such a route is made of several packages, so no name in it is evidence.
pub open spec fn ambiguous_combo(line: Seq<char>) -> bool {
    combo_members(line) matches Some(n) && n > 1
}

/// Whether `line` holds a combined route of several members.
pub fn is_ambiguous_combo_line(line: &str) -> (r: bool)
    ensures
        r == ambiguous_combo(line@),
{
    match combo_route_members(line) {
        Some(n) => n > 1,
        None => false,
    }
}

/// `line` points at `item` by its quoted name, by its path among plugins or
/// node modules, or as the one member of a bundle route.
pub open spec fn anchored_hit(line: Seq<char>, item: PluginModel) -> bool {
    let norm = text::swap_text(line, '\\', '/');
    ||| text::has(line, "'"@ + item.name + "'"@)
    ||| text::has(line, "\""@ + item.name + "\""@)
    ||| segment_path(norm, "plugins/"@, item.id)
    ||| segment_path(norm, "node_modules/"@, item.name)
    ||| !ambiguous_combo(norm) && member_of_bundle(norm, item.name)
}

/// Whether a line points at a store entry in an anchored way. A bare mention
/// of its name does not count. Backslashes are read as slashes, so that paths
/// of Windows logs anchor too.
pub fn is_anchored_plugin_hit(line: &str, item: &StoreItem) -> (r: bool)
    ensures
        r == anchored_hit(line@, item@),
{
    let name = item.name.as_str();
    if text::contains(line, text::cat3("'", name, "'").as_str()) || text::contains(
        line,
        text::cat3("\"", name, "\"").as_str(),
    ) {
        return true;
    }
    let norm = text::swap_char(line, '\\', '/');
    proof {
        reveal_strlit("plugins/");
        reveal_strlit("node_modules/");
    }
    if has_segment_path(norm.as_str(), "plugins/", item.id.as_str()) || has_segment_path(
        norm.as_str(),
        "node_modules/",
        name,
    ) {
        return true;
    }
    !is_ambiguous_combo_line(norm.as_str()) && bundle_member(norm.as_str(), name)
}

// -------------------------------------------------------------------- kernel

/// `line` names a package of the kernel's own namespace.
pub open spec fn kernel_package_ref(line: Seq<char>) -> bool {
    let needle = "@deepseek-ai/dsh"@;
    exists|k: int|
        0 <= k < text::matches_from(line, needle, 0).len() && {
            let e = #[trigger] nth_match(line, needle, k) + needle.len();
            e >= line.len() || !text::is_alnum(line[e])
        }
}

/// Whether `line` names `@deepseek-ai/dsh` or a package whose name goes on
/// with something other than a letter or digit, such as a dash.
pub fn has_kernel_package_ref(line: &str) -> (r: bool)
    ensures
        r == kernel_package_ref(line@),
{
    let lc = text::chars_of(line);
    let needle = text::chars_of("@deepseek-ai/dsh");
    let found = text::match_positions(&lc, &needle);
    let mut i: usize = 0;
    while i < found.len()
        invariant
            i <= found.len(),
            lc@ == line@,
            needle@ == "@deepseek-ai/dsh"@,
            text::as_ints(found@) == text::matches_from(line@, needle@, 0),
            forall|k: int| 0 <= k < found.len() ==> (#[trigger] found@[k]) + needle.len()
                <= lc.len(),
            forall|k: int|
                0 <= k < i ==> ({
                    let e = #[trigger] nth_match(line@, needle@, k) + needle@.len();
                    e < line@.len() && text::is_alnum(line@[e])
                }),
        decreases found.len() - i,
    {
        let end: usize = found[i] + needle.len();
        proof {
            assert(nth_match(line@, needle@, i as int) == text::as_ints(found@)[i as int]);
        }
        if end == lc.len() || !text::alnum(lc[end]) {
            return true;
        }
        i = i + 1;
    }
    false
}

/// A phrase that only the kernel's client-module loader prints.
pub open spec fn loader_phrase(line: Seq<char>) -> bool {
    ||| text::has(line, "client-modules"@)
    ||| text::has(line, "build-time externals drift"@)
    ||| text::has(line, "missed the module table"@)
    ||| text::has(line, "platform seed word"@)
    ||| text::has(line, "not a materialized module"@)
    ||| text::has(line, "no registered package factory"@)
}

/// An error line that points at the kernel itself.
pub open spec fn kernel_evidence(line: Seq<char>) -> bool {
    let norm = text::swap_text(line, '\\', '/');
    error_line(line) && (kernel_package_ref(norm) && !ambiguous_combo(norm) || loader_phrase(line))
}

/// Whether an error line points at the kernel: at a package of its namespace,
/// unless a combined route of several members names it, or by a phrase of its
/// loader.
pub fn is_kernel_evidence_line(line: &str) -> (r: bool)
    ensures
        r == kernel_evidence(line@),
{
    if !is_error_line(line) {
        return false;
    }
    let norm = text::swap_char(line, '\\', '/');
    if has_kernel_package_ref(norm.as_str()) && !is_ambiguous_combo_line(norm.as_str()) {
        return true;
    }
    text::contains(line, "client-modules") || text::contains(line, "build-time externals drift") || text::contains(
        line,
        "missed the module table",
    ) || text::contains(line, "platform seed word") || text::contains(line, "not a materialized module")
        || text::contains(line, "no registered package factory")
}

// --------------------------------------------------------------- environment

/// The marks of a failure that has nothing to do with plugins, in the order
/// in which they are looked for.
pub open spec fn env_markers() -> Seq<Seq<char>> {
    seq![
        "eaddrinuse"@,
        "address already in use"@,
        "eacces"@,
        "eperm"@,
        "permission denied"@,
        "enospc"@,
        "no space left on device"@,
        "node_module_version"@,
        "was compiled against a different node.js version"@,
        "cannot find module './build/release"@,
    ]
}

/// The first of `markers`, from index `k` on, that `log` holds.
pub open spec fn marker_from(log: Seq<char>, markers: Seq<Seq<char>>, k: int) -> Option<Seq<char>>
    decreases markers.len() - k,
{
    if k < 0 || k >= markers.len() {
        None
    } else if text::has(log, markers[k]) {
        Some(markers[k])
    } else {
        marker_from(log, markers, k + 1)
    }
}

/// The mark of an environment failure that `log` holds, if any.
pub open spec fn env_failure(log: Seq<char>) -> Option<Seq<char>> {
    marker_from(text::lower_text(log), env_markers(), 0)
}

fn env_marker_list() -> (r: Vec<&'static str>)
    ensures
        r.len() == env_markers().len(),
        forall|k: int| 0 <= k < r.len() ==> (#[trigger] r@[k])@ == env_markers()[k],
{
    vec![
        "eaddrinuse",
        "address already in use",
        "eacces",
        "eperm",
        "permission denied",
        "enospc",
        "no space left on device",
        "node_module_version",
        "was compiled against a different node.js version",
        "cannot find module './build/release",
    ]
}

/// The mark of an environment failure in a log: a port in use, a directory
/// that cannot be written, a full disk, a native module built for another
/// Node version.
pub fn environment_failure(log_tail: &str) -> (r: Option<String>)
    ensures
        text::opt_text(r) == env_failure(log_tail@),
{
    let low = text::to_lower(log_tail);
    let markers = env_marker_list();
    let mut i: usize = 0;
    while i < markers.len()
        invariant
            i <= markers.len(),
            markers.len() == env_markers().len(),
            forall|k: int| 0 <= k < markers.len() ==> (#[trigger] markers@[k])@
                == env_markers()[k],
            low@ == text::lower_text(log_tail@),
            env_failure(log_tail@) == marker_from(low@, env_markers(), i as int),
        decreases markers.len() - i,
    {
        if text::contains(low.as_str(), markers[i]) {
            return Some(text::owned(markers[i]));
        }
        i = i + 1;
    }
    None
}

// --------------------------------------------------------------- attribution

/// The first line, from index `k` on, that is an error line and points at
/// `item`.
pub open spec fn hit_from(lines: Seq<Seq<char>>, item: PluginModel, k: int) -> Option<int>
    decreases lines.len() - k,
{
    if k < 0 || k >= lines.len() {
        None
    } else if error_line(lines[k]) && anchored_hit(lines[k], item) {
        Some(k)
    } else {
        hit_from(lines, item, k + 1)
    }
}

/// The first line, from index `k` on, that points at the kernel.
pub open spec fn kernel_hit_from(lines: Seq<Seq<char>>, k: int) -> Option<int>
    decreases lines.len() - k,
{
    if k < 0 || k >= lines.len() {
        None
    } else if kernel_evidence(lines[k]) {
        Some(k)
    } else {
        kernel_hit_from(lines, k + 1)
    }
}

/// The plugins that `lines` point at, each id once, in store order, and no
/// more than `MAX_SUSPECTS` of them.
pub open spec fn blamed(lines: Seq<Seq<char>>, items: Seq<PluginModel>) -> Seq<SuspectModel>
    decreases items.len(),
{
    if items.len() == 0 {
        Seq::empty()
    } else {
        let before = blamed(lines, items.drop_last());
        let item = items.last();
        match hit_from(lines, item, 0) {
            Some(idx) if before.len() < MAX_SUSPECTS && !incident::blames(before, item.id) => before.push(
                SuspectModel {
                    kind: "plugin"@,
                    id: item.id,
                    name: item.name,
                    evidence: excerpt_text(lines, idx),
                },
            ),
            _ => before,
        }
    }
}

/// The suspects of a log: the plugins it points at; failing those, the kernel.
pub open spec fn attribution(
    log: Seq<char>,
    items: Seq<PluginModel>,
    label: Seq<char>,
) -> Seq<SuspectModel> {
    let lines = text::lines_text(log);
    let found = blamed(lines, items);
    if found.len() > 0 {
        found
    } else {
        match kernel_hit_from(lines, 0) {
            Some(idx) => seq![
                SuspectModel {
                    kind: "kernel"@,
                    id: label,
                    name: "dsh 内核 "@ + label,
                    evidence: excerpt_text(lines, idx),
                },
            ],
            None => Seq::empty(),
        }
    }
}

fn find_hit(lines: &Vec<String>, item: &StoreItem) -> (r: Option<usize>)
    ensures
        match r {
            Some(i) => hit_from(text::texts(lines@), item@, 0) == Some(i as int) && i < lines.len(),
            None => hit_from(text::texts(lines@), item@, 0) is None,
        },
{
    let mut i: usize = 0;
    while i < lines.len()
        invariant
            i <= lines.len(),
            hit_from(text::texts(lines@), item@, 0) == hit_from(text::texts(lines@), item@, i as int),
        decreases lines.len() - i,
    {
        let line = lines[i].as_str();
        proof {
            assert(text::texts(lines@)[i as int] == line@);
        }
        if is_error_line(line) && is_anchored_plugin_hit(line, item) {
            return Some(i);
        }
        i = i + 1;
    }
    None
}

fn find_kernel_hit(lines: &Vec<String>) -> (r: Option<usize>)
    ensures
        match r {
            Some(i) => kernel_hit_from(text::texts(lines@), 0) == Some(i as int) && i < lines.len(),
            None => kernel_hit_from(text::texts(lines@), 0) is None,
        },
{
    let mut i: usize = 0;
    while i < lines.len()
        invariant
            i <= lines.len(),
            kernel_hit_from(text::texts(lines@), 0) == kernel_hit_from(text::texts(lines@), i as int),
        decreases lines.len() - i,
    {
        let line = lines[i].as_str();
        proof {
            assert(text::texts(lines@)[i as int] == line@);
        }
        if is_kernel_evidence_line(line) {
            return Some(i);
        }
        i = i + 1;
    }
    None
}

/// Attributes a failure to the installed plugins that a log's error lines
/// point at, or to the kernel where they point at no plugin. Where nothing is
/// found the list is empty: no plugin is blamed on a guess.
pub fn attribute(log_tail: &str, store_items: &Vec<StoreItem>, kernel_label: &str) -> (r: Vec<
    Suspect,
>)
    ensures
        incident::suspects_of(r@) == attribution(log_tail@, plugins::plugins_of(store_items@), kernel_label@),
{
    let lines = text::lines(log_tail);
    let mut suspects: Vec<Suspect> = Vec::new();
    let ghost all = plugins::plugins_of(store_items@);
    let ghost lt = text::lines_text(log_tail@);
    let mut i: usize = 0;
    proof {
        assert(all.take(0) =~= Seq::<PluginModel>::empty());
        assert(incident::suspects_of(suspects@) =~= Seq::<SuspectModel>::empty());
    }
    while i < store_items.len()
        invariant
            i <= store_items.len(),
            all == plugins::plugins_of(store_items@),
            text::texts(lines@) == lt,
            incident::suspects_of(suspects@) == blamed(lt, all.take(i as int)),
        decreases store_items.len() - i,
    {
        let item = &store_items[i];
        proof {
            let next = all.take(i + 1);
            assert(next.drop_last() =~= all.take(i as int));
            assert(next.last() == item@);
            assert(incident::suspects_of(suspects@).len() == suspects@.len());
        }
        if suspects.len() < MAX_SUSPECTS {
            match find_hit(&lines, item) {
                Some(idx) => {
                    if !incident::has_suspect(&suspects, item.id.as_str()) {
                        let s = Suspect {
                            kind: text::owned("plugin"),
                            id: item.id.clone(),
                            name: item.name.clone(),
                            evidence: excerpt(&lines, idx),
                        };
                        proof {
                            assert(incident::suspects_of(suspects@.push(s)) =~= incident::suspects_of(suspects@).push(
                                s@,
                            ));
                        }
                        suspects.push(s);
                    }
                },
                None => {},
            }
        }
        i = i + 1;
    }
    proof {
        assert(all.take(all.len() as int) =~= all);
        assert(incident::suspects_of(suspects@).len() == suspects@.len());
    }
    if suspects.is_empty() {
        match find_kernel_hit(&lines) {
            Some(idx) => {
                let s = Suspect {
                    kind: text::owned("kernel"),
                    id: text::owned(kernel_label),
                    name: text::cat2("dsh 内核 ", kernel_label),
                    evidence: excerpt(&lines, idx),
                };
                proof {
                    assert(incident::suspects_of(suspects@.push(s)) =~= seq![s@]);
                }
                suspects.push(s);
            },
            None => {},
        }
    }
    suspects
}

// ---------------------------------------------------------------------- laws

/// Some line of `lines` is an error line that points at `item`.
pub open spec fn implicated(lines: Seq<Seq<char>>, item: PluginModel) -> bool {
    exists|k: int|
        0 <= k < lines.len() && error_line(#[trigger] lines[k]) && anchored_hit(lines[k], item)
}

proof fn lemma_hit_from(lines: Seq<Seq<char>>, item: PluginModel, k: int)
    requires
        0 <= k,
    ensures
        match hit_from(lines, item, k) {
            Some(i) => k <= i < lines.len() && error_line(lines[i]) && anchored_hit(lines[i], item),
            None => forall|j: int|
                k <= j < lines.len() ==> !(error_line(#[trigger] lines[j]) && anchored_hit(
                    lines[j],
                    item,
                )),
        },
    decreases lines.len() - k,
{
    if k < lines.len() && !(error_line(lines[k]) && anchored_hit(lines[k], item)) {
        lemma_hit_from(lines, item, k + 1);
    }
}

proof fn lemma_kernel_hit_from(lines: Seq<Seq<char>>, k: int)
    requires
        0 <= k,
    ensures
        match kernel_hit_from(lines, k) {
            Some(i) => k <= i < lines.len() && kernel_evidence(lines[i]),
            None => forall|j: int| k <= j < lines.len() ==> !kernel_evidence(#[trigger] lines[j]),
        },
    decreases lines.len() - k,
{
    if k < lines.len() && !kernel_evidence(lines[k]) {
        lemma_kernel_hit_from(lines, k + 1);
    }
}

/// `s` is the report on a store entry that an error line points at.
pub open spec fn well_founded(
    s: SuspectModel,
    lines: Seq<Seq<char>>,
    items: Seq<PluginModel>,
) -> bool {
    &&& s.kind == "plugin"@
    &&& exists|j: int|
        0 <= j < items.len() && s.id == (#[trigger] items[j]).id && s.name == items[j].name
            && implicated(lines, items[j])
}

proof fn lemma_blamed(lines: Seq<Seq<char>>, items: Seq<PluginModel>)
    ensures
        blamed(lines, items).len() <= MAX_SUSPECTS,
        incident::distinct_ids(blamed(lines, items)),
        forall|k: int|
            0 <= k < blamed(lines, items).len() ==> well_founded(
                #[trigger] blamed(lines, items)[k],
                lines,
                items,
            ),
        blamed(lines, items).len() < MAX_SUSPECTS ==> forall|j: int|
            0 <= j < items.len() && implicated(lines, #[trigger] items[j]) ==> incident::blames(
                blamed(lines, items),
                items[j].id,
            ),
    decreases items.len(),
{
    if items.len() > 0 {
        let init = items.drop_last();
        let item = items.last();
        lemma_blamed(lines, init);
        lemma_hit_from(lines, item, 0);
        let before = blamed(lines, init);
        let out = blamed(lines, items);
        assert forall|k: int| 0 <= k < out.len() implies well_founded(
            #[trigger] out[k],
            lines,
            items,
        ) by {
            if k < before.len() {
                assert(out[k] == before[k]);
                assert(well_founded(before[k], lines, init));
                let j = choose|j: int|
                    0 <= j < init.len() && before[k].id == (#[trigger] init[j]).id && before[k].name
                        == init[j].name && implicated(lines, init[j]);
                assert(items[j] == init[j]);
            } else {
                let i = hit_from(lines, item, 0)->0;
                assert(error_line(lines[i]) && anchored_hit(lines[i], item));
                assert(items[items.len() - 1] == item);
            }
        }
        assert forall|i: int, j: int| 0 <= i < j < out.len() implies (#[trigger] out[i]).id != (
        #[trigger] out[j]).id by {
            if j == before.len() {
                assert(before[i].id == out[i].id);
            } else {
                assert(before[i].id != before[j].id);
            }
        }
        if out.len() < MAX_SUSPECTS {
            assert forall|j: int|
                0 <= j < items.len() && implicated(
                    lines,
                    #[trigger] items[j],
                ) implies incident::blames(out, items[j].id) by {
                if j < init.len() {
                    assert(init[j] == items[j]);
                    assert(incident::blames(before, items[j].id));
                    let m = choose|m: int|
                        0 <= m < before.len() && (#[trigger] before[m]).id == items[j].id;
                    assert(out[m].id == items[j].id);
                } else {
                    let k = choose|k: int|
                        0 <= k < lines.len() && error_line(#[trigger] lines[k]) && anchored_hit(
                            lines[k],
                            item,
                        );
                    assert(hit_from(lines, item, 0) is Some);
                    if incident::blames(before, item.id) {
                        let m = choose|m: int|
                            0 <= m < before.len() && (#[trigger] before[m]).id == item.id;
                        assert(out[m].id == item.id);
                    } else {
                        assert(out[out.len() - 1].id == item.id);
                    }
                }
            }
        }
    }
}

/// An attribution never lists more than `MAX_SUSPECTS` suspects, and never one
/// id twice.
pub proof fn law_attribution_is_bounded(
    log: Seq<char>,
    items: Seq<PluginModel>,
    label: Seq<char>,
)
    ensures
        attribution(log, items, label).len() <= MAX_SUSPECTS,
        attribution(log, items, label).len() <= 8,
        incident::distinct_ids(attribution(log, items, label)),
{
    lemma_blamed(lines_of(log), items);
}

/// The lines of a log.
pub open spec fn lines_of(log: Seq<char>) -> Seq<Seq<char>> {
    text::lines_text(log)
}

/// A plugin is blamed only where an error line of the log points at it in an
/// anchored way; and while the list is not full, every such plugin is blamed.
pub proof fn law_plugins_are_blamed_by_evidence(
    log: Seq<char>,
    items: Seq<PluginModel>,
    label: Seq<char>,
)
    ensures
        forall|k: int|
            #![trigger attribution(log, items, label)[k]]
            0 <= k < attribution(log, items, label).len() ==> well_founded(
                attribution(log, items, label)[k],
                lines_of(log),
                items,
            ) || attribution(log, items, label)[k].kind == "kernel"@,
        attribution(log, items, label).len() < MAX_SUSPECTS ==> forall|j: int|
            0 <= j < items.len() && implicated(lines_of(log), #[trigger] items[j])
                ==> incident::blames(attribution(log, items, label), items[j].id),
{
    lemma_blamed(lines_of(log), items);
    let found = blamed(lines_of(log), items);
    if found.len() == 0 {
        assert forall|j: int| 0 <= j < items.len() implies !implicated(
            lines_of(log),
            #[trigger] items[j],
        ) by {
            if implicated(lines_of(log), items[j]) {
                assert(incident::blames(found, items[j].id));
            }
        }
    }
}

/// The kernel is a suspect only where no plugin is, on the evidence of a line
/// that points at it; and then it is the only suspect.
pub proof fn law_kernel_is_the_fallback(log: Seq<char>, items: Seq<PluginModel>, label: Seq<char>)
    ensures
        (exists|k: int|
            0 <= k < attribution(log, items, label).len() && (#[trigger] attribution(
                log,
                items,
                label,
            )[k]).kind == "kernel"@) <==> ({
            &&& forall|j: int| 0 <= j < items.len() ==> !implicated(lines_of(log), #[trigger] items[j])
            &&& exists|i: int| 0 <= i < lines_of(log).len() && kernel_evidence(#[trigger] lines_of(log)[i])
        }),
        (exists|k: int|
            0 <= k < attribution(log, items, label).len() && (#[trigger] attribution(
                log,
                items,
                label,
            )[k]).kind == "kernel"@) ==> attribution(log, items, label).len() == 1,
{
    reveal_strlit("kernel");
    reveal_strlit("plugin");
    assert("kernel"@[0] != "plugin"@[0]);
    let lines = lines_of(log);
    let all = attribution(log, items, label);
    let found = blamed(lines, items);
    lemma_blamed(lines, items);
    lemma_kernel_hit_from(lines, 0);
    if found.len() > 0 {
        assert(well_founded(found[0], lines, items));
        let j = choose|j: int|
            0 <= j < items.len() && found[0].id == (#[trigger] items[j]).id && found[0].name
                == items[j].name && implicated(lines, items[j]);
        assert(implicated(lines, items[j]));
        assert forall|k: int| 0 <= k < all.len() implies (#[trigger] all[k]).kind != "kernel"@ by {
            assert(well_founded(found[k], lines, items));
        }
    } else {
        assert forall|j: int| 0 <= j < items.len() implies !implicated(lines, #[trigger] items[j]) by {
            if implicated(lines, items[j]) {
                assert(incident::blames(found, items[j].id));
            }
        }
        if kernel_hit_from(lines, 0) is Some {
            let i = kernel_hit_from(lines, 0)->0;
            assert(kernel_evidence(lines_of(log)[i]));
            assert(all[0].kind == "kernel"@);
        }
    }
}

/// The mark of an environment failure is one of the known marks, and the log
/// holds it; without a known mark there is none.
pub proof fn law_environment_mark_is_in_the_log(log: Seq<char>)
    ensures
        match env_failure(log) {
            Some(m) => env_markers().contains(m) && text::has(text::lower_text(log), m),
            None => forall|k: int|
                0 <= k < env_markers().len() ==> !text::has(
                    text::lower_text(log),
                    #[trigger] env_markers()[k],
                ),
        },
{
    lemma_marker_from(text::lower_text(log), env_markers(), 0);
}

proof fn lemma_marker_from(log: Seq<char>, markers: Seq<Seq<char>>, k: int)
    requires
        0 <= k,
    ensures
        match marker_from(log, markers, k) {
            Some(m) => markers.contains(m) && text::has(log, m),
            None => forall|j: int| k <= j < markers.len() ==> !text::has(log, #[trigger] markers[j]),
        },
    decreases markers.len() - k,
{
    if k < markers.len() && !text::has(log, markers[k]) {
        lemma_marker_from(log, markers, k + 1);
    }
}

/// The words by which errors are logged.
pub open spec fn error_words() -> Seq<Seq<char>> {
    seq![
        "Error"@,
        "error"@,
        "ERR_"@,
        "Cannot"@,
        "cannot"@,
        "throw"@,
        "Throw"@,
        "Failed"@,
        "failed"@,
        "Uncaught"@,
        "uncaught"@,
        "TypeError"@,
    ]
}

/// The line holds a word of the list.
pub open spec fn holds_one_of(line: Seq<char>, words: Seq<Seq<char>>) -> bool {
    exists|w: int| 0 <= w < words.len() && text::has(line, #[trigger] words[w])
}

/// The line tells of an error: by one of the words, or as an HTTP access that
/// was answered with a code of four or five hundred.
pub open spec fn tells_of_error(line: Seq<char>) -> bool {
    ||| holds_one_of(line, error_words())
    ||| holds_one_of(text::lower_text(line), seq![" 4"@, " 5"@]) && holds_one_of(
        text::lower_text(line),
        seq!["http"@, "get "@, "post "@, "put "@, "delete "@],
    )
}

/// Only lines that tell of an error count as evidence, and all of them do.
pub proof fn law_error_lines_tell_of_errors(line: Seq<char>)
    ensures
        error_line(line) == tells_of_error(line),
{
    let low = text::lower_text(line);
    let w = error_words();
    let codes = seq![" 4"@, " 5"@];
    let methods = seq!["http"@, "get "@, "post "@, "put "@, "delete "@];
    assert(w[0] == "Error"@ && w[1] == "error"@ && w[2] == "ERR_"@ && w[3] == "Cannot"@ && w[4]
        == "cannot"@ && w[5] == "throw"@ && w[6] == "Throw"@ && w[7] == "Failed"@ && w[8]
        == "failed"@ && w[9] == "Uncaught"@ && w[10] == "uncaught"@ && w[11] == "TypeError"@);
    assert(codes[0] == " 4"@ && codes[1] == " 5"@);
    assert(methods[0] == "http"@ && methods[1] == "get "@ && methods[2] == "post "@ && methods[3]
        == "put "@ && methods[4] == "delete "@);
    if error_word(line) {
        let k = if text::has(line, w[0]) {
            0int
        } else if text::has(line, w[1]) {
            1
        } else if text::has(line, w[2]) {
            2
        } else if text::has(line, w[3]) {
            3
        } else if text::has(line, w[4]) {
            4
        } else if text::has(line, w[5]) {
            5
        } else if text::has(line, w[6]) {
            6
        } else if text::has(line, w[7]) {
            7
        } else if text::has(line, w[8]) {
            8
        } else if text::has(line, w[9]) {
            9
        } else if text::has(line, w[10]) {
            10
        } else {
            11
        };
        assert(text::has(line, w[k]));
    }
    if http_failure(line) {
        assert(text::has(low, codes[0]) || text::has(low, codes[1]));
        assert(text::has(low, methods[0]) || text::has(low, methods[1]) || text::has(
            low,
            methods[2],
        ) || text::has(low, methods[3]) || text::has(low, methods[4]));
    }
}

/// The text stands in the line as a whole: what follows it, if anything, is no
/// letter, no digit and none of `.`, `_`, `-` and `@`.
pub open spec fn stands_whole(line: Seq<char>, pat: Seq<char>, i: int) -> bool {
    text::occurs_at(line, pat, i) && (i + pat.len() == line.len() || !{
        let c = line[i + pat.len()];
        'a' <= c <= 'z' || 'A' <= c <= 'Z' || '0' <= c <= '9' || c == '.' || c == '_' || c == '-'
            || c == '@'
    })
}

/// The line points at a plugin: by its quoted name, by its directory among
/// plugins or node modules, or by its client bundle.
pub open spec fn points_at(line: Seq<char>, item: PluginModel) -> bool {
    let norm = text::swap_text(line, '\\', '/');
    ||| text::has(line, "'"@ + item.name + "'"@)
    ||| text::has(line, "\""@ + item.name + "\""@)
    ||| exists|i: int| stands_whole(norm, "plugins/"@ + item.id, i)
    ||| exists|i: int| stands_whole(norm, "node_modules/"@ + item.name, i)
    ||| item.name.len() > 0 && exists|i: int|
        #[trigger] stands_whole(norm, item.name + "/client.js"@, i) && (i == 0 || norm[i - 1] == '?'
            || norm[i - 1] == ',' || norm[i - 1] == '/' && text::ends(
            norm.take(i - 1),
            "/plugins"@,
        ))
}

proof fn lemma_match_occurs(line: Seq<char>, pat: Seq<char>, from: int, k: int)
    requires
        0 <= from,
        0 <= k < text::matches_from(line, pat, from).len(),
    ensures
        text::occurs_at(line, pat, text::matches_from(line, pat, from)[k]),
    decreases line.len() - from,
{
    if text::occurs_at(line, pat, from) {
        let rest = text::matches_from(line, pat, from + pat.len());
        if k > 0 {
            lemma_match_occurs(line, pat, from + pat.len(), k - 1);
            assert(text::matches_from(line, pat, from)[k] == rest[k - 1]);
        } else {
            assert(text::matches_from(line, pat, from)[0] == from);
        }
    } else {
        lemma_match_occurs(line, pat, from + 1, k);
    }
}

proof fn lemma_first_match(line: Seq<char>, pat: Seq<char>, from: int, i: int)
    requires
        0 <= from <= i,
        pat.len() > 0,
        text::occurs_at(line, pat, i),
        forall|j: int| from <= j < i ==> !text::occurs_at(line, pat, j),
    ensures
        text::matches_from(line, pat, from).len() > 0,
        text::matches_from(line, pat, from)[0] == i,
    decreases i - from,
{
    if from < i {
        lemma_first_match(line, pat, from + 1, i);
    }
}

/// A line that counts as pointing at a plugin does point at it.
pub proof fn law_hits_point_at_the_plugin(line: Seq<char>, item: PluginModel)
    ensures
        anchored_hit(line, item) ==> points_at(line, item),
{
    let norm = text::swap_text(line, '\\', '/');
    if segment_path(norm, "plugins/"@, item.id) {
        let pat = "plugins/"@ + item.id;
        let k = choose|k: int|
            0 <= k < text::matches_from(norm, pat, 0).len() && segment_ends(
                norm,
                #[trigger] nth_match(norm, pat, k) + pat.len(),
            );
        lemma_match_occurs(norm, pat, 0, k);
        assert(stands_whole(norm, pat, nth_match(norm, pat, k)));
    }
    if segment_path(norm, "node_modules/"@, item.name) {
        let pat = "node_modules/"@ + item.name;
        let k = choose|k: int|
            0 <= k < text::matches_from(norm, pat, 0).len() && segment_ends(
                norm,
                #[trigger] nth_match(norm, pat, k) + pat.len(),
            );
        lemma_match_occurs(norm, pat, 0, k);
        assert(stands_whole(norm, pat, nth_match(norm, pat, k)));
    }
    if member_of_bundle(norm, item.name) {
        let pat = item.name + "/client.js"@;
        let k = choose|k: int|
            0 <= k < text::matches_from(norm, pat, 0).len() && member_starts(
                norm,
                #[trigger] nth_match(norm, pat, k),
            ) && segment_ends(norm, nth_match(norm, pat, k) + pat.len());
        lemma_match_occurs(norm, pat, 0, k);
        assert(stands_whole(norm, pat, nth_match(norm, pat, k)));
    }
}

/// Every plugin that is blamed is one of the store that some line of the log
/// points at and that line tells of an error. A line that only mentions a
/// plugin, or that tells of no error, blames nobody.
pub proof fn law_plugins_are_blamed_by_error_lines(
    log: Seq<char>,
    items: Seq<PluginModel>,
    label: Seq<char>,
    k: int,
)
    requires
        0 <= k < attribution(log, items, label).len(),
        attribution(log, items, label)[k].kind == "plugin"@,
    ensures
        exists|i: int, j: int|
            0 <= i < items.len() && 0 <= j < text::lines_text(log).len() && (#[trigger] items[i]).id
                == attribution(log, items, label)[k].id && items[i].name == attribution(
                log,
                items,
                label,
            )[k].name && tells_of_error(#[trigger] text::lines_text(log)[j]) && points_at(
                text::lines_text(log)[j],
                items[i],
            ),
{
    reveal_strlit("kernel");
    reveal_strlit("plugin");
    assert("kernel"@[0] != "plugin"@[0]);
    let lines = text::lines_text(log);
    let s = attribution(log, items, label)[k];
    law_plugins_are_blamed_by_evidence(log, items, label);
    assert(well_founded(s, lines, items));
    let i = choose|i: int|
        0 <= i < items.len() && s.id == (#[trigger] items[i]).id && s.name == items[i].name
            && implicated(lines, items[i]);
    let j = choose|j: int|
        0 <= j < lines.len() && error_line(#[trigger] lines[j]) && anchored_hit(lines[j], items[i]);
    law_error_lines_tell_of_errors(lines[j]);
    law_hits_point_at_the_plugin(lines[j], items[i]);
    assert(items[i].id == s.id && tells_of_error(text::lines_text(log)[j]));
}

/// A plugin that an error line quotes, or names by its directory or by its own
/// client bundle, is blamed, unless eight are listed. The directory and the
/// bundle count where they are the first of their spelling in the line.
pub proof fn law_error_lines_blame_plugins(
    log: Seq<char>,
    items: Seq<PluginModel>,
    label: Seq<char>,
    i: int,
    j: int,
    at: int,
)
    requires
        0 <= i < items.len(),
        0 <= j < text::lines_text(log).len(),
        tells_of_error(text::lines_text(log)[j]),
        ({
            let line = text::lines_text(log)[j];
            let norm = text::swap_text(line, '\\', '/');
            let item = items[i];
            ||| text::has(line, "'"@ + item.name + "'"@)
            ||| text::has(line, "\""@ + item.name + "\""@)
            ||| stands_whole(norm, "plugins/"@ + item.id, at) && forall|b: int|
                0 <= b < at ==> !text::occurs_at(norm, "plugins/"@ + item.id, b)
            ||| stands_whole(norm, "node_modules/"@ + item.name, at) && forall|b: int|
                0 <= b < at ==> !text::occurs_at(norm, "node_modules/"@ + item.name, b)
            ||| item.name.len() > 0 && stands_whole(norm, item.name + "/client.js"@, at) && (forall|
                b: int,
            |
                0 <= b < at ==> !text::occurs_at(norm, item.name + "/client.js"@, b)) && (at == 0
                || norm[at - 1] == '?' || norm[at - 1] == ',' || norm[at - 1] == '/' && text::ends(
                norm.take(at - 1),
                "/plugins"@,
            )) && !(combo_members(norm) matches Some(n) && n > 1)
        }),
        attribution(log, items, label).len() < 8,
    ensures
        exists|k: int|
            0 <= k < attribution(log, items, label).len() && (#[trigger] attribution(
                log,
                items,
                label,
            )[k]).id == items[i].id,
{
    let lines = text::lines_text(log);
    let line = lines[j];
    let norm = text::swap_text(line, '\\', '/');
    let item = items[i];
    law_error_lines_tell_of_errors(line);
    reveal_strlit("plugins/");
    reveal_strlit("node_modules/");
    let a = "plugins/"@ + item.id;
    let b = "node_modules/"@ + item.name;
    if stands_whole(norm, a, at) && forall|c: int| 0 <= c < at ==> !text::occurs_at(norm, a, c) {
        lemma_first_match(norm, a, 0, at);
        assert(nth_match(norm, a, 0) == at);
        assert(segment_ends(norm, nth_match(norm, a, 0) + a.len()));
    }
    if stands_whole(norm, b, at) && forall|c: int| 0 <= c < at ==> !text::occurs_at(norm, b, c) {
        lemma_first_match(norm, b, 0, at);
        assert(nth_match(norm, b, 0) == at);
        assert(segment_ends(norm, nth_match(norm, b, 0) + b.len()));
    }
    reveal_strlit("/client.js");
    let c = item.name + "/client.js"@;
    if stands_whole(norm, c, at) && forall|d: int| 0 <= d < at ==> !text::occurs_at(norm, c, d) {
        lemma_first_match(norm, c, 0, at);
        assert(nth_match(norm, c, 0) == at);
        assert(segment_ends(norm, nth_match(norm, c, 0) + c.len()));
        if at == 0 || norm[at - 1] == '?' || norm[at - 1] == ',' || norm[at - 1] == '/'
            && text::ends(norm.take(at - 1), "/plugins"@) {
            assert(member_starts(norm, nth_match(norm, c, 0)));
        }
    }
    assert(anchored_hit(line, item));
    assert(implicated(lines_of(log), items[i]));
    law_plugins_are_blamed_by_evidence(log, items, label);
}

/// The kernel is blamed under the label that was given, and only by a line that
/// tells of an error and names a package of the kernel or a phrase of its
/// loader.
pub proof fn law_the_kernel_is_blamed_by_error_lines(
    log: Seq<char>,
    items: Seq<PluginModel>,
    label: Seq<char>,
    k: int,
)
    requires
        0 <= k < attribution(log, items, label).len(),
        attribution(log, items, label)[k].kind != "plugin"@,
    ensures
        attribution(log, items, label).len() == 1,
        attribution(log, items, label)[k].kind == "kernel"@,
        attribution(log, items, label)[k].id == label,
        exists|j: int|
            0 <= j < text::lines_text(log).len() && tells_of_error(
                #[trigger] text::lines_text(log)[j],
            ) && (text::has(
                text::swap_text(text::lines_text(log)[j], '\\', '/'),
                "@deepseek-ai/dsh"@,
            ) || holds_one_of(
                text::lines_text(log)[j],
                seq![
                    "client-modules"@,
                    "build-time externals drift"@,
                    "missed the module table"@,
                    "platform seed word"@,
                    "not a materialized module"@,
                    "no registered package factory"@,
                ],
            )),
{
    let lines = text::lines_text(log);
    lemma_blamed(lines, items);
    lemma_kernel_hit_from(lines, 0);
    if blamed(lines, items).len() > 0 {
        assert(well_founded(blamed(lines, items)[k], lines, items));
    } else {
        let j = kernel_hit_from(lines, 0)->0;
        let line = lines[j];
        law_error_lines_tell_of_errors(line);
        let norm = text::swap_text(line, '\\', '/');
        if kernel_package_ref(norm) {
            let pat = "@deepseek-ai/dsh"@;
            let m = choose|m: int|
                0 <= m < text::matches_from(norm, pat, 0).len() && {
                    let e = #[trigger] nth_match(norm, pat, m) + pat.len();
                    e >= norm.len() || !text::is_alnum(norm[e])
                };
            lemma_match_occurs(norm, pat, 0, m);
            assert(text::occurs_at(norm, pat, nth_match(norm, pat, m)));
        } else {
            let words = seq![
                "client-modules"@,
                "build-time externals drift"@,
                "missed the module table"@,
                "platform seed word"@,
                "not a materialized module"@,
                "no registered package factory"@,
            ];
            assert(words[0] == "client-modules"@ && words[1] == "build-time externals drift"@
                && words[2] == "missed the module table"@ && words[3] == "platform seed word"@
                && words[4] == "not a materialized module"@ && words[5]
                == "no registered package factory"@);
            assert(text::has(line, words[0]) || text::has(line, words[1]) || text::has(
                line,
                words[2],
            ) || text::has(line, words[3]) || text::has(line, words[4]) || text::has(
                line,
                words[5],
            ));
        }
        assert(tells_of_error(text::lines_text(log)[j]));
    }
}

/// The environment is at fault exactly where the log, in whatever case, holds
/// one of the known marks: a port in use, missing rights, a full disk, or a
/// native module of another Node version.
pub proof fn law_environment_marks(log: Seq<char>)
    ensures
        env_failure(log) is Some <==> holds_one_of(
            text::lower_text(log),
            seq![
                "eaddrinuse"@,
                "address already in use"@,
                "eacces"@,
                "eperm"@,
                "permission denied"@,
                "enospc"@,
                "no space left on device"@,
                "node_module_version"@,
                "was compiled against a different node.js version"@,
                "cannot find module './build/release"@,
            ],
        ),
        env_failure(log) matches Some(m) ==> text::has(text::lower_text(log), m),
{
    let low = text::lower_text(log);
    let known = seq![
        "eaddrinuse"@,
        "address already in use"@,
        "eacces"@,
        "eperm"@,
        "permission denied"@,
        "enospc"@,
        "no space left on device"@,
        "node_module_version"@,
        "was compiled against a different node.js version"@,
        "cannot find module './build/release"@,
    ];
    law_environment_mark_is_in_the_log(log);
    assert(known =~= env_markers());
    if env_failure(log) is Some {
        let m = env_failure(log)->0;
        let k = choose|k: int| 0 <= k < env_markers().len() && env_markers()[k] == m;
        assert(text::has(low, known[k]));
    }
}

/// An excerpt is the line with its neighbours, one to a line, and never longer
/// than the bound and its ellipsis.
pub proof fn law_excerpts_show_the_line(lines: Seq<Seq<char>>, idx: int)
    requires
        0 <= idx < lines.len(),
    ensures
        ({
            let above = if idx == 0 {
                Seq::<char>::empty()
            } else {
                lines[idx - 1] + "\n"@
            };
            let below = if idx + 1 == lines.len() {
                Seq::<char>::empty()
            } else {
                "\n"@ + lines[idx + 1]
            };
            let whole = above + lines[idx] + below;
            let shown = excerpt_text(lines, idx);
            &&& whole.len() <= 480 ==> shown == whole
            &&& whole.len() > 480 ==> shown.len() == 481 && shown.take(480) == whole.take(480)
        }),
{
    reveal_strlit("…");
    let from = if idx > 0 {
        idx - 1
    } else {
        0
    };
    let to = if idx + 2 < lines.len() {
        idx + 2
    } else {
        lines.len() as int
    };
    let part = lines.subrange(from, to);
    reveal_with_fuel(text::join_text, 4);
    let above = if idx == 0 {
        Seq::<char>::empty()
    } else {
        lines[idx - 1] + "\n"@
    };
    let below = if idx + 1 == lines.len() {
        Seq::<char>::empty()
    } else {
        "\n"@ + lines[idx + 1]
    };
    let whole = above + lines[idx] + below;
    if part.len() == 1 {
        assert(part[0] == lines[idx]);
    } else if part.len() == 2 {
        assert(part.drop_last().len() == 1);
        assert(part.drop_last()[0] == part[0]);
        assert(part.last() == part[1]);
    } else {
        assert(part.drop_last().drop_last()[0] == part[0]);
        assert(part.drop_last().last() == part[1]);
        assert(part.last() == part[2]);
    }
    assert(text::join_text(part, "\n"@) =~= whole);
    if whole.len() > 480 {
        assert(excerpt_text(lines, idx).take(480) =~= whole.take(480));
    }
}

/// The evidence of a plugin is an excerpt around an error line that points at
/// it.
pub proof fn law_evidence_shows_the_error(
    log: Seq<char>,
    items: Seq<PluginModel>,
    label: Seq<char>,
    k: int,
)
    requires
        0 <= k < attribution(log, items, label).len(),
    ensures
        exists|j: int|
            0 <= j < text::lines_text(log).len() && tells_of_error(
                #[trigger] text::lines_text(log)[j],
            ) && attribution(log, items, label)[k].evidence == excerpt_text(
                text::lines_text(log),
                j,
            ),
{
    let lines = text::lines_text(log);
    lemma_kernel_hit_from(lines, 0);
    let j = if blamed(lines, items).len() > 0 {
        lemma_blamed_evidence(lines, items, k)
    } else {
        kernel_hit_from(lines, 0)->0
    };
    law_error_lines_tell_of_errors(lines[j]);
}

proof fn lemma_blamed_evidence(lines: Seq<Seq<char>>, items: Seq<PluginModel>, k: int) -> (j: int)
    requires
        0 <= k < blamed(lines, items).len(),
    ensures
        0 <= j < lines.len(),
        error_line(lines[j]),
        blamed(lines, items)[k].evidence == excerpt_text(lines, j),
    decreases items.len(),
{
    let before = blamed(lines, items.drop_last());
    if k < before.len() {
        assert(blamed(lines, items)[k] == before[k]);
        lemma_blamed_evidence(lines, items.drop_last(), k)
    } else {
        lemma_hit_from(lines, items.last(), 0);
        hit_from(lines, items.last(), 0)->0
    }
}

/// A character that may stand in a member of a combined route.
pub open spec fn member_char(c: char) -> bool {
    c != ',' && !text::is_white(c) && c != '&' && c != '"' && c != '\'' && c != ')' && c != ']' && c
        != '<' && c != '>'
}

/// A combined route of one member counts one, and a route of two counts two:
/// the members are parted by commas, and white space, a quote, a bracket or an
/// ampersand ends the route.
pub proof fn law_members_of_a_route_are_counted(
    head: Seq<char>,
    a: Seq<char>,
    b: Seq<char>,
    rest: Seq<char>,
)
    requires
        a.len() > 0,
        b.len() > 0,
        forall|i: int| 0 <= i < a.len() ==> member_char(#[trigger] a[i]),
        forall|i: int| 0 <= i < b.len() ==> member_char(#[trigger] b[i]),
        rest.len() > 0 ==> rest[0] != ',' && !member_char(rest[0]),
        forall|i: int|
            0 <= i < head.len() ==> !text::occurs_at(
                head + "/plugins/??"@ + a + ","@ + b + rest,
                "/plugins/??"@,
                i,
            ),
        forall|i: int|
            0 <= i < head.len() ==> !text::occurs_at(
                head + "/plugins/??"@ + a + rest,
                "/plugins/??"@,
                i,
            ),
    ensures
        combo_members(head + "/plugins/??"@ + a + rest) == Some(1nat),
        combo_members(head + "/plugins/??"@ + a + ","@ + b + rest) == Some(2nat),
        !ambiguous_combo(head + "/plugins/??"@ + a + rest),
        ambiguous_combo(head + "/plugins/??"@ + a + ","@ + b + rest),
{
    reveal_strlit(",");
    let route = "/plugins/??"@;
    let both = a + ","@ + b;
    let one = head + route + a + rest;
    let two = head + route + a + ","@ + b + rest;
    let n = head.len() as int;
    assert(one.subrange(n, n + route.len()) =~= route);
    assert(two.subrange(n, n + route.len()) =~= route);
    lemma_first_at(one, route, 0, n);
    lemma_first_at(two, route, 0, n);
    let after_one = one.skip(n + route.len());
    let after_two = two.skip(n + route.len());
    assert(after_one =~= a + rest);
    assert(after_two =~= both + rest);
    assert forall|j: int| 0 <= j < a.len() implies !route_stop(#[trigger] after_one[j]) by {
        assert(member_char(a[j]));
    }
    if rest.len() > 0 {
        assert(after_one[a.len() as int] == rest[0]);
        assert(after_two[both.len() as int] == rest[0]);
    }
    lemma_route_len_is(after_one, a.len() as int);
    assert forall|j: int| 0 <= j < both.len() implies !route_stop(#[trigger] after_two[j]) by {
        assert(after_two[j] == both[j]);
        if j < a.len() {
            assert(member_char(a[j]));
        } else if j > a.len() {
            assert(member_char(b[j - a.len() - 1]));
        }
    }
    lemma_route_len_is(after_two, both.len() as int);
    assert(after_one.take(a.len() as int) =~= a);
    assert(after_two.take(both.len() as int) =~= both);
    lemma_no_comma(a);
    lemma_no_comma(b);
    assert(text::split_text(a, ',') == seq![a]);
    text::lemma_index_of_char_is(both, ',', a.len() as int);
    assert(both.take(a.len() as int) =~= a);
    assert(both.skip((a.len() + 1) as int) =~= b);
    assert(text::split_text(both, ',') =~= seq![a, b]);
    assert(seq![a].drop_last() =~= Seq::<Seq<char>>::empty());
    assert(seq![a, b].drop_last() =~= seq![a]);
    reveal_with_fuel(filled, 3);
}

proof fn lemma_no_comma(s: Seq<char>)
    requires
        forall|i: int| 0 <= i < s.len() ==> member_char(#[trigger] s[i]),
    ensures
        text::split_text(s, ',') == seq![s],
{
    text::lemma_index_of_char(s, ',');
    let i = text::index_of_char(s, ',');
    if i < s.len() {
        assert(member_char(s[i]));
    }
}

proof fn lemma_first_at(s: Seq<char>, pat: Seq<char>, from: int, at: int)
    requires
        0 <= from <= at,
        text::occurs_at(s, pat, at),
        forall|i: int| from <= i < at ==> !text::occurs_at(s, pat, i),
    ensures
        text::first_from(s, pat, from) == Some(at),
    decreases at - from,
{
    if from < at {
        lemma_first_at(s, pat, from + 1, at);
    }
}

/// A line with a combined route of several members blames a plugin only where
/// it quotes the plugin's name or names its directory.
pub proof fn law_shared_bundles_blame_nobody(line: Seq<char>, item: PluginModel)
    requires
        combo_members(text::swap_text(line, '\\', '/')) matches Some(n) && n > 1,
        anchored_hit(line, item),
    ensures
        ({
            let norm = text::swap_text(line, '\\', '/');
            ||| text::has(line, "'"@ + item.name + "'"@)
            ||| text::has(line, "\""@ + item.name + "\""@)
            ||| exists|i: int| stands_whole(norm, "plugins/"@ + item.id, i)
            ||| exists|i: int| stands_whole(norm, "node_modules/"@ + item.name, i)
        }),
{
    let norm = text::swap_text(line, '\\', '/');
    if segment_path(norm, "plugins/"@, item.id) {
        let pat = "plugins/"@ + item.id;
        let k = choose|k: int|
            0 <= k < text::matches_from(norm, pat, 0).len() && segment_ends(
                norm,
                #[trigger] nth_match(norm, pat, k) + pat.len(),
            );
        lemma_match_occurs(norm, pat, 0, k);
        assert(stands_whole(norm, pat, nth_match(norm, pat, k)));
    }
    if segment_path(norm, "node_modules/"@, item.name) {
        let pat = "node_modules/"@ + item.name;
        let k = choose|k: int|
            0 <= k < text::matches_from(norm, pat, 0).len() && segment_ends(
                norm,
                #[trigger] nth_match(norm, pat, k) + pat.len(),
            );
        lemma_match_occurs(norm, pat, 0, k);
        assert(stands_whole(norm, pat, nth_match(norm, pat, k)));
    }
}

/// An error line points at the kernel exactly where it has a phrase of its
/// loader, or names a package of its namespace and no combined route of several
/// members. A name that goes on with a letter or a digit is another package's.
pub proof fn law_kernel_lines(line: Seq<char>, at: int)
    ensures
        ({
            let norm = text::swap_text(line, '\\', '/');
            let pat = "@deepseek-ai/dsh"@;
            let phrase = holds_one_of(
                line,
                seq![
                    "client-modules"@,
                    "build-time externals drift"@,
                    "missed the module table"@,
                    "platform seed word"@,
                    "not a materialized module"@,
                    "no registered package factory"@,
                ],
            );
            let shared = combo_members(norm) matches Some(n) && n > 1;
            &&& kernel_evidence(line) ==> tells_of_error(line)
            &&& kernel_evidence(line) && !phrase ==> !shared && exists|i: int|
                #[trigger] text::occurs_at(norm, pat, i) && (i + pat.len() == norm.len() || !{
                    let c = norm[i + pat.len()];
                    'a' <= c <= 'z' || 'A' <= c <= 'Z' || '0' <= c <= '9'
                })
            &&& tells_of_error(line) && phrase ==> kernel_evidence(line)
            &&& tells_of_error(line) && !shared && text::occurs_at(norm, pat, at) && (forall|b: int|
                0 <= b < at ==> !text::occurs_at(norm, pat, b)) && (at + pat.len() == norm.len()
                || !{
                let c = norm[at + pat.len()];
                'a' <= c <= 'z' || 'A' <= c <= 'Z' || '0' <= c <= '9'
            }) ==> kernel_evidence(line)
        }),
{
    law_error_lines_tell_of_errors(line);
    let norm = text::swap_text(line, '\\', '/');
    let pat = "@deepseek-ai/dsh"@;
    reveal_strlit("@deepseek-ai/dsh");
    let words = seq![
        "client-modules"@,
        "build-time externals drift"@,
        "missed the module table"@,
        "platform seed word"@,
        "not a materialized module"@,
        "no registered package factory"@,
    ];
    assert(words[0] == "client-modules"@ && words[1] == "build-time externals drift"@ && words[2]
        == "missed the module table"@ && words[3] == "platform seed word"@ && words[4]
        == "not a materialized module"@ && words[5] == "no registered package factory"@);
    if loader_phrase(line) {
        assert(text::has(line, words[0]) || text::has(line, words[1]) || text::has(line, words[2])
            || text::has(line, words[3]) || text::has(line, words[4]) || text::has(line, words[5]));
    }
    if kernel_package_ref(norm) {
        let m = choose|m: int|
            0 <= m < text::matches_from(norm, pat, 0).len() && {
                let e = #[trigger] nth_match(norm, pat, m) + pat.len();
                e >= norm.len() || !text::is_alnum(norm[e])
            };
        lemma_match_occurs(norm, pat, 0, m);
        assert(text::occurs_at(norm, pat, nth_match(norm, pat, m)));
    }
    if text::occurs_at(norm, pat, at) && (forall|b: int|
        0 <= b < at ==> !text::occurs_at(norm, pat, b)) {
        lemma_first_match(norm, pat, 0, at);
        assert(nth_match(norm, pat, 0) == at);
        let e = nth_match(norm, pat, 0) + pat.len();
        if at + pat.len() == norm.len() || !{
            let c = norm[at + pat.len()];
            'a' <= c <= 'z' || 'A' <= c <= 'Z' || '0' <= c <= '9'
        } {
            assert(e >= norm.len() || !text::is_alnum(norm[e]));
        }
    }
}

} // verus!
