//! The search path that child processes are given.

use crate::text;
use vstd::prelude::*;

verus! {

/// The last line that is not blank, trimmed.
pub open spec fn last_line(lines: Seq<Seq<char>>) -> Option<Seq<char>>
    decreases lines.len(),
{
    if lines.len() == 0 {
        None
    } else if text::trim_text(lines.last()).len() > 0 {
        Some(text::trim_text(lines.last()))
    } else {
        last_line(lines.drop_last())
    }
}

/// The value that a query of the registry printed: what follows the name and
/// the type on the last line.
pub open spec fn reg_value(out: Seq<char>) -> Option<Seq<char>> {
    match last_line(text::lines_text(out)) {
        None => None,
        Some(line) => {
            let parts = text::words_text(line);
            if parts.len() < 2 {
                None
            } else {
                let value = text::trim_text(text::join_text(parts.skip(2), " "@));
                if value.len() == 0 {
                    None
                } else {
                    Some(value)
                }
            }
        },
    }
}

fn find_last_line(out: &str) -> (r: Option<String>)
    ensures
        text::opt_text(r) == last_line(text::lines_text(out@)),
{
    let lines = text::lines(out);
    let ghost all = text::texts(lines@);
    let mut n: usize = lines.len();
    proof {
        assert(all.len() == lines@.len());
        assert(all.take(n as int) =~= all);
    }
    while n > 0
        invariant
            n <= lines.len(),
            all == text::texts(lines@),
            all.len() == lines@.len(),
            all == text::lines_text(out@),
            last_line(all) == last_line(all.take(n as int)),
        decreases n,
    {
        let line = text::trim(lines[n - 1].as_str());
        proof {
            assert(all[n - 1] == lines@[n - 1]@);
            assert(all.take(n as int).last() == all[n - 1]);
            assert(all.take(n as int).drop_last() =~= all.take(n - 1));
        }
        if !line.as_str().is_empty() {
            return Some(line);
        }
        n = n - 1;
    }
    None
}

/// Reads the value that a query of the registry printed.
pub fn parse_reg_path(out: &str) -> (r: Option<String>)
    ensures
        text::opt_text(r) == reg_value(out@),
{
    let line = match find_last_line(out) {
        Some(l) => l,
        None => {
            return None;
        },
    };
    let parts = text::words(line.as_str());
    let ghost all = text::texts(parts@);
    proof {
        assert(all.len() == parts@.len());
    }
    if parts.len() < 2 {
        return None;
    }
    let mut rest: Vec<String> = Vec::new();
    let mut i: usize = 2;
    proof {
        assert(text::texts(rest@) =~= all.subrange(2, 2));
    }
    while i < parts.len()
        invariant
            2 <= i <= parts.len(),
            all == text::texts(parts@),
            all.len() == parts@.len(),
            text::texts(rest@) == all.subrange(2, i as int),
        decreases parts.len() - i,
    {
        let p = parts[i].clone();
        proof {
            assert(all[i as int] == p@);
            assert(text::texts(rest@.push(p)) =~= text::texts(rest@).push(p@));
            assert(all.subrange(2, i + 1) =~= all.subrange(2, i as int).push(p@));
        }
        rest.push(p);
        i = i + 1;
    }
    proof {
        assert(all.subrange(2, all.len() as int) =~= all.skip(2));
    }
    let value = text::trim(text::join(&rest, " ").as_str());
    if value.as_str().is_empty() {
        None
    } else {
        Some(value)
    }
}

/// Two entries are the same but for ASCII case.
pub open spec fn same_entry(a: Seq<char>, b: Seq<char>) -> bool {
    text::lower_text(a) == text::lower_text(b)
}

/// A list has an entry, but for ASCII case.
pub open spec fn has_entry(list: Seq<Seq<char>>, entry: Seq<char>) -> bool {
    exists|i: int| 0 <= i < list.len() && same_entry(#[trigger] list[i], entry)
}

/// The entries that stay: trimmed, without blank ones, and each but once.
pub open spec fn kept(entries: Seq<Seq<char>>) -> Seq<Seq<char>>
    decreases entries.len(),
{
    if entries.len() == 0 {
        Seq::empty()
    } else {
        let before = kept(entries.drop_last());
        let entry = text::trim_text(entries.last());
        if entry.len() == 0 || has_entry(before, entry) {
            before
        } else {
            before.push(entry)
        }
    }
}

/// The two search paths as one list, the user's in front.
pub open spec fn both(system: Seq<char>, user: Seq<char>) -> Seq<Seq<char>> {
    text::split_text(user, ';') + text::split_text(system, ';')
}

/// The two search paths made one.
pub open spec fn merged(system: Seq<char>, user: Seq<char>) -> Seq<char> {
    text::join_text(kept(both(system, user)), ";"@)
}

fn holds(list: &Vec<String>, entry: &str) -> (r: bool)
    ensures
        r == has_entry(text::texts(list@), entry@),
{
    let key = text::to_lower(entry);
    let mut i: usize = 0;
    proof {
        assert(text::texts(list@).len() == list@.len());
    }
    while i < list.len()
        invariant
            i <= list.len(),
            key@ == text::lower_text(entry@),
            text::texts(list@).len() == list@.len(),
            forall|k: int| 0 <= k < i ==> !same_entry(#[trigger] text::texts(list@)[k], entry@),
        decreases list.len() - i,
    {
        let low = text::to_lower(list[i].as_str());
        proof {
            assert(text::texts(list@)[i as int] == list@[i as int]@);
        }
        if text::same(low.as_str(), key.as_str()) {
            proof {
                assert(same_entry(text::texts(list@)[i as int], entry@));
            }
            return true;
        }
        i = i + 1;
    }
    false
}

fn keep_all(out: Vec<String>, entries: &Vec<String>, before: Ghost<Seq<Seq<char>>>) -> (r: Vec<
    String,
>)
    requires
        text::texts(out@) == kept(before@),
    ensures
        text::texts(r@) == kept(before@ + text::texts(entries@)),
{
    let mut out = out;
    let ghost all = text::texts(entries@);
    let mut i: usize = 0;
    proof {
        assert(before@ + all.take(0) =~= before@);
    }
    while i < entries.len()
        invariant
            i <= entries.len(),
            all == text::texts(entries@),
            text::texts(out@) == kept(before@ + all.take(i as int)),
        decreases entries.len() - i,
    {
        let entry = text::trim(entries[i].as_str());
        proof {
            assert(all[i as int] == entries@[i as int]@);
            let next = before@ + all.take(i + 1);
            assert(next.drop_last() =~= before@ + all.take(i as int));
            assert(next.last() == all[i as int]);
        }
        if !entry.as_str().is_empty() && !holds(&out, entry.as_str()) {
            proof {
                assert(text::texts(out@.push(entry)) =~= text::texts(out@).push(entry@));
            }
            out.push(entry);
        }
        i = i + 1;
    }
    proof {
        assert(all.take(all.len() as int) =~= all);
    }
    out
}

/// Makes one search path of two: the user's entries in front, blank entries
/// left out, and each entry but once, whatever its case.
pub fn merge_paths(system: &str, user: &str) -> (r: String)
    ensures
        r@ == merged(system@, user@),
{
    let users = text::split(user, ';');
    let systems = text::split(system, ';');
    let out: Vec<String> = Vec::new();
    proof {
        assert(text::texts(out@) =~= Seq::<Seq<char>>::empty());
        assert(Seq::<Seq<char>>::empty() + text::texts(users@) =~= text::texts(users@));
    }
    let out = keep_all(out, &users, Ghost(Seq::empty()));
    let out = keep_all(out, &systems, Ghost(text::texts(users@)));
    text::join(&out, ";")
}

/// No entry of a merged path occurs twice, whatever its case.
pub proof fn law_entries_occur_once(entries: Seq<Seq<char>>)
    ensures
        forall|i: int, j: int|
            0 <= i < j < kept(entries).len() ==> !same_entry(
                #[trigger] kept(entries)[i],
                #[trigger] kept(entries)[j],
            ),
    decreases entries.len(),
{
    if entries.len() > 0 {
        law_entries_occur_once(entries.drop_last());
        let before = kept(entries.drop_last());
        let now = kept(entries);
        assert forall|i: int, j: int| 0 <= i < j < now.len() implies !same_entry(
            #[trigger] now[i],
            #[trigger] now[j],
        ) by {
            assert(now[i] == before[i]);
            if j < before.len() {
                assert(now[j] == before[j]);
            }
        }
    }
}

/// Every entry that is not blank is still there, but for its case.
pub proof fn law_no_entry_is_lost(entries: Seq<Seq<char>>, i: int)
    requires
        0 <= i < entries.len(),
        text::trim_text(entries[i]).len() > 0,
    ensures
        has_entry(kept(entries), text::trim_text(entries[i])),
    decreases entries.len(),
{
    let before = kept(entries.drop_last());
    let entry = text::trim_text(entries[i]);
    let now = kept(entries);
    if i < entries.len() - 1 {
        assert(entries.drop_last()[i] == entries[i]);
        law_no_entry_is_lost(entries.drop_last(), i);
        let k = choose|k: int| 0 <= k < before.len() && same_entry(#[trigger] before[k], entry);
        assert(now[k] == before[k]);
    } else if !has_entry(before, entry) {
        assert(now[before.len() as int] == entry);
    }
}

/// The search path: on Windows the inherited one with the user's own, where
/// there is one, and elsewhere the inherited one.
pub open spec fn search_path(system: Seq<char>, user: Option<Seq<char>>, windows: bool) -> Seq<
    char,
> {
    match user {
        Some(u) if windows && u.len() > 0 => merged(system, u),
        _ => system,
    }
}

/// The search path that child processes are given.
pub fn compute_merged_path(system: &str, user: Option<&str>, windows: bool) -> (r: String)
    ensures
        r@ == search_path(
            system@,
            match user {
                Some(u) => Some(u@),
                None => None,
            },
            windows,
        ),
{
    match user {
        Some(u) => {
            if windows && !u.is_empty() {
                merge_paths(system, u)
            } else {
                text::owned(system)
            }
        },
        None => text::owned(system),
    }
}

/// The search path that child processes are given. `registry` is what the query
/// for the user's own path printed, where it ended well.
pub fn merged_path(system: &str, registry: Option<&str>, windows: bool) -> (r: String)
    ensures
        r@ == search_path(
            system@,
            match registry {
                Some(out) => reg_value(out@),
                None => None,
            },
            windows,
        ),
{
    let user = match registry {
        Some(out) => parse_reg_path(out),
        None => None,
    };
    match &user {
        Some(u) => compute_merged_path(system, Some(u.as_str()), windows),
        None => compute_merged_path(system, None, windows),
    }
}

/// Every entry of the merged path is one of the two paths, trimmed and not
/// blank.
pub proof fn law_no_entry_is_made_up(entries: Seq<Seq<char>>, k: int)
    requires
        0 <= k < kept(entries).len(),
    ensures
        kept(entries)[k].len() > 0,
        exists|i: int|
            0 <= i < entries.len() && text::trim_text(#[trigger] entries[i]) == kept(entries)[k],
    decreases entries.len(),
{
    let init = entries.drop_last();
    let before = kept(init);
    if k < before.len() {
        assert(kept(entries)[k] == before[k]);
        law_no_entry_is_made_up(init, k);
        let i = choose|i: int|
            0 <= i < init.len() && text::trim_text(#[trigger] init[i]) == before[k];
        assert(entries[i] == init[i]);
    } else {
        assert(entries[entries.len() - 1] == entries.last());
    }
}

/// The user's entries come before the system's: the merged path begins with what
/// the user's own path comes to by itself, and an entry that both have stands
/// where the user has it.
pub proof fn law_the_users_entries_come_first(system: Seq<char>, user: Seq<char>)
    ensures
        kept(text::split_text(user, ';')).is_prefix_of(kept(both(system, user))),
        merged(system, user) == text::join_text(kept(both(system, user)), ";"@),
{
    lemma_kept_grows(text::split_text(user, ';'), text::split_text(system, ';'));
}

proof fn lemma_kept_grows(a: Seq<Seq<char>>, b: Seq<Seq<char>>)
    ensures
        kept(a).is_prefix_of(kept(a + b)),
    decreases b.len(),
{
    if b.len() == 0 {
        assert(a + b =~= a);
    } else {
        lemma_kept_grows(a, b.drop_last());
        assert((a + b).drop_last() =~= a + b.drop_last());
        let small = kept(a);
        let mid = kept(a + b.drop_last());
        let all = kept(a + b);
        assert(small =~= all.take(small.len() as int)) by {
            assert(small == mid.take(small.len() as int));
            assert forall|i: int| 0 <= i < small.len() implies small[i] == all[i] by {
                assert(small[i] == mid[i]);
                assert(mid[i] == all[i]);
            }
        }
    }
}

/// Elsewhere than on Windows, and where the user has no path of their own, the
/// search path is the inherited one, letter for letter.
pub proof fn law_the_inherited_path_stays(system: Seq<char>, user: Seq<char>)
    ensures
        search_path(system, Some(user), false) == system,
        search_path(system, None, true) == system,
        search_path(system, Some(Seq::<char>::empty()), true) == system,
        user.len() > 0 ==> search_path(system, Some(user), true) == merged(system, user),
{
}

/// A query of the registry is read by its last line that is not blank: what
/// follows the name and the type is the value, and a line without one gives
/// none.
pub proof fn law_registry_values_are_read(
    lines: Seq<Seq<char>>,
    name: Seq<char>,
    kind: Seq<char>,
    value: Seq<char>,
)
    requires
        name.len() > 0,
        kind.len() > 0,
        value.len() > 0,
        forall|i: int| 0 <= i < name.len() ==> !text::is_white(#[trigger] name[i]),
        forall|i: int| 0 <= i < kind.len() ==> !text::is_white(#[trigger] kind[i]),
        forall|i: int| 0 <= i < value.len() ==> !text::is_white(#[trigger] value[i]),
        last_line(lines) == Some(text::join_text(seq![name, kind, value], seq![' '])),
    ensures
        forall|out: Seq<char>|
            text::lines_text(out) == lines ==> #[trigger] reg_value(out) == Some(value),
{
    let words = seq![name, kind, value];
    assert forall|k: int, i: int|
        0 <= k < words.len() && 0 <= i < words[k].len() implies !text::is_white(
        #[trigger] words[k][i],
    ) by {
        if k == 0 {
            assert(!text::is_white(name[i]));
        } else if k == 1 {
            assert(!text::is_white(kind[i]));
        } else {
            assert(!text::is_white(value[i]));
        }
    }
    assert forall|k: int| 0 <= k < words.len() implies (#[trigger] words[k]).len() > 0 by {}
    text::law_words_are_read_apart(words, ' ');
    assert(words.skip(2) =~= seq![value]);
    assert(text::join_text(seq![value], " "@) == value);
    assert(!text::is_white(value[0]) && !text::is_white(value[value.len() - 1]));
    let f = |c: char| text::is_white(c);
    assert(!f(value[0]) && !f(value.last()));
    assert(text::trim_text(value) == value);
}

/// The last line that is not blank counts, whatever blank lines follow it.
pub proof fn law_blank_lines_do_not_count(lines: Seq<Seq<char>>, line: Seq<char>)
    ensures
        text::trim_text(line).len() == 0 ==> last_line(lines.push(line)) == last_line(lines),
        text::trim_text(line).len() > 0 ==> last_line(lines.push(line)) == Some(
            text::trim_text(line),
        ),
{
    assert(lines.push(line).drop_last() =~= lines);
}

/// Entries that differ only in the case of their letters are one entry: of such
/// entries the first one stays, as it is written.
pub proof fn law_case_does_not_matter(entries: Seq<Seq<char>>, more: Seq<char>)
    ensures
        forall|i: int, j: int|
            0 <= i < j < kept(entries).len() ==> text::lower_text(#[trigger] kept(entries)[i])
                != text::lower_text(#[trigger] kept(entries)[j]),
        ({
            let entry = text::trim_text(more);
            let there = exists|i: int|
                0 <= i < kept(entries).len() && text::lower_text(#[trigger] kept(entries)[i])
                    == text::lower_text(entry);
            kept(entries.push(more)) == (if entry.len() == 0 || there {
                kept(entries)
            } else {
                kept(entries).push(entry)
            })
        }),
{
    law_entries_occur_once(entries);
    assert(entries.push(more).drop_last() =~= entries);
    let before = kept(entries);
    let entry = text::trim_text(more);
    if has_entry(before, entry) {
        let i = choose|i: int| 0 <= i < before.len() && same_entry(#[trigger] before[i], entry);
        assert(text::lower_text(before[i]) == text::lower_text(entry));
    }
    assert forall|i: int, j: int| 0 <= i < j < before.len() implies text::lower_text(
        #[trigger] before[i],
    ) != text::lower_text(#[trigger] before[j]) by {
        assert(!same_entry(before[i], before[j]));
    }
    if exists|i: int|
        0 <= i < before.len() && text::lower_text(#[trigger] before[i]) == text::lower_text(
            entry,
        ) {
        let i = choose|i: int|
            0 <= i < before.len() && text::lower_text(#[trigger] before[i]) == text::lower_text(
                entry,
            );
        assert(same_entry(before[i], entry));
    }
}

} // verus!
