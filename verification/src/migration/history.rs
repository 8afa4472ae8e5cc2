//! The names of moves, their backups, and taking them back.

use crate::error::{AppError, ErrorModel};
use crate::migration::sources;
use crate::migration::sources::LegacySource;
use crate::paths;
use crate::sort;
use crate::text;
use vstd::prelude::*;

verus! {

// --------------------------------------------------------------------- names

/// A moment on the calendar.
#[derive(Debug, Clone, Copy, PartialEq, Eq, Structural)]
pub struct Civil {
    pub year: u32,
    pub month: u32,
    pub day: u32,
    pub hour: u32,
    pub minute: u32,
    pub second: u32,
}

/// The parts of a moment lie in their ranges.
pub open spec fn on_calendar(c: Civil) -> bool {
    1 <= c.month <= 12 && 1 <= c.day <= 31 && c.hour < 24 && c.minute < 60 && c.second < 60
}

/// The moment that a count of seconds since the epoch names at an offset from
/// UTC in seconds; none where the calendar does not reach that far.
pub uninterp spec fn civil_of(secs: i64, offset: i32) -> Option<Civil>;

/// Reads a count of seconds as a calendar moment, with
/// `time::OffsetDateTime::from_unix_timestamp` and `checked_to_offset`: none
/// where the count or the offset is out of their range. The parts of a moment
/// lie in their ranges; years end at 9999, and an offset, which is of little
/// more than a day at most, takes no count from the epoch on further back than
/// 1969.
#[verifier::external_body]
pub(crate) fn civil_at(secs: i64, offset: i32) -> (r: Option<Civil>)
    ensures
        r == civil_of(secs, offset),
        r matches Some(c) ==> on_calendar(c) && (secs >= 0 ==> 1969 <= c.year <= 9999),
{
    let utc = time::OffsetDateTime::from_unix_timestamp(secs).ok()?;
    let local = utc.checked_to_offset(time::UtcOffset::from_whole_seconds(offset).ok()?)?;
    Some(Civil {
        year: local.year() as u32,
        month: u8::from(local.month()) as u32,
        day: u32::from(local.day()),
        hour: u32::from(local.hour()),
        minute: u32::from(local.minute()),
        second: u32::from(local.second()),
    })
}

/// Asks `time::UtcOffset::current_local_offset` for the machine's offset from
/// UTC, in seconds. Nothing is claimed of it: it is the machine's.
#[verifier::external_body]
pub(crate) fn local_offset() -> (r: Option<i32>)
{
    time::UtcOffset::current_local_offset().ok().map(|o| o.whole_seconds())
}

/// The epoch itself.
pub open spec fn epoch() -> Civil {
    Civil { year: 1970, month: 1, day: 1, hour: 0, minute: 0, second: 0 }
}

/// A count of seconds in 64 bits with a sign: one that is too large for them
/// wraps round to before the epoch.
pub open spec fn signed_secs(secs: u64) -> i64 {
    if secs <= i64::MAX {
        secs as i64
    } else {
        (secs - u64::MAX - 1) as i64
    }
}

/// The moment of a count of seconds, at an offset that may be unknown: UTC
/// stands in for an unknown offset, and the epoch for a moment out of reach.
pub open spec fn moment(secs: u64, offset: Option<i32>) -> Civil {
    let off = match offset {
        Some(o) => o,
        None => 0i32,
    };
    match civil_of(signed_secs(secs), off) {
        Some(c) => c,
        None => match civil_of(0, off) {
            Some(c) => c,
            None => epoch(),
        },
    }
}

/// The moment of a count of seconds at a given offset.
pub fn moment_at(secs: u64, offset: Option<i32>) -> (r: Civil)
    ensures
        r == moment(secs, offset),
        on_calendar(r),
        secs <= i64::MAX ==> 1969 <= r.year <= 9999,
{
    let off: i32 = match offset {
        Some(o) => o,
        None => 0,
    };
    let signed: i64 = if secs <= i64::MAX as u64 {
        secs as i64
    } else {
        -((u64::MAX - secs) as i64) - 1
    };
    match civil_at(signed, off) {
        Some(c) => c,
        None => match civil_at(0, off) {
            Some(c) => c,
            None => Civil { year: 1970, month: 1, day: 1, hour: 0, minute: 0, second: 0 },
        },
    }
}

/// The moment of a count of seconds on this machine's clock.
pub fn epoch_to_ymdhms(secs: u64) -> (r: Civil)
    ensures
        exists|offset: Option<i32>| r == #[trigger] moment(secs, offset),
        on_calendar(r),
        secs <= i64::MAX ==> 1969 <= r.year <= 9999,
{
    let offset = local_offset();
    moment_at(secs, offset)
}

/// `s` with zeros in front, up to `width` characters.
pub open spec fn padded(s: Seq<char>, width: nat) -> Seq<char>
    decreases width - s.len(),
{
    if s.len() >= width {
        s
    } else {
        padded(seq!['0'] + s, width)
    }
}

fn pad(s: String, width: usize) -> (r: String)
    ensures
        r@ == padded(s@, width as nat),
{
    let mut out = s;
    let mut len: usize = text::chars_of(out.as_str()).len();
    proof {
        reveal_strlit("0");
        assert("0"@ =~= seq!['0']);
    }
    while len < width
        invariant
            len == out@.len(),
            "0"@ == seq!['0'],
            padded(out@, width as nat) == padded(s@, width as nat),
        decreases width - len,
    {
        out = text::cat2("0", out.as_str());
        len = len + 1;
    }
    out
}

/// A number in decimal, of at least so many digits.
pub open spec fn wide(n: u32, width: nat) -> Seq<char> {
    padded(text::decimal_text(n as nat), width)
}

fn wide_text(n: u32, width: usize) -> (r: String)
    ensures
        r@ == wide(n, width as nat),
{
    pad(text::decimal(n as u64), width)
}

/// The character of a hexadecimal digit.
pub open spec fn hex_char(d: int) -> char {
    if d < 10 {
        (48 + d) as char
    } else {
        (87 + d) as char
    }
}

/// The last sixteen bits of `n` in hexadecimal, in four digits.
pub open spec fn hex_tail(n: u32) -> Seq<char> {
    let m = n as int % 65536;
    seq![
        hex_char(m / 4096),
        hex_char(m / 256 % 16),
        hex_char(m / 16 % 16),
        hex_char(m % 16),
    ]
}

fn hex_digit(d: u32) -> (r: char)
    requires
        d < 16,
    ensures
        r == hex_char(d as int),
{
    if d < 10 {
        ((48 + d) as u8) as char
    } else {
        ((87 + d) as u8) as char
    }
}

fn hex_text(n: u32) -> (r: String)
    ensures
        r@ == hex_tail(n),
{
    let m: u32 = n % 65536;
    let mut out = String::new();
    out.push(hex_digit(m / 4096));
    out.push(hex_digit(m / 256 % 16));
    out.push(hex_digit(m / 16 % 16));
    out.push(hex_digit(m % 16));
    proof {
        assert(out@ =~= hex_tail(n));
    }
    out
}

/// The name of a move: its moment, and digits that tell moves of one second
/// apart.
pub open spec fn move_name(c: Civil, nanos: u32) -> Seq<char> {
    "Auto"@ + wide(c.year, 4) + wide(c.month, 2) + wide(c.day, 2) + "-"@ + wide(c.hour, 2) + wide(
        c.minute,
        2,
    ) + wide(c.second, 2) + "-"@ + hex_tail(nanos)
}

/// The names of moves are of one length: four digits of the year, two of each
/// other part of the moment, and four that tell moves of one second apart.
pub proof fn law_names_have_one_length(c: Civil, nanos: u32)
    requires
        on_calendar(c),
        c.year <= 9999,
    ensures
        move_name(c, nanos).len() == 24,
{
    reveal_strlit("Auto");
    reveal_strlit("-");
    lemma_wide(c.year, 4);
    lemma_wide(c.month, 2);
    lemma_wide(c.day, 2);
    lemma_wide(c.hour, 2);
    lemma_wide(c.minute, 2);
    lemma_wide(c.second, 2);
}

proof fn lemma_wide(n: u32, width: nat)
    requires
        width == 4 && n <= 9999 || width == 2 && n <= 99,
    ensures
        wide(n, width).len() == width,
{
    reveal_with_fuel(text::decimal_text, 4);
    lemma_padded(text::decimal_text(n as nat), width);
}

proof fn lemma_padded(s: Seq<char>, width: nat)
    requires
        s.len() <= width,
    ensures
        padded(s, width).len() == width,
    decreases width - s.len(),
{
    if s.len() < width {
        lemma_padded(seq!['0'] + s, width);
    }
}

/// The name of a move at a moment.
pub fn migration_name(c: Civil, nanos: u32) -> (r: String)
    ensures
        r@ == move_name(c, nanos),
{
    let date = text::cat4(
        "Auto",
        wide_text(c.year, 4).as_str(),
        wide_text(c.month, 2).as_str(),
        wide_text(c.day, 2).as_str(),
    );
    let clock = text::cat5(
        date.as_str(),
        "-",
        wide_text(c.hour, 2).as_str(),
        wide_text(c.minute, 2).as_str(),
        wide_text(c.second, 2).as_str(),
    );
    text::cat3(clock.as_str(), "-", hex_text(nanos).as_str())
}

/// The name of a move that begins now: `secs` since the epoch and `nanos`
/// within the second, on this machine's clock.
pub fn next_migration_id(secs: u64, nanos: u32) -> (r: String)
    ensures
        exists|offset: Option<i32>| r@ == move_name(#[trigger] moment(secs, offset), nanos),
        secs <= i64::MAX ==> r@.len() == 24,
{
    let c = epoch_to_ymdhms(secs);
    proof {
        if secs <= i64::MAX {
            law_names_have_one_length(c, nanos);
        }
    }
    migration_name(c, nanos)
}

// ------------------------------------------------------------------- backups

/// The directory of backups.
pub open spec fn backups_dir(xlink_home: Seq<char>) -> Seq<char> {
    paths::joined(xlink_home, "backups"@)
}

/// The name of the `n`th backup of a move.
pub open spec fn numbered(id: Seq<char>, n: nat) -> Seq<char> {
    id + "."@ + text::decimal_text(n)
}

/// The first number from `n` on under which the move has no backup yet.
pub open spec fn free_number(id: Seq<char>, taken: Seq<Seq<char>>, n: nat) -> Option<nat>
    decreases u32::MAX + 1 - n,
{
    if n > u32::MAX {
        None
    } else if !taken.contains(numbered(id, n)) {
        Some(n)
    } else {
        free_number(id, taken, n + 1)
    }
}

/// The name of a new backup of a move: that of the move, or that and the first
/// free number from two on. `taken` are the names that are there.
pub open spec fn fresh_root(id: Seq<char>, taken: Seq<Seq<char>>) -> Option<Seq<char>> {
    if !taken.contains(id) {
        Some(id)
    } else {
        match free_number(id, taken, 2) {
            Some(n) => Some(numbered(id, n)),
            None => None,
        }
    }
}

/// Where the backup of a move goes: under its name, or under its name and the
/// first free number from two on, so that no earlier backup is overwritten.
/// `taken` are the names that are there. None where every number is taken.
pub fn backup_root_for(xlink_home: &str, id: &str, taken: &Vec<String>) -> (r: Option<String>)
    ensures
        text::opt_text(r) == (match fresh_root(id@, text::texts(taken@)) {
            Some(name) => Some(root_path(xlink_home@, name)),
            None => None,
        }),
        fresh_root(id@, text::texts(taken@)) matches Some(name) ==> !text::texts(taken@).contains(
            name,
        ),
{
    proof {
        law_backups_are_not_overwritten(id@, text::texts(taken@), 2);
    }
    let dir = paths::join(xlink_home, "backups");
    if !text::listed(taken, id) {
        return Some(paths::join(dir.as_str(), id));
    }
    let mut n: u64 = 2;
    while n <= u32::MAX as u64
        invariant
            2 <= n <= u32::MAX + 1,
            dir@ == backups_dir(xlink_home@),
            text::texts(taken@).contains(id@),
            free_number(id@, text::texts(taken@), 2) == free_number(id@, text::texts(taken@), n as nat),
        decreases u32::MAX + 1 - n,
    {
        let name = text::cat3(id, ".", text::decimal(n).as_str());
        if !text::listed(taken, name.as_str()) {
            return Some(paths::join(dir.as_str(), name.as_str()));
        }
        n = n + 1;
    }
    None
}

/// A new backup never goes where one is already.
pub proof fn law_backups_are_not_overwritten(id: Seq<char>, taken: Seq<Seq<char>>, n: nat)
    ensures
        fresh_root(id, taken) matches Some(name) ==> !taken.contains(name),
        free_number(id, taken, n) matches Some(m) ==> n <= m && !taken.contains(numbered(id, m))
            && forall|k: nat| n <= k < m ==> taken.contains(#[trigger] numbered(id, k)),
{
    lemma_free_number(id, taken, n);
    lemma_free_number(id, taken, 2);
}

proof fn lemma_free_number(id: Seq<char>, taken: Seq<Seq<char>>, n: nat)
    ensures
        free_number(id, taken, n) matches Some(m) ==> n <= m && !taken.contains(numbered(id, m))
            && forall|k: nat| n <= k < m ==> taken.contains(#[trigger] numbered(id, k)),
    decreases u32::MAX + 1 - n,
{
    if n <= u32::MAX && taken.contains(numbered(id, n)) {
        lemma_free_number(id, taken, n + 1);
    }
}

/// The place of a directory among the backups of a move: the first is named
/// for the move, and a further one carries its number, from two on.
pub open spec fn backup_index(id: Seq<char>, name: Seq<char>) -> Option<nat> {
    if name == id {
        Some(1)
    } else if text::begins(name, id + "."@) {
        match text::number_in(name.skip((id.len() + 1) as int), u32::MAX as nat) {
            Some(n) if n >= 2 && name == numbered(id, n) => Some(n),
            _ => None,
        }
    } else {
        None
    }
}

fn index_in(id: &str, name: &str) -> (r: Option<u64>)
    ensures
        (match r {
            Some(n) => Some(n as nat),
            None => None,
        }) == backup_index(id@, name@),
        r matches Some(n) ==> 1 <= n <= u32::MAX,
{
    if text::same(name, id) {
        return Some(1);
    }
    let head = text::cat2(id, ".");
    if !text::starts_with(name, head.as_str()) {
        return None;
    }
    let nc = text::chars_of(name);
    let from: usize = text::chars_of(head.as_str()).len();
    proof {
        reveal_strlit(".");
    }
    let suffix = text::string_of(&nc, from, nc.len());
    proof {
        assert(suffix@ =~= name@.skip((id@.len() + 1) as int));
    }
    match text::parse_number(suffix.as_str(), u32::MAX as u64) {
        Some(n) => {
            let whole = text::cat3(id, ".", text::decimal(n).as_str());
            if n >= 2 && text::same(name, whole.as_str()) {
                Some(n)
            } else {
                None
            }
        },
        None => None,
    }
}

/// A further backup is found by its number.
pub proof fn law_backups_are_found_by_number(id: Seq<char>, n: nat)
    requires
        2 <= n <= u32::MAX,
    ensures
        backup_index(id, id) == Some(1nat),
        backup_index(id, numbered(id, n)) == Some(n),
{
    let name = numbered(id, n);
    reveal_strlit(".");
    text::lemma_decimal_value(n);
    text::lemma_number_of_decimal(n, u32::MAX as nat);
    assert(name.len() > id.len());
    assert(name.skip((id.len() + 1) as int) =~= text::decimal_text(n));
    assert(text::begins(name, id + "."@)) by {
        assert(name.subrange(0, (id + "."@).len() as int) =~= id + "."@);
    }
}

/// `roots` are the names of the backups of a move among `names`, the oldest
/// first: by rising place, each once, and all of them.
pub open spec fn lists_backups(
    id: Seq<char>,
    names: Seq<Seq<char>>,
    roots: Seq<Seq<char>>,
) -> bool {
    &&& forall|i: int|
        0 <= i < roots.len() ==> names.contains(#[trigger] roots[i]) && backup_index(
            id,
            roots[i],
        ) is Some
    &&& forall|i: int, j: int|
        0 <= i < j < roots.len() ==> backup_index(id, #[trigger] roots[i])->0 < backup_index(
            id,
            #[trigger] roots[j],
        )->0
    &&& forall|k: int|
        0 <= k < names.len() && backup_index(id, #[trigger] names[k]) is Some ==> roots.contains(
            names[k],
        )
}

/// The names of the backups of a move, the oldest first.
pub open spec fn backups_of(id: Seq<char>, names: Seq<Seq<char>>) -> Seq<Seq<char>> {
    choose|roots: Seq<Seq<char>>| lists_backups(id, names, roots)
}

/// Two names in one place are one name.
proof fn lemma_place_is_name(id: Seq<char>, a: Seq<char>, b: Seq<char>)
    requires
        backup_index(id, a) is Some,
        backup_index(id, a) == backup_index(id, b),
    ensures
        a == b,
{
}

/// The backups of a move stand in one order only.
pub proof fn law_backups_have_one_order(
    id: Seq<char>,
    names: Seq<Seq<char>>,
    a: Seq<Seq<char>>,
    b: Seq<Seq<char>>,
)
    requires
        lists_backups(id, names, a),
        lists_backups(id, names, b),
    ensures
        a == b,
{
    lemma_no_longer(id, names, a, b);
    lemma_no_longer(id, names, b, a);
    assert forall|i: int| 0 <= i < a.len() implies a[i] == b[i] by {
        lemma_same_place(id, names, a, b, i);
    }
    assert(a =~= b);
}

proof fn lemma_same_place(
    id: Seq<char>,
    names: Seq<Seq<char>>,
    a: Seq<Seq<char>>,
    b: Seq<Seq<char>>,
    i: int,
)
    requires
        lists_backups(id, names, a),
        lists_backups(id, names, b),
        0 <= i < a.len(),
        i < b.len(),
    ensures
        a[i] == b[i],
    decreases i,
{
    assert forall|j: int| 0 <= j < i implies a[j] == b[j] by {
        lemma_same_place(id, names, a, b, j);
    }
    let x = backup_index(id, a[i])->0;
    let y = backup_index(id, b[i])->0;
    if x < y {
        let k = names.index_of(a[i]);
        assert(names[k] == a[i]);
        let p = choose|p: int| 0 <= p < b.len() && b[p] == a[i];
        if p < i {
            assert(a[p] == b[p]);
        } else if p > i {
            assert(backup_index(id, b[i])->0 < backup_index(id, b[p])->0);
        }
    } else if y < x {
        let k = names.index_of(b[i]);
        assert(names[k] == b[i]);
        let p = choose|p: int| 0 <= p < a.len() && a[p] == b[i];
        if p < i {
            assert(a[p] == b[p]);
        } else if p > i {
            assert(backup_index(id, a[i])->0 < backup_index(id, a[p])->0);
        }
    } else {
        lemma_place_is_name(id, a[i], b[i]);
    }
}

proof fn lemma_no_longer(
    id: Seq<char>,
    names: Seq<Seq<char>>,
    a: Seq<Seq<char>>,
    b: Seq<Seq<char>>,
)
    requires
        lists_backups(id, names, a),
        lists_backups(id, names, b),
    ensures
        a.len() <= b.len(),
{
    if a.len() > b.len() {
        let i = b.len() as int;
        assert forall|j: int| 0 <= j < i implies a[j] == b[j] by {
            lemma_same_place(id, names, a, b, j);
        }
        let k = names.index_of(a[i]);
        assert(names[k] == a[i]);
        let p = choose|p: int| 0 <= p < b.len() && b[p] == a[i];
        assert(a[p] == b[p]);
        assert(backup_index(id, a[p])->0 < backup_index(id, a[i])->0);
    }
}

/// The name of the backup whose place is the lowest above `last`, and its
/// place.
fn next_backup(id: &str, names: &Vec<String>, last: u64) -> (r: Option<(usize, u64)>)
    ensures
        match r {
            Some((k, n)) => k < names.len() && backup_index(id@, names@[k as int]@) == Some(n as nat)
                && n > last && n <= u32::MAX && forall|j: int|
                0 <= j < names.len() && backup_index(id@, #[trigger] names@[j]@) is Some ==> (
                backup_index(id@, names@[j]@)->0 <= last || backup_index(id@, names@[j]@)->0 >= n),
            None => forall|j: int|
                0 <= j < names.len() && backup_index(id@, #[trigger] names@[j]@) is Some
                    ==> backup_index(id@, names@[j]@)->0 <= last,
        },
{
    let mut best: Option<(usize, u64)> = None;
    let mut i: usize = 0;
    while i < names.len()
        invariant
            i <= names.len(),
            match best {
                Some((k, n)) => k < i && backup_index(id@, names@[k as int]@) == Some(n as nat) && n
                    > last && n <= u32::MAX && forall|j: int|
                    0 <= j < i && backup_index(id@, #[trigger] names@[j]@) is Some ==> (backup_index(
                        id@,
                        names@[j]@,
                    )->0 <= last || backup_index(id@, names@[j]@)->0 >= n),
                None => forall|j: int|
                    0 <= j < i && backup_index(id@, #[trigger] names@[j]@) is Some ==> backup_index(
                        id@,
                        names@[j]@,
                    )->0 <= last,
            },
        decreases names.len() - i,
    {
        match index_in(id, names[i].as_str()) {
            Some(n) => {
                let better = match best {
                    Some((_, m)) => n < m,
                    None => true,
                };
                if n > last && better {
                    best = Some((i, n));
                }
            },
            None => {},
        }
        i = i + 1;
    }
    best
}

/// The names of the backups of a move among those in the directory of backups,
/// the oldest first.
pub fn find_backup_roots(id: &str, names: &Vec<String>) -> (r: Vec<String>)
    ensures
        lists_backups(id@, text::texts(names@), text::texts(r@)),
        text::texts(r@) == backups_of(id@, text::texts(names@)),
{
    let ghost all = text::texts(names@);
    let mut out: Vec<String> = Vec::new();
    let mut last: u64 = 0;
    proof {
        assert(text::texts(out@) =~= Seq::<Seq<char>>::empty());
    }
    loop
        invariant
            all == text::texts(names@),
            all.len() == names@.len(),
            last <= u32::MAX,
            forall|i: int|
                0 <= i < out.len() ==> all.contains((#[trigger] out@[i])@) && backup_index(
                    id@,
                    out@[i]@,
                ) is Some && backup_index(id@, out@[i]@)->0 <= last,
            forall|i: int, j: int|
                0 <= i < j < out.len() ==> backup_index(id@, (#[trigger] out@[i])@)->0
                    < backup_index(id@, (#[trigger] out@[j])@)->0,
            forall|k: int|
                0 <= k < names.len() && backup_index(id@, (#[trigger] names@[k])@) is Some
                    && backup_index(id@, names@[k]@)->0 <= last ==> text::texts(out@).contains(
                    names@[k]@,
                ),
        ensures
            forall|k: int|
                0 <= k < names.len() && backup_index(id@, (#[trigger] names@[k])@) is Some
                    ==> text::texts(out@).contains(names@[k]@),
        decreases u32::MAX - last,
    {
        match next_backup(id, names, last) {
            Some((k, n)) => {
                let name = names[k].clone();
                let ghost before = out@;
                proof {
                    assert(all[k as int] == name@);
                }
                out.push(name);
                proof {
                    let now = text::texts(out@);
                    assert(now =~= text::texts(before).push(name@));
                    assert forall|j: int|
                        0 <= j < names.len() && backup_index(id@, (#[trigger] names@[j])@) is Some
                            && backup_index(id@, names@[j]@)->0 <= n implies now.contains(
                        names@[j]@,
                    ) by {
                        if backup_index(id@, names@[j]@)->0 <= last {
                            let p = choose|p: int|
                                0 <= p < text::texts(before).len() && text::texts(before)[p]
                                    == names@[j]@;
                            assert(now[p] == names@[j]@);
                        } else {
                            lemma_place_is_name(id@, names@[j]@, name@);
                            assert(now[before.len() as int] == names@[j]@);
                        }
                    }
                    assert forall|i: int, j: int| 0 <= i < j < out.len() implies backup_index(
                        id@,
                        (#[trigger] out@[i])@,
                    )->0 < backup_index(id@, (#[trigger] out@[j])@)->0 by {
                        assert(out@[i] == before[i]);
                        if j < before.len() {
                            assert(out@[j] == before[j]);
                        }
                    }
                }
                last = n;
            },
            None => {
                break;
            },
        }
    }
    proof {
        let roots = text::texts(out@);
        assert forall|i: int| 0 <= i < roots.len() implies all.contains(#[trigger] roots[i])
            && backup_index(id@, roots[i]) is Some by {
            assert(roots[i] == out@[i]@);
        }
        assert forall|i: int, j: int| 0 <= i < j < roots.len() implies backup_index(
            id@,
            #[trigger] roots[i],
        )->0 < backup_index(id@, #[trigger] roots[j])->0 by {
            assert(roots[i] == out@[i]@);
            assert(roots[j] == out@[j]@);
        }
        assert forall|k: int|
            0 <= k < all.len() && backup_index(id@, #[trigger] all[k]) is Some implies roots.contains(
            all[k],
        ) by {
            assert(all[k] == names@[k]@);
        }
        assert(lists_backups(id@, all, roots));
        law_backups_have_one_order(id@, all, roots, backups_of(id@, all));
    }
    out
}

/// The move that a directory of backups is named for, and whether it is its
/// first backup; none for a hidden directory.
pub open spec fn backup_name(name: Seq<char>) -> Option<(Seq<char>, bool)> {
    if text::begins(name, "."@) {
        None
    } else {
        match text::last_upto(name, "."@, name.len() as int) {
            Some(i) if text::number_in(name.skip(i + 1), u32::MAX as nat) is Some => Some(
                (name.take(i), false),
            ),
            _ => Some((name, true)),
        }
    }
}

/// Reads the name of a directory of backups.
pub fn parse_backup_dir_name(name: &str) -> (r: Option<(String, bool)>)
    ensures
        (match r {
            Some((id, first)) => Some((id@, first)),
            None => None,
        }) == backup_name(name@),
{
    if text::starts_with(name, ".") {
        return None;
    }
    let nc = text::chars_of(name);
    let dot = text::chars_of(".");
    proof {
        reveal_strlit(".");
    }
    match text::rfind(&nc, &dot) {
        Some(i) => {
            let suffix = text::string_of(&nc, i + 1, nc.len());
            proof {
                assert(suffix@ =~= name@.skip(i + 1));
            }
            if text::parse_number(suffix.as_str(), u32::MAX as u64).is_some() {
                let base = text::string_of(&nc, 0, i);
                proof {
                    assert(base@ =~= name@.take(i as int));
                }
                return Some((base, false));
            }
        },
        None => {},
    }
    Some((text::owned(name), true))
}

// ------------------------------------------------------------------- listing

/// An entry of the directory of backups, or of a backup.
#[derive(Debug)]
pub struct DirEntry {
    pub name: String,
    pub is_dir: bool,
}

/// The sources that a backup has a part for: its subdirectories that are not
/// hidden.
pub open spec fn backed_up(entries: Seq<DirEntry>) -> Seq<Seq<char>>
    decreases entries.len(),
{
    if entries.len() == 0 {
        Seq::empty()
    } else {
        let before = backed_up(entries.drop_last());
        let e = entries.last();
        if e.is_dir && !text::begins(e.name@, "."@) {
            before.push(e.name@)
        } else {
            before
        }
    }
}

/// The sources that a backup has a part for.
pub fn collect_source_keys(entries: &Vec<DirEntry>) -> (r: Vec<String>)
    ensures
        text::texts(r@) == backed_up(entries@),
{
    let mut out: Vec<String> = Vec::new();
    let mut i: usize = 0;
    proof {
        assert(entries@.take(0) =~= Seq::<DirEntry>::empty());
        assert(text::texts(out@) =~= Seq::<Seq<char>>::empty());
    }
    while i < entries.len()
        invariant
            i <= entries.len(),
            text::texts(out@) == backed_up(entries@.take(i as int)),
        decreases entries.len() - i,
    {
        let e = &entries[i];
        proof {
            assert(entries@.take(i + 1).drop_last() =~= entries@.take(i as int));
        }
        if e.is_dir && !text::starts_with(e.name.as_str(), ".") {
            let name = e.name.clone();
            proof {
                assert(text::texts(out@.push(name)) =~= text::texts(out@).push(name@));
            }
            out.push(name);
        }
        i = i + 1;
    }
    proof {
        assert(entries@.take(entries@.len() as int) =~= entries@);
    }
    out
}

/// What was found in the directory of backups.
#[derive(Debug)]
pub struct BackupFacts {
    pub name: String,
    pub path: String,
    pub is_dir: bool,
    /// When the directory was last changed, in seconds since the epoch.
    pub modified: Option<u64>,
    pub entries: Vec<DirEntry>,
}

/// A move that was made.
#[derive(Debug)]
pub struct MigrationSummary {
    pub migration_id: String,
    pub backup_root: String,
    /// Seconds since the epoch, in decimal.
    pub created_at: Option<String>,
    pub sources: Vec<String>,
}

/// The content of a summary.
#[verifier::ext_equal]
pub struct SummaryModel {
    pub id: Seq<char>,
    pub root: Seq<char>,
    pub created_at: Option<Seq<char>>,
    pub sources: Seq<Seq<char>>,
}

impl View for MigrationSummary {
    type V = SummaryModel;

    open spec fn view(&self) -> SummaryModel {
        SummaryModel {
            id: self.migration_id@,
            root: self.backup_root@,
            created_at: text::opt_text(self.created_at),
            sources: text::texts(self.sources@),
        }
    }
}

/// The summary of a backup, if it is the first of a move.
pub open spec fn summary_of(b: BackupFacts) -> Option<SummaryModel> {
    match backup_name(b.name@) {
        Some((id, true)) if b.is_dir => Some(
            SummaryModel {
                id,
                root: b.path@,
                created_at: match b.modified {
                    Some(s) => Some(text::decimal_text(s as nat)),
                    None => None,
                },
                sources: backed_up(b.entries@),
            },
        ),
        _ => None,
    }
}

/// The summaries of the first backups, in the order in which they were found.
pub open spec fn summaries_of(found: Seq<BackupFacts>) -> Seq<SummaryModel>
    decreases found.len(),
{
    if found.len() == 0 {
        Seq::empty()
    } else {
        match summary_of(found.last()) {
            Some(s) => summaries_of(found.drop_last()).push(s),
            None => summaries_of(found.drop_last()),
        }
    }
}

/// The time of a summary, in seconds since the epoch.
pub open spec fn time_of(s: SummaryModel) -> Option<nat> {
    match s.created_at {
        Some(t) => text::number_in(t, u64::MAX as nat),
        None => None,
    }
}

/// A summary goes before another: its time is later, and any time goes before
/// none.
pub open spec fn listed_before(a: SummaryModel, b: SummaryModel) -> bool {
    match (time_of(a), time_of(b)) {
        (Some(x), Some(y)) => x > y,
        (Some(_), None) => true,
        _ => false,
    }
}

/// The time of a summary is when its backup was last changed.
pub proof fn law_summaries_carry_their_time(b: BackupFacts)
    ensures
        summary_of(b) matches Some(s) ==> time_of(s) == (match b.modified {
            Some(t) => Some(t as nat),
            None => None,
        }),
{
    if let Some(t) = b.modified {
        text::lemma_number_of_decimal(t as nat, u64::MAX as nat);
    }
}

fn time_read(s: &MigrationSummary) -> (r: Option<u64>)
    ensures
        (match r {
            Some(t) => Some(t as nat),
            None => None,
        }) == time_of(s@),
{
    match &s.created_at {
        Some(t) => text::parse_number(t.as_str(), u64::MAX),
        None => None,
    }
}

/// The order of a list of summaries.
pub open spec fn listing_order(list: Seq<SummaryModel>) -> spec_fn(int, int) -> bool {
    |a: int, b: int| listed_before(list[a], list[b])
}

/// The views of a list of summaries.
pub open spec fn summary_views(v: Seq<MigrationSummary>) -> Seq<SummaryModel> {
    v.map_values(|s: MigrationSummary| s@)
}

/// `sorted` holds the entries of `list`, those that go first in front; what
/// the order does not tell apart keeps its place.
pub open spec fn sorted_listing(list: Seq<SummaryModel>, sorted: Seq<SummaryModel>) -> bool {
    exists|order: Seq<usize>|
        #![trigger sort::permutes(order, list.len())]
        sort::permutes(order, list.len()) && sort::ordered(order, listing_order(list)) && sorted.len()
            == list.len() && forall|i: int|
            0 <= i < sorted.len() ==> (#[trigger] sorted[i]) == list[order[i] as int]
}

/// Summaries, the latest first.
struct LatestFirst<'a> {
    list: &'a Vec<MigrationSummary>,
}

impl<'a> sort::Ranked for LatestFirst<'a> {
    closed spec fn count(&self) -> nat {
        self.list@.len()
    }

    closed spec fn goes_before(&self, a: int, b: int) -> bool {
        listed_before(self.list@[a]@, self.list@[b]@)
    }

    fn size(&self) -> (r: usize) {
        self.list.len()
    }

    fn before(&self, a: usize, b: usize) -> (r: bool) {
        match (time_read(&self.list[a]), time_read(&self.list[b])) {
            (Some(x), Some(y)) => x > y,
            (Some(_), None) => true,
            _ => false,
        }
    }
}

proof fn lemma_listing_order(a: SummaryModel, b: SummaryModel, c: SummaryModel)
    ensures
        listed_before(a, b) ==> !listed_before(b, a),
        listed_before(a, b) && listed_before(b, c) ==> listed_before(a, c),
        listed_before(a, c) ==> listed_before(a, b) || listed_before(b, c),
{
}

fn copy_summary(s: &MigrationSummary) -> (r: MigrationSummary)
    ensures
        r@ == s@,
{
    MigrationSummary {
        migration_id: s.migration_id.clone(),
        backup_root: s.backup_root.clone(),
        created_at: text::copy_opt(&s.created_at),
        sources: text::copy_all(&s.sources),
    }
}

fn summarise(b: &BackupFacts) -> (r: Option<MigrationSummary>)
    ensures
        (match r {
            Some(s) => Some(s@),
            None => None,
        }) == summary_of(*b),
{
    if !b.is_dir {
        return None;
    }
    match parse_backup_dir_name(b.name.as_str()) {
        Some((id, first)) => {
            if !first {
                return None;
            }
            let created_at = match b.modified {
                Some(s) => Some(text::decimal(s)),
                None => None,
            };
            Some(
                MigrationSummary {
                    migration_id: id,
                    backup_root: b.path.clone(),
                    created_at,
                    sources: collect_source_keys(&b.entries),
                },
            )
        },
        None => None,
    }
}

/// The moves that were made, the latest first. A further backup of a move is
/// not listed by itself.
pub fn list_migrations(found: &Vec<BackupFacts>) -> (r: Vec<MigrationSummary>)
    ensures
        sorted_listing(summaries_of(found@), summary_views(r@)),
{
    let mut all: Vec<MigrationSummary> = Vec::new();
    let mut i: usize = 0;
    proof {
        assert(found@.take(0) =~= Seq::<BackupFacts>::empty());
        assert(summary_views(all@) =~= Seq::<SummaryModel>::empty());
    }
    while i < found.len()
        invariant
            i <= found.len(),
            summary_views(all@) == summaries_of(found@.take(i as int)),
        decreases found.len() - i,
    {
        proof {
            assert(found@.take(i + 1).drop_last() =~= found@.take(i as int));
        }
        match summarise(&found[i]) {
            Some(s) => {
                proof {
                    assert(summary_views(all@.push(s)) =~= summary_views(all@).push(s@));
                }
                all.push(s);
            },
            None => {},
        }
        i = i + 1;
    }
    let ghost list = summaries_of(found@);
    proof {
        assert(found@.take(found@.len() as int) =~= found@);
        assert(summary_views(all@) == list);
        assert(list.len() == all@.len());
    }
    let ranked = LatestFirst { list: &all };
    proof {
        let rel = sort::order_of(ranked);
        assert forall|a: int, b: int|
            0 <= a < all@.len() && 0 <= b < all@.len() && #[trigger] rel(a, b) implies !rel(
            b,
            a,
        ) by {
            lemma_listing_order(all@[a]@, all@[b]@, all@[a]@);
        }
        assert forall|a: int, b: int, c: int|
            #![trigger rel(a, b), rel(b, c)]
            0 <= a < all@.len() && 0 <= b < all@.len() && 0 <= c < all@.len() && rel(a, b) && rel(
                b,
                c,
            ) implies rel(a, c) by {
            lemma_listing_order(all@[a]@, all@[b]@, all@[c]@);
        }
        assert forall|a: int, b: int, c: int|
            #![trigger rel(a, c), rel(a, b)]
            #![trigger rel(a, c), rel(b, c)]
            0 <= a < all@.len() && 0 <= b < all@.len() && 0 <= c < all@.len() && rel(
                a,
                c,
            ) implies rel(a, b) || rel(b, c) by {
            lemma_listing_order(all@[a]@, all@[b]@, all@[c]@);
        }
    }
    let order = sort::order_by(&ranked);
    let mut out: Vec<MigrationSummary> = Vec::new();
    let mut k: usize = 0;
    while k < order.len()
        invariant
            k <= order.len(),
            order.len() == all.len(),
            sort::permutes(order@, all@.len()),
            out.len() == k,
            forall|j: int| 0 <= j < k ==> (#[trigger] out@[j])@ == all@[order@[j] as int]@,
        decreases order.len() - k,
    {
        proof {
            assert(order@[k as int] < all@.len());
        }
        out.push(copy_summary(&all[order[k]]));
        k = k + 1;
    }
    proof {
        let rel = sort::order_of(ranked);
        assert(sort::ordered(order@, listing_order(list))) by {
            assert forall|i: int, j: int| 0 <= i < j < order@.len() implies !listing_order(list)(
                (#[trigger] order@[j]) as int,
                (#[trigger] order@[i]) as int,
            ) && (listing_order(list)(order@[i] as int, order@[j] as int) || order@[i]
                < order@[j]) by {
                assert(!rel(order@[j] as int, order@[i] as int) && (rel(
                    order@[i] as int,
                    order@[j] as int,
                ) || order@[i] < order@[j]));
                assert(list[order@[i] as int] == all@[order@[i] as int]@);
                assert(list[order@[j] as int] == all@[order@[j] as int]@);
            }
        }
        assert(sort::permutes(order@, list.len()));
        assert forall|j: int| 0 <= j < summary_views(out@).len() implies (#[trigger] summary_views(
            out@,
        )[j]) == list[order@[j] as int] by {
            assert(summary_views(out@)[j] == out@[j]@);
            assert(order@[j] < all@.len());
            assert(list[order@[j] as int] == all@[order@[j] as int]@);
        }
    }
    out
}

// ------------------------------------------------------------------ rollback

/// How taking back the move of a source went.
#[derive(Debug, Clone, Copy, PartialEq, Eq, Structural)]
pub enum RollbackStatus {
    /// There is no backup of the source.
    NotFound,
    /// Every entry of the backup is back.
    Restored,
    /// Some entries failed.
    PartialFailure,
    /// Nothing could be put back.
    Failed,
}

/// What came of taking back the move of a source.
#[derive(Debug)]
pub struct RollbackItemReport {
    pub source: LegacySource,
    pub backup_path: String,
    pub target_path: String,
    pub files_restored: usize,
    pub status: RollbackStatus,
    pub error: Option<String>,
}

/// The content of a report on a source.
#[verifier::ext_equal]
pub struct RollbackModel {
    pub source: LegacySource,
    pub backup_path: Seq<char>,
    pub target_path: Seq<char>,
    pub restored: nat,
    pub status: RollbackStatus,
    pub error: Option<Seq<char>>,
}

impl View for RollbackItemReport {
    type V = RollbackModel;

    open spec fn view(&self) -> RollbackModel {
        RollbackModel {
            source: self.source,
            backup_path: self.backup_path@,
            target_path: self.target_path@,
            restored: self.files_restored as nat,
            status: self.status,
            error: text::opt_text(self.error),
        }
    }
}

/// What came of taking a move back.
#[derive(Debug)]
pub struct RollbackReport {
    pub migration_id: String,
    pub backup_root: String,
    pub items: Vec<RollbackItemReport>,
}

/// An entry of a backup, and what came of putting it back.
#[derive(Debug)]
pub struct RestoreRecord {
    pub name: String,
    /// The entry's name, as it is quoted in messages.
    pub quoted_name: String,
    /// Whether the entry is a directory.
    pub is_dir: bool,
    /// Whether something was in its place.
    pub target_there: bool,
    /// The error of looking at it. Whether it is a directory and whether
    /// something was in its place is not read then.
    pub meta_error: Option<String>,
    /// The error of putting it back.
    pub restore_error: Option<String>,
}

/// What was found and done for a source.
#[derive(Debug)]
pub struct RestoreFacts {
    /// Whether there is a backup of the source.
    pub found: bool,
    /// The entries of the backup, or the error of listing them.
    pub entries: Result<Vec<RestoreRecord>, String>,
    /// The error of making the target's directory.
    pub create_error: Option<String>,
}

/// How many entries are back, and the last error.
pub open spec fn restored_of(entries: Seq<RestoreRecord>) -> (nat, Option<Seq<char>>)
    decreases entries.len(),
{
    if entries.len() == 0 {
        (0, None)
    } else {
        let (n, error) = restored_of(entries.drop_last());
        let e = entries.last();
        if e.meta_error is Some {
            (n, Some(e.quoted_name@ + " 元数据不可读："@ + (e.meta_error->0)@))
        } else {
            match e.restore_error {
                None => (n + 1, error),
                Some(err) => (n, Some(e.quoted_name@ + "："@ + err@)),
            }
        }
    }
}

/// What came of putting the entries of a backup back.
pub open spec fn restore_outcome(f: RestoreFacts) -> (nat, RollbackStatus, Option<Seq<char>>) {
    if !f.found {
        (0, RollbackStatus::NotFound, None)
    } else {
        match f.entries {
            Err(e) => (0, RollbackStatus::Failed, Some("无法读取 backup 目录："@ + e@)),
            Ok(entries) => if f.create_error is Some {
                (
                    0,
                    RollbackStatus::Failed,
                    Some("无法创建目标目录："@ + (f.create_error->0)@),
                )
            } else {
                let (n, error) = restored_of(entries@);
                (
                    n,
                    if error is None {
                        RollbackStatus::Restored
                    } else if n == 0 {
                        RollbackStatus::Failed
                    } else {
                        RollbackStatus::PartialFailure
                    },
                    error,
                )
            },
        }
    }
}

/// Reports on putting the entries of one source's backup back.
pub fn rollback_one(f: &RestoreFacts) -> (r: (usize, RollbackStatus, Option<String>))
    ensures
        (r.0 as nat, r.1, text::opt_text(r.2)) == restore_outcome(*f),
{
    if !f.found {
        return (0, RollbackStatus::NotFound, None);
    }
    let entries = match &f.entries {
        Ok(entries) => entries,
        Err(e) => {
            return (
                0,
                RollbackStatus::Failed,
                Some(text::cat2("无法读取 backup 目录：", e.as_str())),
            );
        },
    };
    match &f.create_error {
        Some(e) => {
            return (
                0,
                RollbackStatus::Failed,
                Some(text::cat2("无法创建目标目录：", e.as_str())),
            );
        },
        None => {},
    }
    let mut restored: usize = 0;
    let mut error: Option<String> = None;
    let mut i: usize = 0;
    proof {
        assert(entries@.take(0) =~= Seq::<RestoreRecord>::empty());
    }
    while i < entries.len()
        invariant
            restored <= i <= entries.len(),
            (restored as nat, text::opt_text(error)) == restored_of(entries@.take(i as int)),
        decreases entries.len() - i,
    {
        let e = &entries[i];
        proof {
            let next = entries@.take(i + 1);
            assert(next.drop_last() =~= entries@.take(i as int));
            assert(next.last() == *e);
        }
        match &e.meta_error {
            Some(err) => {
                error =
                Some(
                    text::cat3(e.quoted_name.as_str(), " 元数据不可读：", err.as_str()),
                );
            },
            None => {
                match &e.restore_error {
                    None => {
                        restored = restored + 1;
                    },
                    Some(err) => {
                        error = Some(text::cat3(e.quoted_name.as_str(), "：", err.as_str()));
                    },
                }
            },
        }
        i = i + 1;
    }
    proof {
        assert(entries@.take(entries@.len() as int) =~= entries@);
    }
    let status = if error.is_none() {
        RollbackStatus::Restored
    } else if restored == 0 {
        RollbackStatus::Failed
    } else {
        RollbackStatus::PartialFailure
    };
    (restored, status, error)
}

/// The report on a source.
pub open spec fn rollback_item(
    source: LegacySource,
    backup_root: Seq<char>,
    xlink_home: Seq<char>,
    f: RestoreFacts,
) -> RollbackModel {
    let (restored, status, error) = restore_outcome(f);
    RollbackModel {
        source,
        backup_path: paths::joined(backup_root, sources::source_key(source)),
        target_path: sources::source_target(source, xlink_home),
        restored,
        status,
        error,
    }
}

/// What was found and done for each source.
#[derive(Debug)]
pub struct RollbackFacts {
    pub plugins: RestoreFacts,
    pub skills_store: RestoreFacts,
    pub skills_active: RestoreFacts,
}

/// What was found and done for a source.
pub open spec fn restore_facts(f: RollbackFacts, s: LegacySource) -> RestoreFacts {
    match s {
        LegacySource::Plugins => f.plugins,
        LegacySource::SkillsStore => f.skills_store,
        LegacySource::SkillsActive => f.skills_active,
    }
}

fn restore_facts_for(f: &RollbackFacts, s: LegacySource) -> (r: &RestoreFacts)
    ensures
        *r == restore_facts(*f, s),
{
    match s {
        LegacySource::Plugins => &f.plugins,
        LegacySource::SkillsStore => &f.skills_store,
        LegacySource::SkillsActive => &f.skills_active,
    }
}

/// Why a move cannot be taken back, where it cannot. `roots` are its backups.
pub open spec fn rollback_refusal(id: Seq<char>, roots: Seq<Seq<char>>) -> Option<Seq<char>> {
    if id.len() == 0 {
        Some("migration id 不能为空"@)
    } else if roots.len() == 0 {
        Some(
            "找不到 migration id "@ + id
                + " 的备份目录——可能从未跑过 BackupAndOverwrite 策略的迁移"@,
        )
    } else {
        None
    }
}

/// The backups that taking a move back goes through, the oldest first: its name
/// is not empty, and there is a backup of it. `names` are those in the
/// directory of backups.
pub fn check_rollback(id: &str, names: &Vec<String>) -> (r: Result<Vec<String>, AppError>)
    ensures
        ({
            let roots = backups_of(id@, text::texts(names@));
            match r {
                Ok(found) => rollback_refusal(id@, roots) is None && text::texts(found@) == roots
                    && lists_backups(id@, text::texts(names@), roots),
                Err(e) => rollback_refusal(id@, roots) is Some && e@ == ErrorModel::Plugin(
                    rollback_refusal(id@, roots)->0,
                ),
            }
        }),
{
    if id.is_empty() {
        return Err(AppError::Plugin(text::owned("migration id 不能为空")));
    }
    let roots = find_backup_roots(id, names);
    proof {
        assert(text::texts(roots@).len() == roots@.len());
    }
    if roots.len() == 0 {
        return Err(
            AppError::Plugin(
                text::cat3(
                    "找不到 migration id ",
                    id,
                    " 的备份目录——可能从未跑过 BackupAndOverwrite 策略的迁移",
                ),
            ),
        );
    }
    Ok(roots)
}

/// The path of a backup.
pub open spec fn root_path(xlink_home: Seq<char>, name: Seq<char>) -> Seq<char> {
    paths::joined(backups_dir(xlink_home), name)
}

/// The reports on one backup: one for each source, in order.
pub open spec fn root_items(
    root: Seq<char>,
    xlink_home: Seq<char>,
    f: RollbackFacts,
) -> Seq<RollbackModel> {
    sources::all_sources().map_values(
        |s: LegacySource| rollback_item(s, root, xlink_home, restore_facts(f, s)),
    )
}

/// The reports on backups: those on the oldest first.
pub open spec fn all_items(
    xlink_home: Seq<char>,
    roots: Seq<Seq<char>>,
    facts: Seq<RollbackFacts>,
) -> Seq<RollbackModel>
    decreases roots.len(),
{
    if roots.len() == 0 {
        Seq::empty()
    } else {
        all_items(xlink_home, roots.drop_last(), facts) + root_items(
            root_path(xlink_home, roots.last()),
            xlink_home,
            facts[roots.len() - 1],
        )
    }
}

/// The contents of a list of reports.
pub open spec fn item_views(v: Seq<RollbackItemReport>) -> Seq<RollbackModel> {
    v.map_values(|i: RollbackItemReport| i@)
}

/// Reports on taking a move back: every backup of it, the oldest first, with
/// one entry for each source in order. The report names the oldest. `names` are
/// those in the directory of backups, and `facts` tell what was found and done
/// for each backup in turn.
pub fn rollback_migration(
    id: &str,
    xlink_home: &str,
    names: &Vec<String>,
    facts: &Vec<RollbackFacts>,
) -> (r: Result<RollbackReport, AppError>)
    requires
        id@.len() > 0 ==> facts@.len() == backups_of(id@, text::texts(names@)).len(),
    ensures
        ({
            let roots = backups_of(id@, text::texts(names@));
            match r {
                Ok(report) => rollback_refusal(id@, roots) is None && report.migration_id@ == id@
                    && report.backup_root@ == root_path(xlink_home@, roots[0]) && item_views(
                    report.items@,
                ) == all_items(xlink_home@, roots, facts@) && lists_backups(
                    id@,
                    text::texts(names@),
                    roots,
                ),
                Err(e) => rollback_refusal(id@, roots) is Some && e@ == ErrorModel::Plugin(
                    rollback_refusal(id@, roots)->0,
                ),
            }
        }),
{
    let roots = match check_rollback(id, names) {
        Ok(roots) => roots,
        Err(e) => {
            return Err(e);
        },
    };
    let ghost want = text::texts(roots@);
    let dir = paths::join(xlink_home, "backups");
    let mut items: Vec<RollbackItemReport> = Vec::new();
    let mut i: usize = 0;
    proof {
        assert(want.take(0) =~= Seq::<Seq<char>>::empty());
        assert(item_views(items@) =~= Seq::<RollbackModel>::empty());
    }
    while i < roots.len()
        invariant
            i <= roots.len(),
            want == text::texts(roots@),
            want.len() == roots@.len(),
            facts@.len() == want.len(),
            dir@ == backups_dir(xlink_home@),
            item_views(items@) == all_items(xlink_home@, want.take(i as int), facts@),
        decreases roots.len() - i,
    {
        let root = paths::join(dir.as_str(), roots[i].as_str());
        let ghost before = items@;
        proof {
            let next = want.take(i + 1);
            assert(next.drop_last() =~= want.take(i as int));
            assert(next.last() == roots@[i as int]@);
        }
        let mut more = rollback_root(root.as_str(), xlink_home, &facts[i]);
        let ghost added = more@;
        items.append(&mut more);
        proof {
            assert(item_views(items@) =~= item_views(before) + item_views(added));
        }
        i = i + 1;
    }
    proof {
        assert(want.take(want.len() as int) =~= want);
        assert(want[0] == roots@[0]@);
    }
    Ok(
        RollbackReport {
            migration_id: text::owned(id),
            backup_root: paths::join(dir.as_str(), roots[0].as_str()),
            items,
        },
    )
}

fn rollback_root(root: &str, xlink_home: &str, facts: &RollbackFacts) -> (r: Vec<
    RollbackItemReport,
>)
    ensures
        item_views(r@) == root_items(root@, xlink_home@, *facts),
{
    let all = LegacySource::all();
    let mut items: Vec<RollbackItemReport> = Vec::new();
    let mut i: usize = 0;
    while i < 3
        invariant
            i <= 3,
            all@ == sources::all_sources(),
            items.len() == i,
            forall|k: int|
                0 <= k < i ==> (#[trigger] items@[k])@ == rollback_item(
                    sources::all_sources()[k],
                    root@,
                    xlink_home@,
                    restore_facts(*facts, sources::all_sources()[k]),
                ),
        decreases 3 - i,
    {
        let source = all[i];
        let (files_restored, status, error) = rollback_one(restore_facts_for(facts, source));
        items.push(
            RollbackItemReport {
                source,
                backup_path: paths::join(root, source.backup_key()),
                target_path: source.target(xlink_home),
                files_restored,
                status,
                error,
            },
        );
        i = i + 1;
    }
    proof {
        assert(item_views(items@) =~= root_items(root@, xlink_home@, *facts));
    }
    items
}

/// A source is reported as put back exactly where its backup was found and
/// every entry of it is back.
pub proof fn law_restored_means_complete(f: RestoreFacts)
    ensures
        restore_outcome(f).1 == RollbackStatus::Restored ==> f.found && (f.entries matches Ok(es)
            && restore_outcome(f).0 == es@.len()),
        restore_outcome(f).1 == RollbackStatus::NotFound <==> !f.found,
        !f.found ==> restore_outcome(f) == (0nat, RollbackStatus::NotFound, None::<Seq<char>>),
        f.found && restore_outcome(f).2 is None ==> restore_outcome(f).1
            == RollbackStatus::Restored,
{
    if f.found {
        if let Ok(entries) = f.entries {
            lemma_restored(entries@);
        }
    }
}

/// Where there is no error, each entry came back without one.
pub proof fn lemma_all_restored(entries: Seq<RestoreRecord>, i: int)
    requires
        restored_of(entries).1 is None,
        0 <= i < entries.len(),
    ensures
        entries[i].meta_error is None,
        entries[i].restore_error is None,
    decreases entries.len(),
{
    if i < entries.len() - 1 {
        lemma_all_restored(entries.drop_last(), i);
    }
}

/// The reports on taking a move back stand in order: for each backup three, one
/// for each source.
pub proof fn law_reports_stand_in_order(
    xlink_home: Seq<char>,
    roots: Seq<Seq<char>>,
    facts: Seq<RollbackFacts>,
)
    ensures
        ({
            let items = all_items(xlink_home, roots, facts);
            items.len() == 3 * roots.len() && forall|g: int|
                0 <= g < items.len() ==> (#[trigger] items[g]) == rollback_item(
                    sources::all_sources()[g % 3],
                    root_path(xlink_home, roots[g / 3]),
                    xlink_home,
                    restore_facts(facts[g / 3], sources::all_sources()[g % 3]),
                )
        }),
    decreases roots.len(),
{
    if roots.len() > 0 {
        let earlier = roots.drop_last();
        law_reports_stand_in_order(xlink_home, earlier, facts);
        let n = earlier.len() as int;
        let items = all_items(xlink_home, roots, facts);
        let first = all_items(xlink_home, earlier, facts);
        assert forall|g: int| 0 <= g < items.len() implies (#[trigger] items[g]) == rollback_item(
            sources::all_sources()[g % 3],
            root_path(xlink_home, roots[g / 3]),
            xlink_home,
            restore_facts(facts[g / 3], sources::all_sources()[g % 3]),
        ) by {
            if g < 3 * n {
                assert(items[g] == first[g]);
                assert(earlier[g / 3] == roots[g / 3]);
            } else {
                assert(g / 3 == n && g % 3 == g - 3 * n);
            }
        }
    }
}

/// A new backup of a move is found among its backups.
pub proof fn lemma_fresh_root_is_a_backup(id: Seq<char>, taken: Seq<Seq<char>>)
    ensures
        fresh_root(id, taken) matches Some(name) ==> backup_index(id, name) is Some,
{
    if let Some(n) = free_number(id, taken, 2) {
        lemma_free_number(id, taken, 2);
        lemma_free_bound(id, taken, 2);
        law_backups_are_found_by_number(id, n);
    }
}

proof fn lemma_free_bound(id: Seq<char>, taken: Seq<Seq<char>>, n: nat)
    ensures
        free_number(id, taken, n) matches Some(m) ==> m <= u32::MAX,
    decreases u32::MAX + 1 - n,
{
    if n <= u32::MAX && taken.contains(numbered(id, n)) {
        lemma_free_bound(id, taken, n + 1);
    }
}

proof fn lemma_restored(entries: Seq<RestoreRecord>)
    ensures
        restored_of(entries).1 is None ==> restored_of(entries).0 == entries.len(),
    decreases entries.len(),
{
    if entries.len() > 0 {
        lemma_restored(entries.drop_last());
    }
}

proof fn lemma_padded_value(s: Seq<char>, width: nat)
    requires
        text::all_digits(s),
    ensures
        text::all_digits(padded(s, width)),
        text::digits_value(padded(s, width)) == text::digits_value(s),
    decreases width - s.len(),
{
    if s.len() < width {
        let t = seq!['0'] + s;
        lemma_zero_in_front(s);
        assert(text::all_digits(t)) by {
            assert forall|i: int| 0 <= i < t.len() implies text::is_digit(#[trigger] t[i]) by {
                if i > 0 {
                    assert(t[i] == s[i - 1]);
                }
            }
        }
        lemma_padded_value(t, width);
    }
}

proof fn lemma_zero_in_front(s: Seq<char>)
    ensures
        text::digits_value(seq!['0'] + s) == text::digits_value(s),
    decreases s.len(),
{
    let t = seq!['0'] + s;
    if s.len() > 0 {
        lemma_zero_in_front(s.drop_last());
        assert(t.drop_last() =~= seq!['0'] + s.drop_last());
        assert(t.last() == s.last());
    } else {
        assert(t.drop_last() =~= Seq::<char>::empty());
        assert(text::digits_value(t.drop_last()) == 0);
    }
}

proof fn lemma_wide_value(n: u32, width: nat)
    ensures
        text::digits_value(wide(n, width)) == n,
{
    text::lemma_decimal_value(n as nat);
    lemma_padded_value(text::decimal_text(n as nat), width);
}

proof fn lemma_hex_chars(a: int, b: int)
    requires
        0 <= a < 16,
        0 <= b < 16,
        hex_char(a) == hex_char(b),
    ensures
        a == b,
{
    let x = hex_char(a);
    let y = hex_char(b);
    assert(x as int == if a < 10 { 48 + a } else { 87 + a });
    assert(y as int == if b < 10 { 48 + b } else { 87 + b });
}

/// The digits at the end of a name tell apart whatever differs in its last
/// sixteen bits, and nothing else.
pub proof fn law_tails_tell_nanoseconds_apart(a: u32, b: u32)
    ensures
        hex_tail(a) == hex_tail(b) <==> a % 65536 == b % 65536,
{
    let m = a as int % 65536;
    let n = b as int % 65536;
    if hex_tail(a) == hex_tail(b) {
        assert(hex_tail(a)[0] == hex_tail(b)[0]);
        assert(hex_tail(a)[1] == hex_tail(b)[1]);
        assert(hex_tail(a)[2] == hex_tail(b)[2]);
        assert(hex_tail(a)[3] == hex_tail(b)[3]);
        lemma_hex_chars(m / 4096, n / 4096);
        lemma_hex_chars(m / 256 % 16, n / 256 % 16);
        lemma_hex_chars(m / 16 % 16, n / 16 % 16);
        lemma_hex_chars(m % 16, n % 16);
        assert(m == n) by (nonlinear_arith)
            requires
                0 <= m < 65536,
                0 <= n < 65536,
                m / 4096 == n / 4096,
                m / 256 % 16 == n / 256 % 16,
                m / 16 % 16 == n / 16 % 16,
                m % 16 == n % 16,
        {
            assert(m == (m / 4096) * 4096 + (m / 256 % 16) * 256 + (m / 16 % 16) * 16 + m % 16);
            assert(n == (n / 4096) * 4096 + (n / 256 % 16) * 256 + (n / 16 % 16) * 16 + n % 16);
        }
    }
}

/// A move is named for its moment: moves of different moments have different
/// names, and so have moves of one second whose nanoseconds end differently.
pub proof fn law_names_tell_moves_apart(c: Civil, nanos: u32, d: Civil, other: u32)
    requires
        on_calendar(c),
        on_calendar(d),
        c.year <= 9999,
        d.year <= 9999,
    ensures
        move_name(c, nanos) == move_name(d, other) <==> c == d && nanos % 65536 == other % 65536,
        text::begins(move_name(c, nanos), "Auto"@),
        text::digits_value(move_name(c, nanos).subrange(4, 8)) == c.year,
        text::digits_value(move_name(c, nanos).subrange(8, 10)) == c.month,
        text::digits_value(move_name(c, nanos).subrange(10, 12)) == c.day,
        text::digits_value(move_name(c, nanos).subrange(13, 15)) == c.hour,
        text::digits_value(move_name(c, nanos).subrange(15, 17)) == c.minute,
        text::digits_value(move_name(c, nanos).subrange(17, 19)) == c.second,
        move_name(c, nanos).subrange(20, 24) == hex_tail(nanos),
{
    lemma_name_parts(c, nanos);
    lemma_name_parts(d, other);
    law_tails_tell_nanoseconds_apart(nanos, other);
    if c == d && nanos % 65536 == other % 65536 {
        assert(hex_tail(nanos) == hex_tail(other));
    }
}

proof fn lemma_name_parts(c: Civil, nanos: u32)
    requires
        on_calendar(c),
        c.year <= 9999,
    ensures
        text::begins(move_name(c, nanos), "Auto"@),
        text::digits_value(move_name(c, nanos).subrange(4, 8)) == c.year,
        text::digits_value(move_name(c, nanos).subrange(8, 10)) == c.month,
        text::digits_value(move_name(c, nanos).subrange(10, 12)) == c.day,
        text::digits_value(move_name(c, nanos).subrange(13, 15)) == c.hour,
        text::digits_value(move_name(c, nanos).subrange(15, 17)) == c.minute,
        text::digits_value(move_name(c, nanos).subrange(17, 19)) == c.second,
        move_name(c, nanos).subrange(20, 24) == hex_tail(nanos),
{
    reveal_strlit("Auto");
    reveal_strlit("-");
    law_names_have_one_length(c, nanos);
    lemma_wide(c.year, 4);
    lemma_wide(c.month, 2);
    lemma_wide(c.day, 2);
    lemma_wide(c.hour, 2);
    lemma_wide(c.minute, 2);
    lemma_wide(c.second, 2);
    lemma_wide_value(c.year, 4);
    lemma_wide_value(c.month, 2);
    lemma_wide_value(c.day, 2);
    lemma_wide_value(c.hour, 2);
    lemma_wide_value(c.minute, 2);
    lemma_wide_value(c.second, 2);
    let n = move_name(c, nanos);
    assert(n.subrange(0, 4) =~= "Auto"@);
    assert(n.subrange(4, 8) =~= wide(c.year, 4));
    assert(n.subrange(8, 10) =~= wide(c.month, 2));
    assert(n.subrange(10, 12) =~= wide(c.day, 2));
    assert(n.subrange(13, 15) =~= wide(c.hour, 2));
    assert(n.subrange(15, 17) =~= wide(c.minute, 2));
    assert(n.subrange(17, 19) =~= wide(c.second, 2));
    assert(n.subrange(20, 24) =~= hex_tail(nanos));
}

/// One more entry of a backup counts as put back exactly where it met no error;
/// otherwise its error, which begins with its name, is the one that is told.
pub proof fn law_each_entry_comes_back_once(entries: Seq<RestoreRecord>, e: RestoreRecord)
    ensures
        ({
            let (n, error) = restored_of(entries);
            let (m, told) = restored_of(entries.push(e));
            if e.meta_error is None && e.restore_error is None {
                m == n + 1 && told == error
            } else {
                m == n && (told matches Some(why) && text::begins(why, e.quoted_name@))
            }
        }),
{
    let all = entries.push(e);
    assert(all.drop_last() =~= entries);
    assert(all.last() == e);
    let q = e.quoted_name@;
    if e.meta_error is Some {
        let why = q + " 元数据不可读："@ + (e.meta_error->0)@;
        assert(why.subrange(0, q.len() as int) =~= q);
    } else if e.restore_error is Some {
        let why = q + "："@ + (e.restore_error->0)@;
        assert(why.subrange(0, q.len() as int) =~= q);
    }
}

/// How taking back a source is reported: not found exactly where it has no
/// backup; put back exactly where there was no error; failed exactly where there
/// was one and nothing came back.
pub proof fn law_rollbacks_tell_how_they_went(f: RestoreFacts)
    ensures
        ({
            let (n, status, error) = restore_outcome(f);
            &&& status == RollbackStatus::NotFound <==> !f.found
            &&& status == RollbackStatus::Restored <==> f.found && error is None
            &&& status == RollbackStatus::Failed <==> f.found && error is Some && n == 0
            &&& f.found && f.create_error is Some ==> n == 0 && error is Some
            &&& f.found && f.entries is Err ==> n == 0 && error is Some
            &&& f.found && f.create_error is None && f.entries is Ok ==> n == restored_of(
                (f.entries->Ok_0)@,
            ).0 && error == restored_of((f.entries->Ok_0)@).1
        }),
{
}

/// A move is taken back where it is named and has a backup, and refused
/// otherwise.
pub proof fn law_rollbacks_need_a_backup(id: Seq<char>, roots: Seq<Seq<char>>)
    ensures
        rollback_refusal(id, roots) is None <==> id.len() > 0 && roots.len() > 0,
{
}

/// The listing goes from the latest move to the earliest, and those of unknown
/// time come last. It lists what was found, and nothing else.
pub proof fn law_listings_go_back_in_time(
    list: Seq<SummaryModel>,
    sorted: Seq<SummaryModel>,
    i: int,
    j: int,
)
    requires
        sorted_listing(list, sorted),
        0 <= i < j < sorted.len(),
    ensures
        time_of(sorted[j]) is Some ==> time_of(sorted[i]) is Some && time_of(sorted[i])->0
            >= time_of(sorted[j])->0,
        sorted.len() == list.len(),
        list.contains(sorted[i]),
        sorted.contains(list[i]),
{
    let order = choose|order: Seq<usize>|
        #![trigger sort::permutes(order, list.len())]
        sort::permutes(order, list.len()) && sort::ordered(order, listing_order(list))
            && sorted.len() == list.len() && forall|k: int|
            0 <= k < sorted.len() ==> (#[trigger] sorted[k]) == list[order[k] as int];
    assert(!listing_order(list)(order[j] as int, order[i] as int));
    assert(sorted[i] == list[order[i] as int]);
    assert(sorted[j] == list[order[j] as int]);
    sort::lemma_holds_all(order, list.len(), i);
    let k = choose|k: int| 0 <= k < order.len() && order[k] == i;
    assert(sorted[k] == list[i]);
}

/// A directory of backups is listed as a move exactly where it is a directory,
/// is not hidden, and is not a further backup.
pub proof fn law_first_backups_are_listed(b: BackupFacts)
    ensures
        summary_of(b) is Some <==> b.is_dir && (backup_name(b.name@) matches Some((id, first))
            && first),
        summary_of(b) matches Some(s) ==> s.id == b.name@ && s.root == b.path@,
        b.name@.len() > 0 && b.name@[0] == '.' ==> summary_of(b) is None,
{
    reveal_strlit(".");
    if b.name@.len() > 0 && b.name@[0] == '.' {
        assert(b.name@.subrange(0, 1) =~= "."@);
    }
}

/// The name of a further backup is read as that of its move, and the name of a
/// move without a dot as its own.
pub proof fn law_backup_names_are_read_back(id: Seq<char>, n: nat)
    requires
        n <= u32::MAX,
        id.len() > 0,
        id[0] != '.',
    ensures
        backup_name(numbered(id, n)) == Some((id, false)),
        (forall|i: int| 0 <= i < id.len() ==> (#[trigger] id[i]) != '.') ==> backup_name(id)
            == Some((id, true)),
{
    reveal_strlit(".");
    let name = numbered(id, n);
    let digits = text::decimal_text(n);
    text::lemma_decimal_value(n);
    text::lemma_number_of_decimal(n, u32::MAX as nat);
    assert(!text::begins(name, "."@)) by {
        if text::begins(name, "."@) {
            assert(name.subrange(0, 1)[0] == id[0]);
        }
    }
    assert(name.subrange(id.len() as int, (id.len() + 1) as int) =~= "."@);
    assert forall|i: int| id.len() < i <= name.len() implies !text::occurs_at(name, "."@, i) by {
        if text::occurs_at(name, "."@, i) {
            assert(name.subrange(i, i + 1)[0] == '.');
            assert(name[i] == digits[i - id.len() - 1]);
            assert(text::is_digit(digits[i - id.len() - 1]));
        }
    }
    lemma_last_upto(name, "."@, name.len() as int, id.len() as int);
    assert(name.skip((id.len() + 1) as int) =~= digits);
    assert(name.take(id.len() as int) =~= id);
    if forall|i: int| 0 <= i < id.len() ==> (#[trigger] id[i]) != '.' {
        assert forall|i: int| 0 <= i <= id.len() implies !text::occurs_at(id, "."@, i) by {
            if text::occurs_at(id, "."@, i) {
                assert(id.subrange(i, i + 1)[0] == id[i]);
            }
        }
        lemma_none_upto(id, "."@, id.len() as int);
    }
}

proof fn lemma_last_upto(s: Seq<char>, pat: Seq<char>, upto: int, at: int)
    requires
        0 <= at <= upto,
        text::occurs_at(s, pat, at),
        forall|i: int| at < i <= upto ==> !text::occurs_at(s, pat, i),
    ensures
        text::last_upto(s, pat, upto) == Some(at),
    decreases upto,
{
    if at < upto {
        lemma_last_upto(s, pat, upto - 1, at);
    }
}

proof fn lemma_none_upto(s: Seq<char>, pat: Seq<char>, upto: int)
    requires
        forall|i: int| 0 <= i <= upto ==> !text::occurs_at(s, pat, i),
    ensures
        text::last_upto(s, pat, upto) is None,
    decreases upto + 1,
{
    if upto >= 0 {
        lemma_none_upto(s, pat, upto - 1);
    }
}

/// A backup has a part for a source exactly where it has a directory of that
/// name that is not hidden.
pub proof fn law_parts_of_backups_are_directories(entries: Seq<DirEntry>, e: DirEntry)
    ensures
        e.is_dir && (e.name@.len() == 0 || e.name@[0] != '.') ==> backed_up(entries.push(e))
            == backed_up(entries).push(e.name@),
        !e.is_dir || e.name@.len() > 0 && e.name@[0] == '.' ==> backed_up(entries.push(e))
            == backed_up(entries),
{
    reveal_strlit(".");
    assert(entries.push(e).drop_last() =~= entries);
    if e.name@.len() > 0 {
        if e.name@[0] == '.' {
            assert(e.name@.subrange(0, 1) =~= "."@);
        } else if text::begins(e.name@, "."@) {
            assert(e.name@.subrange(0, 1)[0] == e.name@[0]);
        }
    }
}

/// Each directory that is a move's first backup adds one summary to those that
/// were found, and any other entry none.
pub proof fn law_each_move_is_summed_up_once(found: Seq<BackupFacts>, b: BackupFacts)
    ensures
        summary_of(b) matches Some(s) ==> summaries_of(found.push(b)) == summaries_of(found).push(s),
        summary_of(b) is None ==> summaries_of(found.push(b)) == summaries_of(found),
        summary_of(b) matches Some(s) ==> s.sources == backed_up(b.entries@),
{
    assert(found.push(b).drop_last() =~= found);
}

/// An unknown offset is taken for none, and a count of seconds that fits is
/// taken as it is.
pub proof fn law_moments_of_unknown_places(secs: u64)
    ensures
        moment(secs, None) == moment(secs, Some(0i32)),
        secs <= i64::MAX ==> signed_secs(secs) == secs,
        secs <= i64::MAX && civil_of(secs as i64, 0) is Some ==> moment(secs, None) == civil_of(
            secs as i64,
            0,
        )->0,
        secs > i64::MAX ==> signed_secs(secs) < 0,
{
}

/// A backup is found by the name of its move, and further ones by the move and
/// their numbers; a name that goes on otherwise is none of its.
pub proof fn law_names_of_backups(id: Seq<char>, name: Seq<char>)
    ensures
        backup_index(id, name) == Some(1nat) <==> name == id,
        backup_index(id, name) matches Some(n) ==> (n == 1 || 2 <= n <= u32::MAX && name == id
            + "."@ + text::decimal_text(n)),
{
}

/// The first backup of a move is named for it, and the next one carries the
/// lowest number from two on that is free.
pub proof fn law_backups_are_numbered_from_two(id: Seq<char>, taken: Seq<Seq<char>>, n: nat)
    requires
        2 <= n <= u32::MAX,
        forall|k: nat| 2 <= k < n ==> taken.contains(#[trigger] numbered(id, k)),
        !taken.contains(numbered(id, n)),
    ensures
        !taken.contains(id) ==> fresh_root(id, taken) == Some(id),
        taken.contains(id) ==> fresh_root(id, taken) == Some(id + "."@ + text::decimal_text(n)),
{
    lemma_free_number_is(id, taken, 2, n);
}

proof fn lemma_free_number_is(id: Seq<char>, taken: Seq<Seq<char>>, from: nat, n: nat)
    requires
        from <= n <= u32::MAX,
        forall|k: nat| from <= k < n ==> taken.contains(#[trigger] numbered(id, k)),
        !taken.contains(numbered(id, n)),
    ensures
        free_number(id, taken, from) == Some(n),
    decreases n - from,
{
    if from < n {
        lemma_free_number_is(id, taken, from + 1, n);
    }
}

} // verus!
