//! The list of logs that the panel shows, and the names that it may ask for.

use crate::paths;
use crate::sort;
use crate::text;
use vstd::prelude::*;

verus! {

// ---------------------------------------------------------------------- ordering

/// A log's name without its extension.
pub open spec fn log_base(name: Seq<char>) -> Seq<char> {
    if text::ends(name, ".log"@) {
        name.take(name.len() - 4)
    } else {
        name
    }
}

/// What a log's name is ordered by: its base, and the number of its rotation,
/// which is the part after the last dot where that is a number.
pub open spec fn log_key(name: Seq<char>) -> (Seq<char>, nat) {
    let base = log_base(name);
    match text::last_upto(base, "."@, base.len() as int) {
        Some(i) if i + 1 < base.len() && text::all_digits(base.skip(i + 1)) && text::digits_value(
            base.skip(i + 1),
        ) <= u32::MAX => (base.take(i), text::digits_value(base.skip(i + 1))),
        _ => (base, 0),
    }
}

fn strip_log(name: &str) -> (r: String)
    ensures
        r@ == log_base(name@),
{
    if text::ends_with(name, ".log") {
        let nc = text::chars_of(name);
        proof {
            reveal_strlit(".log");
        }
        let base = text::string_of(&nc, 0, nc.len() - 4);
        proof {
            assert(base@ =~= name@.take(name@.len() - 4));
        }
        base
    } else {
        text::owned(name)
    }
}

fn digits_only(s: &Vec<char>, from: usize) -> (r: bool)
    requires
        from <= s.len(),
    ensures
        r == text::all_digits(s@.skip(from as int)),
{
    let ghost tail = s@.skip(from as int);
    let mut i: usize = from;
    while i < s.len()
        invariant
            from <= i <= s.len(),
            tail == s@.skip(from as int),
            forall|k: int| 0 <= k < i - from ==> text::is_digit(#[trigger] tail[k]),
        decreases s.len() - i,
    {
        proof {
            assert(tail[i - from] == s@[i as int]);
        }
        if !text::digit(s[i]) {
            return false;
        }
        i = i + 1;
    }
    true
}

/// What a log's name is ordered by.
pub fn log_sort_key(name: &str) -> (r: (String, u32))
    ensures
        (r.0@, r.1 as nat) == log_key(name@),
{
    let base = strip_log(name);
    let bc = text::chars_of(base.as_str());
    let dot = text::chars_of(".");
    proof {
        reveal_strlit(".");
    }
    match text::rfind(&bc, &dot) {
        Some(i) => {
            if i + 1 < bc.len() && digits_only(&bc, i + 1) {
                let tail = text::string_of(&bc, i + 1, bc.len());
                proof {
                    assert(tail@ =~= base@.skip(i + 1));
                    assert(text::is_digit(tail@[0]));
                }
                match text::parse_number(tail.as_str(), u32::MAX as u64) {
                    Some(n) => {
                        let stem = text::string_of(&bc, 0, i);
                        proof {
                            assert(stem@ =~= base@.take(i as int));
                        }
                        return (stem, n as u32);
                    },
                    None => {},
                }
            }
        },
        None => {},
    }
    (base, 0)
}

/// A log goes before another: its base is later, or it is the newer rotation of
/// the same base.
pub open spec fn log_before(a: Seq<char>, b: Seq<char>) -> bool {
    let x = log_key(a);
    let y = log_key(b);
    text::text_before(y.0, x.0) || (x.0 == y.0 && x.1 < y.1)
}

fn goes_first(a: &str, b: &str) -> (r: bool)
    ensures
        r == log_before(a@, b@),
{
    let x = log_sort_key(a);
    let y = log_sort_key(b);
    if text::is_before(y.0.as_str(), x.0.as_str()) {
        return true;
    }
    text::same(x.0.as_str(), y.0.as_str()) && x.1 < y.1
}

/// Which of two logs goes first: `Less` where the first one does.
pub fn compare_log_names(a: &str, b: &str) -> (r: std::cmp::Ordering)
    ensures
        match r {
            std::cmp::Ordering::Less => log_before(a@, b@),
            std::cmp::Ordering::Greater => log_before(b@, a@),
            std::cmp::Ordering::Equal => !log_before(a@, b@) && !log_before(b@, a@),
        },
{
    if goes_first(a, b) {
        std::cmp::Ordering::Less
    } else if goes_first(b, a) {
        std::cmp::Ordering::Greater
    } else {
        std::cmp::Ordering::Equal
    }
}

/// The order of logs is strict, and transitive, and two logs that it does not
/// tell apart have one base and one number.
pub proof fn law_log_order(a: Seq<char>, b: Seq<char>, c: Seq<char>)
    ensures
        log_before(a, b) ==> !log_before(b, a),
        log_before(a, b) && log_before(b, c) ==> log_before(a, c),
        !log_before(a, b) && !log_before(b, a) ==> log_key(a) == log_key(b),
{
    let x = log_key(a).0;
    let y = log_key(b).0;
    let z = log_key(c).0;
    text::lemma_text_order(x, y);
    text::lemma_text_order(y, z);
    text::lemma_text_order(x, z);
    if text::text_before(y, x) && text::text_before(z, y) {
        text::lemma_text_order_transitive(z, y, x);
    }
}

/// Rotations of one log are ordered by their numbers, the current one first.
pub proof fn law_rotations_are_ordered_by_number(base: Seq<char>, m: u32, n: u32)
    requires
        m < n,
    ensures
        log_key(base + "."@ + text::decimal_text(m as nat) + ".log"@) == (base, m as nat),
        log_before(
            base + "."@ + text::decimal_text(m as nat) + ".log"@,
            base + "."@ + text::decimal_text(n as nat) + ".log"@,
        ),
{
    lemma_rotation_key(base, m);
    lemma_rotation_key(base, n);
}

proof fn lemma_rotation_key(base: Seq<char>, n: u32)
    ensures
        log_key(base + "."@ + text::decimal_text(n as nat) + ".log"@) == (base, n as nat),
{
    let d = text::decimal_text(n as nat);
    let stem = base + "."@ + d;
    let name = stem + ".log"@;
    reveal_strlit(".");
    reveal_strlit(".log");
    text::lemma_decimal_value(n as nat);
    assert(name.subrange(name.len() - 4, name.len() as int) =~= ".log"@);
    assert(text::occurs_at(name, ".log"@, name.len() - 4));
    assert(name.take(name.len() - 4) =~= stem);
    let at = base.len() as int;
    assert(stem.subrange(at, at + 1) =~= "."@);
    assert forall|k: int| at < k <= stem.len() implies !text::occurs_at(stem, "."@, k) by {
        if text::occurs_at(stem, "."@, k) {
            assert(stem.subrange(k, k + 1)[0] == stem[k]);
            assert(stem[k] == d[k - at - 1]);
            assert(text::is_digit(d[k - at - 1]));
        }
    }
    lemma_last_is(stem, "."@, stem.len() as int, at);
    assert(stem.skip(at + 1) =~= d);
    assert(stem.take(at) =~= base);
}

proof fn lemma_last_is(s: Seq<char>, pat: Seq<char>, upto: int, at: int)
    requires
        0 <= at <= upto,
        text::occurs_at(s, pat, at),
        forall|k: int| at < k <= upto ==> !text::occurs_at(s, pat, k),
    ensures
        text::last_upto(s, pat, upto) == Some(at),
    decreases upto,
{
    if upto > at {
        lemma_last_is(s, pat, upto - 1, at);
    }
}

// ----------------------------------------------------------------------- listing

/// A log in the list.
#[derive(Debug)]
pub struct LogFileEntry {
    pub name: String,
    /// Its size in bytes.
    pub size: u64,
}

/// The content of an entry.
pub open spec fn log_model(e: LogFileEntry) -> (Seq<char>, u64) {
    (e.name@, e.size)
}

/// The contents of a list of entries.
pub open spec fn log_models(v: Seq<LogFileEntry>) -> Seq<(Seq<char>, u64)> {
    v.map_values(|e: LogFileEntry| log_model(e))
}

/// The entries that are logs, by their extension.
pub open spec fn only_logs(files: Seq<(Seq<char>, u64)>) -> Seq<(Seq<char>, u64)>
    decreases files.len(),
{
    if files.len() == 0 {
        Seq::empty()
    } else {
        let before = only_logs(files.drop_last());
        if paths::extension_of(files.last().0) == Some("log"@) {
            before.push(files.last())
        } else {
            before
        }
    }
}

/// The order of a list of logs.
pub open spec fn logs_in_order(list: Seq<(Seq<char>, u64)>) -> spec_fn(int, int) -> bool {
    |a: int, b: int| log_before(list[a].0, list[b].0)
}

/// `sorted` holds the entries of `list` in the order of logs; entries that it
/// does not tell apart keep their places.
pub open spec fn sorted_logs(list: Seq<(Seq<char>, u64)>, sorted: Seq<(Seq<char>, u64)>) -> bool {
    exists|order: Seq<usize>|
        #![trigger sort::permutes(order, list.len())]
        sort::permutes(order, list.len()) && sort::ordered(order, logs_in_order(list)) && sorted.len()
            == list.len() && forall|i: int|
            0 <= i < sorted.len() ==> (#[trigger] sorted[i]) == list[order[i] as int]
}

struct InLogOrder<'a> {
    list: &'a Vec<LogFileEntry>,
}

impl<'a> sort::Ranked for InLogOrder<'a> {
    closed spec fn count(&self) -> nat {
        self.list@.len()
    }

    closed spec fn goes_before(&self, a: int, b: int) -> bool {
        log_before(self.list@[a].name@, self.list@[b].name@)
    }

    fn size(&self) -> (r: usize) {
        self.list.len()
    }

    fn before(&self, a: usize, b: usize) -> (r: bool) {
        goes_first(self.list[a].name.as_str(), self.list[b].name.as_str())
    }
}

proof fn lemma_log_order_is_weak(a: Seq<char>, b: Seq<char>, c: Seq<char>)
    ensures
        log_before(a, c) ==> log_before(a, b) || log_before(b, c),
{
    law_log_order(a, b, c);
    law_log_order(b, a, c);
    law_log_order(a, c, b);
    law_log_order(b, c, a);
}

fn filter_logs(files: &Vec<LogFileEntry>) -> (r: Vec<LogFileEntry>)
    ensures
        log_models(r@) == only_logs(log_models(files@)),
{
    let ghost all = log_models(files@);
    let mut out: Vec<LogFileEntry> = Vec::new();
    let mut i: usize = 0;
    proof {
        assert(all.take(0) =~= Seq::<(Seq<char>, u64)>::empty());
        assert(log_models(out@) =~= Seq::<(Seq<char>, u64)>::empty());
    }
    while i < files.len()
        invariant
            i <= files.len(),
            all == log_models(files@),
            log_models(out@) == only_logs(all.take(i as int)),
        decreases files.len() - i,
    {
        proof {
            assert(all[i as int] == log_model(files@[i as int]));
            assert(all.take(i + 1).drop_last() =~= all.take(i as int));
            assert(all.take(i + 1).last() == all[i as int]);
        }
        let is_log = match paths::extension(files[i].name.as_str()) {
            Some(e) => text::same(e.as_str(), "log"),
            None => false,
        };
        if is_log {
            let e = LogFileEntry { name: files[i].name.clone(), size: files[i].size };
            proof {
                assert(log_models(out@.push(e)) =~= log_models(out@).push(log_model(e)));
            }
            out.push(e);
        }
        i = i + 1;
    }
    proof {
        assert(all.take(all.len() as int) =~= all);
    }
    out
}

/// The logs among the files of a directory, the newest first.
pub fn collect_log_entries(files: &Vec<LogFileEntry>) -> (r: Vec<LogFileEntry>)
    ensures
        sorted_logs(only_logs(log_models(files@)), log_models(r@)),
{
    let logs = filter_logs(files);
    let ghost list = log_models(logs@);
    let ranked = InLogOrder { list: &logs };
    proof {
        assert(list.len() == logs@.len());
        let rel = sort::order_of(ranked);
        assert forall|a: int, b: int|
            0 <= a < logs@.len() && 0 <= b < logs@.len() && #[trigger] rel(a, b) implies !rel(
            b,
            a,
        ) by {
            law_log_order(logs@[a].name@, logs@[b].name@, logs@[a].name@);
        }
        assert forall|a: int, b: int, c: int|
            #![trigger rel(a, b), rel(b, c)]
            0 <= a < logs@.len() && 0 <= b < logs@.len() && 0 <= c < logs@.len() && rel(a, b) && rel(
                b,
                c,
            ) implies rel(a, c) by {
            law_log_order(logs@[a].name@, logs@[b].name@, logs@[c].name@);
        }
        assert forall|a: int, b: int, c: int|
            #![trigger rel(a, c), rel(a, b)]
            #![trigger rel(a, c), rel(b, c)]
            0 <= a < logs@.len() && 0 <= b < logs@.len() && 0 <= c < logs@.len() && rel(
                a,
                c,
            ) implies rel(a, b) || rel(b, c) by {
            lemma_log_order_is_weak(logs@[a].name@, logs@[b].name@, logs@[c].name@);
        }
    }
    let order = sort::order_by(&ranked);
    let mut out: Vec<LogFileEntry> = Vec::new();
    let mut k: usize = 0;
    while k < order.len()
        invariant
            k <= order.len(),
            order.len() == logs.len(),
            sort::permutes(order@, logs@.len()),
            out.len() == k,
            forall|j: int|
                0 <= j < k ==> log_model(#[trigger] out@[j]) == log_model(
                    logs@[order@[j] as int],
                ),
        decreases order.len() - k,
    {
        proof {
            assert(order@[k as int] < logs@.len());
        }
        let e = &logs[order[k]];
        out.push(LogFileEntry { name: e.name.clone(), size: e.size });
        k = k + 1;
    }
    proof {
        let rel = sort::order_of(ranked);
        assert(sort::ordered(order@, logs_in_order(list))) by {
            assert forall|i: int, j: int| 0 <= i < j < order@.len() implies !logs_in_order(list)(
                (#[trigger] order@[j]) as int,
                (#[trigger] order@[i]) as int,
            ) && (logs_in_order(list)(order@[i] as int, order@[j] as int) || order@[i]
                < order@[j]) by {
                assert(!rel(order@[j] as int, order@[i] as int) && (rel(
                    order@[i] as int,
                    order@[j] as int,
                ) || order@[i] < order@[j]));
                assert(list[order@[i] as int] == log_model(logs@[order@[i] as int]));
                assert(list[order@[j] as int] == log_model(logs@[order@[j] as int]));
            }
        }
        assert(sort::permutes(order@, list.len()));
        assert forall|j: int| 0 <= j < log_models(out@).len() implies (#[trigger] log_models(
            out@,
        )[j]) == list[order@[j] as int] by {
            assert(log_models(out@)[j] == log_model(out@[j]));
            assert(order@[j] < logs@.len());
            assert(list[order@[j] as int] == log_model(logs@[order@[j] as int]));
        }
    }
    out
}

// ------------------------------------------------------------------------- names

/// A name that the panel may ask for: not empty, without separators, and
/// without two dots in a row.
pub open spec fn safe_name(name: Seq<char>) -> bool {
    name.len() > 0 && !text::has(name, "/"@) && !text::has(name, "\\"@) && !text::has(name, ".."@)
}

/// Whether the panel may ask for a log of this name.
pub fn validate_log_name(name: &str) -> (r: Result<(), String>)
    ensures
        r is Ok <==> safe_name(name@),
        r matches Err(e) ==> e@ == "非法的日志文件名："@ + name@,
{
    if name.is_empty() || text::contains(name, "/") || text::contains(name, "\\") || text::contains(
        name,
        "..",
    ) {
        return Err(text::cat2("非法的日志文件名：", name));
    }
    Ok(())
}

proof fn lemma_has_one(s: Seq<char>, pat: Seq<char>, c: char)
    requires
        pat == seq![c],
        !text::has(s, pat),
    ensures
        !s.contains(c),
{
    if s.contains(c) {
        let i = choose|i: int| 0 <= i < s.len() && s[i] == c;
        assert(s.subrange(i, i + 1) =~= pat);
        assert(text::occurs_at(s, pat, i));
    }
}

/// A name that the panel may ask for is one part of a path, and not the one
/// that climbs.
pub proof fn law_log_names_stay_inside(name: Seq<char>)
    requires
        safe_name(name),
    ensures
        paths::path_parts(name).len() == 1,
        !(paths::path_parts(name)[0] is Parent),
        !(paths::path_parts(name)[0] is Root),
{
    reveal_strlit("/");
    reveal_strlit("..");
    reveal_strlit(".");
    assert("/"@ =~= seq!['/']);
    lemma_has_one(name, "/"@, '/');
    assert(name[0] != '/') by {
        if name[0] == '/' {
            assert(name.contains('/'));
        }
    }
    text::lemma_index_of_char(name, '/');
    let k = text::index_of_char(name, '/');
    if k < name.len() {
        assert(name.contains(name[k]));
    }
    assert(text::split_text(name, '/') =~= seq![name]);
    assert(seq![name].drop_last() =~= Seq::<Seq<char>>::empty());
    reveal_with_fuel(paths::pieces_parts, 2);
    assert(name != ".."@) by {
        if name == ".."@ {
            assert(name.subrange(0, 2) =~= ".."@);
            assert(text::occurs_at(name, ".."@, 0));
        }
    }
}

/// The path of the log that the panel asks for, or why it is refused.
pub open spec fn asked_path(logs_dir: Seq<char>, name: Seq<char>) -> Result<Seq<char>, Seq<char>> {
    if !safe_name(name) {
        Err("非法的日志文件名："@ + name)
    } else if !paths::path_parts(logs_dir).is_prefix_of(paths::path_parts(paths::joined(logs_dir, name))) {
        Err("日志路径越界："@ + name)
    } else {
        Ok(paths::joined(logs_dir, name))
    }
}

/// The path of the log that the panel asks for.
pub fn read_log_file(logs_dir: &str, name: &str) -> (r: Result<String, String>)
    ensures
        (match r {
            Ok(p) => Ok(p@),
            Err(e) => Err(e@),
        }) == asked_path(logs_dir@, name@),
{
    match validate_log_name(name) {
        Ok(_) => {},
        Err(e) => {
            return Err(e);
        },
    }
    let path = paths::join(logs_dir, name);
    let parts = paths::components(path.as_str());
    let dir = paths::components(logs_dir);
    if !paths::has_prefix(&parts, &dir) {
        return Err(text::cat2("日志路径越界：", name));
    }
    Ok(path)
}

// ------------------------------------------------------------------ the log window

/// A byte that stands for itself in the query of an address.
pub open spec fn plain_in_query(b: u8) -> bool {
    ||| 48 <= b <= 57
    ||| 65 <= b <= 90
    ||| 97 <= b <= 122
    ||| b == 42 || b == 45 || b == 46 || b == 95
}

/// The capital letter or digit of a hexadecimal digit.
pub open spec fn capital_hex(d: u8) -> char {
    if d < 10 {
        (48 + d) as char
    } else {
        (55 + d) as char
    }
}

/// A byte as it is written in the query of an address.
pub open spec fn query_byte(b: u8) -> Seq<char> {
    if plain_in_query(b) {
        seq![b as char]
    } else if b == 32 {
        seq!['+']
    } else {
        seq!['%', capital_hex(b / 16), capital_hex(b % 16)]
    }
}

/// Bytes as they are written in the query of an address.
pub open spec fn query_bytes(bytes: Seq<u8>) -> Seq<char>
    decreases bytes.len(),
{
    if bytes.len() == 0 {
        Seq::empty()
    } else {
        query_bytes(bytes.drop_last()) + query_byte(bytes.last())
    }
}

/// A text as it is written in the query of an address.
pub open spec fn query_text(s: Seq<char>) -> Seq<char> {
    query_bytes(vstd::utf8::encode_utf8(s))
}

/// Writes a text for the query of an address, with
/// `url::form_urlencoded::byte_serialize`: of its UTF-8 bytes, letters, digits
/// and `*-._` stand for themselves, a space is a plus sign, and any other is a
/// percent sign and two hexadecimal digits.
#[verifier::external_body]
pub(crate) fn encode_query(s: &str) -> (r: String)
    ensures
        r@ == query_text(s@),
{
    url::form_urlencoded::byte_serialize(s.as_bytes()).collect()
}

/// The window that shows one log.
#[derive(Debug)]
pub struct LogWindow {
    pub page: String,
    pub title: String,
}

/// The window for a log, unless its name is refused.
pub fn open_log_window(name: &str) -> (r: Result<LogWindow, String>)
    ensures
        r is Ok <==> safe_name(name@),
        r matches Ok(w) ==> w.page@ == "index.html?log="@ + query_text(name@) && w.title@
            == "日志 - "@ + name@,
        r matches Err(e) ==> e@ == "非法的日志文件名："@ + name@,
{
    match validate_log_name(name) {
        Ok(_) => Ok(
            LogWindow {
                page: text::cat2("index.html?log=", encode_query(name).as_str()),
                title: text::cat2("日志 - ", name),
            },
        ),
        Err(e) => Err(e),
    }
}

/// How making the window ended.
#[derive(Debug)]
pub enum LogWindowEnd {
    Built,
    NotBuilt(String),
    /// The thread that makes it could not be started.
    NoThread(String),
    /// It took too long.
    TimedOut,
    /// It could not be waited for.
    NotWaited(String),
}

/// What the user is told of the window.
pub fn log_window_outcome(end: &LogWindowEnd) -> (r: Result<(), String>)
    ensures
        r is Ok <==> *end is Built,
        r matches Err(x) ==> x@ == (match *end {
            LogWindowEnd::Built => Seq::empty(),
            LogWindowEnd::NotBuilt(e) => "打开日志窗口失败："@ + e@
                + "。可改用主面板的「查看日志」弹窗，或重试"@,
            LogWindowEnd::NoThread(e) => "无法启动日志窗口线程："@ + e@,
            LogWindowEnd::TimedOut => "打开日志窗口超时（20 秒）。请重试，或改用主面板的「查看日志」弹窗"@,
            LogWindowEnd::NotWaited(e) => "等待日志窗口结果失败："@ + e@,
        }),
{
    match end {
        LogWindowEnd::Built => Ok(()),
        LogWindowEnd::NotBuilt(e) => Err(
            text::cat3(
                "打开日志窗口失败：",
                e.as_str(),
                "。可改用主面板的「查看日志」弹窗，或重试",
            ),
        ),
        LogWindowEnd::NoThread(e) => Err(text::cat2("无法启动日志窗口线程：", e.as_str())),
        LogWindowEnd::TimedOut => Err(
            text::owned("打开日志窗口超时（20 秒）。请重试，或改用主面板的「查看日志」弹窗"),
        ),
        LogWindowEnd::NotWaited(e) => Err(text::cat2("等待日志窗口结果失败：", e.as_str())),
    }
}

/// The list holds the logs of the directory, each once, and nothing else; of two
/// logs the one that goes before the other stands in front.
pub proof fn law_logs_are_listed_in_order(
    list: Seq<(Seq<char>, u64)>,
    sorted: Seq<(Seq<char>, u64)>,
    i: int,
    j: int,
)
    requires
        sorted_logs(list, sorted),
        0 <= i < j < sorted.len(),
    ensures
        !log_before(sorted[j].0, sorted[i].0),
        sorted.len() == list.len(),
        list.contains(sorted[i]),
        sorted.contains(list[i]),
{
    let order = choose|order: Seq<usize>|
        #![trigger sort::permutes(order, list.len())]
        sort::permutes(order, list.len()) && sort::ordered(order, logs_in_order(list))
            && sorted.len() == list.len() && forall|k: int|
            0 <= k < sorted.len() ==> (#[trigger] sorted[k]) == list[order[k] as int];
    assert(!logs_in_order(list)(order[j] as int, order[i] as int));
    assert(sorted[i] == list[order[i] as int]);
    assert(sorted[j] == list[order[j] as int]);
    sort::lemma_holds_all(order, list.len(), i);
    let k = choose|k: int| 0 <= k < order.len() && order[k] == i;
    assert(sorted[k] == list[i]);
}

/// A file is listed exactly where it has the extension of logs.
pub proof fn law_only_logs_are_listed(files: Seq<(Seq<char>, u64)>, f: (Seq<char>, u64))
    ensures
        paths::extension_of(f.0) == Some("log"@) ==> only_logs(files.push(f)) == only_logs(
            files,
        ).push(f),
        paths::extension_of(f.0) != Some("log"@) ==> only_logs(files.push(f)) == only_logs(files),
{
    assert(files.push(f).drop_last() =~= files);
}

/// The log of a later day goes before that of an earlier one, and the current
/// log before its rotations.
pub proof fn law_later_days_come_first(a: Seq<char>, b: Seq<char>, n: u32)
    requires
        forall|i: int| 0 <= i < a.len() ==> (#[trigger] a[i]) != '.',
        forall|i: int| 0 <= i < b.len() ==> (#[trigger] b[i]) != '.',
    ensures
        log_key(a + ".log"@) == (a, 0nat),
        text::text_before(b, a) ==> log_before(a + ".log"@, b + ".log"@),
        n > 0 ==> log_before(a + ".log"@, a + "."@ + text::decimal_text(n as nat) + ".log"@),
{
    lemma_plain_key(a);
    lemma_plain_key(b);
    if n > 0 {
        law_rotations_are_ordered_by_number(a, 0, n);
        law_rotations_are_ordered_by_number(a, (n - 1) as u32, n);
        if n < u32::MAX {
            law_rotations_are_ordered_by_number(a, n, (n + 1) as u32);
        } else {
            lemma_last_rotation(a, n);
        }
    }
}

proof fn lemma_last_rotation(a: Seq<char>, n: u32)
    requires
        n > 0,
    ensures
        log_key(a + "."@ + text::decimal_text(n as nat) + ".log"@).0 == a,
        log_key(a + "."@ + text::decimal_text(n as nat) + ".log"@).1 > 0,
{
    law_rotations_are_ordered_by_number(a, 0, n);
    let x = a + "."@ + text::decimal_text(0) + ".log"@;
    let y = a + "."@ + text::decimal_text(n as nat) + ".log"@;
    reveal_strlit(".log");
    reveal_strlit(".");
    let d = text::decimal_text(n as nat);
    text::lemma_decimal_value(n as nat);
    assert(y.subrange(y.len() - 4, y.len() as int) =~= ".log"@);
    let base = a + "."@ + d;
    assert(y.take(y.len() - 4) =~= base);
    assert(base.subrange(a.len() as int, (a.len() + 1) as int) =~= "."@);
    assert forall|i: int| a.len() < i <= base.len() implies !text::occurs_at(base, "."@, i) by {
        if text::occurs_at(base, "."@, i) {
            assert(base.subrange(i, i + 1)[0] == '.');
            assert(base[i] == d[i - a.len() - 1]);
            assert(text::is_digit(d[i - a.len() - 1]));
        }
    }
    lemma_last_mark(base, base.len() as int, a.len() as int);
    assert(base.skip((a.len() + 1) as int) =~= d);
    assert(base.take(a.len() as int) =~= a);
}

proof fn lemma_last_mark(s: Seq<char>, upto: int, at: int)
    requires
        0 <= at <= upto,
        text::occurs_at(s, "."@, at),
        forall|i: int| at < i <= upto ==> !text::occurs_at(s, "."@, i),
    ensures
        text::last_upto(s, "."@, upto) == Some(at),
    decreases upto,
{
    if at < upto {
        lemma_last_mark(s, upto - 1, at);
    }
}

proof fn lemma_plain_key(a: Seq<char>)
    requires
        forall|i: int| 0 <= i < a.len() ==> (#[trigger] a[i]) != '.',
    ensures
        log_key(a + ".log"@) == (a, 0nat),
{
    reveal_strlit(".log");
    reveal_strlit(".");
    let name = a + ".log"@;
    assert(name.subrange(name.len() - 4, name.len() as int) =~= ".log"@);
    assert(name.take(name.len() - 4) =~= a);
    assert forall|i: int| 0 <= i <= a.len() implies !text::occurs_at(a, "."@, i) by {
        if text::occurs_at(a, "."@, i) {
            assert(a.subrange(i, i + 1)[0] == a[i]);
        }
    }
    lemma_no_mark_upto(a, a.len() as int);
}

proof fn lemma_no_mark_upto(s: Seq<char>, upto: int)
    requires
        forall|i: int| 0 <= i <= upto ==> !text::occurs_at(s, "."@, i),
    ensures
        text::last_upto(s, "."@, upto) is None,
    decreases upto + 1,
{
    if upto >= 0 {
        lemma_no_mark_upto(s, upto - 1);
    }
}

/// The panel may ask for a log exactly by a name that is not empty and holds
/// neither a slash of either kind nor two dots in a row; such a log lies right
/// in the directory of logs.
pub proof fn law_logs_are_asked_for_by_name(logs_dir: Seq<char>, name: Seq<char>)
    ensures
        safe_name(name) <==> name.len() > 0 && (forall|i: int|
            0 <= i < name.len() ==> (#[trigger] name[i]) != '/' && name[i] != '\\') && (forall|
            i: int,
        |
            0 <= i && i + 1 < name.len() ==> !((#[trigger] name[i]) == '.' && name[i + 1] == '.')),
        safe_name(name) && name != "."@ ==> asked_path(logs_dir, name) == Ok::<
            Seq<char>,
            Seq<char>,
        >(paths::joined(logs_dir, name)),
        !safe_name(name) ==> asked_path(logs_dir, name) is Err,
{
    reveal_strlit("/");
    reveal_strlit("\\");
    reveal_strlit("..");
    if safe_name(name) {
        assert forall|i: int| 0 <= i < name.len() implies (#[trigger] name[i]) != '/' && name[i]
            != '\\' by {
            if name[i] == '/' {
                assert(name.subrange(i, i + 1) =~= "/"@);
                assert(text::occurs_at(name, "/"@, i));
            }
            if name[i] == '\\' {
                assert(name.subrange(i, i + 1) =~= "\\"@);
                assert(text::occurs_at(name, "\\"@, i));
            }
        }
        assert forall|i: int| 0 <= i && i + 1 < name.len() implies !((#[trigger] name[i]) == '.'
            && name[i + 1] == '.') by {
            if name[i] == '.' && name[i + 1] == '.' {
                assert(name.subrange(i, i + 2) =~= ".."@);
                assert(text::occurs_at(name, ".."@, i));
            }
        }
        if name != "."@ {
            paths::law_joining_adds_a_part(logs_dir, name);
            let parts = paths::path_parts(logs_dir);
            let all = paths::path_parts(paths::joined(logs_dir, name));
            assert(all.take(parts.len() as int) =~= parts);
        }
    }
    if text::has(name, "/"@) {
        let i = choose|i: int| text::occurs_at(name, "/"@, i);
        assert(name.subrange(i, i + 1)[0] == name[i]);
        assert(name[i] == '/');
    }
    if text::has(name, "\\"@) {
        let i = choose|i: int| text::occurs_at(name, "\\"@, i);
        assert(name.subrange(i, i + 1)[0] == name[i]);
        assert(name[i] == '\\');
    }
    if text::has(name, ".."@) {
        let i = choose|i: int| text::occurs_at(name, ".."@, i);
        assert(name.subrange(i, i + 2)[0] == name[i]);
        assert(name.subrange(i, i + 2)[1] == name[i + 1]);
        assert(name[i] == '.');
    }
}

/// A query is written byte by byte, and holds only letters, digits and
/// `*-._+%`, so that it cannot end the query or begin another.
pub proof fn law_queries_hold_plain_characters(a: Seq<u8>, b: Seq<u8>)
    ensures
        query_bytes(a + b) == query_bytes(a) + query_bytes(b),
        forall|i: int|
            #![trigger query_bytes(a)[i]]
            0 <= i < query_bytes(a).len() ==> {
                let c = query_bytes(a)[i];
                'a' <= c <= 'z' || 'A' <= c <= 'Z' || '0' <= c <= '9' || c == '*' || c == '-' || c
                    == '.' || c == '_' || c == '+' || c == '%'
            },
{
    lemma_query_joins(a, b);
    lemma_query_chars(a);
}

proof fn lemma_query_joins(a: Seq<u8>, b: Seq<u8>)
    ensures
        query_bytes(a + b) == query_bytes(a) + query_bytes(b),
    decreases b.len(),
{
    if b.len() == 0 {
        assert(a + b =~= a);
        assert(query_bytes(a) + query_bytes(b) =~= query_bytes(a));
    } else {
        lemma_query_joins(a, b.drop_last());
        assert((a + b).drop_last() =~= a + b.drop_last());
        assert((a + b).last() == b.last());
        assert(query_bytes(a + b) =~= query_bytes(a) + query_bytes(b));
    }
}

/// A character that may stand in a query.
spec fn query_char(c: char) -> bool {
    'a' <= c <= 'z' || 'A' <= c <= 'Z' || '0' <= c <= '9' || c == '*' || c == '-' || c == '.' || c
        == '_' || c == '+' || c == '%'
}

proof fn lemma_hex_is_query(d: u8)
    requires
        d < 16,
    ensures
        query_char(capital_hex(d)),
{
    let c = capital_hex(d);
    assert(c as int == if d < 10 { 48 + d } else { 55 + d });
}

proof fn lemma_query_chars(a: Seq<u8>)
    ensures
        forall|i: int| 0 <= i < query_bytes(a).len() ==> query_char(#[trigger] query_bytes(a)[i]),
    decreases a.len(),
{
    if a.len() > 0 {
        lemma_query_chars(a.drop_last());
        let before = query_bytes(a.drop_last());
        let more = query_byte(a.last());
        let b = a.last();
        lemma_hex_is_query(b / 16);
        lemma_hex_is_query(b % 16);
        assert(b as char as int == b as int);
        assert forall|i: int| 0 <= i < query_bytes(a).len() implies query_char(
            #[trigger] query_bytes(a)[i],
        ) by {
            if i < before.len() {
                assert(query_bytes(a)[i] == before[i]);
            } else {
                assert(query_bytes(a)[i] == more[i - before.len()]);
            }
        }
    }
}

} // verus!
