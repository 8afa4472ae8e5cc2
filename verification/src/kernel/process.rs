//! The kernel's process: who listens on a port, which process is the kernel of
//! this data directory, and how it is started and stopped.

use crate::error::{AppError, ErrorModel};
use crate::text;
use vstd::prelude::*;

verus! {

/// How many processes are looked at for left-over kernels.
pub const MAX_ORPHAN_CANDIDATES: usize = 256;

/// How often a process that was asked to end is looked at before it is killed.
pub const STOP_POLLS: u32 = 10;

// ----------------------------------------------------------------- listeners

/// Two texts are the same but for the case of ASCII letters.
pub open spec fn same_letters(a: Seq<char>, b: Seq<char>) -> bool {
    text::lower_text(a) == text::lower_text(b)
}

/// The process that a line of `netstat -ano` shows to listen on `port`.
pub open spec fn netstat_row(line: Seq<char>, port: u16) -> Option<nat> {
    let columns = text::words_text(line);
    if columns.len() == 5 && same_letters(columns[0], "TCP"@) && columns[3] == "LISTENING"@ && text::ends(
        columns[1],
        ":"@ + text::decimal_text(port as nat),
    ) {
        text::number_in(columns[4], u32::MAX as nat)
    } else {
        None
    }
}

/// The first listener that the lines show, from index `k` on.
pub open spec fn netstat_from(lines: Seq<Seq<char>>, port: u16, k: int) -> Option<nat>
    decreases lines.len() - k,
{
    if k < 0 || k >= lines.len() {
        None
    } else {
        match netstat_row(lines[k], port) {
            Some(pid) => Some(pid),
            None => netstat_from(lines, port, k + 1),
        }
    }
}

/// The content of an optional process id.
pub open spec fn opt_pid(o: Option<u32>) -> Option<nat> {
    match o {
        Some(p) => Some(p as nat),
        None => None,
    }
}

fn parse_pid(s: &str) -> (r: Option<u32>)
    ensures
        opt_pid(r) == text::number_in(s@, u32::MAX as nat),
{
    match text::parse_number(s, u32::MAX as u64) {
        Some(n) => Some(n as u32),
        None => None,
    }
}

fn netstat_pid(line: &str, port: u16) -> (r: Option<u32>)
    ensures
        opt_pid(r) == netstat_row(line@, port),
{
    let columns = text::words(line);
    proof {
        assert(text::texts(columns@).len() == columns@.len());
    }
    if columns.len() != 5 {
        return None;
    }
    proof {
        assert(text::texts(columns@)[0] == columns@[0]@);
        assert(text::texts(columns@)[1] == columns@[1]@);
        assert(text::texts(columns@)[3] == columns@[3]@);
        assert(text::texts(columns@)[4] == columns@[4]@);
    }
    let suffix = text::cat2(":", text::decimal(port as u64).as_str());
    let tcp = text::same(
        text::to_lower(columns[0].as_str()).as_str(),
        text::to_lower("TCP").as_str(),
    );
    if tcp && text::same(columns[3].as_str(), "LISTENING") && text::ends_with(
        columns[1].as_str(),
        suffix.as_str(),
    ) {
        parse_pid(columns[4].as_str())
    } else {
        None
    }
}

/// The process that listens on a TCP port, by the output of `netstat -ano`.
/// Rows are read by their columns: the local address ends with the port, and
/// the state is listening.
pub fn parse_netstat_listener_pid(output: &str, port: u16) -> (r: Option<u32>)
    ensures
        opt_pid(r) == netstat_from(text::lines_text(output@), port, 0),
{
    let all = text::lines(output);
    let mut i: usize = 0;
    while i < all.len()
        invariant
            i <= all.len(),
            text::texts(all@) == text::lines_text(output@),
            netstat_from(text::lines_text(output@), port, 0) == netstat_from(
                text::lines_text(output@),
                port,
                i as int,
            ),
        decreases all.len() - i,
    {
        proof {
            assert(text::texts(all@)[i as int] == all@[i as int]@);
        }
        match netstat_pid(all[i].as_str(), port) {
            Some(pid) => {
                return Some(pid);
            },
            None => {},
        }
        i = i + 1;
    }
    None
}

/// The process that the output of `lsof -t` names first.
pub open spec fn lsof_pid(output: Seq<char>) -> Option<nat> {
    let lines = text::lines_text(output);
    if lines.len() == 0 {
        None
    } else {
        text::number_in(text::trim_text(lines[0]), u32::MAX as nat)
    }
}

/// The process that listens on a port, by the output of `lsof -t`.
pub fn port_listen_pid_lsof(output: &str) -> (r: Option<u32>)
    ensures
        opt_pid(r) == lsof_pid(output@),
{
    let all = text::lines(output);
    proof {
        assert(text::texts(all@).len() == all@.len());
    }
    if all.len() == 0 {
        return None;
    }
    proof {
        assert(text::texts(all@)[0] == all@[0]@);
    }
    parse_pid(text::trim(all[0].as_str()).as_str())
}

/// The number of digits that `s` begins with.
pub open spec fn digit_run(s: Seq<char>) -> int
    decreases s.len(),
{
    if s.len() == 0 || !text::is_digit(s[0]) {
        0
    } else {
        1 + digit_run(s.drop_first())
    }
}

proof fn lemma_digit_run_is(s: Seq<char>, i: int)
    requires
        0 <= i <= s.len(),
        i < s.len() ==> !text::is_digit(s[i]),
        forall|j: int| 0 <= j < i ==> text::is_digit(#[trigger] s[j]),
    ensures
        digit_run(s) == i,
    decreases s.len(),
{
    if i > 0 {
        assert(text::is_digit(s[0]));
        let t = s.drop_first();
        assert forall|j: int| 0 <= j < i - 1 implies text::is_digit(#[trigger] t[j]) by {
            assert(t[j] == s[j + 1]);
        }
        lemma_digit_run_is(t, i - 1);
    }
}

/// The process that a line of `ss -lntp` names.
pub open spec fn ss_row(line: Seq<char>) -> Option<nat> {
    match text::first_from(line, "pid="@, 0) {
        None => None,
        Some(i) => {
            let rest = line.skip(i + "pid="@.len());
            text::number_in(rest.take(digit_run(rest)), u32::MAX as nat)
        },
    }
}

/// The first process that the lines name, from index `k` on.
pub open spec fn ss_from(lines: Seq<Seq<char>>, k: int) -> Option<nat>
    decreases lines.len() - k,
{
    if k < 0 || k >= lines.len() {
        None
    } else {
        match ss_row(lines[k]) {
            Some(pid) => Some(pid),
            None => ss_from(lines, k + 1),
        }
    }
}

fn ss_pid(line: &str) -> (r: Option<u32>)
    ensures
        opt_pid(r) == ss_row(line@),
{
    let lc = text::chars_of(line);
    let mark = text::chars_of("pid=");
    let start: usize = match text::find_from(&lc, &mark, 0) {
        Some(i) => i + mark.len(),
        None => {
            return None;
        },
    };
    let mut end: usize = start;
    while end < lc.len() && text::digit(lc[end])
        invariant
            start <= end <= lc.len(),
            forall|j: int| start <= j < end ==> text::is_digit(#[trigger] lc@[j]),
        decreases lc.len() - end,
    {
        end = end + 1;
    }
    let body = text::string_of(&lc, start, end);
    proof {
        let rest = lc@.skip(start as int);
        assert forall|j: int| 0 <= j < end - start implies text::is_digit(#[trigger] rest[j]) by {
            assert(rest[j] == lc@[start + j]);
        }
        if end < lc.len() {
            assert(rest[end - start] == lc@[end as int]);
        }
        lemma_digit_run_is(rest, end - start);
        assert(rest.take(end - start) =~= body@);
    }
    parse_pid(body.as_str())
}

/// The process that listens on a port, by the output of `ss -lntp`.
pub fn port_listen_pid_ss(output: &str) -> (r: Option<u32>)
    ensures
        opt_pid(r) == ss_from(text::lines_text(output@), 0),
{
    let all = text::lines(output);
    let mut i: usize = 0;
    while i < all.len()
        invariant
            i <= all.len(),
            text::texts(all@) == text::lines_text(output@),
            ss_from(text::lines_text(output@), 0) == ss_from(text::lines_text(output@), i as int),
        decreases all.len() - i,
    {
        proof {
            assert(text::texts(all@)[i as int] == all@[i as int]@);
        }
        match ss_pid(all[i].as_str()) {
            Some(pid) => {
                return Some(pid);
            },
            None => {},
        }
        i = i + 1;
    }
    None
}

/// The process that listens on a port, by what the tools at hand print: what
/// `lsof` names, or else what `ss` names. A tool that failed has no output.
pub fn port_listen_pid(lsof: Option<&str>, ss: Option<&str>) -> (r: Option<u32>)
    ensures
        opt_pid(r) == ({
            let first = match lsof {
                Some(o) => lsof_pid(o@),
                None => None,
            };
            if first is Some {
                first
            } else {
                match ss {
                    Some(o) => ss_from(text::lines_text(o@), 0),
                    None => None,
                }
            }
        }),
{
    match lsof {
        Some(o) => {
            match port_listen_pid_lsof(o) {
                Some(pid) => {
                    return Some(pid);
                },
                None => {},
            }
        },
        None => {},
    }
    match ss {
        Some(o) => port_listen_pid_ss(o),
        None => None,
    }
}

// ---------------------------------------------------------------- pid record

/// The kernel that was started: its process and the port it was given.
#[derive(Debug, Clone, Copy, PartialEq, Eq)]
pub struct PidRecord {
    pub pid: u32,
    /// None in the older form of the record.
    pub port: Option<u16>,
}

/// The text of a record.
pub open spec fn record_text(pid: u32, port: u16) -> Seq<char> {
    text::decimal_text(pid as nat) + " "@ + text::decimal_text(port as nat) + "\n"@
}

/// The text that records a started kernel.
pub fn write_pid(pid: u32, port: u16) -> (r: String)
    ensures
        r@ == record_text(pid, port),
{
    text::cat4(
        text::decimal(pid as u64).as_str(),
        " ",
        text::decimal(port as u64).as_str(),
        "\n",
    )
}

/// The record that a text holds: a process id, and a port where a second word
/// is one.
pub open spec fn record_in(content: Seq<char>) -> Option<(nat, Option<nat>)> {
    let w = text::words_text(content);
    if w.len() == 0 {
        None
    } else {
        match text::number_in(w[0], u32::MAX as nat) {
            None => None,
            Some(pid) => Some(
                (
                    pid,
                    if w.len() > 1 {
                        text::number_in(w[1], u16::MAX as nat)
                    } else {
                        None
                    },
                ),
            ),
        }
    }
}

/// The content of a record.
pub open spec fn record_model(r: Option<PidRecord>) -> Option<(nat, Option<nat>)> {
    match r {
        Some(rec) => Some(
            (
                rec.pid as nat,
                match rec.port {
                    Some(p) => Some(p as nat),
                    None => None,
                },
            ),
        ),
        None => None,
    }
}

/// Reads a record, in its older form without a port too.
pub fn read_pid_record(content: Option<&str>) -> (r: Option<PidRecord>)
    ensures
        record_model(r) == (match content {
            Some(c) => record_in(c@),
            None => None,
        }),
{
    let c = match content {
        Some(c) => c,
        None => {
            return None;
        },
    };
    let w = text::words(c);
    proof {
        assert(text::texts(w@).len() == w@.len());
    }
    if w.len() == 0 {
        return None;
    }
    proof {
        assert(text::texts(w@)[0] == w@[0]@);
    }
    let pid = match parse_pid(w[0].as_str()) {
        Some(p) => p,
        None => {
            return None;
        },
    };
    let port = if w.len() > 1 {
        proof {
            assert(text::texts(w@)[1] == w@[1]@);
        }
        match text::parse_number(w[1].as_str(), u16::MAX as u64) {
            Some(n) => Some(n as u16),
            None => None,
        }
    } else {
        None
    };
    Some(PidRecord { pid, port })
}

/// The port that the recorded kernel was given.
pub open spec fn recorded_port(content: Option<Seq<char>>) -> Option<nat> {
    match content {
        Some(c) => match record_in(c) {
            Some(rec) => rec.1,
            None => None,
        },
        None => None,
    }
}

/// The content of a port.
pub open spec fn port_of(port: Option<u16>) -> Option<nat> {
    match port {
        Some(p) => Some(p as nat),
        None => None,
    }
}

/// The port that the recorded kernel was given.
pub fn recorded_kernel_port(content: Option<&str>) -> (r: Option<u16>)
    ensures
        port_of(r) == recorded_port(
            match content {
                Some(c) => Some(c@),
                None => None,
            },
        ),
{
    match read_pid_record(content) {
        Some(rec) => rec.port,
        None => None,
    }
}

/// A record that is written is read back.
pub proof fn law_pid_record_is_read_back(pid: u32, port: u16)
    ensures
        record_in(record_text(pid, port)) == Some((pid as nat, Some(port as nat))),
{
    let a = text::decimal_text(pid as nat);
    let b = text::decimal_text(port as nat);
    text::lemma_decimal_value(pid as nat);
    text::lemma_decimal_value(port as nat);
    lemma_digits_are_a_word(a);
    lemma_digits_are_a_word(b);
    reveal_strlit(" ");
    reveal_strlit("\n");
    let tail = b + "\n"@;
    assert(record_text(pid, port) =~= a + seq![' '] + tail);
    text::lemma_words_split(a, ' ', tail);
    assert(tail =~= b + seq!['\n'] + Seq::<char>::empty());
    text::lemma_words_split(b, '\n', Seq::empty());
    assert(text::words_text(record_text(pid, port)) =~= seq![a, b]);
    text::lemma_number_of_decimal(pid as nat, u32::MAX as nat);
    text::lemma_number_of_decimal(port as nat, u16::MAX as nat);
}

proof fn lemma_digits_are_a_word(s: Seq<char>)
    requires
        text::all_digits(s),
    ensures
        forall|i: int| 0 <= i < s.len() ==> !text::is_white(#[trigger] s[i]),
{
    assert forall|i: int| 0 <= i < s.len() implies !text::is_white(#[trigger] s[i]) by {
        assert(text::is_digit(s[i]));
    }
}

// ------------------------------------------------------------------ identity

/// A command line with small letters and forward slashes.
pub open spec fn plain_command(command: Seq<char>) -> Seq<char> {
    text::swap_text(text::lower_text(command), '\\', '/')
}

/// A command line that runs the kernel's entry.
pub open spec fn kernel_command(command: Seq<char>) -> bool {
    text::has(plain_command(command), "@deepseek-ai/dsh/lib/bin.js"@)
}

fn plain(command: &str) -> (r: String)
    ensures
        r@ == plain_command(command@),
{
    text::swap_char(text::to_lower(command).as_str(), '\\', '/')
}

/// Whether a command line runs the kernel's entry, in any case and with either
/// slash.
pub fn command_is_kernel(command: &str) -> (r: bool)
    ensures
        r == kernel_command(command@),
{
    text::contains(plain(command).as_str(), "@deepseek-ai/dsh/lib/bin.js")
}

/// The command line of a process, by what asking for it printed: none where
/// asking failed or printed nothing, for then nothing is known of it.
pub fn process_command(asked: Option<(bool, String)>) -> (r: Option<String>)
    ensures
        r == (match asked {
            Some((ok, output)) => if ok && text::trim_text(output@).len() > 0 {
                Some(output)
            } else {
                None
            },
            None => None,
        }),
{
    match asked {
        Some((ok, output)) => {
            if ok && !text::trim(output.as_str()).as_str().is_empty() {
                Some(output)
            } else {
                None
            }
        },
        None => None,
    }
}

/// What is known of a process.
#[derive(Debug, Clone, Copy, PartialEq, Eq, Structural)]
pub enum ProcessState {
    Alive,
    Gone,
    /// The question could not be asked.
    Unknown,
}

/// What is known of a process, by what asking for its command line printed.
pub fn process_state(asked: &Option<(bool, String)>) -> (r: ProcessState)
    ensures
        r == (match *asked {
            Some((ok, output)) => if ok && text::trim_text(output@).len() > 0 {
                ProcessState::Alive
            } else {
                ProcessState::Gone
            },
            None => ProcessState::Unknown,
        }),
{
    match asked {
        Some((ok, output)) => {
            if *ok && !text::trim(output.as_str()).as_str().is_empty() {
                ProcessState::Alive
            } else {
                ProcessState::Gone
            }
        },
        None => ProcessState::Unknown,
    }
}

/// Who listens on a port.
#[derive(Debug, Clone, Copy, PartialEq, Eq, Structural)]
pub enum ListenerIdentity {
    Kernel,
    NotKernel,
    /// Nobody listens, or nothing is known of who does.
    Unknown,
}

/// Who listens on a port, as far as a process and its command line tell.
pub open spec fn identity_of(pid: Option<u32>, command: Option<Seq<char>>) -> ListenerIdentity {
    match (pid, command) {
        (Some(_), Some(c)) => if kernel_command(c) {
            ListenerIdentity::Kernel
        } else {
            ListenerIdentity::NotKernel
        },
        _ => ListenerIdentity::Unknown,
    }
}

/// Who listens on a port, by the listener's process and its command line.
pub fn port_listener_identity(pid: Option<u32>, command: Option<&str>) -> (r: ListenerIdentity)
    ensures
        r == (if pid is None {
            ListenerIdentity::Unknown
        } else {
            match command {
                Some(c) => if kernel_command(c@) {
                    ListenerIdentity::Kernel
                } else {
                    ListenerIdentity::NotKernel
                },
                None => ListenerIdentity::Unknown,
            }
        }),
        r == identity_of(
            pid,
            match command {
                Some(c) => Some(c@),
                None => None,
            },
        ),
{
    if pid.is_none() {
        return ListenerIdentity::Unknown;
    }
    match command {
        Some(c) => if command_is_kernel(c) {
            ListenerIdentity::Kernel
        } else {
            ListenerIdentity::NotKernel
        },
        None => ListenerIdentity::Unknown,
    }
}

/// `s` without double quotes at its ends.
pub open spec fn unquoted(s: Seq<char>) -> Seq<char> {
    text::trim_end_by(text::trim_start_by(s, |c: char| c == '"'), |c: char| c == '"')
}

fn unquote(s: &str) -> (r: String)
    ensures
        r@ == unquoted(s@),
{
    text::trim_char(s, '"')
}

/// The port that the arguments of a command line give, from index `k` on: what
/// follows the first `--port`, or its value where it is written with `=`.
pub open spec fn port_argument(args: Seq<Seq<char>>, k: int) -> Option<Seq<char>>
    decreases args.len() - k,
{
    if k < 0 || k >= args.len() {
        None
    } else {
        let arg = unquoted(args[k]);
        if arg == "--port"@ {
            if k + 1 < args.len() {
                Some(unquoted(args[k + 1]))
            } else {
                None
            }
        } else if text::begins(arg, "--port="@) {
            Some(arg.skip("--port="@.len() as int))
        } else {
            port_argument(args, k + 1)
        }
    }
}

fn find_port_argument(command: &str) -> (r: Option<String>)
    ensures
        text::opt_text(r) == port_argument(text::words_text(command@), 0),
{
    let args = text::words(command);
    let ghost all = text::words_text(command@);
    let mut i: usize = 0;
    while i < args.len()
        invariant
            i <= args.len(),
            text::texts(args@) == all,
            all == text::words_text(command@),
            port_argument(all, 0) == port_argument(all, i as int),
        decreases args.len() - i,
    {
        proof {
            assert(all[i as int] == args@[i as int]@);
            assert(all.len() == args@.len());
        }
        let arg = unquote(args[i].as_str());
        if text::same(arg.as_str(), "--port") {
            if i + 1 < args.len() {
                proof {
                    assert(all[i + 1] == args@[i + 1]@);
                }
                return Some(unquote(args[i + 1].as_str()));
            }
            return None;
        }
        if text::starts_with(arg.as_str(), "--port=") {
            let ac = text::chars_of(arg.as_str());
            let mark = text::chars_of("--port=");
            let value = text::string_of(&ac, mark.len(), ac.len());
            proof {
                assert(value@ =~= arg@.skip("--port="@.len() as int));
            }
            return Some(value);
        }
        i = i + 1;
    }
    None
}

/// The process is a kernel; and where a port is asked for, one that was given
/// that port and that listens on it as far as is known.
pub open spec fn is_kernel(
    pid: u32,
    port: Option<u16>,
    command: Option<Seq<char>>,
    listener: Option<u32>,
) -> bool {
    command matches Some(c) && kernel_command(c) && (match port {
        None => true,
        Some(p) => port_argument(text::words_text(plain_command(c)), 0) == Some(
            text::decimal_text(p as nat),
        ) && (listener is None || listener == Some(pid)),
    })
}

/// Whether a process is the kernel that serves a port: by its command line, by
/// the port that it was given, and by who listens on that port. Without a port
/// only the command line is asked for.
pub fn pid_is_kernel(
    pid: u32,
    port: Option<u16>,
    command: Option<&str>,
    listener: Option<u32>,
) -> (r: bool)
    ensures
        r == is_kernel(
            pid,
            port,
            match command {
                Some(c) => Some(c@),
                None => None,
            },
            listener,
        ),
{
    let c = match command {
        Some(c) => c,
        None => {
            return false;
        },
    };
    if !command_is_kernel(c) {
        return false;
    }
    let p = match port {
        Some(p) => p,
        None => {
            return true;
        },
    };
    let given = match find_port_argument(plain(c).as_str()) {
        Some(value) => text::same(value.as_str(), text::decimal(p as u64).as_str()),
        None => false,
    };
    if !given {
        return false;
    }
    match listener {
        Some(l) => l == pid,
        None => true,
    }
}

/// What is known of the processes that may be the kernel of a data directory.
#[derive(Debug)]
pub struct KernelEvidence {
    /// The record of the kernel that was started.
    pub record: Option<PidRecord>,
    /// The command line of the recorded process.
    pub record_command: Option<String>,
    /// Who listens on the recorded port.
    pub record_listener: Option<u32>,
    /// Whether the configured port answers.
    pub port_open: bool,
    /// Who listens on the configured port.
    pub listener: Option<u32>,
    /// The command line of that process.
    pub listener_command: Option<String>,
    /// Who listens on the configured port when asked again.
    pub listener_again: Option<u32>,
}

/// The kernel of the data directory: the recorded process where it still is
/// that kernel, or else the listener on the configured port where it is one.
pub open spec fn kernel_pid(e: KernelEvidence, port: u16) -> Option<u32> {
    if e.record matches Some(rec) && is_kernel(
        rec.pid,
        rec.port,
        text::opt_text(e.record_command),
        e.record_listener,
    ) {
        Some((e.record->0).pid)
    } else if e.port_open && e.listener is Some && is_kernel(
        e.listener->0,
        Some(port),
        text::opt_text(e.listener_command),
        e.listener_again,
    ) {
        e.listener
    } else {
        None
    }
}

fn as_opt_str(o: &Option<String>) -> (r: Option<&str>)
    ensures
        (match r {
            Some(s) => Some(s@),
            None => None,
        }) == text::opt_text(*o),
{
    match o {
        Some(s) => Some(s.as_str()),
        None => None,
    }
}

/// The process of the kernel that belongs to the data directory. The record
/// counts first, whatever port is configured by now.
pub fn workbench_pid(evidence: &KernelEvidence, port: u16) -> (r: Option<u32>)
    ensures
        r == kernel_pid(*evidence, port),
{
    match evidence.record {
        Some(rec) => {
            if pid_is_kernel(
                rec.pid,
                rec.port,
                as_opt_str(&evidence.record_command),
                evidence.record_listener,
            ) {
                return Some(rec.pid);
            }
        },
        None => {},
    }
    if evidence.port_open {
        match evidence.listener {
            Some(pid) => {
                if pid_is_kernel(
                    pid,
                    Some(port),
                    as_opt_str(&evidence.listener_command),
                    evidence.listener_again,
                ) {
                    return Some(pid);
                }
            },
            None => {},
        }
    }
    None
}

/// Whether the workbench runs.
pub fn workbench_running(evidence: &KernelEvidence, port: u16) -> (r: bool)
    ensures
        r == (kernel_pid(*evidence, port) is Some),
{
    workbench_pid(evidence, port).is_some()
}

/// A process whose command line is not the kernel's is never taken for the
/// workbench, whatever port it holds; nor is a recorded kernel that was given
/// another port than the record says.
pub proof fn law_strangers_are_not_the_workbench(e: KernelEvidence, port: u16)
    ensures
        kernel_pid(e, port) matches Some(pid) ==> {
            ||| e.record matches Some(rec) && rec.pid == pid && e.record_command is Some
                && kernel_command((e.record_command->0)@) && (rec.port matches Some(p)
                ==> port_argument(text::words_text(plain_command((e.record_command->0)@)), 0)
                == Some(text::decimal_text(p as nat)))
            ||| e.port_open && e.listener == Some(pid) && e.listener_command is Some
                && kernel_command((e.listener_command->0)@) && port_argument(
                text::words_text(plain_command((e.listener_command->0)@)),
                0,
            ) == Some(text::decimal_text(port as nat))
        },
{
}

// ------------------------------------------------------------------ starting

/// The arguments that start a kernel.
pub open spec fn start_args(bin: Seq<char>, port: u16) -> Seq<Seq<char>> {
    seq![bin, "web"@, "--no-open"@, "--port"@, text::decimal_text(port as nat)]
}

/// The arguments that start a kernel version: refused where its entry is
/// missing or its port is taken.
pub fn start(bin: &str, bin_ready: bool, port_open: bool, version: &str, port: u16) -> (r: Result<
    Vec<String>,
    AppError,
>)
    ensures
        r is Ok <==> bin_ready && !port_open,
        r matches Ok(args) ==> text::texts(args@) == start_args(bin@, port),
        r matches Err(e) ==> e@ == ErrorModel::Kernel(
            if !bin_ready {
                "版本 "@ + version@ + " 未安装或安装不完整"@
            } else {
                "端口 "@ + text::decimal_text(port as nat) + " 已被占用，可能已有内核在运行"@
            },
        ),
{
    if !bin_ready {
        return Err(
            AppError::Kernel(text::cat3("版本 ", version, " 未安装或安装不完整")),
        );
    }
    if port_open {
        return Err(
            AppError::Kernel(
                text::cat3(
                    "端口 ",
                    text::decimal(port as u64).as_str(),
                    " 已被占用，可能已有内核在运行",
                ),
            ),
        );
    }
    Ok(launch_args(bin, port))
}

/// The arguments that start a kernel.
pub fn launch_args(bin: &str, port: u16) -> (r: Vec<String>)
    ensures
        text::texts(r@) == start_args(bin@, port),
{
    let mut args: Vec<String> = Vec::new();
    args.push(text::owned(bin));
    args.push(text::owned("web"));
    args.push(text::owned("--no-open"));
    args.push(text::owned("--port"));
    args.push(text::decimal(port as u64));
    proof {
        assert(text::texts(args@) =~= start_args(bin@, port));
    }
    args
}

/// Reports on a kernel that was to be started: its process could not be made,
/// or its output could not be taken over.
pub fn start_outcome(spawn_error: Option<&str>, log_error: Option<&str>) -> (r: Result<
    (),
    AppError,
>)
    ensures
        r is Ok <==> spawn_error is None && log_error is None,
        r matches Err(e) ==> e@ == ErrorModel::Io(
            match spawn_error {
                Some(s) => "无法启动内核："@ + s@,
                None => "无法接管内核日志："@ + (log_error->0)@,
            },
        ),
{
    match spawn_error {
        Some(e) => {
            return Err(AppError::Io(text::cat2("无法启动内核：", e)));
        },
        None => {},
    }
    match log_error {
        Some(e) => Err(AppError::Io(text::cat2("无法接管内核日志：", e))),
        None => Ok(()),
    }
}

/// What starting the workbench comes down to.
#[derive(Debug)]
pub enum StartPlan {
    /// The kernel of this data directory serves already.
    AlreadyServing,
    /// Start this version.
    Start(String),
}

/// What the refusal says about the process that holds the port.
pub open spec fn owner_text(owner: Option<u32>) -> Seq<char> {
    match owner {
        Some(pid) => "，占用者 pid "@ + text::decimal_text(pid as nat),
        None => Seq::empty(),
    }
}

/// What starting the workbench comes down to: nothing where its kernel serves
/// already, a version to start, or a refusal.
pub open spec fn start_choice(port_open: bool, running: bool, active: Option<Seq<char>>) -> Option<
    Option<Seq<char>>,
> {
    if port_open {
        if running {
            Some(None)
        } else {
            None
        }
    } else {
        match active {
            Some(v) => Some(Some(v)),
            None => None,
        }
    }
}

/// Decides how the workbench is started. A port that answers is well only
/// where the kernel of this data directory has it.
pub fn start_maybe(
    port: u16,
    port_open: bool,
    running: bool,
    owner: Option<u32>,
    active: Option<String>,
) -> (r: Result<StartPlan, AppError>)
    ensures
        match r {
            Ok(StartPlan::AlreadyServing) => port_open && running,
            Ok(StartPlan::Start(v)) => !port_open && active == Some(v),
            Err(e) => !(port_open && running) && (port_open || active is None) && e@
                == ErrorModel::Kernel(
                if port_open {
                    "端口 "@ + text::decimal_text(port as nat) + " 已被其它进程占用"@ + owner_text(owner)
                        + "，无法启动工作台。请在设置页改用其它端口，或先释放该端口"@
                } else {
                    "尚未选择内核版本，请先在“更新”页安装并切换到某一版本"@
                },
            ),
        },
        (match r {
            Ok(StartPlan::AlreadyServing) => Some(None),
            Ok(StartPlan::Start(v)) => Some(Some(v@)),
            Err(_) => None,
        }) == start_choice(port_open, running, text::opt_text(active)),
{
    if port_open {
        if running {
            return Ok(StartPlan::AlreadyServing);
        }
        let who = match owner {
            Some(pid) => text::cat2("，占用者 pid ", text::decimal(pid as u64).as_str()),
            None => String::new(),
        };
        return Err(
            AppError::Kernel(
                text::cat5(
                    "端口 ",
                    text::decimal(port as u64).as_str(),
                    " 已被其它进程占用",
                    who.as_str(),
                    "，无法启动工作台。请在设置页改用其它端口，或先释放该端口",
                ),
            ),
        );
    }
    match active {
        Some(v) => Ok(StartPlan::Start(v)),
        None => Err(
            AppError::Kernel(
                text::owned("尚未选择内核版本，请先在“更新”页安装并切换到某一版本"),
            ),
        ),
    }
}

// ------------------------------------------------------------------ stopping

/// A line of the process list that runs a kernel's web server.
pub open spec fn orphan_line(line: Seq<char>) -> bool {
    text::has(line, "@deepseek-ai/dsh/lib/bin.js"@) && text::has(line, " web "@)
}

/// How many lines were looked at, and the processes that they name, other than
/// the shell itself. Only so many lines are looked at.
pub open spec fn orphans_in(lines: Seq<Seq<char>>, own_pid: u32) -> (nat, Seq<nat>)
    decreases lines.len(),
{
    if lines.len() == 0 {
        (0, Seq::empty())
    } else {
        let (seen, pids) = orphans_in(lines.drop_last(), own_pid);
        let line = lines.last();
        if seen >= MAX_ORPHAN_CANDIDATES || !orphan_line(line) {
            (seen, pids)
        } else {
            let w = text::words_text(line);
            let named = if w.len() > 0 {
                text::number_in(w[0], u32::MAX as nat)
            } else {
                None
            };
            match named {
                Some(pid) if pid != own_pid => (seen + 1, pids.push(pid)),
                _ => (seen + 1, pids),
            }
        }
    }
}

/// The content of a list of process ids.
pub open spec fn pids_of(v: Seq<u32>) -> Seq<nat> {
    v.map_values(|p: u32| p as nat)
}

fn first_pid(line: &str) -> (r: Option<u32>)
    ensures
        opt_pid(r) == ({
            let w = text::words_text(line@);
            if w.len() > 0 {
                text::number_in(w[0], u32::MAX as nat)
            } else {
                None
            }
        }),
{
    let w = text::words(line);
    proof {
        assert(text::texts(w@).len() == w@.len());
    }
    if w.len() == 0 {
        return None;
    }
    proof {
        assert(text::texts(w@)[0] == w@[0]@);
    }
    parse_pid(w[0].as_str())
}

/// The processes that may be kernels left behind by an earlier shell, by the
/// output of `ps -eo pid,command`. Each is ended only where its working
/// directory is the data directory.
pub fn reap_orphans(process_list: &str, own_pid: u32) -> (r: Vec<u32>)
    ensures
        pids_of(r@) == orphans_in(text::lines_text(process_list@), own_pid).1,
{
    let all = text::lines(process_list);
    let ghost lt = text::lines_text(process_list@);
    let mut out: Vec<u32> = Vec::new();
    let mut seen: usize = 0;
    let mut i: usize = 0;
    proof {
        assert(lt.take(0) =~= Seq::<Seq<char>>::empty());
        assert(pids_of(out@) =~= Seq::<nat>::empty());
    }
    while i < all.len()
        invariant
            i <= all.len(),
            text::texts(all@) == lt,
            seen <= MAX_ORPHAN_CANDIDATES,
            orphans_in(lt.take(i as int), own_pid) == (seen as nat, pids_of(out@)),
        decreases all.len() - i,
    {
        let line = all[i].as_str();
        proof {
            let next = lt.take(i + 1);
            assert(next.drop_last() =~= lt.take(i as int));
            assert(next.last() == line@) by {
                assert(text::texts(all@)[i as int] == all@[i as int]@);
            }
        }
        if seen < MAX_ORPHAN_CANDIDATES && text::contains(line, "@deepseek-ai/dsh/lib/bin.js")
            && text::contains(line, " web ") {
            seen = seen + 1;
            match first_pid(line) {
                Some(pid) => {
                    if pid != own_pid {
                        proof {
                            assert(pids_of(out@.push(pid)) =~= pids_of(out@).push(pid as nat));
                        }
                        out.push(pid);
                    }
                },
                None => {},
            }
        }
        i = i + 1;
    }
    proof {
        assert(lt.take(lt.len() as int) =~= lt);
    }
    out
}

/// The first line, from index `k` on, that begins with `n`, without it.
pub open spec fn named_dir_from(lines: Seq<Seq<char>>, k: int) -> Option<Seq<char>>
    decreases lines.len() - k,
{
    if k < 0 || k >= lines.len() {
        None
    } else if lines[k].len() > 0 && lines[k][0] == 'n' {
        Some(lines[k].drop_first())
    } else {
        named_dir_from(lines, k + 1)
    }
}

/// The working directory of a process, by the output of `lsof -d cwd -Fn`.
pub fn lsof_working_dir(output: &str) -> (r: Option<String>)
    ensures
        text::opt_text(r) == named_dir_from(text::lines_text(output@), 0),
{
    let all = text::lines(output);
    let mut i: usize = 0;
    while i < all.len()
        invariant
            i <= all.len(),
            text::texts(all@) == text::lines_text(output@),
            named_dir_from(text::lines_text(output@), 0) == named_dir_from(
                text::lines_text(output@),
                i as int,
            ),
        decreases all.len() - i,
    {
        let lc = text::chars_of(all[i].as_str());
        proof {
            assert(text::texts(all@)[i as int] == all@[i as int]@);
        }
        if lc.len() > 0 && lc[0] == 'n' {
            let dir = text::string_of(&lc, 1, lc.len());
            proof {
                assert(dir@ =~= lc@.drop_first());
            }
            return Some(dir);
        }
        i = i + 1;
    }
    None
}

/// What is known of a process that is to end.
#[derive(Debug)]
pub enum KillEvent {
    /// Its command line, and who listens on the kernel's port.
    Identified { command: Option<String>, listener: Option<u32> },
    /// It was asked to end and looked at so many times; whether it is there
    /// still.
    Looked { polls: u32, alive: bool },
}

/// What is next for a process that is to end.
#[derive(Debug, Clone, Copy, PartialEq, Eq, Structural)]
pub enum KillAction {
    /// It is not the kernel: nothing is done to it.
    Leave,
    /// Ask its group to end.
    Terminate,
    /// Wait and look again.
    Wait,
    /// Kill its group.
    Kill,
    /// It is gone.
    Done,
}

/// What is next for a process that is to end.
pub open spec fn kill_action(pid: u32, port: Option<u16>, event: KillEvent) -> KillAction {
    match event {
        KillEvent::Identified { command, listener } => if is_kernel(
            pid,
            port,
            text::opt_text(command),
            listener,
        ) {
            KillAction::Terminate
        } else {
            KillAction::Leave
        },
        KillEvent::Looked { polls, alive } => if !alive {
            KillAction::Done
        } else if polls >= STOP_POLLS {
            KillAction::Kill
        } else {
            KillAction::Wait
        },
    }
}

/// Ends a process that is the kernel, and no other: it is asked to end, waited
/// for `STOP_POLLS` times, and killed if it is still there.
pub fn kill_pid(pid: u32, port: Option<u16>, event: &KillEvent) -> (r: KillAction)
    ensures
        r == kill_action(pid, port, *event),
{
    match event {
        KillEvent::Identified { command, listener } => {
            if pid_is_kernel(pid, port, as_opt_str(command), *listener) {
                KillAction::Terminate
            } else {
                KillAction::Leave
            }
        },
        KillEvent::Looked { polls, alive } => {
            if !*alive {
                KillAction::Done
            } else if *polls >= STOP_POLLS {
                KillAction::Kill
            } else {
                KillAction::Wait
            }
        },
    }
}

/// Only a process with the kernel's command line is asked to end; and where the
/// kernel's port is known, only one that was given that port and that nobody
/// else listens for.
pub proof fn law_only_the_kernel_is_ended(pid: u32, port: Option<u16>, event: KillEvent)
    requires
        event is Identified,
    ensures
        kill_action(pid, port, event) == KillAction::Terminate ==> {
            let command = event->command;
            &&& command is Some
            &&& kernel_command((command->0)@)
            &&& port matches Some(p) ==> port_argument(
                text::words_text(plain_command((command->0)@)),
                0,
            ) == Some(text::decimal_text(p as nat)) && (event->listener is None || event->listener
                == Some(pid))
        },
        kill_action(pid, port, event) != KillAction::Terminate ==> kill_action(pid, port, event)
            == KillAction::Leave,
{
}

/// Reports on a stop. It failed only where the process is known to be there
/// still; a question that could not be asked is no sign of that.
pub fn stop(pid: u32, state: ProcessState) -> (r: Result<(), AppError>)
    ensures
        r is Ok <==> state != ProcessState::Alive,
        r matches Err(e) ==> e@ == ErrorModel::Kernel(
            "无法停止内核进程 "@ + text::decimal_text(pid as nat)
                + "：已发送终止信号但进程仍然存在（可能被系统或安全软件保护）。             请在任务管理器里结束它后重试；不确定时先用「查看日志」确认它是否仍在服务"@,
        ),
{
    if state == ProcessState::Alive {
        return Err(
            AppError::Kernel(
                text::cat3(
                    "无法停止内核进程 ",
                    text::decimal(pid as u64).as_str(),
                    "：已发送终止信号但进程仍然存在（可能被系统或安全软件保护）。             请在任务管理器里结束它后重试；不确定时先用「查看日志」确认它是否仍在服务",
                ),
            ),
        );
    }
    Ok(())
}

/// A row of `netstat` that lists a listener on a port names its process, and
/// with the same row nobody listens on another port.
pub proof fn law_netstat_rows_name_the_listener(
    protocol: Seq<char>,
    address: Seq<char>,
    remote: Seq<char>,
    pid: u32,
    port: u16,
    other: u16,
)
    requires
        text::lower_text(protocol) == "tcp"@,
        remote.len() > 0,
        forall|i: int| 0 <= i < address.len() ==> !text::is_white(#[trigger] address[i]),
        forall|i: int| 0 <= i < remote.len() ==> !text::is_white(#[trigger] remote[i]),
    ensures
        ({
            let line = text::join_text(
                seq![
                    protocol,
                    address + ":"@ + text::decimal_text(port as nat),
                    remote,
                    "LISTENING"@,
                    text::decimal_text(pid as nat),
                ],
                seq![' '],
            );
            netstat_row(line, port) == Some(pid as nat) && (other != port ==> netstat_row(
                line,
                other,
            ) is None)
        }),
{
    reveal_strlit("TCP");
    reveal_strlit(":");
    reveal_strlit("LISTENING");
    let p = text::decimal_text(port as nat);
    let d = text::decimal_text(pid as nat);
    let local = address + ":"@ + p;
    let words = seq![protocol, local, remote, "LISTENING"@, d];
    reveal_strlit("tcp");
    assert(text::lower_text(protocol).len() == protocol.len());
    assert("tcp"@.len() == 3);
    assert forall|i: int| 0 <= i < 3 implies !text::is_white(#[trigger] protocol[i]) by {
        assert(text::lower_text(protocol)[i] == "tcp"@[i]);
        text::law_small_letters(protocol, i);
    }
    assert(text::lower_text("TCP"@) =~= "tcp"@) by {
        assert forall|i: int| 0 <= i < 3 implies text::lower_text("TCP"@)[i] == "tcp"@[i] by {
            text::law_small_letters("TCP"@, i);
            assert("TCP"@[i] as int + 32 == "tcp"@[i] as int);
        }
    }
    text::lemma_decimal_value(port as nat);
    text::lemma_decimal_value(pid as nat);
    text::lemma_decimal_value(other as nat);
    assert forall|k: int| 0 <= k < words.len() implies (#[trigger] words[k]).len() > 0 by {}
    assert forall|k: int, i: int|
        0 <= k < words.len() && 0 <= i < words[k].len() implies !text::is_white(
        #[trigger] words[k][i],
    ) by {
        if k == 0 {
            assert(!text::is_white(protocol[i]));
        } else if k == 1 {
            if i < address.len() {
                assert(!text::is_white(address[i]));
            } else if i > address.len() {
                assert(text::is_digit(p[i - address.len() - 1]));
            }
        } else if k == 2 {
            assert(!text::is_white(remote[i]));
        } else if k == 4 {
            assert(text::is_digit(d[i]));
        }
    }
    text::law_words_are_read_apart(words, ' ');
    let n = address.len() as int;
    assert(local.subrange(n, local.len() as int) =~= ":"@ + p);
    text::lemma_number_of_decimal(pid as nat, u32::MAX as nat);
    let line = text::join_text(words, seq![' ']);
    assert(text::words_text(line) == words);
    if other != port {
        let q = text::decimal_text(other as nat);
        let want = ":"@ + q;
        if text::ends(local, want) {
            let at = local.len() - want.len();
            let got = local.subrange(at, local.len() as int);
            assert(got == want);
            assert(":"@[0] == ':');
            assert(want[0] == ':');
            assert(got[0] == want[0]);
            assert(got[0] == local[at]);
            if q.len() < p.len() {
                assert(local[at] == p[at - n - 1]);
                assert(text::is_digit(p[at - n - 1]));
            } else if q.len() > p.len() {
                assert(want[n - at] == q[n - at - 1]);
                assert(local[n] == ':');
                assert(got[n - at] == ':');
                assert(text::is_digit(q[n - at - 1]));
            } else {
                assert(q =~= p) by {
                    assert forall|i: int| 0 <= i < q.len() implies q[i] == p[i] by {
                        assert(want[i + 1] == got[i + 1]);
                    }
                }
                text::law_decimals_tell_numbers_apart(port as nat, other as nat);
            }
            assert(false);
        }
    }
}

/// The first line that names a listener counts, whatever stands after it.
pub proof fn law_the_first_listener_counts(lines: Seq<Seq<char>>, port: u16, k: int)
    ensures
        0 <= k < lines.len() && netstat_row(lines[k], port) is Some && (forall|j: int|
            0 <= j < k ==> netstat_row(#[trigger] lines[j], port) is None) ==> netstat_from(
            lines,
            port,
            0,
        ) == netstat_row(lines[k], port),
        (forall|j: int| 0 <= j < lines.len() ==> netstat_row(#[trigger] lines[j], port) is None)
            ==> netstat_from(lines, port, 0) is None,
        0 <= k < lines.len() && ss_row(lines[k]) is Some && (forall|j: int|
            0 <= j < k ==> ss_row(#[trigger] lines[j]) is None) ==> ss_from(lines, 0) == ss_row(
            lines[k],
        ),
{
    if 0 <= k < lines.len() && (forall|j: int|
        0 <= j < k ==> netstat_row(#[trigger] lines[j], port) is None) {
        lemma_netstat_skip(lines, port, 0, k);
    }
    if forall|j: int| 0 <= j < lines.len() ==> netstat_row(#[trigger] lines[j], port) is None {
        lemma_netstat_skip(lines, port, 0, lines.len() as int);
    }
    if 0 <= k < lines.len() && (forall|j: int| 0 <= j < k ==> ss_row(#[trigger] lines[j]) is None) {
        lemma_ss_skip(lines, 0, k);
    }
}

proof fn lemma_netstat_skip(lines: Seq<Seq<char>>, port: u16, from: int, k: int)
    requires
        0 <= from <= k <= lines.len(),
        forall|j: int| from <= j < k ==> netstat_row(#[trigger] lines[j], port) is None,
    ensures
        netstat_from(lines, port, from) == netstat_from(lines, port, k),
    decreases k - from,
{
    if from < k {
        lemma_netstat_skip(lines, port, from + 1, k);
    }
}

proof fn lemma_ss_skip(lines: Seq<Seq<char>>, from: int, k: int)
    requires
        0 <= from <= k <= lines.len(),
        forall|j: int| from <= j < k ==> ss_row(#[trigger] lines[j]) is None,
    ensures
        ss_from(lines, from) == ss_from(lines, k),
    decreases k - from,
{
    if from < k {
        lemma_ss_skip(lines, from + 1, k);
    }
}

/// `ss` names a process by its first `pid=`; `lsof` by its first line.
pub proof fn law_tools_name_the_listener(
    head: Seq<char>,
    pid: u32,
    rest: Seq<char>,
    more: Seq<char>,
)
    requires
        rest.len() > 0 ==> !text::is_digit(rest[0]),
        forall|i: int|
            0 <= i < head.len() ==> !text::occurs_at(
                head + "pid="@ + text::decimal_text(pid as nat) + rest,
                "pid="@,
                i,
            ),
    ensures
        ss_row(head + "pid="@ + text::decimal_text(pid as nat) + rest) == Some(pid as nat),
        lsof_pid(text::decimal_text(pid as nat) + seq!['\n'] + more) == Some(pid as nat),
{
    reveal_strlit("pid=");
    let d = text::decimal_text(pid as nat);
    let s = head + "pid="@ + d + rest;
    let n = head.len() as int;
    text::lemma_decimal_value(pid as nat);
    assert(s.subrange(n, n + 4) =~= "pid="@);
    text::lemma_first_from(s, "pid="@, 0);
    assert(text::first_from(s, "pid="@, 0) == Some(n)) by {
        let f = text::first_from(s, "pid="@, 0);
        assert(text::occurs_at(s, "pid="@, n));
    }
    let tail = s.skip(n + 4);
    assert(tail =~= d + rest);
    lemma_run_of_digits(d, rest);
    assert(tail.take(d.len() as int) =~= d);
    text::lemma_number_of_decimal(pid as nat, u32::MAX as nat);
    assert forall|i: int| 0 <= i < d.len() implies (#[trigger] d[i]) != '\n' by {
        assert(text::is_digit(d[i]));
    }
    text::law_line_feeds_end_lines(d, more, d);
    assert(text::is_digit(d[d.len() - 1]));
    assert(text::is_digit(d[0]));
    assert(text::lines_text(d + seq!['\n'] + more)[0] == d);
    assert(text::trim_text(d) == d) by {
        let f = |c: char| text::is_white(c);
        assert(!f(d[0]));
        assert(!f(d.last()));
    }
}

proof fn lemma_run_of_digits(d: Seq<char>, rest: Seq<char>)
    requires
        text::all_digits(d),
        rest.len() > 0 ==> !text::is_digit(rest[0]),
    ensures
        digit_run(d + rest) == d.len(),
    decreases d.len(),
{
    let s = d + rest;
    if d.len() > 0 {
        assert(text::is_digit(d[0]));
        assert(text::all_digits(d.drop_first())) by {
            assert forall|i: int| 0 <= i < d.drop_first().len() implies text::is_digit(
                #[trigger] d.drop_first()[i],
            ) by {
                assert(text::is_digit(d[i + 1]));
            }
        }
        lemma_run_of_digits(d.drop_first(), rest);
        assert(s.drop_first() =~= d.drop_first() + rest);
    } else {
        assert(s =~= rest);
    }
}

/// A command line that runs the kernel's entry is the kernel's, whatever stands
/// round it; the case of letters and the kind of slashes do not matter.
pub proof fn law_the_entry_makes_the_kernel(head: Seq<char>, rest: Seq<char>, command: Seq<char>)
    ensures
        kernel_command(head + "@deepseek-ai/dsh/lib/bin.js"@ + rest),
        kernel_command(plain_command(command)) == kernel_command(command),
        kernel_command(command) ==> text::has(
            plain_command(command),
            "@deepseek-ai/dsh/lib/bin.js"@,
        ),
        plain_command(command).len() == command.len(),
{
    let bin = "@deepseek-ai/dsh/lib/bin.js"@;
    reveal_strlit("@deepseek-ai/dsh/lib/bin.js");
    let s = head + bin + rest;
    let p = plain_command(s);
    let n = head.len() as int;
    assert(p.subrange(n, n + bin.len()) =~= bin) by {
        assert forall|i: int| 0 <= i < bin.len() implies p[n + i] == bin[i] by {
            assert(s[n + i] == bin[i]);
            assert(!('A' <= bin[i] <= 'Z') && bin[i] != '\\');
        }
    }
    assert(text::occurs_at(p, bin, n));
    assert(plain_command(plain_command(command)) =~= plain_command(command)) by {
        assert forall|i: int| 0 <= i < command.len() implies plain_command(plain_command(command))[i]
            == plain_command(command)[i] by {
            text::law_small_letters(command, i);
            text::law_small_letters(text::lower_text(command), i);
            text::law_small_letters(plain_command(command), i);
            text::law_small_letters(text::lower_text(plain_command(command)), i);
        }
    }
}

/// Without a port to ask for, the command line decides. With one, the process
/// must have been given that port, and nobody else may listen on it: the same
/// process is never the kernel of two ports.
pub proof fn law_a_kernel_has_one_port(
    pid: u32,
    p: u16,
    q: u16,
    command: Option<Seq<char>>,
    listener: Option<u32>,
)
    ensures
        is_kernel(pid, None, command, listener) <==> command is Some && kernel_command(command->0),
        is_kernel(pid, Some(p), command, listener) ==> is_kernel(pid, None, command, listener),
        is_kernel(pid, Some(p), command, listener) && is_kernel(pid, Some(q), command, listener)
            ==> p == q,
        listener is Some && listener != Some(pid) ==> !is_kernel(pid, Some(p), command, listener),
        is_kernel(pid, Some(p), command, None) ==> is_kernel(pid, Some(p), command, Some(pid)),
        command is None ==> !is_kernel(pid, Some(p), command, listener),
{
    text::law_decimals_tell_numbers_apart(p as nat, q as nat);
}

/// The port that a kernel is started with is the port that its arguments give.
pub proof fn law_kernels_are_started_with_their_port(node: Seq<char>, bin: Seq<char>, port: u16)
    requires
        unquoted(node) != "--port"@,
        !text::begins(unquoted(node), "--port="@),
        unquoted(bin) != "--port"@,
        !text::begins(unquoted(bin), "--port="@),
    ensures
        port_argument(seq![node] + start_args(bin, port), 0) == Some(text::decimal_text(port as nat)),
        start_args(bin, port)[0] == bin,
        start_args(bin, port)[1] == "web"@,
        start_args(bin, port).contains("--no-open"@),
        start_args(bin, port).len() == 5,
{
    reveal_strlit("web");
    reveal_strlit("--no-open");
    reveal_strlit("--port");
    reveal_strlit("--port=");
    let args = seq![node] + start_args(bin, port);
    let d = text::decimal_text(port as nat);
    text::lemma_decimal_value(port as nat);
    assert(start_args(bin, port)[2] == "--no-open"@);
    assert(args[0] == node && args[1] == bin && args[2] == "web"@ && args[3] == "--no-open"@
        && args[4] == "--port"@ && args[5] == d);
    lemma_unquoted_same("web"@);
    lemma_unquoted_same("--no-open"@);
    lemma_unquoted_same("--port"@);
    assert(text::is_digit(d[0]));
    assert(text::is_digit(d[d.len() - 1]));
    lemma_unquoted_same(d);
    assert("--no-open"@[2] == 'n' && "--port="@[2] == 'p');
    assert(!text::begins("--no-open"@, "--port="@)) by {
        if text::begins("--no-open"@, "--port="@) {
            assert("--no-open"@.subrange(0, 7)[2] == "--no-open"@[2]);
        }
    }
    assert(!text::begins("web"@, "--port="@));
    assert("--no-open"@ != "--port"@);
    assert("web"@ != "--port"@);
    reveal_with_fuel(port_argument, 6);
}

proof fn lemma_unquoted_same(s: Seq<char>)
    requires
        s.len() > 0,
        s[0] != '"',
        s.last() != '"',
    ensures
        unquoted(s) == s,
{
    let f = |c: char| c == '"';
    assert(!f(s[0]));
    assert(!f(s.last()));
}

/// The recorded process counts first: where it still is the kernel that was
/// recorded, it is the workbench, whatever port is configured and whoever
/// listens there.
pub proof fn law_the_record_counts_first(e: KernelEvidence, port: u16, other: u16)
    requires
        e.record matches Some(rec) && is_kernel(
            rec.pid,
            rec.port,
            text::opt_text(e.record_command),
            e.record_listener,
        ),
    ensures
        kernel_pid(e, port) == Some((e.record->0).pid),
        kernel_pid(e, port) == kernel_pid(e, other),
{
}

/// Without a record that holds, the listener on the configured port is the
/// workbench where the port answers and that process is the kernel given that
/// port; otherwise there is no workbench.
pub proof fn law_the_listener_stands_in(e: KernelEvidence, port: u16)
    requires
        e.record matches Some(rec) ==> !is_kernel(
            rec.pid,
            rec.port,
            text::opt_text(e.record_command),
            e.record_listener,
        ),
    ensures
        !e.port_open || e.listener is None ==> kernel_pid(e, port) is None,
        kernel_pid(e, port) is Some ==> kernel_pid(e, port) == e.listener,
        e.port_open && (e.listener matches Some(pid) && is_kernel(
            pid,
            Some(port),
            text::opt_text(e.listener_command),
            e.listener_again,
        )) ==> kernel_pid(e, port) == e.listener,
{
}

/// A process that was asked to end is waited for ten looks, and killed where it
/// is there still; one that is gone is left.
pub proof fn law_ending_goes_on_until_it_is_gone(pid: u32, port: Option<u16>, polls: u32)
    ensures
        kill_action(pid, port, KillEvent::Looked { polls, alive: false }) == KillAction::Done,
        polls < 10 ==> kill_action(pid, port, KillEvent::Looked { polls, alive: true })
            == KillAction::Wait,
        polls >= 10 ==> kill_action(pid, port, KillEvent::Looked { polls, alive: true })
            == KillAction::Kill,
{
}

/// A process that is the kernel is asked to end.
pub proof fn law_the_kernel_is_ended(
    pid: u32,
    port: Option<u16>,
    command: Option<String>,
    listener: Option<u32>,
)
    ensures
        kill_action(pid, port, KillEvent::Identified { command, listener }) == KillAction::Terminate
            <==> is_kernel(pid, port, text::opt_text(command), listener),
{
}

/// The line runs a kernel's web server and begins with the id of its process.
pub open spec fn lists_kernel(line: Seq<char>, pid: nat) -> bool {
    &&& text::has(line, "@deepseek-ai/dsh/lib/bin.js"@)
    &&& text::has(line, " web "@)
    &&& text::words_text(line).len() > 0
    &&& text::number_in(text::words_text(line)[0], u32::MAX as nat) == Some(pid)
}

/// Whatever is taken for a left-over kernel is listed as one, and is not the
/// shell itself; and every kernel that is listed is found, as long as no more
/// than 256 lines are.
pub proof fn law_left_over_kernels_are_found(lines: Seq<Seq<char>>, own_pid: u32)
    ensures
        forall|k: int|
            #![trigger orphans_in(lines, own_pid).1[k]]
            0 <= k < orphans_in(lines, own_pid).1.len() ==> orphans_in(lines, own_pid).1[k]
                != own_pid && exists|j: int|
                0 <= j < lines.len() && lists_kernel(
                    #[trigger] lines[j],
                    orphans_in(lines, own_pid).1[k],
                ),
        orphans_in(lines, own_pid).0 <= 256,
        orphans_in(lines, own_pid).0 <= lines.len(),
        lines.len() <= 256 ==> forall|j: int, pid: nat|
            0 <= j < lines.len() && pid != own_pid && #[trigger] lists_kernel(lines[j], pid)
                ==> orphans_in(lines, own_pid).1.contains(pid),
    decreases lines.len(),
{
    if lines.len() > 0 {
        let init = lines.drop_last();
        let last = lines.len() - 1;
        law_left_over_kernels_are_found(init, own_pid);
        let before = orphans_in(init, own_pid).1;
        let out = orphans_in(lines, own_pid).1;
        assert forall|k: int| 0 <= k < out.len() implies (#[trigger] out[k]) != own_pid && exists|
            j: int,
        | 0 <= j < lines.len() && lists_kernel(#[trigger] lines[j], out[k]) by {
            if k < before.len() {
                assert(out[k] == before[k]);
                let j = choose|j: int|
                    0 <= j < init.len() && lists_kernel(#[trigger] init[j], before[k]);
                assert(lists_kernel(lines[j], out[k]));
            } else {
                assert(lists_kernel(lines[last], out[k]));
            }
        }
        if lines.len() <= 256 {
            assert forall|j: int, pid: nat|
                0 <= j < lines.len() && pid != own_pid && #[trigger] lists_kernel(
                    lines[j],
                    pid,
                ) implies out.contains(pid) by {
                if j < last {
                    assert(lists_kernel(init[j], pid));
                    assert(before.contains(pid));
                    let k = choose|k: int| 0 <= k < before.len() && before[k] == pid;
                    assert(out[k] == pid);
                } else {
                    assert(out[out.len() - 1] == pid);
                }
            }
        }
    }
}

/// The working directory is what the first line that begins with `n` names.
pub proof fn law_the_named_directory_is_read(lines: Seq<Seq<char>>, dir: Seq<char>, k: int)
    requires
        0 <= k < lines.len(),
        lines[k] == seq!['n'] + dir,
        forall|j: int|
            0 <= j < k ==> (#[trigger] lines[j]).len() == 0 || lines[j][0] != 'n',
    ensures
        named_dir_from(lines, 0) == Some(dir),
{
    lemma_named_skip(lines, 0, k);
    assert(lines[k].drop_first() =~= dir);
}

proof fn lemma_named_skip(lines: Seq<Seq<char>>, from: int, k: int)
    requires
        0 <= from <= k < lines.len(),
        forall|j: int|
            from <= j < k ==> (#[trigger] lines[j]).len() == 0 || lines[j][0] != 'n',
    ensures
        named_dir_from(lines, from) == named_dir_from(lines, k),
    decreases k - from,
{
    if from < k {
        lemma_named_skip(lines, from + 1, k);
    }
}

/// A port that answers never gets a second kernel: it is well where the
/// directory's own kernel has it and refused otherwise. A free port gets the
/// active version, and nothing is started without one.
pub proof fn law_no_second_kernel_is_started(
    running: bool,
    active: Option<Seq<char>>,
    version: Seq<char>,
)
    ensures
        start_choice(true, true, active) == Some(None::<Seq<char>>),
        start_choice(true, false, active) is None,
        start_choice(false, running, Some(version)) == Some(Some(version)),
        start_choice(false, running, None) is None,
{
}

/// A listener is known for a stranger only where its command line is known and
/// is not the kernel's; without a listener, or without its command line, nothing
/// is known.
pub proof fn law_strangers_are_known_by_their_command(pid: Option<u32>, command: Option<Seq<char>>)
    ensures
        identity_of(pid, command) == ListenerIdentity::Unknown <==> pid is None || command is None,
        identity_of(pid, command) == ListenerIdentity::Kernel ==> (command matches Some(c)
            && text::has(plain_command(c), "@deepseek-ai/dsh/lib/bin.js"@)),
        pid is Some && (command matches Some(c) && kernel_command(c)) ==> identity_of(pid, command)
            == ListenerIdentity::Kernel,
{
}

/// A record names its process first; the older form without a port is read as
/// that process with no port, and a text that begins with no number as none.
pub proof fn law_older_records_are_read(pid: u32, port: u16, word: Seq<char>)
    requires
        word.len() > 0,
        forall|i: int| 0 <= i < word.len() ==> !text::is_white(#[trigger] word[i]),
    ensures
        record_in(text::decimal_text(pid as nat)) == Some((pid as nat, None::<nat>)),
        text::begins(record_text(pid, port), text::decimal_text(pid as nat)),
        text::number_in(word, u32::MAX as nat) is None ==> record_in(word) is None,
        record_in(Seq::<char>::empty()) is None,
{
    let d = text::decimal_text(pid as nat);
    text::lemma_decimal_value(pid as nat);
    text::lemma_number_of_decimal(pid as nat, u32::MAX as nat);
    let one = seq![d];
    assert forall|k: int, i: int| 0 <= k < one.len() && 0 <= i < one[k].len() implies !text::is_white(
        #[trigger] one[k][i],
    ) by {
        assert(text::is_digit(d[i]));
    }
    assert(one[0].len() > 0);
    text::law_words_are_read_apart(one, ' ');
    assert(text::join_text(one, seq![' ']) == d);
    let r = record_text(pid, port);
    assert(r.subrange(0, d.len() as int) =~= d);
    let other = seq![word];
    assert forall|k: int, i: int|
        0 <= k < other.len() && 0 <= i < other[k].len() implies !text::is_white(
        #[trigger] other[k][i],
    ) by {
        assert(!text::is_white(word[i]));
    }
    assert(other[0].len() > 0);
    text::law_words_are_read_apart(other, ' ');
    assert(text::join_text(other, seq![' ']) == word);
}

} // verus!
