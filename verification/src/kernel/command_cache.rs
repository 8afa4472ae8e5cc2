//! The command line of a process, remembered for a moment where asking for it is
//! slow.

use vstd::prelude::*;

verus! {

/// How long a command line is remembered, in milliseconds.
pub const COMMAND_TTL_MS: u64 = 3000;

/// The command line of a process, and when it was asked for.
#[derive(Debug)]
pub struct CachedCommand {
    pub pid: u32,
    /// In milliseconds on a clock that does not go back.
    pub at_ms: u64,
    pub command: String,
}

/// The command line is remembered for this process, and not for too long.
pub open spec fn is_fresh(c: CachedCommand, pid: u32, now_ms: u64) -> bool {
    c.pid == pid && now_ms - c.at_ms < COMMAND_TTL_MS
}

/// The command line that is remembered for a process.
pub fn get(cache: &Option<CachedCommand>, pid: u32, now_ms: u64) -> (r: Option<String>)
    ensures
        match *cache {
            Some(c) if is_fresh(c, pid, now_ms) => r matches Some(s) && s@ == c.command@,
            _ => r is None,
        },
{
    match cache {
        Some(c) => {
            if c.pid == pid && (now_ms < c.at_ms || now_ms - c.at_ms < COMMAND_TTL_MS) {
                Some(c.command.clone())
            } else {
                None
            }
        },
        None => None,
    }
}

/// Remembers the command line of a process. A question that got no answer is
/// not remembered.
pub fn put(cache: &mut Option<CachedCommand>, pid: u32, now_ms: u64, value: &Option<String>)
    ensures
        match *value {
            Some(v) => *final(cache) matches Some(c) && c.pid == pid && c.at_ms == now_ms && c.command@
                == v@,
            None => *final(cache) == *old(cache),
        },
{
    match value {
        Some(v) => {
            *cache = Some(CachedCommand { pid, at_ms: now_ms, command: v.clone() });
        },
        None => {},
    }
}

/// A command line is remembered for the process that it was asked for, and for
/// three seconds: not for another, and not longer.
pub proof fn law_command_lines_are_forgotten(c: CachedCommand, pid: u32, now_ms: u64)
    ensures
        is_fresh(c, pid, now_ms) ==> c.pid == pid && now_ms < c.at_ms + 3000,
        c.pid == pid && now_ms < c.at_ms + 3000 ==> is_fresh(c, pid, now_ms),
{
}

} // verus!
