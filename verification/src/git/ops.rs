//! What the running of git processes decides: which stderr lines count
//! as progress, when an idle git is given up on, how a failure reads,
//! and the `GIT_ASKPASS` helper that hands a token to git.

use vstd::prelude::*;
use crate::text::{
    chars_of, contains, contains_of, decimal, decimal_of, push_all, string_of, to_ascii_lower,
    to_ascii_lower_of,
};

verus! {

broadcast use vstd::string::group_string_axioms;

// ---------------------------------------------------------------------
// Progress lines
// ---------------------------------------------------------------------

/// A line of git's stderr that reports a failure (matched on its
/// ASCII-lowercased text): it mentions `error` or `fatal`.
pub open spec fn error_line(lower: Seq<char>) -> bool {
    contains(lower, "error"@) || contains(lower, "fatal"@)
}

/// A line of git's stderr that shows a push or pull making progress
/// (matched on its ASCII-lowercased text): no error line, and one of
/// the markers of git's progress output. An error that mentions bytes
/// or deltas is no progress.
pub open spec fn push_progress_line(line: Seq<char>) -> bool {
    let lower = to_ascii_lower(line);
    !error_line(lower) && progress_marker(lower)
}

/// The markers of git's progress output, on a lowercased line.
pub open spec fn progress_marker(lower: Seq<char>) -> bool {
    ||| contains(lower, "counting objects"@)
    ||| contains(lower, "compressing objects"@)
    ||| contains(lower, "writing objects"@)
    ||| contains(lower, "receiving objects"@)
    ||| contains(lower, "remote: "@)
    ||| contains(lower, "bytes"@)
    ||| contains(lower, "delta"@)
    ||| contains(lower, "uploaded"@)
}

/// A stderr line whose lowercased text holds one of git's progress
/// markers and neither `error` nor `fatal` is progress; one whose
/// lowercased text holds `error` or `fatal` never is.
pub proof fn lemma_progress_markers(line: Seq<char>)
    ensures
        ({
            let lower = to_ascii_lower(line);
            let clean = !contains(lower, "error"@) && !contains(lower, "fatal"@);
            &&& clean && contains(lower, "counting objects"@) ==> push_progress_line(line)
            &&& clean && contains(lower, "compressing objects"@) ==> push_progress_line(line)
            &&& clean && contains(lower, "writing objects"@) ==> push_progress_line(line)
            &&& clean && contains(lower, "receiving objects"@) ==> push_progress_line(line)
            &&& clean && contains(lower, "remote: "@) ==> push_progress_line(line)
            &&& clean && contains(lower, "bytes"@) ==> push_progress_line(line)
            &&& clean && contains(lower, "delta"@) ==> push_progress_line(line)
            &&& clean && contains(lower, "uploaded"@) ==> push_progress_line(line)
            &&& !clean ==> !push_progress_line(line)
        }),
{
}

/// Whether a stderr line of git shows push or pull progress; progress
/// moves the idle deadline of the operation.
pub fn is_git_push_progress_line(line: &str) -> (b: bool)
    ensures
        b == push_progress_line(line@),
{
    let lower = to_ascii_lower_of(&chars_of(line));
    if contains_of(&lower, &chars_of("error")) || contains_of(&lower, &chars_of("fatal")) {
        return false;
    }
    contains_of(&lower, &chars_of("counting objects")) || contains_of(
        &lower,
        &chars_of("compressing objects"),
    ) || contains_of(&lower, &chars_of("writing objects")) || contains_of(
        &lower,
        &chars_of("receiving objects"),
    ) || contains_of(&lower, &chars_of("remote: ")) || contains_of(&lower, &chars_of("bytes"))
        || contains_of(&lower, &chars_of("delta")) || contains_of(&lower, &chars_of("uploaded"))
}

// ---------------------------------------------------------------------
// The idle deadline of a running git
// ---------------------------------------------------------------------

/// How long the watcher waits at most between two looks at the child.
pub const POLL_INTERVAL_MS: u64 = 100;

/// What the watcher of a running git does at time `now_ms`.
#[derive(Debug, Clone, Copy, PartialEq, Eq)]
pub enum WatchStep {
    /// The deadline passed: kill the process group and report a timeout.
    Kill,
    /// Wait this many milliseconds (or until progress or exit).
    Wait(u64),
}

/// The watcher's step: kill once the deadline is reached, else wait
/// for the rest of the time, at most one poll interval.
pub fn watch_step(deadline_ms: u64, now_ms: u64) -> (r: WatchStep)
    ensures
        now_ms >= deadline_ms ==> r == WatchStep::Kill,
        now_ms < deadline_ms ==> r == WatchStep::Wait(
            if deadline_ms - now_ms < POLL_INTERVAL_MS {
                (deadline_ms - now_ms) as u64
            } else {
                POLL_INTERVAL_MS
            },
        ),
{
    if now_ms >= deadline_ms {
        WatchStep::Kill
    } else {
        let remaining = deadline_ms - now_ms;
        if remaining < POLL_INTERVAL_MS {
            WatchStep::Wait(remaining)
        } else {
            WatchStep::Wait(POLL_INTERVAL_MS)
        }
    }
}

/// The deadline set at the start and after each progress line: the
/// idle timeout from now, in milliseconds.
pub fn idle_deadline(now_ms: u64, timeout_secs: u64) -> (d: u64)
    requires
        now_ms + timeout_secs * 1000 <= u64::MAX,
    ensures
        d == now_ms + timeout_secs * 1000,
{
    now_ms + timeout_secs * 1000
}

// ---------------------------------------------------------------------
// Failure messages
// ---------------------------------------------------------------------

/// `<label> failed in <workdir> with status <status>`, followed by
/// `: <stderr>` when git wrote to stderr.
pub open spec fn failure_message(
    label: Seq<char>,
    workdir: Seq<char>,
    status: Seq<char>,
    stderr: Seq<char>,
) -> Seq<char> {
    let head = label + " failed in "@ + workdir + " with status "@ + status;
    if stderr.len() == 0 {
        head
    } else {
        head + ": "@ + stderr
    }
}

/// The result of a finished git: `Ok` on success, else the failure
/// message (see [`failure_message`]); `status` is the exit status as
/// shown to the user.
pub fn child_status_result(
    success: bool,
    label: &str,
    workdir: &str,
    status: &str,
    stderr_output: &str,
) -> (r: Result<(), String>)
    ensures
        success ==> r is Ok,
        !success ==> (r matches Err(m) && m@ == failure_message(
            label@,
            workdir@,
            status@,
            stderr_output@,
        )),
{
    if success {
        return Ok(());
    }
    let mut v = chars_of(label);
    push_all(&mut v, &chars_of(" failed in "));
    push_all(&mut v, &chars_of(workdir));
    push_all(&mut v, &chars_of(" with status "));
    push_all(&mut v, &chars_of(status));
    let e = chars_of(stderr_output);
    if e.len() > 0 {
        push_all(&mut v, &chars_of(": "));
        push_all(&mut v, &e);
    }
    Err(string_of(&v))
}

/// `<label> timeout in <workdir> after <secs>s`.
pub open spec fn timeout_message(label: Seq<char>, workdir: Seq<char>, timeout_secs: u64) -> Seq<
    char,
> {
    label + " timeout in "@ + workdir + " after "@ + decimal(timeout_secs as nat) + "s"@
}

/// The error of a git killed at its idle deadline.
pub fn child_timeout_message(label: &str, workdir: &str, timeout_secs: u64) -> (m: String)
    ensures
        m@ == timeout_message(label@, workdir@, timeout_secs),
{
    let mut v = chars_of(label);
    push_all(&mut v, &chars_of(" timeout in "));
    push_all(&mut v, &chars_of(workdir));
    push_all(&mut v, &chars_of(" after "));
    push_all(&mut v, &decimal_of(timeout_secs));
    push_all(&mut v, &chars_of("s"));
    string_of(&v)
}

/// Adds one stderr line to what was captured: lines are joined by
/// `'\n'`.
pub fn append_stderr_line(captured: &mut String, line: &str)
    ensures
        old(captured)@.len() == 0 ==> final(captured)@ == line@,
        old(captured)@.len() > 0 ==> final(captured)@ == old(captured)@.push('\n') + line@,
{
    let mut v = chars_of(captured.as_str());
    if v.len() > 0 {
        v.push('\n');
    }
    push_all(&mut v, &chars_of(line));
    *captured = string_of(&v);
}

/// The argument of `kill` that names the process group of `pid`.
pub fn process_group_arg(pid: u32) -> (r: String)
    ensures
        r@ == seq!['-'] + decimal(pid as nat),
{
    let mut v: Vec<char> = Vec::new();
    v.push('-');
    push_all(&mut v, &decimal_of(pid as u64));
    assert(v@ =~= seq!['-'] + decimal(pid as nat));
    string_of(&v)
}

// ---------------------------------------------------------------------
// The GIT_ASKPASS helper
// ---------------------------------------------------------------------

/// `O_EXCL | O_NOFOLLOW` on Linux, the flags with which the helper
/// script is created (it must not exist, and must not be a symlink).
pub fn libc_o_excl_o_nofollow() -> (f: i32)
    ensures
        f == 0x20080,
{
    let f: i32 = 0x80 | 0x20000;
    assert((0x80i32 | 0x20000i32) == 0x20080i32) by (bit_vector);
    f
}

/// The helper script that prints `token`: `#!/bin/sh`, then `printf`
/// of the token in single quotes.
pub open spec fn askpass_script(token: Seq<char>) -> Seq<char> {
    "#!/bin/sh\nprintf '%s\\n' '"@ + token + "'\n"@
}

/// The text of the `GIT_ASKPASS` helper for `token`, or `None` when
/// the token holds a single quote, which the quoting cannot carry.
pub fn askpass_script_body(token: &str) -> (r: Option<String>)
    ensures
        r is None <==> token@.contains('\''),
        r matches Some(s) ==> s@ == askpass_script(token@),
{
    let t = chars_of(token);
    let mut i: usize = 0;
    while i < t.len()
        invariant
            i <= t@.len(),
            t@ == token@,
            forall|k: int| 0 <= k < i ==> t@[k] != '\'',
        decreases t@.len() - i,
    {
        if t[i] == '\'' {
            assert(t@[i as int] == '\'');
            return None;
        }
        i = i + 1;
    }
    let mut v = chars_of("#!/bin/sh\nprintf '%s\\n' '");
    push_all(&mut v, &t);
    push_all(&mut v, &chars_of("'\n"));
    Some(string_of(&v))
}

/// The path of a `GIT_ASKPASS` helper script; the program removes the
/// file when it is done with the push.
#[derive(Debug, Clone)]
pub struct AskpassScript {
    pub path: String,
}

impl AskpassScript {
    pub fn new(path: String) -> (s: AskpassScript)
        ensures
            s.path == path,
    {
        AskpassScript { path }
    }
}

} // verus!
