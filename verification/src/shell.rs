//! The local shell command tool: what it reports for each way a command
//! can end.

use vstd::prelude::*;
use vstd::string::*;
use crate::text::{append_str, i64_decimal, signed_decimal, trim, trim_str, u64_decimal, decimal};

verus! {

broadcast use vstd::string::group_string_axioms;

/// Local shell command execution tool: runs commands via `sh -c` with a
/// time limit.
#[derive(Debug, Clone, PartialEq)]
pub struct LocalShellTool {
    timeout_ms: u64,
}

/// `s`, or `(empty)` where `s` is empty.
pub open spec fn or_empty(s: Seq<char>) -> Seq<char> {
    if s.len() == 0 {
        "(empty)"@
    } else {
        s
    }
}

/// The command and both streams, each stream trimmed and `(empty)` where
/// it has nothing.
pub open spec fn streams_block(command: Seq<char>, out: Seq<char>, err: Seq<char>) -> Seq<char> {
    "\ncommand: "@ + command + "\nstdout:\n"@ + or_empty(out) + "\nstderr:\n"@ + or_empty(err)
}

/// The summary of a finished, failed, killed or timed-out command, from
/// its command line, its output streams (trimmed here), its exit code and
/// whether it timed out.
pub open spec fn shell_summary(
    command: Seq<char>,
    stdout: Seq<char>,
    stderr: Seq<char>,
    exit_code: Option<i32>,
    timed_out: bool,
) -> Seq<char> {
    let out = trim(stdout);
    let err = trim(stderr);
    if timed_out {
        "[Command Timed Out]"@ + streams_block(command, out, err)
    } else {
        match exit_code {
            Some(code) => if code == 0 {
                if out.len() == 0 && err.len() == 0 {
                    "Command executed successfully with no output."@
                } else if err.len() == 0 {
                    out
                } else if out.len() == 0 {
                    "stderr:\n"@ + err
                } else {
                    "stdout:\n"@ + out + "\n\nstderr:\n"@ + err
                }
            } else {
                "[Command Failed (exit code: "@ + signed_decimal(code as int) + ")]"@ + streams_block(
                    command,
                    out,
                    err,
                )
            },
            None => "[Command Terminated]"@ + streams_block(command, out, err),
        }
    }
}

fn or_empty_str(s: &str) -> (r: String)
    ensures
        r@ == or_empty(s@),
{
    if s.is_empty() {
        String::from_str("(empty)")
    } else {
        String::from_str(s)
    }
}

fn streams_block_of(command: &str, out: &str, err: &str) -> (r: String)
    ensures
        r@ == streams_block(command@, out@, err@),
{
    let mut r = String::from_str("\ncommand: ");
    append_str(&mut r, command);
    append_str(&mut r, "\nstdout:\n");
    let o = or_empty_str(out);
    append_str(&mut r, o.as_str());
    append_str(&mut r, "\nstderr:\n");
    let e = or_empty_str(err);
    append_str(&mut r, e.as_str());
    r
}

/// The summary of a command's outcome.
pub fn format_result(
    command: &str,
    stdout: &str,
    stderr: &str,
    exit_code: Option<i32>,
    timed_out: bool,
) -> (r: String)
    ensures
        r@ == shell_summary(command@, stdout@, stderr@, exit_code, timed_out),
{
    let out = trim_str(stdout);
    let err = trim_str(stderr);
    let o = out.as_str();
    let e = err.as_str();
    if timed_out {
        let mut r = String::from_str("[Command Timed Out]");
        let b = streams_block_of(command, o, e);
        append_str(&mut r, b.as_str());
        return r;
    }
    match exit_code {
        Some(code) => {
            if code == 0 {
                if o.is_empty() && e.is_empty() {
                    String::from_str("Command executed successfully with no output.")
                } else if e.is_empty() {
                    out
                } else if o.is_empty() {
                    let mut r = String::from_str("stderr:\n");
                    append_str(&mut r, e);
                    r
                } else {
                    let mut r = String::from_str("stdout:\n");
                    append_str(&mut r, o);
                    append_str(&mut r, "\n\nstderr:\n");
                    append_str(&mut r, e);
                    r
                }
            } else {
                let mut r = String::from_str("[Command Failed (exit code: ");
                let d = i64_decimal(code as i64);
                append_str(&mut r, d.as_str());
                append_str(&mut r, ")]");
                let b = streams_block_of(command, o, e);
                append_str(&mut r, b.as_str());
                r
            }
        },
        None => {
            let mut r = String::from_str("[Command Terminated]");
            let b = streams_block_of(command, o, e);
            append_str(&mut r, b.as_str());
            r
        },
    }
}

/// How a command run ended.
#[derive(Debug, Clone, PartialEq)]
pub enum ShellOutcome {
    /// The process could not be started; the error's text.
    SpawnFailed(String),
    /// Waiting for the process failed; the error's text.
    WaitFailed(String),
    /// The process ended, with its output (decoded lossily) and its exit
    /// code (none where a signal ended it).
    Exited { stdout: String, stderr: String, exit_code: Option<i32> },
    /// The time limit passed and the process was killed.
    TimedOut,
}

/// The command to run for the `command` argument: the argument trimmed,
/// none where that leaves nothing.
pub open spec fn command_of(raw: Seq<char>) -> Option<Seq<char>> {
    if trim(raw).len() == 0 {
        None
    } else {
        Some(trim(raw))
    }
}

/// What the tool answers for the outcome of `command` under a time limit
/// of `timeout_ms` milliseconds.
pub open spec fn shell_reply(command: Seq<char>, timeout_ms: u64, outcome: ShellOutcome) -> Seq<char> {
    match outcome {
        ShellOutcome::SpawnFailed(e) => "[Error]: Command execution failed: "@ + e@,
        ShellOutcome::WaitFailed(e) => "[Error]: Command execution failed: "@ + e@,
        ShellOutcome::Exited { stdout, stderr, exit_code } => shell_summary(
            command,
            stdout@,
            stderr@,
            exit_code,
            false,
        ),
        ShellOutcome::TimedOut => "[Command Timed Out after "@ + decimal(timeout_ms as nat)
            + "ms]\ncommand: "@ + command,
    }
}

impl LocalShellTool {
    /// A tool whose commands are killed after `timeout_ms` milliseconds.
    pub fn new(timeout_ms: u64) -> (r: LocalShellTool)
        ensures
            r.timeout() == timeout_ms,
    {
        LocalShellTool { timeout_ms }
    }

    pub closed spec fn timeout(&self) -> u64 {
        self.timeout_ms
    }

    /// The time limit in milliseconds.
    pub fn timeout_ms(&self) -> (r: u64)
        ensures
            r == self.timeout(),
    {
        self.timeout_ms
    }

    /// The tool's function name.
    pub fn name(&self) -> (r: &'static str)
        ensures
            r@ == "execute_command"@,
    {
        "execute_command"
    }

    /// The command to run for the raw `command` argument.
    pub fn command_from(raw: &str) -> (r: Option<String>)
        ensures
            match r {
                Some(c) => command_of(raw@) == Some(c@),
                None => command_of(raw@) is None,
            },
    {
        let c = trim_str(raw);
        if c.as_str().is_empty() {
            None
        } else {
            Some(c)
        }
    }

    /// The answer when no command was given.
    pub fn missing_command_reply() -> (r: String)
        ensures
            r@ == "[Error]: No command provided."@,
    {
        String::from_str("[Error]: No command provided.")
    }

    /// The answer for the outcome of running `command`.
    pub fn reply(&self, command: &str, outcome: &ShellOutcome) -> (r: String)
        ensures
            r@ == shell_reply(command@, self.timeout(), *outcome),
    {
        match outcome {
            ShellOutcome::SpawnFailed(e) => {
                let mut r = String::from_str("[Error]: Command execution failed: ");
                append_str(&mut r, e.as_str());
                r
            },
            ShellOutcome::WaitFailed(e) => {
                let mut r = String::from_str("[Error]: Command execution failed: ");
                append_str(&mut r, e.as_str());
                r
            },
            ShellOutcome::Exited { stdout, stderr, exit_code } => {
                format_result(command, stdout.as_str(), stderr.as_str(), *exit_code, false)
            },
            ShellOutcome::TimedOut => {
                let mut r = String::from_str("[Command Timed Out after ");
                let d = u64_decimal(self.timeout_ms);
                append_str(&mut r, d.as_str());
                append_str(&mut r, "ms]\ncommand: ");
                append_str(&mut r, command);
                r
            },
        }
    }
}

} // verus!
