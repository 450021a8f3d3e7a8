//! What comes back from running a checking tool on one fixture.

use vstd::prelude::*;

verus! {

/// Exit code that marks a run cut short by the timeout.
///
/// It lies outside the 32 bits that a process can exit with, so no tool can
/// produce it.
pub const TIMEOUT_EXIT_CODE: i64 = -0x1_0000_0000;

/// Exit code recorded for a tool that ended without one, as a process killed
/// by a signal does.
pub const KILLED_EXIT_CODE: i64 = -1;

/// Timeout of an invocation where none is asked for, in seconds.
pub const DEFAULT_TIMEOUT_SECONDS: u64 = 60;

/// The timeout in milliseconds for one asked for in seconds; what does not
/// fit is cut to the longest timeout there is.
pub open spec fn timeout_millis(seconds: Option<u64>) -> u64 {
    let s = match seconds {
        Some(s) => s,
        None => DEFAULT_TIMEOUT_SECONDS,
    };
    if s * 1000 <= u64::MAX {
        (s * 1000) as u64
    } else {
        u64::MAX
    }
}

/// The timeout of an invocation in milliseconds, from the seconds asked for.
pub fn timeout_ms(seconds: Option<u64>) -> (millis: u64)
    ensures
        millis == timeout_millis(seconds),
{
    let s = match seconds {
        Some(s) => s,
        None => DEFAULT_TIMEOUT_SECONDS,
    };
    if s <= u64::MAX / 1000 {
        s * 1000
    } else {
        u64::MAX
    }
}

/// Why a tool could not be started.
#[derive(Clone, Copy, Debug, PartialEq, Eq, Structural)]
pub enum InvocationError {
    /// No such program.
    NotFound,
    /// The program may not be executed.
    PermissionDenied,
    /// Any other failure to start it.
    Other,
}

/// The result of running a tool on one fixture.
#[derive(Clone, Debug, PartialEq, Eq)]
pub struct ToolRun {
    /// The tool's exit code, or `TIMEOUT_EXIT_CODE`.
    pub exit_code: i64,
    /// What the tool wrote to standard output; after a timeout, what it had
    /// written until then.
    pub stdout: Vec<u8>,
    /// What the tool wrote to standard error, likewise.
    pub stderr: Vec<u8>,
    /// Wall-clock time the run took, in milliseconds.
    pub duration_ms: u64,
}

/// A run, in the model.
pub struct RunView {
    /// The exit code, or `TIMEOUT_EXIT_CODE`.
    pub exit_code: i64,
    /// Standard output.
    pub stdout: Seq<u8>,
    /// Standard error.
    pub stderr: Seq<u8>,
    /// Wall-clock time, in milliseconds.
    pub duration_ms: u64,
}

impl View for ToolRun {
    type V = RunView;

    open spec fn view(&self) -> RunView {
        RunView {
            exit_code: self.exit_code,
            stdout: self.stdout@,
            stderr: self.stderr@,
            duration_ms: self.duration_ms,
        }
    }
}

/// The run recorded for a tool that exited with `code` after `elapsed_ms`
/// under a timeout of `timeout_ms`.
pub open spec fn observed_run(
    code: Option<i32>,
    stdout: Seq<u8>,
    stderr: Seq<u8>,
    elapsed_ms: u64,
    timeout_ms: u64,
) -> RunView {
    RunView {
        exit_code: observed_exit_code(code, elapsed_ms, timeout_ms),
        stdout,
        stderr,
        duration_ms: elapsed_ms,
    }
}

/// The exit code recorded for a run that ended within its timeout.
pub open spec fn recorded_exit_code(code: Option<i32>) -> i64 {
    match code {
        Some(c) => c as i64,
        None => KILLED_EXIT_CODE,
    }
}

/// The exit code recorded for a run that took `elapsed_ms` under a timeout of
/// `timeout_ms`.
pub open spec fn observed_exit_code(code: Option<i32>, elapsed_ms: u64, timeout_ms: u64) -> i64 {
    if elapsed_ms > timeout_ms {
        TIMEOUT_EXIT_CODE
    } else {
        recorded_exit_code(code)
    }
}

impl ToolRun {
    /// Whether the run was cut short by the timeout.
    pub open spec fn timed_out(&self) -> bool {
        self.exit_code == TIMEOUT_EXIT_CODE
    }

    /// Whether the run was cut short by the timeout.
    pub fn is_timeout(&self) -> (yes: bool)
        ensures
            yes == self.timed_out(),
    {
        self.exit_code == TIMEOUT_EXIT_CODE
    }

    /// Records a run from what was seen of the tool: a run that took longer
    /// than `timeout_ms` is a timeout whatever the tool exited with, and
    /// keeps the output gathered so far.
    pub fn observe(
        code: Option<i32>,
        stdout: Vec<u8>,
        stderr: Vec<u8>,
        elapsed_ms: u64,
        timeout_ms: u64,
    ) -> (run: ToolRun)
        ensures
            run@ == observed_run(code, stdout@, stderr@, elapsed_ms, timeout_ms),
            run.timed_out() <==> elapsed_ms > timeout_ms,
            run.stdout == stdout,
            run.stderr == stderr,
    {
        let exit_code = if elapsed_ms > timeout_ms {
            TIMEOUT_EXIT_CODE
        } else {
            match code {
                Some(c) => c as i64,
                None => KILLED_EXIT_CODE,
            }
        };
        ToolRun { exit_code, stdout, stderr, duration_ms: elapsed_ms }
    }
}

} // verus!
