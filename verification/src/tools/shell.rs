//! The `shell_command` tool's checks: it is off unless dangerous tools are allowed, and
//! it runs only a bare executable name.
use vstd::prelude::*;
use crate::text::{chars_of, has_char, owned};
use crate::tools::net::bounded_request;

verus! {

/// Why a shell command was refused.
#[derive(Debug, Clone, Copy, PartialEq, Eq, Structural)]
pub enum ShellError {
    /// Dangerous tools are not allowed.
    Disabled,
    /// No command was given.
    MissingCommand,
    /// The command names a path rather than an executable.
    PathInCommand,
}

/// The message of a [`ShellError`].
pub open spec fn shell_error_text(e: ShellError) -> Seq<char> {
    match e {
        ShellError::Disabled =>
            "shell_command is disabled by default (set runtime.allow_dangerous_tools=true)"@,
        ShellError::MissingCommand => "missing command"@,
        ShellError::PathInCommand => "command must be a bare executable name (no path separators)"@,
    }
}

impl ShellError {
    /// The error's message.
    pub fn message(&self) -> (m: String)
        ensures
            m@ == shell_error_text(*self),
    {
        match self {
            ShellError::Disabled => owned(
                "shell_command is disabled by default (set runtime.allow_dangerous_tools=true)",
            ),
            ShellError::MissingCommand => owned("missing command"),
            ShellError::PathInCommand => owned(
                "command must be a bare executable name (no path separators)",
            ),
        }
    }
}

/// A command the tool may run, and its time limit in milliseconds.
#[derive(Debug, Clone)]
pub struct ShellPlan {
    pub command: String,
    pub timeout_ms: u64,
}

/// The time limit of a command: the requested one or the configured default, at most
/// ten minutes.
pub open spec fn shell_timeout(requested: Option<u64>, default: u64) -> u64 {
    let v = match requested {
        Some(v) => v,
        None => default,
    };
    if v < 600_000 {
        v
    } else {
        600_000
    }
}

/// A requested time limit is used as it is, capped at ten minutes, whatever the configured
/// default; the default is used, with the same cap, only when no limit is requested.
pub proof fn law_requested_timeout_overrides_default(t: u64, d1: u64, d2: u64)
    ensures
        shell_timeout(Some(t), d1) == shell_timeout(Some(t), d2),
        t <= 600_000 ==> shell_timeout(Some(t), d1) == t,
        t > 600_000 ==> shell_timeout(Some(t), d1) == 600_000,
        d1 <= 600_000 ==> shell_timeout(None, d1) == d1,
        d1 > 600_000 ==> shell_timeout(None, d1) == 600_000,
{
}

/// Checks a shell request, in order: dangerous tools must be allowed, a command must be
/// given, and it must contain neither `'/'` nor `'\\'`.
pub fn plan_shell_command(
    allow_dangerous_tools: bool,
    command: Option<&str>,
    timeout_ms: Option<u64>,
    default_timeout_ms: u64,
) -> (r: Result<ShellPlan, ShellError>)
    ensures
        !allow_dangerous_tools ==> r matches Err(ShellError::Disabled),
        allow_dangerous_tools && command is None ==> r matches Err(ShellError::MissingCommand),
        allow_dangerous_tools && command is Some ==> {
            let c = command.unwrap();
            if c@.contains('/') || c@.contains('\\') {
                r matches Err(ShellError::PathInCommand)
            } else {
                r matches Ok(plan) && plan.command@ == c@ && plan.timeout_ms == shell_timeout(
                    timeout_ms,
                    default_timeout_ms,
                )
            }
        },
{
    if !allow_dangerous_tools {
        return Err(ShellError::Disabled);
    }
    let c = match command {
        None => {
            return Err(ShellError::MissingCommand);
        },
        Some(c) => c,
    };
    let v = chars_of(c);
    if has_char(&v, '/') || has_char(&v, '\\') {
        return Err(ShellError::PathInCommand);
    }
    Ok(ShellPlan { command: owned(c), timeout_ms: bounded_request(timeout_ms, default_timeout_ms, 600_000) })
}

} // verus!
