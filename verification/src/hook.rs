//! Shell-free local hook delivery: a configured executable receives each
//! alert candidate on standard input.  Hook paths must be absolute, not
//! symlinks, owned by the daemon's user and not world-writable; a run is
//! bounded to 30 seconds.

use vstd::prelude::*;

use crate::notification::{submission_view, DeliverySubmission};

verus! {

/// How many hook runs may be in flight at once.
pub const HOOK_CONCURRENCY: usize = 4;

/// A hook run is stopped after this many seconds.
pub const HOOK_TIMEOUT_SECS: u64 = 30;

/// Output of a hook is never kept beyond this many bytes.
pub const MAX_OUTPUT_BYTES: usize = 65536;

/// What the host found at a hook path.
#[derive(Debug)]
pub struct PathFacts {
    /// `symlink_metadata`: whether it is a symlink, its owner and mode, or
    /// why it could not be read.
    pub metadata: Result<(bool, u32, u32), String>,
    /// The daemon's effective user id.
    pub euid: u32,
}

pub open spec fn hook_path_check(path: Seq<char>, facts: PathFacts) -> Result<(), Seq<char>> {
    if !(path.len() > 0 && path[0] == '/') {
        Err("hook paths must be absolute"@)
    } else {
        match facts.metadata {
            Err(e) => Err(e@),
            Ok((is_symlink, uid, mode)) => if is_symlink {
                Err("hook paths must not be symlinks"@)
            } else if uid != facts.euid {
                Err("hook path must be owned by the daemon user"@)
            } else if mode & 0o002 != 0 {
                Err("hook path must not be world writable"@)
            } else {
                Ok(())
            },
        }
    }
}

/// Checks one hook path against what the host found there.
pub fn validate_hook_path(path: &str, facts: &PathFacts) -> (r: Result<(), String>)
    ensures
        match r {
            Ok(()) => hook_path_check(path@, *facts) == Ok::<(), Seq<char>>(()),
            Err(e) => hook_path_check(path@, *facts) == Err::<(), Seq<char>>(e@),
        },
{
    let chars = crate::text::chars_of(path);
    if !(chars.len() > 0 && chars[0] == '/') {
        return Err("hook paths must be absolute".to_string());
    }
    match &facts.metadata {
        Err(e) => Err(e.clone()),
        Ok((is_symlink, uid, mode)) => {
            if *is_symlink {
                Err("hook paths must not be symlinks".to_string())
            } else if *uid != facts.euid {
                Err("hook path must be owned by the daemon user".to_string())
            } else if *mode & 0o002 != 0 {
                Err("hook path must not be world writable".to_string())
            } else {
                Ok(())
            }
        },
    }
}

/// A validated hook: its executable, arguments, working directory and the
/// whole environment it runs with (nothing is inherited).
#[derive(Debug, Clone)]
pub struct HookDelivery {
    pub executable: String,
    pub arguments: Vec<String>,
    pub working_directory: Option<String>,
    pub environment: Vec<(String, String)>,
}

impl HookDelivery {
    /// A hook whose executable (and working directory, if any) passed
    /// `validate_hook_path`.
    pub fn new(
        executable: String,
        arguments: Vec<String>,
        working_directory: Option<String>,
        environment: Vec<(String, String)>,
        executable_facts: &PathFacts,
        directory_facts: Option<&PathFacts>,
    ) -> (r: Result<Self, String>)
        requires
            working_directory is Some <==> directory_facts is Some,
        ensures
            match r {
                Ok(h) => hook_path_check(executable@, *executable_facts) is Ok && (match (
                    working_directory,
                    directory_facts,
                ) {
                    (Some(d), Some(f)) => hook_path_check(d@, *f) is Ok,
                    _ => true,
                }) && h.executable == executable && h.arguments == arguments && h.working_directory
                    == working_directory && h.environment == environment,
                Err(e) => hook_path_check(executable@, *executable_facts) == Err::<(), Seq<char>>(e@)
                    || (hook_path_check(executable@, *executable_facts) is Ok && match (
                    working_directory,
                    directory_facts,
                ) {
                    (Some(d), Some(f)) => hook_path_check(d@, *f) == Err::<(), Seq<char>>(e@),
                    _ => false,
                }),
            },
    {
        match validate_hook_path(executable.as_str(), executable_facts) {
            Err(e) => {
                return Err(e);
            },
            Ok(()) => {},
        }
        match (&working_directory, directory_facts) {
            (Some(d), Some(f)) => match validate_hook_path(d.as_str(), f) {
                Err(e) => {
                    return Err(e);
                },
                Ok(()) => {},
            },
            _ => {},
        }
        Ok(HookDelivery { executable, arguments, working_directory, environment })
    }
}

/// How a hook run ended.
#[derive(Debug, Clone, PartialEq, Eq)]
pub enum HookRun {
    /// No run slot could be had.
    GateClosed,
    /// It could not be started; the error's message.
    SpawnFailed(String),
    /// Writing the candidate to its standard input failed.
    StdinFailed,
    /// It exited; whether successfully, and the exit status as text.
    Exited { success: bool, status: String },
    /// Waiting for it failed; the error's message.
    WaitFailed(String),
    /// It ran past the timeout and was stopped.
    TimedOut,
}

pub open spec fn hook_submission(run: HookRun) -> (Seq<char>, Option<Seq<char>>) {
    match run {
        HookRun::GateClosed => ("failed"@, Some("hook concurrency gate closed"@)),
        HookRun::SpawnFailed(m) => ("failed"@, Some(m@)),
        HookRun::StdinFailed => ("failed"@, Some("writing hook stdin failed"@)),
        HookRun::Exited { success, status } => if success {
            ("submitted"@, None)
        } else {
            ("failed"@, Some("hook exited with "@ + status@))
        },
        HookRun::WaitFailed(m) => ("failed"@, Some(m@)),
        HookRun::TimedOut => (
            "failed"@,
            Some("hook timed out after 30 seconds; output capped at 65536 bytes"@),
        ),
    }
}

impl HookDelivery {
    /// The submission recorded for a hook run.
    pub fn classify(&self, run: HookRun) -> (r: DeliverySubmission)
        ensures
            submission_view(r) == hook_submission(run),
    {
        match run {
            HookRun::GateClosed => DeliverySubmission {
                outcome: "failed".to_string(),
                detail: Some("hook concurrency gate closed".to_string()),
            },
            HookRun::SpawnFailed(m) => DeliverySubmission { outcome: "failed".to_string(), detail: Some(m) },
            HookRun::StdinFailed => DeliverySubmission {
                outcome: "failed".to_string(),
                detail: Some("writing hook stdin failed".to_string()),
            },
            HookRun::Exited { success, status } => if success {
                DeliverySubmission { outcome: "submitted".to_string(), detail: None }
            } else {
                let mut d = "hook exited with ".to_string();
                crate::text::push_str(&mut d, status.as_str());
                DeliverySubmission { outcome: "failed".to_string(), detail: Some(d) }
            },
            HookRun::WaitFailed(m) => DeliverySubmission { outcome: "failed".to_string(), detail: Some(m) },
            HookRun::TimedOut => DeliverySubmission {
                outcome: "failed".to_string(),
                detail: Some(
                    "hook timed out after 30 seconds; output capped at 65536 bytes".to_string(),
                ),
            },
        }
    }
}

} // verus!
