//! Notification Center submission.  `osascript` receives a fixed program
//! and the alert payload as a separate argument, so the payload is never
//! interpolated into script source.  A successful exit only means that the
//! submission was accepted, never that it was displayed.

use vstd::prelude::*;

use crate::text::{decode_lossy, utf8_lossy};

verus! {

/// What became of one delivery attempt: `outcome` is `submitted`,
/// `denied`, `unavailable` or `failed`.
#[derive(Debug, Clone, PartialEq, Eq)]
pub struct DeliverySubmission {
    pub outcome: String,
    pub detail: Option<String>,
}

/// How the `osascript` run ended.
#[derive(Debug, Clone, PartialEq, Eq)]
pub enum ScriptRun {
    /// It ran and exited, successfully or not, with this standard error.
    Exited { success: bool, stderr: Vec<u8> },
    /// The program was not found; the message of the error.
    NotFound(String),
    /// It could not be run for another reason; the message of the error.
    Failed(String),
    /// It did not finish within 30 seconds.
    TimedOut,
}

/// The AppleScript program run for every notification.
pub open spec fn notification_script() -> Seq<char> {
    "on run argv\n display notification item 1 of argv with title \"my-supervisor\"\nend run"@
}

/// Standard error is reported up to this many characters.
pub const DETAIL_LIMIT: usize = 1024;

/// The first `limit` characters of `s` (all of them if it is shorter).
pub open spec fn take_chars(s: Seq<char>, limit: nat) -> Seq<char> {
    if s.len() <= limit {
        s
    } else {
        s.take(limit as int)
    }
}

fn truncate_chars(s: &str, limit: usize) -> (r: String)
    ensures
        r@ == take_chars(s@, limit as nat),
{
    let chars = crate::text::chars_of(s);
    let end: usize = if chars.len() <= limit {
        chars.len()
    } else {
        limit
    };
    let kept = crate::text::slice_vec(&chars, 0, end);
    proof {
        if chars@.len() <= limit {
            assert(kept@ =~= s@);
        } else {
            assert(kept@ =~= s@.take(limit as int));
        }
    }
    crate::text::string_of(&kept)
}

/// The submission a finished run amounts to.
pub open spec fn classify_spec(run: ScriptRun) -> (Seq<char>, Option<Seq<char>>) {
    match run {
        ScriptRun::Exited { success, stderr } => if success {
            ("submitted"@, None)
        } else {
            ("denied"@, Some(take_chars(utf8_lossy(stderr@), 1024)))
        },
        ScriptRun::NotFound(message) => ("unavailable"@, Some(message@)),
        ScriptRun::Failed(message) => ("failed"@, Some(message@)),
        ScriptRun::TimedOut => (
            "failed"@,
            Some("Notification Center submission timed out after 30 seconds"@),
        ),
    }
}

pub open spec fn submission_view(s: DeliverySubmission) -> (Seq<char>, Option<Seq<char>>) {
    (
        s.outcome@,
        match s.detail {
            Some(d) => Some(d@),
            None => None,
        },
    )
}

/// Delivers alerts through macOS Notification Center.
#[derive(Debug, Clone, Copy)]
pub struct NotificationCenterDelivery;

impl Default for NotificationCenterDelivery {
    fn default() -> (r: Self) {
        NotificationCenterDelivery
    }
}

impl NotificationCenterDelivery {
    pub fn new() -> (r: Self) {
        NotificationCenterDelivery
    }

    /// The `osascript` arguments for a candidate of `kind` carrying
    /// `payload`, or the submission that refuses a candidate that is not a
    /// notification.
    pub fn prepare(&self, kind: &str, payload: &str) -> (r: Result<Vec<String>, DeliverySubmission>)
        ensures
            kind@ == "notification"@ <==> r is Ok,
            r matches Ok(args) ==> args@.len() == 4 && args@[0]@ == "-e"@ && args@[1]@
                == notification_script() && args@[2]@ == "--"@ && args@[3]@ == payload@,
            r matches Err(s) ==> submission_view(s) == ("unavailable"@, Some(
                "delivery kind is not Notification Center"@,
            )),
    {
        if !crate::text::str_eq(kind, "notification") {
            let s = DeliverySubmission {
                outcome: "unavailable".to_string(),
                detail: Some("delivery kind is not Notification Center".to_string()),
            };
            return Err(s);
        }
        let mut args: Vec<String> = Vec::new();
        args.push("-e".to_string());
        args.push(
            "on run argv\n display notification item 1 of argv with title \"my-supervisor\"\nend run".to_string(),
        );
        args.push("--".to_string());
        args.push(payload.to_string());
        Ok(args)
    }

    /// The submission recorded for a finished `osascript` run.
    pub fn classify(&self, run: ScriptRun) -> (r: DeliverySubmission)
        ensures
            submission_view(r) == classify_spec(run),
    {
        match run {
            ScriptRun::Exited { success, stderr } => {
                if success {
                    DeliverySubmission { outcome: "submitted".to_string(), detail: None }
                } else {
                    let text = decode_lossy(stderr.as_slice());
                    let detail = truncate_chars(text.as_str(), DETAIL_LIMIT);
                    DeliverySubmission { outcome: "denied".to_string(), detail: Some(detail) }
                }
            },
            ScriptRun::NotFound(message) => DeliverySubmission {
                outcome: "unavailable".to_string(),
                detail: Some(message),
            },
            ScriptRun::Failed(message) => DeliverySubmission {
                outcome: "failed".to_string(),
                detail: Some(message),
            },
            ScriptRun::TimedOut => DeliverySubmission {
                outcome: "failed".to_string(),
                detail: Some("Notification Center submission timed out after 30 seconds".to_string()),
            },
        }
    }
}

} // verus!
