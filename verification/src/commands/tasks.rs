//! Task runs: the message a finished task operation leaves in the run log, and the
//! run record itself.

use vstd::prelude::*;
use crate::text::{views, join_with, join_strings, push_char, push_str, natural_string, decimal_digits};
use crate::error::{AppError, error_text};

verus! {

/// What a shell script left: its printed lines, the text of its completion value if it
/// had one, and its error if it failed.
pub struct ShellTranscript {
    pub logs: Vec<String>,
    pub value: Option<String>,
    pub error: Option<String>,
}

/// A shell transcript as one message: the printed lines, then the completion value on a
/// line of its own; "Script completed" when that is empty.
pub open spec fn summary_text(logs: Seq<Seq<char>>, value: Option<Seq<char>>) -> Seq<char> {
    let lines = join_with(logs, "\n"@);
    let all = match value {
        Some(v) => if lines.len() > 0 { lines + "\n"@ + v } else { v },
        None => lines,
    };
    if all.len() == 0 { "Script completed"@ } else { all }
}

/// The optional value's text.
pub open spec fn opt_view(v: Option<String>) -> Option<Seq<char>> {
    match v {
        Some(s) => Some(s@),
        None => None,
    }
}

/// Flatten a shell transcript (printed lines + completion value) into one message for
/// the run log.
pub fn shell_summary(result: &ShellTranscript) -> (r: String)
    ensures
        r@ == summary_text(views(result.logs@), opt_view(result.value)),
{
    let mut summary = join_strings(result.logs.as_slice(), "\n");
    match &result.value {
        Some(value) => {
            if !summary.as_str().is_empty() {
                push_char(&mut summary, '\n');
            }
            push_str(&mut summary, value.as_str());
        },
        None => {},
    }
    proof {
        reveal_strlit("\n");
    }
    if summary.as_str().is_empty() {
        return "Script completed".to_owned();
    }
    summary
}

/// What a task's operation did, as its run log reports it.
pub enum TaskOutcome {
    Exported { count: usize, path: String },
    Imported { count: usize, path: String },
    MaskedExport { count: usize, path: String },
    Migrated { path: String },
    Shell(ShellTranscript),
}

/// The run-log message of a task's outcome, or the error of a script that failed.
pub open spec fn outcome_message(o: TaskOutcome) -> Result<Seq<char>, AppError> {
    match o {
        TaskOutcome::Exported { count, path } =>
            Ok("Exported "@ + decimal_digits(count as nat) + " document(s) to "@ + path@),
        TaskOutcome::Imported { count, path } =>
            Ok("Imported "@ + decimal_digits(count as nat) + " document(s) from "@ + path@),
        TaskOutcome::MaskedExport { count, path } =>
            Ok("Exported "@ + decimal_digits(count as nat) + " masked document(s) to "@ + path@),
        TaskOutcome::Migrated { path } => Ok("Wrote SQL migration to "@ + path@),
        TaskOutcome::Shell(t) => match t.error {
            Some(m) => Err(AppError::Shell(m)),
            None => Ok(summary_text(views(t.logs@), opt_view(t.value))),
        },
    }
}

/// `before`, the decimal count, `after`, then the path.
fn count_message(before: &str, count: usize, after: &str, path: &str) -> (r: String)
    ensures
        r@ == before@ + decimal_digits(count as nat) + after@ + path@,
{
    let mut out = before.to_owned();
    let digits = natural_string(count as u128);
    push_str(&mut out, digits.as_str());
    push_str(&mut out, after);
    push_str(&mut out, path);
    out
}

/// A short human-readable success message for the run log (or the script's error).
pub fn task_message(outcome: TaskOutcome) -> (r: Result<String, AppError>)
    ensures
        match (r, outcome_message(outcome)) {
            (Ok(s), Ok(t)) => s@ == t,
            (Err(e), Err(f)) => e == f,
            _ => false,
        },
{
    match outcome {
        TaskOutcome::Exported { count, path } => Ok(count_message("Exported ", count, " document(s) to ", path.as_str())),
        TaskOutcome::Imported { count, path } => Ok(count_message("Imported ", count, " document(s) from ", path.as_str())),
        TaskOutcome::MaskedExport { count, path } =>
            Ok(count_message("Exported ", count, " masked document(s) to ", path.as_str())),
        TaskOutcome::Migrated { path } => {
            let mut out = "Wrote SQL migration to ".to_owned();
            push_str(&mut out, path.as_str());
            Ok(out)
        },
        TaskOutcome::Shell(transcript) => {
            let summary = shell_summary(&transcript);
            match transcript.error {
                Some(message) => Err(AppError::Shell(message)),
                None => Ok(summary),
            }
        },
    }
}

/// One run of a task: when it ran, "ok" or "error", and the message.
pub struct TaskRun {
    pub ran_at: String,
    pub status: String,
    pub message: String,
}

/// A run record of a finished operation: a success is "ok" with its message, a failure
/// is "error" with the error's message, so one bad run never stops the scheduler.
pub fn task_run(outcome: Result<String, AppError>, ran_at: String) -> (r: TaskRun)
    ensures
        r.ran_at@ == ran_at@,
        match outcome {
            Ok(m) => r.status@ == "ok"@ && r.message@ == m@,
            Err(e) => r.status@ == "error"@ && r.message@ == error_text(e),
        },
{
    match outcome {
        Ok(message) => TaskRun { ran_at, status: "ok".to_owned(), message },
        Err(e) => {
            let message = e.message();
            TaskRun { ran_at, status: "error".to_owned(), message }
        },
    }
}

}
