//! Running one command on many hosts: where each host's secret comes from,
//! and how each host's outcome is reported. The commands themselves run
//! concurrently in the caller, each under a time limit.

use vstd::prelude::*;
use crate::transport::ExecResult;

verus! {

/// How long one host may take, in seconds.
pub const BATCH_TIMEOUT_SECS: u64 = 60;

/// Where a host's secret comes from.
#[derive(Clone, Debug)]
pub enum SecretSource {
    /// Typed in for this run.
    Given(String),
    /// Stored in the secret store under this name.
    Stored(String),
    /// None: the host is tried without one.
    Missing,
}

/// A password typed in wins over a stored secret; with neither, there is
/// no secret.
pub fn secret_source(password: Option<String>, secret_ref: Option<String>) -> (r: SecretSource)
    ensures
        match password {
            Some(p) => r matches SecretSource::Given(g) && g@ == p@,
            None => match secret_ref {
                Some(k) => r matches SecretSource::Stored(s) && s@ == k@,
                None => r is Missing,
            },
        },
{
    match password {
        Some(p) => SecretSource::Given(p),
        None => match secret_ref {
            Some(k) => SecretSource::Stored(k),
            None => SecretSource::Missing,
        },
    }
}

/// How a host's command ended.
#[derive(Clone, Debug)]
pub enum ExecOutcome {
    /// It ran to the end.
    Finished(ExecResult),
    /// It could not be run; the error's text.
    Failed(String),
    /// It was still running when the time limit ran out.
    TimedOut,
}

/// The report for one host.
#[derive(Clone, Debug)]
pub struct BatchExecResult {
    pub id: String,
    pub label: String,
    /// -1 when the command did not finish.
    pub exit_code: i32,
    pub stdout: String,
    pub stderr: String,
    pub error: Option<String>,
    pub duration_ms: u64,
}

/// The text reported for a host that ran out of time.
pub open spec fn timeout_text() -> Seq<char> {
    "Command timed out after 60 seconds"@
}

/// The report for the host `id` (shown as `label`) whose command ended as
/// `outcome` after `duration_ms`: what it printed and its exit code when it
/// finished, otherwise exit code -1, no output and the reason.
pub fn batch_result(id: String, label: String, outcome: ExecOutcome, duration_ms: u64) -> (r: BatchExecResult)
    ensures
        r.id@ == id@,
        r.label@ == label@,
        r.duration_ms == duration_ms,
        match outcome {
            ExecOutcome::Finished(res) => r.exit_code == res.exit_code && r.stdout@ == res.stdout@ && r.stderr@
                == res.stderr@ && r.error is None,
            ExecOutcome::Failed(msg) => r.exit_code == -1 && r.stdout@.len() == 0 && r.stderr@.len() == 0
                && (r.error matches Some(e) && e@ == msg@),
            ExecOutcome::TimedOut => r.exit_code == -1 && r.stdout@.len() == 0 && r.stderr@.len() == 0
                && (r.error matches Some(e) && e@ == timeout_text()),
        },
{
    match outcome {
        ExecOutcome::Finished(res) => BatchExecResult {
            id,
            label,
            exit_code: res.exit_code,
            stdout: res.stdout,
            stderr: res.stderr,
            error: None,
            duration_ms,
        },
        ExecOutcome::Failed(msg) => BatchExecResult {
            id,
            label,
            exit_code: -1,
            stdout: String::new(),
            stderr: String::new(),
            error: Some(msg),
            duration_ms,
        },
        ExecOutcome::TimedOut => BatchExecResult {
            id,
            label,
            exit_code: -1,
            stdout: String::new(),
            stderr: String::new(),
            error: Some("Command timed out after 60 seconds".to_string()),
            duration_ms,
        },
    }
}

} // verus!
