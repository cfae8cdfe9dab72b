//! The `wait` sub-command: poll a job's state until it leaves `running`
//! or the caller's timeout elapses.  A timeout is a success, not an
//! error: the response simply reports the job still running.

use vstd::prelude::*;
use crate::json::no_newline;
use crate::schema::{
    spec_status_str, spec_wait_json, render_wait, JobState, JobStatus, WaitData,
};

verus! {

/// Options for the `wait` sub-command.
#[derive(Debug)]
pub struct WaitOpts<'a> {
    pub job_id: &'a str,
    pub root: Option<&'a str>,
    /// Poll interval in milliseconds.
    pub poll_ms: u64,
    /// Total timeout in milliseconds; 0 waits indefinitely.
    pub timeout_ms: u64,
}

impl<'a> Default for WaitOpts<'a> {
    /// The documented defaults of the `wait` sub-command.
    fn default() -> (r: Self)
        ensures
            r.job_id@ == ""@,
            r.root is None,
            r.poll_ms == 200,
            r.timeout_ms == 0,
    {
        WaitOpts { job_id: "", root: None, poll_ms: 200, timeout_ms: 0 }
    }
}

/// Decide one `wait` poll: a terminal state yields the terminal
/// response, an elapsed deadline yields a `running` response, and
/// otherwise polling continues (`None`).
pub fn execute(job_id: &str, state: &JobState, deadline_passed: bool) -> (r: Option<(
    WaitData,
    Vec<u8>,
)>)
    ensures
        r is Some <==> (state.job.status != JobStatus::Running || deadline_passed),
        r matches Some(p) ==> {
            &&& p.0.job_id@ == job_id@
            &&& (state.job.status != JobStatus::Running ==> p.0.state@ == spec_status_str(
                state.job.status,
            ) && p.0.exit_code == state.result.exit_code)
            &&& (state.job.status == JobStatus::Running ==> p.0.state@ == "running"@
                && p.0.exit_code is None)
            &&& p.1@ == spec_wait_json(p.0)
            &&& no_newline(p.1@)
        },
{
    if !matches!(state.job.status, JobStatus::Running) {
        let data = WaitData {
            job_id: String::from_str(job_id),
            state: String::from_str(state.job.status.as_str()),
            exit_code: state.result.exit_code,
        };
        let rendered = render_wait(&data);
        Some((data, rendered))
    } else if deadline_passed {
        let data = WaitData {
            job_id: String::from_str(job_id),
            state: String::from_str("running"),
            exit_code: None,
        };
        let rendered = render_wait(&data);
        Some((data, rendered))
    } else {
        None
    }
}

} // verus!
