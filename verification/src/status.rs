//! The `status` sub-command: report one job's state as a JSON line.

use vstd::prelude::*;
use crate::json::no_newline;
use crate::schema::{
    spec_status_body, spec_status_json, spec_status_str, render_status, JobMeta, JobState,
    StatusData,
};

verus! {

/// Options for the `status` sub-command.
#[derive(Debug)]
pub struct StatusOpts<'a> {
    pub job_id: &'a str,
    pub root: Option<&'a str>,
}

/// Execute `status` on a job's metadata and state as read from disk:
/// build the payload and its one-line JSON rendering.
pub fn execute(job_id: &str, meta: &JobMeta, state: &JobState) -> (r: (StatusData, Vec<u8>))
    ensures
        r.0.job_id@ == job_id@,
        r.0.state@ == spec_status_str(state.job.status),
        r.0.exit_code == state.result.exit_code,
        r.0.started_at@ == meta.created_at@,
        r.0.finished_at is Some <==> state.finished_at is Some,
        r.0.finished_at matches Some(f) ==> state.finished_at matches Some(g) && f@ == g@,
        r.1@ == spec_status_json(r.0),
        no_newline(r.1@),
{
    let data = StatusData {
        job_id: String::from_str(job_id),
        state: String::from_str(state.job.status.as_str()),
        exit_code: state.result.exit_code,
        started_at: meta.created_at.clone(),
        finished_at: match &state.finished_at {
            Some(f) => Some(f.clone()),
            None => None,
        },
    };
    let rendered = render_status(&data);
    (data, rendered)
}

/// Reading the status of a job twice from the same persisted values
/// yields byte-identical payloads: the rendering depends on the field
/// contents alone.  Since a terminal state is never rewritten, repeated
/// `status` reads on a finished job always agree.
pub proof fn lemma_status_repeatable(d1: StatusData, d2: StatusData)
    requires
        d1.job_id@ == d2.job_id@,
        d1.state@ == d2.state@,
        d1.exit_code == d2.exit_code,
        d1.started_at@ == d2.started_at@,
        d1.finished_at is Some <==> d2.finished_at is Some,
        d1.finished_at matches Some(f) ==> d2.finished_at matches Some(g) && f@ == g@,
    ensures
        spec_status_json(d1) == spec_status_json(d2),
{
    assert(spec_status_body(d1) == spec_status_body(d2));
}

} // verus!
