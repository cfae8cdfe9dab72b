//! The `tail` sub-command: bounded tails of both log streams with byte
//! accounting.

use vstd::prelude::*;
use crate::jobstore::{lossy_of, spec_tail_bytes, spec_tail_truncated, JobDir};
use crate::json::no_newline;
use crate::schema::{spec_tail_json, render_tail, TailData};

verus! {

/// Options for the `tail` sub-command.
#[derive(Debug)]
pub struct TailOpts<'a> {
    pub job_id: &'a str,
    pub root: Option<&'a str>,
    /// Number of lines to show from the end of each log.
    pub tail_lines: u64,
    /// Maximum bytes to read from the end of each log.
    pub max_bytes: u64,
}

impl<'a> Default for TailOpts<'a> {
    /// The documented defaults of the `tail` sub-command.
    fn default() -> (r: Self)
        ensures
            r.job_id@ == ""@,
            r.root is None,
            r.tail_lines == 50,
            r.max_bytes == 65536,
    {
        TailOpts { job_id: "", root: None, tail_lines: 50, max_bytes: 65536 }
    }
}

/// Execute `tail` on the two log contents as read from disk: tail each
/// stream within the line and byte bounds, and render the JSON line.
/// The response is truncated when either stream was cut.
pub fn execute(
    job_id: &str,
    job_dir: &JobDir,
    stdout_data: Option<&Vec<u8>>,
    stderr_data: Option<&Vec<u8>>,
    tail_lines: u64,
    max_bytes: u64,
) -> (r: (TailData, Vec<u8>))
    ensures
        r.0.job_id@ == job_id@,
        stdout_data matches Some(d) ==> r.0.stdout_tail@ == lossy_of(
            spec_tail_bytes(d@, tail_lines as int, max_bytes as int),
        ) && r.0.stdout_observed_bytes == d@.len(),
        stderr_data matches Some(d) ==> r.0.stderr_tail@ == lossy_of(
            spec_tail_bytes(d@, tail_lines as int, max_bytes as int),
        ) && r.0.stderr_observed_bytes == d@.len(),
        stdout_data is None ==> r.0.stdout_tail@.len() == 0 && r.0.stdout_observed_bytes == 0,
        stderr_data is None ==> r.0.stderr_tail@.len() == 0 && r.0.stderr_observed_bytes == 0,
        r.0.truncated == ((stdout_data matches Some(d) && spec_tail_truncated(
            d@,
            tail_lines as int,
            max_bytes as int,
        )) || (stderr_data matches Some(d) && spec_tail_truncated(
            d@,
            tail_lines as int,
            max_bytes as int,
        ))),
        r.0.encoding@ == "utf-8-lossy"@,
        r.0.stdout_log_path@ == crate::jobstore::spec_path_join(job_dir.path@, "stdout.log"@),
        r.0.stderr_log_path@ == crate::jobstore::spec_path_join(job_dir.path@, "stderr.log"@),
        r.0.stdout_included_bytes == vstd::utf8::encode_utf8(r.0.stdout_tail@).len(),
        r.0.stderr_included_bytes == vstd::utf8::encode_utf8(r.0.stderr_tail@).len(),
        stdout_data matches Some(d) && vstd::utf8::valid_utf8(
            spec_tail_bytes(d@, tail_lines as int, max_bytes as int),
        ) ==> r.0.stdout_included_bytes <= r.0.stdout_observed_bytes,
        stderr_data matches Some(d) && vstd::utf8::valid_utf8(
            spec_tail_bytes(d@, tail_lines as int, max_bytes as int),
        ) ==> r.0.stderr_included_bytes <= r.0.stderr_observed_bytes,
        r.1@ == spec_tail_json(r.0),
        no_newline(r.1@),
{
    let stdout_m = job_dir.read_tail_metrics(stdout_data, tail_lines, max_bytes);
    let stderr_m = job_dir.read_tail_metrics(stderr_data, tail_lines, max_bytes);
    proof {
        if stdout_data is None {
            assert(vstd::utf8::encode_utf8(stdout_m.tail@) =~= Seq::<u8>::empty());
        }
        if stderr_data is None {
            assert(vstd::utf8::encode_utf8(stderr_m.tail@) =~= Seq::<u8>::empty());
        }
    }
    let data = TailData {
        job_id: String::from_str(job_id),
        stdout_tail: stdout_m.tail,
        stderr_tail: stderr_m.tail,
        truncated: stdout_m.truncated || stderr_m.truncated,
        encoding: String::from_str("utf-8-lossy"),
        stdout_log_path: job_dir.stdout_path(),
        stderr_log_path: job_dir.stderr_path(),
        stdout_observed_bytes: stdout_m.observed_bytes,
        stderr_observed_bytes: stderr_m.observed_bytes,
        stdout_included_bytes: stdout_m.included_bytes,
        stderr_included_bytes: stderr_m.included_bytes,
    };
    let rendered = render_tail(&data);
    (data, rendered)
}

} // verus!
