//! Tests for the run, status, wait and kill decision logic and the
//! supervisor helpers.

use agent_exec::kill;
use agent_exec::run::{
    build_snapshot, effective_snapshot_after, execute as run_execute, format_full_line,
    fresh_job_id, load_env_file, parse_env_var, tee_split_chunk, RunOpts,
};
use agent_exec::schema::{
    JobState, JobStateJob, JobStateResult, JobStatus,
};
use agent_exec::status;
use agent_exec::wait;
use agent_exec::jobstore::JobDir;

fn running_state(job_id: &str, pid: Option<u32>) -> JobState {
    JobState {
        job: JobStateJob {
            id: job_id.to_string(),
            status: JobStatus::Running,
            started_at: "2024-01-01T00:00:00Z".to_string(),
        },
        result: JobStateResult { exit_code: None, signal: None, duration_ms: None },
        pid,
        finished_at: None,
        updated_at: "2024-01-01T00:00:01Z".to_string(),
        windows_job_name: None,
    }
}

fn exited_state(job_id: &str) -> JobState {
    JobState {
        job: JobStateJob {
            id: job_id.to_string(),
            status: JobStatus::Exited,
            started_at: "2024-01-01T00:00:00Z".to_string(),
        },
        result: JobStateResult { exit_code: Some(0), signal: None, duration_ms: Some(40) },
        pid: Some(7),
        finished_at: Some("2024-01-01T00:00:02Z".to_string()),
        updated_at: "2024-01-01T00:00:02Z".to_string(),
        windows_job_name: None,
    }
}

#[test]
fn snapshot_after_is_clamped() {
    assert_eq!(effective_snapshot_after(false, 20000), 10000);
    assert_eq!(effective_snapshot_after(false, 500), 500);
    assert_eq!(effective_snapshot_after(false, 0), 0);
    assert_eq!(effective_snapshot_after(true, 20000), 0);
}

#[test]
fn fresh_job_id_is_26_chars() {
    let a = fresh_job_id();
    let b = fresh_job_id();
    assert_eq!(a.len(), 26);
    assert_eq!(b.len(), 26);
    assert!(a.chars().all(|c| c.is_ascii_alphanumeric()));
}

#[test]
fn parse_env_var_splits_at_first_equals() {
    assert_eq!(parse_env_var("KEY=VALUE"), ("KEY".to_string(), "VALUE".to_string()));
    assert_eq!(parse_env_var("KEY=a=b"), ("KEY".to_string(), "a=b".to_string()));
    assert_eq!(parse_env_var("BARE"), ("BARE".to_string(), "".to_string()));
    assert_eq!(parse_env_var("KEY="), ("KEY".to_string(), "".to_string()));
}

#[test]
fn env_file_parsing_skips_blanks_and_comments() {
    let contents = "# a comment\n\nFOO=bar\n  BAZ=qux  \n# tail\nLAST=1";
    let vars = load_env_file(contents);
    assert_eq!(
        vars,
        vec![
            ("FOO".to_string(), "bar".to_string()),
            ("BAZ".to_string(), "qux".to_string()),
            ("LAST".to_string(), "1".to_string()),
        ]
    );
}

#[test]
fn run_plan_rejects_empty_command() {
    let opts = RunOpts { command: vec![], ..Default::default() };
    let r = run_execute(&opts, "/r", "01JOB", "2024-01-01T00:00:00Z");
    assert!(r.is_err());
    assert_eq!(r.unwrap_err(), "no command specified for run");
}

#[test]
fn run_plan_masks_and_records() {
    let opts = RunOpts {
        command: vec!["echo".to_string(), "done".to_string()],
        env_vars: vec!["SECRET=topsecret".to_string()],
        mask: vec!["SECRET".to_string()],
        cwd: Some("/work"),
        snapshot_after: 20000,
        ..Default::default()
    };
    let plan = run_execute(&opts, "/r", "01JOB", "2024-01-01T00:00:00Z").unwrap();
    assert_eq!(plan.meta.job.id, "01JOB");
    assert_eq!(plan.meta.env_keys, vec!["SECRET"]);
    assert_eq!(plan.meta.env_vars, vec!["SECRET=***"]);
    assert_eq!(plan.meta.cwd.as_deref(), Some("/work"));
    assert_eq!(plan.masked_env_vars, vec!["SECRET=***"]);
    assert_eq!(plan.stdout_log_path, "/r/01JOB/stdout.log");
    assert_eq!(plan.full_log_path, "/r/01JOB/full.log");
    assert_eq!(plan.effective_snapshot_after, 10000);
}

#[test]
fn snapshot_combines_stream_metrics() {
    let dir = JobDir::open("/r", "j", true).unwrap();
    let out: Vec<u8> = b"hello\n".to_vec();
    let m_out = dir.read_tail_metrics(Some(&out), 50, 65536);
    let m_err = dir.read_tail_metrics(None, 50, 65536);
    let snap = build_snapshot(m_out, m_err);
    assert!(snap.stdout_tail.contains("hello"));
    assert_eq!(snap.encoding, "utf-8-lossy");
    assert!(!snap.truncated);
    assert_eq!(snap.stdout_observed_bytes, 6);
    assert_eq!(snap.stderr_observed_bytes, 0);
}

#[test]
fn status_terminal_payload_is_repeatable() {
    let dir = JobDir::open("/r", "J1", true).unwrap();
    let meta_obj = agent_exec::schema::JobMeta {
        job: agent_exec::schema::JobMetaJob { id: "J1".to_string() },
        schema_version: "0.1".to_string(),
        command: vec!["true".to_string()],
        created_at: "2024-01-01T00:00:00Z".to_string(),
        root: "/r".to_string(),
        env_keys: vec![],
        env_vars: vec![],
        mask: vec![],
        cwd: None,
    };
    let st = exited_state("J1");
    let (_, first) = status::execute("J1", &meta_obj, &st);
    let (_, second) = status::execute("J1", &meta_obj, &st);
    assert_eq!(first, second, "repeated status reads must be identical");
    drop(dir);
}

#[test]
fn wait_decisions() {
    // Terminal state: respond at once with the terminal data.
    let done = exited_state("J");
    let r = wait::execute("J", &done, false).expect("terminal state responds");
    assert_eq!(r.0.state, "exited");
    assert_eq!(r.0.exit_code, Some(0));
    // Still running, deadline not passed: keep polling.
    let live = running_state("J", Some(3));
    assert!(wait::execute("J", &live, false).is_none());
    // Still running past the deadline: a success response, not an error.
    let r2 = wait::execute("J", &live, true).expect("timeout still responds");
    assert_eq!(r2.0.state, "running");
    assert!(r2.0.exit_code.is_none());
}

#[test]
fn kill_running_job_writes_killed_state() {
    let st = running_state("J", Some(77));
    let (rendered, new_state, signal_pid) =
        kill::execute("J", "term", &st, "2024-01-01T00:00:09Z");
    assert_eq!(signal_pid, Some(77));
    let ns = new_state.expect("a running job gets a state write");
    assert_eq!(ns.job.status, JobStatus::Killed);
    assert_eq!(ns.result.signal.as_deref(), Some("TERM"));
    assert_eq!(ns.finished_at.as_deref(), Some("2024-01-01T00:00:09Z"));
    let v: serde_json::Value =
        serde_json::from_str(&String::from_utf8(rendered).unwrap()).unwrap();
    assert_eq!(v["type"], "kill");
    assert_eq!(v["signal"], "TERM");
}

#[test]
fn kill_non_running_is_identical_noop() {
    let st = exited_state("J");
    let (first, w1, p1) = kill::execute("J", "TERM", &st, "2024-01-01T00:00:09Z");
    let (second, w2, p2) = kill::execute("J", "TERM", &st, "2024-01-01T00:00:10Z");
    assert!(w1.is_none() && w2.is_none(), "no state write on a finished job");
    assert!(p1.is_none() && p2.is_none(), "nobody is signalled");
    assert_eq!(first, second, "repeated kill must emit identical JSON");
}

#[test]
fn process_tree_closure_collects_descendants() {
    // 1 -> 2 -> 3, and 9 unrelated.
    let procs: Vec<(u32, u32)> = vec![(2, 1), (3, 2), (9, 8)];
    let tree = kill::process_tree_closure(&procs, 1);
    assert_eq!(tree, vec![1, 2, 3]);
}

#[test]
fn tee_split_chunk_keeps_partial_lines() {
    let mut buf: Vec<u8> = Vec::new();
    let lines = tee_split_chunk(&mut buf, b"one\ntwo\npart");
    assert_eq!(lines, vec![b"one".to_vec(), b"two".to_vec()]);
    assert_eq!(buf, b"part".to_vec());
    let more = tee_split_chunk(&mut buf, b"ial\n");
    assert_eq!(more, vec![b"partial".to_vec()]);
    assert_eq!(buf, Vec::<u8>::new());
}

#[test]
fn full_log_line_format() {
    let line = format_full_line("2024-01-01T00:00:00Z", "STDOUT", &b"hello".to_vec());
    assert_eq!(
        String::from_utf8(line).unwrap(),
        "2024-01-01T00:00:00Z [STDOUT] hello\n"
    );
}
