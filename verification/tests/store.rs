//! Tests for root resolution, job paths, the on-disk JSON formats and
//! the tail engine.

use agent_exec::jobstore::{
    emit_meta, emit_state, parse_meta, parse_state, resolve_root, tail_log_with_truncated,
    JobDir,
};
use agent_exec::schema::{
    JobMeta, JobMetaJob, JobState, JobStateJob, JobStateResult, JobStatus,
};

fn make_meta(job_id: &str, root: &str) -> JobMeta {
    JobMeta {
        job: JobMetaJob { id: job_id.to_string() },
        schema_version: "0.1".to_string(),
        command: vec!["echo".to_string(), "hello".to_string()],
        created_at: "2024-01-01T00:00:00Z".to_string(),
        root: root.to_string(),
        env_keys: vec!["FOO".to_string()],
        env_vars: vec![],
        mask: vec![],
        cwd: None,
    }
}

fn make_state(job_id: &str, pid: u32) -> JobState {
    JobState {
        job: JobStateJob {
            id: job_id.to_string(),
            status: JobStatus::Running,
            started_at: "2024-01-01T00:00:00Z".to_string(),
        },
        result: JobStateResult { exit_code: None, signal: None, duration_ms: None },
        pid: Some(pid),
        finished_at: None,
        updated_at: "2024-01-01T00:00:01Z".to_string(),
        windows_job_name: None,
    }
}

#[test]
fn resolve_root_cli_flag_wins() {
    let root = resolve_root(Some("/tmp/my-root"), None, None, None);
    assert_eq!(root, "/tmp/my-root");
}

#[test]
fn resolve_root_env_var() {
    let root = resolve_root(None, Some("/tmp/env-root"), None, None);
    assert_eq!(root, "/tmp/env-root");
}

#[test]
fn resolve_root_xdg() {
    let root = resolve_root(None, None, Some("/tmp/xdg"), None);
    assert_eq!(root, "/tmp/xdg/agent-exec/jobs");
}

#[test]
fn resolve_root_empty_env_falls_through() {
    let root = resolve_root(None, Some(""), Some(""), Some("/home/u/.local/share"));
    assert_eq!(root, "/home/u/.local/share/agent-exec/jobs");
}

#[test]
fn resolve_root_default_contains_agent_exec() {
    let root = resolve_root(None, None, None, None);
    assert!(root.contains("agent-exec"), "expected agent-exec in path, got {root}");
}

#[test]
fn job_dir_paths() {
    let dir = JobDir::open("/tmp/root", "job1", true).unwrap();
    assert_eq!(dir.meta_path(), "/tmp/root/job1/meta.json");
    assert_eq!(dir.state_path(), "/tmp/root/job1/state.json");
    assert_eq!(dir.stdout_path(), "/tmp/root/job1/stdout.log");
    assert_eq!(dir.stderr_path(), "/tmp/root/job1/stderr.log");
    assert_eq!(dir.full_log_path(), "/tmp/root/job1/full.log");
}

#[test]
fn job_dir_open_missing_is_not_found() {
    let r = JobDir::open("/tmp/root", "absent", false);
    assert!(r.is_err());
    assert_eq!(r.unwrap_err().job_id, "absent");
}

#[test]
fn meta_roundtrip() {
    let meta = make_meta("job-a", "/tmp/root");
    let bytes = emit_meta(&meta);
    let parsed = parse_meta(&bytes).expect("canonical meta parses");
    assert_eq!(parsed, meta);
    let text = String::from_utf8(bytes).unwrap();
    let v: serde_json::Value = serde_json::from_str(&text).unwrap();
    assert_eq!(v["job"]["id"], "job-a");
    assert_eq!(v["schema_version"], "0.1");
    assert_eq!(v["command"][0], "echo");
}

#[test]
fn state_roundtrip() {
    let state = make_state("job-a", 4242);
    let bytes = emit_state(&state);
    let parsed = parse_state(&bytes).expect("canonical state parses");
    assert_eq!(parsed, state);
    let text = String::from_utf8(bytes).unwrap();
    let v: serde_json::Value = serde_json::from_str(&text).unwrap();
    assert_eq!(v["job"]["status"], "running");
    assert_eq!(v["pid"], 4242);
    assert!(v["result"]["exit_code"].is_null());
}

#[test]
fn state_roundtrip_with_escapes() {
    let mut state = make_state("job-\"quoted\"\\back", 1);
    state.result.signal = Some("TE\nRM".to_string());
    state.job.status = JobStatus::Killed;
    state.finished_at = Some("2024-01-01T00:00:02Z".to_string());
    let bytes = emit_state(&state);
    let parsed = parse_state(&bytes).expect("escaped state parses");
    assert_eq!(parsed, state);
    // The rendering stays on one line even with a newline in a value.
    assert!(!bytes_contains(&emit_state(&state), b'\n'));
}

fn bytes_contains(v: &[u8], b: u8) -> bool {
    v.iter().any(|x| *x == b)
}

#[test]
fn parsers_reject_non_canonical_input() {
    // Anything that is not this crate's canonical rendering is refused:
    // pretty-printed JSON, reordered keys, or plain junk.
    assert!(parse_state(&b"junk".to_vec()).is_none());
    assert!(parse_meta(&b"{ \"job\": {} }".to_vec()).is_none());
    let state = make_state("job-a", 1);
    let mut bytes = emit_state(&state);
    bytes.push(b' ');
    assert!(parse_state(&bytes).is_none(), "trailing bytes are refused");
}

#[test]
fn state_json_atomic_write_no_corruption() {
    // Ten successive renders parse back exactly, pid intact.
    for i in 0..10u32 {
        let state = make_state("job-x", 100 + i);
        let bytes = emit_state(&state);
        let loaded = parse_state(&bytes).expect("valid JSON");
        assert_eq!(loaded.pid, Some(100 + i), "state corrupted at iteration {i}");
    }
}

#[test]
fn init_state_shape() {
    let dir = JobDir::open("/tmp/root", "01TESTJOBID0000000000000", true).unwrap();
    let st = dir.init_state(1234, "2024-01-01T00:00:00Z", "2024-01-01T00:00:00Z", false);
    assert_eq!(st.job.id, "01TESTJOBID0000000000000");
    assert_eq!(st.job.status, JobStatus::Running);
    assert_eq!(st.pid, Some(1234));
    assert!(st.windows_job_name.is_none());
    let with_name = dir.init_state(1234, "2024-01-01T00:00:00Z", "2024-01-01T00:00:00Z", true);
    assert_eq!(
        with_name.windows_job_name.as_deref(),
        Some("AgentExec-01TESTJOBID0000000000000")
    );
}

// ---------- Tail engine ----------

#[test]
fn tail_absent_file_is_empty() {
    let (text, truncated) = tail_log_with_truncated(None, 10, 100);
    assert_eq!(text, "");
    assert!(!truncated);
}

#[test]
fn tail_keeps_last_lines() {
    let data: Vec<u8> = b"one\ntwo\nthree\nfour\nfive\n".to_vec();
    let (text, truncated) = tail_log_with_truncated(Some(&data), 2, 65536);
    assert_eq!(text, "four\nfive");
    assert!(truncated, "three lines were dropped");
}

#[test]
fn tail_lines_zero_disables_line_truncation() {
    let data: Vec<u8> = b"one\ntwo\nthree\n".to_vec();
    let (text, truncated) = tail_log_with_truncated(Some(&data), 0, 65536);
    assert_eq!(text, "one\ntwo\nthree\n");
    assert!(!truncated);
    // Byte truncation still applies with the line bound disabled.
    let (text2, truncated2) = tail_log_with_truncated(Some(&data), 0, 5);
    assert_eq!(text2, "hree\n");
    assert!(truncated2);
}

#[test]
fn tail_byte_bound_cuts_from_the_end() {
    let data: Vec<u8> = b"abcdefghij".to_vec();
    let (text, truncated) = tail_log_with_truncated(Some(&data), 0, 4);
    assert_eq!(text, "ghij");
    assert!(truncated);
}

#[test]
fn tail_strips_carriage_returns() {
    let data: Vec<u8> = b"a\r\nb\r\nc\r\n".to_vec();
    let (text, _) = tail_log_with_truncated(Some(&data), 2, 65536);
    assert_eq!(text, "b\nc");
}

#[test]
fn tail_partial_line_without_newline() {
    let data: Vec<u8> = b"hello".to_vec();
    let (text, truncated) = tail_log_with_truncated(Some(&data), 50, 65536);
    assert_eq!(text, "hello");
    assert!(!truncated);
}

#[test]
fn tail_invalid_utf8_is_replaced() {
    let data: Vec<u8> = vec![0x68, 0x69, 0xff];
    let (text, _) = tail_log_with_truncated(Some(&data), 0, 65536);
    assert!(text.starts_with("hi"));
    assert!(text.contains('\u{fffd}'));
}

#[test]
fn tail_metrics_included_le_observed() {
    let dir = JobDir::open("/tmp/root", "j", true).unwrap();
    let data: Vec<u8> = b"one\ntwo\nthree\nfour\nfive\n".to_vec();
    let m = dir.read_tail_metrics(Some(&data), 2, 65536);
    assert_eq!(m.observed_bytes, 24);
    assert_eq!(m.tail, "four\nfive");
    assert_eq!(m.included_bytes, 9);
    assert!(m.included_bytes <= m.observed_bytes);
    assert!(m.truncated);
}
