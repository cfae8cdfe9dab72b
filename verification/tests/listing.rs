//! Tests for the `list` sub-command core: filtering, ordering, limits
//! and the absent-root case.

use agent_exec::jobstore::{emit_meta, emit_state};
use agent_exec::list::{execute, ListEntry};
use agent_exec::schema::{
    JobMeta, JobMetaJob, JobState, JobStateJob, JobStateResult, JobStatus,
};

fn meta(job_id: &str, created_at: &str, cwd: Option<&str>) -> Vec<u8> {
    emit_meta(
        &JobMeta {
            job: JobMetaJob { id: job_id.to_string() },
            schema_version: "0.1".to_string(),
            command: vec!["sleep".to_string()],
            created_at: created_at.to_string(),
            root: "/r".to_string(),
            env_keys: vec![],
            env_vars: vec![],
            mask: vec![],
            cwd: cwd.map(|c| c.to_string()),
        },
    )
}

fn state(job_id: &str, status: JobStatus) -> Vec<u8> {
    emit_state(
        &JobState {
            job: JobStateJob {
                id: job_id.to_string(),
                status,
                started_at: "2024-01-01T00:00:00Z".to_string(),
            },
            result: JobStateResult { exit_code: None, signal: None, duration_ms: None },
            pid: Some(1),
            finished_at: None,
            updated_at: "2024-01-01T00:00:01Z".to_string(),
            windows_job_name: None,
        },
    )
}

fn entry(meta_bytes: Vec<u8>, state_bytes: Option<Vec<u8>>) -> ListEntry {
    ListEntry { is_dir: true, meta_bytes: Some(meta_bytes), state_bytes }
}

#[test]
fn list_returns_empty_when_root_does_not_exist() {
    let (data, rendered) = execute("/nope", false, None, None, 0, &vec![]);
    assert_eq!(data.jobs.len(), 0);
    assert!(!data.truncated);
    assert_eq!(data.skipped, 0);
    let text = String::from_utf8(rendered).unwrap();
    let v: serde_json::Value = serde_json::from_str(&text).unwrap();
    assert_eq!(v["jobs"].as_array().unwrap().len(), 0);
    assert_eq!(v["truncated"], false);
}

#[test]
fn list_returns_jobs_sorted_by_started_at_desc() {
    let entries = vec![
        entry(meta("A", "2024-01-01T00:00:00Z", None), None),
        entry(meta("B", "2024-03-01T00:00:00Z", None), None),
        entry(meta("C", "2024-02-01T00:00:00Z", None), None),
    ];
    let (data, _) = execute("/r", true, None, None, 0, &entries);
    let ids: Vec<&str> = data.jobs.iter().map(|j| j.job_id.as_str()).collect();
    assert_eq!(ids, vec!["B", "C", "A"]);
}

#[test]
fn list_tie_breaks_by_job_id_desc() {
    let entries = vec![
        entry(meta("A", "2024-01-01T00:00:00Z", None), None),
        entry(meta("B", "2024-01-01T00:00:00Z", None), None),
    ];
    let (data, _) = execute("/r", true, None, None, 0, &entries);
    let ids: Vec<&str> = data.jobs.iter().map(|j| j.job_id.as_str()).collect();
    assert_eq!(ids, vec!["B", "A"]);
}

#[test]
fn list_limit_truncates_result() {
    let entries = vec![
        entry(meta("A", "2024-01-01T00:00:00Z", None), None),
        entry(meta("B", "2024-03-01T00:00:00Z", None), None),
        entry(meta("C", "2024-02-01T00:00:00Z", None), None),
    ];
    let (data, _) = execute("/r", true, None, None, 2, &entries);
    assert_eq!(data.jobs.len(), 2);
    assert!(data.truncated);
    let ids: Vec<&str> = data.jobs.iter().map(|j| j.job_id.as_str()).collect();
    assert_eq!(ids, vec!["B", "C"]);
}

#[test]
fn list_skips_invalid_directories() {
    let entries = vec![
        ListEntry { is_dir: true, meta_bytes: None, state_bytes: None },
        ListEntry { is_dir: true, meta_bytes: Some(b"not json".to_vec()), state_bytes: None },
        ListEntry { is_dir: false, meta_bytes: None, state_bytes: None },
        entry(meta("A", "2024-01-01T00:00:00Z", None), None),
    ];
    let (data, _) = execute("/r", true, None, None, 0, &entries);
    assert_eq!(data.skipped, 2, "unreadable and unparsable directories count");
    assert_eq!(data.jobs.len(), 1);
}

#[test]
fn list_default_filters_by_caller_cwd() {
    // Job A created from dir_a, job B from dir_b.
    let entries = vec![
        entry(meta("A", "2024-01-01T00:00:00Z", Some("/dir_a")), None),
        entry(meta("B", "2024-01-02T00:00:00Z", Some("/dir_b")), None),
    ];
    let (from_a, _) = execute("/r", true, Some("/dir_a"), None, 0, &entries);
    let ids: Vec<&str> = from_a.jobs.iter().map(|j| j.job_id.as_str()).collect();
    assert_eq!(ids, vec!["A"]);
}

#[test]
fn list_cwd_flag_filters_by_specified_directory() {
    let entries = vec![
        entry(meta("A", "2024-01-01T00:00:00Z", Some("/dir_a")), None),
        entry(meta("B", "2024-01-02T00:00:00Z", Some("/dir_b")), None),
    ];
    let (from_b, _) = execute("/r", true, Some("/dir_b"), None, 0, &entries);
    let ids: Vec<&str> = from_b.jobs.iter().map(|j| j.job_id.as_str()).collect();
    assert_eq!(ids, vec!["B"]);
}

#[test]
fn list_all_flag_disables_cwd_filter() {
    let entries = vec![
        entry(meta("A", "2024-01-01T00:00:00Z", Some("/dir_a")), None),
        entry(meta("B", "2024-01-02T00:00:00Z", Some("/dir_b")), None),
        entry(meta("C", "2024-01-03T00:00:00Z", None), None),
    ];
    let (all, _) = execute("/r", true, None, None, 0, &entries);
    assert_eq!(all.jobs.len(), 3, "no filter shows every job");
    // Every job a filtered listing shows appears in the unfiltered one.
    for filter in ["/dir_a", "/dir_b"] {
        let (some, _) = execute("/r", true, Some(filter), None, 0, &entries);
        for j in &some.jobs {
            assert!(all.jobs.iter().any(|a| a.job_id == j.job_id));
        }
    }
}

#[test]
fn list_filters_by_state_running() {
    let entries = vec![
        entry(
            meta("A", "2024-01-01T00:00:00Z", None),
            Some(state("A", JobStatus::Running)),
        ),
        entry(
            meta("B", "2024-01-02T00:00:00Z", None),
            Some(state("B", JobStatus::Exited)),
        ),
    ];
    let (data, _) = execute("/r", true, None, Some("running"), 0, &entries);
    let ids: Vec<&str> = data.jobs.iter().map(|j| j.job_id.as_str()).collect();
    assert_eq!(ids, vec!["A"]);
}

#[test]
fn list_missing_state_shows_unknown() {
    let entries = vec![entry(meta("A", "2024-01-01T00:00:00Z", None), None)];
    let (data, _) = execute("/r", true, None, None, 0, &entries);
    assert_eq!(data.jobs[0].state, "unknown");
    assert!(data.jobs[0].exit_code.is_none());
    // `--state unknown` matches such entries.
    let (only_unknown, _) = execute("/r", true, None, Some("unknown"), 0, &entries);
    assert_eq!(only_unknown.jobs.len(), 1);
}

#[test]
fn list_response_contains_root_field() {
    let (_, rendered) = execute("/some/root", true, None, None, 0, &vec![]);
    let text = String::from_utf8(rendered).unwrap();
    let v: serde_json::Value = serde_json::from_str(&text).unwrap();
    assert_eq!(v["root"], "/some/root");
    assert_eq!(v["type"], "list");
    assert_eq!(v["schema_version"], "0.1");
}
