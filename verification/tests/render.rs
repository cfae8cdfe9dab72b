//! Tests for the JSON envelopes: one line each, parseable, with the
//! fixed schema version, and never leaking masked values.

use agent_exec::jobstore::emit_meta;
use agent_exec::run::{env_keys_of, mask_env_vars};
use agent_exec::schema::{
    render_run, render_status, render_wait, ErrorResponse, JobMeta, JobMetaJob, RunData,
    Snapshot, StatusData, WaitData,
};

fn parse_line(bytes: &[u8]) -> serde_json::Value {
    let text = String::from_utf8(bytes.to_vec()).unwrap();
    assert!(!text.contains('\n'), "envelope must be a single line");
    serde_json::from_str(&text).expect("envelope parses as JSON")
}

#[test]
fn status_envelope_shape() {
    let d = StatusData {
        job_id: "J1".to_string(),
        state: "exited".to_string(),
        exit_code: Some(0),
        started_at: "2024-01-01T00:00:00Z".to_string(),
        finished_at: Some("2024-01-01T00:00:05Z".to_string()),
    };
    let v = parse_line(&render_status(&d));
    assert_eq!(v["schema_version"], "0.1");
    assert_eq!(v["ok"], true);
    assert_eq!(v["type"], "status");
    assert_eq!(v["job_id"], "J1");
    assert_eq!(v["state"], "exited");
    assert_eq!(v["exit_code"], 0);
    assert_eq!(v["finished_at"], "2024-01-01T00:00:05Z");
}

#[test]
fn status_running_omits_optional_fields() {
    let d = StatusData {
        job_id: "J1".to_string(),
        state: "running".to_string(),
        exit_code: None,
        started_at: "2024-01-01T00:00:00Z".to_string(),
        finished_at: None,
    };
    let v = parse_line(&render_status(&d));
    assert!(v.get("exit_code").is_none());
    assert!(v.get("finished_at").is_none());
}

#[test]
fn error_response_has_retryable_field() {
    let e = ErrorResponse::new(
        "job_not_found".to_string(),
        "job not found: NONEXISTENT".to_string(),
        false,
    );
    let v = parse_line(&e.render());
    assert_eq!(v["schema_version"], "0.1");
    assert_eq!(v["ok"], false);
    assert_eq!(v["type"], "error");
    assert_eq!(v["error"]["code"], "job_not_found");
    assert_eq!(v["error"]["retryable"], false);
    assert_eq!(v["error"]["message"], "job not found: NONEXISTENT");
}

#[test]
fn wait_envelope_shape() {
    let d = WaitData { job_id: "J".to_string(), state: "running".to_string(), exit_code: None };
    let v = parse_line(&render_wait(&d));
    assert_eq!(v["type"], "wait");
    assert_eq!(v["state"], "running");
}

fn sample_snapshot() -> Snapshot {
    Snapshot {
        stdout_tail: "hello".to_string(),
        stderr_tail: "".to_string(),
        truncated: false,
        encoding: "utf-8-lossy".to_string(),
        stdout_observed_bytes: 6,
        stderr_observed_bytes: 0,
        stdout_included_bytes: 5,
        stderr_included_bytes: 0,
    }
}

#[test]
fn run_envelope_with_snapshot() {
    let d = RunData {
        job_id: "01JOB".to_string(),
        state: "running".to_string(),
        env_vars: vec!["SECRET=***".to_string()],
        snapshot: Some(sample_snapshot()),
        stdout_log_path: "/r/j/stdout.log".to_string(),
        stderr_log_path: "/r/j/stderr.log".to_string(),
        waited_ms: 500,
        elapsed_ms: 520,
        exit_code: None,
        finished_at: None,
        final_snapshot: None,
    };
    let v = parse_line(&render_run(&d));
    assert_eq!(v["type"], "run");
    assert_eq!(v["snapshot"]["stdout_tail"], "hello");
    assert_eq!(v["snapshot"]["encoding"], "utf-8-lossy");
    assert_eq!(v["env_vars"][0], "SECRET=***");
    assert_eq!(v["waited_ms"], 500);
}

#[test]
fn run_envelope_without_snapshot_omits_field() {
    let d = RunData {
        job_id: "01JOB".to_string(),
        state: "running".to_string(),
        env_vars: vec![],
        snapshot: None,
        stdout_log_path: "/r/j/stdout.log".to_string(),
        stderr_log_path: "/r/j/stderr.log".to_string(),
        waited_ms: 0,
        elapsed_ms: 3,
        exit_code: None,
        finished_at: None,
        final_snapshot: None,
    };
    let v = parse_line(&render_run(&d));
    assert!(v.get("snapshot").is_none(), "snapshot field must be absent");
    assert!(v.get("env_vars").is_none(), "empty env_vars must be absent");
    assert_eq!(v["waited_ms"], 0);
}

#[test]
fn mask_replaces_env_var_value_with_stars() {
    let env_vars = vec!["SECRET=topsecret".to_string(), "OTHER=visible".to_string()];
    let mask = vec!["SECRET".to_string()];
    let masked = mask_env_vars(&env_vars, &mask);
    assert_eq!(masked, vec!["SECRET=***".to_string(), "OTHER=visible".to_string()]);
}

#[test]
fn masked_value_never_reaches_meta_json() {
    let env_vars = vec!["SECRET=topsecret".to_string()];
    let mask = vec!["SECRET".to_string()];
    let masked = mask_env_vars(&env_vars, &mask);
    let keys = env_keys_of(&env_vars);
    let meta = JobMeta {
        job: JobMetaJob { id: "J".to_string() },
        schema_version: "0.1".to_string(),
        command: vec!["echo".to_string(), "done".to_string()],
        created_at: "2024-01-01T00:00:00Z".to_string(),
        root: "/r".to_string(),
        env_keys: keys,
        env_vars: masked,
        mask,
        cwd: None,
    };
    let text = String::from_utf8(emit_meta(&meta)).unwrap();
    assert!(!text.contains("topsecret"), "masked value leaked into meta.json");
    assert!(text.contains("SECRET=***"));
    assert!(text.contains("\"SECRET\""));
}
