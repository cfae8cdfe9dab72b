//! Tests for skill sources, the lock file and the install response.

use agent_exec::install_skills;
use agent_exec::skills::{
    emit_lock, install_name, parse_lock, resolve_agents_dir, InstalledSkill, LockEntry,
    LockFile, Source,
};

fn entry(name: &str) -> LockEntry {
    LockEntry {
        name: name.to_string(),
        source: "self".to_string(),
        installed_at: "2024-01-01T00:00:00Z".to_string(),
        path: format!("/a/skills/{name}"),
    }
}

#[test]
fn source_parse_accepts_self_and_local() {
    assert!(matches!(Source::parse("self"), Ok(Source::SelfEmbedded)));
    match Source::parse("local:/tmp/skill") {
        Ok(Source::Local(p)) => assert_eq!(p, "/tmp/skill"),
        other => panic!("expected a local source, got {other:?}"),
    }
}

#[test]
fn source_parse_rejects_unknown_scheme() {
    let e = Source::parse("git:whatever").unwrap_err();
    assert_eq!(e.scheme, "git:whatever");
    assert!(e.message().contains("unknown_source_scheme"));
}

#[test]
fn install_name_rules() {
    assert_eq!(install_name(&Source::SelfEmbedded).as_deref(), Some("agent-exec"));
    assert_eq!(
        install_name(&Source::Local("/a/b/myskill".to_string())).as_deref(),
        Some("myskill")
    );
    assert!(install_name(&Source::Local("/a/b/".to_string())).is_none());
}

#[test]
fn resolve_agents_dir_rules() {
    assert_eq!(resolve_agents_dir(false, None, "/work").unwrap(), "/work/.agents");
    assert_eq!(resolve_agents_dir(true, Some("/home/u"), "/work").unwrap(), "/home/u/.agents");
    assert!(resolve_agents_dir(true, None, "/work").is_err());
}

#[test]
fn lock_upsert_replaces_or_appends() {
    let mut lock = LockFile { skills: vec![entry("a"), entry("b")] };
    let mut replacement = entry("a");
    replacement.installed_at = "2025-01-01T00:00:00Z".to_string();
    lock.upsert(replacement);
    assert_eq!(lock.skills.len(), 2);
    assert_eq!(lock.skills[0].installed_at, "2025-01-01T00:00:00Z");
    lock.upsert(entry("c"));
    assert_eq!(lock.skills.len(), 3);
    assert_eq!(lock.skills[2].name, "c");
}

#[test]
fn lock_file_roundtrip() {
    let lock = LockFile { skills: vec![entry("a"), entry("b")] };
    let bytes = emit_lock(&lock);
    let parsed = parse_lock(&bytes).expect("canonical lock parses");
    assert_eq!(parsed.skills, lock.skills);
    let v: serde_json::Value =
        serde_json::from_str(&String::from_utf8(bytes).unwrap()).unwrap();
    assert_eq!(v["skills"][0]["name"], "a");
    // Any other shape is rejected, which readers treat as empty.
    assert!(parse_lock(&b"{}".to_vec()).is_none());
}

#[test]
fn empty_lock_roundtrip() {
    let lock = LockFile { skills: vec![] };
    let bytes = emit_lock(&lock);
    assert_eq!(String::from_utf8(bytes.clone()).unwrap(), "{\"skills\":[]}");
    assert_eq!(parse_lock(&bytes).expect("empty lock parses").skills.len(), 0);
}

#[test]
fn install_skills_records_and_reports() {
    let installed = InstalledSkill {
        name: "agent-exec".to_string(),
        path: "/a/.agents/skills/agent-exec".to_string(),
        source_str: "self".to_string(),
    };
    let mut lock = LockFile { skills: vec![] };
    let rendered = install_skills::execute(
        &installed,
        &mut lock,
        "2024-01-01T00:00:00Z",
        false,
        "/a/.agents/.skill-lock.json",
    );
    assert_eq!(lock.skills.len(), 1);
    assert_eq!(lock.skills[0].name, "agent-exec");
    let v: serde_json::Value =
        serde_json::from_str(&String::from_utf8(rendered).unwrap()).unwrap();
    assert_eq!(v["type"], "install_skills");
    assert_eq!(v["skills"][0]["name"], "agent-exec");
    assert_eq!(v["global"], false);
    assert_eq!(v["lock_file_path"], "/a/.agents/.skill-lock.json");
}

#[test]
fn schema_candidates_probe_binary_and_parents() {
    let c = agent_exec::schema_cmd::schema_file_candidates("/bin/dir");
    assert_eq!(c.len(), 4);
    assert_eq!(c[0], "/bin/dir/schema/agent-exec.schema.json");
    assert_eq!(c[1], "/bin/dir/../schema/agent-exec.schema.json");
}
