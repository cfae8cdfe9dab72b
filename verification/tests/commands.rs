//! Tests for the small self-contained commands.

use agent_exec::commands::{echo, greet, version};

#[test]
fn greet_defaults_to_world() {
    assert_eq!(greet(None), "Hello, world!");
    assert_eq!(greet(Some("")), "Hello, world!");
    assert_eq!(greet(Some("   ")), "Hello, world!");
}

#[test]
fn greet_uses_name() {
    assert_eq!(greet(Some("Alice")), "Hello, Alice!");
}

#[test]
fn echo_roundtrips() {
    assert_eq!(echo("hi"), "hi");
}

#[test]
fn greet_trims_whitespace() {
    assert_eq!(greet(Some("  Bob\t")), "Hello, Bob!");
}

#[test]
fn version_is_crate_version() {
    assert_eq!(version(), "0.1.0");
}
