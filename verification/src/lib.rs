//! agent_exec — core library of a non-interactive job runner.
//!
//! External commands are spawned as detached background jobs; every job
//! persists on disk under a unique identifier so that independent
//! invocations can observe it.  This crate holds the verified core: the
//! on-disk JSON formats, the tail engine, environment masking, timestamp
//! formatting, and the decision logic of each sub-command.  Process
//! spawning, signalling and file I/O live in the thin unverified shell
//! around the library.

pub mod commands;
pub mod install_skills;
pub mod jobstore;
pub mod json;
pub mod jsonparse;
pub mod kill;
pub mod list;
pub mod order;
pub mod run;
pub mod schema;
pub mod schema_cmd;
pub mod skills;
pub mod status;
pub mod strbytes;
pub mod tail;
pub mod time;
pub mod wait;
