//! The `schema` sub-command: locate the bundled schema file.  Reading
//! and emitting the file happen in the shell; the candidate paths it
//! probes are decided here.

use vstd::prelude::*;
use crate::jobstore::spec_path_join;

verus! {

/// Options for the `schema` sub-command.
#[derive(Debug)]
pub struct SchemaOpts;

/// The locations probed for the bundled schema file, relative to the
/// binary's directory: the directory itself, then up to three parents —
/// which covers test layouts — each with `schema/agent-exec.schema.json`
/// below it.
pub fn schema_file_candidates(bin_dir: &str) -> (r: Vec<String>)
    ensures
        r@.len() == 4,
        r@[0]@ == spec_path_join(
            spec_path_join(bin_dir@, "schema"@),
            "agent-exec.schema.json"@,
        ),
        r@[1]@ == spec_path_join(
            spec_path_join(spec_path_join(bin_dir@, ".."@), "schema"@),
            "agent-exec.schema.json"@,
        ),
        r@[2]@ == spec_path_join(
            spec_path_join(spec_path_join(spec_path_join(bin_dir@, ".."@), ".."@), "schema"@),
            "agent-exec.schema.json"@,
        ),
        r@[3]@ == spec_path_join(
            spec_path_join(
                spec_path_join(
                    spec_path_join(spec_path_join(bin_dir@, ".."@), ".."@),
                    ".."@,
                ),
                "schema"@,
            ),
            "agent-exec.schema.json"@,
        ),
{
    let mut out: Vec<String> = Vec::new();
    let base = String::from_str(bin_dir);
    out.push(join2(base.as_str()));
    let up1 = join(base.as_str(), "..");
    out.push(join2(up1.as_str()));
    let up2 = join(up1.as_str(), "..");
    out.push(join2(up2.as_str()));
    let up3 = join(up2.as_str(), "..");
    out.push(join2(up3.as_str()));
    out
}

fn join(a: &str, b: &str) -> (r: String)
    ensures
        r@ == spec_path_join(a@, b@),
{
    let mut s = String::from_str(a);
    s.append("/");
    s.append(b);
    s
}

fn join2(dir: &str) -> (r: String)
    ensures
        r@ == spec_path_join(spec_path_join(dir@, "schema"@), "agent-exec.schema.json"@),
{
    let mut s = String::from_str(dir);
    s.append("/");
    s.append("schema");
    s.append("/");
    s.append("agent-exec.schema.json");
    s
}

} // verus!
