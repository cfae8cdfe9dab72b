//! The `install-skills` sub-command: record an installed skill in the
//! lock file and report it.  The copying itself happens in the shell;
//! this module decides the lock update and renders the response.

use vstd::prelude::*;
use vstd::string::StringSliceAdditionalSpecFns;
use crate::json::{
    no_newline, push_json_str, push_lit, spec_json_string, lemma_json_string_no_newline,
    lemma_ascii_lit_line,
};
use crate::schema::{lemma_envelope_single_line, render_envelope, spec_bool, spec_envelope};
use crate::skills::{spec_find_name, InstalledSkill, LockEntry, LockFile};

verus! {

/// Options for the `install-skills` sub-command.
#[derive(Debug)]
pub struct InstallSkillsOpts<'a> {
    /// Source specification, such as `self` or `local:<path>`.
    pub source: &'a str,
    /// Install under the home directory instead of the working
    /// directory.
    pub global: bool,
}

/// The payload body of an `install_skills` envelope.
pub open spec fn spec_install_body(
    name: Seq<char>,
    source: Seq<char>,
    path: Seq<char>,
    global: bool,
    lock_file_path: Seq<char>,
) -> Seq<u8> {
    (",\"skills\":[{\"name\":").spec_bytes() + spec_json_string(name) + (
    ",\"source\":").spec_bytes() + spec_json_string(source) + (",\"path\":").spec_bytes()
        + spec_json_string(path) + ("}],\"global\":").spec_bytes() + spec_bool(global) + (
    ",\"lock_file_path\":").spec_bytes() + spec_json_string(lock_file_path)
}

/// The full `install_skills` envelope.
pub open spec fn spec_install_json(
    name: Seq<char>,
    source: Seq<char>,
    path: Seq<char>,
    global: bool,
    lock_file_path: Seq<char>,
) -> Seq<u8> {
    spec_envelope(
        true,
        "install_skills"@,
        spec_install_body(name, source, path, global, lock_file_path),
    )
}

/// Execute `install-skills` once the skill's files are in place: record
/// the installation in the lock file — replacing the first entry of the
/// same name or appending — and render the response.
pub fn execute(
    installed: &InstalledSkill,
    lock: &mut LockFile,
    installed_at: &str,
    global: bool,
    lock_file_path: &str,
) -> (r: Vec<u8>)
    ensures
        exists|e: LockEntry|
            {
                let idx = spec_find_name(old(lock).skills@, installed.name@);
                &&& #[trigger] e.name@ == installed.name@
                &&& e.source@ == installed.source_str@
                &&& e.installed_at@ == installed_at@
                &&& e.path@ == installed.path@
                &&& (if idx < old(lock).skills@.len() {
                    final(lock).skills@ == old(lock).skills@.update(idx, e)
                } else {
                    final(lock).skills@ == old(lock).skills@.push(e)
                })
            },
        r@ == spec_install_json(
            installed.name@,
            installed.source_str@,
            installed.path@,
            global,
            lock_file_path@,
        ),
        no_newline(r@),
{
    let entry = LockEntry {
        name: installed.name.clone(),
        source: installed.source_str.clone(),
        installed_at: String::from_str(installed_at),
        path: installed.path.clone(),
    };
    let ghost ge = entry;
    lock.upsert(entry);
    proof {
        assert(ge.name@ == installed.name@);
    }
    let mut body: Vec<u8> = Vec::new();
    push_lit(&mut body, ",\"skills\":[{\"name\":");
    push_json_str(&mut body, installed.name.as_str());
    push_lit(&mut body, ",\"source\":");
    push_json_str(&mut body, installed.source_str.as_str());
    push_lit(&mut body, ",\"path\":");
    push_json_str(&mut body, installed.path.as_str());
    push_lit(&mut body, "}],\"global\":");
    crate::schema::push_bool(&mut body, global);
    push_lit(&mut body, ",\"lock_file_path\":");
    push_json_str(&mut body, lock_file_path);
    proof {
        assert(body@ =~= spec_install_body(
            installed.name@,
            installed.source_str@,
            installed.path@,
            global,
            lock_file_path@,
        ));
        lemma_install_body_line(
            installed.name@,
            installed.source_str@,
            installed.path@,
            global,
            lock_file_path@,
        );
        lemma_envelope_single_line(
            true,
            "install_skills"@,
            spec_install_body(
                installed.name@,
                installed.source_str@,
                installed.path@,
                global,
                lock_file_path@,
            ),
        );
    }
    render_envelope(true, "install_skills", &body)
}

proof fn lemma_install_body_line(
    name: Seq<char>,
    source: Seq<char>,
    path: Seq<char>,
    global: bool,
    lock_file_path: Seq<char>,
)
    ensures
        no_newline(spec_install_body(name, source, path, global, lock_file_path)),
{
    broadcast use crate::json::lemma_no_newline_concat;

    reveal_strlit(",\"skills\":[{\"name\":");
    reveal_strlit(",\"source\":");
    reveal_strlit(",\"path\":");
    reveal_strlit("}],\"global\":");
    reveal_strlit(",\"lock_file_path\":");
    reveal_strlit("true");
    reveal_strlit("false");
    lemma_ascii_lit_line(",\"skills\":[{\"name\":");
    lemma_ascii_lit_line(",\"source\":");
    lemma_ascii_lit_line(",\"path\":");
    lemma_ascii_lit_line("}],\"global\":");
    lemma_ascii_lit_line(",\"lock_file_path\":");
    lemma_ascii_lit_line("true");
    lemma_ascii_lit_line("false");
    lemma_json_string_no_newline(name);
    lemma_json_string_no_newline(source);
    lemma_json_string_no_newline(path);
    lemma_json_string_no_newline(lock_file_path);
}

} // verus!
