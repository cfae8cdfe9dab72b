//! The `kill` sub-command: signal a running job and record the kill.
//!
//! On a job that is not running, `kill` is a success no-op: it emits the
//! same JSON it would for a running job but writes nothing and signals
//! nobody, so repeating it changes nothing.  The actual signalling —
//! POSIX `kill(2)` or kernel job-object termination — happens in the
//! unverified shell; the decision of whether to signal, what state to
//! write, and what to print is made here.

use vstd::prelude::*;
use crate::json::no_newline;
use crate::schema::{
    spec_kill_body, spec_kill_json, spec_state_wf, spec_status_can_transition, render_kill,
    JobState, JobStateJob, JobStateResult, JobStatus, KillData,
};

verus! {

/// Options for the `kill` sub-command.
#[derive(Debug)]
pub struct KillOpts<'a> {
    pub job_id: &'a str,
    pub root: Option<&'a str>,
    /// Signal name: TERM, INT or KILL.
    pub signal: &'a str,
}

impl<'a> Default for KillOpts<'a> {
    /// The documented defaults of the `kill` sub-command.
    fn default() -> (r: Self)
        ensures
            r.job_id@ == ""@,
            r.root is None,
            r.signal@ == "TERM"@,
    {
        KillOpts { job_id: "", root: None, signal: "TERM" }
    }
}

/// ASCII upper-casing of one character.
pub open spec fn spec_upper_char(c: char) -> char {
    if 'a' <= c <= 'z' {
        ((c as u8) - 0x20) as char
    } else {
        c
    }
}

/// ASCII upper-casing of a string, character by character.
pub open spec fn spec_upper(s: Seq<char>) -> Seq<char> {
    s.map_values(|c: char| spec_upper_char(c))
}

/// Whether every character of a signal name is ASCII.
pub open spec fn spec_sig_ascii(s: Seq<char>) -> bool {
    forall|i: int| 0 <= i < s.len() ==> #[trigger] s[i] <= '\u{7f}'
}

/// What signal-name normalization yields: ASCII names are upper-cased,
/// anything else passes through unchanged (and maps to the hard kill
/// downstream anyway).
pub open spec fn spec_normalize_signal(s: Seq<char>) -> Seq<char> {
    if spec_sig_ascii(s) {
        spec_upper(s)
    } else {
        s
    }
}

/// Normalize a signal name for matching and reporting.
pub fn normalize_signal(s: &str) -> (r: String)
    ensures
        r@ == spec_normalize_signal(s@),
{
    let n: usize = s.unicode_len();
    let mut out: Vec<u8> = Vec::new();
    let mut i: usize = 0;
    while i < n
        invariant
            0 <= i <= n,
            n == s@.len(),
            out@.len() == i,
            crate::strbytes::all_ascii(out@),
            forall|k: int| 0 <= k < i ==> s@[k] <= '\u{7f}',
            forall|k: int| 0 <= k < i ==> #[trigger] out@[k] as char == spec_upper_char(s@[k]),
        decreases n - i,
    {
        let c = s.get_char(i);
        if c > '\u{7f}' {
            proof {
                assert(!spec_sig_ascii(s@));
            }
            return String::from_str(s);
        }
        let b: u8 = c as u8;
        let u: u8 = if 0x61 <= b && b <= 0x7a {
            b - 0x20
        } else {
            b
        };
        out.push(u);
        proof {
            assert(out@[i as int] as char == spec_upper_char(s@[i as int]));
        }
        i = i + 1;
    }
    proof {
        assert(spec_sig_ascii(s@));
    }
    let r = crate::strbytes::ascii_to_string(&out);
    proof {
        assert(r@ =~= spec_upper(s@));
    }
    r
}

/// Which signal the shell sends: the three named signals, and the
/// hard kill for anything unrecognised.
#[derive(Debug, PartialEq, Eq, Structural)]
pub enum SignalChoice {
    Term,
    Int,
    Kill,
}

/// Translate a normalized signal name: `TERM`, `INT` and `KILL` map to
/// themselves, an unknown name falls back to the hard kill.
pub fn choose_signal(name: &str) -> (r: SignalChoice)
    ensures
        name@ == "TERM"@ ==> r == SignalChoice::Term,
        name@ == "INT"@ ==> r == SignalChoice::Int,
        name@ == "KILL"@ ==> r == SignalChoice::Kill,
        name@ != "TERM"@ && name@ != "INT"@ && name@ != "KILL"@ ==> r == SignalChoice::Kill,
{
    proof {
        reveal_strlit("TERM");
        reveal_strlit("INT");
        reveal_strlit("KILL");
        assert("TERM"@.len() == 4 && "INT"@.len() == 3 && "KILL"@.len() == 4);
        assert("TERM"@ != "INT"@ && "INT"@ != "KILL"@);
        assert("TERM"@ != "KILL"@) by {
            assert("TERM"@[0] == 'T' && "KILL"@[0] == 'K');
        }
    }
    if crate::strbytes::str_eq(name, "TERM") {
        SignalChoice::Term
    } else if crate::strbytes::str_eq(name, "INT") {
        SignalChoice::Int
    } else {
        SignalChoice::Kill
    }
}

/// The terminal state `kill` records: `killed`, with the signal name
/// and the finish time, and no exit code.
pub fn killed_state(job_id: &str, started_at: &str, pid: u32, signal: &str, now: &str) -> (r:
    JobState)
    ensures
        r.job.id@ == job_id@,
        r.job.status == JobStatus::Killed,
        r.job.started_at@ == started_at@,
        r.result.exit_code is None,
        r.result.signal matches Some(s) && s@ == signal@,
        r.result.duration_ms is None,
        r.pid == Some(pid),
        r.finished_at matches Some(f) && f@ == now@,
        r.updated_at@ == now@,
        r.windows_job_name is None,
        spec_state_wf(r),
        spec_status_can_transition(JobStatus::Running, r.job.status),
{
    JobState {
        job: JobStateJob {
            id: String::from_str(job_id),
            status: JobStatus::Killed,
            started_at: String::from_str(started_at),
        },
        result: JobStateResult {
            exit_code: None,
            signal: Some(String::from_str(signal)),
            duration_ms: None,
        },
        pid: Some(pid),
        finished_at: Some(String::from_str(now)),
        updated_at: String::from_str(now),
        windows_job_name: None,
    }
}

/// Execute `kill` on a job's state as read from disk.
///
/// Returns the JSON line to print, the new state to write — `None` when
/// nothing must be written — and the pid to signal — `None` when nobody
/// is signalled.  A job that is not running is left untouched: no
/// signal, no write, but still a success envelope, so repeating the
/// call yields the identical response.
pub fn execute(job_id: &str, signal: &str, state: &JobState, now: &str) -> (r: (
    Vec<u8>,
    Option<JobState>,
    Option<u32>,
))
    ensures
        state.job.status != JobStatus::Running ==> r.1 is None && r.2 is None,
        state.job.status == JobStatus::Running && state.pid is None ==> r.1 is None
            && r.2 is None,
        (state.job.status == JobStatus::Running && state.pid is Some) ==> {
            &&& r.2 == state.pid
            &&& r.1 matches Some(st) && st.job.status == JobStatus::Killed && st.job.id@
                == job_id@ && st.job.started_at@ == state.job.started_at@ && (
            st.result.signal matches Some(sg) && sg@ == spec_normalize_signal(signal@))
                && st.result.exit_code is None && st.result.duration_ms is None && st.pid
                == state.pid && (st.finished_at matches Some(f) && f@ == now@)
                && st.updated_at@ == now@ && spec_state_wf(st) && spec_status_can_transition(
                state.job.status,
                st.job.status,
            )
        },
        exists|d: KillData|
            r.0@ == spec_kill_json(d) && #[trigger] d.job_id@ == job_id@ && d.signal@
                == spec_normalize_signal(signal@),
        no_newline(r.0@),
{
    let signal_upper = normalize_signal(signal);
    let data = KillData {
        job_id: String::from_str(job_id),
        signal: signal_upper.clone(),
    };
    let rendered = render_kill(&data);
    proof {
        assert(kill_payload_matches(&data, job_id@, spec_normalize_signal(signal@)));
    }
    if !matches!(state.job.status, JobStatus::Running) {
        return (rendered, None, None);
    }
    match state.pid {
        Some(pid) => {
            let st = killed_state(
                job_id,
                state.job.started_at.as_str(),
                pid,
                signal_upper.as_str(),
                now,
            );
            (rendered, Some(st), Some(pid))
        },
        None => (rendered, None, None),
    }
}

spec fn kill_payload_matches(d: &KillData, job_id: Seq<char>, sig: Seq<char>) -> bool {
    d.job_id@ == job_id && d.signal@ == sig
}

/// Repeating `kill` on a job that is not running is an identical no-op:
/// the JSON depends only on the job ID and the signal name, and nothing
/// is written either time.
pub proof fn lemma_kill_noop_idempotent(d1: KillData, d2: KillData)
    requires
        d1.job_id@ == d2.job_id@,
        d1.signal@ == d2.signal@,
    ensures
        spec_kill_json(d1) == spec_kill_json(d2),
{
    assert(spec_kill_body(d1) == spec_kill_body(d2));
}

/// Every member of `tk` after the root is a recorded child of some
/// member: nothing outside the tree rooted at the first element is
/// collected.
#[verifier::opaque]
pub open spec fn spec_tree_reach(procs: Seq<(u32, u32)>, tk: Seq<u32>) -> bool {
    forall|a: int|
        1 <= a < tk.len() ==> exists|m: int|
            0 <= m < procs.len() && procs[m].0 == #[trigger] tk[a] && tk.contains(
                #[trigger] procs[m].1,
            )
}

/// The set of processes a tree termination must reach: starting from
/// the root pid, repeatedly add every process whose recorded parent is
/// already in the set.  `procs` holds `(pid, parent pid)` pairs from a
/// process snapshot.  The result starts with the root, holds no
/// duplicates, is closed under the child relation, and contains nothing
/// that is not the root or a recorded child of a member.
pub fn process_tree_closure(procs: &Vec<(u32, u32)>, root: u32) -> (r: Vec<u32>)
    ensures
        r@.len() >= 1,
        r@[0] == root,
        forall|i: int, j: int| 0 <= i < j < r@.len() ==> r@[i] != r@[j],
        forall|k: int|
            0 <= k < procs@.len() && r@.contains(#[trigger] procs@[k].1) ==> r@.contains(
                procs@[k].0,
            ),
        spec_tree_reach(procs@, r@),
{
    let ghost firsts = procs@.map_values(|pr: (u32, u32)| pr.0);
    let mut to_kill: Vec<u32> = Vec::new();
    to_kill.push(root);
    proof {
        reveal(spec_tree_reach);
        assert(spec_tree_reach(procs@, to_kill@));
    }
    let mut i: usize = 0;
    let n: usize = procs.len();
    while i < to_kill.len()
        invariant
            1 <= to_kill@.len() <= n + 1,
            to_kill@[0] == root,
            0 <= i <= to_kill@.len(),
            n == procs@.len(),
            firsts == procs@.map_values(|pr: (u32, u32)| pr.0),
            forall|a: int, b: int| 0 <= a < b < to_kill@.len() ==> to_kill@[a] != to_kill@[b],
            forall|a: int| 1 <= a < to_kill@.len() ==> firsts.contains(#[trigger] to_kill@[a]),
            forall|k: int|
                0 <= k < procs@.len() && to_kill@.take(i as int).contains(
                    #[trigger] procs@[k].1,
                ) ==> to_kill@.contains(procs@[k].0),
            spec_tree_reach(procs@, to_kill@),
        decreases n + 1 - i,
    {
        let parent: u32 = to_kill[i];
        let mut k: usize = 0;
        while k < n
            invariant
                0 <= k <= n,
                0 <= i < to_kill@.len(),
                to_kill@.len() <= n + 1,
                n == procs@.len(),
                firsts == procs@.map_values(|pr: (u32, u32)| pr.0),
                parent == to_kill@[i as int],
                to_kill@[0] == root,
                forall|a: int, b: int|
                    0 <= a < b < to_kill@.len() ==> to_kill@[a] != to_kill@[b],
                forall|a: int|
                    1 <= a < to_kill@.len() ==> firsts.contains(#[trigger] to_kill@[a]),
                forall|m: int|
                    0 <= m < k && procs@[m].1 == parent ==> to_kill@.contains(
                        #[trigger] procs@[m].0,
                    ),
                forall|m: int|
                    0 <= m < procs@.len() && to_kill@.take(i as int).contains(
                        #[trigger] procs@[m].1,
                    ) ==> to_kill@.contains(procs@[m].0),
                spec_tree_reach(procs@, to_kill@),
            decreases n - k,
        {
            let (child_pid, parent_pid) = procs[k];
            if parent_pid == parent && !contains_pid(&to_kill, child_pid) {
                let ghost before = to_kill@;
                to_kill.push(child_pid);
                proof {
                    assert(to_kill@.drop_last() =~= before);
                    assert(forall|a: int| 0 <= a < before.len() ==> to_kill@[a] == before[a]);
                    assert(to_kill@[to_kill@.len() - 1] == child_pid);
                    assert(firsts[k as int] == procs@[k as int].0);
                    assert(firsts.contains(procs@[k as int].0));
                    // The new element keeps the list within its bound:
                    // everything after the root is a distinct recorded
                    // child pid, of which there are at most `n`.
                    let df = to_kill@.drop_first();
                    assert(forall|a: int, b: int|
                        0 <= a < b < df.len() ==> df[a] != df[b]) by {
                        assert(forall|a: int|
                            0 <= a < df.len() ==> df[a] == to_kill@[a + 1]);
                    }
                    df.unique_seq_to_set();
                    assert forall|x: u32| df.to_set().contains(x) implies firsts.to_set().contains(
                        x,
                    ) by {
                        let w = choose|w: int| 0 <= w < df.len() && df[w] == x;
                        assert(to_kill@[w + 1] == x);
                        assert(firsts.contains(x));
                    }
                    assert(df.to_set().subset_of(firsts.to_set()));
                    vstd::seq_lib::seq_to_set_is_finite(firsts);
                    firsts.lemma_cardinality_of_set();
                    vstd::set_lib::lemma_len_subset(df.to_set(), firsts.to_set());
                    assert(to_kill@.len() <= n + 1);
                    // Everything already recorded stays recorded.
                    assert forall|m: int|
                        0 <= m < k && procs@[m].1 == parent implies to_kill@.contains(
                            #[trigger] procs@[m].0,
                        ) by {
                        assert(before.contains(procs@[m].0));
                        let w = choose|w: int|
                            0 <= w < before.len() && #[trigger] before[w] == procs@[m].0;
                        assert(to_kill@[w] == procs@[m].0);
                    }
                    assert(to_kill@.contains(procs@[k as int].1)) by {
                        assert(to_kill@[i as int] == parent);
                    }
                    reveal(spec_tree_reach);
                    assert forall|a: int|
                        1 <= a < to_kill@.len() implies exists|m: int|
                            0 <= m < procs@.len() && procs@[m].0 == #[trigger] to_kill@[a]
                                && to_kill@.contains(#[trigger] procs@[m].1) by {
                        if a < before.len() {
                            let m = choose|m: int|
                                0 <= m < procs@.len() && procs@[m].0 == before[a]
                                    && before.contains(#[trigger] procs@[m].1);
                            assert(before.contains(procs@[m].1));
                            let w = choose|w: int|
                                0 <= w < before.len() && #[trigger] before[w] == procs@[m].1;
                            assert(to_kill@[w] == procs@[m].1);
                            assert(to_kill@.contains(procs@[m].1));
                        } else {
                            assert(procs@[k as int].0 == to_kill@[a]);
                        }
                    }
                    assert(spec_tree_reach(procs@, to_kill@));
                    assert forall|m: int|
                        0 <= m < procs@.len() && to_kill@.take(i as int).contains(
                            #[trigger] procs@[m].1,
                        ) implies to_kill@.contains(procs@[m].0) by {
                        assert(to_kill@.take(i as int) =~= before.take(i as int));
                        let w = choose|w: int|
                            0 <= w < i && #[trigger] before.take(i as int)[w] == procs@[m].1;
                        assert(before.contains(procs@[m].1)) by {
                            assert(before[w] == procs@[m].1);
                        }
                        assert(before.take(i as int).contains(procs@[m].1));
                        assert(before.contains(procs@[m].0) || procs@[m].0
                            == to_kill@[to_kill@.len() - 1]);
                        if before.contains(procs@[m].0) {
                            let w2 = choose|w2: int|
                                0 <= w2 < before.len() && #[trigger] before[w2] == procs@[m].0;
                            assert(to_kill@[w2] == procs@[m].0);
                        }
                    }
                }
            }
            k = k + 1;
        }
        proof {
            assert forall|m: int|
                0 <= m < procs@.len() && to_kill@.take(i + 1).contains(
                    #[trigger] procs@[m].1,
                ) implies to_kill@.contains(procs@[m].0) by {
                let w = choose|w: int|
                    0 <= w < i + 1 && #[trigger] to_kill@.take(i + 1)[w] == procs@[m].1;
                if w < i {
                    assert(to_kill@.take(i as int)[w] == procs@[m].1);
                    assert(to_kill@.take(i as int).contains(procs@[m].1));
                } else {
                    assert(to_kill@[i as int] == procs@[m].1);
                }
            }
        }
        i = i + 1;
    }
    proof {
        assert(to_kill@.take(i as int) =~= to_kill@);
    }
    to_kill
}

/// Whether a pid is already collected.
fn contains_pid(v: &Vec<u32>, p: u32) -> (r: bool)
    ensures
        r <==> v@.contains(p),
{
    let n: usize = v.len();
    let mut i: usize = 0;
    while i < n
        invariant
            0 <= i <= n,
            n == v@.len(),
            forall|k: int| 0 <= k < i ==> v@[k] != p,
        decreases n - i,
    {
        if v[i] == p {
            return true;
        }
        i = i + 1;
    }
    false
}

} // verus!
