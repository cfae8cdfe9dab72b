//! The `run` front-end and the supervisor's decision logic.
//!
//! `run` creates the job directory, writes `meta.json`, spawns the
//! supervisor and prints a JSON snapshot; the supervisor runs the child,
//! tees its output and writes the terminal state.  Everything that
//! decides or computes lives here with a contract; the shell around the
//! library performs the process and file work and hands values back.

use vstd::prelude::*;
use vstd::string::StringSliceAdditionalSpecFns;
use crate::jobstore::{JobDir, TailMetrics};
use crate::json::views_of;
use crate::schema::{
    JobMeta, JobMetaJob, JobState, JobStateJob, JobStateResult, JobStatus, Snapshot,
};

verus! {

/// Options for the `run` sub-command.
#[derive(Debug)]
pub struct RunOpts<'a> {
    /// Command and arguments to execute.
    pub command: Vec<String>,
    /// Override for the jobs root directory.
    pub root: Option<&'a str>,
    /// Milliseconds to wait before returning; 0 returns immediately.
    pub snapshot_after: u64,
    /// Number of tail lines to include in the snapshot.
    pub tail_lines: u64,
    /// Max bytes for the tail.
    pub max_bytes: u64,
    /// Timeout in milliseconds; 0 disables it.
    pub timeout_ms: u64,
    /// Milliseconds between the polite and the hard kill; 0 kills hard
    /// at once.
    pub kill_after_ms: u64,
    /// Working directory for the command.
    pub cwd: Option<&'a str>,
    /// Environment variables as `KEY=VALUE` strings.
    pub env_vars: Vec<String>,
    /// Paths to env files, applied in order.
    pub env_files: Vec<String>,
    /// Whether to inherit the current process environment.
    pub inherit_env: bool,
    /// Keys whose values are masked in JSON output.
    pub mask: Vec<String>,
    /// Override for the `full.log` path.
    pub log: Option<&'a str>,
    /// Interval for `updated_at` refreshes; 0 disables them.
    pub progress_every_ms: u64,
    /// Wait for a terminal state before returning.
    pub wait: bool,
    /// Poll interval while waiting.
    pub wait_poll_ms: u64,
}

impl<'a> Default for RunOpts<'a> {
    /// The documented defaults of the `run` sub-command.
    fn default() -> (r: Self)
        ensures
            r.command@.len() == 0,
            r.root is None,
            r.snapshot_after == 10000,
            r.tail_lines == 50,
            r.max_bytes == 65536,
            r.timeout_ms == 0,
            r.kill_after_ms == 0,
            r.cwd is None,
            r.env_vars@.len() == 0,
            r.env_files@.len() == 0,
            r.inherit_env == true,
            r.mask@.len() == 0,
            r.log is None,
            r.progress_every_ms == 0,
            r.wait == false,
            r.wait_poll_ms == 200,
    {
        RunOpts {
            command: Vec::new(),
            root: None,
            snapshot_after: 10000,
            tail_lines: 50,
            max_bytes: 65536,
            timeout_ms: 0,
            kill_after_ms: 0,
            cwd: None,
            env_vars: Vec::new(),
            env_files: Vec::new(),
            inherit_env: true,
            mask: Vec::new(),
            log: None,
            progress_every_ms: 0,
            wait: false,
            wait_poll_ms: 200,
        }
    }
}

/// Relies on `ulid::Ulid::generate` and `Ulid::to_string`: a fresh,
/// time-ordered identifier that always encodes to 26 ASCII characters of
/// the Crockford base32 alphabet.  The value depends on the clock and on
/// randomness, so nothing more is assumed of it.
#[verifier::external_body]
pub fn fresh_job_id() -> (r: String)
    ensures
        r@.len() == 26,
        vstd::utf8::is_ascii_chars(r@),
{
    ulid::Ulid::generate().to_string()
}

/// Index of the first `=` in `s`, or its length when there is none.
pub open spec fn spec_first_eq(s: Seq<char>) -> int
    decreases s.len(),
{
    if s.len() == 0 {
        0
    } else if s[0] == '=' {
        0
    } else {
        1 + spec_first_eq(s.drop_first())
    }
}

/// The key of a `KEY=VALUE` string: everything before the first `=`, or
/// the whole string when there is none.
pub open spec fn spec_key_of(s: Seq<char>) -> Seq<char> {
    s.take(spec_first_eq(s))
}

/// The value of a `KEY=VALUE` string: everything after the first `=`,
/// or empty when there is none.
pub open spec fn spec_val_of(s: Seq<char>) -> Seq<char> {
    if spec_first_eq(s) < s.len() {
        s.skip(spec_first_eq(s) + 1)
    } else {
        Seq::<char>::empty()
    }
}

proof fn lemma_first_eq_of_prefix(s: Seq<char>, i: int)
    requires
        0 <= i <= s.len(),
        forall|k: int| 0 <= k < i ==> s[k] != '=',
        i == s.len() || s[i] == '=',
    ensures
        spec_first_eq(s) == i,
    decreases i,
{
    if i > 0 {
        lemma_first_eq_of_prefix(s.drop_first(), i - 1);
    }
}

/// Split a `KEY=VALUE` (or bare `KEY`) string into key and value.
pub fn parse_env_var(s: &str) -> (r: (String, String))
    ensures
        r.0@ == spec_key_of(s@),
        r.1@ == spec_val_of(s@),
{
    let n: usize = s.unicode_len();
    let mut i: usize = 0;
    while i < n && s.get_char(i) != '='
        invariant
            0 <= i <= n,
            n == s@.len(),
            forall|k: int| 0 <= k < i ==> s@[k] != '=',
        decreases n - i,
    {
        i = i + 1;
    }
    proof {
        lemma_first_eq_of_prefix(s@, i as int);
    }
    let key = String::from_str(s.substring_char(0, i));
    let val = if i < n {
        String::from_str(s.substring_char(i + 1, n))
    } else {
        String::new()
    };
    proof {
        assert(key@ =~= spec_key_of(s@));
        if i < n {
            assert(val@ =~= spec_val_of(s@));
        } else {
            assert(val@ =~= spec_val_of(s@));
        }
    }
    (key, val)
}

/// The key names of a list of `KEY=VALUE` strings, values left behind.
pub fn env_keys_of(env_vars: &Vec<String>) -> (r: Vec<String>)
    ensures
        r@.len() == env_vars@.len(),
        forall|i: int| 0 <= i < r@.len() ==> #[trigger] r@[i]@ == spec_key_of(env_vars@[i]@),
{
    let mut out: Vec<String> = Vec::new();
    let n: usize = env_vars.len();
    let mut i: usize = 0;
    while i < n
        invariant
            0 <= i <= n,
            n == env_vars@.len(),
            out@.len() == i,
            forall|k: int| 0 <= k < i ==> #[trigger] out@[k]@ == spec_key_of(env_vars@[k]@),
        decreases n - i,
    {
        let (key, _val) = parse_env_var(env_vars[i].as_str());
        out.push(key);
        i = i + 1;
    }
    out
}

/// Whether any string in `v` equals `s`.
fn contains_str(v: &Vec<String>, s: &String) -> (r: bool)
    ensures
        r <==> views_of(v@).contains(s@),
{
    let n: usize = v.len();
    let mut i: usize = 0;
    while i < n
        invariant
            0 <= i <= n,
            n == v@.len(),
            forall|k: int| 0 <= k < i ==> views_of(v@)[k] != s@,
        decreases n - i,
    {
        if v[i].eq(s) {
            proof {
                assert(views_of(v@)[i as int] == s@);
            }
            return true;
        }
        i = i + 1;
    }
    proof {
        assert(forall|k: int| 0 <= k < views_of(v@).len() ==> views_of(v@)[k] != s@);
    }
    false
}

/// What one entry becomes under masking: a masked key keeps its key and
/// gets the literal `***` as value, every other entry passes through.
pub open spec fn spec_mask_one(s: Seq<char>, mask: Seq<Seq<char>>) -> Seq<char> {
    if mask.contains(spec_key_of(s)) {
        spec_key_of(s) + "=***"@
    } else {
        s
    }
}

/// Mask the values of the listed keys in `KEY=VALUE` strings: the value
/// of every masked key is replaced by the literal `***`, so it never
/// reaches `meta.json` or a JSON response.
pub fn mask_env_vars(env_vars: &Vec<String>, mask_keys: &Vec<String>) -> (r: Vec<String>)
    ensures
        r@.len() == env_vars@.len(),
        forall|i: int|
            0 <= i < r@.len() ==> #[trigger] r@[i]@ == spec_mask_one(
                env_vars@[i]@,
                views_of(mask_keys@),
            ),
{
    let mut out: Vec<String> = Vec::new();
    let n: usize = env_vars.len();
    let mut i: usize = 0;
    while i < n
        invariant
            0 <= i <= n,
            n == env_vars@.len(),
            out@.len() == i,
            forall|k: int|
                0 <= k < i ==> #[trigger] out@[k]@ == spec_mask_one(
                    env_vars@[k]@,
                    views_of(mask_keys@),
                ),
        decreases n - i,
    {
        let (key, _val) = parse_env_var(env_vars[i].as_str());
        if contains_str(mask_keys, &key) {
            let mut masked = key;
            masked.append("=***");
            out.push(masked);
        } else {
            out.push(env_vars[i].clone());
        }
        i = i + 1;
    }
    out
}

/// Longest snapshot wait the front-end honours, in milliseconds.
pub const MAX_SNAPSHOT_AFTER_MS: u64 = 10000;

/// The snapshot wait actually applied: clamped to ten seconds, and
/// skipped entirely when the caller waits for termination anyway.
pub fn effective_snapshot_after(wait: bool, snapshot_after: u64) -> (r: u64)
    ensures
        wait ==> r == 0,
        !wait && snapshot_after <= 10000 ==> r == snapshot_after,
        !wait && snapshot_after > 10000 ==> r == 10000,
        r <= 10000,
{
    if wait {
        0
    } else if snapshot_after > MAX_SNAPSHOT_AFTER_MS {
        MAX_SNAPSHOT_AFTER_MS
    } else {
        snapshot_after
    }
}

/// Copy a list of strings.
fn clone_strings(v: &Vec<String>) -> (r: Vec<String>)
    ensures
        r@.len() == v@.len(),
        forall|i: int| 0 <= i < r@.len() ==> #[trigger] r@[i]@ == v@[i]@,
{
    let mut out: Vec<String> = Vec::new();
    let n: usize = v.len();
    let mut i: usize = 0;
    while i < n
        invariant
            0 <= i <= n,
            n == v@.len(),
            out@.len() == i,
            forall|k: int| 0 <= k < i ==> #[trigger] out@[k]@ == v@[k]@,
        decreases n - i,
    {
        out.push(v[i].clone());
        i = i + 1;
    }
    out
}

/// Everything `run` decides before any process is spawned: the job
/// directory, the metadata to persist (with masked environment values),
/// the log paths, and the clamped snapshot wait.
#[derive(Debug)]
pub struct RunPlan {
    pub job_dir: JobDir,
    pub meta: JobMeta,
    /// The `KEY=VALUE` entries with masked values replaced by `***`;
    /// also what the JSON response reports.
    pub masked_env_vars: Vec<String>,
    /// Where `full.log` goes: the override, or the job directory.
    pub full_log_path: String,
    pub stdout_log_path: String,
    pub stderr_log_path: String,
    /// The snapshot wait actually applied.
    pub effective_snapshot_after: u64,
}

/// Decide everything about a `run` invocation that does not need the
/// outside world: validate the command, derive the environment key
/// names, mask the listed values, assemble the metadata and paths, and
/// clamp the snapshot wait.  Only an empty command is rejected.
pub fn execute(opts: &RunOpts, root: &str, job_id: &str, created_at: &str) -> (r: Result<
    RunPlan,
    String,
>)
    ensures
        r is Ok <==> opts.command@.len() > 0,
        r matches Err(m) ==> m@ == "no command specified for run"@,
        r matches Ok(p) ==> {
            &&& p.job_dir.path@ == crate::jobstore::spec_path_join(root@, job_id@)
            &&& p.job_dir.job_id@ == job_id@
            &&& p.meta.job.id@ == job_id@
            &&& p.meta.schema_version@ == "0.1"@
            &&& p.meta.command@.len() == opts.command@.len()
            &&& (forall|i: int|
                0 <= i < p.meta.command@.len() ==> #[trigger] p.meta.command@[i]@
                    == opts.command@[i]@)
            &&& p.meta.created_at@ == created_at@
            &&& p.meta.root@ == root@
            &&& p.meta.env_keys@.len() == opts.env_vars@.len()
            &&& (forall|i: int|
                0 <= i < p.meta.env_keys@.len() ==> #[trigger] p.meta.env_keys@[i]@
                    == spec_key_of(opts.env_vars@[i]@))
            &&& p.meta.env_vars@.len() == opts.env_vars@.len()
            &&& (forall|i: int|
                0 <= i < p.meta.env_vars@.len() ==> #[trigger] p.meta.env_vars@[i]@
                    == spec_mask_one(opts.env_vars@[i]@, views_of(opts.mask@)))
            &&& p.meta.mask@.len() == opts.mask@.len()
            &&& (forall|i: int|
                0 <= i < p.meta.mask@.len() ==> #[trigger] p.meta.mask@[i]@ == opts.mask@[i]@)
            &&& (p.meta.cwd is Some <==> opts.cwd is Some)
            &&& (p.meta.cwd matches Some(c) ==> opts.cwd matches Some(o) && c@ == o@)
            &&& p.masked_env_vars@.len() == opts.env_vars@.len()
            &&& (forall|i: int|
                0 <= i < p.masked_env_vars@.len() ==> #[trigger] p.masked_env_vars@[i]@
                    == spec_mask_one(opts.env_vars@[i]@, views_of(opts.mask@)))
            &&& (match opts.log {
                Some(l) => p.full_log_path@ == l@,
                None => p.full_log_path@ == crate::jobstore::spec_path_join(
                    crate::jobstore::spec_path_join(root@, job_id@),
                    "full.log"@,
                ),
            })
            &&& p.stdout_log_path@ == crate::jobstore::spec_path_join(
                crate::jobstore::spec_path_join(root@, job_id@),
                "stdout.log"@,
            )
            &&& p.stderr_log_path@ == crate::jobstore::spec_path_join(
                crate::jobstore::spec_path_join(root@, job_id@),
                "stderr.log"@,
            )
            &&& (opts.wait ==> p.effective_snapshot_after == 0)
            &&& (!opts.wait ==> p.effective_snapshot_after == if opts.snapshot_after <= 10000 {
                opts.snapshot_after as int
            } else {
                10000
            })
        },
{
    if opts.command.len() == 0 {
        return Err(String::from_str("no command specified for run"));
    }
    let job_dir = match JobDir::open(root, job_id, true) {
        Ok(d) => d,
        Err(_) => vstd::pervasive::unreached(),
    };
    let env_keys = env_keys_of(&opts.env_vars);
    let masked_env_vars = mask_env_vars(&opts.env_vars, &opts.mask);
    let meta = JobMeta {
        job: JobMetaJob { id: String::from_str(job_id) },
        schema_version: String::from_str("0.1"),
        command: clone_strings(&opts.command),
        created_at: String::from_str(created_at),
        root: String::from_str(root),
        env_keys,
        env_vars: clone_strings(&masked_env_vars),
        mask: clone_strings(&opts.mask),
        cwd: match opts.cwd {
            Some(c) => Some(String::from_str(c)),
            None => None,
        },
    };
    let full_log_path = match opts.log {
        Some(l) => String::from_str(l),
        None => job_dir.full_log_path(),
    };
    let stdout_log_path = job_dir.stdout_path();
    let stderr_log_path = job_dir.stderr_path();
    let eff = effective_snapshot_after(opts.wait, opts.snapshot_after);
    Ok(
        RunPlan {
            job_dir,
            meta,
            masked_env_vars,
            full_log_path,
            stdout_log_path,
            stderr_log_path,
            effective_snapshot_after: eff,
        },
    )
}

/// Options for the internal supervisor verb.
///
/// Masking is the front-end's responsibility: the supervisor receives
/// the real values so the child runs correctly.
#[derive(Debug)]
pub struct SuperviseOpts<'a> {
    pub job_id: &'a str,
    pub root: &'a str,
    pub command: Vec<String>,
    /// Override for the `full.log` path.
    pub full_log: Option<&'a str>,
    /// Timeout in milliseconds; 0 disables it.
    pub timeout_ms: u64,
    /// Milliseconds between the polite and the hard kill.
    pub kill_after_ms: u64,
    /// Working directory for the child process.
    pub cwd: Option<&'a str>,
    /// Environment variables as `KEY=VALUE` strings (real values).
    pub env_vars: Vec<String>,
    /// Paths to env files, applied in order.
    pub env_files: Vec<String>,
    /// Whether to inherit the current process environment.
    pub inherit_env: bool,
    /// Interval for `updated_at` refreshes; 0 disables them.
    pub progress_every_ms: u64,
}

// ---------- Supervisor state transitions ----------

/// The state the supervisor writes once the child is spawned and, where
/// applicable, attached to its process group or job object.
pub fn running_state(
    job_id: &str,
    started_at: &str,
    pid: u32,
    updated_at: &str,
    windows_job_name: Option<String>,
) -> (r: JobState)
    ensures
        r.job.id@ == job_id@,
        r.job.status == JobStatus::Running,
        r.job.started_at@ == started_at@,
        r.result.exit_code is None,
        r.result.signal is None,
        r.result.duration_ms is None,
        r.pid == Some(pid),
        r.finished_at is None,
        r.updated_at@ == updated_at@,
        r.windows_job_name == windows_job_name,
        crate::schema::spec_state_wf(r),
{
    JobState {
        job: JobStateJob {
            id: String::from_str(job_id),
            status: JobStatus::Running,
            started_at: String::from_str(started_at),
        },
        result: JobStateResult { exit_code: None, signal: None, duration_ms: None },
        pid: Some(pid),
        finished_at: None,
        updated_at: String::from_str(updated_at),
        windows_job_name,
    }
}

/// The terminal state after the child exits on its own: the status is
/// `exited` whatever the exit code was — a nonzero code is still a
/// natural exit — and the result block is filled in.
pub fn exited_state(
    job_id: &str,
    started_at: &str,
    pid: u32,
    exit_code: Option<i32>,
    duration_ms: u64,
    finished_at: &str,
    updated_at: &str,
) -> (r: JobState)
    ensures
        r.job.id@ == job_id@,
        r.job.status == JobStatus::Exited,
        r.job.started_at@ == started_at@,
        r.result.exit_code == exit_code,
        r.result.signal is None,
        r.result.duration_ms == Some(duration_ms),
        r.pid == Some(pid),
        r.finished_at matches Some(f) && f@ == finished_at@,
        r.updated_at@ == updated_at@,
        r.windows_job_name is None,
        crate::schema::spec_state_wf(r),
        crate::schema::spec_status_can_transition(JobStatus::Running, r.job.status),
{
    JobState {
        job: JobStateJob {
            id: String::from_str(job_id),
            status: JobStatus::Exited,
            started_at: String::from_str(started_at),
        },
        result: JobStateResult { exit_code, signal: None, duration_ms: Some(duration_ms) },
        pid: Some(pid),
        finished_at: Some(String::from_str(finished_at)),
        updated_at: String::from_str(updated_at),
        windows_job_name: None,
    }
}

/// The state the supervisor writes when its own setup fails after the
/// child was spawned (it kills the child first): `failed`, with no
/// result values.
pub fn failed_state(job_id: &str, started_at: &str, pid: u32, now: &str) -> (r: JobState)
    ensures
        r.job.id@ == job_id@,
        r.job.status == JobStatus::Failed,
        r.job.started_at@ == started_at@,
        r.result.exit_code is None,
        r.result.signal is None,
        r.result.duration_ms is None,
        r.pid == Some(pid),
        r.finished_at matches Some(f) && f@ == now@,
        r.updated_at@ == now@,
        r.windows_job_name is None,
        crate::schema::spec_state_wf(r),
        crate::schema::spec_status_can_transition(JobStatus::Running, r.job.status),
{
    JobState {
        job: JobStateJob {
            id: String::from_str(job_id),
            status: JobStatus::Failed,
            started_at: String::from_str(started_at),
        },
        result: JobStateResult { exit_code: None, signal: None, duration_ms: None },
        pid: Some(pid),
        finished_at: Some(String::from_str(now)),
        updated_at: String::from_str(now),
        windows_job_name: None,
    }
}

/// A best-effort liveness touch: the same state with a fresh
/// `updated_at`.  The status never changes, so a terminal state stays
/// terminal.
pub fn progress_touch(st: &JobState, now: &str) -> (r: JobState)
    ensures
        r.job == st.job,
        r.result == st.result,
        r.pid == st.pid,
        r.finished_at == st.finished_at,
        r.updated_at@ == now@,
        r.windows_job_name == st.windows_job_name,
        crate::schema::spec_status_can_transition(st.job.status, r.job.status),
{
    JobState {
        job: JobStateJob {
            id: st.job.id.clone(),
            status: st.job.status,
            started_at: st.job.started_at.clone(),
        },
        result: JobStateResult {
            exit_code: st.result.exit_code,
            signal: match &st.result.signal {
                Some(s) => Some(s.clone()),
                None => None,
            },
            duration_ms: st.result.duration_ms,
        },
        pid: st.pid,
        finished_at: match &st.finished_at {
            Some(f) => Some(f.clone()),
            None => None,
        },
        updated_at: String::from_str(now),
        windows_job_name: match &st.windows_job_name {
            Some(w) => Some(w.clone()),
            None => None,
        },
    }
}

/// Within one job's lifetime `updated_at` never decreases: every state
/// write stamps the clock at the time of the write — see the `ensures`
/// of `running_state`, `progress_touch` and the terminal builders — and
/// a later instant renders as a lexicographically larger RFC 3339
/// string, through the year 9999.
pub proof fn lemma_updated_at_monotone(t1: int, t2: int)
    requires
        0 <= t1 <= t2,
        crate::time::spec_ymd(t2 / 86400).0 <= 9999,
    ensures
        crate::order::lex_le(crate::time::spec_rfc3339(t1), crate::time::spec_rfc3339(t2)),
{
    crate::time::lemma_rfc3339_monotone(t1, t2);
}

// ---------- Supervisor loop decisions ----------

/// What the watcher does on one poll tick.
#[derive(Debug, PartialEq, Eq, Structural)]
pub enum WatcherStep {
    /// The child has exited; leave the loop.
    Stop,
    /// The timeout elapsed; signal the child (politely, then hard after
    /// the configured delay) and leave the loop.
    FireTimeout,
    /// The progress interval elapsed; refresh `updated_at`.
    Progress,
    /// Nothing to do this tick.
    Idle,
}

/// The watcher's decision for one tick: a finished child always wins,
/// then the timeout, then the periodic progress touch.
pub fn watcher_step(
    child_done: bool,
    elapsed_ms: u64,
    timeout_ms: u64,
    progress_every_ms: u64,
    poll_ms: u64,
) -> (r: WatcherStep)
    ensures
        child_done ==> r == WatcherStep::Stop,
        !child_done && timeout_ms > 0 && elapsed_ms >= timeout_ms ==> r
            == WatcherStep::FireTimeout,
        !child_done && !(timeout_ms > 0 && elapsed_ms >= timeout_ms) && progress_every_ms > 0
            && elapsed_ms % progress_every_ms < poll_ms ==> r == WatcherStep::Progress,
        !child_done && !(timeout_ms > 0 && elapsed_ms >= timeout_ms) && !(progress_every_ms > 0
            && elapsed_ms % progress_every_ms < poll_ms) ==> r == WatcherStep::Idle,
{
    if child_done {
        WatcherStep::Stop
    } else if timeout_ms > 0 && elapsed_ms >= timeout_ms {
        WatcherStep::FireTimeout
    } else if progress_every_ms > 0 && elapsed_ms % progress_every_ms < poll_ms {
        WatcherStep::Progress
    } else {
        WatcherStep::Idle
    }
}

/// What the front-end concludes from one handshake poll.
#[derive(Debug, PartialEq, Eq, Structural)]
pub enum HandshakeStep {
    /// The supervisor took over: the recorded pid is no longer its own.
    Confirmed,
    /// The supervisor reported a setup failure; surface it.
    SetupFailed,
    /// No news yet; keep polling.
    Pending,
}

/// Interpret a `state.json` read during the supervisor handshake.
pub fn handshake_step(state: &JobState, supervisor_pid: u32) -> (r: HandshakeStep)
    ensures
        state.job.status == JobStatus::Failed ==> r == HandshakeStep::SetupFailed,
        state.job.status != JobStatus::Failed && (state.pid matches Some(p) && p
            != supervisor_pid) ==> r == HandshakeStep::Confirmed,
        state.job.status != JobStatus::Failed && !(state.pid matches Some(p) && p
            != supervisor_pid) ==> r == HandshakeStep::Pending,
{
    if matches!(state.job.status, JobStatus::Failed) {
        return HandshakeStep::SetupFailed;
    }
    match state.pid {
        Some(p) => if p != supervisor_pid {
            HandshakeStep::Confirmed
        } else {
            HandshakeStep::Pending
        },
        None => HandshakeStep::Pending,
    }
}

/// Whether the snapshot poll ends on this tick.  Only a job that is no
/// longer running, or the elapsed deadline, ends it — output alone never
/// does.
pub fn snapshot_poll_done(state: Option<&JobState>, deadline_passed: bool) -> (r: bool)
    ensures
        r <==> (deadline_passed || (state matches Some(st) && st.job.status
            != JobStatus::Running)),
{
    if deadline_passed {
        return true;
    }
    match state {
        Some(st) => !matches!(st.job.status, JobStatus::Running),
        None => false,
    }
}

/// Index of the first newline in `s`, or its length when there is none.
pub open spec fn spec_first_nl(s: Seq<char>) -> int
    decreases s.len(),
{
    if s.len() == 0 {
        0
    } else if s[0] == '\n' {
        0
    } else {
        1 + spec_first_nl(s.drop_first())
    }
}

proof fn lemma_first_nl_of_prefix(s: Seq<char>, i: int)
    requires
        0 <= i <= s.len(),
        forall|k: int| 0 <= k < i ==> s[k] != '\n',
        i == s.len() || s[i] == '\n',
    ensures
        spec_first_nl(s) == i,
    decreases i,
{
    if i > 0 {
        lemma_first_nl_of_prefix(s.drop_first(), i - 1);
    }
}

/// What one line of a `.env`-style file contributes: nothing for blank
/// lines and `#` comments, one key/value pair otherwise.
pub open spec fn spec_env_line(line: Seq<char>) -> Seq<(Seq<char>, Seq<char>)> {
    let t = crate::commands::spec_trim(line);
    if t.len() == 0 || t[0] == '#' {
        Seq::<(Seq<char>, Seq<char>)>::empty()
    } else {
        seq![(spec_key_of(t), spec_val_of(t))]
    }
}

/// The entries of a `.env`-style file, line by line.
pub open spec fn spec_env_file(s: Seq<char>) -> Seq<(Seq<char>, Seq<char>)>
    decreases s.len(),
{
    let j = spec_first_nl(s);
    if 0 <= j && j < s.len() {
        spec_env_line(s.take(j)) + spec_env_file(s.skip(j + 1))
    } else {
        spec_env_line(s)
    }
}

/// The views of a sequence of string pairs.
pub open spec fn pair_views(v: Seq<(String, String)>) -> Seq<(Seq<char>, Seq<char>)> {
    v.map_values(|p: (String, String)| (p.0@, p.1@))
}

/// Parse the contents of a `.env`-style file: `KEY=VALUE` lines, with
/// blank lines and `#` comments ignored.
pub fn load_env_file(contents: &str) -> (r: Vec<(String, String)>)
    ensures
        pair_views(r@) == spec_env_file(contents@),
{
    let n: usize = contents.unicode_len();
    let mut out: Vec<(String, String)> = Vec::new();
    let mut pos: usize = 0;
    let mut done: bool = false;
    proof {
        assert(contents@.skip(0) =~= contents@);
        assert(pair_views(out@) =~= Seq::<(Seq<char>, Seq<char>)>::empty());
        assert(pair_views(out@) + spec_env_file(contents@) =~= spec_env_file(contents@));
    }
    while !done
        invariant
            0 <= pos <= n,
            n == contents@.len(),
            done ==> pair_views(out@) == spec_env_file(contents@),
            !done ==> pair_views(out@) + spec_env_file(contents@.skip(pos as int))
                == spec_env_file(contents@),
        decreases n - pos + if done {
            0int
        } else {
            1int
        },
    {
        let ghost rest = contents@.skip(pos as int);
        // Find the end of the current line.
        let mut j: usize = pos;
        while j < n && contents.get_char(j) != '\n'
            invariant
                pos <= j <= n,
                n == contents@.len(),
                forall|k: int| pos <= k < j ==> contents@[k] != '\n',
            decreases n - j,
        {
            j = j + 1;
        }
        proof {
            assert(forall|k: int|
                0 <= k < j - pos ==> rest[k] == contents@[pos + k] && contents@[pos + k] != '\n');
            if j < n {
                assert(rest[j - pos] == contents@[j as int]);
            }
            lemma_first_nl_of_prefix(rest, j - pos);
        }
        let line = contents.substring_char(pos, j);
        proof {
            assert(line@ =~= rest.take(j - pos));
        }
        let t = crate::commands::trim_spaces(line);
        let keep: bool = t.unicode_len() > 0 && t.get_char(0) != '#';
        let ghost out0 = out@;
        if keep {
            let (k, v) = parse_env_var(t);
            out.push((k, v));
        }
        proof {
            if keep {
                assert(pair_views(out@) =~= pair_views(out0) + spec_env_line(rest.take(j - pos)));
            } else {
                assert(pair_views(out@) =~= pair_views(out0) + spec_env_line(rest.take(j - pos)));
            }
        }
        if j < n {
            proof {
                assert(rest.skip(j - pos + 1) =~= contents@.skip(j + 1));
                assert(spec_env_file(rest) == spec_env_line(rest.take(j - pos)) + spec_env_file(
                    rest.skip(j - pos + 1),
                ));
            }
            pos = j + 1;
        } else {
            proof {
                assert(rest.take(j - pos) =~= rest);
                assert(spec_env_file(rest) == spec_env_line(rest));
            }
            pos = j;
            done = true;
        }
        proof {
            if !done {
                assert(pair_views(out@) + spec_env_file(contents@.skip(pos as int))
                    =~= spec_env_file(contents@));
            } else {
                assert(pair_views(out@) =~= spec_env_file(contents@));
            }
        }
    }
    out
}

// ---------- Tee workers ----------

/// The byte stream a sequence of full lines reconstructs: each line
/// followed by its newline.
pub open spec fn spec_join_lines(ls: Seq<Seq<u8>>) -> Seq<u8>
    decreases ls.len(),
{
    if ls.len() == 0 {
        Seq::<u8>::empty()
    } else {
        spec_join_lines(ls.drop_last()) + ls.last() + seq![0x0au8]
    }
}

/// The views of a sequence of byte vectors.
pub open spec fn byte_views(v: Seq<Vec<u8>>) -> Seq<Seq<u8>> {
    v.map_values(|b: Vec<u8>| b@)
}

/// Copy a byte vector.
fn copy_bytes(v: &Vec<u8>) -> (r: Vec<u8>)
    ensures
        r@ == v@,
{
    let mut out: Vec<u8> = Vec::new();
    let n: usize = v.len();
    let mut i: usize = 0;
    while i < n
        invariant
            0 <= i <= n,
            n == v@.len(),
            out@ == v@.take(i as int),
        decreases n - i,
    {
        out.push(v[i]);
        proof {
            assert(v@.take(i + 1) =~= v@.take(i as int).push(v@[i as int]));
        }
        i = i + 1;
    }
    proof {
        assert(v@.take(n as int) =~= v@);
    }
    out
}

/// Feed one chunk of child output into the line buffer: complete lines
/// come out (without their newline), the unfinished remainder stays in
/// the buffer.  Nothing is lost or reordered: buffer plus chunk equals
/// the joined lines plus the new buffer.
pub fn tee_split_chunk(line_buf: &mut Vec<u8>, chunk: &[u8]) -> (lines: Vec<Vec<u8>>)
    requires
        crate::json::no_newline(old(line_buf)@),
    ensures
        old(line_buf)@ + chunk@ == spec_join_lines(byte_views(lines@)) + final(line_buf)@,
        crate::json::no_newline(final(line_buf)@),
        forall|i: int|
            0 <= i < lines@.len() ==> crate::json::no_newline(#[trigger] byte_views(lines@)[i]),
{
    let mut lines: Vec<Vec<u8>> = Vec::new();
    let n: usize = chunk.len();
    let mut i: usize = 0;
    proof {
        assert(byte_views(lines@) =~= Seq::<Seq<u8>>::empty());
        assert(old(line_buf)@ + chunk@.take(0) =~= spec_join_lines(byte_views(lines@))
            + line_buf@);
    }
    while i < n
        invariant
            0 <= i <= n,
            n == chunk@.len(),
            old(line_buf)@ + chunk@.take(i as int) == spec_join_lines(byte_views(lines@))
                + line_buf@,
            crate::json::no_newline(line_buf@),
            forall|k: int|
                0 <= k < lines@.len() ==> crate::json::no_newline(
                    #[trigger] byte_views(lines@)[k],
                ),
        decreases n - i,
    {
        let b: u8 = chunk[i];
        let ghost lines0 = lines@;
        let ghost buf0 = line_buf@;
        if b == 0x0a {
            let line = copy_bytes(line_buf);
            line_buf.clear();
            lines.push(line);
            proof {
                assert(byte_views(lines@) =~= byte_views(lines0).push(buf0));
                assert(byte_views(lines@).drop_last() =~= byte_views(lines0));
                assert(byte_views(lines@).last() == buf0);
                assert(spec_join_lines(byte_views(lines@)) == spec_join_lines(
                    byte_views(lines@).drop_last(),
                ) + byte_views(lines@).last() + seq![0x0au8]);
                assert(spec_join_lines(byte_views(lines@)) == spec_join_lines(byte_views(lines0))
                    + buf0 + seq![0x0au8]);
                assert(chunk@.take(i + 1) =~= chunk@.take(i as int).push(0x0au8));
                assert(line_buf@ =~= Seq::<u8>::empty());
                assert(old(line_buf)@ + chunk@.take(i + 1) =~= (old(line_buf)@ + chunk@.take(
                    i as int,
                )) + seq![0x0au8]);
                assert(spec_join_lines(byte_views(lines@)) + line_buf@ =~= (spec_join_lines(
                    byte_views(lines0),
                ) + buf0) + seq![0x0au8]);
                assert(old(line_buf)@ + chunk@.take(i + 1) == spec_join_lines(byte_views(lines@))
                    + line_buf@);
            }
        } else {
            line_buf.push(b);
            proof {
                assert(chunk@.take(i + 1) =~= chunk@.take(i as int).push(b));
                assert(line_buf@ =~= buf0.push(b));
                assert(old(line_buf)@ + chunk@.take(i + 1) =~= (old(line_buf)@ + chunk@.take(
                    i as int,
                )).push(b));
                assert(spec_join_lines(byte_views(lines@)) + line_buf@ =~= (spec_join_lines(
                    byte_views(lines0),
                ) + buf0).push(b));
                assert(old(line_buf)@ + chunk@.take(i + 1) == spec_join_lines(byte_views(lines@))
                    + line_buf@);
            }
        }
        i = i + 1;
    }
    proof {
        assert(chunk@.take(n as int) =~= chunk@);
    }
    lines
}

/// Render one `full.log` line: timestamp, stream label in brackets, the
/// line's bytes decoded lossily, and the terminating newline.
pub fn format_full_line(ts: &str, label: &str, line: &Vec<u8>) -> (r: Vec<u8>)
    ensures
        r@ == ts.spec_bytes() + (" [").spec_bytes() + label.spec_bytes() + ("] ").spec_bytes()
            + vstd::utf8::encode_utf8(crate::jobstore::lossy_of(line@)) + seq![0x0au8],
{
    let mut out: Vec<u8> = Vec::new();
    crate::json::push_lit(&mut out, ts);
    crate::json::push_lit(&mut out, " [");
    crate::json::push_lit(&mut out, label);
    crate::json::push_lit(&mut out, "] ");
    let text = crate::jobstore::lossy_decode(line);
    crate::json::push_lit(&mut out, text.as_str());
    out.push(0x0a);
    proof {
        assert(out@ =~= ts.spec_bytes() + (" [").spec_bytes() + label.spec_bytes() + (
        "] ").spec_bytes() + vstd::utf8::encode_utf8(crate::jobstore::lossy_of(line@))
            + seq![0x0au8]);
    }
    out
}

/// Combine the tail metrics of the two streams into a snapshot.  The
/// snapshot is truncated when either stream was, and the encoding is
/// always `utf-8-lossy`.
pub fn build_snapshot(stdout_m: TailMetrics, stderr_m: TailMetrics) -> (r: Snapshot)
    ensures
        r.stdout_tail@ == stdout_m.tail@,
        r.stderr_tail@ == stderr_m.tail@,
        r.truncated == (stdout_m.truncated || stderr_m.truncated),
        r.encoding@ == "utf-8-lossy"@,
        r.stdout_observed_bytes == stdout_m.observed_bytes,
        r.stderr_observed_bytes == stderr_m.observed_bytes,
        r.stdout_included_bytes == stdout_m.included_bytes,
        r.stderr_included_bytes == stderr_m.included_bytes,
{
    Snapshot {
        truncated: stdout_m.truncated || stderr_m.truncated,
        encoding: String::from_str("utf-8-lossy"),
        stdout_observed_bytes: stdout_m.observed_bytes,
        stderr_observed_bytes: stderr_m.observed_bytes,
        stdout_included_bytes: stdout_m.included_bytes,
        stderr_included_bytes: stderr_m.included_bytes,
        stdout_tail: stdout_m.tail,
        stderr_tail: stderr_m.tail,
    }
}

} // verus!
