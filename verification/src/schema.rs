//! Shared JSON output schema types.
//!
//! All stdout output is a single-line JSON envelope carrying
//! `schema_version`, `ok` and `type`, followed by the fields of one of
//! the command payloads.  The renderers below produce those envelopes as
//! UTF-8 bytes; their contracts pin the exact byte sequence, and every
//! envelope is proven newline-free, so an invocation's stdout is exactly
//! one line.

use vstd::prelude::*;
use vstd::string::StringSliceAdditionalSpecFns;
use crate::json::{
    no_newline, push_i32, push_json_str, push_lit, spec_i64_str, spec_json_string,
    lemma_json_string_no_newline, lemma_no_newline_concat, lemma_ascii_lit_line,
    lemma_u64_str_no_newline, lemma_i64_str_no_newline,
};
use crate::time::{push_u64, spec_u64_str};

verus! {

pub const SCHEMA_VERSION: &'static str = "0.1";

/// Status of a job: `running` until the supervisor records a terminal
/// state, then one of the three absorbing states.
#[derive(Debug, Clone, Copy, PartialEq, Eq, Structural)]
pub enum JobStatus {
    Running,
    Exited,
    Killed,
    Failed,
}

/// The wire name of a status.
pub open spec fn spec_status_str(st: JobStatus) -> Seq<char> {
    match st {
        JobStatus::Running => "running"@,
        JobStatus::Exited => "exited"@,
        JobStatus::Killed => "killed"@,
        JobStatus::Failed => "failed"@,
    }
}

/// A status is terminal when it is not `Running`; terminal states absorb.
pub open spec fn spec_is_terminal(st: JobStatus) -> bool {
    st != JobStatus::Running
}

/// The allowed transitions of the job state machine: `running` may move
/// anywhere; a terminal state only stays put.
pub open spec fn spec_status_can_transition(from: JobStatus, to: JobStatus) -> bool {
    from == JobStatus::Running || from == to
}

/// Well-formedness of a persisted state: while the job runs the result
/// block is all `null` and there is no finish time; a terminal state
/// always carries a finish time.
pub open spec fn spec_state_wf(st: JobState) -> bool {
    &&& (st.job.status == JobStatus::Running ==> st.result.exit_code is None
        && st.result.signal is None && st.result.duration_ms is None && st.finished_at is None)
    &&& (st.job.status != JobStatus::Running ==> st.finished_at is Some)
}

impl JobStatus {
    /// The wire name of this status.
    pub fn as_str(&self) -> (r: &'static str)
        ensures
            r@ == spec_status_str(*self),
    {
        match self {
            JobStatus::Running => "running",
            JobStatus::Exited => "exited",
            JobStatus::Killed => "killed",
            JobStatus::Failed => "failed",
        }
    }
}

/// Nested `job` block within `meta.json`.
#[derive(Debug, Clone, PartialEq)]
pub struct JobMetaJob {
    pub id: String,
}

/// Persisted in `meta.json` at job creation time, immutable after.
///
/// `env_keys` stores only the names of environment variables passed at
/// creation; values are never persisted.  `env_vars` stores `KEY=VALUE`
/// strings with masked values replaced by `***`, and `mask` the list of
/// masked keys.  `cwd` is the child's working directory, used by `list`
/// filtering.
#[derive(Debug, Clone, PartialEq)]
pub struct JobMeta {
    pub job: JobMetaJob,
    pub schema_version: String,
    pub command: Vec<String>,
    pub created_at: String,
    pub root: String,
    pub env_keys: Vec<String>,
    pub env_vars: Vec<String>,
    pub mask: Vec<String>,
    pub cwd: Option<String>,
}

impl JobMeta {
    /// The job ID.
    pub fn job_id(&self) -> (r: &str)
        ensures
            r@ == self.job.id@,
    {
        self.job.id.as_str()
    }
}

/// Nested `job` block within `state.json`.
#[derive(Debug, Clone, PartialEq)]
pub struct JobStateJob {
    pub id: String,
    pub status: JobStatus,
    pub started_at: String,
}

/// Nested `result` block within `state.json`: all three fields stay
/// `None` while the job runs and are set when it reaches a terminal
/// state.
#[derive(Debug, Clone, PartialEq)]
pub struct JobStateResult {
    pub exit_code: Option<i32>,
    pub signal: Option<String>,
    pub duration_ms: Option<u64>,
}

/// Persisted in `state.json`, atomically replaced as the job progresses.
#[derive(Debug, Clone, PartialEq)]
pub struct JobState {
    pub job: JobStateJob,
    pub result: JobStateResult,
    pub pid: Option<u32>,
    pub finished_at: Option<String>,
    pub updated_at: String,
    pub windows_job_name: Option<String>,
}

impl JobState {
    /// The job ID.
    pub fn job_id(&self) -> (r: &str)
        ensures
            r@ == self.job.id@,
    {
        self.job.id.as_str()
    }

    /// The job status.
    pub fn status(&self) -> (r: &JobStatus)
        ensures
            *r == self.job.status,
    {
        &self.job.status
    }

    /// The `started_at` timestamp.
    pub fn started_at(&self) -> (r: &str)
        ensures
            r@ == self.job.started_at@,
    {
        self.job.started_at.as_str()
    }

    /// The exit code, when known.
    pub fn exit_code(&self) -> (r: Option<i32>)
        ensures
            r == self.result.exit_code,
    {
        self.result.exit_code
    }

    /// The signal name, when the job was killed by one.
    pub fn signal(&self) -> (r: Option<&str>)
        ensures
            r is Some <==> self.result.signal is Some,
            r matches Some(s) ==> self.result.signal matches Some(t) && s@ == t@,
    {
        match &self.result.signal {
            Some(s) => Some(s.as_str()),
            None => None,
        }
    }

    /// The duration in milliseconds, when known.
    pub fn duration_ms(&self) -> (r: Option<u64>)
        ensures
            r == self.result.duration_ms,
    {
        self.result.duration_ms
    }
}

// ---------- Envelope ----------

/// A whole stdout envelope: fixed header, the command name, then the
/// payload fields (each beginning with a comma), then the closing brace.
pub open spec fn spec_envelope(ok: bool, kind: Seq<char>, body: Seq<u8>) -> Seq<u8> {
    ("{\"schema_version\":\"0.1\",\"ok\":").spec_bytes() + (if ok {
        ("true").spec_bytes()
    } else {
        ("false").spec_bytes()
    }) + (",\"type\":").spec_bytes() + spec_json_string(kind) + body + ("}").spec_bytes()
}

/// Build a stdout envelope around an already-rendered payload body.
pub fn render_envelope(ok: bool, kind: &str, body: &Vec<u8>) -> (r: Vec<u8>)
    ensures
        r@ == spec_envelope(ok, kind@, body@),
{
    let mut out: Vec<u8> = Vec::new();
    push_lit(&mut out, "{\"schema_version\":\"0.1\",\"ok\":");
    if ok {
        push_lit(&mut out, "true");
    } else {
        push_lit(&mut out, "false");
    }
    push_lit(&mut out, ",\"type\":");
    push_json_str(&mut out, kind);
    let mut i: usize = 0;
    let n: usize = body.len();
    while i < n
        invariant
            0 <= i <= n,
            n == body@.len(),
            out@ == spec_envelope_prefix(ok, kind@) + body@.take(i as int),
        decreases n - i,
    {
        out.push(body[i]);
        proof {
            assert(body@.take(i + 1) =~= body@.take(i as int).push(body@[i as int]));
            assert(out@ =~= spec_envelope_prefix(ok, kind@) + body@.take(i + 1));
        }
        i = i + 1;
    }
    push_lit(&mut out, "}");
    proof {
        assert(body@.take(n as int) =~= body@);
        assert(out@ =~= spec_envelope(ok, kind@, body@));
    }
    out
}

/// The envelope bytes before the payload body.
pub open spec fn spec_envelope_prefix(ok: bool, kind: Seq<char>) -> Seq<u8> {
    ("{\"schema_version\":\"0.1\",\"ok\":").spec_bytes() + (if ok {
        ("true").spec_bytes()
    } else {
        ("false").spec_bytes()
    }) + (",\"type\":").spec_bytes() + spec_json_string(kind)
}

/// An envelope around a newline-free body is newline-free: stdout stays
/// a single line.
pub proof fn lemma_envelope_single_line(ok: bool, kind: Seq<char>, body: Seq<u8>)
    requires
        no_newline(body),
    ensures
        no_newline(spec_envelope(ok, kind, body)),
{
    reveal_strlit("{\"schema_version\":\"0.1\",\"ok\":");
    reveal_strlit("true");
    reveal_strlit("false");
    reveal_strlit(",\"type\":");
    reveal_strlit("}");
    lemma_ascii_lit_line("{\"schema_version\":\"0.1\",\"ok\":");
    lemma_ascii_lit_line("true");
    lemma_ascii_lit_line("false");
    lemma_ascii_lit_line(",\"type\":");
    lemma_ascii_lit_line("}");
    lemma_json_string_no_newline(kind);
    let a = ("{\"schema_version\":\"0.1\",\"ok\":").spec_bytes();
    let b = if ok {
        ("true").spec_bytes()
    } else {
        ("false").spec_bytes()
    };
    let c = (",\"type\":").spec_bytes();
    let d = spec_json_string(kind);
    lemma_no_newline_concat(a, b);
    lemma_no_newline_concat(a + b, c);
    lemma_no_newline_concat(a + b + c, d);
    lemma_no_newline_concat(a + b + c + d, body);
    lemma_no_newline_concat(a + b + c + d + body, ("}").spec_bytes());
}

/// Top-level envelope used for every successful response.
#[derive(Debug)]
pub struct Response<T> {
    pub schema_version: &'static str,
    pub ok: bool,
    pub kind: &'static str,
    pub data: T,
}

impl<T> Response<T> {
    /// Wrap a payload in a successful envelope.
    pub fn new(kind: &'static str, data: T) -> (r: Response<T>)
        ensures
            r.schema_version@ == "0.1"@,
            r.ok == true,
            r.kind@ == kind@,
            r.data == data,
    {
        Response { schema_version: SCHEMA_VERSION, ok: true, kind, data }
    }
}

/// Detail block of an error envelope.
#[derive(Debug, Clone, PartialEq)]
pub struct ErrorDetail {
    pub code: String,
    pub message: String,
    /// Whether the caller may retry the same request and expect a
    /// different outcome.
    pub retryable: bool,
}

/// Top-level envelope for error responses.
#[derive(Debug, Clone, PartialEq)]
pub struct ErrorResponse {
    pub schema_version: &'static str,
    pub ok: bool,
    pub kind: &'static str,
    pub error: ErrorDetail,
}

/// The payload body of an error envelope.
pub open spec fn spec_error_body(code: Seq<char>, message: Seq<char>, retryable: bool) -> Seq<
    u8,
> {
    (",\"error\":{\"code\":").spec_bytes() + spec_json_string(code) + (",\"message\":").spec_bytes()
        + spec_json_string(message) + (",\"retryable\":").spec_bytes() + (if retryable {
        ("true").spec_bytes()
    } else {
        ("false").spec_bytes()
    }) + ("}").spec_bytes()
}

/// The full rendering of an error envelope.
pub open spec fn spec_error_json(code: Seq<char>, message: Seq<char>, retryable: bool) -> Seq<
    u8,
> {
    spec_envelope(false, "error"@, spec_error_body(code, message, retryable))
}

impl ErrorResponse {
    /// Create an error response.
    ///
    /// `retryable` should be `true` only when a transient condition
    /// caused the failure; `job_not_found` and internal errors are
    /// permanent, hence `false`.
    pub fn new(code: String, message: String, retryable: bool) -> (r: ErrorResponse)
        ensures
            r.schema_version@ == "0.1"@,
            r.ok == false,
            r.kind@ == "error"@,
            r.error.code@ == code@,
            r.error.message@ == message@,
            r.error.retryable == retryable,
    {
        ErrorResponse {
            schema_version: SCHEMA_VERSION,
            ok: false,
            kind: "error",
            error: ErrorDetail { code, message, retryable },
        }
    }

    /// Render this error as a one-line JSON envelope.
    pub fn render(&self) -> (r: Vec<u8>)
        ensures
            r@ == spec_error_json(self.error.code@, self.error.message@, self.error.retryable),
            no_newline(r@),
    {
        let mut body: Vec<u8> = Vec::new();
        push_lit(&mut body, ",\"error\":{\"code\":");
        push_json_str(&mut body, self.error.code.as_str());
        push_lit(&mut body, ",\"message\":");
        push_json_str(&mut body, self.error.message.as_str());
        push_lit(&mut body, ",\"retryable\":");
        if self.error.retryable {
            push_lit(&mut body, "true");
        } else {
            push_lit(&mut body, "false");
        }
        push_lit(&mut body, "}");
        proof {
            assert(body@ =~= spec_error_body(
                self.error.code@,
                self.error.message@,
                self.error.retryable,
            ));
            lemma_error_body_single_line(
                self.error.code@,
                self.error.message@,
                self.error.retryable,
            );
            lemma_envelope_single_line(
                false,
                "error"@,
                spec_error_body(self.error.code@, self.error.message@, self.error.retryable),
            );
        }
        render_envelope(false, "error", &body)
    }
}

proof fn lemma_error_body_single_line(code: Seq<char>, message: Seq<char>, retryable: bool)
    ensures
        no_newline(spec_error_body(code, message, retryable)),
{
    reveal_strlit(",\"error\":{\"code\":");
    reveal_strlit(",\"message\":");
    reveal_strlit(",\"retryable\":");
    reveal_strlit("true");
    reveal_strlit("false");
    reveal_strlit("}");
    lemma_ascii_lit_line(",\"error\":{\"code\":");
    lemma_ascii_lit_line(",\"message\":");
    lemma_ascii_lit_line(",\"retryable\":");
    lemma_ascii_lit_line("true");
    lemma_ascii_lit_line("false");
    lemma_ascii_lit_line("}");
    lemma_json_string_no_newline(code);
    lemma_json_string_no_newline(message);
    let a = (",\"error\":{\"code\":").spec_bytes();
    let b = spec_json_string(code);
    let c = (",\"message\":").spec_bytes();
    let d = spec_json_string(message);
    let e = (",\"retryable\":").spec_bytes();
    let f = if retryable {
        ("true").spec_bytes()
    } else {
        ("false").spec_bytes()
    };
    lemma_no_newline_concat(a, b);
    lemma_no_newline_concat(a + b, c);
    lemma_no_newline_concat(a + b + c, d);
    lemma_no_newline_concat(a + b + c + d, e);
    lemma_no_newline_concat(a + b + c + d + e, f);
    lemma_no_newline_concat(a + b + c + d + e + f, ("}").spec_bytes());
}

// ---------- Optional field renderings ----------

/// `null` or a JSON string.
pub open spec fn spec_opt_string(o: Option<String>) -> Seq<u8> {
    match o {
        Some(s) => spec_json_string(s@),
        None => ("null").spec_bytes(),
    }
}

/// `null` or an unsigned number.
pub open spec fn spec_opt_u64(o: Option<u64>) -> Seq<u8> {
    match o {
        Some(n) => spec_u64_str(n as int),
        None => ("null").spec_bytes(),
    }
}

/// `null` or an unsigned number.
pub open spec fn spec_opt_u32(o: Option<u32>) -> Seq<u8> {
    match o {
        Some(n) => spec_u64_str(n as int),
        None => ("null").spec_bytes(),
    }
}

/// `null` or a signed number.
pub open spec fn spec_opt_i32(o: Option<i32>) -> Seq<u8> {
    match o {
        Some(n) => spec_i64_str(n as int),
        None => ("null").spec_bytes(),
    }
}

/// Append `null` or a JSON string.
pub fn push_opt_string(out: &mut Vec<u8>, o: &Option<String>)
    ensures
        final(out)@ == old(out)@ + spec_opt_string(*o),
{
    match o {
        Some(s) => push_json_str(out, s.as_str()),
        None => push_lit(out, "null"),
    }
}

/// Append `null` or an unsigned number.
pub fn push_opt_u64(out: &mut Vec<u8>, o: &Option<u64>)
    ensures
        final(out)@ == old(out)@ + spec_opt_u64(*o),
{
    match o {
        Some(n) => push_u64(out, *n),
        None => push_lit(out, "null"),
    }
}

/// Append `null` or an unsigned number.
pub fn push_opt_u32(out: &mut Vec<u8>, o: &Option<u32>)
    ensures
        final(out)@ == old(out)@ + spec_opt_u32(*o),
{
    match o {
        Some(n) => push_u64(out, *n as u64),
        None => push_lit(out, "null"),
    }
}

/// Append `null` or a signed number.
pub fn push_opt_i32(out: &mut Vec<u8>, o: &Option<i32>)
    ensures
        final(out)@ == old(out)@ + spec_opt_i32(*o),
{
    match o {
        Some(n) => push_i32(out, *n),
        None => push_lit(out, "null"),
    }
}

/// The bytes of the `null` keyword.
pub proof fn lemma_null_bytes()
    ensures
        ("null").spec_bytes().len() == 4,
        ("null").spec_bytes()[0] == 0x6e,
{
    reveal_strlit("null");
    vstd::utf8::is_ascii_chars_encode_utf8("null"@);
}

/// An optional string rendering determines presence, content and what
/// follows: `null` and a quoted string cannot be confused.
pub proof fn lemma_opt_string_unique(
    o1: Option<String>,
    o2: Option<String>,
    r1: Seq<u8>,
    r2: Seq<u8>,
)
    requires
        spec_opt_string(o1) + r1 == spec_opt_string(o2) + r2,
    ensures
        o1 is Some <==> o2 is Some,
        o1 matches Some(a) ==> (o2 matches Some(b) && a@ == b@),
        r1 == r2,
{
    lemma_null_bytes();
    let s = spec_opt_string(o1) + r1;
    match (o1, o2) {
        (None, None) => {
            assert(r1 =~= s.skip(4));
            assert(r2 =~= (spec_opt_string(o2) + r2).skip(4));
        },
        (None, Some(b)) => {
            assert(s[0] == 0x6e);
            assert(s[0] == spec_json_string(b@)[0]);
            assert(spec_json_string(b@)[0] == 0x22);
            assert(false);
        },
        (Some(a), None) => {
            assert(s[0] == spec_json_string(a@)[0]);
            assert(spec_json_string(a@)[0] == 0x22);
            assert(s[0] == 0x6e);
            assert(false);
        },
        (Some(a), Some(b)) => {
            crate::json::lemma_json_string_unique(a@, b@, r1, r2);
        },
    }
}

/// An optional unsigned rendering followed by a non-digit determines
/// presence, value and what follows.
pub proof fn lemma_opt_u64_unique(o1: Option<u64>, o2: Option<u64>, r1: Seq<u8>, r2: Seq<u8>)
    requires
        spec_opt_u64(o1) + r1 == spec_opt_u64(o2) + r2,
        r1.len() == 0 || !crate::jsonparse::spec_is_digit(r1[0]),
        r2.len() == 0 || !crate::jsonparse::spec_is_digit(r2[0]),
    ensures
        o1 == o2,
        r1 == r2,
{
    lemma_null_bytes();
    let s = spec_opt_u64(o1) + r1;
    match (o1, o2) {
        (None, None) => {
            assert(r1 =~= s.skip(4));
            assert(r2 =~= (spec_opt_u64(o2) + r2).skip(4));
        },
        (None, Some(n)) => {
            crate::time::lemma_digits_ascii(n as int);
            assert(s[0] == 0x6e);
            assert(s[0] == spec_u64_str(n as int)[0]);
            assert(false);
        },
        (Some(n), None) => {
            crate::time::lemma_digits_ascii(n as int);
            assert(s[0] == spec_u64_str(n as int)[0]);
            assert(s[0] == 0x6e);
            assert(false);
        },
        (Some(n1), Some(n2)) => {
            crate::jsonparse::lemma_u64_str_unique(n1 as int, n2 as int, r1, r2);
        },
    }
}

/// An optional unsigned rendering followed by a non-digit determines
/// presence, value and what follows.
pub proof fn lemma_opt_u32_unique(o1: Option<u32>, o2: Option<u32>, r1: Seq<u8>, r2: Seq<u8>)
    requires
        spec_opt_u32(o1) + r1 == spec_opt_u32(o2) + r2,
        r1.len() == 0 || !crate::jsonparse::spec_is_digit(r1[0]),
        r2.len() == 0 || !crate::jsonparse::spec_is_digit(r2[0]),
    ensures
        o1 == o2,
        r1 == r2,
{
    lemma_null_bytes();
    let s = spec_opt_u32(o1) + r1;
    match (o1, o2) {
        (None, None) => {
            assert(r1 =~= s.skip(4));
            assert(r2 =~= (spec_opt_u32(o2) + r2).skip(4));
        },
        (None, Some(n)) => {
            crate::time::lemma_digits_ascii(n as int);
            assert(s[0] == 0x6e);
            assert(s[0] == spec_u64_str(n as int)[0]);
            assert(false);
        },
        (Some(n), None) => {
            crate::time::lemma_digits_ascii(n as int);
            assert(s[0] == spec_u64_str(n as int)[0]);
            assert(s[0] == 0x6e);
            assert(false);
        },
        (Some(n1), Some(n2)) => {
            crate::jsonparse::lemma_u64_str_unique(n1 as int, n2 as int, r1, r2);
        },
    }
}

/// An optional signed rendering followed by a non-digit determines
/// presence, value and what follows.
pub proof fn lemma_opt_i32_unique(o1: Option<i32>, o2: Option<i32>, r1: Seq<u8>, r2: Seq<u8>)
    requires
        spec_opt_i32(o1) + r1 == spec_opt_i32(o2) + r2,
        r1.len() == 0 || !crate::jsonparse::spec_is_digit(r1[0]),
        r2.len() == 0 || !crate::jsonparse::spec_is_digit(r2[0]),
    ensures
        o1 == o2,
        r1 == r2,
{
    lemma_null_bytes();
    let s = spec_opt_i32(o1) + r1;
    match (o1, o2) {
        (None, None) => {
            assert(r1 =~= s.skip(4));
            assert(r2 =~= (spec_opt_i32(o2) + r2).skip(4));
        },
        (None, Some(n)) => {
            assert(s[0] == 0x6e);
            if n < 0 {
                assert(s[0] == (seq![0x2du8] + spec_u64_str(-(n as int)) + r2)[0]) by {
                    assert(spec_opt_i32(o2) + r2 =~= seq![0x2du8] + spec_u64_str(-(n as int))
                        + r2);
                }
            } else {
                crate::time::lemma_digits_ascii(n as int);
                assert(s[0] == spec_u64_str(n as int)[0]);
            }
            assert(false);
        },
        (Some(n), None) => {
            if n < 0 {
                assert(s[0] == (seq![0x2du8] + spec_u64_str(-(n as int)) + r1)[0]) by {
                    assert(s =~= seq![0x2du8] + spec_u64_str(-(n as int)) + r1);
                }
            } else {
                crate::time::lemma_digits_ascii(n as int);
                assert(s[0] == spec_u64_str(n as int)[0]);
            }
            assert(s[0] == 0x6e);
            assert(false);
        },
        (Some(n1), Some(n2)) => {
            crate::jsonparse::lemma_i64_str_unique(n1 as int, n2 as int, r1, r2);
        },
    }
}

/// All optional renderings are newline-free.
pub proof fn lemma_null_no_newline()
    ensures
        no_newline(("null").spec_bytes()),
{
    reveal_strlit("null");
    lemma_ascii_lit_line("null");
}

/// `true` or `false`.
pub open spec fn spec_bool(b: bool) -> Seq<u8> {
    if b {
        ("true").spec_bytes()
    } else {
        ("false").spec_bytes()
    }
}

/// Append `true` or `false`.
pub fn push_bool(out: &mut Vec<u8>, b: bool)
    ensures
        final(out)@ == old(out)@ + spec_bool(b),
{
    if b {
        push_lit(out, "true");
    } else {
        push_lit(out, "false");
    }
}

proof fn lemma_bool_no_newline(b: bool)
    ensures
        no_newline(spec_bool(b)),
{
    reveal_strlit("true");
    reveal_strlit("false");
    lemma_ascii_lit_line("true");
    lemma_ascii_lit_line("false");
}

proof fn lemma_opt_string_no_newline(o: Option<String>)
    ensures
        no_newline(spec_opt_string(o)),
{
    lemma_null_no_newline();
    match o {
        Some(s) => lemma_json_string_no_newline(s@),
        None => {},
    }
}

// ---------- Command payloads ----------

/// Response payload for `status`.
#[derive(Debug, Clone, PartialEq)]
pub struct StatusData {
    pub job_id: String,
    pub state: String,
    pub exit_code: Option<i32>,
    pub started_at: String,
    pub finished_at: Option<String>,
}

/// The payload body of a `status` envelope; `exit_code` and
/// `finished_at` are omitted while unknown.
pub open spec fn spec_status_body(d: StatusData) -> Seq<u8> {
    (",\"job_id\":").spec_bytes() + spec_json_string(d.job_id@) + (",\"state\":").spec_bytes()
        + spec_json_string(d.state@) + (match d.exit_code {
        Some(n) => (",\"exit_code\":").spec_bytes() + spec_i64_str(n as int),
        None => Seq::<u8>::empty(),
    }) + (",\"started_at\":").spec_bytes() + spec_json_string(d.started_at@) + (
    match d.finished_at {
        Some(f) => (",\"finished_at\":").spec_bytes() + spec_json_string(f@),
        None => Seq::<u8>::empty(),
    })
}

/// The full `status` envelope.
pub open spec fn spec_status_json(d: StatusData) -> Seq<u8> {
    spec_envelope(true, "status"@, spec_status_body(d))
}

/// Render a `status` response as one JSON line.
pub fn render_status(d: &StatusData) -> (r: Vec<u8>)
    ensures
        r@ == spec_status_json(*d),
        no_newline(r@),
{
    let mut body: Vec<u8> = Vec::new();
    push_lit(&mut body, ",\"job_id\":");
    push_json_str(&mut body, d.job_id.as_str());
    push_lit(&mut body, ",\"state\":");
    push_json_str(&mut body, d.state.as_str());
    match &d.exit_code {
        Some(n) => {
            push_lit(&mut body, ",\"exit_code\":");
            push_i32(&mut body, *n);
        },
        None => {},
    }
    push_lit(&mut body, ",\"started_at\":");
    push_json_str(&mut body, d.started_at.as_str());
    match &d.finished_at {
        Some(f) => {
            push_lit(&mut body, ",\"finished_at\":");
            push_json_str(&mut body, f.as_str());
        },
        None => {},
    }
    proof {
        assert(body@ =~= spec_status_body(*d));
        lemma_status_body_line(*d);
        lemma_envelope_single_line(true, "status"@, spec_status_body(*d));
    }
    render_envelope(true, "status", &body)
}

proof fn lemma_status_body_line(d: StatusData)
    ensures
        no_newline(spec_status_body(d)),
{
    broadcast use crate::json::lemma_no_newline_concat;

    reveal_strlit(",\"job_id\":");
    reveal_strlit(",\"state\":");
    reveal_strlit(",\"exit_code\":");
    reveal_strlit(",\"started_at\":");
    reveal_strlit(",\"finished_at\":");
    lemma_ascii_lit_line(",\"job_id\":");
    lemma_ascii_lit_line(",\"state\":");
    lemma_ascii_lit_line(",\"exit_code\":");
    lemma_ascii_lit_line(",\"started_at\":");
    lemma_ascii_lit_line(",\"finished_at\":");
    lemma_json_string_no_newline(d.job_id@);
    lemma_json_string_no_newline(d.state@);
    lemma_json_string_no_newline(d.started_at@);
    match d.exit_code {
        Some(n) => lemma_i64_str_no_newline(n as int),
        None => {},
    }
    match d.finished_at {
        Some(f) => lemma_json_string_no_newline(f@),
        None => {},
    }
}

/// Response payload for `wait`.
#[derive(Debug, Clone, PartialEq)]
pub struct WaitData {
    pub job_id: String,
    pub state: String,
    pub exit_code: Option<i32>,
}

/// The payload body of a `wait` envelope.
pub open spec fn spec_wait_body(d: WaitData) -> Seq<u8> {
    (",\"job_id\":").spec_bytes() + spec_json_string(d.job_id@) + (",\"state\":").spec_bytes()
        + spec_json_string(d.state@) + (match d.exit_code {
        Some(n) => (",\"exit_code\":").spec_bytes() + spec_i64_str(n as int),
        None => Seq::<u8>::empty(),
    })
}

/// The full `wait` envelope.
pub open spec fn spec_wait_json(d: WaitData) -> Seq<u8> {
    spec_envelope(true, "wait"@, spec_wait_body(d))
}

/// Render a `wait` response as one JSON line.
pub fn render_wait(d: &WaitData) -> (r: Vec<u8>)
    ensures
        r@ == spec_wait_json(*d),
        no_newline(r@),
{
    let mut body: Vec<u8> = Vec::new();
    push_lit(&mut body, ",\"job_id\":");
    push_json_str(&mut body, d.job_id.as_str());
    push_lit(&mut body, ",\"state\":");
    push_json_str(&mut body, d.state.as_str());
    match &d.exit_code {
        Some(n) => {
            push_lit(&mut body, ",\"exit_code\":");
            push_i32(&mut body, *n);
        },
        None => {},
    }
    proof {
        assert(body@ =~= spec_wait_body(*d));
        lemma_wait_body_line(*d);
        lemma_envelope_single_line(true, "wait"@, spec_wait_body(*d));
    }
    render_envelope(true, "wait", &body)
}

proof fn lemma_wait_body_line(d: WaitData)
    ensures
        no_newline(spec_wait_body(d)),
{
    broadcast use crate::json::lemma_no_newline_concat;

    reveal_strlit(",\"job_id\":");
    reveal_strlit(",\"state\":");
    reveal_strlit(",\"exit_code\":");
    lemma_ascii_lit_line(",\"job_id\":");
    lemma_ascii_lit_line(",\"state\":");
    lemma_ascii_lit_line(",\"exit_code\":");
    lemma_json_string_no_newline(d.job_id@);
    lemma_json_string_no_newline(d.state@);
    match d.exit_code {
        Some(n) => lemma_i64_str_no_newline(n as int),
        None => {},
    }
}

/// Response payload for `kill`.
#[derive(Debug, Clone, PartialEq)]
pub struct KillData {
    pub job_id: String,
    pub signal: String,
}

/// The payload body of a `kill` envelope.
pub open spec fn spec_kill_body(d: KillData) -> Seq<u8> {
    (",\"job_id\":").spec_bytes() + spec_json_string(d.job_id@) + (",\"signal\":").spec_bytes()
        + spec_json_string(d.signal@)
}

/// The full `kill` envelope.
pub open spec fn spec_kill_json(d: KillData) -> Seq<u8> {
    spec_envelope(true, "kill"@, spec_kill_body(d))
}

/// Render a `kill` response as one JSON line.
pub fn render_kill(d: &KillData) -> (r: Vec<u8>)
    ensures
        r@ == spec_kill_json(*d),
        no_newline(r@),
{
    let mut body: Vec<u8> = Vec::new();
    push_lit(&mut body, ",\"job_id\":");
    push_json_str(&mut body, d.job_id.as_str());
    push_lit(&mut body, ",\"signal\":");
    push_json_str(&mut body, d.signal.as_str());
    proof {
        assert(body@ =~= spec_kill_body(*d));
        lemma_kill_body_line(*d);
        lemma_envelope_single_line(true, "kill"@, spec_kill_body(*d));
    }
    render_envelope(true, "kill", &body)
}

proof fn lemma_kill_body_line(d: KillData)
    ensures
        no_newline(spec_kill_body(d)),
{
    broadcast use crate::json::lemma_no_newline_concat;

    reveal_strlit(",\"job_id\":");
    reveal_strlit(",\"signal\":");
    lemma_ascii_lit_line(",\"job_id\":");
    lemma_ascii_lit_line(",\"signal\":");
    lemma_json_string_no_newline(d.job_id@);
    lemma_json_string_no_newline(d.signal@);
}

/// Snapshot of stdout/stderr tails at a point in time.
#[derive(Debug, Clone, PartialEq)]
pub struct Snapshot {
    pub stdout_tail: String,
    pub stderr_tail: String,
    /// True when the output was cut by the line or byte bounds.
    pub truncated: bool,
    pub encoding: String,
    /// Size of `stdout.log` in bytes when the snapshot was taken.
    pub stdout_observed_bytes: u64,
    /// Size of `stderr.log` in bytes when the snapshot was taken.
    pub stderr_observed_bytes: u64,
    /// UTF-8 byte length of `stdout_tail`.
    pub stdout_included_bytes: u64,
    /// UTF-8 byte length of `stderr_tail`.
    pub stderr_included_bytes: u64,
}

/// The JSON object a snapshot renders to.
pub open spec fn spec_snapshot_obj(s: Snapshot) -> Seq<u8> {
    ("{\"stdout_tail\":").spec_bytes() + spec_json_string(s.stdout_tail@) + (
    ",\"stderr_tail\":").spec_bytes() + spec_json_string(s.stderr_tail@) + (
    ",\"truncated\":").spec_bytes() + spec_bool(s.truncated) + (",\"encoding\":").spec_bytes()
        + spec_json_string(s.encoding@) + (",\"stdout_observed_bytes\":").spec_bytes()
        + spec_u64_str(s.stdout_observed_bytes as int) + (
    ",\"stderr_observed_bytes\":").spec_bytes() + spec_u64_str(s.stderr_observed_bytes as int)
        + (",\"stdout_included_bytes\":").spec_bytes() + spec_u64_str(
        s.stdout_included_bytes as int,
    ) + (",\"stderr_included_bytes\":").spec_bytes() + spec_u64_str(
        s.stderr_included_bytes as int,
    ) + ("}").spec_bytes()
}

/// Append the JSON object rendering of a snapshot.
#[verifier::rlimit(100)]
pub fn push_snapshot(out: &mut Vec<u8>, s: &Snapshot)
    ensures
        final(out)@ == old(out)@ + spec_snapshot_obj(*s),
{
    push_lit(out, "{\"stdout_tail\":");
    push_json_str(out, s.stdout_tail.as_str());
    push_lit(out, ",\"stderr_tail\":");
    push_json_str(out, s.stderr_tail.as_str());
    push_lit(out, ",\"truncated\":");
    push_bool(out, s.truncated);
    let ghost q1 = ("{\"stdout_tail\":").spec_bytes() + spec_json_string(s.stdout_tail@) + (
    ",\"stderr_tail\":").spec_bytes() + spec_json_string(s.stderr_tail@) + (
    ",\"truncated\":").spec_bytes() + spec_bool(s.truncated);
    proof {
        assert(out@ =~= old(out)@ + q1);
    }
    push_lit(out, ",\"encoding\":");
    push_json_str(out, s.encoding.as_str());
    push_lit(out, ",\"stdout_observed_bytes\":");
    push_u64(out, s.stdout_observed_bytes);
    push_lit(out, ",\"stderr_observed_bytes\":");
    push_u64(out, s.stderr_observed_bytes);
    let ghost q2 = q1 + (",\"encoding\":").spec_bytes() + spec_json_string(s.encoding@) + (
    ",\"stdout_observed_bytes\":").spec_bytes() + spec_u64_str(s.stdout_observed_bytes as int)
        + (",\"stderr_observed_bytes\":").spec_bytes() + spec_u64_str(
        s.stderr_observed_bytes as int,
    );
    proof {
        assert(out@ =~= old(out)@ + q2);
    }
    push_lit(out, ",\"stdout_included_bytes\":");
    push_u64(out, s.stdout_included_bytes);
    push_lit(out, ",\"stderr_included_bytes\":");
    push_u64(out, s.stderr_included_bytes);
    push_lit(out, "}");
    proof {
        let q3 = q2 + (",\"stdout_included_bytes\":").spec_bytes() + spec_u64_str(
            s.stdout_included_bytes as int,
        ) + (",\"stderr_included_bytes\":").spec_bytes() + spec_u64_str(
            s.stderr_included_bytes as int,
        ) + ("}").spec_bytes();
        assert(out@ =~= old(out)@ + q3);
        assert(q3 == spec_snapshot_obj(*s));
    }
}

proof fn lemma_snapshot_obj_line(s: Snapshot)
    ensures
        no_newline(spec_snapshot_obj(s)),
{
    broadcast use crate::json::lemma_no_newline_concat;

    reveal_strlit("{\"stdout_tail\":");
    reveal_strlit(",\"stderr_tail\":");
    reveal_strlit(",\"truncated\":");
    reveal_strlit(",\"encoding\":");
    reveal_strlit(",\"stdout_observed_bytes\":");
    reveal_strlit(",\"stderr_observed_bytes\":");
    reveal_strlit(",\"stdout_included_bytes\":");
    reveal_strlit(",\"stderr_included_bytes\":");
    reveal_strlit("}");
    lemma_ascii_lit_line("{\"stdout_tail\":");
    lemma_ascii_lit_line(",\"stderr_tail\":");
    lemma_ascii_lit_line(",\"truncated\":");
    lemma_ascii_lit_line(",\"encoding\":");
    lemma_ascii_lit_line(",\"stdout_observed_bytes\":");
    lemma_ascii_lit_line(",\"stderr_observed_bytes\":");
    lemma_ascii_lit_line(",\"stdout_included_bytes\":");
    lemma_ascii_lit_line(",\"stderr_included_bytes\":");
    lemma_ascii_lit_line("}");
    lemma_json_string_no_newline(s.stdout_tail@);
    lemma_json_string_no_newline(s.stderr_tail@);
    lemma_json_string_no_newline(s.encoding@);
    lemma_bool_no_newline(s.truncated);
    lemma_u64_str_no_newline(s.stdout_observed_bytes as int);
    lemma_u64_str_no_newline(s.stderr_observed_bytes as int);
    lemma_u64_str_no_newline(s.stdout_included_bytes as int);
    lemma_u64_str_no_newline(s.stderr_included_bytes as int);
}

/// Response payload for `tail`.
#[derive(Debug, Clone, PartialEq)]
pub struct TailData {
    pub job_id: String,
    pub stdout_tail: String,
    pub stderr_tail: String,
    /// True when the output was cut by the line or byte bounds.
    pub truncated: bool,
    pub encoding: String,
    pub stdout_log_path: String,
    pub stderr_log_path: String,
    pub stdout_observed_bytes: u64,
    pub stderr_observed_bytes: u64,
    pub stdout_included_bytes: u64,
    pub stderr_included_bytes: u64,
}

/// The payload body of a `tail` envelope.
pub open spec fn spec_tail_body(d: TailData) -> Seq<u8> {
    (",\"job_id\":").spec_bytes() + spec_json_string(d.job_id@) + (",\"stdout_tail\":").spec_bytes()
        + spec_json_string(d.stdout_tail@) + (",\"stderr_tail\":").spec_bytes()
        + spec_json_string(d.stderr_tail@) + (",\"truncated\":").spec_bytes() + spec_bool(
        d.truncated,
    ) + (",\"encoding\":").spec_bytes() + spec_json_string(d.encoding@) + (
    ",\"stdout_log_path\":").spec_bytes() + spec_json_string(d.stdout_log_path@) + (
    ",\"stderr_log_path\":").spec_bytes() + spec_json_string(d.stderr_log_path@) + (
    ",\"stdout_observed_bytes\":").spec_bytes() + spec_u64_str(d.stdout_observed_bytes as int)
        + (",\"stderr_observed_bytes\":").spec_bytes() + spec_u64_str(
        d.stderr_observed_bytes as int,
    ) + (",\"stdout_included_bytes\":").spec_bytes() + spec_u64_str(
        d.stdout_included_bytes as int,
    ) + (",\"stderr_included_bytes\":").spec_bytes() + spec_u64_str(
        d.stderr_included_bytes as int,
    )
}

/// The full `tail` envelope.
pub open spec fn spec_tail_json(d: TailData) -> Seq<u8> {
    spec_envelope(true, "tail"@, spec_tail_body(d))
}

/// Render a `tail` response as one JSON line.
#[verifier::rlimit(100)]
pub fn render_tail(d: &TailData) -> (r: Vec<u8>)
    ensures
        r@ == spec_tail_json(*d),
        no_newline(r@),
{
    let mut body: Vec<u8> = Vec::new();
    push_lit(&mut body, ",\"job_id\":");
    push_json_str(&mut body, d.job_id.as_str());
    push_lit(&mut body, ",\"stdout_tail\":");
    push_json_str(&mut body, d.stdout_tail.as_str());
    push_lit(&mut body, ",\"stderr_tail\":");
    push_json_str(&mut body, d.stderr_tail.as_str());
    push_lit(&mut body, ",\"truncated\":");
    push_bool(&mut body, d.truncated);
    push_lit(&mut body, ",\"encoding\":");
    push_json_str(&mut body, d.encoding.as_str());
    push_lit(&mut body, ",\"stdout_log_path\":");
    push_json_str(&mut body, d.stdout_log_path.as_str());
    push_lit(&mut body, ",\"stderr_log_path\":");
    push_json_str(&mut body, d.stderr_log_path.as_str());
    push_lit(&mut body, ",\"stdout_observed_bytes\":");
    push_u64(&mut body, d.stdout_observed_bytes);
    push_lit(&mut body, ",\"stderr_observed_bytes\":");
    push_u64(&mut body, d.stderr_observed_bytes);
    push_lit(&mut body, ",\"stdout_included_bytes\":");
    push_u64(&mut body, d.stdout_included_bytes);
    push_lit(&mut body, ",\"stderr_included_bytes\":");
    push_u64(&mut body, d.stderr_included_bytes);
    proof {
        assert(body@ =~= spec_tail_body(*d));
        lemma_tail_body_line(*d);
        lemma_envelope_single_line(true, "tail"@, spec_tail_body(*d));
    }
    render_envelope(true, "tail", &body)
}

proof fn lemma_tail_body_line(d: TailData)
    ensures
        no_newline(spec_tail_body(d)),
{
    broadcast use crate::json::lemma_no_newline_concat;

    reveal_strlit(",\"job_id\":");
    reveal_strlit(",\"stdout_tail\":");
    reveal_strlit(",\"stderr_tail\":");
    reveal_strlit(",\"truncated\":");
    reveal_strlit(",\"encoding\":");
    reveal_strlit(",\"stdout_log_path\":");
    reveal_strlit(",\"stderr_log_path\":");
    reveal_strlit(",\"stdout_observed_bytes\":");
    reveal_strlit(",\"stderr_observed_bytes\":");
    reveal_strlit(",\"stdout_included_bytes\":");
    reveal_strlit(",\"stderr_included_bytes\":");
    lemma_ascii_lit_line(",\"job_id\":");
    lemma_ascii_lit_line(",\"stdout_tail\":");
    lemma_ascii_lit_line(",\"stderr_tail\":");
    lemma_ascii_lit_line(",\"truncated\":");
    lemma_ascii_lit_line(",\"encoding\":");
    lemma_ascii_lit_line(",\"stdout_log_path\":");
    lemma_ascii_lit_line(",\"stderr_log_path\":");
    lemma_ascii_lit_line(",\"stdout_observed_bytes\":");
    lemma_ascii_lit_line(",\"stderr_observed_bytes\":");
    lemma_ascii_lit_line(",\"stdout_included_bytes\":");
    lemma_ascii_lit_line(",\"stderr_included_bytes\":");
    lemma_json_string_no_newline(d.job_id@);
    lemma_json_string_no_newline(d.stdout_tail@);
    lemma_json_string_no_newline(d.stderr_tail@);
    lemma_json_string_no_newline(d.encoding@);
    lemma_json_string_no_newline(d.stdout_log_path@);
    lemma_json_string_no_newline(d.stderr_log_path@);
    lemma_bool_no_newline(d.truncated);
    lemma_u64_str_no_newline(d.stdout_observed_bytes as int);
    lemma_u64_str_no_newline(d.stderr_observed_bytes as int);
    lemma_u64_str_no_newline(d.stdout_included_bytes as int);
    lemma_u64_str_no_newline(d.stderr_included_bytes as int);
}

/// Response payload for `run`.
#[derive(Debug, Clone, PartialEq)]
pub struct RunData {
    pub job_id: String,
    pub state: String,
    /// Environment variables passed to the job, masked values replaced
    /// by `***`; omitted from JSON when empty.
    pub env_vars: Vec<String>,
    /// Present when the snapshot phase ran before `run` returned.
    pub snapshot: Option<Snapshot>,
    pub stdout_log_path: String,
    pub stderr_log_path: String,
    /// Milliseconds actually waited for the snapshot.
    pub waited_ms: u64,
    /// Wall-clock milliseconds from invocation start to JSON output.
    pub elapsed_ms: u64,
    /// Present only after waiting for termination.
    pub exit_code: Option<i32>,
    /// Present only after waiting for termination.
    pub finished_at: Option<String>,
    /// Present only after waiting for termination.
    pub final_snapshot: Option<Snapshot>,
}

/// The optional `env_vars` segment of a `run` body.
pub open spec fn spec_seg_env_vars(v: Seq<String>) -> Seq<u8> {
    if v.len() == 0 {
        Seq::<u8>::empty()
    } else {
        (",\"env_vars\":").spec_bytes() + crate::json::spec_str_array(crate::json::views_of(v))
    }
}

/// The optional `snapshot` segment of a `run` body.
pub open spec fn spec_seg_snapshot(o: Option<Snapshot>) -> Seq<u8> {
    match o {
        Some(s) => (",\"snapshot\":").spec_bytes() + spec_snapshot_obj(s),
        None => Seq::<u8>::empty(),
    }
}

/// The optional `final_snapshot` segment of a `run` body.
pub open spec fn spec_seg_final_snapshot(o: Option<Snapshot>) -> Seq<u8> {
    match o {
        Some(s) => (",\"final_snapshot\":").spec_bytes() + spec_snapshot_obj(s),
        None => Seq::<u8>::empty(),
    }
}

/// The optional `exit_code` segment of a payload body.
pub open spec fn spec_seg_exit_code(o: Option<i32>) -> Seq<u8> {
    match o {
        Some(n) => (",\"exit_code\":").spec_bytes() + spec_i64_str(n as int),
        None => Seq::<u8>::empty(),
    }
}

/// The optional `finished_at` segment of a payload body.
pub open spec fn spec_seg_finished_at(o: Option<String>) -> Seq<u8> {
    match o {
        Some(f) => (",\"finished_at\":").spec_bytes() + spec_json_string(f@),
        None => Seq::<u8>::empty(),
    }
}

/// The optional `updated_at` segment of a payload body.
pub open spec fn spec_seg_updated_at(o: Option<String>) -> Seq<u8> {
    match o {
        Some(u) => (",\"updated_at\":").spec_bytes() + spec_json_string(u@),
        None => Seq::<u8>::empty(),
    }
}

/// The payload body of a `run` envelope; empty or unknown fields are
/// omitted.
pub open spec fn spec_run_body(d: RunData) -> Seq<u8> {
    (",\"job_id\":").spec_bytes() + spec_json_string(d.job_id@) + (",\"state\":").spec_bytes()
        + spec_json_string(d.state@) + spec_seg_env_vars(d.env_vars@) + spec_seg_snapshot(
        d.snapshot,
    ) + (",\"stdout_log_path\":").spec_bytes() + spec_json_string(d.stdout_log_path@) + (
    ",\"stderr_log_path\":").spec_bytes() + spec_json_string(d.stderr_log_path@) + (
    ",\"waited_ms\":").spec_bytes() + spec_u64_str(d.waited_ms as int) + (
    ",\"elapsed_ms\":").spec_bytes() + spec_u64_str(d.elapsed_ms as int) + spec_seg_exit_code(
        d.exit_code,
    ) + spec_seg_finished_at(d.finished_at) + spec_seg_final_snapshot(d.final_snapshot)
}

/// The full `run` envelope.
pub open spec fn spec_run_json(d: RunData) -> Seq<u8> {
    spec_envelope(true, "run"@, spec_run_body(d))
}

/// Render a `run` response as one JSON line.
#[verifier::rlimit(100)]
pub fn render_run(d: &RunData) -> (r: Vec<u8>)
    ensures
        r@ == spec_run_json(*d),
        no_newline(r@),
{
    let mut body: Vec<u8> = Vec::new();
    push_lit(&mut body, ",\"job_id\":");
    push_json_str(&mut body, d.job_id.as_str());
    push_lit(&mut body, ",\"state\":");
    push_json_str(&mut body, d.state.as_str());
    let ghost p1 = (",\"job_id\":").spec_bytes() + spec_json_string(d.job_id@) + (
    ",\"state\":").spec_bytes() + spec_json_string(d.state@);
    proof {
        assert(body@ =~= p1);
    }
    if d.env_vars.len() > 0 {
        push_lit(&mut body, ",\"env_vars\":");
        crate::json::push_str_array(&mut body, &d.env_vars);
    }
    let ghost p2 = p1 + spec_seg_env_vars(d.env_vars@);
    proof {
        assert(body@ =~= p2);
    }
    match &d.snapshot {
        Some(s) => {
            push_lit(&mut body, ",\"snapshot\":");
            push_snapshot(&mut body, s);
        },
        None => {},
    }
    let ghost p3 = p2 + spec_seg_snapshot(d.snapshot);
    proof {
        assert(body@ =~= p3);
    }
    push_lit(&mut body, ",\"stdout_log_path\":");
    push_json_str(&mut body, d.stdout_log_path.as_str());
    push_lit(&mut body, ",\"stderr_log_path\":");
    push_json_str(&mut body, d.stderr_log_path.as_str());
    let ghost p4 = p3 + (",\"stdout_log_path\":").spec_bytes() + spec_json_string(
        d.stdout_log_path@,
    ) + (",\"stderr_log_path\":").spec_bytes() + spec_json_string(d.stderr_log_path@);
    proof {
        assert(body@ =~= p4);
    }
    push_lit(&mut body, ",\"waited_ms\":");
    push_u64(&mut body, d.waited_ms);
    push_lit(&mut body, ",\"elapsed_ms\":");
    push_u64(&mut body, d.elapsed_ms);
    let ghost p5 = p4 + (",\"waited_ms\":").spec_bytes() + spec_u64_str(d.waited_ms as int) + (
    ",\"elapsed_ms\":").spec_bytes() + spec_u64_str(d.elapsed_ms as int);
    proof {
        assert(body@ =~= p5);
    }
    match &d.exit_code {
        Some(n) => {
            push_lit(&mut body, ",\"exit_code\":");
            push_i32(&mut body, *n);
        },
        None => {},
    }
    match &d.finished_at {
        Some(f) => {
            push_lit(&mut body, ",\"finished_at\":");
            push_json_str(&mut body, f.as_str());
        },
        None => {},
    }
    let ghost p6 = p5 + spec_seg_exit_code(d.exit_code) + spec_seg_finished_at(d.finished_at);
    proof {
        assert(body@ =~= p6);
    }
    match &d.final_snapshot {
        Some(s) => {
            push_lit(&mut body, ",\"final_snapshot\":");
            push_snapshot(&mut body, s);
        },
        None => {},
    }
    proof {
        assert(body@ =~= p6 + spec_seg_final_snapshot(d.final_snapshot));
        assert(body@ =~= spec_run_body(*d));
        lemma_run_body_line(*d);
        lemma_envelope_single_line(true, "run"@, spec_run_body(*d));
    }
    render_envelope(true, "run", &body)
}

proof fn lemma_run_body_line(d: RunData)
    ensures
        no_newline(spec_run_body(d)),
{
    broadcast use crate::json::lemma_no_newline_concat;

    reveal_strlit(",\"job_id\":");
    reveal_strlit(",\"state\":");
    reveal_strlit(",\"env_vars\":");
    reveal_strlit(",\"snapshot\":");
    reveal_strlit(",\"stdout_log_path\":");
    reveal_strlit(",\"stderr_log_path\":");
    reveal_strlit(",\"waited_ms\":");
    reveal_strlit(",\"elapsed_ms\":");
    reveal_strlit(",\"exit_code\":");
    reveal_strlit(",\"finished_at\":");
    reveal_strlit(",\"final_snapshot\":");
    lemma_ascii_lit_line(",\"job_id\":");
    lemma_ascii_lit_line(",\"state\":");
    lemma_ascii_lit_line(",\"env_vars\":");
    lemma_ascii_lit_line(",\"snapshot\":");
    lemma_ascii_lit_line(",\"stdout_log_path\":");
    lemma_ascii_lit_line(",\"stderr_log_path\":");
    lemma_ascii_lit_line(",\"waited_ms\":");
    lemma_ascii_lit_line(",\"elapsed_ms\":");
    lemma_ascii_lit_line(",\"exit_code\":");
    lemma_ascii_lit_line(",\"finished_at\":");
    lemma_ascii_lit_line(",\"final_snapshot\":");
    lemma_json_string_no_newline(d.job_id@);
    lemma_json_string_no_newline(d.state@);
    lemma_json_string_no_newline(d.stdout_log_path@);
    lemma_json_string_no_newline(d.stderr_log_path@);
    lemma_u64_str_no_newline(d.waited_ms as int);
    lemma_u64_str_no_newline(d.elapsed_ms as int);
    crate::json::lemma_str_array_no_newline(crate::json::views_of(d.env_vars@));
    match d.snapshot {
        Some(s) => lemma_snapshot_obj_line(s),
        None => {},
    }
    match d.exit_code {
        Some(n) => lemma_i64_str_no_newline(n as int),
        None => {},
    }
    match d.finished_at {
        Some(f) => lemma_json_string_no_newline(f@),
        None => {},
    }
    match d.final_snapshot {
        Some(s) => lemma_snapshot_obj_line(s),
        None => {},
    }
}

/// Summary of a single job within a `list` response.
#[derive(Debug, Clone, PartialEq)]
pub struct JobSummary {
    pub job_id: String,
    /// `running`, `exited`, `killed`, `failed` or `unknown`.
    pub state: String,
    pub exit_code: Option<i32>,
    /// Creation timestamp from `meta.json`.
    pub started_at: String,
    pub finished_at: Option<String>,
    pub updated_at: Option<String>,
}

/// The JSON object one job summary renders to.
pub open spec fn spec_summary_obj(j: JobSummary) -> Seq<u8> {
    ("{\"job_id\":").spec_bytes() + spec_json_string(j.job_id@) + (",\"state\":").spec_bytes()
        + spec_json_string(j.state@) + spec_seg_exit_code(j.exit_code) + (
    ",\"started_at\":").spec_bytes() + spec_json_string(j.started_at@) + spec_seg_finished_at(
        j.finished_at,
    ) + spec_seg_updated_at(j.updated_at) + ("}").spec_bytes()
}

/// The comma-separated items of the `jobs` array.
pub open spec fn spec_summary_items(js: Seq<JobSummary>) -> Seq<u8>
    decreases js.len(),
{
    if js.len() == 0 {
        Seq::<u8>::empty()
    } else if js.len() == 1 {
        spec_summary_obj(js[0])
    } else {
        spec_summary_obj(js[0]) + seq![0x2cu8] + spec_summary_items(js.drop_first())
    }
}

proof fn lemma_summary_items_snoc(js: Seq<JobSummary>, j: JobSummary)
    ensures
        js.len() == 0 ==> spec_summary_items(js.push(j)) == spec_summary_obj(j),
        js.len() > 0 ==> spec_summary_items(js.push(j)) == spec_summary_items(js)
            + seq![0x2cu8] + spec_summary_obj(j),
    decreases js.len(),
{
    if js.len() == 0 {
        assert(js.push(j)[0] == j);
        assert(spec_summary_items(js.push(j)) == spec_summary_obj(j));
    } else {
        assert(js.push(j).drop_first() =~= js.drop_first().push(j));
        lemma_summary_items_snoc(js.drop_first(), j);
        if js.len() == 1 {
            assert(spec_summary_items(js.push(j)) =~= spec_summary_items(js) + seq![0x2cu8]
                + spec_summary_obj(j));
        } else {
            assert(spec_summary_items(js.push(j)) =~= spec_summary_items(js) + seq![0x2cu8]
                + spec_summary_obj(j));
        }
    }
}

/// Append one job summary object.
#[verifier::rlimit(100)]
fn push_summary(out: &mut Vec<u8>, j: &JobSummary)
    ensures
        final(out)@ == old(out)@ + spec_summary_obj(*j),
{
    push_lit(out, "{\"job_id\":");
    push_json_str(out, j.job_id.as_str());
    push_lit(out, ",\"state\":");
    push_json_str(out, j.state.as_str());
    match &j.exit_code {
        Some(n) => {
            push_lit(out, ",\"exit_code\":");
            push_i32(out, *n);
        },
        None => {},
    }
    let ghost p1 = old(out)@ + ("{\"job_id\":").spec_bytes() + spec_json_string(j.job_id@) + (
    ",\"state\":").spec_bytes() + spec_json_string(j.state@) + spec_seg_exit_code(j.exit_code);
    proof {
        assert(out@ =~= p1);
    }
    push_lit(out, ",\"started_at\":");
    push_json_str(out, j.started_at.as_str());
    match &j.finished_at {
        Some(f) => {
            push_lit(out, ",\"finished_at\":");
            push_json_str(out, f.as_str());
        },
        None => {},
    }
    let ghost p2 = p1 + (",\"started_at\":").spec_bytes() + spec_json_string(j.started_at@)
        + spec_seg_finished_at(j.finished_at);
    proof {
        assert(out@ =~= p2);
    }
    match &j.updated_at {
        Some(u) => {
            push_lit(out, ",\"updated_at\":");
            push_json_str(out, u.as_str());
        },
        None => {},
    }
    push_lit(out, "}");
    proof {
        assert(out@ =~= p2 + spec_seg_updated_at(j.updated_at) + ("}").spec_bytes());
        assert(out@ =~= old(out)@ + spec_summary_obj(*j));
    }
}

proof fn lemma_summary_obj_line(j: JobSummary)
    ensures
        no_newline(spec_summary_obj(j)),
{
    broadcast use crate::json::lemma_no_newline_concat;

    reveal_strlit("{\"job_id\":");
    reveal_strlit(",\"state\":");
    reveal_strlit(",\"exit_code\":");
    reveal_strlit(",\"started_at\":");
    reveal_strlit(",\"finished_at\":");
    reveal_strlit(",\"updated_at\":");
    reveal_strlit("}");
    lemma_ascii_lit_line("{\"job_id\":");
    lemma_ascii_lit_line(",\"state\":");
    lemma_ascii_lit_line(",\"exit_code\":");
    lemma_ascii_lit_line(",\"started_at\":");
    lemma_ascii_lit_line(",\"finished_at\":");
    lemma_ascii_lit_line(",\"updated_at\":");
    lemma_ascii_lit_line("}");
    lemma_json_string_no_newline(j.job_id@);
    lemma_json_string_no_newline(j.state@);
    lemma_json_string_no_newline(j.started_at@);
    match j.exit_code {
        Some(n) => lemma_i64_str_no_newline(n as int),
        None => {},
    }
    match j.finished_at {
        Some(f) => lemma_json_string_no_newline(f@),
        None => {},
    }
    match j.updated_at {
        Some(u) => lemma_json_string_no_newline(u@),
        None => {},
    }
}

proof fn lemma_summary_items_line(js: Seq<JobSummary>)
    ensures
        no_newline(spec_summary_items(js)),
    decreases js.len(),
{
    broadcast use crate::json::lemma_no_newline_concat;

    if js.len() == 1 {
        lemma_summary_obj_line(js[0]);
    } else if js.len() > 1 {
        lemma_summary_obj_line(js[0]);
        lemma_summary_items_line(js.drop_first());
    }
}

/// Response payload for `list`.
#[derive(Debug, Clone, PartialEq)]
pub struct ListData {
    /// Resolved root directory path.
    pub root: String,
    /// Job summaries, sorted by `started_at` descending.
    pub jobs: Vec<JobSummary>,
    /// True when the result was cut by the limit.
    pub truncated: bool,
    /// Directories skipped because they could not be read as jobs.
    pub skipped: u64,
}

/// The payload body of a `list` envelope.
pub open spec fn spec_list_body(d: ListData) -> Seq<u8> {
    (",\"root\":").spec_bytes() + spec_json_string(d.root@) + (",\"jobs\":[").spec_bytes()
        + spec_summary_items(d.jobs@) + ("]").spec_bytes() + (",\"truncated\":").spec_bytes()
        + spec_bool(d.truncated) + (",\"skipped\":").spec_bytes() + spec_u64_str(
        d.skipped as int,
    )
}

/// The full `list` envelope.
pub open spec fn spec_list_json(d: ListData) -> Seq<u8> {
    spec_envelope(true, "list"@, spec_list_body(d))
}

/// Render a `list` response as one JSON line.
pub fn render_list(d: &ListData) -> (r: Vec<u8>)
    ensures
        r@ == spec_list_json(*d),
        no_newline(r@),
{
    let mut body: Vec<u8> = Vec::new();
    push_lit(&mut body, ",\"root\":");
    push_json_str(&mut body, d.root.as_str());
    push_lit(&mut body, ",\"jobs\":[");
    let ghost mid = body@;
    let n: usize = d.jobs.len();
    let mut i: usize = 0;
    while i < n
        invariant
            0 <= i <= n,
            n == d.jobs@.len(),
            body@ == mid + spec_summary_items(d.jobs@.take(i as int)),
        decreases n - i,
    {
        if i > 0 {
            body.push(0x2c);
        }
        push_summary(&mut body, &d.jobs[i]);
        proof {
            let prev = d.jobs@.take(i as int);
            assert(d.jobs@.take(i + 1) =~= prev.push(d.jobs@[i as int]));
            lemma_summary_items_snoc(prev, d.jobs@[i as int]);
            assert(prev.len() == i);
            assert(body@ =~= mid + spec_summary_items(d.jobs@.take(i + 1)));
        }
        i = i + 1;
    }
    push_lit(&mut body, "]");
    push_lit(&mut body, ",\"truncated\":");
    push_bool(&mut body, d.truncated);
    push_lit(&mut body, ",\"skipped\":");
    push_u64(&mut body, d.skipped);
    proof {
        assert(d.jobs@.take(n as int) =~= d.jobs@);
        assert(body@ =~= spec_list_body(*d));
        lemma_list_body_line(*d);
        lemma_envelope_single_line(true, "list"@, spec_list_body(*d));
    }
    render_envelope(true, "list", &body)
}

proof fn lemma_list_body_line(d: ListData)
    ensures
        no_newline(spec_list_body(d)),
{
    broadcast use crate::json::lemma_no_newline_concat;

    reveal_strlit(",\"root\":");
    reveal_strlit(",\"jobs\":[");
    reveal_strlit("]");
    reveal_strlit(",\"truncated\":");
    reveal_strlit(",\"skipped\":");
    lemma_ascii_lit_line(",\"root\":");
    lemma_ascii_lit_line(",\"jobs\":[");
    lemma_ascii_lit_line("]");
    lemma_ascii_lit_line(",\"truncated\":");
    lemma_ascii_lit_line(",\"skipped\":");
    lemma_json_string_no_newline(d.root@);
    lemma_summary_items_line(d.jobs@);
    lemma_bool_no_newline(d.truncated);
    lemma_u64_str_no_newline(d.skipped as int);
}

} // verus!
