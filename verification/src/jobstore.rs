//! Job directory management: paths, root resolution, the tail engine,
//! and the canonical on-disk `meta.json` / `state.json` formats.
//!
//! Resolution order for the jobs root:
//!   1. explicit root argument
//!   2. the `AGENT_EXEC_ROOT` environment variable
//!   3. `$XDG_DATA_HOME/agent-exec/jobs`
//!   4. the platform data directory, `agent-exec/jobs` below it
//!
//! The functions here are pure: the unverified shell reads the
//! environment and the files and hands the values in.
//!
//! The store's JSON is this crate's canonical single-line rendering:
//! `emit_meta`/`emit_state` fix the bytes, and the parsers accept
//! exactly those bytes, so every file this binary writes reads back —
//! and nothing else does.  A hand-edited or differently formatted
//! `state.json` is reported as unreadable rather than guessed at.

use vstd::prelude::*;
use vstd::string::StringSliceAdditionalSpecFns;
use vstd::utf8::{decode_utf8, valid_utf8};
use crate::json::{push_json_str, push_lit, spec_i64_str, spec_json_string};
use crate::schema::{
    JobMeta, JobMetaJob,
    spec_opt_i32, spec_opt_string, spec_opt_u32, spec_opt_u64, spec_status_str, JobState,
    JobStateJob, JobStateResult, JobStatus,
};

verus! {

/// Sentinel for "job not found", so the caller can emit
/// `error.code = "job_not_found"` instead of `internal_error`.
#[derive(Debug, Clone, PartialEq)]
pub struct JobNotFound {
    pub job_id: String,
}

impl JobNotFound {
    /// The message an error envelope carries for this condition.
    pub fn message(&self) -> (r: String)
        ensures
            r@ == "job not found: "@ + self.job_id@,
    {
        let mut s = String::from_str("job not found: ");
        s.append(self.job_id.as_str());
        s
    }
}

/// Join two path components with a separator.
pub open spec fn spec_path_join(a: Seq<char>, b: Seq<char>) -> Seq<char> {
    a + "/"@ + b
}

fn path_join(a: &str, b: &str) -> (r: String)
    ensures
        r@ == spec_path_join(a@, b@),
{
    let mut s = String::from_str(a);
    s.append("/");
    s.append(b);
    s
}

/// The jobs root the priority chain resolves to.  `data_base` is the
/// platform data directory when one is known; an empty `env_root` or
/// `xdg` counts as absent.
pub open spec fn spec_resolve_root(
    cli: Option<Seq<char>>,
    env_root: Option<Seq<char>>,
    xdg: Option<Seq<char>>,
    data_base: Option<Seq<char>>,
) -> Seq<char> {
    if cli is Some {
        cli->0
    } else if env_root is Some && env_root->0.len() > 0 {
        env_root->0
    } else if xdg is Some && xdg->0.len() > 0 {
        spec_path_join(spec_path_join(xdg->0, "agent-exec"@), "jobs"@)
    } else if data_base is Some {
        spec_path_join(spec_path_join(data_base->0, "agent-exec"@), "jobs"@)
    } else {
        "~/.local/share/agent-exec/jobs"@
    }
}

/// Resolve the jobs root directory following the priority chain:
/// explicit argument, `AGENT_EXEC_ROOT`, `$XDG_DATA_HOME/agent-exec/jobs`,
/// then `agent-exec/jobs` under the platform data directory.  It never
/// fails: with nothing to go on it falls back to the literal home path.
pub fn resolve_root(
    cli_root: Option<&str>,
    env_root: Option<&str>,
    xdg_data_home: Option<&str>,
    data_base: Option<&str>,
) -> (r: String)
    ensures
        r@ == spec_resolve_root(
            match cli_root {
                Some(s) => Some(s@),
                None => None,
            },
            match env_root {
                Some(s) => Some(s@),
                None => None,
            },
            match xdg_data_home {
                Some(s) => Some(s@),
                None => None,
            },
            match data_base {
                Some(s) => Some(s@),
                None => None,
            },
        ),
{
    if let Some(root) = cli_root {
        return String::from_str(root);
    }
    if let Some(root) = env_root {
        if root.unicode_len() > 0 {
            return String::from_str(root);
        }
    }
    if let Some(xdg) = xdg_data_home {
        if xdg.unicode_len() > 0 {
            return path_join(path_join(xdg, "agent-exec").as_str(), "jobs");
        }
    }
    if let Some(base) = data_base {
        return path_join(path_join(base, "agent-exec").as_str(), "jobs");
    }
    String::from_str("~/.local/share/agent-exec/jobs")
}

/// Handle to a specific job's directory.
#[derive(Debug, Clone, PartialEq)]
pub struct JobDir {
    pub path: String,
    pub job_id: String,
}

impl JobDir {
    /// Open an existing job directory by ID.  `exists` reports whether
    /// the directory is present on disk; when it is not, the typed
    /// `JobNotFound` sentinel comes back so the caller can map it to
    /// `error.code = "job_not_found"`.
    pub fn open(root: &str, job_id: &str, exists: bool) -> (r: Result<JobDir, JobNotFound>)
        ensures
            r is Ok <==> exists,
            r matches Ok(d) ==> d.path@ == spec_path_join(root@, job_id@) && d.job_id@
                == job_id@,
            r matches Err(e) ==> e.job_id@ == job_id@,
    {
        if !exists {
            return Err(JobNotFound { job_id: String::from_str(job_id) });
        }
        Ok(JobDir { path: path_join(root, job_id), job_id: String::from_str(job_id) })
    }

    /// Path of `meta.json` within this job directory.
    pub fn meta_path(&self) -> (r: String)
        ensures
            r@ == spec_path_join(self.path@, "meta.json"@),
    {
        path_join(self.path.as_str(), "meta.json")
    }

    /// Path of `state.json` within this job directory.
    pub fn state_path(&self) -> (r: String)
        ensures
            r@ == spec_path_join(self.path@, "state.json"@),
    {
        path_join(self.path.as_str(), "state.json")
    }

    /// Path of `stdout.log` within this job directory.
    pub fn stdout_path(&self) -> (r: String)
        ensures
            r@ == spec_path_join(self.path@, "stdout.log"@),
    {
        path_join(self.path.as_str(), "stdout.log")
    }

    /// Path of `stderr.log` within this job directory.
    pub fn stderr_path(&self) -> (r: String)
        ensures
            r@ == spec_path_join(self.path@, "stderr.log"@),
    {
        path_join(self.path.as_str(), "stderr.log")
    }

    /// Path of `full.log` within this job directory.
    pub fn full_log_path(&self) -> (r: String)
        ensures
            r@ == spec_path_join(self.path@, "full.log"@),
    {
        path_join(self.path.as_str(), "full.log")
    }
}

// ---------- Tail engine ----------

/// What `String::from_utf8_lossy` returns for a byte sequence.  The
/// shape of the replacement of invalid sequences is not modelled; valid
/// input decodes exactly.
pub uninterp spec fn lossy_of(b: Seq<u8>) -> Seq<char>;

/// Relies on `String::from_utf8_lossy`: valid UTF-8 decodes to its
/// character sequence, invalid sequences are replaced; the result
/// depends on the bytes alone, and empty input stays empty.
#[verifier::external_body]
pub(crate) fn lossy_decode(v: &Vec<u8>) -> (r: String)
    ensures
        r@ == lossy_of(v@),
        valid_utf8(v@) ==> r@ == decode_utf8(v@),
        v@.len() == 0 ==> r@.len() == 0,
{
    String::from_utf8_lossy(v.as_slice()).into_owned()
}

/// The last `max` bytes of `d`.
pub open spec fn spec_tail_window(d: Seq<u8>, max: int) -> Seq<u8> {
    if d.len() > max {
        d.subrange(d.len() - max, d.len() as int)
    } else {
        d
    }
}

/// Number of newline bytes in `b`.
pub open spec fn spec_nl_count(b: Seq<u8>) -> int
    decreases b.len(),
{
    if b.len() == 0 {
        0
    } else {
        spec_nl_count(b.drop_last()) + if b.last() == 0x0a {
            1int
        } else {
            0int
        }
    }
}

/// Index where the last `k` lines of `e` start: scan backward from `j`
/// having already passed `cnt` newlines, and stop after the `k`-th.
pub open spec fn spec_cut_back(e: Seq<u8>, j: int, cnt: int, k: int) -> int
    decreases j,
{
    if j <= 0 {
        0
    } else if e[j - 1] == 0x0a {
        if cnt + 1 == k {
            j
        } else {
            spec_cut_back(e, j - 1, cnt + 1, k)
        }
    } else {
        spec_cut_back(e, j - 1, cnt, k)
    }
}

/// `x` with each line's single trailing carriage return removed: a
/// `0x0d` directly before a newline or at the end disappears.
pub open spec fn spec_strip_cr(x: Seq<u8>) -> Seq<u8>
    decreases x.len(),
{
    if x.len() == 0 {
        Seq::<u8>::empty()
    } else if x[0] == 0x0d && (x.len() == 1 || x[1] == 0x0a) {
        spec_strip_cr(x.drop_first())
    } else {
        seq![x[0]] + spec_strip_cr(x.drop_first())
    }
}

/// The bytes a tail keeps: the last `max` bytes of the file, then — when
/// `tail_lines` is non-zero — the last `tail_lines` lines of that
/// window, carriage returns before line ends removed.
pub open spec fn spec_tail_bytes(d: Seq<u8>, tail_lines: int, max: int) -> Seq<u8> {
    let w = spec_tail_window(d, max);
    if tail_lines == 0 || w.len() == 0 {
        w
    } else {
        let e = if w.last() == 0x0a {
            w.drop_last()
        } else {
            w
        };
        spec_strip_cr(e.skip(spec_cut_back(e, e.len() as int, 0, tail_lines)))
    }
}

/// Whether a tail reports truncation: the byte bound cut the file, or
/// the line bound dropped lines.  `tail_lines == 0` disables line
/// truncation entirely.
pub open spec fn spec_tail_truncated(d: Seq<u8>, tail_lines: int, max: int) -> bool {
    let w = spec_tail_window(d, max);
    let byte_tr = d.len() > max;
    if tail_lines == 0 || w.len() == 0 {
        byte_tr
    } else {
        let e = if w.last() == 0x0a {
            w.drop_last()
        } else {
            w
        };
        byte_tr || spec_nl_count(e) + 1 > tail_lines
    }
}

/// Stripping carriage returns never grows the byte count.
pub proof fn lemma_strip_cr_len(x: Seq<u8>)
    ensures
        spec_strip_cr(x).len() <= x.len(),
    decreases x.len(),
{
    if x.len() > 0 {
        lemma_strip_cr_len(x.drop_first());
    }
}

/// The kept tail bytes are never more than the file held.
pub proof fn lemma_tail_bytes_le(d: Seq<u8>, tail_lines: int, max: int)
    requires
        max >= 0,
    ensures
        spec_tail_bytes(d, tail_lines, max).len() <= d.len(),
{
    let w = spec_tail_window(d, max);
    if !(tail_lines == 0 || w.len() == 0) {
        let e = if w.last() == 0x0a {
            w.drop_last()
        } else {
            w
        };
        let c = spec_cut_back(e, e.len() as int, 0, tail_lines);
        lemma_cut_back_bounds(e, e.len() as int, 0, tail_lines);
        lemma_strip_cr_len(e.skip(c));
    }
}

proof fn lemma_cut_back_bounds(e: Seq<u8>, j: int, cnt: int, k: int)
    requires
        0 <= j <= e.len(),
    ensures
        0 <= spec_cut_back(e, j, cnt, k) <= j,
    decreases j,
{
    if j > 0 {
        if e[j - 1] == 0x0a {
            if cnt + 1 != k {
                lemma_cut_back_bounds(e, j - 1, cnt + 1, k);
            }
        } else {
            lemma_cut_back_bounds(e, j - 1, cnt, k);
        }
    }
}

/// Read the last `max_bytes` of a log's contents, keep the last
/// `tail_lines` lines (0 keeps them all), and decode lossily; the flag
/// reports whether either bound cut anything.  `data` is `None` when the
/// file does not exist, which yields an empty tail.
pub fn tail_log_with_truncated(data: Option<&Vec<u8>>, tail_lines: u64, max_bytes: u64) -> (r: (
    String,
    bool,
))
    ensures
        data matches Some(d) ==> r.0@ == lossy_of(
            spec_tail_bytes(d@, tail_lines as int, max_bytes as int),
        ) && r.1 == spec_tail_truncated(d@, tail_lines as int, max_bytes as int) && (valid_utf8(
            spec_tail_bytes(d@, tail_lines as int, max_bytes as int),
        ) ==> r.0@ == decode_utf8(spec_tail_bytes(d@, tail_lines as int, max_bytes as int))),
        data is None ==> r.0@.len() == 0 && r.1 == false,
{
    let d = match data {
        Some(d) => d,
        None => {
            return (String::new(), false);
        },
    };
    let dlen: usize = d.len();
    // The window: the last `max_bytes` bytes.
    let start: usize = if max_bytes < dlen as u64 {
        dlen - max_bytes as usize
    } else {
        0
    };
    let byte_truncated: bool = (dlen as u64) > max_bytes;
    let mut w: Vec<u8> = Vec::new();
    let mut i: usize = start;
    while i < dlen
        invariant
            start <= i <= dlen,
            dlen == d@.len(),
            w@ == d@.subrange(start as int, i as int),
        decreases dlen - i,
    {
        w.push(d[i]);
        proof {
            assert(d@.subrange(start as int, i + 1) =~= d@.subrange(start as int, i as int).push(
                d@[i as int],
            ));
        }
        i = i + 1;
    }
    proof {
        assert(w@ =~= spec_tail_window(d@, max_bytes as int));
    }
    if tail_lines == 0 || w.len() == 0 {
        let s = lossy_decode(&w);
        return (s, byte_truncated);
    }
    // Drop one trailing newline, as line splitting does.
    let elen: usize = if w[w.len() - 1] == 0x0a {
        w.len() - 1
    } else {
        w.len()
    };
    let ghost e = if w@.last() == 0x0a {
        w@.drop_last()
    } else {
        w@
    };
    proof {
        assert(e =~= w@.subrange(0, elen as int));
    }
    // Scan backward for the start of the last `tail_lines` lines,
    // counting the newlines passed on the way.
    let mut j: usize = elen;
    let mut cnt: u64 = 0;
    let mut cut: usize = 0;
    let mut hit: bool = false;
    loop
        invariant_except_break
            0 <= j <= elen,
            elen <= w@.len(),
            e == w@.subrange(0, elen as int),
            tail_lines >= 1,
            cnt < tail_lines,
            spec_nl_count(e.skip(j as int)) == cnt,
            spec_cut_back(e, elen as int, 0, tail_lines as int) == spec_cut_back(
                e,
                j as int,
                cnt as int,
                tail_lines as int,
            ),
        ensures
            cut == spec_cut_back(e, elen as int, 0, tail_lines as int),
            hit <==> spec_nl_count(e) + 1 > tail_lines,
        decreases j,
    {
        if j == 0 {
            proof {
                assert(e.skip(0) =~= e);
            }
            cut = 0;
            hit = false;
            break;
        }
        let b: u8 = w[j - 1];
        proof {
            assert(e[j - 1] == w@[j - 1]);
            assert(e.skip(j - 1) =~= seq![e[j - 1]] + e.skip(j as int));
            lemma_nl_count_cons(e[j - 1], e.skip(j as int));
        }
        if b == 0x0a {
            if cnt + 1 == tail_lines {
                proof {
                    assert(e =~= e.take(j - 1) + e.skip(j - 1));
                    lemma_nl_count_split(e.take(j - 1), e.skip(j - 1));
                    lemma_nl_count_nonneg(e.take(j - 1));
                }
                cut = j;
                hit = true;
                break;
            }
            cnt = cnt + 1;
        }
        j = j - 1;
    }
    // Keep the suffix, stripping carriage returns at line ends.
    let mut out: Vec<u8> = Vec::new();
    let mut p: usize = cut;
    proof {
        lemma_cut_back_bounds(e, elen as int, 0, tail_lines as int);
    }
    while p < elen
        invariant
            cut <= p <= elen,
            elen <= w@.len(),
            e == w@.subrange(0, elen as int),
            cut <= elen,
            out@ + spec_strip_cr(e.skip(p as int)) == spec_strip_cr(e.skip(cut as int)),
        decreases elen - p,
    {
        let b: u8 = w[p];
        proof {
            assert(e.skip(p as int)[0] == e[p as int]);
            assert(e.skip(p as int).drop_first() =~= e.skip(p + 1));
            if (p + 1 < elen) {
                assert(e.skip(p as int)[1] == e[p + 1]);
            }
        }
        if b == 0x0d && (p + 1 == elen || w[p + 1] == 0x0a) {
            // dropped
        } else {
            out.push(b);
            proof {
                assert(out@ + spec_strip_cr(e.skip(p + 1)) =~= out@.drop_last() + (
                seq![e[p as int]] + spec_strip_cr(e.skip(p + 1))));
            }
        }
        p = p + 1;
    }
    proof {
        assert(e.skip(elen as int).len() == 0);
        assert(spec_strip_cr(e.skip(elen as int)) =~= Seq::<u8>::empty());
        assert(out@ =~= out@ + spec_strip_cr(e.skip(elen as int)));
        assert(out@ == spec_strip_cr(e.skip(cut as int)));
    }
    let s = lossy_decode(&out);
    (s, byte_truncated || hit)
}

proof fn lemma_nl_count_nonneg(b: Seq<u8>)
    ensures
        spec_nl_count(b) >= 0,
    decreases b.len(),
{
    if b.len() > 0 {
        lemma_nl_count_nonneg(b.drop_last());
    }
}

proof fn lemma_nl_count_cons(c: u8, x: Seq<u8>)
    ensures
        spec_nl_count(seq![c] + x) == spec_nl_count(x) + if c == 0x0a {
            1int
        } else {
            0int
        },
    decreases x.len(),
{
    reveal_with_fuel(spec_nl_count, 3);
    if x.len() == 0 {
        assert((seq![c] + x) =~= seq![c]);
        assert(seq![c].drop_last() =~= Seq::<u8>::empty());
        assert(seq![c].last() == c);
    } else {
        assert((seq![c] + x).drop_last() =~= seq![c] + x.drop_last());
        assert((seq![c] + x).last() == x.last());
        lemma_nl_count_cons(c, x.drop_last());
    }
}

proof fn lemma_nl_count_split(a: Seq<u8>, b: Seq<u8>)
    ensures
        spec_nl_count(a + b) == spec_nl_count(a) + spec_nl_count(b),
    decreases b.len(),
{
    if b.len() == 0 {
        assert(a + b =~= a);
    } else {
        assert((a + b).drop_last() =~= a + b.drop_last());
        assert((a + b).last() == b.last());
        lemma_nl_count_split(a, b.drop_last());
    }
}

/// Metrics of one tail read: the tail text together with the byte
/// accounting that the `run` snapshot and `tail` responses carry.
#[derive(Debug, Clone, PartialEq)]
pub struct TailMetrics {
    /// The tail text (lossy UTF-8, last lines within the byte bound).
    pub tail: String,
    /// Whether the content was cut by the byte or line bounds.
    pub truncated: bool,
    /// Total file size in bytes (0 if the file does not exist).
    pub observed_bytes: u64,
    /// UTF-8 byte length of `tail`.
    pub included_bytes: u64,
}

impl JobDir {
    /// The tail text of a log, without the truncation flag.
    pub fn tail_log(&self, data: Option<&Vec<u8>>, tail_lines: u64, max_bytes: u64) -> (r:
        String)
        ensures
            data matches Some(d) ==> r@ == lossy_of(
                spec_tail_bytes(d@, tail_lines as int, max_bytes as int),
            ),
            data is None ==> r@.len() == 0,
    {
        tail_log_with_truncated(data, tail_lines, max_bytes).0
    }

    /// Tail text and byte metrics for one log's contents.  Whenever the
    /// kept tail bytes are valid UTF-8, the bytes included in the
    /// response never exceed the bytes observed in the file.
    pub fn read_tail_metrics(&self, data: Option<&Vec<u8>>, tail_lines: u64, max_bytes: u64) -> (
        r: TailMetrics)
        ensures
            data matches Some(d) ==> {
                &&& r.tail@ == lossy_of(spec_tail_bytes(d@, tail_lines as int, max_bytes as int))
                &&& r.truncated == spec_tail_truncated(d@, tail_lines as int, max_bytes as int)
                &&& r.observed_bytes == d@.len()
                &&& r.included_bytes == vstd::utf8::encode_utf8(r.tail@).len()
                &&& (valid_utf8(spec_tail_bytes(d@, tail_lines as int, max_bytes as int))
                    ==> r.included_bytes <= r.observed_bytes)
            },
            data is None ==> r.tail@.len() == 0 && r.truncated == false && r.observed_bytes == 0
                && r.included_bytes == 0,
    {
        let (tail, truncated) = tail_log_with_truncated(data, tail_lines, max_bytes);
        let included_bytes: u64 = tail.as_str().as_bytes().len() as u64;
        let observed_bytes: u64 = match data {
            Some(d) => d.len() as u64,
            None => 0,
        };
        proof {
            if let Some(d) = data {
                let tb = spec_tail_bytes(d@, tail_lines as int, max_bytes as int);
                assert(tail@ == lossy_of(tb));
                assert(included_bytes == vstd::utf8::encode_utf8(tail@).len());
                if valid_utf8(tb) {
                    assert(tail@ == decode_utf8(tb));
                    vstd::utf8::decode_utf8_encode_utf8(tb);
                    assert(vstd::utf8::encode_utf8(tail@) == tb);
                    lemma_tail_bytes_le(d@, tail_lines as int, max_bytes as int);
                    assert(included_bytes <= observed_bytes);
                }
            } else {
                assert(vstd::utf8::encode_utf8(tail@) =~= Seq::<u8>::empty());
            }
        }
        TailMetrics { tail, truncated, observed_bytes, included_bytes }
    }
}

/// Splitting a subrange at consecutive cut points.
pub proof fn lemma_split_chain8(
    v: Seq<u8>,
    a0: int,
    a1: int,
    a2: int,
    a3: int,
    a4: int,
    a5: int,
    a6: int,
    a7: int,
    a8: int,
    a9: int,
)
    requires
        0 <= a0 <= a1 <= a2 <= a3 <= a4 <= a5 <= a6 <= a7 <= a8 <= a9 <= v.len(),
    ensures
        v.subrange(a0, a9) == v.subrange(a0, a1) + v.subrange(a1, a2) + v.subrange(a2, a3)
            + v.subrange(a3, a4) + v.subrange(a4, a5) + v.subrange(a5, a6) + v.subrange(a6, a7)
            + v.subrange(a7, a8) + v.subrange(a8, a9),
{
    assert(v.subrange(a0, a2) =~= v.subrange(a0, a1) + v.subrange(a1, a2));
    assert(v.subrange(a0, a3) =~= v.subrange(a0, a2) + v.subrange(a2, a3));
    assert(v.subrange(a0, a4) =~= v.subrange(a0, a3) + v.subrange(a3, a4));
    assert(v.subrange(a0, a5) =~= v.subrange(a0, a4) + v.subrange(a4, a5));
    assert(v.subrange(a0, a6) =~= v.subrange(a0, a5) + v.subrange(a5, a6));
    assert(v.subrange(a0, a7) =~= v.subrange(a0, a6) + v.subrange(a6, a7));
    assert(v.subrange(a0, a8) =~= v.subrange(a0, a7) + v.subrange(a7, a8));
    assert(v.subrange(a0, a9) =~= v.subrange(a0, a8) + v.subrange(a8, a9));
}

proof fn lemma_split_at(v: Seq<u8>, a: int, b: int, c: int)
    requires
        0 <= a <= b <= c <= v.len(),
    ensures
        v.subrange(a, c) == v.subrange(a, b) + v.subrange(b, c),
{
    assert(v.subrange(a, c) =~= v.subrange(a, b) + v.subrange(b, c));
}

// ---------- state.json ----------

/// The canonical one-line rendering of `state.json`.  Optional values
/// render as `null`, so every reader sees a consistent set of keys.
pub open spec fn spec_state_json(st: JobState) -> Seq<u8> {
    ("{\"job\":{\"id\":").spec_bytes() + spec_json_string(st.job.id@) + (",\"status\":").spec_bytes()
        + spec_json_string(spec_status_str(st.job.status)) + (",\"started_at\":").spec_bytes()
        + spec_json_string(st.job.started_at@) + ("},\"result\":{\"exit_code\":").spec_bytes()
        + spec_opt_i32(st.result.exit_code) + (",\"signal\":").spec_bytes() + spec_opt_string(
        st.result.signal,
    ) + (",\"duration_ms\":").spec_bytes() + spec_opt_u64(st.result.duration_ms) + (
    "},\"pid\":").spec_bytes() + spec_opt_u32(st.pid) + (",\"finished_at\":").spec_bytes()
        + spec_opt_string(st.finished_at) + (",\"updated_at\":").spec_bytes() + spec_json_string(
        st.updated_at@,
    ) + (",\"windows_job_name\":").spec_bytes() + spec_opt_string(st.windows_job_name) + (
    "}").spec_bytes()
}

/// Render a job state as the canonical `state.json` bytes.
pub fn emit_state(st: &JobState) -> (r: Vec<u8>)
    ensures
        r@ == spec_state_json(*st),
{
    let mut out: Vec<u8> = Vec::new();
    push_lit(&mut out, "{\"job\":{\"id\":");
    push_json_str(&mut out, st.job.id.as_str());
    push_lit(&mut out, ",\"status\":");
    push_json_str(&mut out, st.job.status.as_str());
    push_lit(&mut out, ",\"started_at\":");
    push_json_str(&mut out, st.job.started_at.as_str());
    let ghost p1 = ("{\"job\":{\"id\":").spec_bytes() + spec_json_string(st.job.id@) + (
    ",\"status\":").spec_bytes() + spec_json_string(spec_status_str(st.job.status)) + (
    ",\"started_at\":").spec_bytes() + spec_json_string(st.job.started_at@);
    proof {
        assert(out@ =~= p1);
    }
    push_lit(&mut out, "},\"result\":{\"exit_code\":");
    crate::schema::push_opt_i32(&mut out, &st.result.exit_code);
    push_lit(&mut out, ",\"signal\":");
    crate::schema::push_opt_string(&mut out, &st.result.signal);
    push_lit(&mut out, ",\"duration_ms\":");
    crate::schema::push_opt_u64(&mut out, &st.result.duration_ms);
    let ghost p2 = p1 + ("},\"result\":{\"exit_code\":").spec_bytes() + spec_opt_i32(
        st.result.exit_code,
    ) + (",\"signal\":").spec_bytes() + spec_opt_string(st.result.signal) + (
    ",\"duration_ms\":").spec_bytes() + spec_opt_u64(st.result.duration_ms);
    proof {
        assert(out@ =~= p2);
    }
    push_lit(&mut out, "},\"pid\":");
    crate::schema::push_opt_u32(&mut out, &st.pid);
    push_lit(&mut out, ",\"finished_at\":");
    crate::schema::push_opt_string(&mut out, &st.finished_at);
    let ghost p3 = p2 + ("},\"pid\":").spec_bytes() + spec_opt_u32(st.pid) + (
    ",\"finished_at\":").spec_bytes() + spec_opt_string(st.finished_at);
    proof {
        assert(out@ =~= p3);
    }
    push_lit(&mut out, ",\"updated_at\":");
    push_json_str(&mut out, st.updated_at.as_str());
    push_lit(&mut out, ",\"windows_job_name\":");
    crate::schema::push_opt_string(&mut out, &st.windows_job_name);
    push_lit(&mut out, "}");
    proof {
        assert(out@ =~= p3 + (",\"updated_at\":").spec_bytes() + spec_json_string(st.updated_at@)
            + (",\"windows_job_name\":").spec_bytes() + spec_opt_string(st.windows_job_name) + (
        "}").spec_bytes());
        assert(out@ =~= spec_state_json(*st));
    }
    out
}

/// Concatenation of byte sequences is associative.
pub proof fn lemma_assoc(a: Seq<u8>, b: Seq<u8>, c: Seq<u8>)
    ensures
        (a + b) + c == a + (b + c),
{
    assert((a + b) + c =~= a + (b + c));
}

/// The canonical rendering, regrouped as a head literal followed by a
/// nested suffix — the shape a left-to-right parser consumes.
#[verifier::rlimit(100)]
proof fn lemma_state_suffix_shape(st: JobState)
    ensures
        spec_state_json(st) == ("{\"job\":{\"id\":").spec_bytes() + (spec_json_string(st.job.id@)
            + ((",\"status\":").spec_bytes() + (spec_json_string(spec_status_str(st.job.status))
            + ((",\"started_at\":").spec_bytes() + (spec_json_string(st.job.started_at@) + ((
        "},\"result\":{\"exit_code\":").spec_bytes() + (spec_opt_i32(st.result.exit_code) + ((
        ",\"signal\":").spec_bytes() + (spec_opt_string(st.result.signal) + ((
        ",\"duration_ms\":").spec_bytes() + (spec_opt_u64(st.result.duration_ms) + ((
        "},\"pid\":").spec_bytes() + (spec_opt_u32(st.pid) + ((",\"finished_at\":").spec_bytes()
            + (spec_opt_string(st.finished_at) + ((",\"updated_at\":").spec_bytes() + (
        spec_json_string(st.updated_at@) + ((",\"windows_job_name\":").spec_bytes() + (
        spec_opt_string(st.windows_job_name) + ("}").spec_bytes()))))))))))))))))))),
{
    let a1 = ("{\"job\":{\"id\":").spec_bytes();
    let s1 = spec_json_string(st.job.id@);
    let a2 = (",\"status\":").spec_bytes();
    let s2 = spec_json_string(spec_status_str(st.job.status));
    let a3 = (",\"started_at\":").spec_bytes();
    let s3 = spec_json_string(st.job.started_at@);
    let a4 = ("},\"result\":{\"exit_code\":").spec_bytes();
    let o4 = spec_opt_i32(st.result.exit_code);
    let a5 = (",\"signal\":").spec_bytes();
    let o5 = spec_opt_string(st.result.signal);
    let a6 = (",\"duration_ms\":").spec_bytes();
    let o6 = spec_opt_u64(st.result.duration_ms);
    let a7 = ("},\"pid\":").spec_bytes();
    let o7 = spec_opt_u32(st.pid);
    let a8 = (",\"finished_at\":").spec_bytes();
    let o8 = spec_opt_string(st.finished_at);
    let a9 = (",\"updated_at\":").spec_bytes();
    let s9 = spec_json_string(st.updated_at@);
    let a10 = (",\"windows_job_name\":").spec_bytes();
    let o10 = spec_opt_string(st.windows_job_name);
    let a11 = ("}").spec_bytes();
    let p1 = a1;
    let p2 = p1 + s1;
    let p3 = p2 + a2;
    let p4 = p3 + s2;
    let p5 = p4 + a3;
    let p6 = p5 + s3;
    let p7 = p6 + a4;
    let p8 = p7 + o4;
    let p9 = p8 + a5;
    let p10 = p9 + o5;
    let p11 = p10 + a6;
    let p12 = p11 + o6;
    let p13 = p12 + a7;
    let p14 = p13 + o7;
    let p15 = p14 + a8;
    let p16 = p15 + o8;
    let p17 = p16 + a9;
    let p18 = p17 + s9;
    let p19 = p18 + a10;
    let p20 = p19 + o10;
    let p21 = p20 + a11;
    assert(spec_state_json(st) == p21);
    lemma_assoc(p19, o10, a11);
    lemma_assoc(p18, a10, (o10 + a11));
    lemma_assoc(p17, s9, (a10 + ((o10 + a11))));
    lemma_assoc(p16, a9, (s9 + ((a10 + ((o10 + a11))))));
    lemma_assoc(p15, o8, (a9 + ((s9 + ((a10 + ((o10 + a11))))))));
    lemma_assoc(p14, a8, (o8 + ((a9 + ((s9 + ((a10 + ((o10 + a11))))))))));
    lemma_assoc(p13, o7, (a8 + ((o8 + ((a9 + ((s9 + ((a10 + ((o10 + a11))))))))))));
    lemma_assoc(p12, a7, (o7 + ((a8 + ((o8 + ((a9 + ((s9 + ((a10 + ((o10 + a11))))))))))))));
    lemma_assoc(p11, o6, (a7 + ((o7 + ((a8 + ((o8 + ((a9 + ((s9 + ((a10 + ((o10 + a11))))))))))))))));
    lemma_assoc(p10, a6, (o6 + ((a7 + ((o7 + ((a8 + ((o8 + ((a9 + ((s9 + ((a10 + ((o10 + a11))))))))))))))))));
    lemma_assoc(p9, o5, (a6 + ((o6 + ((a7 + ((o7 + ((a8 + ((o8 + ((a9 + ((s9 + ((a10 + ((o10 + a11))))))))))))))))))));
    lemma_assoc(p8, a5, (o5 + ((a6 + ((o6 + ((a7 + ((o7 + ((a8 + ((o8 + ((a9 + ((s9 + ((a10 + ((o10 + a11))))))))))))))))))))));
    lemma_assoc(p7, o4, (a5 + ((o5 + ((a6 + ((o6 + ((a7 + ((o7 + ((a8 + ((o8 + ((a9 + ((s9 + ((a10 + ((o10 + a11))))))))))))))))))))))));
    lemma_assoc(p6, a4, (o4 + ((a5 + ((o5 + ((a6 + ((o6 + ((a7 + ((o7 + ((a8 + ((o8 + ((a9 + ((s9 + ((a10 + ((o10 + a11))))))))))))))))))))))))));
    lemma_assoc(p5, s3, (a4 + ((o4 + ((a5 + ((o5 + ((a6 + ((o6 + ((a7 + ((o7 + ((a8 + ((o8 + ((a9 + ((s9 + ((a10 + ((o10 + a11))))))))))))))))))))))))))));
    lemma_assoc(p4, a3, (s3 + ((a4 + ((o4 + ((a5 + ((o5 + ((a6 + ((o6 + ((a7 + ((o7 + ((a8 + ((o8 + ((a9 + ((s9 + ((a10 + ((o10 + a11))))))))))))))))))))))))))))));
    lemma_assoc(p3, s2, (a3 + ((s3 + ((a4 + ((o4 + ((a5 + ((o5 + ((a6 + ((o6 + ((a7 + ((o7 + ((a8 + ((o8 + ((a9 + ((s9 + ((a10 + ((o10 + a11))))))))))))))))))))))))))))))));
    lemma_assoc(p2, a2, (s2 + ((a3 + ((s3 + ((a4 + ((o4 + ((a5 + ((o5 + ((a6 + ((o6 + ((a7 + ((o7 + ((a8 + ((o8 + ((a9 + ((s9 + ((a10 + ((o10 + a11))))))))))))))))))))))))))))))))));
    lemma_assoc(p1, s1, (a2 + ((s2 + ((a3 + ((s3 + ((a4 + ((o4 + ((a5 + ((o5 + ((a6 + ((o6 + ((a7 + ((o7 + ((a8 + ((o8 + ((a9 + ((s9 + ((a10 + ((o10 + a11))))))))))))))))))))))))))))))))))));
}

/// Map a wire status name to its status.
fn status_of_str(s: &String) -> (r: Option<JobStatus>)
    ensures
        r matches Some(st) ==> s@ == spec_status_str(st),
        r is None ==> s@ != "running"@ && s@ != "exited"@ && s@ != "killed"@ && s@ != "failed"@,
{
    let running = String::from_str("running");
    let exited = String::from_str("exited");
    let killed = String::from_str("killed");
    let failed = String::from_str("failed");
    if s.eq(&running) {
        Some(JobStatus::Running)
    } else if s.eq(&exited) {
        Some(JobStatus::Exited)
    } else if s.eq(&killed) {
        Some(JobStatus::Killed)
    } else if s.eq(&failed) {
        Some(JobStatus::Failed)
    } else {
        None
    }
}

/// Parse the back half of a canonical `state.json`, from the `pid`
/// key to the end of the input.  `hyp` records whether some state
/// renders to the whole input; under it, the suffix at `p11` is known
/// to be the back half of `hst`'s rendering, and failure is impossible.
#[verifier::rlimit(100)]
fn parse_state_rest(
    v: &Vec<u8>,
    p11: usize,
    Ghost(hyp): Ghost<bool>,
    Ghost(hst): Ghost<JobState>,
) -> (r: Option<(Option<u32>, Option<String>, String, Option<String>, usize)>)
    requires
        p11 <= v@.len(),
        hyp ==> v@.skip(p11 as int) == ("},\"pid\":").spec_bytes() + (spec_opt_u32(hst.pid) + ((",\"finished_at\":").spec_bytes() + (
        spec_opt_string(hst.finished_at) + ((",\"updated_at\":").spec_bytes() + (spec_json_string(
            hst.updated_at@,
        ) + ((",\"windows_job_name\":").spec_bytes() + (spec_opt_string(hst.windows_job_name)
            + ("}").spec_bytes()))))))),
    ensures
        r matches Some(t) ==> p11 < t.4 <= v@.len() && t.4 == v@.len() && v@.subrange(
            p11 as int,
            t.4 as int,
        ) == ("},\"pid\":").spec_bytes() + spec_opt_u32(t.0) + (",\"finished_at\":").spec_bytes() + spec_opt_string(
            t.1,
        ) + (",\"updated_at\":").spec_bytes() + spec_json_string(t.2@) + (",\"windows_job_name\":").spec_bytes()
            + spec_opt_string(t.3) + ("}").spec_bytes(),
        r is None ==> !hyp,
{
    let len: usize = v.len();
    let ghost z11 = ("}").spec_bytes();
    let ghost z10b = spec_opt_string(hst.windows_job_name) + z11;
    let ghost z10 = (",\"windows_job_name\":").spec_bytes() + z10b;
    let ghost z9b = spec_json_string(hst.updated_at@) + z10;
    let ghost z9 = (",\"updated_at\":").spec_bytes() + z9b;
    let ghost z8b = spec_opt_string(hst.finished_at) + z9;
    let ghost z8 = (",\"finished_at\":").spec_bytes() + z8b;
    let ghost z7b = spec_opt_u32(hst.pid) + z8;
    let ghost z7 = ("},\"pid\":").spec_bytes() + z7b;
    proof {
        if hyp {
            assert(v@.skip(p11 as int) == z7);
        }
    }
    proof {
        if hyp {
            crate::jsonparse::lemma_peel(v@, p11 as int, ("},\"pid\":").spec_bytes(), z7b);
        }
    }
    let p12 = match crate::jsonparse::expect_lit(v, p11, "},\"pid\":") {
        Some(p) => p,
        None => {
                proof {
                    if hyp {
                        assert(false);
                    }
                }
                return None;
        },
    };
    proof {
        if hyp {
            assert(v@.skip(p12 as int) == z7b);
        }
    }
    proof {
        if hyp {
            crate::jsonparse::lemma_peel(v@, p12 as int, spec_opt_u32(hst.pid), z8);
            crate::schema::lemma_null_bytes();
            reveal_strlit(",\"finished_at\":");
            crate::json::lemma_lit_head(",\"finished_at\":");
            assert(z8[0] == (",\"finished_at\":").spec_bytes()[0]) by {
                assert(((",\"finished_at\":").spec_bytes() + z8b)[0] == (",\"finished_at\":").spec_bytes()[0]);
            }
            assert(!crate::jsonparse::spec_is_digit(z8[0]));
            assert(v@[p12 + spec_opt_u32(hst.pid).len()] == z8[0]) by {
                assert(v@.skip(p12 + spec_opt_u32(hst.pid).len())[0] == v@[p12 + spec_opt_u32(
                    hst.pid,
                ).len()]);
            }
            if hst.pid is Some {
                crate::time::lemma_digits_ascii(hst.pid->0 as int);
            }
            assert(crate::jsonparse::spec_has_opt_u32_at(v@, p12 as int)) by {
                assert(v@.subrange(p12 as int, p12 + spec_opt_u32(hst.pid).len()) == spec_opt_u32(
                    hst.pid,
                ));
            }
        }
    }
    let (pid, p13) = match crate::jsonparse::parse_opt_u32(v, p12) {
        Some(x) => x,
        None => {
                proof {
                    if hyp {
                        assert(false);
                    }
                }
                return None;
        },
    };
    proof {
        if hyp {
            crate::jsonparse::lemma_split_skip(v@, p12 as int, p13 as int);
            if pid is Some {
                if hst.pid is Some {
                    assert(v@.skip(p13 as int).len() == 0 || !crate::jsonparse::spec_is_digit(
                        v@.skip(p13 as int)[0],
                    )) by {
                        if (p13 as int) < v@.len() {
                            assert(v@.skip(p13 as int)[0] == v@[p13 as int]);
                        }
                    }
                    crate::jsonparse::lemma_u64_str_unique(pid->0 as int, hst.pid->0 as int, v@.skip(p13 as int), z8);
                } else {
                    // The hypothesis renders `null` here, but a number
                    // was parsed: the head bytes disagree.
                    assert(v@[p12 as int] == ("null").spec_bytes()[0]) by {
                        assert(v@.skip(p12 as int)[0] == v@[p12 as int]);
                        assert((("null").spec_bytes() + z8)[0] == ("null").spec_bytes()[0]);
                    }
                    assert(v@[p12 as int] == spec_opt_u32(pid)[0]) by {
                        assert(v@.subrange(p12 as int, p13 as int)[0] == v@[p12 as int]);
                    }
                    crate::time::lemma_digits_ascii(pid->0 as int);
                    assert(false);
                }
            } else {
                // `null` was parsed; the hypothesis must render it too.
                assert(v@[p12 as int] == ("null").spec_bytes()[0]) by {
                    assert(v@.subrange(p12 as int, p13 as int)[0] == v@[p12 as int]);
                }
                if hst.pid is Some {
                    assert(v@[p12 as int] == spec_opt_u32(hst.pid)[0]) by {
                        assert(v@.skip(p12 as int)[0] == v@[p12 as int]);
                    }
                    assert(false);
                }
                assert(p13 == p12 + 4);
            }
            assert(v@.skip(p13 as int) == z8);
        }
    }
    proof {
        if hyp {
            crate::jsonparse::lemma_peel(v@, p13 as int, (",\"finished_at\":").spec_bytes(), z8b);
        }
    }
    let p14 = match crate::jsonparse::expect_lit(v, p13, ",\"finished_at\":") {
        Some(p) => p,
        None => {
                proof {
                    if hyp {
                        assert(false);
                    }
                }
                return None;
        },
    };
    proof {
        if hyp {
            assert(v@.skip(p14 as int) == z8b);
        }
    }
    proof {
        if hyp {
            crate::jsonparse::lemma_peel(v@, p14 as int, spec_opt_string(hst.finished_at), z9);
            crate::schema::lemma_null_bytes();
            assert(crate::jsonparse::spec_has_opt_string_at(v@, p14 as int)) by {
                assert(v@.subrange(p14 as int, p14 + spec_opt_string(hst.finished_at).len())
                    == spec_opt_string(hst.finished_at));
            }
        }
    }
    let (finished_at, p15) = match crate::jsonparse::parse_opt_string(v, p14) {
        Some(x) => x,
        None => {
                proof {
                    if hyp {
                        assert(false);
                    }
                }
                return None;
        },
    };
    proof {
        if hyp {
            crate::jsonparse::lemma_split_skip(v@, p14 as int, p15 as int);
            crate::schema::lemma_opt_string_unique(finished_at, hst.finished_at, v@.skip(p15 as int), z9);
            assert(v@.skip(p15 as int) == z9);
        }
    }
    proof {
        if hyp {
            crate::jsonparse::lemma_peel(v@, p15 as int, (",\"updated_at\":").spec_bytes(), z9b);
        }
    }
    let p16 = match crate::jsonparse::expect_lit(v, p15, ",\"updated_at\":") {
        Some(p) => p,
        None => {
                proof {
                    if hyp {
                        assert(false);
                    }
                }
                return None;
        },
    };
    proof {
        if hyp {
            assert(v@.skip(p16 as int) == z9b);
        }
    }
    proof {
        if hyp {
            crate::jsonparse::lemma_peel(v@, p16 as int, spec_json_string(hst.updated_at@), z10);
            assert(crate::jsonparse::spec_has_json_string_at(v@, p16 as int)) by {
                assert(v@.subrange(p16 as int, p16 + spec_json_string(hst.updated_at@).len())
                    == spec_json_string(hst.updated_at@));
            }
        }
    }
    let (updated_at, p17) = match crate::jsonparse::parse_string(v, p16) {
        Some(x) => x,
        None => {
                proof {
                    if hyp {
                        assert(false);
                    }
                }
                return None;
        },
    };
    proof {
        if hyp {
            crate::jsonparse::lemma_split_skip(v@, p16 as int, p17 as int);
            crate::json::lemma_json_string_unique(updated_at@, hst.updated_at@, v@.skip(p17 as int), z10);
            assert(v@.skip(p17 as int) == z10);
        }
    }
    proof {
        if hyp {
            crate::jsonparse::lemma_peel(v@, p17 as int, (",\"windows_job_name\":").spec_bytes(), z10b);
        }
    }
    let p18 = match crate::jsonparse::expect_lit(v, p17, ",\"windows_job_name\":") {
        Some(p) => p,
        None => {
                proof {
                    if hyp {
                        assert(false);
                    }
                }
                return None;
        },
    };
    proof {
        if hyp {
            assert(v@.skip(p18 as int) == z10b);
        }
    }
    proof {
        if hyp {
            crate::jsonparse::lemma_peel(v@, p18 as int, spec_opt_string(hst.windows_job_name), z11);
            crate::schema::lemma_null_bytes();
            assert(crate::jsonparse::spec_has_opt_string_at(v@, p18 as int)) by {
                assert(v@.subrange(p18 as int, p18 + spec_opt_string(hst.windows_job_name).len())
                    == spec_opt_string(hst.windows_job_name));
            }
        }
    }
    let (windows_job_name, p19) = match crate::jsonparse::parse_opt_string(v, p18) {
        Some(x) => x,
        None => {
                proof {
                    if hyp {
                        assert(false);
                    }
                }
                return None;
        },
    };
    proof {
        if hyp {
            crate::jsonparse::lemma_split_skip(v@, p18 as int, p19 as int);
            crate::schema::lemma_opt_string_unique(windows_job_name, hst.windows_job_name, v@.skip(p19 as int), z11);
            assert(v@.skip(p19 as int) == z11);
        }
    }
    proof {
        if hyp {
            assert(z11 =~= ("}").spec_bytes() + Seq::<u8>::empty());
            crate::jsonparse::lemma_peel(
                v@,
                p19 as int,
                ("}").spec_bytes(),
                Seq::<u8>::empty(),
            );
        }
    }
    let p20 = match crate::jsonparse::expect_lit(v, p19, "}") {
        Some(p) => p,
        None => {
                proof {
                    if hyp {
                        assert(false);
                    }
                }
                return None;
        },
    };
    if p20 != len {
        proof {
            if hyp {
                assert(v@.skip(p20 as int) == Seq::<u8>::empty());
                assert(p20 == len);
                assert(false);
            }
        }
        return None;
    }
    proof {
        crate::jsonparse::lemma_split_at2(v@, p11 as int, p12 as int, p13 as int);
        crate::jsonparse::lemma_split_at2(v@, p11 as int, p13 as int, p14 as int);
        crate::jsonparse::lemma_split_at2(v@, p11 as int, p14 as int, p15 as int);
        crate::jsonparse::lemma_split_at2(v@, p11 as int, p15 as int, p16 as int);
        crate::jsonparse::lemma_split_at2(v@, p11 as int, p16 as int, p17 as int);
        crate::jsonparse::lemma_split_at2(v@, p11 as int, p17 as int, p18 as int);
        crate::jsonparse::lemma_split_at2(v@, p11 as int, p18 as int, p19 as int);
        crate::jsonparse::lemma_split_at2(v@, p11 as int, p19 as int, p20 as int);
    }
    Some((pid, finished_at, updated_at, windows_job_name, p20))
}

/// Parse the `result` block of a canonical `state.json`.  Under `hyp`
/// — some state `hst` renders to the whole input, its rendering's
/// suffix at `p5` beginning with this block — failure is impossible.
#[verifier::rlimit(100)]
fn parse_state_mid(
    v: &Vec<u8>,
    p5: usize,
    Ghost(hyp): Ghost<bool>,
    Ghost(hst): Ghost<JobState>,
) -> (r: Option<(Option<i32>, Option<String>, Option<u64>, usize)>)
    requires
        p5 <= v@.len(),
        hyp ==> v@.skip(p5 as int) == ("},\"result\":{\"exit_code\":").spec_bytes() + (spec_opt_i32(hst.result.exit_code) + ((",\"signal\":").spec_bytes()
            + (spec_opt_string(hst.result.signal) + ((",\"duration_ms\":").spec_bytes() + (spec_opt_u64(
            hst.result.duration_ms,
        ) + (("},\"pid\":").spec_bytes() + (spec_opt_u32(hst.pid) + ((",\"finished_at\":").spec_bytes() + (
        spec_opt_string(hst.finished_at) + ((",\"updated_at\":").spec_bytes() + (spec_json_string(
            hst.updated_at@,
        ) + ((",\"windows_job_name\":").spec_bytes() + (spec_opt_string(hst.windows_job_name)
            + ("}").spec_bytes()))))))))))))),
    ensures
        r matches Some(t) ==> p5 < t.3 <= v@.len() && v@.subrange(p5 as int, t.3 as int) == (
        "},\"result\":{\"exit_code\":").spec_bytes() + spec_opt_i32(t.0) + (",\"signal\":").spec_bytes() + spec_opt_string(t.1) + (
        ",\"duration_ms\":").spec_bytes() + spec_opt_u64(t.2),
        (hyp && r is Some) ==> v@.skip((r->0).3 as int) == ("},\"pid\":").spec_bytes() + (spec_opt_u32(hst.pid) + ((",\"finished_at\":").spec_bytes() + (
        spec_opt_string(hst.finished_at) + ((",\"updated_at\":").spec_bytes() + (spec_json_string(
            hst.updated_at@,
        ) + ((",\"windows_job_name\":").spec_bytes() + (spec_opt_string(hst.windows_job_name)
            + ("}").spec_bytes()))))))),
        r is None ==> !hyp,
{
    let len: usize = v.len();
    let ghost z11 = ("}").spec_bytes();
    let ghost z10b = spec_opt_string(hst.windows_job_name) + z11;
    let ghost z10 = (",\"windows_job_name\":").spec_bytes() + z10b;
    let ghost z9b = spec_json_string(hst.updated_at@) + z10;
    let ghost z9 = (",\"updated_at\":").spec_bytes() + z9b;
    let ghost z8b = spec_opt_string(hst.finished_at) + z9;
    let ghost z8 = (",\"finished_at\":").spec_bytes() + z8b;
    let ghost z7b = spec_opt_u32(hst.pid) + z8;
    let ghost z7 = ("},\"pid\":").spec_bytes() + z7b;
    let ghost z6b = spec_opt_u64(hst.result.duration_ms) + z7;
    let ghost z6 = (",\"duration_ms\":").spec_bytes() + z6b;
    let ghost z5b = spec_opt_string(hst.result.signal) + z6;
    let ghost z5 = (",\"signal\":").spec_bytes() + z5b;
    let ghost z4b = spec_opt_i32(hst.result.exit_code) + z5;
    let ghost z4 = ("},\"result\":{\"exit_code\":").spec_bytes() + z4b;
    proof {
        if hyp {
            assert(v@.skip(p5 as int) == z4);
        }
    }
    proof {
        if hyp {
            crate::jsonparse::lemma_peel(v@, p5 as int, ("},\"result\":{\"exit_code\":").spec_bytes(), z4b);
        }
    }
    let p6 = match crate::jsonparse::expect_lit(v, p5, "},\"result\":{\"exit_code\":") {
        Some(p) => p,
        None => {
                proof {
                    if hyp {
                        assert(false);
                    }
                }
                return None;
        },
    };
    proof {
        if hyp {
            assert(v@.skip(p6 as int) == z4b);
        }
    }
    proof {
        if hyp {
            crate::jsonparse::lemma_peel(v@, p6 as int, spec_opt_i32(hst.result.exit_code), z5);
            crate::schema::lemma_null_bytes();
            reveal_strlit(",\"signal\":");
            crate::json::lemma_lit_head(",\"signal\":");
            assert(z5[0] == (",\"signal\":").spec_bytes()[0]) by {
                assert(((",\"signal\":").spec_bytes() + z5b)[0] == (",\"signal\":").spec_bytes()[0]);
            }
            assert(!crate::jsonparse::spec_is_digit(z5[0]));
            assert(v@[p6 + spec_opt_i32(hst.result.exit_code).len()] == z5[0]) by {
                assert(v@.skip(p6 + spec_opt_i32(hst.result.exit_code).len())[0] == v@[p6 + spec_opt_i32(
                    hst.result.exit_code,
                ).len()]);
            }
            if hst.result.exit_code is Some {
                if hst.result.exit_code->0 < 0 {
                    assert(spec_i64_str(hst.result.exit_code->0 as int)[0] == 0x2d) by {
                        assert(spec_i64_str(hst.result.exit_code->0 as int) =~= seq![0x2du8]
                            + crate::time::spec_u64_str(-(hst.result.exit_code->0 as int)));
                    }
                } else {
                    crate::time::lemma_digits_ascii(hst.result.exit_code->0 as int);
                }
            }
            assert(crate::jsonparse::spec_has_opt_i32_at(v@, p6 as int)) by {
                assert(v@.subrange(p6 as int, p6 + spec_opt_i32(hst.result.exit_code).len()) == spec_opt_i32(
                    hst.result.exit_code,
                ));
            }
        }
    }
    let (exit_code, p7) = match crate::jsonparse::parse_opt_i32(v, p6) {
        Some(x) => x,
        None => {
                proof {
                    if hyp {
                        assert(false);
                    }
                }
                return None;
        },
    };
    proof {
        if hyp {
            crate::jsonparse::lemma_split_skip(v@, p6 as int, p7 as int);
            if exit_code is Some {
                if hst.result.exit_code is Some {
                    assert(v@.skip(p7 as int).len() == 0 || !crate::jsonparse::spec_is_digit(
                        v@.skip(p7 as int)[0],
                    )) by {
                        if (p7 as int) < v@.len() {
                            assert(v@.skip(p7 as int)[0] == v@[p7 as int]);
                        }
                    }
                    crate::jsonparse::lemma_i64_str_unique(exit_code->0 as int, hst.result.exit_code->0 as int, v@.skip(p7 as int), z5);
                } else {
                    // The hypothesis renders `null` here, but a number
                    // was parsed: the head bytes disagree.
                    assert(v@[p6 as int] == ("null").spec_bytes()[0]) by {
                        assert(v@.skip(p6 as int)[0] == v@[p6 as int]);
                        assert((("null").spec_bytes() + z5)[0] == ("null").spec_bytes()[0]);
                    }
                    assert(v@[p6 as int] == spec_opt_i32(exit_code)[0]) by {
                        assert(v@.subrange(p6 as int, p7 as int)[0] == v@[p6 as int]);
                    }
                    if exit_code->0 < 0 {
                        assert(spec_opt_i32(exit_code)[0] == 0x2d) by {
                            assert(spec_i64_str(exit_code->0 as int) =~= seq![0x2du8]
                                + crate::time::spec_u64_str(-(exit_code->0 as int)));
                        }
                    } else {
                        crate::time::lemma_digits_ascii(exit_code->0 as int);
                    }
                    assert(false);
                }
            } else {
                // `null` was parsed; the hypothesis must render it too.
                assert(v@[p6 as int] == ("null").spec_bytes()[0]) by {
                    assert(v@.subrange(p6 as int, p7 as int)[0] == v@[p6 as int]);
                }
                if hst.result.exit_code is Some {
                    assert(v@[p6 as int] == spec_opt_i32(hst.result.exit_code)[0]) by {
                        assert(v@.skip(p6 as int)[0] == v@[p6 as int]);
                    }
                    assert(false);
                }
                assert(p7 == p6 + 4);
            }
            assert(v@.skip(p7 as int) == z5);
        }
    }
    proof {
        if hyp {
            crate::jsonparse::lemma_peel(v@, p7 as int, (",\"signal\":").spec_bytes(), z5b);
        }
    }
    let p8 = match crate::jsonparse::expect_lit(v, p7, ",\"signal\":") {
        Some(p) => p,
        None => {
                proof {
                    if hyp {
                        assert(false);
                    }
                }
                return None;
        },
    };
    proof {
        if hyp {
            assert(v@.skip(p8 as int) == z5b);
        }
    }
    proof {
        if hyp {
            crate::jsonparse::lemma_peel(v@, p8 as int, spec_opt_string(hst.result.signal), z6);
            crate::schema::lemma_null_bytes();
            assert(crate::jsonparse::spec_has_opt_string_at(v@, p8 as int)) by {
                assert(v@.subrange(p8 as int, p8 + spec_opt_string(hst.result.signal).len())
                    == spec_opt_string(hst.result.signal));
            }
        }
    }
    let (signal, p9) = match crate::jsonparse::parse_opt_string(v, p8) {
        Some(x) => x,
        None => {
                proof {
                    if hyp {
                        assert(false);
                    }
                }
                return None;
        },
    };
    proof {
        if hyp {
            crate::jsonparse::lemma_split_skip(v@, p8 as int, p9 as int);
            crate::schema::lemma_opt_string_unique(signal, hst.result.signal, v@.skip(p9 as int), z6);
            assert(v@.skip(p9 as int) == z6);
        }
    }
    proof {
        if hyp {
            crate::jsonparse::lemma_peel(v@, p9 as int, (",\"duration_ms\":").spec_bytes(), z6b);
        }
    }
    let p10 = match crate::jsonparse::expect_lit(v, p9, ",\"duration_ms\":") {
        Some(p) => p,
        None => {
                proof {
                    if hyp {
                        assert(false);
                    }
                }
                return None;
        },
    };
    proof {
        if hyp {
            assert(v@.skip(p10 as int) == z6b);
        }
    }
    proof {
        if hyp {
            crate::jsonparse::lemma_peel(v@, p10 as int, spec_opt_u64(hst.result.duration_ms), z7);
            crate::schema::lemma_null_bytes();
            reveal_strlit("},\"pid\":");
            crate::json::lemma_lit_head("},\"pid\":");
            assert(z7[0] == ("},\"pid\":").spec_bytes()[0]) by {
                assert((("},\"pid\":").spec_bytes() + z7b)[0] == ("},\"pid\":").spec_bytes()[0]);
            }
            assert(!crate::jsonparse::spec_is_digit(z7[0]));
            assert(v@[p10 + spec_opt_u64(hst.result.duration_ms).len()] == z7[0]) by {
                assert(v@.skip(p10 + spec_opt_u64(hst.result.duration_ms).len())[0] == v@[p10 + spec_opt_u64(
                    hst.result.duration_ms,
                ).len()]);
            }
            if hst.result.duration_ms is Some {
                crate::time::lemma_digits_ascii(hst.result.duration_ms->0 as int);
            }
            assert(crate::jsonparse::spec_has_opt_u64_at(v@, p10 as int)) by {
                assert(v@.subrange(p10 as int, p10 + spec_opt_u64(hst.result.duration_ms).len()) == spec_opt_u64(
                    hst.result.duration_ms,
                ));
            }
        }
    }
    let (duration_ms, p11) = match crate::jsonparse::parse_opt_u64(v, p10) {
        Some(x) => x,
        None => {
                proof {
                    if hyp {
                        assert(false);
                    }
                }
                return None;
        },
    };
    proof {
        if hyp {
            crate::jsonparse::lemma_split_skip(v@, p10 as int, p11 as int);
            if duration_ms is Some {
                if hst.result.duration_ms is Some {
                    assert(v@.skip(p11 as int).len() == 0 || !crate::jsonparse::spec_is_digit(
                        v@.skip(p11 as int)[0],
                    )) by {
                        if (p11 as int) < v@.len() {
                            assert(v@.skip(p11 as int)[0] == v@[p11 as int]);
                        }
                    }
                    crate::jsonparse::lemma_u64_str_unique(duration_ms->0 as int, hst.result.duration_ms->0 as int, v@.skip(p11 as int), z7);
                } else {
                    // The hypothesis renders `null` here, but a number
                    // was parsed: the head bytes disagree.
                    assert(v@[p10 as int] == ("null").spec_bytes()[0]) by {
                        assert(v@.skip(p10 as int)[0] == v@[p10 as int]);
                        assert((("null").spec_bytes() + z7)[0] == ("null").spec_bytes()[0]);
                    }
                    assert(v@[p10 as int] == spec_opt_u64(duration_ms)[0]) by {
                        assert(v@.subrange(p10 as int, p11 as int)[0] == v@[p10 as int]);
                    }
                    crate::time::lemma_digits_ascii(duration_ms->0 as int);
                    assert(false);
                }
            } else {
                // `null` was parsed; the hypothesis must render it too.
                assert(v@[p10 as int] == ("null").spec_bytes()[0]) by {
                    assert(v@.subrange(p10 as int, p11 as int)[0] == v@[p10 as int]);
                }
                if hst.result.duration_ms is Some {
                    assert(v@[p10 as int] == spec_opt_u64(hst.result.duration_ms)[0]) by {
                        assert(v@.skip(p10 as int)[0] == v@[p10 as int]);
                    }
                    assert(false);
                }
                assert(p11 == p10 + 4);
            }
            assert(v@.skip(p11 as int) == z7);
        }
    }
    proof {
        crate::jsonparse::lemma_split_at2(v@, p5 as int, p6 as int, p7 as int);
        crate::jsonparse::lemma_split_at2(v@, p5 as int, p7 as int, p8 as int);
        crate::jsonparse::lemma_split_at2(v@, p5 as int, p8 as int, p9 as int);
        crate::jsonparse::lemma_split_at2(v@, p5 as int, p9 as int, p10 as int);
        crate::jsonparse::lemma_split_at2(v@, p5 as int, p10 as int, p11 as int);
        if hyp {
            assert(v@.skip(p11 as int) == z7);
        }
    }
    Some((exit_code, signal, duration_ms, p11))
}

/// Parse the front of a canonical `state.json`: the `job` block.
/// Under `hyp` — some state `hst` renders to the whole input — failure
/// is impossible and the suffix after the block is the rest of `hst`'s
/// rendering.
#[verifier::rlimit(100)]
fn parse_state_head(v: &Vec<u8>, Ghost(hyp): Ghost<bool>, Ghost(hst): Ghost<JobState>) -> (r:
    Option<(String, JobStatus, String, usize)>)
    requires
        hyp ==> v@ == spec_state_json(hst),
    ensures
        r matches Some(t) ==> 0 < t.3 <= v@.len() && v@.subrange(0, t.3 as int) == (
        "{\"job\":{\"id\":").spec_bytes() + spec_json_string(t.0@) + (",\"status\":").spec_bytes() + spec_json_string(
            spec_status_str(t.1),
        ) + (",\"started_at\":").spec_bytes() + spec_json_string(t.2@),
        (hyp && r is Some) ==> v@.skip((r->0).3 as int) == ("},\"result\":{\"exit_code\":").spec_bytes() + (spec_opt_i32(hst.result.exit_code) + ((",\"signal\":").spec_bytes()
            + (spec_opt_string(hst.result.signal) + ((",\"duration_ms\":").spec_bytes() + (spec_opt_u64(
            hst.result.duration_ms,
        ) + (("},\"pid\":").spec_bytes() + (spec_opt_u32(hst.pid) + ((",\"finished_at\":").spec_bytes() + (
        spec_opt_string(hst.finished_at) + ((",\"updated_at\":").spec_bytes() + (spec_json_string(
            hst.updated_at@,
        ) + ((",\"windows_job_name\":").spec_bytes() + (spec_opt_string(hst.windows_job_name)
            + ("}").spec_bytes()))))))))))))),
        r is None ==> !hyp,
{
    let len: usize = v.len();
    let ghost z11 = ("}").spec_bytes();
    let ghost z10b = spec_opt_string(hst.windows_job_name) + z11;
    let ghost z10 = (",\"windows_job_name\":").spec_bytes() + z10b;
    let ghost z9b = spec_json_string(hst.updated_at@) + z10;
    let ghost z9 = (",\"updated_at\":").spec_bytes() + z9b;
    let ghost z8b = spec_opt_string(hst.finished_at) + z9;
    let ghost z8 = (",\"finished_at\":").spec_bytes() + z8b;
    let ghost z7b = spec_opt_u32(hst.pid) + z8;
    let ghost z7 = ("},\"pid\":").spec_bytes() + z7b;
    let ghost z6b = spec_opt_u64(hst.result.duration_ms) + z7;
    let ghost z6 = (",\"duration_ms\":").spec_bytes() + z6b;
    let ghost z5b = spec_opt_string(hst.result.signal) + z6;
    let ghost z5 = (",\"signal\":").spec_bytes() + z5b;
    let ghost z4b = spec_opt_i32(hst.result.exit_code) + z5;
    let ghost z4 = ("},\"result\":{\"exit_code\":").spec_bytes() + z4b;
    let ghost z3b = spec_json_string(hst.job.started_at@) + z4;
    let ghost z3 = (",\"started_at\":").spec_bytes() + z3b;
    let ghost z2b = spec_json_string(spec_status_str(hst.job.status)) + z3;
    let ghost z2 = (",\"status\":").spec_bytes() + z2b;
    let ghost z1b = spec_json_string(hst.job.id@) + z2;
    let ghost z1 = ("{\"job\":{\"id\":").spec_bytes() + z1b;
    proof {
        if hyp {
            assert(v@ == spec_state_json(hst));
            lemma_state_suffix_shape(hst);
            assert(v@.skip(0) =~= v@);
            assert(v@.skip(0) == z1);
        }
    }
    proof {
        if hyp {
            crate::jsonparse::lemma_peel(v@, 0 as int, ("{\"job\":{\"id\":").spec_bytes(), z1b);
        }
    }
    let p0 = match crate::jsonparse::expect_lit(v, 0, "{\"job\":{\"id\":") {
        Some(p) => p,
        None => {
                proof {
                    if hyp {
                        assert(false);
                    }
                }
                return None;
        },
    };
    proof {
        if hyp {
            assert(v@.skip(p0 as int) == z1b);
        }
    }
    proof {
        if hyp {
            crate::jsonparse::lemma_peel(v@, p0 as int, spec_json_string(hst.job.id@), z2);
            assert(crate::jsonparse::spec_has_json_string_at(v@, p0 as int)) by {
                assert(v@.subrange(p0 as int, p0 + spec_json_string(hst.job.id@).len())
                    == spec_json_string(hst.job.id@));
            }
        }
    }
    let (id, p1) = match crate::jsonparse::parse_string(v, p0) {
        Some(x) => x,
        None => {
                proof {
                    if hyp {
                        assert(false);
                    }
                }
                return None;
        },
    };
    proof {
        if hyp {
            crate::jsonparse::lemma_split_skip(v@, p0 as int, p1 as int);
            crate::json::lemma_json_string_unique(id@, hst.job.id@, v@.skip(p1 as int), z2);
            assert(v@.skip(p1 as int) == z2);
        }
    }
    proof {
        if hyp {
            crate::jsonparse::lemma_peel(v@, p1 as int, (",\"status\":").spec_bytes(), z2b);
        }
    }
    let p2 = match crate::jsonparse::expect_lit(v, p1, ",\"status\":") {
        Some(p) => p,
        None => {
                proof {
                    if hyp {
                        assert(false);
                    }
                }
                return None;
        },
    };
    proof {
        if hyp {
            assert(v@.skip(p2 as int) == z2b);
        }
    }
    proof {
        if hyp {
            crate::jsonparse::lemma_peel(v@, p2 as int, spec_json_string(spec_status_str(hst.job.status)), z3);
            assert(crate::jsonparse::spec_has_json_string_at(v@, p2 as int)) by {
                assert(v@.subrange(p2 as int, p2 + spec_json_string(spec_status_str(hst.job.status)).len())
                    == spec_json_string(spec_status_str(hst.job.status)));
            }
        }
    }
    let (status_s, p3) = match crate::jsonparse::parse_string(v, p2) {
        Some(x) => x,
        None => {
                proof {
                    if hyp {
                        assert(false);
                    }
                }
                return None;
        },
    };
    proof {
        if hyp {
            crate::jsonparse::lemma_split_skip(v@, p2 as int, p3 as int);
            crate::json::lemma_json_string_unique(status_s@, spec_status_str(hst.job.status), v@.skip(p3 as int), z3);
            assert(v@.skip(p3 as int) == z3);
        }
    }
    let status = match status_of_str(&status_s) {
        Some(st) => st,
        None => {
                proof {
                    if hyp {
                        assert(false);
                    }
                }
                return None;
        },
    };
    proof {
        if hyp {
            crate::jsonparse::lemma_peel(v@, p3 as int, (",\"started_at\":").spec_bytes(), z3b);
        }
    }
    let p4 = match crate::jsonparse::expect_lit(v, p3, ",\"started_at\":") {
        Some(p) => p,
        None => {
                proof {
                    if hyp {
                        assert(false);
                    }
                }
                return None;
        },
    };
    proof {
        if hyp {
            assert(v@.skip(p4 as int) == z3b);
        }
    }
    proof {
        if hyp {
            crate::jsonparse::lemma_peel(v@, p4 as int, spec_json_string(hst.job.started_at@), z4);
            assert(crate::jsonparse::spec_has_json_string_at(v@, p4 as int)) by {
                assert(v@.subrange(p4 as int, p4 + spec_json_string(hst.job.started_at@).len())
                    == spec_json_string(hst.job.started_at@));
            }
        }
    }
    let (started_at, p5) = match crate::jsonparse::parse_string(v, p4) {
        Some(x) => x,
        None => {
                proof {
                    if hyp {
                        assert(false);
                    }
                }
                return None;
        },
    };
    proof {
        if hyp {
            crate::jsonparse::lemma_split_skip(v@, p4 as int, p5 as int);
            crate::json::lemma_json_string_unique(started_at@, hst.job.started_at@, v@.skip(p5 as int), z4);
            assert(v@.skip(p5 as int) == z4);
        }
    }
    proof {
        lemma_split_at(v@, 0, p0 as int, p1 as int);
        lemma_split_at(v@, 0, p1 as int, p2 as int);
        lemma_split_at(v@, 0, p2 as int, p3 as int);
        lemma_split_at(v@, 0, p3 as int, p4 as int);
        lemma_split_at(v@, 0, p4 as int, p5 as int);
    }
    let ghost q1 = ("{\"job\":{\"id\":").spec_bytes() + spec_json_string(id@) + (
    ",\"status\":").spec_bytes() + spec_json_string(spec_status_str(status)) + (
    ",\"started_at\":").spec_bytes() + spec_json_string(started_at@);
    proof {
        assert(v@.subrange(0, p5 as int) == q1);
    }
    proof {
        if hyp {
            assert(v@.skip(p5 as int) == z4);
        }
    }
    Some((id, status, started_at, p5))
}

/// Front half of rendering injectivity: the `job` block's fields and
/// the equality of the rendered remainders.
#[verifier::rlimit(100)]
proof fn lemma_state_inj_front(ast: JobState, bst: JobState)
    requires
        spec_state_json(ast) == spec_state_json(bst),
    ensures
        ast.job.id@ == bst.job.id@,
        ast.job.status == bst.job.status,
        ast.job.started_at@ == bst.job.started_at@,
        spec_opt_i32(ast.result.exit_code) + ((",\"signal\":").spec_bytes() + (spec_opt_string(
        ast.result.signal,
    ) + ((",\"duration_ms\":").spec_bytes() + (spec_opt_u64(ast.result.duration_ms) + (("},\"pid\":").spec_bytes() + (
    spec_opt_u32(ast.pid) + ((",\"finished_at\":").spec_bytes() + (spec_opt_string(ast.finished_at) + ((
    ",\"updated_at\":").spec_bytes() + (spec_json_string(ast.updated_at@) + ((",\"windows_job_name\":").spec_bytes() + (
    spec_opt_string(ast.windows_job_name) + ("}").spec_bytes())))))))))))) == spec_opt_i32(bst.result.exit_code) + ((",\"signal\":").spec_bytes() + (spec_opt_string(
        bst.result.signal,
    ) + ((",\"duration_ms\":").spec_bytes() + (spec_opt_u64(bst.result.duration_ms) + (("},\"pid\":").spec_bytes() + (
    spec_opt_u32(bst.pid) + ((",\"finished_at\":").spec_bytes() + (spec_opt_string(bst.finished_at) + ((
    ",\"updated_at\":").spec_bytes() + (spec_json_string(bst.updated_at@) + ((",\"windows_job_name\":").spec_bytes() + (
    spec_opt_string(bst.windows_job_name) + ("}").spec_bytes())))))))))))),
{
    lemma_state_suffix_shape(ast);
    lemma_state_suffix_shape(bst);
    let a11 = ("}").spec_bytes();
    let a10b = spec_opt_string(ast.windows_job_name) + a11;
    let a10 = (",\"windows_job_name\":").spec_bytes() + a10b;
    let a9b = spec_json_string(ast.updated_at@) + a10;
    let a9 = (",\"updated_at\":").spec_bytes() + a9b;
    let a8b = spec_opt_string(ast.finished_at) + a9;
    let a8 = (",\"finished_at\":").spec_bytes() + a8b;
    let a7b = spec_opt_u32(ast.pid) + a8;
    let a7 = ("},\"pid\":").spec_bytes() + a7b;
    let a6b = spec_opt_u64(ast.result.duration_ms) + a7;
    let a6 = (",\"duration_ms\":").spec_bytes() + a6b;
    let a5b = spec_opt_string(ast.result.signal) + a6;
    let a5 = (",\"signal\":").spec_bytes() + a5b;
    let a4b = spec_opt_i32(ast.result.exit_code) + a5;
    let a4 = ("},\"result\":{\"exit_code\":").spec_bytes() + a4b;
    let a3b = spec_json_string(ast.job.started_at@) + a4;
    let a3 = (",\"started_at\":").spec_bytes() + a3b;
    let a2b = spec_json_string(spec_status_str(ast.job.status)) + a3;
    let a2 = (",\"status\":").spec_bytes() + a2b;
    let a1b = spec_json_string(ast.job.id@) + a2;
    let a1 = ("{\"job\":{\"id\":").spec_bytes() + a1b;
    let b11 = ("}").spec_bytes();
    let b10b = spec_opt_string(bst.windows_job_name) + b11;
    let b10 = (",\"windows_job_name\":").spec_bytes() + b10b;
    let b9b = spec_json_string(bst.updated_at@) + b10;
    let b9 = (",\"updated_at\":").spec_bytes() + b9b;
    let b8b = spec_opt_string(bst.finished_at) + b9;
    let b8 = (",\"finished_at\":").spec_bytes() + b8b;
    let b7b = spec_opt_u32(bst.pid) + b8;
    let b7 = ("},\"pid\":").spec_bytes() + b7b;
    let b6b = spec_opt_u64(bst.result.duration_ms) + b7;
    let b6 = (",\"duration_ms\":").spec_bytes() + b6b;
    let b5b = spec_opt_string(bst.result.signal) + b6;
    let b5 = (",\"signal\":").spec_bytes() + b5b;
    let b4b = spec_opt_i32(bst.result.exit_code) + b5;
    let b4 = ("},\"result\":{\"exit_code\":").spec_bytes() + b4b;
    let b3b = spec_json_string(bst.job.started_at@) + b4;
    let b3 = (",\"started_at\":").spec_bytes() + b3b;
    let b2b = spec_json_string(spec_status_str(bst.job.status)) + b3;
    let b2 = (",\"status\":").spec_bytes() + b2b;
    let b1b = spec_json_string(bst.job.id@) + b2;
    let b1 = ("{\"job\":{\"id\":").spec_bytes() + b1b;
    assert(a1 == b1);
    assert(a1b =~= a1.skip(("{\"job\":{\"id\":").spec_bytes().len() as int));
    assert(b1b =~= b1.skip(("{\"job\":{\"id\":").spec_bytes().len() as int));
    crate::json::lemma_json_string_unique(ast.job.id@, bst.job.id@, a2, b2);
    assert(a2b =~= a2.skip((",\"status\":").spec_bytes().len() as int));
    assert(b2b =~= b2.skip((",\"status\":").spec_bytes().len() as int));
    crate::json::lemma_json_string_unique(
        spec_status_str(ast.job.status),
        spec_status_str(bst.job.status),
        a3,
        b3,
    );
    assert(ast.job.status == bst.job.status) by {
        reveal_strlit("running");
        reveal_strlit("exited");
        reveal_strlit("killed");
        reveal_strlit("failed");
    }
    assert(a3b =~= a3.skip((",\"started_at\":").spec_bytes().len() as int));
    assert(b3b =~= b3.skip((",\"started_at\":").spec_bytes().len() as int));
    crate::json::lemma_json_string_unique(ast.job.started_at@, bst.job.started_at@, a4, b4);
    assert(a4b =~= a4.skip(("},\"result\":{\"exit_code\":").spec_bytes().len() as int));
    assert(b4b =~= b4.skip(("},\"result\":{\"exit_code\":").spec_bytes().len() as int));
}

/// Back half of rendering injectivity: the result block and the
/// trailing fields.
#[verifier::rlimit(100)]
proof fn lemma_state_inj_back(ast: JobState, bst: JobState)
    requires
        spec_opt_i32(ast.result.exit_code) + ((",\"signal\":").spec_bytes() + (spec_opt_string(
        ast.result.signal,
    ) + ((",\"duration_ms\":").spec_bytes() + (spec_opt_u64(ast.result.duration_ms) + (("},\"pid\":").spec_bytes() + (
    spec_opt_u32(ast.pid) + ((",\"finished_at\":").spec_bytes() + (spec_opt_string(ast.finished_at) + ((
    ",\"updated_at\":").spec_bytes() + (spec_json_string(ast.updated_at@) + ((",\"windows_job_name\":").spec_bytes() + (
    spec_opt_string(ast.windows_job_name) + ("}").spec_bytes())))))))))))) == spec_opt_i32(bst.result.exit_code) + ((",\"signal\":").spec_bytes() + (spec_opt_string(
        bst.result.signal,
    ) + ((",\"duration_ms\":").spec_bytes() + (spec_opt_u64(bst.result.duration_ms) + (("},\"pid\":").spec_bytes() + (
    spec_opt_u32(bst.pid) + ((",\"finished_at\":").spec_bytes() + (spec_opt_string(bst.finished_at) + ((
    ",\"updated_at\":").spec_bytes() + (spec_json_string(bst.updated_at@) + ((",\"windows_job_name\":").spec_bytes() + (
    spec_opt_string(bst.windows_job_name) + ("}").spec_bytes())))))))))))),
    ensures
        ast.result.exit_code == bst.result.exit_code,
        ast.result.signal is Some <==> bst.result.signal is Some,
        ast.result.signal matches Some(x) ==> (bst.result.signal matches Some(y) && x@ == y@),
        ast.result.duration_ms == bst.result.duration_ms,
        ast.pid == bst.pid,
        ast.finished_at is Some <==> bst.finished_at is Some,
        ast.finished_at matches Some(x) ==> (bst.finished_at matches Some(y) && x@ == y@),
        ast.updated_at@ == bst.updated_at@,
        ast.windows_job_name is Some <==> bst.windows_job_name is Some,
        ast.windows_job_name matches Some(x) ==> (bst.windows_job_name matches Some(y) && x@
            == y@),
{
    let a11 = ("}").spec_bytes();
    let a10b = spec_opt_string(ast.windows_job_name) + a11;
    let a10 = (",\"windows_job_name\":").spec_bytes() + a10b;
    let a9b = spec_json_string(ast.updated_at@) + a10;
    let a9 = (",\"updated_at\":").spec_bytes() + a9b;
    let a8b = spec_opt_string(ast.finished_at) + a9;
    let a8 = (",\"finished_at\":").spec_bytes() + a8b;
    let a7b = spec_opt_u32(ast.pid) + a8;
    let a7 = ("},\"pid\":").spec_bytes() + a7b;
    let a6b = spec_opt_u64(ast.result.duration_ms) + a7;
    let a6 = (",\"duration_ms\":").spec_bytes() + a6b;
    let a5b = spec_opt_string(ast.result.signal) + a6;
    let a5 = (",\"signal\":").spec_bytes() + a5b;
    let a4b = spec_opt_i32(ast.result.exit_code) + a5;
    let b11 = ("}").spec_bytes();
    let b10b = spec_opt_string(bst.windows_job_name) + b11;
    let b10 = (",\"windows_job_name\":").spec_bytes() + b10b;
    let b9b = spec_json_string(bst.updated_at@) + b10;
    let b9 = (",\"updated_at\":").spec_bytes() + b9b;
    let b8b = spec_opt_string(bst.finished_at) + b9;
    let b8 = (",\"finished_at\":").spec_bytes() + b8b;
    let b7b = spec_opt_u32(bst.pid) + b8;
    let b7 = ("},\"pid\":").spec_bytes() + b7b;
    let b6b = spec_opt_u64(bst.result.duration_ms) + b7;
    let b6 = (",\"duration_ms\":").spec_bytes() + b6b;
    let b5b = spec_opt_string(bst.result.signal) + b6;
    let b5 = (",\"signal\":").spec_bytes() + b5b;
    let b4b = spec_opt_i32(bst.result.exit_code) + b5;
    assert(a4b == b4b);
    reveal_strlit(",\"signal\":");
    crate::json::lemma_lit_head(",\"signal\":");
    assert(a5[0] == (",\"signal\":").spec_bytes()[0] && b5[0] == (",\"signal\":").spec_bytes()[0]);
    crate::schema::lemma_opt_i32_unique(ast.result.exit_code, bst.result.exit_code, a5, b5);
    assert(a5b =~= a5.skip((",\"signal\":").spec_bytes().len() as int));
    assert(b5b =~= b5.skip((",\"signal\":").spec_bytes().len() as int));
    crate::schema::lemma_opt_string_unique(ast.result.signal, bst.result.signal, a6, b6);
    assert(a6b =~= a6.skip((",\"duration_ms\":").spec_bytes().len() as int));
    assert(b6b =~= b6.skip((",\"duration_ms\":").spec_bytes().len() as int));
    reveal_strlit("},\"pid\":");
    crate::json::lemma_lit_head("},\"pid\":");
    assert(a7[0] == ("},\"pid\":").spec_bytes()[0] && b7[0] == ("},\"pid\":").spec_bytes()[0]);
    crate::schema::lemma_opt_u64_unique(
        ast.result.duration_ms,
        bst.result.duration_ms,
        a7,
        b7,
    );
    assert(a7b =~= a7.skip(("},\"pid\":").spec_bytes().len() as int));
    assert(b7b =~= b7.skip(("},\"pid\":").spec_bytes().len() as int));
    reveal_strlit(",\"finished_at\":");
    crate::json::lemma_lit_head(",\"finished_at\":");
    assert(a8[0] == (",\"finished_at\":").spec_bytes()[0] && b8[0] == (",\"finished_at\":").spec_bytes()[0]);
    crate::schema::lemma_opt_u32_unique(ast.pid, bst.pid, a8, b8);
    assert(a8b =~= a8.skip((",\"finished_at\":").spec_bytes().len() as int));
    assert(b8b =~= b8.skip((",\"finished_at\":").spec_bytes().len() as int));
    crate::schema::lemma_opt_string_unique(ast.finished_at, bst.finished_at, a9, b9);
    assert(a9b =~= a9.skip((",\"updated_at\":").spec_bytes().len() as int));
    assert(b9b =~= b9.skip((",\"updated_at\":").spec_bytes().len() as int));
    crate::json::lemma_json_string_unique(ast.updated_at@, bst.updated_at@, a10, b10);
    assert(a10b =~= a10.skip((",\"windows_job_name\":").spec_bytes().len() as int));
    assert(b10b =~= b10.skip((",\"windows_job_name\":").spec_bytes().len() as int));
    crate::schema::lemma_opt_string_unique(
        ast.windows_job_name,
        bst.windows_job_name,
        a11,
        b11,
    );
}

/// The canonical rendering is injective up to the field contents: two
/// states that render to the same bytes agree on every field's value.
/// Together with `parse_state`'s two clauses this closes the store
/// round trip: what `emit_state` writes reads back as the same state.
pub proof fn lemma_state_json_injective(ast: JobState, bst: JobState)
    requires
        spec_state_json(ast) == spec_state_json(bst),
    ensures
        ast.job.id@ == bst.job.id@,
        ast.job.status == bst.job.status,
        ast.job.started_at@ == bst.job.started_at@,
        ast.result.exit_code == bst.result.exit_code,
        ast.result.signal is Some <==> bst.result.signal is Some,
        ast.result.signal matches Some(x) ==> (bst.result.signal matches Some(y) && x@ == y@),
        ast.result.duration_ms == bst.result.duration_ms,
        ast.pid == bst.pid,
        ast.finished_at is Some <==> bst.finished_at is Some,
        ast.finished_at matches Some(x) ==> (bst.finished_at matches Some(y) && x@ == y@),
        ast.updated_at@ == bst.updated_at@,
        ast.windows_job_name is Some <==> bst.windows_job_name is Some,
        ast.windows_job_name matches Some(x) ==> (bst.windows_job_name matches Some(y) && x@
            == y@),
{
    lemma_state_inj_front(ast, bst);
    lemma_state_inj_back(ast, bst);
}

/// Some state renders exactly to `v`./// Some state renders exactly to `v`.
pub open spec fn spec_has_state(v: Seq<u8>) -> bool {
    exists|st: JobState| v == #[trigger] spec_state_json(st)
}

/// Parse canonical `state.json` bytes.  When parsing succeeds, the
/// input is exactly the canonical rendering of the returned state; when
/// it fails, no state renders to the input — in particular, everything
/// `emit_state` writes can be read back.
#[verifier::rlimit(100)]
pub fn parse_state(v: &Vec<u8>) -> (r: Option<JobState>)
    ensures
        r matches Some(st) ==> v@ == spec_state_json(st),
        r is None ==> !spec_has_state(v@),
{
    let len: usize = v.len();
    let ghost hyp = spec_has_state(v@);
    let ghost hst: JobState = if hyp {
        choose|st: JobState| v@ == #[trigger] spec_state_json(st)
    } else {
        vstd::pervasive::arbitrary()
    };
    let ghost z11 = ("}").spec_bytes();
    let ghost z10b = spec_opt_string(hst.windows_job_name) + z11;
    let ghost z10 = (",\"windows_job_name\":").spec_bytes() + z10b;
    let ghost z9b = spec_json_string(hst.updated_at@) + z10;
    let ghost z9 = (",\"updated_at\":").spec_bytes() + z9b;
    let ghost z8b = spec_opt_string(hst.finished_at) + z9;
    let ghost z8 = (",\"finished_at\":").spec_bytes() + z8b;
    let ghost z7b = spec_opt_u32(hst.pid) + z8;
    let ghost z7 = ("},\"pid\":").spec_bytes() + z7b;
    let ghost z6b = spec_opt_u64(hst.result.duration_ms) + z7;
    let ghost z6 = (",\"duration_ms\":").spec_bytes() + z6b;
    let ghost z5b = spec_opt_string(hst.result.signal) + z6;
    let ghost z5 = (",\"signal\":").spec_bytes() + z5b;
    let ghost z4b = spec_opt_i32(hst.result.exit_code) + z5;
    let ghost z4 = ("},\"result\":{\"exit_code\":").spec_bytes() + z4b;
    let ghost z3b = spec_json_string(hst.job.started_at@) + z4;
    let ghost z3 = (",\"started_at\":").spec_bytes() + z3b;
    let ghost z2b = spec_json_string(spec_status_str(hst.job.status)) + z3;
    let ghost z2 = (",\"status\":").spec_bytes() + z2b;
    let ghost z1b = spec_json_string(hst.job.id@) + z2;
    let ghost z1 = ("{\"job\":{\"id\":").spec_bytes() + z1b;
    let (id, status, started_at, p5) = match parse_state_head(v, Ghost(hyp), Ghost(hst)) {
        Some(t) => t,
        None => {
                proof {
                    if hyp {
                        assert(false);
                    }
                    assert(!spec_has_state(v@));
                }
                return None;
        },
    };
    let ghost q1 = ("{\"job\":{\"id\":").spec_bytes() + spec_json_string(id@) + (",\"status\":").spec_bytes()
        + spec_json_string(spec_status_str(status)) + (",\"started_at\":").spec_bytes() + spec_json_string(
        started_at@,
    );
    proof {
        assert(v@.subrange(0, p5 as int) == q1);
        if hyp {
            assert(v@.skip(p5 as int) == z4);
        }
    }
    let (exit_code, signal, duration_ms, p11) = match parse_state_mid(
        v,
        p5,
        Ghost(hyp),
        Ghost(hst),
    ) {
        Some(t) => t,
        None => {
                proof {
                    if hyp {
                        assert(false);
                    }
                    assert(!spec_has_state(v@));
                }
                return None;
        },
    };
    proof {
        lemma_split_at(v@, 0, p5 as int, p11 as int);
    }
    let ghost q2 = q1 + ("},\"result\":{\"exit_code\":").spec_bytes() + spec_opt_i32(exit_code)
        + (",\"signal\":").spec_bytes() + spec_opt_string(signal) + (
    ",\"duration_ms\":").spec_bytes() + spec_opt_u64(duration_ms);
    proof {
        assert(v@.subrange(0, p11 as int) == q2);
    }
    let (pid, finished_at, updated_at, windows_job_name, p20) = match parse_state_rest(
        v,
        p11,
        Ghost(hyp),
        Ghost(hst),
    ) {
        Some(t) => t,
        None => {
                proof {
                    if hyp {
                        assert(false);
                    }
                    assert(!spec_has_state(v@));
                }
                return None;
        },
    };
    let st = JobState {
        job: JobStateJob { id, status, started_at },
        result: JobStateResult { exit_code, signal, duration_ms },
        pid,
        finished_at,
        updated_at,
        windows_job_name,
    };
    proof {
        lemma_split_at(v@, 0, p11 as int, p20 as int);
        assert(v@.subrange(0, p20 as int) == q2 + ("},\"pid\":").spec_bytes() + spec_opt_u32(
            st.pid,
        ) + (",\"finished_at\":").spec_bytes() + spec_opt_string(st.finished_at) + (
        ",\"updated_at\":").spec_bytes() + spec_json_string(st.updated_at@) + (
        ",\"windows_job_name\":").spec_bytes() + spec_opt_string(st.windows_job_name) + (
        "}").spec_bytes()) by {
            assert(v@.subrange(p11 as int, p20 as int) == ("},\"pid\":").spec_bytes()
                + spec_opt_u32(st.pid) + (",\"finished_at\":").spec_bytes() + spec_opt_string(
                st.finished_at,
            ) + (",\"updated_at\":").spec_bytes() + spec_json_string(st.updated_at@) + (
            ",\"windows_job_name\":").spec_bytes() + spec_opt_string(st.windows_job_name) + (
            "}").spec_bytes());
        }
        assert(v@.subrange(0, v@.len() as int) =~= v@);
        assert(v@ == spec_state_json(st));
    }
    Some(st)
}


// ---------- meta.json ----------

/// The canonical one-line rendering of `meta.json`.
pub open spec fn spec_meta_json(m: JobMeta) -> Seq<u8> {
    ("{\"job\":{\"id\":").spec_bytes() + spec_json_string(m.job.id@) + (
    "},\"schema_version\":").spec_bytes() + spec_json_string(m.schema_version@) + (
    ",\"command\":").spec_bytes() + crate::json::spec_str_array(crate::json::views_of(m.command@))
        + (",\"created_at\":").spec_bytes() + spec_json_string(m.created_at@) + (
    ",\"root\":").spec_bytes() + spec_json_string(m.root@) + (",\"env_keys\":").spec_bytes()
        + crate::json::spec_str_array(crate::json::views_of(m.env_keys@)) + (
    ",\"env_vars\":").spec_bytes() + crate::json::spec_str_array(crate::json::views_of(m.env_vars@))
        + (",\"mask\":").spec_bytes() + crate::json::spec_str_array(crate::json::views_of(m.mask@))
        + (",\"cwd\":").spec_bytes() + spec_opt_string(m.cwd) + ("}").spec_bytes()
}

/// Render a job's metadata as the canonical `meta.json` bytes.
pub fn emit_meta(m: &JobMeta) -> (r: Vec<u8>)
    ensures
        r@ == spec_meta_json(*m),
{
    let mut out: Vec<u8> = Vec::new();
    push_lit(&mut out, "{\"job\":{\"id\":");
    push_json_str(&mut out, m.job.id.as_str());
    push_lit(&mut out, "},\"schema_version\":");
    push_json_str(&mut out, m.schema_version.as_str());
    push_lit(&mut out, ",\"command\":");
    crate::json::push_str_array(&mut out, &m.command);
    let ghost p1 = ("{\"job\":{\"id\":").spec_bytes() + spec_json_string(m.job.id@) + (
    "},\"schema_version\":").spec_bytes() + spec_json_string(m.schema_version@) + (
    ",\"command\":").spec_bytes() + crate::json::spec_str_array(crate::json::views_of(m.command@));
    proof {
        assert(out@ =~= p1);
    }
    push_lit(&mut out, ",\"created_at\":");
    push_json_str(&mut out, m.created_at.as_str());
    push_lit(&mut out, ",\"root\":");
    push_json_str(&mut out, m.root.as_str());
    push_lit(&mut out, ",\"env_keys\":");
    crate::json::push_str_array(&mut out, &m.env_keys);
    let ghost p2 = p1 + (",\"created_at\":").spec_bytes() + spec_json_string(m.created_at@) + (
    ",\"root\":").spec_bytes() + spec_json_string(m.root@) + (",\"env_keys\":").spec_bytes()
        + crate::json::spec_str_array(crate::json::views_of(m.env_keys@));
    proof {
        assert(out@ =~= p2);
    }
    push_lit(&mut out, ",\"env_vars\":");
    crate::json::push_str_array(&mut out, &m.env_vars);
    push_lit(&mut out, ",\"mask\":");
    crate::json::push_str_array(&mut out, &m.mask);
    push_lit(&mut out, ",\"cwd\":");
    crate::schema::push_opt_string(&mut out, &m.cwd);
    push_lit(&mut out, "}");
    proof {
        assert(out@ =~= p2 + (",\"env_vars\":").spec_bytes() + crate::json::spec_str_array(
            crate::json::views_of(m.env_vars@),
        ) + (",\"mask\":").spec_bytes() + crate::json::spec_str_array(
            crate::json::views_of(m.mask@),
        ) + (",\"cwd\":").spec_bytes() + spec_opt_string(m.cwd) + ("}").spec_bytes());
        assert(out@ =~= spec_meta_json(*m));
    }
    out
}

/// The canonical metadata rendering, regrouped for a left-to-right
/// parser.
#[verifier::rlimit(100)]
proof fn lemma_meta_suffix_shape(st: JobMeta)
    ensures
        spec_meta_json(st) == ("{\"job\":{\"id\":").spec_bytes() + (spec_json_string(st.job.id@) + (("},\"schema_version\":").spec_bytes() + (spec_json_string(st.schema_version@) + ((",\"command\":").spec_bytes() + (crate::json::spec_str_array(crate::json::views_of(st.command@)) + ((",\"created_at\":").spec_bytes() + (spec_json_string(st.created_at@) + ((",\"root\":").spec_bytes() + (spec_json_string(st.root@) + ((",\"env_keys\":").spec_bytes() + (crate::json::spec_str_array(crate::json::views_of(st.env_keys@)) + ((",\"env_vars\":").spec_bytes() + (crate::json::spec_str_array(crate::json::views_of(st.env_vars@)) + ((",\"mask\":").spec_bytes() + (crate::json::spec_str_array(crate::json::views_of(st.mask@)) + ((",\"cwd\":").spec_bytes() + (spec_opt_string(st.cwd) + (("}").spec_bytes())))))))))))))))))),
{
    let a1 = ("{\"job\":{\"id\":").spec_bytes();
    let s1 = spec_json_string(st.job.id@);
    let a2 = ("},\"schema_version\":").spec_bytes();
    let s2 = spec_json_string(st.schema_version@);
    let a3 = (",\"command\":").spec_bytes();
    let r3 = crate::json::spec_str_array(crate::json::views_of(st.command@));
    let a4 = (",\"created_at\":").spec_bytes();
    let s4 = spec_json_string(st.created_at@);
    let a5 = (",\"root\":").spec_bytes();
    let s5 = spec_json_string(st.root@);
    let a6 = (",\"env_keys\":").spec_bytes();
    let r6 = crate::json::spec_str_array(crate::json::views_of(st.env_keys@));
    let a7 = (",\"env_vars\":").spec_bytes();
    let r7 = crate::json::spec_str_array(crate::json::views_of(st.env_vars@));
    let a8 = (",\"mask\":").spec_bytes();
    let r8 = crate::json::spec_str_array(crate::json::views_of(st.mask@));
    let a9 = (",\"cwd\":").spec_bytes();
    let o9 = spec_opt_string(st.cwd);
    let a10 = ("}").spec_bytes();
    let p1 = a1;
    let p2 = p1 + s1;
    let p3 = p2 + a2;
    let p4 = p3 + s2;
    let p5 = p4 + a3;
    let p6 = p5 + r3;
    let p7 = p6 + a4;
    let p8 = p7 + s4;
    let p9 = p8 + a5;
    let p10 = p9 + s5;
    let p11 = p10 + a6;
    let p12 = p11 + r6;
    let p13 = p12 + a7;
    let p14 = p13 + r7;
    let p15 = p14 + a8;
    let p16 = p15 + r8;
    let p17 = p16 + a9;
    let p18 = p17 + o9;
    let p19 = p18 + a10;
    assert(spec_meta_json(st) == p19);
    lemma_assoc(p17, o9, a10);
    lemma_assoc(p16, a9, (o9 + a10));
    lemma_assoc(p15, r8, (a9 + (o9 + a10)));
    lemma_assoc(p14, a8, (r8 + (a9 + (o9 + a10))));
    lemma_assoc(p13, r7, (a8 + (r8 + (a9 + (o9 + a10)))));
    lemma_assoc(p12, a7, (r7 + (a8 + (r8 + (a9 + (o9 + a10))))));
    lemma_assoc(p11, r6, (a7 + (r7 + (a8 + (r8 + (a9 + (o9 + a10)))))));
    lemma_assoc(p10, a6, (r6 + (a7 + (r7 + (a8 + (r8 + (a9 + (o9 + a10))))))));
    lemma_assoc(p9, s5, (a6 + (r6 + (a7 + (r7 + (a8 + (r8 + (a9 + (o9 + a10)))))))));
    lemma_assoc(p8, a5, (s5 + (a6 + (r6 + (a7 + (r7 + (a8 + (r8 + (a9 + (o9 + a10))))))))));
    lemma_assoc(p7, s4, (a5 + (s5 + (a6 + (r6 + (a7 + (r7 + (a8 + (r8 + (a9 + (o9 + a10)))))))))));
    lemma_assoc(p6, a4, (s4 + (a5 + (s5 + (a6 + (r6 + (a7 + (r7 + (a8 + (r8 + (a9 + (o9 + a10))))))))))));
    lemma_assoc(p5, r3, (a4 + (s4 + (a5 + (s5 + (a6 + (r6 + (a7 + (r7 + (a8 + (r8 + (a9 + (o9 + a10)))))))))))));
    lemma_assoc(p4, a3, (r3 + (a4 + (s4 + (a5 + (s5 + (a6 + (r6 + (a7 + (r7 + (a8 + (r8 + (a9 + (o9 + a10))))))))))))));
    lemma_assoc(p3, s2, (a3 + (r3 + (a4 + (s4 + (a5 + (s5 + (a6 + (r6 + (a7 + (r7 + (a8 + (r8 + (a9 + (o9 + a10)))))))))))))));
    lemma_assoc(p2, a2, (s2 + (a3 + (r3 + (a4 + (s4 + (a5 + (s5 + (a6 + (r6 + (a7 + (r7 + (a8 + (r8 + (a9 + (o9 + a10))))))))))))))));
    lemma_assoc(p1, s1, (a2 + (s2 + (a3 + (r3 + (a4 + (s4 + (a5 + (s5 + (a6 + (r6 + (a7 + (r7 + (a8 + (r8 + (a9 + (o9 + a10)))))))))))))))));
}

/// Parse the front of a canonical `meta.json`, through the `root`
/// field.  Under `hyp` — some metadata `hm` renders to the whole input
/// — failure is impossible.
#[verifier::rlimit(100)]
fn parse_meta_head(v: &Vec<u8>, Ghost(hyp): Ghost<bool>, Ghost(hm): Ghost<JobMeta>) -> (r:
    Option<(String, String, Vec<String>, String, String, usize)>)
    requires
        hyp ==> v@ == spec_meta_json(hm),
    ensures
        r matches Some(t) ==> 0 < t.5 <= v@.len() && v@.subrange(0, t.5 as int) == (
        "{\"job\":{\"id\":").spec_bytes() + spec_json_string(t.0@) + ("},\"schema_version\":").spec_bytes() + spec_json_string(
            t.1@,
        ) + (",\"command\":").spec_bytes() + crate::json::spec_str_array(crate::json::views_of(t.2@)) + (
        ",\"created_at\":").spec_bytes() + spec_json_string(t.3@) + (",\"root\":").spec_bytes() + spec_json_string(
            t.4@,
        ),
        (hyp && r is Some) ==> v@.skip((r->0).5 as int) == (",\"env_keys\":").spec_bytes() + (crate::json::spec_str_array(crate::json::views_of(
            hm.env_keys@,
        )) + ((",\"env_vars\":").spec_bytes() + (crate::json::spec_str_array(crate::json::views_of(
            hm.env_vars@,
        )) + ((",\"mask\":").spec_bytes() + (crate::json::spec_str_array(crate::json::views_of(hm.mask@))
            + ((",\"cwd\":").spec_bytes() + (spec_opt_string(hm.cwd) + ("}").spec_bytes()))))))),
        r is None ==> !hyp,
{
    let len: usize = v.len();
    let ghost w10 = ("}").spec_bytes();
    let ghost w9b = spec_opt_string(hm.cwd) + w10;
    let ghost w9 = (",\"cwd\":").spec_bytes() + w9b;
    let ghost w8b = crate::json::spec_str_array(crate::json::views_of(hm.mask@)) + w9;
    let ghost w8 = (",\"mask\":").spec_bytes() + w8b;
    let ghost w7b = crate::json::spec_str_array(crate::json::views_of(hm.env_vars@)) + w8;
    let ghost w7 = (",\"env_vars\":").spec_bytes() + w7b;
    let ghost w6b = crate::json::spec_str_array(crate::json::views_of(hm.env_keys@)) + w7;
    let ghost w6 = (",\"env_keys\":").spec_bytes() + w6b;
    let ghost w5b = spec_json_string(hm.root@) + w6;
    let ghost w5 = (",\"root\":").spec_bytes() + w5b;
    let ghost w4b = spec_json_string(hm.created_at@) + w5;
    let ghost w4 = (",\"created_at\":").spec_bytes() + w4b;
    let ghost w3b = crate::json::spec_str_array(crate::json::views_of(hm.command@)) + w4;
    let ghost w3 = (",\"command\":").spec_bytes() + w3b;
    let ghost w2b = spec_json_string(hm.schema_version@) + w3;
    let ghost w2 = ("},\"schema_version\":").spec_bytes() + w2b;
    let ghost w1b = spec_json_string(hm.job.id@) + w2;
    let ghost w1 = ("{\"job\":{\"id\":").spec_bytes() + w1b;
    proof {
        if hyp {
            assert(v@ == spec_meta_json(hm));
            lemma_meta_suffix_shape(hm);
            assert(v@.skip(0) =~= v@);
            assert(v@.skip(0) == w1);
        }
    }
    proof {
        if hyp {
            crate::jsonparse::lemma_peel(v@, 0 as int, ("{\"job\":{\"id\":").spec_bytes(), w1b);
        }
    }
    let p0 = match crate::jsonparse::expect_lit(v, 0, "{\"job\":{\"id\":") {
        Some(p) => p,
        None => {
                proof {
                    if hyp {
                        assert(false);
                    }
                }
                return None;
        },
    };
    proof {
        if hyp {
            assert(v@.skip(p0 as int) == w1b);
        }
    }
    proof {
        if hyp {
            crate::jsonparse::lemma_peel(v@, p0 as int, spec_json_string(hm.job.id@), w2);
            assert(crate::jsonparse::spec_has_json_string_at(v@, p0 as int)) by {
                assert(v@.subrange(p0 as int, p0 + spec_json_string(hm.job.id@).len())
                    == spec_json_string(hm.job.id@));
            }
        }
    }
    let (id, p1) = match crate::jsonparse::parse_string(v, p0) {
        Some(x) => x,
        None => {
                proof {
                    if hyp {
                        assert(false);
                    }
                }
                return None;
        },
    };
    proof {
        if hyp {
            crate::jsonparse::lemma_split_skip(v@, p0 as int, p1 as int);
            crate::json::lemma_json_string_unique(id@, hm.job.id@, v@.skip(p1 as int), w2);
            assert(v@.skip(p1 as int) == w2);
        }
    }
    proof {
        if hyp {
            crate::jsonparse::lemma_peel(v@, p1 as int, ("},\"schema_version\":").spec_bytes(), w2b);
        }
    }
    let p2 = match crate::jsonparse::expect_lit(v, p1, "},\"schema_version\":") {
        Some(p) => p,
        None => {
                proof {
                    if hyp {
                        assert(false);
                    }
                }
                return None;
        },
    };
    proof {
        if hyp {
            assert(v@.skip(p2 as int) == w2b);
        }
    }
    proof {
        if hyp {
            crate::jsonparse::lemma_peel(v@, p2 as int, spec_json_string(hm.schema_version@), w3);
            assert(crate::jsonparse::spec_has_json_string_at(v@, p2 as int)) by {
                assert(v@.subrange(p2 as int, p2 + spec_json_string(hm.schema_version@).len())
                    == spec_json_string(hm.schema_version@));
            }
        }
    }
    let (schema_version, p3) = match crate::jsonparse::parse_string(v, p2) {
        Some(x) => x,
        None => {
                proof {
                    if hyp {
                        assert(false);
                    }
                }
                return None;
        },
    };
    proof {
        if hyp {
            crate::jsonparse::lemma_split_skip(v@, p2 as int, p3 as int);
            crate::json::lemma_json_string_unique(schema_version@, hm.schema_version@, v@.skip(p3 as int), w3);
            assert(v@.skip(p3 as int) == w3);
        }
    }
    proof {
        if hyp {
            crate::jsonparse::lemma_peel(v@, p3 as int, (",\"command\":").spec_bytes(), w3b);
        }
    }
    let p4 = match crate::jsonparse::expect_lit(v, p3, ",\"command\":") {
        Some(p) => p,
        None => {
                proof {
                    if hyp {
                        assert(false);
                    }
                }
                return None;
        },
    };
    proof {
        if hyp {
            assert(v@.skip(p4 as int) == w3b);
        }
    }
    proof {
        if hyp {
            crate::jsonparse::lemma_peel(
                v@,
                p4 as int,
                crate::json::spec_str_array(crate::json::views_of(hm.command@)),
                w4,
            );
            assert(crate::jsonparse::spec_has_str_array_at(v@, p4 as int)) by {
                assert(v@.subrange(
                    p4 as int,
                    p4 + crate::json::spec_str_array(crate::json::views_of(hm.command@)).len(),
                ) == crate::json::spec_str_array(crate::json::views_of(hm.command@)));
            }
        }
    }
    let (command, p5) = match crate::jsonparse::parse_str_array(v, p4) {
        Some(x) => x,
        None => {
                proof {
                    if hyp {
                        assert(false);
                    }
                }
                return None;
        },
    };
    proof {
        if hyp {
            crate::jsonparse::lemma_split_skip(v@, p4 as int, p5 as int);
            crate::json::lemma_str_array_unique(
                crate::json::views_of(command@),
                crate::json::views_of(hm.command@),
                v@.skip(p5 as int),
                w4,
            );
            assert(v@.skip(p5 as int) == w4);
        }
    }
    proof {
        if hyp {
            crate::jsonparse::lemma_peel(v@, p5 as int, (",\"created_at\":").spec_bytes(), w4b);
        }
    }
    let p6 = match crate::jsonparse::expect_lit(v, p5, ",\"created_at\":") {
        Some(p) => p,
        None => {
                proof {
                    if hyp {
                        assert(false);
                    }
                }
                return None;
        },
    };
    proof {
        if hyp {
            assert(v@.skip(p6 as int) == w4b);
        }
    }
    proof {
        if hyp {
            crate::jsonparse::lemma_peel(v@, p6 as int, spec_json_string(hm.created_at@), w5);
            assert(crate::jsonparse::spec_has_json_string_at(v@, p6 as int)) by {
                assert(v@.subrange(p6 as int, p6 + spec_json_string(hm.created_at@).len())
                    == spec_json_string(hm.created_at@));
            }
        }
    }
    let (created_at, p7) = match crate::jsonparse::parse_string(v, p6) {
        Some(x) => x,
        None => {
                proof {
                    if hyp {
                        assert(false);
                    }
                }
                return None;
        },
    };
    proof {
        if hyp {
            crate::jsonparse::lemma_split_skip(v@, p6 as int, p7 as int);
            crate::json::lemma_json_string_unique(created_at@, hm.created_at@, v@.skip(p7 as int), w5);
            assert(v@.skip(p7 as int) == w5);
        }
    }
    proof {
        if hyp {
            crate::jsonparse::lemma_peel(v@, p7 as int, (",\"root\":").spec_bytes(), w5b);
        }
    }
    let p8 = match crate::jsonparse::expect_lit(v, p7, ",\"root\":") {
        Some(p) => p,
        None => {
                proof {
                    if hyp {
                        assert(false);
                    }
                }
                return None;
        },
    };
    proof {
        if hyp {
            assert(v@.skip(p8 as int) == w5b);
        }
    }
    proof {
        if hyp {
            crate::jsonparse::lemma_peel(v@, p8 as int, spec_json_string(hm.root@), w6);
            assert(crate::jsonparse::spec_has_json_string_at(v@, p8 as int)) by {
                assert(v@.subrange(p8 as int, p8 + spec_json_string(hm.root@).len())
                    == spec_json_string(hm.root@));
            }
        }
    }
    let (root, p9) = match crate::jsonparse::parse_string(v, p8) {
        Some(x) => x,
        None => {
                proof {
                    if hyp {
                        assert(false);
                    }
                }
                return None;
        },
    };
    proof {
        if hyp {
            crate::jsonparse::lemma_split_skip(v@, p8 as int, p9 as int);
            crate::json::lemma_json_string_unique(root@, hm.root@, v@.skip(p9 as int), w6);
            assert(v@.skip(p9 as int) == w6);
        }
    }
    proof {
        crate::jsonparse::lemma_split_at2(v@, 0, p0 as int, p1 as int);
        crate::jsonparse::lemma_split_at2(v@, 0, p1 as int, p2 as int);
        crate::jsonparse::lemma_split_at2(v@, 0, p2 as int, p3 as int);
        crate::jsonparse::lemma_split_at2(v@, 0, p3 as int, p4 as int);
        crate::jsonparse::lemma_split_at2(v@, 0, p4 as int, p5 as int);
        crate::jsonparse::lemma_split_at2(v@, 0, p5 as int, p6 as int);
        crate::jsonparse::lemma_split_at2(v@, 0, p6 as int, p7 as int);
        crate::jsonparse::lemma_split_at2(v@, 0, p7 as int, p8 as int);
        crate::jsonparse::lemma_split_at2(v@, 0, p8 as int, p9 as int);
    }
    Some((id, schema_version, command, created_at, root, p9))
}

/// Parse the back of a canonical `meta.json`, from the `env_keys` key
/// to the end of the input.
#[verifier::rlimit(100)]
fn parse_meta_tail(
    v: &Vec<u8>,
    p9: usize,
    Ghost(hyp): Ghost<bool>,
    Ghost(hm): Ghost<JobMeta>,
) -> (r: Option<(Vec<String>, Vec<String>, Vec<String>, Option<String>, usize)>)
    requires
        p9 <= v@.len(),
        hyp ==> v@.skip(p9 as int) == (",\"env_keys\":").spec_bytes() + (crate::json::spec_str_array(crate::json::views_of(
            hm.env_keys@,
        )) + ((",\"env_vars\":").spec_bytes() + (crate::json::spec_str_array(crate::json::views_of(
            hm.env_vars@,
        )) + ((",\"mask\":").spec_bytes() + (crate::json::spec_str_array(crate::json::views_of(hm.mask@))
            + ((",\"cwd\":").spec_bytes() + (spec_opt_string(hm.cwd) + ("}").spec_bytes()))))))),
    ensures
        r matches Some(t) ==> p9 < t.4 <= v@.len() && t.4 == v@.len() && v@.subrange(
            p9 as int,
            t.4 as int,
        ) == (",\"env_keys\":").spec_bytes() + crate::json::spec_str_array(crate::json::views_of(t.0@)) + (
        ",\"env_vars\":").spec_bytes() + crate::json::spec_str_array(crate::json::views_of(t.1@)) + (
        ",\"mask\":").spec_bytes() + crate::json::spec_str_array(crate::json::views_of(t.2@)) + (
        ",\"cwd\":").spec_bytes() + spec_opt_string(t.3) + ("}").spec_bytes(),
        r is None ==> !hyp,
{
    let len: usize = v.len();
    let ghost w10 = ("}").spec_bytes();
    let ghost w9b = spec_opt_string(hm.cwd) + w10;
    let ghost w9 = (",\"cwd\":").spec_bytes() + w9b;
    let ghost w8b = crate::json::spec_str_array(crate::json::views_of(hm.mask@)) + w9;
    let ghost w8 = (",\"mask\":").spec_bytes() + w8b;
    let ghost w7b = crate::json::spec_str_array(crate::json::views_of(hm.env_vars@)) + w8;
    let ghost w7 = (",\"env_vars\":").spec_bytes() + w7b;
    let ghost w6b = crate::json::spec_str_array(crate::json::views_of(hm.env_keys@)) + w7;
    let ghost w6 = (",\"env_keys\":").spec_bytes() + w6b;
    proof {
        if hyp {
            assert(v@.skip(p9 as int) == w6);
        }
    }
    proof {
        if hyp {
            crate::jsonparse::lemma_peel(v@, p9 as int, (",\"env_keys\":").spec_bytes(), w6b);
        }
    }
    let p10 = match crate::jsonparse::expect_lit(v, p9, ",\"env_keys\":") {
        Some(p) => p,
        None => {
                proof {
                    if hyp {
                        assert(false);
                    }
                }
                return None;
        },
    };
    proof {
        if hyp {
            assert(v@.skip(p10 as int) == w6b);
        }
    }
    proof {
        if hyp {
            crate::jsonparse::lemma_peel(
                v@,
                p10 as int,
                crate::json::spec_str_array(crate::json::views_of(hm.env_keys@)),
                w7,
            );
            assert(crate::jsonparse::spec_has_str_array_at(v@, p10 as int)) by {
                assert(v@.subrange(
                    p10 as int,
                    p10 + crate::json::spec_str_array(crate::json::views_of(hm.env_keys@)).len(),
                ) == crate::json::spec_str_array(crate::json::views_of(hm.env_keys@)));
            }
        }
    }
    let (env_keys, p11) = match crate::jsonparse::parse_str_array(v, p10) {
        Some(x) => x,
        None => {
                proof {
                    if hyp {
                        assert(false);
                    }
                }
                return None;
        },
    };
    proof {
        if hyp {
            crate::jsonparse::lemma_split_skip(v@, p10 as int, p11 as int);
            crate::json::lemma_str_array_unique(
                crate::json::views_of(env_keys@),
                crate::json::views_of(hm.env_keys@),
                v@.skip(p11 as int),
                w7,
            );
            assert(v@.skip(p11 as int) == w7);
        }
    }
    proof {
        if hyp {
            crate::jsonparse::lemma_peel(v@, p11 as int, (",\"env_vars\":").spec_bytes(), w7b);
        }
    }
    let p12 = match crate::jsonparse::expect_lit(v, p11, ",\"env_vars\":") {
        Some(p) => p,
        None => {
                proof {
                    if hyp {
                        assert(false);
                    }
                }
                return None;
        },
    };
    proof {
        if hyp {
            assert(v@.skip(p12 as int) == w7b);
        }
    }
    proof {
        if hyp {
            crate::jsonparse::lemma_peel(
                v@,
                p12 as int,
                crate::json::spec_str_array(crate::json::views_of(hm.env_vars@)),
                w8,
            );
            assert(crate::jsonparse::spec_has_str_array_at(v@, p12 as int)) by {
                assert(v@.subrange(
                    p12 as int,
                    p12 + crate::json::spec_str_array(crate::json::views_of(hm.env_vars@)).len(),
                ) == crate::json::spec_str_array(crate::json::views_of(hm.env_vars@)));
            }
        }
    }
    let (env_vars, p13) = match crate::jsonparse::parse_str_array(v, p12) {
        Some(x) => x,
        None => {
                proof {
                    if hyp {
                        assert(false);
                    }
                }
                return None;
        },
    };
    proof {
        if hyp {
            crate::jsonparse::lemma_split_skip(v@, p12 as int, p13 as int);
            crate::json::lemma_str_array_unique(
                crate::json::views_of(env_vars@),
                crate::json::views_of(hm.env_vars@),
                v@.skip(p13 as int),
                w8,
            );
            assert(v@.skip(p13 as int) == w8);
        }
    }
    proof {
        if hyp {
            crate::jsonparse::lemma_peel(v@, p13 as int, (",\"mask\":").spec_bytes(), w8b);
        }
    }
    let p14 = match crate::jsonparse::expect_lit(v, p13, ",\"mask\":") {
        Some(p) => p,
        None => {
                proof {
                    if hyp {
                        assert(false);
                    }
                }
                return None;
        },
    };
    proof {
        if hyp {
            assert(v@.skip(p14 as int) == w8b);
        }
    }
    proof {
        if hyp {
            crate::jsonparse::lemma_peel(
                v@,
                p14 as int,
                crate::json::spec_str_array(crate::json::views_of(hm.mask@)),
                w9,
            );
            assert(crate::jsonparse::spec_has_str_array_at(v@, p14 as int)) by {
                assert(v@.subrange(
                    p14 as int,
                    p14 + crate::json::spec_str_array(crate::json::views_of(hm.mask@)).len(),
                ) == crate::json::spec_str_array(crate::json::views_of(hm.mask@)));
            }
        }
    }
    let (mask, p15) = match crate::jsonparse::parse_str_array(v, p14) {
        Some(x) => x,
        None => {
                proof {
                    if hyp {
                        assert(false);
                    }
                }
                return None;
        },
    };
    proof {
        if hyp {
            crate::jsonparse::lemma_split_skip(v@, p14 as int, p15 as int);
            crate::json::lemma_str_array_unique(
                crate::json::views_of(mask@),
                crate::json::views_of(hm.mask@),
                v@.skip(p15 as int),
                w9,
            );
            assert(v@.skip(p15 as int) == w9);
        }
    }
    proof {
        if hyp {
            crate::jsonparse::lemma_peel(v@, p15 as int, (",\"cwd\":").spec_bytes(), w9b);
        }
    }
    let p16 = match crate::jsonparse::expect_lit(v, p15, ",\"cwd\":") {
        Some(p) => p,
        None => {
                proof {
                    if hyp {
                        assert(false);
                    }
                }
                return None;
        },
    };
    proof {
        if hyp {
            assert(v@.skip(p16 as int) == w9b);
        }
    }
    proof {
        if hyp {
            crate::jsonparse::lemma_peel(v@, p16 as int, spec_opt_string(hm.cwd), w10);
            crate::schema::lemma_null_bytes();
            assert(crate::jsonparse::spec_has_opt_string_at(v@, p16 as int)) by {
                assert(v@.subrange(p16 as int, p16 + spec_opt_string(hm.cwd).len())
                    == spec_opt_string(hm.cwd));
            }
        }
    }
    let (cwd, p17) = match crate::jsonparse::parse_opt_string(v, p16) {
        Some(x) => x,
        None => {
                proof {
                    if hyp {
                        assert(false);
                    }
                }
                return None;
        },
    };
    proof {
        if hyp {
            crate::jsonparse::lemma_split_skip(v@, p16 as int, p17 as int);
            crate::schema::lemma_opt_string_unique(cwd, hm.cwd, v@.skip(p17 as int), w10);
            assert(v@.skip(p17 as int) == w10);
        }
    }
    proof {
        if hyp {
            assert(w10 =~= ("}").spec_bytes() + Seq::<u8>::empty());
            crate::jsonparse::lemma_peel(
                v@,
                p17 as int,
                ("}").spec_bytes(),
                Seq::<u8>::empty(),
            );
        }
    }
    let p18 = match crate::jsonparse::expect_lit(v, p17, "}") {
        Some(p) => p,
        None => {
                proof {
                    if hyp {
                        assert(false);
                    }
                }
                return None;
        },
    };
    if p18 != len {
        proof {
            if hyp {
                assert(v@.skip(p18 as int) == Seq::<u8>::empty());
                assert(p18 == len);
                assert(false);
            }
        }
        return None;
    }
    proof {
        crate::jsonparse::lemma_split_at2(v@, p9 as int, p10 as int, p11 as int);
        crate::jsonparse::lemma_split_at2(v@, p9 as int, p11 as int, p12 as int);
        crate::jsonparse::lemma_split_at2(v@, p9 as int, p12 as int, p13 as int);
        crate::jsonparse::lemma_split_at2(v@, p9 as int, p13 as int, p14 as int);
        crate::jsonparse::lemma_split_at2(v@, p9 as int, p14 as int, p15 as int);
        crate::jsonparse::lemma_split_at2(v@, p9 as int, p15 as int, p16 as int);
        crate::jsonparse::lemma_split_at2(v@, p9 as int, p16 as int, p17 as int);
        crate::jsonparse::lemma_split_at2(v@, p9 as int, p17 as int, p18 as int);
    }
    Some((env_keys, env_vars, mask, cwd, p18))
}

/// Some metadata renders exactly to `v`.
pub open spec fn spec_has_meta(v: Seq<u8>) -> bool {
    exists|m: JobMeta| v == #[trigger] spec_meta_json(m)
}

/// Parse canonical `meta.json` bytes.  When parsing succeeds, the
/// input is exactly the canonical rendering of the returned metadata;
/// when it fails, no metadata renders to the input — in particular,
/// everything `emit_meta` writes can be read back.
#[verifier::rlimit(100)]
pub fn parse_meta(v: &Vec<u8>) -> (r: Option<JobMeta>)
    ensures
        r matches Some(m) ==> v@ == spec_meta_json(m),
        r is None ==> !spec_has_meta(v@),
{
    let len: usize = v.len();
    let ghost hyp = spec_has_meta(v@);
    let ghost hm: JobMeta = if hyp {
        choose|m: JobMeta| v@ == #[trigger] spec_meta_json(m)
    } else {
        vstd::pervasive::arbitrary()
    };
    let (id, schema_version, command, created_at, root, p9) = match parse_meta_head(
        v,
        Ghost(hyp),
        Ghost(hm),
    ) {
        Some(t) => t,
        None => {
                proof {
                    if hyp {
                        assert(false);
                    }
                    assert(!spec_has_meta(v@));
                }
                return None;
        },
    };
    let (env_keys, env_vars, mask, cwd, p18) = match parse_meta_tail(
        v,
        p9,
        Ghost(hyp),
        Ghost(hm),
    ) {
        Some(t) => t,
        None => {
                proof {
                    if hyp {
                        assert(false);
                    }
                    assert(!spec_has_meta(v@));
                }
                return None;
        },
    };
    let m = JobMeta {
        job: JobMetaJob { id },
        schema_version,
        command,
        created_at,
        root,
        env_keys,
        env_vars,
        mask,
        cwd,
    };
    proof {
        crate::jsonparse::lemma_split_at2(v@, 0, p9 as int, p18 as int);
        assert(v@.subrange(0, p18 as int) == spec_meta_json(m));
        assert(v@.subrange(0, v@.len() as int) =~= v@);
        assert(v@ == spec_meta_json(m));
    }
    Some(m)
}

impl JobDir {
    /// Build the initial job state: `running`, the supervisor's pid, no
    /// result yet.  On the platform that manages process trees through a
    /// named kernel job object, the deterministic object name
    /// `AgentExec-<job_id>` is recorded immediately so that readers find
    /// it without waiting for the supervisor's own write.
    pub fn init_state(&self, pid: u32, started_at: &str, updated_at: &str, windows: bool) -> (r:
        JobState)
        ensures
            r.job.id@ == self.job_id@,
            r.job.status == JobStatus::Running,
            r.job.started_at@ == started_at@,
            r.result.exit_code is None,
            r.result.signal is None,
            r.result.duration_ms is None,
            r.pid == Some(pid),
            r.finished_at is None,
            r.updated_at@ == updated_at@,
            windows ==> (r.windows_job_name matches Some(n) && n@ == "AgentExec-"@
                + self.job_id@),
            !windows ==> r.windows_job_name is None,
    {
        let windows_job_name: Option<String> = if windows {
            let mut n = String::from_str("AgentExec-");
            n.append(self.job_id.as_str());
            Some(n)
        } else {
            None
        };
        JobState {
            job: JobStateJob {
                id: self.job_id.clone(),
                status: JobStatus::Running,
                started_at: String::from_str(started_at),
            },
            result: JobStateResult { exit_code: None, signal: None, duration_ms: None },
            pid: Some(pid),
            finished_at: None,
            updated_at: String::from_str(updated_at),
            windows_job_name,
        }
    }
}

} // verus!
