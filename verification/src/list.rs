//! The `list` sub-command: enumerate job directories, read each job's
//! metadata and state, filter, sort and render.
//!
//! By default only jobs created from the caller's working directory are
//! listed; `--cwd <PATH>` overrides the directory and `--all` disables
//! the filter.  Jobs sort by `started_at` descending with `job_id`
//! descending as the tie-break, so a listing is stable for a given
//! snapshot of the store.  A root that does not exist yields an empty
//! listing, not an error.

use vstd::prelude::*;
use vstd::relations::sorted_by;
use vstd::string::StringSliceAdditionalSpecFns;
use crate::jobstore::{
    parse_meta, parse_state, spec_has_meta, spec_has_state, spec_meta_json, spec_state_json,
};
use crate::json::no_newline;
use crate::order::{bytes_cmp, lemma_lex_total, lemma_lex_trans, lex_le, lex_lt};
use crate::schema::{
    spec_list_json, spec_status_str, render_list, JobMeta, JobState, JobSummary, ListData,
};

verus! {

/// Options for the `list` sub-command.
#[derive(Debug)]
pub struct ListOpts<'a> {
    pub root: Option<&'a str>,
    /// Maximum number of jobs to return; 0 means no limit.
    pub limit: u64,
    /// Optional state filter: running, exited, killed, failed, unknown.
    pub state: Option<&'a str>,
    /// Only jobs created from this directory; conflicts with `all`.
    pub cwd: Option<&'a str>,
    /// Disable directory filtering; conflicts with `cwd`.
    pub all: bool,
}

/// One directory entry under the jobs root, as read from disk: whether
/// it is a directory, and the raw contents of its two JSON files when
/// they could be read.
#[derive(Debug)]
pub struct ListEntry {
    pub is_dir: bool,
    pub meta_bytes: Option<Vec<u8>>,
    pub state_bytes: Option<Vec<u8>>,
}

/// Whether the directory filter keeps a job: no filter keeps all; a
/// filter keeps exactly the jobs whose recorded directory matches it.
/// Jobs without a recorded directory never match a filter.
pub open spec fn spec_cwd_keep(meta_cwd: Option<Seq<char>>, filter: Option<Seq<char>>) -> bool {
    match filter {
        None => true,
        Some(f) => meta_cwd matches Some(c) && c == f,
    }
}

/// The view of an optional recorded directory.
pub open spec fn spec_opt_view(o: Option<String>) -> Option<Seq<char>> {
    match o {
        Some(c) => Some(c@),
        None => None,
    }
}

/// The summaries a directory filter keeps, in order: each job comes
/// paired with its recorded directory.
pub open spec fn spec_filter_cwd(
    js: Seq<(JobSummary, Option<String>)>,
    f: Option<Seq<char>>,
) -> Seq<JobSummary>
    decreases js.len(),
{
    if js.len() == 0 {
        Seq::<JobSummary>::empty()
    } else {
        spec_filter_cwd(js.drop_last(), f) + if spec_cwd_keep(spec_opt_view(js.last().1), f) {
            seq![js.last().0]
        } else {
            Seq::<JobSummary>::empty()
        }
    }
}

/// Listing with `--all` shows a superset of any filtered listing:
/// every job a directory filter keeps appears in the unfiltered result.
pub proof fn lemma_all_superset(js: Seq<(JobSummary, Option<String>)>, f: Option<Seq<char>>)
    ensures
        forall|x: JobSummary|
            spec_filter_cwd(js, f).contains(x) ==> #[trigger] spec_filter_cwd(
                js,
                None,
            ).contains(x),
    decreases js.len(),
{
    if js.len() > 0 {
        lemma_all_superset(js.drop_last(), f);
        assert forall|x: JobSummary|
            spec_filter_cwd(js, f).contains(x) implies #[trigger] spec_filter_cwd(
            js,
            None,
        ).contains(x) by {
            let ff = spec_filter_cwd(js, f);
            let fdl = spec_filter_cwd(js.drop_last(), f);
            let adl = spec_filter_cwd(js.drop_last(), None);
            let all = spec_filter_cwd(js, None);
            let w = choose|w: int| 0 <= w < ff.len() && ff[w] == x;
            assert(all =~= adl + seq![js.last().0]);
            if w < fdl.len() {
                assert(fdl[w] == x);
                assert(fdl.contains(x));
                assert(adl.contains(x));
                let w2 = choose|w2: int| 0 <= w2 < adl.len() && adl[w2] == x;
                assert(all[w2] == x);
            } else {
                assert(x == js.last().0);
                assert(all[all.len() - 1] == x);
            }
        }
    }
}

/// Keep only the summaries whose recorded directory the filter accepts.
pub fn filter_by_cwd(v: Vec<(JobSummary, Option<String>)>, filter: Option<&str>) -> (r: Vec<
    JobSummary,
>)
    ensures
        r@ == spec_filter_cwd(
            v@,
            match filter {
                Some(f) => Some(f@),
                None => None,
            },
        ),
{
    let ghost fv: Option<Seq<char>> = match filter {
        Some(f) => Some(f@),
        None => None,
    };
    let ghost orig = v@;
    let mut v = v;
    let n0: usize = v.len();
    proof {
        assert(orig.len() == n0 as int);
    }
    let mut out: Vec<JobSummary> = Vec::new();
    let mut i: usize = 0;
    proof {
        assert(out@ =~= spec_filter_cwd(orig.take(0), fv));
        assert(v@ =~= orig.skip(0));
    }
    while v.len() > 0
        invariant
            0 <= i <= orig.len(),
            orig.len() <= usize::MAX,
            v@ == orig.skip(i as int),
            fv == (match filter {
                Some(f) => Some(f@),
                None => None,
            }),
            out@ == spec_filter_cwd(orig.take(i as int), fv),
        decreases v@.len(),
    {
        let x = v.remove(0);
        proof {
            assert(orig.skip(i as int)[0] == orig[i as int]);
            assert(x == orig[i as int]);
            assert(v@ =~= orig.skip(i + 1));
            assert(orig.take(i + 1).drop_last() =~= orig.take(i as int));
            assert(orig.take(i + 1).last() == orig[i as int]);
        }
        let keep = cwd_keep(&x.1, filter);
        if keep {
            out.push(x.0);
        }
        proof {
            assert(out@ =~= spec_filter_cwd(orig.take(i + 1), fv));
        }
        i = i + 1;
    }
    proof {
        assert(orig.skip(i as int).len() == 0);
        assert(orig.take(i as int) =~= orig);
    }
    out
}

fn cwd_keep(meta_cwd: &Option<String>, filter: Option<&str>) -> (r: bool)
    ensures
        r == spec_cwd_keep(
            match meta_cwd {
                Some(c) => Some(c@),
                None => None,
            },
            match filter {
                Some(f) => Some(f@),
                None => None,
            },
        ),
{
    match filter {
        None => true,
        Some(f) => match meta_cwd {
            Some(c) => crate::strbytes::str_eq(c.as_str(), f),
            None => false,
        },
    }
}

/// Listing order: `a` comes no later than `b` when `a`'s key —
/// `started_at`, then `job_id` — is lexicographically no smaller.
pub open spec fn spec_list_before(a: JobSummary, b: JobSummary) -> bool {
    let sa = vstd::utf8::encode_utf8(a.started_at@);
    let sb = vstd::utf8::encode_utf8(b.started_at@);
    let ia = vstd::utf8::encode_utf8(a.job_id@);
    let ib = vstd::utf8::encode_utf8(b.job_id@);
    lex_lt(sb, sa) || (sb == sa && lex_le(ib, ia))
}

/// The listing order as a relation value.
pub open spec fn spec_list_order() -> spec_fn(JobSummary, JobSummary) -> bool {
    |a: JobSummary, b: JobSummary| spec_list_before(a, b)
}

proof fn lemma_before_total(a: JobSummary, b: JobSummary)
    ensures
        spec_list_before(a, b) || spec_list_before(b, a),
{
    let sa = vstd::utf8::encode_utf8(a.started_at@);
    let sb = vstd::utf8::encode_utf8(b.started_at@);
    let ia = vstd::utf8::encode_utf8(a.job_id@);
    let ib = vstd::utf8::encode_utf8(b.job_id@);
    lemma_lex_total(sa, sb);
    lemma_lex_total(ia, ib);
}

proof fn lemma_before_trans(a: JobSummary, b: JobSummary, c: JobSummary)
    requires
        spec_list_before(a, b),
        spec_list_before(b, c),
    ensures
        spec_list_before(a, c),
{
    let sa = vstd::utf8::encode_utf8(a.started_at@);
    let sb = vstd::utf8::encode_utf8(b.started_at@);
    let sc = vstd::utf8::encode_utf8(c.started_at@);
    let ia = vstd::utf8::encode_utf8(a.job_id@);
    let ib = vstd::utf8::encode_utf8(b.job_id@);
    let ic = vstd::utf8::encode_utf8(c.job_id@);
    lemma_lex_total(sa, sb);
    lemma_lex_total(sb, sc);
    lemma_lex_total(sa, sc);
    if lex_lt(sb, sa) && lex_lt(sc, sb) {
        lemma_lex_trans(sc, sb, sa);
    }
    if sb == sa && sc == sb {
        lemma_lex_total(ia, ib);
        lemma_lex_total(ib, ic);
        if lex_lt(ib, ia) && lex_lt(ic, ib) {
            lemma_lex_trans(ic, ib, ia);
        }
    }
}

/// Whether `a` comes no later than `b` in the listing.
fn list_before(a: &JobSummary, b: &JobSummary) -> (r: bool)
    ensures
        r == spec_list_before(*a, *b),
{
    proof {
        lemma_lex_total(
            vstd::utf8::encode_utf8(b.started_at@),
            vstd::utf8::encode_utf8(a.started_at@),
        );
        lemma_lex_total(vstd::utf8::encode_utf8(b.job_id@), vstd::utf8::encode_utf8(a.job_id@));
    }
    let c = bytes_cmp(b.started_at.as_str().as_bytes(), a.started_at.as_str().as_bytes());
    if c == -1 {
        true
    } else if c == 1 {
        false
    } else {
        let d = bytes_cmp(b.job_id.as_str().as_bytes(), a.job_id.as_str().as_bytes());
        d != 1
    }
}

proof fn lemma_insert_multiset(v: Seq<JobSummary>, p: int, x: JobSummary)
    requires
        0 <= p <= v.len(),
    ensures
        v.insert(p, x).to_multiset() == v.to_multiset().insert(x),
{
    broadcast use vstd::seq_lib::group_to_multiset_ensures;

    let w = v.insert(p, x);
    assert(w =~= v.take(p).push(x) + v.skip(p));
    assert(v =~= v.take(p) + v.skip(p));
    vstd::seq_lib::lemma_multiset_commutative(v.take(p).push(x), v.skip(p));
    vstd::seq_lib::lemma_multiset_commutative(v.take(p), v.skip(p));
    assert(v.take(p).push(x).to_multiset() =~= v.take(p).to_multiset().insert(x));
    assert(w.to_multiset() =~= v.to_multiset().insert(x));
}

/// Sort job summaries into listing order: `started_at` descending,
/// `job_id` descending as the tie-break.  The result is a permutation
/// of the input, so a listing is stable for a given store snapshot.
pub fn sort_summaries(v: &mut Vec<JobSummary>)
    ensures
        sorted_by(final(v)@, spec_list_order()),
        final(v)@.to_multiset() == old(v)@.to_multiset(),
{
    broadcast use vstd::seq_lib::group_to_multiset_ensures;

    let n: usize = v.len();
    let mut i: usize = 1;
    if n == 0 {
        return;
    }
    while i < n
        invariant
            1 <= i <= n,
            v@.len() == n,
            sorted_by(v@.take(i as int), spec_list_order()),
            v@.to_multiset() == old(v)@.to_multiset(),
        decreases n - i,
    {
        let ghost v0 = v@;
        let x = v.remove(i);
        let ghost v1 = v@;
        proof {
            assert(v1 =~= v0.remove(i as int));
            assert(v1.take(i as int) =~= v0.take(i as int));
        }
        let mut p: usize = 0;
        while p < i && list_before(&v[p], &x)
            invariant
                0 <= p <= i,
                i <= v@.len(),
                v@ == v1,
                forall|k: int| 0 <= k < p ==> spec_list_before(#[trigger] v@[k], x),
            decreases i - p,
        {
            p = p + 1;
        }
        proof {
            if p < i {
                lemma_before_total(v1[p as int], x);
            }
        }
        v.insert(p, x);
        proof {
            let w = v@;
            assert(w =~= v1.insert(p as int, x));
            lemma_insert_multiset(v1, p as int, x);
            v0.to_multiset_ensures();
            assert(v1 == v0.remove(i as int));
            assert(v1.to_multiset() =~= v0.to_multiset().remove(v0[i as int]));
            assert(x == v0[i as int]);
            assert(v0.contains(v0[i as int]));
            assert(v0.to_multiset().count(v0[i as int]) > 0);
            assert(v0.to_multiset().remove(v0[i as int]).insert(v0[i as int])
                =~= v0.to_multiset());
            assert(w.to_multiset() =~= v0.to_multiset());
            // The extended prefix stays sorted: the first `p` elements
            // come before `x`, and `x` comes before everything from `p`.
            let pre = w.take(i + 1);
            assert forall|a: int, b: int|
                0 <= a < b < pre.len() implies #[trigger] spec_list_order()(
                pre[a],
                pre[b],
            ) by {
                let old_pre = v1.take(i as int);
                assert(forall|k: int| 0 <= k < p ==> pre[k] == v1[k]);
                assert(pre[p as int] == x);
                assert(forall|k: int| p < k < pre.len() ==> pre[k] == v1[k - 1]);
                assert(forall|k: int| 0 <= k < i ==> v1[k] == old_pre[k]);
                assert(sorted_by(old_pre, spec_list_order()));
                if b < p {
                    assert(spec_list_order()(old_pre[a], old_pre[b]));
                } else if a < p && b == p {
                    assert(spec_list_before(pre[a], x));
                } else if a < p && b > p {
                    assert(spec_list_order()(old_pre[a], old_pre[b - 1]));
                } else if a == p && b > p {
                    // x comes before everything at or after p.
                    if p < i {
                        assert(spec_list_before(x, v1[p as int]));
                        if b - 1 > p {
                            assert(spec_list_order()(old_pre[p as int], old_pre[b - 1]));
                            lemma_before_trans(x, v1[p as int], v1[b - 1]);
                        }
                    }
                } else {
                    assert(a > p && b > p);
                    assert(spec_list_order()(old_pre[a - 1], old_pre[b - 1]));
                }
            }
            assert(sorted_by(w.take(i + 1), spec_list_order()));
        }
        i = i + 1;
    }
    proof {
        assert(v@.take(n as int) =~= v@);
    }
}

/// The summary `list` shows for one job: metadata fields, and state
/// fields when a state file was readable — `unknown` otherwise.
pub fn summary_of(meta: &crate::schema::JobMeta, state: Option<&JobState>) -> (r: JobSummary)
    ensures
        r.job_id@ == meta.job.id@,
        r.started_at@ == meta.created_at@,
        state matches Some(st) ==> {
            &&& r.state@ == spec_status_str(st.job.status)
            &&& r.exit_code == st.result.exit_code
            &&& (r.finished_at is Some <==> st.finished_at is Some)
            &&& (r.finished_at matches Some(f) ==> st.finished_at matches Some(g) && f@ == g@)
            &&& (r.updated_at matches Some(u) && u@ == st.updated_at@)
        },
        state is None ==> r.state@ == "unknown"@ && r.exit_code is None && r.finished_at is None
            && r.updated_at is None,
{
    match state {
        Some(st) => JobSummary {
            job_id: meta.job.id.clone(),
            state: String::from_str(st.job.status.as_str()),
            exit_code: st.result.exit_code,
            started_at: meta.created_at.clone(),
            finished_at: match &st.finished_at {
                Some(f) => Some(f.clone()),
                None => None,
            },
            updated_at: Some(st.updated_at.clone()),
        },
        None => JobSummary {
            job_id: meta.job.id.clone(),
            state: String::from_str("unknown"),
            exit_code: None,
            started_at: meta.created_at.clone(),
            finished_at: None,
            updated_at: None,
        },
    }
}

/// The summaries whose state name equals `f`, in order.
pub open spec fn spec_filter_state(js: Seq<JobSummary>, f: Seq<char>) -> Seq<JobSummary>
    decreases js.len(),
{
    if js.len() == 0 {
        Seq::<JobSummary>::empty()
    } else {
        spec_filter_state(js.drop_last(), f) + if js.last().state@ == f {
            seq![js.last()]
        } else {
            Seq::<JobSummary>::empty()
        }
    }
}

/// Keep only the summaries in the given state.
pub fn filter_by_state(v: Vec<JobSummary>, f: &str) -> (r: Vec<JobSummary>)
    ensures
        r@ == spec_filter_state(v@, f@),
{
    let ghost orig = v@;
    let mut v = v;
    let n0: usize = v.len();
    proof {
        assert(orig.len() == n0 as int);
    }
    let mut out: Vec<JobSummary> = Vec::new();
    let mut i: usize = 0;
    proof {
        assert(out@ =~= spec_filter_state(orig.take(0), f@));
        assert(v@ =~= orig.skip(0));
    }
    while v.len() > 0
        invariant
            0 <= i <= orig.len(),
            orig.len() <= usize::MAX,
            v@ == orig.skip(i as int),
            out@ == spec_filter_state(orig.take(i as int), f@),
        decreases v@.len(),
    {
        let x = v.remove(0);
        proof {
            assert(orig.skip(i as int)[0] == orig[i as int]);
            assert(x == orig[i as int]);
            assert(v@ =~= orig.skip(i + 1));
            assert(orig.take(i + 1).drop_last() =~= orig.take(i as int));
            assert(orig.take(i + 1).last() == orig[i as int]);
        }
        let keep = crate::strbytes::str_eq(x.state.as_str(), f);
        if keep {
            out.push(x);
        }
        proof {
            assert(out@ =~= spec_filter_state(orig.take(i + 1), f@));
        }
        i = i + 1;
    }
    proof {
        assert(orig.skip(i as int).len() == 0);
        assert(orig.take(i as int) =~= orig);
    }
    out
}

/// The state half of one listed summary: when the entry holds a
/// canonical `state.json`, the summary shows that state's fields;
/// otherwise it shows `unknown` with nothing else set.
pub open spec fn spec_entry_state(e: ListEntry, s: JobSummary) -> bool {
    if e.state_bytes is Some && spec_has_state(e.state_bytes->0@) {
        exists|st: JobState|
            {
                &&& #[trigger] spec_state_json(st) == e.state_bytes->0@
                &&& s.state@ == spec_status_str(st.job.status)
                &&& s.exit_code == st.result.exit_code
                &&& (s.finished_at is Some <==> st.finished_at is Some)
                &&& (s.finished_at matches Some(f) ==> (st.finished_at matches Some(g) && f@
                    == g@))
                &&& (s.updated_at matches Some(u) && u@ == st.updated_at@)
            }
    } else {
        s.state@ == "unknown"@ && s.exit_code is None && s.finished_at is None
            && s.updated_at is None
    }
}

/// One listed summary comes from one directory entry: its identifying
/// fields are those of the entry's canonical metadata, its recorded
/// directory is the metadata's, and its state half follows the entry's
/// state file.
pub open spec fn spec_entry_summary(e: ListEntry, p: (JobSummary, Option<String>)) -> bool {
    exists|m: JobMeta|
        {
            &&& #[trigger] spec_meta_json(m) == e.meta_bytes->0@
            &&& e.meta_bytes is Some
            &&& p.0.job_id@ == m.job.id@
            &&& p.0.started_at@ == m.created_at@
            &&& spec_opt_view(p.1) == spec_opt_view(m.cwd)
            &&& spec_entry_state(e, p.0)
        }
}

/// The collected summaries correspond to the entries, in order: one
/// pair for exactly each directory entry holding canonical metadata,
/// and nothing else.
pub open spec fn spec_collected_match(
    entries: Seq<ListEntry>,
    c: Seq<(JobSummary, Option<String>)>,
) -> bool
    decreases entries.len(),
{
    if entries.len() == 0 {
        c.len() == 0
    } else {
        let e = entries.last();
        if e.is_dir && e.meta_bytes is Some && spec_has_meta(e.meta_bytes->0@) {
            &&& c.len() > 0
            &&& spec_collected_match(entries.drop_last(), c.drop_last())
            &&& spec_entry_summary(e, c.last())
        } else {
            spec_collected_match(entries.drop_last(), c)
        }
    }
}

/// The summaries in the given state when one is asked for, all of them
/// otherwise.
pub open spec fn spec_filter_state_opt(js: Seq<JobSummary>, f: Option<Seq<char>>) -> Seq<
    JobSummary,
> {
    match f {
        Some(fv) => spec_filter_state(js, fv),
        None => js,
    }
}

/// The number of directory entries that do not carry readable,
/// canonical job metadata: these are reported as skipped.
pub open spec fn spec_skipped_count(entries: Seq<ListEntry>) -> int
    decreases entries.len(),
{
    if entries.len() == 0 {
        0
    } else {
        spec_skipped_count(entries.drop_last()) + if entries.last().is_dir && !(
        entries.last().meta_bytes matches Some(b) && crate::jobstore::spec_has_meta(b@)) {
            1int
        } else {
            0int
        }
    }
}

/// Execute `list` on what was read from disk.
///
/// `root_exists` is false when the jobs root is absent, which yields an
/// empty listing and no error.  Each entry carries the raw bytes of one
/// directory's `meta.json` and `state.json`; unreadable or unparsable
/// metadata counts into `skipped`, a missing or unparsable state shows
/// as `unknown`.  The result is filtered, sorted into listing order and
/// cut to `limit`.
pub fn execute(
    root: &str,
    root_exists: bool,
    cwd_filter: Option<&str>,
    state_filter: Option<&str>,
    limit: u64,
    entries: &Vec<ListEntry>,
) -> (r: (ListData, Vec<u8>))
    ensures
        r.0.root@ == root@,
        r.1@ == spec_list_json(r.0),
        no_newline(r.1@),
        !root_exists ==> r.0.jobs@.len() == 0 && r.0.truncated == false && r.0.skipped == 0,
        root_exists ==> r.0.skipped == spec_skipped_count(entries@),
        sorted_by(r.0.jobs@, spec_list_order()),
        limit > 0 ==> r.0.jobs@.len() <= limit,
        r.0.truncated ==> limit > 0 && r.0.jobs@.len() == limit,
        root_exists ==> exists|collected: Seq<(JobSummary, Option<String>)>, full: Seq<
            JobSummary,
        >|
            {
                &&& #[trigger] spec_collected_match(entries@, collected)
                &&& #[trigger] sorted_by(full, spec_list_order())
                &&& full.to_multiset() == spec_filter_state_opt(
                    spec_filter_cwd(
                        collected,
                        match cwd_filter {
                            Some(c) => Some(c@),
                            None => None,
                        },
                    ),
                    match state_filter {
                        Some(f) => Some(f@),
                        None => None,
                    },
                ).to_multiset()
                &&& r.0.truncated == (limit > 0 && full.len() > limit)
                &&& (if limit > 0 && full.len() > limit {
                    r.0.jobs@ == full.take(limit as int)
                } else {
                    r.0.jobs@ == full
                })
            },
{
    let root_s = String::from_str(root);
    if !root_exists {
        let data = ListData { root: root_s, jobs: Vec::new(), truncated: false, skipped: 0 };
        let rendered = render_list(&data);
        proof {
            assert(sorted_by(data.jobs@, spec_list_order()));
        }
        return (data, rendered);
    }
    let mut collected: Vec<(JobSummary, Option<String>)> = Vec::new();
    let mut skipped: u64 = 0;
    let n: usize = entries.len();
    let mut i: usize = 0;
    proof {
        assert(entries@.take(0).len() == 0);
    }
    while i < n
        invariant
            0 <= i <= n,
            n == entries@.len(),
            skipped <= i,
            skipped as int == spec_skipped_count(entries@.take(i as int)),
            spec_collected_match(entries@.take(i as int), collected@),
        decreases n - i,
    {
        let e = &entries[i];
        proof {
            assert(entries@.take(i + 1).drop_last() =~= entries@.take(i as int));
            assert(entries@.take(i + 1).last() == entries@[i as int]);
        }
        let ghost collected0 = collected@;
        if e.is_dir {
            match &e.meta_bytes {
                None => {
                    skipped = skipped + 1;
                },
                Some(mb) => {
                    match parse_meta(mb) {
                        None => {
                            // Nothing canonical renders to these bytes.
                            skipped = skipped + 1;
                        },
                        Some(meta) => {
                            proof {
                                assert(spec_has_meta(mb@));
                            }
                            let ghost gmeta = meta;
                            let st = match &e.state_bytes {
                                Some(sb) => parse_state(sb),
                                None => None,
                            };
                            proof {
                                match &e.state_bytes {
                                    Some(sb) => {
                                        if st is Some {
                                            assert(spec_has_state(sb@));
                                        } else {
                                            assert(!spec_has_state(sb@));
                                        }
                                    },
                                    None => {},
                                }
                            }
                            let summary = match &st {
                                Some(s) => summary_of(&meta, Some(s)),
                                None => summary_of(&meta, None),
                            };
                            let ghost gsummary = summary;
                            collected.push((summary, meta.cwd));
                            proof {
                                // The new pair is exactly this entry's
                                // contribution.
                                assert(collected@.drop_last() =~= collected0);
                                assert(collected@.last() == (gsummary, gmeta.cwd));
                                assert(spec_entry_state(entries@[i as int], gsummary));
                                assert(spec_entry_summary(
                                    entries@[i as int],
                                    (gsummary, gmeta.cwd),
                                )) by {
                                    assert(spec_meta_json(gmeta) == entries@[i as int]
                                        .meta_bytes->0@);
                                }
                            }
                        },
                    }
                },
            }
        }
        i = i + 1;
    }
    proof {
        assert(entries@.take(n as int) =~= entries@);
    }
    let ghost gcollected = collected@;
    let jobs = filter_by_cwd(collected, cwd_filter);
    let jobs = match state_filter {
        Some(f) => filter_by_state(jobs, f),
        None => jobs,
    };
    proof {
        assert(jobs@ == spec_filter_state_opt(
            spec_filter_cwd(
                gcollected,
                match cwd_filter {
                    Some(c) => Some(c@),
                    None => None,
                },
            ),
            match state_filter {
                Some(f) => Some(f@),
                None => None,
            },
        ));
    }
    let mut jobs = jobs;
    sort_summaries(&mut jobs);
    let ghost full = jobs@;
    // Apply the limit.
    let truncated: bool = limit > 0 && (jobs.len() as u64) > limit;
    if truncated {
        let keep: usize = limit as usize;
        let ghost sorted_full = jobs@;
        jobs.truncate(keep);
        proof {
            assert(jobs@ =~= sorted_full.take(keep as int));
            assert forall|a: int, b: int|
                0 <= a < b < jobs@.len() implies #[trigger] spec_list_order()(
                jobs@[a],
                jobs@[b],
            ) by {
                assert(spec_list_order()(sorted_full[a], sorted_full[b]));
            }
        }
    }
    proof {
        assert(sorted_by(full, spec_list_order()));
        assert(spec_collected_match(entries@, gcollected));
        assert(full.to_multiset() == spec_filter_state_opt(
            spec_filter_cwd(
                gcollected,
                match cwd_filter {
                    Some(c) => Some(c@),
                    None => None,
                },
            ),
            match state_filter {
                Some(f) => Some(f@),
                None => None,
            },
        ).to_multiset());
    }
    let data = ListData { root: root_s, jobs, truncated, skipped };
    let rendered = render_list(&data);
    (data, rendered)
}

} // verus!
