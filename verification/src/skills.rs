//! Skill installation support: source specifications, the lock file,
//! and the naming rules for installed skills.  Copying files and
//! touching the filesystem stay in the unverified shell.

use vstd::prelude::*;
use vstd::string::StringSliceAdditionalSpecFns;
use crate::json::{push_json_str, push_lit, spec_json_string};
use crate::strbytes::str_eq;

verus! {

/// Error for an unrecognised skill source scheme.
#[derive(Debug, Clone, PartialEq)]
pub struct UnknownSourceScheme {
    pub scheme: String,
}

impl UnknownSourceScheme {
    /// The message an error envelope carries for this condition.
    pub fn message(&self) -> (r: String)
        ensures
            r@ == "unknown_source_scheme: "@ + self.scheme@
                + " (supported: self, local:<path>)"@,
    {
        let mut s = String::from_str("unknown_source_scheme: ");
        s.append(self.scheme.as_str());
        s.append(" (supported: self, local:<path>)");
        s
    }
}

/// One embedded file of a built-in skill: its path within the skill
/// directory and its content.
#[derive(Debug, Clone, PartialEq)]
pub struct EmbeddedFile {
    pub relative_path: String,
    pub content: Vec<u8>,
}

/// Skill installation source.
#[derive(Debug, Clone, PartialEq)]
pub enum Source {
    /// The built-in skill embedded in the binary.
    SelfEmbedded,
    /// A skill directory on the local filesystem.
    Local(String),
}

impl Source {
    /// Parse a source string: `self` names the embedded skill,
    /// `local:<path>` a directory; anything else is the unknown-scheme
    /// error carrying the original string.
    pub fn parse(s: &str) -> (r: Result<Source, UnknownSourceScheme>)
        ensures
            s@ == "self"@ ==> r == Result::<Source, UnknownSourceScheme>::Ok(
                Source::SelfEmbedded,
            ),
            s@ != "self"@ && s@.len() >= 6 && s@.take(6) == "local:"@ ==> (r matches Ok(src)
                && src matches Source::Local(p) && p@ == s@.skip(6)),
            s@ != "self"@ && !(s@.len() >= 6 && s@.take(6) == "local:"@) ==> (r matches Err(e)
                && e.scheme@ == s@),
    {
        if str_eq(s, "self") {
            return Ok(Source::SelfEmbedded);
        }
        let n: usize = s.unicode_len();
        if n >= 6 {
            let prefix = s.substring_char(0, 6);
            if str_eq(prefix, "local:") {
                let path = String::from_str(s.substring_char(6, n));
                proof {
                    assert(path@ =~= s@.skip(6));
                }
                return Ok(Source::Local(path));
            }
        }
        Err(UnknownSourceScheme { scheme: String::from_str(s) })
    }
}

/// Index of the last `/` in `p`, or -1 when there is none.
pub open spec fn spec_last_slash(p: Seq<char>) -> int
    decreases p.len(),
{
    if p.len() == 0 {
        -1
    } else if p.last() == '/' {
        p.len() - 1
    } else {
        spec_last_slash(p.drop_last())
    }
}

/// The name an installed skill takes: the embedded skill's fixed name,
/// or the last path segment of a local source; `None` when the local
/// path ends in a separator.
pub fn install_name(source: &Source) -> (r: Option<String>)
    ensures
        source is SelfEmbedded ==> (r matches Some(nm) && nm@ == "agent-exec"@),
        (source is Local && spec_last_slash(source->Local_0@) < source->Local_0@.len() - 1
            && source->Local_0@.len() > 0) ==> (r matches Some(nm) && nm@
            == source->Local_0@.skip(spec_last_slash(source->Local_0@) + 1)),
        (source is Local && (source->Local_0@.len() == 0 || spec_last_slash(source->Local_0@)
            == source->Local_0@.len() - 1)) ==> r is None,
{
    match source {
        Source::SelfEmbedded => Some(String::from_str("agent-exec")),
        Source::Local(p) => {
            let n: usize = p.as_str().unicode_len();
            if n == 0 {
                return None;
            }
            let mut j: usize = n;
            while j > 0 && p.as_str().get_char(j - 1) != '/'
                invariant
                    0 <= j <= n,
                    n == p@.len(),
                    forall|k: int| j <= k < n ==> p@[k] != '/',
                decreases j,
            {
                j = j - 1;
            }
            proof {
                lemma_last_slash(p@, j as int);
            }
            if j == n {
                // The path ends in a separator: no usable name.
                return None;
            }
            let nm = String::from_str(p.as_str().substring_char(j, n));
            proof {
                assert(nm@ =~= p@.skip(spec_last_slash(p@) + 1));
            }
            Some(nm)
        },
    }
}

proof fn lemma_last_slash(p: Seq<char>, j: int)
    requires
        0 <= j <= p.len(),
        forall|k: int| j <= k < p.len() ==> p[k] != '/',
        j == 0 || p[j - 1] == '/',
    ensures
        spec_last_slash(p) == j - 1,
    decreases p.len() - j,
{
    if j < p.len() {
        lemma_last_slash(p.drop_last(), j);
    }
}

/// One entry of the skill lock file.
#[derive(Debug, Clone, PartialEq)]
pub struct LockEntry {
    /// Skill name, the directory name it installs under.
    pub name: String,
    /// Source string used at installation.
    pub source: String,
    /// Installation timestamp.
    pub installed_at: String,
    /// Absolute path of the installed skill directory.
    pub path: String,
}

/// The skill lock file: the ordered list of installed skills.
#[derive(Debug, PartialEq)]
pub struct LockFile {
    pub skills: Vec<LockEntry>,
}

/// Index of the first entry named `name`, or the length when none is.
pub open spec fn spec_find_name(l: Seq<LockEntry>, name: Seq<char>) -> int
    decreases l.len(),
{
    if l.len() == 0 {
        0
    } else if l[0].name@ == name {
        0
    } else {
        1 + spec_find_name(l.drop_first(), name)
    }
}

proof fn lemma_find_name(l: Seq<LockEntry>, name: Seq<char>, i: int)
    requires
        0 <= i <= l.len(),
        forall|k: int| 0 <= k < i ==> #[trigger] l[k].name@ != name,
        i == l.len() || l[i].name@ == name,
    ensures
        spec_find_name(l, name) == i,
    decreases i,
{
    if i > 0 {
        lemma_find_name(l.drop_first(), name, i - 1);
    }
}

impl LockFile {
    /// Update the first entry named like `entry`, or append `entry`
    /// when no entry carries that name yet.
    pub fn upsert(&mut self, entry: LockEntry)
        ensures
            ({
                let idx = spec_find_name(old(self).skills@, entry.name@);
                if idx < old(self).skills@.len() {
                    final(self).skills@ == old(self).skills@.update(idx, entry)
                } else {
                    final(self).skills@ == old(self).skills@.push(entry)
                }
            }),
    {
        let n: usize = self.skills.len();
        let mut i: usize = 0;
        while i < n && !str_eq(self.skills[i].name.as_str(), entry.name.as_str())
            invariant
                0 <= i <= n,
                n == self.skills@.len(),
                self == old(self),
                forall|k: int| 0 <= k < i ==> #[trigger] self.skills@[k].name@ != entry.name@,
            decreases n - i,
        {
            i = i + 1;
        }
        proof {
            lemma_find_name(self.skills@, entry.name@, i as int);
        }
        if i < n {
            let ghost before = self.skills@;
            self.skills.remove(i);
            self.skills.insert(i, entry);
            proof {
                assert(self.skills@ =~= before.update(i as int, entry));
            }
        } else {
            self.skills.push(entry);
        }
    }
}

/// What installing one skill produced.
#[derive(Debug, Clone, PartialEq)]
pub struct InstalledSkill {
    /// Skill name, the directory name under the skills directory.
    pub name: String,
    /// Absolute path of the installed skill directory.
    pub path: String,
    /// Source string used.
    pub source_str: String,
}

/// The `.agents` directory skills install into: under the home
/// directory with `global`, under the working directory otherwise.
/// Without a home directory a global install cannot proceed.
pub fn resolve_agents_dir(global: bool, home: Option<&str>, cwd: &str) -> (r: Result<
    String,
    String,
>)
    ensures
        global && home is None ==> (r matches Err(m) && m@ == "cannot determine home directory"@),
        (global && home is Some) ==> (r matches Ok(d) && d@ == crate::jobstore::spec_path_join(
            home->0@,
            ".agents"@,
        )),
        !global ==> (r matches Ok(d) && d@ == crate::jobstore::spec_path_join(cwd@, ".agents"@)),
{
    if global {
        match home {
            Some(h) => {
                let mut s = String::from_str(h);
                s.append("/");
                s.append(".agents");
                Ok(s)
            },
            None => Err(String::from_str("cannot determine home directory")),
        }
    } else {
        let mut s = String::from_str(cwd);
        s.append("/");
        s.append(".agents");
        Ok(s)
    }
}

// ---------- Lock file rendering ----------

/// The JSON object one lock entry renders to.
pub open spec fn spec_lock_entry_obj(e: LockEntry) -> Seq<u8> {
    ("{\"name\":").spec_bytes() + spec_json_string(e.name@) + (",\"source\":").spec_bytes()
        + spec_json_string(e.source@) + (",\"installed_at\":").spec_bytes() + spec_json_string(
        e.installed_at@,
    ) + (",\"path\":").spec_bytes() + spec_json_string(e.path@) + ("}").spec_bytes()
}

/// The comma-separated entries of the lock file's array.
pub open spec fn spec_lock_items(es: Seq<LockEntry>) -> Seq<u8>
    decreases es.len(),
{
    if es.len() == 0 {
        Seq::<u8>::empty()
    } else if es.len() == 1 {
        spec_lock_entry_obj(es[0])
    } else {
        spec_lock_entry_obj(es[0]) + seq![0x2cu8] + spec_lock_items(es.drop_first())
    }
}

/// The canonical rendering of the lock file.
pub open spec fn spec_lock_json(l: Seq<LockEntry>) -> Seq<u8> {
    ("{\"skills\":[").spec_bytes() + spec_lock_items(l) + ("]}").spec_bytes()
}

proof fn lemma_lock_items_snoc(es: Seq<LockEntry>, e: LockEntry)
    ensures
        es.len() == 0 ==> spec_lock_items(es.push(e)) == spec_lock_entry_obj(e),
        es.len() > 0 ==> spec_lock_items(es.push(e)) == spec_lock_items(es) + seq![0x2cu8]
            + spec_lock_entry_obj(e),
    decreases es.len(),
{
    if es.len() == 0 {
        assert(es.push(e)[0] == e);
        assert(spec_lock_items(es.push(e)) == spec_lock_entry_obj(e));
    } else {
        assert(es.push(e).drop_first() =~= es.drop_first().push(e));
        lemma_lock_items_snoc(es.drop_first(), e);
        if es.len() == 1 {
            assert(spec_lock_items(es.push(e)) =~= spec_lock_items(es) + seq![0x2cu8]
                + spec_lock_entry_obj(e));
        } else {
            assert(spec_lock_items(es.push(e)) =~= spec_lock_items(es) + seq![0x2cu8]
                + spec_lock_entry_obj(e));
        }
    }
}

fn push_lock_entry(out: &mut Vec<u8>, e: &LockEntry)
    ensures
        final(out)@ == old(out)@ + spec_lock_entry_obj(*e),
{
    push_lit(out, "{\"name\":");
    push_json_str(out, e.name.as_str());
    push_lit(out, ",\"source\":");
    push_json_str(out, e.source.as_str());
    push_lit(out, ",\"installed_at\":");
    push_json_str(out, e.installed_at.as_str());
    push_lit(out, ",\"path\":");
    push_json_str(out, e.path.as_str());
    push_lit(out, "}");
    proof {
        assert(out@ =~= old(out)@ + spec_lock_entry_obj(*e));
    }
}

/// Render the lock file in its canonical array format.
pub fn emit_lock(l: &LockFile) -> (r: Vec<u8>)
    ensures
        r@ == spec_lock_json(l.skills@),
{
    let mut out: Vec<u8> = Vec::new();
    push_lit(&mut out, "{\"skills\":[");
    let ghost mid = out@;
    let n: usize = l.skills.len();
    let mut i: usize = 0;
    while i < n
        invariant
            0 <= i <= n,
            n == l.skills@.len(),
            out@ == mid + spec_lock_items(l.skills@.take(i as int)),
        decreases n - i,
    {
        if i > 0 {
            out.push(0x2c);
        }
        push_lock_entry(&mut out, &l.skills[i]);
        proof {
            let prev = l.skills@.take(i as int);
            assert(l.skills@.take(i + 1) =~= prev.push(l.skills@[i as int]));
            lemma_lock_items_snoc(prev, l.skills@[i as int]);
            assert(prev.len() == i);
            assert(out@ =~= mid + spec_lock_items(l.skills@.take(i + 1)));
        }
        i = i + 1;
    }
    push_lit(&mut out, "]}");
    proof {
        assert(l.skills@.take(n as int) =~= l.skills@);
        assert(out@ =~= spec_lock_json(l.skills@));
    }
    out
}

/// Some lock entry renders exactly at `pos`, followed by `rest`.
pub open spec fn spec_has_lock_entry_at(v: Seq<u8>, pos: int) -> bool {
    exists|e: LockEntry, end: int|
        #![trigger v.subrange(pos, end), spec_lock_entry_obj(e)]
        pos < end <= v.len() && v.subrange(pos, end) == spec_lock_entry_obj(e)
}

/// The entry rendering, regrouped for a left-to-right parser.
proof fn lemma_lock_entry_shape(he: LockEntry)
    ensures
        spec_lock_entry_obj(he) == ("{\"name\":").spec_bytes() + (spec_json_string(he.name@) + ((",\"source\":").spec_bytes() + (
    spec_json_string(he.source@) + ((",\"installed_at\":").spec_bytes() + (spec_json_string(he.installed_at@)
        + ((",\"path\":").spec_bytes() + (spec_json_string(he.path@) + ("}").spec_bytes()))))))),
{
    let x1 = ("{\"name\":").spec_bytes();
    let j1 = spec_json_string(he.name@);
    let x2 = (",\"source\":").spec_bytes();
    let j2 = spec_json_string(he.source@);
    let x3 = (",\"installed_at\":").spec_bytes();
    let j3 = spec_json_string(he.installed_at@);
    let x4 = (",\"path\":").spec_bytes();
    let j4 = spec_json_string(he.path@);
    let x5 = ("}").spec_bytes();
    crate::jobstore::lemma_assoc(x1 + j1 + x2 + j2 + x3 + j3 + x4, j4, x5);
    crate::jobstore::lemma_assoc(x1 + j1 + x2 + j2 + x3 + j3, x4, (j4 + x5));
    crate::jobstore::lemma_assoc(x1 + j1 + x2 + j2 + x3, j3, (x4 + (j4 + x5)));
    crate::jobstore::lemma_assoc(x1 + j1 + x2 + j2, x3, (j3 + (x4 + (j4 + x5))));
    crate::jobstore::lemma_assoc(x1 + j1 + x2, j2, (x3 + (j3 + (x4 + (j4 + x5)))));
    crate::jobstore::lemma_assoc(x1 + j1, x2, (j2 + (x3 + (j3 + (x4 + (j4 + x5))))));
    crate::jobstore::lemma_assoc(x1, j1, (x2 + (j2 + (x3 + (j3 + (x4 + (j4 + x5)))))));
}

/// A rendered lock entry determines its fields and what follows.
#[verifier::rlimit(100)]
proof fn lemma_lock_entry_unique(ae: LockEntry, be: LockEntry, r1: Seq<u8>, r2: Seq<u8>)
    requires
        spec_lock_entry_obj(ae) + r1 == spec_lock_entry_obj(be) + r2,
    ensures
        ae.name@ == be.name@,
        ae.source@ == be.source@,
        ae.installed_at@ == be.installed_at@,
        ae.path@ == be.path@,
        r1 == r2,
{
    let s = spec_lock_entry_obj(ae) + r1;
    let a2 = spec_json_string(ae.name@) + ((",\"source\":").spec_bytes() + (spec_json_string(ae.source@)
        + ((",\"installed_at\":").spec_bytes() + (spec_json_string(ae.installed_at@) + ((",\"path\":").spec_bytes() + (
    spec_json_string(ae.path@) + (("}").spec_bytes() + r1)))))));
    let b2 = spec_json_string(be.name@) + ((",\"source\":").spec_bytes() + (spec_json_string(be.source@)
        + ((",\"installed_at\":").spec_bytes() + (spec_json_string(be.installed_at@) + ((",\"path\":").spec_bytes() + (
    spec_json_string(be.path@) + (("}").spec_bytes() + r2)))))));
    lemma_lock_entry_shape(ae);
    lemma_lock_entry_shape(be);
    assert(s =~= ("{\"name\":").spec_bytes() + a2);
    assert(spec_lock_entry_obj(be) + r2 =~= ("{\"name\":").spec_bytes() + b2);
    assert(a2 =~= s.skip(("{\"name\":").spec_bytes().len() as int));
    assert(b2 =~= (spec_lock_entry_obj(be) + r2).skip(("{\"name\":").spec_bytes().len() as int));
    crate::json::lemma_json_string_unique(
        ae.name@,
        be.name@,
        ((",\"source\":").spec_bytes() + (spec_json_string(ae.source@) + ((",\"installed_at\":").spec_bytes() + (
        spec_json_string(ae.installed_at@) + ((",\"path\":").spec_bytes() + (spec_json_string(ae.path@)
            + (("}").spec_bytes() + r1))))))),
        ((",\"source\":").spec_bytes() + (spec_json_string(be.source@) + ((",\"installed_at\":").spec_bytes() + (
        spec_json_string(be.installed_at@) + ((",\"path\":").spec_bytes() + (spec_json_string(be.path@)
            + (("}").spec_bytes() + r2))))))),
    );
    let a3 = spec_json_string(ae.source@) + ((",\"installed_at\":").spec_bytes() + (spec_json_string(
        ae.installed_at@,
    ) + ((",\"path\":").spec_bytes() + (spec_json_string(ae.path@) + (("}").spec_bytes() + r1)))));
    let b3 = spec_json_string(be.source@) + ((",\"installed_at\":").spec_bytes() + (spec_json_string(
        be.installed_at@,
    ) + ((",\"path\":").spec_bytes() + (spec_json_string(be.path@) + (("}").spec_bytes() + r2)))));
    assert(a3 =~= ((",\"source\":").spec_bytes() + a3).skip((",\"source\":").spec_bytes().len() as int));
    assert(b3 =~= ((",\"source\":").spec_bytes() + b3).skip((",\"source\":").spec_bytes().len() as int));
    crate::json::lemma_json_string_unique(
        ae.source@,
        be.source@,
        ((",\"installed_at\":").spec_bytes() + (spec_json_string(ae.installed_at@) + ((",\"path\":").spec_bytes() + (
        spec_json_string(ae.path@) + (("}").spec_bytes() + r1))))),
        ((",\"installed_at\":").spec_bytes() + (spec_json_string(be.installed_at@) + ((",\"path\":").spec_bytes() + (
        spec_json_string(be.path@) + (("}").spec_bytes() + r2))))),
    );
    let a4 = spec_json_string(ae.installed_at@) + ((",\"path\":").spec_bytes() + (spec_json_string(
        ae.path@,
    ) + (("}").spec_bytes() + r1)));
    let b4 = spec_json_string(be.installed_at@) + ((",\"path\":").spec_bytes() + (spec_json_string(
        be.path@,
    ) + (("}").spec_bytes() + r2)));
    assert(a4 =~= ((",\"installed_at\":").spec_bytes() + a4).skip((",\"installed_at\":").spec_bytes().len() as int));
    assert(b4 =~= ((",\"installed_at\":").spec_bytes() + b4).skip((",\"installed_at\":").spec_bytes().len() as int));
    crate::json::lemma_json_string_unique(
        ae.installed_at@,
        be.installed_at@,
        ((",\"path\":").spec_bytes() + (spec_json_string(ae.path@) + (("}").spec_bytes() + r1))),
        ((",\"path\":").spec_bytes() + (spec_json_string(be.path@) + (("}").spec_bytes() + r2))),
    );
    let a5 = spec_json_string(ae.path@) + (("}").spec_bytes() + r1);
    let b5 = spec_json_string(be.path@) + (("}").spec_bytes() + r2);
    assert(a5 =~= ((",\"path\":").spec_bytes() + a5).skip((",\"path\":").spec_bytes().len() as int));
    assert(b5 =~= ((",\"path\":").spec_bytes() + b5).skip((",\"path\":").spec_bytes().len() as int));
    crate::json::lemma_json_string_unique(
        ae.path@,
        be.path@,
        (("}").spec_bytes() + r1),
        (("}").spec_bytes() + r2),
    );
    assert(r1 =~= (("}").spec_bytes() + r1).skip(("}").spec_bytes().len() as int));
    assert(r2 =~= (("}").spec_bytes() + r2).skip(("}").spec_bytes().len() as int));
}

/// Parse one canonical lock entry at `pos`.
#[verifier::rlimit(100)]
fn parse_lock_entry(v: &Vec<u8>, pos: usize, Ghost(hyp): Ghost<bool>, Ghost(he): Ghost<
    LockEntry,
>, Ghost(hrest): Ghost<Seq<u8>>) -> (r: Option<(LockEntry, usize)>)
    requires
        pos <= v@.len(),
        hyp ==> v@.skip(pos as int) == spec_lock_entry_obj(he) + hrest,
    ensures
        r matches Some(ep) ==> pos < ep.1 <= v@.len() && v@.subrange(pos as int, ep.1 as int)
            == spec_lock_entry_obj(ep.0),
        (hyp && r is Some) ==> v@.skip((r->0).1 as int) == hrest,
        r is None ==> !hyp,
{
    let len: usize = v.len();
    let ghost y5b = ("}").spec_bytes() + hrest;
    let ghost y4b = spec_json_string(he.path@) + y5b;
    let ghost y4 = (",\"path\":").spec_bytes() + y4b;
    let ghost y3b = spec_json_string(he.installed_at@) + y4;
    let ghost y3 = (",\"installed_at\":").spec_bytes() + y3b;
    let ghost y2b = spec_json_string(he.source@) + y3;
    let ghost y2 = (",\"source\":").spec_bytes() + y2b;
    let ghost y1b = spec_json_string(he.name@) + y2;
    let ghost y1 = ("{\"name\":").spec_bytes() + y1b;
    proof {
        if hyp {
            lemma_lock_entry_shape(he);
            assert(spec_lock_entry_obj(he) + hrest =~= y1);
            assert(v@.skip(pos as int) == y1);
        }
    }
    proof {
        if hyp {
            crate::jsonparse::lemma_peel(v@, pos as int, ("{\"name\":").spec_bytes(), y1b);
        }
    }
    let p0 = match crate::jsonparse::expect_lit(v, pos, "{\"name\":") {
        Some(p) => p,
        None => {
                proof {
                    if hyp {
                        assert(false);
                    }
                }
                return None;
        },
    };
    proof {
        if hyp {
            assert(v@.skip(p0 as int) == y1b);
        }
    }
    proof {
        if hyp {
            crate::jsonparse::lemma_peel(v@, p0 as int, spec_json_string(he.name@), y2);
            assert(crate::jsonparse::spec_has_json_string_at(v@, p0 as int)) by {
                assert(v@.subrange(p0 as int, p0 + spec_json_string(he.name@).len())
                    == spec_json_string(he.name@));
            }
        }
    }
    let (name, p1) = match crate::jsonparse::parse_string(v, p0) {
        Some(x) => x,
        None => {
                proof {
                    if hyp {
                        assert(false);
                    }
                }
                return None;
        },
    };
    proof {
        if hyp {
            crate::jsonparse::lemma_split_skip(v@, p0 as int, p1 as int);
            crate::json::lemma_json_string_unique(name@, he.name@, v@.skip(p1 as int), y2);
            assert(v@.skip(p1 as int) == y2);
        }
    }
    proof {
        if hyp {
            crate::jsonparse::lemma_peel(v@, p1 as int, (",\"source\":").spec_bytes(), y2b);
        }
    }
    let p2 = match crate::jsonparse::expect_lit(v, p1, ",\"source\":") {
        Some(p) => p,
        None => {
                proof {
                    if hyp {
                        assert(false);
                    }
                }
                return None;
        },
    };
    proof {
        if hyp {
            assert(v@.skip(p2 as int) == y2b);
        }
    }
    proof {
        if hyp {
            crate::jsonparse::lemma_peel(v@, p2 as int, spec_json_string(he.source@), y3);
            assert(crate::jsonparse::spec_has_json_string_at(v@, p2 as int)) by {
                assert(v@.subrange(p2 as int, p2 + spec_json_string(he.source@).len())
                    == spec_json_string(he.source@));
            }
        }
    }
    let (source, p3) = match crate::jsonparse::parse_string(v, p2) {
        Some(x) => x,
        None => {
                proof {
                    if hyp {
                        assert(false);
                    }
                }
                return None;
        },
    };
    proof {
        if hyp {
            crate::jsonparse::lemma_split_skip(v@, p2 as int, p3 as int);
            crate::json::lemma_json_string_unique(source@, he.source@, v@.skip(p3 as int), y3);
            assert(v@.skip(p3 as int) == y3);
        }
    }
    proof {
        if hyp {
            crate::jsonparse::lemma_peel(v@, p3 as int, (",\"installed_at\":").spec_bytes(), y3b);
        }
    }
    let p4 = match crate::jsonparse::expect_lit(v, p3, ",\"installed_at\":") {
        Some(p) => p,
        None => {
                proof {
                    if hyp {
                        assert(false);
                    }
                }
                return None;
        },
    };
    proof {
        if hyp {
            assert(v@.skip(p4 as int) == y3b);
        }
    }
    proof {
        if hyp {
            crate::jsonparse::lemma_peel(v@, p4 as int, spec_json_string(he.installed_at@), y4);
            assert(crate::jsonparse::spec_has_json_string_at(v@, p4 as int)) by {
                assert(v@.subrange(p4 as int, p4 + spec_json_string(he.installed_at@).len())
                    == spec_json_string(he.installed_at@));
            }
        }
    }
    let (installed_at, p5) = match crate::jsonparse::parse_string(v, p4) {
        Some(x) => x,
        None => {
                proof {
                    if hyp {
                        assert(false);
                    }
                }
                return None;
        },
    };
    proof {
        if hyp {
            crate::jsonparse::lemma_split_skip(v@, p4 as int, p5 as int);
            crate::json::lemma_json_string_unique(installed_at@, he.installed_at@, v@.skip(p5 as int), y4);
            assert(v@.skip(p5 as int) == y4);
        }
    }
    proof {
        if hyp {
            crate::jsonparse::lemma_peel(v@, p5 as int, (",\"path\":").spec_bytes(), y4b);
        }
    }
    let p6 = match crate::jsonparse::expect_lit(v, p5, ",\"path\":") {
        Some(p) => p,
        None => {
                proof {
                    if hyp {
                        assert(false);
                    }
                }
                return None;
        },
    };
    proof {
        if hyp {
            assert(v@.skip(p6 as int) == y4b);
        }
    }
    proof {
        if hyp {
            crate::jsonparse::lemma_peel(v@, p6 as int, spec_json_string(he.path@), y5b);
            assert(crate::jsonparse::spec_has_json_string_at(v@, p6 as int)) by {
                assert(v@.subrange(p6 as int, p6 + spec_json_string(he.path@).len())
                    == spec_json_string(he.path@));
            }
        }
    }
    let (path, p7) = match crate::jsonparse::parse_string(v, p6) {
        Some(x) => x,
        None => {
                proof {
                    if hyp {
                        assert(false);
                    }
                }
                return None;
        },
    };
    proof {
        if hyp {
            crate::jsonparse::lemma_split_skip(v@, p6 as int, p7 as int);
            crate::json::lemma_json_string_unique(path@, he.path@, v@.skip(p7 as int), y5b);
            assert(v@.skip(p7 as int) == y5b);
        }
    }
    proof {
        if hyp {
            crate::jsonparse::lemma_peel(v@, p7 as int, ("}").spec_bytes(), hrest);
        }
    }
    let p8 = match crate::jsonparse::expect_lit(v, p7, "}") {
        Some(p) => p,
        None => {
                proof {
                    if hyp {
                        assert(false);
                    }
                }
                return None;
        },
    };
    proof {
        if hyp {
            assert(v@.skip(p8 as int) == hrest);
        }
    }
    let e = LockEntry { name, source, installed_at, path };
    proof {
        crate::jobstore::lemma_split_chain8(
            v@,
            pos as int,
            p0 as int,
            p1 as int,
            p2 as int,
            p3 as int,
            p4 as int,
            p5 as int,
            p6 as int,
            p7 as int,
            p8 as int,
        );
        assert(v@.subrange(pos as int, p8 as int) == spec_lock_entry_obj(e));
    }
    Some((e, p8))
}

/// One step of the item list: the first entry, then a separator and
/// the remaining items, or the closer when none follow.
proof fn lemma_lock_items_step(l: Seq<LockEntry>, k: int, cl: Seq<u8>)
    requires
        0 <= k < l.len(),
    ensures
        spec_lock_items(l.skip(k)) + cl == spec_lock_entry_obj(l[k]) + (if l.skip(k).len()
            == 1 {
            cl
        } else {
            seq![0x2cu8] + (spec_lock_items(l.skip(k + 1)) + cl)
        }),
{
    let rest = l.skip(k);
    assert(rest[0] == l[k]);
    if rest.len() == 1 {
        assert(spec_lock_items(rest) == spec_lock_entry_obj(rest[0]));
    } else {
        assert(spec_lock_items(rest) == spec_lock_entry_obj(rest[0]) + seq![0x2cu8]
            + spec_lock_items(rest.drop_first()));
        assert(rest.drop_first() =~= l.skip(k + 1));
        assert(spec_lock_items(rest) + cl =~= spec_lock_entry_obj(l[k]) + (seq![0x2cu8] + (
        spec_lock_items(l.skip(k + 1)) + cl)));
    }
}

/// Some entry list renders exactly to `v`.
pub open spec fn spec_has_lock(v: Seq<u8>) -> bool {
    exists|l: Seq<LockEntry>| v == #[trigger] spec_lock_json(l)
}

/// Parse the canonical lock file.  When parsing succeeds, the input is
/// exactly the canonical rendering of the returned entries; when it
/// fails, no entry list renders to the input, and the caller treats the
/// content as an empty lock file.
#[verifier::rlimit(100)]
pub fn parse_lock(v: &Vec<u8>) -> (r: Option<LockFile>)
    ensures
        r matches Some(l) ==> v@ == spec_lock_json(l.skills@),
        r is None ==> !spec_has_lock(v@),
{
    let len: usize = v.len();
    let ghost hyp = spec_has_lock(v@);
    let ghost helems: Seq<LockEntry> = if hyp {
        (choose|l: Seq<LockEntry>| v@ == #[trigger] spec_lock_json(l))
    } else {
        Seq::<LockEntry>::empty()
    };
    proof {
        if hyp {
            assert(v@ == spec_lock_json(helems));
            assert(v@ =~= ("{\"skills\":[").spec_bytes() + (spec_lock_items(helems) + ("]}").spec_bytes()));
            assert(v@.skip(0) =~= v@);
            crate::jsonparse::lemma_peel(
                v@,
                0,
                ("{\"skills\":[").spec_bytes(),
                spec_lock_items(helems) + ("]}").spec_bytes(),
            );
        }
    }
    let p0 = match crate::jsonparse::expect_lit(v, 0, "{\"skills\":[") {
        Some(p) => p,
        None => {
                proof {
                    if hyp {
                        assert(false);
                    }
                    assert(!spec_has_lock(v@));
                }
                return None;
        },
    };
    proof {
        if hyp {
            assert(v@.skip(p0 as int) == spec_lock_items(helems) + ("]}").spec_bytes());
            reveal_strlit("]}");
            crate::json::lemma_lit_head("]}");
            reveal_strlit("{\"name\":");
            crate::json::lemma_lit_head("{\"name\":");
        }
    }
    let mut acc: Vec<LockEntry> = Vec::new();
    let mut i: usize = p0;
    if i < len && v[i] == 0x5d {
        proof {
            if hyp {
                // The bracket closes at once, so the list is empty.
                if helems.len() > 0 {
                    assert(spec_lock_items(helems) == spec_lock_entry_obj(helems[0])
                        + lock_items_tail(helems));
                    lemma_lock_entry_shape(helems[0]);
                    assert(v@[i as int] == ("{\"name\":").spec_bytes()[0]) by {
                        assert(v@.skip(p0 as int)[0] == v@[i as int]);
                    }
                    assert(false);
                }
                assert(spec_lock_items(helems) =~= Seq::<u8>::empty());
                assert(v@.skip(p0 as int) =~= ("]}").spec_bytes());
            }
        }
        let p1 = match crate::jsonparse::expect_lit(v, i, "]}") {
            Some(p) => p,
            None => {
                proof {
                    if hyp {
                        assert(v@.subrange(p0 as int, p0 + ("]}").spec_bytes().len())
                            =~= ("]}").spec_bytes());
                        assert(false);
                    }
                    assert(!spec_has_lock(v@));
                }
                return None;
            },
        };
        if p1 != len {
            proof {
                if hyp {
                    assert(false);
                }
                assert(!spec_has_lock(v@));
            }
            return None;
        }
        proof {
            assert(spec_lock_items(acc@) =~= Seq::<u8>::empty());
            assert(v@.subrange(0, p1 as int) =~= v@.subrange(0, p0 as int) + v@.subrange(
                p0 as int,
                p1 as int,
            ));
            assert(v@.subrange(0, len as int) =~= v@);
            assert(("{\"skills\":[").spec_bytes() + Seq::<u8>::empty() + ("]}").spec_bytes()
                =~= ("{\"skills\":[").spec_bytes() + ("]}").spec_bytes());
        }
        return Some(LockFile { skills: acc });
    }
    proof {
        if hyp {
            // Not closing at once, so at least one entry follows.
            if helems.len() == 0 {
                assert(spec_lock_items(helems) =~= Seq::<u8>::empty());
                assert(v@.skip(p0 as int) =~= ("]}").spec_bytes());
                assert(v@[p0 as int] == ("]}").spec_bytes()[0]) by {
                    assert(v@.skip(p0 as int)[0] == v@[p0 as int]);
                }
                assert(p0 < len) by {
                    assert(v@.skip(p0 as int).len() > 0);
                }
                assert(false);
            }
            assert(helems.skip(0) =~= helems);
        }
    }
    let ghost mut k: int = 0;
    loop
        invariant_except_break
            acc@.len() == 0 ==> i == p0,
            acc@.len() > 0 ==> v@.subrange(p0 as int, i as int) == spec_lock_items(acc@)
                + seq![0x2cu8],
            hyp ==> 0 <= k < helems.len() && v@.skip(i as int) == spec_lock_items(
                helems.skip(k),
            ) + ("]}").spec_bytes(),
        invariant
            p0 <= i <= len,
            len == v@.len(),
            p0 == ("{\"skills\":[").spec_bytes().len(),
            v@.subrange(0, p0 as int) == ("{\"skills\":[").spec_bytes(),
            hyp == spec_has_lock(v@),
        ensures
            p0 <= i < len,
            v@[i as int] == 0x5d,
            v@.subrange(p0 as int, i as int) == spec_lock_items(acc@),
            hyp ==> v@.skip(i as int) == ("]}").spec_bytes(),
        decreases len - i,
    {
        let ghost acc0 = acc@;
        let ghost i0 = i as int;
        let ghost hentry: LockEntry = if hyp {
            helems[k]
        } else {
            vstd::pervasive::arbitrary()
        };
        let ghost hrest: Seq<u8> = if hyp {
            if helems.skip(k).len() == 1 {
                ("]}").spec_bytes()
            } else {
                seq![0x2cu8] + (spec_lock_items(helems.skip(k + 1)) + ("]}").spec_bytes())
            }
        } else {
            vstd::pervasive::arbitrary()
        };
        proof {
            if hyp {
                lemma_lock_items_step(helems, k, ("]}").spec_bytes());
                assert(v@.skip(i as int) == spec_lock_entry_obj(hentry) + hrest);
            }
        }
        let (e, p) = match parse_lock_entry(v, i, Ghost(hyp), Ghost(hentry), Ghost(hrest)) {
            Some(x) => x,
            None => {
                proof {
                    if hyp {
                        assert(false);
                    }
                    assert(!spec_has_lock(v@));
                }
                return None;
            },
        };
        proof {
            let prev = acc0;
            lemma_lock_items_snoc(prev, e);
            if prev.len() == 0 {
                assert(v@.subrange(p0 as int, p as int) =~= v@.subrange(i0, p as int));
            } else {
                assert(v@.subrange(p0 as int, p as int) =~= v@.subrange(p0 as int, i0)
                    + v@.subrange(i0, p as int));
            }
            assert(v@.subrange(p0 as int, p as int) == spec_lock_items(prev.push(e)));
        }
        acc.push(e);
        i = p;
        if i >= len {
            proof {
                if hyp {
                    assert(v@.skip(i as int).len() > 0) by {
                        reveal_strlit("]}");
                        crate::json::lemma_lit_head("]}");
                    }
                    assert(false);
                }
                assert(!spec_has_lock(v@));
            }
            return None;
        }
        let c: u8 = v[i];
        proof {
            if hyp {
                reveal_strlit("]}");
                crate::json::lemma_lit_head("]}");
                assert(v@.skip(i as int)[0] == v@[i as int]);
                if helems.skip(k).len() == 1 {
                    assert(v@[i as int] == 0x5d) by {
                        assert((("]}").spec_bytes())[0] == 0x5d);
                    }
                } else {
                    assert(v@[i as int] == 0x2c) by {
                        assert((seq![0x2cu8] + (spec_lock_items(helems.skip(k + 1))
                            + ("]}").spec_bytes()))[0] == 0x2c);
                    }
                }
            }
        }
        if c == 0x5d {
            proof {
                if hyp {
                    assert(helems.skip(k).len() == 1);
                    assert(v@.skip(i as int) == ("]}").spec_bytes());
                }
            }
            break;
        }
        if c != 0x2c {
            proof {
                if hyp {
                    assert(false);
                }
                assert(!spec_has_lock(v@));
            }
            return None;
        }
        proof {
            assert(v@.subrange(p0 as int, i + 1) =~= v@.subrange(p0 as int, i as int)
                + seq![0x2cu8]);
            if hyp {
                assert(helems.skip(k).len() > 1);
                crate::jsonparse::lemma_peel(
                    v@,
                    i as int,
                    seq![0x2cu8],
                    spec_lock_items(helems.skip(k + 1)) + ("]}").spec_bytes(),
                );
                k = k + 1;
            }
        }
        i = i + 1;
    }
    proof {
        if hyp {
            assert(v@.skip(i as int) == ("]}").spec_bytes());
        }
    }
    let p1 = match crate::jsonparse::expect_lit(v, i, "]}") {
        Some(p) => p,
        None => {
                proof {
                    if hyp {
                        assert(v@.skip(i as int) =~= ("]}").spec_bytes() + Seq::<u8>::empty());
                        crate::jsonparse::lemma_peel(
                            v@,
                            i as int,
                            ("]}").spec_bytes(),
                            Seq::<u8>::empty(),
                        );
                        assert(false);
                    }
                    assert(!spec_has_lock(v@));
                }
                return None;
        },
    };
    if p1 != len {
        proof {
            if hyp {
                assert(v@.skip(i as int) =~= ("]}").spec_bytes() + Seq::<u8>::empty());
                crate::jsonparse::lemma_peel(
                    v@,
                    i as int,
                    ("]}").spec_bytes(),
                    Seq::<u8>::empty(),
                );
                assert(v@.skip(p1 as int) == Seq::<u8>::empty());
                assert(false);
            }
            assert(!spec_has_lock(v@));
        }
        return None;
    }
    proof {
        assert(v@.subrange(0, p1 as int) =~= v@.subrange(0, p0 as int) + v@.subrange(
            p0 as int,
            i as int,
        ) + v@.subrange(i as int, p1 as int));
        assert(v@.subrange(0, len as int) =~= v@);
        assert(v@ == spec_lock_json(acc@));
    }
    Some(LockFile { skills: acc })
}

/// The items after the first entry: a separator and the remaining
/// items when any follow, nothing otherwise.
pub open spec fn lock_items_tail(l: Seq<LockEntry>) -> Seq<u8> {
    if l.len() <= 1 {
        Seq::<u8>::empty()
    } else {
        seq![0x2cu8] + spec_lock_items(l.drop_first())
    }
}

} // verus!
