//! Small self-contained commands: greeting, echo and version reporting.

use vstd::prelude::*;

verus! {

/// Characters stripped from both ends of a name before greeting.
pub open spec fn is_space_char(c: char) -> bool {
    c == ' ' || c == '\t' || c == '\n' || c == '\r'
}

/// Number of leading space characters of `s`.
pub open spec fn spec_lead(s: Seq<char>) -> int
    decreases s.len(),
{
    if s.len() > 0 && is_space_char(s[0]) {
        1 + spec_lead(s.drop_first())
    } else {
        0
    }
}

/// Number of trailing space characters of `s`.
pub open spec fn spec_trail(s: Seq<char>) -> int
    decreases s.len(),
{
    if s.len() > 0 && is_space_char(s[s.len() - 1]) {
        1 + spec_trail(s.drop_last())
    } else {
        0
    }
}

/// `s` with leading and trailing space characters removed.
pub open spec fn spec_trim(s: Seq<char>) -> Seq<char> {
    if spec_lead(s) == s.len() {
        Seq::<char>::empty()
    } else {
        s.subrange(spec_lead(s), s.len() - spec_trail(s))
    }
}

proof fn lemma_lead_of_prefix(s: Seq<char>, i: int)
    requires
        0 <= i <= s.len(),
        forall|k: int| 0 <= k < i ==> is_space_char(s[k]),
        i == s.len() || !is_space_char(s[i]),
    ensures
        spec_lead(s) == i,
    decreases i,
{
    if i > 0 {
        lemma_lead_of_prefix(s.drop_first(), i - 1);
    }
}

proof fn lemma_trail_of_suffix(s: Seq<char>, j: int)
    requires
        0 <= j <= s.len(),
        forall|k: int| j <= k < s.len() ==> is_space_char(s[k]),
        j == 0 || !is_space_char(s[j - 1]),
    ensures
        spec_trail(s) == s.len() - j,
    decreases s.len() - j,
{
    if j < s.len() {
        lemma_trail_of_suffix(s.drop_last(), j);
    }
}

/// Remove leading and trailing space characters from `s`.
pub fn trim_spaces(s: &str) -> (r: &str)
    ensures
        r@ == spec_trim(s@),
{
    let n: usize = s.unicode_len();
    let mut i: usize = 0;
    while i < n && is_space_exec(s.get_char(i))
        invariant
            0 <= i <= n,
            n == s@.len(),
            forall|k: int| 0 <= k < i ==> is_space_char(s@[k]),
        decreases n - i,
    {
        i = i + 1;
    }
    proof {
        lemma_lead_of_prefix(s@, i as int);
    }
    if i == n {
        proof {
            reveal_strlit("");
            assert(spec_trim(s@) =~= ""@);
        }
        return "";
    }
    let mut j: usize = n;
    while j > i && is_space_exec(s.get_char(j - 1))
        invariant
            i <= j <= n,
            n == s@.len(),
            i < n,
            !is_space_char(s@[i as int]),
            forall|k: int| j <= k < n ==> is_space_char(s@[k]),
        decreases j,
    {
        j = j - 1;
    }
    proof {
        lemma_trail_of_suffix(s@, j as int);
    }
    s.substring_char(i, j)
}

fn is_space_exec(c: char) -> (r: bool)
    ensures
        r == is_space_char(c),
{
    c == ' ' || c == '\t' || c == '\n' || c == '\r'
}

/// The name a greeting uses: the trimmed argument when it is present and
/// non-empty after trimming, the default otherwise.
pub open spec fn spec_greet_name(name: Option<Seq<char>>) -> Seq<char> {
    match name {
        Some(s) => if spec_trim(s).len() > 0 {
            spec_trim(s)
        } else {
            "world"@
        },
        None => "world"@,
    }
}

/// Build a greeting string for an optional name.
pub fn greet(name: Option<&str>) -> (r: String)
    ensures
        r@ == "Hello, "@ + spec_greet_name(match name {
            Some(s) => Some(s@),
            None => None,
        }) + "!"@,
{
    let chosen: &str = match name {
        Some(s) => {
            let t = trim_spaces(s);
            if t.unicode_len() > 0 {
                t
            } else {
                "world"
            }
        },
        None => "world",
    };
    let mut out = String::from_str("Hello, ");
    out.append(chosen);
    out.append("!");
    out
}

/// Echo the input back as-is.
pub fn echo(message: &str) -> (r: String)
    ensures
        r@ == message@,
{
    message.to_owned()
}

/// The crate version.
pub fn version() -> (r: &'static str)
    ensures
        r@ == "0.1.0"@,
{
    "0.1.0"
}

} // verus!
