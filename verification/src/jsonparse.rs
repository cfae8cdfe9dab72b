//! Strict parsing of the canonical JSON this crate emits.
//!
//! Every parser here is exact: when it accepts, the consumed bytes are
//! precisely the canonical rendering of the returned value, so a parsed
//! document re-renders to the very bytes it was read from.  Documents in
//! any other shape — different spacing, different escapes — are rejected,
//! which is all the job store needs: it only ever reads files this crate
//! wrote.

use vstd::prelude::*;
use vstd::string::StringSliceAdditionalSpecFns;
use vstd::utf8::{decode_utf8, encode_utf8, valid_utf8};
use crate::json::{spec_escape, spec_escape_byte, spec_hex_digit, spec_json_string};
use crate::time::{spec_digits, spec_u64_str};
use crate::json::spec_i64_str;
use crate::strbytes::utf8_to_string;

verus! {

/// Numeric value of a big-endian sequence of decimal digit bytes.
pub open spec fn spec_val(b: Seq<u8>) -> int
    decreases b.len(),
{
    if b.len() == 0 {
        0
    } else {
        spec_val(b.drop_last()) * 10 + (b.last() - 0x30)
    }
}

/// A digit sequence with a non-zero leading digit renders back to itself.
proof fn lemma_digits_inverse(b: Seq<u8>)
    requires
        b.len() > 0,
        forall|i: int| 0 <= i < b.len() ==> 0x30 <= #[trigger] b[i] <= 0x39,
        b[0] != 0x30,
    ensures
        spec_val(b) > 0,
        spec_digits(spec_val(b)) == b,
    decreases b.len(),
{
    if b.len() == 1 {
        reveal_with_fuel(spec_val, 3);
        let v = spec_val(b);
        assert(b.drop_last().len() == 0);
        assert(v == b[0] - 0x30);
        assert(spec_digits(v) == spec_digits(v / 10).push((0x30 + v % 10) as u8));
        assert(spec_digits(v) =~= b);
    } else {
        let bp = b.drop_last();
        assert(bp[0] == b[0]);
        lemma_digits_inverse(bp);
        let vp = spec_val(bp);
        let dl = b.last() - 0x30;
        let v = spec_val(b);
        assert(v == vp * 10 + dl);
        assert(v / 10 == vp && v % 10 == dl) by (nonlinear_arith)
            requires
                v == vp * 10 + dl,
                vp > 0,
                0 <= dl < 10,
        ;
        assert(spec_digits(v) == spec_digits(vp).push((0x30 + v % 10) as u8));
        assert(spec_digits(v) =~= b);
    }
}

/// Whether a byte is a decimal digit.
pub open spec fn spec_is_digit(b: u8) -> bool {
    0x30 <= b <= 0x39
}

/// The value of a number's own digits is the number.
pub proof fn lemma_val_of_digits(n: int)
    requires
        n >= 0,
    ensures
        spec_val(spec_digits(n)) == n,
    decreases n,
{
    if n > 0 {
        lemma_val_of_digits(n / 10);
        let b = spec_digits(n);
        assert(b == spec_digits(n / 10).push((0x30 + n % 10) as u8));
        assert(b.drop_last() =~= spec_digits(n / 10));
        vstd::arithmetic::div_mod::lemma_fundamental_div_mod(n, 10);
    }
}

/// The value of an unsigned rendering is the number itself.
pub proof fn lemma_val_of_u64_str(n: int)
    requires
        n >= 0,
    ensures
        spec_val(spec_u64_str(n)) == n,
{
    reveal_with_fuel(spec_val, 3);
    if n == 0 {
        assert(seq![0x30u8].drop_last() =~= Seq::<u8>::empty());
    } else {
        lemma_val_of_digits(n);
    }
}

/// An unsigned rendering followed by a non-digit determines the number
/// and the remainder: two such decompositions of the same bytes agree.
pub proof fn lemma_u64_str_unique(n1: int, n2: int, r1: Seq<u8>, r2: Seq<u8>)
    requires
        n1 >= 0,
        n2 >= 0,
        spec_u64_str(n1) + r1 == spec_u64_str(n2) + r2,
        r1.len() == 0 || !spec_is_digit(r1[0]),
        r2.len() == 0 || !spec_is_digit(r2[0]),
    ensures
        n1 == n2,
        r1 == r2,
{
    let d1 = spec_u64_str(n1);
    let d2 = spec_u64_str(n2);
    let s = d1 + r1;
    crate::time::lemma_digits_ascii(n1);
    crate::time::lemma_digits_ascii(n2);
    assert(d1.len() >= 1 && d2.len() >= 1);
    if d1.len() < d2.len() {
        assert(r1.len() > 0);
        assert(s[d1.len() as int] == r1[0]);
        assert(s[d1.len() as int] == d2[d1.len() as int]);
        assert(false);
    }
    if d2.len() < d1.len() {
        assert(r2.len() > 0);
        assert(s[d2.len() as int] == r2[0]);
        assert(s[d2.len() as int] == d1[d2.len() as int]);
        assert(false);
    }
    assert forall|i: int| 0 <= i < d1.len() implies d1[i] == d2[i] by {
        assert(s[i] == d1[i]);
        assert((d2 + r2)[i] == d2[i]);
    }
    assert(d1 =~= d2);
    lemma_val_of_u64_str(n1);
    lemma_val_of_u64_str(n2);
    assert(r1 =~= s.skip(d1.len() as int));
    assert(r2 =~= (d2 + r2).skip(d2.len() as int));
}

/// A signed rendering followed by a non-digit determines the number and
/// the remainder.
pub proof fn lemma_i64_str_unique(n1: int, n2: int, r1: Seq<u8>, r2: Seq<u8>)
    requires
        spec_i64_str(n1) + r1 == spec_i64_str(n2) + r2,
        r1.len() == 0 || !spec_is_digit(r1[0]),
        r2.len() == 0 || !spec_is_digit(r2[0]),
    ensures
        n1 == n2,
        r1 == r2,
{
    let s = spec_i64_str(n1) + r1;
    if n1 >= 0 && n2 >= 0 {
        lemma_u64_str_unique(n1, n2, r1, r2);
    } else if n1 < 0 && n2 < 0 {
        crate::time::lemma_digits_ascii(-n1);
        assert(s =~= seq![0x2du8] + (spec_u64_str(-n1) + r1));
        assert(spec_i64_str(n2) + r2 =~= seq![0x2du8] + (spec_u64_str(-n2) + r2));
        assert(spec_u64_str(-n1) + r1 =~= s.skip(1));
        assert(spec_u64_str(-n2) + r2 =~= (spec_i64_str(n2) + r2).skip(1));
        lemma_u64_str_unique(-n1, -n2, r1, r2);
    } else if n1 < 0 {
        // A sign byte cannot open an unsigned rendering.
        crate::time::lemma_digits_ascii(n2);
        assert(s[0] == (seq![0x2du8] + spec_u64_str(-n1) + r1)[0]) by {
            assert(s =~= seq![0x2du8] + spec_u64_str(-n1) + r1);
        }
        assert(s[0] == 0x2d);
        assert(s[0] == spec_u64_str(n2)[0]);
        assert(false);
    } else {
        crate::time::lemma_digits_ascii(n1);
        assert((spec_i64_str(n2) + r2)[0] == 0x2d) by {
            assert(spec_i64_str(n2) + r2 =~= seq![0x2du8] + spec_u64_str(-n2) + r2);
        }
        assert(s[0] == spec_u64_str(n1)[0]);
        assert(false);
    }
}

/// A subrange decomposes at any interior cut point.
pub proof fn lemma_split_at2(v: Seq<u8>, a: int, b: int, c: int)
    requires
        0 <= a <= b <= c <= v.len(),
    ensures
        v.subrange(a, c) == v.subrange(a, b) + v.subrange(b, c),
{
    assert(v.subrange(a, c) =~= v.subrange(a, b) + v.subrange(b, c));
}

/// A suffix decomposes at any cut point.
pub proof fn lemma_split_skip(v: Seq<u8>, cur: int, p: int)
    requires
        0 <= cur <= p <= v.len(),
    ensures
        v.skip(cur) == v.subrange(cur, p) + v.skip(p),
{
    assert(v.skip(cur) =~= v.subrange(cur, p) + v.skip(p));
}

/// Peeling a known prefix off a suffix: the bytes at the front are the
/// prefix, and what remains after it is the rest.
pub proof fn lemma_peel(v: Seq<u8>, cur: int, a: Seq<u8>, b: Seq<u8>)
    requires
        0 <= cur <= v.len(),
        v.skip(cur) == a + b,
    ensures
        cur + a.len() <= v.len(),
        v.subrange(cur, cur + a.len()) == a,
        v.skip(cur + a.len()) == b,
{
    assert(v.skip(cur).len() == v.len() - cur);
    assert(v.len() - cur == a.len() + b.len());
    assert(v.subrange(cur, cur + a.len()) =~= a) by {
        assert forall|k: int| 0 <= k < a.len() implies v.subrange(cur, cur + a.len())[k]
            == a[k] by {
            assert(v.skip(cur)[k] == v[cur + k]);
            assert((a + b)[k] == a[k]);
        }
    }
    assert(v.skip(cur + a.len()) =~= b) by {
        assert forall|k: int| 0 <= k < b.len() implies v.skip(cur + a.len())[k] == b[k] by {
            assert(v.skip(cur + a.len())[k] == v[cur + a.len() + k]);
            assert(v.skip(cur)[a.len() + k] == v[cur + a.len() + k]);
            assert((a + b)[a.len() + k] == b[k]);
        }
    }
}

/// Match an exact ASCII keyword at `pos`.
pub fn expect_lit(v: &Vec<u8>, pos: usize, lit: &str) -> (r: Option<usize>)
    requires
        pos <= v@.len(),
    ensures
        r matches Some(p) ==> pos <= p <= v@.len() && v@.subrange(pos as int, p as int)
            == lit.spec_bytes() && p - pos == lit.spec_bytes().len(),
        r is None ==> !(pos + lit.spec_bytes().len() <= v@.len() && v@.subrange(
            pos as int,
            pos + lit.spec_bytes().len(),
        ) == lit.spec_bytes()),
{
    let lb = lit.as_bytes();
    let n: usize = lb.len();
    let len: usize = v.len();
    if len - pos < n {
        return None;
    }
    let mut i: usize = 0;
    while i < n
        invariant
            0 <= i <= n,
            n == lb@.len(),
            lb@ == lit.spec_bytes(),
            len == v@.len(),
            pos + n <= len,
            forall|k: int| 0 <= k < i ==> v@[pos + k] == lb@[k],
        decreases n - i,
    {
        if v[pos + i] != lb[i] {
            proof {
                assert(v@.subrange(pos as int, pos + n)[i as int] == v@[pos + i]);
            }
            return None;
        }
        i = i + 1;
    }
    proof {
        assert(v@.subrange(pos as int, pos + n) =~= lb@);
    }
    Some(pos + n)
}

fn hex_nibble(b: u8) -> (r: Option<u8>)
    ensures
        r matches Some(n) ==> n < 16 && spec_hex_digit(n as int) == b,
        r is None ==> forall|n: int| 0 <= n < 16 ==> spec_hex_digit(n) != b,
{
    if 0x30 <= b && b <= 0x39 {
        Some(b - 0x30)
    } else if 0x61 <= b && b <= 0x66 {
        Some(b - 0x57)
    } else {
        None
    }
}

/// There is a canonical JSON string literal starting at `pos`.
pub open spec fn spec_has_json_string_at(v: Seq<u8>, pos: int) -> bool {
    exists|t: Seq<char>, e: int|
        #![trigger v.subrange(pos, e), spec_json_string(t)]
        pos < e <= v.len() && v.subrange(pos, e) == spec_json_string(t)
}

/// Parse a canonical JSON string literal at `pos`.
///
/// On success the consumed bytes are exactly the canonical rendering of
/// the returned string; on failure no canonical string literal starts
/// at `pos` at all.
pub fn parse_string(v: &Vec<u8>, pos: usize) -> (r: Option<(String, usize)>)
    requires
        pos <= v@.len(),
    ensures
        r matches Some(sp) ==> pos < sp.1 <= v@.len() && v@.subrange(pos as int, sp.1 as int)
            == spec_json_string(sp.0@),
        r is None ==> !spec_has_json_string_at(v@, pos as int),
{
    let len: usize = v.len();
    let ghost hyp = spec_has_json_string_at(v@, pos as int);
    let ghost hte: (Seq<char>, int) = if hyp {
        choose|t: Seq<char>, e: int|
            #![trigger v@.subrange(pos as int, e), spec_json_string(t)]
            (pos as int) < e <= v@.len() && v@.subrange(pos as int, e) == spec_json_string(t)
    } else {
        (Seq::<char>::empty(), 0int)
    };
    let ghost ht = hte.0;
    let ghost he = hte.1;
    let ghost eb = encode_utf8(ht);
    proof {
        if hyp {
            assert((pos as int) < he <= v@.len() && v@.subrange(pos as int, he)
                == spec_json_string(ht));
            let js = spec_json_string(ht);
            assert(js.len() == 2 + spec_escape(eb).len());
            assert(v@[pos as int] == js[0]) by {
                assert(v@.subrange(pos as int, he)[0] == v@[pos as int]);
            }
            assert(js[0] == 0x22);
            assert(v@[he - 1] == js[js.len() - 1]) by {
                assert(v@.subrange(pos as int, he)[js.len() - 1] == v@[he - 1]);
            }
            assert(js[js.len() - 1] == 0x22);
            assert(v@.subrange(pos + 1, he - 1) =~= spec_escape(eb)) by {
                assert forall|k: int|
                    0 <= k < spec_escape(eb).len() implies v@.subrange(pos + 1, he - 1)[k]
                    == spec_escape(eb)[k] by {
                    assert(v@.subrange(pos + 1, he - 1)[k] == v@[pos + 1 + k]);
                    assert(v@.subrange(pos as int, he)[1 + k] == v@[pos + 1 + k]);
                    assert(js[1 + k] == spec_escape(eb)[k]);
                }
            }
        }
    }
    if pos >= len || v[pos] != 0x22 {
        proof {
            if hyp {
                assert(false);
            }
            assert(!spec_has_json_string_at(v@, pos as int));
        }
        return None;
    }
    let mut acc: Vec<u8> = Vec::new();
    let mut i: usize = pos + 1;
    proof {
        if hyp {
            assert(acc@ =~= eb.take(0));
        }
    }
    loop
        invariant
            pos + 1 <= i <= len,
            len == v@.len(),
            v@[pos as int] == 0x22,
            v@.subrange(pos + 1, i as int) == spec_escape(acc@),
            hyp == spec_has_json_string_at(v@, pos as int),
            eb == encode_utf8(ht),
            hyp ==> (pos as int) < he <= len,
            hyp ==> v@.subrange(pos + 1, he - 1) == spec_escape(eb),
            hyp ==> v@[he - 1] == 0x22,
            hyp ==> acc@.len() <= eb.len(),
            hyp ==> acc@ == eb.take(acc@.len() as int),
            hyp ==> i <= he - 1,
        ensures
            pos + 1 <= i < len,
            v@[i as int] == 0x22,
            v@.subrange(pos + 1, i as int) == spec_escape(acc@),
            hyp == spec_has_json_string_at(v@, pos as int),
            hyp ==> acc@ == eb && i + 1 == he,
        decreases len - i,
    {
        if i >= len {
            proof {
                if hyp {
                    assert(i <= he - 1 < len);
                    assert(false);
                }
                assert(!spec_has_json_string_at(v@, pos as int));
            }
            return None;
        }
        let ghost m = acc@.len() as int;
        let ghost rest = eb.skip(m);
        proof {
            if hyp {
                // The unread part of the literal's interior is the
                // escape of the source bytes not yet reconstructed.
                assert(eb =~= eb.take(m) + rest);
                crate::json::lemma_escape_concat(eb.take(m), rest);
                assert(spec_escape(eb) == spec_escape(acc@) + spec_escape(rest));
                assert(v@.subrange(pos + 1, he - 1) =~= v@.subrange(pos + 1, i as int)
                    + v@.subrange(i as int, he - 1));
                assert(spec_escape(acc@).len() == i - (pos + 1));
                assert(v@.subrange(i as int, he - 1) =~= spec_escape(rest)) by {
                    assert forall|k: int|
                        0 <= k < spec_escape(rest).len() implies v@.subrange(
                        i as int,
                        he - 1,
                    )[k] == spec_escape(rest)[k] by {
                        assert(v@.subrange(pos + 1, he - 1)[i - (pos + 1) + k] == v@.subrange(
                            i as int,
                            he - 1,
                        )[k]);
                        assert((spec_escape(acc@) + spec_escape(rest))[i - (pos + 1) + k]
                            == spec_escape(rest)[k]);
                    }
                }
                if rest.len() > 0 {
                    assert(spec_escape(rest) == spec_escape_byte(rest[0]) + spec_escape(
                        rest.drop_first(),
                    ));
                    assert forall|k: int|
                        0 <= k < spec_escape_byte(rest[0]).len() implies v@[i + k]
                        == spec_escape_byte(rest[0])[k] by {
                        assert(v@.subrange(i as int, he - 1)[k] == v@[i + k]);
                        assert((spec_escape_byte(rest[0]) + spec_escape(rest.drop_first()))[k]
                            == spec_escape_byte(rest[0])[k]);
                    }
                    assert(i + spec_escape_byte(rest[0]).len() <= he - 1);
                    crate::json::lemma_escape_byte_head(rest[0]);
                }
            }
        }
        let c: u8 = v[i];
        if c == 0x22 {
            proof {
                if hyp {
                    if rest.len() > 0 {
                        assert(v@[i as int] == spec_escape_byte(rest[0])[0]);
                        assert(false);
                    }
                    assert(acc@ =~= eb);
                    assert(v@.subrange(i as int, he - 1).len() == 0);
                }
            }
            break;
        }
        proof {
            if hyp {
                // Not at the closing quote, so source bytes remain.
                if rest.len() == 0 {
                    assert(v@.subrange(i as int, he - 1).len() == 0);
                    assert(i == he - 1);
                    assert(false);
                }
            }
        }
        let ghost acc0 = acc@;
        let ghost i0 = i as int;
        if c == 0x5c {
            proof {
                if hyp {
                    // The head byte is a backslash, so this is one of
                    // the escaped forms, at least two bytes long.
                    assert(rest[0] == 0x22 || rest[0] == 0x5c || rest[0] < 0x20);
                    assert(spec_escape_byte(rest[0]).len() >= 2);
                }
            }
            if i + 1 >= len {
                proof {
                    if hyp {
                        assert(i + 2 <= he - 1 < len);
                        assert(false);
                    }
                    assert(!spec_has_json_string_at(v@, pos as int));
                }
                return None;
            }
            let e: u8 = v[i + 1];
            if e == 0x22 {
                proof {
                    if hyp {
                        assert(v@[i + 1] == spec_escape_byte(rest[0])[1]);
                        assert(rest[0] == 0x22);
                    }
                }
                acc.push(0x22);
                i = i + 2;
            } else if e == 0x5c {
                proof {
                    if hyp {
                        assert(v@[i + 1] == spec_escape_byte(rest[0])[1]);
                        assert(rest[0] == 0x5c);
                    }
                }
                acc.push(0x5c);
                i = i + 2;
            } else if e == 0x75 {
                proof {
                    if hyp {
                        assert(v@[i + 1] == spec_escape_byte(rest[0])[1]);
                        assert(rest[0] < 0x20);
                        assert(spec_escape_byte(rest[0]).len() == 6);
                    }
                }
                if len - i < 6 {
                    proof {
                        if hyp {
                            assert(i + 6 <= he - 1 < len);
                            assert(false);
                        }
                        assert(!spec_has_json_string_at(v@, pos as int));
                    }
                    return None;
                }
                if v[i + 2] != 0x30 || v[i + 3] != 0x30 {
                    proof {
                        if hyp {
                            assert(v@[i + 2] == spec_escape_byte(rest[0])[2]);
                            assert(v@[i + 3] == spec_escape_byte(rest[0])[3]);
                            assert(false);
                        }
                        assert(!spec_has_json_string_at(v@, pos as int));
                    }
                    return None;
                }
                let hi = match hex_nibble(v[i + 4]) {
                    Some(x) => x,
                    None => {
                        proof {
                            if hyp {
                                assert(v@[i + 4] == spec_hex_digit(rest[0] as int / 16));
                                assert(0 <= rest[0] as int / 16 < 16);
                                assert(false);
                            }
                            assert(!spec_has_json_string_at(v@, pos as int));
                        }
                        return None;
                    },
                };
                let lo = match hex_nibble(v[i + 5]) {
                    Some(x) => x,
                    None => {
                        proof {
                            if hyp {
                                assert(v@[i + 5] == spec_hex_digit(rest[0] as int % 16));
                                assert(0 <= rest[0] as int % 16 < 16);
                                assert(false);
                            }
                            assert(!spec_has_json_string_at(v@, pos as int));
                        }
                        return None;
                    },
                };
                let b: u8 = hi * 16 + lo;
                proof {
                    if hyp {
                        assert(v@[i + 4] == spec_hex_digit(rest[0] as int / 16));
                        assert(v@[i + 5] == spec_hex_digit(rest[0] as int % 16));
                        crate::json::lemma_hex_digit_unique(hi as int, rest[0] as int / 16);
                        crate::json::lemma_hex_digit_unique(lo as int, rest[0] as int % 16);
                        vstd::arithmetic::div_mod::lemma_fundamental_div_mod(
                            rest[0] as int,
                            16,
                        );
                        assert(b == rest[0]);
                    }
                }
                if b >= 0x20 {
                    proof {
                        if hyp {
                            assert(false);
                        }
                        assert(!spec_has_json_string_at(v@, pos as int));
                    }
                    return None;
                }
                acc.push(b);
                i = i + 6;
                proof {
                    assert(b / 16 == hi && b % 16 == lo);
                }
            } else {
                proof {
                    if hyp {
                        assert(v@[i + 1] == spec_escape_byte(rest[0])[1]);
                        assert(false);
                    }
                    assert(!spec_has_json_string_at(v@, pos as int));
                }
                return None;
            }
        } else if c < 0x20 {
            proof {
                if hyp {
                    assert(v@[i as int] == spec_escape_byte(rest[0])[0]);
                    assert(false);
                }
                assert(!spec_has_json_string_at(v@, pos as int));
            }
            return None;
        } else {
            proof {
                if hyp {
                    // A plain byte passes through unchanged.
                    assert(v@[i as int] == spec_escape_byte(rest[0])[0]);
                    assert(!(rest[0] == 0x22 || rest[0] == 0x5c || rest[0] < 0x20));
                    assert(c == rest[0]);
                }
            }
            acc.push(c);
            i = i + 1;
        }
        proof {
            let bnew = acc@.last();
            crate::json::lemma_escape_snoc(acc0, bnew);
            assert(acc@ =~= acc0.push(bnew));
            assert(v@.subrange(pos + 1, i as int) =~= v@.subrange(pos + 1, i0)
                + v@.subrange(i0, i as int));
            assert(v@.subrange(i0, i as int) =~= spec_escape_byte(bnew));
            if hyp {
                assert(bnew == rest[0]);
                assert(rest[0] == eb[m]);
                assert(acc@ =~= eb.take(m + 1));
                assert(i - (pos + 1) == spec_escape(acc@).len());
                assert(i0 + spec_escape_byte(rest[0]).len() <= he - 1);
            }
        }
    }
    let ghost accg = acc@;
    let s = match utf8_to_string(&acc) {
        Some(s) => s,
        None => {
            proof {
                if hyp {
                    vstd::utf8::encode_utf8_valid_utf8(ht);
                    assert(valid_utf8(accg));
                    assert(false);
                }
                assert(!spec_has_json_string_at(v@, pos as int));
            }
            return None;
        },
    };
    proof {
        assert(valid_utf8(accg));
        vstd::utf8::decode_utf8_encode_utf8(accg);
        assert(encode_utf8(s@) == accg);
        assert(v@.subrange(pos as int, i + 1) =~= seq![0x22u8] + spec_escape(accg)
            + seq![0x22u8]);
    }
    Some((s, i + 1))
}

/// Digit values are never negative.
proof fn lemma_val_nonneg(b: Seq<u8>)
    requires
        forall|i: int| 0 <= i < b.len() ==> 0x30 <= #[trigger] b[i] <= 0x39,
    ensures
        spec_val(b) >= 0,
    decreases b.len(),
{
    if b.len() > 0 {
        lemma_val_nonneg(b.drop_last());
    }
}

/// A prefix of a digit run is worth no more than the whole run.
proof fn lemma_val_prefix_le(b: Seq<u8>, k: int)
    requires
        0 <= k <= b.len(),
        forall|i: int| 0 <= i < b.len() ==> 0x30 <= #[trigger] b[i] <= 0x39,
    ensures
        spec_val(b.take(k)) <= spec_val(b),
    decreases b.len() - k,
{
    if k < b.len() {
        assert(b.take(k + 1).drop_last() =~= b.take(k));
        assert(b.take(k + 1).last() == b[k]);
        assert(forall|i: int| 0 <= i < b.take(k).len() ==> 0x30 <= #[trigger] b.take(k)[i]
            <= 0x39);
        lemma_val_nonneg(b.take(k));
        assert(spec_val(b.take(k)) <= spec_val(b.take(k + 1)));
        lemma_val_prefix_le(b, k + 1);
        assert(b.take(b.len() as int) =~= b);
    } else {
        assert(b.take(k) =~= b);
    }
}

/// There is a canonical unsigned number, fitting `u64` and ending at a
/// non-digit, starting at `pos`.
pub open spec fn spec_has_u64_at(v: Seq<u8>, pos: int) -> bool {
    exists|n: int, e: int|
        #![trigger v.subrange(pos, e), spec_u64_str(n)]
        0 <= n <= u64::MAX && pos < e <= v.len() && v.subrange(pos, e) == spec_u64_str(n) && (e
            == v.len() || !spec_is_digit(v[e]))
}

/// Parse a canonical unsigned decimal number at `pos`.
///
/// On success the consumed bytes are exactly the canonical rendering of
/// the returned number and the digit run is maximal; on failure no
/// canonical number that fits ends at a non-digit here.
pub fn parse_u64(v: &Vec<u8>, pos: usize) -> (r: Option<(u64, usize)>)
    requires
        pos <= v@.len(),
    ensures
        r matches Some(np) ==> pos < np.1 <= v@.len() && v@.subrange(pos as int, np.1 as int)
            == spec_u64_str(np.0 as int) && (np.1 == v@.len() || !spec_is_digit(
            v@[np.1 as int],
        )),
        r is None ==> !spec_has_u64_at(v@, pos as int),
{
    let len: usize = v.len();
    let ghost hyp = spec_has_u64_at(v@, pos as int);
    let ghost hne: (int, int) = if hyp {
        choose|n: int, e: int|
            #![trigger v@.subrange(pos as int, e), spec_u64_str(n)]
            0 <= n <= u64::MAX && (pos as int) < e <= v@.len() && v@.subrange(pos as int, e)
                == spec_u64_str(n) && (e == v@.len() || !spec_is_digit(v@[e]))
    } else {
        (0int, 0int)
    };
    let ghost hn = hne.0;
    let ghost he = hne.1;
    proof {
        if hyp {
            assert(0 <= hn <= u64::MAX && (pos as int) < he <= v@.len() && v@.subrange(
                pos as int,
                he,
            ) == spec_u64_str(hn) && (he == v@.len() || !spec_is_digit(v@[he])));
            crate::time::lemma_digits_ascii(hn);
            assert forall|k: int| pos <= k < he implies spec_is_digit(#[trigger] v@[k]) by {
                assert(v@.subrange(pos as int, he)[k - pos] == v@[k]);
                assert(0x30 <= spec_u64_str(hn)[k - pos] <= 0x39);
            }
        }
    }
    if pos >= len {
        proof {
            if hyp {
                assert(false);
            }
            assert(!spec_has_u64_at(v@, pos as int));
        }
        return None;
    }
    let c0: u8 = v[pos];
    if c0 == 0x30 {
        proof {
            assert(v@.subrange(pos as int, pos + 1) =~= spec_u64_str(0));
        }
        if pos + 1 < len {
            let nxt: u8 = v[pos + 1];
            if 0x30 <= nxt && nxt <= 0x39 {
                // A zero followed by a digit is not canonical, and the
                // zero itself does not end at a non-digit.
                proof {
                    if hyp {
                        assert(v@[pos as int] == spec_u64_str(hn)[0]) by {
                            assert(v@.subrange(pos as int, he)[0] == v@[pos as int]);
                        }
                        if hn == 0 {
                            assert(he == pos + 1);
                            assert(!spec_is_digit(v@[he]));
                            assert(false);
                        } else {
                            // A positive number never renders with a
                            // leading zero.
                            lemma_digits_inverse_head(hn);
                            assert(false);
                        }
                    }
                    assert(!spec_has_u64_at(v@, pos as int));
                }
                return None;
            }
        }
        return Some((0, pos + 1));
    }
    if !(0x31 <= c0 && c0 <= 0x39) {
        proof {
            if hyp {
                assert(v@[pos as int] == spec_u64_str(hn)[0]) by {
                    assert(v@.subrange(pos as int, he)[0] == v@[pos as int]);
                }
                assert(false);
            }
            assert(!spec_has_u64_at(v@, pos as int));
        }
        return None;
    }
    let mut n: u64 = 0;
    let mut i: usize = pos;
    while i < len && 0x30 <= v[i] && v[i] <= 0x39
        invariant
            pos <= i <= len,
            len == v@.len(),
            pos < len,
            spec_is_digit(v@[pos as int]),
            v@[pos as int] != 0x30,
            forall|k: int| pos <= k < i ==> 0x30 <= #[trigger] v@[k] <= 0x39,
            n as int == spec_val(v@.subrange(pos as int, i as int)),
            hyp == spec_has_u64_at(v@, pos as int),
            hyp ==> 0 <= hn <= u64::MAX && (pos as int) < he <= len && v@.subrange(
                pos as int,
                he,
            ) == spec_u64_str(hn) && (he == len || !spec_is_digit(v@[he])),
            hyp ==> (forall|k: int| pos <= k < he ==> spec_is_digit(#[trigger] v@[k])),
            hyp ==> i <= he,
        decreases len - i,
    {
        let d: u8 = v[i] - 0x30;
        proof {
            if hyp {
                // The digit run cannot outlast the rendered number.
                if i >= he {
                    assert(i == he);
                    assert(spec_is_digit(v@[i as int]));
                    assert(false);
                }
                // The next digit still belongs to the number, so the
                // extended value stays within bounds.
                let digs = spec_u64_str(hn);
                assert forall|k: int|
                    0 <= k < i + 1 - pos implies #[trigger] v@.subrange(pos as int, i + 1)[k]
                    == digs.take(i + 1 - pos)[k] by {
                    assert(v@.subrange(pos as int, he)[k] == v@[pos + k]);
                }
                assert(v@.subrange(pos as int, i + 1) =~= digs.take(i + 1 - pos));
                assert(v@.subrange(pos as int, i as int) =~= digs.take(i - pos));
                crate::time::lemma_digits_ascii(hn);
                lemma_val_prefix_le(digs, i + 1 - pos);
                lemma_val_of_u64_str(hn);
                assert(digs.take(i + 1 - pos).drop_last() =~= digs.take(i - pos));
                assert(digs.take(i + 1 - pos).last() == v@[i as int]);
                assert(spec_val(digs.take(i + 1 - pos)) == (n as int) * 10 + d);
                assert((n as int) * 10 + d <= hn <= u64::MAX);
                vstd::arithmetic::div_mod::lemma_div_is_ordered(
                    (n as int) * 10,
                    0xffffffffffffffff - d,
                    10,
                );
                assert((n as int) * 10 / 10 == n as int) by (nonlinear_arith);
            }
        }
        if n > (0xffffffffffffffffu64 - (d as u64)) / 10 {
            proof {
                if hyp {
                    assert(false);
                }
                assert(!spec_has_u64_at(v@, pos as int));
            }
            return None;
        }
        proof {
            let db = v@.subrange(pos as int, i as int);
            assert(v@.subrange(pos as int, i + 1) =~= db.push(v@[i as int]));
            assert(v@.subrange(pos as int, i + 1).drop_last() =~= db);
        }
        n = n * 10 + (d as u64);
        i = i + 1;
    }
    if i == pos {
        // The first byte is a digit, so the run is never empty.
        proof {
            assert(false);
        }
        return None;
    }
    proof {
        let db = v@.subrange(pos as int, i as int);
        assert(db[0] == v@[pos as int]);
        lemma_digits_inverse(db);
        assert(spec_u64_str(n as int) == db);
    }
    Some((n, i))
}

/// A positive number's rendering starts with a non-zero digit.
proof fn lemma_digits_inverse_head(n: int)
    requires
        n > 0,
    ensures
        spec_u64_str(n)[0] != 0x30,
    decreases n,
{
    if n < 10 {
        reveal_with_fuel(spec_digits, 3);
    } else {
        lemma_digits_inverse_head(n / 10);
        assert(spec_digits(n) == spec_digits(n / 10).push((0x30 + n % 10) as u8));
        assert(spec_digits(n)[0] == spec_digits(n / 10)[0]) by {
            crate::time::lemma_digits_ascii(n / 10);
            assert(spec_u64_str(n / 10).len() >= 1);
        }
    }
}

/// There is a canonical signed number, fitting `i32` and ending at a
/// non-digit, starting at `pos`.
pub open spec fn spec_has_i32_at(v: Seq<u8>, pos: int) -> bool {
    exists|n: int, e: int|
        #![trigger v.subrange(pos, e), spec_i64_str(n)]
        -0x80000000 <= n <= 0x7fffffff && pos < e <= v.len() && v.subrange(pos, e)
            == spec_i64_str(n) && (e == v.len() || !spec_is_digit(v[e]))
}

/// Parse a canonical signed decimal number at `pos` into an `i32`.
pub fn parse_i32(v: &Vec<u8>, pos: usize) -> (r: Option<(i32, usize)>)
    requires
        pos <= v@.len(),
    ensures
        r matches Some(np) ==> pos < np.1 <= v@.len() && v@.subrange(pos as int, np.1 as int)
            == spec_i64_str(np.0 as int) && (np.1 == v@.len() || !spec_is_digit(
            v@[np.1 as int],
        )),
        r is None ==> !spec_has_i32_at(v@, pos as int),
{
    let len: usize = v.len();
    let ghost hyp = spec_has_i32_at(v@, pos as int);
    let ghost hne: (int, int) = if hyp {
        choose|n: int, e: int|
            #![trigger v@.subrange(pos as int, e), spec_i64_str(n)]
            -0x80000000 <= n <= 0x7fffffff && (pos as int) < e <= v@.len() && v@.subrange(
                pos as int,
                e,
            ) == spec_i64_str(n) && (e == v@.len() || !spec_is_digit(v@[e]))
    } else {
        (0int, 0int)
    };
    let ghost hn = hne.0;
    let ghost he = hne.1;
    proof {
        if hyp {
            assert(-0x80000000 <= hn <= 0x7fffffff && (pos as int) < he <= v@.len()
                && v@.subrange(pos as int, he) == spec_i64_str(hn) && (he == v@.len()
                || !spec_is_digit(v@[he])));
            assert(v@[pos as int] == spec_i64_str(hn)[0]) by {
                assert(v@.subrange(pos as int, he)[0] == v@[pos as int]);
            }
            if hn < 0 {
                assert(spec_i64_str(hn)[0] == 0x2d) by {
                    assert(spec_i64_str(hn) =~= seq![0x2du8] + spec_u64_str(-hn));
                }
            } else {
                crate::time::lemma_digits_ascii(hn);
            }
        }
    }
    if pos < len && v[pos] == 0x2d {
        proof {
            if hyp {
                // A digit never opens with a sign byte, so the
                // hypothesized number is negative and its magnitude is
                // a canonical unsigned number after the sign.
                assert(hn < 0);
                assert(spec_i64_str(hn) == seq![0x2du8] + spec_u64_str(-hn));
                assert(v@.subrange(pos + 1, he) =~= v@.subrange(pos as int, he).skip(1));
                assert((seq![0x2du8] + spec_u64_str(-hn)).skip(1) =~= spec_u64_str(-hn));
                assert(v@.subrange(pos + 1, he) == spec_u64_str(-hn));
                assert(spec_has_u64_at(v@, pos + 1));
            }
        }
        let (m, p) = match parse_u64(v, pos + 1) {
            Some(x) => x,
            None => {
                proof {
                    if hyp {
                        assert(false);
                    }
                    assert(!spec_has_i32_at(v@, pos as int));
                }
                return None;
            },
        };
        proof {
            if hyp {
                // Both the parsed and the hypothesized magnitudes sit
                // at the same spot, ended by a non-digit: they agree.
                assert(v@.skip(pos + 1) =~= v@.subrange(pos + 1, p as int) + v@.skip(p as int));
                assert(v@.skip(pos + 1) =~= v@.subrange(pos + 1, he) + v@.skip(he));
                assert(v@.skip(p as int).len() == 0 || !spec_is_digit(v@.skip(p as int)[0]));
                assert(v@.skip(he).len() == 0 || !spec_is_digit(v@.skip(he)[0]));
                lemma_u64_str_unique(m as int, -hn, v@.skip(p as int), v@.skip(he));
                assert(m as int == -hn);
            }
        }
        if m == 0 || m > 0x80000000u64 {
            // `-0` is not canonical; the magnitude must fit.
            proof {
                if hyp {
                    assert(false);
                }
                assert(!spec_has_i32_at(v@, pos as int));
            }
            return None;
        }
        let n: i32 = (-(m as i64)) as i32;
        proof {
            assert(v@.subrange(pos as int, p as int) =~= seq![0x2du8] + v@.subrange(
                pos + 1,
                p as int,
            ));
        }
        Some((n, p))
    } else {
        proof {
            if hyp {
                // Without a sign byte the number is non-negative.
                assert(hn >= 0);
                assert(v@.subrange(pos as int, he) == spec_u64_str(hn));
                assert(spec_has_u64_at(v@, pos as int));
            }
        }
        let (m, p) = match parse_u64(v, pos) {
            Some(x) => x,
            None => {
                proof {
                    if hyp {
                        assert(false);
                    }
                    assert(!spec_has_i32_at(v@, pos as int));
                }
                return None;
            },
        };
        proof {
            if hyp {
                assert(v@.skip(pos as int) =~= v@.subrange(pos as int, p as int) + v@.skip(
                    p as int,
                ));
                assert(v@.skip(pos as int) =~= v@.subrange(pos as int, he) + v@.skip(he));
                assert(v@.skip(p as int).len() == 0 || !spec_is_digit(v@.skip(p as int)[0]));
                assert(v@.skip(he).len() == 0 || !spec_is_digit(v@.skip(he)[0]));
                lemma_u64_str_unique(m as int, hn, v@.skip(p as int), v@.skip(he));
                assert(m as int == hn);
            }
        }
        if m > 0x7fffffffu64 {
            proof {
                if hyp {
                    assert(false);
                }
                assert(!spec_has_i32_at(v@, pos as int));
            }
            return None;
        }
        Some((m as i32, p))
    }
}

/// There is a canonical JSON array of strings starting at `pos`.
pub open spec fn spec_has_str_array_at(v: Seq<u8>, pos: int) -> bool {
    exists|elems: Seq<Seq<char>>, e: int|
        #![trigger v.subrange(pos, e), crate::json::spec_str_array(elems)]
        pos < e <= v.len() && v.subrange(pos, e) == crate::json::spec_str_array(elems)
}

/// Parse a canonical JSON array of strings at `pos`.
///
/// On success the consumed bytes are exactly the canonical rendering of
/// the returned strings; on failure no canonical string array starts at
/// `pos` at all.
#[verifier::rlimit(100)]
pub fn parse_str_array(v: &Vec<u8>, pos: usize) -> (r: Option<(Vec<String>, usize)>)
    requires
        pos <= v@.len(),
    ensures
        r matches Some(ap) ==> pos < ap.1 <= v@.len() && v@.subrange(pos as int, ap.1 as int)
            == crate::json::spec_str_array(crate::json::views_of(ap.0@)),
        r is None ==> !spec_has_str_array_at(v@, pos as int),
{
    let len: usize = v.len();
    let ghost hyp = spec_has_str_array_at(v@, pos as int);
    let ghost hee: (Seq<Seq<char>>, int) = if hyp {
        choose|elems: Seq<Seq<char>>, e: int|
            #![trigger v@.subrange(pos as int, e), crate::json::spec_str_array(elems)]
            (pos as int) < e <= v@.len() && v@.subrange(pos as int, e)
                == crate::json::spec_str_array(elems)
    } else {
        (Seq::<Seq<char>>::empty(), 0int)
    };
    let ghost helems = hee.0;
    let ghost he = hee.1;
    proof {
        if hyp {
            assert((pos as int) < he <= v@.len() && v@.subrange(pos as int, he)
                == crate::json::spec_str_array(helems));
            assert(v@.skip(pos as int) =~= v@.subrange(pos as int, he) + v@.skip(he));
            assert(crate::json::spec_str_array(helems) + v@.skip(he) =~= seq![0x5bu8] + (
            crate::json::spec_str_array_items(helems) + (seq![0x5du8] + v@.skip(he))));
            lemma_peel(
                v@,
                pos as int,
                seq![0x5bu8],
                crate::json::spec_str_array_items(helems) + (seq![0x5du8] + v@.skip(he)),
            );
            assert(v@[pos as int] == 0x5b) by {
                assert(v@.subrange(pos as int, pos + 1)[0] == v@[pos as int]);
            }
        }
    }
    if pos >= len || v[pos] != 0x5b {
        proof {
            if hyp {
                assert(false);
            }
            assert(!spec_has_str_array_at(v@, pos as int));
        }
        return None;
    }
    let mut acc: Vec<String> = Vec::new();
    let mut i: usize = pos + 1;
    if i < len && v[i] == 0x5d {
        proof {
            assert(crate::json::views_of(acc@) =~= Seq::<Seq<char>>::empty());
            assert(v@.subrange(pos as int, pos + 2) =~= crate::json::spec_str_array(
                crate::json::views_of(acc@),
            ));
        }
        return Some((acc, i + 1));
    }
    proof {
        if hyp {
            // The array is not empty: an empty one closes right away.
            if helems.len() == 0 {
                assert(crate::json::spec_str_array_items(helems) =~= Seq::<u8>::empty());
                assert(v@.skip(pos + 1) == Seq::<u8>::empty() + (seq![0x5du8] + v@.skip(he)));
                assert(v@[pos + 1] == 0x5d) by {
                    assert(v@.skip(pos + 1)[0] == v@[pos + 1]);
                    assert((Seq::<u8>::empty() + (seq![0x5du8] + v@.skip(he)))[0] == 0x5d);
                }
                assert(pos + 1 < len);
                assert(false);
            }
        }
    }
    let ghost mut k: int = 0;
    proof {
        if hyp {
            assert(helems.skip(0) =~= helems);
        }
    }
    loop
        invariant_except_break
            acc@.len() == 0 ==> i == pos + 1,
            acc@.len() > 0 ==> v@.subrange(pos + 1, i as int)
                == crate::json::spec_str_array_items(crate::json::views_of(acc@))
                + seq![0x2cu8],
            hyp ==> 0 <= k < helems.len() && v@.skip(i as int)
                == crate::json::spec_str_array_items(helems.skip(k)) + (seq![0x5du8] + v@.skip(
                he,
            )),
        invariant
            pos + 1 <= i <= len,
            len == v@.len(),
            v@[pos as int] == 0x5b,
            hyp == spec_has_str_array_at(v@, pos as int),
            hyp ==> (pos as int) < he <= len,
        ensures
            pos + 1 <= i < len,
            v@[i as int] == 0x5d,
            v@.subrange(pos + 1, i as int) == crate::json::spec_str_array_items(
                crate::json::views_of(acc@),
            ),
        decreases len - i,
    {
        let ghost acc0 = acc@;
        let ghost i0 = i as int;
        proof {
            if hyp {
                // The next piece of the array is one rendered string,
                // followed by a separator or the closing bracket.
                let rest = helems.skip(k);
                assert(rest.len() > 0);
                assert(rest[0] == helems[k]);
                if rest.len() == 1 {
                    assert(crate::json::spec_str_array_items(rest) == crate::json::spec_json_string(
                        rest[0],
                    ));
                    assert(v@.skip(i as int) =~= crate::json::spec_json_string(helems[k]) + (
                    seq![0x5du8] + v@.skip(he)));
                } else {
                    assert(crate::json::spec_str_array_items(rest)
                        == crate::json::spec_json_string(rest[0]) + seq![0x2cu8]
                        + crate::json::spec_str_array_items(rest.drop_first()));
                    assert(rest.drop_first() =~= helems.skip(k + 1));
                    assert(v@.skip(i as int) =~= crate::json::spec_json_string(helems[k]) + (
                    seq![0x2cu8] + (crate::json::spec_str_array_items(helems.skip(k + 1)) + (
                    seq![0x5du8] + v@.skip(he)))));
                }
                lemma_peel(
                    v@,
                    i as int,
                    crate::json::spec_json_string(helems[k]),
                    if helems.skip(k).len() == 1 {
                        seq![0x5du8] + v@.skip(he)
                    } else {
                        seq![0x2cu8] + (crate::json::spec_str_array_items(helems.skip(k + 1)) + (
                        seq![0x5du8] + v@.skip(he)))
                    },
                );
                assert(spec_has_json_string_at(v@, i as int)) by {
                    assert(v@.subrange(
                        i as int,
                        i + crate::json::spec_json_string(helems[k]).len(),
                    ) == crate::json::spec_json_string(helems[k]));
                }
            }
        }
        let (s, p) = match parse_string(v, i) {
            Some(x) => x,
            None => {
                proof {
                    if hyp {
                        assert(false);
                    }
                    assert(!spec_has_str_array_at(v@, pos as int));
                }
                return None;
            },
        };
        proof {
            let prev = crate::json::views_of(acc0);
            assert(crate::json::views_of(acc0.push(s)) =~= prev.push(s@));
            crate::json::lemma_str_array_items_snoc(prev, s@);
            assert(prev.len() == acc0.len());
            if acc0.len() == 0 {
                assert(v@.subrange(pos + 1, p as int) =~= v@.subrange(i0, p as int));
            } else {
                assert(v@.subrange(pos + 1, p as int) =~= v@.subrange(pos + 1, i0)
                    + v@.subrange(i0, p as int));
            }
            assert(v@.subrange(pos + 1, p as int) == crate::json::spec_str_array_items(
                crate::json::views_of(acc0.push(s)),
            ));
            if hyp {
                lemma_split_skip(v@, i0, p as int);
                crate::json::lemma_json_string_unique(
                    s@,
                    helems[k],
                    v@.skip(p as int),
                    if helems.skip(k).len() == 1 {
                        seq![0x5du8] + v@.skip(he)
                    } else {
                        seq![0x2cu8] + (crate::json::spec_str_array_items(helems.skip(k + 1)) + (
                        seq![0x5du8] + v@.skip(he)))
                    },
                );
            }
        }
        acc.push(s);
        i = p;
        if i >= len {
            proof {
                if hyp {
                    assert(v@.skip(i as int).len() > 0);
                    assert(false);
                }
                assert(!spec_has_str_array_at(v@, pos as int));
            }
            return None;
        }
        let c: u8 = v[i];
        proof {
            if hyp {
                assert(v@.skip(i as int)[0] == v@[i as int]);
                if helems.skip(k).len() == 1 {
                    assert(v@[i as int] == 0x5d) by {
                        assert((seq![0x5du8] + v@.skip(he))[0] == 0x5d);
                    }
                } else {
                    assert(v@[i as int] == 0x2c) by {
                        assert((seq![0x2cu8] + (crate::json::spec_str_array_items(helems.skip(
                            k + 1,
                        )) + (seq![0x5du8] + v@.skip(he))))[0] == 0x2c);
                    }
                }
            }
        }
        if c == 0x5d {
            break;
        }
        if c != 0x2c {
            proof {
                if hyp {
                    assert(false);
                }
                assert(!spec_has_str_array_at(v@, pos as int));
            }
            return None;
        }
        proof {
            assert(v@.subrange(pos + 1, i + 1) =~= v@.subrange(pos + 1, i as int)
                + seq![0x2cu8]);
            if hyp {
                // A separator: more elements follow.
                assert(helems.skip(k).len() > 1);
                lemma_peel(
                    v@,
                    i as int,
                    seq![0x2cu8],
                    crate::json::spec_str_array_items(helems.skip(k + 1)) + (seq![0x5du8]
                        + v@.skip(he)),
                );
                k = k + 1;
            }
        }
        i = i + 1;
    }
    proof {
        assert(v@.subrange(pos as int, i + 1) =~= seq![0x5bu8] + v@.subrange(pos + 1, i as int)
            + seq![0x5du8]);
        assert(seq![0x5bu8] + v@.subrange(pos + 1, i as int) + seq![0x5du8]
            =~= crate::json::spec_str_array(crate::json::views_of(acc@)));
    }
    Some((acc, i + 1))
}

/// There is `null` or a canonical JSON string starting at `pos`.
pub open spec fn spec_has_opt_string_at(v: Seq<u8>, pos: int) -> bool {
    exists|o: Option<String>, e: int|
        #![trigger v.subrange(pos, e), crate::schema::spec_opt_string(o)]
        pos < e <= v.len() && v.subrange(pos, e) == crate::schema::spec_opt_string(o)
}

/// Parse `null` or a canonical JSON string at `pos`.
pub fn parse_opt_string(v: &Vec<u8>, pos: usize) -> (r: Option<(Option<String>, usize)>)
    requires
        pos <= v@.len(),
    ensures
        r matches Some(op) ==> pos < op.1 <= v@.len() && v@.subrange(pos as int, op.1 as int)
            == crate::schema::spec_opt_string(op.0),
        r is None ==> !spec_has_opt_string_at(v@, pos as int),
{
    let len: usize = v.len();
    let ghost hyp = spec_has_opt_string_at(v@, pos as int);
    let ghost hoe: (Option<String>, int) = if hyp {
        choose|o: Option<String>, e: int|
            #![trigger v@.subrange(pos as int, e), crate::schema::spec_opt_string(o)]
            (pos as int) < e <= v@.len() && v@.subrange(pos as int, e)
                == crate::schema::spec_opt_string(o)
    } else {
        (None, 0int)
    };
    let ghost ho = hoe.0;
    let ghost he = hoe.1;
    proof {
        if hyp {
            assert((pos as int) < he <= v@.len() && v@.subrange(pos as int, he)
                == crate::schema::spec_opt_string(ho));
            crate::schema::lemma_null_bytes();
            assert(v@[pos as int] == crate::schema::spec_opt_string(ho)[0]) by {
                assert(v@.subrange(pos as int, he)[0] == v@[pos as int]);
            }
        }
    }
    if pos < len && v[pos] == 0x6e {
        proof {
            reveal_strlit("null");
            crate::json::lemma_ascii_lit_line("null");
            if hyp {
                // A string literal opens with a quote, so this is `null`.
                assert(ho is None);
                assert(he == pos + 4);
            }
        }
        match expect_lit(v, pos, "null") {
            Some(p) => Some((None, p)),
            None => {
                proof {
                    if hyp {
                        assert(false);
                    }
                    assert(!spec_has_opt_string_at(v@, pos as int));
                }
                None
            },
        }
    } else {
        proof {
            if hyp {
                // Not opening with `n`, so the value is a string.
                assert(ho is Some);
                assert(spec_has_json_string_at(v@, pos as int));
            }
        }
        match parse_string(v, pos) {
            Some((s, p)) => Some((Some(s), p)),
            None => {
                proof {
                    if hyp {
                        assert(false);
                    }
                    assert(!spec_has_opt_string_at(v@, pos as int));
                }
                None
            },
        }
    }
}

/// There is `null` or a canonical unsigned number, fitting `u64` and
/// ending at a non-digit, starting at `pos`.
pub open spec fn spec_has_opt_u64_at(v: Seq<u8>, pos: int) -> bool {
    exists|o: Option<u64>, e: int|
        #![trigger v.subrange(pos, e), crate::schema::spec_opt_u64(o)]
        pos < e <= v.len() && v.subrange(pos, e) == crate::schema::spec_opt_u64(o) && (e
            == v.len() || !spec_is_digit(v[e]))
}

/// Parse `null` or a canonical unsigned number at `pos`.
pub fn parse_opt_u64(v: &Vec<u8>, pos: usize) -> (r: Option<(Option<u64>, usize)>)
    requires
        pos <= v@.len(),
    ensures
        r matches Some(op) ==> pos < op.1 <= v@.len() && v@.subrange(pos as int, op.1 as int)
            == crate::schema::spec_opt_u64(op.0) && (op.0 is None || op.1 == v@.len()
            || !spec_is_digit(v@[op.1 as int])),
        r is None ==> !spec_has_opt_u64_at(v@, pos as int),
{
    let len: usize = v.len();
    let ghost hyp = spec_has_opt_u64_at(v@, pos as int);
    let ghost hoe: (Option<u64>, int) = if hyp {
        choose|o: Option<u64>, e: int|
            #![trigger v@.subrange(pos as int, e), crate::schema::spec_opt_u64(o)]
            (pos as int) < e <= v@.len() && v@.subrange(pos as int, e)
                == crate::schema::spec_opt_u64(o) && (e == v@.len() || !spec_is_digit(v@[e]))
    } else {
        (None, 0int)
    };
    let ghost ho = hoe.0;
    let ghost he = hoe.1;
    proof {
        if hyp {
            assert((pos as int) < he <= v@.len() && v@.subrange(pos as int, he)
                == crate::schema::spec_opt_u64(ho) && (he == v@.len() || !spec_is_digit(
                v@[he],
            )));
            crate::schema::lemma_null_bytes();
            assert(v@[pos as int] == crate::schema::spec_opt_u64(ho)[0]) by {
                assert(v@.subrange(pos as int, he)[0] == v@[pos as int]);
            }
            if ho is Some {
                crate::time::lemma_digits_ascii(ho->0 as int);
            }
        }
    }
    if pos < len && v[pos] == 0x6e {
        proof {
            reveal_strlit("null");
            crate::json::lemma_ascii_lit_line("null");
            if hyp {
                assert(ho is None);
                assert(he == pos + 4);
            }
        }
        match expect_lit(v, pos, "null") {
            Some(p) => Some((None, p)),
            None => {
                proof {
                    if hyp {
                        assert(false);
                    }
                    assert(!spec_has_opt_u64_at(v@, pos as int));
                }
                None
            },
        }
    } else {
        proof {
            if hyp {
                assert(ho is Some);
                assert(spec_has_u64_at(v@, pos as int));
            }
        }
        match parse_u64(v, pos) {
            Some((n, p)) => Some((Some(n), p)),
            None => {
                proof {
                    if hyp {
                        assert(false);
                    }
                    assert(!spec_has_opt_u64_at(v@, pos as int));
                }
                None
            },
        }
    }
}

/// There is `null` or a canonical unsigned number, fitting `u32` and
/// ending at a non-digit, starting at `pos`.
pub open spec fn spec_has_opt_u32_at(v: Seq<u8>, pos: int) -> bool {
    exists|o: Option<u32>, e: int|
        #![trigger v.subrange(pos, e), crate::schema::spec_opt_u32(o)]
        pos < e <= v.len() && v.subrange(pos, e) == crate::schema::spec_opt_u32(o) && (e
            == v.len() || !spec_is_digit(v[e]))
}

/// Parse `null` or a canonical unsigned number fitting `u32` at `pos`.
pub fn parse_opt_u32(v: &Vec<u8>, pos: usize) -> (r: Option<(Option<u32>, usize)>)
    requires
        pos <= v@.len(),
    ensures
        r matches Some(op) ==> pos < op.1 <= v@.len() && v@.subrange(pos as int, op.1 as int)
            == crate::schema::spec_opt_u32(op.0) && (op.0 is None || op.1 == v@.len()
            || !spec_is_digit(v@[op.1 as int])),
        r is None ==> !spec_has_opt_u32_at(v@, pos as int),
{
    let len: usize = v.len();
    let ghost hyp = spec_has_opt_u32_at(v@, pos as int);
    let ghost hoe: (Option<u32>, int) = if hyp {
        choose|o: Option<u32>, e: int|
            #![trigger v@.subrange(pos as int, e), crate::schema::spec_opt_u32(o)]
            (pos as int) < e <= v@.len() && v@.subrange(pos as int, e)
                == crate::schema::spec_opt_u32(o) && (e == v@.len() || !spec_is_digit(v@[e]))
    } else {
        (None, 0int)
    };
    let ghost ho = hoe.0;
    let ghost he = hoe.1;
    proof {
        if hyp {
            assert((pos as int) < he <= v@.len() && v@.subrange(pos as int, he)
                == crate::schema::spec_opt_u32(ho) && (he == v@.len() || !spec_is_digit(
                v@[he],
            )));
            crate::schema::lemma_null_bytes();
            assert(v@[pos as int] == crate::schema::spec_opt_u32(ho)[0]) by {
                assert(v@.subrange(pos as int, he)[0] == v@[pos as int]);
            }
            if ho is Some {
                crate::time::lemma_digits_ascii(ho->0 as int);
            }
        }
    }
    if pos < len && v[pos] == 0x6e {
        proof {
            reveal_strlit("null");
            crate::json::lemma_ascii_lit_line("null");
            if hyp {
                assert(ho is None);
                assert(he == pos + 4);
            }
        }
        match expect_lit(v, pos, "null") {
            Some(p) => Some((None, p)),
            None => {
                proof {
                    if hyp {
                        assert(false);
                    }
                    assert(!spec_has_opt_u32_at(v@, pos as int));
                }
                None
            },
        }
    } else {
        proof {
            if hyp {
                assert(ho is Some);
                assert(spec_has_u64_at(v@, pos as int));
            }
        }
        let (m, p) = match parse_u64(v, pos) {
            Some(x) => x,
            None => {
                proof {
                    if hyp {
                        assert(false);
                    }
                    assert(!spec_has_opt_u32_at(v@, pos as int));
                }
                return None;
            },
        };
        proof {
            if hyp {
                // The parsed and the hypothesized number agree.
                assert(v@.skip(pos as int) =~= v@.subrange(pos as int, p as int) + v@.skip(
                    p as int,
                ));
                assert(v@.skip(pos as int) =~= v@.subrange(pos as int, he) + v@.skip(he));
                assert(v@.skip(p as int).len() == 0 || !spec_is_digit(v@.skip(p as int)[0]));
                assert(v@.skip(he).len() == 0 || !spec_is_digit(v@.skip(he)[0]));
                lemma_u64_str_unique(m as int, ho->0 as int, v@.skip(p as int), v@.skip(he));
            }
        }
        if m > 0xffffffffu64 {
            proof {
                if hyp {
                    assert(false);
                }
                assert(!spec_has_opt_u32_at(v@, pos as int));
            }
            return None;
        }
        Some((Some(m as u32), p))
    }
}

/// There is `null` or a canonical signed number, fitting `i32` and
/// ending at a non-digit, starting at `pos`.
pub open spec fn spec_has_opt_i32_at(v: Seq<u8>, pos: int) -> bool {
    exists|o: Option<i32>, e: int|
        #![trigger v.subrange(pos, e), crate::schema::spec_opt_i32(o)]
        pos < e <= v.len() && v.subrange(pos, e) == crate::schema::spec_opt_i32(o) && (e
            == v.len() || !spec_is_digit(v[e]))
}

/// Parse `null` or a canonical signed number fitting `i32` at `pos`.
pub fn parse_opt_i32(v: &Vec<u8>, pos: usize) -> (r: Option<(Option<i32>, usize)>)
    requires
        pos <= v@.len(),
    ensures
        r matches Some(op) ==> pos < op.1 <= v@.len() && v@.subrange(pos as int, op.1 as int)
            == crate::schema::spec_opt_i32(op.0) && (op.0 is None || op.1 == v@.len()
            || !spec_is_digit(v@[op.1 as int])),
        r is None ==> !spec_has_opt_i32_at(v@, pos as int),
{
    let len: usize = v.len();
    let ghost hyp = spec_has_opt_i32_at(v@, pos as int);
    let ghost hoe: (Option<i32>, int) = if hyp {
        choose|o: Option<i32>, e: int|
            #![trigger v@.subrange(pos as int, e), crate::schema::spec_opt_i32(o)]
            (pos as int) < e <= v@.len() && v@.subrange(pos as int, e)
                == crate::schema::spec_opt_i32(o) && (e == v@.len() || !spec_is_digit(v@[e]))
    } else {
        (None, 0int)
    };
    let ghost ho = hoe.0;
    let ghost he = hoe.1;
    proof {
        if hyp {
            assert((pos as int) < he <= v@.len() && v@.subrange(pos as int, he)
                == crate::schema::spec_opt_i32(ho) && (he == v@.len() || !spec_is_digit(
                v@[he],
            )));
            crate::schema::lemma_null_bytes();
            assert(v@[pos as int] == crate::schema::spec_opt_i32(ho)[0]) by {
                assert(v@.subrange(pos as int, he)[0] == v@[pos as int]);
            }
            if ho is Some {
                let n = ho->0 as int;
                if n < 0 {
                    assert(spec_i64_str(n)[0] == 0x2d) by {
                        assert(spec_i64_str(n) =~= seq![0x2du8] + spec_u64_str(-n));
                    }
                } else {
                    crate::time::lemma_digits_ascii(n);
                }
            }
        }
    }
    if pos < len && v[pos] == 0x6e {
        proof {
            reveal_strlit("null");
            crate::json::lemma_ascii_lit_line("null");
            if hyp {
                assert(ho is None);
                assert(he == pos + 4);
            }
        }
        match expect_lit(v, pos, "null") {
            Some(p) => Some((None, p)),
            None => {
                proof {
                    if hyp {
                        assert(false);
                    }
                    assert(!spec_has_opt_i32_at(v@, pos as int));
                }
                None
            },
        }
    } else {
        proof {
            if hyp {
                assert(ho is Some);
                assert(spec_has_i32_at(v@, pos as int));
            }
        }
        match parse_i32(v, pos) {
            Some((n, p)) => Some((Some(n), p)),
            None => {
                proof {
                    if hyp {
                        assert(false);
                    }
                    assert(!spec_has_opt_i32_at(v@, pos as int));
                }
                None
            },
        }
    }
}

/// There is a canonical unsigned number, fitting `u32` and ending at a
/// non-digit, starting at `pos`.
pub open spec fn spec_has_u32_at(v: Seq<u8>, pos: int) -> bool {
    exists|n: int, e: int|
        #![trigger v.subrange(pos, e), spec_u64_str(n)]
        0 <= n <= 0xffffffff && pos < e <= v.len() && v.subrange(pos, e) == spec_u64_str(n)
            && (e == v.len() || !spec_is_digit(v[e]))
}

/// Parse a canonical unsigned decimal number at `pos` into a `u32`.
pub fn parse_u32(v: &Vec<u8>, pos: usize) -> (r: Option<(u32, usize)>)
    requires
        pos <= v@.len(),
    ensures
        r matches Some(np) ==> pos < np.1 <= v@.len() && v@.subrange(pos as int, np.1 as int)
            == spec_u64_str(np.0 as int) && (np.1 == v@.len() || !spec_is_digit(
            v@[np.1 as int],
        )),
        r is None ==> !spec_has_u32_at(v@, pos as int),
{
    let ghost hyp = spec_has_u32_at(v@, pos as int);
    let ghost hne: (int, int) = if hyp {
        choose|n: int, e: int|
            #![trigger v@.subrange(pos as int, e), spec_u64_str(n)]
            0 <= n <= 0xffffffff && (pos as int) < e <= v@.len() && v@.subrange(pos as int, e)
                == spec_u64_str(n) && (e == v@.len() || !spec_is_digit(v@[e]))
    } else {
        (0int, 0int)
    };
    let ghost hn = hne.0;
    let ghost he = hne.1;
    proof {
        if hyp {
            assert(0 <= hn <= 0xffffffff && (pos as int) < he <= v@.len() && v@.subrange(
                pos as int,
                he,
            ) == spec_u64_str(hn) && (he == v@.len() || !spec_is_digit(v@[he])));
            assert(spec_has_u64_at(v@, pos as int));
        }
    }
    let (m, p) = match parse_u64(v, pos) {
        Some(x) => x,
        None => {
            proof {
                if hyp {
                    assert(false);
                }
                assert(!spec_has_u32_at(v@, pos as int));
            }
            return None;
        },
    };
    proof {
        if hyp {
            assert(v@.skip(pos as int) =~= v@.subrange(pos as int, p as int) + v@.skip(
                p as int,
            ));
            assert(v@.skip(pos as int) =~= v@.subrange(pos as int, he) + v@.skip(he));
            assert(v@.skip(p as int).len() == 0 || !spec_is_digit(v@.skip(p as int)[0]));
            assert(v@.skip(he).len() == 0 || !spec_is_digit(v@.skip(he)[0]));
            lemma_u64_str_unique(m as int, hn, v@.skip(p as int), v@.skip(he));
        }
    }
    if m > 0xffffffffu64 {
        proof {
            if hyp {
                assert(false);
            }
            assert(!spec_has_u32_at(v@, pos as int));
        }
        return None;
    }
    Some((m as u32, p))
}

} // verus!
