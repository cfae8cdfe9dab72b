//! Canonical JSON emission at the byte level.
//!
//! Every JSON document this crate produces — the persisted job files and
//! the one-line stdout envelopes — is rendered through these helpers, so
//! one definition fixes the wire format.  Strings are escaped byte-wise:
//! quote and backslash get a backslash escape, control bytes become
//! `\u00XX` with lowercase hex, everything else passes through (UTF-8
//! continuation bytes included).  The escaped form never contains a raw
//! newline, which is what keeps every document on a single line.

use vstd::prelude::*;
use vstd::utf8::encode_utf8;
use vstd::string::StringSliceAdditionalSpecFns;
use crate::time::{spec_u64_str, push_u64};

verus! {

/// Lowercase hex digit for a nibble.
pub open spec fn spec_hex_digit(n: int) -> u8 {
    if n < 10 {
        (0x30 + n) as u8
    } else {
        (0x57 + n) as u8
    }
}

/// The escape of a single byte inside a JSON string.
pub open spec fn spec_escape_byte(b: u8) -> Seq<u8> {
    if b == 0x22 {
        seq![0x5cu8, 0x22u8]
    } else if b == 0x5c {
        seq![0x5cu8, 0x5cu8]
    } else if b < 0x20 {
        seq![0x5cu8, 0x75u8, 0x30u8, 0x30u8, spec_hex_digit(b as int / 16), spec_hex_digit(
            b as int % 16,
        )]
    } else {
        seq![b]
    }
}

/// The escaped form of a byte sequence.
pub open spec fn spec_escape(s: Seq<u8>) -> Seq<u8>
    decreases s.len(),
{
    if s.len() == 0 {
        Seq::<u8>::empty()
    } else {
        spec_escape_byte(s[0]) + spec_escape(s.drop_first())
    }
}

/// A JSON string literal: quote, escaped UTF-8 bytes, quote.
pub open spec fn spec_json_string(s: Seq<char>) -> Seq<u8> {
    seq![0x22u8] + spec_escape(encode_utf8(s)) + seq![0x22u8]
}

/// Escaping distributes over appending one byte.
pub proof fn lemma_escape_snoc(s: Seq<u8>, b: u8)
    ensures
        spec_escape(s.push(b)) == spec_escape(s) + spec_escape_byte(b),
    decreases s.len(),
{
    if s.len() == 0 {
        assert((s.push(b))[0] == b);
        assert(s.push(b).drop_first() =~= Seq::<u8>::empty());
        assert(spec_escape(s.push(b)) == spec_escape_byte(b) + spec_escape(
            Seq::<u8>::empty(),
        ));
        assert(spec_escape_byte(b) + Seq::<u8>::empty() =~= spec_escape_byte(b));
        assert(Seq::<u8>::empty() + spec_escape_byte(b) =~= spec_escape_byte(b));
    } else {
        assert(s.push(b).drop_first() =~= s.drop_first().push(b));
        lemma_escape_snoc(s.drop_first(), b);
        assert(spec_escape(s.push(b)) =~= spec_escape(s) + spec_escape_byte(b));
    }
}

/// Escaping distributes over concatenation.
pub proof fn lemma_escape_concat(a: Seq<u8>, b: Seq<u8>)
    ensures
        spec_escape(a + b) == spec_escape(a) + spec_escape(b),
    decreases a.len(),
{
    if a.len() == 0 {
        assert(a + b =~= b);
        assert(spec_escape(a) + spec_escape(b) =~= spec_escape(b));
    } else {
        assert((a + b)[0] == a[0]);
        assert((a + b).drop_first() =~= a.drop_first() + b);
        lemma_escape_concat(a.drop_first(), b);
        assert(spec_escape(a + b) =~= spec_escape(a) + spec_escape(b));
    }
}

/// The escape of a byte never starts with a quote, and starts with a
/// backslash exactly for the bytes that need escaping.
pub proof fn lemma_escape_byte_head(x: u8)
    ensures
        spec_escape_byte(x).len() >= 1,
        spec_escape_byte(x)[0] != 0x22,
        (spec_escape_byte(x)[0] == 0x5c) <==> (x == 0x22 || x == 0x5c || x < 0x20),
{
}

/// Escape units are mutually prefix-free: equal streams that both start
/// with an escape unit start with the same source byte.
proof fn lemma_escape_unit_unique(x: u8, y: u8, r1: Seq<u8>, r2: Seq<u8>)
    requires
        spec_escape_byte(x) + r1 == spec_escape_byte(y) + r2,
    ensures
        x == y,
        r1 == r2,
{
    let e1 = spec_escape_byte(x);
    let e2 = spec_escape_byte(y);
    let s = e1 + r1;
    lemma_escape_byte_head(x);
    lemma_escape_byte_head(y);
    assert(s[0] == e1[0] && s[0] == e2[0]);
    let x_esc = x == 0x22 || x == 0x5c || x < 0x20;
    let y_esc = y == 0x22 || y == 0x5c || y < 0x20;
    if !x_esc && !y_esc {
        assert(s[0] == x && s[0] == y);
    } else {
        assert(x_esc == y_esc);
        assert(x_esc && y_esc);
        assert(e1.len() >= 2 && e2.len() >= 2);
        assert(s[1] == e1[1] && s[1] == e2[1]);
        if x == 0x22 || x == 0x5c {
            // A one-character escape: the second byte repeats the form.
            assert(e1[1] == x);
            assert(y == 0x22 || y == 0x5c);
            assert(e2[1] == y);
        } else {
            // A `\u00XX` escape: the second byte is `u`, so the other
            // side is the same form, and the hex digits pin the byte.
            assert(e1[1] == 0x75);
            assert(!(y == 0x22 || y == 0x5c));
            assert(e1.len() == 6 && e2.len() == 6);
            assert(s[4] == spec_hex_digit(x as int / 16) && s[4] == spec_hex_digit(
                y as int / 16,
            ));
            assert(s[5] == spec_hex_digit(x as int % 16) && s[5] == spec_hex_digit(
                y as int % 16,
            ));
            lemma_hex_digit_unique(x as int / 16, y as int / 16);
            lemma_hex_digit_unique(x as int % 16, y as int % 16);
            vstd::arithmetic::div_mod::lemma_fundamental_div_mod(x as int, 16);
            vstd::arithmetic::div_mod::lemma_fundamental_div_mod(y as int, 16);
        }
    }
    assert(e1.len() == e2.len());
    assert(r1 =~= s.skip(e1.len() as int));
    assert(r2 =~= (e2 + r2).skip(e2.len() as int));
}

pub proof fn lemma_hex_digit_unique(a: int, b: int)
    requires
        0 <= a < 16,
        0 <= b < 16,
        spec_hex_digit(a) == spec_hex_digit(b),
    ensures
        a == b,
{
}

/// An escaped stream closed by a quote determines its source bytes: the
/// closing quote cannot be mistaken for escaped content.
proof fn lemma_escape_chain_unique(a: Seq<u8>, b: Seq<u8>, r1: Seq<u8>, r2: Seq<u8>)
    requires
        spec_escape(a) + (seq![0x22u8] + r1) == spec_escape(b) + (seq![0x22u8] + r2),
    ensures
        a == b,
        r1 == r2,
    decreases a.len(),
{
    let s = spec_escape(a) + (seq![0x22u8] + r1);
    if a.len() == 0 && b.len() == 0 {
        assert(a =~= b);
        assert(r1 =~= s.skip(1));
        assert(r2 =~= (spec_escape(b) + (seq![0x22u8] + r2)).skip(1));
    } else if a.len() == 0 {
        assert(s[0] == 0x22);
        lemma_escape_byte_head(b[0]);
        assert(s =~= spec_escape_byte(b[0]) + (spec_escape(b.drop_first()) + (seq![0x22u8]
            + r2)));
        assert(s[0] == spec_escape_byte(b[0])[0]);
        assert(false);
    } else if b.len() == 0 {
        assert(s[0] == 0x22);
        lemma_escape_byte_head(a[0]);
        assert(s =~= spec_escape_byte(a[0]) + (spec_escape(a.drop_first()) + (seq![0x22u8]
            + r1)));
        assert(s[0] == spec_escape_byte(a[0])[0]);
        assert(false);
    } else {
        assert(spec_escape(a) + (seq![0x22u8] + r1) =~= spec_escape_byte(a[0]) + (spec_escape(
            a.drop_first(),
        ) + (seq![0x22u8] + r1)));
        assert(spec_escape(b) + (seq![0x22u8] + r2) =~= spec_escape_byte(b[0]) + (spec_escape(
            b.drop_first(),
        ) + (seq![0x22u8] + r2)));
        lemma_escape_unit_unique(
            a[0],
            b[0],
            spec_escape(a.drop_first()) + (seq![0x22u8] + r1),
            spec_escape(b.drop_first()) + (seq![0x22u8] + r2),
        );
        lemma_escape_chain_unique(a.drop_first(), b.drop_first(), r1, r2);
        assert forall|i: int| 0 <= i < a.len() implies a[i] == b[i] by {
            if i > 0 {
                assert(a[i] == a.drop_first()[i - 1]);
                assert(b[i] == b.drop_first()[i - 1]);
            }
        }
        assert(a =~= b);
    }
}

/// A JSON string literal determines its content and what follows it:
/// two decompositions of the same bytes agree.
pub proof fn lemma_json_string_unique(a: Seq<char>, b: Seq<char>, r1: Seq<u8>, r2: Seq<u8>)
    requires
        spec_json_string(a) + r1 == spec_json_string(b) + r2,
    ensures
        a == b,
        r1 == r2,
{
    let ea = encode_utf8(a);
    let eb = encode_utf8(b);
    let s = spec_json_string(a) + r1;
    assert(s =~= seq![0x22u8] + (spec_escape(ea) + (seq![0x22u8] + r1)));
    assert(spec_json_string(b) + r2 =~= seq![0x22u8] + (spec_escape(eb) + (seq![0x22u8]
        + r2)));
    assert(spec_escape(ea) + (seq![0x22u8] + r1) =~= s.skip(1));
    assert(spec_escape(eb) + (seq![0x22u8] + r2) =~= (spec_json_string(b) + r2).skip(1));
    lemma_escape_chain_unique(ea, eb, r1, r2);
    vstd::utf8::encode_utf8_decode_utf8(a);
    vstd::utf8::encode_utf8_decode_utf8(b);
}

/// The bytes of a non-empty ASCII keyword, character for character.
pub proof fn lemma_lit_head(s: &str)
    requires
        vstd::string::is_ascii(s),
        s@.len() > 0,
    ensures
        s.spec_bytes().len() == s@.len(),
        forall|i: int| 0 <= i < s@.len() ==> #[trigger] s.spec_bytes()[i] == s@[i] as u8,
{
    vstd::utf8::is_ascii_chars_encode_utf8(s@);
}

/// `b` holds no raw newline byte.
pub open spec fn no_newline(b: Seq<u8>) -> bool {
    forall|i: int| 0 <= i < b.len() ==> b[i] != 0x0a
}

/// Concatenation preserves newline-freedom.
pub broadcast proof fn lemma_no_newline_concat(a: Seq<u8>, b: Seq<u8>)
    ensures
        no_newline(a) && no_newline(b) ==> no_newline(#[trigger] (a + b)),
{
    if no_newline(a) && no_newline(b) {
        assert forall|i: int| 0 <= i < (a + b).len() implies (a + b)[i] != 0x0a by {
            if i < a.len() {
                assert((a + b)[i] == a[i]);
            } else {
                assert((a + b)[i] == b[i - a.len()]);
            }
        }
    }
}

/// Escaped output never holds a raw newline, whatever the input.
pub proof fn lemma_escape_no_newline(s: Seq<u8>)
    ensures
        no_newline(spec_escape(s)),
    decreases s.len(),
{
    if s.len() > 0 {
        lemma_escape_no_newline(s.drop_first());
        assert(no_newline(spec_escape_byte(s[0])));
        lemma_no_newline_concat(spec_escape_byte(s[0]), spec_escape(s.drop_first()));
    }
}

/// A JSON string literal never holds a raw newline.
pub proof fn lemma_json_string_no_newline(s: Seq<char>)
    ensures
        no_newline(spec_json_string(s)),
{
    lemma_escape_no_newline(encode_utf8(s));
    lemma_no_newline_concat(seq![0x22u8], spec_escape(encode_utf8(s)));
    lemma_no_newline_concat(seq![0x22u8] + spec_escape(encode_utf8(s)), seq![0x22u8]);
}

/// Decimal renderings never hold a raw newline.
pub proof fn lemma_u64_str_no_newline(n: int)
    requires
        n >= 0,
    ensures
        no_newline(spec_u64_str(n)),
{
    crate::time::lemma_digits_ascii(n);
}

/// An ASCII string literal without newline characters encodes to bytes
/// without the newline byte, one byte per character.
pub proof fn lemma_ascii_lit_line(s: &str)
    requires
        vstd::string::is_ascii(s),
        forall|i: int| 0 <= i < s@.len() ==> s@[i] != '\n',
    ensures
        no_newline(s.spec_bytes()),
        s.spec_bytes().len() == s@.len(),
{
    vstd::utf8::is_ascii_chars_encode_utf8(s@);
}

/// Append the escaped form of `b`.
pub fn push_escaped(out: &mut Vec<u8>, b: &[u8])
    ensures
        final(out)@ == old(out)@ + spec_escape(b@),
{
    let ghost out0 = out@;
    let n: usize = b.len();
    let mut i: usize = 0;
    while i < n
        invariant
            0 <= i <= n,
            n == b@.len(),
            out@ == out0 + spec_escape(b@.take(i as int)),
        decreases n - i,
    {
        let c: u8 = b[i];
        if c == 0x22 {
            out.push(0x5c);
            out.push(0x22);
        } else if c == 0x5c {
            out.push(0x5c);
            out.push(0x5c);
        } else if c < 0x20 {
            out.push(0x5c);
            out.push(0x75);
            out.push(0x30);
            out.push(0x30);
            let hi: u8 = c / 16;
            let lo: u8 = c % 16;
            out.push(
                if hi < 10 {
                    0x30 + hi
                } else {
                    0x57 + hi
                },
            );
            out.push(
                if lo < 10 {
                    0x30 + lo
                } else {
                    0x57 + lo
                },
            );
        } else {
            out.push(c);
        }
        proof {
            assert(b@.take(i + 1) =~= b@.take(i as int).push(b@[i as int]));
            lemma_escape_snoc(b@.take(i as int), b@[i as int]);
            assert(out@ =~= out0 + spec_escape(b@.take(i + 1)));
        }
        i = i + 1;
    }
    proof {
        assert(b@.take(n as int) =~= b@);
    }
}

/// Append a JSON string literal rendering `s`.
pub fn push_json_str(out: &mut Vec<u8>, s: &str)
    ensures
        final(out)@ == old(out)@ + spec_json_string(s@),
{
    out.push(0x22);
    push_escaped(out, s.as_bytes());
    out.push(0x22);
    proof {
        assert(out@ =~= old(out)@ + spec_json_string(s@));
    }
}

/// Rendering of a signed number.
pub open spec fn spec_i64_str(n: int) -> Seq<u8> {
    if n < 0 {
        seq![0x2du8] + spec_u64_str(-n)
    } else {
        spec_u64_str(n)
    }
}

/// Append the decimal rendering of a signed 32-bit number.
pub fn push_i32(out: &mut Vec<u8>, n: i32)
    ensures
        final(out)@ == old(out)@ + spec_i64_str(n as int),
{
    if n < 0 {
        out.push(0x2d);
        let m: u64 = (-(n as i64)) as u64;
        push_u64(out, m);
        proof {
            assert(out@ =~= old(out)@ + spec_i64_str(n as int));
        }
    } else {
        push_u64(out, n as u64);
    }
}

/// Signed renderings never hold a raw newline.
pub proof fn lemma_i64_str_no_newline(n: int)
    ensures
        no_newline(spec_i64_str(n)),
{
    if n < 0 {
        lemma_u64_str_no_newline(-n);
        lemma_no_newline_concat(seq![0x2du8], spec_u64_str(-n));
    } else {
        lemma_u64_str_no_newline(n);
    }
}

/// Append the bytes of an ASCII keyword such as `null` or `true`.
pub fn push_lit(out: &mut Vec<u8>, s: &str)
    ensures
        final(out)@ == old(out)@ + s.spec_bytes(),
{
    let b = s.as_bytes();
    out.extend_from_slice(b);
}

/// The views of a sequence of strings.
pub open spec fn views_of(v: Seq<String>) -> Seq<Seq<char>> {
    v.map_values(|s: String| s@)
}

/// The comma-separated items of a JSON array of strings.
pub open spec fn spec_str_array_items(elems: Seq<Seq<char>>) -> Seq<u8>
    decreases elems.len(),
{
    if elems.len() == 0 {
        Seq::<u8>::empty()
    } else if elems.len() == 1 {
        spec_json_string(elems[0])
    } else {
        spec_json_string(elems[0]) + seq![0x2cu8] + spec_str_array_items(elems.drop_first())
    }
}

/// A JSON array of strings.
pub open spec fn spec_str_array(elems: Seq<Seq<char>>) -> Seq<u8> {
    seq![0x5bu8] + spec_str_array_items(elems) + seq![0x5du8]
}

/// Appending one element extends the item list by a separator and the
/// element's rendering.
pub proof fn lemma_str_array_items_snoc(elems: Seq<Seq<char>>, s: Seq<char>)
    ensures
        elems.len() == 0 ==> spec_str_array_items(elems.push(s)) == spec_json_string(s),
        elems.len() > 0 ==> spec_str_array_items(elems.push(s)) == spec_str_array_items(elems)
            + seq![0x2cu8] + spec_json_string(s),
    decreases elems.len(),
{
    if elems.len() == 0 {
        assert(elems.push(s)[0] == s);
        assert(spec_str_array_items(elems.push(s)) == spec_json_string(s));
    } else {
        assert(elems.push(s).drop_first() =~= elems.drop_first().push(s));
        lemma_str_array_items_snoc(elems.drop_first(), s);
        if elems.len() == 1 {
            assert(elems.drop_first().len() == 0);
            assert(spec_str_array_items(elems.push(s)) =~= spec_str_array_items(elems)
                + seq![0x2cu8] + spec_json_string(s));
        } else {
            assert(spec_str_array_items(elems.push(s)) =~= spec_str_array_items(elems)
                + seq![0x2cu8] + spec_json_string(s));
        }
    }
}

/// Append the rendering of a JSON array of strings.
pub fn push_str_array(out: &mut Vec<u8>, items: &Vec<String>)
    ensures
        final(out)@ == old(out)@ + spec_str_array(views_of(items@)),
{
    let ghost out0 = out@;
    out.push(0x5b);
    let n: usize = items.len();
    let mut i: usize = 0;
    while i < n
        invariant
            0 <= i <= n,
            n == items@.len(),
            out@ == out0 + seq![0x5bu8] + spec_str_array_items(views_of(items@.take(i as int))),
        decreases n - i,
    {
        if i > 0 {
            out.push(0x2c);
        }
        push_json_str(out, items[i].as_str());
        proof {
            let prev = views_of(items@.take(i as int));
            assert(views_of(items@.take(i + 1)) =~= prev.push(items@[i as int]@));
            lemma_str_array_items_snoc(prev, items@[i as int]@);
            assert(prev.len() == i);
            assert(out@ =~= out0 + seq![0x5bu8] + spec_str_array_items(
                views_of(items@.take(i + 1)),
            ));
        }
        i = i + 1;
    }
    out.push(0x5d);
    proof {
        assert(items@.take(n as int) =~= items@);
        assert(out@ =~= out0 + spec_str_array(views_of(items@)));
    }
}

/// Item lists closed by a bracket determine their elements: a comma,
/// a closing bracket and a string opener can never be confused.
proof fn lemma_items_sentinel_unique(
    a: Seq<Seq<char>>,
    b: Seq<Seq<char>>,
    r1: Seq<u8>,
    r2: Seq<u8>,
)
    requires
        spec_str_array_items(a) + (seq![0x5du8] + r1) == spec_str_array_items(b) + (
        seq![0x5du8] + r2),
    ensures
        a == b,
        r1 == r2,
    decreases a.len(),
{
    let s = spec_str_array_items(a) + (seq![0x5du8] + r1);
    if a.len() == 0 && b.len() == 0 {
        assert(a =~= b);
        assert(r1 =~= s.skip(1));
        assert(r2 =~= (spec_str_array_items(b) + (seq![0x5du8] + r2)).skip(1));
    } else if a.len() == 0 {
        assert(s[0] == 0x5d);
        assert(s[0] == spec_json_string(b[0])[0]) by {
            if b.len() == 1 {
                assert(s =~= spec_json_string(b[0]) + (seq![0x5du8] + r2));
            } else {
                assert(s =~= spec_json_string(b[0]) + (seq![0x2cu8] + (spec_str_array_items(
                    b.drop_first(),
                ) + (seq![0x5du8] + r2))));
            }
        }
        assert(false);
    } else if b.len() == 0 {
        assert(s[0] == 0x5d) by {
            assert(spec_str_array_items(b) =~= Seq::<u8>::empty());
            assert(spec_str_array_items(b) + (seq![0x5du8] + r2) =~= seq![0x5du8] + r2);
        }
        assert(s[0] == spec_json_string(a[0])[0]) by {
            if a.len() == 1 {
                assert(s =~= spec_json_string(a[0]) + (seq![0x5du8] + r1));
            } else {
                assert(s =~= spec_json_string(a[0]) + (seq![0x2cu8] + (spec_str_array_items(
                    a.drop_first(),
                ) + (seq![0x5du8] + r1))));
            }
        }
        assert(false);
    } else {
        let ta = if a.len() == 1 {
            seq![0x5du8] + r1
        } else {
            seq![0x2cu8] + (spec_str_array_items(a.drop_first()) + (seq![0x5du8] + r1))
        };
        let tb = if b.len() == 1 {
            seq![0x5du8] + r2
        } else {
            seq![0x2cu8] + (spec_str_array_items(b.drop_first()) + (seq![0x5du8] + r2))
        };
        assert(s =~= spec_json_string(a[0]) + ta);
        assert(spec_str_array_items(b) + (seq![0x5du8] + r2) =~= spec_json_string(b[0]) + tb);
        lemma_json_string_unique(a[0], b[0], ta, tb);
        assert(ta[0] == tb[0]);
        if a.len() == 1 && b.len() == 1 {
            assert(a =~= b);
            assert(r1 =~= ta.skip(1));
            assert(r2 =~= tb.skip(1));
        } else if a.len() == 1 {
            assert(ta[0] == 0x5d && tb[0] == 0x2c);
            assert(false);
        } else if b.len() == 1 {
            assert(ta[0] == 0x2c && tb[0] == 0x5d);
            assert(false);
        } else {
            assert(spec_str_array_items(a.drop_first()) + (seq![0x5du8] + r1) =~= ta.skip(1));
            assert(spec_str_array_items(b.drop_first()) + (seq![0x5du8] + r2) =~= tb.skip(1));
            lemma_items_sentinel_unique(a.drop_first(), b.drop_first(), r1, r2);
            assert forall|i: int| 0 <= i < a.len() implies a[i] == b[i] by {
                if i > 0 {
                    assert(a[i] == a.drop_first()[i - 1]);
                    assert(b[i] == b.drop_first()[i - 1]);
                }
            }
            assert(a =~= b);
        }
    }
}

/// A rendered string array determines its elements and what follows.
pub proof fn lemma_str_array_unique(
    a: Seq<Seq<char>>,
    b: Seq<Seq<char>>,
    r1: Seq<u8>,
    r2: Seq<u8>,
)
    requires
        spec_str_array(a) + r1 == spec_str_array(b) + r2,
    ensures
        a == b,
        r1 == r2,
{
    let s = spec_str_array(a) + r1;
    assert(s =~= seq![0x5bu8] + (spec_str_array_items(a) + (seq![0x5du8] + r1)));
    assert(spec_str_array(b) + r2 =~= seq![0x5bu8] + (spec_str_array_items(b) + (seq![0x5du8]
        + r2)));
    assert(spec_str_array_items(a) + (seq![0x5du8] + r1) =~= s.skip(1));
    assert(spec_str_array_items(b) + (seq![0x5du8] + r2) =~= (spec_str_array(b) + r2).skip(1));
    lemma_items_sentinel_unique(a, b, r1, r2);
}

/// Item lists never hold a raw newline.
pub proof fn lemma_str_array_no_newline(elems: Seq<Seq<char>>)
    ensures
        no_newline(spec_str_array(elems)),
    decreases elems.len(),
{
    lemma_items_no_newline(elems);
    lemma_no_newline_concat(seq![0x5bu8], spec_str_array_items(elems));
    lemma_no_newline_concat(seq![0x5bu8] + spec_str_array_items(elems), seq![0x5du8]);
}

proof fn lemma_items_no_newline(elems: Seq<Seq<char>>)
    ensures
        no_newline(spec_str_array_items(elems)),
    decreases elems.len(),
{
    if elems.len() > 1 {
        lemma_items_no_newline(elems.drop_first());
        lemma_json_string_no_newline(elems[0]);
        lemma_no_newline_concat(spec_json_string(elems[0]), seq![0x2cu8]);
        lemma_no_newline_concat(
            spec_json_string(elems[0]) + seq![0x2cu8],
            spec_str_array_items(elems.drop_first()),
        );
    } else if elems.len() == 1 {
        lemma_json_string_no_newline(elems[0]);
    }
}

} // verus!
