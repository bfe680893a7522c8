//! Conversion between native text and the UTF-16LE payloads stored in
//! firmware variables, including the NUL-termination rules.

use crate::units::{
    bytes_of_units, le_bytes_of_unit, lemma_bytes_of_one_unit, lemma_bytes_of_two_units,
    lemma_bytes_of_units_len, lemma_bytes_of_units_push, lemma_units_bytes_of_units,
};
use vstd::arithmetic::div_mod::lemma_fundamental_div_mod;
use vstd::prelude::*;
use vstd::string::StrSliceExecFns;

verus! {

broadcast use {vstd::utf8::char_is_scalar, vstd::utf8::char_u32_cast};

/// A code unit reserved for the leading half of a surrogate pair.
pub open spec fn is_high_surrogate(u: u16) -> bool {
    0xD800 <= u < 0xDC00
}

/// A code unit reserved for the trailing half of a surrogate pair.
pub open spec fn is_low_surrogate(u: u16) -> bool {
    0xDC00 <= u < 0xE000
}

/// The character held by a surrogate pair.
pub open spec fn char_of_surrogates(hi: u16, lo: u16) -> char
    recommends
        is_high_surrogate(hi),
        is_low_surrogate(lo),
{
    ((0x10000 + (hi - 0xD800) * 0x400 + (lo - 0xDC00)) as u32) as char
}

/// The UTF-16 code units of one character: itself if it lies in the basic
/// plane, a surrogate pair otherwise.
pub open spec fn units_of_char(c: char) -> Seq<u16> {
    if (c as u32) < 0x10000 {
        seq![(c as u32) as u16]
    } else {
        seq![
            (0xD800 + ((c as u32) - 0x10000) / 0x400) as u16,
            (0xDC00 + ((c as u32) - 0x10000) % 0x400) as u16,
        ]
    }
}

/// The UTF-16 encoding of a text, without any terminator.
pub open spec fn encode_units(s: Seq<char>) -> Seq<u16>
    decreases s.len(),
{
    if s.len() == 0 {
        Seq::empty()
    } else {
        units_of_char(s[0]) + encode_units(s.drop_first())
    }
}

/// The text held by a sequence of UTF-16 code units, or `None` if a
/// surrogate half stands without its mate.
pub open spec fn decode_units(us: Seq<u16>) -> Option<Seq<char>>
    decreases us.len(),
{
    if us.len() == 0 {
        Some(Seq::empty())
    } else if !is_high_surrogate(us[0]) && !is_low_surrogate(us[0]) {
        match decode_units(us.drop_first()) {
            Some(t) => Some(seq![(us[0] as u32) as char] + t),
            None => None,
        }
    } else if is_high_surrogate(us[0]) && us.len() >= 2 && is_low_surrogate(us[1]) {
        match decode_units(us.skip(2)) {
            Some(t) => Some(seq![char_of_surrogates(us[0], us[1])] + t),
            None => None,
        }
    } else {
        None
    }
}

/// The text held by a sequence of UTF-16 code units, with every lone
/// surrogate half replaced by the replacement character.
pub open spec fn decode_units_lossy(us: Seq<u16>) -> Seq<char>
    decreases us.len(),
{
    if us.len() == 0 {
        Seq::empty()
    } else if !is_high_surrogate(us[0]) && !is_low_surrogate(us[0]) {
        seq![(us[0] as u32) as char] + decode_units_lossy(us.drop_first())
    } else if is_high_surrogate(us[0]) && us.len() >= 2 && is_low_surrogate(us[1]) {
        seq![char_of_surrogates(us[0], us[1])] + decode_units_lossy(us.skip(2))
    } else {
        seq!['\u{FFFD}'] + decode_units_lossy(us.drop_first())
    }
}

/// The payload stored for a text: its UTF-16LE bytes, with two zero bytes
/// appended unless the encoding already ends in two zero bytes.
pub open spec fn encoded_payload(s: Seq<char>) -> Seq<u8> {
    let bytes = bytes_of_units(encode_units(s));
    if bytes.len() >= 2 && bytes[bytes.len() - 2] == 0 && bytes[bytes.len() - 1] == 0 {
        bytes
    } else {
        bytes + seq![0u8, 0u8]
    }
}

/// A unit buffer with exactly one trailing all-zero unit trimmed, if the
/// buffer ends with one.
pub open spec fn trim_terminator(us: Seq<u16>) -> Seq<u16> {
    if us.len() > 0 && us.last() == 0 {
        us.drop_last()
    } else {
        us
    }
}

/// The text stored in a unit buffer: the terminator convention applied,
/// then the units decoded; `None` for invalid UTF-16.
pub open spec fn decoded_text(us: Seq<u16>) -> Option<Seq<char>> {
    decode_units(trim_terminator(us))
}

/// Appending one character appends its code units.
pub proof fn lemma_encode_units_push(s: Seq<char>, c: char)
    ensures
        encode_units(s.push(c)) == encode_units(s) + units_of_char(c),
    decreases s.len(),
{
    if s.len() == 0 {
        assert(s.push(c)[0] == c);
        assert(s.push(c).drop_first() =~= Seq::<char>::empty());
        assert(encode_units(s.push(c).drop_first()) =~= Seq::<u16>::empty());
        assert(encode_units(s.push(c)) =~= encode_units(s) + units_of_char(c));
    } else {
        assert(s.push(c)[0] == s[0]);
        assert(s.push(c).drop_first() =~= s.drop_first().push(c));
        lemma_encode_units_push(s.drop_first(), c);
        assert(encode_units(s.push(c)) =~= encode_units(s) + units_of_char(c));
    }
}

/// The byte view distributes over concatenation of unit buffers.
pub proof fn lemma_bytes_of_units_concat(a: Seq<u16>, b: Seq<u16>)
    ensures
        bytes_of_units(a + b) == bytes_of_units(a) + bytes_of_units(b),
    decreases a.len(),
{
    if a.len() == 0 {
        assert(a + b =~= b);
        assert(bytes_of_units(a) =~= Seq::<u8>::empty());
        assert(bytes_of_units(a + b) =~= bytes_of_units(a) + bytes_of_units(b));
    } else {
        assert((a + b)[0] == a[0]);
        assert((a + b).drop_first() =~= a.drop_first() + b);
        lemma_bytes_of_units_concat(a.drop_first(), b);
        assert(bytes_of_units(a + b) =~= bytes_of_units(a) + bytes_of_units(b));
    }
}

/// Relies on `char::from_u32`: `Some` exactly for the Unicode scalar values,
/// holding the character with that value.
#[verifier::external_body]
fn char_from_u32(v: u32) -> (r: Option<char>)
    ensures
        (v < 0xD800 || (0xE000 <= v <= 0x10FFFF)) ==> r == Some(v as char),
        !(v < 0xD800 || (0xE000 <= v <= 0x10FFFF)) ==> r is None,
{
    char::from_u32(v)
}

/// Relies on `String::push`: appends one character at the end.
#[verifier::external_body]
fn push_char(s: &mut String, c: char)
    ensures
        final(s)@ == old(s)@.push(c),
{
    s.push(c);
}

/// Encodes a text as the UTF-16LE payload to store: one or two code units
/// per character, little-endian, with two zero bytes appended unless the
/// buffer already ends with two zero bytes.
///
/// An all-zero unit before the end of the text (an embedded NUL) is kept as
/// it is: the payload then decodes to a shorter text, but encoding does not
/// fail.
pub fn encode_utf16_string(value: &str) -> (r: Vec<u8>)
    ensures
        r@ == encoded_payload(value@),
{
    let n = value.unicode_len();
    let mut r: Vec<u8> = Vec::new();
    let mut i: usize = 0;
    while i < n
        invariant
            n == value@.len(),
            i <= n,
            r@ == bytes_of_units(encode_units(value@.take(i as int))),
        decreases n - i,
    {
        let c = value.get_char(i);
        let v = c as u32;
        proof {
            lemma_encode_units_push(value@.take(i as int), c);
            assert(value@.take(i as int).push(c) =~= value@.take(i as int + 1));
            lemma_bytes_of_units_concat(
                encode_units(value@.take(i as int)),
                units_of_char(c),
            );
        }
        if v < 0x10000 {
            let u = v as u16;
            proof {
                assert(units_of_char(c) =~= seq![u]);
                lemma_bytes_of_one_unit(u);
            }
            r.push((u % 256) as u8);
            r.push((u / 256) as u8);
        } else {
            let w = v - 0x10000;
            let hi = (0xD800 + w / 1024) as u16;
            let lo = (0xDC00 + w % 1024) as u16;
            proof {
                lemma_fundamental_div_mod(w as int, 1024);
                assert(units_of_char(c) =~= seq![hi, lo]);
                lemma_bytes_of_two_units(hi, lo);
            }
            r.push((hi % 256) as u8);
            r.push((hi / 256) as u8);
            r.push((lo % 256) as u8);
            r.push((lo / 256) as u8);
        }
        proof {
            assert(r@ =~= bytes_of_units(encode_units(value@.take(i as int + 1))));
        }
        i = i + 1;
    }
    proof {
        assert(value@.take(n as int) =~= value@);
    }
    if r.len() >= 2 && r[r.len() - 2] == 0 && r[r.len() - 1] == 0 {
        // Already terminated by an all-zero unit.
    } else {
        r.push(0);
        r.push(0);
        proof {
            let bytes = bytes_of_units(encode_units(value@));
            assert(r@ =~= bytes + seq![0u8, 0u8]);
        }
    }
    r
}

/// Decodes a sequence of UTF-16 code units, or reports that a surrogate
/// half stands without its mate.
pub fn decode_utf16(us: &[u16]) -> (r: Option<String>)
    ensures
        r matches Some(t) ==> decode_units(us@) == Some(t@),
        r is None ==> decode_units(us@) is None,
{
    let n = us.len();
    let mut out = String::new();
    let mut i: usize = 0;
    proof {
        assert(us@.skip(0) =~= us@);
        if decode_units(us@) is Some {
            let rest = decode_units(us@)->0;
            assert(out@ + rest =~= rest);
        }
    }
    while i < n
        invariant
            n == us@.len(),
            i <= n,
            match decode_units(us@.skip(i as int)) {
                Some(rest) => decode_units(us@) == Some(out@ + rest),
                None => decode_units(us@) is None,
            },
        decreases n - i,
    {
        let u = us[i];
        proof {
            assert(us@.skip(i as int)[0] == us@[i as int]);
            assert(us@.skip(i as int).len() == n - i);
        }
        if !(0xD800 <= u && u < 0xE000) {
            let c = match char_from_u32(u as u32) {
                Some(c) => c,
                None => {
                    proof {
                        assert(false);
                    }
                    '\0'
                },
            };
            proof {
                let s_i = us@.skip(i as int);
                let s_j = us@.skip(i as int + 1);
                assert(s_i.drop_first() =~= s_j);
                if decode_units(s_j) is Some {
                    let rest = decode_units(s_j)->0;
                    assert(decode_units(s_i) == Some(seq![c] + rest));
                    assert(out@ + (seq![c] + rest) =~= out@.push(c) + rest);
                }
            }
            push_char(&mut out, c);
            i = i + 1;
        } else if u < 0xDC00 {
            if i + 1 < n {
                let u2 = us[i + 1];
                proof {
                    assert(us@.skip(i as int)[1] == us@[i as int + 1]);
                }
                if 0xDC00 <= u2 && u2 < 0xE000 {
                    let v = 0x10000 + (u as u32 - 0xD800) * 0x400 + (u2 as u32 - 0xDC00);
                    let c = match char_from_u32(v) {
                        Some(c) => c,
                        None => {
                            proof {
                                assert(false);
                            }
                            '\0'
                        },
                    };
                    proof {
                        let s_i = us@.skip(i as int);
                        let s_j = us@.skip(i as int + 2);
                        assert(s_i.skip(2) =~= s_j);
                        assert(c == char_of_surrogates(u, u2));
                        if decode_units(s_j) is Some {
                            let rest = decode_units(s_j)->0;
                            assert(decode_units(s_i) == Some(seq![c] + rest));
                            assert(out@ + (seq![c] + rest) =~= out@.push(c) + rest);
                        }
                    }
                    push_char(&mut out, c);
                    i = i + 2;
                } else {
                    proof {
                        assert(decode_units(us@.skip(i as int)) is None);
                    }
                    return None;
                }
            } else {
                proof {
                    assert(decode_units(us@.skip(i as int)) is None);
                }
                return None;
            }
        } else {
            proof {
                assert(decode_units(us@.skip(i as int)) is None);
            }
            return None;
        }
    }
    proof {
        assert(us@.skip(n as int) =~= Seq::<u16>::empty());
        assert(decode_units(us@.skip(n as int)) == Some(Seq::<char>::empty()));
        assert(out@ + Seq::<char>::empty() =~= out@);
    }
    Some(out)
}

/// Decodes a sequence of UTF-16 code units with every lone surrogate half
/// replaced by the replacement character.
pub fn decode_utf16_lossy(us: &[u16]) -> (r: String)
    ensures
        r@ == decode_units_lossy(us@),
{
    let n = us.len();
    let mut out = String::new();
    let mut i: usize = 0;
    proof {
        assert(us@.skip(0) =~= us@);
        assert(out@ + decode_units_lossy(us@) =~= decode_units_lossy(us@));
    }
    while i < n
        invariant
            n == us@.len(),
            i <= n,
            decode_units_lossy(us@) == out@ + decode_units_lossy(us@.skip(i as int)),
        decreases n - i,
    {
        let u = us[i];
        proof {
            assert(us@.skip(i as int)[0] == us@[i as int]);
            assert(us@.skip(i as int).len() == n - i);
        }
        if !(0xD800 <= u && u < 0xE000) {
            let c = match char_from_u32(u as u32) {
                Some(c) => c,
                None => {
                    proof {
                        assert(false);
                    }
                    '\0'
                },
            };
            proof {
                let s_i = us@.skip(i as int);
                assert(s_i.drop_first() =~= us@.skip(i as int + 1));
                assert(out@ + (seq![c] + decode_units_lossy(us@.skip(i as int + 1))) =~= out@.push(
                    c,
                ) + decode_units_lossy(us@.skip(i as int + 1)));
            }
            push_char(&mut out, c);
            i = i + 1;
        } else {
            let mut pair = false;
            let mut u2: u16 = 0;
            if u < 0xDC00 && i + 1 < n {
                u2 = us[i + 1];
                proof {
                    assert(us@.skip(i as int)[1] == us@[i as int + 1]);
                }
                if 0xDC00 <= u2 && u2 < 0xE000 {
                    pair = true;
                }
            }
            if pair {
                let v = 0x10000 + (u as u32 - 0xD800) * 0x400 + (u2 as u32 - 0xDC00);
                let c = match char_from_u32(v) {
                    Some(c) => c,
                    None => {
                        proof {
                            assert(false);
                        }
                        '\0'
                    },
                };
                proof {
                    let s_i = us@.skip(i as int);
                    assert(s_i.skip(2) =~= us@.skip(i as int + 2));
                    assert(c == char_of_surrogates(u, u2));
                    assert(out@ + (seq![c] + decode_units_lossy(us@.skip(i as int + 2)))
                        =~= out@.push(c) + decode_units_lossy(us@.skip(i as int + 2)));
                }
                push_char(&mut out, c);
                i = i + 2;
            } else {
                let c = '\u{FFFD}';
                proof {
                    let s_i = us@.skip(i as int);
                    assert(s_i.drop_first() =~= us@.skip(i as int + 1));
                    assert(out@ + (seq![c] + decode_units_lossy(us@.skip(i as int + 1)))
                        =~= out@.push(c) + decode_units_lossy(us@.skip(i as int + 1)));
                }
                push_char(&mut out, c);
                i = i + 1;
            }
        }
    }
    proof {
        assert(us@.skip(n as int) =~= Seq::<u16>::empty());
        assert(out@ + Seq::<char>::empty() =~= out@);
    }
    out
}

/// Decodes a stored payload: trims exactly one trailing all-zero unit if the
/// buffer ends with one, then decodes the remaining units as UTF-16. For an
/// invalid payload the error holds a lossy rendering of the offending units.
pub fn decode_utf16_string(us: &[u16]) -> (r: Result<String, String>)
    ensures
        r matches Ok(t) ==> decoded_text(us@) == Some(t@),
        r matches Err(lossy) ==> decoded_text(us@) is None && lossy@ == decode_units_lossy(
            trim_terminator(us@),
        ),
{
    let trimmed: &[u16] = if us.len() > 0 && us[us.len() - 1] == 0 {
        vstd::slice::slice_subrange(us, 0, us.len() - 1)
    } else {
        us
    };
    proof {
        assert(trimmed@ =~= trim_terminator(us@));
    }
    match decode_utf16(trimmed) {
        Some(t) => Ok(t),
        None => Err(decode_utf16_lossy(trimmed)),
    }
}

/// A character other than NUL has a non-zero scalar value.
proof fn lemma_nonnul_char_u32(c: char)
    requires
        c != '\0',
    ensures
        c as u32 != 0,
{
    assert(('\0' as u32) == 0);
    if c as u32 == 0 {
        assert((0u32 as char) == c);
        assert((0u32 as char) == '\0');
    }
}

/// Decoding one encoded character from the front of a unit buffer yields
/// that character before the decoding of the rest.
proof fn lemma_decode_one_char(c: char, rest: Seq<u16>)
    ensures
        decode_units(rest) matches Some(t) ==> decode_units(units_of_char(c) + rest) == Some(
            seq![c] + t,
        ),
        decode_units(rest) is None ==> decode_units(units_of_char(c) + rest) is None,
{
    if (c as u32) < 0x10000 {
        let u = (c as u32) as u16;
        let s = units_of_char(c) + rest;
        assert(s[0] == u);
        assert(s.drop_first() =~= rest);
        assert(!is_high_surrogate(u) && !is_low_surrogate(u));
        assert(u as u32 == c as u32);
        assert((u as u32) as char == c);
    } else {
        let v = ((c as u32) - 0x10000) as int;
        let hi = (0xD800 + v / 0x400) as u16;
        let lo = (0xDC00 + v % 0x400) as u16;
        let s = units_of_char(c) + rest;
        assert(s.len() == 2 + rest.len());
        assert(s[0] == hi);
        assert(s[1] == lo);
        assert(0 <= v < 0x100000);
        assert(0 <= v / 0x400 < 0x400) by {
            vstd::arithmetic::div_mod::lemma_div_pos_is_pos(v, 0x400);
            vstd::arithmetic::div_mod::lemma_multiply_divide_lt(v, 0x400, 0x400);
        }
        assert(0 <= v % 0x400 < 0x400) by {
            vstd::arithmetic::div_mod::lemma_mod_bound(v, 0x400);
        }
        assert(is_high_surrogate(hi));
        assert(is_low_surrogate(lo));
        assert(s.skip(2) =~= rest);
        assert(char_of_surrogates(hi, lo) == c) by {
            lemma_fundamental_div_mod(v, 0x400);
            assert((0x10000 + (hi - 0xD800) * 0x400 + (lo - 0xDC00)) as u32 == c as u32);
        }
    }
}

/// Decoding undoes encoding at the unit level.
proof fn lemma_decode_encode_units(s: Seq<char>)
    ensures
        decode_units(encode_units(s)) == Some(s),
    decreases s.len(),
{
    if s.len() == 0 {
        assert(encode_units(s) =~= Seq::<u16>::empty());
    } else {
        lemma_decode_encode_units(s.drop_first());
        lemma_decode_one_char(s[0], encode_units(s.drop_first()));
        assert(seq![s[0]] + s.drop_first() =~= s);
    }
}

/// A text free of NUL characters encodes to units that are all non-zero.
proof fn lemma_encode_units_no_zero(s: Seq<char>)
    requires
        forall|i: int| 0 <= i < s.len() ==> s[i] != '\0',
    ensures
        forall|k: int| 0 <= k < encode_units(s).len() ==> encode_units(s)[k] != 0,
    decreases s.len(),
{
    if s.len() > 0 {
        assert(forall|i: int| 0 <= i < s.drop_first().len() ==> s.drop_first()[i] != '\0');
        lemma_encode_units_no_zero(s.drop_first());
        let head = units_of_char(s[0]);
        assert(forall|k: int| 0 <= k < head.len() ==> head[k] != 0) by {
            assert(s[0] != '\0');
            lemma_nonnul_char_u32(s[0]);
            if (s[0] as u32) < 0x10000 {
                assert(head[0] == (s[0] as u32) as u16);
            } else {
                let v = ((s[0] as u32) as int) - 0x10000;
                vstd::utf8::char_is_scalar(s[0]);
                assert(0 <= v < 0x100000);
                assert(0 <= v / 0x400 < 0x400) by {
                    vstd::arithmetic::div_mod::lemma_div_pos_is_pos(v, 0x400);
                    vstd::arithmetic::div_mod::lemma_multiply_divide_lt(v, 0x400, 0x400);
                }
                assert(0 <= v % 0x400 < 0x400) by {
                    vstd::arithmetic::div_mod::lemma_mod_bound(v, 0x400);
                }
                assert(head[0] >= 0xD800);
                assert(head[1] >= 0xDC00);
            }
        }
        assert(forall|k: int| 0 <= k < encode_units(s).len() ==> encode_units(s)[k] != 0) by {
            assert(forall|k: int|
                #![trigger encode_units(s)[k]]
                0 <= k < encode_units(s).len() ==> encode_units(s)[k] == if k < head.len() {
                    head[k]
                } else {
                    encode_units(s.drop_first())[k - head.len()]
                });
        }
    }
}

/// Law: a text without embedded NUL characters survives the round trip
/// through the stored byte payload: encoding, reading the bytes back as
/// 16-bit units, trimming the terminator, and decoding yield the text again.
pub proof fn lemma_encode_decode_round_trip(s: Seq<char>)
    requires
        forall|i: int| 0 <= i < s.len() ==> s[i] != '\0',
    ensures
        decoded_text(crate::units::units_of_bytes(encoded_payload(s))) == Some(s),
{
    let units = encode_units(s);
    let bytes = bytes_of_units(units);
    lemma_encode_units_no_zero(s);
    lemma_bytes_of_units_len(units);
    if units.len() == 0 {
        assert(bytes.len() == 0);
        let payload = encoded_payload(s);
        assert(payload =~= seq![0u8, 0u8]);
        assert(payload =~= bytes_of_units(seq![0u16])) by {
            lemma_bytes_of_one_unit(0u16);
        }
        lemma_units_bytes_of_units(seq![0u16]);
        assert(trim_terminator(seq![0u16]) =~= Seq::<u16>::empty());
        assert(decode_units(Seq::<u16>::empty()) == Some(Seq::<char>::empty()));
        assert(s =~= Seq::<char>::empty());
    } else {
        let last = units.last();
        assert(last != 0);
        assert(units =~= units.drop_last().push(last));
        lemma_bytes_of_units_push(units.drop_last(), last);
        assert(bytes =~= bytes_of_units(units.drop_last()) + le_bytes_of_unit(last));
        lemma_bytes_of_units_len(units.drop_last());
        assert(bytes[bytes.len() - 2] == last % 256);
        assert(bytes[bytes.len() - 1] == last / 256);
        assert(!(bytes[bytes.len() - 2] == 0 && bytes[bytes.len() - 1] == 0)) by {
            if last % 256 == 0 && last / 256 == 0 {
                lemma_fundamental_div_mod(last as int, 256);
            }
        }
        let payload = encoded_payload(s);
        assert(payload =~= bytes + seq![0u8, 0u8]);
        lemma_bytes_of_units_push(units, 0u16);
        assert(payload =~= bytes_of_units(units.push(0u16)));
        lemma_units_bytes_of_units(units.push(0u16));
        assert(trim_terminator(units.push(0u16)) =~= units);
        lemma_decode_encode_units(s);
    }
}

} // verus!
