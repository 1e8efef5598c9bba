//! ASCII text utilities: the hyphenated hexadecimal form of a 128-bit
//! identifier, and helpers for moving between ASCII byte buffers and
//! strings with exact character-level contracts.

use vstd::prelude::*;
use vstd::string::StringSliceAdditionalSpecFns;
use vstd::utf8::{
    valid_utf8, decode_utf8, encode_utf8, is_ascii_chars, encode_utf8_valid_utf8,
    encode_utf8_decode_utf8, is_ascii_chars_encode_utf8,
};

verus! {

#[verifier::external_type_specification]
#[verifier::external_body]
pub struct ExUtf8Error(core::str::Utf8Error);

/// Relies on `core::str::from_utf8`: succeeds exactly on valid UTF-8 and
/// returns a string slice over the same bytes.
pub assume_specification[ core::str::from_utf8 ](v: &[u8]) -> (r: Result<&str, core::str::Utf8Error>)
    ensures
        r is Ok <==> valid_utf8(v@),
        r matches Ok(s) ==> s.spec_bytes() =~= v@,
;

/// The character sequence spelled by a sequence of ASCII bytes.
pub open spec fn ascii_chars_of(bytes: Seq<u8>) -> Seq<char> {
    bytes.map_values(|b: u8| b as char)
}

/// A sequence of ASCII bytes is valid UTF-8 and decodes byte-for-byte.
pub proof fn lemma_ascii_bytes_decode(bytes: Seq<u8>)
    requires
        forall|i: int| 0 <= i < bytes.len() ==> bytes[i] < 0x80,
    ensures
        valid_utf8(bytes),
        decode_utf8(bytes) == ascii_chars_of(bytes),
        encode_utf8(ascii_chars_of(bytes)) == bytes,
{
    let chars = ascii_chars_of(bytes);
    assert forall|i: int| 0 <= i < chars.len() implies '\0' <= #[trigger] chars[i] <= '\u{7f}' by {
        assert(chars[i] == bytes[i] as char);
        assert(bytes[i] < 0x80);
    }
    assert(is_ascii_chars(chars));
    is_ascii_chars_encode_utf8(chars);
    assert forall|i: int| 0 <= i < chars.len() implies encode_utf8(chars)[i] == bytes[i] by {
        assert(chars[i] as u8 == encode_utf8(chars)[i]);
    }
    assert(encode_utf8(chars) =~= bytes);
    encode_utf8_valid_utf8(chars);
    encode_utf8_decode_utf8(chars);
}

/// A string of ASCII characters spells, byte for byte, the bytes of its
/// UTF-8 form.
pub proof fn lemma_ascii_string_chars(s: &str)
    requires
        vstd::string::is_ascii(s),
    ensures
        s.spec_bytes().len() == s@.len(),
        forall|i: int| 0 <= i < s@.len() ==> #[trigger] s.spec_bytes()[i] == s@[i] as u8,
        forall|i: int| 0 <= i < s@.len() ==> #[trigger] s.spec_bytes()[i] < 0x80,
        ascii_chars_of(s.spec_bytes()) == s@,
{
    vstd::string::is_ascii_spec_bytes(s);
    assert forall|i: int| 0 <= i < s@.len() implies #[trigger] s.spec_bytes()[i] == s@[i] as u8
        && s.spec_bytes()[i] < 0x80 by {
        let c = s@[i];
        assert('\0' <= c <= '\u{7f}');
        vstd::utf8::char_is_scalar(c);
    }
    assert forall|i: int|
        0 <= i < s@.len() implies #[trigger] ascii_chars_of(s.spec_bytes())[i] == s@[i] by {
        let c = s@[i];
        let b = s.spec_bytes()[i];
        assert(b == c as u8);
        assert(c as u32 <= 0x7f);
        assert(b == c as u32);
        vstd::utf8::char_u32_cast(c, c as u32);
        assert(b as char == (c as u32) as char);
    }
    assert(ascii_chars_of(s.spec_bytes()) =~= s@);
}

/// Turn a buffer of ASCII bytes into a `String` spelling the same characters.
pub fn ascii_to_string(bytes: &[u8]) -> (r: String)
    requires
        forall|i: int| 0 <= i < bytes@.len() ==> bytes@[i] < 0x80,
    ensures
        r@ == ascii_chars_of(bytes@),
{
    proof {
        lemma_ascii_bytes_decode(bytes@);
    }
    let res = core::str::from_utf8(bytes);
    match res {
        Ok(s) => {
            proof {
                // s.spec_bytes() == encode_utf8(s@) == bytes@, so s@ decodes
                // to the ASCII characters of the buffer.
                encode_utf8_decode_utf8(s@);
                assert(decode_utf8(encode_utf8(s@)) == s@);
                assert(encode_utf8(s@) =~= bytes@);
            }
            let r = s.to_owned();
            r
        },
        Err(_) => {
            proof {
                assert(false);
            }
            String::new()
        },
    }
}

/// The character standing for the hexadecimal digit `d`.
pub open spec fn hex_char(d: u8) -> char {
    if d < 10 {
        ((48 + d) as u8) as char
    } else {
        ((87 + d) as u8) as char
    }
}

/// The numeric value of a hexadecimal digit character, if it is one.
/// Both cases of the letters are accepted.
pub open spec fn hex_val(c: char) -> Option<u8> {
    let u = c as u32;
    if 48 <= u <= 57 {
        Some((u - 48) as u8)
    } else if 97 <= u <= 102 {
        Some((u - 87) as u8)
    } else if 65 <= u <= 70 {
        Some((u - 55) as u8)
    } else {
        None
    }
}

/// The `i`-th hexadecimal digit (from the most significant) of `x`.
pub open spec fn nibble(x: u128, i: int) -> u8 {
    ((x >> (((31 - i) * 4) as u128)) & 0xf) as u8
}

proof fn lemma_nibble_bound(x: u128, i: int)
    requires
        0 <= i < 32,
    ensures
        nibble(x, i) < 16,
{
    let sh: u128 = ((31 - i) * 4) as u128;
    assert((x >> sh) & 0xf < 16) by (bit_vector);
}

/// Number of hyphens standing before position `p` of the hyphenated form.
pub open spec fn hyphens_before(p: int) -> int {
    if p < 8 {
        0
    } else if p < 13 {
        1
    } else if p < 18 {
        2
    } else if p < 23 {
        3
    } else {
        4
    }
}

/// The character at position `p` of the 36-character hyphenated form.
pub open spec fn uuid_char_at(x: u128, p: int) -> char {
    if p == 8 || p == 13 || p == 18 || p == 23 {
        '-'
    } else {
        hex_char(nibble(x, p - hyphens_before(p)))
    }
}

/// The canonical hyphenated, lower-case hexadecimal form of `x`:
/// 32 digits with hyphens after the 8th, 12th, 16th and 20th.
pub open spec fn uuid_text(x: u128) -> Seq<char> {
    Seq::new(36, |p: int| uuid_char_at(x, p))
}

fn hex_char_exec(d: u8) -> (c: u8)
    requires
        d < 16,
    ensures
        c < 0x80,
        c as char == hex_char(d),
{
    if d < 10 {
        48 + d
    } else {
        87 + d
    }
}

fn nibble_exec(x: u128, i: usize) -> (d: u8)
    requires
        i < 32,
    ensures
        d == nibble(x, i as int),
        d < 16,
{
    let sh: u128 = (31 - i as u128) * 4;
    let d = ((x >> sh) & 0xf) as u8;
    assert((x >> sh) & 0xf < 16) by (bit_vector);
    d
}

/// Format `x` in the canonical hyphenated hexadecimal form.
pub fn format_uuid(x: u128) -> (r: String)
    ensures
        r@ == uuid_text(x),
{
    let mut buf: Vec<u8> = Vec::new();
    let mut p: usize = 0;
    while p < 36
        invariant
            p <= 36,
            buf@.len() == p,
            forall|j: int| 0 <= j < p ==> buf@[j] < 0x80,
            forall|j: int| 0 <= j < p ==> buf@[j] as char == uuid_char_at(x, j),
        decreases 36 - p,
    {
        if p == 8 || p == 13 || p == 18 || p == 23 {
            buf.push(0x2d);
            assert(0x2d as char == '-');
        } else {
            let h: usize = if p < 8 {
                0
            } else if p < 13 {
                1
            } else if p < 18 {
                2
            } else if p < 23 {
                3
            } else {
                4
            };
            let d = nibble_exec(x, p - h);
            buf.push(hex_char_exec(d));
        }
        p = p + 1;
    }
    let r = ascii_to_string(buf.as_slice());
    proof {
        assert forall|j: int| 0 <= j < 36 implies r@[j] == uuid_text(x)[j] by {
            assert(r@[j] == buf@[j] as char);
        }
        assert(r@ =~= uuid_text(x));
    }
    r
}

/// The value spelled by a 36-character hyphenated hexadecimal sequence,
/// or `None` where the shape is wrong.
pub open spec fn parse_uuid_text(s: Seq<char>) -> Option<u128> {
    if s.len() != 36 {
        None
    } else if !(s[8] == '-' && s[13] == '-' && s[18] == '-' && s[23] == '-') {
        None
    } else if exists|p: int|
        0 <= p < 36 && p != 8 && p != 13 && p != 18 && p != 23 && hex_val(s[p]) is None {
        None
    } else {
        Some(uuid_value_prefix(s, 36))
    }
}

/// The value of the digits among the first `n` positions, earlier digits
/// standing for more significant nibbles.
pub open spec fn uuid_value_prefix(s: Seq<char>, n: int) -> u128
    decreases n,
{
    if n <= 0 {
        0
    } else if n - 1 == 8 || n - 1 == 13 || n - 1 == 18 || n - 1 == 23 {
        uuid_value_prefix(s, n - 1)
    } else {
        mul16_add(uuid_value_prefix(s, n - 1), hex_val_or_zero(s[n - 1]))
    }
}

/// The value of a hexadecimal digit character, or zero.
pub open spec fn hex_val_or_zero(c: char) -> u8 {
    match hex_val(c) {
        Some(d) => d,
        None => 0,
    }
}

/// Shift a value one nibble left and add a digit, dropping the most
/// significant nibble, as 128-bit wrapping arithmetic does.
pub open spec fn mul16_add(acc: u128, d: u8) -> u128 {
    ((acc % 0x10000000000000000000000000000000) * 16 + d) as u128
}

fn hex_val_exec(c: u8) -> (r: Option<u8>)
    requires
        c < 0x80,
    ensures
        r == hex_val(c as char),
        r matches Some(d) ==> d < 16,
{
    if 48 <= c && c <= 57 {
        Some(c - 48)
    } else if 97 <= c && c <= 102 {
        Some(c - 87)
    } else if 65 <= c && c <= 70 {
        Some(c - 55)
    } else {
        None
    }
}

/// Parse the canonical hyphenated hexadecimal form from ASCII bytes.
pub fn parse_uuid_ascii(bytes: &[u8], start: usize) -> (r: Option<u128>)
    requires
        start <= bytes@.len(),
        forall|i: int| 0 <= i < bytes@.len() ==> bytes@[i] < 0x80,
    ensures
        r == parse_uuid_text(ascii_chars_of(bytes@.skip(start as int))),
{
    let ghost s = ascii_chars_of(bytes@.skip(start as int));
    if bytes.len() - start != 36 {
        return None;
    }
    let mut acc: u128 = 0;
    let mut p: usize = 0;
    while p < 36
        invariant
            p <= 36,
            start + 36 == bytes@.len(),
            bytes@.len() <= usize::MAX,
            s == ascii_chars_of(bytes@.skip(start as int)),
            s.len() == 36,
            forall|i: int| 0 <= i < bytes@.len() ==> bytes@[i] < 0x80,
            forall|j: int| 0 <= j < s.len() ==> s[j] == bytes@[start + j] as char,
            acc == uuid_value_prefix(s, p as int),
            forall|j: int|
                0 <= j < p && (j == 8 || j == 13 || j == 18 || j == 23) ==> s[j] == '-',
            forall|j: int|
                0 <= j < p && !(j == 8 || j == 13 || j == 18 || j == 23) ==> hex_val(s[j]) is Some,
        decreases 36 - p,
    {
        let b = bytes[start + p];
        assert(s[p as int] == b as char);
        if p == 8 || p == 13 || p == 18 || p == 23 {
            if b != 0x2d {
                assert(0x2d as char == '-');
                assert(s[p as int] != '-');
                return None;
            }
            assert(s[p as int] == '-');
        } else {
            match hex_val_exec(b) {
                None => {
                    return None;
                },
                Some(d) => {
                    acc = mul16_add_exec(acc, d);
                },
            }
        }
        p = p + 1;
    }
    assert(parse_uuid_text(s) == Some(acc));
    Some(acc)
}

fn mul16_add_exec(acc: u128, d: u8) -> (r: u128)
    requires
        d < 16,
    ensures
        r == mul16_add(acc, d),
{
    let t = acc % 0x10000000000000000000000000000000u128;
    assert(t * 16 <= u128::MAX - 15);
    t * 16 + (d as u128)
}

/// The value of the `k` most significant nibbles of `x`.
pub open spec fn high_nibbles(x: u128, k: int) -> u128
    decreases k,
{
    if k <= 0 {
        0
    } else {
        mul16_add(high_nibbles(x, k - 1), nibble(x, k - 1))
    }
}

/// Number of hyphen positions among the first `n` positions.
pub open spec fn hyphens_upto(n: int) -> int {
    if n <= 8 {
        0
    } else if n <= 13 {
        1
    } else if n <= 18 {
        2
    } else if n <= 23 {
        3
    } else {
        4
    }
}

proof fn lemma_hex_char_val(d: u8)
    requires
        d < 16,
    ensures
        hex_val(hex_char(d)) == Some(d),
{
}

proof fn lemma_uuid_value_prefix(x: u128, n: int)
    requires
        0 <= n <= 36,
    ensures
        uuid_value_prefix(uuid_text(x), n) == high_nibbles(x, n - hyphens_upto(n)),
    decreases n,
{
    if n > 0 {
        lemma_uuid_value_prefix(x, n - 1);
        let s = uuid_text(x);
        if n - 1 == 8 || n - 1 == 13 || n - 1 == 18 || n - 1 == 23 {
        } else {
            lemma_nibble_bound(x, n - 1 - hyphens_before(n - 1));
            lemma_hex_char_val(nibble(x, n - 1 - hyphens_before(n - 1)));
            assert(hex_val(s[n - 1]) == Some(nibble(x, n - 1 - hyphens_before(n - 1))));
        }
    }
}

#[verifier::spinoff_prover]
#[verifier::rlimit(100)]
proof fn lemma_high_nibbles_shift(x: u128, k: int)
    requires
        1 <= k <= 31,
    ensures
        high_nibbles(x, k) == (x >> (((32 - k) * 4) as u128)) % (1u128 << ((4 * k) as u128)),
    decreases k,
{
    if k == 1 {
        lemma_nibble_bound(x, 0);
        assert(high_nibbles(x, 0) == 0);
        assert(high_nibbles(x, 1) == mul16_add(0, nibble(x, 0)));
        assert(mul16_add(0, nibble(x, 0)) == nibble(x, 0));
        assert(((x >> 124u128) & 0xf) as u128 == (x >> 124u128) % (1u128 << 4u128))
            by (bit_vector);
        assert((x >> 124u128) & 0xf < 16) by (bit_vector);
        assert(nibble(x, 0) == ((x >> 124u128) & 0xf) as u8);
    } else {
        lemma_high_nibbles_shift(x, k - 1);
        let prev = high_nibbles(x, k - 1);
        let sh: u128 = ((32 - k) * 4) as u128;
        let sh_prev: u128 = (sh + 4) as u128;
        let e: u128 = ((4 * k) as u128);
        let e4: u128 = (e - 4) as u128;
        let nib = nibble(x, k - 1);
        assert(high_nibbles(x, k) == mul16_add(prev, nib));
        assert(prev == (x >> sh_prev) % (1u128 << e4));
        assert(nib == ((x >> sh) & 0xf) as u8);
        assert((x >> sh_prev) % (1u128 << e4) == x >> sh_prev) by (bit_vector)
            requires
                4 <= sh <= 120 && sh_prev == sh + 4 && e4 == 124 - sh,
        ;
        assert((x >> sh_prev) % 0x10000000000000000000000000000000 == x >> sh_prev)
            by (bit_vector)
            requires
                8 <= sh_prev,
        ;
        assert((x >> sh_prev) * 16 + ((x >> sh) & 0xf) == x >> sh) by (bit_vector)
            requires
                4 <= sh <= 120 && sh_prev == sh + 4,
        ;
        assert((x >> sh) % (1u128 << e) == x >> sh) by (bit_vector)
            requires
                4 <= sh <= 120 && e == 128 - sh,
        ;
        assert((x >> sh) & 0xf < 16) by (bit_vector);
        assert(x >> sh_prev <= 0xfffffffffffffffffffffffffffffff) by (bit_vector)
            requires
                8 <= sh_prev,
        ;
        assert(mul16_add(prev, nib) == ((prev % 0x10000000000000000000000000000000) * 16
            + nib) as u128);
        assert(high_nibbles(x, k) == (x >> sh) % (1u128 << e));
    }
}

#[verifier::spinoff_prover]
#[verifier::rlimit(100)]
proof fn lemma_high_nibbles_all(x: u128)
    ensures
        high_nibbles(x, 32) == x,
{
    lemma_high_nibbles_shift(x, 31);
    let prev = high_nibbles(x, 31);
    let nib = nibble(x, 31);
    assert(high_nibbles(x, 32) == mul16_add(prev, nib));
    assert(prev == (x >> 4u128) % (1u128 << 124u128));
    assert(nib == ((x >> 0u128) & 0xf) as u8);
    assert((x >> 4u128) % (1u128 << 124u128) == x >> 4u128) by (bit_vector);
    assert((x >> 4u128) % 0x10000000000000000000000000000000 == x >> 4u128) by (bit_vector);
    assert((x >> 4u128) * 16 + ((x >> 0u128) & 0xf) == x) by (bit_vector);
    assert((x >> 0u128) & 0xf < 16) by (bit_vector);
    assert(x >> 4u128 <= 0xfffffffffffffffffffffffffffffff) by (bit_vector);
    assert(mul16_add(prev, nib) == ((prev % 0x10000000000000000000000000000000) * 16
        + nib) as u128);
}

/// Formatting then parsing gives the value back.
pub proof fn lemma_uuid_text_roundtrip(x: u128)
    ensures
        parse_uuid_text(uuid_text(x)) == Some(x),
{
    let s = uuid_text(x);
    assert forall|p: int|
        0 <= p < 36 && p != 8 && p != 13 && p != 18 && p != 23 implies hex_val(s[p]) is Some by {
        lemma_nibble_bound(x, p - hyphens_before(p));
        lemma_hex_char_val(nibble(x, p - hyphens_before(p)));
    }
    lemma_uuid_value_prefix(x, 36);
    lemma_high_nibbles_all(x);
    assert(parse_uuid_text(s) == Some(uuid_value_prefix(s, 36)));
}

/// Parse the canonical hyphenated form from a string: the value it spells,
/// or nothing where the shape is wrong. Only ASCII text can spell one.
pub fn parse_uuid(s: &str) -> (r: Option<u128>)
    ensures
        r == parse_uuid_text(s@),
{
    if !s.is_ascii() {
        proof {
            lemma_non_ascii_never_uuid(s@);
        }
        return None;
    }
    proof {
        lemma_ascii_string_chars(s);
        assert(s.spec_bytes().skip(0) =~= s.spec_bytes());
        assert(ascii_chars_of(s.spec_bytes()) == s@);
    }
    let bytes = s.as_bytes();
    parse_uuid_ascii(bytes, 0)
}

/// Text with a character beyond ASCII never spells an identifier: every
/// position of the hyphenated form holds a hyphen or a hexadecimal digit.
proof fn lemma_non_ascii_never_uuid(s: Seq<char>)
    requires
        !vstd::utf8::is_ascii_chars(s),
    ensures
        parse_uuid_text(s) is None,
{
    if parse_uuid_text(s) is Some {
        assert(exists|p: int| 0 <= p < s.len() && !('\0' <= #[trigger] s[p] <= '\u{7f}'));
        let p = choose|p: int| 0 <= p < s.len() && !('\0' <= #[trigger] s[p] <= '\u{7f}');
        if p == 8 || p == 13 || p == 18 || p == 23 {
            assert(s[p] == '-');
        } else {
            assert(hex_val(s[p]) is Some);
            assert(s[p] as u32 <= 102);
            vstd::utf8::char_u32_cast(s[p], s[p] as u32);
            assert('\u{7f}' as u32 == 0x7f);
            assert(s[p] <= '\u{7f}');
        }
    }
}

} // verus!
