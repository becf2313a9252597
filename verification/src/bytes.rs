//! The byte-to-character adapter.
//!
//! The adapter's design is to accumulate raw bytes big-endian into a 32-bit
//! value and to emit a character as soon as the accumulated value is a valid
//! Unicode scalar value. Any single byte is already a valid scalar value
//! (the excluded surrogate range starts at `0xD800`), so the accumulation
//! ends after every first byte: each input byte becomes exactly the character
//! with that byte's code. For bytes in the ASCII range this agrees with
//! reading the bytes as UTF-8 text ([`lemma_bytes_parse_as_text`]); for
//! higher bytes it is a best-effort conversion, not UTF-8 decoding.

use crate::model::spec_parse_text;
use vstd::prelude::*;

verus! {

/// The character with the byte's code.
pub open spec fn byte_char(b: u8) -> char {
    (b as u32) as char
}

/// What the adapter produces: one character per byte, with the byte's code.
pub open spec fn spec_chars_of_bytes(bytes: Seq<u8>) -> Seq<char>
    decreases bytes.len(),
{
    if bytes.len() == 0 {
        Seq::empty()
    } else {
        seq![byte_char(bytes[0])] + spec_chars_of_bytes(bytes.drop_first())
    }
}

/// Appending a byte appends its character.
pub proof fn lemma_chars_of_bytes_push(bytes: Seq<u8>, b: u8)
    ensures
        spec_chars_of_bytes(bytes.push(b)) == spec_chars_of_bytes(bytes).push(byte_char(b)),
    decreases bytes.len(),
{
    let pushed = bytes.push(b);
    if bytes.len() == 0 {
        assert(pushed[0] == b);
        assert(pushed.drop_first() =~= Seq::<u8>::empty());
        assert(spec_chars_of_bytes(pushed.drop_first()) =~= Seq::<char>::empty());
        assert(spec_chars_of_bytes(bytes) =~= Seq::<char>::empty());
        assert(spec_chars_of_bytes(pushed) =~= spec_chars_of_bytes(bytes).push(byte_char(b)));
    } else {
        assert(pushed[0] == bytes[0]);
        assert(pushed.drop_first() =~= bytes.drop_first().push(b));
        lemma_chars_of_bytes_push(bytes.drop_first(), b);
        assert(spec_chars_of_bytes(pushed) =~= spec_chars_of_bytes(bytes).push(byte_char(b)));
    }
}

/// Relies on `char::from_u32`: it returns `Some` exactly for Unicode scalar
/// values, and the returned character has exactly the given code.
#[verifier::external_body]
fn char_from_u32(u: u32) -> (r: Option<char>)
    ensures
        match r {
            Some(c) => vstd::utf8::is_scalar(u) && c as u32 == u,
            None => !vstd::utf8::is_scalar(u),
        },
{
    char::from_u32(u)
}

/// Converts raw bytes to the characters the adapter defines.
#[verifier::loop_isolation(false)]
pub fn chars_of_bytes(bytes: &Vec<u8>) -> (v: Vec<char>)
    ensures
        v@ == spec_chars_of_bytes(bytes@),
{
    let mut v: Vec<char> = Vec::new();
    let mut i: usize = 0;
    proof {
        assert(bytes@.subrange(0, 0) =~= Seq::<u8>::empty());
    }
    while i < bytes.len()
        invariant
            0 <= i <= bytes.len(),
            v@ == spec_chars_of_bytes(bytes@.subrange(0, i as int)),
        decreases bytes.len() - i,
    {
        let b = bytes[i];
        let value: u32 = b as u32;
        proof {
            assert(vstd::utf8::is_scalar(value));
        }
        match char_from_u32(value) {
            Some(ch) => {
                proof {
                    vstd::utf8::char_u32_cast(ch, value);
                    assert(ch == byte_char(b));
                    assert(bytes@.subrange(0, i + 1) =~= bytes@.subrange(0, i as int).push(
                        bytes@[i as int],
                    ));
                    lemma_chars_of_bytes_push(bytes@.subrange(0, i as int), b);
                }
                v.push(ch);
            },
            None => {
                proof {
                    assert(false);
                }
            },
        }
        i = i + 1;
    }
    proof {
        assert(bytes@.subrange(0, bytes@.len() as int) =~= bytes@);
    }
    v
}

/// The byte adapter agrees with reading a text directly: for a byte sequence
/// in the ASCII range, the adapter yields exactly the equivalent characters,
/// so parsing the bytes and parsing the equivalent text give the same result.
pub proof fn lemma_bytes_parse_as_text(bytes: Seq<u8>, text: Seq<char>)
    requires
        bytes.len() == text.len(),
        forall|i: int|
            0 <= i < bytes.len() ==> bytes[i] < 0x80 && text[i] as u32 == bytes[i] as u32,
    ensures
        spec_chars_of_bytes(bytes) == text,
        spec_parse_text(spec_chars_of_bytes(bytes)) == spec_parse_text(text),
    decreases bytes.len(),
{
    if bytes.len() == 0 {
        assert(spec_chars_of_bytes(bytes) =~= text);
    } else {
        vstd::utf8::char_u32_cast(text[0], bytes[0] as u32);
        assert(byte_char(bytes[0]) == text[0]);
        lemma_bytes_parse_as_text(bytes.drop_first(), text.drop_first());
        assert(spec_chars_of_bytes(bytes) =~= text);
    }
}

} // verus!
