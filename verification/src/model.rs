//! The mathematical model of the parser.
//!
//! Every function here is specification-only. Each describes, over a
//! `Seq<char>` and a position into it, what one reader of the parser returns
//! and where it leaves the cursor. The executable readers in
//! [`crate::parser`] are proved to agree with these functions exactly.
//!
//! A model function takes the whole input `s` and the position `pos` of the
//! first character the reader would look at, and returns either
//! `Ok((parsed item, position of the first character after it))` or the
//! error the reader reports. On an error the final cursor position is not
//! part of the model: parsing aborts, so only the error itself is observable.

use crate::value::Error;
use vstd::prelude::*;

verus! {

/// The model of a parsed JSON value: what [`crate::value::Json`] looks like
/// to a specification (its deep view).
pub ghost enum JsonV {
    /// A list of values, in source order.
    List(Seq<JsonV>),
    /// An object: key/value pairs in source order, repeated keys kept.
    Object(Seq<(Seq<char>, JsonV)>),
    /// A string, escape sequences verbatim.
    String(Seq<char>),
    /// A number, as its literal text.
    Number(Seq<char>),
    /// A boolean.
    Bool(bool),
    /// The null value.
    Null,
}

/// The characters the whitespace skipper consumes: the Unicode `White_Space`
/// set, the classification `char::is_whitespace` uses.
pub open spec fn is_json_whitespace(c: char) -> bool {
    let u = c as u32;
    (9 <= u && u <= 13) || u == 32 || u == 0x85 || u == 0xA0 || u == 0x1680 || (0x2000 <= u
        && u <= 0x200A) || u == 0x2028 || u == 0x2029 || u == 0x202F || u == 0x205F || u == 0x3000
}

/// A decimal digit.
pub open spec fn is_digit(c: char) -> bool {
    48 <= c as u32 && c as u32 <= 57
}

/// The characters the number reader consumes: a permissive class, not a
/// grammar. Validity is decided afterwards by [`is_float_literal`].
pub open spec fn is_number_char(c: char) -> bool {
    is_digit(c) || c == '.' || c == '+' || c == '-'
}

/// The position of the first character at or after `pos` that is not
/// whitespace (the input's length if all of the rest is whitespace).
pub open spec fn spec_skip_ws(s: Seq<char>, pos: int) -> int
    decreases s.len() - pos
        when 0 <= pos <= s.len()
{
    if pos == s.len() {
        pos
    } else if is_json_whitespace(s[pos]) {
        spec_skip_ws(s, pos + 1)
    } else {
        pos
    }
}

/// Skipping whitespace stays within the input, lands on a non-whitespace
/// character (or the end), and skips only whitespace.
pub proof fn lemma_skip_ws_bounds(s: Seq<char>, pos: int)
    requires
        0 <= pos <= s.len(),
    ensures
        pos <= spec_skip_ws(s, pos) <= s.len(),
        spec_skip_ws(s, pos) < s.len() ==> !is_json_whitespace(s[spec_skip_ws(s, pos)]),
        forall|i: int| pos <= i < spec_skip_ws(s, pos) ==> is_json_whitespace(s[i]),
    decreases s.len() - pos,
{
    if pos < s.len() && is_json_whitespace(s[pos]) {
        lemma_skip_ws_bounds(s, pos + 1);
    }
}

/// Scans a string body from `pos`, with `escaped` telling whether the
/// character at `pos` is preceded by an unconsumed escaping backslash.
/// Returns the position of the closing quote (the first unescaped `"`),
/// or `None` if the input ends first.
pub open spec fn spec_string_end(s: Seq<char>, pos: int, escaped: bool) -> Option<int>
    decreases s.len() - pos
        when 0 <= pos <= s.len()
{
    if pos == s.len() {
        None
    } else if !escaped && s[pos] == '"' {
        Some(pos)
    } else {
        spec_string_end(s, pos + 1, !escaped && s[pos] == '\\')
    }
}

/// A found closing quote lies within the input and is a `"`.
pub proof fn lemma_string_end_bounds(s: Seq<char>, pos: int, escaped: bool)
    requires
        0 <= pos <= s.len(),
    ensures
        spec_string_end(s, pos, escaped) matches Some(e) ==> pos <= e < s.len() && s[e] == '"',
    decreases s.len() - pos,
{
    if pos < s.len() && !(!escaped && s[pos] == '"') {
        lemma_string_end_bounds(s, pos + 1, !escaped && s[pos] == '\\');
    }
}

/// The string reader: requires a `"` at `pos` (else `InvalidValue`, also at
/// the end of the input), then consumes up to and including the first
/// unescaped closing `"`. The content between the quotes is returned
/// verbatim; a missing closing quote is `UnclosedString`.
pub open spec fn spec_read_string(s: Seq<char>, pos: int) -> Result<(Seq<char>, int), Error> {
    if !(0 <= pos < s.len() && s[pos] == '"') {
        Err(Error::InvalidValue)
    } else {
        match spec_string_end(s, pos + 1, false) {
            Some(e) => Ok((s.subrange(pos + 1, e), e + 1)),
            None => Err(Error::UnclosedString),
        }
    }
}

/// The boolean reader: exactly the literal `true` or `false` starting at
/// `pos`; anything else (a different first character, a mismatch, or too
/// little input) is `InvalidValue`.
pub open spec fn spec_read_bool(s: Seq<char>, pos: int) -> Result<(bool, int), Error> {
    if 0 <= pos && pos + 4 <= s.len() && s[pos] == 't' && s[pos + 1] == 'r' && s[pos + 2] == 'u'
        && s[pos + 3] == 'e' {
        Ok((true, pos + 4))
    } else if 0 <= pos && pos + 5 <= s.len() && s[pos] == 'f' && s[pos + 1] == 'a' && s[pos + 2]
        == 'l' && s[pos + 3] == 's' && s[pos + 4] == 'e' {
        Ok((false, pos + 5))
    } else {
        Err(Error::InvalidValue)
    }
}

/// The null reader: exactly the literal `null` starting at `pos`; anything
/// else is `InvalidValue`.
pub open spec fn spec_read_null(s: Seq<char>, pos: int) -> Result<int, Error> {
    if 0 <= pos && pos + 4 <= s.len() && s[pos] == 'n' && s[pos + 1] == 'u' && s[pos + 2] == 'l'
        && s[pos + 3] == 'l' {
        Ok(pos + 4)
    } else {
        Err(Error::InvalidValue)
    }
}

/// The position right after the maximal run of number characters starting at
/// `pos` (see [`is_number_char`]).
pub open spec fn spec_number_end(s: Seq<char>, pos: int) -> int
    decreases s.len() - pos
        when 0 <= pos <= s.len()
{
    if pos == s.len() {
        pos
    } else if is_number_char(s[pos]) {
        spec_number_end(s, pos + 1)
    } else {
        pos
    }
}

/// The maximal number run stays within the input, consists of number
/// characters, and stops at the first character that is not one.
pub proof fn lemma_number_end_bounds(s: Seq<char>, pos: int)
    requires
        0 <= pos <= s.len(),
    ensures
        pos <= spec_number_end(s, pos) <= s.len(),
        spec_number_end(s, pos) < s.len() ==> !is_number_char(s[spec_number_end(s, pos)]),
        forall|i: int| pos <= i < spec_number_end(s, pos) ==> is_number_char(s[i]),
    decreases s.len() - pos,
{
    if pos < s.len() && is_number_char(s[pos]) {
        lemma_number_end_bounds(s, pos + 1);
    }
}

/// Every character of `t` is a decimal digit.
pub open spec fn all_digits(t: Seq<char>) -> bool {
    forall|i: int| 0 <= i < t.len() ==> is_digit(t[i])
}

/// Every character of `t` except the one at `k` is a decimal digit.
pub open spec fn all_digits_except(t: Seq<char>, k: int) -> bool {
    forall|i: int| 0 <= i < t.len() && i != k ==> is_digit(t[i])
}

/// `t` without its sign: the text after one leading `+` or `-`, or all of it
/// when it starts with neither.
pub open spec fn sign_stripped(t: Seq<char>) -> Seq<char> {
    if t.len() > 0 && (t[0] == '+' || t[0] == '-') {
        t.subrange(1, t.len() as int)
    } else {
        t
    }
}

/// An unsigned floating-point literal: digits only, or digits with exactly
/// one `.` among them and at least one digit in total.
pub open spec fn is_unsigned_float_literal(u: Seq<char>) -> bool {
    (u.len() > 0 && all_digits(u)) || (u.len() >= 2 && exists|k: int|
        #![trigger all_digits_except(u, k)]
        0 <= k < u.len() && u[k] == '.' && all_digits_except(u, k))
}

/// Whether `t` is a valid 64-bit floating-point literal, for texts drawn
/// from the number reader's character class: an optional single leading sign,
/// then an unsigned literal. This is the grammar `f64`'s `FromStr` accepts
/// once exponent and keyword forms are ruled out, which they are here because
/// `e` and letters are not number characters.
pub open spec fn is_float_literal(t: Seq<char>) -> bool {
    is_unsigned_float_literal(sign_stripped(t))
}

/// The number reader: consumes the maximal run of number characters starting
/// at `pos`. An empty run, or a run that is not a valid floating-point
/// literal, is `InvalidValue`; otherwise the literal text is returned.
pub open spec fn spec_read_number(s: Seq<char>, pos: int) -> Result<(Seq<char>, int), Error> {
    let e = spec_number_end(s, pos);
    if e == pos {
        Err(Error::InvalidValue)
    } else if is_float_literal(s.subrange(pos, e)) {
        Ok((s.subrange(pos, e), e))
    } else {
        Err(Error::InvalidValue)
    }
}

/// Keeps a position within `(lo, s.len()]`. The value readers always leave
/// the cursor there ([`lemma_parse_value_advances`]), so along real parses
/// this changes nothing; it lets the mutually recursive definitions below
/// show their termination measure without that lemma.
pub open spec fn clamp_after(s: Seq<char>, lo: int, p: int) -> int {
    let q = if p < lo + 1 {
        lo + 1
    } else {
        p
    };
    if q > s.len() {
        s.len() as int
    } else {
        q
    }
}

/// The value dispatch: decides by the character at `pos` which reader parses
/// the value, with no backtracking. At the end of the input the error is
/// `UnexpectedEndOfFile`; on a character no reader accepts, `InvalidValue`.
pub open spec fn spec_parse_value(s: Seq<char>, pos: int) -> Result<(JsonV, int), Error>
    decreases s.len() - pos, 1int
        when 0 <= pos <= s.len()
{
    if pos == s.len() {
        Err(Error::UnexpectedEndOfFile)
    } else if s[pos] == '"' {
        match spec_read_string(s, pos) {
            Ok((t, q)) => Ok((JsonV::String(t), q)),
            Err(e) => Err(e),
        }
    } else if s[pos] == 't' || s[pos] == 'f' {
        match spec_read_bool(s, pos) {
            Ok((b, q)) => Ok((JsonV::Bool(b), q)),
            Err(e) => Err(e),
        }
    } else if s[pos] == 'n' {
        match spec_read_null(s, pos) {
            Ok(q) => Ok((JsonV::Null, q)),
            Err(e) => Err(e),
        }
    } else if is_number_char(s[pos]) {
        match spec_read_number(s, pos) {
            Ok((t, q)) => Ok((JsonV::Number(t), q)),
            Err(e) => Err(e),
        }
    } else if s[pos] == '[' {
        match spec_list_items(s, pos + 1, true) {
            Ok((items, q)) => Ok((JsonV::List(items), q)),
            Err(e) => Err(e),
        }
    } else if s[pos] == '{' {
        match spec_object_items(s, pos + 1, true) {
            Ok((entries, q)) => Ok((JsonV::Object(entries), q)),
            Err(e) => Err(e),
        }
    } else {
        Err(Error::InvalidValue)
    }
}

/// The list reader's loop, entered right after a `[` or a `,` at `pos - 1`:
/// skip whitespace; right after the `[` (`allow_close`), a `]` closes the
/// (empty) list; otherwise parse one value — a `]` after a `,` thus reaches
/// the dispatch and is `InvalidValue`, so a trailing comma is rejected. Then
/// skip whitespace and look at one more character: `]` closes, `,` continues,
/// any other character is `MissingSeparator`, and no character at all is
/// `UnclosedList`.
pub open spec fn spec_list_items(s: Seq<char>, pos: int, allow_close: bool) -> Result<
    (Seq<JsonV>, int),
    Error,
>
    decreases s.len() - pos, 2int
        when 0 <= pos <= s.len()
{
    let p = {
        proof {
            lemma_skip_ws_bounds(s, pos);
        }
        spec_skip_ws(s, pos)
    };
    if allow_close && p < s.len() && s[p] == ']' {
        Ok((Seq::empty(), p + 1))
    } else {
        match spec_parse_value(s, p) {
            Err(e) => Err(e),
            Ok((v, q0)) => {
                let q = {
                    proof {
                        lemma_skip_ws_bounds(s, clamp_after(s, p, q0));
                    }
                    spec_skip_ws(s, clamp_after(s, p, q0))
                };
                if q == s.len() {
                    Err(Error::UnclosedList)
                } else if s[q] == ']' {
                    Ok((seq![v], q + 1))
                } else if s[q] == ',' {
                    match spec_list_items(s, q + 1, false) {
                        Ok((rest, r)) => Ok((seq![v] + rest, r)),
                        Err(e) => Err(e),
                    }
                } else {
                    Err(Error::MissingSeparator)
                }
            },
        }
    }
}

/// The object reader's loop, entered right after a `{` or a `,` at `pos - 1`:
/// skip whitespace; right after the `{` (`allow_close`), a `}` closes the
/// (empty) object; otherwise read a string as the key (a non-string key fails
/// with the string reader's own error, so a trailing comma is rejected), skip
/// whitespace, require `:` (else `MissingSeparator`), skip whitespace, parse
/// the value, then skip whitespace and look at one more character: `}`
/// closes, `,` continues, any other character is `MissingSeparator`, and no
/// character at all is `UnclosedObject`.
pub open spec fn spec_object_items(s: Seq<char>, pos: int, allow_close: bool) -> Result<
    (Seq<(Seq<char>, JsonV)>, int),
    Error,
>
    decreases s.len() - pos, 2int
        when 0 <= pos <= s.len()
{
    let p = {
        proof {
            lemma_skip_ws_bounds(s, pos);
        }
        spec_skip_ws(s, pos)
    };
    if allow_close && p < s.len() && s[p] == '}' {
        Ok((Seq::empty(), p + 1))
    } else {
        match spec_read_string(s, p) {
            Err(e) => Err(e),
            Ok((key, k0)) => {
                let k1 = {
                    proof {
                        lemma_string_end_bounds(s, p + 1, false);
                        lemma_skip_ws_bounds(s, k0);
                    }
                    spec_skip_ws(s, k0)
                };
                if !(k1 < s.len() && s[k1] == ':') {
                    Err(Error::MissingSeparator)
                } else {
                    let k2 = {
                        proof {
                            lemma_skip_ws_bounds(s, k1 + 1);
                        }
                        spec_skip_ws(s, k1 + 1)
                    };
                    match spec_parse_value(s, k2) {
                        Err(e) => Err(e),
                        Ok((v, q0)) => {
                            let q = {
                                proof {
                                    lemma_skip_ws_bounds(s, clamp_after(s, k2, q0));
                                }
                                spec_skip_ws(s, clamp_after(s, k2, q0))
                            };
                            if q == s.len() {
                                Err(Error::UnclosedObject)
                            } else if s[q] == '}' {
                                Ok((seq![(key, v)], q + 1))
                            } else if s[q] == ',' {
                                match spec_object_items(s, q + 1, false) {
                                    Ok((rest, r)) => Ok((seq![(key, v)] + rest, r)),
                                    Err(e) => Err(e),
                                }
                            } else {
                                Err(Error::MissingSeparator)
                            }
                        },
                    }
                }
            },
        }
    }
}

/// The list reader: requires a `[` at `pos` (else `InvalidValue`, also at
/// the end of the input), then runs the list loop.
pub open spec fn spec_read_list(s: Seq<char>, pos: int) -> Result<(Seq<JsonV>, int), Error> {
    if !(0 <= pos < s.len() && s[pos] == '[') {
        Err(Error::InvalidValue)
    } else {
        spec_list_items(s, pos + 1, true)
    }
}

/// The object reader: requires a `{` at `pos` (else `InvalidValue`, also at
/// the end of the input), then runs the object loop.
pub open spec fn spec_read_object(s: Seq<char>, pos: int) -> Result<
    (Seq<(Seq<char>, JsonV)>, int),
    Error,
> {
    if !(0 <= pos < s.len() && s[pos] == '{') {
        Err(Error::InvalidValue)
    } else {
        spec_object_items(s, pos + 1, true)
    }
}

/// The top-level entry: skip leading whitespace, then dispatch. Characters
/// after the parsed value are not looked at.
pub open spec fn spec_parse_text(s: Seq<char>) -> Result<JsonV, Error> {
    let p = spec_skip_ws(s, 0);
    match spec_parse_value(s, p) {
        Ok((v, _)) => Ok(v),
        Err(e) => Err(e),
    }
}

} // verus!
