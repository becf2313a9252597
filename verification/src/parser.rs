//! The executable readers, proved against the model in [`crate::model`].

use crate::bytes::chars_of_bytes;
use crate::bytes::spec_chars_of_bytes;
use crate::cursor::Cursor;
use crate::model::JsonV;
use crate::model::all_digits;
use crate::model::all_digits_except;
use crate::model::clamp_after;
use crate::model::is_digit;
use crate::model::is_float_literal;
use crate::model::is_json_whitespace;
use crate::model::is_number_char;
use crate::model::is_unsigned_float_literal;
use crate::model::lemma_number_end_bounds;
use crate::model::lemma_skip_ws_bounds;
use crate::model::sign_stripped;
use crate::model::spec_list_items;
use crate::model::spec_number_end;
use crate::model::spec_object_items;
use crate::model::spec_parse_text;
use crate::model::spec_parse_value;
use crate::model::spec_read_bool;
use crate::model::spec_read_list;
use crate::model::spec_read_null;
use crate::model::spec_read_number;
use crate::model::spec_read_object;
use crate::model::spec_read_string;
use crate::model::spec_skip_ws;
use crate::model::spec_string_end;
use crate::value::Error;
use crate::value::Json;
use crate::value::entry_views_of;
use crate::value::lemma_entry_views_of_push;
use crate::value::lemma_views_of_push;
use crate::value::views_of;
use vstd::prelude::*;
use vstd::string::StrSliceExecFns;

verus! {

/// Whether `c` is in the whitespace skipper's character set.
fn char_is_whitespace(c: char) -> (r: bool)
    ensures
        r == is_json_whitespace(c),
{
    let u = c as u32;
    (9 <= u && u <= 13) || u == 32 || u == 0x85 || u == 0xA0 || u == 0x1680 || (0x2000 <= u
        && u <= 0x200A) || u == 0x2028 || u == 0x2029 || u == 0x202F || u == 0x205F || u == 0x3000
}

/// Whether `c` is a decimal digit.
fn char_is_digit(c: char) -> (r: bool)
    ensures
        r == is_digit(c),
{
    let u = c as u32;
    48 <= u && u <= 57
}

/// Whether `c` is in the number reader's character set.
fn char_is_number(c: char) -> (r: bool)
    ensures
        r == is_number_char(c),
{
    char_is_digit(c) || c == '.' || c == '+' || c == '-'
}

/// Relies on `String::push`: it appends exactly the given character.
#[verifier::external_body]
fn push_char(out: &mut String, c: char)
    ensures
        final(out)@ == old(out)@.push(c),
{
    out.push(c);
}

/// The characters of `buf`, gathered into an owned string.
#[verifier::loop_isolation(false)]
fn string_of_chars(buf: &Vec<char>) -> (out: String)
    ensures
        out@ == buf@,
{
    let mut out = String::new();
    let mut i: usize = 0;
    while i < buf.len()
        invariant
            0 <= i <= buf.len(),
            out@ == buf@.subrange(0, i as int),
        decreases buf.len() - i,
    {
        push_char(&mut out, buf[i]);
        proof {
            assert(buf@.subrange(0, i + 1) =~= buf@.subrange(0, i as int).push(buf@[i as int]));
        }
        i = i + 1;
    }
    proof {
        assert(buf@.subrange(0, buf@.len() as int) =~= buf@);
    }
    out
}

/// The characters of a text, as an owned sequence.
#[verifier::loop_isolation(false)]
pub fn chars_of_text(s: &str) -> (v: Vec<char>)
    ensures
        v@ == s@,
{
    let n = s.unicode_len();
    let mut v: Vec<char> = Vec::new();
    let mut i: usize = 0;
    while i < n
        invariant
            0 <= i <= n,
            n == s@.len(),
            v@ == s@.subrange(0, i as int),
        decreases n - i,
    {
        v.push(s.get_char(i));
        proof {
            assert(s@.subrange(0, i + 1) =~= s@.subrange(0, i as int).push(s@[i as int]));
        }
        i = i + 1;
    }
    proof {
        assert(s@.subrange(0, s@.len() as int) =~= s@);
    }
    v
}

/// Consumes the next character exactly when it is `expected`; reports whether
/// it was.
fn next_is(c: &mut Cursor, expected: char) -> (r: bool)
    requires
        old(c).wf(),
    ensures
        final(c).wf(),
        final(c).src() == old(c).src(),
        r == (old(c).pos() < old(c).src().len() && old(c).src()[old(c).pos()] == expected),
        r ==> final(c).pos() == old(c).pos() + 1,
{
    match c.next() {
        Some(ch) => ch == expected,
        None => false,
    }
}

impl Json {
    /// Consumes the maximal run of whitespace without consuming the first
    /// character after it.
    pub fn skip_whitespace(c: &mut Cursor)
        requires
            old(c).wf(),
        ensures
            final(c).wf(),
            final(c).src() == old(c).src(),
            final(c).pos() == spec_skip_ws(old(c).src(), old(c).pos()),
            old(c).pos() <= final(c).pos() <= old(c).src().len(),
        decreases c.src().len() - c.pos(),
    {
        match c.peek() {
            Some(ch) => {
                if char_is_whitespace(ch) {
                    let _ = c.next();
                    Json::skip_whitespace(c);
                }
            },
            None => {},
        }
    }

    /// Tries to read a string value: a `"`, the verbatim content, and the
    /// first unescaped closing `"`, which is consumed but not returned.
    #[verifier::loop_isolation(false)]
    pub fn read_string(c: &mut Cursor) -> (r: Result<String, Error>)
        requires
            old(c).wf(),
        ensures
            final(c).wf(),
            final(c).src() == old(c).src(),
            match spec_read_string(old(c).src(), old(c).pos()) {
                Ok(parsed) => r matches Ok(out) && out@ == parsed.0 && final(c).pos() == parsed.1
                    && old(c).pos() < final(c).pos() <= final(c).src().len(),
                Err(e) => r matches Err(a) && a == e,
            },
    {
        let ghost s = c.src();
        let ghost start = c.pos();
        let opened = next_is(c, '"');
        if !opened {
            return Err(Error::InvalidValue);
        }
        let mut out = String::new();
        let mut escaped = false;
        loop
            invariant
                c.wf(),
                c.src() == s,
                0 <= start < s.len(),
                s[start] == '"',
                start + 1 <= c.pos() <= s.len(),
                out@ == s.subrange(start + 1, c.pos()),
                spec_string_end(s, start + 1, false) == spec_string_end(s, c.pos(), escaped),
            decreases s.len() - c.pos(),
        {
            match c.peek() {
                None => {
                    return Err(Error::UnclosedString);
                },
                Some(ch) => {
                    if !escaped && ch == '"' {
                        let _ = c.next();
                        return Ok(out);
                    }
                    let _ = c.next();
                    push_char(&mut out, ch);
                    escaped = !escaped && ch == '\\';
                    proof {
                        assert(s.subrange(start + 1, c.pos()) =~= s.subrange(
                            start + 1,
                            c.pos() - 1,
                        ).push(ch));
                    }
                },
            }
        }
    }

    /// Tries to read a boolean: exactly the literal `true` or `false`.
    pub fn read_bool(c: &mut Cursor) -> (r: Result<bool, Error>)
        requires
            old(c).wf(),
        ensures
            final(c).wf(),
            final(c).src() == old(c).src(),
            match spec_read_bool(old(c).src(), old(c).pos()) {
                Ok(parsed) => r matches Ok(b) && b == parsed.0 && final(c).pos() == parsed.1
                    && old(c).pos() < final(c).pos() <= final(c).src().len(),
                Err(e) => r matches Err(a) && a == e,
            },
    {
        match c.next() {
            Some('t') => {
                if next_is(c, 'r') && next_is(c, 'u') && next_is(c, 'e') {
                    Ok(true)
                } else {
                    Err(Error::InvalidValue)
                }
            },
            Some('f') => {
                if next_is(c, 'a') && next_is(c, 'l') && next_is(c, 's') && next_is(c, 'e') {
                    Ok(false)
                } else {
                    Err(Error::InvalidValue)
                }
            },
            _ => Err(Error::InvalidValue),
        }
    }

    /// Tries to read the null value: exactly the literal `null`.
    pub fn read_null(c: &mut Cursor) -> (r: Result<(), Error>)
        requires
            old(c).wf(),
        ensures
            final(c).wf(),
            final(c).src() == old(c).src(),
            match spec_read_null(old(c).src(), old(c).pos()) {
                Ok(q) => r matches Ok(u) && final(c).pos() == q && old(c).pos() < final(c).pos()
                    <= final(c).src().len(),
                Err(e) => r matches Err(a) && a == e,
            },
    {
        if next_is(c, 'n') && next_is(c, 'u') && next_is(c, 'l') && next_is(c, 'l') {
            Ok(())
        } else {
            Err(Error::InvalidValue)
        }
    }

    /// Tries to read a number: the maximal run of number characters, returned
    /// as its text when it is a valid floating-point literal.
    pub fn read_number(c: &mut Cursor) -> (r: Result<String, Error>)
        requires
            old(c).wf(),
        ensures
            final(c).wf(),
            final(c).src() == old(c).src(),
            match spec_read_number(old(c).src(), old(c).pos()) {
                Ok(parsed) => r matches Ok(out) && out@ == parsed.0 && final(c).pos() == parsed.1
                    && old(c).pos() < final(c).pos() <= final(c).src().len(),
                Err(e) => r matches Err(a) && a == e,
            },
    {
        let ghost s = c.src();
        let ghost start = c.pos();
        let mut buf: Vec<char> = Vec::new();
        take_number_run(c, &mut buf);
        proof {
            lemma_number_end_bounds(s, start);
            assert(buf@ =~= s.subrange(start, c.pos()));
        }
        if buf.len() == 0 {
            return Err(Error::InvalidValue);
        }
        if !check_float_literal(&buf) {
            return Err(Error::InvalidValue);
        }
        Ok(string_of_chars(&buf))
    }
}

impl Json {
    /// Tries to parse one JSON value, dispatching on the next character.
    pub fn parse_value(c: &mut Cursor) -> (r: Result<Json, Error>)
        requires
            old(c).wf(),
        ensures
            final(c).wf(),
            final(c).src() == old(c).src(),
            match spec_parse_value(old(c).src(), old(c).pos()) {
                Ok(parsed) => r matches Ok(j) && j.deep_view() == parsed.0 && final(c).pos()
                    == parsed.1 && old(c).pos() < final(c).pos() <= final(c).src().len(),
                Err(e) => r matches Err(a) && a == e,
            },
        decreases c.src().len() - c.pos(), 1int,
    {
        match c.peek() {
            None => Err(Error::UnexpectedEndOfFile),
            Some(ch) => {
                if ch == '"' {
                    match Json::read_string(c) {
                        Ok(text) => Ok(Json::String(text)),
                        Err(e) => Err(e),
                    }
                } else if ch == 't' || ch == 'f' {
                    match Json::read_bool(c) {
                        Ok(b) => Ok(Json::Bool(b)),
                        Err(e) => Err(e),
                    }
                } else if ch == 'n' {
                    match Json::read_null(c) {
                        Ok(_) => Ok(Json::Null),
                        Err(e) => Err(e),
                    }
                } else if char_is_number(ch) {
                    match Json::read_number(c) {
                        Ok(text) => Ok(Json::Number(text)),
                        Err(e) => Err(e),
                    }
                } else if ch == '[' {
                    match Json::read_list(c) {
                        Ok(items) => Ok(Json::List(items)),
                        Err(e) => Err(e),
                    }
                } else if ch == '{' {
                    match Json::read_object(c) {
                        Ok(entries) => Ok(Json::Object(entries)),
                        Err(e) => Err(e),
                    }
                } else {
                    Err(Error::InvalidValue)
                }
            },
        }
    }

    /// Tries to read a list of values: a `[`, then the list loop.
    #[verifier::loop_isolation(false)]
    pub fn read_list(c: &mut Cursor) -> (r: Result<Vec<Json>, Error>)
        requires
            old(c).wf(),
        ensures
            final(c).wf(),
            final(c).src() == old(c).src(),
            match spec_read_list(old(c).src(), old(c).pos()) {
                Ok(parsed) => r matches Ok(items) && views_of(items@) == parsed.0 && final(c).pos()
                    == parsed.1 && old(c).pos() < final(c).pos() <= final(c).src().len(),
                Err(e) => r matches Err(a) && a == e,
            },
        decreases c.src().len() - c.pos(), 0int,
    {
        let ghost s = c.src();
        let ghost start = c.pos();
        if !next_is(c, '[') {
            return Err(Error::InvalidValue);
        }
        Json::skip_whitespace(c);
        let ghost p0 = c.pos();
        proof {
            lemma_skip_ws_bounds(s, start + 1);
        }
        let close = match c.peek() {
            Some(']') => true,
            _ => false,
        };
        if close {
            let _ = c.next();
            let empty_list: Vec<Json> = Vec::new();
            proof {
                assert(views_of(empty_list@) =~= Seq::<JsonV>::empty());
            }
            return Ok(empty_list);
        }
        let mut items: Vec<Json> = Vec::new();
        proof {
            assert(spec_skip_ws(s, p0) == p0);
            assert(views_of(items@) =~= Seq::<JsonV>::empty());
            match spec_list_items(s, p0, false) {
                Ok(tail) => {
                    assert(spec_list_items(s, start + 1, true) == Ok::<(Seq<JsonV>, int), Error>(
                        (tail.0, tail.1),
                    ));
                    assert(views_of(items@) + tail.0 =~= tail.0);
                },
                Err(_) => {},
            }
        }
        loop
            invariant
                c.wf(),
                c.src() == s,
                start + 1 <= c.pos() <= s.len(),
                match spec_list_items(s, c.pos(), false) {
                    Ok(tail) => spec_list_items(s, start + 1, true) == Ok::<
                        (Seq<JsonV>, int),
                        Error,
                    >((views_of(items@) + tail.0, tail.1)),
                    Err(e) => spec_list_items(s, start + 1, true) == Err::<
                        (Seq<JsonV>, int),
                        Error,
                    >(e),
                },
            decreases s.len() - c.pos(),
        {
            let ghost head = c.pos();
            Json::skip_whitespace(c);
            let ghost p = c.pos();
            proof {
                lemma_skip_ws_bounds(s, head);
            }
            let v = match Json::parse_value(c) {
                Ok(v) => v,
                Err(e) => {
                    return Err(e);
                },
            };
            let ghost q0 = c.pos();
            proof {
                assert(clamp_after(s, p, q0) == q0);
            }
            let ghost prev_items = items@;
            items.push(v);
            proof {
                lemma_views_of_push(prev_items, v);
                assert(views_of(items@) =~= views_of(prev_items) + seq![v.deep_view()]);
            }
            Json::skip_whitespace(c);
            let ghost q = c.pos();
            match c.next() {
                Some(']') => {
                    proof {
                        assert(spec_list_items(s, head, false) == Ok::<(Seq<JsonV>, int), Error>(
                            (seq![v.deep_view()], q + 1),
                        ));
                    }
                    return Ok(items);
                },
                Some(',') => {
                    proof {
                        assert(spec_list_items(s, head, false) == (match spec_list_items(
                            s,
                            q + 1,
                            false,
                        ) {
                            Ok(tail2) => Ok::<(Seq<JsonV>, int), Error>(
                                (seq![v.deep_view()] + tail2.0, tail2.1),
                            ),
                            Err(e2) => Err::<(Seq<JsonV>, int), Error>(e2),
                        }));
                        match spec_list_items(s, q + 1, false) {
                            Ok(tail2) => {
                                assert((views_of(prev_items) + seq![v.deep_view()]) + tail2.0
                                    =~= views_of(prev_items) + (seq![v.deep_view()] + tail2.0));
                            },
                            Err(_) => {},
                        }
                    }
                },
                Some(_) => {
                    return Err(Error::MissingSeparator);
                },
                None => {
                    return Err(Error::UnclosedList);
                },
            }
        }
    }

    /// Tries to read an object: a `{`, then the object loop.
    #[verifier::loop_isolation(false)]
    pub fn read_object(c: &mut Cursor) -> (r: Result<Vec<(String, Json)>, Error>)
        requires
            old(c).wf(),
        ensures
            final(c).wf(),
            final(c).src() == old(c).src(),
            match spec_read_object(old(c).src(), old(c).pos()) {
                Ok(parsed) => r matches Ok(entries) && entry_views_of(entries@) == parsed.0
                    && final(c).pos() == parsed.1 && old(c).pos() < final(c).pos()
                    <= final(c).src().len(),
                Err(e) => r matches Err(a) && a == e,
            },
        decreases c.src().len() - c.pos(), 0int,
    {
        let ghost s = c.src();
        let ghost start = c.pos();
        if !next_is(c, '{') {
            return Err(Error::InvalidValue);
        }
        Json::skip_whitespace(c);
        let ghost p0 = c.pos();
        proof {
            lemma_skip_ws_bounds(s, start + 1);
        }
        let close = match c.peek() {
            Some('}') => true,
            _ => false,
        };
        if close {
            let _ = c.next();
            let empty_object: Vec<(String, Json)> = Vec::new();
            proof {
                assert(entry_views_of(empty_object@) =~= Seq::<(Seq<char>, JsonV)>::empty());
            }
            return Ok(empty_object);
        }
        let mut entries: Vec<(String, Json)> = Vec::new();
        proof {
            assert(spec_skip_ws(s, p0) == p0);
            assert(entry_views_of(entries@) =~= Seq::<(Seq<char>, JsonV)>::empty());
            match spec_object_items(s, p0, false) {
                Ok(tail) => {
                    assert(spec_object_items(s, start + 1, true) == Ok::<
                        (Seq<(Seq<char>, JsonV)>, int),
                        Error,
                    >((tail.0, tail.1)));
                    assert(entry_views_of(entries@) + tail.0 =~= tail.0);
                },
                Err(_) => {},
            }
        }
        loop
            invariant
                c.wf(),
                c.src() == s,
                start + 1 <= c.pos() <= s.len(),
                match spec_object_items(s, c.pos(), false) {
                    Ok(tail) => spec_object_items(s, start + 1, true) == Ok::<
                        (Seq<(Seq<char>, JsonV)>, int),
                        Error,
                    >((entry_views_of(entries@) + tail.0, tail.1)),
                    Err(e) => spec_object_items(s, start + 1, true) == Err::<
                        (Seq<(Seq<char>, JsonV)>, int),
                        Error,
                    >(e),
                },
            decreases s.len() - c.pos(),
        {
            let ghost head = c.pos();
            Json::skip_whitespace(c);
            let ghost p = c.pos();
            proof {
                lemma_skip_ws_bounds(s, head);
            }
            let key = match Json::read_string(c) {
                Ok(key) => key,
                Err(e) => {
                    return Err(e);
                },
            };
            Json::skip_whitespace(c);
            match c.next() {
                Some(':') => {},
                _ => {
                    return Err(Error::MissingSeparator);
                },
            }
            Json::skip_whitespace(c);
            let ghost k2 = c.pos();
            let v = match Json::parse_value(c) {
                Ok(v) => v,
                Err(e) => {
                    return Err(e);
                },
            };
            let ghost q0 = c.pos();
            proof {
                assert(clamp_after(s, k2, q0) == q0);
            }
            let ghost prev_entries = entries@;
            entries.push((key, v));
            proof {
                lemma_entry_views_of_push(prev_entries, (key, v));
                assert(entry_views_of(entries@) =~= entry_views_of(prev_entries) + seq![
                    (key@, v.deep_view()),
                ]);
            }
            Json::skip_whitespace(c);
            let ghost q = c.pos();
            match c.next() {
                Some('}') => {
                    proof {
                        assert(spec_object_items(s, head, false) == Ok::<
                            (Seq<(Seq<char>, JsonV)>, int),
                            Error,
                        >((seq![(key@, v.deep_view())], q + 1)));
                    }
                    return Ok(entries);
                },
                Some(',') => {
                    proof {
                        assert(spec_object_items(s, head, false) == (match spec_object_items(
                            s,
                            q + 1,
                            false,
                        ) {
                            Ok(tail2) => Ok::<(Seq<(Seq<char>, JsonV)>, int), Error>(
                                (seq![(key@, v.deep_view())] + tail2.0, tail2.1),
                            ),
                            Err(e2) => Err::<(Seq<(Seq<char>, JsonV)>, int), Error>(e2),
                        }));
                        match spec_object_items(s, q + 1, false) {
                            Ok(tail2) => {
                                assert((entry_views_of(prev_entries) + seq![
                                    (key@, v.deep_view()),
                                ]) + tail2.0 =~= entry_views_of(prev_entries) + (seq![
                                    (key@, v.deep_view()),
                                ] + tail2.0));
                            },
                            Err(_) => {},
                        }
                    }
                },
                Some(_) => {
                    return Err(Error::MissingSeparator);
                },
                None => {
                    return Err(Error::UnclosedObject);
                },
            }
        }
    }

    /// Parses a JSON value from characters: leading whitespace, one value.
    /// Characters after the value are not looked at.
    pub fn from_chars(input: Vec<char>) -> (r: Result<Json, Error>)
        ensures
            match spec_parse_text(input@) {
                Ok(v) => r matches Ok(j) && j.deep_view() == v,
                Err(e) => r matches Err(a) && a == e,
            },
    {
        let mut c = Cursor::new(input);
        Json::skip_whitespace(&mut c);
        Json::parse_value(&mut c)
    }

    /// Parses a JSON value from raw bytes: the byte adapter converts them to
    /// characters (see [`crate::bytes`]), and the result is parsed as
    /// [`Json::from_chars`] does.
    pub fn from_bytes(input: Vec<u8>) -> (r: Result<Json, Error>)
        ensures
            match spec_parse_text(spec_chars_of_bytes(input@)) {
                Ok(v) => r matches Ok(j) && j.deep_view() == v,
                Err(e) => r matches Err(a) && a == e,
            },
    {
        Json::from_chars(chars_of_bytes(&input))
    }

    /// Parses a JSON value from a text, as [`Json::from_chars`] does.
    pub fn from_text(input: &str) -> (r: Result<Json, Error>)
        ensures
            match spec_parse_text(input@) {
                Ok(v) => r matches Ok(j) && j.deep_view() == v,
                Err(e) => r matches Err(a) && a == e,
            },
    {
        Json::from_chars(chars_of_text(input))
    }
}

/// Consumes the maximal run of number characters, appending them to `buf`,
/// without consuming the first character after the run.
fn take_number_run(c: &mut Cursor, buf: &mut Vec<char>)
    requires
        old(c).wf(),
    ensures
        final(c).wf(),
        final(c).src() == old(c).src(),
        final(c).pos() == spec_number_end(old(c).src(), old(c).pos()),
        final(buf)@ == old(buf)@ + old(c).src().subrange(old(c).pos(), final(c).pos()),
    decreases c.src().len() - c.pos(),
{
    let done = match c.peek() {
        Some(ch) => {
            if char_is_number(ch) {
                let _ = c.next();
                buf.push(ch);
                false
            } else {
                true
            }
        },
        None => true,
    };
    if done {
        proof {
            assert(buf@ =~= buf@ + c.src().subrange(c.pos(), c.pos()));
        }
    } else {
        let ghost mid_buf = buf@;
        let ghost mid_pos = c.pos();
        take_number_run(c, buf);
        proof {
            lemma_number_end_bounds(old(c).src(), mid_pos);
            assert(old(c).src().subrange(old(c).pos(), c.pos()) =~= seq![
                old(c).src()[old(c).pos()],
            ] + old(c).src().subrange(mid_pos, c.pos()));
            assert(buf@ =~= old(buf)@ + old(c).src().subrange(old(c).pos(), c.pos()));
        }
    }
}

/// Whether the characters of `buf` form a valid 64-bit floating-point
/// literal (see [`is_float_literal`]).
#[verifier::loop_isolation(false)]
fn check_float_literal(buf: &Vec<char>) -> (r: bool)
    ensures
        r == is_float_literal(buf@),
{
    let ghost t = buf@;
    let n = buf.len();
    let has_sign = n > 0 && (buf[0] == '+' || buf[0] == '-');
    let start: usize = if has_sign {
        1
    } else {
        0
    };
    let ghost u = if has_sign {
        t.subrange(1, t.len() as int)
    } else {
        t
    };
    proof {
        assert(u == sign_stripped(t));
    }
    if n == start {
        proof {
            assert(u.len() == 0);
            assert(!is_unsigned_float_literal(u));
            assert(is_float_literal(t) == is_unsigned_float_literal(u));
        }
        return false;
    }
    let mut seen_dot = false;
    let mut dot_idx: usize = 0;
    let mut i: usize = start;
    while i < n
        invariant
            start <= i <= n,
            n == t.len(),
            start == (if has_sign {
                1int
            } else {
                0int
            }),
            u == t.subrange(start as int, t.len() as int),
            u.len() == n - start,
            forall|j: int| 0 <= j < u.len() ==> u[j] == t[j + start],
            seen_dot ==> start <= dot_idx < i && t[dot_idx as int] == '.',
            forall|j: int|
                start <= j < i && (!seen_dot || j != dot_idx) ==> is_digit(t[j]),
        decreases n - i,
    {
        let ch = buf[i];
        if ch == '.' {
            if seen_dot {
                proof {
                    let k1 = dot_idx - start;
                    let k2 = i - start;
                    assert(u[k1] == '.' && u[k2] == '.' && k1 != k2);
                    assert(!all_digits(u));
                    assert forall|k: int| 0 <= k < u.len() implies !(u[k] == '.'
                        && all_digits_except(u, k)) by {
                        if k != k1 {
                            assert(!is_digit(u[k1]));
                        } else {
                            assert(!is_digit(u[k2]));
                        }
                    }
                    assert(!is_unsigned_float_literal(u));
                    assert(is_float_literal(t) == is_unsigned_float_literal(u));
                }
                return false;
            }
            seen_dot = true;
            dot_idx = i;
        } else if !char_is_digit(ch) {
            proof {
                let k0 = i - start;
                assert(u[k0] == t[i as int]);
                assert(!is_digit(u[k0]) && u[k0] != '.');
                assert(!all_digits(u));
                assert forall|k: int| 0 <= k < u.len() implies !(u[k] == '.' && all_digits_except(
                    u,
                    k,
                )) by {
                    if k == k0 {
                        assert(u[k] != '.');
                    } else {
                        assert(!is_digit(u[k0]));
                    }
                }
                assert(!is_unsigned_float_literal(u));
                assert(is_float_literal(t) == is_unsigned_float_literal(u));
            }
            return false;
        }
        i = i + 1;
    }
    if seen_dot {
        proof {
            let k = dot_idx - start;
            assert(u[k] == t[dot_idx as int]);
            assert(!is_digit(u[k]));
            assert(!all_digits(u));
            if n - start >= 2 {
                assert forall|j: int| 0 <= j < u.len() && j != k implies is_digit(u[j]) by {
                    assert(u[j] == t[j + start]);
                }
                assert(all_digits_except(u, k));
                assert(is_unsigned_float_literal(u));
            } else {
                assert(u.len() == 1);
                assert(!is_unsigned_float_literal(u));
            }
            assert(is_float_literal(t) == is_unsigned_float_literal(u));
        }
        n - start >= 2
    } else {
        proof {
            assert forall|j: int| 0 <= j < u.len() implies is_digit(u[j]) by {
                assert(u[j] == t[j + start]);
            }
            assert(all_digits(u));
            assert(is_unsigned_float_literal(u));
            assert(is_float_literal(t) == is_unsigned_float_literal(u));
        }
        true
    }
}

} // verus!
