//! Round-trip properties of the parsing model.
//!
//! The parser has no serializer of its own, so the round-trip statement is
//! made against [`render`], the canonical text of a value: parsing the text
//! a well-formed value would be written as yields exactly that value
//! ([`lemma_render_round_trip`]), and every value the parser produces is
//! well-formed, so parsing any text, rendering the result and parsing it
//! again reproduces the same value tree ([`lemma_parse_round_trip`]).

use crate::model::JsonV;
use crate::model::all_digits;
use crate::model::all_digits_except;
use crate::model::clamp_after;
use crate::model::is_digit;
use crate::model::is_float_literal;
use crate::model::is_json_whitespace;
use crate::model::is_number_char;
use crate::model::lemma_skip_ws_bounds;
use crate::model::lemma_string_end_bounds;
use crate::model::sign_stripped;
use crate::model::spec_list_items;
use crate::model::spec_number_end;
use crate::model::spec_object_items;
use crate::model::spec_parse_text;
use crate::model::spec_parse_value;
use crate::model::spec_read_bool;
use crate::model::spec_read_null;
use crate::model::spec_read_number;
use crate::model::spec_read_string;
use crate::model::spec_skip_ws;
use crate::model::spec_string_end;
use vstd::prelude::*;

verus! {

/// Whether a string body reparses as written: scanning it with the escape
/// flag meets no unescaped `"` (which would end the string early) and does
/// not end on a dangling escape (which would swallow the closing quote).
pub open spec fn string_body_ok(t: Seq<char>, escaped: bool) -> bool
    decreases t.len(),
{
    if t.len() == 0 {
        !escaped
    } else if !escaped && t[0] == '"' {
        false
    } else {
        string_body_ok(t.drop_first(), !escaped && t[0] == '\\')
    }
}

/// The canonical text of a leaf value: the boolean and null literals, a
/// number's stored literal text, and a string's content between quotes.
pub open spec fn scalar_text(v: JsonV) -> Seq<char> {
    match v {
        JsonV::Bool(b) => if b {
            seq!['t', 'r', 'u', 'e']
        } else {
            seq!['f', 'a', 'l', 's', 'e']
        },
        JsonV::Null => seq!['n', 'u', 'l', 'l'],
        JsonV::Number(t) => t,
        JsonV::String(t) => seq!['"'] + t + seq!['"'],
        _ => Seq::empty(),
    }
}

/// A valid floating-point literal is not empty and consists of number
/// characters only.
proof fn lemma_float_literal_chars(t: Seq<char>)
    requires
        is_float_literal(t),
    ensures
        t.len() > 0,
        forall|i: int| 0 <= i < t.len() ==> is_number_char(t[i]),
{
    let u = sign_stripped(t);
    let off: int = if t.len() > 0 && (t[0] == '+' || t[0] == '-') {
        1
    } else {
        0
    };
    assert forall|i: int| 0 <= i < t.len() implies is_number_char(t[i]) by {
        if i < off {
            assert(t[i] == '+' || t[i] == '-');
        } else {
            assert(u[i - off] == t[i]);
            if all_digits(u) {
                assert(is_digit(u[i - off]));
            } else {
                let k = choose|k: int|
                    0 <= k < u.len() && u[k] == '.' && #[trigger] all_digits_except(u, k);
                if i - off == k {
                    assert(u[i - off] == '.');
                } else {
                    assert(is_digit(u[i - off]));
                }
            }
        }
    }
}

/// A run of number characters followed by a non-number character (or the
/// end) is exactly what the number scan consumes.
proof fn lemma_number_end_of_run(s: Seq<char>, pos: int, end: int)
    requires
        0 <= pos <= end <= s.len(),
        forall|i: int| pos <= i < end ==> is_number_char(s[i]),
        end < s.len() ==> !is_number_char(s[end]),
    ensures
        spec_number_end(s, pos) == end,
    decreases end - pos,
{
    if pos < end {
        lemma_number_end_of_run(s, pos + 1, end);
    }
}

/// Scanning a rendered string body finds the closing quote right after it.
proof fn lemma_string_end_of_body(s: Seq<char>, pos: int, t: Seq<char>, escaped: bool)
    requires
        0 <= pos,
        pos + t.len() < s.len(),
        forall|i: int| 0 <= i < t.len() ==> s[pos + i] == t[i],
        s[pos + t.len()] == '"',
        string_body_ok(t, escaped),
    ensures
        spec_string_end(s, pos, escaped) == Some(pos + t.len() as int),
    decreases t.len(),
{
    if t.len() == 0 {
        assert(s[pos] == '"');
    } else {
        assert(s[pos] == t[0]);
        let rest = t.drop_first();
        assert forall|i: int| 0 <= i < rest.len() implies s[pos + 1 + i] == rest[i] by {
            assert(rest[i] == t[i + 1]);
        }
        lemma_string_end_of_body(s, pos + 1, rest, !escaped && t[0] == '\\');
    }
}

/// The canonical text of any value: leaves as in [`scalar_text`], lists and
/// objects with their elements' texts joined by `,` between the brackets,
/// object keys quoted and followed by `:`, and no whitespace anywhere.
pub open spec fn render(v: JsonV) -> Seq<char>
    decreases v, 0int,
{
    match v {
        JsonV::List(items) => seq!['['] + render_items(items) + seq![']'],
        JsonV::Object(entries) => seq!['{'] + render_entries(entries) + seq!['}'],
        _ => scalar_text(v),
    }
}

/// The texts of a list's elements, joined by `,`.
pub open spec fn render_items(items: Seq<JsonV>) -> Seq<char>
    decreases items, 1int,
{
    if items.len() == 0 {
        Seq::empty()
    } else {
        let first = {
            proof {
                vstd::seq::axiom_seq_index_decreases(items, 0);
            }
            render(items[0])
        };
        let rest = {
            proof {
                vstd::seq::axiom_seq_subrange_decreases(items, 1, items.len() as int);
            }
            render_items(items.drop_first())
        };
        if items.len() == 1 {
            first
        } else {
            first + seq![','] + rest
        }
    }
}

/// The texts of an object's entries, joined by `,`, each a quoted key, a
/// `:`, and the value's text.
pub open spec fn render_entries(entries: Seq<(Seq<char>, JsonV)>) -> Seq<char>
    decreases entries, 1int,
{
    if entries.len() == 0 {
        Seq::empty()
    } else {
        let first = {
            proof {
                vstd::seq::axiom_seq_index_decreases(entries, 0);
            }
            seq!['"'] + entries[0].0 + seq!['"', ':'] + render(entries[0].1)
        };
        let rest = {
            proof {
                vstd::seq::axiom_seq_subrange_decreases(entries, 1, entries.len() as int);
            }
            render_entries(entries.drop_first())
        };
        if entries.len() == 1 {
            first
        } else {
            first + seq![','] + rest
        }
    }
}

/// A value whose canonical text parses back: its numbers' texts are valid
/// literals and its strings' bodies reparse as written, throughout the tree.
pub open spec fn wf_value(v: JsonV) -> bool
    decreases v, 0int,
{
    match v {
        JsonV::Bool(_) => true,
        JsonV::Null => true,
        JsonV::Number(t) => is_float_literal(t),
        JsonV::String(t) => string_body_ok(t, false),
        JsonV::List(items) => wf_items(items),
        JsonV::Object(entries) => wf_entries(entries),
    }
}

/// Every element of a list is well-formed.
pub open spec fn wf_items(items: Seq<JsonV>) -> bool
    decreases items, 1int,
{
    if items.len() == 0 {
        true
    } else {
        let first = {
            proof {
                vstd::seq::axiom_seq_index_decreases(items, 0);
            }
            wf_value(items[0])
        };
        let rest = {
            proof {
                vstd::seq::axiom_seq_subrange_decreases(items, 1, items.len() as int);
            }
            wf_items(items.drop_first())
        };
        first && rest
    }
}

/// Every key of an object reparses as written, and every value is
/// well-formed.
pub open spec fn wf_entries(entries: Seq<(Seq<char>, JsonV)>) -> bool
    decreases entries, 1int,
{
    if entries.len() == 0 {
        true
    } else {
        let first = {
            proof {
                vstd::seq::axiom_seq_index_decreases(entries, 0);
            }
            string_body_ok(entries[0].0, false) && wf_value(entries[0].1)
        };
        let rest = {
            proof {
                vstd::seq::axiom_seq_subrange_decreases(entries, 1, entries.len() as int);
            }
            wf_entries(entries.drop_first())
        };
        first && rest
    }
}

/// `t` stands at `pos` in `s`.
pub open spec fn region_match(s: Seq<char>, pos: int, t: Seq<char>) -> bool {
    0 <= pos && pos + t.len() <= s.len() && forall|i: int| 0 <= i < t.len() ==> s[pos + i] == t[i]
}

/// One character of a matched region.
proof fn lemma_region_at(s: Seq<char>, pos: int, t: Seq<char>, i: int)
    requires
        region_match(s, pos, t),
        0 <= i < t.len(),
    ensures
        s[pos + i] == t[i],
{
}

/// A well-formed value's text is not empty, and its first character is
/// neither whitespace nor a closing bracket, a comma or a colon.
proof fn lemma_render_head(v: JsonV)
    requires
        wf_value(v),
    ensures
        render(v).len() > 0,
        !is_json_whitespace(render(v)[0]),
        render(v)[0] != ']' && render(v)[0] != '}' && render(v)[0] != ',' && render(v)[0] != ':',
{
    match v {
        JsonV::Number(t) => {
            lemma_float_literal_chars(t);
            assert(is_number_char(t[0]));
        },
        _ => {},
    }
}

/// Parsing at a well-formed value's text yields the value and stops right
/// after it. For a number, the character after the text (if there is one)
/// must not be a number character, so that the maximal run ends with the
/// text; the list and object renderings put `,`, `]` or `}` there.
proof fn lemma_parse_render(s: Seq<char>, pos: int, v: JsonV)
    requires
        wf_value(v),
        region_match(s, pos, render(v)),
        v matches JsonV::Number(_) ==> (pos + render(v).len() == s.len() || !is_number_char(
            s[pos + render(v).len() as int],
        )),
    ensures
        spec_parse_value(s, pos) == Ok::<(JsonV, int), crate::value::Error>(
            (v, pos + render(v).len() as int),
        ),
    decreases v, 0int,
{
    let r = render(v);
    let end = pos + r.len() as int;
    match v {
        JsonV::Bool(b) => {
            if b {
                assert(s[pos] == 't' && s[pos + 1] == 'r' && s[pos + 2] == 'u' && s[pos + 3]
                    == 'e');
                assert(spec_read_bool(s, pos) == Ok::<(bool, int), crate::value::Error>(
                    (true, end),
                ));
            } else {
                assert(s[pos] == 'f' && s[pos + 1] == 'a' && s[pos + 2] == 'l' && s[pos + 3] == 's'
                    && s[pos + 4] == 'e');
                assert(spec_read_bool(s, pos) == Ok::<(bool, int), crate::value::Error>(
                    (false, end),
                ));
            }
        },
        JsonV::Null => {
            assert(s[pos] == 'n' && s[pos + 1] == 'u' && s[pos + 2] == 'l' && s[pos + 3] == 'l');
            assert(spec_read_null(s, pos) == Ok::<int, crate::value::Error>(end));
        },
        JsonV::Number(t) => {
            lemma_float_literal_chars(t);
            assert forall|i: int| pos <= i < end implies is_number_char(s[i]) by {
                assert(s[i] == t[i - pos]);
            }
            lemma_number_end_of_run(s, pos, end);
            assert(s.subrange(pos, end) =~= t);
            assert(is_number_char(s[pos]));
            assert(s[pos] != '"' && s[pos] != 't' && s[pos] != 'f' && s[pos] != 'n');
            assert(spec_read_number(s, pos) == Ok::<(Seq<char>, int), crate::value::Error>(
                (t, end),
            ));
        },
        JsonV::String(t) => {
            assert(r == seq!['"'] + t + seq!['"']);
            assert((seq!['"'] + t + seq!['"'])[0] == '"');
            assert(s[pos] == '"') by {
                lemma_region_at(s, pos, r, 0);
            }
            assert forall|i: int| 0 <= i < t.len() implies s[pos + 1 + i] == t[i] by {
                lemma_region_at(s, pos, r, 1 + i);
                assert(r[1 + i] == t[i]);
            }
            assert(s[pos + 1 + t.len() as int] == '"') by {
                assert(r[1 + t.len() as int] == '"');
            }
            lemma_string_end_of_body(s, pos + 1, t, false);
            assert(s.subrange(pos + 1, pos + 1 + t.len() as int) =~= t);
            assert(spec_read_string(s, pos) == Ok::<(Seq<char>, int), crate::value::Error>(
                (t, end),
            ));
        },
        JsonV::List(items) => {
            let ri = render_items(items);
            assert(s[pos] == '[') by {
                assert(r[0] == '[');
            }
            if items.len() == 0 {
                assert(ri =~= Seq::<char>::empty());
                assert(s[pos + 1] == ']') by {
                    assert(r[1] == ']');
                }
                assert(!is_json_whitespace(']'));
                assert(spec_skip_ws(s, pos + 1) == pos + 1);
                assert(spec_list_items(s, pos + 1, true) == Ok::<
                    (Seq<JsonV>, int),
                    crate::value::Error,
                >((Seq::empty(), pos + 2)));
                assert(items =~= Seq::<JsonV>::empty());
            } else {
                assert forall|i: int| 0 <= i < ri.len() implies s[pos + 1 + i] == ri[i] by {
                    assert(r[1 + i] == ri[i]);
                }
                assert(region_match(s, pos + 1, ri));
                assert(s[pos + 1 + ri.len() as int] == ']') by {
                    assert(r[1 + ri.len() as int] == ']');
                }
                lemma_parse_render_items(s, pos + 1, items, true);
            }
        },
        JsonV::Object(entries) => {
            let re = render_entries(entries);
            assert(s[pos] == '{') by {
                assert(r[0] == '{');
            }
            if entries.len() == 0 {
                assert(re =~= Seq::<char>::empty());
                assert(s[pos + 1] == '}') by {
                    assert(r[1] == '}');
                }
                assert(!is_json_whitespace('}'));
                assert(spec_skip_ws(s, pos + 1) == pos + 1);
                assert(spec_object_items(s, pos + 1, true) == Ok::<
                    (Seq<(Seq<char>, JsonV)>, int),
                    crate::value::Error,
                >((Seq::empty(), pos + 2)));
                assert(entries =~= Seq::<(Seq<char>, JsonV)>::empty());
            } else {
                assert forall|i: int| 0 <= i < re.len() implies s[pos + 1 + i] == re[i] by {
                    assert(r[1 + i] == re[i]);
                }
                assert(region_match(s, pos + 1, re));
                assert(s[pos + 1 + re.len() as int] == '}') by {
                    assert(r[1 + re.len() as int] == '}');
                }
                lemma_parse_render_entries(s, pos + 1, entries, true);
            }
        },
    }
}

/// The list loop on the joined texts of one or more well-formed values,
/// with a `]` right after them, collects exactly those values.
proof fn lemma_parse_render_items(s: Seq<char>, pos: int, items: Seq<JsonV>, allow_close: bool)
    requires
        items.len() > 0,
        wf_items(items),
        region_match(s, pos, render_items(items)),
        pos + render_items(items).len() < s.len(),
        s[pos + render_items(items).len() as int] == ']',
    ensures
        spec_list_items(s, pos, allow_close) == Ok::<(Seq<JsonV>, int), crate::value::Error>(
            (items, pos + render_items(items).len() as int + 1),
        ),
    decreases items, 1int,
{
    let ri = render_items(items);
    let head = items[0];
    let r0 = render(head);
    assert(wf_value(head));
    lemma_render_head(head);
    assert forall|i: int| 0 <= i < r0.len() implies s[pos + i] == r0[i] by {
        assert(ri[i] == r0[i]);
    }
    assert(region_match(s, pos, r0));
    let after = pos + r0.len() as int;
    if items.len() == 1 {
        assert(s[after] == ']');
    } else {
        assert(s[after] == ',') by {
            assert(ri[r0.len() as int] == ',');
        }
    }
    assert(!is_number_char(']') && !is_number_char(','));
    vstd::seq::axiom_seq_index_decreases(items, 0);
    lemma_parse_render(s, pos, head);
    assert(spec_skip_ws(s, pos) == pos);
    assert(s[pos] != ']');
    assert(clamp_after(s, pos, after) == after);
    assert(!is_json_whitespace(',') && !is_json_whitespace(']'));
    assert(spec_skip_ws(s, after) == after);
    if items.len() == 1 {
        assert(spec_list_items(s, pos, allow_close) == Ok::<
            (Seq<JsonV>, int),
            crate::value::Error,
        >((seq![head], after + 1)));
        assert(seq![head] =~= items);
    } else {
        let rest = items.drop_first();
        let rr = render_items(rest);
        assert(ri == r0 + seq![','] + rr);
        assert forall|i: int| 0 <= i < rr.len() implies s[after + 1 + i] == rr[i] by {
            assert(ri[r0.len() + 1 + i] == rr[i]);
        }
        assert(region_match(s, after + 1, rr));
        assert(after + 1 + rr.len() == pos + ri.len());
        assert(s[after + 1 + rr.len() as int] == ']');
        assert(rest.len() > 0);
        assert(wf_items(rest));
        vstd::seq::axiom_seq_subrange_decreases(items, 1, items.len() as int);
        lemma_parse_render_items(s, after + 1, rest, false);
        assert(spec_list_items(s, pos, allow_close) == Ok::<
            (Seq<JsonV>, int),
            crate::value::Error,
        >((seq![head] + rest, pos + ri.len() as int + 1)));
        assert(seq![head] + rest =~= items);
    }
}

/// The object loop on the joined texts of one or more entries with
/// well-formed keys and values, with a `}` right after them, collects
/// exactly those entries.
proof fn lemma_parse_render_entries(
    s: Seq<char>,
    pos: int,
    entries: Seq<(Seq<char>, JsonV)>,
    allow_close: bool,
)
    requires
        entries.len() > 0,
        wf_entries(entries),
        region_match(s, pos, render_entries(entries)),
        pos + render_entries(entries).len() < s.len(),
        s[pos + render_entries(entries).len() as int] == '}',
    ensures
        spec_object_items(s, pos, allow_close) == Ok::<
            (Seq<(Seq<char>, JsonV)>, int),
            crate::value::Error,
        >((entries, pos + render_entries(entries).len() as int + 1)),
    decreases entries, 1int,
{
    let re = render_entries(entries);
    let key = entries[0].0;
    let val = entries[0].1;
    let e0 = seq!['"'] + key + seq!['"', ':'] + render(val);
    assert(string_body_ok(key, false) && wf_value(val));
    lemma_render_head(val);
    assert forall|i: int| 0 <= i < e0.len() implies s[pos + i] == e0[i] by {
        assert(re[i] == e0[i]);
    }
    assert(s[pos] == '"') by {
        assert(e0[0] == '"');
    }
    assert forall|i: int| 0 <= i < key.len() implies s[pos + 1 + i] == key[i] by {
        assert(e0[1 + i] == key[i]);
    }
    assert(s[pos + 1 + key.len() as int] == '"') by {
        assert(e0[1 + key.len() as int] == '"');
    }
    lemma_string_end_of_body(s, pos + 1, key, false);
    assert(s.subrange(pos + 1, pos + 1 + key.len() as int) =~= key);
    let k0 = pos + 2 + key.len() as int;
    assert(s[k0] == ':') by {
        assert(e0[2 + key.len() as int] == ':');
    }
    assert(!is_json_whitespace(':'));
    assert(spec_skip_ws(s, k0) == k0);
    let rv = render(val);
    assert forall|i: int| 0 <= i < rv.len() implies s[k0 + 1 + i] == rv[i] by {
        assert(e0[3 + key.len() + i] == rv[i]);
    }
    assert(region_match(s, k0 + 1, rv));
    let after = k0 + 1 + rv.len() as int;
    assert(after == pos + e0.len());
    if entries.len() == 1 {
        assert(s[after] == '}');
    } else {
        assert(s[after] == ',') by {
            assert(re[e0.len() as int] == ',');
        }
    }
    assert(!is_number_char('}') && !is_number_char(','));
    vstd::seq::axiom_seq_index_decreases(entries, 0);
    lemma_parse_render(s, k0 + 1, val);
    assert(spec_skip_ws(s, pos) == pos);
    assert(s[pos] != '}');
    assert(spec_skip_ws(s, k0 + 1) == k0 + 1);
    assert(clamp_after(s, k0 + 1, after) == after);
    assert(!is_json_whitespace(',') && !is_json_whitespace('}'));
    assert(spec_skip_ws(s, after) == after);
    if entries.len() == 1 {
        assert(spec_object_items(s, pos, allow_close) == Ok::<
            (Seq<(Seq<char>, JsonV)>, int),
            crate::value::Error,
        >((seq![(key, val)], after + 1)));
        assert(seq![(key, val)] =~= entries);
    } else {
        let rest = entries.drop_first();
        let rr = render_entries(rest);
        assert(re == e0 + seq![','] + rr);
        assert forall|i: int| 0 <= i < rr.len() implies s[after + 1 + i] == rr[i] by {
            assert(re[e0.len() + 1 + i] == rr[i]);
        }
        assert(region_match(s, after + 1, rr));
        assert(after + 1 + rr.len() == pos + re.len());
        assert(s[after + 1 + rr.len() as int] == '}');
        assert(rest.len() > 0);
        assert(wf_entries(rest));
        vstd::seq::axiom_seq_subrange_decreases(entries, 1, entries.len() as int);
        lemma_parse_render_entries(s, after + 1, rest, false);
        assert(spec_object_items(s, pos, allow_close) == Ok::<
            (Seq<(Seq<char>, JsonV)>, int),
            crate::value::Error,
        >((seq![(key, val)] + rest, pos + re.len() as int + 1)));
        assert(seq![(key, val)] + rest =~= entries);
    }
}

/// A scanned string body reparses as written: the scan stopped at the first
/// unescaped quote, so the content has none, and does not end on a dangling
/// escape.
proof fn lemma_string_scan_wf(s: Seq<char>, pos: int, escaped: bool)
    requires
        0 <= pos <= s.len(),
    ensures
        spec_string_end(s, pos, escaped) matches Some(e) ==> string_body_ok(
            s.subrange(pos, e),
            escaped,
        ),
    decreases s.len() - pos,
{
    if pos == s.len() {
    } else if !escaped && s[pos] == '"' {
        assert(s.subrange(pos, pos) =~= Seq::<char>::empty());
    } else {
        let esc2 = !escaped && s[pos] == '\\';
        lemma_string_scan_wf(s, pos + 1, esc2);
        match spec_string_end(s, pos + 1, esc2) {
            Some(e) => {
                lemma_string_end_bounds(s, pos + 1, esc2);
                let t = s.subrange(pos, e);
                assert(t[0] == s[pos]);
                assert(t.drop_first() =~= s.subrange(pos + 1, e));
            },
            None => {},
        }
    }
}

/// Every value the parser produces is well-formed in the sense of
/// [`wf_value`]: its numbers' texts are valid literals and its strings'
/// bodies reparse as written.
proof fn lemma_parse_value_wf(s: Seq<char>, pos: int)
    requires
        0 <= pos <= s.len(),
    ensures
        spec_parse_value(s, pos) matches Ok(p) ==> wf_value(p.0),
    decreases s.len() - pos, 1int,
{
    if pos == s.len() {
    } else if s[pos] == '"' {
        lemma_string_scan_wf(s, pos + 1, false);
        match spec_string_end(s, pos + 1, false) {
            Some(e) => {
                assert(string_body_ok(s.subrange(pos + 1, e), false));
                assert(wf_value(JsonV::String(s.subrange(pos + 1, e))));
            },
            None => {},
        }
    } else if s[pos] == 't' || s[pos] == 'f' || s[pos] == 'n' {
    } else if is_number_char(s[pos]) {
        match spec_read_number(s, pos) {
            Ok((t, _)) => {
                assert(is_float_literal(t));
                assert(wf_value(JsonV::Number(t)));
            },
            Err(_) => {},
        }
    } else if s[pos] == '[' {
        lemma_list_items_wf(s, pos + 1, true);
        match spec_list_items(s, pos + 1, true) {
            Ok((items, _)) => {
                assert(wf_items(items));
                assert(wf_value(JsonV::List(items)));
            },
            Err(_) => {},
        }
    } else if s[pos] == '{' {
        lemma_object_items_wf(s, pos + 1, true);
        match spec_object_items(s, pos + 1, true) {
            Ok((entries, _)) => {
                assert(wf_entries(entries));
                assert(wf_value(JsonV::Object(entries)));
            },
            Err(_) => {},
        }
    }
}

/// Every list the list loop produces consists of well-formed values.
proof fn lemma_list_items_wf(s: Seq<char>, pos: int, ac: bool)
    requires
        0 <= pos <= s.len(),
    ensures
        spec_list_items(s, pos, ac) matches Ok(p) ==> wf_items(p.0),
    decreases s.len() - pos, 2int,
{
    lemma_skip_ws_bounds(s, pos);
    let p = spec_skip_ws(s, pos);
    assert(wf_items(Seq::<JsonV>::empty()));
    lemma_parse_value_wf(s, p);
    match spec_parse_value(s, p) {
        Err(_) => {},
        Ok((v, q0)) => {
            assert(wf_value(v));
            let c = clamp_after(s, p, q0);
            lemma_skip_ws_bounds(s, c);
            let q = spec_skip_ws(s, c);
            if q < s.len() && s[q] == ',' {
                lemma_list_items_wf(s, q + 1, false);
                match spec_list_items(s, q + 1, false) {
                    Ok((rest, _)) => {
                        assert(wf_items(rest));
                        let whole = seq![v] + rest;
                        assert(whole[0] == v);
                        assert(whole.drop_first() =~= rest);
                        assert(wf_items(whole));
                    },
                    Err(_) => {},
                }
            } else {
                assert(seq![v][0] == v);
                assert(seq![v].drop_first() =~= Seq::<JsonV>::empty());
                assert(wf_items(seq![v]));
            }
        },
    }
}

/// Every object the object loop produces consists of keys that reparse as
/// written and well-formed values.
proof fn lemma_object_items_wf(s: Seq<char>, pos: int, ac: bool)
    requires
        0 <= pos <= s.len(),
    ensures
        spec_object_items(s, pos, ac) matches Ok(p) ==> wf_entries(p.0),
    decreases s.len() - pos, 2int,
{
    lemma_skip_ws_bounds(s, pos);
    let p = spec_skip_ws(s, pos);
    if p < s.len() {
        lemma_string_scan_wf(s, p + 1, false);
    }
    assert(wf_entries(Seq::<(Seq<char>, JsonV)>::empty()));
    match spec_read_string(s, p) {
        Err(_) => {},
        Ok((key, k0)) => {
            lemma_string_end_bounds(s, p + 1, false);
            lemma_skip_ws_bounds(s, k0);
            let k1 = spec_skip_ws(s, k0);
            if k1 < s.len() && s[k1] == ':' {
                lemma_skip_ws_bounds(s, k1 + 1);
                let k2 = spec_skip_ws(s, k1 + 1);
                lemma_parse_value_wf(s, k2);
                match spec_parse_value(s, k2) {
                    Err(_) => {},
                    Ok((v, q0)) => {
                        assert(wf_value(v));
                        assert(string_body_ok(key, false));
                        let c = clamp_after(s, k2, q0);
                        lemma_skip_ws_bounds(s, c);
                        let q = spec_skip_ws(s, c);
                        if q < s.len() && s[q] == ',' {
                            lemma_object_items_wf(s, q + 1, false);
                            match spec_object_items(s, q + 1, false) {
                                Ok((rest, _)) => {
                                    assert(wf_entries(rest));
                                    let whole = seq![(key, v)] + rest;
                                    assert(whole[0] == (key, v));
                                    assert(whole.drop_first() =~= rest);
                                    assert(wf_entries(whole));
                                },
                                Err(_) => {},
                            }
                        } else {
                            assert(seq![(key, v)][0] == (key, v));
                            assert(seq![(key, v)].drop_first() =~= Seq::<
                                (Seq<char>, JsonV),
                            >::empty());
                            assert(wf_entries(seq![(key, v)]));
                        }
                    },
                }
            }
        },
    }
}

/// Round trip from text: a value parsed from any text, rendered back to its
/// canonical text and parsed again, is reproduced exactly.
pub proof fn lemma_parse_round_trip(text: Seq<char>, v: JsonV)
    requires
        spec_parse_text(text) == Ok::<JsonV, crate::value::Error>(v),
    ensures
        wf_value(v),
        spec_parse_text(render(v)) == Ok::<JsonV, crate::value::Error>(v),
{
    lemma_skip_ws_bounds(text, 0);
    lemma_parse_value_wf(text, spec_skip_ws(text, 0));
    lemma_render_round_trip(v);
}

/// Round trip for whole values: parsing the canonical text of any
/// well-formed value yields exactly that value.
pub proof fn lemma_render_round_trip(v: JsonV)
    requires
        wf_value(v),
    ensures
        spec_parse_text(render(v)) == Ok::<JsonV, crate::value::Error>(v),
{
    let s = render(v);
    lemma_render_head(v);
    assert(spec_skip_ws(s, 0) == 0);
    assert(region_match(s, 0, render(v)));
    lemma_parse_render(s, 0, v);
}

} // verus!
