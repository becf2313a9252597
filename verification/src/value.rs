//! The JSON value tree and the parser's error taxonomy.

use crate::model::JsonV;
use vstd::prelude::*;

verus! {

/// An error occurred while trying to parse the JSON text.
///
/// Parsing stops at the first error; no partial result is returned.
#[derive(Clone, Copy, Debug, PartialEq, Eq, Structural)]
pub enum Error {
    /// An invalid character was found where a value was expected,
    /// or a boolean, null or number literal is malformed.
    InvalidValue,
    /// A string's closing quote was never found,
    /// or the input ended while an escape was pending.
    UnclosedString,
    /// A list's closing bracket was never found before the input ended.
    UnclosedList,
    /// A value separator (`,` or `:`) is missing.
    MissingSeparator,
    /// The input ended where a value was expected to begin.
    UnexpectedEndOfFile,
    /// An object's closing brace was never found before the input ended.
    UnclosedObject,
}

/// A JSON value.
///
/// Lists and objects keep their elements in source order; object keys may
/// repeat, and repeated keys are all kept (no deduplication). String contents
/// are kept verbatim: escape sequences are not decoded. A number is kept as
/// the literal text it was written as; the text is guaranteed to be a valid
/// 64-bit floating-point literal (see [`crate::model::is_float_literal`]),
/// so a caller may convert it without a further check.
#[derive(Debug, PartialEq)]
pub enum Json {
    /// A list of values.
    List(Vec<Json>),
    /// An object: key/value pairs in source order, duplicates kept.
    Object(Vec<(String, Json)>),
    /// A string, with escape sequences kept verbatim.
    String(String),
    /// A number, as its literal text.
    Number(String),
    /// A boolean.
    Bool(bool),
    /// The null value.
    Null,
}

impl DeepView for Json {
    type V = JsonV;

    open spec fn deep_view(&self) -> JsonV
        decreases self, 0int,
    {
        match self {
            Json::List(items) => JsonV::List(
                {
                    proof {
                        vstd::std_specs::vec::axiom_vec_decreases_to_view(*items);
                    }
                    views_of(items@)
                },
            ),
            Json::Object(entries) => JsonV::Object(
                {
                    proof {
                        vstd::std_specs::vec::axiom_vec_decreases_to_view(*entries);
                    }
                    entry_views_of(entries@)
                },
            ),
            Json::String(text) => JsonV::String(text@),
            Json::Number(text) => JsonV::Number(text@),
            Json::Bool(b) => JsonV::Bool(*b),
            Json::Null => JsonV::Null,
        }
    }
}

/// The deep views of a sequence of values, element by element.
pub open spec fn views_of(items: Seq<Json>) -> Seq<JsonV>
    decreases items, 1int,
{
    if items.len() == 0 {
        Seq::empty()
    } else {
        let first = {
            proof {
                vstd::seq::axiom_seq_index_decreases(items, 0);
            }
            items[0].deep_view()
        };
        let rest = {
            proof {
                vstd::seq::axiom_seq_subrange_decreases(items, 1, items.len() as int);
            }
            views_of(items.drop_first())
        };
        seq![first] + rest
    }
}

/// The deep views of a sequence of object entries, element by element.
pub open spec fn entry_views_of(entries: Seq<(String, Json)>) -> Seq<(Seq<char>, JsonV)>
    decreases entries, 1int,
{
    if entries.len() == 0 {
        Seq::empty()
    } else {
        let first = {
            proof {
                vstd::seq::axiom_seq_index_decreases(entries, 0);
            }
            (entries[0].0@, entries[0].1.deep_view())
        };
        let rest = {
            proof {
                vstd::seq::axiom_seq_subrange_decreases(entries, 1, entries.len() as int);
            }
            entry_views_of(entries.drop_first())
        };
        seq![first] + rest
    }
}

/// Appending a value to a sequence appends its view to the sequence's views.
pub proof fn lemma_views_of_push(items: Seq<Json>, j: Json)
    ensures
        views_of(items.push(j)) == views_of(items).push(j.deep_view()),
    decreases items.len(),
{
    let pushed = items.push(j);
    assert(pushed.len() == items.len() + 1);
    if items.len() == 0 {
        assert(pushed[0] == j);
        assert(pushed.drop_first() =~= Seq::<Json>::empty());
        assert(views_of(pushed.drop_first()) =~= Seq::<JsonV>::empty());
        assert(views_of(items) =~= Seq::<JsonV>::empty());
        assert(views_of(pushed) =~= views_of(items).push(j.deep_view()));
    } else {
        assert(pushed[0] == items[0]);
        assert(pushed.drop_first() =~= items.drop_first().push(j));
        lemma_views_of_push(items.drop_first(), j);
        assert(views_of(pushed) == seq![pushed[0].deep_view()] + views_of(pushed.drop_first()));
        assert(views_of(pushed.drop_first()) == views_of(items.drop_first()).push(j.deep_view()));
        assert(views_of(items) == seq![items[0].deep_view()] + views_of(items.drop_first()));
        assert(views_of(pushed) =~= views_of(items).push(j.deep_view()));
    }
}

/// Appending an entry to a sequence appends its view to the entries' views.
pub proof fn lemma_entry_views_of_push(entries: Seq<(String, Json)>, entry: (String, Json))
    ensures
        entry_views_of(entries.push(entry)) == entry_views_of(entries).push(
            (entry.0@, entry.1.deep_view()),
        ),
    decreases entries.len(),
{
    let pushed = entries.push(entry);
    assert(pushed.len() == entries.len() + 1);
    if entries.len() == 0 {
        assert(pushed[0] == entry);
        assert(pushed.drop_first() =~= Seq::<(String, Json)>::empty());
        assert(entry_views_of(pushed.drop_first()) =~= Seq::<(Seq<char>, JsonV)>::empty());
        assert(entry_views_of(entries) =~= Seq::<(Seq<char>, JsonV)>::empty());
        assert(entry_views_of(pushed) =~= entry_views_of(entries).push(
            (entry.0@, entry.1.deep_view()),
        ));
    } else {
        assert(pushed[0] == entries[0]);
        assert(pushed.drop_first() =~= entries.drop_first().push(entry));
        lemma_entry_views_of_push(entries.drop_first(), entry);
        assert(entry_views_of(pushed) == seq![(pushed[0].0@, pushed[0].1.deep_view())]
            + entry_views_of(pushed.drop_first()));
        assert(entry_views_of(pushed.drop_first()) == entry_views_of(entries.drop_first()).push(
            (entry.0@, entry.1.deep_view()),
        ));
        assert(entry_views_of(entries) == seq![(entries[0].0@, entries[0].1.deep_view())]
            + entry_views_of(entries.drop_first()));
        assert(entry_views_of(pushed) =~= entry_views_of(entries).push(
            (entry.0@, entry.1.deep_view()),
        ));
    }
}

} // verus!
