//! Texts in contracts: what a `String` holds, as a sequence of characters.

use vstd::prelude::*;

verus! {

/// A value as a sequence of characters, where there is one.
pub open spec fn value_view(value: Option<String>) -> Option<Seq<char>> {
    match value {
        Some(text) => Some(text@),
        None => None,
    }
}

/// Values, where there are any, as sequences of characters.
pub open spec fn values_view(found: Seq<Option<String>>) -> Seq<Option<Seq<char>>> {
    found.map_values(|value: Option<String>| value_view(value))
}

/// Texts as sequences of characters.
pub open spec fn texts(values: Seq<String>) -> Seq<Seq<char>> {
    values.map_values(|value: String| value@)
}

} // verus!
