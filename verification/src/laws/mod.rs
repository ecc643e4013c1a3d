//! Laws: what the operations of the library do, stated on the members of the documents
//! and on the characters of the texts that go in and come out.
pub mod documents;
pub mod holidays;
pub mod keeping;
pub mod numbers;
pub mod releases;
pub mod reminding;
pub mod saving;

use crate::json::JsonTree;
use vstd::prelude::*;

verus! {

/// Whether a document is an object whose member of that key is `value`.
pub open spec fn holds(t: JsonTree, key: Seq<char>, value: JsonTree) -> bool {
    t is Object && t->Object_0.dom().contains(key) && t->Object_0[key] == value
}

/// Whether a document is an object whose member of that key is the text `s`.
pub open spec fn holds_text(t: JsonTree, key: Seq<char>, s: Seq<char>) -> bool {
    holds(t, key, JsonTree::Text(s))
}

/// Whether `s` is the text of that key, or empty where there is no such text.
pub open spec fn text_or_nothing(t: JsonTree, key: Seq<char>, s: Seq<char>) -> bool {
    holds_text(t, key, s) || (s.len() == 0 && forall|x: Seq<char>| !#[trigger] holds_text(
        t,
        key,
        x,
    ))
}

/// Whether every character is one of the ten digits.
pub open spec fn only_digits(s: Seq<char>) -> bool {
    forall|i: int| 0 <= i < s.len() ==> '0' <= #[trigger] s[i] <= '9'
}

} // verus!
