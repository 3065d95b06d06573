//! Views of string lists.

use vstd::prelude::*;

verus! {

/// The character sequences of a list of strings, in order.
pub open spec fn texts(items: Seq<String>) -> Seq<Seq<char>> {
    items.map_values(|s: String| s@)
}

/// Appending a string appends its characters' sequence.
pub proof fn lemma_texts_push(items: Seq<String>, s: String)
    ensures
        texts(items.push(s)) == texts(items).push(s@),
{
    assert(texts(items.push(s)) =~= texts(items).push(s@));
}

} // verus!
