//! Facts about the first place at which a value occurs in a sequence.

use vstd::prelude::*;

verus! {

/// A place that holds the value, with no earlier place that does, is the
/// first index of the value.
pub proof fn lemma_first_index<A>(s: Seq<A>, needle: A, p: int)
    requires
        0 <= p < s.len(),
        s[p] == needle,
        forall|q: int| 0 <= q < p ==> s[q] != needle,
    ensures
        s.index_of_first(needle) == Some(p),
        s.contains(needle),
{
    s.index_of_first_ensures(needle);
}

/// A value that no place holds has no first index.
pub proof fn lemma_no_index<A>(s: Seq<A>, needle: A)
    requires
        forall|q: int| 0 <= q < s.len() ==> s[q] != needle,
    ensures
        s.index_of_first(needle) is None,
        !s.contains(needle),
{
    s.index_of_first_ensures(needle);
}

/// The first index of a value, where there is one, is a place that holds it,
/// and there is one exactly when the value occurs.
pub proof fn lemma_index_of_first<A>(s: Seq<A>, needle: A)
    ensures
        s.index_of_first(needle) is Some <==> s.contains(needle),
        s.index_of_first(needle) matches Some(p) ==> 0 <= p < s.len() && s[p] == needle
            && forall|q: int| 0 <= q < p ==> s[q] != needle,
{
    s.index_of_first_ensures(needle);
}

} // verus!
