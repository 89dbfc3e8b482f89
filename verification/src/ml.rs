//! Predicting a note's category: the labels of the classifier's classes.

use vstd::prelude::*;
use crate::text::text_of;

verus! {

/// The label that numbering `pairs` in order leaves at place `j`: the last
/// pair numbered `j`, or the empty text where none is.
pub open spec fn label_at(pairs: Seq<(Seq<char>, usize)>, j: int) -> Seq<char>
    decreases pairs.len(),
{
    if pairs.len() == 0 {
        Seq::empty()
    } else if pairs.last().1 == j {
        pairs.last().0
    } else {
        label_at(pairs.drop_last(), j)
    }
}

/// The (label, number) pairs of a saved label table, by view.
pub open spec fn pairs_view(pairs: Seq<(String, usize)>) -> Seq<(Seq<char>, usize)> {
    pairs.map_values(|p: (String, usize)| (p.0@, p.1))
}

/// Turns a table from label to number into the label of each number: as many
/// places as pairs, each holding the label numbered so (the last one walked,
/// where two share a number), or the empty text.
pub fn labels_by_id(pairs: &Vec<(String, usize)>) -> (names: Vec<String>)
    requires
        forall|i: int| 0 <= i < pairs@.len() ==> (#[trigger] pairs@[i]).1 < pairs@.len(),
    ensures
        names@.len() == pairs@.len(),
        forall|j: int| 0 <= j < names@.len() ==> (#[trigger] names@[j])@ == label_at(pairs_view(pairs@), j),
{
    let n = pairs.len();
    let mut names: Vec<String> = Vec::new();
    let mut j: usize = 0;
    while j < n
        invariant
            j <= n == pairs@.len(),
            names@.len() == j,
            forall|k: int| 0 <= k < j ==> (#[trigger] names@[k])@ == Seq::<char>::empty(),
        decreases n - j,
    {
        names.push(String::new());
        j = j + 1;
    }
    let mut i: usize = 0;
    assert(pairs_view(pairs@).take(0) == Seq::<(Seq<char>, usize)>::empty());
    while i < n
        invariant
            i <= n == pairs@.len(),
            names@.len() == n,
            forall|k: int| 0 <= k < pairs@.len() ==> (#[trigger] pairs@[k]).1 < pairs@.len(),
            forall|k: int|
                0 <= k < n ==> (#[trigger] names@[k])@ == label_at(pairs_view(pairs@).take(i as int), k),
        decreases n - i,
    {
        let ghost before = pairs_view(pairs@).take(i as int);
        let ghost after = pairs_view(pairs@).take(i + 1);
        assert(after.drop_last() == before);
        let id = pairs[i].1;
        assert(pairs@[i as int].1 < pairs@.len());
        names.set(id, text_of(pairs[i].0.as_str()));
        i = i + 1;
    }
    assert(pairs_view(pairs@).take(n as int) == pairs_view(pairs@));
    names
}

/// A table that numbers each of `names` by its place, walked in any order,
/// gives back `names`: the label of each number is the label numbered so.
pub proof fn lemma_label_table_round_trip(pairs: Seq<(Seq<char>, usize)>, names: Seq<Seq<char>>, j: int)
    requires
        forall|k: int| 0 <= k < pairs.len() ==> (#[trigger] pairs[k]).1 < names.len() && pairs[k].0
            == names[pairs[k].1 as int],
        0 <= j < names.len(),
        exists|k: int| 0 <= k < pairs.len() && (#[trigger] pairs[k]).1 == j,
    ensures
        label_at(pairs, j) == names[j],
    decreases pairs.len(),
{
    let last = pairs.len() - 1;
    if pairs[last].1 != j {
        let rest = pairs.drop_last();
        let k = choose|k: int| 0 <= k < pairs.len() && (#[trigger] pairs[k]).1 == j;
        assert(rest[k] == pairs[k]);
        assert forall|i: int| 0 <= i < rest.len() implies (#[trigger] rest[i]).1 < names.len()
            && rest[i].0 == names[rest[i].1 as int] by {
            assert(rest[i] == pairs[i]);
        }
        lemma_label_table_round_trip(rest, names, j);
    }
}

} // verus!
