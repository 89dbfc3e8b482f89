//! Training the note classifier: the numbering of the labels.

use vstd::prelude::*;
use crate::text::{text_eq, text_of};

verus! {

broadcast use vstd::seq_lib::group_seq_properties;

/// The distinct labels, in order of first appearance.
pub open spec fn label_names(labels: Seq<Seq<char>>) -> Seq<Seq<char>>
    decreases labels.len(),
{
    if labels.len() == 0 {
        Seq::empty()
    } else {
        let prev = label_names(labels.drop_last());
        if prev.contains(labels.last()) {
            prev
        } else {
            prev.push(labels.last())
        }
    }
}

/// The labels of the training examples as numbers: each distinct label gets
/// the next number when it first appears.
#[derive(Debug)]
pub struct LabelIds {
    /// the number of each example's label, in the order of the examples
    pub ids: Vec<usize>,
    /// the label of each number
    pub names: Vec<String>,
}

/// The views of a list of strings.
pub open spec fn views(v: Seq<String>) -> Seq<Seq<char>> {
    v.map_values(|s: String| s@)
}

/// Where `name` stands in `names`, if it does.
fn find_name(names: &Vec<String>, name: &str) -> (p: Option<usize>)
    ensures
        p matches Some(j) ==> j < names@.len() && names@[j as int]@ == name@,
        p is None ==> forall|k: int| 0 <= k < names@.len() ==> names@[k]@ != name@,
{
    let mut j: usize = 0;
    while j < names.len()
        invariant
            j <= names@.len(),
            forall|k: int| 0 <= k < j ==> names@[k]@ != name@,
        decreases names.len() - j,
    {
        if text_eq(names[j].as_str(), name) {
            return Some(j);
        }
        j = j + 1;
    }
    None
}

/// Numbers the labels: `names` holds the distinct labels in order of first
/// appearance, and each label's id is its place in `names`.
pub fn encode_labels(labels: &Vec<String>) -> (r: LabelIds)
    ensures
        views(r.names@) == label_names(views(labels@)),
        r.ids@.len() == labels@.len(),
        forall|i: int|
            0 <= i < labels@.len() ==> (#[trigger] r.ids@[i]) < r.names@.len() && r.names@[r.ids@[i] as int]@
                == labels@[i]@,
{
    let mut ids: Vec<usize> = Vec::new();
    let mut names: Vec<String> = Vec::new();
    let mut i: usize = 0;
    while i < labels.len()
        invariant
            i <= labels@.len(),
            views(names@) == label_names(views(labels@).take(i as int)),
            ids@.len() == i,
            forall|k: int|
                0 <= k < i ==> (#[trigger] ids@[k]) < names@.len() && names@[ids@[k] as int]@
                    == labels@[k]@,
        decreases labels.len() - i,
    {
        let lbl = labels[i].as_str();
        let ghost prefix = views(labels@).take(i as int);
        let ghost next = views(labels@).take(i + 1);
        assert(next.drop_last() == prefix);
        assert(next.last() == labels@[i as int]@);
        let found = find_name(&names, lbl);
        if let Some(j) = found {
            assert(views(names@)[j as int] == labels@[i as int]@);
            assert(views(names@).contains(labels@[i as int]@));
            ids.push(j);
        } else {
            assert(!views(names@).contains(labels@[i as int]@)) by {
                if views(names@).contains(labels@[i as int]@) {
                    let k = choose|k: int|
                        0 <= k < views(names@).len() && views(names@)[k] == labels@[i as int]@;
                    assert(names@[k]@ == views(names@)[k]);
                }
            }
            let id = names.len();
            names.push(text_of(lbl));
            assert(views(names@) == label_names(next));
            ids.push(id);
        }
        i = i + 1;
    }
    assert(views(labels@).take(labels@.len() as int) == views(labels@));
    LabelIds { ids, names }
}

/// No label is numbered twice: the distinct labels are distinct.
pub proof fn lemma_label_names_distinct(labels: Seq<Seq<char>>)
    ensures
        forall|i: int, j: int|
            0 <= i < j < label_names(labels).len() ==> label_names(labels)[i] != label_names(labels)[j],
    decreases labels.len(),
{
    if labels.len() > 0 {
        let prev = label_names(labels.drop_last());
        lemma_label_names_distinct(labels.drop_last());
        if !prev.contains(labels.last()) {
            assert forall|k: int| 0 <= k < prev.len() implies prev[k] != labels.last() by {
                if prev[k] == labels.last() {
                    assert(prev.contains(labels.last()));
                }
            }
        }
    }
}

/// Every label is numbered, and only labels are: a text is among the distinct
/// labels exactly where it is one of the labels.
pub proof fn lemma_label_names_cover(labels: Seq<Seq<char>>, x: Seq<char>)
    ensures
        label_names(labels).contains(x) <==> labels.contains(x),
    decreases labels.len(),
{
    if labels.len() > 0 {
        let rest = labels.drop_last();
        lemma_label_names_cover(rest, x);
        if labels.contains(x) && x != labels.last() {
            let k = choose|k: int| 0 <= k < labels.len() && labels[k] == x;
            assert(rest[k] == x);
        }
        if rest.contains(x) {
            let k = choose|k: int| 0 <= k < rest.len() && rest[k] == x;
            assert(labels[k] == x);
        }
        if x == labels.last() {
            assert(labels[labels.len() - 1] == x);
            if label_names(rest).contains(x) {
            } else {
                assert(label_names(labels).last() == x);
            }
        }
        if label_names(labels).contains(x) && !label_names(rest).contains(x) {
            let k = choose|k: int| 0 <= k < label_names(labels).len() && label_names(labels)[k] == x;
            if k < label_names(rest).len() {
                assert(label_names(rest)[k] == x);
            }
        }
    }
}

} // verus!
