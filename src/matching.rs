//! Choosing a table by the names in its header row.
use vstd::prelude::*;

use crate::headers::texts;

verus! {

/// The text of each string in `v`.
pub open spec fn str_texts(v: Seq<&str>) -> Seq<Seq<char>> {
    v.map_values(|s: &str| s@)
}

/// Whether `cells` holds every name of `required`, in any order.
pub open spec fn covers(cells: Seq<Seq<char>>, required: Seq<Seq<char>>) -> bool {
    forall|j: int| 0 <= j < required.len() ==> cells.contains(#[trigger] required[j])
}

/// The position of the first header row of `candidates` that holds every
/// name of `required`, if there is one.
pub open spec fn first_covering(
    candidates: Seq<Seq<Seq<char>>>,
    required: Seq<Seq<char>>,
) -> Option<int>
    decreases candidates.len(),
{
    if candidates.len() == 0 {
        None
    } else {
        match first_covering(candidates.drop_last(), required) {
            Some(i) => Some(i),
            None => if covers(candidates.last(), required) {
                Some(candidates.len() - 1)
            } else {
                None
            },
        }
    }
}

/// Whether `slice` holds a string whose text is that of `item`.
pub fn contains_str(slice: &[String], item: &str) -> (r: bool)
    ensures
        r <==> texts(slice@).contains(item@),
{
    let key = item.to_owned();
    let mut i: usize = 0;
    while i < slice.len()
        invariant
            i <= slice@.len(),
            key@ == item@,
            forall|j: int| 0 <= j < i ==> slice@[j]@ != item@,
        decreases slice.len() - i,
    {
        if slice[i] == key {
            assert(texts(slice@)[i as int] == item@);
            return true;
        }
        i = i + 1;
    }
    proof {
        if texts(slice@).contains(item@) {
            let j = choose|j: int| 0 <= j < slice@.len() && texts(slice@)[j] == item@;
            assert(slice@[j]@ == item@);
        }
    }
    false
}

/// Whether `cells` holds every name of `required`. Order and repeats in
/// `required` do not matter.
pub fn contains_all(cells: &[String], required: &[&str]) -> (r: bool)
    ensures
        r <==> covers(texts(cells@), str_texts(required@)),
{
    let mut i: usize = 0;
    while i < required.len()
        invariant
            i <= required@.len(),
            forall|j: int| 0 <= j < i ==> texts(cells@).contains(#[trigger] required@[j]@),
        decreases required.len() - i,
    {
        if !contains_str(cells, required[i]) {
            assert(str_texts(required@)[i as int] == required@[i as int]@);
            return false;
        }
        i = i + 1;
    }
    assert forall|j: int| 0 <= j < str_texts(required@).len() implies texts(cells@).contains(
        #[trigger] str_texts(required@)[j],
    ) by {
        assert(str_texts(required@)[j] == required@[j]@);
    }
    true
}

/// Whether a header row holds the required names depends only on which
/// names are required: not on their order, nor on repeats.
pub proof fn lemma_covers_ignores_order(
    cells: Seq<Seq<char>>,
    a: Seq<Seq<char>>,
    b: Seq<Seq<char>>,
)
    requires
        a.to_set() == b.to_set(),
    ensures
        covers(cells, a) == covers(cells, b),
{
    assert forall|x: Seq<Seq<char>>, y: Seq<Seq<char>>|
        x.to_set() == y.to_set() && covers(cells, x) implies covers(cells, y) by {
        assert forall|j: int| 0 <= j < y.len() implies cells.contains(#[trigger] y[j]) by {
            assert(y.to_set().contains(y[j]));
            assert(x.to_set().contains(y[j]));
            let k = choose|k: int| 0 <= k < x.len() && x[k] == y[j];
            assert(cells.contains(x[k]));
        }
    }
}

/// The table that is chosen by its header row depends only on which names
/// are required: not on their order, nor on repeats.
pub proof fn lemma_first_covering_ignores_order(
    candidates: Seq<Seq<Seq<char>>>,
    a: Seq<Seq<char>>,
    b: Seq<Seq<char>>,
)
    requires
        a.to_set() == b.to_set(),
    ensures
        first_covering(candidates, a) == first_covering(candidates, b),
    decreases candidates.len(),
{
    if candidates.len() > 0 {
        lemma_first_covering_ignores_order(candidates.drop_last(), a, b);
        lemma_covers_ignores_order(candidates.last(), a, b);
    }
}

/// With no required names, the table chosen by its header row is the first
/// table, and there is none only where there is no table.
pub proof fn lemma_no_required_names_is_first(candidates: Seq<Seq<Seq<char>>>)
    ensures
        first_covering(candidates, Seq::empty()) == if candidates.len() > 0 {
            Some(0int)
        } else {
            None
        },
    decreases candidates.len(),
{
    if candidates.len() > 0 {
        lemma_no_required_names_is_first(candidates.drop_last());
    }
}

/// A header row is chosen only if it holds every required name, and no
/// earlier one does.
pub proof fn lemma_first_covering_is_first(
    candidates: Seq<Seq<Seq<char>>>,
    required: Seq<Seq<char>>,
)
    ensures
        match first_covering(candidates, required) {
            Some(i) => {
                &&& 0 <= i < candidates.len()
                &&& covers(candidates[i], required)
                &&& forall|j: int| 0 <= j < i ==> !covers(#[trigger] candidates[j], required)
            },
            None => forall|j: int|
                0 <= j < candidates.len() ==> !covers(#[trigger] candidates[j], required),
        },
    decreases candidates.len(),
{
    if candidates.len() > 0 {
        let init = candidates.drop_last();
        lemma_first_covering_is_first(init, required);
        assert forall|j: int| 0 <= j < init.len() implies candidates[j] == init[j] by {}
    }
}

/// The header row chosen is the first that holds every required name; where
/// none does, none is chosen.
pub proof fn lemma_first_covering_found(
    candidates: Seq<Seq<Seq<char>>>,
    required: Seq<Seq<char>>,
    i: int,
)
    requires
        forall|j: int| 0 <= j < i ==> !covers(#[trigger] candidates[j], required),
        0 <= i <= candidates.len(),
    ensures
        i < candidates.len() && covers(candidates[i], required) ==> first_covering(
            candidates,
            required,
        ) == Some(i),
        i == candidates.len() ==> first_covering(candidates, required) is None,
{
    lemma_first_covering_is_first(candidates, required);
    if i < candidates.len() && covers(candidates[i], required) {
        match first_covering(candidates, required) {
            Some(k) => {
                if k < i {
                    assert(!covers(candidates[k], required));
                }
                if k > i {
                    assert(!covers(candidates[i], required));
                }
            },
            None => {
                assert(!covers(candidates[i], required));
            },
        }
    }
}

} // verus!
