//! The header row of a table: header names and their column positions.
use vstd::prelude::*;

verus! {

/// The text of each string in `v`.
pub open spec fn texts(v: Seq<String>) -> Seq<Seq<char>> {
    v.map_values(|s: String| s@)
}

/// The map from each name in `names` to its position; where a name occurs
/// more than once, its last position wins.
pub open spec fn header_map(names: Seq<Seq<char>>) -> Map<Seq<char>, int>
    decreases names.len(),
{
    if names.len() == 0 {
        Map::empty()
    } else {
        header_map(names.drop_last()).insert(names.last(), names.len() - 1)
    }
}

/// A name is a key of `header_map(names)` exactly when it occurs in `names`,
/// and it maps to the last position at which it occurs.
pub proof fn lemma_header_map(names: Seq<Seq<char>>, k: Seq<char>)
    ensures
        header_map(names).contains_key(k) <==> names.contains(k),
        header_map(names).contains_key(k) ==> {
            let i = header_map(names)[k];
            &&& 0 <= i < names.len()
            &&& names[i] == k
            &&& forall|j: int| i < j < names.len() ==> names[j] != k
        },
    decreases names.len(),
{
    if names.len() > 0 {
        let init = names.drop_last();
        lemma_header_map(init, k);
        if names.last() != k {
            assert forall|j: int| 0 <= j < init.len() implies names[j] == init[j] by {}
            if init.contains(k) {
                let j = choose|j: int| 0 <= j < init.len() && init[j] == k;
                assert(names[j] == k);
            }
            if names.contains(k) {
                let j = choose|j: int| 0 <= j < names.len() && names[j] == k;
                assert(init[j] == k);
            }
        } else {
            assert(names[names.len() - 1] == k);
        }
    }
}

/// The header names of a table, in the order of its header row.
///
/// Read as a map (its view), each name gives the zero-based position of its
/// cell in the header row; where the same text occurs in two header cells,
/// the later position is the one kept.
#[derive(Clone, Debug)]
pub struct Headers {
    names: Vec<String>,
}

impl View for Headers {
    type V = Map<Seq<char>, int>;

    closed spec fn view(&self) -> Map<Seq<char>, int> {
        header_map(texts(self.names@))
    }
}

impl Headers {
    /// The header names in the order of their cells.
    pub closed spec fn names_view(&self) -> Seq<Seq<char>> {
        texts(self.names@)
    }

    /// Headers for a header row whose cells hold the texts in `cells`.
    pub fn from_cells(cells: Vec<String>) -> (h: Headers)
        ensures
            h.names_view() == texts(cells@),
            h@ == header_map(texts(cells@)),
    {
        Headers { names: cells }
    }

    /// Whether there are no headers at all.
    pub fn is_empty(&self) -> (b: bool)
        ensures
            b <==> self@.is_empty(),
            b <==> self@ == Map::<Seq<char>, int>::empty(),
    {
        proof {
            let names = self.names_view();
            if names.len() > 0 {
                lemma_header_map(names, names[0]);
                assert(names.contains(names[0]));
                assert(self@.contains_key(names[0]));
            } else {
                assert(self@ =~= Map::<Seq<char>, int>::empty());
            }
        }
        self.names.len() == 0
    }

    /// The header names with their positions: one entry for each name, in
    /// the order of the positions.
    pub fn entries(&self) -> (r: Vec<(String, usize)>)
        ensures
            forall|a: int|
                0 <= a < r@.len() ==> self@.contains_key(#[trigger] r@[a].0@) && self@[r@[a].0@]
                    == r@[a].1,
            forall|k: Seq<char>|
                #[trigger] self@.contains_key(k) ==> exists|a: int|
                    0 <= a < r@.len() && #[trigger] r@[a].0@ == k,
            forall|a: int, b: int| 0 <= a < b < r@.len() ==> r@[a].1 < r@[b].1,
    {
        let ghost names = self.names_view();
        let mut r: Vec<(String, usize)> = Vec::new();
        let mut i: usize = 0;
        while i < self.names.len()
            invariant
                i <= self.names.len(),
                names == self.names_view(),
                forall|a: int|
                    #![trigger r@[a]]
                    0 <= a < r@.len() ==> r@[a].1 < i && self@.contains_key(r@[a].0@) && self@[r@[a].0@]
                        == r@[a].1,
                forall|a: int, b: int| 0 <= a < b < r@.len() ==> r@[a].1 < r@[b].1,
                forall|k: Seq<char>|
                    #[trigger] self@.contains_key(k) && 0 <= self@[k] < i ==> exists|a: int|
                        0 <= a < r@.len() && #[trigger] r@[a].0@ == k,
            decreases self.names.len() - i,
        {
            let name = self.names[i].as_str();
            let ghost before = r@;
            match self.get(name) {
                Some(p) => {
                    if p == i {
                        r.push((self.names[i].clone(), i));
                        assert(r@[before.len() as int].0@ == names[i as int]);
                        assert(name@ == names[i as int]);
                        assert forall|a: int| 0 <= a < before.len() implies r@[a] == before[a] by {}
                        assert(self@.contains_key(r@[before.len() as int].0@));
                    }
                },
                None => {},
            }
            proof {
                assert forall|k: Seq<char>|
                    #[trigger] self@.contains_key(k) && 0 <= self@[k] < i + 1 implies exists|a: int|
                    0 <= a < r@.len() && #[trigger] r@[a].0@ == k by {
                    if self@[k] < i {
                        let a = choose|a: int| 0 <= a < before.len() && #[trigger] before[a].0@ == k;
                        assert(r@[a] == before[a]);
                    } else {
                        lemma_header_map(names, k);
                        assert(names[i as int] == k);
                        assert(r@[before.len() as int].0@ == k);
                    }
                }
            }
            i = i + 1;
        }
        proof {
            assert forall|k: Seq<char>| #[trigger] self@.contains_key(k) implies exists|a: int|
                0 <= a < r@.len() && #[trigger] r@[a].0@ == k by {
                lemma_header_map(names, k);
                assert(0 <= self@[k] < i);
            }
        }
        r
    }

    /// The number of distinct header names.
    pub fn len(&self) -> (n: usize)
        ensures
            n == self@.len(),
    {
        let entries = self.entries();
        proof {
            let keys = entries@.map_values(|e: (String, usize)| e.0@);
            assert forall|a: int, b: int| 0 <= a < keys.len() && 0 <= b < keys.len() && a != b
                implies keys[a] != keys[b] by {
                if keys[a] == keys[b] {
                    assert(entries@[a].0@ == entries@[b].0@);
                    if a < b {
                        assert(entries@[a].1 < entries@[b].1);
                    } else {
                        assert(entries@[b].1 < entries@[a].1);
                    }
                }
            }
            keys.unique_seq_to_set();
            assert forall|k: Seq<char>| keys.to_set().contains(k) <==> self@.dom().contains(k) by {
                if self@.dom().contains(k) {
                    assert(self@.contains_key(k));
                    let a = choose|a: int| 0 <= a < entries@.len() && #[trigger] entries@[a].0@ == k;
                    assert(keys[a] == k);
                }
                if keys.to_set().contains(k) {
                    let a = choose|a: int| 0 <= a < keys.len() && keys[a] == k;
                    assert(entries@[a].0@ == k);
                }
            }
            assert(keys.to_set() =~= self@.dom());
        }
        entries.len()
    }

    /// The position of the header `name`, if there is such a header.
    pub fn get(&self, name: &str) -> (r: Option<usize>)
        ensures
            match r {
                Some(i) => self@.contains_key(name@) && self@[name@] == i,
                None => !self@.contains_key(name@),
            },
    {
        let key = name.to_owned();
        let ghost names = self.names_view();
        proof {
            lemma_header_map(names, name@);
        }
        let mut i: usize = self.names.len();
        while i > 0
            invariant
                i <= self.names.len(),
                names == self.names_view(),
                key@ == name@,
                forall|j: int| i <= j < names.len() ==> names[j] != name@,
            decreases i,
        {
            i = i - 1;
            if self.names[i] == key {
                proof {
                    assert(names[i as int] == name@);
                    assert(names.contains(name@));
                    lemma_header_map(names, name@);
                    let v = header_map(names)[name@];
                    assert(v == i as int) by {
                        if v < i as int {
                            assert(names[i as int] != name@);
                        }
                    }
                }
                return Some(i);
            }
        }
        proof {
            if names.contains(name@) {
                let j = choose|j: int| 0 <= j < names.len() && names[j] == name@;
                assert(false);
            }
        }
        None
    }
}

/// Whether every header of `a` is a header of `b` at the same position.
fn agrees_with(a: &Headers, b: &Headers) -> (r: bool)
    ensures
        r <==> forall|k: Seq<char>|
            #[trigger] a@.contains_key(k) ==> b@.contains_key(k) && b@[k] == a@[k],
{
    let ghost names = a.names_view();
    let mut i: usize = 0;
    while i < a.names.len()
        invariant
            i <= a.names.len(),
            names == a.names_view(),
            forall|j: int|
                0 <= j < i ==> b@.contains_key(#[trigger] names[j]) && b@[names[j]]
                    == a@[names[j]],
        decreases a.names.len() - i,
    {
        let name = a.names[i].as_str();
        let mine = a.get(name);
        let theirs = b.get(name);
        proof {
            lemma_header_map(names, names[i as int]);
            assert(names.contains(names[i as int]));
        }
        match (mine, theirs) {
            (Some(x), Some(y)) => {
                if x != y {
                    return false;
                }
            },
            _ => {
                return false;
            },
        }
        i = i + 1;
    }
    proof {
        assert forall|k: Seq<char>| #[trigger] a@.contains_key(k) implies b@.contains_key(k)
            && b@[k] == a@[k] by {
            lemma_header_map(names, k);
            let j = choose|j: int| 0 <= j < names.len() && names[j] == k;
        }
    }
    true
}

impl PartialEq for Headers {
    /// Two headers are equal when they map the same names to the same
    /// positions, whatever the order of their cells.
    fn eq(&self, other: &Headers) -> (r: bool)
        ensures
            r <==> self@ == other@,
    {
        let r = agrees_with(self, other) && agrees_with(other, self);
        proof {
            if r {
                assert(self@ =~= other@);
            }
        }
        r
    }
}

impl vstd::std_specs::cmp::PartialEqSpecImpl for Headers {
    open spec fn obeys_eq_spec() -> bool {
        true
    }

    open spec fn eq_spec(&self, other: &Headers) -> bool {
        self@ == other@
    }
}

impl Eq for Headers {

}

} // verus!
