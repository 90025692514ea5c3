//! Finding a name in a list of names.

use vstd::prelude::*;

verus! {

/// Whether `i` is the first position of `names` that holds `name`.
pub open spec fn is_first(names: Seq<Seq<char>>, name: Seq<char>, i: int) -> bool {
    &&& 0 <= i < names.len()
    &&& names[i] == name
    &&& forall|j: int| 0 <= j < i ==> names[j] != name
}

/// The first position of `names` that holds `name`.
pub open spec fn first_of(names: Seq<Seq<char>>, name: Seq<char>) -> Option<int> {
    if exists|i: int| is_first(names, name, i) {
        Some(choose|i: int| is_first(names, name, i))
    } else {
        None
    }
}

pub proof fn lemma_first(names: Seq<Seq<char>>, name: Seq<char>, i: int)
    requires
        is_first(names, name, i),
    ensures
        first_of(names, name) == Some(i),
{
    let chosen = choose|k: int| is_first(names, name, k);
    if chosen < i {
        assert(names[chosen] != name);
    } else if i < chosen {
        assert(names[i] != name);
    }
}

/// A name is found where the list holds it.
pub proof fn lemma_first_exists(names: Seq<Seq<char>>, name: Seq<char>, k: int)
    requires
        0 <= k < names.len(),
        names[k] == name,
    ensures
        first_of(names, name) matches Some(i) && 0 <= i <= k && names[i] == name,
    decreases k,
{
    if exists|j: int| 0 <= j < k && names[j] == name {
        let j = choose|j: int| 0 <= j < k && names[j] == name;
        lemma_first_exists(names, name, j);
    } else {
        assert(is_first(names, name, k));
        lemma_first(names, name, k);
    }
}

pub open spec fn strings_view(names: Seq<String>) -> Seq<Seq<char>> {
    Seq::new(names.len(), |i: int| names[i]@)
}

/// The first position of `names` that holds `name`.
pub fn find_name(names: &Vec<String>, name: &String) -> (r: Option<usize>)
    ensures
        match r {
            Some(i) => first_of(strings_view(names@), name@) == Some(i as int) && i < names@.len(),
            None => first_of(strings_view(names@), name@).is_none(),
        },
{
    let mut i: usize = 0;
    while i < names.len()
        invariant
            i <= names@.len(),
            forall|j: int| 0 <= j < i ==> strings_view(names@)[j] != name@,
        decreases names@.len() - i,
    {
        if names[i] == *name {
            proof {
                assert(strings_view(names@)[i as int] == name@);
                lemma_first(strings_view(names@), name@, i as int);
            }
            return Some(i);
        }
        i += 1;
    }
    None
}

} // verus!
