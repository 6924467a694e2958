use vstd::prelude::*;

verus! {

/// An index that holds `key`, with no earlier index holding it, is the
/// first index of `key`.
pub proof fn lemma_first_index<A>(s: Seq<A>, key: A, i: int)
    requires
        0 <= i < s.len(),
        s[i] == key,
        forall|j: int| 0 <= j < i ==> s[j] != key,
    ensures
        s.contains(key),
        s.index_of_first(key) == Some(i),
{
    s.index_of_first_ensures(key);
    assert(s.contains(key));
    let k = s.index_of_first(key).unwrap();
    if k < i {
        assert(s[k] != key);
    } else if i < k {
        assert(s[i] != key);
    }
}

/// A key that no index holds has no first index.
pub proof fn lemma_absent<A>(s: Seq<A>, key: A)
    requires
        forall|j: int| 0 <= j < s.len() ==> s[j] != key,
    ensures
        !s.contains(key),
        s.index_of_first(key) is None,
{
    s.index_of_first_ensures(key);
}

/// What `index_of_first` promises, restated for callers in this crate.
pub proof fn lemma_index_of_first<A>(s: Seq<A>, key: A)
    ensures
        match s.index_of_first(key) {
            Some(i) => {
                &&& s.contains(key)
                &&& 0 <= i < s.len()
                &&& s[i] == key
                &&& forall|j: int| 0 <= j < i ==> s[j] != key
            },
            None => !s.contains(key),
        },
{
    s.index_of_first_ensures(key);
}

} // verus!
