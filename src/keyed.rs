use vstd::prelude::*;

verus! {

/// Entries keyed by their first component: pairwise distinct keys.
pub open spec fn keys_distinct<T>(v: Seq<(Seq<char>, T)>) -> bool {
    forall|i: int, j: int| 0 <= i < j < v.len() ==> v[i].0 != v[j].0
}

/// Whether some entry carries the key.
pub open spec fn has_key<T>(v: Seq<(Seq<char>, T)>, key: Seq<char>) -> bool {
    exists|i: int| 0 <= i < v.len() && v[i].0 == key
}

/// Position of the entry with the key, or -1 when there is none.
pub open spec fn index_of<T>(v: Seq<(Seq<char>, T)>, key: Seq<char>) -> int {
    if has_key(v, key) {
        choose|i: int| 0 <= i < v.len() && v[i].0 == key
    } else {
        -1
    }
}

pub proof fn lemma_index_of<T>(v: Seq<(Seq<char>, T)>, key: Seq<char>)
    requires
        keys_distinct(v),
    ensures
        -1 <= index_of(v, key) < v.len(),
        index_of(v, key) >= 0 <==> has_key(v, key),
        index_of(v, key) >= 0 ==> v[index_of(v, key)].0 == key,
        forall|i: int| 0 <= i < v.len() && v[i].0 == key ==> i == index_of(v, key),
{
    if has_key(v, key) {
        let k = index_of(v, key);
        assert(0 <= k < v.len() && v[k].0 == key);
        assert forall|i: int| 0 <= i < v.len() && v[i].0 == key implies i == k by {
            if i < k {
                assert(v[i].0 != v[k].0);
            } else if k < i {
                assert(v[k].0 != v[i].0);
            }
        }
    }
}

pub proof fn lemma_distinct_remove<T>(v: Seq<(Seq<char>, T)>, i: int)
    requires
        keys_distinct(v),
        0 <= i < v.len(),
    ensures
        keys_distinct(v.remove(i)),
{
    let w = v.remove(i);
    assert forall|a: int, b: int| 0 <= a < b < w.len() implies w[a].0 != w[b].0 by {
        if a < i {
            if b >= i {
                assert(w[b] == v[b + 1]);
            }
        } else {
            assert(w[a] == v[a + 1]);
            assert(w[b] == v[b + 1]);
        }
    }
}

pub proof fn lemma_distinct_update<T>(v: Seq<(Seq<char>, T)>, i: int, x: (Seq<char>, T))
    requires
        keys_distinct(v),
        0 <= i < v.len(),
        x.0 == v[i].0,
    ensures
        keys_distinct(v.update(i, x)),
{
    let w = v.update(i, x);
    assert forall|a: int, b: int| 0 <= a < b < w.len() implies w[a].0 != w[b].0 by {
        assert(w[a].0 == v[a].0);
        assert(w[b].0 == v[b].0);
    }
}

pub proof fn lemma_distinct_push<T>(v: Seq<(Seq<char>, T)>, x: (Seq<char>, T))
    requires
        keys_distinct(v),
        !has_key(v, x.0),
    ensures
        keys_distinct(v.push(x)),
{
    let w = v.push(x);
    assert forall|a: int, b: int| 0 <= a < b < w.len() implies w[a].0 != w[b].0 by {
        assert(w[a] == v[a]);
        if b < v.len() {
            assert(w[b] == v[b]);
        }
    }
}

} // verus!
