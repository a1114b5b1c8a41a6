//! Vectors of (string key, value) pairs with distinct keys, read as maps.
use vstd::prelude::*;

verus! {

/// No key occurs twice.
pub open spec fn keys_unique<V>(data: Seq<(String, V)>) -> bool {
    forall|i: int, j: int| 0 <= i < j < data.len() ==> data[i].0@ != data[j].0@
}

/// The map that (key, value) pairs hold, each value by its view.
pub open spec fn keyed_map<V: View>(data: Seq<(String, V)>) -> Map<Seq<char>, V::V> {
    Map::new(
        |k: Seq<char>| exists|i: int| 0 <= i < data.len() && data[i].0@ == k,
        |k: Seq<char>| data[choose|i: int| 0 <= i < data.len() && data[i].0@ == k].1@,
    )
}

/// The entry at a position is what the map holds under its key.
pub proof fn lemma_keyed_at<V: View>(data: Seq<(String, V)>, i: int)
    requires
        keys_unique(data),
        0 <= i < data.len(),
    ensures
        keyed_map(data).contains_key(data[i].0@),
        keyed_map(data)[data[i].0@] == data[i].1@,
{
    let k = data[i].0@;
    let c = choose|c: int| 0 <= c < data.len() && data[c].0@ == k;
    if c != i {
        if c < i {
            assert(data[c].0@ != data[i].0@);
        } else {
            assert(data[i].0@ != data[c].0@);
        }
    }
}

/// The position of a key, if present.
pub fn keyed_find<V: View>(data: &Vec<(String, V)>, key: &str) -> (r: Option<usize>)
    requires
        keys_unique(data@),
    ensures
        r matches Some(i) ==> i < data@.len() && data@[i as int].0@ == key@ && keyed_map(
            data@,
        ).contains_key(key@) && keyed_map(data@)[key@] == data@[i as int].1@,
        r is None ==> !keyed_map(data@).contains_key(key@),
{
    let mut i: usize = 0;
    while i < data.len()
        invariant
            keys_unique(data@),
            i <= data@.len(),
            forall|j: int| 0 <= j < i ==> data@[j].0@ != key@,
        decreases data.len() - i,
    {
        if crate::text::str_equal(data[i].0.as_str(), key) {
            proof {
                lemma_keyed_at(data@, i as int);
            }
            return Some(i);
        }
        i = i + 1;
    }
    None
}

/// Sets the value under a key, replacing any value there (as `HashMap::insert` does).
pub fn keyed_insert<V: View>(data: &mut Vec<(String, V)>, key: String, value: V)
    requires
        keys_unique(old(data)@),
    ensures
        keys_unique(final(data)@),
        keyed_map(final(data)@) == keyed_map(old(data)@).insert(key@, value@),
{
    let ghost old_data = data@;
    let ghost vv = value@;
    match keyed_find(data, key.as_str()) {
        Some(i) => {
            data[i].1 = value;
            proof {
                let d = data@;
                assert(d =~= old_data.update(i as int, (old_data[i as int].0, d[i as int].1)));
                assert forall|a: int, b: int| 0 <= a < b < d.len() implies d[a].0@ != d[b].0@ by {
                    assert(d[a].0@ == old_data[a].0@ && d[b].0@ == old_data[b].0@);
                }
                assert forall|k: Seq<char>| #[trigger]
                    keyed_map(d).contains_key(k) == keyed_map(old_data).insert(
                        key@,
                        vv,
                    ).contains_key(k) && (keyed_map(d).contains_key(k) ==> keyed_map(d)[k]
                        == keyed_map(old_data).insert(key@, vv)[k]) by {
                    if k == key@ {
                        lemma_keyed_at(d, i as int);
                    } else if exists|j: int| 0 <= j < d.len() && d[j].0@ == k {
                        let j = choose|j: int| 0 <= j < d.len() && d[j].0@ == k;
                        lemma_keyed_at(d, j);
                        lemma_keyed_at(old_data, j);
                    } else {
                        assert forall|j: int| 0 <= j < old_data.len() implies old_data[j].0@
                            != k by {
                            assert(d[j].0@ == old_data[j].0@);
                        }
                    }
                }
                assert(keyed_map(d) =~= keyed_map(old_data).insert(key@, vv));
            }
        },
        None => {
            data.push((key, value));
            proof {
                let d = data@;
                let n = old_data.len() as int;
                assert forall|k: Seq<char>| #[trigger]
                    keyed_map(d).contains_key(k) == keyed_map(old_data).insert(
                        d[n].0@,
                        vv,
                    ).contains_key(k) && (keyed_map(d).contains_key(k) ==> keyed_map(d)[k]
                        == keyed_map(old_data).insert(d[n].0@, vv)[k]) by {
                    if k == d[n].0@ {
                        lemma_keyed_at(d, n);
                    } else if exists|j: int| 0 <= j < d.len() && d[j].0@ == k {
                        let j = choose|j: int| 0 <= j < d.len() && d[j].0@ == k;
                        assert(j < n);
                        assert(d[j] == old_data[j]);
                        lemma_keyed_at(d, j);
                        lemma_keyed_at(old_data, j);
                    } else {
                        assert forall|j: int| 0 <= j < old_data.len() implies old_data[j].0@
                            != k by {
                            assert(d[j] == old_data[j]);
                        }
                    }
                }
                assert(keyed_map(d) =~= keyed_map(old_data).insert(key@, vv));
            }
        },
    }
}

} // verus!
