use vstd::prelude::*;

verus! {

/// No key appears twice among the entries.
pub open spec fn distinct_keys(v: Seq<(String, String)>) -> bool {
    forall|i: int, j: int| 0 <= i < v.len() && 0 <= j < v.len() && i != j ==> v[i].0@ != v[j].0@
}

/// The map from key text to value text of entries with distinct keys.
pub open spec fn entries_map(v: Seq<(String, String)>) -> Map<Seq<char>, Seq<char>> {
    Map::new(
        |k: Seq<char>| exists|i: int| 0 <= i < v.len() && v[i].0@ == k,
        |k: Seq<char>| v[choose|i: int| 0 <= i < v.len() && v[i].0@ == k].1@,
    )
}

/// The entry at `i` is what the map holds for its key.
pub proof fn lemma_entries_map_index(v: Seq<(String, String)>, i: int)
    requires
        distinct_keys(v),
        0 <= i < v.len(),
    ensures
        entries_map(v).contains_key(v[i].0@),
        entries_map(v)[v[i].0@] == v[i].1@,
{
    let k = choose|k: int| 0 <= k < v.len() && v[k].0@ == v[i].0@;
    assert(k == i);
}

/// The index of the entry whose key is `key`.
pub fn find_key(v: &Vec<(String, String)>, key: &String) -> (res: Option<usize>)
    ensures
        match res {
            Some(i) => i < v@.len() && v@[i as int].0@ == key@,
            None => forall|j: int| 0 <= j < v@.len() ==> v@[j].0@ != key@,
        },
{
    for i in 0..v.len()
        invariant
            forall|j: int| 0 <= j < i ==> v@[j].0@ != key@,
    {
        if v[i].0 == *key {
            return Some(i);
        }
    }
    None
}

/// The value stored under `key`.
pub fn get_value<'a>(v: &'a Vec<(String, String)>, key: &String) -> (res: Option<&'a String>)
    requires
        distinct_keys(v@),
    ensures
        match res {
            Some(s) => entries_map(v@).contains_key(key@) && entries_map(v@)[key@] == s@,
            None => !entries_map(v@).contains_key(key@),
        },
{
    match find_key(v, key) {
        Some(i) => {
            proof { lemma_entries_map_index(v@, i as int); }
            Some(&v[i].1)
        },
        None => None,
    }
}

/// Stores `value` under `key`, replacing an earlier value of that key (as `HashMap::insert`).
pub fn insert_entry(v: &mut Vec<(String, String)>, key: String, value: String)
    requires
        distinct_keys(old(v)@),
    ensures
        distinct_keys(final(v)@),
        entries_map(final(v)@) == entries_map(old(v)@).insert(key@, value@),
{
    let ghost old_v = v@;
    let ghost k = key@;
    let ghost val = value@;
    let pos = find_key(v, &key);
    match pos {
        Some(i) => {
            v.set(i, (key, value));
        },
        None => {
            v.push((key, value));
        },
    }
    proof {
        let n = v@;
        assert(distinct_keys(n)) by {
            assert forall|i: int, j: int| 0 <= i < n.len() && 0 <= j < n.len() && i != j implies n[i].0@ != n[j].0@ by {
                match pos {
                    Some(p) => {
                        if i != p {
                            assert(n[i] == old_v[i]);
                        }
                        if j != p {
                            assert(n[j] == old_v[j]);
                        }
                    },
                    None => {
                        if i < old_v.len() {
                            assert(n[i] == old_v[i]);
                        }
                        if j < old_v.len() {
                            assert(n[j] == old_v[j]);
                        }
                    },
                }
            }
        }
        let target = entries_map(old_v).insert(k, val);
        let m = entries_map(n);
        assert forall|x: Seq<char>| m.contains_key(x) <==> target.contains_key(x) by {
            if m.contains_key(x) && x != k {
                let j = choose|j: int| 0 <= j < n.len() && n[j].0@ == x;
                assert(n[j] == old_v[j]);
            }
            if x == k {
                match pos {
                    Some(p) => { assert(n[p as int].0@ == k); },
                    None => { assert(n[old_v.len() as int].0@ == k); },
                }
            }
            if entries_map(old_v).contains_key(x) && x != k {
                let j = choose|j: int| 0 <= j < old_v.len() && old_v[j].0@ == x;
                assert(n[j] == old_v[j]);
            }
        }
        assert forall|x: Seq<char>| m.contains_key(x) implies m[x] == target[x] by {
            let j = choose|j: int| 0 <= j < n.len() && n[j].0@ == x;
            lemma_entries_map_index(n, j);
            if x != k {
                assert(n[j] == old_v[j]);
                lemma_entries_map_index(old_v, j);
            }
        }
        assert(m =~= target);
    }
}

/// No key appears twice among keyed entries.
pub open spec fn keys_distinct<V>(v: Seq<(String, V)>) -> bool {
    forall|i: int, j: int| 0 <= i < v.len() && 0 <= j < v.len() && i != j ==> v[i].0@ != v[j].0@
}

/// The map from key text to value of keyed entries with distinct keys.
pub open spec fn keyed_map<V>(v: Seq<(String, V)>) -> Map<Seq<char>, V> {
    Map::new(
        |k: Seq<char>| exists|i: int| 0 <= i < v.len() && v[i].0@ == k,
        |k: Seq<char>| v[choose|i: int| 0 <= i < v.len() && v[i].0@ == k].1,
    )
}

/// The entry at `i` is what the map holds for its key.
pub proof fn lemma_keyed_map_index<V>(v: Seq<(String, V)>, i: int)
    requires
        keys_distinct(v),
        0 <= i < v.len(),
    ensures
        keyed_map(v).contains_key(v[i].0@),
        keyed_map(v)[v[i].0@] == v[i].1,
{
    let k = choose|k: int| 0 <= k < v.len() && v[k].0@ == v[i].0@;
    assert(k == i);
}

/// Keyed entries with distinct keys make a finite map with one key per entry.
pub proof fn lemma_keyed_map_len<V>(v: Seq<(String, V)>)
    requires
        keys_distinct(v),
    ensures
        keyed_map(v).dom().finite(),
        keyed_map(v).len() == v.len(),
{
    let ks = v.map_values(|p: (String, V)| p.0@);
    assert(ks.no_duplicates());
    ks.unique_seq_to_set();
    assert forall|k: Seq<char>| keyed_map(v).dom().contains(k) <==> #[trigger] ks.to_set().contains(k) by {
        if keyed_map(v).dom().contains(k) {
            let i = choose|i: int| 0 <= i < v.len() && v[i].0@ == k;
            assert(ks[i] == k);
        }
        if ks.to_set().contains(k) {
            let i = choose|i: int| 0 <= i < ks.len() && ks[i] == k;
            assert(v[i].0@ == k);
        }
    }
    assert(keyed_map(v).dom() =~= ks.to_set());
}

/// The index of the keyed entry whose key is `key`.
pub fn find_keyed<V>(v: &Vec<(String, V)>, key: &String) -> (res: Option<usize>)
    ensures
        match res {
            Some(i) => i < v@.len() && v@[i as int].0@ == key@,
            None => forall|j: int| 0 <= j < v@.len() ==> v@[j].0@ != key@,
        },
{
    for i in 0..v.len()
        invariant
            forall|j: int| 0 <= j < i ==> v@[j].0@ != key@,
    {
        if v[i].0 == *key {
            return Some(i);
        }
    }
    None
}

/// Removing the entry at `i` removes its key from the map.
pub proof fn lemma_keyed_remove<V>(v: Seq<(String, V)>, i: int)
    requires
        keys_distinct(v),
        0 <= i < v.len(),
    ensures
        keys_distinct(v.remove(i)),
        keyed_map(v.remove(i)) == keyed_map(v).remove(v[i].0@),
{
    let n = v.remove(i);
    assert forall|a: int, b: int| 0 <= a < n.len() && 0 <= b < n.len() && a != b implies n[a].0@ != n[b].0@ by {
        let oa = if a < i { a } else { a + 1 };
        let ob = if b < i { b } else { b + 1 };
        assert(n[a] == v[oa] && n[b] == v[ob]);
    }
    let target = keyed_map(v).remove(v[i].0@);
    let m = keyed_map(n);
    assert forall|x: Seq<char>| m.contains_key(x) <==> target.contains_key(x) by {
        if m.contains_key(x) {
            let j = choose|j: int| 0 <= j < n.len() && n[j].0@ == x;
            let oj = if j < i { j } else { j + 1 };
            assert(n[j] == v[oj]);
        }
        if target.contains_key(x) {
            let j = choose|j: int| 0 <= j < v.len() && v[j].0@ == x;
            assert(j != i);
            let nj = if j < i { j } else { j - 1 };
            assert(n[nj] == v[j]);
        }
    }
    assert forall|x: Seq<char>| m.contains_key(x) implies m[x] == target[x] by {
        let j = choose|j: int| 0 <= j < n.len() && n[j].0@ == x;
        lemma_keyed_map_index(n, j);
        let oj = if j < i { j } else { j + 1 };
        assert(n[j] == v[oj]);
        lemma_keyed_map_index(v, oj);
    }
    assert(m =~= target);
}

/// Stores `value` under `key`, replacing an earlier value of that key (as `HashMap::insert`).
pub fn insert_keyed<V>(v: &mut Vec<(String, V)>, key: String, value: V)
    requires
        keys_distinct(old(v)@),
    ensures
        keys_distinct(final(v)@),
        keyed_map(final(v)@) == keyed_map(old(v)@).insert(key@, value),
        final(v)@.len() == old(v)@.len() + if keyed_map(old(v)@).contains_key(key@) { 0int } else { 1int },
{
    let ghost old_v = v@;
    let ghost k = key@;
    let ghost val = value;
    let pos = find_keyed(v, &key);
    proof {
        if pos is Some {
            lemma_keyed_map_index(old_v, pos.unwrap() as int);
        }
    }
    match pos {
        Some(i) => {
            v.set(i, (key, value));
        },
        None => {
            v.push((key, value));
        },
    }
    proof {
        let n = v@;
        assert(keys_distinct(n)) by {
            assert forall|i: int, j: int| 0 <= i < n.len() && 0 <= j < n.len() && i != j implies n[i].0@ != n[j].0@ by {
                match pos {
                    Some(p) => {
                        if i != p {
                            assert(n[i] == old_v[i]);
                        }
                        if j != p {
                            assert(n[j] == old_v[j]);
                        }
                    },
                    None => {
                        if i < old_v.len() {
                            assert(n[i] == old_v[i]);
                        }
                        if j < old_v.len() {
                            assert(n[j] == old_v[j]);
                        }
                    },
                }
            }
        }
        let target = keyed_map(old_v).insert(k, val);
        let m = keyed_map(n);
        assert forall|x: Seq<char>| m.contains_key(x) <==> target.contains_key(x) by {
            if m.contains_key(x) && x != k {
                let j = choose|j: int| 0 <= j < n.len() && n[j].0@ == x;
                assert(n[j] == old_v[j]);
            }
            if x == k {
                match pos {
                    Some(p) => { assert(n[p as int].0@ == k); },
                    None => { assert(n[old_v.len() as int].0@ == k); },
                }
            }
            if keyed_map(old_v).contains_key(x) && x != k {
                let j = choose|j: int| 0 <= j < old_v.len() && old_v[j].0@ == x;
                assert(n[j] == old_v[j]);
            }
        }
        assert forall|x: Seq<char>| m.contains_key(x) implies m[x] == target[x] by {
            let j = choose|j: int| 0 <= j < n.len() && n[j].0@ == x;
            lemma_keyed_map_index(n, j);
            if x != k {
                assert(n[j] == old_v[j]);
                lemma_keyed_map_index(old_v, j);
            }
        }
        assert(m =~= target);
    }
}

} // verus!
