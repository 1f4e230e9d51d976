//! Maps from a name to a list of texts, held as lists of entries with
//! distinct keys: a `HashMap` keyed by `String` has no specification of its
//! lookups and insertions that proofs could use.
use vstd::prelude::*;

verus! {

/// Entries `(key, values)`; no two share a key.
pub type MapType = Vec<(String, Vec<String>)>;

pub open spec fn entry_values(e: (String, Vec<String>)) -> Seq<Seq<char>> {
    e.1@.map_values(|s: String| s@)
}

/// No two entries share a key.
pub open spec fn keys_unique(m: Seq<(String, Vec<String>)>) -> bool {
    forall|i: int, j: int| 0 <= i < m.len() && 0 <= j < m.len() && i != j ==> #[trigger] m[i].0@ != #[trigger] m[j].0@
}

/// Some entry has key `k`.
pub open spec fn has_key(m: Seq<(String, Vec<String>)>, k: Seq<char>) -> bool {
    exists|i: int| 0 <= i < m.len() && #[trigger] m[i].0@ == k
}

/// The values under key `k`, empty when there is no such entry.
pub open spec fn values_at(m: Seq<(String, Vec<String>)>, k: Seq<char>) -> Seq<Seq<char>> {
    if has_key(m, k) {
        entry_values(m[choose|i: int| 0 <= i < m.len() && #[trigger] m[i].0@ == k])
    } else {
        Seq::empty()
    }
}

proof fn lemma_values_at(m: Seq<(String, Vec<String>)>, i: int)
    requires
        keys_unique(m),
        0 <= i < m.len(),
    ensures
        has_key(m, m[i].0@),
        values_at(m, m[i].0@) == entry_values(m[i]),
{
    assert(m[i].0@ == m[i].0@);
    let j = choose|j: int| 0 <= j < m.len() && #[trigger] m[j].0@ == m[i].0@;
    if j != i {
        assert(m[i].0@ != m[j].0@);
    }
}

/// Merges `map2` into `map1`: a key of both keeps the values of `map1`
/// followed by those of `map2`; a key of one keeps its values.
pub fn merge_map(map1: MapType, map2: MapType) -> (r: MapType)
    requires
        keys_unique(map1@),
        keys_unique(map2@),
    ensures
        keys_unique(r@),
        forall|k: Seq<char>| #[trigger] has_key(r@, k) <==> has_key(map1@, k) || has_key(map2@, k),
        forall|k: Seq<char>| #[trigger] values_at(r@, k) == values_at(map1@, k) + values_at(map2@, k),
{
    let ghost m1 = map1@;
    let ghost m2 = map2@;
    let mut r = map1;
    let mut rest = map2;
    proof {
        assert forall|k: Seq<char>| #[trigger] values_at(r@, k) == values_at(m1, k) + values_at(m2.subrange(rest@.len() as int, m2.len() as int), k) by {
            assert(m2.subrange(rest@.len() as int, m2.len() as int) =~= Seq::empty());
            assert(!has_key(m2.subrange(rest@.len() as int, m2.len() as int), k));
            assert(values_at(m1, k) + Seq::<Seq<char>>::empty() =~= values_at(m1, k));
        }
    }
    while rest.len() > 0
        invariant
            keys_unique(m1),
            keys_unique(m2),
            keys_unique(r@),
            rest@ == m2.subrange(0, rest@.len() as int),
            rest@.len() <= m2.len(),
            forall|k: Seq<char>| #[trigger] has_key(r@, k) <==> has_key(m1, k) || has_key(m2.subrange(rest@.len() as int, m2.len() as int), k),
            forall|k: Seq<char>| #[trigger] values_at(r@, k) == values_at(m1, k) + values_at(m2.subrange(rest@.len() as int, m2.len() as int), k),
        decreases rest@.len(),
    {
        let ghost old_r = r@;
        let ghost n = rest@.len() as int;
        let ghost done = m2.subrange(n, m2.len() as int);
        let ghost done2 = m2.subrange(n - 1, m2.len() as int);
        let (key, mut vals) = rest.pop().unwrap();
        assert((key, vals) == m2[n - 1]);
        let ghost kv = key@;
        let ghost new_vals = entry_values((key, vals));
        let mut idx: usize = 0;
        let mut found = false;
        while idx < r.len() && !found
            invariant
                r@ == old_r,
                idx <= r@.len(),
                kv == key@,
                found ==> idx < r@.len() && r@[idx as int].0@ == kv,
                !found ==> forall|j: int| 0 <= j < idx ==> r@[j].0@ != kv,
            decreases r@.len() - idx + if found { 0int } else { 1int },
        {
            if r[idx].0 == key {
                found = true;
            } else {
                idx = idx + 1;
            }
        }
        proof {
            // The key of the entry taken is new to the part of map2 already merged.
            assert forall|j: int| 0 <= j < done.len() implies done[j].0@ != kv by {
                assert(done[j] == m2[n + j]);
                assert(m2[n + j].0@ != m2[n - 1].0@);
            }
            assert(!has_key(done, kv));
            assert(done2 =~= seq![m2[n - 1]] + done);
            lemma_values_at(done2, 0);
            assert forall|k: Seq<char>| k != kv implies #[trigger] has_key(done2, k) == has_key(done, k)
                && values_at(done2, k) == values_at(done, k) by {
                if has_key(done, k) {
                    let j = choose|j: int| 0 <= j < done.len() && #[trigger] done[j].0@ == k;
                    assert(done2[j + 1] == done[j]);
                    lemma_values_at(done, j);
                    lemma_values_at(done2, j + 1);
                }
                if has_key(done2, k) {
                    let j = choose|j: int| 0 <= j < done2.len() && #[trigger] done2[j].0@ == k;
                    assert(j != 0);
                    assert(done[j - 1] == done2[j]);
                }
            }
            assert(keys_unique(done2)) by {
                assert forall|a: int, b: int| 0 <= a < done2.len() && 0 <= b < done2.len() && a != b implies #[trigger] done2[a].0@ != #[trigger] done2[b].0@ by {
                    assert(done2[a] == m2[n - 1 + a]);
                    assert(done2[b] == m2[n - 1 + b]);
                }
            }
        }
        if found {
            let (k0, mut v0) = r.remove(idx);
            let ghost old_vals = entry_values((k0, v0));
            v0.append(&mut vals);
            r.insert(idx, (k0, v0));
            proof {
                assert(old_r[idx as int].0@ == kv);
                lemma_values_at(old_r, idx as int);
                assert(r@ =~= old_r.update(idx as int, r@[idx as int]));
                assert(entry_values(r@[idx as int]) =~= old_vals + new_vals);
                assert forall|a: int, b: int| 0 <= a < r@.len() && 0 <= b < r@.len() && a != b implies #[trigger] r@[a].0@ != #[trigger] r@[b].0@ by {
                    assert(old_r[a].0@ != old_r[b].0@);
                }
                lemma_values_at(r@, idx as int);
                assert forall|k: Seq<char>| #[trigger] has_key(r@, k) <==> has_key(m1, k) || has_key(done2, k) by {
                    if has_key(r@, k) {
                        let j = choose|j: int| 0 <= j < r@.len() && #[trigger] r@[j].0@ == k;
                        assert(old_r[j].0@ == k);
                    }
                    if has_key(old_r, k) {
                        let j = choose|j: int| 0 <= j < old_r.len() && #[trigger] old_r[j].0@ == k;
                        assert(r@[j].0@ == k);
                    }
                }
                assert forall|k: Seq<char>| #[trigger] values_at(r@, k) == values_at(m1, k) + values_at(done2, k) by {
                    if k == kv {
                        assert(values_at(old_r, kv) == old_vals);
                        assert(values_at(done, kv) =~= Seq::empty());
                        assert(values_at(m1, kv) + values_at(done, kv) =~= values_at(m1, kv));
                        assert(values_at(m1, kv) + values_at(done2, kv) =~= old_vals + new_vals);
                    } else {
                        if has_key(r@, k) {
                            let j = choose|j: int| 0 <= j < r@.len() && #[trigger] r@[j].0@ == k;
                            assert(j != idx);
                            assert(r@[j] == old_r[j]);
                            lemma_values_at(r@, j);
                            lemma_values_at(old_r, j);
                        } else {
                            assert(!has_key(old_r, k)) by {
                                if has_key(old_r, k) {
                                    let j = choose|j: int| 0 <= j < old_r.len() && #[trigger] old_r[j].0@ == k;
                                    assert(r@[j].0@ == k);
                                }
                            }
                        }
                    }
                }
            }
        } else {
            r.push((key, vals));
            proof {
                let e = r@[old_r.len() as int];
                assert(r@ =~= old_r.push(e));
                assert(!has_key(old_r, kv)) by {
                    if has_key(old_r, kv) {
                        let j = choose|j: int| 0 <= j < old_r.len() && #[trigger] old_r[j].0@ == kv;
                        assert(old_r[j].0@ != kv);
                    }
                }
                assert forall|a: int, b: int| 0 <= a < r@.len() && 0 <= b < r@.len() && a != b implies #[trigger] r@[a].0@ != #[trigger] r@[b].0@ by {
                    if a < old_r.len() && b < old_r.len() {
                        assert(old_r[a].0@ != old_r[b].0@);
                    } else if a < old_r.len() {
                        assert(old_r[a].0@ != kv);
                    } else if b < old_r.len() {
                        assert(old_r[b].0@ != kv);
                    }
                }
                lemma_values_at(r@, old_r.len() as int);
                assert forall|k: Seq<char>| #[trigger] has_key(r@, k) <==> has_key(m1, k) || has_key(done2, k) by {
                    if has_key(r@, k) {
                        let j = choose|j: int| 0 <= j < r@.len() && #[trigger] r@[j].0@ == k;
                        if j < old_r.len() {
                            assert(old_r[j].0@ == k);
                        }
                    }
                    if has_key(old_r, k) {
                        let j = choose|j: int| 0 <= j < old_r.len() && #[trigger] old_r[j].0@ == k;
                        assert(r@[j].0@ == k);
                    }
                }
                assert forall|k: Seq<char>| #[trigger] values_at(r@, k) == values_at(m1, k) + values_at(done2, k) by {
                    if k == kv {
                        assert(!has_key(m1, kv));
                        assert(values_at(m1, kv) =~= Seq::empty());
                        assert(values_at(m1, kv) + values_at(done2, kv) =~= new_vals);
                    } else {
                        if has_key(r@, k) {
                            let j = choose|j: int| 0 <= j < r@.len() && #[trigger] r@[j].0@ == k;
                            assert(j < old_r.len());
                            lemma_values_at(r@, j);
                            lemma_values_at(old_r, j);
                        } else {
                            assert(!has_key(old_r, k)) by {
                                if has_key(old_r, k) {
                                    let j = choose|j: int| 0 <= j < old_r.len() && #[trigger] old_r[j].0@ == k;
                                    assert(r@[j].0@ == k);
                                }
                            }
                        }
                    }
                }
            }
        }
        proof {
            assert(rest@ =~= m2.subrange(0, rest@.len() as int));
        }
    }
    proof {
        assert(m2.subrange(0, m2.len() as int) =~= m2);
    }
    r
}

} // verus!
