//! Association lists keyed by strings: the specification-side view of the
//! small name-to-value tables several modules keep, with the lemmas their
//! contracts rest on.

use vstd::prelude::*;

verus! {

/// The keys of the table, in insertion order.
pub open spec fn assoc_keys<V>(rs: Seq<(Seq<char>, V)>) -> Seq<Seq<char>> {
    rs.map_values(|p: (Seq<char>, V)| p.0)
}

/// `x` occurs among `ids`.
pub open spec fn assoc_contains(ids: Seq<Seq<char>>, x: Seq<char>) -> bool {
    exists|i: int| 0 <= i < ids.len() && ids[i] == x
}

/// No key occurs twice.
pub open spec fn assoc_distinct(ids: Seq<Seq<char>>) -> bool {
    forall|i: int, j: int| 0 <= i < j < ids.len() ==> ids[i] != ids[j]
}

/// The value stored under `k`, if any.
pub open spec fn assoc_lookup<V>(rs: Seq<(Seq<char>, V)>, k: Seq<char>) -> Option<V>
    decreases rs.len(),
{
    if rs.len() == 0 {
        None
    } else if rs[0].0 == k {
        Some(rs[0].1)
    } else {
        assoc_lookup(rs.drop_first(), k)
    }
}

/// Under pairwise different keys, the entry at `i` is what the lookup of its
/// key finds.
pub proof fn lemma_assoc_at<V>(rs: Seq<(Seq<char>, V)>, i: int)
    requires
        assoc_distinct(assoc_keys(rs)),
        0 <= i < rs.len(),
    ensures
        assoc_lookup(rs, rs[i].0) == Some(rs[i].1),
    decreases rs.len(),
{
    assert(forall|j: int| 0 <= j < rs.len() ==> assoc_keys(rs)[j] == rs[j].0);
    if i > 0 {
        assert(assoc_keys(rs)[0] != assoc_keys(rs)[i]);
        assert(assoc_keys(rs.drop_first()) =~= assoc_keys(rs).drop_first());
        assert(rs.drop_first()[i - 1] == rs[i]);
        lemma_assoc_at(rs.drop_first(), i - 1);
    }
}

/// A key is found exactly when it occurs among the keys.
pub proof fn lemma_assoc_iff<V>(rs: Seq<(Seq<char>, V)>, k: Seq<char>)
    ensures
        assoc_lookup(rs, k) is Some <==> assoc_contains(assoc_keys(rs), k),
    decreases rs.len(),
{
    assert(forall|j: int| 0 <= j < rs.len() ==> assoc_keys(rs)[j] == rs[j].0);
    if rs.len() > 0 {
        assert(assoc_keys(rs.drop_first()) =~= assoc_keys(rs).drop_first());
        lemma_assoc_iff(rs.drop_first(), k);
        if rs[0].0 == k {
            assert(assoc_keys(rs)[0] == k);
        } else {
            if assoc_contains(assoc_keys(rs), k) {
                let i = choose|i: int| 0 <= i < assoc_keys(rs).len() && assoc_keys(rs)[i] == k;
                if i > 0 {
                    assert(assoc_keys(rs.drop_first())[i - 1] == k);
                }
            }
            if assoc_contains(assoc_keys(rs.drop_first()), k) {
                let i = choose|i: int|
                    0 <= i < assoc_keys(rs.drop_first()).len() && assoc_keys(rs.drop_first())[i]
                        == k;
                assert(assoc_keys(rs)[i + 1] == k);
            }
        }
    }
}

/// The keys stay pairwise different when a fresh one is pushed.
pub proof fn lemma_assoc_distinct_push<V>(rs: Seq<(Seq<char>, V)>, key: Seq<char>)
    requires
        assoc_distinct(assoc_keys(rs)),
        !assoc_contains(assoc_keys(rs), key),
    ensures
        assoc_distinct(assoc_keys(rs).push(key)),
{
    let ks = assoc_keys(rs);
    assert forall|i: int, j: int| 0 <= i < j < ks.push(key).len() implies ks.push(key)[i]
        != ks.push(key)[j] by {
        if j < ks.len() {
        } else {
            assert(ks.push(key)[i] == ks[i]);
        }
    }
}

/// Whatever occurs among the keys still occurs after a push.
pub proof fn lemma_keys_contains_push(ids: Seq<Seq<char>>, x: Seq<char>, y: Seq<char>)
    requires
        assoc_contains(ids, x),
    ensures
        assoc_contains(ids.push(y), x),
{
    let i = choose|i: int| 0 <= i < ids.len() && ids[i] == x;
    assert(ids.push(y)[i] == x);
}

/// If something occurs among the keys after a push, it was there before or
/// is the pushed key.
pub proof fn lemma_keys_contains_push_inv(ids: Seq<Seq<char>>, x: Seq<char>, y: Seq<char>)
    requires
        assoc_contains(ids.push(y), x),
    ensures
        assoc_contains(ids, x) || x == y,
{
    let i = choose|i: int| 0 <= i < ids.push(y).len() && ids.push(y)[i] == x;
    if i < ids.len() {
        assert(ids[i] == x);
    }
}

/// A pushed entry leaves every other key's lookup as it was.
pub proof fn lemma_assoc_push<V>(rs: Seq<(Seq<char>, V)>, key: Seq<char>, v: V, k: Seq<char>)
    requires
        k != key,
    ensures
        assoc_lookup(rs.push((key, v)), k) == assoc_lookup(rs, k),
    decreases rs.len(),
{
    if rs.len() == 0 {
        assert(rs.push((key, v))[0] == (key, v));
        assert(rs.push((key, v)).drop_first() =~= Seq::<(Seq<char>, V)>::empty());
        assert(assoc_lookup(rs.push((key, v)), k) == assoc_lookup(
            rs.push((key, v)).drop_first(),
            k,
        ));
    } else {
        assert(rs.push((key, v))[0] == rs[0]);
        if rs[0].0 == k {
            assert(assoc_lookup(rs.push((key, v)), k) == Some(rs[0].1));
            assert(assoc_lookup(rs, k) == Some(rs[0].1));
        } else {
            assert(rs.push((key, v)).drop_first() =~= rs.drop_first().push((key, v)));
            lemma_assoc_push(rs.drop_first(), key, v, k);
            assert(assoc_lookup(rs.push((key, v)), k) == assoc_lookup(
                rs.drop_first().push((key, v)),
                k,
            ));
        }
    }
}

/// Updating the value at `i` changes the lookup of its key and no other.
pub proof fn lemma_assoc_update<V>(rs: Seq<(Seq<char>, V)>, i: int, v: V)
    requires
        assoc_distinct(assoc_keys(rs)),
        0 <= i < rs.len(),
    ensures
        forall|k: Seq<char>|
            assoc_lookup(rs.update(i, (rs[i].0, v)), k) == (if k == rs[i].0 {
                Some(v)
            } else {
                assoc_lookup(rs, k)
            }),
    decreases rs.len(),
{
    let rs2 = rs.update(i, (rs[i].0, v));
    assert(forall|j: int| 0 <= j < rs.len() ==> assoc_keys(rs)[j] == rs[j].0);
    assert forall|k: Seq<char>|
        assoc_lookup(rs2, k) == (if k == rs[i].0 {
            Some(v)
        } else {
            assoc_lookup(rs, k)
        }) by {
        if i == 0 {
            if k != rs[0].0 {
                assert(rs2.drop_first() =~= rs.drop_first());
            }
        } else {
            assert(assoc_keys(rs)[0] != assoc_keys(rs)[i]);
            assert(assoc_keys(rs.drop_first()) =~= assoc_keys(rs).drop_first());
            assert(assoc_distinct(assoc_keys(rs.drop_first()))) by {
                assert forall|p: int, q: int|
                    0 <= p < q < assoc_keys(rs.drop_first()).len() implies assoc_keys(
                    rs.drop_first(),
                )[p] != assoc_keys(rs.drop_first())[q] by {
                    assert(assoc_keys(rs.drop_first())[p] == assoc_keys(rs)[p + 1]);
                    assert(assoc_keys(rs.drop_first())[q] == assoc_keys(rs)[q + 1]);
                }
            }
            assert(rs.drop_first()[i - 1] == rs[i]);
            assert(rs2.drop_first() =~= rs.drop_first().update(i - 1, (rs[i].0, v)));
            lemma_assoc_update(rs.drop_first(), i - 1, v);
            assert(rs2[0] == rs[0]);
            assert(assoc_lookup(rs2.drop_first(), k) == (if k == rs[i].0 {
                Some(v)
            } else {
                assoc_lookup(rs.drop_first(), k)
            }));
        }
    }
}

} // verus!
