//! Association lists: the mathematical model behind every per-phase map of
//! the engine (night actions, votes, verdicts, poll handles).  A map is a
//! sequence of `(key, value)` pairs with pairwise distinct keys, kept in
//! insertion order.

use vstd::prelude::*;

verus! {

/// First value bound to `key`, if any.
pub open spec fn alist_lookup<T>(s: Seq<(i64, T)>, key: i64) -> Option<T>
    decreases s.len(),
{
    if s.len() == 0 {
        None
    } else if s[0].0 == key {
        Some(s[0].1)
    } else {
        alist_lookup(s.drop_first(), key)
    }
}

pub open spec fn alist_has<T>(s: Seq<(i64, T)>, key: i64) -> bool {
    alist_lookup(s, key) is Some
}

/// Replaces the binding of `key` if present, else appends it.
pub open spec fn alist_upsert<T>(s: Seq<(i64, T)>, key: i64, value: T) -> Seq<(i64, T)>
    decreases s.len(),
{
    if s.len() == 0 {
        seq![(key, value)]
    } else if s[0].0 == key {
        seq![(key, value)] + s.drop_first()
    } else {
        seq![s[0]] + alist_upsert(s.drop_first(), key, value)
    }
}

/// The keys are pairwise distinct, so `alist_lookup` finds the only binding.
pub open spec fn alist_keys_distinct<T>(s: Seq<(i64, T)>) -> bool {
    forall|i: int, j: int| 0 <= i < j < s.len() ==> (#[trigger] s[i]).0 != (#[trigger] s[j]).0
}

pub proof fn lemma_lookup_some_key_present<T>(s: Seq<(i64, T)>, key: i64)
    ensures
        alist_has(s, key) <==> exists|i: int| 0 <= i < s.len() && (#[trigger] s[i]).0 == key,
    decreases s.len(),
{
    if s.len() > 0 {
        lemma_lookup_some_key_present(s.drop_first(), key);
        if s[0].0 != key {
            assert(forall|i: int|
                0 < i < s.len() ==> s.drop_first()[i - 1] == #[trigger] s[i]);
        }
    }
}

/// After an upsert, `key` is bound to `value` and every other key keeps its
/// binding; distinctness of keys is preserved.
pub proof fn lemma_upsert_props<T>(s: Seq<(i64, T)>, key: i64, value: T)
    requires
        alist_keys_distinct(s),
    ensures
        alist_keys_distinct(alist_upsert(s, key, value)),
        alist_lookup(alist_upsert(s, key, value), key) == Some(value),
        forall|k: i64| k != key ==> alist_lookup(alist_upsert(s, key, value), k)
            == alist_lookup(s, k),
    decreases s.len(),
{
    let r = alist_upsert(s, key, value);
    if s.len() == 0 {
        assert(r =~= seq![(key, value)]);
        assert forall|k: i64| k != key implies alist_lookup(r, k) == alist_lookup(s, k) by {
            assert(alist_lookup(r.drop_first(), k) is None);
        }
    } else if s[0].0 == key {
        assert(r.drop_first() =~= s.drop_first());
        assert forall|k: i64| k != key implies alist_lookup(r, k) == alist_lookup(s, k) by {
            assert(alist_lookup(r, k) == alist_lookup(r.drop_first(), k));
            assert(alist_lookup(s, k) == alist_lookup(s.drop_first(), k));
        }
        assert(forall|i: int, j: int| 0 <= i < j < s.len() ==> r[i].0 != r[j].0) by {
            assert(forall|i: int| 0 < i < s.len() ==> r[i] == s[i]);
        }
    } else {
        assert(alist_keys_distinct(s.drop_first())) by {
            assert(forall|i: int, j: int|
                0 <= i < j < s.drop_first().len()
                    ==> (#[trigger] s.drop_first()[i]).0 != (#[trigger] s.drop_first()[j]).0)
                by {
                assert(forall|i: int|
                    0 <= i < s.drop_first().len() ==> #[trigger] s.drop_first()[i] == s[i + 1]);
            }
        }
        lemma_upsert_props(s.drop_first(), key, value);
        let rr = alist_upsert(s.drop_first(), key, value);
        assert(r == seq![s[0]] + rr);
        assert(r[0] == s[0]);
        assert(r.drop_first() =~= rr);
        // the head key is absent from the distinct tail, so it survives the upsert
        assert(alist_lookup(r, s[0].0) == Some(s[0].1));
        assert forall|k: i64| k != key implies alist_lookup(r, k) == alist_lookup(s, k) by {
            if k != s[0].0 {
                assert(alist_lookup(r, k) == alist_lookup(rr, k));
                assert(alist_lookup(s, k) == alist_lookup(s.drop_first(), k));
            }
        }
        assert(forall|i: int, j: int| 0 <= i < j < r.len() ==> r[i].0 != r[j].0) by {
            assert(forall|j: int| 0 < j < r.len() ==> r[j] == rr[j - 1]);
            assert forall|j: int| 0 < j < r.len() implies r[0].0 != (#[trigger] r[j]).0 by {
                if rr[j - 1].0 == s[0].0 {
                    // a tail binding with the head's key would contradict either
                    // distinctness of s or key != s[0].0
                    assert(alist_lookup(rr, s[0].0) == alist_lookup(s.drop_first(), s[0].0));
                    lemma_lookup_some_key_present(rr, s[0].0);
                    lemma_lookup_some_key_present(s.drop_first(), s[0].0);
                    let w = choose|w: int|
                        0 <= w < s.drop_first().len() && (#[trigger] s.drop_first()[w]).0
                            == s[0].0;
                    assert(s[w + 1].0 == s[0].0);
                }
            }
        }
    }
}

/// Recording twice for the same key keeps only the second value: the first
/// upsert is fully absorbed by the second.
pub proof fn lemma_upsert_absorbs<T>(s: Seq<(i64, T)>, key: i64, v1: T, v2: T)
    ensures
        alist_upsert(alist_upsert(s, key, v1), key, v2) =~= alist_upsert(s, key, v2),
    decreases s.len(),
{
    if s.len() == 0 {
    } else if s[0].0 == key {
        assert(alist_upsert(s, key, v1).drop_first() =~= s.drop_first());
        assert(alist_upsert(s, key, v2).drop_first() =~= s.drop_first());
    } else {
        lemma_upsert_absorbs(s.drop_first(), key, v1, v2);
        assert(alist_upsert(s, key, v1)[0] == s[0]);
        assert(alist_upsert(s, key, v1).drop_first() =~= alist_upsert(s.drop_first(), key, v1));
        assert(alist_upsert(alist_upsert(s, key, v1), key, v2).drop_first()
            =~= alist_upsert(alist_upsert(s.drop_first(), key, v1), key, v2));
        assert(alist_upsert(s, key, v2).drop_first() =~= alist_upsert(s.drop_first(), key, v2));
    }
}


/// If `key` first occurs at position `i`, an upsert is an in-place update.
pub proof fn lemma_upsert_found<T>(s: Seq<(i64, T)>, key: i64, value: T, i: int)
    requires
        0 <= i < s.len(),
        s[i].0 == key,
        forall|j: int| 0 <= j < i ==> (#[trigger] s[j]).0 != key,
    ensures
        alist_upsert(s, key, value) =~= s.update(i, (key, value)),
    decreases i,
{
    if i == 0 {
        assert(alist_upsert(s, key, value) =~= s.update(0, (key, value)));
    } else {
        assert(s[0].0 != key);
        assert(forall|j: int|
            0 <= j < s.drop_first().len() ==> #[trigger] s.drop_first()[j] == s[j + 1]);
        lemma_upsert_found(s.drop_first(), key, value, i - 1);
        assert(alist_upsert(s, key, value) =~= seq![s[0]] + s.drop_first().update(
            i - 1,
            (key, value),
        ));
    }
}

/// If `key` is absent, an upsert appends the binding.
pub proof fn lemma_upsert_absent<T>(s: Seq<(i64, T)>, key: i64, value: T)
    requires
        forall|j: int| 0 <= j < s.len() ==> (#[trigger] s[j]).0 != key,
    ensures
        alist_upsert(s, key, value) =~= s.push((key, value)),
    decreases s.len(),
{
    if s.len() > 0 {
        assert(forall|j: int|
            0 <= j < s.drop_first().len() ==> #[trigger] s.drop_first()[j] == s[j + 1]);
        lemma_upsert_absent(s.drop_first(), key, value);
    }
}

/// If `key` does not occur before position `i`, looking the whole list up is
/// the same as looking up from `i` on.
pub proof fn lemma_lookup_skip<T>(s: Seq<(i64, T)>, key: i64, i: int)
    requires
        0 <= i <= s.len(),
        forall|j: int| 0 <= j < i ==> (#[trigger] s[j]).0 != key,
    ensures
        alist_lookup(s, key) == alist_lookup(s.subrange(i, s.len() as int), key),
    decreases i,
{
    if i > 0 {
        assert(s[0].0 != key);
        assert(forall|j: int|
            0 <= j < s.drop_first().len() ==> #[trigger] s.drop_first()[j] == s[j + 1]);
        lemma_lookup_skip(s.drop_first(), key, i - 1);
        assert(s.drop_first().subrange(i - 1, s.drop_first().len() as int) =~= s.subrange(
            i,
            s.len() as int,
        ));
    } else {
        assert(s.subrange(0, s.len() as int) =~= s);
    }
}


/// Every binding of an upserted list is the new binding or one of the old
/// ones.
pub proof fn lemma_upsert_entries<T>(s: Seq<(i64, T)>, key: i64, value: T)
    ensures
        forall|k: int|
            0 <= k < alist_upsert(s, key, value).len() ==> (#[trigger] alist_upsert(
                s,
                key,
                value,
            )[k] == (key, value) || s.contains(alist_upsert(s, key, value)[k])),
    decreases s.len(),
{
    let r = alist_upsert(s, key, value);
    if s.len() == 0 {
    } else if s[0].0 == key {
        assert forall|k: int| 0 <= k < r.len() implies (#[trigger] r[k] == (key, value)
            || s.contains(r[k])) by {
            if k > 0 {
                assert(r[k] == s[k]);
            }
        }
    } else {
        lemma_upsert_entries(s.drop_first(), key, value);
        let rr = alist_upsert(s.drop_first(), key, value);
        assert forall|k: int| 0 <= k < r.len() implies (#[trigger] r[k] == (key, value)
            || s.contains(r[k])) by {
            if k == 0 {
                assert(r[0] == s[0]);
            } else {
                assert(r[k] == rr[k - 1]);
                if rr[k - 1] != (key, value) {
                    assert(s.drop_first().contains(rr[k - 1]));
                    let w = choose|w: int|
                        0 <= w < s.drop_first().len() && s.drop_first()[w] == rr[k - 1];
                    assert(s[w + 1] == rr[k - 1]);
                }
            }
        }
    }
}


/// A first occurrence at position `i` settles the lookup.
pub proof fn lemma_lookup_at<T>(s: Seq<(i64, T)>, key: i64, i: int)
    requires
        0 <= i < s.len(),
        s[i].0 == key,
        forall|j: int| 0 <= j < i ==> (#[trigger] s[j]).0 != key,
    ensures
        alist_lookup(s, key) == Some(s[i].1),
{
    lemma_lookup_skip(s, key, i);
    let sub = s.subrange(i, s.len() as int);
    assert(sub[0] == s[i]);
    assert(alist_lookup(sub, key) == Some(sub[0].1));
}

/// A key that occurs nowhere has no binding.
pub proof fn lemma_lookup_none<T>(s: Seq<(i64, T)>, key: i64)
    requires
        forall|j: int| 0 <= j < s.len() ==> (#[trigger] s[j]).0 != key,
    ensures
        alist_lookup(s, key) is None,
{
    lemma_lookup_skip(s, key, s.len() as int);
    assert(s.subrange(s.len() as int, s.len() as int).len() == 0);
}


/// Removes the first binding of `key`, if any.
pub open spec fn alist_remove<T>(s: Seq<(i64, T)>, key: i64) -> Seq<(i64, T)>
    decreases s.len(),
{
    if s.len() == 0 {
        s
    } else if s[0].0 == key {
        s.drop_first()
    } else {
        seq![s[0]] + alist_remove(s.drop_first(), key)
    }
}

/// If `key` first occurs at position `i`, removal deletes that position.
pub proof fn lemma_remove_found<T>(s: Seq<(i64, T)>, key: i64, i: int)
    requires
        0 <= i < s.len(),
        s[i].0 == key,
        forall|j: int| 0 <= j < i ==> (#[trigger] s[j]).0 != key,
    ensures
        alist_remove(s, key) =~= s.remove(i),
    decreases i,
{
    if i == 0 {
        assert(alist_remove(s, key) =~= s.remove(0));
    } else {
        assert(s[0].0 != key);
        assert(forall|j: int|
            0 <= j < s.drop_first().len() ==> #[trigger] s.drop_first()[j] == s[j + 1]);
        lemma_remove_found(s.drop_first(), key, i - 1);
        assert(alist_remove(s, key) =~= seq![s[0]] + s.drop_first().remove(i - 1));
    }
}

/// If `key` is absent, removal changes nothing.
pub proof fn lemma_remove_absent<T>(s: Seq<(i64, T)>, key: i64)
    requires
        forall|j: int| 0 <= j < s.len() ==> (#[trigger] s[j]).0 != key,
    ensures
        alist_remove(s, key) =~= s,
    decreases s.len(),
{
    if s.len() > 0 {
        assert(forall|j: int|
            0 <= j < s.drop_first().len() ==> #[trigger] s.drop_first()[j] == s[j + 1]);
        lemma_remove_absent(s.drop_first(), key);
    }
}

/// After a removal, `key` is unbound, every other key keeps its binding,
/// and distinctness is preserved.
pub proof fn lemma_remove_props<T>(s: Seq<(i64, T)>, key: i64)
    requires
        alist_keys_distinct(s),
    ensures
        alist_keys_distinct(alist_remove(s, key)),
        alist_lookup(alist_remove(s, key), key) is None,
        forall|k: i64| k != key ==> alist_lookup(alist_remove(s, key), k) == alist_lookup(s, k),
    decreases s.len(),
{
    let r = alist_remove(s, key);
    if s.len() == 0 {
    } else {
        assert(alist_keys_distinct(s.drop_first())) by {
            assert(forall|j: int|
                0 <= j < s.drop_first().len() ==> #[trigger] s.drop_first()[j] == s[j + 1]);
        }
        if s[0].0 == key {
            assert(r == s.drop_first());
            lemma_lookup_some_key_present(s.drop_first(), key);
            if alist_has(s.drop_first(), key) {
                let w = choose|w: int|
                    0 <= w < s.drop_first().len() && (#[trigger] s.drop_first()[w]).0 == key;
                assert(s[w + 1].0 == key);
                assert(false);
            }
            assert forall|k: i64| k != key implies alist_lookup(r, k) == alist_lookup(s, k) by {
                assert(alist_lookup(s, k) == alist_lookup(s.drop_first(), k));
            }
        } else {
            lemma_remove_props(s.drop_first(), key);
            let rr = alist_remove(s.drop_first(), key);
            assert(r == seq![s[0]] + rr);
            assert(r[0] == s[0]);
            assert(r.drop_first() =~= rr);
            assert(alist_lookup(r, key) == alist_lookup(rr, key));
            assert forall|k: i64| k != key implies alist_lookup(r, k) == alist_lookup(s, k) by {
                if k != s[0].0 {
                    assert(alist_lookup(r, k) == alist_lookup(rr, k));
                    assert(alist_lookup(s, k) == alist_lookup(s.drop_first(), k));
                }
            }
            // entries of rr come from the tail of s, so the head key stays unique
            assert forall|j: int| 0 < j < r.len() implies r[0].0 != (#[trigger] r[j]).0 by {
                assert(r[j] == rr[j - 1]);
                if rr[j - 1].0 == s[0].0 {
                    lemma_lookup_some_key_present(rr, s[0].0);
                    assert(alist_lookup(rr, s[0].0) == alist_lookup(s.drop_first(), s[0].0));
                    lemma_lookup_some_key_present(s.drop_first(), s[0].0);
                    let w = choose|w: int|
                        0 <= w < s.drop_first().len() && (#[trigger] s.drop_first()[w]).0
                            == s[0].0;
                    assert(s[w + 1].0 == s[0].0);
                }
            }
            assert(alist_keys_distinct(r)) by {
                assert(forall|j: int| 0 < j < r.len() ==> #[trigger] r[j] == rr[j - 1]);
            }
        }
    }
}

} // verus!
