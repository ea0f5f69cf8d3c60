//! Facts about the entries of a dictionary: where a key belongs, and what
//! binding, looking up and taking out do.

use vstd::prelude::*;
use crate::bencode::order::{
    lemma_lt_asymmetric, lemma_lt_irreflexive, lemma_lt_total, lemma_lt_transitive,
};
use crate::bencode::value::{
    bytes_lt, has_key, keys_ascending, lookup, with_entries, with_entry, without_key, Value,
};

verus! {

/// `p` is the place of `key` among `entries`: every entry from `p` on has a
/// greater key, and the entry before `p`, if there is one, has not.
pub open spec fn is_slot(entries: Seq<(Seq<u8>, Value)>, key: Seq<u8>, p: int) -> bool {
    &&& 0 <= p <= entries.len()
    &&& forall|j: int| p <= j < entries.len() ==> bytes_lt(key, #[trigger] entries[j].0)
    &&& p > 0 ==> !bytes_lt(key, entries[p - 1].0)
}

/// What binding a key does to a sequence of entries, told by the key's place.
pub proof fn lemma_with_entry_at(
    entries: Seq<(Seq<u8>, Value)>,
    key: Seq<u8>,
    value: Value,
    p: int,
)
    requires
        is_slot(entries, key, p),
    ensures
        p > 0 && entries[p - 1].0 == key ==> with_entry(entries, key, value) == entries.update(
            p - 1,
            (key, value),
        ),
        !(p > 0 && entries[p - 1].0 == key) ==> with_entry(entries, key, value) == entries.insert(
            p,
            (key, value),
        ),
    decreases entries.len() - p,
{
    if entries.len() == 0 {
        assert(seq![(key, value)] =~= entries.insert(p, (key, value)));
    } else {
        let last = entries.last();
        if p == entries.len() {
            if last.0 == key {
                assert(entries.drop_last().push((key, value)) =~= entries.update(
                    p - 1,
                    (key, value),
                ));
            } else {
                lemma_lt_total(last.0, key);
                assert(entries.push((key, value)) =~= entries.insert(p, (key, value)));
            }
        } else {
            assert(bytes_lt(key, last.0));
            lemma_lt_irreflexive(key);
            lemma_lt_asymmetric(key, last.0);
            let front = entries.drop_last();
            assert(is_slot(front, key, p)) by {
                assert forall|j: int| p <= j < front.len() implies bytes_lt(
                    key,
                    #[trigger] front[j].0,
                ) by {
                    assert(front[j] == entries[j]);
                }
            }
            lemma_with_entry_at(front, key, value, p);
            if p > 0 && entries[p - 1].0 == key {
                assert(front.update(p - 1, (key, value)).push(last) =~= entries.update(
                    p - 1,
                    (key, value),
                ));
            } else {
                assert(front.insert(p, (key, value)).push(last) =~= entries.insert(
                    p,
                    (key, value),
                ));
            }
        }
    }
}

/// In ascending entries, every key before the place of `key` is less than
/// `key` or, just before the place, equal to it.
pub proof fn lemma_before_slot(entries: Seq<(Seq<u8>, Value)>, key: Seq<u8>, p: int, j: int)
    requires
        keys_ascending(entries),
        is_slot(entries, key, p),
        0 <= j < p,
    ensures
        bytes_lt(entries[j].0, key) || (j == p - 1 && entries[j].0 == key),
{
    lemma_lt_total(entries[p - 1].0, key);
    if j < p - 1 {
        assert(bytes_lt(entries[j].0, entries[p - 1].0));
        if entries[p - 1].0 != key {
            lemma_lt_transitive(entries[j].0, entries[p - 1].0, key);
        }
    }
}

/// What is stored under a key in ascending entries, told by the key's place.
pub proof fn lemma_lookup_at(entries: Seq<(Seq<u8>, Value)>, key: Seq<u8>, p: int)
    requires
        keys_ascending(entries),
        is_slot(entries, key, p),
    ensures
        p > 0 && entries[p - 1].0 == key ==> lookup(entries, key) == Some(entries[p - 1].1)
            && has_key(entries, key),
        !(p > 0 && entries[p - 1].0 == key) ==> lookup(entries, key) == None::<Value> && !has_key(
            entries,
            key,
        ),
    decreases entries.len(),
{
    if !(p > 0 && entries[p - 1].0 == key) {
        assert forall|i: int| 0 <= i < entries.len() implies #[trigger] entries[i].0 != key by {
            if i < p {
                lemma_before_slot(entries, key, p, i);
                lemma_lt_irreflexive(key);
            } else {
                lemma_lt_irreflexive(key);
            }
        }
    }
    if entries.len() > 0 {
        let front = entries.drop_last();
        if p == entries.len() {
            if entries.last().0 != key {
                lemma_lookup_absent(front, key);
            }
        } else {
            lemma_lt_irreflexive(key);
            assert(bytes_lt(key, entries.last().0));
            assert(is_slot(front, key, p)) by {
                assert forall|j: int| p <= j < front.len() implies bytes_lt(
                    key,
                    #[trigger] front[j].0,
                ) by {
                    assert(front[j] == entries[j]);
                }
            }
            assert(keys_ascending(front)) by {
                assert forall|i: int, j: int| 0 <= i < j < front.len() implies bytes_lt(
                    #[trigger] front[i].0,
                    #[trigger] front[j].0,
                ) by {
                    assert(front[i] == entries[i] && front[j] == entries[j]);
                }
            }
            lemma_lookup_at(front, key, p);
        }
    }
}

/// A key is bound to something exactly where some entry has it.
pub proof fn lemma_lookup_has_key(entries: Seq<(Seq<u8>, Value)>, key: Seq<u8>)
    ensures
        lookup(entries, key) is Some <==> has_key(entries, key),
    decreases entries.len(),
{
    if entries.len() > 0 {
        let front = entries.drop_last();
        lemma_lookup_has_key(front, key);
        if entries.last().0 != key {
            if has_key(entries, key) {
                let i = choose|i: int| 0 <= i < entries.len() && #[trigger] entries[i].0 == key;
                assert(front[i].0 == key);
            }
            if has_key(front, key) {
                let i = choose|i: int| 0 <= i < front.len() && #[trigger] front[i].0 == key;
                assert(entries[i].0 == key);
            }
        }
    }
}

/// A key that no entry has is bound to nothing, and taking it out changes
/// nothing.
pub proof fn lemma_lookup_absent(entries: Seq<(Seq<u8>, Value)>, key: Seq<u8>)
    requires
        forall|i: int| 0 <= i < entries.len() ==> #[trigger] entries[i].0 != key,
    ensures
        lookup(entries, key) == None::<Value>,
        without_key(entries, key) == entries,
    decreases entries.len(),
{
    if entries.len() > 0 {
        let front = entries.drop_last();
        assert forall|i: int| 0 <= i < front.len() implies #[trigger] front[i].0 != key by {
            assert(front[i] == entries[i]);
        }
        lemma_lookup_absent(front, key);
        assert(front.push(entries.last()) =~= entries);
    }
}

/// Taking out the one entry that has the key.
pub proof fn lemma_without_key_at(entries: Seq<(Seq<u8>, Value)>, key: Seq<u8>, i: int)
    requires
        0 <= i < entries.len(),
        entries[i].0 == key,
        forall|j: int| 0 <= j < entries.len() && j != i ==> #[trigger] entries[j].0 != key,
    ensures
        without_key(entries, key) == entries.remove(i),
        lookup(entries, key) == Some(entries[i].1),
    decreases entries.len(),
{
    let front = entries.drop_last();
    if i == entries.len() - 1 {
        assert forall|j: int| 0 <= j < front.len() implies #[trigger] front[j].0 != key by {
            assert(front[j] == entries[j]);
        }
        lemma_lookup_absent(front, key);
        assert(front =~= entries.remove(i));
    } else {
        assert(front[i] == entries[i]);
        assert forall|j: int| 0 <= j < front.len() && j != i implies #[trigger] front[j].0
            != key by {
            assert(front[j] == entries[j]);
        }
        lemma_without_key_at(front, key, i);
        assert(front.remove(i).push(entries.last()) =~= entries.remove(i));
    }
}

/// Binding a key in ascending entries leaves them ascending.
pub proof fn lemma_with_entry_ascending(
    entries: Seq<(Seq<u8>, Value)>,
    key: Seq<u8>,
    value: Value,
    p: int,
)
    requires
        keys_ascending(entries),
        is_slot(entries, key, p),
    ensures
        keys_ascending(with_entry(entries, key, value)),
{
    lemma_with_entry_at(entries, key, value, p);
    let after = with_entry(entries, key, value);
    if p > 0 && entries[p - 1].0 == key {
        assert forall|i: int, j: int| 0 <= i < j < after.len() implies bytes_lt(
            #[trigger] after[i].0,
            #[trigger] after[j].0,
        ) by {
            assert(after[i].0 == entries[i].0 && after[j].0 == entries[j].0);
        }
    } else {
        assert forall|i: int, j: int| 0 <= i < j < after.len() implies bytes_lt(
            #[trigger] after[i].0,
            #[trigger] after[j].0,
        ) by {
            if j < p {
                assert(after[i] == entries[i] && after[j] == entries[j]);
            } else if j == p {
                assert(after[i] == entries[i]);
                lemma_before_slot(entries, key, p, i);
            } else if i < p {
                assert(after[i] == entries[i] && after[j] == entries[j - 1]);
                if j - 1 == i {
                    // not possible: i < p <= j - 1
                }
            } else if i == p {
                assert(after[j] == entries[j - 1]);
            } else {
                assert(after[i] == entries[i - 1] && after[j] == entries[j - 1]);
            }
        }
    }
}

/// A key that comes after every key of the entries is bound at their end.
pub proof fn lemma_with_entry_last(entries: Seq<(Seq<u8>, Value)>, key: Seq<u8>, value: Value)
    requires
        entries.len() > 0 ==> bytes_lt(entries.last().0, key),
    ensures
        with_entry(entries, key, value) == entries.push((key, value)),
{
    if entries.len() == 0 {
        assert(seq![(key, value)] =~= entries.push((key, value)));
    } else {
        lemma_lt_irreflexive(key);
    }
}

/// Taking one entry out of ascending entries leaves them ascending.
pub proof fn lemma_remove_ascending(entries: Seq<(Seq<u8>, Value)>, i: int)
    requires
        keys_ascending(entries),
        0 <= i < entries.len(),
    ensures
        keys_ascending(entries.remove(i)),
{
    let after = entries.remove(i);
    assert forall|a: int, b: int| 0 <= a < b < after.len() implies bytes_lt(
        #[trigger] after[a].0,
        #[trigger] after[b].0,
    ) by {
        let a0 = if a < i { a } else { a + 1 };
        let b0 = if b < i { b } else { b + 1 };
        assert(after[a] == entries[a0] && after[b] == entries[b0]);
    }
}

/// In ascending entries no two entries have the same key.
pub proof fn lemma_ascending_unique(entries: Seq<(Seq<u8>, Value)>, i: int, j: int)
    requires
        keys_ascending(entries),
        0 <= i < entries.len(),
        0 <= j < entries.len(),
        i != j,
    ensures
        entries[i].0 != entries[j].0,
{
    lemma_lt_irreflexive(entries[i].0);
    if i < j {
        assert(bytes_lt(entries[i].0, entries[j].0));
    } else {
        assert(bytes_lt(entries[j].0, entries[i].0));
    }
}

/// Taking one key out does not change what another key is bound to.
pub proof fn lemma_lookup_without_other(
    entries: Seq<(Seq<u8>, Value)>,
    gone: Seq<u8>,
    key: Seq<u8>,
)
    requires
        gone != key,
    ensures
        lookup(without_key(entries, gone), key) == lookup(entries, key),
    decreases entries.len(),
{
    if entries.len() > 0 {
        lemma_lookup_without_other(entries.drop_last(), gone, key);
        if entries.last().0 != gone {
            let shorter = without_key(entries.drop_last(), gone);
            assert(shorter.push(entries.last()).drop_last() =~= shorter);
        }
    }
}

/// After a key has been bound it is bound to the new value, and every other
/// key is bound as before.
pub proof fn lemma_lookup_with_entry(
    entries: Seq<(Seq<u8>, Value)>,
    bound: Seq<u8>,
    value: Value,
    key: Seq<u8>,
)
    ensures
        lookup(with_entry(entries, bound, value), key) == if key == bound {
            Some(value)
        } else {
            lookup(entries, key)
        },
    decreases entries.len(),
{
    if entries.len() == 0 {
        assert(seq![(bound, value)].drop_last() =~= entries);
    } else {
        let front = entries.drop_last();
        let last = entries.last();
        if last.0 == bound {
            assert(front.push((bound, value)).drop_last() =~= front);
        } else if bytes_lt(last.0, bound) {
            assert(entries.push((bound, value)).drop_last() =~= entries);
        } else {
            lemma_lookup_with_entry(front, bound, value, key);
            let grown = with_entry(front, bound, value);
            assert(grown.push(last).drop_last() =~= grown);
        }
    }
}

/// What entries bind a key to, told from their first entry and the rest.
pub proof fn lemma_lookup_front(entries: Seq<(Seq<u8>, Value)>, key: Seq<u8>)
    requires
        entries.len() > 0,
    ensures
        lookup(entries, key) == match lookup(entries.drop_first(), key) {
            Some(v) => Some(v),
            None => if entries[0].0 == key {
                Some(entries[0].1)
            } else {
                None
            },
        },
    decreases entries.len(),
{
    if entries.len() == 1 {
        assert(entries.drop_first() =~= Seq::empty());
        assert(entries.drop_last() =~= Seq::empty());
    } else {
        let front = entries.drop_last();
        lemma_lookup_front(front, key);
        assert(front.drop_first() =~= entries.drop_first().drop_last());
        assert(entries.drop_first().last() == entries.last());
        assert(front[0] == entries[0]);
    }
}

/// After pairs have been bound, a key that one of them has is bound to the
/// value of the last such pair, and every other key is bound as before.
pub proof fn lemma_lookup_with_entries(
    entries: Seq<(Seq<u8>, Value)>,
    pairs: Seq<(Seq<u8>, Value)>,
    key: Seq<u8>,
)
    ensures
        lookup(with_entries(entries, pairs), key) == match lookup(pairs, key) {
            Some(v) => Some(v),
            None => lookup(entries, key),
        },
    decreases pairs.len(),
{
    if pairs.len() > 0 {
        lemma_lookup_front(pairs, key);
        lemma_lookup_with_entry(entries, pairs[0].0, pairs[0].1, key);
        lemma_lookup_with_entries(
            with_entry(entries, pairs[0].0, pairs[0].1),
            pairs.drop_first(),
            key,
        );
    }
}

/// Every value of `entries` is free of the closing delimiter.
pub open spec fn all_complete(entries: Seq<(Seq<u8>, Value)>) -> bool {
    forall|i: int| 0 <= i < entries.len() ==> (#[trigger] entries[i]).1.complete()
}

/// Every value of `entries` has the property `good`.
pub open spec fn all_values(entries: Seq<(Seq<u8>, Value)>, good: spec_fn(Value) -> bool) -> bool {
    forall|i: int| 0 <= i < entries.len() ==> good(#[trigger] entries[i].1)
}

/// Binding a key to a value with a property keeps entries whose values all
/// have it.
pub proof fn lemma_with_entry_keeps(
    entries: Seq<(Seq<u8>, Value)>,
    key: Seq<u8>,
    value: Value,
    good: spec_fn(Value) -> bool,
)
    requires
        all_values(entries, good),
        good(value),
    ensures
        all_values(with_entry(entries, key, value), good),
    decreases entries.len(),
{
    if entries.len() > 0 {
        let front = entries.drop_last();
        let last = entries.last();
        assert(all_values(front, good)) by {
            assert forall|i: int| 0 <= i < front.len() implies good(#[trigger] front[i].1) by {
                assert(front[i] == entries[i]);
            }
        }
        assert(good(last.1));
        if last.0 == key {
        } else if bytes_lt(last.0, key) {
        } else {
            lemma_with_entry_keeps(front, key, value, good);
        }
    }
}

/// Taking a key out keeps entries whose values all have a property.
pub proof fn lemma_without_key_keeps(
    entries: Seq<(Seq<u8>, Value)>,
    key: Seq<u8>,
    good: spec_fn(Value) -> bool,
)
    requires
        all_values(entries, good),
    ensures
        all_values(without_key(entries, key), good),
        lookup(entries, key) matches Some(v) ==> good(v),
    decreases entries.len(),
{
    if entries.len() > 0 {
        let front = entries.drop_last();
        assert(all_values(front, good)) by {
            assert forall|i: int| 0 <= i < front.len() implies good(#[trigger] front[i].1) by {
                assert(front[i] == entries[i]);
            }
        }
        assert(good(entries.last().1));
        lemma_without_key_keeps(front, key, good);
    }
}

/// Binding a key to a value that is free of the closing delimiter keeps the
/// entries free of it.
pub proof fn lemma_with_entry_complete(
    entries: Seq<(Seq<u8>, Value)>,
    key: Seq<u8>,
    value: Value,
)
    requires
        all_complete(entries),
        value.complete(),
    ensures
        all_complete(with_entry(entries, key, value)),
{
    let good = |v: Value| v.complete();
    lemma_with_entry_keeps(entries, key, value, good);
    let after = with_entry(entries, key, value);
    assert forall|i: int| 0 <= i < after.len() implies (#[trigger] after[i]).1.complete() by {
        assert(good(after[i].1));
    }
}

} // verus!
