//! A dictionary has one form: its entries in ascending key order, whatever
//! the order in which they were bound.

use vstd::prelude::*;
use crate::bencode::data::Data;
use crate::bencode::dictionary::Dictionary;
use crate::bencode::entries::{
    is_slot, lemma_ascending_unique, lemma_lookup_absent, lemma_lookup_has_key,
    lemma_lookup_with_entry, lemma_with_entry_ascending, lemma_without_key_at,
};
use crate::bencode::order::{lemma_lt_irreflexive, lemma_lt_transitive};
use crate::bencode::value::{
    bytes_lt, encoding, has_key, keys_ascending, lookup, with_entry, Value,
};

verus! {

/// Every key has a place among any entries.
pub proof fn lemma_slot_exists(entries: Seq<(Seq<u8>, Value)>, key: Seq<u8>) -> (p: int)
    ensures
        is_slot(entries, key, p),
    decreases entries.len(),
{
    if entries.len() == 0 {
        0
    } else if bytes_lt(key, entries.last().0) {
        let front = entries.drop_last();
        let p = lemma_slot_exists(front, key);
        assert forall|j: int| p <= j < entries.len() implies bytes_lt(
            key,
            #[trigger] entries[j].0,
        ) by {
            if j < front.len() {
                assert(front[j] == entries[j]);
            }
        }
        if p > 0 {
            assert(front[p - 1] == entries[p - 1]);
        }
        p
    } else {
        entries.len() as int
    }
}

/// Binding a key keeps ascending entries ascending.
pub proof fn lemma_binding_keeps_order(entries: Seq<(Seq<u8>, Value)>, key: Seq<u8>, value: Value)
    requires
        keys_ascending(entries),
    ensures
        keys_ascending(with_entry(entries, key, value)),
{
    let p = lemma_slot_exists(entries, key);
    lemma_with_entry_ascending(entries, key, value, p);
}

/// In ascending entries each key is bound to the value that stands with it.
proof fn lemma_lookup_own(entries: Seq<(Seq<u8>, Value)>, i: int)
    requires
        keys_ascending(entries),
        0 <= i < entries.len(),
    ensures
        lookup(entries, entries[i].0) == Some(entries[i].1),
{
    assert forall|j: int| 0 <= j < entries.len() && j != i implies #[trigger] entries[j].0
        != entries[i].0 by {
        lemma_ascending_unique(entries, j, i);
    }
    lemma_without_key_at(entries, entries[i].0, i);
}

/// The front of ascending entries is ascending.
proof fn lemma_front_ascending(entries: Seq<(Seq<u8>, Value)>)
    requires
        keys_ascending(entries),
        entries.len() > 0,
    ensures
        keys_ascending(entries.drop_last()),
{
    let front = entries.drop_last();
    assert forall|i: int, j: int| 0 <= i < j < front.len() implies bytes_lt(
        #[trigger] front[i].0,
        #[trigger] front[j].0,
    ) by {
        assert(front[i] == entries[i] && front[j] == entries[j]);
    }
}

/// No key of ascending entries comes after the last one.
proof fn lemma_last_is_greatest(entries: Seq<(Seq<u8>, Value)>, key: Seq<u8>)
    requires
        keys_ascending(entries),
        entries.len() > 0,
        has_key(entries, key),
    ensures
        !bytes_lt(entries.last().0, key),
{
    let i = choose|i: int| 0 <= i < entries.len() && #[trigger] entries[i].0 == key;
    lemma_lt_irreflexive(key);
    if i < entries.len() - 1 {
        assert(bytes_lt(entries[i].0, entries[entries.len() - 1].0));
        if bytes_lt(entries.last().0, key) {
            lemma_lt_transitive(key, entries.last().0, key);
        }
    }
}

/// Ascending entries are determined by what they bind each key to.
pub proof fn lemma_ascending_determined(a: Seq<(Seq<u8>, Value)>, b: Seq<(Seq<u8>, Value)>)
    requires
        keys_ascending(a),
        keys_ascending(b),
        forall|key: Seq<u8>| lookup(a, key) == lookup(b, key),
    ensures
        a == b,
    decreases a.len(),
{
    if a.len() == 0 {
        if b.len() > 0 {
            lemma_lookup_own(b, b.len() - 1);
            assert(lookup(a, b.last().0) == lookup(b, b.last().0));
        }
        assert(a =~= b);
    } else {
        let key = a.last().0;
        lemma_lookup_own(a, a.len() - 1);
        assert(lookup(b, key) == lookup(a, key));
        lemma_lookup_has_key(b, key);
        assert(b.len() > 0);
        // the last key of `b` is a key of `a`, and the other way round
        let other = b.last().0;
        lemma_lookup_own(b, b.len() - 1);
        assert(lookup(a, other) == lookup(b, other));
        lemma_lookup_has_key(a, other);
        lemma_last_is_greatest(a, other);
        lemma_last_is_greatest(b, key);
        crate::bencode::order::lemma_lt_total(key, other);
        assert(key == other);
        assert(a.last() == b.last());
        let front_a = a.drop_last();
        let front_b = b.drop_last();
        lemma_front_ascending(a);
        lemma_front_ascending(b);
        assert forall|k: Seq<u8>| lookup(front_a, k) == lookup(front_b, k) by {
            if k == key {
                assert forall|i: int| 0 <= i < front_a.len() implies #[trigger] front_a[i].0
                    != key by {
                    assert(front_a[i] == a[i]);
                    lemma_ascending_unique(a, i, a.len() - 1);
                }
                assert forall|i: int| 0 <= i < front_b.len() implies #[trigger] front_b[i].0
                    != key by {
                    assert(front_b[i] == b[i]);
                    lemma_ascending_unique(b, i, b.len() - 1);
                }
                lemma_lookup_absent(front_a, key);
                lemma_lookup_absent(front_b, key);
            } else {
                assert(lookup(a, k) == lookup(b, k));
            }
        }
        lemma_ascending_determined(front_a, front_b);
        assert(a =~= front_a.push(a.last()));
        assert(b =~= front_b.push(b.last()));
    }
}

/// The order in which two keys are bound does not show in the entries, and
/// so not in the wire form of the dictionary: the keys stand in ascending
/// order either way.
pub proof fn lemma_binding_order(
    entries: Seq<(Seq<u8>, Value)>,
    first: Seq<u8>,
    first_value: Value,
    second: Seq<u8>,
    second_value: Value,
)
    requires
        keys_ascending(entries),
        first != second,
    ensures
        with_entry(with_entry(entries, first, first_value), second, second_value) == with_entry(
            with_entry(entries, second, second_value),
            first,
            first_value,
        ),
        keys_ascending(
            with_entry(with_entry(entries, first, first_value), second, second_value),
        ),
        encoding(
            Value::Dict(with_entry(with_entry(entries, first, first_value), second, second_value)),
        ) == encoding(
            Value::Dict(with_entry(with_entry(entries, second, second_value), first, first_value)),
        ),
{
    let one = with_entry(entries, first, first_value);
    let two = with_entry(entries, second, second_value);
    let forward = with_entry(one, second, second_value);
    let backward = with_entry(two, first, first_value);
    lemma_binding_keeps_order(entries, first, first_value);
    lemma_binding_keeps_order(entries, second, second_value);
    lemma_binding_keeps_order(one, second, second_value);
    lemma_binding_keeps_order(two, first, first_value);
    assert forall|key: Seq<u8>| lookup(forward, key) == lookup(backward, key) by {
        lemma_lookup_with_entry(entries, first, first_value, key);
        lemma_lookup_with_entry(entries, second, second_value, key);
        lemma_lookup_with_entry(one, second, second_value, key);
        lemma_lookup_with_entry(two, first, first_value, key);
    }
    lemma_ascending_determined(forward, backward);
}

/// Two dictionaries that bind every key alike have the same entries, hence
/// the same wire form.
pub proof fn lemma_one_form(a: Dictionary, b: Dictionary)
    requires
        a.wf(),
        b.wf(),
        forall|key: Seq<u8>| lookup(a@, key) == lookup(b@, key),
    ensures
        a@ == b@,
        encoding(Data::Dict(a)@) == encoding(Data::Dict(b)@),
{
    lemma_ascending_determined(a@, b@);
}

} // verus!
