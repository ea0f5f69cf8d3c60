//! The bencode dictionary: byte-string keys in ascending order.

use vstd::prelude::*;
use vstd::slice::slice_to_vec;
use vstd::std_specs::cmp::PartialEqSpecImpl;
use vstd::string::StringSliceAdditionalSpecFns;
use crate::bencode::data::{
    data_equal, entries_view, lemma_data_in_range, reversed, Data, FromData, FromDataError,
};
use crate::bencode::entries::{
    all_complete, is_slot, lemma_ascending_unique, lemma_lookup_absent, lemma_lookup_at,
    lemma_remove_ascending, lemma_with_entry_ascending, lemma_with_entry_at,
    lemma_with_entry_complete, lemma_without_key_at,
};
use crate::bencode::order::{bytes_equal, bytes_less};
use crate::bencode::value::{
    bytes_lt, has_key, lookup, with_entries, with_entry, without_key, Value,
};

verus! {

/// A map from byte strings to values that is walked in ascending key order.
#[derive(Debug)]
pub struct Dictionary {
    entries: Vec<(Vec<u8>, Data)>,
}

impl View for Dictionary {
    type V = Seq<(Seq<u8>, Value)>;

    closed spec fn view(&self) -> Seq<(Seq<u8>, Value)>
        decreases self,
    {
        entries_view(self.entries@)
    }
}

/// The integers of the values of a dictionary fit their variants.
pub proof fn lemma_dictionary_in_range(dict: Dictionary)
    ensures
        Value::Dict(dict@).in_range(),
    decreases dict,
{
    assert forall|i: int| 0 <= i < dict@.len() implies (#[trigger] dict@[i]).1.in_range() by {
        lemma_data_in_range(dict.entries@[i].1);
    }
}

/// The models of a vector of pairs of a text key and a value.
pub open spec fn pairs_view(pairs: Seq<(&str, Data)>) -> Seq<(Seq<u8>, Value)> {
    Seq::new(pairs.len(), |i: int| (pairs[i].0.spec_bytes(), pairs[i].1@))
}

/// What the value under `key` converts to; nothing where the key is missing
/// or its value does not have the shape that `T` asks for.
pub open spec fn required<T: FromData>(entries: Seq<(Seq<u8>, Value)>, key: Seq<u8>) -> Option<
    T::Model,
> {
    match lookup(entries, key) {
        Some(v) => T::from_value(v),
        None => None,
    }
}

/// What the value under `key` converts to, if the key is there; nothing
/// where its value does not have the shape that `T` asks for.
pub open spec fn optional<T: FromData>(entries: Seq<(Seq<u8>, Value)>, key: Seq<u8>) -> Option<
    Option<T::Model>,
> {
    match lookup(entries, key) {
        Some(v) => match T::from_value(v) {
            Some(m) => Some(Some(m)),
            None => None,
        },
        None => Some(None),
    }
}

impl PartialEq for Dictionary {
    fn eq(&self, other: &Dictionary) -> (same: bool) {
        if self.entries.len() != other.entries.len() {
            return false;
        }
        let mut i: usize = 0;
        while i < self.entries.len()
            invariant
                i <= self.entries.len(),
                self.entries.len() == other.entries.len(),
                forall|k: int| 0 <= k < i ==> #[trigger] self@[k] == other@[k],
            decreases self.entries.len() - i,
        {
            if !bytes_equal(self.entries[i].0.as_slice(), other.entries[i].0.as_slice())
                || !data_equal(&self.entries[i].1, &other.entries[i].1) {
                assert(self@[i as int] != other@[i as int]);
                return false;
            }
            i += 1;
        }
        assert(self@ =~= other@);
        true
    }
}

impl PartialEqSpecImpl for Dictionary {
    open spec fn obeys_eq_spec() -> bool {
        true
    }

    open spec fn eq_spec(&self, other: &Dictionary) -> bool {
        self@ == other@
    }
}

impl FromData for Dictionary {
    type Model = Seq<(Seq<u8>, Value)>;

    open spec fn model(&self) -> Seq<(Seq<u8>, Value)> {
        self@
    }

    open spec fn from_value(v: Value) -> Option<Seq<(Seq<u8>, Value)>> {
        match v {
            Value::Dict(entries) => Some(entries),
            _ => None,
        }
    }

    fn from_data(data: Data) -> (r: Result<Dictionary, FromDataError>) {
        match data {
            Data::Dict(dict) => Ok(dict),
            _ => Err(FromDataError),
        }
    }
}

impl Clone for Dictionary {
    fn clone(&self) -> (copy: Dictionary)
        ensures
            copy@ == self@,
        decreases crate::bencode::value::entries_size(self@), 1nat,
    {
        let mut entries: Vec<(Vec<u8>, Data)> = Vec::new();
        let mut i: usize = 0;
        while i < self.entries.len()
            invariant
                i <= self.entries.len(),
                entries.len() == i,
                forall|k: int|
                    0 <= k < i ==> (#[trigger] entries@[k]).0@ == self.entries@[k].0@
                        && entries@[k].1@ == self.entries@[k].1@,
            decreases self.entries.len() - i,
        {
            proof {
                crate::bencode::value::lemma_entry_smaller(self@, i as int);
            }
            let key = slice_to_vec(self.entries[i].0.as_slice());
            let value = self.entries[i].1.clone();
            entries.push((key, value));
            i += 1;
        }
        let copy = Dictionary { entries };
        assert(copy@ =~= self@);
        copy
    }
}

impl Dictionary {
    /// The keys are strictly ascending, and so are those of every dictionary
    /// inside a value.
    pub open spec fn wf(&self) -> bool {
        Value::Dict(self@).canonical()
    }

    /// Every integer inside the values is held by the variant that the
    /// decoder chooses for it.
    pub closed spec fn normal(&self) -> bool
        decreases self,
    {
        forall|i: int| 0 <= i < self.entries@.len() ==> (#[trigger] self.entries@[i]).1.normal()
    }

    /// The empty dictionary.
    pub fn new() -> (dict: Dictionary)
        ensures
            dict@ == Seq::<(Seq<u8>, Value)>::empty(),
            dict.wf(),
            dict.normal(),
    {
        let dict = Dictionary { entries: Vec::new() };
        assert(dict@ =~= Seq::empty());
        dict
    }

    /// The number of entries.
    pub fn len(&self) -> (n: usize)
        ensures
            n == self@.len(),
    {
        self.entries.len()
    }

    /// The key of the entry at `index`, counted in ascending key order.
    pub fn key_at(&self, index: usize) -> (key: &Vec<u8>)
        requires
            index < self@.len(),
        ensures
            key@ == self@[index as int].0,
    {
        &self.entries[index].0
    }

    /// The value of the entry at `index`, counted in ascending key order.
    pub fn value_at(&self, index: usize) -> (value: &Data)
        requires
            index < self@.len(),
        ensures
            value@ == self@[index as int].1,
    {
        &self.entries[index].1
    }

    /// The entries in ascending key order.
    pub fn into_entries(self) -> (entries: Vec<(Vec<u8>, Data)>)
        ensures
            entries_view(entries@) == self@,
    {
        self.entries
    }

    /// The place of `key` among the entries.
    fn slot(&self, key: &[u8]) -> (p: usize)
        ensures
            is_slot(self@, key@, p as int),
    {
        let mut p: usize = self.entries.len();
        while p > 0 && bytes_less(key, self.entries[p - 1].0.as_slice())
            invariant
                p <= self.entries.len(),
                forall|j: int| p <= j < self@.len() ==> bytes_lt(key@, #[trigger] self@[j].0),
            decreases p,
        {
            p -= 1;
        }
        p
    }

    /// Binds `key` to `value` and returns the value that the key was bound
    /// to before, if any.
    pub fn insert(&mut self, key: Vec<u8>, value: Data) -> (previous: Option<Data>)
        requires
            old(self).wf(),
            value.wf(),
        ensures
            final(self)@ == with_entry(old(self)@, key@, value@),
            final(self).wf(),
            all_complete(old(self)@) && value@.complete() ==> all_complete(final(self)@),
            old(self).normal() && value.normal() ==> final(self).normal(),
            match lookup(old(self)@, key@) {
                Some(v) => previous matches Some(d) && d@ == v && d.wf(),
                None => previous is None,
            },
    {
        let p = self.slot(key.as_slice());
        let ghost before = self@;
        let ghost held = self.entries@;
        proof {
            lemma_with_entry_at(before, key@, value@, p as int);
            lemma_lookup_at(before, key@, p as int);
            lemma_with_entry_ascending(before, key@, value@, p as int);
            if all_complete(before) && value@.complete() {
                lemma_with_entry_complete(before, key@, value@);
            }
        }
        if p > 0 && bytes_equal(self.entries[p - 1].0.as_slice(), key.as_slice()) {
            let (_, previous) = self.entries.remove(p - 1);
            self.entries.insert(p - 1, (key, value));
            proof {
                assert(self@ =~= before.update(p - 1, (key@, value@)));
                assert forall|i: int| 0 <= i < self@.len() implies (
                #[trigger] self@[i]).1.canonical() by {
                    if i != p - 1 {
                        assert(self@[i] == before[i]);
                    }
                }
                assert(previous@ == before[p - 1].1);
                if old(self).normal() && value.normal() {
                    assert forall|i: int| 0 <= i < self.entries@.len() implies (
                    #[trigger] self.entries@[i]).1.normal() by {
                        if i != p - 1 {
                            assert(self.entries@[i] == held[i]);
                        }
                    }
                }
            }
            Some(previous)
        } else {
            self.entries.insert(p, (key, value));
            proof {
                assert(self@ =~= before.insert(p as int, (key@, value@)));
                assert forall|i: int| 0 <= i < self@.len() implies (
                #[trigger] self@[i]).1.canonical() by {
                    if i < p {
                        assert(self@[i] == before[i]);
                    } else if i > p {
                        assert(self@[i] == before[i - 1]);
                    }
                }
                if old(self).normal() && value.normal() {
                    assert forall|i: int| 0 <= i < self.entries@.len() implies (
                    #[trigger] self.entries@[i]).1.normal() by {
                        if i < p {
                            assert(self.entries@[i] == held[i]);
                        } else if i > p {
                            assert(self.entries@[i] == held[i - 1]);
                        }
                    }
                }
            }
            None
        }
    }

    /// Binds the text `key` to `value` and returns the value that the key was
    /// bound to before, if any.
    pub fn insert_str(&mut self, key: &str, value: Data) -> (previous: Option<Data>)
        requires
            old(self).wf(),
            value.wf(),
        ensures
            final(self)@ == with_entry(old(self)@, key.spec_bytes(), value@),
            final(self).wf(),
            all_complete(old(self)@) && value@.complete() ==> all_complete(final(self)@),
            match lookup(old(self)@, key.spec_bytes()) {
                Some(v) => previous matches Some(d) && d@ == v && d.wf(),
                None => previous is None,
            },
    {
        self.insert(slice_to_vec(key.as_bytes()), value)
    }

    /// Binds `key` to the value inside `value`, if there is one, and returns
    /// the value that the key was bound to before, if any. With no value the
    /// dictionary stays as it is.
    pub fn insert_some(&mut self, key: Vec<u8>, value: Option<Data>) -> (previous: Option<Data>)
        requires
            old(self).wf(),
            value matches Some(d) ==> d.wf(),
        ensures
            final(self).wf(),
            all_complete(old(self)@) && (value matches Some(d) ==> d@.complete()) ==> all_complete(
                final(self)@,
            ),
            match value {
                Some(d) => {
                    &&& final(self)@ == with_entry(old(self)@, key@, d@)
                    &&& match lookup(old(self)@, key@) {
                        Some(v) => previous matches Some(p) && p@ == v && p.wf(),
                        None => previous is None,
                    }
                },
                None => final(self)@ == old(self)@ && previous is None,
            },
    {
        match value {
            Some(data) => self.insert(key, data),
            None => None,
        }
    }

    /// Takes the entry with the key `key` out and returns its value, if there
    /// was one.
    pub fn remove_key(&mut self, key: &[u8]) -> (removed: Option<Data>)
        requires
            old(self).wf(),
        ensures
            final(self)@ == without_key(old(self)@, key@),
            final(self).wf(),
            match lookup(old(self)@, key@) {
                Some(v) => removed matches Some(d) && d@ == v && d.wf(),
                None => removed is None,
            },
    {
        let p = self.slot(key);
        let ghost before = self@;
        proof {
            lemma_lookup_at(before, key@, p as int);
        }
        if p > 0 && bytes_equal(self.entries[p - 1].0.as_slice(), key) {
            proof {
                assert forall|j: int|
                    0 <= j < before.len() && j != p - 1 implies #[trigger] before[j].0 != key@ by {
                    lemma_ascending_unique(before, j, p - 1);
                }
                lemma_without_key_at(before, key@, p - 1);
                lemma_remove_ascending(before, p - 1);
            }
            let (_, removed) = self.entries.remove(p - 1);
            proof {
                assert(self@ =~= before.remove(p - 1));
                assert forall|i: int| 0 <= i < self@.len() implies (
                #[trigger] self@[i]).1.canonical() by {
                    let i0 = if i < p - 1 { i } else { i + 1 };
                    assert(self@[i] == before[i0]);
                }
                assert(removed@ == before[p - 1].1);
            }
            Some(removed)
        } else {
            proof {
                assert forall|i: int| 0 <= i < before.len() implies #[trigger] before[i].0
                    != key@ by {
                    if before[i].0 == key@ {
                        assert(has_key(before, key@));
                    }
                }
                lemma_lookup_absent(before, key@);
            }
            None
        }
    }

    /// Takes the entry with the text key `key` out and returns its value, if
    /// there was one.
    pub fn remove(&mut self, key: &str) -> (removed: Option<Data>)
        requires
            old(self).wf(),
        ensures
            final(self)@ == without_key(old(self)@, key.spec_bytes()),
            final(self).wf(),
            match lookup(old(self)@, key.spec_bytes()) {
                Some(v) => removed matches Some(d) && d@ == v && d.wf(),
                None => removed is None,
            },
    {
        self.remove_key(key.as_bytes())
    }

    /// Moves every entry of `other` into this dictionary and leaves `other`
    /// empty. Where both have a key, the value of `other` stays.
    pub fn append(&mut self, other: &mut Dictionary)
        requires
            old(self).wf(),
            old(other).wf(),
        ensures
            final(self)@ == with_entries(old(self)@, old(other)@),
            final(self).wf(),
            final(other)@ == Seq::<(Seq<u8>, Value)>::empty(),
            final(other).wf(),
            all_complete(old(self)@) && all_complete(old(other)@) ==> all_complete(final(self)@),
    {
        let ghost moved = other@;
        let ghost given = other.entries@;
        let mut taken: Vec<(Vec<u8>, Data)> = Vec::new();
        core::mem::swap(&mut other.entries, &mut taken);
        assert(other@ =~= Seq::empty());
        // the entries are taken from the end of the turned vector, first entry first
        let mut stack = reversed(taken);
        assert(moved.skip(0) =~= moved);
        while stack.len() > 0
            invariant
                self.wf(),
                moved == entries_view(given),
                Value::Dict(moved).canonical(),
                stack.len() <= given.len(),
                stack@ == given.reverse().take(stack.len() as int),
                with_entries(self@, moved.skip(given.len() - stack.len())) == with_entries(
                    old(self)@,
                    moved,
                ),
                all_complete(old(self)@) && all_complete(moved) ==> all_complete(self@),
            decreases stack.len(),
        {
            let ghost done = given.len() - stack.len();
            let ghost rest = moved.skip(done);
            match stack.pop() {
                Some((key, value)) => {
                    proof {
                        assert((key, value) == given.reverse()[given.len() - 1 - done]);
                        assert((key, value) == given[done]);
                        assert(rest[0] == moved[done]);
                        assert((key@, value@) == moved[done]);
                        assert(moved[done].1.canonical());
                        assert(rest.drop_first() =~= moved.skip(done + 1));
                        assert(stack@ =~= given.reverse().take(stack.len() as int));
                    }
                    self.insert(key, value);
                },
                None => {},
            }
        }
        assert(moved.skip(given.len() as int) =~= Seq::empty());
    }

    /// The dictionary that binds each text key of `data` to its value. Of two
    /// pairs with the same key the later one wins.
    pub fn from(data: Vec<(&str, Data)>) -> (dict: Dictionary)
        requires
            forall|i: int| 0 <= i < data.len() ==> (#[trigger] data@[i]).1.wf(),
        ensures
            dict@ == with_entries(Seq::empty(), pairs_view(data@)),
            dict.wf(),
    {
        let ghost given = data@;
        let ghost all = pairs_view(given);
        // the pairs are taken from the end of the turned vector, first pair first
        let mut stack = reversed(data);
        let mut dict = Dictionary::new();
        assert(all.skip(0) =~= all);
        while stack.len() > 0
            invariant
                dict.wf(),
                all == pairs_view(given),
                stack.len() <= given.len(),
                stack@ == given.reverse().take(stack.len() as int),
                forall|i: int| 0 <= i < given.len() ==> (#[trigger] given[i]).1.wf(),
                with_entries(dict@, all.skip(given.len() - stack.len())) == with_entries(
                    Seq::empty(),
                    all,
                ),
            decreases stack.len(),
        {
            let ghost done = given.len() - stack.len();
            let ghost rest = all.skip(done);
            match stack.pop() {
                Some((key, value)) => {
                    proof {
                        assert((key, value) == given.reverse()[given.len() - 1 - done]);
                        assert((key, value) == given[done]);
                        assert(rest[0] == all[done]);
                        assert(rest.drop_first() =~= all.skip(done + 1));
                        assert(stack@ =~= given.reverse().take(stack.len() as int));
                    }
                    dict.insert_str(key, value);
                },
                None => {},
            }
        }
        assert(all.skip(given.len() as int) =~= Seq::empty());
        dict
    }

    /// Takes the entry with the text key `key` out and converts its value.
    /// A missing key is an error, and so is a value of the wrong shape; the
    /// entry is gone either way.
    pub fn remove_as<T: FromData>(&mut self, key: &str) -> (r: Result<T, FromDataError>)
        requires
            old(self).wf(),
        ensures
            final(self)@ == without_key(old(self)@, key.spec_bytes()),
            final(self).wf(),
            match required::<T>(old(self)@, key.spec_bytes()) {
                Some(m) => r matches Ok(x) && x.model() == m,
                None => r is Err,
            },
    {
        match self.remove(key) {
            Some(data) => T::from_data(data),
            None => Err(FromDataError),
        }
    }

    /// Takes the entry with the text key `key` out and converts its value,
    /// if there is such an entry. A value of the wrong shape is an error; a
    /// missing key is not.
    pub fn remove_as_opt<T: FromData>(&mut self, key: &str) -> (r: Result<
        Option<T>,
        FromDataError,
    >)
        requires
            old(self).wf(),
        ensures
            final(self)@ == without_key(old(self)@, key.spec_bytes()),
            final(self).wf(),
            match optional::<T>(old(self)@, key.spec_bytes()) {
                Some(Some(m)) => r matches Ok(Some(x)) && x.model() == m,
                Some(None) => r matches Ok(None),
                None => r is Err,
            },
    {
        match self.remove(key) {
            Some(data) => match T::from_data(data) {
                Ok(x) => Ok(Some(x)),
                Err(e) => Err(e),
            },
            None => Ok(None),
        }
    }
}

} // verus!
