//! The executable bencode value.

use vstd::prelude::*;
use vstd::slice::slice_to_vec;
use vstd::std_specs::cmp::PartialEqSpecImpl;
use vstd::std_specs::convert::FromSpecImpl;
use vstd::string::StringSliceAdditionalSpecFns;
use vstd::utf8::encode_utf8;
use crate::bencode::dictionary::Dictionary;
use crate::bencode::order::bytes_equal;
use crate::bencode::value::{lemma_entry_smaller, lemma_item_smaller, list_size, size, Value};

verus! {

/// A bencode value.
#[derive(Debug)]
pub enum Data {
    /// A non-negative integer. The decoder yields this variant for every
    /// number that is not negative.
    UInt(u64),
    /// A signed integer. The decoder yields this variant for negative numbers
    /// only.
    Int(i64),
    /// A byte string: any bytes, not necessarily text.
    Bytes(Vec<u8>),
    /// A list of values.
    List(Vec<Data>),
    /// A dictionary with byte strings as keys.
    Dict(Dictionary),
    /// The closing delimiter, as the decoder sees it while it reads a list or
    /// a dictionary. It is no value: the decoder never returns it and the
    /// encoder does not take it.
    End,
}

impl View for Data {
    type V = Value;

    open spec fn view(&self) -> Value
        decreases self,
    {
        match self {
            Data::UInt(u) => Value::Int(*u as int),
            Data::Int(i) => Value::Int(*i as int),
            Data::Bytes(b) => Value::Bytes(b@),
            Data::List(items) => Value::List(list_view(items@)),
            Data::Dict(dict) => Value::Dict(dict@),
            Data::End => Value::End,
        }
    }
}

/// The models of the items of a list.
pub open spec fn list_view(items: Seq<Data>) -> Seq<Value>
    decreases items,
{
    Seq::new(
        items.len(),
        |i: int|
            if 0 <= i < items.len() {
                items[i]@
            } else {
                Value::End
            },
    )
}

/// The models of the entries of a dictionary.
pub open spec fn entries_view(entries: Seq<(Vec<u8>, Data)>) -> Seq<(Seq<u8>, Value)>
    decreases entries,
{
    Seq::new(
        entries.len(),
        |i: int|
            if 0 <= i < entries.len() {
                (entries[i].0@, entries[i].1@)
            } else {
                (Seq::empty(), Value::End)
            },
    )
}

impl Data {
    /// Every dictionary inside the value keeps its keys in strictly
    /// ascending order.
    pub open spec fn wf(&self) -> bool {
        self@.canonical()
    }

    /// Every integer inside the value is held by the variant that the
    /// decoder chooses for it: the signed one below zero, the unsigned one
    /// from zero on.
    pub open spec fn normal(&self) -> bool
        decreases self,
    {
        match self {
            Data::Int(i) => *i < 0,
            Data::List(items) => forall|i: int|
                0 <= i < items@.len() ==> (#[trigger] items@[i]).normal(),
            Data::Dict(dict) => dict.normal(),
            _ => true,
        }
    }
}

/// The integers of a value fit their variants, so the model of a value has
/// its integers between `i64::MIN` and `u64::MAX`.
pub proof fn lemma_data_in_range(data: Data)
    ensures
        data@.in_range(),
    decreases data,
{
    match data {
        Data::List(items) => {
            assert forall|i: int| 0 <= i < list_view(items@).len() implies (#[trigger] list_view(
                items@,
            )[i]).in_range() by {
                lemma_data_in_range(items@[i]);
                assert(list_view(items@)[i] == items@[i]@);
            }
            assert(data@ == Value::List(list_view(items@)));
        },
        Data::Dict(dict) => {
            crate::bencode::dictionary::lemma_dictionary_in_range(dict);
        },
        _ => {},
    }
}

/// Whether two values have the same model: the same bytes, the same items in
/// the same order, the same entries, or the same number, whichever of the two
/// integer variants holds it.
pub fn data_equal(a: &Data, b: &Data) -> (same: bool)
    ensures
        same == (a@ == b@),
    decreases size(a@),
{
    match (a, b) {
        (Data::Int(x), Data::Int(y)) => *x == *y,
        (Data::UInt(x), Data::UInt(y)) => *x == *y,
        (Data::Int(x), Data::UInt(y)) => *x >= 0 && *x as u64 == *y,
        (Data::UInt(x), Data::Int(y)) => *y >= 0 && *y as u64 == *x,
        (Data::Bytes(x), Data::Bytes(y)) => bytes_equal(x.as_slice(), y.as_slice()),
        (Data::List(x), Data::List(y)) => {
            if x.len() != y.len() {
                return false;
            }
            let mut i: usize = 0;
            while i < x.len()
                invariant
                    i <= x.len(),
                    x.len() == y.len(),
                    a@ == Value::List(list_view(x@)),
                    b@ == Value::List(list_view(y@)),
                    forall|k: int| 0 <= k < i ==> (#[trigger] x@[k])@ == y@[k]@,
                decreases x.len() - i,
            {
                proof {
                    lemma_item_smaller(list_view(x@), i as int);
                }
                if !data_equal(&x[i], &y[i]) {
                    assert(list_view(x@)[i as int] != list_view(y@)[i as int]);
                    return false;
                }
                i += 1;
            }
            assert(list_view(x@) =~= list_view(y@));
            true
        },
        (Data::Dict(x), Data::Dict(y)) => {
            if x.len() != y.len() {
                return false;
            }
            let mut i: usize = 0;
            while i < x.len()
                invariant
                    i <= x@.len(),
                    x@.len() == y@.len(),
                    a@ == Value::Dict(x@),
                    b@ == Value::Dict(y@),
                    forall|k: int| 0 <= k < i ==> #[trigger] x@[k] == y@[k],
                decreases x@.len() - i,
            {
                proof {
                    lemma_entry_smaller(x@, i as int);
                }
                if !bytes_equal(x.key_at(i).as_slice(), y.key_at(i).as_slice()) {
                    assert(x@[i as int] != y@[i as int]);
                    return false;
                }
                if !data_equal(x.value_at(i), y.value_at(i)) {
                    assert(x@[i as int] != y@[i as int]);
                    return false;
                }
                i += 1;
            }
            assert(x@ =~= y@);
            true
        },
        (Data::End, Data::End) => true,
        _ => false,
    }
}

impl PartialEq for Data {
    fn eq(&self, other: &Data) -> (same: bool) {
        data_equal(self, other)
    }
}

impl PartialEqSpecImpl for Data {
    open spec fn obeys_eq_spec() -> bool {
        true
    }

    open spec fn eq_spec(&self, other: &Data) -> bool {
        self@ == other@
    }
}

/// A copy of a list of values.
fn clone_items(items: &Vec<Data>) -> (copy: Vec<Data>)
    ensures
        list_view(copy@) == list_view(items@),
    decreases list_size(list_view(items@)), 1nat,
{
    let mut copy: Vec<Data> = Vec::new();
    let mut i: usize = 0;
    while i < items.len()
        invariant
            i <= items.len(),
            copy.len() == i,
            forall|k: int| 0 <= k < i ==> (#[trigger] copy@[k])@ == items@[k]@,
        decreases items.len() - i,
    {
        proof {
            lemma_item_smaller(list_view(items@), i as int);
        }
        copy.push(items[i].clone());
        i += 1;
    }
    assert(list_view(copy@) =~= list_view(items@));
    copy
}

impl Clone for Data {
    fn clone(&self) -> (copy: Data)
        ensures
            copy@ == self@,
        decreases size(self@), 0nat,
    {
        match self {
            Data::UInt(u) => Data::UInt(*u),
            Data::Int(i) => Data::Int(*i),
            Data::Bytes(b) => Data::Bytes(slice_to_vec(b.as_slice())),
            Data::List(items) => Data::List(clone_items(items)),
            Data::Dict(dict) => Data::Dict(dict.clone()),
            Data::End => Data::End,
        }
    }
}

impl Data {
    /// The byte string that holds a copy of `bytes`.
    pub fn from_bytes(bytes: &[u8]) -> (data: Data)
        ensures
            data@ == Value::Bytes(bytes@),
            data.wf(),
            data.normal(),
    {
        Data::Bytes(slice_to_vec(bytes))
    }

    /// The byte string that holds the bytes of `text`.
    pub fn from_text(text: &str) -> (data: Data)
        ensures
            data@ == Value::Bytes(text.spec_bytes()),
            data.wf(),
            data.normal(),
    {
        Data::Bytes(slice_to_vec(text.as_bytes()))
    }
}

/// The conversions below make a byte string of a text, of a slice of bytes
/// or of an array of bytes. A byte vector cannot be built in ghost code, so
/// `from_spec` says nothing of them; what they return is stated at each
/// `from`.
impl<'a> From<&'a str> for Data {
    fn from(text: &'a str) -> (data: Data)
        ensures
            data is Bytes,
            data@ == Value::Bytes(text.spec_bytes()),
    {
        Data::Bytes(slice_to_vec(text.as_bytes()))
    }
}

impl<'a> FromSpecImpl<&'a str> for Data {
    open spec fn obeys_from_spec() -> bool {
        false
    }

    open spec fn from_spec(text: &'a str) -> Data {
        Data::End
    }
}

impl From<String> for Data {
    fn from(text: String) -> (data: Data)
        ensures
            data is Bytes,
            data@ == Value::Bytes(encode_utf8(text@)),
    {
        Data::Bytes(slice_to_vec(text.as_str().as_bytes()))
    }
}

impl FromSpecImpl<String> for Data {
    open spec fn obeys_from_spec() -> bool {
        false
    }

    open spec fn from_spec(text: String) -> Data {
        Data::End
    }
}

impl<'a> From<&'a [u8]> for Data {
    fn from(bytes: &'a [u8]) -> (data: Data)
        ensures
            data is Bytes,
            data@ == Value::Bytes(bytes@),
    {
        Data::Bytes(slice_to_vec(bytes))
    }
}

impl<'a> FromSpecImpl<&'a [u8]> for Data {
    open spec fn obeys_from_spec() -> bool {
        false
    }

    open spec fn from_spec(bytes: &'a [u8]) -> Data {
        Data::End
    }
}

impl From<[u8; 6]> for Data {
    fn from(bytes: [u8; 6]) -> (data: Data)
        ensures
            data is Bytes,
            data@ == Value::Bytes(bytes@),
    {
        Data::Bytes(slice_to_vec(bytes.as_slice()))
    }
}

impl FromSpecImpl<[u8; 6]> for Data {
    open spec fn obeys_from_spec() -> bool {
        false
    }

    open spec fn from_spec(bytes: [u8; 6]) -> Data {
        Data::End
    }
}

impl From<[u8; 20]> for Data {
    fn from(bytes: [u8; 20]) -> (data: Data)
        ensures
            data is Bytes,
            data@ == Value::Bytes(bytes@),
    {
        Data::Bytes(slice_to_vec(bytes.as_slice()))
    }
}

impl FromSpecImpl<[u8; 20]> for Data {
    open spec fn obeys_from_spec() -> bool {
        false
    }

    open spec fn from_spec(bytes: [u8; 20]) -> Data {
        Data::End
    }
}

impl From<[u8; 32]> for Data {
    fn from(bytes: [u8; 32]) -> (data: Data)
        ensures
            data is Bytes,
            data@ == Value::Bytes(bytes@),
    {
        Data::Bytes(slice_to_vec(bytes.as_slice()))
    }
}

impl FromSpecImpl<[u8; 32]> for Data {
    open spec fn obeys_from_spec() -> bool {
        false
    }

    open spec fn from_spec(bytes: [u8; 32]) -> Data {
        Data::End
    }
}

impl From<u64> for Data {
    fn from(u: u64) -> (data: Data) {
        Data::UInt(u)
    }
}

impl FromSpecImpl<u64> for Data {
    open spec fn obeys_from_spec() -> bool {
        true
    }

    open spec fn from_spec(u: u64) -> Data {
        Data::UInt(u)
    }
}

impl From<i64> for Data {
    fn from(i: i64) -> (data: Data) {
        Data::Int(i)
    }
}

impl FromSpecImpl<i64> for Data {
    open spec fn obeys_from_spec() -> bool {
        true
    }

    open spec fn from_spec(i: i64) -> Data {
        Data::Int(i)
    }
}

impl From<Vec<u8>> for Data {
    fn from(bytes: Vec<u8>) -> (data: Data) {
        Data::Bytes(bytes)
    }
}

impl FromSpecImpl<Vec<u8>> for Data {
    open spec fn obeys_from_spec() -> bool {
        true
    }

    open spec fn from_spec(bytes: Vec<u8>) -> Data {
        Data::Bytes(bytes)
    }
}

impl From<Vec<Data>> for Data {
    fn from(items: Vec<Data>) -> (data: Data) {
        Data::List(items)
    }
}

impl FromSpecImpl<Vec<Data>> for Data {
    open spec fn obeys_from_spec() -> bool {
        true
    }

    open spec fn from_spec(items: Vec<Data>) -> Data {
        Data::List(items)
    }
}

impl From<Dictionary> for Data {
    fn from(dict: Dictionary) -> (data: Data) {
        Data::Dict(dict)
    }
}

impl FromSpecImpl<Dictionary> for Data {
    open spec fn obeys_from_spec() -> bool {
        true
    }

    open spec fn from_spec(dict: Dictionary) -> Data {
        Data::Dict(dict)
    }
}

/// The items of `items` in the opposite order.
pub fn reversed<T>(items: Vec<T>) -> (turned: Vec<T>)
    ensures
        turned@ == items@.reverse(),
{
    let mut items = items;
    let ghost all = items@;
    let mut turned: Vec<T> = Vec::new();
    while items.len() > 0
        invariant
            items@ == all.take(items.len() as int),
            turned.len() + items.len() == all.len(),
            forall|k: int| 0 <= k < turned.len() ==> turned@[k] == all[all.len() - 1 - k],
        decreases items.len(),
    {
        let ghost before = items@;
        match items.pop() {
            Some(item) => {
                turned.push(item);
                assert(items@ =~= all.take(items.len() as int));
            },
            None => {},
        }
    }
    assert(turned@ =~= all.reverse());
    turned
}

/// A value does not have the shape that a conversion asks for: a key is
/// missing, a value is of the wrong kind, or a field has the wrong length.
#[derive(Debug, PartialEq, Eq, Clone, Copy)]
pub struct FromDataError;

/// A type that can be read out of a bencode value.
pub trait FromData: Sized {
    /// The mathematical model of the type.
    type Model;

    /// The model of a value of the type.
    spec fn model(&self) -> Self::Model;

    /// What a bencode value converts to; nothing where it does not have the
    /// shape that the type asks for.
    spec fn from_value(v: Value) -> Option<Self::Model>;

    /// Converts `data`, or fails where it does not have the right shape.
    fn from_data(data: Data) -> (r: Result<Self, FromDataError>)
        requires
            data.wf(),
        ensures
            match Self::from_value(data@) {
                Some(m) => r matches Ok(x) && x.model() == m,
                None => r is Err,
            },
    ;
}

impl FromData for u64 {
    type Model = u64;

    open spec fn model(&self) -> u64 {
        *self
    }

    /// Any integer that fits, whichever variant holds it.
    open spec fn from_value(v: Value) -> Option<u64> {
        match v {
            Value::Int(i) => if 0 <= i <= u64::MAX {
                Some(i as u64)
            } else {
                None
            },
            _ => None,
        }
    }

    fn from_data(data: Data) -> (r: Result<u64, FromDataError>) {
        match data {
            Data::UInt(u) => Ok(u),
            Data::Int(i) => if i >= 0 {
                Ok(i as u64)
            } else {
                Err(FromDataError)
            },
            _ => Err(FromDataError),
        }
    }
}

impl FromData for i64 {
    type Model = i64;

    open spec fn model(&self) -> i64 {
        *self
    }

    /// Any integer that fits, whichever variant holds it.
    open spec fn from_value(v: Value) -> Option<i64> {
        match v {
            Value::Int(i) => if i64::MIN <= i <= i64::MAX {
                Some(i as i64)
            } else {
                None
            },
            _ => None,
        }
    }

    fn from_data(data: Data) -> (r: Result<i64, FromDataError>) {
        match data {
            Data::Int(i) => Ok(i),
            Data::UInt(u) => if u <= i64::MAX as u64 {
                Ok(u as i64)
            } else {
                Err(FromDataError)
            },
            _ => Err(FromDataError),
        }
    }
}

impl FromData for Vec<u8> {
    type Model = Seq<u8>;

    open spec fn model(&self) -> Seq<u8> {
        self@
    }

    open spec fn from_value(v: Value) -> Option<Seq<u8>> {
        match v {
            Value::Bytes(b) => Some(b),
            _ => None,
        }
    }

    fn from_data(data: Data) -> (r: Result<Vec<u8>, FromDataError>) {
        match data {
            Data::Bytes(b) => Ok(b),
            _ => Err(FromDataError),
        }
    }
}

/// The models of the values of a vector.
pub open spec fn models<T: FromData>(items: Seq<T>) -> Seq<T::Model> {
    Seq::new(items.len(), |i: int| items[i].model())
}

/// What the items of a list convert to, where each of them converts.
pub open spec fn items_from_values<T: FromData>(items: Seq<Value>) -> Option<Seq<T::Model>> {
    if forall|i: int| 0 <= i < items.len() ==> T::from_value(#[trigger] items[i]) is Some {
        Some(Seq::new(items.len(), |i: int| T::from_value(items[i]).unwrap()))
    } else {
        None
    }
}

impl<T: FromData> FromData for Vec<T> {
    type Model = Seq<T::Model>;

    open spec fn model(&self) -> Seq<T::Model> {
        models(self@)
    }

    /// A list each of whose items converts.
    open spec fn from_value(v: Value) -> Option<Seq<T::Model>> {
        match v {
            Value::List(items) => items_from_values::<T>(items),
            _ => None,
        }
    }

    fn from_data(data: Data) -> (r: Result<Vec<T>, FromDataError>) {
        match data {
            Data::List(items) => {
                let ghost all = list_view(items@);
                let ghost given = items@;
                assert forall|k: int| 0 <= k < given.len() implies (#[trigger] given[k]).wf() by {
                    assert(all[k].canonical());
                }
                // the items are taken from the end of the turned vector, first item first
                let mut stack = reversed(items);
                let mut out: Vec<T> = Vec::new();
                while stack.len() > 0
                    invariant
                        data@ == Value::List(all),
                        all == list_view(given),
                        out.len() + stack.len() == given.len(),
                        stack@ == given.reverse().take(stack.len() as int),
                        forall|k: int| 0 <= k < given.len() ==> (#[trigger] given[k]).wf(),
                        forall|k: int|
                            0 <= k < out.len() ==> T::from_value(all[k]) == Some(
                                (#[trigger] out@[k]).model(),
                            ),
                    decreases stack.len(),
                {
                    let ghost done = out.len() as int;
                    match stack.pop() {
                        Some(item) => {
                            proof {
                                assert(item == given.reverse()[given.len() - 1 - done]);
                                assert(item == given[done]);
                                assert(item@ == all[done]);
                                assert(stack@ =~= given.reverse().take(stack.len() as int));
                            }
                            match T::from_data(item) {
                                Ok(x) => {
                                    out.push(x);
                                },
                                Err(e) => {
                                    assert(T::from_value(all[done]) is None);
                                    return Err(e);
                                },
                            }
                        },
                        None => {},
                    }
                }
                proof {
                    assert forall|i: int| 0 <= i < all.len() implies T::from_value(
                        #[trigger] all[i],
                    ) is Some by {
                        assert(T::from_value(all[i]) == Some(out@[i].model()));
                    }
                    assert(models(out@) =~= items_from_values::<T>(all).unwrap());
                }
                Ok(out)
            },
            _ => Err(FromDataError),
        }
    }
}

} // verus!
