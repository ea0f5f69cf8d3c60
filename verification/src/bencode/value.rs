//! The mathematical model of bencode values and of their wire format.

use vstd::prelude::*;

verus! {

/// The ASCII digit `0`.
pub const ZERO: u8 = 48;

/// The ASCII digit `9`.
pub const NINE: u8 = 57;

/// The minus sign of a negative integer.
pub const MINUS: u8 = 45;

/// The colon between the length of a byte string and its bytes.
pub const COLON: u8 = 58;

/// `i`, which opens an integer.
pub const INT_START: u8 = 105;

/// `l`, which opens a list.
pub const LIST_START: u8 = 108;

/// `d`, which opens a dictionary.
pub const DICT_START: u8 = 100;

/// `e`, which closes an integer, a list or a dictionary.
pub const END: u8 = 101;

/// A bencode value as a mathematical object.
///
/// Integers are unbounded here; the two machine integer variants of
/// [`crate::bencode::Data`] both map to `Int`, so two values that denote the
/// same number have the same model. A dictionary is the sequence of its
/// entries in iteration order, which for a valid dictionary is ascending key
/// order. `End` is the closing delimiter seen by the decoder.
pub enum Value {
    Int(int),
    Bytes(Seq<u8>),
    List(Seq<Value>),
    Dict(Seq<(Seq<u8>, Value)>),
    End,
}

/// Strict byte-lexicographic order: the first differing byte decides, and a
/// proper prefix comes before the longer string.
pub open spec fn bytes_lt(a: Seq<u8>, b: Seq<u8>) -> bool
    decreases a.len(),
{
    if b.len() == 0 {
        false
    } else if a.len() == 0 {
        true
    } else if a[0] != b[0] {
        a[0] < b[0]
    } else {
        bytes_lt(a.drop_first(), b.drop_first())
    }
}

/// The keys of `entries` are strictly ascending, hence unique.
pub open spec fn keys_ascending(entries: Seq<(Seq<u8>, Value)>) -> bool {
    forall|i: int, j: int|
        0 <= i < j < entries.len() ==> bytes_lt(#[trigger] entries[i].0, #[trigger] entries[j].0)
}

/// Some entry of `entries` has the key `key`.
pub open spec fn has_key(entries: Seq<(Seq<u8>, Value)>, key: Seq<u8>) -> bool {
    exists|i: int| 0 <= i < entries.len() && #[trigger] entries[i].0 == key
}

/// The value stored under `key`, if any.
pub open spec fn lookup(entries: Seq<(Seq<u8>, Value)>, key: Seq<u8>) -> Option<Value>
    decreases entries.len(),
{
    if entries.len() == 0 {
        None
    } else if entries.last().0 == key {
        Some(entries.last().1)
    } else {
        lookup(entries.drop_last(), key)
    }
}

/// `entries` with `key` bound to `value`: an existing binding is replaced in
/// place, a new one goes where the key order puts it.
pub open spec fn with_entry(entries: Seq<(Seq<u8>, Value)>, key: Seq<u8>, value: Value) -> Seq<
    (Seq<u8>, Value),
>
    decreases entries.len(),
{
    if entries.len() == 0 {
        seq![(key, value)]
    } else if entries.last().0 == key {
        entries.drop_last().push((key, value))
    } else if bytes_lt(entries.last().0, key) {
        entries.push((key, value))
    } else {
        with_entry(entries.drop_last(), key, value).push(entries.last())
    }
}

/// `entries` without the binding of `key`.
pub open spec fn without_key(entries: Seq<(Seq<u8>, Value)>, key: Seq<u8>) -> Seq<
    (Seq<u8>, Value),
>
    decreases entries.len(),
{
    if entries.len() == 0 {
        entries
    } else if entries.last().0 == key {
        without_key(entries.drop_last(), key)
    } else {
        without_key(entries.drop_last(), key).push(entries.last())
    }
}

/// `entries` with every pair of `pairs` bound, one after the other, so that
/// of two pairs with the same key the later one wins.
pub open spec fn with_entries(entries: Seq<(Seq<u8>, Value)>, pairs: Seq<(Seq<u8>, Value)>) -> Seq<
    (Seq<u8>, Value),
>
    decreases pairs.len(),
{
    if pairs.len() == 0 {
        entries
    } else {
        with_entries(with_entry(entries, pairs[0].0, pairs[0].1), pairs.drop_first())
    }
}

impl Value {
    /// Every dictionary inside the value has strictly ascending keys.
    pub open spec fn canonical(self) -> bool
        decreases self,
    {
        match self {
            Value::List(items) => forall|i: int|
                0 <= i < items.len() ==> (#[trigger] items[i]).canonical(),
            Value::Dict(entries) => keys_ascending(entries) && forall|i: int|
                0 <= i < entries.len() ==> (#[trigger] entries[i]).1.canonical(),
            _ => true,
        }
    }

    /// The closing delimiter occurs nowhere in the value.
    pub open spec fn complete(self) -> bool
        decreases self,
    {
        match self {
            Value::List(items) => forall|i: int|
                0 <= i < items.len() ==> (#[trigger] items[i]).complete(),
            Value::Dict(entries) => forall|i: int|
                0 <= i < entries.len() ==> (#[trigger] entries[i]).1.complete(),
            Value::End => false,
            _ => true,
        }
    }

    /// Every integer inside the value fits one of the two machine variants:
    /// it is at least `i64::MIN` and at most `u64::MAX`.
    pub open spec fn in_range(self) -> bool
        decreases self,
    {
        match self {
            Value::Int(i) => i64::MIN <= i <= u64::MAX,
            Value::List(items) => forall|i: int|
                0 <= i < items.len() ==> (#[trigger] items[i]).in_range(),
            Value::Dict(entries) => forall|i: int|
                0 <= i < entries.len() ==> (#[trigger] entries[i]).1.in_range(),
            _ => true,
        }
    }

    /// The value can be written to the wire and read back.
    pub open spec fn encodable(self) -> bool {
        self.canonical() && self.complete() && self.in_range()
    }
}

/// The decimal digits of `n`, most significant first, without leading zeros.
pub open spec fn decimal(n: nat) -> Seq<u8>
    decreases n,
{
    if n < 10 {
        seq![(ZERO + n) as u8]
    } else {
        decimal(n / 10).push((ZERO + n % 10) as u8)
    }
}

/// The decimal text of an integer: a minus sign for a negative number, then
/// the digits of its magnitude.
pub open spec fn int_text(i: int) -> Seq<u8> {
    if i < 0 {
        seq![MINUS] + decimal((-i) as nat)
    } else {
        decimal(i as nat)
    }
}

/// The wire form of a value.
///
/// A byte string is its length in decimal, a colon and the bytes; an integer
/// is its decimal text between `i` and `e`; a list is the wire forms of its
/// items between `l` and `e`; a dictionary is, between `d` and `e`, each key
/// as a byte string followed by its value, in the order of the entries. The
/// closing delimiter has no wire form of its own.
pub open spec fn encoding(v: Value) -> Seq<u8>
    decreases v,
{
    match v {
        Value::Int(i) => seq![INT_START] + int_text(i) + seq![END],
        Value::Bytes(b) => bytes_encoding(b),
        Value::List(items) => seq![LIST_START] + list_encoding(items) + seq![END],
        Value::Dict(entries) => seq![DICT_START] + entries_encoding(entries) + seq![END],
        Value::End => Seq::empty(),
    }
}

/// The wire form of a byte string.
pub open spec fn bytes_encoding(b: Seq<u8>) -> Seq<u8> {
    decimal(b.len()) + seq![COLON] + b
}

/// The wire forms of the items of a list, one after the other.
pub open spec fn list_encoding(items: Seq<Value>) -> Seq<u8>
    decreases items,
{
    if items.len() == 0 {
        Seq::empty()
    } else {
        encoding(items[0]) + list_encoding(items.drop_first())
    }
}

/// The wire forms of the entries of a dictionary, one after the other.
pub open spec fn entries_encoding(entries: Seq<(Seq<u8>, Value)>) -> Seq<u8>
    decreases entries,
{
    if entries.len() == 0 {
        Seq::empty()
    } else {
        bytes_encoding(entries[0].0) + encoding(entries[0].1) + entries_encoding(
            entries.drop_first(),
        )
    }
}

/// The number of nodes of a value: a measure that every part of a value is
/// smaller by.
pub open spec fn size(v: Value) -> nat
    decreases v,
{
    match v {
        Value::List(items) => 1 + list_size(items),
        Value::Dict(entries) => 1 + entries_size(entries),
        _ => 1,
    }
}

/// The sizes of the items of a list, added up.
pub open spec fn list_size(items: Seq<Value>) -> nat
    decreases items,
{
    if items.len() == 0 {
        0
    } else {
        size(items[0]) + list_size(items.drop_first())
    }
}

/// The sizes of the values of a dictionary, added up.
pub open spec fn entries_size(entries: Seq<(Seq<u8>, Value)>) -> nat
    decreases entries,
{
    if entries.len() == 0 {
        0
    } else {
        size(entries[0].1) + entries_size(entries.drop_first())
    }
}

/// An item of a list is smaller than the list.
pub proof fn lemma_item_smaller(items: Seq<Value>, i: int)
    requires
        0 <= i < items.len(),
    ensures
        size(items[i]) < size(Value::List(items)),
    decreases items.len(),
{
    if i > 0 {
        lemma_item_smaller(items.drop_first(), i - 1);
    }
}

/// A value of a dictionary is smaller than the dictionary.
pub proof fn lemma_entry_smaller(entries: Seq<(Seq<u8>, Value)>, i: int)
    requires
        0 <= i < entries.len(),
    ensures
        size(entries[i].1) < size(Value::Dict(entries)),
    decreases entries.len(),
{
    if i > 0 {
        lemma_entry_smaller(entries.drop_first(), i - 1);
    }
}

/// The wire form of a list grows at its end by the wire form of a new last
/// item.
pub proof fn lemma_list_encoding_push(items: Seq<Value>, item: Value)
    ensures
        list_encoding(items.push(item)) == list_encoding(items) + encoding(item),
    decreases items.len(),
{
    if items.len() == 0 {
        let one = items.push(item);
        assert(one.drop_first() =~= Seq::empty());
        assert(list_encoding(one.drop_first()) =~= Seq::empty());
        assert(one[0] == item);
        assert(list_encoding(one) =~= list_encoding(items) + encoding(item));
    } else {
        assert(items.push(item).drop_first() =~= items.drop_first().push(item));
        lemma_list_encoding_push(items.drop_first(), item);
        assert(list_encoding(items.push(item)) =~= list_encoding(items) + encoding(item));
    }
}

/// The wire form of dictionary entries grows at its end by the wire form of
/// a new last entry.
pub proof fn lemma_entries_encoding_push(entries: Seq<(Seq<u8>, Value)>, entry: (Seq<u8>, Value))
    ensures
        entries_encoding(entries.push(entry)) == entries_encoding(entries) + bytes_encoding(
            entry.0,
        ) + encoding(entry.1),
    decreases entries.len(),
{
    if entries.len() == 0 {
        let one = entries.push(entry);
        assert(one.drop_first() =~= Seq::empty());
        assert(entries_encoding(one.drop_first()) =~= Seq::empty());
        assert(one[0] == entry);
        assert(entries_encoding(one) =~= entries_encoding(entries) + bytes_encoding(entry.0)
            + encoding(entry.1));
    } else {
        assert(entries.push(entry).drop_first() =~= entries.drop_first().push(entry));
        lemma_entries_encoding_push(entries.drop_first(), entry);
        assert(entries_encoding(entries.push(entry)) =~= entries_encoding(entries)
            + bytes_encoding(entry.0) + encoding(entry.1));
    }
}

} // verus!
