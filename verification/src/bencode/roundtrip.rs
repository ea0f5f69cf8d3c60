//! Decoding undoes encoding.

use vstd::prelude::*;
use crate::bencode::data::{lemma_data_in_range, Data};
use crate::bencode::decode::DataParseError;
use crate::bencode::grammar::{
    all_digits, digit_value, digits_value, is_digit, lemma_all_digits_tail,
    lemma_digits_value_grows, lemma_parse_consumes, parse, parse_entries, parse_items,
    parse_length, parse_negative, parse_unsigned, parse_value,
};
use crate::bencode::order::lemma_lt_irreflexive;
use crate::bencode::value::{
    bytes_encoding, bytes_lt, decimal, encoding, entries_encoding, has_key, keys_ascending,
    list_encoding, with_entry, Value, COLON, DICT_START, END, INT_START, LIST_START, MINUS, ZERO,
};

verus! {

proof fn lemma_digits_value_push(ds: Seq<u8>, d: u8, acc: int)
    ensures
        digits_value(ds.push(d), acc) == digits_value(ds, acc) * 10 + digit_value(d),
    decreases ds.len(),
{
    let all = ds.push(d);
    if ds.len() == 0 {
        assert(all.drop_first() =~= Seq::empty());
        assert(digits_value(all.drop_first(), acc * 10 + digit_value(all[0])) == acc * 10
            + digit_value(d));
    } else {
        assert(all.drop_first() =~= ds.drop_first().push(d));
        lemma_digits_value_push(ds.drop_first(), d, acc * 10 + digit_value(ds[0]));
    }
}

/// The decimal text of a number consists of digits that stand for it.
pub proof fn lemma_decimal(n: nat)
    ensures
        all_digits(decimal(n)),
        decimal(n).len() >= 1,
        digits_value(decimal(n), 0) == n,
    decreases n,
{
    if n < 10 {
        let ds = decimal(n);
        assert(ds.drop_first() =~= Seq::empty());
        assert(digits_value(ds.drop_first(), 0 * 10 + digit_value(ds[0])) == n);
    } else {
        lemma_decimal(n / 10);
        lemma_digits_value_push(decimal(n / 10), (ZERO + n % 10) as u8, 0);
    }
}

proof fn lemma_parse_length_digits(ds: Seq<u8>, tail: Seq<u8>, acc: nat)
    requires
        all_digits(ds),
        tail.len() > 0,
        tail[0] == COLON,
    ensures
        parse_length(ds + tail, acc) == Ok::<_, DataParseError>(
            (digits_value(ds, acc as int) as nat, tail.drop_first()),
        ),
    decreases ds.len(),
{
    let s = ds + tail;
    if ds.len() == 0 {
        assert(s =~= tail);
    } else {
        lemma_all_digits_tail(ds);
        assert(s[0] == ds[0]);
        assert(s.drop_first() =~= ds.drop_first() + tail);
        lemma_digits_value_grows(ds.drop_first(), acc * 10 + digit_value(ds[0]));
        lemma_parse_length_digits(
            ds.drop_first(),
            tail,
            (acc * 10 + digit_value(ds[0])) as nat,
        );
    }
}

proof fn lemma_parse_unsigned_digits(ds: Seq<u8>, tail: Seq<u8>, acc: nat)
    requires
        all_digits(ds),
        tail.len() > 0,
        tail[0] == END,
        digits_value(ds, acc as int) <= u64::MAX,
    ensures
        parse_unsigned(ds + tail, acc) == Ok::<_, DataParseError>(
            (Value::Int(digits_value(ds, acc as int)), tail.drop_first()),
        ),
    decreases ds.len(),
{
    let s = ds + tail;
    if ds.len() == 0 {
        assert(s =~= tail);
    } else {
        lemma_all_digits_tail(ds);
        assert(s[0] == ds[0]);
        assert(s.drop_first() =~= ds.drop_first() + tail);
        lemma_digits_value_grows(ds.drop_first(), acc * 10 + digit_value(ds[0]));
        lemma_parse_unsigned_digits(
            ds.drop_first(),
            tail,
            (acc * 10 + digit_value(ds[0])) as nat,
        );
    }
}

proof fn lemma_parse_negative_digits(ds: Seq<u8>, tail: Seq<u8>, acc: int)
    requires
        all_digits(ds),
        tail.len() > 0,
        tail[0] == END,
        acc <= 0,
        -digits_value(ds, -acc) >= i64::MIN,
    ensures
        parse_negative(ds + tail, acc) == Ok::<_, DataParseError>(
            (Value::Int(-digits_value(ds, -acc)), tail.drop_first()),
        ),
    decreases ds.len(),
{
    let s = ds + tail;
    if ds.len() == 0 {
        assert(s =~= tail);
    } else {
        lemma_all_digits_tail(ds);
        assert(s[0] == ds[0]);
        assert(s.drop_first() =~= ds.drop_first() + tail);
        lemma_digits_value_grows(ds.drop_first(), (-acc) * 10 + digit_value(ds[0]));
        assert(-(acc * 10 - digit_value(ds[0])) == (-acc) * 10 + digit_value(ds[0]));
        lemma_parse_negative_digits(ds.drop_first(), tail, acc * 10 - digit_value(ds[0]));
    }
}

/// Reading the wire form of a byte string yields the byte string.
pub proof fn lemma_bytes_round_trip(b: Seq<u8>, rest: Seq<u8>)
    ensures
        parse(bytes_encoding(b) + rest) == Ok::<_, DataParseError>((Value::Bytes(b), rest)),
{
    let ds = decimal(b.len());
    lemma_decimal(b.len());
    lemma_all_digits_tail(ds);
    let s = bytes_encoding(b) + rest;
    let tail = seq![COLON] + b + rest;
    assert(s =~= ds + tail);
    assert(s[0] == ds[0]);
    assert(s.drop_first() =~= ds.drop_first() + tail);
    lemma_parse_length_digits(ds.drop_first(), tail, digit_value(ds[0]) as nat);
    assert(tail.drop_first() =~= b + rest);
    assert((b + rest).take(b.len() as int) =~= b);
    assert((b + rest).skip(b.len() as int) =~= rest);
}

/// Reading the wire form of an integer yields the integer.
pub proof fn lemma_int_round_trip(i: int, rest: Seq<u8>)
    requires
        i64::MIN <= i <= u64::MAX,
    ensures
        parse(encoding(Value::Int(i)) + rest) == Ok::<_, DataParseError>((Value::Int(i), rest)),
{
    let s = encoding(Value::Int(i)) + rest;
    let tail = seq![END] + rest;
    assert(tail.drop_first() =~= rest);
    if i < 0 {
        let ds = decimal((-i) as nat);
        lemma_decimal((-i) as nat);
        lemma_all_digits_tail(ds);
        assert(s =~= seq![INT_START, MINUS] + ds + tail);
        let t = s.drop_first();
        assert(t =~= seq![MINUS] + ds + tail);
        assert(t[0] == MINUS);
        assert(t[1] == ds[0]);
        assert(t.skip(2) =~= ds.drop_first() + tail);
        lemma_parse_negative_digits(ds.drop_first(), tail, -digit_value(ds[0]));
    } else {
        let ds = decimal(i as nat);
        lemma_decimal(i as nat);
        lemma_all_digits_tail(ds);
        assert(s =~= seq![INT_START] + ds + tail);
        let t = s.drop_first();
        assert(t =~= ds + tail);
        assert(t[0] == ds[0]);
        assert(t.drop_first() =~= ds.drop_first() + tail);
        lemma_parse_unsigned_digits(ds.drop_first(), tail, digit_value(ds[0]) as nat);
    }
}

/// Reading the wire form of a value yields the value and leaves what
/// followed it.
///
/// This holds of every value that can stand on the wire: one without the
/// closing delimiter, with integers between `i64::MIN` and `u64::MAX`, and
/// with dictionaries in ascending key order.
pub proof fn lemma_round_trip(v: Value, rest: Seq<u8>)
    requires
        v.encodable(),
    ensures
        parse(encoding(v) + rest) == Ok::<_, DataParseError>((v, rest)),
    decreases v,
{
    let s = encoding(v) + rest;
    match v {
        Value::Int(i) => {
            lemma_int_round_trip(i, rest);
        },
        Value::Bytes(b) => {
            lemma_bytes_round_trip(b, rest);
        },
        Value::List(items) => {
            assert(s[0] == LIST_START);
            assert(s.drop_first() =~= list_encoding(items) + seq![END] + rest);
            lemma_items_round_trip(items, Seq::empty(), rest);
            assert(Seq::<Value>::empty() + items =~= items);
        },
        Value::Dict(entries) => {
            assert(s[0] == DICT_START);
            assert(s.drop_first() =~= entries_encoding(entries) + seq![END] + rest);
            assert(Seq::<(Seq<u8>, Value)>::empty() + entries =~= entries);
            lemma_entries_round_trip(entries, Seq::empty(), rest);
        },
        Value::End => {},
    }
}

proof fn lemma_items_round_trip(items: Seq<Value>, acc: Seq<Value>, rest: Seq<u8>)
    requires
        forall|i: int| 0 <= i < items.len() ==> (#[trigger] items[i]).encodable(),
    ensures
        parse_items(list_encoding(items) + seq![END] + rest, acc) == Ok::<_, DataParseError>(
            (acc + items, rest),
        ),
    decreases items,
{
    let s = list_encoding(items) + seq![END] + rest;
    if items.len() == 0 {
        assert(s =~= seq![END] + rest);
        assert(s.drop_first() =~= rest);
        assert(acc + items =~= acc);
    } else {
        let tail = list_encoding(items.drop_first()) + seq![END] + rest;
        assert(s =~= encoding(items[0]) + tail);
        assert(items[0].encodable());
        lemma_round_trip(items[0], tail);
        lemma_parse_consumes(s);
        assert forall|i: int| 0 <= i < items.drop_first().len() implies (
        #[trigger] items.drop_first()[i]).encodable() by {
            assert(items.drop_first()[i] == items[i + 1]);
        }
        lemma_items_round_trip(items.drop_first(), acc.push(items[0]), rest);
        assert(acc.push(items[0]) + items.drop_first() =~= acc + items);
    }
}

proof fn lemma_entries_round_trip(
    entries: Seq<(Seq<u8>, Value)>,
    acc: Seq<(Seq<u8>, Value)>,
    rest: Seq<u8>,
)
    requires
        keys_ascending(acc + entries),
        forall|i: int| 0 <= i < entries.len() ==> (#[trigger] entries[i]).1.encodable(),
    ensures
        parse_entries(entries_encoding(entries) + seq![END] + rest, acc) == Ok::<
            _,
            DataParseError,
        >((acc + entries, rest)),
    decreases entries,
{
    let s = entries_encoding(entries) + seq![END] + rest;
    if entries.len() == 0 {
        assert(s =~= seq![END] + rest);
        assert(s.drop_first() =~= rest);
        assert(acc + entries =~= acc);
    } else {
        let key = entries[0].0;
        let value = entries[0].1;
        let tail = entries_encoding(entries.drop_first()) + seq![END] + rest;
        let middle = encoding(value) + tail;
        assert(s =~= bytes_encoding(key) + middle);
        lemma_bytes_round_trip(key, middle);
        lemma_parse_consumes(s);
        assert(value.encodable());
        lemma_round_trip(value, tail);
        lemma_parse_consumes(middle);
        let all = acc + entries;
        assert(all[acc.len() as int] == entries[0]);
        assert(!has_key(acc, key)) by {
            assert forall|i: int| 0 <= i < acc.len() implies #[trigger] acc[i].0 != key by {
                assert(all[i] == acc[i]);
                assert(bytes_lt(all[i].0, all[acc.len() as int].0));
                lemma_lt_irreflexive(key);
            }
        }
        assert(with_entry(acc, key, value) == acc.push(entries[0])) by {
            if acc.len() == 0 {
                assert(seq![(key, value)] =~= acc.push(entries[0]));
            } else {
                let last = acc.len() - 1;
                assert(all[last] == acc[last]);
                assert(bytes_lt(all[last].0, all[acc.len() as int].0));
                lemma_lt_irreflexive(key);
            }
        }
        assert(acc.push(entries[0]) + entries.drop_first() =~= acc + entries);
        assert forall|i: int| 0 <= i < entries.drop_first().len() implies (
        #[trigger] entries.drop_first()[i]).1.encodable() by {
            assert(entries.drop_first()[i] == entries[i + 1]);
        }
        lemma_entries_round_trip(entries.drop_first(), acc.push(entries[0]), rest);
    }
}

/// Decoding the wire form of a value yields the value again, with nothing
/// left over.
pub proof fn lemma_decode_encode(v: Value)
    requires
        v.encodable(),
    ensures
        parse_value(encoding(v)) == Ok::<_, DataParseError>((v, Seq::<u8>::empty())),
{
    lemma_round_trip(v, Seq::empty());
    assert(encoding(v) + Seq::<u8>::empty() =~= encoding(v));
}

/// Decoding what the encoder wrote for a value yields a value with the same
/// model, which is to say an equal value: integers compare by their number,
/// whichever variant holds them.
pub proof fn lemma_data_round_trip(data: Data)
    requires
        data.wf(),
        data@.complete(),
    ensures
        parse_value(encoding(data@)) == Ok::<_, DataParseError>((data@, Seq::<u8>::empty())),
{
    lemma_data_in_range(data);
    lemma_decode_encode(data@);
}

} // verus!
