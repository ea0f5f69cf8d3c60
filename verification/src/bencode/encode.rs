//! The bencode encoder.

use vstd::prelude::*;
use crate::bencode::data::{list_view, Data};
use crate::bencode::value::{
    bytes_encoding, decimal, encoding, entries_encoding, int_text, lemma_entries_encoding_push,
    lemma_entry_smaller, lemma_item_smaller, lemma_list_encoding_push, list_encoding, size, Value,
    COLON, DICT_START, END, INT_START, LIST_START, MINUS, ZERO,
};

verus! {

/// Appends the decimal digits of `n` to `out`.
pub fn push_decimal(n: u64, out: &mut Vec<u8>)
    ensures
        final(out)@ == old(out)@ + decimal(n as nat),
    decreases n,
{
    if n < 10 {
        out.push(ZERO + n as u8);
        assert(out@ =~= old(out)@ + decimal(n as nat));
    } else {
        push_decimal(n / 10, out);
        out.push(ZERO + (n % 10) as u8);
        assert(out@ =~= old(out)@ + decimal(n as nat));
    }
}

/// Appends the decimal text of `i` to `out`.
pub fn push_int_text(i: i128, out: &mut Vec<u8>)
    requires
        i64::MIN <= i <= u64::MAX,
    ensures
        final(out)@ == old(out)@ + int_text(i as int),
{
    if i < 0 {
        out.push(MINUS);
        push_decimal((-i) as u64, out);
        assert(out@ =~= old(out)@ + int_text(i as int));
    } else {
        push_decimal(i as u64, out);
    }
}

/// Appends the wire form of the byte string `bytes` to `out`.
pub fn push_bytes(bytes: &[u8], out: &mut Vec<u8>)
    ensures
        final(out)@ == old(out)@ + bytes_encoding(bytes@),
{
    push_decimal(bytes.len() as u64, out);
    out.push(COLON);
    let mut i: usize = 0;
    while i < bytes.len()
        invariant
            i <= bytes.len(),
            out@ == old(out)@ + decimal(bytes@.len()) + seq![COLON] + bytes@.take(i as int),
        decreases bytes.len() - i,
    {
        out.push(bytes[i]);
        i += 1;
        assert(out@ =~= old(out)@ + decimal(bytes@.len()) + seq![COLON] + bytes@.take(i as int));
    }
    assert(bytes@.take(i as int) =~= bytes@);
    assert(out@ =~= old(out)@ + bytes_encoding(bytes@));
}

/// Appends the wire form of `data` to `out`.
pub fn encode_into(data: &Data, out: &mut Vec<u8>)
    requires
        data@.complete(),
    ensures
        final(out)@ == old(out)@ + encoding(data@),
    decreases size(data@),
{
    match data {
        Data::Bytes(bytes) => {
            push_bytes(bytes.as_slice(), out);
        },
        Data::UInt(u) => {
            out.push(INT_START);
            push_int_text(*u as i128, out);
            out.push(END);
            assert(out@ =~= old(out)@ + encoding(data@));
        },
        Data::Int(i) => {
            out.push(INT_START);
            push_int_text(*i as i128, out);
            out.push(END);
            assert(out@ =~= old(out)@ + encoding(data@));
        },
        Data::List(items) => {
            out.push(LIST_START);
            let ghost all = list_view(items@);
            assert(all.take(0) =~= Seq::empty());
            let mut i: usize = 0;
            while i < items.len()
                invariant
                    i <= items.len(),
                    all == list_view(items@),
                    data@ == Value::List(all),
                    data@.complete(),
                    out@ == old(out)@ + seq![LIST_START] + list_encoding(all.take(i as int)),
                decreases items.len() - i,
            {
                proof {
                    lemma_item_smaller(all, i as int);
                    lemma_list_encoding_push(all.take(i as int), all[i as int]);
                    assert(all.take(i + 1) =~= all.take(i as int).push(all[i as int]));
                }
                let ghost before = out@;
                encode_into(&items[i], out);
                i += 1;
                assert(out@ =~= old(out)@ + seq![LIST_START] + list_encoding(all.take(i as int)));
            }
            assert(all.take(i as int) =~= all);
            out.push(END);
            assert(out@ =~= old(out)@ + encoding(data@));
        },
        Data::Dict(dict) => {
            out.push(DICT_START);
            let ghost all = dict@;
            assert(all.take(0) =~= Seq::empty());
            let mut i: usize = 0;
            while i < dict.len()
                invariant
                    i <= all.len(),
                    all == dict@,
                    data@ == Value::Dict(all),
                    data@.complete(),
                    out@ == old(out)@ + seq![DICT_START] + entries_encoding(all.take(i as int)),
                decreases all.len() - i,
            {
                proof {
                    lemma_entry_smaller(all, i as int);
                    lemma_entries_encoding_push(all.take(i as int), all[i as int]);
                    assert(all.take(i + 1) =~= all.take(i as int).push(all[i as int]));
                }
                push_bytes(dict.key_at(i).as_slice(), out);
                encode_into(dict.value_at(i), out);
                i += 1;
                assert(out@ =~= old(out)@ + seq![DICT_START] + entries_encoding(
                    all.take(i as int),
                ));
            }
            assert(all.take(i as int) =~= all);
            out.push(END);
            assert(out@ =~= old(out)@ + encoding(data@));
        },
        Data::End => {},
    }
}

/// The wire form of `data`.
pub fn encode(data: Data) -> (out: Vec<u8>)
    requires
        data@.complete(),
    ensures
        out@ == encoding(data@),
{
    let mut out: Vec<u8> = Vec::new();
    encode_into(&data, &mut out);
    assert(out@ =~= encoding(data@));
    out
}

} // verus!
