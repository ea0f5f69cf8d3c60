//! The bencode decoder.

use vstd::prelude::*;
use vstd::slice::slice_to_vec;
use vstd::string::StringSliceAdditionalSpecFns;
use crate::bencode::data::{list_view, Data, FromData, FromDataError};
use crate::bencode::dictionary::Dictionary;
use crate::bencode::entries::lemma_lookup_has_key;
use crate::bencode::grammar::{
    digit_value, is_digit, lemma_parse_consumes, lemma_parse_value_complete, parse, parse_entries,
    parse_items, parse_length, parse_negative, parse_unsigned, parse_value,
};
use crate::bencode::value::{
    Value, COLON, DICT_START, END, INT_START, LIST_START, MINUS, NINE, ZERO,
};

verus! {

/// Why an input is not bencode: a fixed description of the first fault found.
#[derive(Debug, PartialEq)]
pub struct DataParseError(pub &'static str);

impl DataParseError {
    /// The description of the fault.
    pub fn message(&self) -> (text: &'static str)
        ensures
            text == self.0,
    {
        self.0
    }
}

/// A byte sequence that is read from the front, one position at a time.
#[derive(Debug)]
pub struct ByteCursor {
    data: Vec<u8>,
    pos: usize,
}

impl ByteCursor {
    /// The bytes that have not been read yet.
    pub closed spec fn remaining(&self) -> Seq<u8> {
        if self.pos <= self.data.len() {
            self.data@.skip(self.pos as int)
        } else {
            Seq::empty()
        }
    }

    /// A cursor at the front of `data`.
    pub fn new(data: Vec<u8>) -> (cursor: ByteCursor)
        ensures
            cursor.remaining() == data@,
    {
        let cursor = ByteCursor { data, pos: 0 };
        assert(cursor.remaining() =~= data@);
        cursor
    }

    /// Reads one byte, if one is left.
    pub fn next(&mut self) -> (byte: Option<u8>)
        ensures
            old(self).remaining().len() == 0 ==> byte is None && final(self).remaining() == old(
                self).remaining(),
            old(self).remaining().len() > 0 ==> byte == Some(old(self).remaining()[0]) && final(
                self).remaining() == old(self).remaining().drop_first(),
    {
        if self.pos < self.data.len() {
            let byte = self.data[self.pos];
            self.pos += 1;
            assert(self.remaining() =~= old(self).remaining().drop_first());
            Some(byte)
        } else {
            None
        }
    }

    /// Reads the next `count` bytes, or nothing where fewer are left.
    pub fn take(&mut self, count: usize) -> (bytes: Option<Vec<u8>>)
        ensures
            old(self).remaining().len() < count ==> bytes is None && final(self).remaining() == old(
                self).remaining(),
            old(self).remaining().len() >= count ==> (bytes matches Some(v) && v@ == old(
                self).remaining().take(count as int)) && final(self).remaining() == old(
                self).remaining().skip(count as int),
    {
        if count == 0 {
            assert(self.remaining().take(0) =~= Seq::<u8>::empty());
            assert(self.remaining().skip(0) =~= self.remaining());
            return Some(Vec::new());
        }
        if self.pos > self.data.len() || self.data.len() - self.pos < count {
            return None;
        }
        let mut out: Vec<u8> = Vec::new();
        let end: usize = self.pos + count;
        let mut i: usize = self.pos;
        while i < end
            invariant
                self.pos <= i <= end,
                end <= self.data.len(),
                out@ == self.data@.subrange(self.pos as int, i as int),
            decreases end - i,
        {
            out.push(self.data[i]);
            i += 1;
            assert(out@ =~= self.data@.subrange(self.pos as int, i as int));
        }
        assert(out@ =~= old(self).remaining().take(count as int));
        self.pos = end;
        assert(self.remaining() =~= old(self).remaining().skip(count as int));
        Some(out)
    }
}

/// The value of an ASCII decimal digit; nothing for any other byte.
pub fn to_dec_digit(byte: u8) -> (digit: Option<u8>)
    ensures
        is_digit(byte) ==> digit == Some(digit_value(byte) as u8),
        !is_digit(byte) ==> digit is None,
{
    if ZERO <= byte && byte <= NINE {
        Some(byte - ZERO)
    } else {
        None
    }
}

/// Reads a byte string whose first length digit, `first`, has been read.
fn decode_bytes(bytes: &mut ByteCursor, first: u8) -> (r: Result<Data, DataParseError>)
    requires
        first <= 9,
    ensures
        match parse_length(old(bytes).remaining(), first as nat) {
            Err(e) => r matches Err(x) && x == e,
            Ok((len, rest)) => if rest.len() < len {
                r matches Err(x) && x == DataParseError("Unexpected end of data.")
            } else {
                &&& r matches Ok(Data::Bytes(b)) && b@ == rest.take(len as int)
                &&& final(bytes).remaining() == rest.skip(len as int)
            },
        },
{
    let ghost start = bytes.remaining();
    let ghost mut acc: nat = first as nat;
    let mut len: u64 = first as u64;
    let mut huge = false;
    loop
        invariant_except_break
            parse_length(start, first as nat) == parse_length(bytes.remaining(), acc),
        invariant
            start == old(bytes).remaining(),
            !huge ==> len == acc,
            huge ==> acc > u64::MAX,
        ensures
            parse_length(start, first as nat) == Ok::<_, DataParseError>(
                (acc, bytes.remaining()),
            ),
        decreases bytes.remaining().len(),
    {
        match bytes.next() {
            None => {
                break ;
            },
            Some(byte) => {
                if byte == COLON {
                    break ;
                }
                match to_dec_digit(byte) {
                    Some(digit) => {
                        proof {
                            acc = acc * 10 + digit as nat;
                        }
                        let next: u128 = len as u128 * 10 + digit as u128;
                        if !huge && next <= u64::MAX as u128 {
                            len = next as u64;
                        } else {
                            huge = true;
                        }
                    },
                    None => {
                        return Err(DataParseError("Unexpected non-number."));
                    },
                }
            },
        }
    }
    if huge || len > usize::MAX as u64 {
        return Err(DataParseError("Unexpected end of data."));
    }
    match bytes.take(len as usize) {
        Some(buf) => Ok(Data::Bytes(buf)),
        None => Err(DataParseError("Unexpected end of data.")),
    }
}

/// Reads a non-negative integer whose first digit, `first`, has been read.
fn decode_unsigned(bytes: &mut ByteCursor, first: u8) -> (r: Result<Data, DataParseError>)
    requires
        first <= 9,
    ensures
        match parse_unsigned(old(bytes).remaining(), first as nat) {
            Err(e) => r matches Err(x) && x == e,
            Ok((v, rest)) => {
                &&& r matches Ok(Data::UInt(u)) && v == Value::Int(u as int)
                &&& final(bytes).remaining() == rest
            },
        },
{
    let ghost start = bytes.remaining();
    let mut u: u64 = first as u64;
    loop
        invariant
            start == old(bytes).remaining(),
            parse_unsigned(start, first as nat) == parse_unsigned(bytes.remaining(), u as nat),
        decreases bytes.remaining().len(),
    {
        match bytes.next() {
            None => {
                return Err(DataParseError("Unexpected non-digit character."));
            },
            Some(byte) => {
                if byte == END {
                    return Ok(Data::UInt(u));
                }
                match to_dec_digit(byte) {
                    Some(digit) => {
                        let next: u128 = u as u128 * 10 + digit as u128;
                        if next > u64::MAX as u128 {
                            return Err(DataParseError("Integer overflow (unsigned 64-bit)"));
                        }
                        u = next as u64;
                    },
                    None => {
                        return Err(DataParseError("Unexpected non-digit character."));
                    },
                }
            },
        }
    }
}

/// Reads a negative integer whose minus sign and first digit, `first`, have
/// been read.
fn decode_negative(bytes: &mut ByteCursor, first: u8) -> (r: Result<Data, DataParseError>)
    requires
        first <= 9,
    ensures
        match parse_negative(old(bytes).remaining(), -(first as int)) {
            Err(e) => r matches Err(x) && x == e,
            Ok((v, rest)) => {
                &&& r matches Ok(d) && d@ == v && d.normal() && (d is Int || d is UInt)
                &&& final(bytes).remaining() == rest
            },
        },
{
    let ghost start = bytes.remaining();
    let mut i: i64 = -(first as i64);
    loop
        invariant
            start == old(bytes).remaining(),
            i <= 0,
            parse_negative(start, -(first as int)) == parse_negative(bytes.remaining(), i as int),
        decreases bytes.remaining().len(),
    {
        match bytes.next() {
            None => {
                return Err(DataParseError("Unexpected non-digit character."));
            },
            Some(byte) => {
                if byte == END {
                    return Ok(
                        if i < 0 {
                            Data::Int(i)
                        } else {
                            Data::UInt(0)
                        },
                    );
                }
                match to_dec_digit(byte) {
                    Some(digit) => {
                        let next: i128 = i as i128 * 10 - digit as i128;
                        if next < i64::MIN as i128 {
                            return Err(DataParseError("Integer overflow (signed 64-bit)."));
                        }
                        i = next as i64;
                    },
                    None => {
                        return Err(DataParseError("Unexpected non-digit character."));
                    },
                }
            },
        }
    }
}

/// Reads one item from the cursor: a value, or the closing delimiter of the
/// list or dictionary that is being read, which comes back as [`Data::End`].
/// After an error the cursor stands somewhere in the input.
fn decode_item(bytes: &mut ByteCursor) -> (r: Result<Data, DataParseError>)
    ensures
        match parse(old(bytes).remaining()) {
            Err(e) => r matches Err(x) && x == e,
            Ok((v, rest)) => {
                &&& r matches Ok(d) && d@ == v && d.wf() && d.normal()
                &&& final(bytes).remaining() == rest
            },
        },
    decreases old(bytes).remaining().len(),
{
    let ghost input = bytes.remaining();
    let start = match bytes.next() {
        Some(byte) => byte,
        None => {
            return Err(DataParseError("Empty string."));
        },
    };
    if let Some(first) = to_dec_digit(start) {
        return decode_bytes(bytes, first);
    }
    if start == END {
        Ok(Data::End)
    } else if start == INT_START {
        let ghost after = bytes.remaining();
        match bytes.next() {
            None => Err(DataParseError("Unexpected non-digit character")),
            Some(byte) => {
                if let Some(first) = to_dec_digit(byte) {
                    decode_unsigned(bytes, first)
                } else if byte == MINUS {
                    match bytes.next() {
                        None => Err(DataParseError("Unexpected non-digit character.")),
                        Some(digit) => match to_dec_digit(digit) {
                            Some(first) => {
                                assert(bytes.remaining() =~= after.skip(2));
                                decode_negative(bytes, first)
                            },
                            None => Err(DataParseError("Unexpected non-digit character.")),
                        },
                    }
                } else {
                    Err(DataParseError("Unexpected non-digit character"))
                }
            },
        }
    } else if start == LIST_START {
        let mut items: Vec<Data> = Vec::new();
        assert(list_view(items@) =~= Seq::empty());
        loop
            invariant_except_break
                parse_items(input.drop_first(), Seq::empty()) == parse_items(
                    bytes.remaining(),
                    list_view(items@),
                ),
            invariant
                input == old(bytes).remaining(),
                input.len() > 0 && input[0] == LIST_START,
                bytes.remaining().len() < input.len(),
                forall|k: int|
                    0 <= k < items.len() ==> (#[trigger] items@[k]).wf() && items@[k].normal(),
            ensures
                parse_items(input.drop_first(), Seq::empty()) == Ok::<_, DataParseError>(
                    (list_view(items@), bytes.remaining()),
                ),
            decreases bytes.remaining().len(),
        {
            let ghost before = items@;
            proof {
                lemma_parse_consumes(bytes.remaining());
            }
            match decode_item(bytes) {
                Ok(Data::End) => {
                    break ;
                },
                Ok(item) => {
                    items.push(item);
                    assert(list_view(items@) =~= list_view(before).push(item@));
                },
                Err(e) => {
                    return Err(e);
                },
            }
        }
        Ok(Data::List(items))
    } else if start == DICT_START {
        let mut dict = Dictionary::new();
        loop
            invariant_except_break
                parse_entries(input.drop_first(), Seq::empty()) == parse_entries(
                    bytes.remaining(),
                    dict@,
                ),
            invariant
                input == old(bytes).remaining(),
                input.len() > 0 && input[0] == DICT_START,
                bytes.remaining().len() < input.len(),
                dict.wf(),
                dict.normal(),
            ensures
                parse_entries(input.drop_first(), Seq::empty()) == Ok::<_, DataParseError>(
                    (dict@, bytes.remaining()),
                ),
            decreases bytes.remaining().len(),
        {
            let ghost entries = dict@;
            proof {
                lemma_parse_consumes(bytes.remaining());
            }
            let key = match decode_item(bytes) {
                Ok(Data::End) => {
                    break ;
                },
                Ok(Data::Bytes(key)) => key,
                Ok(_) => {
                    return Err(DataParseError("Unexpected non-key type."));
                },
                Err(e) => {
                    return Err(e);
                },
            };
            proof {
                lemma_parse_consumes(bytes.remaining());
            }
            let value = match decode_item(bytes) {
                Ok(Data::End) => {
                    return Err(DataParseError("Unexpected end of dictionary."));
                },
                Ok(value) => value,
                Err(e) => {
                    return Err(e);
                },
            };
            proof {
                lemma_lookup_has_key(entries, key@);
            }
            if let Some(_) = dict.insert(key, value) {
                return Err(DataParseError("Duplicate key in dictionary."));
            }
        }
        Ok(Data::Dict(dict))
    } else {
        Err(DataParseError("Unexpected data type."))
    }
}

/// Reads one value from the cursor and leaves the cursor behind it. After an
/// error the cursor stands somewhere in the input.
pub fn decode(bytes: &mut ByteCursor) -> (r: Result<Data, DataParseError>)
    ensures
        match parse_value(old(bytes).remaining()) {
            Err(e) => r matches Err(x) && x == e,
            Ok((v, rest)) => {
                &&& r matches Ok(d) && d@ == v && d.wf() && d.normal() && d@.complete()
                &&& final(bytes).remaining() == rest
            },
        },
{
    proof {
        lemma_parse_value_complete(bytes.remaining());
    }
    match decode_item(bytes) {
        Ok(Data::End) => Err(DataParseError("Unexpected data type.")),
        r => r,
    }
}

/// Reads one value from the front of `data`. What follows the value in
/// `data` is not looked at.
pub fn decode_vec(data: Vec<u8>) -> (r: Result<Data, DataParseError>)
    ensures
        match parse_value(data@) {
            Err(e) => r matches Err(x) && x == e,
            Ok((v, _)) => r matches Ok(d) && d@ == v && d.wf() && d.normal()
                && d@.complete(),
        },
{
    let mut bytes = ByteCursor::new(data);
    decode(&mut bytes)
}

/// Reads one value from the cursor and converts it. The outer result tells
/// whether the input was bencode, the inner one whether the value had the
/// shape that `T` asks for.
pub fn try_decode_from<T: FromData>(bytes: &mut ByteCursor) -> (r: Result<
    Result<T, FromDataError>,
    DataParseError,
>)
    ensures
        match parse_value(old(bytes).remaining()) {
            Err(e) => r matches Err(x) && x == e,
            Ok((v, rest)) => {
                &&& final(bytes).remaining() == rest
                &&& match T::from_value(v) {
                    Some(m) => r matches Ok(Ok(x)) && x.model() == m,
                    None => r matches Ok(Err(_)),
                }
            },
        },
{
    match decode(bytes) {
        Ok(data) => Ok(T::from_data(data)),
        Err(e) => Err(e),
    }
}

/// Reads one value from the front of `data` and converts it.
pub fn try_decode_from_vec<T: FromData>(data: Vec<u8>) -> (r: Result<
    Result<T, FromDataError>,
    DataParseError,
>)
    ensures
        match parse_value(data@) {
            Err(e) => r matches Err(x) && x == e,
            Ok((v, _)) => match T::from_value(v) {
                Some(m) => r matches Ok(Ok(x)) && x.model() == m,
                None => r matches Ok(Err(_)),
            },
        },
{
    let mut bytes = ByteCursor::new(data);
    try_decode_from(&mut bytes)
}

/// Reads one value from the front of the bytes of `data` and converts it.
pub fn try_decode_from_str<T: FromData>(data: &str) -> (r: Result<
    Result<T, FromDataError>,
    DataParseError,
>)
    ensures
        match parse_value(data.spec_bytes()) {
            Err(e) => r matches Err(x) && x == e,
            Ok((v, _)) => match T::from_value(v) {
                Some(m) => r matches Ok(Ok(x)) && x.model() == m,
                None => r matches Ok(Err(_)),
            },
        },
{
    try_decode_from_vec(slice_to_vec(data.as_bytes()))
}

} // verus!
