//! The bencode grammar as a function from input bytes to a parse result.

use vstd::prelude::*;
use crate::bencode::decode::DataParseError;
use crate::bencode::entries::{all_complete, lemma_with_entry_complete};
use crate::bencode::value::{
    has_key, with_entry, Value, COLON, DICT_START, END, INT_START, LIST_START, MINUS, NINE, ZERO,
};

verus! {

/// `b` is an ASCII decimal digit.
pub open spec fn is_digit(b: u8) -> bool {
    ZERO <= b <= NINE
}

/// The number that the ASCII digit `b` stands for.
pub open spec fn digit_value(b: u8) -> int {
    b - ZERO
}

/// Every byte of `ds` is a decimal digit.
pub open spec fn all_digits(ds: Seq<u8>) -> bool {
    forall|i: int| 0 <= i < ds.len() ==> is_digit(#[trigger] ds[i])
}

/// The number that the digits `ds` stand for when they follow digits that
/// stand for `acc`.
pub open spec fn digits_value(ds: Seq<u8>, acc: int) -> int
    decreases ds.len(),
{
    if ds.len() == 0 {
        acc
    } else {
        digits_value(ds.drop_first(), acc * 10 + digit_value(ds[0]))
    }
}

/// Digits that follow a number stand for a number that is not less.
pub proof fn lemma_digits_value_grows(ds: Seq<u8>, acc: int)
    requires
        acc >= 0,
        all_digits(ds),
    ensures
        digits_value(ds, acc) >= acc,
    decreases ds.len(),
{
    if ds.len() > 0 {
        assert(is_digit(ds[0]));
        assert forall|i: int| 0 <= i < ds.drop_first().len() implies is_digit(
            #[trigger] ds.drop_first()[i],
        ) by {
            assert(ds.drop_first()[i] == ds[i + 1]);
        }
        lemma_digits_value_grows(ds.drop_first(), acc * 10 + digit_value(ds[0]));
    }
}

/// The digits behind the first digit of a text of digits are digits.
pub proof fn lemma_all_digits_tail(ds: Seq<u8>)
    requires
        all_digits(ds),
        ds.len() > 0,
    ensures
        all_digits(ds.drop_first()),
        is_digit(ds[0]),
{
    assert forall|i: int| 0 <= i < ds.drop_first().len() implies is_digit(
        #[trigger] ds.drop_first()[i],
    ) by {
        assert(ds.drop_first()[i] == ds[i + 1]);
    }
}

/// Reads the rest of a length prefix: digits up to a colon, or up to the end
/// of the input. `acc` is the number read so far. Yields the length and the
/// input behind the colon.
pub open spec fn parse_length(s: Seq<u8>, acc: nat) -> Result<(nat, Seq<u8>), DataParseError>
    decreases s.len(),
{
    if s.len() == 0 {
        Ok((acc, s))
    } else if s[0] == COLON {
        Ok((acc, s.drop_first()))
    } else if is_digit(s[0]) {
        parse_length(s.drop_first(), (acc * 10 + digit_value(s[0])) as nat)
    } else {
        Err(DataParseError("Unexpected non-number."))
    }
}

/// Reads a byte string whose first byte, a digit, is `s[0]`: the length
/// prefix, then exactly that many bytes.
pub open spec fn parse_bytes(s: Seq<u8>) -> Result<(Value, Seq<u8>), DataParseError> {
    match parse_length(s.drop_first(), digit_value(s[0]) as nat) {
        Err(e) => Err(e),
        Ok((len, rest)) => if rest.len() < len {
            Err(DataParseError("Unexpected end of data."))
        } else {
            Ok((Value::Bytes(rest.take(len as int)), rest.skip(len as int)))
        },
    }
}

/// Reads the rest of a non-negative integer up to its `e`. `acc` is the
/// number read so far. The digit that takes the number past `u64::MAX` is an
/// error.
pub open spec fn parse_unsigned(s: Seq<u8>, acc: nat) -> Result<(Value, Seq<u8>), DataParseError>
    decreases s.len(),
{
    if s.len() == 0 {
        Err(DataParseError("Unexpected non-digit character."))
    } else if s[0] == END {
        Ok((Value::Int(acc as int), s.drop_first()))
    } else if is_digit(s[0]) {
        if acc * 10 + digit_value(s[0]) > u64::MAX {
            Err(DataParseError("Integer overflow (unsigned 64-bit)"))
        } else {
            parse_unsigned(s.drop_first(), (acc * 10 + digit_value(s[0])) as nat)
        }
    } else {
        Err(DataParseError("Unexpected non-digit character."))
    }
}

/// Reads the rest of a negative integer up to its `e`. `acc`, at most zero,
/// is the number read so far. The digit that takes the number below
/// `i64::MIN` is an error.
pub open spec fn parse_negative(s: Seq<u8>, acc: int) -> Result<(Value, Seq<u8>), DataParseError>
    decreases s.len(),
{
    if s.len() == 0 {
        Err(DataParseError("Unexpected non-digit character."))
    } else if s[0] == END {
        Ok((Value::Int(acc), s.drop_first()))
    } else if is_digit(s[0]) {
        if acc * 10 - digit_value(s[0]) < i64::MIN {
            Err(DataParseError("Integer overflow (signed 64-bit)."))
        } else {
            parse_negative(s.drop_first(), acc * 10 - digit_value(s[0]))
        }
    } else {
        Err(DataParseError("Unexpected non-digit character."))
    }
}

/// Reads an integer; `s` is the input behind the `i`. A digit starts a
/// non-negative number. A minus sign must be followed by a digit and starts
/// a negative one. Leading zeros and `-0` are read as they stand.
pub open spec fn parse_integer(s: Seq<u8>) -> Result<(Value, Seq<u8>), DataParseError> {
    if s.len() == 0 {
        Err(DataParseError("Unexpected non-digit character"))
    } else if is_digit(s[0]) {
        parse_unsigned(s.drop_first(), digit_value(s[0]) as nat)
    } else if s[0] == MINUS {
        if s.len() >= 2 && is_digit(s[1]) {
            parse_negative(s.skip(2), -digit_value(s[1]))
        } else {
            Err(DataParseError("Unexpected non-digit character."))
        }
    } else {
        Err(DataParseError("Unexpected non-digit character"))
    }
}

/// Reads one item from the front of `s` and yields it with the input that
/// follows it. A lone `e` reads as [`Value::End`]. The first error ends the
/// parse.
pub open spec fn parse(s: Seq<u8>) -> Result<(Value, Seq<u8>), DataParseError>
    decreases s.len(), 0nat,
{
    if s.len() == 0 {
        Err(DataParseError("Empty string."))
    } else if is_digit(s[0]) {
        parse_bytes(s)
    } else if s[0] == END {
        Ok((Value::End, s.drop_first()))
    } else if s[0] == INT_START {
        parse_integer(s.drop_first())
    } else if s[0] == LIST_START {
        match parse_items(s.drop_first(), Seq::empty()) {
            Ok((items, rest)) => Ok((Value::List(items), rest)),
            Err(e) => Err(e),
        }
    } else if s[0] == DICT_START {
        match parse_entries(s.drop_first(), Seq::empty()) {
            Ok((entries, rest)) => Ok((Value::Dict(entries), rest)),
            Err(e) => Err(e),
        }
    } else {
        Err(DataParseError("Unexpected data type."))
    }
}

/// Reads list items up to the closing `e` and appends them to `acc`.
///
/// An item always takes at least one byte ([`lemma_parse_consumes`]); the
/// test on the lengths only shows that the recursion ends.
pub open spec fn parse_items(s: Seq<u8>, acc: Seq<Value>) -> Result<
    (Seq<Value>, Seq<u8>),
    DataParseError,
>
    decreases s.len(), 1nat,
{
    match parse(s) {
        Err(e) => Err(e),
        Ok((Value::End, rest)) => Ok((acc, rest)),
        Ok((item, rest)) => if rest.len() < s.len() {
            parse_items(rest, acc.push(item))
        } else {
            Err(DataParseError("Empty string."))
        },
    }
}

/// Reads dictionary entries up to the closing `e` and adds them to `acc`.
///
/// A key must be a byte string, must be followed by a value, and must not be
/// bound already. The entries need not come in key order: each goes where
/// its key belongs.
///
/// An item always takes at least one byte ([`lemma_parse_consumes`]); the
/// tests on the lengths only show that the recursion ends.
pub open spec fn parse_entries(s: Seq<u8>, acc: Seq<(Seq<u8>, Value)>) -> Result<
    (Seq<(Seq<u8>, Value)>, Seq<u8>),
    DataParseError,
>
    decreases s.len(), 1nat,
{
    match parse(s) {
        Err(e) => Err(e),
        Ok((Value::End, rest)) => Ok((acc, rest)),
        Ok((Value::Bytes(key), rest)) => if rest.len() < s.len() {
            match parse(rest) {
                Err(e) => Err(e),
                Ok((Value::End, _)) => Err(DataParseError("Unexpected end of dictionary.")),
                Ok((value, rest2)) => if has_key(acc, key) {
                    Err(DataParseError("Duplicate key in dictionary."))
                } else if rest2.len() < s.len() {
                    parse_entries(rest2, with_entry(acc, key, value))
                } else {
                    Err(DataParseError("Empty string."))
                },
            }
        } else {
            Err(DataParseError("Empty string."))
        },
        Ok(_) => Err(DataParseError("Unexpected non-key type.")),
    }
}

/// Reads one value from the front of `s`. A closing delimiter where a value
/// should start is an error, so the result never holds [`Value::End`].
pub open spec fn parse_value(s: Seq<u8>) -> Result<(Value, Seq<u8>), DataParseError> {
    match parse(s) {
        Ok((Value::End, _)) => Err(DataParseError("Unexpected data type.")),
        r => r,
    }
}

/// A parsed item takes at least one byte, and what is left is the tail of the
/// input.
pub proof fn lemma_parse_consumes(s: Seq<u8>)
    ensures
        parse(s) matches Ok((_, rest)) ==> rest.len() < s.len() && rest == s.skip(
            s.len() - rest.len(),
        ),
    decreases s.len(), 0nat,
{
    if s.len() == 0 {
    } else if is_digit(s[0]) {
        lemma_parse_length_consumes(s.drop_first(), digit_value(s[0]) as nat);
    } else if s[0] == END {
    } else if s[0] == INT_START {
        let t = s.drop_first();
        if t.len() == 0 {
        } else if is_digit(t[0]) {
            lemma_parse_unsigned_consumes(t.drop_first(), digit_value(t[0]) as nat);
        } else if t[0] == MINUS {
            if t.len() >= 2 && is_digit(t[1]) {
                lemma_parse_negative_consumes(t.skip(2), -digit_value(t[1]));
            }
        }
    } else if s[0] == LIST_START {
        lemma_parse_items_consumes(s.drop_first(), Seq::empty());
    } else if s[0] == DICT_START {
        lemma_parse_entries_consumes(s.drop_first(), Seq::empty());
    }
}

proof fn lemma_parse_length_consumes(s: Seq<u8>, acc: nat)
    ensures
        parse_length(s, acc) matches Ok((_, rest)) ==> rest.len() <= s.len() && rest == s.skip(
            s.len() - rest.len(),
        ),
    decreases s.len(),
{
    if s.len() > 0 && s[0] != COLON && is_digit(s[0]) {
        lemma_parse_length_consumes(s.drop_first(), (acc * 10 + digit_value(s[0])) as nat);
    }
}

proof fn lemma_parse_unsigned_consumes(s: Seq<u8>, acc: nat)
    ensures
        parse_unsigned(s, acc) matches Ok((_, rest)) ==> rest.len() < s.len() && rest == s.skip(
            s.len() - rest.len(),
        ),
    decreases s.len(),
{
    if s.len() > 0 && s[0] != END && is_digit(s[0]) && acc * 10 + digit_value(s[0]) <= u64::MAX {
        lemma_parse_unsigned_consumes(s.drop_first(), (acc * 10 + digit_value(s[0])) as nat);
    }
}

proof fn lemma_parse_negative_consumes(s: Seq<u8>, acc: int)
    ensures
        parse_negative(s, acc) matches Ok((_, rest)) ==> rest.len() < s.len() && rest == s.skip(
            s.len() - rest.len(),
        ),
    decreases s.len(),
{
    if s.len() > 0 && s[0] != END && is_digit(s[0]) && acc * 10 - digit_value(s[0]) >= i64::MIN {
        lemma_parse_negative_consumes(s.drop_first(), acc * 10 - digit_value(s[0]));
    }
}

proof fn lemma_parse_items_consumes(s: Seq<u8>, acc: Seq<Value>)
    ensures
        parse_items(s, acc) matches Ok((_, rest)) ==> rest.len() < s.len() && rest == s.skip(
            s.len() - rest.len(),
        ),
    decreases s.len(), 1nat,
{
    lemma_parse_consumes(s);
    match parse(s) {
        Ok((Value::End, rest)) => {},
        Ok((item, rest)) => {
            lemma_parse_items_consumes(rest, acc.push(item));
        },
        Err(_) => {},
    }
}

proof fn lemma_parse_entries_consumes(s: Seq<u8>, acc: Seq<(Seq<u8>, Value)>)
    ensures
        parse_entries(s, acc) matches Ok((_, rest)) ==> rest.len() < s.len() && rest == s.skip(
            s.len() - rest.len(),
        ),
    decreases s.len(), 1nat,
{
    lemma_parse_consumes(s);
    match parse(s) {
        Ok((Value::Bytes(key), rest)) => {
            lemma_parse_consumes(rest);
            match parse(rest) {
                Ok((Value::End, _)) => {},
                Ok((value, rest2)) => {
                    if !has_key(acc, key) {
                        lemma_parse_entries_consumes(rest2, with_entry(acc, key, value));
                    }
                },
                Err(_) => {},
            }
        },
        _ => {},
    }
}

/// The closing delimiter never stands inside a parsed item: the item is the
/// delimiter itself or free of it.
pub proof fn lemma_parse_complete(s: Seq<u8>)
    ensures
        parse(s) matches Ok((item, _)) ==> item is End || item.complete(),
    decreases s.len(), 0nat,
{
    if s.len() == 0 {
    } else if is_digit(s[0]) {
    } else if s[0] == END {
    } else if s[0] == INT_START {
        let t = s.drop_first();
        if t.len() == 0 {
        } else if is_digit(t[0]) {
            lemma_parse_unsigned_complete(t.drop_first(), digit_value(t[0]) as nat);
        } else if t[0] == MINUS {
            if t.len() >= 2 && is_digit(t[1]) {
                lemma_parse_negative_complete(t.skip(2), -digit_value(t[1]));
            }
        }
    } else if s[0] == LIST_START {
        lemma_parse_items_complete(s.drop_first(), Seq::empty());
    } else if s[0] == DICT_START {
        lemma_parse_entries_complete(s.drop_first(), Seq::empty());
    }
}

proof fn lemma_parse_unsigned_complete(s: Seq<u8>, acc: nat)
    ensures
        parse_unsigned(s, acc) matches Ok((item, _)) ==> item.complete(),
    decreases s.len(),
{
    if s.len() > 0 && s[0] != END && is_digit(s[0]) && acc * 10 + digit_value(s[0]) <= u64::MAX {
        lemma_parse_unsigned_complete(s.drop_first(), (acc * 10 + digit_value(s[0])) as nat);
    }
}

proof fn lemma_parse_negative_complete(s: Seq<u8>, acc: int)
    ensures
        parse_negative(s, acc) matches Ok((item, _)) ==> item.complete(),
    decreases s.len(),
{
    if s.len() > 0 && s[0] != END && is_digit(s[0]) && acc * 10 - digit_value(s[0]) >= i64::MIN {
        lemma_parse_negative_complete(s.drop_first(), acc * 10 - digit_value(s[0]));
    }
}

proof fn lemma_parse_items_complete(s: Seq<u8>, acc: Seq<Value>)
    requires
        forall|i: int| 0 <= i < acc.len() ==> (#[trigger] acc[i]).complete(),
    ensures
        parse_items(s, acc) matches Ok((items, _)) ==> forall|i: int|
            0 <= i < items.len() ==> (#[trigger] items[i]).complete(),
    decreases s.len(), 1nat,
{
    lemma_parse_complete(s);
    match parse(s) {
        Ok((Value::End, rest)) => {},
        Ok((item, rest)) => {
            if rest.len() < s.len() {
                lemma_parse_items_complete(rest, acc.push(item));
            }
        },
        Err(_) => {},
    }
}

proof fn lemma_parse_entries_complete(s: Seq<u8>, acc: Seq<(Seq<u8>, Value)>)
    requires
        all_complete(acc),
    ensures
        parse_entries(s, acc) matches Ok((entries, _)) ==> all_complete(entries),
    decreases s.len(), 1nat,
{
    match parse(s) {
        Ok((Value::Bytes(key), rest)) => {
            if rest.len() < s.len() {
                lemma_parse_complete(rest);
                match parse(rest) {
                    Ok((Value::End, _)) => {},
                    Ok((value, rest2)) => {
                        if !has_key(acc, key) && rest2.len() < s.len() {
                            lemma_with_entry_complete(acc, key, value);
                            lemma_parse_entries_complete(rest2, with_entry(acc, key, value));
                        }
                    },
                    Err(_) => {},
                }
            }
        },
        _ => {},
    }
}

/// A parsed value is free of the closing delimiter.
pub proof fn lemma_parse_value_complete(s: Seq<u8>)
    ensures
        parse_value(s) matches Ok((value, _)) ==> value.complete(),
{
    lemma_parse_complete(s);
}

} // verus!
