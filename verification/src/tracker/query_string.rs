//! The query string of an announce request: percent-encoded keys and values.

use vstd::prelude::*;
use vstd::slice::slice_subrange;
use vstd::std_specs::cmp::PartialEqSpecImpl;
use vstd::string::StringSliceAdditionalSpecFns;
use crate::bencode::data::{reversed, Data};
use crate::bencode::dictionary::Dictionary;
use crate::bencode::entries::{all_values, lemma_with_entry_keeps, lemma_without_key_keeps};
use crate::bencode::value::{lookup, with_entries, with_entry, without_key, Value};

verus! {

/// `%`, which opens an escaped byte.
pub const PERCENT: u8 = 37;

/// `&`, which parts the pairs of a query string.
pub const AMPERSAND: u8 = 38;

/// `=`, which parts a key from its value.
pub const EQUALS: u8 = 61;

/// A value is a byte string.
pub open spec fn is_bytes(v: Value) -> bool {
    v is Bytes
}

/// The keys and values of a query string. Each key occurs once.
#[derive(Debug)]
pub struct QueryString {
    pairs: Dictionary,
}

impl View for QueryString {
    type V = Seq<(Seq<u8>, Value)>;

    /// The pairs in ascending key order, each value a byte string.
    closed spec fn view(&self) -> Seq<(Seq<u8>, Value)> {
        self.pairs@
    }
}

/// The byte string under `key`, if the key is there.
pub open spec fn text_at(pairs: Seq<(Seq<u8>, Value)>, key: Seq<u8>) -> Option<Seq<u8>> {
    match lookup(pairs, key) {
        Some(Value::Bytes(text)) => Some(text),
        _ => None,
    }
}

/// The pairs of a vector as dictionary entries.
pub open spec fn text_pairs(pairs: Seq<(Vec<u8>, Vec<u8>)>) -> Seq<(Seq<u8>, Value)> {
    Seq::new(pairs.len(), |i: int| (pairs[i].0@, Value::Bytes(pairs[i].1@)))
}

impl QueryString {
    /// The keys are strictly ascending and every value is a byte string.
    pub open spec fn wf(&self) -> bool {
        Value::Dict(self@).canonical() && all_values(self@, |v: Value| is_bytes(v))
    }

    /// The query string without pairs.
    pub fn new() -> (query: QueryString)
        ensures
            query@ == Seq::<(Seq<u8>, Value)>::empty(),
            query.wf(),
    {
        QueryString { pairs: Dictionary::new() }
    }

    /// Binds `key` to `value`; an earlier value of the key is dropped.
    pub fn insert(&mut self, key: Vec<u8>, value: Vec<u8>)
        requires
            old(self).wf(),
        ensures
            final(self)@ == with_entry(old(self)@, key@, Value::Bytes(value@)),
            final(self).wf(),
    {
        proof {
            lemma_with_entry_keeps(self@, key@, Value::Bytes(value@), |v: Value| is_bytes(v));
        }
        self.pairs.insert(key, Data::Bytes(value));
    }

    /// The query string of the given pairs. Of two pairs with the same key
    /// the later one wins.
    pub fn from(pairs: Vec<(Vec<u8>, Vec<u8>)>) -> (query: QueryString)
        ensures
            query@ == with_entries(Seq::empty(), text_pairs(pairs@)),
            query.wf(),
    {
        let ghost given = pairs@;
        let ghost all = text_pairs(given);
        // the pairs are taken from the end of the turned vector, first pair first
        let mut stack = reversed(pairs);
        let mut query = QueryString::new();
        assert(all.skip(0) =~= all);
        while stack.len() > 0
            invariant
                query.wf(),
                all == text_pairs(given),
                stack.len() <= given.len(),
                stack@ == given.reverse().take(stack.len() as int),
                with_entries(query@, all.skip(given.len() - stack.len())) == with_entries(
                    Seq::empty(),
                    all,
                ),
            decreases stack.len(),
        {
            let ghost done = given.len() - stack.len();
            let ghost rest = all.skip(done);
            match stack.pop() {
                Some((key, value)) => {
                    proof {
                        assert((key, value) == given.reverse()[given.len() - 1 - done]);
                        assert((key, value) == given[done]);
                        assert(rest[0] == all[done]);
                        assert(rest.drop_first() =~= all.skip(done + 1));
                        assert(stack@ =~= given.reverse().take(stack.len() as int));
                    }
                    query.insert(key, value);
                },
                None => {},
            }
        }
        assert(all.skip(given.len() as int) =~= Seq::empty());
        query
    }

    /// Takes the pair with the text key `key` out and returns its value, if
    /// there was one.
    pub fn remove(&mut self, key: &str) -> (value: Option<Vec<u8>>)
        requires
            old(self).wf(),
        ensures
            final(self)@ == without_key(old(self)@, key.spec_bytes()),
            final(self).wf(),
            match text_at(old(self)@, key.spec_bytes()) {
                Some(text) => value matches Some(v) && v@ == text,
                None => value is None,
            },
            lookup(old(self)@, key.spec_bytes()) is Some ==> value is Some,
    {
        proof {
            lemma_without_key_keeps(self@, key.spec_bytes(), |v: Value| is_bytes(v));
        }
        match self.pairs.remove(key) {
            Some(Data::Bytes(text)) => Some(text),
            _ => None,
        }
    }

    /// The number of pairs.
    pub fn len(&self) -> (n: usize)
        ensures
            n == self@.len(),
    {
        self.pairs.len()
    }
}

impl PartialEq for QueryString {
    fn eq(&self, other: &QueryString) -> (same: bool) {
        self.pairs == other.pairs
    }
}

impl PartialEqSpecImpl for QueryString {
    open spec fn obeys_eq_spec() -> bool {
        true
    }

    open spec fn eq_spec(&self, other: &QueryString) -> bool {
        self@ == other@
    }
}

/// The number that a hexadecimal digit stands for: `0` to `9` stand for
/// themselves and `a` to `f`, in either case, for ten to fifteen. No other
/// byte is a hexadecimal digit.
pub open spec fn hex_value(b: u8) -> Option<int> {
    if 48 <= b <= 57 {
        Some(b - 48)
    } else if 97 <= b <= 102 {
        Some(b - 97 + 10)
    } else if 65 <= b <= 70 {
        Some(b - 65 + 10)
    } else {
        None
    }
}

/// The number that a hexadecimal digit stands for; nothing for a missing
/// byte or one that is no hexadecimal digit.
pub fn to_hex_digit(b: Option<u8>) -> (digit: Option<u8>)
    ensures
        match b {
            Some(byte) => match hex_value(byte) {
                Some(n) => digit == Some(n as u8),
                None => digit is None,
            },
            None => digit is None,
        },
{
    match b {
        Some(byte) => {
            if 48 <= byte && byte <= 57 {
                Some(byte - 48)
            } else if 97 <= byte && byte <= 102 {
                Some(byte - 97 + 10)
            } else if 65 <= byte && byte <= 70 {
                Some(byte - 65 + 10)
            } else {
                None
            }
        },
        None => None,
    }
}

/// The bytes that a percent-encoded text stands for. A `%` must be followed
/// by two hexadecimal digits and stands with them for one byte, sixteen times
/// the first digit plus the second; every other byte stands for itself.
pub open spec fn unescaped(s: Seq<u8>) -> Option<Seq<u8>>
    decreases s.len(),
{
    if s.len() == 0 {
        Some(Seq::empty())
    } else if s[0] == PERCENT {
        if s.len() >= 3 && hex_value(s[1]) is Some && hex_value(s[2]) is Some {
            match unescaped(s.skip(3)) {
                Some(rest) => Some(
                    seq![(hex_value(s[1]).unwrap() * 16 + hex_value(s[2]).unwrap()) as u8] + rest,
                ),
                None => None,
            }
        } else {
            None
        }
    } else {
        match unescaped(s.drop_first()) {
            Some(rest) => Some(seq![s[0]] + rest),
            None => None,
        }
    }
}

/// The bytes that the percent-encoded bytes `text` stand for.
pub fn unescape(text: &[u8]) -> (r: Result<Vec<u8>, ()>)
    ensures
        match unescaped(text@) {
            Some(bytes) => r matches Ok(v) && v@ == bytes,
            None => r is Err,
        },
{
    let mut out: Vec<u8> = Vec::new();
    let mut i: usize = 0;
    assert(text@.skip(0) =~= text@);
    while i < text.len()
        invariant
            i <= text.len(),
            unescaped(text@) == match unescaped(text@.skip(i as int)) {
                Some(rest) => Some(out@ + rest),
                None => None,
            },
        decreases text.len() - i,
    {
        let ghost tail = text@.skip(i as int);
        let ghost done = out@;
        let byte = text[i];
        assert(tail[0] == byte);
        if byte == PERCENT {
            let first = to_hex_digit(if text.len() - i > 1 {
                Some(text[i + 1])
            } else {
                None
            });
            let second = to_hex_digit(if text.len() - i > 2 {
                Some(text[i + 2])
            } else {
                None
            });
            match (first, second) {
                (Some(a), Some(b)) => {
                    assert(tail[1] == text@[i + 1] && tail[2] == text@[i + 2]);
                    let number: u8 = a * 16 + b;
                    out.push(number);
                    i += 3;
                    proof {
                        assert(tail.skip(3) =~= text@.skip(i as int));
                        let rest = unescaped(tail.skip(3));
                        if rest is Some {
                            assert(done + (seq![number] + rest.unwrap()) =~= out@
                                + rest.unwrap());
                        }
                    }
                },
                _ => {
                    proof {
                        if tail.len() >= 3 {
                            assert(tail[1] == text@[i + 1] && tail[2] == text@[i + 2]);
                        }
                    }
                    return Err(());
                },
            }
        } else {
            out.push(byte);
            i += 1;
            proof {
                assert(tail.drop_first() =~= text@.skip(i as int));
                let rest = unescaped(tail.drop_first());
                if rest is Some {
                    assert(done + (seq![byte] + rest.unwrap()) =~= out@ + rest.unwrap());
                }
            }
        }
    }
    assert(out@ + Seq::<u8>::empty() =~= out@);
    Ok(out)
}

/// The bytes that a percent-encoded text stands for.
pub fn url_decode(s: &str) -> (r: Result<Vec<u8>, ()>)
    ensures
        match unescaped(s.spec_bytes()) {
            Some(bytes) => r matches Ok(v) && v@ == bytes,
            None => r is Err,
        },
{
    unescape(s.as_bytes())
}

/// A byte that stands for itself in a percent-encoded text: a digit, a
/// letter, or one of `_`, `-`, `.` and `~`.
pub open spec fn is_unreserved(b: u8) -> bool {
    48 <= b <= 57 || 97 <= b <= 122 || 65 <= b <= 90 || b == 95 || b == 45 || b == 46 || b == 126
}

/// The upper-case hexadecimal digit of a number below sixteen.
pub open spec fn hex_digit(n: int) -> u8 {
    if n < 10 {
        (48 + n) as u8
    } else {
        (55 + n) as u8
    }
}

/// The percent-encoded form of one byte: the byte itself, or `%` and its two
/// hexadecimal digits.
pub open spec fn escaped_byte(b: u8) -> Seq<u8> {
    if is_unreserved(b) {
        seq![b]
    } else {
        seq![PERCENT, hex_digit(b as int / 16), hex_digit(b as int % 16)]
    }
}

/// The percent-encoded form of a byte string.
pub open spec fn escaped(s: Seq<u8>) -> Seq<u8>
    decreases s.len(),
{
    if s.len() == 0 {
        Seq::empty()
    } else {
        escaped_byte(s[0]) + escaped(s.drop_first())
    }
}

/// The percent-encoded form grows at its end by the form of a new last byte.
pub proof fn lemma_escaped_push(s: Seq<u8>, b: u8)
    ensures
        escaped(s.push(b)) == escaped(s) + escaped_byte(b),
    decreases s.len(),
{
    let all = s.push(b);
    if s.len() == 0 {
        assert(all.drop_first() =~= Seq::empty());
        assert(escaped(all.drop_first()) =~= Seq::empty());
        assert(escaped(all) =~= escaped(s) + escaped_byte(b));
    } else {
        assert(all.drop_first() =~= s.drop_first().push(b));
        lemma_escaped_push(s.drop_first(), b);
        assert(escaped(all) =~= escaped(s) + escaped_byte(b));
    }
}

/// Decoding undoes percent-encoding.
pub proof fn lemma_unescape_escaped(s: Seq<u8>)
    ensures
        unescaped(escaped(s)) == Some(s),
    decreases s.len(),
{
    if s.len() > 0 {
        let b = s[0];
        let tail = escaped(s.drop_first());
        let text = escaped(s);
        lemma_unescape_escaped(s.drop_first());
        assert(s =~= seq![b] + s.drop_first());
        if is_unreserved(b) {
            assert(text[0] == b);
            assert(text.drop_first() =~= tail);
        } else {
            assert(text[0] == PERCENT);
            assert(text[1] == hex_digit(b as int / 16));
            assert(text[2] == hex_digit(b as int % 16));
            assert(text.skip(3) =~= tail);
            assert(hex_value(text[1]) == Some(b as int / 16));
            assert(hex_value(text[2]) == Some(b as int % 16));
        }
    }
}

/// Appends the percent-encoded form of `bytes` to `out`.
pub fn escape_into(bytes: &[u8], out: &mut Vec<u8>)
    ensures
        final(out)@ == old(out)@ + escaped(bytes@),
{
    let mut i: usize = 0;
    assert(bytes@.take(0) =~= Seq::empty());
    assert(out@ =~= old(out)@ + escaped(bytes@.take(0)));
    while i < bytes.len()
        invariant
            i <= bytes.len(),
            out@ == old(out)@ + escaped(bytes@.take(i as int)),
        decreases bytes.len() - i,
    {
        let byte = bytes[i];
        proof {
            lemma_escaped_push(bytes@.take(i as int), byte);
            assert(bytes@.take(i + 1) =~= bytes@.take(i as int).push(byte));
        }
        let ghost before = out@;
        if (48 <= byte && byte <= 57) || (97 <= byte && byte <= 122) || (65 <= byte && byte <= 90)
            || byte == 95 || byte == 45 || byte == 46 || byte == 126 {
            out.push(byte);
            assert(out@ =~= before + escaped_byte(byte));
        } else {
            let high = byte / 16;
            let low = byte % 16;
            out.push(PERCENT);
            out.push(if high < 10 {
                48 + high
            } else {
                55 + high
            });
            out.push(if low < 10 {
                48 + low
            } else {
                55 + low
            });
            assert(out@ =~= before + escaped_byte(byte));
        }
        i += 1;
        assert(out@ =~= old(out)@ + escaped(bytes@.take(i as int)));
    }
    assert(bytes@.take(i as int) =~= bytes@);
}

/// The percent-encoded form of `s`.
pub fn url_encode(s: Vec<u8>) -> (text: Vec<u8>)
    ensures
        text@ == escaped(s@),
{
    let mut text: Vec<u8> = Vec::new();
    escape_into(s.as_slice(), &mut text);
    assert(text@ =~= escaped(s@));
    text
}

/// The place of the first `b` in `s`, or the length of `s` where there is
/// none.
pub open spec fn position(s: Seq<u8>, b: u8) -> nat
    decreases s.len(),
{
    if s.len() == 0 {
        0
    } else if s[0] == b {
        0
    } else {
        1 + position(s.drop_first(), b)
    }
}

/// The place of the first `b` in `s`, or the length of `s` where there is
/// none.
pub fn position_of(s: &[u8], b: u8) -> (i: usize)
    ensures
        i == position(s@, b),
        i <= s@.len(),
{
    let mut i: usize = 0;
    assert(s@.skip(0) =~= s@);
    while i < s.len() && s[i] != b
        invariant
            i <= s.len(),
            position(s@, b) == i + position(s@.skip(i as int), b),
        decreases s.len() - i,
    {
        assert(s@.skip(i as int)[0] == s@[i as int]);
        assert(s@.skip(i as int).drop_first() =~= s@.skip(i + 1));
        i += 1;
    }
    proof {
        if i < s.len() {
            assert(s@.skip(i as int)[0] == s@[i as int]);
        }
    }
    i
}

/// The pairs that a query string holds, added to `acc`. The pairs are parted
/// by `&`; in each, the first `=` parts the key from the value, and both are
/// percent-encoded. A pair without `=` or with a broken escape spoils the
/// whole string. Of two pairs with the same key the later one wins.
pub open spec fn query_entries(s: Seq<u8>, acc: Seq<(Seq<u8>, Value)>) -> Option<
    Seq<(Seq<u8>, Value)>,
>
    decreases s.len(),
{
    let end = position(s, AMPERSAND);
    let item = s.take(end as int);
    let middle = position(item, EQUALS);
    if middle >= item.len() || end > s.len() {
        None
    } else {
        match (unescaped(item.take(middle as int)), unescaped(item.skip(middle as int + 1))) {
            (Some(key), Some(value)) => {
                let bound = with_entry(acc, key, Value::Bytes(value));
                if end >= s.len() {
                    Some(bound)
                } else {
                    query_entries(s.skip(end as int + 1), bound)
                }
            },
            _ => None,
        }
    }
}

/// Reads the bytes of a query string.
pub fn decode_bytes(bytes: &[u8]) -> (r: Result<QueryString, ()>)
    ensures
        match query_entries(bytes@, Seq::empty()) {
            Some(pairs) => r matches Ok(query) && query@ == pairs && query.wf(),
            None => r is Err,
        },
{
    let mut query = QueryString::new();
    let mut start: usize = 0;
    assert(bytes@.skip(0) =~= bytes@);
    loop
        invariant
            start <= bytes.len(),
            query.wf(),
            query_entries(bytes@, Seq::empty()) == query_entries(
                bytes@.skip(start as int),
                query@,
            ),
        decreases bytes.len() - start,
    {
        let rest = slice_subrange(bytes, start, bytes.len());
        assert(rest@ =~= bytes@.skip(start as int));
        let end = position_of(rest, AMPERSAND);
        let item = slice_subrange(rest, 0, end);
        assert(item@ =~= rest@.take(end as int));
        let middle = position_of(item, EQUALS);
        if middle >= item.len() {
            return Err(());
        }
        let key_text = slice_subrange(item, 0, middle);
        let value_text = slice_subrange(item, middle + 1, item.len());
        assert(key_text@ =~= item@.take(middle as int));
        assert(value_text@ =~= item@.skip(middle + 1));
        let key = match unescape(key_text) {
            Ok(key) => key,
            Err(e) => {
                return Err(e);
            },
        };
        let value = match unescape(value_text) {
            Ok(value) => value,
            Err(e) => {
                return Err(e);
            },
        };
        query.insert(key, value);
        if end >= rest.len() {
            return Ok(query);
        }
        assert(rest@.skip(end + 1) =~= bytes@.skip(start + end + 1));
        start = start + end + 1;
    }
}

/// Reads a query string.
pub fn decode(data: &str) -> (r: Result<QueryString, ()>)
    ensures
        match query_entries(data.spec_bytes(), Seq::empty()) {
            Some(pairs) => r matches Ok(query) && query@ == pairs && query.wf(),
            None => r is Err,
        },
{
    decode_bytes(data.as_bytes())
}

/// The pairs of a query string as text: each key and value percent-encoded
/// with `=` between them, and `&` between the pairs.
pub open spec fn query_text(pairs: Seq<(Seq<u8>, Value)>) -> Seq<u8>
    decreases pairs.len(),
{
    if pairs.len() == 0 {
        Seq::empty()
    } else {
        let last = pairs.last();
        let text = escaped(last.0) + seq![EQUALS] + escaped(
            match last.1 {
                Value::Bytes(value) => value,
                _ => Seq::empty(),
            },
        );
        if pairs.len() == 1 {
            text
        } else {
            query_text(pairs.drop_last()) + seq![AMPERSAND] + text
        }
    }
}

/// Writes a query string, its pairs in ascending key order.
pub fn encode(data: QueryString) -> (text: Vec<u8>)
    requires
        data.wf(),
    ensures
        text@ == query_text(data@),
{
    let mut text: Vec<u8> = Vec::new();
    let mut i: usize = 0;
    assert(data@.take(0) =~= Seq::empty());
    while i < data.pairs.len()
        invariant
            i <= data@.len(),
            data.wf(),
            text@ == query_text(data@.take(i as int)),
        decreases data@.len() - i,
    {
        let ghost before = text@;
        let ghost shorter = data@.take(i as int);
        let ghost longer = data@.take(i + 1);
        proof {
            assert(longer.drop_last() =~= shorter);
            assert(longer.last() == data@[i as int]);
            assert(is_bytes(data@[i as int].1));
        }
        if i > 0 {
            text.push(AMPERSAND);
        }
        escape_into(data.pairs.key_at(i).as_slice(), &mut text);
        text.push(EQUALS);
        match data.pairs.value_at(i) {
            Data::Bytes(value) => {
                escape_into(value.as_slice(), &mut text);
            },
            _ => {},
        }
        i += 1;
        assert(text@ =~= query_text(longer));
    }
    assert(data@.take(i as int) =~= data@);
    text
}

} // verus!
