//! Small helpers on byte strings.

use vstd::prelude::*;
use vstd::utf8::{
    decode_utf8, encode_utf8, encode_utf8_decode_utf8, encode_utf8_valid_utf8, is_ascii_chars,
    is_ascii_chars_encode_utf8, valid_utf8,
};

verus! {

/// Whether `bytes` is well-formed UTF-8.
///
/// This calls `core::str::from_utf8`, which accepts a byte slice exactly
/// where it is well-formed UTF-8. The contract takes that on trust and
/// states it with the definition of well-formed UTF-8 that `vstd` gives.
#[verifier::external_body]
pub(crate) fn is_utf8(bytes: &[u8]) -> (valid: bool)
    ensures
        valid == valid_utf8(bytes@),
{
    core::str::from_utf8(bytes).is_ok()
}

/// The 20 bytes of `bytes` as an array; nothing where `bytes` has another
/// length.
pub fn to_array_20(bytes: &[u8]) -> (array: Option<[u8; 20]>)
    ensures
        bytes@.len() == 20 ==> (array matches Some(a) && a@ == bytes@),
        bytes@.len() != 20 ==> array is None,
{
    if bytes.len() != 20 {
        return None;
    }
    let mut array = [0u8;20];
    let mut i: usize = 0;
    while i < 20
        invariant
            i <= 20,
            bytes@.len() == 20,
            forall|k: int| 0 <= k < i ==> array@[k] == bytes@[k],
        decreases 20 - i,
    {
        array[i] = bytes[i];
        i += 1;
    }
    assert(array@ =~= bytes@);
    Some(array)
}

/// Appends `bytes` to `out`.
pub fn push_all(out: &mut Vec<u8>, bytes: &[u8])
    ensures
        final(out)@ == old(out)@ + bytes@,
{
    let mut i: usize = 0;
    assert(bytes@.take(0) =~= Seq::empty());
    assert(out@ =~= old(out)@ + bytes@.take(0));
    while i < bytes.len()
        invariant
            i <= bytes.len(),
            out@ == old(out)@ + bytes@.take(i as int),
        decreases bytes.len() - i,
    {
        out.push(bytes[i]);
        i += 1;
        assert(out@ =~= old(out)@ + bytes@.take(i as int));
    }
    assert(bytes@.take(i as int) =~= bytes@);
}

/// The text that `String::from_utf8_lossy` makes of a byte string.
pub uninterp spec fn lossy_text(bytes: Seq<u8>) -> Seq<char>;

/// The text of `bytes`, with a replacement character for each part that is
/// not UTF-8.
///
/// This calls `String::from_utf8_lossy`. The text depends on the bytes
/// alone, and the contract gives it the name [`lossy_text`]. Of that text it
/// says only what the documentation of the function says in as many words:
/// bytes that are well-formed UTF-8 come back as the text that they encode.
#[verifier::external_body]
pub(crate) fn lossy_string(bytes: &[u8]) -> (text: String)
    ensures
        text@ == lossy_text(bytes@),
        valid_utf8(bytes@) ==> text@ == decode_utf8(bytes@),
{
    String::from_utf8_lossy(bytes).into_owned()
}

/// Every byte is an ASCII character.
pub open spec fn all_ascii(bytes: Seq<u8>) -> bool {
    forall|i: int| 0 <= i < bytes.len() ==> #[trigger] bytes[i] < 128
}

/// The text whose characters have the numbers of the bytes.
pub open spec fn ascii_text(bytes: Seq<u8>) -> Seq<char> {
    Seq::new(bytes.len(), |i: int| bytes[i] as char)
}

/// ASCII bytes are well-formed UTF-8 and encode the characters with their
/// numbers.
pub proof fn lemma_ascii_decodes(bytes: Seq<u8>)
    requires
        all_ascii(bytes),
    ensures
        valid_utf8(bytes),
        decode_utf8(bytes) == ascii_text(bytes),
{
    let chars = ascii_text(bytes);
    assert(is_ascii_chars(chars)) by {
        assert forall|i: int| 0 <= i < chars.len() implies '\0' <= #[trigger] chars[i]
            <= '\u{7f}' by {
            assert(bytes[i] < 128);
        }
    }
    is_ascii_chars_encode_utf8(chars);
    assert(encode_utf8(chars) =~= bytes) by {
        assert forall|i: int| 0 <= i < bytes.len() implies encode_utf8(chars)[i]
            == #[trigger] bytes[i] by {
            assert(bytes[i] < 128);
            assert(chars[i] as u8 == encode_utf8(chars)[i]);
        }
    }
    encode_utf8_valid_utf8(chars);
    encode_utf8_decode_utf8(chars);
}

/// The lower-case hexadecimal digit of a number below sixteen.
pub open spec fn lower_hex_digit(n: int) -> u8 {
    if n < 10 {
        (48 + n) as u8
    } else {
        (87 + n) as u8
    }
}

/// The two lower-case hexadecimal digits of each byte.
pub open spec fn hex_digits(bytes: Seq<u8>) -> Seq<u8>
    decreases bytes.len(),
{
    if bytes.len() == 0 {
        Seq::empty()
    } else {
        hex_digits(bytes.drop_last()) + seq![
            lower_hex_digit(bytes.last() as int / 16),
            lower_hex_digit(bytes.last() as int % 16),
        ]
    }
}

/// A byte that is shown as it is: a letter, a digit, a colon or a space.
pub open spec fn is_plain(b: u8) -> bool {
    97 <= b <= 122 || 65 <= b <= 90 || 48 <= b <= 57 || b == 58 || b == 32
}

/// Each plain byte as it is, and every other byte as `0x` and its two
/// lower-case hexadecimal digits.
pub open spec fn plain_or_hex(bytes: Seq<u8>) -> Seq<u8>
    decreases bytes.len(),
{
    if bytes.len() == 0 {
        Seq::empty()
    } else if is_plain(bytes.last()) {
        plain_or_hex(bytes.drop_last()).push(bytes.last())
    } else {
        plain_or_hex(bytes.drop_last()) + seq![
            48u8,
            120u8,
            lower_hex_digit(bytes.last() as int / 16),
            lower_hex_digit(bytes.last() as int % 16),
        ]
    }
}

/// Hexadecimal digits are ASCII characters.
pub proof fn lemma_hex_digits_ascii(bytes: Seq<u8>)
    ensures
        all_ascii(hex_digits(bytes)),
    decreases bytes.len(),
{
    if bytes.len() > 0 {
        lemma_hex_digits_ascii(bytes.drop_last());
        let front = hex_digits(bytes.drop_last());
        let all = hex_digits(bytes);
        assert forall|i: int| 0 <= i < all.len() implies #[trigger] all[i] < 128 by {
            if i < front.len() {
                assert(all[i] == front[i]);
            }
        }
    }
}

/// The form of bytes that can be shown consists of ASCII characters.
pub proof fn lemma_plain_or_hex_ascii(bytes: Seq<u8>)
    ensures
        all_ascii(plain_or_hex(bytes)),
    decreases bytes.len(),
{
    if bytes.len() > 0 {
        lemma_plain_or_hex_ascii(bytes.drop_last());
        let front = plain_or_hex(bytes.drop_last());
        let all = plain_or_hex(bytes);
        assert forall|i: int| 0 <= i < all.len() implies #[trigger] all[i] < 128 by {
            if i < front.len() {
                assert(all[i] == front[i]);
            }
        }
    }
}

/// Appends the two lower-case hexadecimal digits of `byte` to `out`.
fn push_hex(out: &mut Vec<u8>, byte: u8)
    ensures
        final(out)@ == old(out)@ + seq![
            lower_hex_digit(byte as int / 16),
            lower_hex_digit(byte as int % 16),
        ],
{
    let high = byte / 16;
    let low = byte % 16;
    out.push(if high < 10 {
        48 + high
    } else {
        87 + high
    });
    out.push(if low < 10 {
        48 + low
    } else {
        87 + low
    });
    assert(out@ =~= old(out)@ + seq![
        lower_hex_digit(byte as int / 16),
        lower_hex_digit(byte as int % 16),
    ]);
}

/// The two lower-case hexadecimal digits of each byte of `bytes`.
pub fn to_hex(bytes: &[u8]) -> (text: Vec<u8>)
    ensures
        text@ == hex_digits(bytes@),
{
    let mut text: Vec<u8> = Vec::new();
    let mut i: usize = 0;
    assert(bytes@.take(0) =~= Seq::empty());
    while i < bytes.len()
        invariant
            i <= bytes.len(),
            text@ == hex_digits(bytes@.take(i as int)),
        decreases bytes.len() - i,
    {
        assert(bytes@.take(i + 1).drop_last() =~= bytes@.take(i as int));
        push_hex(&mut text, bytes[i]);
        i += 1;
    }
    assert(bytes@.take(i as int) =~= bytes@);
    text
}

/// The bytes of `bytes` in a form that can be shown: plain bytes as they
/// are, the others as `0x` and two hexadecimal digits.
pub fn to_plain_or_hex(bytes: &[u8]) -> (text: Vec<u8>)
    ensures
        text@ == plain_or_hex(bytes@),
{
    let mut text: Vec<u8> = Vec::new();
    let mut i: usize = 0;
    assert(bytes@.take(0) =~= Seq::empty());
    while i < bytes.len()
        invariant
            i <= bytes.len(),
            text@ == plain_or_hex(bytes@.take(i as int)),
        decreases bytes.len() - i,
    {
        assert(bytes@.take(i + 1).drop_last() =~= bytes@.take(i as int));
        let byte = bytes[i];
        if (97 <= byte && byte <= 122) || (65 <= byte && byte <= 90) || (48 <= byte && byte <= 57)
            || byte == 58 || byte == 32 {
            text.push(byte);
        } else {
            text.push(48);
            text.push(120);
            push_hex(&mut text, byte);
            assert(text@ =~= plain_or_hex(bytes@.take(i + 1)));
        }
        i += 1;
    }
    assert(bytes@.take(i as int) =~= bytes@);
    text
}

/// Ways to show a byte string.
pub trait BytesExt {
    /// The bytes that the value holds.
    spec fn bytes(&self) -> Seq<u8>;

    /// Two lower-case hexadecimal digits for each byte.
    fn to_hex_string(&self) -> (text: String)
        ensures
            text@ == decode_utf8(hex_digits(self.bytes())),
            text@ == ascii_text(hex_digits(self.bytes())),
    ;

    /// The bytes read as UTF-8, with a replacement character for each part
    /// that is not: the text that the bytes encode where they are
    /// well-formed UTF-8.
    fn to_string(&self) -> (text: String)
        ensures
            text@ == lossy_text(self.bytes()),
            valid_utf8(self.bytes()) ==> text@ == decode_utf8(self.bytes()),
    ;

    /// Letters, digits, colons and spaces as they are, every other byte as
    /// `0x` and two hexadecimal digits.
    fn to_alphanumeric_or_hex(&self) -> (text: String)
        ensures
            text@ == decode_utf8(plain_or_hex(self.bytes())),
            text@ == ascii_text(plain_or_hex(self.bytes())),
    ;
}

impl BytesExt for [u8] {
    open spec fn bytes(&self) -> Seq<u8> {
        self@
    }

    fn to_hex_string(&self) -> (text: String) {
        proof {
            lemma_hex_digits_ascii(self@);
            lemma_ascii_decodes(hex_digits(self@));
        }
        lossy_string(to_hex(self).as_slice())
    }

    fn to_string(&self) -> (text: String) {
        lossy_string(self)
    }

    fn to_alphanumeric_or_hex(&self) -> (text: String) {
        proof {
            lemma_plain_or_hex_ascii(self@);
            lemma_ascii_decodes(plain_or_hex(self@));
        }
        lossy_string(to_plain_or_hex(self).as_slice())
    }
}

} // verus!
