//! Hexadecimal text.

use vstd::prelude::*;
use vstd::string::*;
#[allow(unused_imports)]
use vstd::utf8::{encode_utf8, is_ascii_chars, is_ascii_chars_encode_utf8};

verus! {

/// The lower-case digit for `value`.
pub open spec fn digit(value: int) -> char {
    if value < 10 {
        ('0' as int + value) as char
    } else {
        ('a' as int + value - 10) as char
    }
}

/// The value of a digit, in either case.
pub open spec fn digit_value(b: u8) -> Option<int> {
    if '0' as int <= b <= '9' as int {
        Some(b - '0' as int)
    } else if 'a' as int <= b <= 'f' as int {
        Some(b - 'a' as int + 10)
    } else if 'A' as int <= b <= 'F' as int {
        Some(b - 'A' as int + 10)
    } else {
        None
    }
}

/// Two lower-case digits for each byte.
pub open spec fn hex_text(data: Seq<u8>) -> Seq<char> {
    Seq::new(
        2 * data.len(),
        |i: int|
            digit(
                if i % 2 == 0 {
                    data[i / 2] as int / 16
                } else {
                    data[i / 2] as int % 16
                },
            ),
    )
}

/// `c` is the digit for `value`, in either case.
pub open spec fn stands_for(c: char, value: int) -> bool {
    '\0' <= c <= '\u{7f}' && digit_value(c as u8) == Some(value)
}

/// `text` writes `data`: two digits for each byte, each in either case, the
/// one for the upper half of the byte first.
pub open spec fn spells(text: Seq<char>, data: Seq<u8>) -> bool {
    &&& text.len() == 2 * data.len()
    &&& forall|i: int|
        0 <= i < text.len() ==> stands_for(
            #[trigger] text[i],
            if i % 2 == 0 {
                data[i / 2] as int / 16
            } else {
                data[i / 2] as int % 16
            },
        )
}

/// Every byte of `text` is a digit.
pub open spec fn all_digits(text: Seq<u8>) -> bool {
    forall|i: int| 0 <= i < text.len() ==> (#[trigger] digit_value(text[i])) is Some
}

/// The bytes that pairs of digits stand for.
pub open spec fn hex_bytes(text: Seq<u8>) -> Seq<u8> {
    Seq::new(
        text.len() / 2,
        |i: int| (16 * digit_value(text[2 * i])->0 + digit_value(text[2 * i + 1])->0) as u8,
    )
}

/// Why text is not hexadecimal.
#[derive(Clone, Copy)]
pub enum HexError {
    /// `c`, at byte `index`, is no digit.
    InvalidHexCharacter { c: char, index: usize },
    /// Digits come in pairs.
    OddLength,
    /// The bytes do not fill a container of fixed size.
    InvalidStringLength,
}

/// A result with the bytes that it holds in place of the vector.
pub open spec fn data_of<E>(res: Result<Vec<u8>, E>) -> Result<Seq<u8>, E> {
    match res {
        Ok(data) => Ok(data@),
        Err(error) => Err(error),
    }
}

/// What decoding `text` comes to: the bytes, if it holds pairs of digits and
/// nothing else; an odd length is reported before any digit is looked at, and
/// then the first byte that is no digit.
pub open spec fn decodes_to(text: Seq<u8>, res: Result<Seq<u8>, HexError>) -> bool {
    match res {
        Ok(data) => text.len() % 2 == 0 && all_digits(text) && data == hex_bytes(text),
        Err(HexError::OddLength) => text.len() % 2 != 0,
        Err(HexError::InvalidHexCharacter { c, index }) => {
            &&& text.len() % 2 == 0
            &&& index < text.len()
            &&& digit_value(text[index as int]) is None
            &&& all_digits(text.take(index as int))
            &&& c == text[index as int] as char
        },
        Err(HexError::InvalidStringLength) => false,
    }
}

/// Encodes bytes with `hex::encode`: two lower-case digits for each byte.
#[verifier::external_body]
pub(crate) fn encode(data: &[u8]) -> (text: String)
    requires
        2 * data@.len() <= isize::MAX,
    ensures
        text@ == hex_text(data@),
{
    hex::encode(data)
}

/// Decodes text with `hex::decode`, which takes digits of either case and
/// reports an odd length first, else the first byte that is no digit.
#[verifier::external_body]
pub(crate) fn decode(text: &str) -> (res: Result<Vec<u8>, HexError>)
    ensures
        decodes_to(encode_utf8(text@), data_of(res)),
{
    hex::decode(text).map_err(|error| match error {
        hex::FromHexError::InvalidHexCharacter { c, index } => HexError::InvalidHexCharacter { c, index },
        hex::FromHexError::OddLength => HexError::OddLength,
        hex::FromHexError::InvalidStringLength => HexError::InvalidStringLength,
    })
}

/// `0x` and the digits of `word`.
pub fn hex_word(word: &[u8; 32]) -> (text: String)
    ensures
        text@ == "0x"@ + hex_text(word@),
{
    let mut text: String = "0x".to_owned();
    text.append(encode(word.as_slice()).as_str());
    text
}

/// Hexadecimal text is plain ASCII, one byte to a digit.
pub proof fn lemma_hex_text_is_ascii(data: Seq<u8>)
    ensures
        is_ascii_chars(hex_text(data)),
        encode_utf8(hex_text(data)) == Seq::new(hex_text(data).len(), |i: int| hex_text(data)[i] as u8),
{
    let text = hex_text(data);
    assert forall|i: int| 0 <= i < text.len() implies '\0' <= #[trigger] text[i] <= '\u{7f}' by {
        let value = if i % 2 == 0 {
            data[i / 2] as int / 16
        } else {
            data[i / 2] as int % 16
        };
        assert(0 <= value < 16);
        assert(text[i] == digit(value));
    }
    is_ascii_chars_encode_utf8(text);
}

/// Decoding what encoding wrote gives the bytes back.
pub proof fn law_decode_undoes_encode(data: Seq<u8>, res: Result<Seq<u8>, HexError>)
    requires
        decodes_to(encode_utf8(hex_text(data)), res),
    ensures
        res == Ok::<Seq<u8>, HexError>(data),
{
    lemma_hex_text_digits(data);
}

/// Hexadecimal text is all digits, and they stand for the bytes.
pub proof fn lemma_hex_text_digits(data: Seq<u8>)
    ensures
        encode_utf8(hex_text(data)).len() == 2 * data.len(),
        all_digits(encode_utf8(hex_text(data))),
        hex_bytes(encode_utf8(hex_text(data))) == data,
{
    let text = hex_text(data);
    let bytes = encode_utf8(text);
    lemma_hex_text_is_ascii(data);
    assert forall|i: int| 0 <= i < bytes.len() implies #[trigger] digit_value(bytes[i]) == Some(
        if i % 2 == 0 {
            data[i / 2] as int / 16
        } else {
            data[i / 2] as int % 16
        },
    ) by {
        assert(bytes[i] == text[i] as u8);
    }
    assert forall|i: int| 0 <= i < data.len() implies hex_bytes(bytes)[i] == data[i] by {
        assert(digit_value(bytes[2 * i]) == Some(data[i] as int / 16));
        assert(digit_value(bytes[2 * i + 1]) == Some(data[i] as int % 16));
    }
    assert(hex_bytes(bytes) =~= data);
}

/// The digits of two sequences joined are the digits of each, joined.
pub proof fn lemma_hex_text_concat(a: Seq<u8>, b: Seq<u8>)
    ensures
        hex_text(a + b) == hex_text(a) + hex_text(b),
{
    let whole = hex_text(a + b);
    let parts = hex_text(a) + hex_text(b);
    assert forall|i: int| 0 <= i < whole.len() implies whole[i] == parts[i] by {
        if i < 2 * a.len() {
            assert((a + b)[i / 2] == a[i / 2]);
        } else {
            assert((a + b)[i / 2] == b[(i - 2 * a.len()) / 2]);
        }
    }
    assert(whole =~= parts);
}

/// The digits are `0` to `9` and then `a` to `f`, and each letter may be upper case.
pub proof fn law_digits_in_either_case(c: char, value: int)
    ensures
        stands_for(c, value) <==> 0 <= value < 16 && (c == "0123456789abcdef"@[value] || c
            == "0123456789ABCDEF"@[value]),
{
    reveal_strlit("0123456789abcdef");
    reveal_strlit("0123456789ABCDEF");
}

/// A byte is read as a digit exactly when it is the code of one.
pub proof fn law_digit_is_read(b: u8, value: int)
    ensures
        digit_value(b) == Some(value) <==> b < 0x80 && stands_for(b as char, value),
{
}

/// Text writes bytes exactly when it has two characters for each of them,
/// digits for the upper and the lower half.
pub proof fn law_two_digits_for_each_byte(text: Seq<char>, data: Seq<u8>)
    ensures
        spells(text, data) <==> text.len() == 2 * data.len() && forall|i: int|
            0 <= i < data.len() ==> stands_for(text[2 * i], #[trigger] data[i] as int / 16) && stands_for(
                text[2 * i + 1],
                data[i] as int % 16,
            ),
{
    if spells(text, data) {
        assert forall|i: int| 0 <= i < data.len() implies stands_for(
            text[2 * i],
            #[trigger] data[i] as int / 16,
        ) && stands_for(text[2 * i + 1], data[i] as int % 16) by {
            assert(stands_for(text[2 * i], data[(2 * i) / 2] as int / 16));
            assert(stands_for(text[2 * i + 1], data[(2 * i + 1) / 2] as int % 16));
        }
    } else if text.len() == 2 * data.len() {
        let i = choose|i: int|
            0 <= i < text.len() && !stands_for(
                #[trigger] text[i],
                if i % 2 == 0 {
                    data[i / 2] as int / 16
                } else {
                    data[i / 2] as int % 16
                },
            );
        let k = i / 2;
        assert(data[k] == data[i / 2]);
        assert(i == 2 * k || i == 2 * k + 1);
    }
}

/// Encoding writes the bytes, in lower case.
pub proof fn law_encoding_spells_in_lower_case(data: Seq<u8>)
    ensures
        spells(hex_text(data), data),
        forall|i: int| 0 <= i < hex_text(data).len() ==> !('A' <= #[trigger] hex_text(data)[i] <= 'F'),
{
    let text = hex_text(data);
    assert forall|i: int| 0 <= i < text.len() implies stands_for(
        #[trigger] text[i],
        if i % 2 == 0 {
            data[i / 2] as int / 16
        } else {
            data[i / 2] as int % 16
        },
    ) && !('A' <= text[i] <= 'F') by {
        let value = if i % 2 == 0 {
            data[i / 2] as int / 16
        } else {
            data[i / 2] as int % 16
        };
        assert(0 <= value < 16);
        assert(text[i] == digit(value));
    }
}

/// Text that writes bytes is plain ASCII, all digits, and they stand for the bytes.
pub proof fn lemma_spelled_digits(text: Seq<char>, data: Seq<u8>)
    requires
        spells(text, data),
    ensures
        is_ascii_chars(text),
        encode_utf8(text).len() == 2 * data.len(),
        all_digits(encode_utf8(text)),
        hex_bytes(encode_utf8(text)) == data,
{
    let bytes = encode_utf8(text);
    is_ascii_chars_encode_utf8(text);
    assert forall|i: int| 0 <= i < bytes.len() implies #[trigger] digit_value(bytes[i]) == Some(
        if i % 2 == 0 {
            data[i / 2] as int / 16
        } else {
            data[i / 2] as int % 16
        },
    ) by {
        assert(bytes[i] == text[i] as u8);
    }
    assert forall|i: int| 0 <= i < data.len() implies hex_bytes(bytes)[i] == data[i] by {
        assert(digit_value(bytes[2 * i]) == Some(data[i] as int / 16));
        assert(digit_value(bytes[2 * i + 1]) == Some(data[i] as int % 16));
    }
    assert(hex_bytes(bytes) =~= data);
}

/// Decoding text that writes bytes, in either case, gives the bytes.
pub proof fn law_decode_reads_either_case(text: Seq<char>, data: Seq<u8>, res: Result<Seq<u8>, HexError>)
    requires
        spells(text, data),
        decodes_to(encode_utf8(text), res),
    ensures
        res == Ok::<Seq<u8>, HexError>(data),
{
    lemma_spelled_digits(text, data);
}

/// Decoding gives bytes only where each of them has its two digits. An odd
/// length is an error of its own; any other error names the first byte that
/// is no digit.
pub proof fn law_decode_outcome(text: Seq<u8>, res: Result<Seq<u8>, HexError>)
    requires
        decodes_to(text, res),
    ensures
        match res {
            Ok(data) => {
                &&& text.len() == 2 * data.len()
                &&& forall|i: int|
                    0 <= i < data.len() ==> digit_value(text[2 * i]) == Some(#[trigger] data[i] as int / 16)
                        && digit_value(text[2 * i + 1]) == Some(data[i] as int % 16)
            },
            Err(HexError::OddLength) => text.len() % 2 == 1,
            Err(HexError::InvalidHexCharacter { c, index }) => {
                &&& text.len() % 2 == 0
                &&& index < text.len()
                &&& digit_value(text[index as int]) is None
                &&& c as int == text[index as int]
                &&& forall|i: int| 0 <= i < index ==> (#[trigger] digit_value(text[i])) is Some
            },
            Err(HexError::InvalidStringLength) => false,
        },
{
    match res {
        Ok(data) => {
            assert forall|i: int| 0 <= i < data.len() implies digit_value(text[2 * i]) == Some(
                #[trigger] data[i] as int / 16,
            ) && digit_value(text[2 * i + 1]) == Some(data[i] as int % 16) by {
                assert(digit_value(text[2 * i]) is Some);
                assert(digit_value(text[2 * i + 1]) is Some);
            }
        },
        Err(HexError::InvalidHexCharacter { c, index }) => {
            assert forall|i: int| 0 <= i < index implies (#[trigger] digit_value(text[i])) is Some by {
                assert(digit_value(text.take(index as int)[i]) is Some);
            }
        },
        _ => {},
    }
}

/// A result with its bytes in place of the vector has all of them, in their
/// order, and an error is the same error.
pub proof fn law_data_is_kept_whole<E>(res: Result<Vec<u8>, E>)
    ensures
        res matches Ok(data) ==> data_of(res) == Ok::<Seq<u8>, E>(data@),
        res matches Err(error) ==> data_of(res) == Err::<Seq<u8>, E>(error),
{
}

} // verus!
