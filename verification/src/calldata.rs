//! Calls of the mining contract. Call data is a four-byte selector, then the
//! arguments as 32-byte words, all in hexadecimal.

use vstd::prelude::*;
use vstd::string::*;

use crate::hexadecimal::encode;
#[allow(unused_imports)]
use crate::hexadecimal::{
    decodes_to, digit, hex_text, law_decode_reads_either_case, law_decode_undoes_encode,
    law_encoding_spells_in_lower_case, lemma_hex_text_concat, lemma_spelled_digits, spells, stands_for, HexError,
};
#[allow(unused_imports)]
use crate::json::json_text;
use crate::rpc::call_request;
#[allow(unused_imports)]
use crate::rpc::{
    after_prefix, call_params, has_prefix, lemma_spelled_result, request_document, result_text,
};

verus! {

/// The address of the mining contract.
pub const CONTRACT: &'static str = "0xAC7b5d06fa1e77D08aea40d46cB7C5923A87A0cc";

/// How many digits an argument takes.
pub const WORD_DIGITS: usize = 64;

/// `text` starts with `0x`.
pub open spec fn starts_0x(text: Seq<char>) -> bool {
    text.len() >= 2 && text[0] == '0' && text[1] == 'x'
}

/// `text` without the `0x` that it starts with, however often that is repeated.
pub open spec fn without_0x(text: Seq<char>) -> Seq<char>
    decreases text.len(),
{
    if starts_0x(text) {
        without_0x(text.skip(2))
    } else {
        text
    }
}

/// `count` zeros.
pub open spec fn zeros(count: nat) -> Seq<char> {
    Seq::new(count, |i: int| '0')
}

/// `text` with zeros put in front until it has `width` characters; longer
/// text stays as it is.
pub open spec fn padded(text: Seq<char>, width: nat) -> Seq<char> {
    if text.len() < width {
        zeros((width - text.len()) as nat) + text
    } else {
        text
    }
}

/// `text` without the `0x` that it starts with, however often that is repeated.
fn trim_0x(text: &str) -> (rest: &str)
    ensures
        rest@ == without_0x(text@),
{
    let len: usize = text.unicode_len();
    let mut at: usize = 0;
    assert(text@.skip(0) == text@);
    while len - at >= 2 && text.get_char(at) == '0' && text.get_char(at + 1) == 'x'
        invariant
            at <= len,
            len == text@.len(),
            without_0x(text@) == without_0x(text@.skip(at as int)),
        ensures
            at <= len,
            without_0x(text@) == without_0x(text@.skip(at as int)),
            !starts_0x(text@.skip(at as int)),
        decreases len - at,
    {
        assert(text@.skip(at as int).skip(2) == text@.skip(at + 2));
        at = at + 2;
    }
    assert(text@.subrange(at as int, len as int) == text@.skip(at as int));
    text.substring_char(at, len)
}

/// `text` with zeros put in front until it has `width` characters.
fn pad(text: &str, width: usize) -> (res: String)
    ensures
        res@ == padded(text@, width as nat),
{
    let len: usize = text.unicode_len();
    let mut res: String = String::new();
    if len < width {
        let missing: usize = width - len;
        let mut count: usize = 0;
        while count < missing
            invariant
                count <= missing,
                res@ =~= zeros(count as nat),
            decreases missing - count,
        {
            proof {
                reveal_strlit("0");
            }
            res.append("0");
            count = count + 1;
        }
    }
    res.append(text);
    assert(res@ =~= padded(text@, width as nat));
    res
}

/// The call data that asks for the challenge of `wallet`.
pub open spec fn challenge_call_text(wallet: Seq<char>) -> Seq<char> {
    "0xb52f2c33"@ + padded(without_0x(wallet), WORD_DIGITS as nat)
}

/// The call data that asks for the challenge of `wallet`.
pub fn challenge_call(wallet: &str) -> (data: String)
    ensures
        data@ == challenge_call_text(wallet@),
{
    let mut data: String = "0xb52f2c33".to_owned();
    data.append(pad(trim_0x(wallet), WORD_DIGITS).as_str());
    data
}

/// The call data that asks for the difficulty.
pub fn difficulty_call() -> (data: String)
    ensures
        data@ == "0x3f5c3e87"@,
{
    "0x3f5c3e87".to_owned()
}

/// The text of the request that asks the mining contract for the challenge of `wallet`.
pub fn challenge_request(wallet: &str) -> (body: String)
    ensures
        body@ == json_text(
            request_document("eth_call"@, call_params(CONTRACT@, challenge_call_text(wallet@))),
        ),
{
    call_request(CONTRACT, challenge_call(wallet).as_str())
}

/// The text of the request that asks the mining contract for the difficulty.
pub fn difficulty_request() -> (body: String)
    ensures
        body@ == json_text(request_document("eth_call"@, call_params(CONTRACT@, "0x3f5c3e87"@))),
{
    call_request(CONTRACT, difficulty_call().as_str())
}

/// The call data that submits a solution.
pub fn submission(nonce: &[u8; 32]) -> (data: String)
    ensures
        data@ == "0xacc8f306"@ + hex_text(nonce@),
{
    let mut data: String = "0xacc8f306".to_owned();
    data.append(encode(nonce.as_slice()).as_str());
    data
}

/// A wallet asks for the same challenge with and without the `0x` before it.
pub proof fn law_prefix_does_not_matter(wallet: Seq<char>)
    ensures
        challenge_call_text("0x"@ + wallet) == challenge_call_text(wallet),
{
    reveal_strlit("0x");
    assert(("0x"@ + wallet).skip(2) == wallet);
}

/// The call data that asks for the challenge of a wallet, given by its
/// 20-byte address, is the selector `b52f2c33` followed by the address,
/// padded with zeros to a word.
pub proof fn law_challenge_call_is_selector_and_word(address: Seq<u8>)
    requires
        address.len() == 20,
    ensures
        challenge_call_text("0x"@ + hex_text(address)) == result_text(
            seq![0xb5u8, 0x2f, 0x2c, 0x33] + Seq::new(12, |i: int| 0u8) + address,
        ),
{
    let selector = seq![0xb5u8, 0x2f, 0x2c, 0x33];
    let fill = Seq::new(12, |i: int| 0u8);
    let digits = hex_text(address);
    law_prefix_does_not_matter(digits);
    assert(!starts_0x(digits)) by {
        assert(digits[1] == digit(address[0] as int % 16));
    }
    lemma_hex_text_concat(selector, fill);
    lemma_hex_text_concat(selector + fill, address);
    assert(hex_text(fill) =~= zeros(24));
    reveal_strlit("0x");
    reveal_strlit("0xb52f2c33");
    assert("0xb52f2c33"@ =~= "0x"@ + hex_text(selector));
    assert(challenge_call_text(digits) =~= result_text(selector + fill + address));
}

/// The call data that asks for the difficulty is the selector `3f5c3e87`.
pub proof fn law_difficulty_call_is_selector()
    ensures
        "0x3f5c3e87"@ == result_text(seq![0x3fu8, 0x5c, 0x3e, 0x87]),
{
    reveal_strlit("0x");
    reveal_strlit("0x3f5c3e87");
    assert("0x3f5c3e87"@ =~= result_text(seq![0x3fu8, 0x5c, 0x3e, 0x87]));
}

/// The call data that submits a solution is the selector `acc8f306` followed by the nonce.
pub proof fn law_submission_is_selector_and_nonce(nonce: Seq<u8>)
    ensures
        "0xacc8f306"@ + hex_text(nonce) == result_text(seq![0xacu8, 0xc8, 0xf3, 0x06] + nonce),
{
    let selector = seq![0xacu8, 0xc8, 0xf3, 0x06];
    lemma_hex_text_concat(selector, nonce);
    reveal_strlit("0x");
    reveal_strlit("0xacc8f306");
    assert("0xacc8f306"@ =~= "0x"@ + hex_text(selector));
    assert("0xacc8f306"@ + hex_text(nonce) =~= result_text(selector + nonce));
}

/// Whatever the wallet is, the call data is the selector, zeros up to a full
/// word, and the wallet as it was written, character for character; only a
/// wallet that is longer than a word goes without zeros.
pub proof fn law_wallet_is_passed_on_unchanged(wallet: Seq<char>, i: int)
    requires
        !(wallet.len() >= 2 && wallet[0] == '0' && wallet[1] == 'x'),
    ensures
        challenge_call_text(wallet).len() == 10 + if wallet.len() < 64 {
            64
        } else {
            wallet.len()
        },
        challenge_call_text(wallet).take(10) == "0xb52f2c33"@,
        10 <= i < challenge_call_text(wallet).len() - wallet.len() ==> challenge_call_text(wallet)[i] == '0',
        challenge_call_text(wallet).skip(challenge_call_text(wallet).len() - wallet.len()) == wallet,
{
    let call = challenge_call_text(wallet);
    reveal_strlit("0xb52f2c33");
    assert(!starts_0x(wallet));
    assert(call.take(10) =~= "0xb52f2c33"@);
    assert(call.skip(call.len() - wallet.len()) =~= wallet);
}

/// The contract reads the wallet that was meant: for 40 digits in either case,
/// with or without `0x` before them, the call data decodes to the selector
/// `b52f2c33`, twelve zero bytes and the 20 bytes that the digits stand for.
pub proof fn law_challenge_call_names_the_wallet(
    digits: Seq<char>,
    address: Seq<u8>,
    call: Seq<char>,
    res: Result<Seq<u8>, HexError>,
)
    requires
        address.len() == 20,
        spells(digits, address),
        call == challenge_call_text(digits) || call == challenge_call_text("0x"@ + digits),
        decodes_to(after_prefix(call), res),
    ensures
        has_prefix(call),
        call.take(2) == "0x"@,
        res == Ok::<Seq<u8>, HexError>(
            seq![0xb5u8, 0x2f, 0x2c, 0x33] + Seq::new(12, |i: int| 0u8) + address,
        ),
{
    let selector = seq![0xb5u8, 0x2f, 0x2c, 0x33];
    let fill = Seq::new(12, |i: int| 0u8);
    let data = selector + fill + address;
    law_prefix_does_not_matter(digits);
    assert(stands_for(digits[1], address[0] as int % 16));
    assert(!starts_0x(digits));
    reveal_strlit("0x");
    reveal_strlit("0xb52f2c33");
    let text = call.skip(2);
    assert(call =~= "0x"@ + text);
    assert(call.take(2) =~= "0x"@);
    assert forall|i: int| 0 <= i < text.len() implies stands_for(
        #[trigger] text[i],
        if i % 2 == 0 {
            data[i / 2] as int / 16
        } else {
            data[i / 2] as int % 16
        },
    ) by {
        if i < 8 {
            assert(text[i] == "0xb52f2c33"@[i + 2]);
            assert(data[i / 2] == selector[i / 2]);
        } else if i < 32 {
            assert(text[i] == '0');
            assert(data[i / 2] == 0);
        } else {
            assert(text[i] == digits[i - 32]);
            assert(data[i / 2] == address[(i - 32) / 2]);
        }
    }
    assert(spells(text, data));
    lemma_spelled_result(text, data);
    law_decode_reads_either_case(text, data, res);
}

/// Two wallets of 40 digits ask for the same challenge only if they are the
/// same address, whatever the case of their digits.
pub proof fn law_wallets_are_told_apart(
    digits: Seq<char>,
    others: Seq<char>,
    address: Seq<u8>,
    other: Seq<u8>,
)
    requires
        address.len() == 20,
        other.len() == 20,
        spells(digits, address),
        spells(others, other),
        challenge_call_text("0x"@ + digits) == challenge_call_text("0x"@ + others),
    ensures
        address == other,
        digits == others,
{
    law_prefix_does_not_matter(digits);
    law_prefix_does_not_matter(others);
    assert(stands_for(digits[1], address[0] as int % 16));
    assert(stands_for(others[1], other[0] as int % 16));
    law_wallet_is_passed_on_unchanged(digits, 0);
    law_wallet_is_passed_on_unchanged(others, 0);
    lemma_spelled_digits(digits, address);
    lemma_spelled_digits(others, other);
}

/// The call data of a submission decodes to the selector `acc8f306` and the nonce.
pub proof fn law_submission_decodes(nonce: Seq<u8>, res: Result<Seq<u8>, HexError>)
    requires
        decodes_to(after_prefix("0xacc8f306"@ + hex_text(nonce)), res),
    ensures
        res == Ok::<Seq<u8>, HexError>(seq![0xacu8, 0xc8, 0xf3, 0x06] + nonce),
{
    let data = seq![0xacu8, 0xc8, 0xf3, 0x06] + nonce;
    law_submission_is_selector_and_nonce(nonce);
    law_encoding_spells_in_lower_case(data);
    lemma_spelled_result(hex_text(data), data);
    law_decode_undoes_encode(data, res);
}

} // verus!
