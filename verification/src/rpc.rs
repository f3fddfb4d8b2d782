//! JSON-RPC messages: the requests that are posted to an Ethereum node, and
//! what its replies come to.

use vstd::prelude::*;
use vstd::string::*;
#[allow(unused_imports)]
use vstd::utf8::{
    decode_utf8, decode_utf8_encode_utf8, decode_utf8_split, encode_utf8, encode_utf8_decode_utf8,
    encode_utf8_valid_utf8, is_ascii_chars, is_ascii_chars_encode_utf8, is_char_boundary,
    is_char_boundary_iff_not_is_continuation_byte, is_char_boundary_start_end_of_seq, valid_utf8_split,
};
use serde_json::Value;

use crate::hexadecimal::HexError;
#[allow(unused_imports)]
use crate::hexadecimal::{
    data_of, decodes_to, hex_text, law_decode_outcome, law_decode_undoes_encode,
    law_encoding_spells_in_lower_case, lemma_hex_text_digits, lemma_hex_text_is_ascii, lemma_spelled_digits,
    spells,
};
use crate::json;
#[allow(unused_imports)]
use crate::json::{json_of, json_parse, json_text, member, Json};

verus! {

/// The request to run `method` on `params`.
pub open spec fn request_document(method: Seq<char>, params: Json) -> Json {
    Json::Object(
        map![
            "jsonrpc"@ => Json::Text("2.0"@),
            "method"@ => Json::Text(method),
            "params"@ => params,
            "id"@ => Json::Unsigned(1),
        ],
    )
}

/// The parameters of a call of contract `to` with call data `data`, on the latest block.
pub open spec fn call_params(to: Seq<char>, data: Seq<char>) -> Json {
    Json::Array(
        seq![
            Json::Object(map!["to"@ => Json::Text(to), "data"@ => Json::Text(data)]),
            Json::Text("latest"@),
        ],
    )
}

/// Builds the request to run `method` on `params`.
pub fn rpc_request(method: &str, params: Value) -> (request: Value)
    ensures
        json_of(request) == request_document(method@, json_of(params)),
{
    let mut request: Value = json::object();
    json::put(&mut request, "jsonrpc", json::text("2.0"));
    json::put(&mut request, "method", json::text(method));
    json::put(&mut request, "params", params);
    json::put(&mut request, "id", json::unsigned(1));
    request
}

/// The text of the request to call contract `to` with call data `data`.
pub fn call_request(to: &str, data: &str) -> (body: String)
    ensures
        body@ == json_text(request_document("eth_call"@, call_params(to@, data@))),
{
    let mut call: Value = json::object();
    json::put(&mut call, "to", json::text(to));
    json::put(&mut call, "data", json::text(data));
    let mut params: Vec<Value> = Vec::new();
    params.push(call);
    params.push(json::text("latest"));
    let ghost documents = params@.map_values(|item: Value| json_of(item));
    assert(documents =~= seq![
        Json::Object(map!["to"@ => Json::Text(to@), "data"@ => Json::Text(data@)]),
        Json::Text("latest"@),
    ]);
    json::to_text(&rpc_request("eth_call", json::array(params)))
}

/// Why a call gave no bytes.
pub enum CallError {
    /// The reply is no JSON.
    Decode(serde_json::Error),
    /// The node refused the request; the text says why.
    Rpc(String),
    /// The reply has no result, or one that is no string.
    NoResult,
    /// The result has no two bytes of prefix to drop.
    NoPrefix,
    /// The result is not hexadecimal.
    Hex(HexError),
    /// The result is shorter than the word that was asked for.
    ShortWord,
}

impl CallError {
    /// The error in words, where the words are the miner's own: a refusal, or
    /// a reply without a result. The other errors are told by what they hold.
    pub fn message(&self) -> (text: Option<String>)
        ensures
            match *self {
                CallError::Rpc(message) => text matches Some(words) && words@ == message@,
                CallError::NoResult => text matches Some(words) && words@ == "No result"@,
                _ => text is None,
            },
    {
        match self {
            CallError::Rpc(message) => Some(message.clone()),
            CallError::NoResult => Some("No result".to_owned()),
            _ => None,
        }
    }
}

/// What a reply says.
pub enum Reply {
    /// The request was refused with this error.
    Refused(Json),
    /// There is no result, or it is no string.
    NoResult,
    /// The result is this string.
    Result(Seq<char>),
}

/// What the reply `document` says. An error member means refusal, whatever
/// else is there.
pub open spec fn reply_in(document: Json) -> Reply {
    match member(document, "error"@) {
        Some(error) => Reply::Refused(error),
        None => match member(document, "result"@) {
            Some(Json::Text(result)) => Reply::Result(result),
            _ => Reply::NoResult,
        },
    }
}

/// The message of a refusal.
pub open spec fn refusal(error: Json) -> Seq<char> {
    "RPC error: "@ + json_text(error)
}

/// Reads a reply: gives it back, unless the node refused the request.
pub fn rpc_reply(document: Value) -> (res: Result<Value, CallError>)
    ensures
        match member(json_of(document), "error"@) {
            Some(error) => res matches Err(CallError::Rpc(message)) && message@ == refusal(error)
                && message@ == "RPC error: "@ + json_text(error),
            None => res == Ok::<Value, CallError>(document),
        },
{
    if let Some(error) = json::get(&document, "error") {
        let mut message: String = "RPC error: ".to_owned();
        message.append(json::to_text(error).as_str());
        return Err(CallError::Rpc(message));
    }
    Ok(document)
}

/// The string that a call resulted in.
pub fn call_result(document: Value) -> (res: Result<String, CallError>)
    ensures
        match reply_in(json_of(document)) {
            Reply::Refused(error) => res matches Err(CallError::Rpc(message)) && message@ == refusal(
                error,
            ),
            Reply::NoResult => res matches Err(CallError::NoResult),
            Reply::Result(result) => res matches Ok(text) && text@ == result,
        },
        match (member(json_of(document), "error"@), member(json_of(document), "result"@)) {
            (Some(error), _) => res matches Err(CallError::Rpc(message)) && message@ == "RPC error: "@
                + json_text(error),
            (None, Some(Json::Text(result))) => res matches Ok(text) && text@ == result,
            (None, _) => res matches Err(CallError::NoResult),
        },
{
    let document: Value = match rpc_reply(document) {
        Ok(document) => document,
        Err(error) => return Err(error),
    };
    match json::get(&document, "result") {
        Some(result) => match json::as_str(result) {
            Some(text) => Ok(text.to_owned()),
            None => Err(CallError::NoResult),
        },
        None => Err(CallError::NoResult),
    }
}

/// `text` has two bytes of prefix that can be dropped.
pub open spec fn has_prefix(text: Seq<char>) -> bool {
    is_char_boundary(encode_utf8(text), 2)
}

/// What follows the two bytes of prefix.
pub open spec fn after_prefix(text: Seq<char>) -> Seq<u8> {
    encode_utf8(text).skip(2)
}

/// Decodes a result: drops the two bytes of its prefix and reads the rest as hexadecimal.
pub fn decode_result(result: &str) -> (res: Result<Vec<u8>, HexError>)
    requires
        has_prefix(result@),
    ensures
        decodes_to(after_prefix(result@), data_of(res)),
        res matches Ok(data) ==> decodes_to(encode_utf8(result@).skip(2), Ok(data@)),
{
    let (_, digits) = result.split_at(2);
    assert(digits.spec_bytes() == after_prefix(result@));
    crate::hexadecimal::decode(digits)
}

/// The first word of the bytes that a call returned.
pub fn first_word(data: &[u8]) -> (word: [u8; 32])
    requires
        data@.len() >= 32,
    ensures
        word@ == data@.take(32),
{
    let mut word: [u8; 32] = [0u8; 32];
    let mut i: usize = 0;
    while i < 32
        invariant
            i <= 32,
            data@.len() >= 32,
            forall|k: int| 0 <= k < i ==> word@[k] == data@[k],
        decreases 32 - i,
    {
        word[i] = data[i];
        i = i + 1;
    }
    assert(word@ =~= data@.take(32));
    word
}

/// `res` is what calling comes to when `body` is the reply.
pub open spec fn call_yields(body: Seq<u8>, res: Result<Seq<u8>, CallError>) -> bool {
    match json_parse(body) {
        None => res matches Err(CallError::Decode(_)),
        Some(document) => match reply_in(document) {
            Reply::Refused(error) => res matches Err(CallError::Rpc(message)) && message@ == refusal(
                error,
            ),
            Reply::NoResult => res matches Err(CallError::NoResult),
            Reply::Result(result) => if has_prefix(result) {
                match res {
                    Ok(data) => decodes_to(after_prefix(result), Ok(data)),
                    Err(CallError::Hex(error)) => decodes_to(after_prefix(result), Err(error)),
                    Err(_) => false,
                }
            } else {
                res matches Err(CallError::NoPrefix)
            },
        },
    }
}

/// The bytes that a call returned, from the body of the reply.
pub fn call_reply(body: &[u8]) -> (res: Result<Vec<u8>, CallError>)
    ensures
        call_yields(body@, data_of(res)),
        res matches Ok(data) ==> call_yields(body@, Ok(data@)),
{
    let document: Value = match json::parse(body) {
        Ok(document) => document,
        Err(error) => return Err(CallError::Decode(error)),
    };
    let result: String = match call_result(document) {
        Ok(result) => result,
        Err(error) => return Err(error),
    };
    if !result.as_str().is_char_boundary(2) {
        return Err(CallError::NoPrefix);
    }
    match decode_result(result.as_str()) {
        Ok(data) => Ok(data),
        Err(error) => Err(CallError::Hex(error)),
    }
}

/// `res` is the word that calling comes to when `body` is the reply: the
/// first 32 bytes of what the call returned.
pub open spec fn word_yields(body: Seq<u8>, res: Result<[u8; 32], CallError>) -> bool {
    match res {
        Ok(word) => exists|data: Seq<u8>| #[trigger]
            call_yields(body, Ok(data)) && data.len() >= 32 && word@ == data.take(32),
        Err(CallError::ShortWord) => exists|data: Seq<u8>| #[trigger]
            call_yields(body, Ok(data)) && data.len() < 32,
        Err(error) => call_yields(body, Err(error)),
    }
}

/// The word that a call returned, from the body of the reply.
pub fn word_reply(body: &[u8]) -> (res: Result<[u8; 32], CallError>)
    ensures
        word_yields(body@, res),
{
    match call_reply(body) {
        Ok(data) => {
            assert(call_yields(body@, Ok(data@)));
            if data.len() >= 32 {
                Ok(first_word(data.as_slice()))
            } else {
                Err(CallError::ShortWord)
            }
        },
        Err(error) => Err(error),
    }
}

/// The result text of `data`: a prefix and its digits.
pub open spec fn result_text(data: Seq<u8>) -> Seq<char> {
    "0x"@ + hex_text(data)
}

/// A reply whose result is the text of `data` gives `data` back.
pub proof fn law_call_reads_what_the_node_wrote(
    body: Seq<u8>,
    document: Json,
    data: Seq<u8>,
    res: Result<Seq<u8>, CallError>,
)
    requires
        json_parse(body) == Some(document),
        reply_in(document) == Reply::Result(result_text(data)),
        call_yields(body, res),
    ensures
        res == Ok::<Seq<u8>, CallError>(data),
{
    lemma_result_text(data);
    match res {
        Ok(read) => law_decode_undoes_encode(data, Ok(read)),
        Err(CallError::Hex(error)) => law_decode_undoes_encode(data, Err(error)),
        Err(_) => {},
    }
}

/// A reply whose result is the text of `data`, a word or more, gives its first word.
pub proof fn law_word_reads_what_the_node_wrote(
    body: Seq<u8>,
    document: Json,
    data: Seq<u8>,
    res: Result<[u8; 32], CallError>,
)
    requires
        json_parse(body) == Some(document),
        reply_in(document) == Reply::Result(result_text(data)),
        data.len() >= 32,
        word_yields(body, res),
    ensures
        res matches Ok(word) && word@ == data.take(32),
{
    match res {
        Ok(word) => {
            let read = choose|read: Seq<u8>| #[trigger]
                call_yields(body, Ok(read)) && read.len() >= 32 && word@ == read.take(32);
            law_call_reads_what_the_node_wrote(body, document, data, Ok(read));
        },
        Err(CallError::ShortWord) => {
            let read = choose|read: Seq<u8>| #[trigger] call_yields(body, Ok(read)) && read.len() < 32;
            law_call_reads_what_the_node_wrote(body, document, data, Ok(read));
        },
        Err(error) => law_call_reads_what_the_node_wrote(body, document, data, Err(error)),
    }
}

/// A reply with an error gives that error, whatever result stands beside it.
pub proof fn law_error_means_refusal(
    body: Seq<u8>,
    document: Json,
    error: Json,
    res: Result<Seq<u8>, CallError>,
)
    requires
        json_parse(body) == Some(document),
        member(document, "error"@) == Some(error),
        call_yields(body, res),
    ensures
        res matches Err(CallError::Rpc(message)) && message@ == refusal(error),
{
}

/// A reply comes to one thing only: to the bytes that it holds or to an
/// error, and never to two different sequences of bytes.
pub proof fn law_call_is_determined(
    body: Seq<u8>,
    data: Seq<u8>,
    res: Result<Seq<u8>, CallError>,
)
    requires
        call_yields(body, Ok(data)),
        call_yields(body, res),
    ensures
        res == Ok::<Seq<u8>, CallError>(data),
{
}

proof fn lemma_result_text(data: Seq<u8>)
    ensures
        has_prefix(result_text(data)),
        after_prefix(result_text(data)) == encode_utf8(hex_text(data)),
{
    let digits = hex_text(data);
    let text = result_text(data);
    let bytes = encode_utf8(text);
    reveal_strlit("0x");
    lemma_hex_text_is_ascii(data);
    lemma_hex_text_digits(data);
    assert(is_ascii_chars(text)) by {
        assert forall|i: int| 0 <= i < text.len() implies '\0' <= #[trigger] text[i] <= '\u{7f}' by {
            if i >= 2 {
                assert(text[i] == digits[i - 2]);
            }
        }
    }
    is_ascii_chars_encode_utf8(text);
    assert(bytes.skip(2) =~= encode_utf8(digits)) by {
        assert forall|i: int| 0 <= i < digits.len() implies bytes.skip(2)[i] == encode_utf8(digits)[i] by {
            assert(text[i + 2] == digits[i]);
            assert(bytes[i + 2] == text[i + 2] as u8);
        }
    }
    encode_utf8_valid_utf8(text);
    if data.len() == 0 {
        is_char_boundary_start_end_of_seq(bytes);
    } else {
        assert(text[2] == digits[0]);
        assert(bytes[2] == text[2] as u8);
        is_char_boundary_iff_not_is_continuation_byte(bytes, 2);
    }
}

/// A request is an object that names the protocol version, the method, its
/// parameters and the number of the request, and nothing else.
pub proof fn law_request_members(method: Seq<char>, params: Json, key: Seq<char>)
    ensures
        request_document(method, params) is Object,
        member(request_document(method, params), "jsonrpc"@) == Some(Json::Text("2.0"@)),
        member(request_document(method, params), "method"@) == Some(Json::Text(method)),
        member(request_document(method, params), "params"@) == Some(params),
        member(request_document(method, params), "id"@) == Some(Json::Unsigned(1)),
        member(request_document(method, params), key) is Some ==> key == "jsonrpc"@ || key == "method"@ || key
            == "params"@ || key == "id"@,
{
    reveal_strlit("jsonrpc");
    reveal_strlit("method");
    reveal_strlit("params");
    reveal_strlit("id");
    assert("jsonrpc"@.len() == 7 && "method"@.len() == 6 && "params"@.len() == 6 && "id"@.len() == 2);
    assert("method"@[0] != "params"@[0]);
}

/// A call has two parameters: an object that names the contract and the call
/// data and nothing else, and the latest block.
pub proof fn law_call_parameters(to: Seq<char>, data: Seq<char>, key: Seq<char>)
    ensures
        call_params(to, data) matches Json::Array(items) && {
            &&& items.len() == 2
            &&& items[0] is Object
            &&& member(items[0], "to"@) == Some(Json::Text(to))
            &&& member(items[0], "data"@) == Some(Json::Text(data))
            &&& member(items[0], key) is Some ==> key == "to"@ || key == "data"@
            &&& items[1] == Json::Text("latest"@)
        },
{
    reveal_strlit("to");
    reveal_strlit("data");
    assert("to"@.len() != "data"@.len());
}

/// Two requests for calls are the same only if they call the same contract with the same data.
pub proof fn law_calls_are_told_apart(to: Seq<char>, data: Seq<char>, other: Seq<char>, others: Seq<char>)
    requires
        request_document("eth_call"@, call_params(to, data)) == request_document(
            "eth_call"@,
            call_params(other, others),
        ),
    ensures
        to == other,
        data == others,
{
    law_request_members("eth_call"@, call_params(to, data), "params"@);
    law_request_members("eth_call"@, call_params(other, others), "params"@);
    law_call_parameters(to, data, "to"@);
    law_call_parameters(other, others, "to"@);
}

/// Text has two bytes of prefix exactly when it splits into a part that takes
/// two bytes and a rest; what follows the prefix is the rest.
pub proof fn law_prefix_takes_two_bytes(text: Seq<char>)
    ensures
        has_prefix(text) <==> exists|head: Seq<char>, tail: Seq<char>|
            text == head + tail && encode_utf8(head).len() == 2,
        forall|head: Seq<char>, tail: Seq<char>|
            text == #[trigger] (head + tail) && encode_utf8(head).len() == 2 ==> after_prefix(text)
                == encode_utf8(tail),
{
    let bytes = encode_utf8(text);
    encode_utf8_valid_utf8(text);
    if has_prefix(text) {
        let head = decode_utf8(bytes.subrange(0, 2));
        let tail = decode_utf8(bytes.subrange(2, bytes.len() as int));
        lemma_boundary_in_range(text);
        valid_utf8_split(bytes, 2);
        decode_utf8_split(bytes, 2);
        decode_utf8_encode_utf8(bytes.subrange(0, 2));
        encode_utf8_decode_utf8(text);
        assert(text == head + tail && encode_utf8(head).len() == 2);
    }
    assert forall|head: Seq<char>, tail: Seq<char>|
        text == #[trigger] (head + tail) && encode_utf8(head).len() == 2 implies has_prefix(text)
        && after_prefix(text) == encode_utf8(tail) by {
        lemma_encode_concat(head, tail);
        assert(bytes.skip(2) =~= encode_utf8(tail));
        encode_utf8_valid_utf8(tail);
        if encode_utf8(tail).len() == 0 {
            is_char_boundary_start_end_of_seq(bytes);
        } else {
            is_char_boundary_start_end_of_seq(encode_utf8(tail));
            is_char_boundary_iff_not_is_continuation_byte(encode_utf8(tail), 0);
            is_char_boundary_iff_not_is_continuation_byte(bytes, 2);
            assert(bytes[2] == encode_utf8(tail)[0]);
        }
    }
}

/// A boundary at byte two lies within the text.
proof fn lemma_boundary_in_range(text: Seq<char>)
    requires
        has_prefix(text),
    ensures
        encode_utf8(text).len() >= 2,
{
    encode_utf8_valid_utf8(text);
}

proof fn lemma_encode_concat(a: Seq<char>, b: Seq<char>)
    ensures
        encode_utf8(a + b) == encode_utf8(a) + encode_utf8(b),
    decreases a.len(),
{
    if a.len() == 0 {
        assert(a + b =~= b);
        assert(encode_utf8(a) + encode_utf8(b) =~= encode_utf8(b));
    } else {
        lemma_encode_concat(a.drop_first(), b);
        assert((a + b).drop_first() =~= a.drop_first() + b);
        assert((a + b)[0] == a[0]);
    }
}

/// `0x` and digits, in either case, have their prefix and then the digits.
pub proof fn lemma_spelled_result(digits: Seq<char>, data: Seq<u8>)
    requires
        spells(digits, data),
    ensures
        has_prefix("0x"@ + digits),
        after_prefix("0x"@ + digits) == encode_utf8(digits),
{
    let head = "0x"@;
    reveal_strlit("0x");
    assert(is_ascii_chars(head));
    is_ascii_chars_encode_utf8(head);
    law_prefix_takes_two_bytes(head + digits);
}

/// What a call comes to is told by the members of the reply: bytes that are
/// no JSON cannot be read; an `error` is a refusal, whatever else is there;
/// without a `result`, or with one that is no string, there is no result; and
/// a string is read from its third byte on.
pub proof fn law_call_outcome(body: Seq<u8>, res: Result<Seq<u8>, CallError>)
    requires
        call_yields(body, res),
    ensures
        json_parse(body) is None ==> res matches Err(CallError::Decode(_)),
        json_parse(body) matches Some(document) ==> match (
            member(document, "error"@),
            member(document, "result"@),
        ) {
            (Some(error), _) => res matches Err(CallError::Rpc(message)) && message@ == "RPC error: "@
                + json_text(error),
            (None, Some(Json::Text(result))) => if is_char_boundary(encode_utf8(result), 2) {
                match res {
                    Ok(data) => decodes_to(encode_utf8(result).skip(2), Ok(data)),
                    Err(CallError::Hex(error)) => decodes_to(encode_utf8(result).skip(2), Err(error)),
                    Err(_) => false,
                }
            } else {
                res matches Err(CallError::NoPrefix)
            },
            (None, _) => res matches Err(CallError::NoResult),
        },
{
}

/// Without an error in the reply, a call gives the bytes that the result
/// writes after its `0x`, all of them and whatever they are, in digits of
/// either case.
pub proof fn law_call_reads_the_result(
    body: Seq<u8>,
    document: Json,
    digits: Seq<char>,
    data: Seq<u8>,
    res: Result<Seq<u8>, CallError>,
)
    requires
        json_parse(body) == Some(document),
        member(document, "error"@) is None,
        member(document, "result"@) == Some(Json::Text("0x"@ + digits)),
        spells(digits, data),
        call_yields(body, res),
    ensures
        res == Ok::<Seq<u8>, CallError>(data),
{
    law_call_outcome(body, res);
    lemma_spelled_result(digits, data);
    lemma_spelled_digits(digits, data);
}

/// Without an error in the reply, the word that is read is the first 32 bytes
/// that the result writes after its `0x`, whatever they are, in digits of
/// either case; fewer bytes are no word.
pub proof fn law_word_reads_the_result(
    body: Seq<u8>,
    document: Json,
    digits: Seq<char>,
    data: Seq<u8>,
    res: Result<[u8; 32], CallError>,
)
    requires
        json_parse(body) == Some(document),
        member(document, "error"@) is None,
        member(document, "result"@) == Some(Json::Text("0x"@ + digits)),
        spells(digits, data),
        word_yields(body, res),
    ensures
        data.len() >= 32 ==> (res matches Ok(word) && word@ == data.take(32)),
        data.len() < 32 ==> res matches Err(CallError::ShortWord),
{
    match res {
        Ok(word) => {
            let read = choose|read: Seq<u8>| #[trigger]
                call_yields(body, Ok(read)) && read.len() >= 32 && word@ == read.take(32);
            law_call_reads_the_result(body, document, digits, data, Ok(read));
        },
        Err(CallError::ShortWord) => {
            let read = choose|read: Seq<u8>| #[trigger] call_yields(body, Ok(read)) && read.len() < 32;
            law_call_reads_the_result(body, document, digits, data, Ok(read));
        },
        Err(error) => law_call_reads_the_result(body, document, digits, data, Err(error)),
    }
}

/// The word of a reply is the first 32 bytes of what the call gave, and
/// without a word the error is the call's own, or that the bytes are too few.
pub proof fn law_word_is_the_start_of_the_call(
    body: Seq<u8>,
    call: Result<Seq<u8>, CallError>,
    res: Result<[u8; 32], CallError>,
)
    requires
        call_yields(body, call),
        word_yields(body, res),
    ensures
        match call {
            Ok(data) => if data.len() >= 32 {
                res matches Ok(word) && word@ == data.take(32)
            } else {
                res matches Err(CallError::ShortWord)
            },
            Err(CallError::Decode(_)) => res matches Err(CallError::Decode(_)),
            Err(CallError::Rpc(message)) => res matches Err(CallError::Rpc(text)) && text@ == message@,
            Err(CallError::NoResult) => res matches Err(CallError::NoResult),
            Err(CallError::NoPrefix) => res matches Err(CallError::NoPrefix),
            Err(CallError::Hex(error)) => res matches Err(CallError::Hex(same)) && same == error,
            Err(CallError::ShortWord) => false,
        },
{
    let other: Result<Seq<u8>, CallError> = match res {
        Ok(word) => Ok(
            choose|read: Seq<u8>| #[trigger]
                call_yields(body, Ok(read)) && read.len() >= 32 && word@ == read.take(32),
        ),
        Err(CallError::ShortWord) => Ok(
            choose|read: Seq<u8>| #[trigger] call_yields(body, Ok(read)) && read.len() < 32,
        ),
        Err(error) => Err(error),
    };
    assert(call_yields(body, other));
    law_call_outcome(body, call);
    law_call_outcome(body, other);
    if let Err(CallError::Hex(error)) = call {
        if let Err(CallError::Hex(same)) = other {
            let result = member(json_parse(body)->0, "result"@)->0->Text_0;
            lemma_one_hex_error(encode_utf8(result).skip(2), error, same);
        }
    }
}

/// Text that cannot be decoded is refused for one reason only.
proof fn lemma_one_hex_error(text: Seq<u8>, a: HexError, b: HexError)
    requires
        decodes_to(text, Err(a)),
        decodes_to(text, Err(b)),
    ensures
        a == b,
{
    law_decode_outcome(text, Err(a));
    law_decode_outcome(text, Err(b));
}

/// What a node writes as the result is `0x` and digits that write the bytes.
pub proof fn law_result_text_spells(data: Seq<u8>)
    ensures
        result_text(data).take(2) == "0x"@,
        spells(result_text(data).skip(2), data),
{
    reveal_strlit("0x");
    law_encoding_spells_in_lower_case(data);
    assert(result_text(data).take(2) =~= "0x"@);
    assert(result_text(data).skip(2) =~= hex_text(data));
}

} // verus!
