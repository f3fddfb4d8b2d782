use hash_miner::calldata::{
    challenge_call, challenge_request, difficulty_call, difficulty_request, submission, CONTRACT,
};
use hash_miner::hexadecimal::{hex_word, HexError};
use hash_miner::rpc::{
    call_reply, call_request, call_result, decode_result, first_word, rpc_reply, rpc_request, word_reply,
    CallError,
};
use hash_miner::settings::{gpu_batch, miner_threads, parse_size, rpc_url, use_gpu};
use serde_json::Value;

fn value(text: &str) -> Value {
    serde_json::from_str(text).unwrap()
}

fn owned(text: &str) -> Option<String> {
    Some(String::from(text))
}

#[test]
fn request_names_version_method_params_and_id() {
    let request = rpc_request("m", value("[1,true]"));
    assert_eq!(request, value(r#"{"jsonrpc":"2.0","method":"m","params":[1,true],"id":1}"#));
}

#[test]
fn call_request_text() {
    assert_eq!(
        call_request("0xaa", "0xbb"),
        r#"{"id":1,"jsonrpc":"2.0","method":"eth_call","params":[{"data":"0xbb","to":"0xaa"},"latest"]}"#
    );
}

#[test]
fn call_request_escapes_its_arguments() {
    let request = value(&call_request("a\"b", "c\\d"));
    assert_eq!(request["params"][0]["to"], value(r#""a\"b""#));
    assert_eq!(request["params"][0]["data"], value(r#""c\\d""#));
}

#[test]
fn reply_without_error_is_passed_on() {
    let document = value(r#"{"result":"0x00"}"#);
    match rpc_reply(document.clone()) {
        Ok(passed) => assert_eq!(passed, document),
        Err(_) => panic!("refused"),
    }
}

#[test]
fn error_member_is_a_refusal() {
    match rpc_reply(value(r#"{"error":{"code":-32000,"message":"no"},"result":"0x00"}"#)) {
        Err(CallError::Rpc(message)) => {
            assert_eq!(message, r#"RPC error: {"code":-32000,"message":"no"}"#);
        }
        _ => panic!("not refused"),
    }
    match call_reply(br#"{"error":null}"#) {
        Err(CallError::Rpc(message)) => assert_eq!(message, "RPC error: null"),
        _ => panic!("not refused"),
    }
}

#[test]
fn result_must_be_a_string() {
    assert!(matches!(call_result(value(r#"{"result":"0x0a"}"#)), Ok(text) if text == "0x0a"));
    assert!(matches!(call_result(value(r#"{"result":10}"#)), Err(CallError::NoResult)));
    assert!(matches!(call_result(value(r#"{"id":1}"#)), Err(CallError::NoResult)));
    assert!(matches!(call_result(value("[]")), Err(CallError::NoResult)));
}

#[test]
fn result_loses_two_bytes_and_is_decoded() {
    assert!(matches!(decode_result("0x0aFf"), Ok(data) if data == vec![0x0a, 0xff]));
    assert!(matches!(decode_result("zz01"), Ok(data) if data == vec![1]));
    assert!(matches!(decode_result("0x"), Ok(data) if data.is_empty()));
}

#[test]
fn odd_digits_are_refused() {
    assert!(matches!(decode_result("0x0"), Err(HexError::OddLength)));
    assert!(matches!(decode_result("0xg"), Err(HexError::OddLength)));
}

#[test]
fn first_bad_digit_is_reported() {
    assert!(matches!(
        decode_result("0x0a!g"),
        Err(HexError::InvalidHexCharacter { c: '!', index: 2 })
    ));
    assert!(matches!(
        decode_result("0xé"),
        Err(HexError::InvalidHexCharacter { c: '\u{c3}', index: 0 })
    ));
}

#[test]
fn call_reply_gives_the_bytes() {
    assert!(matches!(call_reply(br#"{"jsonrpc":"2.0","id":1,"result":"0x0102"}"#), Ok(data) if data == vec![1, 2]));
}

#[test]
fn call_reply_errors() {
    assert!(matches!(call_reply(b"not json"), Err(CallError::Decode(_))));
    assert!(matches!(call_reply(br#"{"result":null}"#), Err(CallError::NoResult)));
    assert!(matches!(call_reply(br#"{"result":"0"}"#), Err(CallError::NoPrefix)));
    assert!(matches!(call_reply("{\"result\":\"0\u{e9}\"}".as_bytes()), Err(CallError::NoPrefix)));
    assert!(matches!(call_reply(br#"{"result":"0x1"}"#), Err(CallError::Hex(HexError::OddLength))));
}

#[test]
fn two_byte_character_can_be_the_prefix() {
    assert!(matches!(call_reply("{\"result\":\"\u{e9}07\"}".as_bytes()), Ok(data) if data == vec![7]));
}

#[test]
fn word_is_the_first_thirty_two_bytes() {
    let mut data = vec![5u8; 32];
    data.push(9);
    assert_eq!(first_word(&data), [5u8; 32]);
    let body = format!("{{\"result\":\"0x{}\"}}", hex::encode(&data));
    assert!(matches!(word_reply(body.as_bytes()), Ok(word) if word == [5u8; 32]));
}

#[test]
fn short_word_is_refused() {
    let body = format!("{{\"result\":\"0x{}\"}}", hex::encode([5u8; 31]));
    assert!(matches!(word_reply(body.as_bytes()), Err(CallError::ShortWord)));
    assert!(matches!(word_reply(b"{"), Err(CallError::Decode(_))));
}

#[test]
fn node_text_is_read_back() {
    let mut word = [0u8; 32];
    for i in 0..32 {
        word[i] = 8 * i as u8;
    }
    let body = format!("{{\"result\":\"{}\"}}", hex_word(&word));
    assert!(matches!(call_reply(body.as_bytes()), Ok(data) if data == word.to_vec()));
}

#[test]
fn words_are_written_in_lower_case() {
    let mut word = [0u8; 32];
    word[0] = 0xab;
    word[31] = 0x0f;
    assert_eq!(hex_word(&word), format!("0xab{}0f", "00".repeat(30)));
}

#[test]
fn challenge_call_pads_the_wallet() {
    let call = challenge_call("0x00112233445566778899AabbCCddEEff00112233");
    assert_eq!(
        call,
        format!("0xb52f2c33{}00112233445566778899AabbCCddEEff00112233", "0".repeat(24))
    );
    assert_eq!(call, challenge_call("00112233445566778899AabbCCddEEff00112233"));
}

#[test]
fn every_leading_prefix_is_dropped() {
    assert_eq!(challenge_call("0x0x0xab"), format!("0xb52f2c33{}ab", "0".repeat(62)));
    assert_eq!(challenge_call("x0xab"), format!("0xb52f2c33{}x0xab", "0".repeat(59)));
    assert_eq!(challenge_call("0x"), format!("0xb52f2c33{}", "0".repeat(64)));
    assert_eq!(challenge_call("0"), format!("0xb52f2c33{}", "0".repeat(64)));
}

#[test]
fn long_wallet_is_not_cut() {
    let wallet = "7".repeat(70);
    assert_eq!(challenge_call(&wallet), format!("0xb52f2c33{}", wallet));
    assert_eq!(challenge_call(&wallet), format!("0xb52f2c33{:0>64}", wallet));
}

#[test]
fn padding_counts_characters() {
    assert_eq!(challenge_call("é"), format!("0xb52f2c33{:0>64}", "é"));
}

#[test]
fn difficulty_call_is_the_selector() {
    assert_eq!(difficulty_call(), "0x3f5c3e87");
}

#[test]
fn submission_is_selector_and_nonce() {
    assert_eq!(submission(&[0x1f; 32]), format!("0xacc8f306{}", "1f".repeat(32)));
}

#[test]
fn contract_address() {
    assert_eq!(CONTRACT, "0xAC7b5d06fa1e77D08aea40d46cB7C5923A87A0cc");
}

#[test]
fn sizes_are_decimal() {
    assert_eq!(parse_size("8388608"), Some(8388608));
    assert_eq!(parse_size("+7"), Some(7));
    assert_eq!(parse_size("007"), Some(7));
    for text in ["", "+", "-1", "1 ", "0x10", "1_0", "++1"] {
        assert_eq!(parse_size(text), None);
        assert_eq!(parse_size(text), text.parse::<usize>().ok());
    }
}

#[test]
fn sizes_fit_the_machine() {
    let most = format!("{}", usize::MAX);
    assert_eq!(parse_size(&most), Some(usize::MAX));
    assert_eq!(parse_size(&format!("{}0", most)), None);
    assert_eq!(parse_size(&format!("{}", usize::MAX as u128 + 1)), None);
}

#[test]
fn batch_falls_back_to_its_default() {
    assert_eq!(gpu_batch(None), 4194304);
    assert_eq!(gpu_batch(owned("many")), 4194304);
    assert_eq!(gpu_batch(owned("8388608")), 8388608);
}

#[test]
fn gpu_is_used_on_one_only() {
    assert!(use_gpu(owned("1")));
    assert!(!use_gpu(owned("0")));
    assert!(!use_gpu(owned("11")));
    assert!(!use_gpu(owned("")));
    assert!(!use_gpu(None));
}

#[test]
fn node_has_a_default() {
    assert_eq!(rpc_url(None), "https://eth.llamarpc.com");
    assert_eq!(rpc_url(owned("http://localhost:8545")), "http://localhost:8545");
}

#[test]
fn thread_count_is_optional() {
    assert_eq!(miner_threads(None), None);
    assert_eq!(miner_threads(owned("8")), Some(8));
    assert_eq!(miner_threads(owned("all")), None);
}

#[test]
fn missing_result_is_told() {
    match call_reply(br#"{"id":1}"#) {
        Err(error) => assert_eq!(error.message(), owned("No result")),
        Ok(_) => panic!("a result"),
    }
}

#[test]
fn refusal_is_told() {
    match call_reply(br#"{"error":"busy"}"#) {
        Err(error) => assert_eq!(error.message(), owned("RPC error: \"busy\"")),
        Ok(_) => panic!("not refused"),
    }
}

#[test]
fn other_errors_have_no_text_of_their_own() {
    assert_eq!(CallError::ShortWord.message(), None);
    assert_eq!(CallError::NoPrefix.message(), None);
    assert_eq!(CallError::Hex(HexError::OddLength).message(), None);
}

#[test]
fn challenge_is_asked_of_the_contract() {
    assert_eq!(
        challenge_request("0xab"),
        format!(
            "{{\"id\":1,\"jsonrpc\":\"2.0\",\"method\":\"eth_call\",\"params\":[{{\"data\":\"0xb52f2c33{}ab\",\"to\":\"0xAC7b5d06fa1e77D08aea40d46cB7C5923A87A0cc\"}},\"latest\"]}}",
            "0".repeat(62)
        )
    );
}

#[test]
fn difficulty_is_asked_of_the_contract() {
    assert_eq!(
        difficulty_request(),
        r#"{"id":1,"jsonrpc":"2.0","method":"eth_call","params":[{"data":"0x3f5c3e87","to":"0xAC7b5d06fa1e77D08aea40d46cB7C5923A87A0cc"},"latest"]}"#
    );
}
