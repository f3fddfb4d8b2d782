//! What the environment variables mean. A variable that is unset, or whose
//! value does not make sense, leaves the default.

use vstd::prelude::*;
use vstd::string::*;

use crate::gpu::DEFAULT_BATCH;

verus! {

/// The node that is asked when no other is named.
pub const DEFAULT_RPC_URL: &'static str = "https://eth.llamarpc.com";

/// The value of a decimal digit.
pub open spec fn decimal_digit(c: char) -> Option<nat> {
    if '0' <= c <= '9' {
        Some((c as int - '0' as int) as nat)
    } else {
        None
    }
}

/// Every character is a decimal digit, and there is at least one.
pub open spec fn is_decimal(text: Seq<char>) -> bool {
    text.len() > 0 && forall|i: int| 0 <= i < text.len() ==> (#[trigger] decimal_digit(text[i])) is Some
}

/// The number that decimal digits denote.
pub open spec fn decimal_value(text: Seq<char>) -> nat
    decreases text.len(),
{
    if text.len() == 0 {
        0
    } else {
        decimal_value(text.drop_last()) * 10 + decimal_digit(text.last())->0
    }
}

/// The digits of a number: what follows the plus sign that may stand before them.
pub open spec fn unsigned_digits(text: Seq<char>) -> Seq<char> {
    if text.len() > 0 && text[0] == '+' {
        text.skip(1)
    } else {
        text
    }
}

/// The number that `text` writes in decimal, if it does and the machine can hold it.
pub open spec fn size_in(text: Seq<char>) -> Option<usize> {
    let digits = unsigned_digits(text);
    if is_decimal(digits) && decimal_value(digits) <= usize::MAX {
        Some(decimal_value(digits) as usize)
    } else {
        None
    }
}

proof fn lemma_decimal_prefix(text: Seq<char>, n: int)
    requires
        0 <= n <= text.len(),
    ensures
        decimal_value(text.take(n)) <= decimal_value(text),
    decreases text.len(),
{
    if n < text.len() {
        lemma_decimal_prefix(text.drop_last(), n);
        assert(text.drop_last().take(n) == text.take(n));
    } else {
        assert(text.take(n) == text);
    }
}

/// Reads a decimal number, with or without a plus sign.
pub fn parse_size(text: &str) -> (size: Option<usize>)
    ensures
        size == size_in(text@),
{
    let len: usize = text.unicode_len();
    let start: usize = if len > 0 && text.get_char(0) == '+' {
        1
    } else {
        0
    };
    let ghost digits = unsigned_digits(text@);
    assert(start == 0 ==> digits == text@.skip(0));
    assert(digits == text@.skip(start as int));
    if start >= len {
        return None;
    }
    let mut size: usize = 0;
    let mut at: usize = start;
    assert(digits.take(0) == Seq::<char>::empty());
    while at < len
        invariant
            start <= at <= len,
            len == text@.len(),
            digits == text@.skip(start as int),
            digits == unsigned_digits(text@),
            size == decimal_value(digits.take(at - start)),
            forall|i: int| 0 <= i < at - start ==> (#[trigger] decimal_digit(digits[i])) is Some,
        decreases len - at,
    {
        let c: char = text.get_char(at);
        let ghost n = at - start;
        assert(digits[n] == c);
        if c < '0' || c > '9' {
            assert(decimal_digit(digits[n]) is None);
            return None;
        }
        proof {
            assert(digits.take(n + 1).drop_last() == digits.take(n));
            assert(digits.take(n + 1).last() == c);
            lemma_decimal_prefix(digits, n + 1);
        }
        let digit: usize = (c as u32 - '0' as u32) as usize;
        size = match size.checked_mul(10) {
            Some(tens) => match tens.checked_add(digit) {
                Some(sum) => sum,
                None => return None,
            },
            None => return None,
        };
        at = at + 1;
    }
    assert(digits.take(len - start) == digits);
    Some(size)
}

/// The node to ask.
pub fn rpc_url(var: Option<String>) -> (url: String)
    ensures
        url@ == (match var {
            Some(value) => value@,
            None => DEFAULT_RPC_URL@,
        }),
{
    match var {
        Some(value) => value,
        None => DEFAULT_RPC_URL.to_owned(),
    }
}

/// Whether the GPU is to be used: only when the variable is `1`.
pub fn use_gpu(var: Option<String>) -> (res: bool)
    ensures
        res == (var matches Some(value) && value@ == seq!['1']),
{
    match var {
        Some(value) => {
            let res: bool = value.as_str().unicode_len() == 1 && value.as_str().get_char(0) == '1';
            assert(res ==> value@ =~= seq!['1']);
            res
        },
        None => false,
    }
}

/// How many nonces a GPU dispatch tries.
pub fn gpu_batch(var: Option<String>) -> (size: usize)
    ensures
        size == (match var {
            Some(value) => match size_in(value@) {
                Some(size) => size,
                None => DEFAULT_BATCH,
            },
            None => DEFAULT_BATCH,
        }),
{
    match var {
        Some(value) => match parse_size(value.as_str()) {
            Some(size) => size,
            None => DEFAULT_BATCH,
        },
        None => DEFAULT_BATCH,
    }
}

/// How many CPU workers were asked for.
pub fn miner_threads(var: Option<String>) -> (count: Option<usize>)
    ensures
        count == (match var {
            Some(value) => size_in(value@),
            None => None,
        }),
{
    match var {
        Some(value) => parse_size(value.as_str()),
        None => None,
    }
}

/// A single character is a number if it is a digit, and then it is that digit;
/// no characters are no number.
pub proof fn law_digit_is_a_number(c: char)
    ensures
        size_in(seq![]) is None,
        size_in(seq![c]) == (if '0' <= c <= '9' {
            Some((c as int - '0' as int) as usize)
        } else {
            None
        }),
{
    let text = seq![c];
    if c == '+' {
        assert(text.skip(1) =~= seq![]);
    } else {
        assert(text.drop_last() =~= seq![]);
        assert(decimal_value(text.drop_last()) == 0);
        if is_decimal(text) {
            assert(decimal_digit(text[0]) is Some);
        }
    }
}

/// A digit more makes a number ten times as great and adds the digit, as long
/// as the machine can hold that; a character that is no digit spoils the
/// number, and a text that is no number does not become one.
pub proof fn law_digit_more_is_ten_times(text: Seq<char>, c: char)
    requires
        text.len() > 0,
        text != seq!['+'],
    ensures
        size_in(text.push(c)) == (match size_in(text) {
            Some(size) if '0' <= c <= '9' && 10 * size + (c as int - '0' as int) <= usize::MAX => Some(
                (10 * size + (c as int - '0' as int)) as usize,
            ),
            _ => None,
        }),
{
    let longer = text.push(c);
    let digits = unsigned_digits(text);
    assert(unsigned_digits(longer) =~= digits.push(c));
    if text[0] == '+' && text.len() == 1 {
        assert(text =~= seq!['+']);
    }
    assert(digits.len() > 0);
    assert(digits.push(c).drop_last() =~= digits);
    if is_decimal(digits.push(c)) {
        assert forall|i: int| 0 <= i < digits.len() implies (#[trigger] decimal_digit(digits[i])) is Some by {
            assert(decimal_digit(digits.push(c)[i]) is Some);
        }
        assert(decimal_digit(digits.push(c)[digits.len() as int]) is Some);
    }
    if is_decimal(digits) && '0' <= c <= '9' {
        assert forall|i: int| 0 <= i < digits.push(c).len() implies (#[trigger] decimal_digit(
            digits.push(c)[i],
        )) is Some by {
            if i < digits.len() {
                assert(decimal_digit(digits[i]) is Some);
            }
        }
    }
}

/// One plus sign before a number changes nothing; a second one spoils it.
pub proof fn law_plus_sign_changes_nothing(text: Seq<char>)
    ensures
        size_in(seq!['+'] + text) == (if text.len() > 0 && text[0] == '+' {
            None
        } else {
            size_in(text)
        }),
{
    assert((seq!['+'] + text).skip(1) =~= text);
    if text.len() > 0 && text[0] == '+' {
        assert(decimal_digit(text[0]) is None);
    }
}

/// Zeros before a number change nothing.
pub proof fn law_leading_zero_changes_nothing(text: Seq<char>)
    requires
        text.len() > 0,
        text[0] != '+',
    ensures
        size_in(seq!['0'] + text) == size_in(text),
{
    let longer = seq!['0'] + text;
    lemma_leading_zero(text);
    assert(longer[0] == '0');
    if is_decimal(longer) {
        assert forall|i: int| 0 <= i < text.len() implies (#[trigger] decimal_digit(text[i])) is Some by {
            assert(decimal_digit(longer[i + 1]) is Some);
        }
    }
    if is_decimal(text) {
        assert forall|i: int| 0 <= i < longer.len() implies (#[trigger] decimal_digit(longer[i])) is Some by {
            if i > 0 {
                assert(decimal_digit(text[i - 1]) is Some);
            }
        }
    }
}

proof fn lemma_leading_zero(text: Seq<char>)
    ensures
        decimal_value(seq!['0'] + text) == decimal_value(text),
    decreases text.len(),
{
    let longer = seq!['0'] + text;
    if text.len() == 0 {
        assert(longer.drop_last() =~= seq![]);
        assert(decimal_value(longer.drop_last()) == 0);
    } else {
        assert(longer.drop_last() =~= seq!['0'] + text.drop_last());
        lemma_leading_zero(text.drop_last());
    }
}

} // verus!
