//! The 64-bit words in which challenges, difficulties and nonces pass to and
//! from the GPU kernel.

use vstd::prelude::*;

#[allow(unused_imports)]
use crate::bytes::{
    be_bytes, be_value, law_first_byte_is_least_significant, law_first_byte_is_most_significant,
    law_last_byte_written_is_lowest, le_value, lemma_be_bytes_value, lemma_be_value_bound, lemma_be_value_bytes,
    lemma_be_value_concat, lemma_le_value_bound, lemma_le_value_concat, lemma_pow256_8, lemma_pow256_add,
    lemma_pow256_positive, pow256,
};

verus! {

/// The eight bytes of word `i`.
pub open spec fn word_bytes(s: Seq<u8>, i: int) -> Seq<u8> {
    s.subrange(8 * i, 8 * i + 8)
}

/// The four words of 32 bytes, each read with its least significant byte first.
pub open spec fn le_words(s: Seq<u8>) -> Seq<nat> {
    Seq::new(4, |i: int| le_value(word_bytes(s, i)))
}

/// The four words of 32 bytes, each read with its most significant byte first.
pub open spec fn be_words(s: Seq<u8>) -> Seq<nat> {
    Seq::new(4, |i: int| be_value(word_bytes(s, i)))
}

/// Words as numbers.
pub open spec fn word_values(words: [u64; 4]) -> Seq<nat> {
    Seq::new(4, |i: int| words@[i] as nat)
}

/// The 32 bytes of four words, each with its most significant byte first.
pub open spec fn words_to_bytes(words: Seq<nat>) -> Seq<u8> {
    be_bytes(words[0], 8) + be_bytes(words[1], 8) + be_bytes(words[2], 8) + be_bytes(words[3], 8)
}

/// Word by word, the first that differs decides: `a` is below `b`.
pub open spec fn words_less(a: Seq<nat>, b: Seq<nat>) -> bool {
    exists|i: int|
        0 <= i < 4 && #[trigger] a[i] < #[trigger] b[i] && forall|j: int|
            0 <= j < i ==> a[j] == b[j]
}

/// The number in the eight bytes from `at` on, least significant byte first.
fn word_le(bytes: &[u8; 32], at: usize) -> (word: u64)
    requires
        at <= 24,
    ensures
        word == le_value(bytes@.subrange(at as int, at + 8)),
{
    let ghost s = bytes@.subrange(at as int, at + 8);
    let mut word: u64 = 0;
    let mut i: usize = 8;
    assert(s.skip(8) == Seq::<u8>::empty());
    proof {
        lemma_pow256_8();
    }
    while i > 0
        invariant
            i <= 8,
            at <= 24,
            s.len() == 8,
            bytes@.len() == 32,
            s == bytes@.subrange(at as int, at + 8),
            pow256(8) == 0x1_0000_0000_0000_0000,
            word == le_value(s.skip(i as int)),
        decreases i,
    {
        i = i - 1;
        proof {
            let t = s.skip(i as int);
            assert(t.drop_first() == s.skip(i + 1));
            assert(t[0] == bytes@[at + i]);
            lemma_le_value_bound(t);
            lemma_pow256_add(t.len(), i as nat);
            lemma_pow256_positive(i as nat);
            assert(pow256(t.len()) <= pow256(8)) by (nonlinear_arith)
                requires
                    pow256(8) == pow256(t.len()) * pow256(i as nat),
                    pow256(i as nat) > 0,
            ;
        }
        word = bytes[at + i] as u64 + 256 * word;
    }
    assert(s.skip(0) == s);
    word
}

/// The number in the eight bytes from `at` on, most significant byte first.
fn word_be(bytes: &[u8; 32], at: usize) -> (word: u64)
    requires
        at <= 24,
    ensures
        word == be_value(bytes@.subrange(at as int, at + 8)),
{
    let ghost s = bytes@.subrange(at as int, at + 8);
    let mut word: u64 = 0;
    let mut i: usize = 0;
    assert(s.take(0) == Seq::<u8>::empty());
    proof {
        lemma_pow256_8();
    }
    while i < 8
        invariant
            i <= 8,
            at <= 24,
            s.len() == 8,
            bytes@.len() == 32,
            s == bytes@.subrange(at as int, at + 8),
            pow256(8) == 0x1_0000_0000_0000_0000,
            word == be_value(s.take(i as int)),
        decreases 8 - i,
    {
        proof {
            let t = s.take(i + 1);
            assert(t.drop_last() == s.take(i as int));
            assert(t.last() == bytes@[at + i]);
            lemma_be_value_bound(t);
            lemma_pow256_add(t.len(), (7 - i) as nat);
            lemma_pow256_positive((7 - i) as nat);
            assert(pow256(t.len()) <= pow256(8)) by (nonlinear_arith)
                requires
                    pow256(8) == pow256(t.len()) * pow256((7 - i) as nat),
                    pow256((7 - i) as nat) > 0,
            ;
        }
        word = word * 256 + bytes[at + i] as u64;
        i = i + 1;
    }
    assert(s.take(8) == s);
    word
}

/// The challenge as four words, each read with its least significant byte first.
pub fn split_challenge_le(challenge: &[u8; 32]) -> (words: [u64; 4])
    ensures
        word_values(words) == le_words(challenge@),
        forall|k: int|
            0 <= k < 32 ==> #[trigger] challenge@[k] == (words@[k / 8] as nat / pow256((k % 8) as nat)) % 256,
{
    let words: [u64; 4] = [
        word_le(challenge, 0),
        word_le(challenge, 8),
        word_le(challenge, 16),
        word_le(challenge, 24),
    ];
    assert(word_values(words) =~= le_words(challenge@));
    assert forall|k: int| 0 <= k < 32 implies #[trigger] challenge@[k] == (words@[k / 8] as nat / pow256(
        (k % 8) as nat,
    )) % 256 by {
        law_word_values(words, k / 8);
        law_challenge_words_hold_the_bytes(challenge@, k / 8, k % 8);
    }
    words
}

/// The difficulty as four words, the most significant first, each read with
/// its most significant byte first.
pub fn split_difficulty_be(difficulty: &[u8; 32]) -> (words: [u64; 4])
    ensures
        word_values(words) == be_words(difficulty@),
        forall|k: int|
            0 <= k < 32 ==> #[trigger] difficulty@[k] == (words@[k / 8] as nat / pow256((7 - k % 8) as nat))
                % 256,
{
    let words: [u64; 4] = [
        word_be(difficulty, 0),
        word_be(difficulty, 8),
        word_be(difficulty, 16),
        word_be(difficulty, 24),
    ];
    assert(word_values(words) =~= be_words(difficulty@));
    assert forall|k: int| 0 <= k < 32 implies #[trigger] difficulty@[k] == (words@[k / 8] as nat / pow256(
        (7 - k % 8) as nat,
    )) % 256 by {
        law_word_values(words, k / 8);
        law_difficulty_words_hold_the_bytes(difficulty@, k / 8, k % 8);
    }
    words
}

/// The eight bytes of `word`, most significant first.
fn bytes_be(word: u64) -> (bytes: [u8; 8])
    ensures
        bytes@ == be_bytes(word as nat, 8),
{
    let mut bytes: [u8; 8] = [0u8; 8];
    let mut rest: u64 = word;
    let mut i: usize = 8;
    assert(bytes@.skip(8) == Seq::<u8>::empty());
    while i > 0
        invariant
            i <= 8,
            bytes@.len() == 8,
            be_bytes(word as nat, 8) == be_bytes(rest as nat, i as nat) + bytes@.skip(i as int),
        decreases i,
    {
        let ghost before = bytes@;
        i = i - 1;
        bytes[i] = (rest % 256) as u8;
        proof {
            let v = rest as nat;
            assert(be_bytes(v, (i + 1) as nat) == be_bytes(v / 256, i as nat).push((v % 256) as u8));
            assert(be_bytes(v / 256, i as nat).push((v % 256) as u8) + before.skip(i + 1) =~= be_bytes(
                v / 256,
                i as nat,
            ) + bytes@.skip(i as int));
        }
        rest = rest / 256;
    }
    assert(be_bytes(rest as nat, 0) + bytes@.skip(0) =~= bytes@);
    bytes
}

/// The nonce whose four words the kernel reports, each written with its most
/// significant byte first.
pub fn join_nonce_be(words: &[u64; 4]) -> (nonce: [u8; 32])
    ensures
        nonce@ == words_to_bytes(word_values(*words)),
        forall|k: int|
            0 <= k < 32 ==> #[trigger] nonce@[k] == (words@[k / 8] as nat / pow256((7 - k % 8) as nat)) % 256,
{
    let mut nonce: [u8; 32] = [0u8; 32];
    let a: [u8; 8] = bytes_be(words[0]);
    let b: [u8; 8] = bytes_be(words[1]);
    let c: [u8; 8] = bytes_be(words[2]);
    let d: [u8; 8] = bytes_be(words[3]);
    let mut i: usize = 0;
    while i < 8
        invariant
            i <= 8,
            nonce@.len() == 32,
            forall|k: int| 0 <= k < i ==> nonce@[k] == a@[k],
            forall|k: int| 0 <= k < i ==> nonce@[8 + k] == b@[k],
            forall|k: int| 0 <= k < i ==> nonce@[16 + k] == c@[k],
            forall|k: int| 0 <= k < i ==> nonce@[24 + k] == d@[k],
        decreases 8 - i,
    {
        nonce[i] = a[i];
        nonce[8 + i] = b[i];
        nonce[16 + i] = c[i];
        nonce[24 + i] = d[i];
        i = i + 1;
    }
    assert(nonce@ =~= a@ + b@ + c@ + d@) by {
        assert forall|k: int| 0 <= k < 32 implies nonce@[k] == (a@ + b@ + c@ + d@)[k] by {
            if 8 <= k < 16 {
                assert(nonce@[8 + (k - 8)] == b@[k - 8]);
            } else if 16 <= k < 24 {
                assert(nonce@[16 + (k - 16)] == c@[k - 16]);
            } else if 24 <= k {
                assert(nonce@[24 + (k - 24)] == d@[k - 24]);
            }
        }
    }
    assert forall|k: int| 0 <= k < 32 implies #[trigger] nonce@[k] == (words@[k / 8] as nat / pow256(
        (7 - k % 8) as nat,
    )) % 256 by {
        law_nonce_bytes_hold_the_words(*words, k / 8, k % 8);
    }
    nonce
}

proof fn lemma_four_words(s: Seq<u8>)
    requires
        s.len() == 32,
    ensures
        s == word_bytes(s, 0) + word_bytes(s, 1) + word_bytes(s, 2) + word_bytes(s, 3),
{
    assert(s =~= word_bytes(s, 0) + word_bytes(s, 1) + word_bytes(s, 2) + word_bytes(s, 3));
}

/// The difficulty words are the digits of the difficulty, read as one number
/// with the most significant byte first, in base 2^64.
pub proof fn law_difficulty_words_value(s: Seq<u8>)
    requires
        s.len() == 32,
    ensures
        be_value(s) == ((be_words(s)[0] * pow256(8) + be_words(s)[1]) * pow256(8) + be_words(s)[2])
            * pow256(8) + be_words(s)[3],
{
    let a = word_bytes(s, 0);
    let b = word_bytes(s, 1);
    let c = word_bytes(s, 2);
    let d = word_bytes(s, 3);
    lemma_four_words(s);
    lemma_be_value_concat(a, b);
    lemma_be_value_concat(a + b, c);
    lemma_be_value_concat(a + b + c, d);
}

/// The challenge words are the digits of the challenge, read as one number
/// with the least significant byte first, in base 2^64.
pub proof fn law_challenge_words_value(s: Seq<u8>)
    requires
        s.len() == 32,
    ensures
        le_value(s) == le_words(s)[0] + pow256(8) * (le_words(s)[1] + pow256(8) * (le_words(s)[2]
            + pow256(8) * le_words(s)[3])),
{
    let a = word_bytes(s, 0);
    let b = word_bytes(s, 1);
    let c = word_bytes(s, 2);
    let d = word_bytes(s, 3);
    lemma_four_words(s);
    assert(a + b + c + d == a + (b + (c + d)));
    lemma_le_value_concat(c, d);
    lemma_le_value_concat(b, c + d);
    lemma_le_value_concat(a, b + (c + d));
}

/// Comparing two 32-byte values word by word, as the kernel does, is comparing
/// them as numbers with the most significant byte first.
pub proof fn law_word_order_is_numeric(a: Seq<u8>, b: Seq<u8>)
    requires
        a.len() == 32,
        b.len() == 32,
    ensures
        words_less(be_words(a), be_words(b)) <==> be_value(a) < be_value(b),
{
    let x = be_words(a);
    let y = be_words(b);
    law_difficulty_words_value(a);
    law_difficulty_words_value(b);
    lemma_pow256_8();
    assert forall|i: int| 0 <= i < 4 implies x[i] < pow256(8) && y[i] < pow256(8) by {
        lemma_be_value_bound(word_bytes(a, i));
        lemma_be_value_bound(word_bytes(b, i));
    }
    assert(x[0] < pow256(8) && x[1] < pow256(8) && x[2] < pow256(8) && x[3] < pow256(8));
    assert(y[0] < pow256(8) && y[1] < pow256(8) && y[2] < pow256(8) && y[3] < pow256(8));
    if be_value(a) < be_value(b) {
        if x[0] != y[0] {
            assert(x[0] < y[0]);
        } else if x[1] != y[1] {
            assert(x[1] < y[1]);
        } else if x[2] != y[2] {
            assert(x[2] < y[2]);
        } else {
            assert(x[3] < y[3]);
        }
    }
}

/// Writing words as bytes and splitting the bytes again gives the words back.
pub proof fn law_words_survive_bytes(words: [u64; 4])
    ensures
        words_to_bytes(word_values(words)).len() == 32,
        be_words(words_to_bytes(word_values(words))) == word_values(words),
{
    let w = word_values(words);
    let s = words_to_bytes(w);
    lemma_pow256_8();
    assert forall|i: int| 0 <= i < 4 implies be_bytes(#[trigger] w[i], 8).len() == 8 && be_value(
        be_bytes(w[i], 8),
    ) == w[i] by {
        lemma_be_bytes_value(w[i], 8);
    }
    assert(w[0] == words@[0] && w[1] == words@[1] && w[2] == words@[2] && w[3] == words@[3]);
    assert(word_bytes(s, 0) =~= be_bytes(w[0], 8));
    assert(word_bytes(s, 1) =~= be_bytes(w[1], 8));
    assert(word_bytes(s, 2) =~= be_bytes(w[2], 8));
    assert(word_bytes(s, 3) =~= be_bytes(w[3], 8));
    assert(be_words(s) =~= w);
}

/// Splitting 32 bytes into words and writing the words as bytes gives the bytes back.
pub proof fn law_bytes_survive_words(s: Seq<u8>)
    requires
        s.len() == 32,
    ensures
        words_to_bytes(be_words(s)) == s,
{
    lemma_four_words(s);
    lemma_be_value_bytes(word_bytes(s, 0));
    lemma_be_value_bytes(word_bytes(s, 1));
    lemma_be_value_bytes(word_bytes(s, 2));
    lemma_be_value_bytes(word_bytes(s, 3));
}

/// Words as numbers are the words, in their order.
pub proof fn law_word_values(words: [u64; 4], i: int)
    requires
        0 <= i < 4,
    ensures
        word_values(words).len() == 4,
        word_values(words)[i] == words@[i],
{
}

/// Byte `j` of word `i` of a challenge is byte `8 * i + j` of the challenge,
/// when the bytes of a word are counted from the least significant on.
pub proof fn law_challenge_words_hold_the_bytes(s: Seq<u8>, i: int, j: int)
    requires
        s.len() == 32,
        0 <= i < 4,
        0 <= j < 8,
    ensures
        le_words(s).len() == 4,
        le_words(s)[i] < pow256(8),
        s[8 * i + j] == (le_words(s)[i] / pow256(j as nat)) % 256,
{
    law_first_byte_is_least_significant(word_bytes(s, i), j);
}

/// Byte `j` of word `i` of a difficulty is byte `8 * i + j` of the difficulty,
/// when the bytes of a word are counted from the most significant on.
pub proof fn law_difficulty_words_hold_the_bytes(s: Seq<u8>, i: int, j: int)
    requires
        s.len() == 32,
        0 <= i < 4,
        0 <= j < 8,
    ensures
        be_words(s).len() == 4,
        be_words(s)[i] < pow256(8),
        s[8 * i + j] == (be_words(s)[i] / pow256((7 - j) as nat)) % 256,
{
    law_first_byte_is_most_significant(word_bytes(s, i), j);
}

/// Byte `8 * i + j` of a reported nonce is byte `j` of word `i`, when the
/// bytes of a word are counted from the most significant on.
pub proof fn law_nonce_bytes_hold_the_words(words: [u64; 4], i: int, j: int)
    requires
        0 <= i < 4,
        0 <= j < 8,
    ensures
        words_to_bytes(word_values(words)).len() == 32,
        words_to_bytes(word_values(words))[8 * i + j] == (words@[i] as nat / pow256((7 - j) as nat)) % 256,
{
    let s = words_to_bytes(word_values(words));
    law_words_survive_bytes(words);
    law_word_values(words, i);
    law_difficulty_words_hold_the_bytes(s, i, j);
}

} // verus!
