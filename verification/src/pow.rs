//! The proof of work: a nonce is accepted when the Keccak-256 digest of the
//! challenge followed by the nonce lies below the difficulty.

use vstd::prelude::*;

use crate::bytes::less;
#[allow(unused_imports)]
use crate::bytes::{
    be_value, law_first_difference_decides, law_lexicographic_order_is_numeric, lemma_be_value_bound, lemma_be_value_bytes, lex_less,
    pow256,
};
#[allow(unused_imports)]
use crate::words::{be_words, law_word_order_is_numeric, words_less};

verus! {

/// The Keccak-256 digest of `data`, as `keccak_hash::keccak` computes it.
pub uninterp spec fn keccak_digest(data: Seq<u8>) -> [u8; 32];

/// Hashes `data` with `keccak_hash::keccak`. The contract claims only that the
/// digest is a function of the bytes hashed.
#[verifier::external_body]
fn keccak(data: &[u8]) -> (digest: [u8; 32])
    ensures
        digest == keccak_digest(data@),
{
    keccak_hash::keccak(data).0
}

/// The digest that decides whether `nonce` solves `challenge`.
pub open spec fn proof_digest(challenge: Seq<u8>, nonce: Seq<u8>) -> Seq<u8> {
    keccak_digest(challenge + nonce)@
}

/// `nonce` solves `challenge` at `difficulty`: its digest, read as a number
/// with the most significant byte first, is below the difficulty.
pub open spec fn accepts(challenge: Seq<u8>, nonce: Seq<u8>, difficulty: Seq<u8>) -> bool {
    be_value(proof_digest(challenge, nonce)) < be_value(difficulty)
}

/// The Keccak-256 digest of a 64-byte message.
pub fn keccak256(data: &[u8; 64]) -> (digest: [u8; 32])
    ensures
        digest == keccak_digest(data@),
{
    keccak(data.as_slice())
}

/// The message that is hashed: the challenge followed by the nonce.
fn message(challenge: &[u8; 32], nonce: &[u8; 32]) -> (buf: [u8; 64])
    ensures
        buf@ == challenge@ + nonce@,
{
    let mut buf: [u8; 64] = [0u8; 64];
    let mut i: usize = 0;
    while i < 32
        invariant
            i <= 32,
            forall|k: int| 0 <= k < i ==> buf@[k] == challenge@[k],
            forall|k: int| 0 <= k < i ==> buf@[32 + k] == nonce@[k],
        decreases 32 - i,
    {
        buf[i] = challenge[i];
        buf[32 + i] = nonce[i];
        i = i + 1;
    }
    assert(buf@ =~= challenge@ + nonce@);
    buf
}

/// The reference digest on the CPU that a reported nonce is held against.
pub fn cpu_hash(challenge: &[u8; 32], nonce: &[u8; 32]) -> (digest: [u8; 32])
    ensures
        digest@ == proof_digest(challenge@, nonce@),
        digest == keccak_digest(challenge@ + nonce@),
{
    keccak256(&message(challenge, nonce))
}

/// Whether `digest` lies below `difficulty`, both read as numbers with the
/// most significant byte first.
pub fn meets_difficulty(digest: &[u8; 32], difficulty: &[u8; 32]) -> (res: bool)
    ensures
        res == (be_value(digest@) < be_value(difficulty@)),
        res <==> exists|i: int|
            0 <= i < 32 && #[trigger] digest@.take(i) == difficulty@.take(i) && digest@[i] < difficulty@[i],
{
    proof {
        law_lexicographic_order_is_numeric(digest@, difficulty@);
    }
    less(digest, difficulty)
}

/// Whether `nonce` solves `challenge` at `difficulty`.
pub fn check_proof(challenge: &[u8; 32], nonce: &[u8; 32], difficulty: &[u8; 32]) -> (res: bool)
    ensures
        res == accepts(challenge@, nonce@, difficulty@),
        res == (be_value(keccak_digest(challenge@ + nonce@)@) < be_value(difficulty@)),
{
    meets_difficulty(&cpu_hash(challenge, nonce), difficulty)
}

/// A nonce solves a challenge exactly when its digest comes before the
/// difficulty byte by byte, and exactly when it does so word by word, as the
/// GPU kernel compares them.
pub proof fn law_orders_agree(challenge: Seq<u8>, nonce: Seq<u8>, difficulty: Seq<u8>)
    requires
        difficulty.len() == 32,
    ensures
        accepts(challenge, nonce, difficulty) <==> lex_less(
            proof_digest(challenge, nonce),
            difficulty,
        ),
        accepts(challenge, nonce, difficulty) <==> words_less(
            be_words(proof_digest(challenge, nonce)),
            be_words(difficulty),
        ),
{
    law_lexicographic_order_is_numeric(proof_digest(challenge, nonce), difficulty);
    law_word_order_is_numeric(proof_digest(challenge, nonce), difficulty);
}

/// A solution stays one when the difficulty number rises.
pub proof fn law_acceptance_is_monotone(
    challenge: Seq<u8>,
    nonce: Seq<u8>,
    difficulty: Seq<u8>,
    easier: Seq<u8>,
)
    requires
        be_value(difficulty) <= be_value(easier),
        accepts(challenge, nonce, difficulty),
    ensures
        accepts(challenge, nonce, easier),
{
}

/// At difficulty zero there is no solution.
pub proof fn law_zero_difficulty_accepts_nothing(challenge: Seq<u8>, nonce: Seq<u8>, difficulty: Seq<u8>)
    requires
        forall|i: int| 0 <= i < difficulty.len() ==> difficulty[i] == 0,
    ensures
        !accepts(challenge, nonce, difficulty),
{
    lemma_zero_value(difficulty);
}

/// At the greatest difficulty every nonce is a solution but one whose digest
/// is the difficulty itself.
pub proof fn law_greatest_difficulty(challenge: Seq<u8>, nonce: Seq<u8>, difficulty: Seq<u8>)
    requires
        difficulty.len() == 32,
        forall|i: int| 0 <= i < difficulty.len() ==> difficulty[i] == 0xff,
    ensures
        accepts(challenge, nonce, difficulty) <==> proof_digest(challenge, nonce) != difficulty,
{
    let digest = proof_digest(challenge, nonce);
    lemma_full_value(difficulty);
    lemma_be_value_bound(digest);
    lemma_be_value_bytes(digest);
    lemma_be_value_bytes(difficulty);
}

proof fn lemma_zero_value(s: Seq<u8>)
    requires
        forall|i: int| 0 <= i < s.len() ==> s[i] == 0,
    ensures
        be_value(s) == 0,
    decreases s.len(),
{
    if s.len() > 0 {
        lemma_zero_value(s.drop_last());
    }
}

pub proof fn lemma_full_value(s: Seq<u8>)
    requires
        forall|i: int| 0 <= i < s.len() ==> s[i] == 0xff,
    ensures
        be_value(s) + 1 == pow256(s.len()),
    decreases s.len(),
{
    if s.len() > 0 {
        lemma_full_value(s.drop_last());
    }
}

/// The bytes that are hashed are those of the challenge and then those of the
/// nonce, every one of them: what decides is the Keccak-256 digest of any
/// message that holds the challenge before the nonce.
pub proof fn law_digest_is_of_challenge_then_nonce(challenge: Seq<u8>, nonce: Seq<u8>, message: Seq<u8>)
    requires
        message.len() == challenge.len() + nonce.len(),
        forall|i: int| 0 <= i < challenge.len() ==> message[i] == challenge[i],
        forall|i: int| 0 <= i < nonce.len() ==> message[challenge.len() + i] == #[trigger] nonce[i],
    ensures
        proof_digest(challenge, nonce) == keccak_digest(message)@,
{
    assert(message =~= challenge + nonce) by {
        assert forall|k: int| challenge.len() <= k < message.len() implies message[k] == (challenge + nonce)[k] by {
            assert(message[challenge.len() + (k - challenge.len())] == nonce[k - challenge.len()]);
        }
    }
}

/// A nonce solves a challenge exactly when the Keccak-256 digest of the two is
/// smaller than the difficulty at the first byte where they differ.
pub proof fn law_first_differing_byte_decides(challenge: Seq<u8>, nonce: Seq<u8>, difficulty: Seq<u8>)
    requires
        difficulty.len() == 32,
    ensures
        accepts(challenge, nonce, difficulty) <==> exists|i: int|
            0 <= i < 32 && #[trigger] keccak_digest(challenge + nonce)@.take(i) == difficulty.take(i)
                && keccak_digest(challenge + nonce)@[i] < difficulty[i],
{
    let digest = keccak_digest(challenge + nonce)@;
    law_orders_agree(challenge, nonce, difficulty);
    law_first_difference_decides(digest, difficulty);
}

/// The digest of the two is the threshold: a nonce solves a challenge at the
/// difficulty that is one above their digest, and not at the digest itself.
pub proof fn law_digest_is_the_threshold(challenge: Seq<u8>, nonce: Seq<u8>, difficulty: Seq<u8>)
    ensures
        be_value(difficulty) == be_value(keccak_digest(challenge + nonce)@) ==> !accepts(
            challenge,
            nonce,
            difficulty,
        ),
        be_value(difficulty) == be_value(keccak_digest(challenge + nonce)@) + 1 ==> accepts(
            challenge,
            nonce,
            difficulty,
        ),
{
}

} // verus!
