//! GPU mining: what the OpenCL backend hands to its kernel, and what it makes
//! of the kernel's answers.

use vstd::prelude::*;

#[allow(unused_imports)]
use crate::bytes::{be_value, lemma_be_value_bound, lemma_be_value_bytes};
use crate::pipeline::Pipeline;
#[allow(unused_imports)]
use crate::pow::{lemma_full_value, proof_digest};
use crate::pow::{cpu_hash, meets_difficulty};
use crate::words::{join_nonce_be, split_challenge_le, split_difficulty_be};
#[allow(unused_imports)]
use crate::words::{be_words, le_words, word_values, words_to_bytes};

verus! {

/// Nonces per dispatch when nothing else is asked for.
pub const DEFAULT_BATCH: usize = 4_194_304;

/// The position of the nonce base among the kernel's arguments.
pub const NONCE_BASE_ARG_IDX: u32 = 8;

/// The nonce base of the self-test.
pub const SELF_TEST_NONCE_BASE: u64 = 12345;

/// The challenge of the self-test: zeros.
pub open spec fn self_test_challenge() -> Seq<u8> {
    Seq::new(32, |i: int| 0u8)
}

/// The difficulty of the self-test: the greatest there is.
pub open spec fn self_test_difficulty() -> Seq<u8> {
    Seq::new(32, |i: int| 0xffu8)
}

/// The words that a kernel gets of the challenge and the difficulty.
pub struct KernelWords {
    pub challenge: [u64; 4],
    pub difficulty: [u64; 4],
}

impl KernelWords {
    /// The words for mining `challenge` at `difficulty`.
    pub fn new(challenge: &[u8; 32], difficulty: &[u8; 32]) -> (words: KernelWords)
        ensures
            word_values(words.challenge) == le_words(challenge@),
            word_values(words.difficulty) == be_words(difficulty@),
    {
        KernelWords {
            challenge: split_challenge_le(challenge),
            difficulty: split_difficulty_be(difficulty),
        }
    }

    /// The words for the self-test.
    pub fn self_test() -> (words: KernelWords)
        ensures
            word_values(words.challenge) == le_words(self_test_challenge()),
            word_values(words.difficulty) == be_words(self_test_difficulty()),
    {
        let challenge: [u8; 32] = [0u8; 32];
        let difficulty: [u8; 32] = [0xffu8; 32];
        assert(challenge@ =~= self_test_challenge());
        assert(difficulty@ =~= self_test_difficulty());
        KernelWords::new(&challenge, &difficulty)
    }
}

/// Why a self-test failed.
pub enum SelfTestError {
    /// The kernel reported no hit, though almost every nonce is one.
    NoHit,
    /// The digest that the CPU finds for the reported nonce is the greatest
    /// there is, and so not below the self-test difficulty.
    Mismatch,
}

impl SelfTestError {
    /// The error in words.
    pub fn message(&self) -> (text: &'static str)
        ensures
            text@ == (match *self {
                SelfTestError::NoHit => "self-test: GPU did not report any hit against MAX difficulty"@,
                SelfTestError::Mismatch => "self-test: GPU nonce does not pass the CPU reference"@,
            }),
    {
        match self {
            SelfTestError::NoHit => "self-test: GPU did not report any hit against MAX difficulty",
            SelfTestError::Mismatch => "self-test: GPU nonce does not pass the CPU reference",
        }
    }
}

/// What a self-test comes to when the kernel's flag is `flag` and the CPU
/// finds `digest` for the nonce that it reports.
pub open spec fn self_test_outcome(flag: i32, digest: Seq<u8>) -> Result<(), SelfTestError> {
    if flag == 0 {
        Err(SelfTestError::NoHit)
    } else if be_value(digest) < be_value(self_test_difficulty()) {
        Ok(())
    } else {
        Err(SelfTestError::Mismatch)
    }
}

/// Judges a self-test by the kernel's flag and the digest that the CPU finds
/// for the nonce that it reports.
pub fn judge_self_test(flag: i32, digest: &[u8; 32]) -> (res: Result<(), SelfTestError>)
    ensures
        res == self_test_outcome(flag, digest@),
{
    if flag == 0 {
        return Err(SelfTestError::NoHit);
    }
    let difficulty: [u8; 32] = [0xffu8; 32];
    assert(difficulty@ =~= self_test_difficulty());
    if meets_difficulty(digest, &difficulty) {
        Ok(())
    } else {
        Err(SelfTestError::Mismatch)
    }
}

/// The nonce base to start from when the clock shows `nanos` nanoseconds: the low 64 bits.
pub fn nonce_seed(nanos: u128) -> (seed: u64)
    ensures
        seed == nanos % 0x1_0000_0000_0000_0000,
{
    assert(nanos as u64 == nanos % 0x1_0000_0000_0000_0000) by (bit_vector);
    nanos as u64
}

/// A GPU that mines.
pub struct GpuMiner {
    pub device_name: String,
    pub batch_size: usize,
}

impl GpuMiner {
    /// A miner on the device of the given name, with `batch_size` nonces per dispatch.
    pub fn new(batch_size: Option<usize>, device_name: Option<String>) -> (miner: GpuMiner)
        ensures
            miner.batch_size == (match batch_size {
                Some(size) => size,
                None => DEFAULT_BATCH,
            }),
            miner.device_name@ == (match device_name {
                Some(name) => name@,
                None => "<unknown>"@,
            }),
    {
        GpuMiner {
            device_name: match device_name {
                Some(name) => name,
                None => "<unknown>".to_owned(),
            },
            batch_size: match batch_size {
                Some(size) => size,
                None => DEFAULT_BATCH,
            },
        }
    }

    /// The name of the device.
    pub fn device_name(&self) -> (name: &str)
        ensures
            name@ == self.device_name@,
    {
        self.device_name.as_str()
    }

    /// How many nonces a dispatch tries.
    pub fn batch_size(&self) -> (size: usize)
        ensures
            size == self.batch_size,
    {
        self.batch_size
    }

    /// Judges what the kernel reports of the self-test: its flag must be up,
    /// and the digest that the CPU finds for the reported nonce must be below
    /// the self-test difficulty, as every digest but the greatest is. Which
    /// nonce is reported is not looked at.
    pub fn self_test(&self, flag: i32, words: &[u64; 4]) -> (res: Result<(), SelfTestError>)
        ensures
            res == self_test_outcome(
                flag,
                proof_digest(self_test_challenge(), words_to_bytes(word_values(*words))),
            ),
    {
        let challenge: [u8; 32] = [0u8; 32];
        assert(challenge@ =~= self_test_challenge());
        judge_self_test(flag, &cpu_hash(&challenge, &join_nonce_be(words)))
    }

    /// Starts mining `challenge` at `difficulty`, from the nonce base `seed` on.
    pub fn mine(&self, challenge: &[u8; 32], difficulty: &[u8; 32], seed: u64) -> (pipeline: Pipeline)
        ensures
            pipeline.valid(),
            pipeline.begins(*challenge, *difficulty, self.batch_size, seed),
    {
        Pipeline::start(challenge, difficulty, self.batch_size, seed)
    }
}

/// The self-test hashes a challenge of 32 zero bytes against a difficulty of
/// 32 full bytes, from the nonce base 12345 on.
pub proof fn law_self_test_setting(i: int)
    ensures
        self_test_challenge().len() == 32,
        self_test_difficulty().len() == 32,
        0 <= i < 32 ==> self_test_challenge()[i] == 0 && self_test_difficulty()[i] == 0xff,
        SELF_TEST_NONCE_BASE == 12345,
{
}

/// The nonce base comes right after the words of the challenge and of the
/// difficulty among the kernel's arguments.
pub proof fn law_nonce_base_follows_the_words(words: KernelWords)
    ensures
        NONCE_BASE_ARG_IDX == words.challenge@.len() + words.difficulty@.len(),
{
}

/// A self-test passes exactly when the flag is up and the digest that the CPU
/// finds has a byte that is not full; a flag that is down is reported first.
pub proof fn law_self_test_verdict(flag: i32, digest: Seq<u8>)
    requires
        digest.len() == 32,
    ensures
        flag == 0 ==> self_test_outcome(flag, digest) == Err::<(), SelfTestError>(SelfTestError::NoHit),
        flag != 0 && (exists|i: int| 0 <= i < 32 && digest[i] != 0xff) ==> self_test_outcome(flag, digest)
            == Ok::<(), SelfTestError>(()),
        flag != 0 && (forall|i: int| 0 <= i < 32 ==> digest[i] == 0xff) ==> self_test_outcome(flag, digest)
            == Err::<(), SelfTestError>(SelfTestError::Mismatch),
{
    let full = self_test_difficulty();
    lemma_full_value(full);
    lemma_be_value_bound(digest);
    lemma_be_value_bytes(digest);
    lemma_be_value_bytes(full);
    if forall|i: int| 0 <= i < 32 ==> digest[i] == 0xff {
        assert(digest =~= full);
    }
}

} // verus!
