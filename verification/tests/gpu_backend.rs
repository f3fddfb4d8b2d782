use hash_miner::gpu::{judge_self_test, nonce_seed, GpuMiner, KernelWords, SelfTestError};
use hash_miner::pipeline::{Action, Event, Pipeline};
use hash_miner::words::{join_nonce_be, split_challenge_le, split_difficulty_be};

const STRIDE: u64 = 0x9E3779B97F4A7C15;

fn counting() -> [u8; 32] {
    let mut bytes = [0u8; 32];
    for i in 0..32 {
        bytes[i] = i as u8;
    }
    bytes
}

fn miner() -> GpuMiner {
    GpuMiner::new(Some(1000), Some(String::from("card")))
}

fn launch(action: Action) -> (usize, u64) {
    match action {
        Action::Launch { slot, nonce_base } => (slot, nonce_base),
        _ => panic!("no launch"),
    }
}

fn primed(difficulty: &[u8; 32], seed: u64) -> Pipeline {
    let mut pipeline = miner().mine(&counting(), difficulty, seed);
    assert_eq!(launch(pipeline.pending), (0, seed));
    assert_eq!(launch(pipeline.next(Event::Launched).action), (1, seed.wrapping_add(STRIDE)));
    assert!(matches!(pipeline.next(Event::Launched).action, Action::PollStop { slot: 0 }));
    pipeline
}

#[test]
fn challenge_words_are_little_endian() {
    assert_eq!(
        split_challenge_le(&counting()),
        [0x0706050403020100, 0x0f0e0d0c0b0a0908, 0x1716151413121110, 0x1f1e1d1c1b1a1918]
    );
}

#[test]
fn difficulty_words_are_big_endian() {
    assert_eq!(
        split_difficulty_be(&counting()),
        [0x0001020304050607, 0x08090a0b0c0d0e0f, 0x1011121314151617, 0x18191a1b1c1d1e1f]
    );
    assert_eq!(split_difficulty_be(&[0xff; 32]), [u64::MAX; 4]);
}

#[test]
fn nonce_words_are_joined_big_endian() {
    assert_eq!(
        join_nonce_be(&[0x0001020304050607, 0x08090a0b0c0d0e0f, 0x1011121314151617, 0x18191a1b1c1d1e1f]),
        counting()
    );
}

#[test]
fn words_and_bytes_convert_back() {
    let words = [1, u64::MAX, 0, 0x1122334455667788];
    assert_eq!(split_difficulty_be(&join_nonce_be(&words)), words);
    assert_eq!(join_nonce_be(&split_difficulty_be(&counting())), counting());
}

#[test]
fn word_order_is_byte_order() {
    let mut a = counting();
    let b = counting();
    a[12] -= 1;
    a[13] = 0xff;
    assert!(a < b);
    assert!(split_difficulty_be(&a) < split_difficulty_be(&b));
}

#[test]
fn batch_size_has_a_default() {
    assert_eq!(GpuMiner::new(None, None).batch_size(), 1 << 22);
    assert_eq!(miner().batch_size(), 1000);
}

#[test]
fn device_name_may_be_unknown() {
    assert_eq!(GpuMiner::new(None, None).device_name(), "<unknown>");
    assert_eq!(miner().device_name(), "card");
}

#[test]
fn seed_is_the_low_half_of_the_clock() {
    assert_eq!(nonce_seed(5), 5);
    assert_eq!(nonce_seed((7u128 << 64) + 9), 9);
}

#[test]
fn kernel_words_split_challenge_and_difficulty() {
    let words = KernelWords::new(&counting(), &counting());
    assert_eq!(words.challenge, split_challenge_le(&counting()));
    assert_eq!(words.difficulty, split_difficulty_be(&counting()));
}

#[test]
fn self_test_words() {
    let words = KernelWords::self_test();
    assert_eq!(words.challenge, [0u64; 4]);
    assert_eq!(words.difficulty, [u64::MAX; 4]);
}

#[test]
fn self_test_needs_a_hit() {
    match miner().self_test(0, &[0; 4]) {
        Err(error) => {
            assert!(matches!(error, SelfTestError::NoHit));
            assert_eq!(
                error.message(),
                "self-test: GPU did not report any hit against MAX difficulty"
            );
        }
        Ok(()) => panic!("passed without a hit"),
    }
}

#[test]
fn self_test_passes_on_a_hit_that_the_cpu_accepts() {
    assert!(miner().self_test(1, &[0, 0, 0, 12345]).is_ok());
    assert!(miner().self_test(-1, &[1, 2, 3, 0x1122334455667788]).is_ok());
}

#[test]
fn self_test_mismatch_is_reported() {
    assert!(matches!(judge_self_test(1, &[0xff; 32]), Err(SelfTestError::Mismatch)));
    assert!(matches!(judge_self_test(0, &[0xff; 32]), Err(SelfTestError::NoHit)));
    let mut below = [0xff; 32];
    below[31] = 0xfe;
    assert!(judge_self_test(1, &below).is_ok());
    assert_eq!(
        SelfTestError::Mismatch.message(),
        "self-test: GPU nonce does not pass the CPU reference"
    );
}

#[test]
fn pipeline_primes_every_slot() {
    primed(&[0u8; 32], u64::MAX);
}

#[test]
fn pipeline_reads_slots_in_turn_and_refills_them() {
    let mut pipeline = primed(&[0u8; 32], 10);
    for round in 0..5u64 {
        let head = (round % 2) as usize;
        let poll = pipeline.next(Event::Stop(false));
        assert!(matches!(poll.action, Action::ReadFlag { slot } if slot == head));
        assert_eq!(poll.attempts, 0);
        let read = pipeline.next(Event::Flag(0));
        assert_eq!(read.attempts, 1000);
        assert_eq!(launch(read.action), (head, 10u64.wrapping_add((round + 2).wrapping_mul(STRIDE))));
        assert!(matches!(pipeline.next(Event::Launched).action, Action::PollStop { slot } if slot == 1 - head));
    }
}

#[test]
fn stop_drains_the_queue_and_ends_without_a_nonce() {
    let mut pipeline = primed(&[0xffu8; 32], 10);
    assert!(matches!(pipeline.next(Event::Stop(true)).action, Action::Drain { result: None }));
    assert!(matches!(pipeline.next(Event::Drained).action, Action::Finish { result: None }));
}

#[test]
fn verified_nonce_ends_mining() {
    let mut pipeline = primed(&[0xffu8; 32], 10);
    pipeline.next(Event::Stop(false));
    assert!(matches!(pipeline.next(Event::Flag(1)).action, Action::ReadNonce { slot: 0 }));
    let words = [0x0001020304050607, 0x08090a0b0c0d0e0f, 0x1011121314151617, 0x18191a1b1c1d1e1f];
    let step = pipeline.next(Event::Nonce(words));
    assert!(!step.rejected);
    assert_eq!(step.attempts, 0);
    assert!(matches!(step.action, Action::Drain { result: Some(nonce) } if nonce == counting()));
    match pipeline.next(Event::Drained).action {
        Action::Finish { result } => assert_eq!(result, Some(counting())),
        _ => panic!("not finished"),
    }
}

#[test]
fn nonce_that_fails_on_the_cpu_is_skipped() {
    let mut pipeline = primed(&[0u8; 32], 10);
    pipeline.next(Event::Stop(false));
    pipeline.next(Event::Flag(7));
    let step = pipeline.next(Event::Nonce([0; 4]));
    assert!(step.rejected);
    assert_eq!(launch(step.action), (0, 10u64.wrapping_add(STRIDE.wrapping_mul(2))));
}

#[test]
fn verdict_on_a_nonce_decides() {
    let mut pipeline = primed(&[0u8; 32], 10);
    pipeline.next(Event::Stop(false));
    pipeline.next(Event::Flag(1));
    let step = pipeline.settle(counting(), true);
    assert!(matches!(step.action, Action::Drain { result: Some(nonce) } if nonce == counting()));
    assert!(!step.rejected);
}

#[test]
fn pipeline_awaits_one_kind_of_report() {
    let pipeline = primed(&[0u8; 32], 10);
    assert!(pipeline.awaits(&Event::Stop(false)));
    assert!(!pipeline.awaits(&Event::Launched));
    assert!(!pipeline.awaits(&Event::Flag(0)));
    assert!(!pipeline.awaits(&Event::Nonce([0; 4])));
    assert!(!pipeline.awaits(&Event::Drained));
}

#[test]
fn nonce_bases_do_not_repeat_in_a_stretch() {
    let mut pipeline = primed(&[0u8; 32], 3);
    let mut bases = vec![3, 3u64.wrapping_add(STRIDE)];
    for _ in 0..200 {
        pipeline.next(Event::Stop(false));
        let (_, base) = launch(pipeline.next(Event::Flag(0)).action);
        assert!(!bases.contains(&base));
        bases.push(base);
        pipeline.next(Event::Launched);
    }
}
