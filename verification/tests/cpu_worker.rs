use hash_miner::nonce::advance;
use hash_miner::pow::check_proof;
use hash_miner::worker::{crew, crew_from, machine_worker_count, mine_batch, worker_count, Turn, Worker};

fn challenge() -> [u8; 32] {
    let mut bytes = [0u8; 32];
    for i in 0..32 {
        bytes[i] = i as u8;
    }
    bytes
}

fn nonce(low: u8) -> [u8; 32] {
    let mut bytes = [0u8; 32];
    bytes[0] = low;
    bytes
}

fn difficulty(first: u8, second: u8) -> [u8; 32] {
    let mut bytes = [0u8; 32];
    bytes[0] = first;
    bytes[1] = second;
    bytes
}

#[test]
fn batch_returns_the_first_solution() {
    let mut at = nonce(0);
    let found = mine_batch(&challenge(), &difficulty(0, 0x80), &mut at, 1, 100);
    assert_eq!(found, Some(nonce(82)));
    assert_eq!(at, nonce(82));
}

#[test]
fn batch_without_solution_ends_past_the_nonces_tried() {
    let mut at = nonce(0);
    assert_eq!(mine_batch(&challenge(), &difficulty(0, 0x80), &mut at, 1, 82), None);
    assert_eq!(at, nonce(82));
}

#[test]
fn empty_batch_tries_nothing() {
    let mut at = nonce(82);
    assert_eq!(mine_batch(&challenge(), &difficulty(0, 0x80), &mut at, 1, 0), None);
    assert_eq!(at, nonce(82));
}

#[test]
fn batch_goes_on_across_the_wrap() {
    let mut at = [0xffu8; 32];
    at[0] = 0xfd;
    let found = mine_batch(&challenge(), &difficulty(1, 0), &mut at, 1, 6);
    assert_eq!(found, Some(nonce(1)));
}

#[test]
fn consecutive_batches_leave_no_nonce_out() {
    let mut at = nonce(0);
    for _ in 0..41 {
        assert_eq!(mine_batch(&challenge(), &difficulty(0, 0x80), &mut at, 1, 2), None);
    }
    assert_eq!(mine_batch(&challenge(), &difficulty(0, 0x80), &mut at, 1, 2), Some(nonce(82)));
}

#[test]
fn batch_steps_by_the_number_of_threads() {
    let mut at = nonce(1);
    assert_eq!(mine_batch(&challenge(), &difficulty(0, 0x80), &mut at, 3, 27), None);
    assert_eq!(at, nonce(82));
    let mut passed = nonce(0);
    assert_eq!(mine_batch(&challenge(), &difficulty(0, 0x80), &mut passed, 3, 30), None);
    assert_eq!(passed, nonce(90));
    let mut hit = nonce(1);
    assert_eq!(mine_batch(&challenge(), &difficulty(0, 0x80), &mut hit, 3, 28), Some(nonce(82)));
}

#[test]
fn thread_starts_at_its_own_number() {
    let worker = Worker::for_thread(&challenge(), &difficulty(0, 0x80), &nonce(250), 7, 8);
    let mut expected = [0u8; 32];
    expected[0] = 1;
    expected[1] = 1;
    assert_eq!(worker.nonce, expected);
    assert_eq!(worker.threads, 8);
    assert_eq!(worker.challenge, challenge());
    assert_eq!(worker.difficulty, difficulty(0, 0x80));
}

#[test]
fn stopped_worker_tries_nothing() {
    let mut worker = Worker::for_thread(&challenge(), &[0xff; 32], &nonce(7), 0, 1);
    assert!(matches!(worker.turn(true), Turn::Stopped));
    assert_eq!(worker.nonce, nonce(7));
}

#[test]
fn worker_stops_after_the_current_attempt() {
    let mut worker = Worker::for_thread(&challenge(), &[0u8; 32], &nonce(7), 0, 4);
    assert!(matches!(worker.turn(false), Turn::Tried { hashes: 0 }));
    assert_eq!(worker.nonce, nonce(11));
    assert!(matches!(worker.turn(true), Turn::Stopped));
    assert_eq!(worker.nonce, nonce(11));
}

#[test]
fn worker_finds_a_solution() {
    let mut worker = Worker::for_thread(&challenge(), &difficulty(0, 0x80), &nonce(0), 0, 1);
    for tried in 0..82u8 {
        assert_eq!(worker.nonce, nonce(tried));
        assert!(matches!(worker.turn(false), Turn::Tried { hashes: 0 }));
    }
    assert!(matches!(worker.turn(false), Turn::Found(hit) if hit == nonce(82)));
    assert_eq!(worker.nonce, nonce(82));
}

#[test]
fn worker_reports_whole_batches() {
    let mut worker = Worker::for_thread(&challenge(), &[0u8; 32], &nonce(0), 0, 1);
    let mut reported = 0;
    for turn in 1..=100_001u32 {
        match worker.turn(false) {
            Turn::Tried { hashes } => {
                assert_eq!(hashes, if turn == 100_000 { 100_000 } else { 0 });
                reported += hashes;
            }
            _ => panic!("a solution at difficulty zero"),
        }
    }
    assert_eq!(reported, 100_000);
    let mut expected = [0u8; 32];
    expected[..4].copy_from_slice(&100_001u32.to_le_bytes());
    assert_eq!(worker.nonce, expected);
}

#[test]
fn crew_shares_one_start() {
    let workers = crew_from(&challenge(), &difficulty(0, 0x80), &nonce(10), 3);
    assert_eq!(workers.len(), 3);
    for tid in 0..3 {
        assert_eq!(workers[tid].nonce, nonce(10 + tid as u8));
        assert_eq!(workers[tid].threads, 3);
    }
    assert!(crew_from(&challenge(), &difficulty(0, 0x80), &nonce(10), 0).is_empty());
}

#[test]
fn random_crew_is_consecutive() {
    let workers = crew(&challenge(), &[0u8; 32], 4);
    let mut expected = workers[0].nonce;
    for worker in &workers {
        assert_eq!(worker.nonce, expected);
        advance(&mut expected, 1);
    }
}

#[test]
fn random_crews_start_apart() {
    assert_ne!(crew(&challenge(), &[0u8; 32], 1)[0].nonce, crew(&challenge(), &[0u8; 32], 1)[0].nonce);
}

#[test]
fn random_crew_finds_what_the_check_accepts() {
    let easy = difficulty(0x10, 0);
    let mut workers = crew(&challenge(), &easy, 2);
    for _ in 0..5000 {
        for worker in &mut workers {
            if let Turn::Found(hit) = worker.turn(false) {
                assert!(check_proof(&challenge(), &hit, &easy));
                return;
            }
        }
    }
    panic!("no solution");
}

#[test]
fn threads_do_not_overlap() {
    let mut workers = crew_from(&challenge(), &[0u8; 32], &nonce(200), 5);
    let mut seen: Vec<[u8; 32]> = Vec::new();
    for worker in &mut workers {
        for _ in 0..60 {
            assert!(!seen.contains(&worker.nonce));
            seen.push(worker.nonce);
            worker.turn(false);
        }
    }
    let mut expected = nonce(200);
    for _ in 0..300 {
        assert!(seen.contains(&expected));
        advance(&mut expected, 1);
    }
}

#[test]
fn one_cpu_is_left_free() {
    assert_eq!(worker_count(None, 8), 7);
    assert_eq!(worker_count(None, 2), 1);
    assert_eq!(worker_count(None, 1), 1);
    assert_eq!(worker_count(None, 0), 1);
}

#[test]
fn requested_workers_take_precedence() {
    assert_eq!(worker_count(Some(12), 8), 12);
    assert_eq!(worker_count(Some(0), 8), 1);
    assert_eq!(machine_worker_count(Some(3)), 3);
}

#[test]
fn machine_leaves_one_cpu_free() {
    assert_eq!(machine_worker_count(None), worker_count(None, num_cpus::get()));
}
