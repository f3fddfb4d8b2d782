use hash_miner::bytes::less;
use hash_miner::nonce::advance;
use hash_miner::pow::{check_proof, cpu_hash, keccak256, meets_difficulty};

fn counting(from: u8) -> [u8; 32] {
    let mut bytes = [0u8; 32];
    for i in 0..32 {
        bytes[i] = from + i as u8;
    }
    bytes
}

fn word(hex: &str) -> [u8; 32] {
    let mut bytes = [0u8; 32];
    bytes.copy_from_slice(&hex::decode(hex).unwrap());
    bytes
}

#[test]
fn digest_of_zeros() {
    assert_eq!(
        keccak256(&[0u8; 64]),
        word("ad3228b676f7d3cd4284a5443f17f1962b36e491b30a40b2405849e597ba5fb5")
    );
}

#[test]
fn digest_covers_challenge_then_nonce() {
    let expected = word("002030bde3d4cf89919649775cd71875c4d0ab1708a380e03fefc3a28aa24831");
    assert_eq!(cpu_hash(&counting(0), &counting(32)), expected);
    let mut message = [0u8; 64];
    message[..32].copy_from_slice(&counting(0));
    message[32..].copy_from_slice(&counting(32));
    assert_eq!(keccak256(&message), expected);
    assert_ne!(cpu_hash(&counting(32), &counting(0)), expected);
}

#[test]
fn proof_is_strictly_below_the_difficulty() {
    let digest = cpu_hash(&counting(0), &counting(32));
    assert!(!check_proof(&counting(0), &counting(32), &digest));
    let mut above = digest;
    above[31] += 1;
    assert!(check_proof(&counting(0), &counting(32), &above));
    let mut below = digest;
    below[31] -= 1;
    assert!(!check_proof(&counting(0), &counting(32), &below));
}

#[test]
fn zero_difficulty_accepts_nothing() {
    assert!(!check_proof(&counting(0), &counting(32), &[0u8; 32]));
}

#[test]
fn greatest_difficulty_refuses_only_itself() {
    assert!(check_proof(&counting(0), &counting(32), &[0xff; 32]));
    assert!(!meets_difficulty(&[0xff; 32], &[0xff; 32]));
}

#[test]
fn a_solution_stays_one_when_the_difficulty_rises() {
    let mut difficulty = [0u8; 32];
    difficulty[1] = 0x21;
    assert!(check_proof(&counting(0), &counting(32), &difficulty));
    difficulty[0] = 1;
    difficulty[1] = 0;
    assert!(check_proof(&counting(0), &counting(32), &difficulty));
}

#[test]
fn first_differing_byte_decides() {
    let mut a = [9u8; 32];
    let mut b = [9u8; 32];
    assert!(!less(&a, &b));
    a[3] = 8;
    b[4] = 0;
    assert!(less(&a, &b));
    assert!(!less(&b, &a));
    let mut last = [9u8; 32];
    last[31] = 10;
    assert!(less(&[9u8; 32], &last));
}

#[test]
fn nonce_counts_from_its_first_byte() {
    let mut nonce = [0u8; 32];
    advance(&mut nonce, 1);
    let mut one = [0u8; 32];
    one[0] = 1;
    assert_eq!(nonce, one);
}

#[test]
fn nonce_carries() {
    let mut nonce = [0u8; 32];
    nonce[0] = 0xff;
    nonce[1] = 0xff;
    nonce[2] = 4;
    advance(&mut nonce, 1);
    let mut expected = [0u8; 32];
    expected[2] = 5;
    assert_eq!(nonce, expected);
}

#[test]
fn nonce_wraps_around() {
    let mut nonce = [0xffu8; 32];
    advance(&mut nonce, 1);
    assert_eq!(nonce, [0u8; 32]);
}

#[test]
fn nonces_do_not_repeat_in_a_stretch() {
    let mut nonce = [0xf0u8; 32];
    let mut seen: Vec<[u8; 32]> = Vec::new();
    for _ in 0..600 {
        assert!(!seen.contains(&nonce));
        seen.push(nonce);
        advance(&mut nonce, 1);
    }
}

#[test]
fn nonce_moves_on_by_any_step() {
    let mut nonce = [0u8; 32];
    nonce[0] = 0xfe;
    advance(&mut nonce, 0x0203);
    let mut expected = [0u8; 32];
    expected[0] = 0x01;
    expected[1] = 0x03;
    assert_eq!(nonce, expected);
    advance(&mut nonce, 0);
    assert_eq!(nonce, expected);
}

#[test]
fn widest_step_carries_and_wraps() {
    let mut nonce = [0u8; 32];
    nonce[..8].copy_from_slice(&[0xff; 8]);
    advance(&mut nonce, u64::MAX);
    let mut expected = [0u8; 32];
    expected[..8].copy_from_slice(&(u64::MAX - 1).to_le_bytes());
    expected[8] = 1;
    assert_eq!(nonce, expected);
    let mut top = [0xffu8; 32];
    advance(&mut top, u64::MAX);
    let mut wrapped = [0u8; 32];
    wrapped[..8].copy_from_slice(&(u64::MAX - 1).to_le_bytes());
    assert_eq!(top, wrapped);
}
