//! The sequence of nonces: a 32-byte counter with the least significant byte
//! first, which wraps around.

use vstd::prelude::*;
#[allow(unused_imports)]
use vstd::arithmetic::div_mod::{
    lemma_add_mod_noop_right, lemma_fundamental_div_mod, lemma_fundamental_div_mod_converse, lemma_small_mod,
};

#[allow(unused_imports)]
use crate::bytes::{
    le_bytes, le_value, lemma_le_bytes_value, lemma_le_value_bound, lemma_le_value_bytes,
    lemma_le_value_concat, lemma_pow256_positive, pow256,
};

verus! {

/// The nonce that comes `k` steps after `start`.
pub open spec fn nonce_at(start: Seq<u8>, k: nat) -> Seq<u8> {
    le_bytes((le_value(start) + k) % pow256(start.len()), start.len())
}

/// Moves `nonce` on by `step`.
pub fn advance(nonce: &mut [u8; 32], step: u64)
    ensures
        final(nonce)@ == nonce_at(old(nonce)@, step as nat),
        le_value(final(nonce)@) == (le_value(old(nonce)@) + step) % pow256(32) as int,
{
    let ghost start = nonce@;
    let mut carry: u64 = step;
    let mut i: usize = 0;
    assert(start.take(0) == Seq::<u8>::empty());
    assert(nonce@.take(0) == Seq::<u8>::empty());
    assert(pow256(0) * step == step) by {
        assert(1 * step == step);
    }
    while i < 32 && carry != 0
        invariant
            i <= 32,
            start.len() == 32,
            nonce@.len() == 32,
            start == old(nonce)@,
            forall|k: int| i <= k < 32 ==> nonce@[k] == start[k],
            le_value(start.take(i as int)) + step == le_value(nonce@.take(i as int)) + pow256(i as nat)
                * carry,
        decreases 32 - i,
    {
        let ghost before = nonce@;
        let sum: u128 = nonce[i] as u128 + carry as u128;
        nonce[i] = (sum % 256) as u8;
        proof {
            let p = pow256(i as nat);
            let c = carry as nat;
            lemma_le_value_extend(start, i as int);
            lemma_le_value_extend(nonce@, i as int);
            assert(nonce@.take(i as int) == before.take(i as int));
            assert(p * start[i as int] + p * c == p * (sum % 256) + (256 * p) * (sum / 256))
                by (nonlinear_arith)
                requires
                    sum == start[i as int] + c,
            ;
        }
        carry = (sum / 256) as u64;
        i = i + 1;
    }
    proof {
        let p = pow256(i as nat);
        assert(start == start.take(i as int) + start.skip(i as int));
        assert(nonce@ == nonce@.take(i as int) + nonce@.skip(i as int));
        assert(nonce@.skip(i as int) == start.skip(i as int));
        lemma_le_value_concat(start.take(i as int), start.skip(i as int));
        lemma_le_value_concat(nonce@.take(i as int), nonce@.skip(i as int));
        assert(le_value(start) + step == le_value(nonce@) + p * carry);
        lemma_le_value_bound(nonce@);
        lemma_le_value_bytes(nonce@);
        if carry == 0 {
            assert(p * 0 == 0);
            lemma_small_mod(le_value(nonce@), pow256(32));
        } else {
            assert(p * carry == carry * p) by (nonlinear_arith);
            lemma_fundamental_div_mod_converse(
                (le_value(start) + step) as int,
                pow256(32) as int,
                carry as int,
                le_value(nonce@) as int,
            );
        }
        lemma_nonce_at_value(start, step as nat);
    }
}

proof fn lemma_le_value_extend(s: Seq<u8>, i: int)
    requires
        0 <= i < s.len(),
    ensures
        le_value(s.take(i + 1)) == le_value(s.take(i)) + pow256(i as nat) * s[i],
{
    reveal_with_fuel(le_value, 2);
    assert(s.take(i + 1) == s.take(i) + seq![s[i]]);
    lemma_le_value_concat(s.take(i), seq![s[i]]);
}

/// The nonce `k` steps on is as long as the start and denotes the start's
/// number plus `k`, least significant byte first, modulo the number of nonces.
pub proof fn lemma_nonce_at_value(start: Seq<u8>, k: nat)
    ensures
        nonce_at(start, k).len() == start.len(),
        le_value(nonce_at(start, k)) == (le_value(start) + k) % pow256(start.len()),
{
    let m = pow256(start.len());
    lemma_pow256_positive(start.len());
    lemma_le_bytes_value((le_value(start) + k) % m, start.len());
}

/// No steps leave a nonce as it is, and steps add up: `j` steps from the
/// nonce `k` steps on lead to the nonce `k + j` steps on.
pub proof fn law_steps_add_up(start: Seq<u8>, k: nat, j: nat)
    ensures
        nonce_at(start, 0) == start,
        nonce_at(nonce_at(start, k), j) == nonce_at(start, k + j),
{
    let m = pow256(start.len());
    lemma_pow256_positive(start.len());
    lemma_le_value_bound(start);
    lemma_le_value_bytes(start);
    lemma_small_mod(le_value(start), m);
    lemma_nonce_at_value(start, k);
    let v = le_value(start) + k;
    lemma_add_mod_noop_right(j as int, v as int, m as int);
}

/// The sequence comes back to a nonce only after it has been through all of
/// them: nonces fewer steps apart than there are nonces differ.
pub proof fn law_nonces_do_not_repeat(start: Seq<u8>, i: nat, j: nat)
    requires
        i < j < i + pow256(start.len()),
    ensures
        nonce_at(start, i) != nonce_at(start, j),
{
    let m = pow256(start.len()) as int;
    let u = le_value(start) + i;
    let v = le_value(start) + j;
    lemma_pow256_positive(start.len());
    lemma_nonce_at_value(start, i);
    lemma_nonce_at_value(start, j);
    if u as int % m == v as int % m {
        lemma_fundamental_div_mod(u as int, m);
        lemma_fundamental_div_mod(v as int, m);
        let q = v as int / m - u as int / m;
        assert(v - u == m * q) by (nonlinear_arith)
            requires
                v as int == m * (v as int / m) + v as int % m,
                u as int == m * (u as int / m) + u as int % m,
                u as int % m == v as int % m,
                q == v as int / m - u as int / m,
        ;
        assert(!(0 < m * q < m)) by (nonlinear_arith)
            requires
                m > 0,
        ;
        assert(false);
    }
}

/// Every nonce is reached: it lies some number of steps, fewer than there are nonces, after any start.
pub proof fn law_every_nonce_is_reached(start: Seq<u8>, nonce: Seq<u8>)
    requires
        nonce.len() == start.len(),
    ensures
        exists|k: nat| k < pow256(start.len()) && #[trigger] nonce_at(start, k) == nonce,
{
    let m = pow256(start.len());
    let a = le_value(start);
    let b = le_value(nonce);
    lemma_pow256_positive(start.len());
    lemma_le_value_bound(start);
    lemma_le_value_bound(nonce);
    lemma_le_value_bytes(nonce);
    if a <= b {
        let k = (b - a) as nat;
        lemma_small_mod(b, m);
        assert(nonce_at(start, k) == nonce);
    } else {
        let k = (b + m - a) as nat;
        lemma_fundamental_div_mod_converse((a + k) as int, m as int, 1, b as int);
        assert(nonce_at(start, k) == nonce);
    }
}

/// One step on, the first byte that can grow has grown by one, the bytes
/// before it are zero, and those after it are as they were. Past the last
/// nonce, all whose bytes are full, comes zero.
pub proof fn law_next_nonce_carries(start: Seq<u8>, i: int)
    requires
        0 <= i <= start.len(),
        forall|j: int| 0 <= j < i ==> start[j] == 0xff,
        i < start.len() ==> start[i] < 0xff,
    ensures
        nonce_at(start, 1).len() == start.len(),
        forall|j: int| 0 <= j < i ==> #[trigger] nonce_at(start, 1)[j] == 0,
        i < start.len() ==> nonce_at(start, 1)[i] == start[i] + 1,
        forall|j: int| i < j < start.len() ==> #[trigger] nonce_at(start, 1)[j] == start[j],
{
    let n = start.len();
    let zeros = Seq::new(i as nat, |j: int| 0u8);
    let full = start.take(i);
    let rest = start.skip(i);
    lemma_le_value_zeros(zeros);
    lemma_le_value_full(full);
    assert(start == full + rest);
    lemma_le_value_concat(full, rest);
    lemma_pow256_positive(n);
    let p = pow256(i as nat);
    let next = if i < n {
        zeros + rest.update(0, (rest[0] + 1) as u8)
    } else {
        zeros
    };
    if i < n {
        let grown = rest.update(0, (rest[0] + 1) as u8);
        lemma_le_value_concat(zeros, grown);
        assert(grown.drop_first() == rest.drop_first());
        let v = le_value(rest);
        assert(p * (v + 1) == p * v + p) by (nonlinear_arith);
        assert(le_value(next) == le_value(start) + 1);
        lemma_le_value_bound(next);
        lemma_small_mod(le_value(next), pow256(n));
    } else {
        assert(p * 0 == 0);
        assert(le_value(start) + 1 == pow256(n));
        lemma_fundamental_div_mod_converse((le_value(start) + 1) as int, pow256(n) as int, 1, 0);
    }
    lemma_le_value_bytes(next);
    assert(nonce_at(start, 1) == next);
}

proof fn lemma_le_value_zeros(s: Seq<u8>)
    requires
        forall|j: int| 0 <= j < s.len() ==> s[j] == 0,
    ensures
        le_value(s) == 0,
    decreases s.len(),
{
    if s.len() > 0 {
        lemma_le_value_zeros(s.drop_first());
    }
}

proof fn lemma_le_value_full(s: Seq<u8>)
    requires
        forall|j: int| 0 <= j < s.len() ==> s[j] == 0xff,
    ensures
        le_value(s) + 1 == pow256(s.len()),
    decreases s.len(),
{
    if s.len() > 0 {
        lemma_le_value_full(s.drop_first());
    }
}

} // verus!
