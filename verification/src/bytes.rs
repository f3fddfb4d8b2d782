//! Byte sequences as numbers: base-256 values in both byte orders, the
//! encodings back into bytes, and the lexicographic order.

use vstd::prelude::*;
#[allow(unused_imports)]
use vstd::arithmetic::div_mod::{lemma_div_denominator, lemma_fundamental_div_mod_converse};
#[allow(unused_imports)]
use vstd::arithmetic::power::pow;

verus! {

/// 256 to the power `n`: how many values `n` bytes can take.
pub open spec fn pow256(n: nat) -> nat
    decreases n,
{
    if n == 0 {
        1
    } else {
        256 * pow256((n - 1) as nat)
    }
}

/// The number that `s` denotes with its most significant byte first.
pub open spec fn be_value(s: Seq<u8>) -> nat
    decreases s.len(),
{
    if s.len() == 0 {
        0
    } else {
        be_value(s.drop_last()) * 256 + s.last() as nat
    }
}

/// The number that `s` denotes with its least significant byte first.
pub open spec fn le_value(s: Seq<u8>) -> nat
    decreases s.len(),
{
    if s.len() == 0 {
        0
    } else {
        s[0] as nat + 256 * le_value(s.drop_first())
    }
}

/// The `n` low bytes of `v`, most significant byte first.
pub open spec fn be_bytes(v: nat, n: nat) -> Seq<u8>
    decreases n,
{
    if n == 0 {
        seq![]
    } else {
        be_bytes(v / 256, (n - 1) as nat).push((v % 256) as u8)
    }
}

/// The `n` low bytes of `v`, least significant byte first.
pub open spec fn le_bytes(v: nat, n: nat) -> Seq<u8>
    decreases n,
{
    if n == 0 {
        seq![]
    } else {
        seq![(v % 256) as u8] + le_bytes(v / 256, (n - 1) as nat)
    }
}

/// `a` comes strictly before `b` in lexicographic order.
pub open spec fn lex_less(a: Seq<u8>, b: Seq<u8>) -> bool
    decreases b.len(),
{
    if b.len() == 0 {
        false
    } else if a.len() == 0 {
        true
    } else if a[0] != b[0] {
        a[0] < b[0]
    } else {
        lex_less(a.drop_first(), b.drop_first())
    }
}

/// Whether `a` comes strictly before `b` in lexicographic order.
pub fn less(a: &[u8; 32], b: &[u8; 32]) -> (res: bool)
    ensures
        res == lex_less(a@, b@),
        res <==> exists|i: int|
            0 <= i < 32 && #[trigger] a@.take(i) == b@.take(i) && a@[i] < b@[i],
{
    let mut i: usize = 0;
    assert(a@.skip(0) == a@);
    assert(b@.skip(0) == b@);
    while i < 32
        invariant
            i <= 32,
            a@.len() == 32,
            b@.len() == 32,
            lex_less(a@, b@) == lex_less(a@.skip(i as int), b@.skip(i as int)),
        decreases 32 - i,
    {
        let x: u8 = a[i];
        let y: u8 = b[i];
        assert(a@.skip(i as int)[0] == x);
        assert(b@.skip(i as int)[0] == y);
        if x != y {
            proof {
                law_first_difference_decides(a@, b@);
            }
            return x < y;
        }
        assert(a@.skip(i as int).drop_first() == a@.skip(i + 1));
        assert(b@.skip(i as int).drop_first() == b@.skip(i + 1));
        i = i + 1;
    }
    proof {
        law_first_difference_decides(a@, b@);
    }
    false
}

pub proof fn lemma_pow256_positive(n: nat)
    ensures
        pow256(n) > 0,
    decreases n,
{
    if n > 0 {
        lemma_pow256_positive((n - 1) as nat);
    }
}

pub proof fn lemma_pow256_add(m: nat, n: nat)
    ensures
        pow256(m + n) == pow256(m) * pow256(n),
    decreases m,
{
    if m == 0 {
        assert(1 * pow256(n) == pow256(n));
    } else {
        lemma_pow256_add((m - 1) as nat, n);
        let p = pow256((m - 1) as nat);
        assert((m + n - 1) as nat == (m - 1) as nat + n);
        assert(256 * (p * pow256(n)) == (256 * p) * pow256(n)) by (nonlinear_arith);
    }
}

pub proof fn lemma_pow256_8()
    ensures
        pow256(8) == 0x1_0000_0000_0000_0000,
{
    reveal_with_fuel(pow256, 9);
}

/// The value of `n` bytes, most significant first, is below `pow256(n)`.
pub proof fn lemma_be_value_bound(s: Seq<u8>)
    ensures
        be_value(s) < pow256(s.len()),
    decreases s.len(),
{
    if s.len() > 0 {
        lemma_be_value_bound(s.drop_last());
    }
}

/// The value of `n` bytes, least significant first, is below `pow256(n)`.
pub proof fn lemma_le_value_bound(s: Seq<u8>)
    ensures
        le_value(s) < pow256(s.len()),
    decreases s.len(),
{
    if s.len() > 0 {
        lemma_le_value_bound(s.drop_first());
    }
}

pub proof fn lemma_be_value_concat(a: Seq<u8>, b: Seq<u8>)
    ensures
        be_value(a + b) == be_value(a) * pow256(b.len()) + be_value(b),
    decreases b.len(),
{
    if b.len() == 0 {
        assert(a + b == a);
        assert(be_value(a) * 1 == be_value(a));
    } else {
        let c = b.drop_last();
        lemma_be_value_concat(a, c);
        assert((a + b).drop_last() == a + c);
        assert((a + b).last() == b.last());
        let p = pow256(c.len());
        let v = be_value(a);
        assert((v * p) * 256 == v * (256 * p)) by (nonlinear_arith);
    }
}

pub proof fn lemma_le_value_concat(a: Seq<u8>, b: Seq<u8>)
    ensures
        le_value(a + b) == le_value(a) + pow256(a.len()) * le_value(b),
    decreases a.len(),
{
    if a.len() == 0 {
        assert(a + b == b);
        assert(1 * le_value(b) == le_value(b));
    } else {
        let c = a.drop_first();
        lemma_le_value_concat(c, b);
        assert((a + b).drop_first() == c + b);
        assert((a + b)[0] == a[0]);
        let p = pow256(c.len());
        let v = le_value(b);
        assert(256 * (p * v) == (256 * p) * v) by (nonlinear_arith);
    }
}

/// Encoding a number in `n` bytes and reading them back gives it modulo `pow256(n)`.
pub proof fn lemma_be_bytes_value(v: nat, n: nat)
    ensures
        be_bytes(v, n).len() == n,
        v < pow256(n) ==> be_value(be_bytes(v, n)) == v,
    decreases n,
{
    if n > 0 {
        lemma_be_bytes_value(v / 256, (n - 1) as nat);
        assert(be_bytes(v, n).drop_last() == be_bytes(v / 256, (n - 1) as nat));
    }
}

pub proof fn lemma_le_bytes_value(v: nat, n: nat)
    ensures
        le_bytes(v, n).len() == n,
        v < pow256(n) ==> le_value(le_bytes(v, n)) == v,
    decreases n,
{
    if n > 0 {
        lemma_le_bytes_value(v / 256, (n - 1) as nat);
        assert(le_bytes(v, n).drop_first() == le_bytes(v / 256, (n - 1) as nat));
    }
}

/// Reading bytes as a number, most significant first, and encoding it gives the bytes back.
pub proof fn lemma_be_value_bytes(s: Seq<u8>)
    ensures
        be_bytes(be_value(s), s.len()) == s,
    decreases s.len(),
{
    if s.len() > 0 {
        lemma_be_value_bytes(s.drop_last());
        assert(s == s.drop_last().push(s.last()));
    }
}

/// Reading bytes as a number, least significant first, and encoding it gives the bytes back.
pub proof fn lemma_le_value_bytes(s: Seq<u8>)
    ensures
        le_bytes(le_value(s), s.len()) == s,
    decreases s.len(),
{
    if s.len() > 0 {
        lemma_le_value_bytes(s.drop_first());
        assert(s == seq![s[0]] + s.drop_first());
    }
}

/// On sequences of one length the lexicographic order is the order of the
/// numbers that they denote, most significant byte first.
pub proof fn law_lexicographic_order_is_numeric(a: Seq<u8>, b: Seq<u8>)
    requires
        a.len() == b.len(),
    ensures
        lex_less(a, b) <==> be_value(a) < be_value(b),
    decreases a.len(),
{
    if a.len() > 0 {
        let x = a.drop_first();
        let y = b.drop_first();
        let p = pow256(x.len());
        law_lexicographic_order_is_numeric(x, y);
        assert(a == seq![a[0]] + x);
        assert(b == seq![b[0]] + y);
        lemma_be_value_concat(seq![a[0]], x);
        lemma_be_value_concat(seq![b[0]], y);
        lemma_be_value_single(a[0]);
        lemma_be_value_single(b[0]);
        lemma_be_value_bound(x);
        lemma_be_value_bound(y);
        let m = a[0] as nat;
        let n = b[0] as nat;
        let u = be_value(x);
        let v = be_value(y);
        if m < n {
            assert(m * p + u < n * p + v) by (nonlinear_arith)
                requires
                    m < n,
                    u < p,
            ;
        } else if n < m {
            assert(n * p + v < m * p + u) by (nonlinear_arith)
                requires
                    n < m,
                    v < p,
            ;
        }
    }
}

pub proof fn lemma_be_value_single(b: u8)
    ensures
        be_value(seq![b]) == b as nat,
{
    reveal_with_fuel(be_value, 2);
}

/// `n` bytes can take 256 to the power `n` values.
pub proof fn law_bytes_take_a_power_of_values(n: nat)
    ensures
        pow256(n) == pow(256, n),
    decreases n,
{
    reveal(pow);
    if n > 0 {
        law_bytes_take_a_power_of_values((n - 1) as nat);
    }
}

/// The bytes are the digits in base 256 of the number that they denote, the
/// first of them the most significant.
pub proof fn law_first_byte_is_most_significant(s: Seq<u8>, i: int)
    ensures
        be_value(s) < pow256(s.len()),
        0 <= i < s.len() ==> s[i] == (be_value(s) / pow256((s.len() - 1 - i) as nat)) % 256,
{
    lemma_be_value_bound(s);
    if 0 <= i < s.len() {
        let head = s.take(i + 1);
        let tail = s.skip(i + 1);
        assert(s == head + tail);
        lemma_be_value_concat(head, tail);
        lemma_be_value_bound(tail);
        lemma_fundamental_div_mod_converse(
            be_value(s) as int,
            pow256(tail.len()) as int,
            be_value(head) as int,
            be_value(tail) as int,
        );
        assert(head.last() == s[i]);
    }
}

/// The bytes are the digits in base 256 of the number that they denote, the
/// first of them the least significant.
pub proof fn law_first_byte_is_least_significant(s: Seq<u8>, i: int)
    ensures
        le_value(s) < pow256(s.len()),
        0 <= i < s.len() ==> s[i] == (le_value(s) / pow256(i as nat)) % 256,
{
    lemma_le_value_bound(s);
    if 0 <= i < s.len() {
        let head = s.take(i);
        let tail = s.skip(i);
        assert(s == head + tail);
        lemma_le_value_concat(head, tail);
        lemma_le_value_bound(head);
        let p = pow256(head.len()) as int;
        let v = le_value(tail) as int;
        assert(p * v == v * p) by (nonlinear_arith);
        lemma_fundamental_div_mod_converse(le_value(s) as int, p, v, le_value(head) as int);
        assert(tail[0] == s[i]);
    }
}

/// Written most significant byte first, a number has its digits in base 256
/// as bytes, the last of them the lowest.
pub proof fn law_last_byte_written_is_lowest(v: nat, n: nat, i: int)
    ensures
        be_bytes(v, n).len() == n,
        0 <= i < n ==> be_bytes(v, n)[i] == (v / pow256((n - 1 - i) as nat)) % 256,
    decreases n,
{
    lemma_be_bytes_value(v, n);
    if 0 <= i < n - 1 {
        let m = (n - 2 - i) as nat;
        law_last_byte_written_is_lowest(v / 256, (n - 1) as nat, i);
        lemma_be_bytes_value(v / 256, (n - 1) as nat);
        lemma_pow256_positive(m);
        lemma_div_denominator(v as int, 256, pow256(m) as int);
    } else if i == n - 1 {
        lemma_be_bytes_value(v / 256, (n - 1) as nat);
        assert(v / 1 == v);
    }
}

/// Written least significant byte first, a number has its digits in base 256
/// as bytes, the first of them the lowest.
pub proof fn law_first_byte_written_is_lowest(v: nat, n: nat, i: int)
    ensures
        le_bytes(v, n).len() == n,
        0 <= i < n ==> le_bytes(v, n)[i] == (v / pow256(i as nat)) % 256,
    decreases n,
{
    lemma_le_bytes_value(v, n);
    if 0 < i < n {
        let m = (i - 1) as nat;
        law_first_byte_written_is_lowest(v / 256, (n - 1) as nat, i - 1);
        lemma_pow256_positive(m);
        lemma_div_denominator(v as int, 256, pow256(m) as int);
    } else if i == 0 && n > 0 {
        assert(v / 1 == v);
    }
}

/// The first byte that differs decides which of two sequences comes first; a
/// sequence comes before every longer one that it begins.
pub proof fn law_first_difference_decides(a: Seq<u8>, b: Seq<u8>)
    ensures
        lex_less(a, b) <==> exists|i: int|
            0 <= i < b.len() && i <= a.len() && #[trigger] a.take(i) == b.take(i) && (i < a.len()
                ==> a[i] < b[i]),
    decreases b.len(),
{
    if b.len() > 0 && a.len() > 0 {
        let x = a.drop_first();
        let y = b.drop_first();
        law_first_difference_decides(x, y);
        if a[0] != b[0] {
            assert(a.take(0) == b.take(0));
            assert forall|i: int|
                0 <= i < b.len() && i <= a.len() && #[trigger] a.take(i) == b.take(i) implies i == 0 by {
                if i > 0 {
                    assert(a.take(i)[0] == b.take(i)[0]);
                }
            }
        } else {
            if lex_less(x, y) {
                let i = choose|i: int|
                    0 <= i < y.len() && i <= x.len() && #[trigger] x.take(i) == y.take(i) && (i < x.len()
                        ==> x[i] < y[i]);
                assert(a.take(i + 1) =~= seq![a[0]] + x.take(i));
                assert(b.take(i + 1) =~= seq![b[0]] + y.take(i));
            }
            assert forall|i: int|
                0 <= i < b.len() && i <= a.len() && #[trigger] a.take(i) == b.take(i) && (i < a.len()
                    ==> a[i] < b[i]) implies lex_less(x, y) by {
                assert(i > 0);
                assert(x.take(i - 1) =~= a.take(i).skip(1));
                assert(y.take(i - 1) =~= b.take(i).skip(1));
            }
        }
    } else if b.len() > 0 {
        assert(a.take(0) == b.take(0));
    }
}

} // verus!
