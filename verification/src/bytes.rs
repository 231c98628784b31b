//! Big-endian integers as byte sequences.
use vstd::arithmetic::{div_mod, power};
use vstd::prelude::*;

verus! {

/// 256 to the power `n`.
pub open spec fn pow256(n: nat) -> nat
    decreases n,
{
    if n == 0 {
        1
    } else {
        256 * pow256((n - 1) as nat)
    }
}

/// The last `n` base-256 digits of `x`, most significant first.
pub open spec fn be_bytes(x: nat, n: nat) -> Seq<u8>
    decreases n,
{
    if n == 0 {
        Seq::empty()
    } else {
        be_bytes(x / 256, (n - 1) as nat).push((x % 256) as u8)
    }
}

/// The number whose base-256 digits are `s`, most significant first.
pub open spec fn be_value(s: Seq<u8>) -> nat
    decreases s.len(),
{
    if s.len() == 0 {
        0
    } else {
        be_value(s.drop_last()) * 256 + s.last() as nat
    }
}

/// Writing a number as `n` bytes and reading it back gives the number, if it fits.
pub proof fn be_round_trip(x: nat, n: nat)
    requires
        x < pow256(n),
    ensures
        be_value(be_bytes(x, n)) == x,
        be_bytes(x, n).len() == n,
    decreases n,
{
    if n > 0 {
        be_round_trip(x / 256, (n - 1) as nat);
        assert(be_bytes(x, n).drop_last() =~= be_bytes(x / 256, (n - 1) as nat));
    }
}

/// Reading bytes as a number and writing it back gives the bytes.
pub proof fn be_value_round_trip(s: Seq<u8>)
    ensures
        be_value(s) < pow256(s.len()),
        be_bytes(be_value(s), s.len()) == s,
    decreases s.len(),
{
    if s.len() > 0 {
        be_value_round_trip(s.drop_last());
        assert(be_value(s) / 256 == be_value(s.drop_last()));
        assert(be_bytes(be_value(s), s.len()) =~= s);
    } else {
        assert(be_bytes(be_value(s), 0) =~= s);
    }
}

/// `be_bytes` gives as many bytes as were asked for.
pub proof fn be_bytes_len(x: nat, n: nat)
    ensures
        be_bytes(x, n).len() == n,
    decreases n,
{
    if n > 0 {
        be_bytes_len(x / 256, (n - 1) as nat);
    }
}

pub proof fn pow256_bounds()
    ensures
        pow256(2) == 0x1_0000,
        pow256(8) == 0x1_0000_0000_0000_0000,
{
    reveal_with_fuel(pow256, 9);
}

/// The byte at each place counts as many powers of 256 as there are bytes after it.
pub proof fn bytes_are_digits(x: nat, n: nat, i: int)
    requires
        0 <= i < n,
    ensures
        be_bytes(x, n).len() == n,
        be_bytes(x, n)[i] == (x as int / power::pow(256, (n - 1 - i) as nat)) % 256,
    decreases n,
{
    be_bytes_len(x, n);
    if i == n - 1 {
        power::lemma_pow0(256);
        assert(x as int / 1 == x);
    } else {
        let k = (n - 2 - i) as nat;
        bytes_are_digits(x / 256, (n - 1) as nat, i);
        assert(be_bytes(x, n)[i] == be_bytes(x / 256, (n - 1) as nat)[i]);
        power::lemma_pow_positive(256, k);
        div_mod::lemma_div_denominator(x as int, 256, power::pow(256, k));
        assert(power::pow(256, (k + 1) as nat) == 256 * power::pow(256, k)) by {
            reveal(power::pow);
        }
    }
}

/// The number that bytes hold is made of the numbers that its parts hold: the part in front counts
/// 256 times for every byte behind it. One byte holds itself.
pub proof fn value_of_parts(front: Seq<u8>, back: Seq<u8>, b: u8)
    ensures
        be_value(front + back) == be_value(front) * power::pow(256, back.len()) + be_value(back),
        be_value(seq![b]) == b,
        be_value(Seq::empty()) == 0,
    decreases back.len(),
{
    reveal_with_fuel(be_value, 2);
    assert(seq![b].drop_last() =~= Seq::<u8>::empty());
    if back.len() == 0 {
        assert(front + back =~= front);
        power::lemma_pow0(256);
    } else {
        let shorter = back.drop_last();
        value_of_parts(front, shorter, b);
        assert((front + back).drop_last() =~= front + shorter);
        assert((front + back).last() == back.last());
        let p = power::pow(256, shorter.len());
        assert(power::pow(256, back.len()) == 256 * p) by {
            reveal(power::pow);
        }
        let f = be_value(front) as int;
        assert((f * p) * 256 == f * (256 * p)) by (nonlinear_arith);
    }
}

/// Two bytes are the high part of a number and the low part, in this order.
pub proof fn two_bytes(hi: u8, lo: u8)
    ensures
        be_value(seq![hi, lo]) == 256 * hi + lo,
        be_bytes((256 * hi + lo) as nat, 2) == seq![hi, lo],
{
    let s = seq![hi, lo];
    value_of_parts(seq![hi], seq![lo], hi);
    value_of_parts(seq![hi], seq![lo], lo);
    assert(seq![hi] + seq![lo] =~= s);
    power::lemma_pow1(256);
    be_value_round_trip(s);
}

/// The two bytes of `x`, most significant first.
pub fn u16_to_be(x: u16) -> (r: [u8; 2])
    ensures
        r@ == be_bytes(x as nat, 2),
{
    let r: [u8; 2] = [(x / 256) as u8, (x % 256) as u8];
    proof {
        reveal_with_fuel(be_bytes, 3);
        assert(r@ =~= be_bytes(x as nat, 2));
    }
    r
}

/// The number that two bytes hold, most significant first.
pub fn u16_from_be(hi: u8, lo: u8) -> (r: u16)
    ensures
        r == be_value(seq![hi, lo]),
        be_bytes(r as nat, 2) == seq![hi, lo],
{
    proof {
        let s = seq![hi, lo];
        be_value_round_trip(s);
        reveal_with_fuel(be_value, 3);
        assert(s.drop_last() =~= seq![hi]);
        assert(s.drop_last().drop_last() =~= Seq::<u8>::empty());
    }
    (hi as u16) * 256 + lo as u16
}

/// The eight bytes of `x`, most significant first.
pub fn u64_to_be(x: u64) -> (r: [u8; 8])
    ensures
        r@ == be_bytes(x as nat, 8),
{
    let mut out: [u8; 8] = [0u8; 8];
    let mut rest: u64 = x;
    let mut i: usize = 8;
    assert(out@.subrange(8, 8) =~= Seq::<u8>::empty());
    assert(be_bytes(x as nat, 8) + Seq::<u8>::empty() =~= be_bytes(x as nat, 8));
    while i > 0
        invariant
            i <= 8,
            be_bytes(x as nat, 8) == be_bytes(rest as nat, i as nat) + out@.subrange(i as int, 8),
        decreases i,
    {
        let ghost before = out@;
        out[i - 1] = (rest % 256) as u8;
        proof {
            assert(out@.subrange(i as int, 8) =~= before.subrange(i as int, 8));
            assert(be_bytes(rest as nat, i as nat) + out@.subrange(i as int, 8) =~= be_bytes(
                (rest / 256) as nat,
                (i - 1) as nat,
            ) + out@.subrange(i - 1, 8));
        }
        rest = rest / 256;
        i = i - 1;
    }
    assert(out@.subrange(0, 8) =~= out@);
    assert(be_bytes(rest as nat, 0) + out@ =~= out@);
    out
}

/// The number that eight bytes hold, most significant first.
pub fn u64_from_be(s: &[u8]) -> (r: u64)
    requires
        s@.len() == 8,
    ensures
        r == be_value(s@),
{
    let mut v: u64 = 0;
    let mut i: usize = 0;
    while i < 8
        invariant
            i <= 8,
            s@.len() == 8,
            v == be_value(s@.take(i as int)),
            v < pow256(i as nat),
        decreases 8 - i,
    {
        proof {
            assert(s@.take(i + 1).drop_last() =~= s@.take(i as int));
            be_value_round_trip(s@.take(i + 1));
            reveal_with_fuel(pow256, 9);
        }
        v = v * 256 + s[i] as u64;
        i = i + 1;
    }
    assert(s@.take(8) =~= s@);
    v
}

/// Whether two byte strings are the same.
pub fn same(a: &[u8], b: &[u8]) -> (r: bool)
    ensures
        r == (a@ == b@),
{
    if a.len() != b.len() {
        return false;
    }
    let mut i: usize = 0;
    while i < a.len()
        invariant
            i <= a@.len(),
            a@.len() == b@.len(),
            forall|j: int| 0 <= j < i ==> a@[j] == b@[j],
        decreases a@.len() - i,
    {
        if a[i] != b[i] {
            return false;
        }
        i = i + 1;
    }
    assert(a@ =~= b@);
    true
}

/// The first twelve bytes of `s`.
pub fn first12(s: &[u8]) -> (r: [u8; 12])
    requires
        s@.len() >= 12,
    ensures
        r@ == s@.take(12),
{
    let r: [u8; 12] = [
        s[0], s[1], s[2], s[3], s[4], s[5], s[6], s[7], s[8], s[9], s[10], s[11],
    ];
    assert(r@ =~= s@.take(12));
    r
}

} // verus!
