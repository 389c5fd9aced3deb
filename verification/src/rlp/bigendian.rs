//! Minimal big-endian representations of natural numbers.

use vstd::prelude::*;

verus! {

/// The big-endian digits of `n` in base 256, without leading zeros. Zero has
/// no digits.
pub open spec fn be_min(n: nat) -> Seq<u8>
    decreases n,
{
    if n == 0 {
        Seq::empty()
    } else {
        be_min(n / 256).push((n % 256) as u8)
    }
}

/// The number that the big-endian digits `s` denote.
pub open spec fn be_value(s: Seq<u8>) -> nat
    decreases s.len(),
{
    if s.len() == 0 {
        0
    } else {
        be_value(s.drop_last()) * 256 + s.last() as nat
    }
}

/// 256 to the power `k`.
pub open spec fn pow256(k: nat) -> nat
    decreases k,
{
    if k == 0 {
        1
    } else {
        256 * pow256((k - 1) as nat)
    }
}

/// Digits without a leading zero.
pub open spec fn is_minimal(s: Seq<u8>) -> bool {
    s.len() == 0 || s[0] != 0
}

pub proof fn lemma_pow256_values()
    ensures
        pow256(0) == 1,
        pow256(1) == 0x100,
        pow256(2) == 0x1_0000,
        pow256(3) == 0x100_0000,
        pow256(4) == 0x1_0000_0000,
        pow256(8) == 0x1_0000_0000_0000_0000,
        pow256(16) == 0x1_0000_0000_0000_0000_0000_0000_0000_0000,
{
    reveal_with_fuel(pow256, 17);
}

pub proof fn lemma_pow256_monotonic(a: nat, b: nat)
    requires
        a <= b,
    ensures
        pow256(a) <= pow256(b),
        pow256(a) >= 1,
    decreases b,
{
    if a < b {
        lemma_pow256_monotonic(a, (b - 1) as nat);
    } else if a > 0 {
        lemma_pow256_monotonic((a - 1) as nat, (a - 1) as nat);
    }
}

/// A number is below 256 to the power of its digit count, and a non-empty
/// minimal representation starts with a non-zero digit.
pub proof fn lemma_be_min_props(n: nat)
    ensures
        is_minimal(be_min(n)),
        n < pow256(be_min(n).len()),
        n > 0 ==> be_min(n).len() > 0 && n >= pow256((be_min(n).len() - 1) as nat),
        n == 0 <==> be_min(n).len() == 0,
    decreases n,
{
    if n != 0 {
        lemma_be_min_props(n / 256);
        let q = be_min(n / 256);
        assert(be_min(n) == q.push((n % 256) as u8));
        if q.len() > 0 {
            assert(be_min(n)[0] == q[0]);
        } else {
            assert(n / 256 == 0);
            assert(be_min(n)[0] == (n % 256) as u8);
        }
    }
}

/// Reading back the digits of a number gives the number.
pub proof fn lemma_be_value_of_min(n: nat)
    ensures
        be_value(be_min(n)) == n,
    decreases n,
{
    if n != 0 {
        lemma_be_value_of_min(n / 256);
        let q = be_min(n / 256);
        let s = q.push((n % 256) as u8);
        assert(s.drop_last() == q);
        assert(s.last() == (n % 256) as u8);
    }
}

/// The digits `s` denote a number below 256 to the power of their count; with
/// no leading zero, at least 256 to the power of one less.
pub proof fn lemma_be_value_bounds(s: Seq<u8>)
    ensures
        be_value(s) < pow256(s.len()),
        s.len() > 0 && s[0] != 0 ==> be_value(s) >= pow256((s.len() - 1) as nat),
    decreases s.len(),
{
    if s.len() > 0 {
        lemma_be_value_bounds(s.drop_last());
        if s.len() > 1 {
            assert(s.drop_last()[0] == s[0]);
        }
    }
}

/// Writing out the number that minimal digits denote gives the digits back.
pub proof fn lemma_be_min_of_value(s: Seq<u8>)
    requires
        is_minimal(s),
    ensures
        be_min(be_value(s)) == s,
    decreases s.len(),
{
    if s.len() > 0 {
        let init = s.drop_last();
        let v = be_value(s);
        assert(v == be_value(init) * 256 + s.last() as nat);
        assert(v / 256 == be_value(init));
        assert(v % 256 == s.last() as nat);
        if init.len() > 0 {
            assert(init[0] == s[0]);
            lemma_be_min_of_value(init);
            lemma_be_value_bounds(init);
            lemma_pow256_monotonic(0, (init.len() - 1) as nat);
            assert(v != 0);
        } else {
            assert(s.last() == s[0]);
            assert(be_value(init) == 0);
            assert(v != 0);
            assert(be_min(0) == Seq::<u8>::empty());
        }
        assert(be_min(v) == be_min(v / 256).push((v % 256) as u8));
        assert(be_min(v) =~= s);
    }
}

/// A number below 256 to the power `k` has at most `k` digits.
pub proof fn lemma_be_min_len_bound(n: nat, k: nat)
    requires
        n < pow256(k),
    ensures
        be_min(n).len() <= k,
{
    lemma_be_min_props(n);
    if be_min(n).len() > k {
        lemma_pow256_monotonic(k, (be_min(n).len() - 1) as nat);
    }
}

/// Leading zero digits do not change the number that digits denote.
pub proof fn lemma_be_value_skip_zeros(s: Seq<u8>, i: int)
    requires
        0 <= i <= s.len(),
        forall|j: int| 0 <= j < i ==> s[j] == 0,
    ensures
        be_value(s) == be_value(s.skip(i)),
    decreases s.len(),
{
    if s.len() == 0 {
        assert(s.skip(i) =~= s);
    } else if i == s.len() {
        lemma_be_value_skip_zeros(s.drop_last(), i - 1);
        assert(s.drop_last().skip(i - 1) =~= Seq::<u8>::empty());
        assert(s.skip(i) =~= Seq::<u8>::empty());
    } else {
        lemma_be_value_skip_zeros(s.drop_last(), i);
        assert(s.skip(i).drop_last() =~= s.drop_last().skip(i));
        assert(s.skip(i).last() == s.last());
    }
}

/// Digit sequences of one length that denote the same number are the same.
pub proof fn lemma_be_value_injective(a: Seq<u8>, b: Seq<u8>)
    requires
        a.len() == b.len(),
        be_value(a) == be_value(b),
    ensures
        a == b,
    decreases a.len(),
{
    if a.len() > 0 {
        lemma_be_value_injective(a.drop_last(), b.drop_last());
        assert(a =~= a.drop_last().push(a.last()));
        assert(b =~= b.drop_last().push(b.last()));
    }
    assert(a =~= b);
}

/// The number of digits of `n`.
pub fn be_len(n: u128) -> (k: usize)
    ensures
        k == be_min(n as nat).len(),
        k <= 16,
    decreases n,
{
    proof {
        lemma_pow256_values();
        lemma_be_min_len_bound(n as nat, 16);
    }
    if n == 0 {
        0
    } else {
        be_len(n / 256) + 1
    }
}

/// Appends the digits of `n` to `out`.
pub fn push_be(n: u128, out: &mut Vec<u8>)
    ensures
        final(out)@ == old(out)@ + be_min(n as nat),
    decreases n,
{
    if n != 0 {
        push_be(n / 256, out);
        out.push((n % 256) as u8);
        assert(final(out)@ =~= old(out)@ + be_min(n as nat));
    } else {
        assert(out@ =~= old(out)@ + be_min(0));
    }
}

/// Reads at most sixteen digits as a number.
pub fn read_be(digits: &[u8]) -> (n: u128)
    requires
        digits@.len() <= 16,
    ensures
        n == be_value(digits@),
{
    let mut acc: u128 = 0;
    let mut i: usize = 0;
    proof {
        assert(digits@.take(0) =~= Seq::<u8>::empty());
    }
    while i < digits.len()
        invariant
            i <= digits@.len() <= 16,
            acc == be_value(digits@.take(i as int)),
        decreases digits@.len() - i,
    {
        proof {
            let next = digits@.take(i + 1);
            assert(next.drop_last() =~= digits@.take(i as int));
            assert(next.last() == digits@[i as int]);
            lemma_be_value_bounds(next);
            lemma_pow256_monotonic(next.len(), 16);
            lemma_pow256_values();
        }
        acc = acc * 256 + digits[i] as u128;
        i += 1;
    }
    proof {
        assert(digits@.take(i as int) =~= digits@);
    }
    acc
}

} // verus!
