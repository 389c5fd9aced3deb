//! How taking, skipping and joining byte sequences combine.

use vstd::prelude::*;

verus! {

/// Skipping the first of two joined sequences leaves the second; taking its
/// length gives the first.
pub proof fn lemma_split_joined(a: Seq<u8>, b: Seq<u8>)
    ensures
        (a + b).skip(a.len() as int) == b,
        (a + b).take(a.len() as int) == a,
{
    assert((a + b).skip(a.len() as int) =~= b);
    assert((a + b).take(a.len() as int) =~= a);
}

/// Joining is associative.
pub proof fn lemma_join_assoc(a: Seq<u8>, b: Seq<u8>, c: Seq<u8>)
    ensures
        (a + b) + c == a + (b + c),
{
    assert((a + b) + c =~= a + (b + c));
}

/// Reading `b` bytes behind the first `a` extends what was taken by what was
/// read, and moves on what is left.
pub proof fn lemma_advance(s: Seq<u8>, a: nat, b: nat)
    requires
        a + b <= s.len(),
    ensures
        s.take((a + b) as int) == s.take(a as int) + s.skip(a as int).take(b as int),
        s.skip(a as int).skip(b as int) == s.skip((a + b) as int),
{
    assert(s.take((a + b) as int) =~= s.take(a as int) + s.skip(a as int).take(b as int));
    assert(s.skip(a as int).skip(b as int) =~= s.skip((a + b) as int));
}

} // verus!
