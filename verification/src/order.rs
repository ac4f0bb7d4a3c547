//! The order of map keys: byte strings compared byte by byte, a proper beginning
//! before what it begins.

use vstd::prelude::*;

verus! {

/// The first index from `i` on at which `a` and `b` differ or one of them ends.
pub open spec fn mismatch(a: Seq<u8>, b: Seq<u8>, i: int) -> int
    decreases a.len() - i,
{
    if 0 <= i < a.len() && i < b.len() && a[i] == b[i] {
        mismatch(a, b, i + 1)
    } else {
        i
    }
}

/// `a` comes before `b`: at their first difference `a` has the smaller byte, or `a`
/// ends there and `b` goes on.
pub open spec fn bytes_lt(a: Seq<u8>, b: Seq<u8>) -> bool {
    let k = mismatch(a, b, 0);
    k < b.len() && (k >= a.len() || a[k] < b[k])
}

/// How one byte string stands to another.
#[derive(Debug, PartialEq, Eq, Clone, Copy, Structural)]
pub enum Rank {
    Before,
    Same,
    After,
}

/// Up to their mismatch two byte strings agree, and there they differ or one ends.
pub proof fn lemma_mismatch(a: Seq<u8>, b: Seq<u8>, i: int)
    requires
        0 <= i <= a.len(),
        i <= b.len(),
    ensures
        i <= mismatch(a, b, i) <= a.len(),
        mismatch(a, b, i) <= b.len(),
        forall|j: int| i <= j < mismatch(a, b, i) ==> a[j] == b[j],
        mismatch(a, b, i) < a.len() && mismatch(a, b, i) < b.len() ==> a[mismatch(a, b, i)] != b[mismatch(
            a,
            b,
            i,
        )],
        mismatch(a, b, i) == mismatch(b, a, i),
    decreases a.len() - i,
{
    if i < a.len() && i < b.len() && a[i] == b[i] {
        lemma_mismatch(a, b, i + 1);
    }
}

/// An index at which two byte strings differ or one ends, with agreement before it,
/// is their mismatch.
pub proof fn lemma_mismatch_is(a: Seq<u8>, b: Seq<u8>, i: int, k: int)
    requires
        0 <= i <= k <= a.len(),
        k <= b.len(),
        forall|j: int| i <= j < k ==> a[j] == b[j],
        k == a.len() || k == b.len() || a[k] != b[k],
    ensures
        mismatch(a, b, i) == k,
    decreases k - i,
{
    if i < k {
        lemma_mismatch_is(a, b, i + 1, k);
    }
}

/// Of two byte strings exactly one holds: the first is before the second, they are
/// equal, or the second is before the first.
pub proof fn lemma_bytes_trichotomy(a: Seq<u8>, b: Seq<u8>)
    ensures
        bytes_lt(a, b) || a == b || bytes_lt(b, a),
        !(bytes_lt(a, b) && a == b),
        !(bytes_lt(a, b) && bytes_lt(b, a)),
        !(a == b && bytes_lt(b, a)),
{
    lemma_mismatch(a, b, 0);
    lemma_mismatch(b, a, 0);
    let k = mismatch(a, b, 0);
    if k == a.len() && k == b.len() {
        assert(a =~= b);
    }
}

/// The order of byte strings is transitive.
pub proof fn lemma_bytes_lt_transitive(a: Seq<u8>, b: Seq<u8>, c: Seq<u8>)
    requires
        bytes_lt(a, b),
        bytes_lt(b, c),
    ensures
        bytes_lt(a, c),
{
    lemma_mismatch(a, b, 0);
    lemma_mismatch(b, c, 0);
    let k1 = mismatch(a, b, 0);
    let k2 = mismatch(b, c, 0);
    let k = if k1 <= k2 {
        k1
    } else {
        k2
    };
    assert(k <= a.len() && k <= c.len());
    assert(k == a.len() || k == c.len() || a[k] != c[k]);
    lemma_mismatch_is(a, c, 0, k);
}

/// Compares two byte strings.
pub fn rank(a: &[u8], b: &[u8]) -> (r: Rank)
    ensures
        r == Rank::Before <==> bytes_lt(a@, b@),
        r == Rank::Same <==> a@ == b@,
        r == Rank::After <==> bytes_lt(b@, a@),
{
    let mut i: usize = 0;
    while i < a.len() && i < b.len() && a[i] == b[i]
        invariant
            i <= a.len(),
            i <= b.len(),
            forall|j: int| 0 <= j < i ==> a@[j] == b@[j],
        decreases a.len() - i,
    {
        i = i + 1;
    }
    proof {
        lemma_mismatch_is(a@, b@, 0, i as int);
        lemma_mismatch(a@, b@, 0);
        lemma_bytes_trichotomy(a@, b@);
    }
    if i < a.len() && i < b.len() {
        if a[i] < b[i] {
            Rank::Before
        } else {
            Rank::After
        }
    } else if i < b.len() {
        Rank::Before
    } else if i < a.len() {
        Rank::After
    } else {
        Rank::Same
    }
}

} // verus!
