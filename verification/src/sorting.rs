//! The order in which a folder's images are listed. An image is ranked by a
//! key, a number and a text: of two keys the one with the smaller number
//! comes first; with equal numbers, the one whose text comes first byte by
//! byte. The order is ascending or descending.

use crate::models::SortOrder;
use vstd::prelude::*;

verus! {

/// Whether `a` comes before `b` byte by byte: at the first place where they
/// differ `a` has the smaller byte, or `a` ends there and `b` goes on.
pub open spec fn bytes_before(a: Seq<u8>, b: Seq<u8>) -> bool
    decreases a.len(),
{
    if b.len() == 0 {
        false
    } else if a.len() == 0 {
        true
    } else if a.first() != b.first() {
        a.first() < b.first()
    } else {
        bytes_before(a.drop_first(), b.drop_first())
    }
}

/// Whether key `a` comes before key `b`, ascending.
pub open spec fn key_before(a: (int, Seq<u8>), b: (int, Seq<u8>)) -> bool {
    a.0 < b.0 || (a.0 == b.0 && bytes_before(a.1, b.1))
}

/// Whether key `a` comes before key `b` in the given direction.
pub open spec fn ranks_before(a: (int, Seq<u8>), b: (int, Seq<u8>), order: SortOrder) -> bool {
    match order {
        SortOrder::Asc => key_before(a, b),
        SortOrder::Desc => key_before(b, a),
    }
}

/// No text comes before itself, and of two texts at most one comes before
/// the other.
pub proof fn lemma_bytes_before_asymmetric(a: Seq<u8>, b: Seq<u8>)
    ensures
        !(bytes_before(a, b) && bytes_before(b, a)),
        !bytes_before(a, a),
    decreases a.len(),
{
    if a.len() > 0 && b.len() > 0 && a.first() == b.first() {
        lemma_bytes_before_asymmetric(a.drop_first(), b.drop_first());
    }
    if a.len() > 0 {
        lemma_bytes_before_asymmetric(a.drop_first(), a.drop_first());
    }
}

/// Of two different texts one comes before the other.
pub proof fn lemma_bytes_before_total(a: Seq<u8>, b: Seq<u8>)
    ensures
        bytes_before(a, b) || bytes_before(b, a) || a == b,
    decreases a.len(),
{
    if a.len() == 0 || b.len() == 0 {
        if a.len() == 0 && b.len() == 0 {
            assert(a =~= b);
        }
    } else if a.first() == b.first() {
        lemma_bytes_before_total(a.drop_first(), b.drop_first());
        if a.drop_first() == b.drop_first() {
            assert(a =~= seq![a.first()] + a.drop_first());
            assert(b =~= seq![b.first()] + b.drop_first());
        }
    }
}

/// If `a` does not come before `b`, nor `b` before `c`, then `a` does not
/// come before `c`.
pub proof fn lemma_bytes_not_before_transitive(a: Seq<u8>, b: Seq<u8>, c: Seq<u8>)
    requires
        !bytes_before(a, b),
        !bytes_before(b, c),
    ensures
        !bytes_before(a, c),
    decreases a.len(),
{
    if a.len() > 0 && b.len() > 0 && c.len() > 0 && a.first() == b.first() && b.first()
        == c.first() {
        lemma_bytes_not_before_transitive(a.drop_first(), b.drop_first(), c.drop_first());
    }
}

/// The order of keys is a strict order in either direction: nothing comes
/// before itself, and of two keys at most one comes before the other.
pub proof fn lemma_ranks_asymmetric(a: (int, Seq<u8>), b: (int, Seq<u8>), order: SortOrder)
    ensures
        !(ranks_before(a, b, order) && ranks_before(b, a, order)),
        !ranks_before(a, a, order),
{
    lemma_bytes_before_asymmetric(a.1, b.1);
    lemma_bytes_before_asymmetric(a.1, a.1);
}

/// Keys of which neither comes before the other are the same key.
pub proof fn lemma_ranks_total(a: (int, Seq<u8>), b: (int, Seq<u8>), order: SortOrder)
    ensures
        ranks_before(a, b, order) || ranks_before(b, a, order) || a == b,
{
    lemma_bytes_before_total(a.1, b.1);
}

/// If `a` does not come before `b`, nor `b` before `c`, then `a` does not
/// come before `c`.
pub proof fn lemma_ranks_not_before_transitive(
    a: (int, Seq<u8>),
    b: (int, Seq<u8>),
    c: (int, Seq<u8>),
    order: SortOrder,
)
    requires
        !ranks_before(a, b, order),
        !ranks_before(b, c, order),
    ensures
        !ranks_before(a, c, order),
{
    match order {
        SortOrder::Asc => {
            if a.0 == b.0 && b.0 == c.0 {
                lemma_bytes_not_before_transitive(a.1, b.1, c.1);
            }
        },
        SortOrder::Desc => {
            if a.0 == b.0 && b.0 == c.0 {
                lemma_bytes_not_before_transitive(c.1, b.1, a.1);
            }
        },
    }
}

/// Whether `a` comes before `b` byte by byte.
pub fn bytes_precede(a: &[u8], b: &[u8]) -> (before: bool)
    ensures
        before == bytes_before(a@, b@),
{
    let mut i: usize = 0;
    assert(a@.skip(0) =~= a@ && b@.skip(0) =~= b@);
    while i < a.len() && i < b.len()
        invariant
            i <= a@.len(),
            i <= b@.len(),
            bytes_before(a@, b@) == bytes_before(a@.skip(i as int), b@.skip(i as int)),
        decreases a@.len() - i,
    {
        let ghost rest_a = a@.skip(i as int);
        let ghost rest_b = b@.skip(i as int);
        assert(rest_a.first() == a@[i as int] && rest_b.first() == b@[i as int]);
        if a[i] != b[i] {
            return a[i] < b[i];
        }
        assert(rest_a.drop_first() =~= a@.skip(i + 1));
        assert(rest_b.drop_first() =~= b@.skip(i + 1));
        i += 1;
    }
    i < b.len()
}

} // verus!
