//! Small operations on byte strings.

use vstd::prelude::*;

verus! {

/// Tells whether two byte strings are equal.
pub fn bytes_equal(a: &[u8], b: &[u8]) -> (equal: bool)
    ensures
        equal == (a@ == b@),
{
    if a.len() != b.len() {
        return false;
    }
    let mut i: usize = 0;
    while i < a.len()
        invariant
            i <= a@.len(),
            a@.len() == b@.len(),
            forall|j: int| 0 <= j < i ==> a@[j] == b@[j],
        decreases a@.len() - i,
    {
        if a[i] != b[i] {
            return false;
        }
        i = i + 1;
    }
    assert(a@ =~= b@);
    true
}

/// Whether one byte string comes before another in lexicographic order.
pub open spec fn before(a: Seq<u8>, b: Seq<u8>) -> bool
    decreases b.len(),
{
    if b.len() == 0 {
        false
    } else if a.len() == 0 {
        true
    } else if a[0] == b[0] {
        before(a.skip(1), b.skip(1))
    } else {
        a[0] < b[0]
    }
}

/// Lexicographic order is transitive.
pub(crate) proof fn lemma_before_is_transitive(a: Seq<u8>, b: Seq<u8>, c: Seq<u8>)
    requires
        before(a, b),
        before(b, c),
    ensures
        before(a, c),
    decreases c.len(),
{
    if a.len() > 0 && a[0] == b[0] && b[0] == c[0] {
        lemma_before_is_transitive(a.skip(1), b.skip(1), c.skip(1));
    }
}

/// Of two different byte strings exactly one comes before the other, and none comes before
/// itself.
pub(crate) proof fn lemma_before_is_total(a: Seq<u8>, b: Seq<u8>)
    ensures
        before(a, b) ==> !before(b, a) && a != b,
        a != b ==> before(a, b) || before(b, a),
    decreases b.len(),
{
    if a.len() > 0 && b.len() > 0 && a[0] == b[0] {
        lemma_before_is_total(a.skip(1), b.skip(1));
        assert(a =~= seq![a[0]] + a.skip(1));
        assert(b =~= seq![b[0]] + b.skip(1));
    }
    if a.len() == 0 && b.len() == 0 {
        assert(a =~= b);
    }
}

/// Tells whether one byte string comes before another in lexicographic order.
pub fn bytes_before(a: &[u8], b: &[u8]) -> (earlier: bool)
    ensures
        earlier == before(a@, b@),
{
    let mut i: usize = 0;
    assert(a@.skip(0) =~= a@ && b@.skip(0) =~= b@);
    while i < a.len() && i < b.len()
        invariant
            i <= a@.len(),
            i <= b@.len(),
            before(a@, b@) == before(a@.skip(i as int), b@.skip(i as int)),
        decreases a@.len() - i,
    {
        if a[i] != b[i] {
            return a[i] < b[i];
        }
        assert(a@.skip(i as int).skip(1) =~= a@.skip(i + 1));
        assert(b@.skip(i as int).skip(1) =~= b@.skip(i + 1));
        i = i + 1;
    }
    i < b.len()
}

/// Copies what follows the first `from` bytes.
pub fn bytes_from(bytes: &[u8], from: usize) -> (rest: Vec<u8>)
    requires
        from <= bytes@.len(),
    ensures
        rest@ == bytes@.skip(from as int),
{
    let rest: Vec<u8> = vstd::slice::slice_to_vec(
        vstd::slice::slice_subrange(bytes, from, bytes.len()),
    );
    assert(rest@ =~= bytes@.skip(from as int));
    rest
}

/// Whether two byte strings agree up to position `i` and no further: there they differ, or one of
/// them ends.
pub open spec fn agree_up_to(a: Seq<u8>, b: Seq<u8>, i: int) -> bool {
    &&& 0 <= i <= a.len()
    &&& i <= b.len()
    &&& forall|j: int| 0 <= j < i ==> a[j] == b[j]
    &&& i < a.len() && i < b.len() ==> a[i] != b[i]
}

/// How far two byte strings agree.
pub(crate) proof fn lemma_agreement(a: Seq<u8>, b: Seq<u8>) -> (i: int)
    ensures
        agree_up_to(a, b, i),
    decreases a.len(),
{
    if a.len() > 0 && b.len() > 0 && a[0] == b[0] {
        let rest = lemma_agreement(a.skip(1), b.skip(1));
        assert forall|j: int| 0 <= j < rest + 1 implies a[j] == b[j] by {
            if j > 0 {
                assert(a.skip(1)[j - 1] == b.skip(1)[j - 1]);
            }
        }
        if rest + 1 < a.len() && rest + 1 < b.len() {
            assert(a.skip(1)[rest] != b.skip(1)[rest]);
        }
        rest + 1
    } else {
        0
    }
}

/// Where two byte strings stop to agree, their order is decided: the one that ends there comes
/// first, or else the one with the smaller byte.
pub proof fn order_is_decided_where_agreement_ends(a: Seq<u8>, b: Seq<u8>, i: int)
    requires
        agree_up_to(a, b, i),
    ensures
        before(a, b) <==> i < b.len() && (i == a.len() || a[i] < b[i]),
    decreases i,
{
    if i > 0 {
        assert(a[0] == b[0]);
        assert forall|j: int| 0 <= j < i - 1 implies a.skip(1)[j] == b.skip(1)[j] by {
            assert(a[j + 1] == b[j + 1]);
        }
        order_is_decided_where_agreement_ends(a.skip(1), b.skip(1), i - 1);
    }
}

} // verus!
