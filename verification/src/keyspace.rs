//! The keyspace of the network: where keys lie in it, and how far apart they are.

use vstd::prelude::*;

use crate::bytes::agree_up_to;
use crate::bytes::lemma_agreement;

verus! {

/// The digest by which `libp2p::kad::KBucketKey` places a byte string in the keyspace.
pub uninterp spec fn kbucket_digest(preimage: Seq<u8>) -> Seq<u8>;

/// Calls `libp2p::kad::KBucketKey::from`, and hands out the bytes of the resulting point.
///
/// The point is a function of the preimage alone, and 32 bytes long.
#[verifier::external_body]
fn hash_to_keyspace(preimage: &[u8]) -> (hashed: Vec<u8>)
    ensures
        hashed@ == kbucket_digest(preimage@),
        hashed@.len() == 32,
{
    libp2p::kad::KBucketKey::from(preimage.to_vec()).hashed_bytes().to_vec()
}

/// Calls `libp2p::kad::KBucketKey::distance` for the keys with the given preimages.
///
/// The distance is the bitwise XOR of the two points. It is handed out as it is written in
/// big-endian order, the same way round as the points.
#[verifier::external_body]
fn kbucket_distance(a: &[u8], b: &[u8]) -> (distance: [u8; 32])
    ensures
        distance@ == xor_points(kbucket_digest(a@), kbucket_digest(b@)),
{
    let b = libp2p::kad::KBucketKey::from(b.to_vec());
    libp2p::kad::KBucketKey::from(a.to_vec()).distance(&b).0.to_big_endian()
}

/// The bitwise XOR of two points.
pub open spec fn xor_points(a: Seq<u8>, b: Seq<u8>) -> Seq<u8> {
    Seq::new(32, |i: int| a[i] ^ b[i])
}

/// The number that a byte string encodes, most significant byte first.
pub open spec fn be_value(bytes: Seq<u8>) -> nat
    decreases bytes.len(),
{
    if bytes.len() == 0 {
        0
    } else {
        256 * be_value(bytes.drop_last()) + bytes.last() as nat
    }
}

/// A distance in the keyspace: a number of 256 bits.
#[derive(Debug, Clone, Copy, PartialEq, Eq)]
pub struct Distance {
    /// The number, most significant byte first.
    pub bytes: [u8; 32],
}

impl View for Distance {
    type V = nat;

    open spec fn view(&self) -> nat {
        be_value(self.bytes@)
    }
}

/// A longer common prefix decides: where two byte strings of one length first differ, there
/// the numbers that they encode are told apart.
proof fn lemma_first_difference(a: Seq<u8>, b: Seq<u8>, i: int)
    requires
        a.len() == b.len(),
        0 <= i < a.len(),
        a.take(i) == b.take(i),
        a[i] < b[i],
    ensures
        be_value(a) < be_value(b),
    decreases a.len(),
{
    let (x, y) = (a.drop_last(), b.drop_last());
    if i == a.len() - 1 {
        assert(x =~= a.take(i));
        assert(y =~= b.take(i));
    } else {
        assert(x.take(i) =~= a.take(i));
        assert(y.take(i) =~= b.take(i));
        lemma_first_difference(x, y, i);
    }
}

impl Distance {
    /// Tells whether this distance is shorter than another one.
    pub fn is_less_than(&self, other: &Distance) -> (less: bool)
        ensures
            less == (self@ < other@),
    {
        let mut i: usize = 0;
        while i < 32
            invariant
                i <= 32,
                self.bytes@.take(i as int) == other.bytes@.take(i as int),
            decreases 32 - i,
        {
            if self.bytes[i] < other.bytes[i] {
                proof {
                    lemma_first_difference(self.bytes@, other.bytes@, i as int);
                }
                return true;
            }
            if other.bytes[i] < self.bytes[i] {
                proof {
                    lemma_first_difference(other.bytes@, self.bytes@, i as int);
                }
                return false;
            }
            assert(self.bytes@.take(i + 1) =~= self.bytes@.take(i as int).push(self.bytes@[i as int]));
            assert(other.bytes@.take(i + 1) =~= other.bytes@.take(i as int).push(
                other.bytes@[i as int],
            ));
            i = i + 1;
        }
        assert(self.bytes@.take(32) =~= self.bytes@);
        assert(other.bytes@.take(32) =~= other.bytes@);
        false
    }
}

/// A byte string and the point of the keyspace at which it lies.
#[derive(Debug)]
pub struct KBucketKey {
    preimage: Vec<u8>,
    hashed: Vec<u8>,
}

impl View for KBucketKey {
    type V = Seq<u8>;

    closed spec fn view(&self) -> Seq<u8> {
        self.preimage@
    }
}

/// How far apart two byte strings lie in the keyspace.
pub open spec fn distance_between(a: Seq<u8>, b: Seq<u8>) -> nat {
    be_value(xor_points(kbucket_digest(a), kbucket_digest(b)))
}

impl KBucketKey {
    #[verifier::type_invariant]
    spec fn placed(self) -> bool {
        self.hashed@ == kbucket_digest(self.preimage@)
    }

    /// Places a byte string in the keyspace.
    pub fn new(preimage: Vec<u8>) -> (key: KBucketKey)
        ensures
            key@ == preimage@,
    {
        let hashed: Vec<u8> = hash_to_keyspace(preimage.as_slice());
        KBucketKey { preimage, hashed }
    }

    /// The point at which the key lies.
    pub fn hashed_bytes(&self) -> (hashed: &[u8])
        ensures
            hashed@ == kbucket_digest(self@),
    {
        proof {
            use_type_invariant(self);
        }
        self.hashed.as_slice()
    }

    /// The distance between two keys.
    pub fn distance(&self, other: &KBucketKey) -> (distance: Distance)
        ensures
            distance.bytes@ == xor_points(kbucket_digest(self@), kbucket_digest(other@)),
            distance@ == distance_between(self@, other@),
    {
        Distance { bytes: kbucket_distance(self.preimage.as_slice(), other.preimage.as_slice()) }
    }
}

/// It is as far from one key to another as back.
pub proof fn distance_is_symmetric(a: Seq<u8>, b: Seq<u8>)
    ensures
        distance_between(a, b) == distance_between(b, a),
{
    let (x, y) = (kbucket_digest(a), kbucket_digest(b));
    assert forall|i: int| 0 <= i < 32 implies xor_points(x, y)[i] == xor_points(y, x)[i] by {
        let (p, q) = (x[i], y[i]);
        assert(p ^ q == q ^ p) by (bit_vector);
    }
    assert(xor_points(x, y) =~= xor_points(y, x));
}

proof fn lemma_zeroes(bytes: Seq<u8>)
    requires
        forall|i: int| 0 <= i < bytes.len() ==> bytes[i] == 0,
    ensures
        be_value(bytes) == 0,
    decreases bytes.len(),
{
    if bytes.len() > 0 {
        lemma_zeroes(bytes.drop_last());
    }
}

/// A key lies at distance zero from itself, hence within every distance but zero.
pub proof fn distance_to_itself_is_zero(a: Seq<u8>)
    ensures
        distance_between(a, a) == 0,
{
    let x = kbucket_digest(a);
    assert forall|i: int| 0 <= i < 32 implies xor_points(x, x)[i] == 0 by {
        let p = x[i];
        assert(p ^ p == 0) by (bit_vector);
    }
    lemma_zeroes(xor_points(x, x));
}

/// The distance between two points is their bitwise XOR, byte by byte: XORed onto one of them it
/// gives the other.
pub proof fn xor_leads_from_one_point_to_the_other(a: Seq<u8>, b: Seq<u8>)
    ensures
        xor_points(a, b).len() == 32,
        forall|i: int| 0 <= i < 32 ==> a[i] ^ #[trigger] xor_points(a, b)[i] == b[i],
        forall|i: int| 0 <= i < 32 ==> b[i] ^ #[trigger] xor_points(a, b)[i] == a[i],
{
    assert forall|i: int| 0 <= i < 32 implies a[i] ^ #[trigger] xor_points(a, b)[i] == b[i] && b[i]
        ^ xor_points(a, b)[i] == a[i] by {
        let (p, q) = (a[i], b[i]);
        assert(p ^ (p ^ q) == q && q ^ (p ^ q) == p) by (bit_vector);
    }
}

/// A byte string is read in base 256, the last byte counting once.
pub proof fn last_byte_counts_once(bytes: Seq<u8>, last: u8)
    ensures
        be_value(Seq::<u8>::empty()) == 0,
        be_value(bytes.push(last)) == 256 * be_value(bytes) + last,
{
    assert(bytes.push(last).drop_last() =~= bytes);
}

/// Of two byte strings of one length, the one whose byte is smaller where they first differ
/// encodes the smaller number.
pub proof fn first_difference_decides(a: Seq<u8>, b: Seq<u8>, i: int)
    requires
        a.len() == b.len(),
        agree_up_to(a, b, i),
    ensures
        be_value(a) < be_value(b) <==> i < a.len() && a[i] < b[i],
        be_value(a) == be_value(b) <==> a == b,
{
    assert(a.take(i) =~= b.take(i));
    if i == a.len() {
        assert(a =~= b);
    } else if a[i] < b[i] {
        lemma_first_difference(a, b, i);
    } else {
        lemma_first_difference(b, a, i);
    }
}

/// A key lies within a distance of another one exactly if, at the first byte in which the XOR of
/// the two points differs from the distance, the XOR is smaller.
pub proof fn first_difference_decides_what_is_near(a: Seq<u8>, b: Seq<u8>, bar: Distance)
    ensures
        distance_between(a, b) < bar@ <==> exists|i: int|
            {
                &&& 0 <= i < 32
                &&& forall|j: int|
                    0 <= j < i ==> kbucket_digest(a)[j] ^ kbucket_digest(b)[j]
                        == #[trigger] bar.bytes@[j]
                &&& kbucket_digest(a)[i] ^ kbucket_digest(b)[i] < #[trigger] bar.bytes@[i]
            },
{
    let (x, y) = (kbucket_digest(a), kbucket_digest(b));
    let points = xor_points(x, y);
    let i = lemma_agreement(points, bar.bytes@);
    first_difference_decides(points, bar.bytes@, i);
    if distance_between(a, b) < bar@ {
        assert forall|j: int| 0 <= j < i implies x[j] ^ y[j] == #[trigger] bar.bytes@[j] by {
            assert(points[j] == bar.bytes@[j]);
        }
        assert(x[i] ^ y[i] < bar.bytes@[i]);
    } else {
        assert forall|k: int|
            0 <= k < 32 && x[k] ^ y[k] < #[trigger] bar.bytes@[k] implies exists|j: int|
            0 <= j < k && x[j] ^ y[j] != #[trigger] bar.bytes@[j] by {
            if k < i {
                assert(points[k] == bar.bytes@[k]);
            } else if k > i {
                assert(x[i] ^ y[i] != bar.bytes@[i]);
            }
        }
    }
}

/// Only one point lies at a given distance from another: keys at the same distance from a target
/// lie at the same point.
pub proof fn distance_determines_the_point(target: Seq<u8>, a: Seq<u8>, b: Seq<u8>)
    ensures
        distance_between(target, a) == distance_between(target, b) ==> forall|i: int|
            0 <= i < 32 ==> #[trigger] kbucket_digest(a)[i] == kbucket_digest(b)[i],
{
    let (t, x, y) = (kbucket_digest(target), kbucket_digest(a), kbucket_digest(b));
    if distance_between(target, a) == distance_between(target, b) {
        let i = lemma_agreement(xor_points(t, x), xor_points(t, y));
        first_difference_decides(xor_points(t, x), xor_points(t, y), i);
        xor_leads_from_one_point_to_the_other(t, x);
        xor_leads_from_one_point_to_the_other(t, y);
        assert forall|i: int| 0 <= i < 32 implies #[trigger] x[i] == y[i] by {
            assert(t[i] ^ xor_points(t, x)[i] == x[i]);
            assert(t[i] ^ xor_points(t, y)[i] == y[i]);
        }
    }
}

/// Distances are ordered by their bytes, and equal only if all bytes are.
pub proof fn distances_are_ordered_by_their_bytes(a: Distance, b: Distance, i: int)
    requires
        agree_up_to(a.bytes@, b.bytes@, i),
    ensures
        a@ < b@ <==> i < 32 && a.bytes@[i] < b.bytes@[i],
        a@ == b@ <==> i == 32,
{
    first_difference_decides(a.bytes@, b.bytes@, i);
    if i == 32 {
        assert(a.bytes@ =~= b.bytes@);
    }
}

} // verus!
