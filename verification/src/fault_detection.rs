//! The periodic check that the peers around a node still hold the records that they should.
//!
//! In each round the node asks peers of its close group to prove that they hold a record. A
//! peer is asked for one record at most, and only for one that it is among the closest to.

use vstd::prelude::*;

use crate::bytes::before;
use crate::bytes::bytes_before;
use crate::bytes::bytes_equal;
use crate::bytes::lemma_before_is_total;
use crate::bytes::lemma_before_is_transitive;

verus! {

/// The pause between two rounds, in seconds.
pub const PERIODIC_CHECK_DELAY_SECS: u64 = 20;

/// The identity of a peer.
#[derive(Debug, PartialEq, Eq)]
pub struct PeerId {
    bytes: Vec<u8>,
}

impl View for PeerId {
    type V = Seq<u8>;

    closed spec fn view(&self) -> Seq<u8> {
        self.bytes@
    }
}

impl Clone for PeerId {
    fn clone(&self) -> (copy: Self)
        ensures
            copy@ == self@,
    {
        PeerId::from_bytes(self.bytes.as_slice())
    }
}

impl PeerId {
    /// The peer with the given identity.
    pub fn from_bytes(bytes: &[u8]) -> (peer: PeerId)
        ensures
            peer@ == bytes@,
    {
        PeerId { bytes: vstd::slice::slice_to_vec(bytes) }
    }

    /// The identity of the peer, in bytes.
    pub fn to_bytes(&self) -> (bytes: Vec<u8>)
        ensures
            bytes@ == self@,
    {
        vstd::slice::slice_to_vec(self.bytes.as_slice())
    }

    /// Tells whether two peers are the same.
    pub fn same_as(&self, other: &PeerId) -> (same: bool)
        ensures
            same == (self@ == other@),
    {
        bytes_equal(self.bytes.as_slice(), other.bytes.as_slice())
    }

    /// Tells whether this peer comes before another one. Peers are ordered by their bytes.
    pub fn comes_before(&self, other: &PeerId) -> (earlier: bool)
        ensures
            earlier == before(self@, other@),
    {
        bytes_before(self.bytes.as_slice(), other.bytes.as_slice())
    }
}

/// The identities of some peers.
pub open spec fn peer_views(peers: Seq<PeerId>) -> Seq<Seq<u8>> {
    peers.map_values(|peer: PeerId| peer@)
}

/// Tells whether a peer is among some others.
fn contains_peer(peers: &[PeerId], peer: &PeerId) -> (found: bool)
    ensures
        found == peer_views(peers@).contains(peer@),
{
    let mut i: usize = 0;
    while i < peers.len()
        invariant
            i <= peers@.len(),
            forall|j: int| 0 <= j < i ==> peer_views(peers@)[j] != peer@,
        decreases peers@.len() - i,
    {
        if peers[i].same_as(peer) {
            assert(peer_views(peers@)[i as int] == peer@);
            return true;
        }
        i = i + 1;
    }
    false
}

/// A peer, and the record that it is asked to prove it holds. Records are named by their
/// position among those of this node.
#[derive(Debug)]
pub struct ProofRequest {
    /// The peer to ask.
    pub peer: PeerId,
    /// The record to ask for.
    pub record: usize,
}

/// Who is asked for which record in a round.
#[derive(Debug)]
pub struct ProofRequests {
    close_group: Vec<PeerId>,
    our_peer_id: PeerId,
    requests: Vec<ProofRequest>,
}

/// The state of a round.
#[verifier::ext_equal]
pub struct Round {
    /// The close group of this node.
    pub close_group: Seq<Seq<u8>>,
    /// This node.
    pub our_peer_id: Seq<u8>,
    /// The record that each peer is asked for.
    pub asked: Map<Seq<u8>, usize>,
}

impl Round {
    /// Whether a peer may be asked at all: it is in the close group and not this node.
    pub open spec fn eligible(self, peer: Seq<u8>) -> bool {
        self.close_group.contains(peer) && peer != self.our_peer_id
    }

    /// Whether as many peers are asked as the close group has.
    pub open spec fn complete(self) -> bool {
        self.asked.dom().len() == self.close_group.len()
    }

    /// The round after a record was considered: the eligible peers among the closest to it that
    /// are not asked yet are asked for it.
    pub open spec fn add_record(self, record: usize, closest: Seq<Seq<u8>>) -> Round {
        Round {
            asked: Map::new(
                |peer: Seq<u8>|
                    self.asked.contains_key(peer) || (self.eligible(peer) && closest.contains(
                        peer,
                    )),
                |peer: Seq<u8>|
                    if self.asked.contains_key(peer) {
                        self.asked[peer]
                    } else {
                        record
                    },
            ),
            ..self
        }
    }
}

/// The peers that some requests go to.
pub open spec fn asked_peers(requests: Seq<ProofRequest>) -> Seq<Seq<u8>> {
    requests.map_values(|request: ProofRequest| request.peer@)
}

/// The record that each peer is asked for in a list of requests.
pub open spec fn asked_records(requests: Seq<ProofRequest>) -> Map<Seq<u8>, usize> {
    Map::new(
        |peer: Seq<u8>| asked_peers(requests).contains(peer),
        |peer: Seq<u8>| requests[asked_peers(requests).index_of(peer)].record,
    )
}

/// Whether every byte string comes before those that follow it.
pub open spec fn ascending(peers: Seq<Seq<u8>>) -> bool {
    forall|i: int, j: int|
        0 <= i < j < peers.len() ==> before(#[trigger] peers[i], #[trigger] peers[j])
}

/// Nothing occurs twice in an ascending sequence.
proof fn lemma_ascending_once(peers: Seq<Seq<u8>>)
    requires
        ascending(peers),
    ensures
        peers.no_duplicates(),
{
    assert forall|i: int, j: int|
        0 <= i < peers.len() && 0 <= j < peers.len() && i != j implies peers[i] != peers[j] by {
        lemma_before_is_total(peers[i], peers[j]);
        lemma_before_is_total(peers[j], peers[i]);
    }
}

/// An ascending list of requests, with one more where it belongs.
proof fn lemma_insert_request(requests: Seq<ProofRequest>, at: int, request: ProofRequest)
    requires
        ascending(asked_peers(requests)),
        0 <= at <= requests.len(),
        forall|i: int| 0 <= i < at ==> before(#[trigger] asked_peers(requests)[i], request.peer@),
        at < requests.len() ==> before(request.peer@, asked_peers(requests)[at]),
    ensures
        ascending(asked_peers(requests.insert(at, request))),
        asked_records(requests.insert(at, request)) == asked_records(requests).insert(
            request.peer@,
            request.record,
        ),
{
    let longer_list = requests.insert(at, request);
    let (shorter, longer) = (asked_peers(requests), asked_peers(longer_list));
    assert(longer =~= shorter.insert(at, request.peer@));
    assert forall|i: int| at <= i < shorter.len() implies before(
        request.peer@,
        #[trigger] shorter[i],
    ) by {
        if at < i {
            lemma_before_is_transitive(request.peer@, shorter[at], shorter[i]);
        }
    }
    assert forall|i: int, j: int| 0 <= i < j < longer.len() implies before(
        #[trigger] longer[i],
        #[trigger] longer[j],
    ) by {
        let (p, q) = (if i < at { i } else { i - 1 }, if j < at { j } else { j - 1 });
        if i != at {
            assert(longer[i] == shorter[p]);
        }
        if j != at {
            assert(longer[j] == shorter[q]);
        }
    }
    lemma_ascending_once(shorter);
    lemma_ascending_once(longer);
    let (old_map, new_map) = (asked_records(requests), asked_records(longer_list));
    let expected = old_map.insert(request.peer@, request.record);
    assert(longer[at] == request.peer@);
    assert forall|peer: Seq<u8>| new_map.contains_key(peer) == expected.contains_key(peer) by {
        if longer.contains(peer) && peer != request.peer@ {
            let i = longer.index_of(peer);
            assert(shorter[if i < at { i } else { i - 1 }] == peer);
        }
        if shorter.contains(peer) {
            let i = shorter.index_of(peer);
            assert(longer[if i < at { i } else { i + 1 }] == peer);
        }
    }
    assert forall|peer: Seq<u8>| #[trigger] new_map.contains_key(peer) implies new_map[peer]
        == expected[peer] by {
        let i = longer.index_of(peer);
        assert(longer[i] == peer);
        if peer == request.peer@ {
            assert(i == at);
        } else {
            let k = if i < at { i } else { i - 1 };
            assert(shorter[k] == peer);
            assert(k == shorter.index_of(peer));
        }
    }
    assert(new_map =~= expected);
}

impl ProofRequests {
    /// The requests are ordered by the peers that they go to. No peer is asked twice.
    pub closed spec fn wf(&self) -> bool {
        ascending(asked_peers(self.requests@))
    }

    /// The state of the round.
    pub closed spec fn round(&self) -> Round {
        Round {
            close_group: peer_views(self.close_group@),
            our_peer_id: self.our_peer_id@,
            asked: asked_records(self.requests@),
        }
    }

    /// Starts a round in which nobody is asked yet.
    pub fn new(close_group: Vec<PeerId>, our_peer_id: PeerId) -> (requests: Self)
        ensures
            requests.wf(),
            requests.round() == (Round {
                close_group: peer_views(close_group@),
                our_peer_id: our_peer_id@,
                asked: Map::empty(),
            }),
    {
        let requests: ProofRequests = ProofRequests {
            close_group,
            our_peer_id,
            requests: Vec::new(),
        };
        assert(requests.round().asked =~= Map::empty());
        requests
    }

    /// Tells whether as many peers are asked as the close group has. No further record needs to
    /// be considered then.
    pub fn is_complete(&self) -> (complete: bool)
        requires
            self.wf(),
        ensures
            complete == self.round().complete(),
    {
        proof {
            let peers = asked_peers(self.requests@);
            lemma_ascending_once(peers);
            peers.unique_seq_to_set();
            assert(self.round().asked.dom() =~= peers.to_set());
        }
        self.requests.len() == self.close_group.len()
    }

    /// Considers a record, given the peers that are closest to it.
    pub fn add_record(&mut self, record: usize, closest: &[PeerId])
        requires
            old(self).wf(),
        ensures
            final(self).wf(),
            final(self).round() == old(self).round().add_record(record, peer_views(closest@)),
    {
        let ghost start = self.round();
        let ghost near = peer_views(closest@);
        let ghost group = start.close_group;
        let mut i: usize = 0;
        assert(group.take(0) =~= Seq::empty());
        assert(self.round() =~= considered(start, record, near, group.take(0)));
        while i < self.close_group.len()
            invariant
                self.wf(),
                i <= group.len(),
                group == self.round().close_group,
                group.len() == self.close_group@.len(),
                near == peer_views(closest@),
                start.close_group == group,
                self.round() == considered(start, record, near, group.take(i as int)),
            decreases group.len() - i,
        {
            let ghost before = self.round();
            let ghost requests = self.requests@;
            let peer: PeerId = self.close_group[i].clone();
            assert(peer@ == group[i as int]);
            assert(group.take(i + 1) =~= group.take(i as int).push(peer@));
            let ours: bool = peer.same_as(&self.our_peer_id);
            let close: bool = contains_peer(closest, &peer);
            let asked: bool = self.is_asked(&peer);
            if !ours && close && !asked {
                let ghost request = ProofRequest { peer, record };
                let at: usize = self.place_of(&peer);
                proof {
                    lemma_insert_request(requests, at as int, request);
                }
                self.requests.insert(at, ProofRequest { peer, record });
                assert(self.requests@ =~= requests.insert(at as int, request));
            }
            proof {
                assert forall|p: Seq<u8>| group.take(i + 1).contains(p) == (group.take(
                    i as int,
                ).contains(p) || p == peer@) by {
                    let (shorter, longer) = (group.take(i as int), group.take(i + 1));
                    if shorter.contains(p) {
                        let j = choose|j: int| 0 <= j < shorter.len() && shorter[j] == p;
                        assert(longer[j] == p);
                    }
                    assert(longer[i as int] == peer@);
                }
                assert(group.contains(peer@));
                assert(self.round().asked =~= considered(
                    start,
                    record,
                    near,
                    group.take(i + 1),
                ).asked);
            }
            i = i + 1;
        }
        proof {
            assert(group.take(group.len() as int) =~= group);
            assert(self.round().asked =~= start.add_record(record, near).asked);
        }
    }

    /// Tells whether a peer is asked already.
    fn is_asked(&self, peer: &PeerId) -> (found: bool)
        ensures
            found == asked_peers(self.requests@).contains(peer@),
            found == self.round().asked.contains_key(peer@),
    {
        let mut i: usize = 0;
        while i < self.requests.len()
            invariant
                i <= self.requests@.len(),
                forall|j: int| 0 <= j < i ==> asked_peers(self.requests@)[j] != peer@,
            decreases self.requests@.len() - i,
        {
            if self.requests[i].peer.same_as(peer) {
                assert(asked_peers(self.requests@)[i as int] == peer@);
                return true;
            }
            i = i + 1;
        }
        false
    }

    /// Where a request to a peer that is not asked yet belongs.
    fn place_of(&self, peer: &PeerId) -> (at: usize)
        requires
            self.wf(),
            !asked_peers(self.requests@).contains(peer@),
        ensures
            at <= self.requests@.len(),
            forall|i: int|
                0 <= i < at ==> before(#[trigger] asked_peers(self.requests@)[i], peer@),
            at < self.requests@.len() ==> before(
                peer@,
                asked_peers(self.requests@)[at as int],
            ),
    {
        let ghost peers = asked_peers(self.requests@);
        let mut i: usize = 0;
        while i < self.requests.len()
            invariant
                i <= self.requests@.len(),
                peers == asked_peers(self.requests@),
                !peers.contains(peer@),
                forall|j: int| 0 <= j < i ==> before(#[trigger] peers[j], peer@),
            decreases self.requests@.len() - i,
        {
            assert(peers[i as int] == self.requests@[i as int].peer@);
            if peer.comes_before(&self.requests[i].peer) {
                return i;
            }
            proof {
                lemma_before_is_total(peer@, peers[i as int]);
            }
            i = i + 1;
        }
        i
    }

    /// The requests of the round, ordered by the peers that they go to. Each peer gets one at
    /// most.
    pub fn into_requests(self) -> (requests: Vec<ProofRequest>)
        requires
            self.wf(),
        ensures
            ascending(asked_peers(requests@)),
            asked_peers(requests@).no_duplicates(),
            asked_records(requests@) == self.round().asked,
    {
        proof {
            lemma_ascending_once(asked_peers(self.requests@));
        }
        self.requests
    }
}

/// The round after `peers` of the close group were considered for a record.
spec fn considered(
    start: Round,
    record: usize,
    closest: Seq<Seq<u8>>,
    peers: Seq<Seq<u8>>,
) -> Round {
    Round {
        asked: Map::new(
            |peer: Seq<u8>|
                start.asked.contains_key(peer) || (peers.contains(peer) && start.eligible(peer)
                    && closest.contains(peer)),
            |peer: Seq<u8>|
                if start.asked.contains_key(peer) {
                    start.asked[peer]
                } else {
                    record
                },
        ),
        ..start
    }
}

/// The round after the records from position `i` on were considered one after the other, until
/// the round was complete. `closest[n]` holds the peers that are closest to record `n`.
pub open spec fn consider_from(round: Round, closest: Seq<Seq<Seq<u8>>>, i: int) -> Round
    decreases closest.len() - i,
{
    if i < 0 || i >= closest.len() || round.complete() {
        round
    } else {
        consider_from(round.add_record(i as usize, closest[i]), closest, i + 1)
    }
}

/// Whether a source can tell, for the first records one by one, that the peers in `answers` are
/// the closest to them.
pub open spec fn can_tell<E, F: Fn(usize) -> Result<Vec<PeerId>, E>>(
    closest: F,
    answers: Seq<Seq<Seq<u8>>>,
) -> bool {
    forall|i: int|
        0 <= i < answers.len() ==> can_tell_of(closest, i as usize, #[trigger] answers[i])
}

/// Whether a source can tell that `peers` are the closest to a record.
pub open spec fn can_tell_of<E, F: Fn(usize) -> Result<Vec<PeerId>, E>>(
    closest: F,
    record: usize,
    peers: Seq<Seq<u8>>,
) -> bool {
    exists|told: Vec<PeerId>|
        peer_views(told@) == peers && #[trigger] call_ensures(closest, (record,), Ok(told))
}

/// Decides who is asked for which record in a round. The node has `records` records, and
/// `closest` tells the peers that are closest to each. It is asked about one record after the
/// other, and about no more of them than needed; if it fails, there is no round. The requests
/// are ordered by the peers that they go to.
pub fn ask_for_proof<E, F: Fn(usize) -> Result<Vec<PeerId>, E>>(
    close_group: Vec<PeerId>,
    our_peer_id: PeerId,
    records: usize,
    closest: F,
) -> (result: Result<Vec<ProofRequest>, E>)
    requires
        forall|record: usize| record < records ==> call_requires(closest, (record,)),
    ensures
        ({
            let start = Round {
                close_group: peer_views(close_group@),
                our_peer_id: our_peer_id@,
                asked: Map::empty(),
            };
            match result {
                Ok(requests) => exists|answers: Seq<Seq<Seq<u8>>>|
                    {
                        let end = #[trigger] consider_from(start, answers, 0);
                        &&& can_tell(closest, answers)
                        &&& answers.len() <= records
                        &&& answers.len() == records || end.complete()
                        &&& answers.len() == records || requests@.len() == close_group@.len()
                        &&& ascending(asked_peers(requests@))
                        &&& asked_peers(requests@).no_duplicates()
                        &&& asked_records(requests@) == end.asked
                        &&& asks_exactly(
                            requests@,
                            peer_views(close_group@),
                            our_peer_id@,
                            answers,
                        )
                    },
                Err(error) => exists|answers: Seq<Seq<Seq<u8>>>|
                    {
                        let end = #[trigger] consider_from(start, answers, 0);
                        &&& can_tell(closest, answers)
                        &&& answers.len() < records
                        &&& !end.complete()
                        &&& call_ensures(closest, (answers.len() as usize,), Err(error))
                    },
            }
        }),
{
    let mut requests: ProofRequests = ProofRequests::new(close_group, our_peer_id);
    let ghost start = requests.round();
    let ghost mut answers: Seq<Seq<Seq<u8>>> = Seq::empty();
    let mut record: usize = 0;
    while record < records && !requests.is_complete()
        invariant
            start == (Round {
                close_group: peer_views(close_group@),
                our_peer_id: our_peer_id@,
                asked: Map::empty(),
            }),
            requests.wf(),
            record <= records,
            answers.len() == record,
            forall|i: usize| i < records ==> call_requires(closest, (i,)),
            can_tell(closest, answers),
            forall|more: Seq<Seq<Seq<u8>>>|
                answers.is_prefix_of(more) ==> #[trigger] consider_from(start, more, 0)
                    == consider_from(requests.round(), more, record as int),
        decreases records - record,
    {
        assert(consider_from(start, answers, 0) == requests.round());
        match closest(record) {
            Ok(peers) => {
                let ghost shorter = answers;
                requests.add_record(record, peers.as_slice());
                proof {
                    answers = shorter.push(peer_views(peers@));
                    assert(can_tell_of(closest, record, peer_views(peers@)));
                    assert forall|more: Seq<Seq<Seq<u8>>>|
                        answers.is_prefix_of(more) implies #[trigger] consider_from(start, more, 0)
                        == consider_from(requests.round(), more, record + 1) by {
                        assert(more[record as int] == answers[record as int]);
                        assert(shorter =~= more.take(record as int));
                    }
                }
                record = record + 1;
            },
            Err(error) => {
                return Err(error);
            },
        }
    }
    assert(consider_from(start, answers, 0) == requests.round());
    let ghost end = requests.round();
    let list: Vec<ProofRequest> = requests.into_requests();
    proof {
        requests_ask_what_the_round_asks(list@, start.close_group, start.our_peer_id, answers);
        asked_peers(list@).unique_seq_to_set();
        assert(end.asked.dom() =~= asked_peers(list@).to_set());
        round_asks_every_peer_it_can(start.close_group, start.our_peer_id, answers);
        assert(end.complete() ==> list@.len() == close_group@.len());
    }
    Ok(list)
}

/// Whether a list of requests goes to exactly those peers of a close group, other than this
/// node, that are among the closest to a record, and asks each for the first such record.
/// `closest[n]` holds the peers that are closest to record `n`.
pub open spec fn asks_exactly(
    requests: Seq<ProofRequest>,
    close_group: Seq<Seq<u8>>,
    our_peer_id: Seq<u8>,
    closest: Seq<Seq<Seq<u8>>>,
) -> bool {
    &&& forall|i: int|
        0 <= i < requests.len() ==> {
            let (peer, record) = ((#[trigger] requests[i]).peer@, requests[i].record as int);
            &&& close_group.contains(peer)
            &&& peer != our_peer_id
            &&& record < closest.len()
            &&& closest[record].contains(peer)
            &&& forall|j: int| 0 <= j < record ==> !(#[trigger] closest[j]).contains(peer)
        }
    &&& forall|peer: Seq<u8>, j: int|
        #![trigger closest[j], close_group.contains(peer)]
        close_group.contains(peer) && peer != our_peer_id && 0 <= j < closest.len()
            && closest[j].contains(peer) ==> exists|i: int|
            0 <= i < requests.len() && (#[trigger] requests[i]).peer@ == peer
}

/// The requests of a round go to every peer of the close group, other than this node, that is
/// among the closest to a record that was considered, and to no other. Each asks for the first
/// such record.
pub proof fn requests_ask_what_the_round_asks(
    requests: Seq<ProofRequest>,
    close_group: Seq<Seq<u8>>,
    our_peer_id: Seq<u8>,
    closest: Seq<Seq<Seq<u8>>>,
)
    requires
        closest.len() <= usize::MAX,
        asked_peers(requests).no_duplicates(),
        asked_records(requests) == consider_from(
            Round { close_group, our_peer_id, asked: Map::empty() },
            closest,
            0,
        ).asked,
    ensures
        forall|i: int|
            0 <= i < requests.len() ==> {
                let (peer, record) = ((#[trigger] requests[i]).peer@, requests[i].record as int);
                &&& close_group.contains(peer)
                &&& peer != our_peer_id
                &&& record < closest.len()
                &&& closest[record].contains(peer)
                &&& forall|j: int| 0 <= j < record ==> !(#[trigger] closest[j]).contains(peer)
            },
        forall|peer: Seq<u8>, j: int|
            #![trigger closest[j], close_group.contains(peer)]
            close_group.contains(peer) && peer != our_peer_id && 0 <= j < closest.len()
                && closest[j].contains(peer) ==> exists|i: int|
                0 <= i < requests.len() && (#[trigger] requests[i]).peer@ == peer,
        asks_exactly(requests, close_group, our_peer_id, closest),
{
    round_asks_every_peer_it_can(close_group, our_peer_id, closest);
    let asked = asked_records(requests);
    let peers = asked_peers(requests);
    assert forall|i: int| 0 <= i < requests.len() implies {
        let (peer, record) = ((#[trigger] requests[i]).peer@, requests[i].record as int);
        &&& close_group.contains(peer)
        &&& peer != our_peer_id
        &&& record < closest.len()
        &&& closest[record].contains(peer)
        &&& forall|j: int| 0 <= j < record ==> !(#[trigger] closest[j]).contains(peer)
    } by {
        requests_are_mapped_one_by_one(requests, i);
        assert(asked.contains_key(requests[i].peer@));
    }
    assert forall|peer: Seq<u8>, j: int|
        #![trigger closest[j], close_group.contains(peer)]
        close_group.contains(peer) && peer != our_peer_id && 0 <= j < closest.len()
            && closest[j].contains(peer) implies exists|i: int|
        0 <= i < requests.len() && (#[trigger] requests[i]).peer@ == peer by {
        assert(asked.contains_key(peer));
        let i = peers.index_of(peer);
        assert(peers[i] == peer);
        assert(requests[i].peer@ == peer);
    }
}

/// In a list of requests to different peers, each peer is asked for the record of its request,
/// and nobody else is asked.
pub proof fn requests_are_mapped_one_by_one(requests: Seq<ProofRequest>, i: int)
    requires
        asked_peers(requests).no_duplicates(),
        0 <= i < requests.len(),
    ensures
        asked_peers(requests).len() == requests.len(),
        asked_peers(requests)[i] == requests[i].peer@,
        asked_records(requests).contains_key(requests[i].peer@),
        asked_records(requests)[requests[i].peer@] == requests[i].record,
        forall|peer: Seq<u8>| #[trigger]
            asked_records(requests).contains_key(peer) ==> exists|k: int|
                0 <= k < requests.len() && (#[trigger] requests[k]).peer@ == peer,
{
    let peers = asked_peers(requests);
    assert(peers[i] == requests[i].peer@);
    let k = peers.index_of(requests[i].peer@);
    assert(peers[k] == peers[i]);
    assert forall|peer: Seq<u8>| #[trigger]
        asked_records(requests).contains_key(peer) implies exists|k: int|
        0 <= k < requests.len() && (#[trigger] requests[k]).peer@ == peer by {
        let k = choose|k: int| 0 <= k < peers.len() && peers[k] == peer;
        assert(requests[k].peer@ == peer);
    }
}

/// Considering a record asks exactly those peers on top of the ones asked before that are in the
/// close group, are not this node and are among the closest to the record; who was asked before
/// stays asked for the same record.
pub proof fn records_are_considered_for_the_closest(
    round: Round,
    record: usize,
    closest: Seq<Seq<u8>>,
    peer: Seq<u8>,
)
    ensures
        ({
            let after = round.add_record(record, closest);
            &&& after.close_group == round.close_group
            &&& after.our_peer_id == round.our_peer_id
            &&& round.asked.contains_key(peer) ==> after.asked.contains_key(peer)
                && after.asked[peer] == round.asked[peer]
            &&& !round.asked.contains_key(peer) ==> (after.asked.contains_key(peer)
                <==> round.close_group.contains(peer) && peer != round.our_peer_id
                && closest.contains(peer))
            &&& !round.asked.contains_key(peer) && after.asked.contains_key(peer)
                ==> after.asked[peer] == record
        }),
{
}

/// A round is complete exactly if as many peers are asked as the close group has entries, and
/// everybody in the group is asked then.
pub proof fn complete_rounds_ask_the_whole_group(round: Round)
    requires
        round.asked.dom().finite(),
        forall|peer: Seq<u8>| #[trigger]
            round.asked.contains_key(peer) ==> round.close_group.contains(peer),
    ensures
        round.complete() <==> round.asked.dom().len() == round.close_group.len(),
        round.complete() ==> forall|peer: Seq<u8>|
            round.close_group.contains(peer) ==> #[trigger] round.asked.contains_key(peer),
{
    if round.complete() {
        let (asked, group) = (round.asked.dom(), round.close_group.to_set());
        round.close_group.lemma_cardinality_of_set();
        vstd::seq_lib::seq_to_set_is_finite(round.close_group);
        assert forall|peer: Seq<u8>| asked.contains(peer) implies group.contains(peer) by {
            assert(round.asked.contains_key(peer));
        }
        vstd::set_lib::lemma_len_subset(asked, group);
        vstd::set_lib::lemma_subset_equality(asked, group);
        assert forall|peer: Seq<u8>|
            round.close_group.contains(peer) implies #[trigger] round.asked.contains_key(peer) by {
            assert(group.contains(peer));
        }
    }
}

/// What a source tells is what comes out of it: if it tells `known(n)` of record `n`, the answers
/// are those.
pub proof fn sources_are_believed<E, F: Fn(usize) -> Result<Vec<PeerId>, E>>(
    closest: F,
    answers: Seq<Seq<Seq<u8>>>,
    known: spec_fn(usize) -> Seq<Seq<u8>>,
)
    requires
        forall|record: usize, told: Vec<PeerId>| #[trigger]
            call_ensures(closest, (record,), Ok(told)) ==> peer_views(told@) == known(record),
        can_tell(closest, answers),
    ensures
        forall|i: int| 0 <= i < answers.len() ==> #[trigger] answers[i] == known(i as usize),
{
    assert forall|i: int| 0 <= i < answers.len() implies #[trigger] answers[i] == known(
        i as usize,
    ) by {
        assert(can_tell_of(closest, i as usize, answers[i]));
    }
}

/// In an ascending sequence every peer comes before those that follow it.
pub proof fn ascending_peers_come_in_order(peers: Seq<Seq<u8>>, i: int, j: int)
    requires
        ascending(peers),
        0 <= i < j < peers.len(),
    ensures
        before(peers[i], peers[j]),
        peers[i] != peers[j],
{
    lemma_ascending_once(peers);
}

/// The identities of peers are those of each peer, in the same order.
pub proof fn views_of_peers_are_complete(peers: Seq<PeerId>)
    ensures
        peer_views(peers).len() == peers.len(),
        forall|i: int| 0 <= i < peers.len() ==> #[trigger] peer_views(peers)[i] == peers[i]@,
{
}

/// Three pauses make a minute.
pub proof fn three_pauses_make_a_minute()
    ensures
        3 * PERIODIC_CHECK_DELAY_SECS == 60,
{
}

/// Whether `i` is the position of the first record that a peer is among the closest to.
pub open spec fn is_first(closest: Seq<Seq<Seq<u8>>>, peer: Seq<u8>, i: int) -> bool {
    &&& 0 <= i < closest.len()
    &&& closest[i].contains(peer)
    &&& forall|j: int| 0 <= j < i ==> !(#[trigger] closest[j]).contains(peer)
}

/// Whether exactly the eligible peers that are among the closest to one of the first `n`
/// records are asked, each for the first such record.
pub open spec fn asks_for_first(round: Round, closest: Seq<Seq<Seq<u8>>>, n: int) -> bool {
    &&& forall|peer: Seq<u8>| #[trigger]
        round.asked.contains_key(peer) ==> round.eligible(peer) && is_first(
            closest.take(n),
            peer,
            round.asked[peer] as int,
        )
    &&& forall|peer: Seq<u8>, j: int|
        round.eligible(peer) && 0 <= j < n && (#[trigger] closest[j]).contains(peer)
            ==> #[trigger] round.asked.contains_key(peer)
}

/// A round asks exactly those peers of the close group, other than this node, that are among
/// the closest to some record, and asks each for the first such record: that a round ends as
/// soon as it is complete loses nothing.
pub proof fn round_asks_every_peer_it_can(
    close_group: Seq<Seq<u8>>,
    our_peer_id: Seq<u8>,
    closest: Seq<Seq<Seq<u8>>>,
)
    requires
        closest.len() <= usize::MAX,
    ensures
        asks_for_first(
            consider_from(
                Round { close_group, our_peer_id, asked: Map::empty() },
                closest,
                0,
            ),
            closest,
            closest.len() as int,
        ),
        ({
            let end = consider_from(
                Round { close_group, our_peer_id, asked: Map::empty() },
                closest,
                0,
            );
            let asked = end.asked;
            &&& end.close_group == close_group
            &&& end.our_peer_id == our_peer_id
            &&& forall|peer: Seq<u8>| #[trigger]
                asked.contains_key(peer) <==> close_group.contains(peer) && peer != our_peer_id
                    && exists|j: int|
                    0 <= j < closest.len() && (#[trigger] closest[j]).contains(peer)
            &&& forall|peer: Seq<u8>| #[trigger]
                asked.contains_key(peer) ==> asked[peer] < closest.len()
                    && closest[asked[peer] as int].contains(peer)
            &&& forall|peer: Seq<u8>, j: int|
                #[trigger] asked.contains_key(peer) && 0 <= j < asked[peer] ==> !(
                #[trigger] closest[j]).contains(peer)
        }),
{
    let start = Round { close_group, our_peer_id, asked: Map::empty() };
    lemma_consider_from(start, closest, 0);
    let end = consider_from(start, closest, 0);
    assert(closest.take(closest.len() as int) =~= closest);
    assert forall|peer: Seq<u8>| #[trigger]
        end.asked.contains_key(peer) <==> close_group.contains(peer) && peer != our_peer_id
            && exists|j: int| 0 <= j < closest.len() && (#[trigger] closest[j]).contains(peer) by {
        if end.asked.contains_key(peer) {
            assert(is_first(closest, peer, end.asked[peer] as int));
            assert(closest[end.asked[peer] as int].contains(peer));
        }
        if close_group.contains(peer) && peer != our_peer_id && exists|j: int|
            0 <= j < closest.len() && (#[trigger] closest[j]).contains(peer) {
            let j = choose|j: int| 0 <= j < closest.len() && (#[trigger] closest[j]).contains(peer);
            assert(end.eligible(peer));
            assert(closest[j].contains(peer));
        }
    }
}

proof fn lemma_consider_from(round: Round, closest: Seq<Seq<Seq<u8>>>, i: int)
    requires
        closest.len() <= usize::MAX,
        0 <= i <= closest.len(),
        asks_for_first(round, closest, i),
    ensures
        asks_for_first(consider_from(round, closest, i), closest, closest.len() as int),
        consider_from(round, closest, i).close_group == round.close_group,
        consider_from(round, closest, i).our_peer_id == round.our_peer_id,
    decreases closest.len() - i,
{
    let n = closest.len() as int;
    if i == n {
    } else if round.complete() {
        let (asked, group) = (round.asked.dom(), round.close_group.to_set());
        round.close_group.lemma_cardinality_of_set();
        vstd::seq_lib::seq_to_set_is_finite(round.close_group);
        assert(asked.subset_of(group));
        vstd::set_lib::lemma_len_subset(asked, group);
        vstd::set_lib::lemma_subset_equality(asked, group);
        assert forall|peer: Seq<u8>| #[trigger] round.asked.contains_key(peer) implies is_first(
            closest.take(n),
            peer,
            round.asked[peer] as int,
        ) by {
            lemma_first_in_longer(closest, peer, round.asked[peer] as int, i, n);
        }
        assert forall|peer: Seq<u8>, j: int|
            round.eligible(peer) && 0 <= j < n && (#[trigger] closest[j]).contains(
                peer,
            ) implies #[trigger] round.asked.contains_key(peer) by {
            assert(group.contains(peer));
        }
    } else {
        let next = round.add_record(i as usize, closest[i]);
        assert forall|peer: Seq<u8>| #[trigger]
            next.asked.contains_key(peer) implies next.eligible(peer) && is_first(
            closest.take(i + 1),
            peer,
            next.asked[peer] as int,
        ) by {
            if round.asked.contains_key(peer) {
                lemma_first_in_longer(closest, peer, round.asked[peer] as int, i, i + 1);
            } else {
                assert forall|j: int| 0 <= j < i implies !(#[trigger] closest.take(
                    i + 1,
                )[j]).contains(peer) by {
                    assert(round.eligible(peer));
                    assert(closest.take(i + 1)[j] == closest[j]);
                }
            }
        }
        assert forall|peer: Seq<u8>, j: int|
            next.eligible(peer) && 0 <= j < i + 1 && (#[trigger] closest[j]).contains(
                peer,
            ) implies #[trigger] next.asked.contains_key(peer) by {
            assert(round.eligible(peer));
            if j < i {
                assert(round.asked.contains_key(peer));
            }
        }
        lemma_consider_from(next, closest, i + 1);
    }
}

/// The first record of some is the first of more.
proof fn lemma_first_in_longer(
    closest: Seq<Seq<Seq<u8>>>,
    peer: Seq<u8>,
    first: int,
    n: int,
    longer: int,
)
    requires
        0 <= n <= longer <= closest.len(),
        is_first(closest.take(n), peer, first),
    ensures
        is_first(closest.take(longer), peer, first),
{
    assert forall|j: int| 0 <= j < first implies !(#[trigger] closest.take(longer)[j]).contains(
        peer,
    ) by {
        assert(closest.take(longer)[j] == closest.take(n)[j]);
    }
    assert(closest.take(longer)[first] == closest.take(n)[first]);
}

} // verus!
