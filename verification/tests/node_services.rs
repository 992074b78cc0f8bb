use safe_node::daemon::{restart_response, run, StatusCode, DAEMON_SERVICE_NAME, PORT};
use safe_node::decimal::{to_decimal, to_dotted};
use safe_node::fault_detection::{ask_for_proof, PeerId, ProofRequests};
use std::cell::Cell;
use std::collections::BTreeMap;
use std::path::PathBuf;

fn peers(ids: &[u8]) -> Vec<PeerId> {
    ids.iter().map(|id| PeerId::from_bytes(&[*id])).collect()
}

/// The outcome of a round: who is asked for which record, and how many records were looked at.
fn round(group: &[u8], ours: u8, closest: &[&[u8]]) -> (BTreeMap<u8, usize>, usize) {
    let looked_at = Cell::new(0);
    let list = ask_for_proof(
        peers(group),
        PeerId::from_bytes(&[ours]),
        closest.len(),
        |record| {
            assert_eq!(record, looked_at.get());
            looked_at.set(record + 1);
            Ok::<Vec<PeerId>, ()>(peers(closest[record]))
        },
    )
    .unwrap();
    let asked: BTreeMap<u8, usize> = list
        .iter()
        .map(|request| (request.peer.to_bytes()[0], request.record))
        .collect();
    assert_eq!(asked.len(), list.len());
    (asked, looked_at.get())
}

#[test]
fn each_peer_is_asked_for_its_first_record() {
    let (asked, looked_at) = round(&[1, 2, 3, 9], 9, &[&[2, 7], &[1, 2], &[8], &[1, 2, 3]]);
    assert_eq!(asked, BTreeMap::from([(1, 1), (2, 0), (3, 3)]));
    assert_eq!(looked_at, 4);
}

#[test]
fn this_node_and_strangers_are_not_asked() {
    let (asked, _) = round(&[1, 9], 9, &[&[9, 5, 6], &[9]]);
    assert!(asked.is_empty());
}

#[test]
fn a_complete_round_ends() {
    let (asked, looked_at) = round(&[1, 2], 9, &[&[1], &[2], &[1, 2], &[2]]);
    assert_eq!(asked, BTreeMap::from([(1, 0), (2, 1)]));
    assert_eq!(looked_at, 2);
    assert_eq!(round(&[], 9, &[&[1]]), (BTreeMap::new(), 0));
}

#[test]
fn a_round_fails_if_the_closest_peers_are_unknown() {
    let failing = |record: usize| {
        if record < 2 {
            Ok(peers(&[1]))
        } else {
            Err(record)
        }
    };
    let start = |group: &[u8], records: usize| {
        ask_for_proof(peers(group), PeerId::from_bytes(&[9]), records, failing)
    };
    assert_eq!(start(&[1, 2], 4).err(), Some(2));
    assert_eq!(start(&[1, 2], 2).unwrap().len(), 1);
    assert_eq!(start(&[1], 4).unwrap().len(), 1);
}

#[test]
fn a_round_goes_record_by_record() {
    let mut requests = ProofRequests::new(peers(&[1, 2]), PeerId::from_bytes(&[2]));
    assert!(!requests.is_complete());
    requests.add_record(5, &peers(&[2, 1]));
    requests.add_record(6, &peers(&[1]));
    assert!(!requests.is_complete());
    let list = requests.into_requests();
    assert_eq!(list.len(), 1);
    assert!(list[0].peer.same_as(&PeerId::from_bytes(&[1])));
    assert_eq!(list[0].record, 5);
}

#[test]
fn requests_are_ordered_by_peer() {
    let ids: [&[u8]; 5] = [&[7], &[2, 9], &[2], &[200], &[2, 3, 4]];
    let group: Vec<PeerId> = ids.iter().map(|id| PeerId::from_bytes(id)).collect();
    let list = ask_for_proof(group.clone(), PeerId::from_bytes(&[1]), 3, |_| {
        Ok::<Vec<PeerId>, ()>(group.clone())
    })
    .unwrap();
    let asked: Vec<(Vec<u8>, usize)> = list
        .iter()
        .map(|request| (request.peer.to_bytes(), request.record))
        .collect();
    let mut expected: Vec<Vec<u8>> = ids.iter().map(|id| id.to_vec()).collect();
    expected.sort();
    let peers: Vec<Vec<u8>> = asked.iter().map(|(peer, _)| peer.clone()).collect();
    assert_eq!(peers, expected);
    assert!(asked.iter().all(|(_, record)| *record == 0));
    assert!(PeerId::from_bytes(&[2]).comes_before(&PeerId::from_bytes(&[2, 0])));
    assert!(!PeerId::from_bytes(&[2]).comes_before(&PeerId::from_bytes(&[2])));

    // The order is that of the network's own identities.
    let mut random: Vec<libp2p::PeerId> = (0..20).map(|_| libp2p::PeerId::random()).collect();
    let group: Vec<PeerId> = random
        .iter()
        .map(|peer| PeerId::from_bytes(&peer.to_bytes()))
        .collect();
    let list = ask_for_proof(group.clone(), PeerId::from_bytes(&[1]), 1, |_| {
        Ok::<Vec<PeerId>, ()>(group.clone())
    })
    .unwrap();
    random.sort();
    let asked: Vec<Vec<u8>> = list.iter().map(|request| request.peer.to_bytes()).collect();
    let expected: Vec<Vec<u8>> = random.iter().map(|peer| peer.to_bytes()).collect();
    assert_eq!(asked, expected);
}

#[test]
fn a_group_with_repetitions_is_asked_once() {
    let (asked, looked_at) = round(&[1, 1, 2], 9, &[&[1], &[1, 2], &[1]]);
    assert_eq!(asked, BTreeMap::from([(1, 0), (2, 1)]));
    assert_eq!(looked_at, 3);
}

#[test]
fn the_daemon_is_told_where_to_listen() {
    let plan = run([127, 0, 0, 1], PORT, PathBuf::from("/usr/bin/daemon")).unwrap();
    assert_eq!(plan.service_name, "safenode-manager-daemon");
    assert_eq!(plan.service_name, DAEMON_SERVICE_NAME);
    let ctx = plan.install_ctx;
    assert_eq!(ctx.label.qualifier, None);
    assert_eq!(ctx.label.organization, None);
    assert_eq!(ctx.label.application, "safenode-manager-daemon");
    assert_eq!(ctx.program, PathBuf::from("/usr/bin/daemon"));
    assert_eq!(ctx.args, ["--port", "12500", "--address", "127.0.0.1"]);
    assert_eq!(ctx.contents, None);
    assert_eq!(ctx.username, None);
    assert_eq!(ctx.working_directory, None);
    assert_eq!(ctx.environment, None);
}

#[test]
fn numbers_and_addresses_as_text() {
    for n in [0u16, 9, 10, 99, 100, 1000, 12500, 65535] {
        assert_eq!(to_decimal(n), n.to_string());
    }
    assert_eq!(to_dotted([0, 10, 200, 255]), "0.10.200.255");
}

#[test]
fn failed_restarts_are_reported() {
    assert!(restart_response(Ok(())).is_ok());
    let status = restart_response(Err("no such node".to_string())).unwrap_err();
    assert_eq!(status.code, StatusCode::Internal);
    assert_eq!(status.message, "Failed to stop the node: no such node");
}
