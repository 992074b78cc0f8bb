use safe_node::bytes::{bytes_before, bytes_equal, bytes_from};
use safe_node::chunk::Chunk;
use safe_node::header::{ProtocolError, RecordHeader, RecordKind};
use safe_node::key_set::KeySet;
use safe_node::keyspace::{Distance, KBucketKey};
use safe_node::record::{Key, Record};
use safe_node::spend::{compare_with_local, name_of_spend, LocalSpend};

#[test]
fn headers_are_encoded_in_four_bytes() {
    let encodings = [
        (RecordKind::Chunk, [0u8, 0, 0, 0]),
        (RecordKind::DbcSpend, [1, 0, 0, 0]),
        (RecordKind::Register, [2, 0, 0, 0]),
    ];
    assert_eq!(RecordHeader::SIZE, 4);
    for (kind, bytes) in encodings {
        let header = RecordHeader { kind };
        assert_eq!(header.serialize(), Ok(bytes.to_vec()));
        assert_eq!(RecordHeader::deserialize(&bytes), Ok(header));
        let mut longer = bytes.to_vec();
        longer.extend([7, 8, 9]);
        assert_eq!(RecordHeader::deserialize(&longer), Ok(header));
    }
}

#[test]
fn other_bytes_are_no_header() {
    let refused: [&[u8]; 6] = [
        &[],
        &[0],
        &[0, 0, 0],
        &[3, 0, 0, 0],
        &[0, 1, 0, 0],
        &[1, 0, 0, 128, 0],
    ];
    for bytes in refused {
        assert_eq!(
            RecordHeader::deserialize(bytes),
            Err(ProtocolError::FailedToDeserializeRecordHeader)
        );
    }
}

#[test]
fn chunks_survive_being_records() {
    for content in [vec![], vec![5], b"hello world".to_vec()] {
        let record = Record::try_from(Chunk::new(content.clone())).unwrap();
        assert_eq!(record.value[..4], [0, 0, 0, 0]);
        assert_eq!(record.value[4..], content[..]);
        assert_eq!(record.publisher, None);
        assert_eq!(record.expires, None);
        let name = xor_name::XorName::from_content(&content);
        assert_eq!(record.key.as_bytes(), &name.0[..]);
        let chunk = Chunk::try_from(record).unwrap();
        assert_eq!(chunk.value(), &content[..]);
        assert_eq!(chunk.name().as_bytes(), &name.0[..]);
    }
}

#[test]
fn other_records_are_no_chunks() {
    for value in [vec![], vec![0, 0, 0], vec![1, 0, 0, 0, 9], vec![2, 0, 0, 0]] {
        let result = Chunk::try_from(Record::new(Key::new(&[1]), value));
        assert_eq!(
            result.err(),
            Some(ProtocolError::FailedToDeserializeRecordHeader)
        );
    }
}

#[test]
fn distances_are_those_of_the_network() {
    let preimages: [&[u8]; 4] = [&[], &[1], &[2, 3], b"a longer preimage"];
    for a in preimages {
        let outside_a = libp2p::kad::KBucketKey::from(a.to_vec());
        let inside_a = KBucketKey::new(a.to_vec());
        assert_eq!(inside_a.hashed_bytes(), outside_a.hashed_bytes());
        for b in preimages {
            let outside = outside_a.distance(&libp2p::kad::KBucketKey::from(b.to_vec()));
            let inside_b = KBucketKey::new(b.to_vec());
            let inside = inside_a.distance(&inside_b);
            assert_eq!(inside.bytes, outside.0.to_big_endian());
            assert_eq!(inside, inside_b.distance(&inside_a));
            assert_eq!(inside.bytes == [0; 32], a == b);
        }
    }
    // The SHA-256 digest of nothing.
    assert_eq!(
        KBucketKey::new(vec![]).hashed_bytes()[..4],
        [0xe3, 0xb0, 0xc4, 0x42]
    );
}

#[test]
fn distances_are_ordered_as_numbers() {
    let distance = |first: u8, last: u8| {
        let mut bytes = [0; 32];
        bytes[0] = first;
        bytes[31] = last;
        Distance { bytes }
    };
    assert!(distance(0, 1).is_less_than(&distance(0, 2)));
    assert!(distance(0, 255).is_less_than(&distance(1, 0)));
    assert!(!distance(1, 0).is_less_than(&distance(0, 255)));
    assert!(!distance(3, 3).is_less_than(&distance(3, 3)));
}

#[test]
fn key_sets_hold_each_key_once() {
    let mut set = KeySet::new();
    assert_eq!(set.len(), 0);
    for byte in [1u8, 2, 1, 3, 2] {
        set.insert(Key::new(&[byte]));
    }
    assert_eq!(set.len(), 3);
    set.remove(&Key::new(&[2]));
    set.remove(&Key::new(&[9]));
    assert_eq!(set.len(), 2);
    assert!(set.contains(&Key::new(&[1])) && !set.contains(&Key::new(&[2])));
    assert_eq!(set.as_slice().len(), 2);
}

#[test]
fn byte_strings() {
    assert!(bytes_equal(&[], &[]));
    assert!(bytes_equal(&[1, 2], &[1, 2]));
    assert!(!bytes_equal(&[1, 2], &[1, 3]));
    assert!(!bytes_equal(&[1, 2], &[1, 2, 3]));
    let strings: [&[u8]; 6] = [&[], &[0], &[0, 5], &[1], &[1, 0, 0], &[2]];
    for a in strings {
        for b in strings {
            assert_eq!(bytes_before(a, b), a < b);
        }
    }
    assert_eq!(bytes_from(&[1, 2, 3], 1), vec![2, 3]);
    assert_eq!(bytes_from(&[1, 2, 3], 3), Vec::<u8>::new());
}

fn encoded_spend(secret: &sn_dbc::blsttc::SecretKey, amount: u64) -> Vec<u8> {
    let spend = sn_dbc::Spend {
        dbc_id: sn_dbc::DbcId::new(secret.public_key()),
        spent_tx: sn_dbc::DbcTransaction::empty(),
        reason: sn_dbc::Hash::default(),
        token: sn_dbc::Token::from_nano(amount),
        dbc_creation_tx: sn_dbc::DbcTransaction::empty(),
    };
    let derived_key_sig = secret.sign(spend.to_bytes());
    bincode::serialize(&sn_dbc::SignedSpend {
        spend,
        derived_key_sig,
    })
    .unwrap()
}

#[test]
fn spends_are_named_by_the_certificate() {
    let secret = sn_dbc::blsttc::SecretKey::random();
    let id = sn_dbc::DbcId::new(secret.public_key()).to_bytes();
    let name = xor_name::XorName::from_content(&id);
    for amount in [1, 2] {
        let named = name_of_spend(&encoded_spend(&secret, amount)).unwrap();
        assert_eq!(named.as_bytes(), &name.0[..]);
    }
    assert!(name_of_spend(&[]).is_none());
    assert!(name_of_spend(&[0xff; 300]).is_none());
}

#[test]
fn spends_are_compared_by_what_they_say() {
    let secret = sn_dbc::blsttc::SecretKey::random();
    let (one, two) = (encoded_spend(&secret, 1), encoded_spend(&secret, 2));
    let mut padded = one.clone();
    padded.push(0);
    assert_eq!(compare_with_local(&one, None), LocalSpend::Missing);
    assert_eq!(
        compare_with_local(&one, Some(&one[..20])),
        LocalSpend::Unreadable
    );
    assert_eq!(compare_with_local(&one, Some(&one)), LocalSpend::Same);
    assert_eq!(compare_with_local(&one, Some(&padded)), LocalSpend::Same);
    assert_eq!(compare_with_local(&one, Some(&two)), LocalSpend::Different);
}
