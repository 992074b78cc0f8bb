use libp2p::multihash::Multihash;
use libp2p::kad::RecordKey;
use libp2p::PeerId;
use quickcheck::{Arbitrary, Gen};
use safe_node::chunk::Chunk;
use safe_node::config::{
    DiskBackedRecordStoreConfig, REPLICATION_INTERVAL_LOWER_BOUND,
    REPLICATION_INTERVAL_UPPER_BOUND,
};
use safe_node::content::{examine, RecordContent};
use safe_node::header::{RecordHeader, RecordKind};
use safe_node::keyspace::{Distance, KBucketKey};
use safe_node::record::{Key, Record};
use safe_node::records_iterator::{RecordsIterator, RecordsStep};
use safe_node::spend::LocalSpend;
use safe_node::steps::{Error, OverwriteStep, PutStep};
use safe_node::store::DiskBackedRecordStore;
use std::collections::{HashMap, HashSet};
use std::path::PathBuf;

const MULTIHASH_CODE: u64 = 0x12;

/// A store with its directory, kept in memory.
struct Disk {
    store: DiskBackedRecordStore,
    files: HashMap<String, Vec<u8>>,
    broken: bool,
}

impl Disk {
    fn new() -> Disk {
        Disk::around(DiskBackedRecordStore::new(
            PeerId::random().to_bytes(),
            PathBuf::from("records"),
        ))
    }

    fn with_limits(max_records: usize, max_value_bytes: usize) -> Disk {
        Disk::around(DiskBackedRecordStore::with_config(
            vec![1, 2, 3],
            DiskBackedRecordStoreConfig {
                storage_dir: PathBuf::from("records"),
                max_records,
                max_value_bytes,
                replication_interval: REPLICATION_INTERVAL_LOWER_BOUND,
            },
        ))
    }

    fn around(store: DiskBackedRecordStore) -> Disk {
        Disk {
            store,
            files: HashMap::new(),
            broken: false,
        }
    }

    fn put(&mut self, record: Record) -> Result<(), Error> {
        let mut step = self.store.put(record);
        loop {
            step = match step {
                PutStep::Done { result } => return result,
                PutStep::ReadLocal { file, record } => {
                    DiskBackedRecordStore::put_local_read(record, self.files.get(&file).cloned())
                }
                PutStep::Write { key, file, value } => {
                    if !self.broken {
                        self.files.insert(file, value);
                    }
                    return self.store.put_written(key, !self.broken);
                }
            };
        }
    }

    fn get(&self, key: &Key) -> Option<Record> {
        let file = self.store.get(key)?;
        DiskBackedRecordStore::read_from_disk(key, self.files.get(&file).cloned())
    }

    fn remove(&mut self, key: &Key) {
        let file = self.store.remove(key);
        self.files.remove(&file);
    }
}

#[derive(Clone, Debug)]
struct ArbitraryKey(Key);

#[derive(Clone, Debug)]
struct ArbitraryRecord(Record);

impl Arbitrary for ArbitraryKey {
    fn arbitrary(g: &mut Gen) -> ArbitraryKey {
        let hash: [u8; 32] = std::array::from_fn(|_| u8::arbitrary(g));
        let multihash: Multihash<64> =
            Multihash::wrap(MULTIHASH_CODE, &hash).expect("Failed to gen MultiHash");
        ArbitraryKey(Key::new(RecordKey::from(multihash).as_ref()))
    }
}

impl Arbitrary for ArbitraryRecord {
    fn arbitrary(g: &mut Gen) -> ArbitraryRecord {
        let record = Record {
            key: ArbitraryKey::arbitrary(g).0,
            value: Vec::arbitrary(g),
            publisher: None,
            expires: None,
        };
        ArbitraryRecord(record)
    }
}

#[test]
fn put_get_remove_record() {
    fn prop(r: ArbitraryRecord) {
        let r = r.0;
        let mut store = Disk::new();
        assert!(store.put(r.clone()).is_ok());
        assert_eq!(Some(r.clone()), store.get(&r.key));
        store.remove(&r.key);
        assert!(store.get(&r.key).is_none());
    }
    quickcheck::quickcheck(prop as fn(_))
}

fn key(bytes: &[u8]) -> Key {
    Key::new(bytes)
}

fn register(id: u8, data: u8) -> Record {
    Record::new(key(&[id]), vec![2, 0, 0, 0, data])
}

/// The value of the record of a spend, and the key that it belongs under.
fn spend(secret: &sn_dbc::blsttc::SecretKey, amount: u64) -> Record {
    let dbc_id = sn_dbc::DbcId::new(secret.public_key());
    let spend = sn_dbc::Spend {
        dbc_id,
        spent_tx: sn_dbc::DbcTransaction::empty(),
        reason: sn_dbc::Hash::default(),
        token: sn_dbc::Token::from_nano(amount),
        dbc_creation_tx: sn_dbc::DbcTransaction::empty(),
    };
    let derived_key_sig = secret.sign(spend.to_bytes());
    let signed = sn_dbc::SignedSpend {
        spend,
        derived_key_sig,
    };
    let mut value = vec![1, 0, 0, 0];
    value.extend(bincode::serialize(&signed).unwrap());
    let name = xor_name::XorName::from_content(&dbc_id.to_bytes());
    Record::new(key(&name.0), value)
}

#[test]
fn new_store_has_the_default_configuration() {
    let dir = PathBuf::from("somewhere");
    for _ in 0..50 {
        let config = DiskBackedRecordStoreConfig::default_in(dir.clone());
        assert_eq!(config.storage_dir, dir);
        assert_eq!(config.max_records, 1024);
        assert_eq!(config.max_value_bytes, 65 * 1024);
        assert!(config.replication_interval >= REPLICATION_INTERVAL_LOWER_BOUND);
        assert!(config.replication_interval < REPLICATION_INTERVAL_UPPER_BOUND);
    }
    let intervals: HashSet<u128> = (0..20)
        .map(|_| DiskBackedRecordStoreConfig::default_in(dir.clone()).replication_interval)
        .collect();
    assert!(intervals.len() > 1);
    assert_eq!(
        DiskBackedRecordStore::new(vec![7], dir.clone()).storage_dir(),
        dir
    );
    assert_eq!(
        DiskBackedRecordStoreConfig::with_interval(dir, 77).replication_interval,
        77
    );
    assert_eq!(REPLICATION_INTERVAL_LOWER_BOUND, 180 * 1_000_000_000);
    assert_eq!(REPLICATION_INTERVAL_UPPER_BOUND, 540 * 1_000_000_000);
}

#[test]
fn files_are_named_by_keys_in_hex() {
    assert_eq!(
        DiskBackedRecordStore::key_to_hex(&key(&[0x00, 0x0f, 0xa0, 0xff, 0x3c])),
        "000fa0ff3c"
    );
    assert_eq!(DiskBackedRecordStore::key_to_hex(&key(&[])), "");
    let every: Vec<u8> = (0..=255).collect();
    let expected: String = every.iter().map(|byte| format!("{:02x}", byte)).collect();
    assert_eq!(DiskBackedRecordStore::key_to_hex(&key(&every)), expected);
}

#[test]
fn large_values_are_refused() {
    let mut disk = Disk::with_limits(10, 8);
    let too_large = Record::new(key(&[1]), vec![2, 0, 0, 0, 9, 9, 9, 9, 9]);
    assert_eq!(disk.put(too_large), Err(Error::ValueTooLarge));
    assert!(disk.files.is_empty());
    let fits = Record::new(key(&[1]), vec![2, 0, 0, 0, 9, 9, 9, 9]);
    assert_eq!(disk.put(fits.clone()), Ok(()));
    assert_eq!(disk.get(&fits.key), Some(fits));
}

#[test]
fn a_full_store_refuses_records() {
    let mut disk = Disk::with_limits(2, 1024);
    assert_eq!(disk.put(register(1, 0)), Ok(()));
    assert_eq!(disk.put(register(2, 0)), Ok(()));
    assert_eq!(disk.put(register(3, 0)), Err(Error::MaxRecords));
    assert_eq!(disk.put(register(1, 0)), Err(Error::MaxRecords));
    assert_eq!(disk.files.len(), 2);
    disk.remove(&key(&[1]));
    assert_eq!(disk.put(register(3, 0)), Ok(()));
    // The size is looked at first.
    assert_eq!(
        disk.put(Record::new(key(&[9]), vec![0; 1025])),
        Err(Error::ValueTooLarge)
    );
    assert_eq!(
        disk.put(Record::new(key(&[9]), vec![0; 1024])),
        Err(Error::MaxRecords)
    );
}

#[test]
fn chunks_are_stored_under_their_name() {
    let mut disk = Disk::new();
    let chunk = Record::try_from(Chunk::new(b"hello world".to_vec())).unwrap();
    assert_eq!(disk.put(chunk.clone()), Ok(()));
    assert_eq!(disk.get(&chunk.key), Some(chunk.clone()));
    let file = "644bcc7e564373040999aac89e7622f3ca71fba1d972fd94a31c3bfbf24e3938";
    assert_eq!(disk.files.get(file), Some(&chunk.value));

    let misfiled = Record::new(key(&[5; 32]), chunk.value);
    assert_eq!(disk.put(misfiled.clone()), Ok(()));
    assert_eq!(disk.get(&misfiled.key), None);
    assert_eq!(disk.files.len(), 1);
}

#[test]
fn chunks_and_registers_overwrite_nothing() {
    let mut disk = Disk::new();
    assert_eq!(disk.put(register(1, 7)), Ok(()));
    assert_eq!(disk.put(register(1, 8)), Ok(()));
    assert_eq!(disk.get(&key(&[1])), Some(register(1, 7)));

    let chunk = Record::try_from(Chunk::new(vec![1, 2, 3])).unwrap();
    let squatter = Record::new(chunk.key.clone(), vec![9, 9, 9, 9]);
    assert_eq!(disk.put(squatter.clone()), Ok(()));
    assert_eq!(disk.put(chunk.clone()), Ok(()));
    assert_eq!(disk.get(&chunk.key), Some(squatter));
}

#[test]
fn publisher_and_expiry_are_not_kept() {
    let mut disk = Disk::new();
    let mut record = register(1, 7);
    record.publisher = Some(PeerId::random().to_bytes());
    record.expires = Some(std::time::Instant::now());
    assert_eq!(disk.put(record.clone()), Ok(()));
    assert_eq!(disk.get(&record.key), Some(register(1, 7)));
}

#[test]
fn spends_are_stored_under_their_name() {
    let secret = sn_dbc::blsttc::SecretKey::random();
    let record = spend(&secret, 10);
    let mut disk = Disk::new();
    let misfiled = Record::new(key(&[3; 32]), record.value.clone());
    assert_eq!(disk.put(misfiled.clone()), Ok(()));
    assert_eq!(disk.get(&misfiled.key), None);
    let garbled = Record::new(record.key.clone(), vec![1, 0, 0, 0, 1, 2, 3]);
    assert_eq!(disk.put(garbled), Ok(()));
    assert_eq!(disk.get(&record.key), None);
    assert_eq!(disk.put(record.clone()), Ok(()));
    assert_eq!(disk.get(&record.key), Some(record));
}

#[test]
fn only_double_spends_are_written_over_spends() {
    let secret = sn_dbc::blsttc::SecretKey::random();
    let (first, second) = (spend(&secret, 10), spend(&secret, 11));
    assert_eq!(first.key, second.key);
    let mut disk = Disk::new();
    assert_eq!(disk.put(first.clone()), Ok(()));

    // The same spend again, once as it was and once with bytes behind it.
    assert_eq!(disk.put(first.clone()), Ok(()));
    let mut padded = first.clone();
    padded.value.push(0);
    assert_eq!(disk.put(padded), Ok(()));
    assert_eq!(disk.get(&first.key), Some(first.clone()));

    assert_eq!(disk.put(second.clone()), Ok(()));
    assert_eq!(disk.get(&first.key), Some(second.clone()));

    // A stored spend that is gone or garbled is left alone.
    let file = DiskBackedRecordStore::key_to_hex(&first.key);
    for garbled in [vec![], vec![1, 0], vec![1, 0, 0, 0], vec![1, 0, 0, 0, 5]] {
        disk.files.insert(file.clone(), garbled.clone());
        assert_eq!(disk.put(first.clone()), Ok(()));
        assert_eq!(disk.files.get(&file), Some(&garbled));
    }
    disk.files.remove(&file);
    assert_eq!(disk.put(first.clone()), Ok(()));
    assert_eq!(disk.files.get(&file), None);
}

#[test]
fn a_spend_announced_as_a_register_counts_as_a_spend() {
    let secret = sn_dbc::blsttc::SecretKey::random();
    let (first, second) = (spend(&secret, 10), spend(&secret, 11));
    let mut announced = first.clone();
    announced.value[0] = 2;
    let mut disk = Disk::new();
    assert_eq!(disk.put(announced.clone()), Ok(()));
    assert_eq!(disk.put(first.clone()), Ok(()));
    assert_eq!(disk.get(&first.key), Some(announced));
    assert_eq!(disk.put(second.clone()), Ok(()));
    assert_eq!(disk.get(&first.key), Some(second));
}

#[test]
fn steps_of_a_put() {
    let disk = Disk::new();
    assert!(matches!(
        disk.store.write_to_local(register(1, 2)),
        PutStep::Write { key, file, value }
            if key == Key::new(&[1]) && file == "01" && value == vec![2, 0, 0, 0, 2]
    ));
    assert!(matches!(
        disk.store.start_put(register(1, 2), RecordContent::DbcSpend(None)),
        PutStep::Done { result: Ok(()) }
    ));
    for relation in [LocalSpend::Missing, LocalSpend::Unreadable, LocalSpend::Same] {
        assert!(matches!(
            DiskBackedRecordStore::settle_overwrite(register(1, 2), relation),
            PutStep::Done { result: Ok(()) }
        ));
    }
    assert!(matches!(
        DiskBackedRecordStore::settle_overwrite(register(1, 2), LocalSpend::Different),
        PutStep::Write { .. }
    ));
}

#[test]
fn a_record_that_cannot_be_written_is_not_stored() {
    let mut disk = Disk::new();
    disk.broken = true;
    assert_eq!(disk.put(register(1, 2)), Ok(()));
    assert_eq!(disk.store.get(&key(&[1])), None);
}

#[test]
fn a_double_spend_that_cannot_be_written_changes_nothing() {
    let secret = sn_dbc::blsttc::SecretKey::random();
    let (first, second) = (spend(&secret, 10), spend(&secret, 11));
    let mut disk = Disk::new();
    assert_eq!(disk.put(first.clone()), Ok(()));
    disk.broken = true;
    assert_eq!(disk.put(second), Ok(()));
    assert_eq!(disk.get(&first.key), Some(first));
}

#[test]
fn a_removed_record_is_not_found_though_its_file_is_there() {
    let mut disk = Disk::new();
    assert_eq!(disk.put(register(1, 1)), Ok(()));
    assert_eq!(disk.put(register(2, 2)), Ok(()));
    assert_eq!(disk.store.remove(&key(&[1])), "01");
    assert!(disk.files.contains_key("01"));
    assert_eq!(disk.get(&key(&[1])), None);
    assert_eq!(disk.get(&key(&[2])), Some(register(2, 2)));
}

#[test]
fn a_file_without_a_spend_is_never_overwritten() {
    let spent = spend(&sn_dbc::blsttc::SecretKey::random(), 10);
    for squatting in [vec![], vec![2, 0, 0, 0], vec![9; 500]] {
        let squatter = Record::new(spent.key.clone(), squatting);
        let mut disk = Disk::new();
        assert_eq!(disk.put(squatter.clone()), Ok(()));
        assert_eq!(disk.put(spent.clone()), Ok(()));
        assert_eq!(disk.get(&spent.key), Some(squatter));
    }
}

#[test]
fn requests_for_unknown_records_touch_no_file() {
    let mut disk = Disk::new();
    disk.files.insert("01".to_string(), vec![1]);
    assert_eq!(disk.store.get(&key(&[1])), None);
    assert_eq!(disk.put(register(2, 0)), Ok(()));
    assert_eq!(disk.store.get(&key(&[2])), Some("02".to_string()));
    disk.files.remove("02");
    assert_eq!(disk.get(&key(&[2])), None);
    assert_eq!(disk.store.remove(&key(&[9])), "09");
}

#[test]
fn put_and_remove_leave_other_records_alone() {
    let mut disk = Disk::new();
    for id in 1..6 {
        assert_eq!(disk.put(register(id, id)), Ok(()));
    }
    disk.remove(&key(&[3]));
    for id in 1..6 {
        let expected = if id == 3 { None } else { Some(register(id, id)) };
        assert_eq!(disk.get(&key(&[id])), expected);
    }
}

#[test]
fn what_values_hold() {
    assert!(matches!(examine(&[]), RecordContent::Opaque));
    assert!(matches!(examine(&[0, 0, 0]), RecordContent::Opaque));
    assert!(matches!(examine(&[3, 0, 0, 0]), RecordContent::Opaque));
    assert!(matches!(examine(&[0, 0, 0, 1]), RecordContent::Opaque));
    assert!(matches!(examine(&[2, 0, 0, 0, 1]), RecordContent::Register));
    assert!(matches!(
        examine(&[1, 0, 0, 0, 1]),
        RecordContent::DbcSpend(None)
    ));
    match examine(b"\0\0\0\0hello world") {
        RecordContent::Chunk(name) => assert_eq!(
            DiskBackedRecordStore::key_to_hex(&name),
            "644bcc7e564373040999aac89e7622f3ca71fba1d972fd94a31c3bfbf24e3938"
        ),
        other => panic!("{:?}", other),
    }
}

#[test]
fn overwrite_attempts() {
    let store = Disk::new().store;
    let secret = sn_dbc::blsttc::SecretKey::random();
    let (first, second) = (spend(&secret, 1), spend(&secret, 2));
    let header = |kind| RecordHeader { kind };
    for kind in [RecordKind::Chunk, RecordKind::Register] {
        assert!(matches!(
            store.validate_overwrite_attempt(&first, &header(kind)),
            OverwriteStep::Verdict { allowed: false }
        ));
    }
    let file = DiskBackedRecordStore::key_to_hex(&first.key);
    assert!(matches!(
        store.validate_overwrite_attempt(&first, &header(RecordKind::DbcSpend)),
        OverwriteStep::ReadLocal { file: named } if named == file
    ));
    assert!(matches!(
        store.validate_overwrite_attempt(&register(1, 1), &header(RecordKind::DbcSpend)),
        OverwriteStep::Verdict { allowed: false }
    ));
    let read = |local| DiskBackedRecordStore::overwrite_local_read(&first, local);
    assert!(!read(None));
    assert!(!read(Some(vec![1, 0, 0, 0, 4])));
    assert!(read(Some(first.value.clone())));
    assert!(read(Some(second.value)));
    assert!(DiskBackedRecordStore::validate_before_put(
        &first,
        &header(RecordKind::Chunk)
    ));
}

#[test]
fn retain_forgets_what_the_predicate_refuses() {
    let mut disk = Disk::new();
    for id in 1..8 {
        assert_eq!(disk.put(register(id, id)), Ok(()));
    }
    let mut files = disk.store.retain(|key| key.as_bytes()[0] % 3 == 0);
    files.sort();
    assert_eq!(files, ["01", "02", "04", "05", "07"]);
    for id in 1..8 {
        assert_eq!(disk.store.get(&key(&[id])).is_some(), id % 3 == 0);
    }
    assert!(disk.store.retain(|_| true).is_empty());
}

#[test]
fn entries_within_a_distance_are_replicated() {
    let mut disk = Disk::new();
    for id in 0..40 {
        assert_eq!(disk.put(register(id, id)), Ok(()));
    }
    let target = libp2p::kad::KBucketKey::from(vec![17u8]);
    let distance = |id: u8| target.distance(&libp2p::kad::KBucketKey::from(vec![id]));
    let bar = distance(20);
    let expected: HashSet<Vec<u8>> = (0..40)
        .filter(|id| distance(*id) < bar)
        .map(|id| vec![id])
        .collect();
    let keys = disk.store.entries_to_be_replicated(
        KBucketKey::new(vec![17]),
        Distance {
            bytes: bar.0.to_big_endian(),
        },
    );
    assert!(expected.contains(&vec![17u8]) && !expected.contains(&vec![20u8]));
    assert_eq!(keys.len(), expected.len());
    let found: HashSet<Vec<u8>> = keys.iter().map(|key| key.to_vec()).collect();
    assert_eq!(found, expected);
    let none = disk
        .store
        .entries_to_be_replicated(KBucketKey::new(vec![17]), Distance { bytes: [0; 32] });
    assert!(none.is_empty());
}

#[test]
fn the_walk_over_records_is_disabled() {
    let mut disk = Disk::new();
    assert_eq!(disk.put(register(1, 1)), Ok(()));
    let mut walk = disk.store.records();
    assert_eq!(walk.storage_dir(), PathBuf::from("records"));
    assert!(matches!(walk.next(), RecordsStep::Finished));
}

#[test]
fn a_triggered_walk_passes_over_unreadable_files() {
    let keys = [key(&[1]), key(&[2]), key(&[3])];
    let dir = PathBuf::from("records");
    let mut walk = RecordsIterator::new(&keys, &dir, true);
    let step = walk.next();
    assert!(matches!(&step, RecordsStep::Read { key, file } if key == &keys[0] && file == "01"));
    let step = walk.file_read(keys[0].clone(), None);
    assert!(matches!(&step, RecordsStep::Read { key, file } if key == &keys[1] && file == "02"));
    match walk.file_read(keys[1].clone(), Some(vec![9])) {
        RecordsStep::Found { record } => assert_eq!(record, Record::new(key(&[2]), vec![9])),
        other => panic!("{:?}", other),
    }
    let step = walk.next();
    assert!(matches!(&step, RecordsStep::Read { key, .. } if key == &keys[2]));
    assert!(matches!(
        walk.file_read(keys[2].clone(), None),
        RecordsStep::Finished
    ));
    assert!(matches!(walk.next(), RecordsStep::Finished));
}
