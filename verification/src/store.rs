//! The record store of a node.

use vstd::prelude::*;

use crate::bytes::bytes_from;
use crate::config::DiskBackedRecordStoreConfig;
use crate::content::RecordContent;
use crate::content::content_of;
use crate::content::examine;
use crate::content::payload_of;
use crate::header::RecordHeader;
use crate::header::RecordKind;
use crate::hex::hex;
use crate::hex::to_hex;
use crate::key_set::KeySet;
use crate::key_set::key_views;
use crate::key_set::lemma_push;
use crate::keyspace::Distance;
use crate::keyspace::KBucketKey;
use crate::keyspace::distance_between;
use crate::record::Key;
use crate::record::Record;
use crate::records_iterator::RecordsIterator;
use crate::spend::LocalSpend;
use crate::spend::compare_with_local;
use crate::spend::local_spend;
use crate::spend::name_of_spend;
use crate::spend::spend_dbc_id;
use crate::steps::Error;
use crate::steps::OverwriteStep;
use crate::steps::OverwriteStepView;
use crate::steps::PutStep;
use crate::steps::content_step;
use crate::steps::ignored;
use crate::steps::optional_bytes;
use crate::steps::overwrite_step;
use crate::steps::put_step;
use crate::steps::record_in_file;
use crate::steps::refusal;

verus! {

/// Calls `std::time::Instant::now`.
///
/// Nothing is claimed of the point in time that comes back.
#[verifier::external_body]
fn now() -> (instant: std::time::Instant) {
    std::time::Instant::now()
}

/// A store that keeps each record in a file of its own.
///
/// The store knows which records there are and decides what happens to them. It names the
/// files that are to be read, written and deleted, and leaves that to its caller.
#[derive(Debug)]
pub struct DiskBackedRecordStore {
    /// The identity of the peer that owns the store.
    local_key: KBucketKey,
    /// The configuration of the store.
    config: DiskBackedRecordStoreConfig,
    /// The keys of the records that are stored on disk.
    records: KeySet,
    /// When replication was last triggered.
    replication_start: std::time::Instant,
}

/// The contents of some strings.
pub open spec fn texts(strings: Seq<String>) -> Seq<Seq<char>> {
    strings.map_values(|text: String| text@)
}

/// Whether a predicate can answer `answer` on a key that consists of `key`.
pub open spec fn can_answer<F: Fn(&Key) -> bool>(predicate: F, key: Seq<u8>, answer: bool) -> bool {
    exists|k: Key| k@ == key && #[trigger] call_ensures(predicate, (&k,), answer)
}

impl DiskBackedRecordStore {
    /// No key is listed twice.
    pub closed spec fn wf(&self) -> bool {
        self.records.wf()
    }

    /// The keys of the records that are stored.
    pub closed spec fn keys(&self) -> Set<Seq<u8>> {
        self.records@
    }

    /// The configuration of the store.
    pub closed spec fn config(&self) -> DiskBackedRecordStoreConfig {
        self.config
    }

    /// The identity of the peer that owns the store.
    pub closed spec fn local_id(&self) -> Seq<u8> {
        self.local_key@
    }

    /// Everything but the records and the time of the last replication.
    pub open spec fn same_setup(&self, other: &Self) -> bool {
        self.config() == other.config() && self.local_id() == other.local_id()
    }

    /// Makes an empty store with the default configuration in the given directory.
    pub fn new(local_id: Vec<u8>, storage_dir: std::path::PathBuf) -> (store: Self)
        ensures
            store.wf(),
            store.keys() == Set::<Seq<u8>>::empty(),
            store.local_id() == local_id@,
            store.config().storage_dir == storage_dir,
            store.config().max_records == 1024,
            store.config().max_value_bytes == 65 * 1024,
            crate::config::REPLICATION_INTERVAL_LOWER_BOUND <= store.config().replication_interval
                < crate::config::REPLICATION_INTERVAL_UPPER_BOUND,
    {
        Self::with_config(local_id, DiskBackedRecordStoreConfig::default_in(storage_dir))
    }

    /// Makes an empty store with the given configuration.
    pub fn with_config(local_id: Vec<u8>, config: DiskBackedRecordStoreConfig) -> (store: Self)
        ensures
            store.wf(),
            store.keys() == Set::<Seq<u8>>::empty(),
            store.local_id() == local_id@,
            store.config() == config,
    {
        DiskBackedRecordStore {
            local_key: KBucketKey::new(local_id),
            config,
            records: KeySet::new(),
            replication_start: now(),
        }
    }

    /// The directory where the records are stored.
    pub fn storage_dir(&self) -> (dir: std::path::PathBuf)
        ensures
            dir == self.config().storage_dir,
    {
        self.config.storage_dir.clone()
    }

    /// The name of the file that holds the record with the given key.
    pub fn key_to_hex(key: &Key) -> (file: String)
        ensures
            file@ == hex(key@),
    {
        to_hex(key.as_bytes())
    }

    /// The record that was found in the file of `key`: `contents` is what was read, if the file
    /// could be read.
    pub fn read_from_disk(key: &Key, contents: Option<Vec<u8>>) -> (record: Option<Record>)
        ensures
            record_in_file(key@, optional_bytes(contents)) == (match record {
                Some(record) => Some(record@),
                None => None,
            }),
            record is Some <==> contents is Some,
            record is Some ==> record->Some_0.key@ == key@ && record->Some_0.value@
                == contents->Some_0@ && record->Some_0.publisher is None && record->Some_0.expires
                is None,
    {
        match contents {
            Some(value) => Some(Record::new(key.clone(), value)),
            None => None,
        }
    }

    /// The file to read for the record with the given key, if the store holds that record. A
    /// node is asked for many records that it never saw; those requests end here.
    pub fn get(&self, k: &Key) -> (file: Option<String>)
        ensures
            match file {
                Some(file) => self.keys().contains(k@) && file@ == hex(k@),
                None => !self.keys().contains(k@),
            },
    {
        if !self.records.contains(k) {
            return None;
        }
        Some(Self::key_to_hex(k))
    }

    /// Starts a request to store a record.
    pub fn put(&self, r: Record) -> (step: PutStep)
        requires
            self.wf(),
        ensures
            step@ == put_step(
                self.config().max_value_bytes as nat,
                self.config().max_records as nat,
                self.keys(),
                r@,
                content_of(r@.value),
            ),
            step@ is ReadLocal ==> r@.value.len() >= RecordHeader::SIZE,
    {
        match self.refuse(&r) {
            Some(error) => PutStep::Done { result: Err(error) },
            None => {
                let content: RecordContent = examine(r.value.as_slice());
                self.start_unrefused(r, content)
            },
        }
    }

    /// Starts a request to store a record. Records of this node go the same way as those of
    /// others.
    pub fn write_to_local(&self, record: Record) -> (step: PutStep)
        requires
            self.wf(),
        ensures
            step@ == put_step(
                self.config().max_value_bytes as nat,
                self.config().max_records as nat,
                self.keys(),
                record@,
                content_of(record@.value),
            ),
            step@ is ReadLocal ==> record@.value.len() >= RecordHeader::SIZE,
    {
        self.put(record)
    }

    /// Decides how a request to store a record starts, given what the value of the record
    /// turned out to hold.
    pub fn start_put(&self, r: Record, content: RecordContent) -> (step: PutStep)
        requires
            self.wf(),
        ensures
            step@ == put_step(
                self.config().max_value_bytes as nat,
                self.config().max_records as nat,
                self.keys(),
                r@,
                content@,
            ),
    {
        match self.refuse(&r) {
            Some(error) => PutStep::Done { result: Err(error) },
            None => self.start_unrefused(r, content),
        }
    }

    /// Tells why a record is refused, if it is. The value is not looked into.
    fn refuse(&self, r: &Record) -> (error: Option<Error>)
        requires
            self.wf(),
        ensures
            error == refusal(
                self.config().max_value_bytes as nat,
                self.config().max_records as nat,
                self.keys(),
                r@.value,
            ),
    {
        if r.value.len() > self.config.max_value_bytes {
            return Some(Error::ValueTooLarge);
        }
        if self.records.len() >= self.config.max_records {
            return Some(Error::MaxRecords);
        }
        None
    }

    /// Decides how a request to store a record starts that is not refused.
    fn start_unrefused(&self, r: Record, content: RecordContent) -> (step: PutStep)
        ensures
            step@ == content_step(self.keys().contains(r@.key), r@, content@),
    {
        let overwrite_attempt: bool = self.records.contains(&r.key);
        match content {
            RecordContent::Opaque | RecordContent::Register => {
                if overwrite_attempt {
                    return PutStep::Done { result: Ok(()) };
                }
            },
            RecordContent::Chunk(name) => {
                if overwrite_attempt || !r.key.same_as(&name) {
                    return PutStep::Done { result: Ok(()) };
                }
            },
            RecordContent::DbcSpend(None) => {
                return PutStep::Done { result: Ok(()) };
            },
            RecordContent::DbcSpend(Some(name)) => {
                if !r.key.same_as(&name) {
                    return PutStep::Done { result: Ok(()) };
                }
                if overwrite_attempt {
                    return PutStep::ReadLocal { file: Self::key_to_hex(&r.key), record: r };
                }
            },
        }
        Self::write(r)
    }

    /// The step that writes a record to its file.
    fn write(r: Record) -> (step: PutStep)
        ensures
            step@ == crate::steps::write_step(r@),
    {
        let file: String = Self::key_to_hex(&r.key);
        PutStep::Write { key: r.key, file, value: r.value }
    }

    /// Goes on with a request to store a spend under a key that is taken: `local` is what was
    /// read from the file of that key, if the file could be read.
    pub fn put_local_read(record: Record, local: Option<Vec<u8>>) -> (step: PutStep)
        requires
            record@.value.len() >= RecordHeader::SIZE,
        ensures
            step@ == overwrite_step(record@, local_relation(record@.value, optional_bytes(local))),
            // A spend that arrives again is ignored.
            optional_bytes(local) == Some(record@.value) && spend_dbc_id(payload_of(record@.value))
                is Some ==> step@ == ignored(),
    {
        let relation: LocalSpend = Self::relation_to_local(&record, local);
        Self::settle_overwrite(record, relation)
    }

    /// Holds the record that was read from a file, if it could be read, against one that
    /// arrives under the same key.
    fn relation_to_local(record: &Record, local: Option<Vec<u8>>) -> (relation: LocalSpend)
        requires
            record@.value.len() >= RecordHeader::SIZE,
        ensures
            relation == local_relation(record@.value, optional_bytes(local)),
            optional_bytes(local) == Some(record@.value) && spend_dbc_id(payload_of(record@.value))
                is Some ==> relation == LocalSpend::Same,
    {
        let payload: Vec<u8> = bytes_from(record.value.as_slice(), RecordHeader::SIZE);
        match local {
            Some(value) => {
                if value.len() < RecordHeader::SIZE {
                    return LocalSpend::Unreadable;
                }
                let stored: Vec<u8> = bytes_from(value.as_slice(), RecordHeader::SIZE);
                compare_with_local(payload.as_slice(), Some(stored.as_slice()))
            },
            None => compare_with_local(payload.as_slice(), None),
        }
    }

    /// Decides how a request to store a spend under a key that is taken goes on, given how the
    /// stored spend relates to the arriving one.
    pub fn settle_overwrite(record: Record, relation: LocalSpend) -> (step: PutStep)
        ensures
            step@ == overwrite_step(record@, relation),
    {
        match relation {
            LocalSpend::Missing | LocalSpend::Unreadable | LocalSpend::Same => PutStep::Done {
                result: Ok(()),
            },
            LocalSpend::Different => Self::write(record),
        }
    }

    /// Ends a request to store a record whose value was to be written: `written` tells whether
    /// that went well. A record whose file could not be written is not stored, and the
    /// requester is not told.
    pub fn put_written(&mut self, key: Key, written: bool) -> (result: Result<(), Error>)
        requires
            old(self).wf(),
        ensures
            final(self).wf(),
            final(self).same_setup(old(self)),
            final(self).config() == old(self).config(),
            final(self).local_id() == old(self).local_id(),
            result == Ok::<(), Error>(()),
            final(self).keys() == (if written {
                old(self).keys().insert(key@)
            } else {
                old(self).keys()
            }),
    {
        if written {
            self.records.insert(key);
        }
        Ok(())
    }

    /// Forgets the record with the given key. The result names the file to delete, whether or
    /// not the store held the record.
    pub fn remove(&mut self, k: &Key) -> (file: String)
        requires
            old(self).wf(),
        ensures
            final(self).wf(),
            final(self).same_setup(old(self)),
            final(self).config() == old(self).config(),
            final(self).local_id() == old(self).local_id(),
            final(self).keys() == old(self).keys().remove(k@),
            file@ == hex(k@),
    {
        self.records.remove(k);
        Self::key_to_hex(k)
    }

    /// Checks a record before it is stored. Only chunks can be checked, and they pass.
    pub fn validate_before_put(record: &Record, header: &RecordHeader) -> (valid: bool)
        requires
            header.kind == RecordKind::Chunk,
        ensures
            valid,
    {
        true
    }

    /// Checks an attempt to store `record` under a key that is taken.
    pub fn validate_overwrite_attempt(&self, record: &Record, header: &RecordHeader) -> (step:
        OverwriteStep)
        requires
            header.kind == RecordKind::DbcSpend ==> record@.value.len() >= RecordHeader::SIZE,
        ensures
            step@ == (if header.kind == RecordKind::DbcSpend && spend_dbc_id(
                payload_of(record@.value),
            ) is Some {
                OverwriteStepView::ReadLocal { file: hex(record@.key) }
            } else {
                OverwriteStepView::Verdict { allowed: false }
            }),
    {
        match header.kind {
            RecordKind::Chunk => OverwriteStep::Verdict { allowed: false },
            RecordKind::DbcSpend => {
                let payload: Vec<u8> = bytes_from(record.value.as_slice(), RecordHeader::SIZE);
                Self::check_spend_overwrite(&record.key, name_of_spend(payload.as_slice()))
            },
            RecordKind::Register => OverwriteStep::Verdict { allowed: false },
        }
    }

    /// Decides how the check on an attempt to overwrite a spend goes on, given the name of the
    /// arriving spend if it could be read. Under which name it arrives plays no part.
    pub fn check_spend_overwrite(key: &Key, name: Option<Key>) -> (step: OverwriteStep)
        ensures
            step@ == (if name is Some {
                OverwriteStepView::ReadLocal { file: hex(key@) }
            } else {
                OverwriteStepView::Verdict { allowed: false }
            }),
    {
        match name {
            Some(_) => OverwriteStep::ReadLocal { file: Self::key_to_hex(key) },
            None => OverwriteStep::Verdict { allowed: false },
        }
    }

    /// Ends the check on an attempt to overwrite a spend: `local` is what was read from the
    /// file of the stored spend, if the file could be read.
    pub fn overwrite_local_read(record: &Record, local: Option<Vec<u8>>) -> (allowed: bool)
        requires
            record@.value.len() >= RecordHeader::SIZE,
        ensures
            allowed == (optional_bytes(local) matches Some(value) && value.len()
                >= RecordHeader::SIZE && spend_dbc_id(payload_of(value)) is Some),
    {
        Self::overwrite_verdict(Self::relation_to_local(record, local))
    }

    /// The verdict on an attempt to overwrite a spend: it is allowed if the stored spend can be
    /// read, even if it is the same.
    pub fn overwrite_verdict(relation: LocalSpend) -> (allowed: bool)
        ensures
            allowed == (relation == LocalSpend::Same || relation == LocalSpend::Different),
    {
        match relation {
            LocalSpend::Missing | LocalSpend::Unreadable => false,
            LocalSpend::Same | LocalSpend::Different => true,
        }
    }
}

/// How the record in a file, if it was read, relates to one that arrives with `value`. A file
/// that is too short for a header holds no spend.
pub open spec fn local_relation(value: Seq<u8>, local: Option<Seq<u8>>) -> LocalSpend {
    match local {
        None => LocalSpend::Missing,
        Some(stored) => if stored.len() < RecordHeader::SIZE {
            LocalSpend::Unreadable
        } else {
            local_spend(payload_of(value), Some(payload_of(stored)))
        },
    }
}

impl DiskBackedRecordStore {
    /// Keeps the records whose keys satisfy a predicate and forgets the others. The result names
    /// the files of those, which are to be deleted.
    pub fn retain<F: Fn(&Key) -> bool>(&mut self, predicate: F) -> (files: Vec<String>)
        requires
            old(self).wf(),
            forall|key: &Key| call_requires(predicate, (key,)),
        ensures
            final(self).wf(),
            final(self).same_setup(old(self)),
            final(self).config() == old(self).config(),
            final(self).local_id() == old(self).local_id(),
            final(self).keys().subset_of(old(self).keys()),
            forall|key: Seq<u8>| #[trigger]
                old(self).keys().contains(key) ==> can_answer(
                    predicate,
                    key,
                    final(self).keys().contains(key),
                ),
            texts(files@).no_duplicates(),
            texts(files@).to_set() == old(self).keys().difference(final(self).keys()).map(
                |key: Seq<u8>| hex(key),
            ),
    {
        let mut to_be_removed: Vec<Key> = Vec::new();
        let ghost listed = self.records.listed();
        proof {
            self.records.listed_once();
        }
        let mut i: usize = 0;
        while i < self.records.as_slice().len()
            invariant
                *self == *old(self),
                self.wf(),
                listed == self.records.listed(),
                listed.no_duplicates(),
                listed.to_set() == self.keys(),
                i <= listed.len(),
                forall|key: &Key| call_requires(predicate, (key,)),
                key_views(to_be_removed@).no_duplicates(),
                forall|key: Seq<u8>|
                    key_views(to_be_removed@).contains(key) ==> listed.take(i as int).contains(key),
                forall|j: int|
                    0 <= j < i ==> can_answer(
                        predicate,
                        #[trigger] listed[j],
                        !key_views(to_be_removed@).contains(listed[j]),
                    ),
            decreases listed.len() - i,
        {
            let key: &Key = &self.records.as_slice()[i];
            assert(key@ == listed[i as int]);
            let ghost before = key_views(to_be_removed@);
            let ghost seen = listed.take(i as int);
            assert(listed.take(i + 1) =~= seen.push(key@));
            let keep: bool = predicate(key);
            assert(call_ensures(predicate, (key,), keep));
            assert(!seen.contains(key@));
            if !keep {
                to_be_removed.push(key.clone());
                assert(key_views(to_be_removed@) =~= before.push(key@));
            }
            proof {
                lemma_push(seen, key@);
                if !keep {
                    lemma_push(before, key@);
                }
                let after = key_views(to_be_removed@);
                assert forall|j: int| 0 <= j < i + 1 implies can_answer(
                    predicate,
                    #[trigger] listed[j],
                    !after.contains(listed[j]),
                ) by {
                    if j < i {
                        assert(listed[j] != listed[i as int]);
                    } else {
                        assert(!before.contains(key@));
                    }
                }
            }
            i = i + 1;
        }
        let mut files: Vec<String> = Vec::new();
        let ghost doomed = key_views(to_be_removed@);
        let mut n: usize = 0;
        assert(listed.take(listed.len() as int) =~= listed);
        assert(doomed.take(0).to_set() =~= Set::empty());
        assert(self.keys() =~= old(self).keys().difference(doomed.take(0).to_set()));
        while n < to_be_removed.len()
            invariant
                self.wf(),
                self.same_setup(old(self)),
                n <= to_be_removed@.len(),
                doomed == key_views(to_be_removed@),
                doomed.no_duplicates(),
                texts(files@) == doomed.take(n as int).map_values(|key: Seq<u8>| hex(key)),
                self.keys() == old(self).keys().difference(doomed.take(n as int).to_set()),
            decreases to_be_removed@.len() - n,
        {
            let ghost before = texts(files@);
            let key: &Key = &to_be_removed[n];
            files.push(self.remove(key));
            proof {
                let (one, two) = (doomed.take(n as int), doomed.take(n + 1));
                assert(two =~= one.push(key@));
                assert(key@ == doomed[n as int]);
                assert(forall|j: int| 0 <= j < n ==> one[j] == doomed[j]);
                lemma_push(one, key@);
                assert(texts(files@) =~= before.push(hex(key@)));
                assert(texts(files@) =~= two.map_values(|key: Seq<u8>| hex(key)));
                assert(self.keys() =~= old(self).keys().difference(two.to_set()));
            }
            n = n + 1;
        }
        proof {
            assert(doomed.take(doomed.len() as int) =~= doomed);
            assert forall|key: Seq<u8>| #[trigger] old(self).keys().contains(key) implies can_answer(
                predicate,
                key,
                self.keys().contains(key),
            ) by {
                let j = choose|j: int| 0 <= j < listed.len() && listed[j] == key;
                assert(can_answer(predicate, listed[j], !doomed.contains(listed[j])));
            }
            let name = |key: Seq<u8>| hex(key);
            assert forall|a: int, b: int|
                0 <= a < doomed.len() && 0 <= b < doomed.len() && a != b implies texts(files@)[a]
                != texts(files@)[b] by {
                crate::hex::hex_is_injective(doomed[a], doomed[b]);
            }
            assert(old(self).keys().difference(self.keys()) =~= doomed.to_set());
            doomed.lemma_to_set_map_commutes(name);
            assert(texts(files@) =~= doomed.map_values(name));
        }
        files
    }

    /// The keys of the records that lie within `distance_bar` of the target. That a replication
    /// starts is noted.
    pub fn entries_to_be_replicated(
        &mut self,
        target: KBucketKey,
        distance_bar: Distance,
    ) -> (keys: Vec<Key>)
        requires
            old(self).wf(),
        ensures
            final(self).wf(),
            final(self).same_setup(old(self)),
            final(self).config() == old(self).config(),
            final(self).local_id() == old(self).local_id(),
            final(self).keys() == old(self).keys(),
            key_views(keys@).no_duplicates(),
            key_views(keys@).to_set() == old(self).keys().filter(
                |key: Seq<u8>| distance_between(target@, key) < distance_bar@,
            ),
    {
        self.replication_start = now();
        let mut keys: Vec<Key> = Vec::new();
        let ghost listed = self.records.listed();
        let ghost near = |key: Seq<u8>| distance_between(target@, key) < distance_bar@;
        proof {
            self.records.listed_once();
        }
        let mut i: usize = 0;
        while i < self.records.as_slice().len()
            invariant
                listed == self.records.listed(),
                listed.no_duplicates(),
                i <= listed.len(),
                near == (|key: Seq<u8>| distance_between(target@, key) < distance_bar@),
                key_views(keys@).no_duplicates(),
                forall|key: Seq<u8>|
                    key_views(keys@).contains(key) <==> listed.take(i as int).contains(key) && near(
                        key,
                    ),
            decreases listed.len() - i,
        {
            let key: &Key = &self.records.as_slice()[i];
            let ghost before = key_views(keys@);
            let ghost seen = listed.take(i as int);
            assert(key@ == listed[i as int]);
            assert(listed.take(i + 1) =~= seen.push(key@));
            assert(!seen.contains(key@));
            let record_key: KBucketKey = KBucketKey::new(key.to_vec());
            let within: bool = target.distance(&record_key).is_less_than(&distance_bar);
            if within {
                keys.push(key.clone());
                assert(key_views(keys@) =~= before.push(key@));
            }
            proof {
                lemma_push(seen, key@);
                if within {
                    lemma_push(before, key@);
                }
            }
            i = i + 1;
        }
        proof {
            assert(listed.take(listed.len() as int) =~= listed);
            self.records.listed_once();
            assert(key_views(keys@).to_set() =~= self.keys().filter(near));
        }
        keys
    }

    /// Walks over the stored records. Periodic replication is disabled: the walk ends at once.
    pub fn records(&self) -> (walk: RecordsIterator<'_>)
        ensures
            walk.remaining() == Seq::<Seq<u8>>::empty(),
            walk.dir() == self.config().storage_dir,
    {
        RecordsIterator::new(self.records.as_slice(), &self.config.storage_dir, false)
    }
}

/// What a predicate can answer is what it says of the key: if it answers `verdict` for the bytes
/// of a key, no other answer is possible.
pub proof fn predicates_decide<F: Fn(&Key) -> bool>(
    predicate: F,
    verdict: spec_fn(Seq<u8>) -> bool,
    key: Seq<u8>,
    answer: bool,
)
    requires
        forall|k: Key, a: bool| #[trigger]
            call_ensures(predicate, (&k,), a) ==> a == verdict(k@),
        can_answer(predicate, key, answer),
    ensures
        answer == verdict(key),
{
}

/// The contents of strings are those of each string, in the same order.
pub proof fn texts_are_complete(strings: Seq<String>)
    ensures
        texts(strings).len() == strings.len(),
        forall|i: int| 0 <= i < strings.len() ==> #[trigger] texts(strings)[i] == strings[i]@,
{
}

/// Stores with the same setup have the same owner, directory, limits and replication interval.
pub proof fn same_setup_means_same_limits(a: DiskBackedRecordStore, b: DiskBackedRecordStore)
    ensures
        a.same_setup(&b) <==> a.local_id() == b.local_id() && a.config().storage_dir
            == b.config().storage_dir && a.config().max_records == b.config().max_records
            && a.config().max_value_bytes == b.config().max_value_bytes
            && a.config().replication_interval == b.config().replication_interval,
{
}

} // verus!
