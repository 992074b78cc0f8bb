//! What holds of a store together with the files that it names.
//!
//! The steps of a request are put together here, for a caller that carries out every step and
//! reports what came of it, and whose files hold what was last written to them. Writing and
//! deleting a file can fail.

use vstd::prelude::*;

use crate::chunk::chunk_record;
use crate::chunk::content_name;
use crate::content::ContentView;
use crate::content::content_of;
use crate::content::payload_follows_four_bytes;
use crate::content::payload_of;
use crate::content::values_are_told_by_their_bytes;
use crate::header::RecordHeader;
use crate::header::RecordKind;
use crate::header::header_bytes;
use crate::header::header_of;
use crate::hex::hex;
use crate::hex::hex_is_injective;
use crate::record::RecordView;
use crate::record::plain_record;
use crate::records_iterator::RecordsStepView;
use crate::records_iterator::walk_rest;
use crate::records_iterator::walk_step;
use crate::spend::LocalSpend;
use crate::spend::signed_spends_equal;
use crate::spend::spend_dbc_id;
use crate::steps::Error;
use crate::steps::PutStepView;
use crate::steps::files_are_read_whole;
use crate::steps::overwrite_step;
use crate::steps::put_step;
use crate::steps::record_in_file;
use crate::store::local_relation;

verus! {

/// A store and the files in its directory.
pub struct StoreOnDisk {
    /// The maximum size of values.
    pub max_value_bytes: nat,
    /// The number of records that the store may hold.
    pub max_records: nat,
    /// The keys that the store knows.
    pub keys: Set<Seq<u8>>,
    /// The contents of the files, by name.
    pub files: Map<Seq<char>, Seq<u8>>,
}

impl StoreOnDisk {
    /// What reading a file gives.
    pub open spec fn read(self, file: Seq<char>) -> Option<Seq<u8>> {
        if self.files.contains_key(file) {
            Some(self.files[file])
        } else {
            None
        }
    }

    /// The same store with a file that holds `contents`, or without that file.
    pub open spec fn with_file(self, file: Seq<char>, contents: Option<Seq<u8>>) -> StoreOnDisk {
        StoreOnDisk {
            files: match contents {
                Some(value) => self.files.insert(file, value),
                None => self.files.remove(file),
            },
            ..self
        }
    }

    /// The first step of a request to store `record`.
    pub open spec fn first_step(self, record: RecordView) -> PutStepView {
        put_step(
            self.max_value_bytes,
            self.max_records,
            self.keys,
            record,
            content_of(record.value),
        )
    }

    /// The last step of a request to store `record`: the first one, or the one that follows when
    /// a file had to be read.
    pub open spec fn last_step(self, record: RecordView) -> PutStepView {
        match self.first_step(record) {
            PutStepView::ReadLocal { file, record } => overwrite_step(
                record,
                local_relation(record.value, self.read(file)),
            ),
            step => step,
        }
    }

    /// Whether a request to store `record` ends in writing its file.
    pub open spec fn stores(self, record: RecordView) -> bool {
        self.last_step(record) is Write
    }

    /// The store after a request to store `record`. Where that ends in writing a file, `written`
    /// tells whether the write succeeded; if it failed, `left` is what the file holds after it,
    /// if the file is there.
    pub open spec fn put(
        self,
        record: RecordView,
        written: bool,
        left: Option<Seq<u8>>,
    ) -> StoreOnDisk {
        match self.last_step(record) {
            PutStepView::Write { key, file, value } => if written {
                StoreOnDisk { keys: self.keys.insert(key), ..self.with_file(file, Some(value)) }
            } else {
                self.with_file(file, left)
            },
            _ => self,
        }
    }

    /// The answer to a request to store `record`, however the write goes.
    pub open spec fn put_result(self, record: RecordView) -> Result<(), Error> {
        match self.last_step(record) {
            PutStepView::Done { result } => result,
            _ => Ok(()),
        }
    }

    /// The answer to a request for the record with the given key.
    pub open spec fn get(self, key: Seq<u8>) -> Option<RecordView> {
        if self.keys.contains(key) {
            record_in_file(key, self.read(hex(key)))
        } else {
            None
        }
    }

    /// The store after the record with the given key was removed: `deleted` tells whether its
    /// file could be deleted.
    pub open spec fn remove(self, key: Seq<u8>, deleted: bool) -> StoreOnDisk {
        StoreOnDisk {
            keys: self.keys.remove(key),
            files: if deleted {
                self.files.remove(hex(key))
            } else {
                self.files
            },
            ..self
        }
    }

    /// The store after all records were removed but those with the given keys. Of the files of
    /// the others, those in `deleted` could be deleted.
    pub open spec fn keep_only(self, kept: Set<Seq<u8>>, deleted: Set<Seq<char>>) -> StoreOnDisk {
        StoreOnDisk {
            keys: kept,
            files: self.files.remove_keys(
                self.keys.difference(kept).map(|key: Seq<u8>| hex(key)).intersect(deleted),
            ),
            ..self
        }
    }

    /// Whether a value may be stored under a key: chunks and spends have a name of their own,
    /// and what is announced as a spend has to be one.
    pub open spec fn filed_correctly(key: Seq<u8>, value: Seq<u8>) -> bool {
        match content_of(value) {
            ContentView::Opaque | ContentView::Register => true,
            ContentView::Chunk(name) => key == name,
            ContentView::DbcSpend(name) => name == Some(key),
        }
    }

    /// Whether a file with the given contents, if it is there, may belong to a key that the
    /// store knows: it is not too large, and its contents belong under that key.
    pub open spec fn may_hold(self, key: Seq<u8>, contents: Option<Seq<u8>>) -> bool {
        contents matches Some(value) && value.len() <= self.max_value_bytes
            && Self::filed_correctly(key, value)
    }

    /// The invariant of a store: it holds no more records than it may, and every key that it
    /// knows has a file whose contents are small enough and belong under that key.
    pub open spec fn inv(self) -> bool {
        &&& self.keys.finite()
        &&& self.keys.len() <= self.max_records
        &&& forall|key: Seq<u8>| #[trigger]
            self.keys.contains(key) ==> self.may_hold(key, self.read(hex(key)))
    }
}

/// An empty store satisfies the invariant, whatever files lie around.
pub proof fn empty_store_satisfies_invariant(s: StoreOnDisk)
    requires
        s.keys == Set::<Seq<u8>>::empty(),
    ensures
        s.inv(),
{
}

/// The two steps of a request never call for another file to be read, and a record that is
/// written is written as it arrived, under its own key and to the file of that key.
pub proof fn last_step_ends_request(s: StoreOnDisk, record: RecordView)
    ensures
        !(s.last_step(record) is ReadLocal),
        s.stores(record) ==> s.last_step(record) == (PutStepView::Write {
            key: record.key,
            file: hex(record.key),
            value: record.value,
        }),
{
}

/// A read gives back what a write wrote: a record that is stored is found under its key, with
/// its value.
pub proof fn put_then_get(s: StoreOnDisk, record: RecordView, left: Option<Seq<u8>>)
    requires
        s.stores(record),
    ensures
        s.put_result(record) == Ok::<(), Error>(()),
        s.put(record, true, left).get(record.key) == Some(plain_record(record.key, record.value)),
{
    last_step_ends_request(s, record);
}

/// A record under a key that is free is stored exactly if the value is not too large, the store
/// has room, and the value does not belong under another key.
pub proof fn fresh_record_is_stored(s: StoreOnDisk, record: RecordView)
    requires
        !s.keys.contains(record.key),
    ensures
        s.stores(record) <==> record.value.len() <= s.max_value_bytes && s.keys.len()
            < s.max_records && StoreOnDisk::filed_correctly(record.key, record.value),
{
}

/// A record whose key is new goes through its life as it should: it can be stored, found as it
/// was stored, and removed, and then it is gone, even if its file could not be deleted.
pub proof fn put_get_remove(
    s: StoreOnDisk,
    record: RecordView,
    left: Option<Seq<u8>>,
    deleted: bool,
)
    requires
        record.value.len() <= s.max_value_bytes,
        s.keys.len() < s.max_records,
        !s.keys.contains(record.key),
        StoreOnDisk::filed_correctly(record.key, record.value),
    ensures
        s.put_result(record) == Ok::<(), Error>(()),
        s.put(record, true, left).get(record.key) == Some(plain_record(record.key, record.value)),
        s.put(record, true, left).remove(record.key, deleted).get(record.key) is None,
        s.put(record, true, left).remove(record.key, deleted).keys == s.keys,
{
    fresh_record_is_stored(s, record);
    put_then_get(s, record, left);
    last_step_ends_request(s, record);
    assert(s.put(record, true, left).remove(record.key, deleted).keys =~= s.keys);
}

/// A record that was removed is not found, whether or not it was there before, and whether or
/// not its file could be deleted.
pub proof fn remove_then_get(s: StoreOnDisk, key: Seq<u8>, deleted: bool)
    ensures
        s.remove(key, deleted).get(key) is None,
{
}

/// A write that fails is not reported, and the store knows no key more or less for it. A record
/// under a key that was free is still not found. If the write left the file as it was, it
/// changed nothing at all.
pub proof fn failed_write_stores_nothing(s: StoreOnDisk, record: RecordView, left: Option<Seq<u8>>)
    ensures
        s.stores(record) ==> s.put_result(record) == Ok::<(), Error>(()),
        s.put(record, false, left).keys == s.keys,
        !s.keys.contains(record.key) ==> s.put(record, false, left).get(record.key) is None,
        left == s.read(hex(record.key)) ==> s.put(record, false, left) == s,
{
    last_step_ends_request(s, record);
    if left == s.read(hex(record.key)) {
        assert(s.put(record, false, left).files =~= s.files);
    }
}

/// Storing a record leaves what is found under other keys alone, however the write goes.
pub proof fn put_leaves_other_keys_alone(
    s: StoreOnDisk,
    record: RecordView,
    written: bool,
    left: Option<Seq<u8>>,
    other: Seq<u8>,
)
    requires
        other != record.key,
    ensures
        s.put(record, written, left).get(other) == s.get(other),
{
    last_step_ends_request(s, record);
    hex_is_injective(record.key, other);
}

/// Removing a record leaves what is found under other keys alone.
pub proof fn remove_leaves_other_keys_alone(
    s: StoreOnDisk,
    key: Seq<u8>,
    deleted: bool,
    other: Seq<u8>,
)
    requires
        other != key,
    ensures
        s.remove(key, deleted).get(other) == s.get(other),
{
    hex_is_injective(key, other);
}

/// A request is refused for two reasons alone, the size of the value before the number of
/// records, and a refused request changes nothing.
pub proof fn refused_exactly_over_the_limits(
    s: StoreOnDisk,
    record: RecordView,
    written: bool,
    left: Option<Seq<u8>>,
)
    ensures
        s.put_result(record) == Err::<(), Error>(Error::ValueTooLarge) <==> record.value.len()
            > s.max_value_bytes,
        s.put_result(record) == Err::<(), Error>(Error::MaxRecords) <==> record.value.len()
            <= s.max_value_bytes && s.keys.len() >= s.max_records,
        s.put_result(record) is Err ==> s.put(record, written, left) == s,
{
}

/// Storing a record keeps the invariant. Only a write that fails can break it, and only by
/// garbling the file of a key that the store knows.
pub proof fn put_keeps_invariant(
    s: StoreOnDisk,
    record: RecordView,
    written: bool,
    left: Option<Seq<u8>>,
)
    requires
        s.inv(),
        s.stores(record) && !written && s.keys.contains(record.key) ==> s.may_hold(
            record.key,
            left,
        ),
    ensures
        s.put(record, written, left).inv(),
{
    last_step_ends_request(s, record);
    if s.stores(record) {
        let after = s.put(record, written, left);
        assert forall|key: Seq<u8>| #[trigger] after.keys.contains(key) implies after.may_hold(
            key,
            after.read(hex(key)),
        ) by {
            hex_is_injective(key, record.key);
            if key != record.key {
                assert(s.keys.contains(key));
            }
        }
    }
}

/// Removing a record keeps the invariant.
pub proof fn remove_keeps_invariant(s: StoreOnDisk, key: Seq<u8>, deleted: bool)
    requires
        s.inv(),
    ensures
        s.remove(key, deleted).inv(),
{
    let after = s.remove(key, deleted);
    assert forall|other: Seq<u8>| #[trigger] after.keys.contains(other) implies after.may_hold(
        other,
        after.read(hex(other)),
    ) by {
        hex_is_injective(key, other);
        assert(s.keys.contains(other));
    }
}

/// Keeping some records and removing the others keeps the invariant, leaves what is found under
/// the kept keys alone, and lets nothing be found under the others, even if their files could
/// not be deleted.
pub proof fn retain_keeps_invariant(
    s: StoreOnDisk,
    kept: Set<Seq<u8>>,
    deleted: Set<Seq<char>>,
)
    requires
        s.inv(),
        kept.subset_of(s.keys),
    ensures
        s.keep_only(kept, deleted).inv(),
        forall|key: Seq<u8>| #[trigger]
            s.keep_only(kept, deleted).get(key) == (if kept.contains(key) {
                s.get(key)
            } else {
                None
            }),
{
    let after = s.keep_only(kept, deleted);
    let name = |key: Seq<u8>| hex(key);
    let gone = s.keys.difference(kept).map(name);
    vstd::set_lib::lemma_len_subset(kept, s.keys);
    assert forall|key: Seq<u8>| kept.contains(key) implies !#[trigger] gone.contains(hex(key)) by {
        if gone.contains(hex(key)) {
            let other = choose|other: Seq<u8>|
                s.keys.difference(kept).contains(other) && name(other) == hex(key);
            hex_is_injective(key, other);
        }
    }
    assert forall|key: Seq<u8>| #[trigger] after.keys.contains(key) implies after.may_hold(
        key,
        after.read(hex(key)),
    ) by {
        assert(s.keys.contains(key));
        assert(!gone.contains(hex(key)));
    }
    assert forall|key: Seq<u8>| #[trigger] after.get(key) == (if kept.contains(key) {
        s.get(key)
    } else {
        None
    }) by {
        if kept.contains(key) {
            assert(s.keys.contains(key));
            assert(!gone.contains(hex(key)));
        }
    }
}

/// Under the invariant every key that the store knows can be found, and no other.
pub proof fn known_keys_are_found(s: StoreOnDisk, key: Seq<u8>)
    requires
        s.inv(),
    ensures
        s.get(key) is Some <==> s.keys.contains(key),
{
}

/// Nothing that is stored is ever touched, except where a spend arrives under its own name and
/// the file of that name holds a different spend.
pub proof fn only_double_spends_overwrite(
    s: StoreOnDisk,
    record: RecordView,
    written: bool,
    left: Option<Seq<u8>>,
)
    requires
        s.keys.contains(record.key),
        s.put(record, written, left) != s,
    ensures
        content_of(record.value) == ContentView::DbcSpend(Some(record.key)),
        s.read(hex(record.key)) is Some,
        local_relation(record.value, s.read(hex(record.key))) == LocalSpend::Different,
{
}

/// A chunk, a register or opaque bytes that arrive under a key that is taken change nothing.
pub proof fn only_spends_overwrite(
    s: StoreOnDisk,
    record: RecordView,
    written: bool,
    left: Option<Seq<u8>>,
)
    requires
        s.keys.contains(record.key),
        !(content_of(record.value) is DbcSpend),
    ensures
        s.put(record, written, left) == s,
{
}

/// A file of a key that the store knows stays as it is, whatever arrives under that key, if no
/// spend stands behind the first four bytes of the file.
pub proof fn only_spends_are_overwritten(
    s: StoreOnDisk,
    record: RecordView,
    written: bool,
    left: Option<Seq<u8>>,
)
    requires
        s.keys.contains(record.key),
    ensures
        (s.read(hex(record.key)) matches Some(stored) ==> stored.len() < RecordHeader::SIZE
            || spend_dbc_id(payload_of(stored)) is None) ==> s.put(record, written, left) == s,
{
}

/// The records that a walk comes to when it still has `remaining` to visit.
pub open spec fn walked(remaining: Seq<Seq<u8>>, s: StoreOnDisk) -> Seq<RecordView>
    decreases remaining.len(),
{
    match walk_step(remaining) {
        RecordsStepView::Read { key, file } if remaining.len() > 0 => {
            let rest = walked(walk_rest(remaining), s);
            match record_in_file(key, s.read(file)) {
                Some(record) => seq![record] + rest,
                None => rest,
            }
        },
        _ => Seq::empty(),
    }
}

/// A walk over the keys of a store comes to exactly those records that can be found by their
/// key.
pub proof fn walk_comes_to_what_can_be_found(
    s: StoreOnDisk,
    remaining: Seq<Seq<u8>>,
    record: RecordView,
)
    requires
        remaining.to_set() == s.keys,
    ensures
        walked(remaining, s).contains(record) <==> s.get(record.key) == Some(record),
{
    lemma_walked(remaining, s, record);
    assert(remaining.contains(record.key) == remaining.to_set().contains(record.key));
}

proof fn lemma_walked(remaining: Seq<Seq<u8>>, s: StoreOnDisk, record: RecordView)
    ensures
        walked(remaining, s).contains(record) <==> remaining.contains(record.key)
            && record_in_file(record.key, s.read(hex(record.key))) == Some(record),
    decreases remaining.len(),
{
    if remaining.len() > 0 {
        let (first, rest) = (remaining[0], walk_rest(remaining));
        lemma_walked(rest, s, record);
        assert(remaining =~= seq![first] + rest);
        lemma_contains_in_front(first, rest, record.key);
        if let Some(found) = record_in_file(first, s.read(hex(first))) {
            lemma_contains_in_front(found, walked(rest, s), record);
        }
    }
}

proof fn lemma_contains_in_front<A>(first: A, rest: Seq<A>, x: A)
    ensures
        (seq![first] + rest).contains(x) <==> first == x || rest.contains(x),
{
    let all = seq![first] + rest;
    assert(all[0] == first);
    if rest.contains(x) {
        let i = choose|i: int| 0 <= i < rest.len() && rest[i] == x;
        assert(all[i + 1] == x);
    }
    if all.contains(x) && first != x {
        let i = choose|i: int| 0 <= i < all.len() && all[i] == x;
        assert(rest[i - 1] == x);
    }
}

/// A header reads back as it was written, whatever follows it.
pub proof fn header_round_trip(header: RecordHeader, rest: Seq<u8>)
    ensures
        header_bytes(header).len() == RecordHeader::SIZE,
        header_of(header_bytes(header) + rest) == Some(header),
        payload_of(header_bytes(header) + rest) == rest,
{
    assert(payload_of(header_bytes(header) + rest) =~= rest);
}

/// Two headers are encoded alike only if they are the same.
pub proof fn headers_are_told_apart(a: RecordHeader, b: RecordHeader)
    ensures
        header_bytes(a) == header_bytes(b) <==> a == b,
{
    header_round_trip(a, Seq::empty());
    header_round_trip(b, Seq::empty());
}

/// The record of a chunk holds the chunk, and belongs under the key that it carries: a store
/// with room for it that does not know it yet stores it.
pub proof fn chunk_record_is_stored(s: StoreOnDisk, content: Seq<u8>, left: Option<Seq<u8>>)
    ensures
        header_of(chunk_record(content).value) == Some(RecordHeader { kind: RecordKind::Chunk }),
        payload_of(chunk_record(content).value) == content,
        content_of(chunk_record(content).value) == ContentView::Chunk(content_name(content)),
        StoreOnDisk::filed_correctly(chunk_record(content).key, chunk_record(content).value),
        content.len() + RecordHeader::SIZE <= s.max_value_bytes && s.keys.len() < s.max_records
            && !s.keys.contains(content_name(content)) ==> {
            &&& s.stores(chunk_record(content))
            &&& s.put(chunk_record(content), true, left).get(content_name(content)) == Some(
                chunk_record(content),
            )
        },
{
    header_round_trip(RecordHeader { kind: RecordKind::Chunk }, content);
    if s.stores(chunk_record(content)) {
        put_then_get(s, chunk_record(content), left);
    }
}

/// How a request to store a record starts is told by the limits, the keys and the bytes of the
/// value alone. A value over the limit is refused, then a store that is full refuses. A chunk has
/// to arrive under the name of what follows its header, a spend under the name of the certificate
/// that it spends; other values may arrive under any key. What may be stored is written as it
/// arrived if its key is free. If the key is taken, a spend is held against the file of the key,
/// and everything else is ignored.
pub proof fn requests_start_as_their_bytes_tell(
    max_value_bytes: nat,
    max_records: nat,
    keys: Set<Seq<u8>>,
    record: RecordView,
)
    ensures
        ({
            let value = record.value;
            let step = put_step(max_value_bytes, max_records, keys, record, content_of(value));
            let fits = value.len() <= max_value_bytes && keys.len() < max_records;
            let taken = keys.contains(record.key);
            let headed = value.len() >= 4 && value[1] == 0 && value[2] == 0 && value[3] == 0;
            let rest = value.subrange(4, value.len() as int);
            let chunk = headed && value[0] == 0;
            let spend = headed && value[0] == 1;
            let at_home = if chunk {
                record.key == content_name(rest)
            } else if spend {
                spend_dbc_id(rest) is Some && record.key == content_name(
                    spend_dbc_id(rest)->Some_0,
                )
            } else {
                true
            };
            &&& step == (PutStepView::Done { result: Err(Error::ValueTooLarge) }) <==> value.len()
                > max_value_bytes
            &&& step == (PutStepView::Done { result: Err(Error::MaxRecords) }) <==> value.len()
                <= max_value_bytes && keys.len() >= max_records
            &&& step is Write <==> fits && at_home && !taken
            &&& step is ReadLocal <==> fits && at_home && taken && spend
            &&& step == (PutStepView::Done { result: Ok(()) }) <==> fits && (!at_home || taken
                && !spend)
            &&& step is Write ==> step->key == record.key && step->Write_file == hex(record.key)
                && step->value == value
            &&& step is ReadLocal ==> step->ReadLocal_file == hex(record.key) && step->record
                == record
        }),
{
    values_are_told_by_their_bytes(record.value);
}

/// How a spend relates to what the file of its key holds is told by comparing the two spends: a
/// file that is too short for a header or holds no spend behind it cannot be read as one, and
/// otherwise the two are the same exactly if they compare equal.
pub proof fn stored_spends_are_compared(value: Seq<u8>, stored: Seq<u8>)
    requires
        value.len() >= 4,
    ensures
        local_relation(value, None) == LocalSpend::Missing,
        ({
            let relation = local_relation(value, Some(stored));
            let arriving = value.subrange(4, value.len() as int);
            let kept = stored.subrange(4, stored.len() as int);
            let readable = stored.len() >= 4 && spend_dbc_id(kept) is Some;
            &&& relation == LocalSpend::Unreadable <==> !readable
            &&& relation == LocalSpend::Same <==> readable && signed_spends_equal(arriving, kept)
            &&& relation == LocalSpend::Different <==> readable && !signed_spends_equal(
                arriving,
                kept,
            )
            &&& relation != LocalSpend::Missing
        }),
{
    payload_follows_four_bytes(value);
    payload_follows_four_bytes(stored);
}

/// A spend under a key that is taken is written exactly if the stored spend differs from it, and
/// written as it arrived. In every other case the request is answered and nothing happens.
pub proof fn only_different_spends_are_written(record: RecordView, relation: LocalSpend)
    ensures
        overwrite_step(record, relation) is Write <==> relation == LocalSpend::Different,
        overwrite_step(record, relation) is Write ==> overwrite_step(record, relation)->key
            == record.key && overwrite_step(record, relation)->Write_file == hex(record.key)
            && overwrite_step(record, relation)->value == record.value,
        relation != LocalSpend::Different ==> overwrite_step(record, relation) == (
        PutStepView::Done { result: Ok(()) }),
{
}

/// A spend under a key that is free is stored exactly if it fits and its key is the name of the
/// certificate that it spends. What else the spend holds plays no part.
pub proof fn spends_are_stored_under_their_certificate(s: StoreOnDisk, record: RecordView)
    requires
        record.value.len() >= 4,
        record.value[0] == 1 && record.value[1] == 0 && record.value[2] == 0 && record.value[3]
            == 0,
        !s.keys.contains(record.key),
    ensures
        ({
            let id = spend_dbc_id(record.value.subrange(4, record.value.len() as int));
            s.stores(record) <==> id is Some && record.key == content_name(id->Some_0)
                && record.value.len() <= s.max_value_bytes && s.keys.len() < s.max_records
        }),
{
    requests_start_as_their_bytes_tell(s.max_value_bytes, s.max_records, s.keys, record);
}

/// A double spend is written: if a store with room knows the name of an arriving spend, and the
/// file of that name holds a spend that does not compare equal, the arriving one takes its place
/// and is found from there on. If the two compare equal, nothing changes.
pub proof fn double_spends_are_written(s: StoreOnDisk, record: RecordView, left: Option<Seq<u8>>)
    requires
        record.value.len() >= 4,
        record.value[0] == 1 && record.value[1] == 0 && record.value[2] == 0 && record.value[3]
            == 0,
        record.value.len() <= s.max_value_bytes,
        s.keys.len() < s.max_records,
        s.keys.contains(record.key),
        s.files.contains_key(hex(record.key)),
        s.files[hex(record.key)].len() >= 4,
    ensures
        ({
            let stored = s.files[hex(record.key)];
            let arriving = record.value.subrange(4, record.value.len() as int);
            let kept = stored.subrange(4, stored.len() as int);
            spend_dbc_id(arriving) is Some && record.key == content_name(
                spend_dbc_id(arriving)->Some_0,
            ) && spend_dbc_id(kept) is Some ==> {
                &&& s.stores(record) <==> !signed_spends_equal(arriving, kept)
                &&& !signed_spends_equal(arriving, kept) ==> s.put(record, true, left).get(
                    record.key,
                ) is Some && s.put(record, true, left).get(record.key)->Some_0.value
                    == record.value
                &&& signed_spends_equal(arriving, kept) ==> s.put(record, true, left) == s
            }
        }),
{
    requests_start_as_their_bytes_tell(s.max_value_bytes, s.max_records, s.keys, record);
    stored_spends_are_compared(record.value, s.files[hex(record.key)]);
    let relation = local_relation(record.value, s.read(hex(record.key)));
    only_different_spends_are_written(record, relation);
}

/// What is found after a record was stored is that record: the same key and, byte for byte, the
/// same value. Who published the record and when it expires is not kept.
pub proof fn stored_values_come_back_whole(
    s: StoreOnDisk,
    record: RecordView,
    left: Option<Seq<u8>>,
)
    requires
        s.stores(record),
    ensures
        ({
            let found = s.put(record, true, left).get(record.key);
            &&& found is Some
            &&& found->Some_0.key == record.key
            &&& found->Some_0.value.len() == record.value.len()
            &&& forall|i: int|
                0 <= i < record.value.len() ==> #[trigger] found->Some_0.value[i]
                    == record.value[i]
            &&& found->Some_0.value == record.value
            &&& found->Some_0.publisher is None
            &&& found->Some_0.expires is None
        }),
{
    last_step_ends_request(s, record);
    files_are_read_whole(record.key, Some(record.value));
}

} // verus!
