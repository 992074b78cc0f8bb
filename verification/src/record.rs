//! Keys and records.

use vstd::prelude::*;

use crate::bytes::bytes_equal;

verus! {

/// A point on the local monotonic clock. The library carries such points and looks into none.
#[verifier::external_type_specification]
#[verifier::external_body]
pub struct ExInstant(std::time::Instant);

/// The key of a record: an arbitrary byte string.
#[derive(Debug, PartialEq, Eq, PartialOrd, Ord, Hash)]
pub struct Key {
    bytes: Vec<u8>,
}

impl View for Key {
    type V = Seq<u8>;

    closed spec fn view(&self) -> Seq<u8> {
        self.bytes@
    }
}

impl Clone for Key {
    fn clone(&self) -> (copy: Self)
        ensures
            copy@ == self@,
    {
        Key::new(self.bytes.as_slice())
    }
}

impl Key {
    /// Makes a key out of a copy of `bytes`.
    pub fn new(bytes: &[u8]) -> (key: Key)
        ensures
            key@ == bytes@,
    {
        Key { bytes: vstd::slice::slice_to_vec(bytes) }
    }

    /// The bytes of the key.
    pub fn as_bytes(&self) -> (bytes: &[u8])
        ensures
            bytes@ == self@,
    {
        self.bytes.as_slice()
    }

    /// A copy of the bytes of the key.
    pub fn to_vec(&self) -> (bytes: Vec<u8>)
        ensures
            bytes@ == self@,
    {
        vstd::slice::slice_to_vec(self.bytes.as_slice())
    }

    /// Tells whether two keys are the same.
    pub fn same_as(&self, other: &Key) -> (same: bool)
        ensures
            same == (self@ == other@),
    {
        bytes_equal(self.as_bytes(), other.as_bytes())
    }
}

/// A record: a value under a key, with what its publisher said about it.
#[derive(Debug, PartialEq, Eq)]
pub struct Record {
    /// The key of the record.
    pub key: Key,
    /// The value of the record.
    pub value: Vec<u8>,
    /// The identity of the peer that published the record.
    pub publisher: Option<Vec<u8>>,
    /// When the record expires.
    pub expires: Option<std::time::Instant>,
}

/// What a record says.
pub struct RecordView {
    pub key: Seq<u8>,
    pub value: Seq<u8>,
    pub publisher: Option<Seq<u8>>,
    pub expires: Option<std::time::Instant>,
}

impl View for Record {
    type V = RecordView;

    open spec fn view(&self) -> RecordView {
        RecordView {
            key: self.key@,
            value: self.value@,
            publisher: match self.publisher {
                Some(peer) => Some(peer@),
                None => None,
            },
            expires: self.expires,
        }
    }
}

impl Clone for Record {
    fn clone(&self) -> (copy: Self)
        ensures
            copy@ == self@,
            copy.key@ == self.key@,
            copy.value@ == self.value@,
            copy.publisher is Some <==> self.publisher is Some,
            self.publisher is Some ==> copy.publisher->Some_0@ == self.publisher->Some_0@,
            copy.expires == self.expires,
    {
        Record {
            key: self.key.clone(),
            value: vstd::slice::slice_to_vec(self.value.as_slice()),
            publisher: match &self.publisher {
                Some(peer) => Some(vstd::slice::slice_to_vec(peer.as_slice())),
                None => None,
            },
            expires: self.expires,
        }
    }
}

/// A record that names no publisher and never expires.
pub open spec fn plain_record(key: Seq<u8>, value: Seq<u8>) -> RecordView {
    RecordView { key, value, publisher: None, expires: None }
}

impl Record {
    /// A record that names no publisher and never expires.
    pub fn new(key: Key, value: Vec<u8>) -> (record: Record)
        ensures
            record@ == plain_record(key@, value@),
            record.key@ == key@,
            record.value@ == value@,
            record.publisher is None,
            record.expires is None,
    {
        Record { key, value, publisher: None, expires: None }
    }
}

/// The view of a record leaves nothing out: it holds every byte of the key, of the value and of
/// the publisher.
pub proof fn views_of_records_are_complete(record: Record)
    ensures
        record@.key == record.key@,
        record@.value == record.value@,
        record@.publisher is Some <==> record.publisher is Some,
        record.publisher is Some ==> record@.publisher->Some_0 == record.publisher->Some_0@,
        record@.expires == record.expires,
{
}

/// A record that names no publisher and never expires holds its key and its value unchanged.
pub proof fn plain_records_hold_key_and_value(key: Seq<u8>, value: Seq<u8>)
    ensures
        plain_record(key, value).key == key,
        plain_record(key, value).value == value,
        plain_record(key, value).publisher is None,
        plain_record(key, value).expires is None,
{
}

} // verus!
