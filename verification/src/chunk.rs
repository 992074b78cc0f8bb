//! Chunks: immutable data that is stored under the name of its content.

use vstd::prelude::*;

use crate::bytes::bytes_from;
use crate::header::ProtocolError;
use crate::header::RecordHeader;
use crate::header::RecordKind;
use crate::header::header_bytes;
use crate::header::header_of;
use crate::record::Key;
use crate::record::Record;
use crate::record::plain_record;

verus! {

/// The name that `xor_name::XorName::from_content` gives to a byte string: its SHA3-256 digest.
pub uninterp spec fn content_name(content: Seq<u8>) -> Seq<u8>;

/// Calls `xor_name::XorName::from_content`.
///
/// The name is a function of the content alone.
#[verifier::external_body]
pub(crate) fn xor_name_of(content: &[u8]) -> (name: [u8; 32])
    ensures
        name@ == content_name(content@),
{
    xor_name::XorName::from_content(content).0
}

/// Immutable data together with its name.
#[derive(Debug)]
pub struct Chunk {
    name: Key,
    value: Vec<u8>,
}

impl View for Chunk {
    type V = Seq<u8>;

    closed spec fn view(&self) -> Seq<u8> {
        self.value@
    }
}

impl Chunk {
    #[verifier::type_invariant]
    spec fn named_by_content(self) -> bool {
        self.name@ == content_name(self.value@)
    }

    /// Makes a chunk that holds `value`.
    pub fn new(value: Vec<u8>) -> (chunk: Chunk)
        ensures
            chunk@ == value@,
    {
        let name: [u8; 32] = xor_name_of(value.as_slice());
        Chunk { name: Key::new(name.as_slice()), value }
    }

    /// The name of the chunk, under which it is stored.
    pub fn name(&self) -> (name: &Key)
        ensures
            name@ == content_name(self@),
    {
        proof {
            use_type_invariant(self);
        }
        &self.name
    }

    /// The data of the chunk.
    pub fn value(&self) -> (value: &[u8])
        ensures
            value@ == self@,
    {
        self.value.as_slice()
    }
}

impl vstd::std_specs::convert::TryFromSpecImpl<Chunk> for Record {
    open spec fn obeys_try_from_spec() -> bool {
        false
    }

    open spec fn try_from_spec(value: Chunk) -> Result<Self, ProtocolError> {
        arbitrary()
    }
}

impl TryFrom<Chunk> for Record {
    type Error = ProtocolError;

    /// The record of a chunk: the chunk behind a header, under the name of the chunk.
    fn try_from(value: Chunk) -> (result: Result<Self, ProtocolError>)
        ensures
            result matches Ok(record) && record@ == chunk_record(value@),
            result is Ok && result->Ok_0@.key == content_name(value@) && result->Ok_0@.value
                == seq![0u8, 0u8, 0u8, 0u8] + value@ && result->Ok_0@.publisher is None
                && result->Ok_0@.expires is None,
    {
        let header: RecordHeader = RecordHeader { kind: RecordKind::Chunk };
        match header.serialize() {
            Ok(bytes) => {
                let mut record_value: Vec<u8> = bytes;
                record_value.extend_from_slice(value.value());
                assert(record_value@ =~= header_bytes(header) + value@);
                assert(header_bytes(header) =~= seq![0u8, 0u8, 0u8, 0u8]);
                Ok(Record::new(value.name().clone(), record_value))
            },
            Err(error) => Err(error),
        }
    }
}

/// The record of the chunk that holds `content`.
pub open spec fn chunk_record(content: Seq<u8>) -> crate::record::RecordView {
    plain_record(
        content_name(content),
        header_bytes(RecordHeader { kind: RecordKind::Chunk }) + content,
    )
}

impl vstd::std_specs::convert::TryFromSpecImpl<Record> for Chunk {
    open spec fn obeys_try_from_spec() -> bool {
        false
    }

    open spec fn try_from_spec(value: Record) -> Result<Self, ProtocolError> {
        arbitrary()
    }
}

impl TryFrom<Record> for Chunk {
    type Error = ProtocolError;

    /// The chunk that a record holds.
    fn try_from(value: Record) -> (result: Result<Self, ProtocolError>)
        ensures
            result is Ok <==> value@.value.len() >= 4 && value@.value[0] == 0 && value@.value[1]
                == 0 && value@.value[2] == 0 && value@.value[3] == 0,
            result is Ok ==> result->Ok_0@ == value@.value.subrange(4, value@.value.len() as int),
            match result {
                Ok(chunk) => {
                    &&& header_of(value@.value) == Some(RecordHeader { kind: RecordKind::Chunk })
                    &&& chunk@ == value@.value.skip(RecordHeader::SIZE as int)
                },
                Err(error) => {
                    &&& header_of(value@.value) != Some(RecordHeader { kind: RecordKind::Chunk })
                    &&& error == ProtocolError::FailedToDeserializeRecordHeader
                },
            },
    {
        proof {
            crate::header::headers_are_told_by_four_bytes(value@.value);
            crate::content::payload_follows_four_bytes(value@.value);
        }
        match RecordHeader::deserialize(value.value.as_slice()) {
            Ok(header) => {
                if header.kind != RecordKind::Chunk {
                    return Err(ProtocolError::FailedToDeserializeRecordHeader);
                }
                Ok(Chunk::new(bytes_from(value.value.as_slice(), RecordHeader::SIZE)))
            },
            Err(error) => Err(error),
        }
    }
}

/// The record of a chunk carries the name of the chunk as its key and nothing but four zeroes in
/// front of the data; the data is what follows them, so different chunks have different records.
pub proof fn chunk_records_hold_their_chunk(a: Seq<u8>, b: Seq<u8>)
    ensures
        chunk_record(a).key == content_name(a),
        chunk_record(a).value.len() == a.len() + 4,
        forall|i: int| 0 <= i < 4 ==> #[trigger] chunk_record(a).value[i] == 0,
        chunk_record(a).value.subrange(4, 4 + a.len() as int) == a,
        chunk_record(a).publisher is None,
        chunk_record(a).expires is None,
        chunk_record(a) == chunk_record(b) <==> a == b,
{
    assert(chunk_record(a).value.subrange(4, 4 + a.len() as int) =~= a);
    assert(chunk_record(b).value.subrange(4, 4 + b.len() as int) =~= b);
}

} // verus!
