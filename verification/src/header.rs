//! The header in front of every record value: it tells what kind of data the value holds.

use vstd::prelude::*;

verus! {

/// The error that bincode reports.
#[verifier::external_type_specification]
#[verifier::external_body]
pub struct ExBincodeErrorKind(bincode::ErrorKind);

/// What can go wrong while records are converted.
#[derive(Debug, Clone, Copy, PartialEq, Eq, Structural)]
pub enum ProtocolError {
    /// A header could not be read or written, or did not announce the expected kind.
    FailedToDeserializeRecordHeader,
}

/// The kinds of data that a record can hold.
#[derive(Debug, Clone, Copy, PartialEq, Eq, Structural)]
pub enum RecordKind {
    /// Immutable data, stored under the name of its content.
    Chunk,
    /// A signed spend of a digital bearer certificate.
    DbcSpend,
    /// A mutable register.
    Register,
}

/// The header of a record.
#[derive(Debug, Clone, Copy, PartialEq, Eq, Structural)]
pub struct RecordHeader {
    /// What the bytes behind the header hold.
    pub kind: RecordKind,
}

/// The integer that stands for a kind in an encoded header.
pub open spec fn kind_tag(kind: RecordKind) -> u32 {
    match kind {
        RecordKind::Chunk => 0,
        RecordKind::DbcSpend => 1,
        RecordKind::Register => 2,
    }
}

/// The kind that an integer stands for, if any.
pub open spec fn tag_kind(tag: int) -> Option<RecordKind> {
    if tag == 0 {
        Some(RecordKind::Chunk)
    } else if tag == 1 {
        Some(RecordKind::DbcSpend)
    } else if tag == 2 {
        Some(RecordKind::Register)
    } else {
        None
    }
}

/// The number that the first four bytes encode, least significant byte first.
pub open spec fn leading_u32(bytes: Seq<u8>) -> int
    recommends
        bytes.len() >= 4,
{
    bytes[0] + 256 * bytes[1] + 65536 * bytes[2] + 16777216 * bytes[3]
}

/// The header that `bytes` start with, if they start with one.
pub open spec fn header_of(bytes: Seq<u8>) -> Option<RecordHeader> {
    if bytes.len() < 4 {
        None
    } else {
        match tag_kind(leading_u32(bytes)) {
            Some(kind) => Some(RecordHeader { kind }),
            None => None,
        }
    }
}

/// The four bytes of an encoded header.
pub open spec fn header_bytes(header: RecordHeader) -> Seq<u8> {
    seq![kind_tag(header.kind) as u8, 0u8, 0u8, 0u8]
}

/// Calls `bincode::deserialize` for a `u32`.
///
/// bincode reads integers in their fixed width, least significant byte first, and leaves
/// trailing bytes alone: the call succeeds exactly on inputs of at least four bytes, and
/// the result is the number that the first four encode.
#[verifier::external_body]
fn bincode_decode_u32(bytes: &[u8]) -> (result: Result<u32, Box<bincode::ErrorKind>>)
    ensures
        result is Ok <==> bytes@.len() >= 4,
        result matches Ok(value) ==> value == leading_u32(bytes@),
{
    bincode::deserialize::<u32>(bytes)
}

/// Calls `bincode::serialize` on a `u32`.
///
/// Writing an integer into a vector cannot fail, and gives its four bytes, least
/// significant first.
#[verifier::external_body]
fn bincode_encode_u32(value: u32) -> (result: Result<Vec<u8>, Box<bincode::ErrorKind>>)
    ensures
        result is Ok,
        result->Ok_0@.len() == 4,
        leading_u32(result->Ok_0@) == value,
{
    bincode::serialize(&value)
}

impl RecordHeader {
    /// The number of bytes that an encoded header takes.
    pub const SIZE: usize = 4;

    /// Reads the header that `bytes` start with. What follows the header is ignored.
    pub fn deserialize(bytes: &[u8]) -> (result: Result<Self, ProtocolError>)
        ensures
            result == (match header_of(bytes@) {
                Some(header) => Ok(header),
                None => Err(ProtocolError::FailedToDeserializeRecordHeader),
            }),
    {
        match bincode_decode_u32(bytes) {
            Ok(0) => Ok(RecordHeader { kind: RecordKind::Chunk }),
            Ok(1) => Ok(RecordHeader { kind: RecordKind::DbcSpend }),
            Ok(2) => Ok(RecordHeader { kind: RecordKind::Register }),
            _ => Err(ProtocolError::FailedToDeserializeRecordHeader),
        }
    }

    /// Encodes the header.
    pub fn serialize(&self) -> (result: Result<Vec<u8>, ProtocolError>)
        ensures
            result matches Ok(bytes) && bytes@ == header_bytes(*self),
    {
        let tag: u32 = match self.kind {
            RecordKind::Chunk => 0,
            RecordKind::DbcSpend => 1,
            RecordKind::Register => 2,
        };
        match bincode_encode_u32(tag) {
            Ok(bytes) => {
                assert(bytes@ =~= header_bytes(*self));
                Ok(bytes)
            },
            Err(_) => Err(ProtocolError::FailedToDeserializeRecordHeader),
        }
    }
}

/// A value starts with a header exactly if its second, third and fourth byte are zero and the
/// first one is zero for a chunk, one for a spend or two for a register.
pub proof fn headers_are_told_by_four_bytes(bytes: Seq<u8>)
    ensures
        ({
            let flat = bytes.len() >= 4 && bytes[1] == 0 && bytes[2] == 0 && bytes[3] == 0;
            match header_of(bytes) {
                Some(header) => flat && bytes[0] == (match header.kind {
                    RecordKind::Chunk => 0,
                    RecordKind::DbcSpend => 1,
                    RecordKind::Register => 2int,
                }),
                None => !flat || bytes[0] > 2,
            }
        }),
{
}

/// The encoded header of a chunk starts with zero, that of a spend with one and that of a
/// register with two; three zeroes follow.
pub proof fn headers_are_encoded_in_four_bytes(header: RecordHeader)
    ensures
        header_bytes(header).len() == 4,
        header_bytes(header)[0] == (match header.kind {
            RecordKind::Chunk => 0,
            RecordKind::DbcSpend => 1,
            RecordKind::Register => 2int,
        }),
        header_bytes(header)[1] == 0 && header_bytes(header)[2] == 0 && header_bytes(header)[3]
            == 0,
{
}

} // verus!
