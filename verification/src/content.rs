//! What the value of a record holds.

use vstd::prelude::*;

use crate::bytes::bytes_from;
use crate::chunk::content_name;
use crate::chunk::xor_name_of;
use crate::header::RecordHeader;
use crate::header::RecordKind;
use crate::header::header_of;
use crate::record::Key;
use crate::spend::name_of_spend;
use crate::spend::spend_dbc_id;
use crate::spend::spend_name;

verus! {

/// What the value of a record turned out to hold.
#[derive(Debug)]
pub enum RecordContent {
    /// Bytes without a readable header.
    Opaque,
    /// A chunk, and its name.
    Chunk(Key),
    /// Bytes announced as a spend, and the name of the spend if they hold one.
    DbcSpend(Option<Key>),
    /// A register.
    Register,
}

/// What the value of a record can hold.
pub enum ContentView {
    Opaque,
    Chunk(Seq<u8>),
    DbcSpend(Option<Seq<u8>>),
    Register,
}

impl View for RecordContent {
    type V = ContentView;

    open spec fn view(&self) -> ContentView {
        match *self {
            RecordContent::Opaque => ContentView::Opaque,
            RecordContent::Chunk(name) => ContentView::Chunk(name@),
            RecordContent::DbcSpend(name) => ContentView::DbcSpend(
                match name {
                    Some(key) => Some(key@),
                    None => None,
                },
            ),
            RecordContent::Register => ContentView::Register,
        }
    }
}

/// What follows the header of a value.
pub open spec fn payload_of(value: Seq<u8>) -> Seq<u8> {
    value.skip(RecordHeader::SIZE as int)
}

/// What `value` holds.
pub open spec fn content_of(value: Seq<u8>) -> ContentView {
    match header_of(value) {
        None => ContentView::Opaque,
        Some(header) => match header.kind {
            RecordKind::Chunk => ContentView::Chunk(content_name(payload_of(value))),
            RecordKind::DbcSpend => ContentView::DbcSpend(spend_name(payload_of(value))),
            RecordKind::Register => ContentView::Register,
        },
    }
}

/// Finds out what `value` holds.
pub fn examine(value: &[u8]) -> (content: RecordContent)
    ensures
        content@ == content_of(value@),
        content is Opaque <==> !(value@.len() >= 4 && value@[0] <= 2 && value@[1] == 0 && value@[2]
            == 0 && value@[3] == 0),
        content is Chunk ==> value@[0] == 0 && content->Chunk_0@ == content_name(
            value@.subrange(4, value@.len() as int),
        ),
        content is DbcSpend ==> value@[0] == 1 && (match spend_dbc_id(
            value@.subrange(4, value@.len() as int),
        ) {
            Some(id) => content->DbcSpend_0 is Some && content->DbcSpend_0->Some_0@
                == content_name(id),
            None => content->DbcSpend_0 is None,
        }),
        content is Register ==> value@[0] == 2,
{
    proof {
        values_are_told_by_their_bytes(value@);
    }
    match RecordHeader::deserialize(value) {
        Err(_) => RecordContent::Opaque,
        Ok(header) => {
            let payload: Vec<u8> = bytes_from(value, RecordHeader::SIZE);
            match header.kind {
                RecordKind::Chunk => {
                    let name: [u8; 32] = xor_name_of(payload.as_slice());
                    RecordContent::Chunk(Key::new(name.as_slice()))
                },
                RecordKind::DbcSpend => RecordContent::DbcSpend(
                    name_of_spend(payload.as_slice()),
                ),
                RecordKind::Register => RecordContent::Register,
            }
        },
    }
}

/// What a value holds is told by its bytes: three zeroes behind the first byte make a header, and
/// the first byte tells the kind. A chunk is named by what follows the header, a spend by the
/// certificate that is spent in what follows.
pub proof fn values_are_told_by_their_bytes(value: Seq<u8>)
    ensures
        ({
            let headed = value.len() >= 4 && value[1] == 0 && value[2] == 0 && value[3] == 0;
            let rest = value.subrange(4, value.len() as int);
            &&& headed && value[0] == 0 ==> content_of(value) == ContentView::Chunk(
                content_name(rest),
            )
            &&& headed && value[0] == 1 && spend_dbc_id(rest) is Some ==> content_of(value)
                == ContentView::DbcSpend(Some(content_name(spend_dbc_id(rest)->Some_0)))
            &&& headed && value[0] == 1 && spend_dbc_id(rest) is None ==> content_of(value)
                == ContentView::DbcSpend(None)
            &&& headed && value[0] == 2 ==> content_of(value) == ContentView::Register
            &&& !headed || value[0] > 2 ==> content_of(value) == ContentView::Opaque
        }),
{
    crate::header::headers_are_told_by_four_bytes(value);
    payload_follows_four_bytes(value);
}

/// The payload of a value is everything behind its first four bytes.
pub proof fn payload_follows_four_bytes(value: Seq<u8>)
    ensures
        value.len() >= 4 ==> payload_of(value) == value.subrange(4, value.len() as int),
        value.len() >= 4 ==> value.subrange(0, 4) + payload_of(value) == value,
{
    if value.len() >= 4 {
        assert(payload_of(value) =~= value.subrange(4, value.len() as int));
        assert(value.subrange(0, 4) + payload_of(value) =~= value);
    }
}

/// The view of what a value turned out to hold tells the kinds apart and keeps the names.
pub proof fn views_of_contents_are_complete(content: RecordContent)
    ensures
        content is Opaque <==> content@ is Opaque,
        content is Chunk <==> content@ is Chunk,
        content is DbcSpend <==> content@ is DbcSpend,
        content is Register <==> content@ is Register,
        content is Chunk ==> content@->Chunk_0 == content->Chunk_0@,
        content is DbcSpend ==> (content@->DbcSpend_0 is Some <==> content->DbcSpend_0 is Some),
        content is DbcSpend && content->DbcSpend_0 is Some ==> content@->DbcSpend_0->Some_0
            == content->DbcSpend_0->Some_0@,
{
}

} // verus!
