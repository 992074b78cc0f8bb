//! The requests that a store answers, as sequences of steps.
//!
//! The store itself touches no file. Where a request needs one, the store says which, and the
//! caller reports back what came of it.

use vstd::prelude::*;

use crate::content::ContentView;
use crate::hex::hex;
use crate::record::Key;
use crate::record::Record;
use crate::record::RecordView;
use crate::record::plain_record;
use crate::spend::LocalSpend;

verus! {

/// Why a store refuses a record.
#[derive(Debug, Clone, Copy, PartialEq, Eq, Structural)]
pub enum Error {
    /// The store holds as many records as it may.
    MaxRecords,
    /// The value is too large.
    ValueTooLarge,
}

/// The next step of a request to store a record.
#[derive(Debug)]
pub enum PutStep {
    /// The request is answered.
    Done { result: Result<(), Error> },
    /// `file` is to be read, and `put_local_read` called with the record and what was read.
    ReadLocal { file: String, record: Record },
    /// `value` is to be written to `file`, and `put_written` called with the key and whether
    /// that went well.
    Write { key: Key, file: String, value: Vec<u8> },
}

/// What a step of a request to store a record says.
pub enum PutStepView {
    Done { result: Result<(), Error> },
    ReadLocal { file: Seq<char>, record: RecordView },
    Write { key: Seq<u8>, file: Seq<char>, value: Seq<u8> },
}

impl View for PutStep {
    type V = PutStepView;

    open spec fn view(&self) -> PutStepView {
        match *self {
            PutStep::Done { result } => PutStepView::Done { result },
            PutStep::ReadLocal { file, record } => PutStepView::ReadLocal {
                file: file@,
                record: record@,
            },
            PutStep::Write { key, file, value } => PutStepView::Write {
                key: key@,
                file: file@,
                value: value@,
            },
        }
    }
}

/// The answer to a request that changes nothing and is no mistake of the requester.
pub open spec fn ignored() -> PutStepView {
    PutStepView::Done { result: Ok(()) }
}

/// The step that writes a record to its file.
pub open spec fn write_step(record: RecordView) -> PutStepView {
    PutStepView::Write { key: record.key, file: hex(record.key), value: record.value }
}

/// Why a store with the given limits that holds `keys` refuses a record with `value`, if it does.
pub open spec fn refusal(
    max_value_bytes: nat,
    max_records: nat,
    keys: Set<Seq<u8>>,
    value: Seq<u8>,
) -> Option<Error> {
    if value.len() > max_value_bytes {
        Some(Error::ValueTooLarge)
    } else if keys.len() >= max_records {
        Some(Error::MaxRecords)
    } else {
        None
    }
}

/// The first step of a request to store `record` that is not refused, where the value turned out
/// to hold `content` and `taken` tells whether a record has the key already.
///
/// A chunk, a register and opaque bytes are written only under a key that is free. A chunk and a
/// spend have to be stored under their own name. A spend under a key that is taken is held
/// against what is stored there.
pub open spec fn content_step(
    taken: bool,
    record: RecordView,
    content: ContentView,
) -> PutStepView {
    match content {
        ContentView::Opaque | ContentView::Register => if taken {
            ignored()
        } else {
            write_step(record)
        },
        ContentView::Chunk(name) => if taken || record.key != name {
            ignored()
        } else {
            write_step(record)
        },
        ContentView::DbcSpend(None) => ignored(),
        ContentView::DbcSpend(Some(name)) => if record.key != name {
            ignored()
        } else if taken {
            PutStepView::ReadLocal { file: hex(record.key), record }
        } else {
            write_step(record)
        },
    }
}

/// The first step of a request to store `record`, whose value turned out to hold `content`, in
/// a store with the given limits that holds `keys`.
pub open spec fn put_step(
    max_value_bytes: nat,
    max_records: nat,
    keys: Set<Seq<u8>>,
    record: RecordView,
    content: ContentView,
) -> PutStepView {
    match refusal(max_value_bytes, max_records, keys, record.value) {
        Some(error) => PutStepView::Done { result: Err(error) },
        None => content_step(keys.contains(record.key), record, content),
    }
}

/// The step that follows once a stored spend was held against the one in `record`: only a
/// double spend is written.
pub open spec fn overwrite_step(record: RecordView, relation: LocalSpend) -> PutStepView {
    match relation {
        LocalSpend::Missing | LocalSpend::Unreadable | LocalSpend::Same => ignored(),
        LocalSpend::Different => write_step(record),
    }
}

/// The record that the contents of a file make.
pub open spec fn record_in_file(key: Seq<u8>, contents: Option<Seq<u8>>) -> Option<RecordView> {
    match contents {
        Some(value) => Some(plain_record(key, value)),
        None => None,
    }
}

/// The view of optional bytes.
pub open spec fn optional_bytes(bytes: Option<Vec<u8>>) -> Option<Seq<u8>> {
    match bytes {
        Some(bytes) => Some(bytes@),
        None => None,
    }
}

/// The next step of a check on an attempt to overwrite a record.
#[derive(Debug)]
pub enum OverwriteStep {
    /// The check is over.
    Verdict { allowed: bool },
    /// `file` is to be read, and `overwrite_local_read` called with what was read.
    ReadLocal { file: String },
}

/// What a step of a check on an attempt to overwrite a record says.
pub enum OverwriteStepView {
    Verdict { allowed: bool },
    ReadLocal { file: Seq<char> },
}

impl View for OverwriteStep {
    type V = OverwriteStepView;

    open spec fn view(&self) -> OverwriteStepView {
        match *self {
            OverwriteStep::Verdict { allowed } => OverwriteStepView::Verdict { allowed },
            OverwriteStep::ReadLocal { file } => OverwriteStepView::ReadLocal { file: file@ },
        }
    }
}

/// The view of a step leaves nothing out.
pub proof fn views_of_put_steps_are_complete(step: PutStep)
    ensures
        match step {
            PutStep::Done { result } => step@ is Done && step@->result == result,
            PutStep::ReadLocal { file, record } => step@ is ReadLocal && step@->ReadLocal_file
                == file@ && step@->record == record@,
            PutStep::Write { key, file, value } => step@ is Write && step@->key == key@
                && step@->Write_file == file@ && step@->value == value@,
        },
{
}

/// The view of a step of a check leaves nothing out.
pub proof fn views_of_overwrite_steps_are_complete(step: OverwriteStep)
    ensures
        match step {
            OverwriteStep::Verdict { allowed } => step@ is Verdict && step@->allowed == allowed,
            OverwriteStep::ReadLocal { file } => step@ is ReadLocal && step@->file == file@,
        },
{
}

/// The view of optional bytes leaves nothing out.
pub proof fn views_of_optional_bytes_are_complete(bytes: Option<Vec<u8>>)
    ensures
        optional_bytes(bytes) is Some <==> bytes is Some,
        bytes is Some ==> optional_bytes(bytes)->Some_0 == bytes->Some_0@,
{
}

/// A file that could be read gives a record with the whole contents of the file as its value,
/// under the key that was asked for.
pub proof fn files_are_read_whole(key: Seq<u8>, contents: Option<Seq<u8>>)
    ensures
        record_in_file(key, contents) is Some <==> contents is Some,
        contents is Some ==> {
            let record = record_in_file(key, contents)->Some_0;
            &&& record.key == key
            &&& record.value == contents->Some_0
            &&& record.publisher is None
            &&& record.expires is None
        },
{
}

} // verus!
