//! A walk over the records of a store.

use vstd::prelude::*;

use crate::hex::hex;
use crate::key_set::key_views;
use crate::record::Key;
use crate::record::Record;
use crate::record::RecordView;
use crate::record::plain_record;
use crate::steps::optional_bytes;
use crate::store::DiskBackedRecordStore;

verus! {

/// The next step of a walk over records.
#[derive(Debug)]
pub enum RecordsStep {
    /// The walk is over.
    Finished,
    /// `file` is to be read, and `file_read` called with the key and what was read.
    Read { key: Key, file: String },
    /// The walk came to this record.
    Found { record: Record },
}

/// What a step of a walk over records says.
pub enum RecordsStepView {
    Finished,
    Read { key: Seq<u8>, file: Seq<char> },
    Found { record: RecordView },
}

impl View for RecordsStep {
    type V = RecordsStepView;

    open spec fn view(&self) -> RecordsStepView {
        match *self {
            RecordsStep::Finished => RecordsStepView::Finished,
            RecordsStep::Read { key, file } => RecordsStepView::Read { key: key@, file: file@ },
            RecordsStep::Found { record } => RecordsStepView::Found { record: record@ },
        }
    }
}

/// A walk over records. Each record is read at the moment when the walk comes to it; one whose
/// file cannot be read is passed over.
#[derive(Debug)]
pub struct RecordsIterator<'a> {
    keys: &'a [Key],
    position: usize,
    storage_dir: &'a std::path::PathBuf,
    is_triggered: bool,
}

/// The step of a walk that still has `remaining` to visit.
pub open spec fn walk_step(remaining: Seq<Seq<u8>>) -> RecordsStepView {
    if remaining.len() == 0 {
        RecordsStepView::Finished
    } else {
        RecordsStepView::Read { key: remaining[0], file: hex(remaining[0]) }
    }
}

/// What a walk still has to visit after a step.
pub open spec fn walk_rest(remaining: Seq<Seq<u8>>) -> Seq<Seq<u8>> {
    if remaining.len() == 0 {
        remaining
    } else {
        remaining.drop_first()
    }
}

impl<'a> RecordsIterator<'a> {
    /// The keys that the walk has yet to visit.
    pub closed spec fn remaining(&self) -> Seq<Seq<u8>> {
        if self.is_triggered && self.position <= self.keys@.len() {
            key_views(self.keys@).skip(self.position as int)
        } else {
            Seq::empty()
        }
    }

    /// The directory where the records are stored.
    pub closed spec fn dir(&self) -> std::path::PathBuf {
        *self.storage_dir
    }

    /// A walk over the given keys. It ends at once unless it is triggered.
    pub fn new(keys: &'a [Key], storage_dir: &'a std::path::PathBuf, is_triggered: bool) -> (walk:
        Self)
        ensures
            walk.remaining() == (if is_triggered {
                key_views(keys@)
            } else {
                Seq::empty()
            }),
            walk.dir() == *storage_dir,
    {
        let walk: RecordsIterator<'a> = RecordsIterator {
            keys,
            position: 0,
            storage_dir,
            is_triggered,
        };
        assert(key_views(keys@).skip(0) =~= key_views(keys@));
        walk
    }

    /// The directory where the records are stored.
    pub fn storage_dir(&self) -> (dir: std::path::PathBuf)
        ensures
            dir == self.dir(),
    {
        self.storage_dir.clone()
    }

    /// Goes on to the next record.
    pub fn next(&mut self) -> (step: RecordsStep)
        ensures
            step@ == walk_step(old(self).remaining()),
            final(self).remaining() == walk_rest(old(self).remaining()),
            final(self).dir() == old(self).dir(),
            step is Finished <==> old(self).remaining().len() == 0,
            step is Finished ==> final(self).remaining() == old(self).remaining(),
            step is Read <==> old(self).remaining().len() > 0,
            step is Read ==> step->key@ == old(self).remaining()[0] && step->file@ == hex(
                old(self).remaining()[0],
            ) && seq![step->key@] + final(self).remaining() == old(self).remaining(),
    {
        if !self.is_triggered || self.position >= self.keys.len() {
            assert(self.remaining() =~= Seq::<Seq<u8>>::empty());
            return RecordsStep::Finished;
        }
        let key: Key = self.keys[self.position].clone();
        self.position = self.position + 1;
        assert(self.remaining() =~= walk_rest(old(self).remaining()));
        assert(seq![key@] + self.remaining() =~= old(self).remaining());
        let file: String = DiskBackedRecordStore::key_to_hex(&key);
        RecordsStep::Read { key, file }
    }

    /// Takes what was read from the file of `key`, if it could be read. If it could not, the
    /// walk goes on to the next record.
    pub fn file_read(&mut self, key: Key, contents: Option<Vec<u8>>) -> (step: RecordsStep)
        ensures
            final(self).dir() == old(self).dir(),
            contents is Some ==> step is Found && step->record.key@ == key@ && step->record.value@
                == contents->Some_0@ && step->record.publisher is None && step->record.expires
                is None,
            contents is None ==> !(step is Found),
            match optional_bytes(contents) {
                Some(value) => {
                    &&& step@ == (RecordsStepView::Found { record: plain_record(key@, value) })
                    &&& final(self).remaining() == old(self).remaining()
                },
                None => {
                    &&& step@ == walk_step(old(self).remaining())
                    &&& final(self).remaining() == walk_rest(old(self).remaining())
                },
            },
    {
        match DiskBackedRecordStore::read_from_disk(&key, contents) {
            Some(record) => RecordsStep::Found { record },
            None => self.next(),
        }
    }
}

/// The view of a step of a walk leaves nothing out.
pub proof fn views_of_records_steps_are_complete(step: RecordsStep)
    ensures
        match step {
            RecordsStep::Finished => step@ is Finished,
            RecordsStep::Read { key, file } => step@ is Read && step@->key == key@ && step@->file
                == file@,
            RecordsStep::Found { record } => step@ is Found && step@->record == record@,
        },
{
}

/// A walk visits its keys one after the other and leaves none out: the key that it comes to and
/// those that remain are those that were to be visited.
pub proof fn walks_visit_every_key(remaining: Seq<Seq<u8>>)
    ensures
        walk_step(remaining) is Finished <==> remaining.len() == 0,
        walk_step(remaining) is Finished || walk_step(remaining) is Read,
        walk_step(remaining) is Read ==> {
            &&& walk_step(remaining)->file == hex(walk_step(remaining)->key)
            &&& seq![walk_step(remaining)->key] + walk_rest(remaining) == remaining
        },
{
    if remaining.len() > 0 {
        assert(seq![remaining[0]] + walk_rest(remaining) =~= remaining);
    }
}

} // verus!
