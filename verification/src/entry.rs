//! Executable file-entry types and their views onto the model.

use vstd::prelude::*;
use crate::model::EntryModel;

verus! {

/// One file-system entry as the classifier receives it: the base name,
/// the full path (kept for reporting only), and the byte size.
pub struct FileEntry {
    pub name: String,
    pub path: String,
    pub size: u64,
}

impl View for FileEntry {
    type V = EntryModel;

    open spec fn view(&self) -> EntryModel {
        EntryModel { name: self.name@, path: self.path@, size: self.size }
    }
}

impl FileEntry {
    /// An owned copy with the same name, path and size.
    pub fn duplicate(&self) -> (r: FileEntry)
        ensures
            r@ == self@,
    {
        FileEntry { name: self.name.clone(), path: self.path.clone(), size: self.size }
    }
}

/// An entry together with its full byte content, for hash-based comparison
/// of in-memory data.
pub struct FileRecord {
    pub entry: FileEntry,
    pub content: Vec<u8>,
}

/// Model of a [`FileRecord`]: the entry attributes and the content bytes.
#[verifier::ext_equal]
pub struct RecordModel {
    pub entry: EntryModel,
    pub content: Seq<u8>,
}

impl View for FileRecord {
    type V = RecordModel;

    open spec fn view(&self) -> RecordModel {
        RecordModel { entry: self.entry@, content: self.content@ }
    }
}

/// The models of a sequence of entries, in order.
pub open spec fn models_of(s: Seq<FileEntry>) -> Seq<EntryModel> {
    s.map_values(|e: FileEntry| e@)
}

/// The models of a sequence of records, in order.
pub open spec fn records_of(s: Seq<FileRecord>) -> Seq<RecordModel> {
    s.map_values(|r: FileRecord| r@)
}

} // verus!
