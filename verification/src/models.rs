//! The persisted entity: one record per upload, never physically removed,
//! whose `is_deleted` flag is the single serialization point of the whole
//! lifecycle.

use vstd::prelude::*;
use crate::strutil::copy_str;

verus! {

/// Abstract value of a [`FileStorage`] record.
pub ghost struct RecordModel {
    pub id: int,
    pub file_name: Seq<char>,
    pub storage_name: Seq<char>,
    pub created_at: int,
    pub modified_at: int,
    pub deleted: bool,
}

impl RecordModel {
    /// The record after the one permitted mutation: the deleted flag set.
    pub open spec fn mark_deleted(self) -> RecordModel {
        RecordModel { deleted: true, ..self }
    }

    /// The composite name under which this record's blob is stored:
    /// `storage_name`, a dash, then `file_name`.
    pub open spec fn blob_key(self) -> Seq<char> {
        self.storage_name + seq!['-'] + self.file_name
    }
}

/// One upload's metadata: a sanitized display name, the server-generated
/// storage token, creation time (seconds since the epoch), and the terminal
/// deletion flag.
#[derive(Debug)]
pub struct FileStorage {
    pub id: i32,
    pub file_name: String,
    pub storage_name: String,
    pub created_at: i64,
    pub modified_at: i64,
    pub is_deleted: bool,
}

impl View for FileStorage {
    type V = RecordModel;

    open spec fn view(&self) -> RecordModel {
        RecordModel {
            id: self.id as int,
            file_name: self.file_name@,
            storage_name: self.storage_name@,
            created_at: self.created_at as int,
            modified_at: self.modified_at as int,
            deleted: self.is_deleted,
        }
    }
}

impl FileStorage {
    /// An owned copy with the same abstract value.
    pub fn duplicate(&self) -> (r: FileStorage)
        ensures
            r@ == self@,
    {
        FileStorage {
            id: self.id,
            file_name: copy_str(self.file_name.as_str()),
            storage_name: copy_str(self.storage_name.as_str()),
            created_at: self.created_at,
            modified_at: self.modified_at,
            is_deleted: self.is_deleted,
        }
    }
}

/// The caller-supplied part of a record: the sanitized display name and the
/// freshly generated storage token.
pub struct NewFileStorage<'a> {
    pub file_name: &'a str,
    pub storage_name: &'a str,
}

/// The abstract values of a sequence of records.
pub open spec fn records_view(v: Seq<FileStorage>) -> Seq<RecordModel> {
    Seq::new(v.len(), |i: int| v[i]@)
}

}
