//! The metadata store: the durable, append-only collection of records.  Its
//! `update_deleted` operation is the single serialization point for a record:
//! it decides the flag and flips it in one step, so of any number of callers
//! exactly one observes `MarkedNow`.

use vstd::prelude::*;
use crate::config::MAX_TIMESTAMP;
use crate::models::FileStorage;
use crate::models::NewFileStorage;
use crate::models::RecordModel;
use crate::models::records_view;
use crate::strutil::copy_str;
use crate::strutil::str_eq;

verus! {

/// Record `i` of `rs` exists, is not deleted, and carries token `tok`.
pub open spec fn is_active_with_token(rs: Seq<RecordModel>, i: int, tok: Seq<char>) -> bool {
    &&& 0 <= i < rs.len()
    &&& !rs[i].deleted
    &&& rs[i].storage_name == tok
}

/// Some record of `rs` is active under token `tok`.
pub open spec fn has_active_token(rs: Seq<RecordModel>, tok: Seq<char>) -> bool {
    exists|i: int| #[trigger] is_active_with_token(rs, i, tok)
}

/// The index of the record active under `tok`; well defined whenever
/// `has_active_token` holds, and unique by token uniqueness.
pub open spec fn active_index_of(rs: Seq<RecordModel>, tok: Seq<char>) -> int {
    choose|i: int| #[trigger] is_active_with_token(rs, i, tok)
}

/// The records of `rs` whose deleted flag is still clear, in order.
pub open spec fn active_records(rs: Seq<RecordModel>) -> Seq<RecordModel>
    decreases rs.len(),
{
    if rs.len() == 0 {
        Seq::empty()
    } else {
        let rest = active_records(rs.drop_last());
        if !rs.last().deleted {
            rest.push(rs.last())
        } else {
            rest
        }
    }
}

/// Every element of `active_records(rs)` is an undeleted record of `rs`,
/// found at the index its own `id` field names when ids equal indices.
pub proof fn lemma_active_records_elements(rs: Seq<RecordModel>)
    ensures
        forall|k: int| 0 <= k < active_records(rs).len()
            ==> !(#[trigger] active_records(rs)[k]).deleted
                && exists|i: int| 0 <= i < rs.len() && rs[i] == active_records(rs)[k],
    decreases rs.len(),
{
    if rs.len() > 0 {
        lemma_active_records_elements(rs.drop_last());
        assert forall|k: int| 0 <= k < active_records(rs).len()
            implies !(#[trigger] active_records(rs)[k]).deleted
                && exists|i: int| 0 <= i < rs.len() && rs[i] == active_records(rs)[k] by {
            let prev = active_records(rs.drop_last());
            if k < prev.len() {
                let i = choose|i: int| 0 <= i < rs.drop_last().len()
                    && rs.drop_last()[i] == prev[k];
                assert(rs[i] == active_records(rs)[k]);
            } else {
                assert(active_records(rs)[k] == rs.last());
                assert(rs[rs.len() - 1] == active_records(rs)[k]);
            }
        }
    }
}

/// Every undeleted record of `rs` appears in `active_records(rs)`.
pub proof fn lemma_active_records_complete(rs: Seq<RecordModel>)
    ensures
        forall|i: int| 0 <= i < rs.len() && !(#[trigger] rs[i]).deleted
            ==> active_records(rs).contains(rs[i]),
    decreases rs.len(),
{
    if rs.len() > 0 {
        lemma_active_records_complete(rs.drop_last());
        assert forall|i: int| 0 <= i < rs.len() && !(#[trigger] rs[i]).deleted
            implies active_records(rs).contains(rs[i]) by {
            let prev = active_records(rs.drop_last());
            if i < rs.len() - 1 {
                assert(rs.drop_last()[i] == rs[i]);
                let k = choose|k: int| 0 <= k < prev.len() && prev[k] == rs[i];
                assert(active_records(rs)[k] == rs[i]);
            } else {
                assert(active_records(rs).last() == rs[i]);
            }
        }
    }
}

/// Outcome of the atomic mark: the caller either performed the flip or
/// found it already done.
#[derive(Debug, PartialEq, Eq, Structural)]
pub enum MarkOutcome {
    MarkedNow,
    AlreadyDeleted,
}

/// The one record-creation failure: the token is already held by an active
/// record.
#[derive(Debug, PartialEq, Eq, Structural)]
pub enum StoreError {
    DuplicateToken,
}

/// The record collection.  Records are only appended and only ever mutated
/// by `update_deleted`; ids equal indices and are never reused.
pub struct MetadataStore {
    records: Vec<FileStorage>,
}

impl View for MetadataStore {
    type V = Seq<RecordModel>;

    closed spec fn view(&self) -> Seq<RecordModel> {
        records_view(self.records@)
    }
}

/// Well-formedness of a record sequence: bounded size, ids equal to indices,
/// timestamps in range, and token uniqueness among active records.
pub open spec fn records_ok(rs: Seq<RecordModel>) -> bool {
    &&& rs.len() <= i32::MAX as int
    &&& forall|i: int| 0 <= i < rs.len() ==> (#[trigger] rs[i]).id == i
    &&& forall|i: int| 0 <= i < rs.len()
        ==> 0 <= (#[trigger] rs[i]).created_at <= MAX_TIMESTAMP as int
            && 0 <= rs[i].modified_at <= MAX_TIMESTAMP as int
    &&& forall|i: int, j: int|
        #![trigger rs[i], rs[j]]
        0 <= i < rs.len() && 0 <= j < rs.len() && i != j
            && !rs[i].deleted && !rs[j].deleted
        ==> rs[i].storage_name != rs[j].storage_name
}

impl MetadataStore {
    /// Well-formedness of the store's contents.
    pub open spec fn wf(self) -> bool {
        records_ok(self@)
    }

    /// An empty store.
    pub fn new() -> (s: MetadataStore)
        ensures
            s.wf(),
            s@ == Seq::<RecordModel>::empty(),
    {
        let s = MetadataStore { records: Vec::new() };
        proof {
            assert(s@ =~= Seq::<RecordModel>::empty());
        }
        s
    }

    /// The number of records ever created.
    pub fn len(&self) -> (n: usize)
        ensures
            n == self@.len(),
    {
        self.records.len()
    }

    /// The record with the given id.
    pub fn record_at(&self, id: i32) -> (r: &FileStorage)
        requires
            self.wf(),
            0 <= id < self@.len(),
        ensures
            r@ == self@[id as int],
    {
        &self.records[id as usize]
    }

    /// Creates the record for a finished blob write: fails exactly when an
    /// active record already holds the token, and otherwise appends a fresh,
    /// undeleted record whose id is the next index.
    pub fn create_file_storage(&mut self, file_name: &str, storage_name: &str, created_at: i64)
        -> (r: Result<FileStorage, StoreError>)
        requires
            old(self).wf(),
            old(self)@.len() < i32::MAX as int,
            0 <= created_at <= MAX_TIMESTAMP,
        ensures
            final(self).wf(),
            match r {
                Ok(rec) => {
                    &&& !has_active_token(old(self)@, storage_name@)
                    &&& rec@ == (RecordModel {
                        id: old(self)@.len() as int,
                        file_name: file_name@,
                        storage_name: storage_name@,
                        created_at: created_at as int,
                        modified_at: created_at as int,
                        deleted: false,
                    })
                    &&& final(self)@ == old(self)@.push(rec@)
                },
                Err(e) => {
                    &&& e == StoreError::DuplicateToken
                    &&& has_active_token(old(self)@, storage_name@)
                    &&& final(self)@ == old(self)@
                },
            },
    {
        if self.get_file_name(storage_name).is_some() {
            return Err(StoreError::DuplicateToken);
        }
        let new_post = NewFileStorage { file_name, storage_name };
        let rec = FileStorage {
            id: self.records.len() as i32,
            file_name: copy_str(new_post.file_name),
            storage_name: copy_str(new_post.storage_name),
            created_at,
            modified_at: created_at,
            is_deleted: false,
        };
        let out = rec.duplicate();
        self.records.push(rec);
        proof {
            assert(self@ =~= old(self)@.push(out@));
            assert forall|i: int, j: int|
                #![trigger self@[i], self@[j]]
                0 <= i < self@.len() && 0 <= j < self@.len() && i != j
                    && !self@[i].deleted && !self@[j].deleted
                implies self@[i].storage_name != self@[j].storage_name by {
                if i == self@.len() - 1 {
                    assert(!is_active_with_token(old(self)@, j, storage_name@));
                } else if j == self@.len() - 1 {
                    assert(!is_active_with_token(old(self)@, i, storage_name@));
                }
            }
        }
        Ok(out)
    }

    /// Looks a token up among the active records: returns the one record
    /// active under it, and `None` when no active record holds it (whether
    /// the token never existed, expired, or was already consumed).
    pub fn get_file_name(&self, download_name: &str) -> (r: Option<FileStorage>)
        requires
            self.wf(),
        ensures
            match r {
                Some(rec) => has_active_token(self@, download_name@)
                    && rec@ == self@[active_index_of(self@, download_name@)],
                None => !has_active_token(self@, download_name@),
            },
    {
        let n = self.records.len();
        let mut i: usize = 0;
        while i < n
            invariant
                self.wf(),
                0 <= i <= n,
                n == self@.len(),
                forall|j: int| 0 <= j < i ==> !is_active_with_token(self@, j, download_name@),
            decreases n - i,
        {
            if !self.records[i].is_deleted
                && str_eq(self.records[i].storage_name.as_str(), download_name) {
                let rec = self.records[i].duplicate();
                proof {
                    assert(is_active_with_token(self@, i as int, download_name@));
                    let k = active_index_of(self@, download_name@);
                    assert(is_active_with_token(self@, k, download_name@));
                    assert(k == i as int);
                }
                return Some(rec);
            }
            i += 1;
        }
        proof {
            assert forall|j: int| !is_active_with_token(self@, j, download_name@) by {}
        }
        None
    }

    /// All records whose deleted flag is still clear, in creation order.
    pub fn get_all_file_name(&self) -> (r: Vec<FileStorage>)
        requires
            self.wf(),
        ensures
            records_view(r@) == active_records(self@),
    {
        let n = self.records.len();
        let mut out: Vec<FileStorage> = Vec::new();
        let mut i: usize = 0;
        while i < n
            invariant
                self.wf(),
                0 <= i <= n,
                n == self@.len(),
                records_view(out@) =~= active_records(self@.take(i as int)),
            decreases n - i,
        {
            proof {
                assert(self@.take(i + 1 as int).drop_last() =~= self@.take(i as int));
                assert(self@.take(i + 1 as int).last() == self@[i as int]);
            }
            if !self.records[i].is_deleted {
                out.push(self.records[i].duplicate());
            }
            proof {
                assert(records_view(out@) =~= active_records(self@.take(i + 1 as int)));
            }
            i += 1;
        }
        proof {
            assert(self@.take(n as int) =~= self@);
        }
        out
    }

    /// The atomic mark: decides and flips the deleted flag in one step.
    /// Exactly one of any set of callers gets `MarkedNow`; the flag never
    /// goes back to clear.
    pub fn update_deleted(&mut self, id: i32) -> (r: MarkOutcome)
        requires
            old(self).wf(),
            0 <= id < old(self)@.len(),
        ensures
            final(self).wf(),
            match r {
                MarkOutcome::MarkedNow => !old(self)@[id as int].deleted
                    && final(self)@ == old(self)@.update(
                        id as int,
                        old(self)@[id as int].mark_deleted(),
                    ),
                MarkOutcome::AlreadyDeleted => old(self)@[id as int].deleted
                    && final(self)@ == old(self)@,
            },
    {
        let idx = id as usize;
        if self.records[idx].is_deleted {
            proof {
                assert(self@ =~= old(self)@);
            }
            MarkOutcome::AlreadyDeleted
        } else {
            self.records[idx].is_deleted = true;
            proof {
                assert(self@ =~= old(self)@.update(
                    id as int,
                    old(self)@[id as int].mark_deleted(),
                ));
            }
            MarkOutcome::MarkedNow
        }
    }
}

}
