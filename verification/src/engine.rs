//! The lifecycle engine: one value owning the metadata store, the blob
//! store, and the scheduler's armed timers.  Its central operation is the
//! Deletion Executor, an idempotent deletion safe to invoke any number of
//! times for the same record: the atomic mark in the metadata store decides
//! which single caller performs the physical blob removal.

use vstd::prelude::*;
use crate::blob::blob_key;
use crate::blob::BlobStore;
use crate::config::Configuration;
use crate::config::MAX_RETENTION_SECONDS;
use crate::config::MAX_TIMESTAMP;
use crate::models::records_view;
use crate::models::FileStorage;
use crate::models::RecordModel;
use crate::store::active_index_of;
use crate::store::active_records;
use crate::store::has_active_token;
use crate::store::is_active_with_token;
use crate::store::lemma_active_records_complete;
use crate::store::lemma_active_records_elements;
use crate::store::records_ok;
use crate::store::MarkOutcome;
use crate::store::MetadataStore;
use crate::strutil::copy_str;
use crate::trusted::all_token_chars;
use crate::trusted::datetime_string_of;
use crate::trusted::format_timestamp;
use crate::trusted::generate_token;
use crate::trusted::sanitize_name;
use crate::trusted::sanitized_of;

verus! {

/// Abstract value of a [`Timer`].
pub ghost struct TimerModel {
    pub id: int,
    pub fire_at: int,
}

/// One armed deferred deletion: the record it will fire for, and the instant
/// it is due.  Timers are never cancelled; firing one for an already-deleted
/// record is a no-op by the executor's idempotency.
#[derive(Clone, Copy)]
pub struct Timer {
    pub id: i32,
    pub fire_at: i64,
}

impl View for Timer {
    type V = TimerModel;

    open spec fn view(&self) -> TimerModel {
        TimerModel { id: self.id as int, fire_at: self.fire_at as int }
    }
}

/// Abstract state of the whole engine.
pub ghost struct SystemModel {
    pub records: Seq<RecordModel>,
    pub blobs: Map<Seq<char>, Seq<u8>>,
    pub timers: Seq<TimerModel>,
    pub retention: int,
    pub host: Seq<char>,
}

/// Record `i` of `s` exists and is not deleted.
pub open spec fn record_active(s: SystemModel, i: int) -> bool {
    0 <= i < s.records.len() && !s.records[i].deleted
}

/// Blobs and records agree: every active record's blob is present under its
/// key, and distinct active records name distinct keys.  Orphaned blobs —
/// keys no active record names — are tolerated: a crash between a blob
/// write and the record's creation, or between the executor's mark and its
/// blob removal, leaves exactly such a leftover, and a restart must accept
/// it.
pub open spec fn stores_consistent(
    records: Seq<RecordModel>,
    blobs: Map<Seq<char>, Seq<u8>>,
) -> bool {
    &&& forall|i: int| 0 <= i < records.len() && !records[i].deleted
        ==> blobs.contains_key((#[trigger] records[i]).blob_key())
    &&& forall|i: int, j: int|
        #![trigger records[i].blob_key(), records[j].blob_key()]
        0 <= i < records.len() && 0 <= j < records.len() && i != j
            && !records[i].deleted && !records[j].deleted
        ==> records[i].blob_key() != records[j].blob_key()
}

/// Every timer names an existing record and is due exactly one retention
/// window after that record's creation — derived, never stored.
pub open spec fn timers_ok(s: SystemModel) -> bool {
    forall|t: int| 0 <= t < s.timers.len()
        ==> 0 <= (#[trigger] s.timers[t]).id < s.records.len()
            && s.timers[t].fire_at == s.records[s.timers[t].id].created_at + s.retention
}

/// The engine's invariant over its abstract state.
pub open spec fn sys_inv(s: SystemModel) -> bool {
    &&& records_ok(s.records)
    &&& stores_consistent(s.records, s.blobs)
    &&& timers_ok(s)
    &&& 1 <= s.retention <= MAX_RETENTION_SECONDS as int
}

/// Every active record has an armed timer.  This holds from the startup scan
/// on and is what turns timer firings into the expiry guarantee.
pub open spec fn all_active_armed(s: SystemModel) -> bool {
    forall|i: int| record_active(s, i)
        ==> exists|t: int| 0 <= t < s.timers.len() && (#[trigger] s.timers[t]).id == i
}

/// Deletion only ever proceeds forward: a record deleted in `a` is deleted
/// in `b`.
pub open spec fn deleted_monotone(a: Seq<RecordModel>, b: Seq<RecordModel>) -> bool {
    &&& a.len() == b.len()
    &&& forall|i: int| 0 <= i < a.len() && (#[trigger] a[i]).deleted ==> b[i].deleted
}

/// The Deletion Executor's effect on the abstract state: nothing when the
/// record is already deleted, else the mark followed by the blob removal.
pub open spec fn deleted_system(s: SystemModel, id: int) -> SystemModel
    recommends
        0 <= id < s.records.len(),
{
    if s.records[id].deleted {
        s
    } else {
        SystemModel {
            records: s.records.update(id, s.records[id].mark_deleted()),
            blobs: s.blobs.remove(s.records[id].blob_key()),
            ..s
        }
    }
}

/// The abstract values of a sequence of timers.
pub open spec fn timers_view(v: Seq<Timer>) -> Seq<TimerModel> {
    Seq::new(v.len(), |i: int| v[i]@)
}

/// The timers of `ts` not yet due at `now`, in order.
pub open spec fn kept_timers(ts: Seq<TimerModel>, now: int) -> Seq<TimerModel>
    decreases ts.len(),
{
    if ts.len() == 0 {
        Seq::empty()
    } else {
        let rest = kept_timers(ts.drop_last(), now);
        if ts.last().fire_at > now {
            rest.push(ts.last())
        } else {
            rest
        }
    }
}

/// Every element of `kept_timers(ts, now)` is a timer of `ts` not due at
/// `now`.
pub proof fn lemma_kept_timers_elements(ts: Seq<TimerModel>, now: int)
    ensures
        forall|k: int| 0 <= k < kept_timers(ts, now).len()
            ==> (#[trigger] kept_timers(ts, now)[k]).fire_at > now
                && exists|j: int| 0 <= j < ts.len() && ts[j] == kept_timers(ts, now)[k],
    decreases ts.len(),
{
    if ts.len() > 0 {
        lemma_kept_timers_elements(ts.drop_last(), now);
        assert forall|k: int| 0 <= k < kept_timers(ts, now).len()
            implies (#[trigger] kept_timers(ts, now)[k]).fire_at > now
                && exists|j: int| 0 <= j < ts.len() && ts[j] == kept_timers(ts, now)[k] by {
            let prev = kept_timers(ts.drop_last(), now);
            if k < prev.len() {
                let j = choose|j: int| 0 <= j < ts.drop_last().len()
                    && ts.drop_last()[j] == prev[k];
                assert(ts[j] == kept_timers(ts, now)[k]);
            } else {
                assert(ts[ts.len() - 1] == kept_timers(ts, now)[k]);
            }
        }
    }
}

/// Every timer of `ts` not due at `now` appears in `kept_timers(ts, now)`.
pub proof fn lemma_kept_timers_complete(ts: Seq<TimerModel>, now: int)
    ensures
        forall|j: int| 0 <= j < ts.len() && (#[trigger] ts[j]).fire_at > now
            ==> kept_timers(ts, now).contains(ts[j]),
    decreases ts.len(),
{
    if ts.len() > 0 {
        lemma_kept_timers_complete(ts.drop_last(), now);
        assert forall|j: int| 0 <= j < ts.len() && (#[trigger] ts[j]).fire_at > now
            implies kept_timers(ts, now).contains(ts[j]) by {
            let prev = kept_timers(ts.drop_last(), now);
            if j < ts.len() - 1 {
                assert(ts.drop_last()[j] == ts[j]);
                let k = choose|k: int| 0 <= k < prev.len() && prev[k] == ts[j];
                assert(kept_timers(ts, now)[k] == ts[j]);
            } else {
                assert(kept_timers(ts, now).last() == ts[j]);
            }
        }
    }
}

/// What the startup scan owes for one listed active record: an expired one
/// is deleted with its blob gone, a fresh one is untouched and armed.
pub open spec fn scanned_ok(s: SystemModel, retention: int, r: RecordModel, now: int) -> bool {
    if now - r.created_at >= retention {
        s.records[r.id].deleted && !s.blobs.contains_key(r.blob_key())
    } else {
        s.records[r.id] == r
            && exists|t: int| 0 <= t < s.timers.len() && (#[trigger] s.timers[t]).id == r.id
    }
}

/// Request-level failures of the two gates.
#[derive(Debug, PartialEq, Eq, Structural)]
pub enum EngineError {
    /// Every attempted token collided; the request fails and nothing
    /// changes.
    TokenCollision,
    /// No active record holds the token: it never existed, expired, or was
    /// already consumed — deliberately indistinguishable.
    RecordNotFound,
}

/// What the Ingestion Gate returns to the caller: the download link and a
/// rendered expiry stamp.
pub struct FileDetail {
    pub download_url: String,
    pub expiry: String,
}

/// The link handed out for a token.
pub open spec fn download_url_of(host: Seq<char>, tok: Seq<char>) -> Seq<char> {
    "https://"@ + host + seq!['/'] + tok
}

/// Whether storing a blob under `tok` for `name` collides in `s`: either an
/// active record holds the token, or a blob already sits under the
/// composite key.
pub open spec fn ingest_collides(s: SystemModel, name: Seq<char>, tok: Seq<char>) -> bool {
    has_active_token(s.records, tok) || s.blobs.contains_key(tok + seq!['-'] + name)
}

/// The Ingestion Gate's effect on the abstract state: the blob stored, a
/// fresh active record appended, and its timer armed.
pub open spec fn ingested_system(
    s: SystemModel,
    name: Seq<char>,
    data: Seq<u8>,
    tok: Seq<char>,
    now: int,
) -> SystemModel {
    let rec = RecordModel {
        id: s.records.len() as int,
        file_name: name,
        storage_name: tok,
        created_at: now,
        modified_at: now,
        deleted: false,
    };
    SystemModel {
        records: s.records.push(rec),
        blobs: s.blobs.insert(rec.blob_key(), data),
        timers: s.timers.push(TimerModel { id: rec.id, fire_at: now + s.retention }),
        ..s
    }
}

/// Bound on token regeneration attempts in one upload; exhaustion is a
/// request failure.
pub const TOKEN_RETRY_LIMIT: usize = 8;

/// The engine.
pub struct System {
    config: Configuration,
    store: MetadataStore,
    blobs: BlobStore,
    timers: Vec<Timer>,
}

impl View for System {
    type V = SystemModel;

    closed spec fn view(&self) -> SystemModel {
        SystemModel {
            records: self.store@,
            blobs: self.blobs@,
            timers: timers_view(self.timers@),
            retention: self.config.retention_time as int,
            host: self.config.download_url@,
        }
    }
}

impl System {
    /// Well-formedness: each component is well formed, the configuration is
    /// valid, and the abstract invariant holds.
    pub closed spec fn wf(self) -> bool {
        &&& self.store.wf()
        &&& self.blobs.wf()
        &&& self.config@.valid()
        &&& sys_inv(self@)
    }

    /// A well-formed engine satisfies the abstract invariant.
    pub proof fn inv_of_wf(self)
        requires
            self.wf(),
        ensures
            sys_inv(self@),
    {
    }

    /// The configured retention window, in seconds.
    pub fn retention_time(&self) -> (r: u64)
        ensures
            r == self@.retention,
    {
        self.config.retention_time
    }

    /// The number of records ever created, deleted ones included.
    pub fn record_count(&self) -> (n: usize)
        ensures
            n == self@.records.len(),
    {
        self.store.len()
    }

    /// A fresh engine around empty stores.
    pub fn new(config: Configuration) -> (s: System)
        requires
            config@.valid(),
        ensures
            s.wf(),
            s@.records == Seq::<RecordModel>::empty(),
            s@.blobs == Map::<Seq<char>, Seq<u8>>::empty(),
            s@.timers == Seq::<TimerModel>::empty(),
            s@.retention == config@.retention_time,
            s@.host == config@.download_url,
            all_active_armed(s@),
    {
        let s = System {
            config,
            store: MetadataStore::new(),
            blobs: BlobStore::new(),
            timers: Vec::new(),
        };
        proof {
            assert(s@.timers =~= Seq::<TimerModel>::empty());
        }
        s
    }

    /// Rebuilds the engine around persisted stores after a restart.  No
    /// timer state survives a restart — pending deletions are derived from
    /// `created_at`, so the caller must run the startup scan before serving.
    /// What a crash can leave behind is accepted: a blob whose record was
    /// already marked deleted, or one whose record was never created, is an
    /// orphan the engine tolerates; only the blobs of active records are
    /// required to be present, under distinct keys.
    pub fn restore(config: Configuration, store: MetadataStore, blobs: BlobStore) -> (s: System)
        requires
            config@.valid(),
            store.wf(),
            blobs.wf(),
            stores_consistent(store@, blobs@),
        ensures
            s.wf(),
            s@.records == store@,
            s@.blobs == blobs@,
            s@.timers == Seq::<TimerModel>::empty(),
            s@.retention == config@.retention_time,
            s@.host == config@.download_url,
    {
        let s = System { config, store, blobs, timers: Vec::new() };
        proof {
            assert(s@.timers =~= Seq::<TimerModel>::empty());
        }
        s
    }

    /// Looks a token up among the active records.
    pub fn get_file_name(&self, download_name: &str) -> (r: Option<FileStorage>)
        requires
            self.wf(),
        ensures
            match r {
                Some(rec) => has_active_token(self@.records, download_name@)
                    && rec@ == self@.records[active_index_of(self@.records, download_name@)],
                None => !has_active_token(self@.records, download_name@),
            },
    {
        self.store.get_file_name(download_name)
    }

    /// Arms the single-shot deferred deletion for a record, due one
    /// retention window after its creation.
    pub fn arm_new(&mut self, id: i32, created_at: i64)
        requires
            old(self).wf(),
            0 <= id < old(self)@.records.len(),
            old(self)@.records[id as int].created_at == created_at,
        ensures
            final(self).wf(),
            final(self)@ == (SystemModel {
                timers: old(self)@.timers.push(TimerModel {
                    id: id as int,
                    fire_at: created_at + old(self)@.retention,
                }),
                ..old(self)@
            }),
            all_active_armed(old(self)@) ==> all_active_armed(final(self)@),
    {
        let fire_at: i64 = created_at + (self.config.retention_time as i64);
        self.timers.push(Timer { id, fire_at });
        proof {
            assert(final(self)@.timers =~= old(self)@.timers.push(TimerModel {
                id: id as int,
                fire_at: created_at + old(self)@.retention,
            }));
            let post = self@;
            let pre = old(self)@;
            assert forall|t: int| 0 <= t < post.timers.len()
                implies 0 <= (#[trigger] post.timers[t]).id < post.records.len()
                    && post.timers[t].fire_at
                        == post.records[post.timers[t].id].created_at + post.retention by {
                if t < pre.timers.len() {
                    assert(post.timers[t] == pre.timers[t]);
                }
            }
            if all_active_armed(pre) {
                assert forall|i: int| record_active(post, i)
                    implies exists|t: int|
                        0 <= t < post.timers.len() && (#[trigger] post.timers[t]).id == i by {
                    assert(record_active(pre, i));
                    let t = choose|t: int|
                        0 <= t < pre.timers.len() && (#[trigger] pre.timers[t]).id == i;
                    assert(post.timers[t] == pre.timers[t]);
                    assert(post.timers[t].id == i);
                }
            }
        }
    }

    /// The Deletion Executor.  Invocable any number of times for the same
    /// record, from the timer path and the download path alike: the atomic
    /// mark decides the one caller that removes the blob, and every other
    /// call is a successful no-op.  The record is marked before the blob is
    /// removed, so a reader that checks the record is never handed a blob of
    /// a record already marked deleted.
    pub fn delete_file(&mut self, id: i32)
        requires
            old(self).wf(),
            0 <= id < old(self)@.records.len(),
        ensures
            final(self).wf(),
            final(self)@ == deleted_system(old(self)@, id as int),
            deleted_monotone(old(self)@.records, final(self)@.records),
            all_active_armed(old(self)@) ==> all_active_armed(final(self)@),
    {
        let key = {
            let rec = self.store.record_at(id);
            blob_key(rec.storage_name.as_str(), rec.file_name.as_str())
        };
        match self.store.update_deleted(id) {
            MarkOutcome::AlreadyDeleted => {
                proof {
                    assert(final(self)@ == deleted_system(old(self)@, id as int));
                }
            },
            MarkOutcome::MarkedNow => {
                self.blobs.delete(key.as_str());
                proof {
                    let pre = old(self)@;
                    let post = self@;
                    let kk = pre.records[id as int].blob_key();
                    assert(key@ == kk);
                    assert(post.records =~= pre.records.update(
                        id as int,
                        pre.records[id as int].mark_deleted(),
                    ));
                    assert(post == deleted_system(pre, id as int));
                    self.lemma_delete_wf(pre, post, id as int);
                }
            },
        }
        proof {
            let pre = old(self)@;
            let post = self@;
            assert forall|t: int| 0 <= t < post.timers.len()
                implies 0 <= (#[trigger] post.timers[t]).id < post.records.len()
                    && post.timers[t].fire_at
                        == post.records[post.timers[t].id].created_at + post.retention by {
                assert(pre.timers[t].id < pre.records.len());
            }
            assert forall|i: int| record_active(post, i)
                implies record_active(pre, i) by {}
            if all_active_armed(pre) {
                assert forall|i: int| record_active(post, i)
                    implies exists|t: int|
                        0 <= t < post.timers.len() && (#[trigger] post.timers[t]).id == i by {
                    assert(record_active(pre, i));
                    let t = choose|t: int|
                        0 <= t < pre.timers.len() && (#[trigger] pre.timers[t]).id == i;
                    assert(post.timers[t] == pre.timers[t]);
                    assert(post.timers[t].id == i);
                }
            }
        }
    }

    /// Consistency is preserved by marking record `id` and removing its
    /// blob key.
    proof fn lemma_delete_wf(self, pre: SystemModel, post: SystemModel, id: int)
        requires
            records_ok(pre.records),
            stores_consistent(pre.records, pre.blobs),
            0 <= id < pre.records.len(),
            !pre.records[id].deleted,
            post.records == pre.records.update(id, pre.records[id].mark_deleted()),
            post.blobs == pre.blobs.remove(pre.records[id].blob_key()),
        ensures
            records_ok(post.records),
            stores_consistent(post.records, post.blobs),
    {
        let kk = pre.records[id].blob_key();
        assert forall|i: int| 0 <= i < post.records.len() && !post.records[i].deleted
            implies post.blobs.contains_key((#[trigger] post.records[i]).blob_key()) by {
            assert(i != id);
            assert(post.records[i] == pre.records[i]);
            assert(pre.blobs.contains_key(pre.records[i].blob_key()));
            assert(pre.records[i].blob_key() != kk);
        }
        assert forall|i: int, j: int|
            #![trigger post.records[i].blob_key(), post.records[j].blob_key()]
            0 <= i < post.records.len() && 0 <= j < post.records.len() && i != j
                && !post.records[i].deleted && !post.records[j].deleted
            implies post.records[i].blob_key() != post.records[j].blob_key() by {
            assert(pre.records[i].blob_key() != pre.records[j].blob_key());
        }
    }

    /// The startup reconciliation scan, run once before any request is
    /// served.  Every pending deletion is re-derived from `created_at`:
    /// records past their retention window are deleted on the spot, the
    /// rest get a timer armed for the remainder of their window.  When it
    /// returns, no record older than the retention window is active, and
    /// every active record is armed.
    pub fn startup(&mut self, now: i64)
        requires
            old(self).wf(),
            0 <= now <= MAX_TIMESTAMP,
        ensures
            final(self).wf(),
            final(self)@.records.len() == old(self)@.records.len(),
            final(self)@.retention == old(self)@.retention,
            deleted_monotone(old(self)@.records, final(self)@.records),
            all_active_armed(final(self)@),
            forall|id: int| 0 <= id < old(self)@.records.len()
                && (#[trigger] old(self)@.records[id]).deleted
                ==> final(self)@.records[id] == old(self)@.records[id],
            forall|id: int| 0 <= id < old(self)@.records.len()
                && !(#[trigger] old(self)@.records[id]).deleted
                && now - old(self)@.records[id].created_at >= old(self)@.retention
                ==> final(self)@.records[id] == old(self)@.records[id].mark_deleted()
                    && !final(self)@.blobs.contains_key(old(self)@.records[id].blob_key())
                    && !has_active_token(final(self)@.records, old(self)@.records[id].storage_name),
            forall|id: int| 0 <= id < old(self)@.records.len()
                && !(#[trigger] old(self)@.records[id]).deleted
                && now - old(self)@.records[id].created_at < old(self)@.retention
                ==> final(self)@.records[id] == old(self)@.records[id],
            forall|k: Seq<char>| #[trigger] final(self)@.blobs.contains_key(k)
                ==> old(self)@.blobs.contains_key(k)
                    && final(self)@.blobs[k] == old(self)@.blobs[k],
            old(self)@.timers.len() <= final(self)@.timers.len(),
            forall|t: int| 0 <= t < old(self)@.timers.len()
                ==> (#[trigger] final(self)@.timers[t]) == old(self)@.timers[t],
    {
        let ghost pre = old(self)@;
        let records = self.store.get_all_file_name();
        let ghost listed = active_records(pre.records);
        proof {
            assert(records_view(records@) == listed);
            lemma_active_records_elements(pre.records);
            assert forall|j: int| 0 <= j < listed.len()
                implies 0 <= (#[trigger] listed[j]).id < pre.records.len()
                    && pre.records[listed[j].id] == listed[j] && !listed[j].deleted by {
                let i = choose|i: int| 0 <= i < pre.records.len() && pre.records[i] == listed[j];
                assert(pre.records[i].id == i);
            }
        }
        let retention = self.config.retention_time as i64;
        let n = records.len();
        let mut i: usize = 0;
        while i < n
            invariant
                self.wf(),
                0 <= i <= n,
                n == records@.len(),
                records_view(records@) == listed,
                0 <= now <= MAX_TIMESTAMP,
                retention == pre.retention,
                pre == old(self)@,
                self@.records.len() == pre.records.len(),
                self@.retention == pre.retention,
                pre.timers.len() <= self@.timers.len(),
                forall|t: int| 0 <= t < pre.timers.len()
                    ==> (#[trigger] self@.timers[t]) == pre.timers[t],
                forall|j: int| 0 <= j < listed.len()
                    ==> 0 <= (#[trigger] listed[j]).id < pre.records.len()
                        && pre.records[listed[j].id] == listed[j] && !listed[j].deleted,
                forall|id: int| 0 <= id < pre.records.len()
                    ==> (#[trigger] self@.records[id]) == pre.records[id]
                        || self@.records[id] == pre.records[id].mark_deleted(),
                forall|j: int| 0 <= j < i ==> scanned_ok(self@, pre.retention, #[trigger] listed[j], now as int),
                forall|id: int| 0 <= id < pre.records.len()
                    && !(#[trigger] pre.records[id]).deleted
                    && !(exists|j: int| 0 <= j < i && (#[trigger] listed[j]).id == id)
                    ==> self@.records[id] == pre.records[id],
                forall|k: Seq<char>| #[trigger] self@.blobs.contains_key(k)
                    ==> pre.blobs.contains_key(k) && self@.blobs[k] == pre.blobs[k],
            decreases n - i,
        {
            let ghost cur = self@;
            let rec_id = records[i].id;
            let rec_created = records[i].created_at;
            proof {
                assert(records@[i as int]@ == listed[i as int]);
                assert(rec_id as int == listed[i as int].id);
                assert(rec_created as int == listed[i as int].created_at);
            }
            if now - rec_created >= retention {
                self.delete_file(rec_id);
            } else {
                proof {
                    assert(self@.records[rec_id as int].created_at
                        == pre.records[rec_id as int].created_at);
                }
                self.arm_new(rec_id, rec_created);
            }
            proof {
                let post = self@;
                let r = listed[i as int];
                assert forall|j: int| 0 <= j < i + 1
                    implies scanned_ok(post, pre.retention, #[trigger] listed[j], now as int) by {
                    if j < i {
                        assert(scanned_ok(cur, pre.retention, listed[j], now as int));
                        if now - listed[j].created_at >= pre.retention {
                        } else {
                            assert(post.records[listed[j].id] == cur.records[listed[j].id]);
                            let t = choose|t: int| 0 <= t < cur.timers.len()
                                && (#[trigger] cur.timers[t]).id == listed[j].id;
                            assert(post.timers[t] == cur.timers[t]);
                            assert(post.timers[t].id == listed[j].id);
                        }
                    } else {
                        if now - r.created_at >= pre.retention {
                            if !cur.records[r.id].deleted {
                                assert(cur.records[r.id] == pre.records[r.id]
                                    || cur.records[r.id] == pre.records[r.id].mark_deleted());
                                assert(cur.records[r.id].blob_key() == r.blob_key());
                                assert(!post.blobs.contains_key(r.blob_key()));
                            } else {
                                let jj = choose|jj: int| 0 <= jj < i
                                    && (#[trigger] listed[jj]).id == r.id;
                                assert(scanned_ok(cur, pre.retention, listed[jj], now as int));
                                assert(listed[jj] == pre.records[r.id]);
                                assert(listed[jj] == r);
                            }
                        } else {
                            if cur.records[r.id] == pre.records[r.id] {
                                assert(post.records[r.id] == r);
                            } else {
                                let jj = choose|jj: int| 0 <= jj < i
                                    && (#[trigger] listed[jj]).id == r.id;
                                assert(scanned_ok(cur, pre.retention, listed[jj], now as int));
                                assert(listed[jj] == pre.records[r.id]);
                                assert(listed[jj] == r);
                            }
                            assert(post.timers[post.timers.len() - 1].id == r.id);
                        }
                    }
                }
                assert forall|id: int| 0 <= id < pre.records.len()
                    && !(#[trigger] pre.records[id]).deleted
                    && !(exists|j: int| 0 <= j < i + 1 && (#[trigger] listed[j]).id == id)
                    implies post.records[id] == pre.records[id] by {
                    assert(!(exists|j: int| 0 <= j < i && (#[trigger] listed[j]).id == id));
                    assert(cur.records[id] == pre.records[id]);
                    assert(id != r.id);
                }
            }
            i += 1;
        }
        proof {
            let post = self@;
            lemma_active_records_complete(pre.records);
            assert forall|id: int| 0 <= id < pre.records.len()
                && !(#[trigger] pre.records[id]).deleted
                implies exists|j: int| 0 <= j < listed.len()
                    && (#[trigger] listed[j]).id == id by {
                assert(listed.contains(pre.records[id]));
                let j = choose|j: int| 0 <= j < listed.len() && listed[j] == pre.records[id];
                assert(listed[j].id == id);
            }
            assert forall|id: int| 0 <= id < pre.records.len()
                && !(#[trigger] pre.records[id]).deleted
                && now - pre.records[id].created_at >= pre.retention
                implies post.records[id] == pre.records[id].mark_deleted()
                    && !post.blobs.contains_key(pre.records[id].blob_key())
                    && !has_active_token(post.records, pre.records[id].storage_name) by {
                let j = choose|j: int| 0 <= j < listed.len() && (#[trigger] listed[j]).id == id;
                assert(scanned_ok(post, pre.retention, listed[j], now as int));
                assert(listed[j] == pre.records[id]);
                assert(post.records[id].deleted);
                assert forall|m: int|
                    !is_active_with_token(post.records, m, pre.records[id].storage_name) by {
                    if 0 <= m < post.records.len() && !post.records[m].deleted && m != id {
                        assert(post.records[m] == pre.records[m]
                            || post.records[m] == pre.records[m].mark_deleted());
                        assert(!pre.records[m].deleted);
                        assert(pre.records[m].storage_name != pre.records[id].storage_name);
                    }
                }
            }
            assert forall|id: int| record_active(post, id)
                implies exists|t: int|
                    0 <= t < post.timers.len() && (#[trigger] post.timers[t]).id == id by {
                assert(post.records[id] == pre.records[id]
                    || post.records[id] == pre.records[id].mark_deleted());
                assert(!pre.records[id].deleted);
                let j = choose|j: int| 0 <= j < listed.len() && (#[trigger] listed[j]).id == id;
                assert(scanned_ok(post, pre.retention, listed[j], now as int));
                assert(listed[j] == pre.records[id]);
                assert(now - pre.records[id].created_at < pre.retention);
            }
        }
    }

    /// Fires every timer due at `now`: each due timer's record goes through
    /// the Deletion Executor (a no-op when the record is already deleted,
    /// deletion being the defined way a stale timer is "cancelled"), and
    /// the due timers are drained from the scheduler's set.  Once every
    /// active record is armed, this is the expiry guarantee: a record whose
    /// retention window has passed is no longer downloadable afterwards.
    pub fn fire_due(&mut self, now: i64)
        requires
            old(self).wf(),
            0 <= now <= MAX_TIMESTAMP,
        ensures
            final(self).wf(),
            final(self)@.records.len() == old(self)@.records.len(),
            final(self)@.retention == old(self)@.retention,
            deleted_monotone(old(self)@.records, final(self)@.records),
            forall|id: int| 0 <= id < old(self)@.records.len()
                ==> (#[trigger] final(self)@.records[id]) == old(self)@.records[id]
                    || final(self)@.records[id] == old(self)@.records[id].mark_deleted(),
            forall|t: int| 0 <= t < old(self)@.timers.len()
                && (#[trigger] old(self)@.timers[t]).fire_at <= now
                ==> final(self)@.records[old(self)@.timers[t].id].deleted,
            forall|id: int| 0 <= id < old(self)@.records.len()
                && !(#[trigger] old(self)@.records[id]).deleted
                && !(exists|t: int| 0 <= t < old(self)@.timers.len()
                    && (#[trigger] old(self)@.timers[t]).id == id
                    && old(self)@.timers[t].fire_at <= now)
                ==> final(self)@.records[id] == old(self)@.records[id],
            forall|k: Seq<char>| #[trigger] final(self)@.blobs.contains_key(k)
                ==> old(self)@.blobs.contains_key(k)
                    && final(self)@.blobs[k] == old(self)@.blobs[k],
            final(self)@.timers == kept_timers(old(self)@.timers, now as int),
            all_active_armed(old(self)@) ==> all_active_armed(final(self)@),
            all_active_armed(old(self)@)
                ==> forall|id: int| 0 <= id < old(self)@.records.len()
                    && !(#[trigger] old(self)@.records[id]).deleted
                    && old(self)@.records[id].created_at + old(self)@.retention <= now
                    ==> final(self)@.records[id].deleted
                        && !has_active_token(
                            final(self)@.records,
                            old(self)@.records[id].storage_name,
                        ),
    {
        let ghost pre = old(self)@;
        let n = self.timers.len();
        let mut kept: Vec<Timer> = Vec::new();
        let mut i: usize = 0;
        while i < n
            invariant
                self.wf(),
                0 <= i <= n,
                pre == old(self)@,
                n == pre.timers.len(),
                self@.timers == pre.timers,
                self@.records.len() == pre.records.len(),
                self@.retention == pre.retention,
                0 <= now <= MAX_TIMESTAMP,
                timers_view(kept@) =~= kept_timers(pre.timers.take(i as int), now as int),
                forall|id: int| 0 <= id < pre.records.len()
                    ==> (#[trigger] self@.records[id]) == pre.records[id]
                        || self@.records[id] == pre.records[id].mark_deleted(),
                forall|t: int| 0 <= t < i && (#[trigger] pre.timers[t]).fire_at <= now
                    ==> self@.records[pre.timers[t].id].deleted,
                forall|id: int| 0 <= id < pre.records.len()
                    && !(#[trigger] pre.records[id]).deleted
                    && !(exists|t: int| 0 <= t < i
                        && (#[trigger] pre.timers[t]).id == id
                        && pre.timers[t].fire_at <= now)
                    ==> self@.records[id] == pre.records[id],
                forall|k: Seq<char>| #[trigger] self@.blobs.contains_key(k)
                    ==> pre.blobs.contains_key(k) && self@.blobs[k] == pre.blobs[k],
            decreases n - i,
        {
            let ghost cur = self@;
            let t = self.timers[i];
            proof {
                assert(t@ == pre.timers[i as int]);
                assert(pre.timers.take(i + 1 as int).drop_last() =~= pre.timers.take(i as int));
                assert(pre.timers.take(i + 1 as int).last() == pre.timers[i as int]);
            }
            if t.fire_at <= now {
                self.delete_file(t.id);
                proof {
                    let post = self@;
                    assert(timers_view(kept@) =~= kept_timers(pre.timers.take(i + 1 as int), now as int));
                    assert forall|id: int| 0 <= id < pre.records.len()
                        && !(#[trigger] pre.records[id]).deleted
                        && !(exists|tt: int| 0 <= tt < i + 1
                            && (#[trigger] pre.timers[tt]).id == id
                            && pre.timers[tt].fire_at <= now)
                        implies post.records[id] == pre.records[id] by {
                        assert(!(exists|tt: int| 0 <= tt < i
                            && (#[trigger] pre.timers[tt]).id == id
                            && pre.timers[tt].fire_at <= now));
                        assert(cur.records[id] == pre.records[id]);
                        assert(id != t.id as int);
                    }
                }
            } else {
                kept.push(t);
                proof {
                    assert(timers_view(kept@) =~= kept_timers(pre.timers.take(i + 1 as int), now as int));
                }
            }
            i += 1;
        }
        self.timers = kept;
        proof {
            let post = self@;
            assert(pre.timers.take(n as int) =~= pre.timers);
            assert(post.timers == kept_timers(pre.timers, now as int));
            lemma_kept_timers_elements(pre.timers, now as int);
            lemma_kept_timers_complete(pre.timers, now as int);
            assert forall|t: int| 0 <= t < post.timers.len()
                implies 0 <= (#[trigger] post.timers[t]).id < post.records.len()
                    && post.timers[t].fire_at
                        == post.records[post.timers[t].id].created_at + post.retention by {
                let j = choose|j: int| 0 <= j < pre.timers.len()
                    && pre.timers[j] == post.timers[t];
                assert(pre.timers[j].id < pre.records.len());
                assert(post.records[post.timers[t].id].created_at
                    == pre.records[post.timers[t].id].created_at);
            }
            if all_active_armed(pre) {
                assert forall|id: int| record_active(post, id)
                    implies exists|t: int|
                        0 <= t < post.timers.len() && (#[trigger] post.timers[t]).id == id by {
                    assert(record_active(pre, id));
                    let t0 = choose|t0: int| 0 <= t0 < pre.timers.len()
                        && (#[trigger] pre.timers[t0]).id == id;
                    assert(pre.timers[t0].fire_at > now);
                    assert(kept_timers(pre.timers, now as int).contains(pre.timers[t0]));
                    let t1 = choose|t1: int| 0 <= t1 < post.timers.len()
                        && post.timers[t1] == pre.timers[t0];
                    assert(post.timers[t1].id == id);
                }
                assert forall|id: int| 0 <= id < pre.records.len()
                    && !(#[trigger] pre.records[id]).deleted
                    && pre.records[id].created_at + pre.retention <= now
                    implies post.records[id].deleted
                        && !has_active_token(post.records, pre.records[id].storage_name) by {
                    assert(record_active(pre, id));
                    let t0 = choose|t0: int| 0 <= t0 < pre.timers.len()
                        && (#[trigger] pre.timers[t0]).id == id;
                    assert(pre.timers[t0].fire_at == pre.records[id].created_at + pre.retention);
                    assert(post.records[id].deleted);
                    assert forall|m: int|
                        !is_active_with_token(post.records, m, pre.records[id].storage_name) by {
                        if 0 <= m < post.records.len() && !post.records[m].deleted && m != id {
                            assert(post.records[m] == pre.records[m]
                                || post.records[m] == pre.records[m].mark_deleted());
                            assert(!pre.records[m].deleted);
                            assert(pre.records[m].storage_name
                                != pre.records[id].storage_name);
                        }
                    }
                }
            }
        }
    }

    /// One ingestion attempt under a given token, the deterministic core of
    /// the Ingestion Gate in its fixed order: blob write first, record
    /// creation second, timer third.  A collision — of the composite blob
    /// key or of the token among active records — fails the attempt and
    /// leaves the engine exactly as it was, the earlier upload untouched,
    /// so the caller can regenerate and retry.
    pub fn save_file_with_token(
        &mut self,
        file_name: &str,
        data: &Vec<u8>,
        token: &str,
        now: i64,
    ) -> (r: Result<FileStorage, EngineError>)
        requires
            old(self).wf(),
            old(self)@.records.len() < i32::MAX as int,
            0 <= now <= MAX_TIMESTAMP,
        ensures
            final(self).wf(),
            forall|i: int| 0 <= i < old(self)@.records.len()
                ==> (#[trigger] final(self)@.records[i]) == old(self)@.records[i],
            all_active_armed(old(self)@) ==> all_active_armed(final(self)@),
            match r {
                Ok(rec) => {
                    &&& !ingest_collides(old(self)@, file_name@, token@)
                    &&& rec@ == (RecordModel {
                        id: old(self)@.records.len() as int,
                        file_name: file_name@,
                        storage_name: token@,
                        created_at: now as int,
                        modified_at: now as int,
                        deleted: false,
                    })
                    &&& final(self)@ == ingested_system(
                        old(self)@, file_name@, data@, token@, now as int,
                    )
                },
                Err(e) => {
                    &&& e == EngineError::TokenCollision
                    &&& ingest_collides(old(self)@, file_name@, token@)
                    &&& final(self)@ == old(self)@
                },
            },
    {
        let ghost pre = old(self)@;
        let key = blob_key(token, file_name);
        match self.blobs.write(key.as_str(), data) {
            Err(_) => {
                proof {
                    assert(self@ == pre);
                }
                return Err(EngineError::TokenCollision);
            },
            Ok(()) => {},
        }
        match self.store.create_file_storage(file_name, token, now) {
            Err(_) => {
                self.blobs.delete(key.as_str());
                proof {
                    assert(self@.blobs =~= pre.blobs);
                    assert(self@ == pre);
                }
                Err(EngineError::TokenCollision)
            },
            Ok(rec) => {
                let id = rec.id;
                proof {
                    let mid = self@;
                    let newrec = RecordModel {
                        id: pre.records.len() as int,
                        file_name: file_name@,
                        storage_name: token@,
                        created_at: now as int,
                        modified_at: now as int,
                        deleted: false,
                    };
                    assert(mid.records == pre.records.push(newrec));
                    assert(mid.records[id as int] == newrec);
                    assert(key@ == newrec.blob_key());
                    Self::lemma_ingest_consistent(pre, mid, newrec, data@);
                    assert forall|t: int| 0 <= t < mid.timers.len()
                        implies 0 <= (#[trigger] mid.timers[t]).id < mid.records.len()
                            && mid.timers[t].fire_at
                                == mid.records[mid.timers[t].id].created_at + mid.retention by {
                        assert(mid.timers[t] == pre.timers[t]);
                        assert(pre.timers[t].id < pre.records.len());
                        assert(mid.records[mid.timers[t].id] == pre.records[mid.timers[t].id]);
                    }
                    assert(self.wf());
                }
                self.arm_new(id, now);
                proof {
                    let post = self@;
                    let newrec = RecordModel {
                        id: pre.records.len() as int,
                        file_name: file_name@,
                        storage_name: token@,
                        created_at: now as int,
                        modified_at: now as int,
                        deleted: false,
                    };
                    assert(key@ == newrec.blob_key());
                    assert(post == ingested_system(pre, file_name@, data@, token@, now as int));
                    if all_active_armed(pre) {
                        assert forall|i: int| record_active(post, i)
                            implies exists|t: int|
                                0 <= t < post.timers.len()
                                    && (#[trigger] post.timers[t]).id == i by {
                            if i < pre.records.len() {
                                assert(record_active(pre, i));
                                let t = choose|t: int| 0 <= t < pre.timers.len()
                                    && (#[trigger] pre.timers[t]).id == i;
                                assert(post.timers[t] == pre.timers[t]);
                            } else {
                                assert(post.timers[post.timers.len() - 1].id == i);
                            }
                        }
                    }
                }
                Ok(rec)
            },
        }
    }

    /// Consistency is preserved by appending a fresh record and storing its
    /// blob under a previously unused key.
    proof fn lemma_ingest_consistent(
        pre: SystemModel,
        post: SystemModel,
        newrec: RecordModel,
        data: Seq<u8>,
    )
        requires
            stores_consistent(pre.records, pre.blobs),
            !pre.blobs.contains_key(newrec.blob_key()),
            !newrec.deleted,
            newrec.id == pre.records.len(),
            post.records == pre.records.push(newrec),
            post.blobs == pre.blobs.insert(newrec.blob_key(), data),
        ensures
            stores_consistent(post.records, post.blobs),
    {
        let kk = newrec.blob_key();
        let len = pre.records.len() as int;
        assert forall|i: int| 0 <= i < post.records.len() && !post.records[i].deleted
            implies post.blobs.contains_key((#[trigger] post.records[i]).blob_key()) by {
            if i < len {
                assert(post.records[i] == pre.records[i]);
                assert(pre.blobs.contains_key(pre.records[i].blob_key()));
            } else {
                assert(post.records[i] == newrec);
            }
        }
        assert forall|i: int, j: int|
            #![trigger post.records[i].blob_key(), post.records[j].blob_key()]
            0 <= i < post.records.len() && 0 <= j < post.records.len() && i != j
                && !post.records[i].deleted && !post.records[j].deleted
            implies post.records[i].blob_key() != post.records[j].blob_key() by {
            if i < len && j < len {
                assert(pre.records[i].blob_key() != pre.records[j].blob_key());
            } else if i == len && j < len {
                assert(pre.blobs.contains_key(pre.records[j].blob_key()));
            } else if j == len && i < len {
                assert(pre.blobs.contains_key(pre.records[i].blob_key()));
            }
        }
    }

    /// The Ingestion Gate.  Sanitizes the display name, then tries freshly
    /// generated random tokens until one is collision-free, in the fixed
    /// order of `save_file_with_token`; only then is the download link
    /// handed out.  On success the new record is the last one, active under
    /// a sixteen-character token.  Failure is owed only to collisions: it
    /// can be reported solely when some well-formed generated token really
    /// collided — on an engine where no sixteen-character token can collide
    /// (a fresh one, say) success is owed — and it leaves the engine
    /// unchanged.
    pub fn save_file(&mut self, file_name: &str, data: &Vec<u8>, now: i64)
        -> (r: Result<FileDetail, EngineError>)
        requires
            old(self).wf(),
            old(self)@.records.len() < i32::MAX as int,
            0 <= now <= MAX_TIMESTAMP,
        ensures
            final(self).wf(),
            forall|i: int| 0 <= i < old(self)@.records.len()
                ==> (#[trigger] final(self)@.records[i]) == old(self)@.records[i],
            all_active_armed(old(self)@) ==> all_active_armed(final(self)@),
            match r {
                Ok(detail) => ({
                    let rec = final(self)@.records.last();
                    &&& final(self)@.records.len() == old(self)@.records.len() + 1
                    &&& rec.storage_name.len() == 16
                    &&& all_token_chars(rec.storage_name)
                    &&& !ingest_collides(old(self)@, sanitized_of(file_name@), rec.storage_name)
                    &&& final(self)@ == ingested_system(
                        old(self)@,
                        sanitized_of(file_name@),
                        data@,
                        rec.storage_name,
                        now as int,
                    )
                    &&& detail.download_url@
                        == download_url_of(old(self)@.host, rec.storage_name)
                    &&& detail.expiry@ == datetime_string_of(now + old(self)@.retention)
                }),
                Err(e) => {
                    &&& e == EngineError::TokenCollision
                    &&& final(self)@ == old(self)@
                    &&& exists|tok: Seq<char>| tok.len() == 16 && all_token_chars(tok)
                        && #[trigger] ingest_collides(
                            old(self)@, sanitized_of(file_name@), tok,
                        )
                },
            },
    {
        let name = sanitize_name(file_name);
        let ghost mut collided: Seq<char> = Seq::empty();
        let mut attempts: usize = 0;
        while attempts < TOKEN_RETRY_LIMIT
            invariant
                self.wf(),
                self@ == old(self)@,
                name@ == sanitized_of(file_name@),
                old(self)@.records.len() < i32::MAX as int,
                0 <= now <= MAX_TIMESTAMP,
                attempts > 0 ==> collided.len() == 16 && all_token_chars(collided)
                    && ingest_collides(old(self)@, sanitized_of(file_name@), collided),
            decreases TOKEN_RETRY_LIMIT - attempts,
        {
            let token = generate_token();
            match self.save_file_with_token(name.as_str(), data, token.as_str(), now) {
                Ok(_) => {
                    let mut url = copy_str("https://");
                    url.append(self.config.download_url.as_str());
                    url.append("/");
                    url.append(token.as_str());
                    let expiry = format_timestamp(now + (self.config.retention_time as i64));
                    proof {
                        reveal_strlit("/");
                        assert("/"@ =~= seq!['/']);
                        assert(url@ =~= download_url_of(old(self)@.host, token@));
                        assert(self@.records.last().storage_name == token@);
                    }
                    return Ok(FileDetail { download_url: url, expiry });
                },
                Err(_) => {
                    proof {
                        collided = token@;
                    }
                },
            }
            attempts += 1;
        }
        proof {
            assert(ingest_collides(old(self)@, sanitized_of(file_name@), collided));
        }
        Err(EngineError::TokenCollision)
    }

    /// The Download Gate: consume on read.  The bytes of the blob whose
    /// record is active under the sanitized token are returned, and the
    /// record goes through the Deletion Executor — a download is a
    /// consumption event.  An unknown, expired, or already-consumed token
    /// fails with `RecordNotFound` and changes nothing.
    pub fn download_file(&mut self, file_name_x: &str) -> (r: Result<Vec<u8>, EngineError>)
        requires
            old(self).wf(),
        ensures
            final(self).wf(),
            deleted_monotone(old(self)@.records, final(self)@.records),
            all_active_armed(old(self)@) ==> all_active_armed(final(self)@),
            5 <= file_name_x@.len() <= 255 && all_token_chars(file_name_x@)
                ==> sanitized_of(file_name_x@) == file_name_x@,
            ({
                let tok = sanitized_of(file_name_x@);
                match r {
                    Ok(bytes) => has_active_token(old(self)@.records, tok)
                        && ({
                            let idx = active_index_of(old(self)@.records, tok);
                            &&& bytes@ == old(self)@.blobs[old(self)@.records[idx].blob_key()]
                            &&& final(self)@ == deleted_system(old(self)@, idx)
                        }),
                    Err(e) => e == EngineError::RecordNotFound
                        && !has_active_token(old(self)@.records, tok)
                        && final(self)@ == old(self)@,
                }
            }),
    {
        let tok = sanitize_name(file_name_x);
        match self.store.get_file_name(tok.as_str()) {
            None => Err(EngineError::RecordNotFound),
            Some(rec) => {
                let ghost idx = active_index_of(old(self)@.records, tok@);
                let key = blob_key(rec.storage_name.as_str(), rec.file_name.as_str());
                proof {
                    assert(rec@ == self@.records[idx]);
                    assert(record_active(self@, idx));
                    assert(self@.blobs.contains_key(self@.records[idx].blob_key()));
                    assert(key@ == self@.records[idx].blob_key());
                }
                let bytes = self.blobs.read(key.as_str()).unwrap();
                proof {
                    assert(rec@.id == idx);
                }
                self.delete_file(rec.id);
                Ok(bytes)
            },
        }
    }
}

}
