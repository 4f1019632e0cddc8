//! The engine's laws, stated over the abstract state and proved once and
//! for all: any number of Deletion Executor runs perform exactly one
//! physical delete, an armed record past its window has a due timer, a
//! download consumes its token, and a blob's bytes survive unchanged from
//! upload to download.

use vstd::prelude::*;
use crate::engine::all_active_armed;
use crate::engine::deleted_system;
use crate::engine::ingest_collides;
use crate::engine::ingested_system;
use crate::engine::record_active;
use crate::engine::sys_inv;
use crate::engine::SystemModel;
use crate::store::active_index_of;
use crate::store::has_active_token;
use crate::store::is_active_with_token;

verus! {

/// At-most-one physical delete: the Deletion Executor's transition is
/// idempotent.  The first invocation for a record performs the single mark
/// and blob removal; on a state whose record is already deleted the
/// transition is the identity — no blob is touched — so any number of
/// further invocations change nothing.  (The executor itself cannot fail:
/// every call returns.)
pub proof fn lemma_delete_idempotent(s: SystemModel, id: int)
    requires
        sys_inv(s),
        0 <= id < s.records.len(),
    ensures
        deleted_system(deleted_system(s, id), id) == deleted_system(s, id),
        s.records[id].deleted ==> deleted_system(s, id) == s,
{
    let s1 = deleted_system(s, id);
    if !s.records[id].deleted {
        assert(s1.records[id] == s.records[id].mark_deleted());
    }
}

/// The Deletion Executor's transition applied `n` times in a row to the
/// same record.
pub open spec fn deleted_system_n(s: SystemModel, id: int, n: nat) -> SystemModel
    decreases n,
{
    if n == 0 {
        s
    } else {
        deleted_system(deleted_system_n(s, id, (n - 1) as nat), id)
    }
}

/// At-most-one physical delete, for any number of invocations: `n` runs of
/// the Deletion Executor for the same id (`n >= 1`) leave exactly the state
/// of a single run — the mark and the blob removal happen once, every later
/// invocation is the identity.
pub proof fn lemma_delete_exactly_once(s: SystemModel, id: int, n: nat)
    requires
        sys_inv(s),
        0 <= id < s.records.len(),
        n >= 1,
    ensures
        deleted_system_n(s, id, n) == deleted_system(s, id),
    decreases n,
{
    if n == 1 {
        assert(deleted_system_n(s, id, 1) == deleted_system(deleted_system_n(s, id, 0), id));
        assert(deleted_system_n(s, id, 0) == s);
    } else {
        lemma_delete_exactly_once(s, id, (n - 1) as nat);
        assert(deleted_system_n(s, id, n)
            == deleted_system(deleted_system_n(s, id, (n - 1) as nat), id));
        lemma_delete_idempotent(s, id);
    }
}

/// Expiry: once every active record is armed, a record past its retention
/// window has a timer already due, since timers are derived as
/// `created_at + retention`.  Firing the due timers therefore deletes it —
/// that is the conclusion `fire_due` states for exactly these records.
pub proof fn lemma_expired_record_has_due_timer(s: SystemModel, i: int, now: int)
    requires
        sys_inv(s),
        all_active_armed(s),
        record_active(s, i),
        s.records[i].created_at + s.retention <= now,
    ensures
        exists|t: int| 0 <= t < s.timers.len()
            && (#[trigger] s.timers[t]).id == i && s.timers[t].fire_at <= now,
{
    let t = choose|t: int| 0 <= t < s.timers.len() && (#[trigger] s.timers[t]).id == i;
    assert(s.timers[t].fire_at == s.records[i].created_at + s.retention);
}

/// Download-once: after a successful download consumes a token — the
/// Deletion Executor runs against its record — no record is active under
/// that token any more, so every later download of it fails.
pub proof fn lemma_download_once(s: SystemModel, tok: Seq<char>)
    requires
        sys_inv(s),
        has_active_token(s.records, tok),
    ensures
        !has_active_token(
            deleted_system(s, active_index_of(s.records, tok)).records,
            tok,
        ),
{
    let idx = active_index_of(s.records, tok);
    assert(is_active_with_token(s.records, idx, tok));
    let post = deleted_system(s, idx);
    assert forall|m: int| !is_active_with_token(post.records, m, tok) by {
        if 0 <= m < post.records.len() && !post.records[m].deleted {
            assert(m != idx);
            assert(post.records[m] == s.records[m]);
        }
    }
}

/// Round-trip integrity: the bytes stored by a collision-free ingestion are
/// exactly the bytes a download of its token finds, as long as the record
/// has not been deleted.  The fresh record is the one active under the
/// token, and the blob under its key holds the uploaded bytes unchanged.
pub proof fn lemma_round_trip(
    s: SystemModel,
    name: Seq<char>,
    data: Seq<u8>,
    tok: Seq<char>,
    now: int,
)
    requires
        sys_inv(s),
        !ingest_collides(s, name, tok),
    ensures
        ({
            let s2 = ingested_system(s, name, data, tok, now);
            let idx = active_index_of(s2.records, tok);
            &&& has_active_token(s2.records, tok)
            &&& idx == s.records.len()
            &&& s2.records[idx].file_name == name
            &&& s2.blobs[s2.records[idx].blob_key()] == data
        }),
{
    let s2 = ingested_system(s, name, data, tok, now);
    let len = s.records.len() as int;
    assert(is_active_with_token(s2.records, len, tok));
    let idx = active_index_of(s2.records, tok);
    assert(is_active_with_token(s2.records, idx, tok));
    if idx != len {
        assert(s2.records[idx] == s.records[idx]);
        assert(is_active_with_token(s.records, idx, tok));
        assert(has_active_token(s.records, tok));
    }
    assert(s2.records[len].blob_key() == tok + seq!['-'] + name);
}

}
