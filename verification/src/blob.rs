//! The blob store: file contents keyed by the composite name
//! `token-filename`.  Writes are exclusive creates — a key collision
//! surfaces instead of clobbering another blob — and deletes are idempotent,
//! so a deletion replayed against an already-absent key is a success.

use vstd::prelude::*;
use crate::strutil::copy_bytes;
use crate::strutil::copy_str;
use crate::strutil::str_eq;

verus! {

/// The one blob-write failure: the key already names a blob.
#[derive(Debug, PartialEq, Eq, Structural)]
pub enum BlobError {
    AlreadyExists,
}

/// Builds the composite blob key: `token`, a dash, then `name`.
pub fn blob_key(token: &str, name: &str) -> (r: String)
    ensures
        r@ == token@ + seq!['-'] + name@,
{
    let mut s = copy_str(token);
    s.append("-");
    s.append(name);
    proof {
        reveal_strlit("-");
        assert("-"@ =~= seq!['-']);
        assert(s@ =~= token@ + seq!['-'] + name@);
    }
    s
}

struct BlobEntry {
    key: String,
    data: Vec<u8>,
    live: bool,
}

/// Blob contents, abstractly a map from key to bytes.  A removed blob leaves
/// a dead entry behind, so keys of deleted blobs may be written again.
pub struct BlobStore {
    entries: Vec<BlobEntry>,
}

impl View for BlobStore {
    type V = Map<Seq<char>, Seq<u8>>;

    closed spec fn view(&self) -> Map<Seq<char>, Seq<u8>> {
        Map::new(
            |k: Seq<char>| self.has_key(k),
            |k: Seq<char>| self.entries@[self.index_of(k)].data@,
        )
    }
}

impl BlobStore {
    spec fn live_at(self, i: int, k: Seq<char>) -> bool {
        &&& 0 <= i < self.entries@.len()
        &&& self.entries@[i].live
        &&& self.entries@[i].key@ == k
    }

    spec fn has_key(self, k: Seq<char>) -> bool {
        exists|i: int| self.live_at(i, k)
    }

    spec fn index_of(self, k: Seq<char>) -> int {
        choose|i: int| self.live_at(i, k)
    }

    /// Well-formedness: at most one live entry per key.
    pub closed spec fn wf(self) -> bool {
        forall|i: int, j: int| #[trigger] self.live_at(i, self.entries@[j].key@)
            && self.live_at(j, self.entries@[j].key@)
            ==> i == j
    }

    proof fn lemma_view_has(self, k: Seq<char>)
        ensures
            self@.contains_key(k) == self.has_key(k),
            self.has_key(k) ==> self@[k] == self.entries@[self.index_of(k)].data@,
    {
    }

    /// An empty blob store.
    pub fn new() -> (s: BlobStore)
        ensures
            s.wf(),
            s@ == Map::<Seq<char>, Seq<u8>>::empty(),
    {
        let s = BlobStore { entries: Vec::new() };
        proof {
            assert forall|k: Seq<char>| !s.has_key(k) by {
                assert(forall|i: int| !s.live_at(i, k));
            }
            assert(s@ =~= Map::<Seq<char>, Seq<u8>>::empty());
        }
        s
    }

    /// Whether a blob is stored under `key`.
    pub fn contains(&self, key: &str) -> (r: bool)
        requires
            self.wf(),
        ensures
            r == self@.contains_key(key@),
    {
        let n = self.entries.len();
        let mut i: usize = 0;
        while i < n
            invariant
                0 <= i <= n,
                n == self.entries@.len(),
                forall|j: int| 0 <= j < i ==> !self.live_at(j, key@),
            decreases n - i,
        {
            if self.entries[i].live && str_eq(self.entries[i].key.as_str(), key) {
                proof {
                    assert(self.live_at(i as int, key@));
                }
                return true;
            }
            i += 1;
        }
        proof {
            assert(forall|j: int| !self.live_at(j, key@));
        }
        false
    }

    /// Exclusive create: stores `data` under `key`, or reports
    /// `AlreadyExists` — leaving everything untouched — when a blob already
    /// holds the key.
    pub fn write(&mut self, key: &str, data: &Vec<u8>) -> (r: Result<(), BlobError>)
        requires
            old(self).wf(),
        ensures
            final(self).wf(),
            match r {
                Ok(()) => !old(self)@.contains_key(key@)
                    && final(self)@ == old(self)@.insert(key@, data@),
                Err(e) => e == BlobError::AlreadyExists
                    && old(self)@.contains_key(key@)
                    && final(self)@ == old(self)@,
            },
    {
        if self.contains(key) {
            return Err(BlobError::AlreadyExists);
        }
        let entry = BlobEntry { key: copy_str(key), data: copy_bytes(data), live: true };
        self.entries.push(entry);
        proof {
            let pre = old(self);
            let len = pre.entries@.len() as int;
            assert forall|i: int, k: Seq<char>| pre.live_at(i, k)
                implies self.live_at(i, k) by {
                assert(self.entries@[i] == pre.entries@[i]);
            }
            assert forall|i: int, k: Seq<char>| self.live_at(i, k)
                implies (pre.live_at(i, k) || (i == len && k == key@)) by {
                if i < len {
                    assert(self.entries@[i] == pre.entries@[i]);
                }
            }
            assert(self.live_at(len, key@));
            assert forall|i: int, j: int| #[trigger] self.live_at(i, self.entries@[j].key@)
                && self.live_at(j, self.entries@[j].key@)
                implies i == j by {
                let k = self.entries@[j].key@;
                if i < len && j < len {
                    assert(pre.live_at(i, pre.entries@[j].key@));
                    assert(pre.live_at(j, pre.entries@[j].key@));
                } else if i == len && j < len {
                    assert(pre.live_at(j, key@));
                } else if j == len && i < len {
                    assert(pre.live_at(i, key@));
                }
            }
            assert forall|k: Seq<char>| #[trigger] self.has_key(k)
                implies self@[k] == old(self)@.insert(key@, data@)[k] by {
                let i = self.index_of(k);
                assert(self.live_at(i, k));
                if k == key@ {
                    assert(self.live_at(len, k));
                    assert(i == len);
                } else {
                    assert(pre.live_at(i, k));
                    let i0 = pre.index_of(k);
                    assert(pre.live_at(i0, k));
                    assert(pre.live_at(i0, pre.entries@[i].key@));
                    assert(pre.live_at(i, pre.entries@[i].key@));
                    assert(i0 == i);
                }
            }
            assert forall|k: Seq<char>| #[trigger] old(self)@.insert(key@, data@).contains_key(k)
                implies self.has_key(k) by {
                if k == key@ {
                    assert(self.live_at(len, k));
                } else {
                    let i0 = pre.index_of(k);
                    assert(pre.live_at(i0, k));
                    assert(self.live_at(i0, k));
                }
            }
            assert(self@ =~= old(self)@.insert(key@, data@));
        }
        Ok(())
    }

    /// The bytes stored under `key`, if any.
    pub fn read(&self, key: &str) -> (r: Option<Vec<u8>>)
        requires
            self.wf(),
        ensures
            match r {
                Some(d) => self@.contains_key(key@) && d@ == self@[key@],
                None => !self@.contains_key(key@),
            },
    {
        let n = self.entries.len();
        let mut i: usize = 0;
        while i < n
            invariant
                self.wf(),
                0 <= i <= n,
                n == self.entries@.len(),
                forall|j: int| 0 <= j < i ==> !self.live_at(j, key@),
            decreases n - i,
        {
            if self.entries[i].live && str_eq(self.entries[i].key.as_str(), key) {
                let d = copy_bytes(&self.entries[i].data);
                proof {
                    assert(self.live_at(i as int, key@));
                    let k = self.index_of(key@);
                    assert(self.live_at(k, key@));
                    assert(self.live_at(k, self.entries@[i as int].key@));
                    assert(self.live_at(i as int, self.entries@[i as int].key@));
                    assert(k == i as int);
                }
                return Some(d);
            }
            i += 1;
        }
        proof {
            assert(forall|j: int| !self.live_at(j, key@));
        }
        None
    }

    /// Idempotent removal: afterwards no blob is stored under `key`,
    /// whether or not one was before.
    pub fn delete(&mut self, key: &str)
        requires
            old(self).wf(),
        ensures
            final(self).wf(),
            final(self)@ == old(self)@.remove(key@),
    {
        let n = self.entries.len();
        let mut i: usize = 0;
        while i < n
            invariant
                self.wf(),
                self == old(self),
                0 <= i <= n,
                n == self.entries@.len(),
                forall|j: int| 0 <= j < i ==> !self.live_at(j, key@),
            decreases n - i,
        {
            if self.entries[i].live && str_eq(self.entries[i].key.as_str(), key) {
                let dead = BlobEntry {
                    key: copy_str(self.entries[i].key.as_str()),
                    data: Vec::new(),
                    live: false,
                };
                proof {
                    assert(old(self).live_at(i as int, key@));
                }
                self.entries[i] = dead;
                proof {
                    let pre = old(self);
                    let ii = i as int;
                    assert forall|j: int, k: Seq<char>| self.live_at(j, k)
                        implies (pre.live_at(j, k) && j != ii) by {
                        if j != ii {
                            assert(self.entries@[j] == pre.entries@[j]);
                        }
                    }
                    assert forall|j: int, k: Seq<char>| pre.live_at(j, k) && j != ii
                        implies self.live_at(j, k) by {
                        assert(self.entries@[j] == pre.entries@[j]);
                    }
                    assert forall|a: int, b: int| #[trigger] self.live_at(a, self.entries@[b].key@)
                        && self.live_at(b, self.entries@[b].key@)
                        implies a == b by {
                        assert(pre.live_at(a, pre.entries@[b].key@));
                        assert(pre.live_at(b, pre.entries@[b].key@));
                    }
                    assert forall|k: Seq<char>| #[trigger] self.has_key(k)
                        implies (pre.has_key(k) && k != key@
                            && self@[k] == pre@[k]) by {
                        let j = self.index_of(k);
                        assert(self.live_at(j, k));
                        assert(pre.live_at(j, k));
                        if k == key@ {
                            assert(pre.live_at(ii, pre.entries@[j].key@));
                            assert(pre.live_at(j, pre.entries@[j].key@));
                            assert(j == ii);
                        }
                        let j0 = pre.index_of(k);
                        assert(pre.live_at(j0, k));
                        assert(pre.live_at(j0, pre.entries@[j].key@));
                        assert(pre.live_at(j, pre.entries@[j].key@));
                        assert(j0 == j);
                    }
                    assert forall|k: Seq<char>| pre.has_key(k) && k != key@
                        implies self.has_key(k) by {
                        let j = pre.index_of(k);
                        assert(pre.live_at(j, k));
                        if j == ii {
                            assert(pre.live_at(ii, key@));
                            assert(pre.live_at(ii, pre.entries@[ii].key@));
                            assert(pre.live_at(j, pre.entries@[ii].key@));
                        }
                        assert(j != ii);
                        assert(self.live_at(j, k));
                    }
                    assert(self@ =~= old(self)@.remove(key@));
                }
                return;
            }
            i += 1;
        }
        proof {
            assert(forall|j: int| !self.live_at(j, key@));
            assert(!self@.contains_key(key@));
            assert(self@ =~= old(self)@.remove(key@));
        }
    }
}

}
