use vstd::prelude::*;

use crate::digest::{Digest, DigestView};

verus! {

/// Structural view of a [`StorageKey`].
pub enum KeyView {
    Blob { algorithm: Seq<char>, hex: Seq<char> },
    Chunk { upload: u64, ordinal: u64 },
}

/// A key of the blob store. Final blobs are keyed by their digest
/// (content-addressable); the bytes of a chunk committed to an upload
/// session are keyed by the session id and the chunk's ordinal. The two
/// families never collide.
#[derive(Debug, Clone)]
pub enum StorageKey {
    Blob(Digest),
    Chunk { upload: u64, ordinal: u64 },
}

impl View for StorageKey {
    type V = KeyView;

    open spec fn view(&self) -> KeyView {
        match self {
            StorageKey::Blob(d) => KeyView::Blob { algorithm: d@.algorithm, hex: d@.hex },
            StorageKey::Chunk { upload, ordinal } => KeyView::Chunk {
                upload: *upload,
                ordinal: *ordinal,
            },
        }
    }
}

/// The content-addressable key under which a blob with this digest is
/// stored: a deterministic, injective function of the digest.
pub open spec fn blob_key_view(d: DigestView) -> KeyView {
    KeyView::Blob { algorithm: d.algorithm, hex: d.hex }
}

/// The key under which the bytes of the chunk at position `ordinal` of
/// upload session `upload` are stored.
pub open spec fn chunk_key_view(upload: u64, ordinal: u64) -> KeyView {
    KeyView::Chunk { upload, ordinal }
}

pub fn blob_key(digest: &Digest) -> (k: StorageKey)
    ensures
        k@ == blob_key_view(digest@),
{
    StorageKey::Blob(Digest::new(digest.algorithm().clone(), digest.hex().clone()))
}

pub fn chunk_key(upload: u64, ordinal: u64) -> (k: StorageKey)
    ensures
        k@ == chunk_key_view(upload, ordinal),
{
    StorageKey::Chunk { upload, ordinal }
}

/// Decides structural equality of two storage keys.
pub fn key_eq(a: &StorageKey, b: &StorageKey) -> (r: bool)
    ensures
        r == (a@ == b@),
{
    match (a, b) {
        (StorageKey::Blob(d1), StorageKey::Blob(d2)) => {
            d1.algorithm == d2.algorithm && d1.hex == d2.hex
        },
        (
            StorageKey::Chunk { upload: u1, ordinal: o1 },
            StorageKey::Chunk { upload: u2, ordinal: o2 },
        ) => u1 == u2 && o1 == o2,
        _ => false,
    }
}

/// The map an entry list denotes: later entries would shadow earlier ones,
/// but the store keeps its keys unique, so each key denotes the one entry
/// that carries it.
pub open spec fn entries_map(s: Seq<(StorageKey, Vec<u8>)>) -> Map<KeyView, Seq<u8>>
    decreases s.len(),
{
    if s.len() == 0 {
        Map::empty()
    } else {
        entries_map(s.drop_last()).insert(s.last().0@, s.last().1@)
    }
}

pub open spec fn unique_keys(s: Seq<(StorageKey, Vec<u8>)>) -> bool {
    forall|i: int, j: int| 0 <= i < j < s.len() ==> s[i].0@ != s[j].0@
}

pub open spec fn has_key(s: Seq<(StorageKey, Vec<u8>)>, k: KeyView) -> bool {
    exists|i: int| 0 <= i < s.len() && s[i].0@ == k
}

proof fn lemma_entries_map_dom(s: Seq<(StorageKey, Vec<u8>)>)
    ensures
        forall|k: KeyView| #[trigger] entries_map(s).contains_key(k) == has_key(s, k),
    decreases s.len(),
{
    if s.len() > 0 {
        let dl = s.drop_last();
        lemma_entries_map_dom(dl);
        assert forall|k: KeyView| #[trigger] entries_map(s).contains_key(k) == has_key(s, k) by {
            if k == s.last().0@ {
                assert(entries_map(s).contains_key(k));
                assert(s[s.len() - 1].0@ == k);
                assert(has_key(s, k));
            } else {
                assert(entries_map(s).contains_key(k) == entries_map(dl).contains_key(k));
                assert(entries_map(dl).contains_key(k) == has_key(dl, k));
                if has_key(dl, k) {
                    let i = choose|i: int| 0 <= i < dl.len() && dl[i].0@ == k;
                    assert(s[i].0@ == k);
                    assert(has_key(s, k));
                }
                if has_key(s, k) {
                    let i = choose|i: int| 0 <= i < s.len() && s[i].0@ == k;
                    assert(i < s.len() - 1);
                    assert(dl[i].0@ == k);
                    assert(has_key(dl, k));
                }
            }
        }
    }
}

proof fn lemma_entries_map_index(s: Seq<(StorageKey, Vec<u8>)>, i: int)
    requires
        unique_keys(s),
        0 <= i < s.len(),
    ensures
        entries_map(s).contains_key(s[i].0@),
        entries_map(s)[s[i].0@] == s[i].1@,
    decreases s.len(),
{
    let dl = s.drop_last();
    if i == s.len() - 1 {
    } else {
        assert(s[i].0@ != s.last().0@);
        assert(dl[i] == s[i]);
        lemma_entries_map_index(dl, i);
    }
}

proof fn lemma_entries_map_push(s: Seq<(StorageKey, Vec<u8>)>, e: (StorageKey, Vec<u8>))
    ensures
        entries_map(s.push(e)) == entries_map(s).insert(e.0@, e.1@),
{
    assert(s.push(e).drop_last() =~= s);
    assert(s.push(e).last() == e);
}

proof fn lemma_entries_map_remove(s: Seq<(StorageKey, Vec<u8>)>, i: int)
    requires
        unique_keys(s),
        0 <= i < s.len(),
    ensures
        entries_map(s.remove(i)) =~= entries_map(s).remove(s[i].0@),
        unique_keys(s.remove(i)),
        !has_key(s.remove(i), s[i].0@),
    decreases s.len(),
{
    let k = s[i].0@;
    let r = s.remove(i);
    assert forall|a: int, b: int| 0 <= a < b < r.len() implies r[a].0@ != r[b].0@ by {
        let a0: int = if a < i {
            a
        } else {
            a + 1
        };
        let b0: int = if b < i {
            b
        } else {
            b + 1
        };
        assert(r[a] == s[a0] && r[b] == s[b0]);
    }
    assert forall|j: int| 0 <= j < r.len() implies r[j].0@ != k by {
        let j0: int = if j < i {
            j
        } else {
            j + 1
        };
        assert(r[j] == s[j0]);
    }
    let dl = s.drop_last();
    if i == s.len() - 1 {
        assert(r =~= dl);
        assert forall|j: int| 0 <= j < dl.len() implies dl[j].0@ != k by {
            assert(dl[j] == s[j]);
        }
        lemma_entries_map_dom(dl);
        assert(!entries_map(dl).contains_key(k));
        assert(entries_map(dl).insert(k, s.last().1@).remove(k) =~= entries_map(dl));
    } else {
        let lk = s.last().0@;
        let lv = s.last().1@;
        assert(k != lk);
        assert forall|a: int, b: int| 0 <= a < b < dl.len() implies dl[a].0@ != dl[b].0@ by {
            assert(dl[a] == s[a] && dl[b] == s[b]);
        }
        lemma_entries_map_remove(dl, i);
        assert(r.drop_last() =~= dl.remove(i));
        assert(r.last() == s.last());
        assert(entries_map(r) == entries_map(dl.remove(i)).insert(lk, lv));
        assert(entries_map(dl).remove(k).insert(lk, lv) =~= entries_map(dl).insert(lk, lv).remove(
            k,
        ));
    }
}

/// The blob store: an idempotent key/value byte store. Final blobs and
/// committed chunks both live here, under the two disjoint key families of
/// [`StorageKey`]. The registry's services are verified against its map
/// view.
#[derive(Debug)]
pub struct BlobStore {
    pub entries: Vec<(StorageKey, Vec<u8>)>,
}

impl View for BlobStore {
    type V = Map<KeyView, Seq<u8>>;

    open spec fn view(&self) -> Map<KeyView, Seq<u8>> {
        entries_map(self.entries@)
    }
}

impl BlobStore {
    /// The store keeps one entry per key.
    pub open spec fn wf(&self) -> bool {
        unique_keys(self.entries@)
    }

    pub fn new() -> (s: BlobStore)
        ensures
            s.wf(),
            s@ == Map::<KeyView, Seq<u8>>::empty(),
    {
        BlobStore { entries: Vec::new() }
    }

    fn find_index(&self, key: &StorageKey) -> (r: Option<usize>)
        ensures
            match r {
                Some(i) => i < self.entries.len() && self.entries[i as int].0@ == key@,
                None => !has_key(self.entries@, key@),
            },
    {
        let n = self.entries.len();
        for i in 0..n
            invariant
                n == self.entries.len(),
                forall|j: int| 0 <= j < i ==> self.entries[j].0@ != key@,
        {
            if key_eq(&self.entries[i].0, key) {
                return Some(i);
            }
        }
        None
    }

    /// Reads the bytes stored under `key`, if any.
    pub fn get(&self, key: &StorageKey) -> (r: Option<&Vec<u8>>)
        requires
            self.wf(),
        ensures
            match r {
                Some(v) => self@.contains_key(key@) && v@ == self@[key@],
                None => !self@.contains_key(key@),
            },
    {
        proof {
            lemma_entries_map_dom(self.entries@);
        }
        match self.find_index(key) {
            Some(i) => {
                proof {
                    lemma_entries_map_index(self.entries@, i as int);
                }
                Some(&self.entries[i].1)
            },
            None => None,
        }
    }

    /// Stores `content` under `key`, replacing any previous entry: writing
    /// the same content under the same key is idempotent.
    pub fn put(&mut self, key: StorageKey, content: Vec<u8>)
        requires
            old(self).wf(),
        ensures
            final(self).wf(),
            final(self)@ == old(self)@.insert(key@, content@),
    {
        let ghost s0 = self.entries@;
        match self.find_index(&key) {
            Some(i) => {
                proof {
                    lemma_entries_map_remove(s0, i as int);
                }
                self.entries.remove(i);
                let ghost s1 = self.entries@;
                proof {
                    lemma_entries_map_push(s1, (key, content));
                }
                self.entries.push((key, content));
                proof {
                    assert forall|a: int, b: int|
                        0 <= a < b < self.entries@.len() implies self.entries@[a].0@
                        != self.entries@[b].0@ by {
                        if b == self.entries@.len() - 1 {
                            assert(self.entries@[a] == s1[a]);
                            assert(!has_key(s1, s0[i as int].0@));
                        } else {
                            assert(self.entries@[a] == s1[a] && self.entries@[b] == s1[b]);
                        }
                    }
                    assert(self@ =~= old(self)@.insert(key@, content@));
                }
            },
            None => {
                proof {
                    lemma_entries_map_push(s0, (key, content));
                }
                self.entries.push((key, content));
                proof {
                    assert forall|a: int, b: int|
                        0 <= a < b < self.entries@.len() implies self.entries@[a].0@
                        != self.entries@[b].0@ by {
                        if b == self.entries@.len() - 1 {
                            assert(self.entries@[a] == s0[a]);
                        } else {
                            assert(self.entries@[a] == s0[a] && self.entries@[b] == s0[b]);
                        }
                    }
                }
            },
        }
    }

    /// Removes the entry under `key`, if any; reports whether one was
    /// there.
    pub fn delete(&mut self, key: &StorageKey) -> (r: bool)
        requires
            old(self).wf(),
        ensures
            final(self).wf(),
            final(self)@ == old(self)@.remove(key@),
            r == old(self)@.contains_key(key@),
    {
        proof {
            lemma_entries_map_dom(self.entries@);
        }
        match self.find_index(key) {
            Some(i) => {
                proof {
                    lemma_entries_map_remove(self.entries@, i as int);
                }
                self.entries.remove(i);
                proof {
                    assert(self@ =~= old(self)@.remove(key@));
                }
                true
            },
            None => {
                proof {
                    assert(self@ =~= old(self)@.remove(key@));
                }
                false
            },
        }
    }
}

} // verus!
