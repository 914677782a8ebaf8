use vstd::prelude::*;

use crate::digest::{Digest, DigestView};
use crate::error::Error;
use crate::events::RepoDeleted;
use crate::repo::{image_coordinate, Repo};
use crate::storage::{blob_key, blob_key_view, BlobStore, KeyView, StorageKey};

verus! {

/// Structural view of a [`Blob`] record.
pub struct BlobView {
    pub digest: DigestView,
    pub image: Seq<char>,
}

/// A blob record: the index entry that ties a content-addressed byte
/// payload to the image coordinate (`group/name`) it was pushed under.
/// The bytes themselves live in the blob store under `blob_key(digest)`.
#[derive(Debug, Clone)]
pub struct Blob {
    pub digest: Digest,
    pub image: String,
}

impl View for Blob {
    type V = BlobView;

    open spec fn view(&self) -> BlobView {
        BlobView { digest: self.digest@, image: self.image@ }
    }
}

impl Blob {
    pub fn new(digest: Digest, image: String) -> (b: Blob)
        ensures
            b@.digest == digest@,
            b@.image == image@,
    {
        Blob { digest, image }
    }

    pub fn digest(&self) -> (d: &Digest)
        ensures
            d@ == self@.digest,
    {
        &self.digest
    }

    pub fn image(&self) -> (i: &str)
        ensures
            i@ == self@.image,
    {
        self.image.as_str()
    }
}

/// Whether some record in `rs` carries digest `d`.
pub open spec fn has_digest(rs: Seq<BlobView>, d: DigestView) -> bool {
    exists|i: int| 0 <= i < rs.len() && rs[i].digest == d
}

/// The keys of every blob recorded under `image`: what the
/// repository-deletion cascade removes from the byte store.
pub open spec fn image_blob_keys(rs: Seq<BlobView>, image: Seq<char>) -> Set<KeyView> {
    Set::new(
        |k: KeyView|
            exists|i: int|
                0 <= i < rs.len() && rs[i].image == image && blob_key_view(rs[i].digest) == k,
    )
}

/// Content-addressable blob access, and the event-driven cascade that
/// removes a deleted repository's blobs. Holds the blob index; the byte
/// store is handed to each operation, since upload sessions share it.
#[derive(Debug)]
pub struct BlobService {
    pub records: Vec<Blob>,
}

impl View for BlobService {
    type V = Seq<BlobView>;

    open spec fn view(&self) -> Seq<BlobView> {
        self.records@.map_values(|b: Blob| b@)
    }
}

impl BlobService {
    /// One record per digest: content identity determines the record.
    pub open spec fn wf(&self) -> bool {
        forall|i: int, j: int| 0 <= i < j < self@.len() ==> self@[i].digest != self@[j].digest
    }

    pub fn new() -> (s: BlobService)
        ensures
            s.wf(),
            s@ == Seq::<BlobView>::empty(),
    {
        let s = BlobService { records: Vec::new() };
        proof {
            assert(s@ =~= Seq::<BlobView>::empty());
        }
        s
    }

    fn find_record(&self, digest: &Digest) -> (r: Option<usize>)
        ensures
            match r {
                Some(i) => i < self@.len() && self@[i as int].digest == digest@,
                None => !has_digest(self@, digest@),
            },
    {
        let n = self.records.len();
        for i in 0..n
            invariant
                n == self.records.len(),
                forall|j: int| 0 <= j < i ==> self@[j].digest != digest@,
        {
            if self.records[i].digest == *digest {
                return Some(i);
            }
        }
        None
    }

    /// Records a blob under its image coordinate and stores its bytes
    /// under its content-addressable key. A digest already recorded keeps
    /// a single record (content identity determines the record); its
    /// bytes are rewritten under the same key, which the idempotent store
    /// allows.
    pub fn record_blob(&mut self, store: &mut BlobStore, blob: Blob, content: Vec<u8>)
        requires
            old(self).wf(),
            old(store).wf(),
        ensures
            final(self).wf(),
            final(store).wf(),
            final(store)@ == old(store)@.insert(blob_key_view(blob@.digest), content@),
            !has_digest(old(self)@, blob@.digest) ==> final(self)@ == old(self)@.push(blob@),
            has_digest(old(self)@, blob@.digest) ==> exists|i: int|
                0 <= i < old(self)@.len() && old(self)@[i].digest == blob@.digest && final(self)@
                    == old(self)@.update(i, blob@),
    {
        let key = blob_key(&blob.digest);
        store.put(key, content);
        let ghost r0 = self@;
        match self.find_record(&blob.digest) {
            Some(i) => {
                let ghost bv = blob@;
                self.records[i] = blob;
                proof {
                    assert(self@ =~= r0.update(i as int, bv));
                }
            },
            None => {
                self.records.push(blob);
                proof {
                    assert(self@ =~= r0.push(self.records@.last()@));
                }
            },
        }
    }

    /// Resolves the content-addressable key for `digest` and reads the
    /// bytes stored under it. Fails with `BlobUnknown`, and only then,
    /// when the store holds no such key. No side effects.
    pub fn fetch_content(&self, store: &BlobStore, digest: &Digest) -> (r: Result<Vec<u8>, Error>)
        requires
            store.wf(),
        ensures
            match r {
                Ok(content) => store@.contains_key(blob_key_view(digest@)) && content@
                    == store@[blob_key_view(digest@)],
                Err(e) => e == Error::BlobUnknown && !store@.contains_key(blob_key_view(digest@)),
            },
    {
        let storage_key = blob_key(digest);
        match store.get(&storage_key) {
            Some(content) => Ok(vstd::slice::slice_to_vec(content.as_slice())),
            None => Err(Error::BlobUnknown),
        }
    }

    /// Deletes a blob: its index record first, then its bytes, so that a
    /// failing byte-store delete can never leave a dangling index entry.
    /// Fails with `BlobUnknown`, and only then, when no record carries the
    /// blob's digest.
    pub fn delete_blob(&mut self, store: &mut BlobStore, blob: &Blob) -> (r: Result<(), Error>)
        requires
            old(self).wf(),
            old(store).wf(),
        ensures
            final(self).wf(),
            final(store).wf(),
            match r {
                Ok(()) => {
                    &&& exists|i: int|
                        0 <= i < old(self)@.len() && old(self)@[i].digest == blob@.digest
                            && final(self)@ == old(self)@.remove(i)
                    &&& final(store)@ == old(store)@.remove(blob_key_view(blob@.digest))
                },
                Err(e) => {
                    &&& e == Error::BlobUnknown
                    &&& !has_digest(old(self)@, blob@.digest)
                    &&& final(self)@ == old(self)@
                    &&& final(store)@ == old(store)@
                },
            },
    {
        match self.find_record(blob.digest()) {
            Some(i) => {
                let ghost r0 = self@;
                self.records.remove(i);
                proof {
                    assert(self@ =~= r0.remove(i as int));
                }
                let storage_key = blob_key(blob.digest());
                store.delete(&storage_key);
                Ok(())
            },
            None => Err(Error::BlobUnknown),
        }
    }

    /// Reaction to `RepoDeleted`: removes every blob record whose image
    /// coordinate is the deleted repository's `group/name`, and then the
    /// bytes each of them pointed at. Records under other coordinates, and
    /// unrelated store entries, are untouched. The cascade needs nothing
    /// from the deleting caller beyond the event's denormalized fields.
    #[verifier::rlimit(60)]
    pub fn handle_repo_deleted(&mut self, store: &mut BlobStore, event: &RepoDeleted)
        requires
            old(self).wf(),
            old(store).wf(),
        ensures
            final(self).wf(),
            final(store).wf(),
            forall|i: int|
                0 <= i < final(self)@.len() ==> #[trigger] final(self)@[i].image
                    != image_coordinate(event.group@, event.name@),
            forall|i: int|
                0 <= i < final(self)@.len() ==> old(self)@.contains(#[trigger] final(self)@[i]),
            forall|i: int|
                0 <= i < old(self)@.len() && #[trigger] old(self)@[i].image != image_coordinate(
                    event.group@,
                    event.name@,
                ) ==> final(self)@.contains(old(self)@[i]),
            final(store)@ == old(store)@.remove_keys(
                image_blob_keys(old(self)@, image_coordinate(event.group@, event.name@)),
            ),
    {
        let image = Repo::build_id(event.group.as_str(), event.name.as_str());
        let ghost img = image@;
        let ghost r0 = self@;
        let mut kept: Vec<Blob> = Vec::new();
        let mut doomed: Vec<StorageKey> = Vec::new();
        let n = self.records.len();
        for i in 0..n
            invariant
                n == self.records.len(),
                self@ == r0,
                old(self).wf(),
                img == image_coordinate(event.group@, event.name@),
                image@ == img,
                forall|a: int|
                    0 <= a < kept@.len() ==> record_in_prefix(r0, i as int, #[trigger] kept@[a]@),
                forall|a: int| 0 <= a < kept@.len() ==> (#[trigger] kept@[a]@).image != img,
                forall|a: int, b: int|
                    0 <= a < b < kept@.len() ==> kept@[a]@.digest != kept@[b]@.digest,
                forall|b: int|
                    0 <= b < i && (#[trigger] r0[b]).image != img ==> view_listed(kept@, r0[b]),
                forall|j: int|
                    0 <= j < doomed@.len() ==> matching_key_in_prefix(
                        r0,
                        i as int,
                        img,
                        #[trigger] doomed@[j]@,
                    ),
                forall|b: int|
                    0 <= b < i && (#[trigger] r0[b]).image == img ==> key_listed(
                        doomed@,
                        blob_key_view(r0[b].digest),
                    ),
        {
            let matches_image = self.records[i].image == image;
            if matches_image {
                let ghost d0 = doomed@;
                doomed.push(blob_key(&self.records[i].digest));
                proof {
                    assert(doomed@ =~= d0.push(doomed@.last()));
                    assert(doomed@[doomed@.len() - 1]@ == blob_key_view(r0[i as int].digest));
                    assert(r0[i as int].image == img);
                    assert forall|j: int| 0 <= j < doomed@.len() implies matching_key_in_prefix(
                        r0,
                        i as int + 1,
                        img,
                        #[trigger] doomed@[j]@,
                    ) by {
                        if j == doomed@.len() - 1 {
                            assert(r0[i as int].image == img && blob_key_view(r0[i as int].digest)
                                == doomed@[j]@);
                        } else {
                            assert(matching_key_in_prefix(r0, i as int, img, d0[j]@));
                            let b = choose|b: int|
                                0 <= b < i as int && r0[b].image == img && blob_key_view(
                                    #[trigger] r0[b].digest,
                                ) == d0[j]@;
                            assert(blob_key_view(r0[b].digest) == doomed@[j]@);
                        }
                    }
                    assert forall|b: int|
                        0 <= b < i as int + 1 && (#[trigger] r0[b]).image == img implies key_listed(
                        doomed@,
                        blob_key_view(r0[b].digest),
                    ) by {
                        if b == i as int {
                            assert(doomed@[doomed@.len() - 1]@ == blob_key_view(r0[b].digest));
                        } else {
                            let j = choose|j: int|
                                0 <= j < d0.len() && (#[trigger] d0[j])@ == blob_key_view(
                                    r0[b].digest,
                                );
                            assert(doomed@[j]@ == blob_key_view(r0[b].digest));
                        }
                    }
                    assert forall|a: int| 0 <= a < kept@.len() implies record_in_prefix(
                        r0,
                        i as int + 1,
                        #[trigger] kept@[a]@,
                    ) by {
                        let b = choose|b: int| 0 <= b < i as int && #[trigger] r0[b] == kept@[a]@;
                        assert(0 <= b < i as int + 1 && r0[b] == kept@[a]@);
                    }
                }
            } else {
                let b = &self.records[i];
                let copy = Blob::new(
                    Digest::new(b.digest.algorithm.clone(), b.digest.hex.clone()),
                    b.image.clone(),
                );
                let ghost k0 = kept@;
                proof {
                    assert(copy@ == r0[i as int]);
                    assert forall|a: int| 0 <= a < kept@.len() implies kept@[a]@.digest
                        != copy@.digest by {
                        assert(record_in_prefix(r0, i as int, kept@[a]@));
                        let bb = choose|bb: int| 0 <= bb < i as int && #[trigger] r0[bb] == kept@[a]@;
                        assert(old(self).wf());
                    }
                }
                kept.push(copy);
                proof {
                    assert(kept@ =~= k0.push(copy));
                    assert(kept@[kept@.len() - 1]@ == r0[i as int]);
                    assert forall|a: int| 0 <= a < kept@.len() implies record_in_prefix(
                        r0,
                        i as int + 1,
                        #[trigger] kept@[a]@,
                    ) by {
                        if a == kept@.len() - 1 {
                            assert(r0[i as int] == kept@[a]@);
                        } else {
                            assert(record_in_prefix(r0, i as int, k0[a]@));
                            let bb = choose|bb: int| 0 <= bb < i as int && #[trigger] r0[bb] == k0[a]@;
                            assert(r0[bb] == kept@[a]@);
                        }
                    }
                    assert forall|b2: int|
                        0 <= b2 < i as int + 1 && (#[trigger] r0[b2]).image != img implies
                        view_listed(kept@, r0[b2]) by {
                        if b2 == i as int {
                            assert(kept@[kept@.len() - 1]@ == r0[b2]);
                        } else {
                            assert(view_listed(k0, r0[b2]));
                            let a = choose|a: int| 0 <= a < k0.len() && (#[trigger] k0[a])@ == r0[b2];
                            assert(kept@[a]@ == r0[b2]);
                        }
                    }
                }
            }
        }
        let ghost kfin = kept@;
        let ghost dfin = doomed@;
        self.records = kept;
        proof {
            assert forall|i: int| 0 <= i < self@.len() implies r0.contains(
                #[trigger] self@[i],
            ) by {
                assert(self@[i] == kfin[i]@);
                assert(record_in_prefix(r0, n as int, kfin[i]@));
                let b = choose|b: int| 0 <= b < n && #[trigger] r0[b] == kfin[i]@;
                assert(r0[b] == self@[i]);
            }
            assert forall|b: int|
                0 <= b < r0.len() && (#[trigger] r0[b]).image != img implies self@.contains(
                r0[b],
            ) by {
                assert(view_listed(kfin, r0[b]));
                let a = choose|a: int| 0 <= a < kfin.len() && (#[trigger] kfin[a])@ == r0[b];
                assert(self@[a] == r0[b]);
            }
        }
        let ghost store0 = store@;
        let m = doomed.len();
        for j in 0..m
            invariant
                m == doomed.len(),
                doomed@ == dfin,
                store.wf(),
                forall|k: KeyView| #[trigger]
                    store@.contains_key(k) == (store0.contains_key(k) && !key_listed(
                        dfin.take(j as int),
                        k,
                    )),
                forall|k: KeyView| #[trigger] store@.contains_key(k) ==> store@[k] == store0[k],
        {
            store.delete(&doomed[j]);
            proof {
                assert(dfin.take(j as int + 1) =~= dfin.take(j as int).push(dfin[j as int]));
                let tj = dfin.take(j as int);
                let tj1 = dfin.take(j as int + 1);
                assert forall|k: KeyView| #[trigger]
                    key_listed(tj1, k) == (key_listed(tj, k) || k == dfin[j as int]@) by {
                    if key_listed(tj, k) {
                        let x = choose|x: int| 0 <= x < tj.len() && (#[trigger] tj[x])@ == k;
                        assert(tj1[x]@ == k);
                        assert(key_listed(tj1, k));
                    }
                    if k == dfin[j as int]@ {
                        assert(tj1[j as int]@ == k);
                        assert(key_listed(tj1, k));
                    }
                    if key_listed(tj1, k) {
                        let x = choose|x: int| 0 <= x < tj1.len() && (#[trigger] tj1[x])@ == k;
                        if x < j as int {
                            assert(tj[x]@ == k);
                            assert(key_listed(tj, k));
                        } else {
                            assert(tj1[x]@ == dfin[j as int]@);
                        }
                    }
                }
            }
        }
        proof {
            assert(dfin.take(m as int) =~= dfin);
            assert forall|k: KeyView| #[trigger]
                key_listed(dfin, k) == image_blob_keys(r0, img).contains(k) by {
                if key_listed(dfin, k) {
                    let j = choose|j: int| 0 <= j < dfin.len() && (#[trigger] dfin[j])@ == k;
                    assert(matching_key_in_prefix(r0, n as int, img, k));
                    let b = choose|b: int|
                        0 <= b < n && r0[b].image == img && blob_key_view(#[trigger] r0[b].digest)
                            == k;
                    assert(image_blob_keys(r0, img).contains(k));
                }
                if image_blob_keys(r0, img).contains(k) {
                    let b = choose|b: int|
                        0 <= b < r0.len() && r0[b].image == img && blob_key_view(
                            #[trigger] r0[b].digest,
                        ) == k;
                    assert(key_listed(dfin, blob_key_view(r0[b].digest)));
                }
            }
            assert(store@ =~= store0.remove_keys(image_blob_keys(r0, img)));
        }
    }
}

/// Whether `v` occurs among the first `upto` records of `rs`.
pub open spec fn record_in_prefix(rs: Seq<BlobView>, upto: int, v: BlobView) -> bool {
    exists|b: int| 0 <= b < upto && b < rs.len() && rs[b] == v
}

/// Whether `v` is the view of some element of `ks`.
pub open spec fn view_listed(ks: Seq<Blob>, v: BlobView) -> bool {
    exists|a: int| 0 <= a < ks.len() && ks[a]@ == v
}

/// Whether `k` is the blob key of a record under `image` among the first
/// `upto` records of `rs`.
pub open spec fn matching_key_in_prefix(rs: Seq<BlobView>, upto: int, image: Seq<char>, k: KeyView) -> bool {
    exists|b: int| 0 <= b < upto && b < rs.len() && rs[b].image == image && blob_key_view(rs[b].digest) == k
}

/// Whether `k` is the view of some key in `ks`.
pub open spec fn key_listed(ks: Seq<StorageKey>, k: KeyView) -> bool {
    exists|i: int| 0 <= i < ks.len() && ks[i]@ == k
}

} // verus!
