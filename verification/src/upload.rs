use vstd::prelude::*;

use crate::digest::Digest;
use crate::error::Error;
use crate::events::RepoDeleted;
use crate::repo::Repo;
use crate::storage::{blob_key, blob_key_view, chunk_key, chunk_key_view, BlobStore, KeyView, StorageKey};

verus! {

/// Structural view of an [`UploadChunk`].
pub struct ChunkView {
    pub start_range: u64,
    pub content: Seq<u8>,
    pub storage_key: Option<KeyView>,
}

/// One contiguous byte range committed to an upload session. A chunk
/// arrives from the wire with a claimed start offset and no storage key;
/// the session assigns the key when the chunk is accepted.
#[derive(Debug)]
pub struct UploadChunk {
    pub start_range: u64,
    pub content: Vec<u8>,
    pub storage_key: Option<StorageKey>,
}

impl View for UploadChunk {
    type V = ChunkView;

    open spec fn view(&self) -> ChunkView {
        ChunkView {
            start_range: self.start_range,
            content: self.content@,
            storage_key: match self.storage_key {
                Some(ref k) => Some(k@),
                None => None,
            },
        }
    }
}

impl UploadChunk {
    pub fn new(start_range: u64, content: Vec<u8>) -> (c: UploadChunk)
        ensures
            c@.start_range == start_range,
            c@.content == content@,
            c@.storage_key is None,
    {
        UploadChunk { start_range, content, storage_key: None }
    }

    pub fn start_range(&self) -> (r: u64)
        ensures
            r == self@.start_range,
    {
        self.start_range
    }

    pub fn content(&self) -> (c: &Vec<u8>)
        ensures
            c@ == self@.content,
    {
        &self.content
    }

    pub fn storage_key(&self) -> (k: &Option<StorageKey>)
        ensures
            self@.storage_key == (match k {
                Some(key) => Some(key@),
                None => None::<KeyView>,
            }),
    {
        &self.storage_key
    }
}

/// The number of bytes the chunks hold together: the session's offset
/// after they are all committed.
pub open spec fn chunks_len(chunks: Seq<ChunkView>) -> int
    decreases chunks.len(),
{
    if chunks.len() == 0 {
        0
    } else {
        chunks_len(chunks.drop_last()) + chunks.last().content.len()
    }
}

/// The concatenation of the chunks' payloads in committed order.
pub open spec fn payload(chunks: Seq<ChunkView>) -> Seq<u8>
    decreases chunks.len(),
{
    if chunks.len() == 0 {
        Seq::empty()
    } else {
        payload(chunks.drop_last()) + chunks.last().content
    }
}

pub proof fn lemma_chunks_len_nonneg(chunks: Seq<ChunkView>)
    ensures
        chunks_len(chunks) >= 0,
    decreases chunks.len(),
{
    if chunks.len() > 0 {
        lemma_chunks_len_nonneg(chunks.drop_last());
    }
}

/// A prefix of the chunks never holds more bytes than the whole.
pub proof fn lemma_chunks_len_prefix(chunks: Seq<ChunkView>, i: int)
    requires
        0 <= i <= chunks.len(),
    ensures
        chunks_len(chunks.take(i)) <= chunks_len(chunks),
        chunks_len(chunks.take(i)) >= 0,
    decreases chunks.len() - i,
{
    lemma_chunks_len_nonneg(chunks.take(i));
    if i == chunks.len() {
        assert(chunks.take(i) =~= chunks);
    } else {
        assert(chunks.take(i + 1).drop_last() =~= chunks.take(i));
        assert(chunks.take(i + 1).last() == chunks[i]);
        lemma_chunks_len_prefix(chunks, i + 1);
    }
}

/// Structural view of an [`Upload`].
pub struct UploadView {
    pub id: u64,
    pub rev: Option<u64>,
    pub group: Seq<char>,
    pub name: Seq<char>,
    pub chunks: Seq<ChunkView>,
}

impl UploadView {
    /// The session invariant: chunks are gapless and start at offset zero
    /// (each chunk's `start_range` is exactly the byte count of the
    /// chunks before it), every chunk carries the storage key derived
    /// from the session id and its ordinal, and the total fits a machine
    /// word.
    pub open spec fn wf(self) -> bool {
        &&& forall|i: int|
            0 <= i < self.chunks.len() ==> (#[trigger] self.chunks[i]).start_range as int
                == chunks_len(self.chunks.take(i))
        &&& forall|i: int|
            0 <= i < self.chunks.len() ==> (#[trigger] self.chunks[i]).storage_key == Some(
                chunk_key_view(self.id, i as u64),
            )
        &&& chunks_len(self.chunks) <= usize::MAX as int
    }

    /// The session's current offset: the sum of its committed chunk
    /// lengths, derived data rather than stored state.
    pub open spec fn offset(self) -> int {
        chunks_len(self.chunks)
    }
}

/// A resumable upload session: an append-only stream of chunks bound to
/// one repository, persisted under an optimistic-concurrency revision.
#[derive(Debug)]
pub struct Upload {
    pub id: u64,
    pub rev: Option<u64>,
    pub group: String,
    pub name: String,
    pub chunks: Vec<UploadChunk>,
}

impl View for Upload {
    type V = UploadView;

    open spec fn view(&self) -> UploadView {
        UploadView {
            id: self.id,
            rev: self.rev,
            group: self.group@,
            name: self.name@,
            chunks: self.chunks@.map_values(|c: UploadChunk| c@),
        }
    }
}

impl Upload {
    pub fn new(id: u64, group: String, name: String) -> (u: Upload)
        ensures
            u@.id == id,
            u@.rev is None,
            u@.group == group@,
            u@.name == name@,
            u@.chunks == Seq::<ChunkView>::empty(),
            u@.wf(),
    {
        let u = Upload { id, rev: None, group, name, chunks: Vec::new() };
        proof {
            assert(u@.chunks =~= Seq::<ChunkView>::empty());
        }
        u
    }

    pub fn id(&self) -> (id: u64)
        ensures
            id == self@.id,
    {
        self.id
    }

    pub fn rev(&self) -> (rev: Option<u64>)
        ensures
            rev == self@.rev,
    {
        self.rev
    }

    pub fn group(&self) -> (g: &str)
        ensures
            g@ == self@.group,
    {
        self.group.as_str()
    }

    pub fn name(&self) -> (n: &str)
        ensures
            n@ == self@.name,
    {
        self.name.as_str()
    }

    pub fn chunks(&self) -> (c: &Vec<UploadChunk>)
        ensures
            c@.map_values(|ch: UploadChunk| ch@) == self@.chunks,
    {
        &self.chunks
    }

    /// The sum of the committed chunk lengths: the offset the next chunk
    /// must claim.
    pub fn latest_offset(&self) -> (r: u64)
        requires
            self@.wf(),
        ensures
            r as int == self@.offset(),
    {
        let n = self.chunks.len();
        let mut acc: u64 = 0;
        for i in 0..n
            invariant
                n == self.chunks.len(),
                self@.wf(),
                acc as int == chunks_len(self@.chunks.take(i as int)),
        {
            proof {
                lemma_chunks_len_prefix(self@.chunks, i as int + 1);
                assert(self@.chunks.take(i as int + 1).drop_last() =~= self@.chunks.take(i as int));
                assert(self@.chunks.take(i as int + 1).last() == self@.chunks[i as int]);
            }
            acc = acc + self.chunks[i].content.len() as u64;
        }
        proof {
            assert(self@.chunks.take(n as int) =~= self@.chunks);
        }
        acc
    }

    /// Appends an accepted chunk, assigning it the storage key derived
    /// from the session id and its ordinal.
    pub fn add_chunk(&mut self, chunk: UploadChunk)
        requires
            old(self)@.wf(),
            chunk@.start_range as int == old(self)@.offset(),
            chunk@.start_range as int + chunk@.content.len() <= usize::MAX as int,
        ensures
            final(self)@.wf(),
            final(self)@.chunks == old(self)@.chunks.push(
                ChunkView {
                    start_range: chunk@.start_range,
                    content: chunk@.content,
                    storage_key: Some(
                        chunk_key_view(old(self)@.id, old(self)@.chunks.len() as u64),
                    ),
                },
            ),
            final(self)@.id == old(self)@.id,
            final(self)@.rev == old(self)@.rev,
            final(self)@.group == old(self)@.group,
            final(self)@.name == old(self)@.name,
    {
        let ord = self.chunks.len() as u64;
        let mut chunk = chunk;
        chunk.storage_key = Some(chunk_key(self.id, ord));
        let ghost c0 = self@.chunks;
        self.chunks.push(chunk);
        proof {
            let cs = self@.chunks;
            assert(cs =~= c0.push(cs.last()));
            assert forall|i: int| 0 <= i < cs.len() implies (#[trigger] cs[i]).start_range as int
                == chunks_len(cs.take(i)) by {
                assert(cs.take(i) =~= c0.take(i));
                if i < cs.len() - 1 {
                    assert(cs[i] == c0[i]);
                } else {
                    assert(cs.take(i) =~= c0);
                }
            }
            assert forall|i: int| 0 <= i < cs.len() implies (#[trigger] cs[i]).storage_key == Some(
                chunk_key_view(self@.id, i as u64),
            ) by {
                if i < cs.len() - 1 {
                    assert(cs[i] == c0[i]);
                }
            }
            assert(cs.drop_last() =~= c0);
            assert(chunks_len(cs) == chunks_len(c0) + chunk@.content.len());
        }
    }
}

fn clone_key(k: &StorageKey) -> (r: StorageKey)
    ensures
        r@ == k@,
{
    match k {
        StorageKey::Blob(d) => StorageKey::Blob(
            Digest::new(d.algorithm.clone(), d.hex.clone()),
        ),
        StorageKey::Chunk { upload, ordinal } => StorageKey::Chunk {
            upload: *upload,
            ordinal: *ordinal,
        },
    }
}

fn clone_chunk(c: &UploadChunk) -> (r: UploadChunk)
    ensures
        r@ == c@,
{
    UploadChunk {
        start_range: c.start_range,
        content: vstd::slice::slice_to_vec(c.content.as_slice()),
        storage_key: match &c.storage_key {
            Some(k) => Some(clone_key(k)),
            None => None,
        },
    }
}

fn clone_upload(u: &Upload) -> (r: Upload)
    ensures
        r@ == u@,
{
    let n = u.chunks.len();
    let mut chunks: Vec<UploadChunk> = Vec::new();
    for i in 0..n
        invariant
            n == u.chunks.len(),
            chunks@.len() == i,
            forall|j: int| 0 <= j < i ==> (#[trigger] chunks@[j])@ == u.chunks@[j]@,
    {
        chunks.push(clone_chunk(&u.chunks[i]));
    }
    let r = Upload {
        id: u.id,
        rev: u.rev,
        group: u.group.clone(),
        name: u.name.clone(),
        chunks,
    };
    proof {
        assert(r@.chunks =~= u@.chunks);
    }
    r
}

/// The keys of the first `n` chunks of session `id`: what completion
/// removes from the byte store.
pub open spec fn chunk_keys_set(id: u64, n: int) -> Set<KeyView> {
    Set::new(
        |k: KeyView| exists|i: int| 0 <= i < n && k == #[trigger] chunk_key_view(id, i as u64),
    )
}

/// The bytes the store holds for the first `n` chunks of session `id`,
/// concatenated in ascending chunk order.
pub open spec fn stored_concat(m: Map<KeyView, Seq<u8>>, id: u64, n: int) -> Seq<u8>
    decreases n,
{
    if n <= 0 {
        Seq::empty()
    } else {
        stored_concat(m, id, n - 1) + m[chunk_key_view(id, (n - 1) as u64)]
    }
}

/// Whether the store holds bytes for every one of the first `n` chunks of
/// session `id`.
pub open spec fn chunks_stored(m: Map<KeyView, Seq<u8>>, id: u64, n: int) -> bool {
    forall|i: int| 0 <= i < n ==> m.contains_key(#[trigger] chunk_key_view(id, i as u64))
}

/// For a well-formed session whose stored chunk bytes match the committed
/// chunk payloads, reassembly in ascending chunk order is exactly the
/// concatenation of the payloads in the order they were pushed, byte for
/// byte; sorting by `start_range` is the identity, because the session
/// invariant keeps the chunks gapless and ascending.
pub proof fn lemma_reassembly_is_push_order(m: Map<KeyView, Seq<u8>>, u: UploadView)
    requires
        u.wf(),
        forall|i: int|
            0 <= i < u.chunks.len() ==> m.contains_key(#[trigger] chunk_key_view(u.id, i as u64))
                && m[chunk_key_view(u.id, i as u64)] == u.chunks[i].content,
    ensures
        stored_concat(m, u.id, u.chunks.len() as int) == payload(u.chunks),
        forall|i: int, j: int|
            0 <= i < j < u.chunks.len() ==> u.chunks[i].start_range <= u.chunks[j].start_range,
{
    lemma_stored_concat_prefix(m, u, u.chunks.len() as int);
    assert(u.chunks.take(u.chunks.len() as int) =~= u.chunks);
    assert forall|i: int, j: int|
        0 <= i < j < u.chunks.len() implies u.chunks[i].start_range
        <= u.chunks[j].start_range by {
        lemma_prefix_le(u.chunks, i, j);
    }
}

proof fn lemma_prefix_le(chunks: Seq<ChunkView>, i: int, j: int)
    requires
        0 <= i <= j <= chunks.len(),
    ensures
        chunks_len(chunks.take(i)) <= chunks_len(chunks.take(j)),
    decreases j - i,
{
    if i < j {
        lemma_chunks_len_nonneg(chunks.take(i));
        assert(chunks.take(i + 1).drop_last() =~= chunks.take(i));
        assert(chunks.take(i + 1).last() == chunks[i]);
        lemma_prefix_le(chunks, i + 1, j);
    }
}

proof fn lemma_stored_concat_prefix(m: Map<KeyView, Seq<u8>>, u: UploadView, n: int)
    requires
        0 <= n <= u.chunks.len(),
        forall|i: int|
            0 <= i < u.chunks.len() ==> m.contains_key(#[trigger] chunk_key_view(u.id, i as u64))
                && m[chunk_key_view(u.id, i as u64)] == u.chunks[i].content,
    ensures
        stored_concat(m, u.id, n) == payload(u.chunks.take(n)),
    decreases n,
{
    if n > 0 {
        lemma_stored_concat_prefix(m, u, n - 1);
        assert(u.chunks.take(n).drop_last() =~= u.chunks.take(n - 1));
        assert(u.chunks.take(n).last() == u.chunks[n - 1]);
    } else {
        assert(u.chunks.take(0) =~= Seq::<ChunkView>::empty());
    }
}

/// Appending a chunk extends the session's payload by exactly that
/// chunk's bytes: the inductive step behind byte-exact reassembly.
pub proof fn lemma_payload_append(chunks: Seq<ChunkView>, c: ChunkView)
    ensures
        payload(chunks.push(c)) == payload(chunks) + c.content,
        chunks_len(chunks.push(c)) == chunks_len(chunks) + c.content.len(),
{
    assert(chunks.push(c).drop_last() =~= chunks);
    assert(chunks.push(c).last() == c);
}

/// Accepting a chunk keeps the session and the byte store in step: after
/// the push stores the chunk's bytes under the new chunk's key, the
/// store holds, for every committed chunk of the grown session, exactly
/// that chunk's payload — the premise under which completion reassembles
/// the pushed bytes exactly.
pub proof fn lemma_push_preserves_stored_chunks(
    m: Map<KeyView, Seq<u8>>,
    u: UploadView,
    c: ChunkView,
)
    requires
        u.chunks.len() < u64::MAX,
        forall|i: int|
            0 <= i < u.chunks.len() ==> m.contains_key(#[trigger] chunk_key_view(u.id, i as u64))
                && m[chunk_key_view(u.id, i as u64)] == u.chunks[i].content,
    ensures
        forall|i: int|
            0 <= i < appended(u, c).chunks.len() ==> {
                let m1 = m.insert(chunk_key_view(u.id, u.chunks.len() as u64), c.content);
                m1.contains_key(#[trigger] chunk_key_view(u.id, i as u64)) && m1[chunk_key_view(
                    u.id,
                    i as u64,
                )] == appended(u, c).chunks[i].content
            },
{
    let m1 = m.insert(chunk_key_view(u.id, u.chunks.len() as u64), c.content);
    assert forall|i: int| 0 <= i < appended(u, c).chunks.len() implies m1.contains_key(
        #[trigger] chunk_key_view(u.id, i as u64),
    ) && m1[chunk_key_view(u.id, i as u64)] == appended(u, c).chunks[i].content by {
        if i < u.chunks.len() {
            assert(i as u64 != u.chunks.len() as u64);
            assert(chunk_key_view(u.id, i as u64) != chunk_key_view(u.id, u.chunks.len() as u64));
            assert(appended(u, c).chunks[i] == u.chunks[i]);
        } else {
            assert(appended(u, c).chunks[i].content == c.content);
        }
    }
}

/// A client that replays a push after one with the same claimed offset
/// succeeded with any bytes sees a range mismatch: a successful push of a
/// non-empty chunk moves the session's offset past the claimed one.
pub proof fn lemma_replayed_push_rejected(u: UploadView, c: ChunkView)
    requires
        c.content.len() > 0,
        c.start_range as int == chunks_len(u.chunks),
    ensures
        chunks_len(u.chunks.push(c)) != c.start_range as int,
{
    lemma_payload_append(u.chunks, c);
}

/// What the document store decides for an optimistic-concurrency save of
/// `u` into sessions `m`: the session must exist and the writer's
/// revision must still be the stored one.
pub open spec fn save_ok(m: Map<u64, UploadView>, u: UploadView) -> bool {
    &&& m.contains_key(u.id)
    &&& u.rev is Some
    &&& u.rev == m[u.id].rev
}

/// The stored revision after a successful save: never the revision the
/// writer presented.
pub open spec fn bump_rev(rev: Option<u64>) -> Option<u64> {
    match rev {
        Some(r) => Some(
            if r == u64::MAX {
                0u64
            } else {
                (r + 1) as u64
            },
        ),
        None => None,
    }
}

/// The session a successful save of `u` persists: `u` under the next
/// revision.
pub open spec fn with_bumped_rev(u: UploadView) -> UploadView {
    UploadView { rev: bump_rev(u.rev), ..u }
}

/// The sessions after a successful save of `u`.
pub open spec fn saved(m: Map<u64, UploadView>, u: UploadView) -> Map<u64, UploadView> {
    m.insert(u.id, with_bumped_rev(u))
}

/// Two writers that both read the same session revision race: after
/// either one's save succeeds, the store refuses the other's, because a
/// successful save always moves the stored revision away from the one
/// both writers presented. Exactly one of the two can win.
pub proof fn lemma_optimistic_concurrency(m: Map<u64, UploadView>, a: UploadView, b: UploadView)
    requires
        save_ok(m, a),
        b.id == a.id,
        b.rev == a.rev,
    ensures
        !save_ok(saved(m, a), b),
{
    assert(saved(m, a)[b.id] == with_bumped_rev(a));
}

/// The session a slot holds, viewed.
pub open spec fn session_view(s: Seq<Option<Upload>>, i: int) -> UploadView {
    match s[i] {
        Some(u) => u@,
        None => arbitrary(),
    }
}

/// The map the session slots denote: slot index is session id; a cleared
/// slot is a completed (terminal) session.
pub open spec fn sessions_map(s: Seq<Option<Upload>>) -> Map<u64, UploadView> {
    Map::new(
        |id: u64| id < s.len() && s[id as int] is Some,
        |id: u64| session_view(s, id as int),
    )
}

/// The resumable chunked-upload state machine: start a session, push
/// strictly sequential chunks, complete by reassembling them into one
/// content-addressed blob and discarding the session. Holds the session
/// documents; the byte store is handed to each operation, since blobs
/// share it.
#[derive(Debug)]
pub struct UploadService {
    pub sessions: Vec<Option<Upload>>,
}

impl View for UploadService {
    type V = Map<u64, UploadView>;

    open spec fn view(&self) -> Map<u64, UploadView> {
        sessions_map(self.sessions@)
    }
}

impl UploadService {
    /// Every stored session is well formed, sits in the slot its id
    /// names, and carries a revision (it has been persisted).
    pub open spec fn wf(&self) -> bool {
        forall|i: int|
            0 <= i < self.sessions@.len() && self.sessions@[i] is Some ==> {
                &&& (#[trigger] session_view(self.sessions@, i)).wf()
                &&& session_view(self.sessions@, i).id as int == i
                &&& session_view(self.sessions@, i).rev is Some
            }
    }

    pub fn new() -> (s: UploadService)
        ensures
            s.wf(),
            s@ == Map::<u64, UploadView>::empty(),
            s.sessions@.len() == 0,
    {
        let s = UploadService { sessions: Vec::new() };
        proof {
            assert(s@ =~= Map::<u64, UploadView>::empty());
        }
        s
    }

    /// Creates and persists a fresh, empty session bound to the
    /// repository's coordinate, and returns the persisted session with
    /// its new id and first revision.
    pub fn start_upload(&mut self, repo: &Repo) -> (r: Upload)
        requires
            old(self).wf(),
            old(self).sessions@.len() < u64::MAX,
        ensures
            final(self).wf(),
            final(self).sessions@.len() == old(self).sessions@.len() + 1,
            !old(self)@.contains_key(r@.id),
            final(self)@ == old(self)@.insert(r@.id, r@),
            r@.wf(),
            r@.rev == Some(0u64),
            r@.group == repo@.group,
            r@.name == repo@.name,
            r@.chunks == Seq::<ChunkView>::empty(),
    {
        let id = self.sessions.len() as u64;
        let mut u = Upload::new(id, repo.group.clone(), repo.name.clone());
        u.rev = Some(0);
        let ret = clone_upload(&u);
        let ghost s0 = self.sessions@;
        self.sessions.push(Some(u));
        proof {
            assert forall|i: int|
                0 <= i < self.sessions@.len() && self.sessions@[i] is Some implies {
                &&& (#[trigger] session_view(self.sessions@, i)).wf()
                &&& session_view(self.sessions@, i).id as int == i
                &&& session_view(self.sessions@, i).rev is Some
            } by {
                if i < s0.len() {
                    assert(self.sessions@[i] == s0[i]);
                    assert(session_view(self.sessions@, i) == session_view(s0, i));
                }
            }
            assert forall|k: u64| true implies #[trigger] sessions_map(self.sessions@).contains_key(
                k,
            ) == old(self)@.insert(ret@.id, ret@).contains_key(k) by {
                if k < s0.len() {
                    assert(self.sessions@[k as int] == s0[k as int]);
                }
            }
            assert forall|k: u64| sessions_map(self.sessions@).contains_key(k) implies #[trigger]
            sessions_map(self.sessions@)[k] == old(self)@.insert(ret@.id, ret@)[k] by {
                if k < s0.len() {
                    assert(self.sessions@[k as int] == s0[k as int]);
                    assert(session_view(self.sessions@, k as int) == session_view(s0, k as int));
                }
            }
            assert(final(self)@ =~= old(self)@.insert(ret@.id, ret@));
        }
        ret
    }

    /// Reads the session under `upload_id`, if it exists.
    pub fn find_upload(&self, upload_id: u64) -> (r: Option<Upload>)
        requires
            self.wf(),
        ensures
            match r {
                Some(u) => self@.contains_key(upload_id) && u@ == self@[upload_id],
                None => !self@.contains_key(upload_id),
            },
    {
        if upload_id >= self.sessions.len() as u64 {
            return None;
        }
        let i = upload_id as usize;
        match &self.sessions[i] {
            Some(u) => Some(clone_upload(u)),
            None => None,
        }
    }

    /// Persists a session under the document store's optimistic
    /// concurrency rule: the save succeeds only if the writer's revision
    /// is still the stored one, and then moves the stored revision on.
    /// A writer that lost a race fails with `Conflict`, and only then.
    pub fn save(&mut self, upload: Upload) -> (r: Result<Upload, Error>)
        requires
            old(self).wf(),
            upload@.wf(),
        ensures
            final(self).wf(),
            final(self).sessions@.len() == old(self).sessions@.len(),
            match r {
                Ok(u) => {
                    &&& save_ok(old(self)@, upload@)
                    &&& final(self)@ == saved(old(self)@, upload@)
                    &&& u@ == with_bumped_rev(upload@)
                },
                Err(e) => {
                    &&& e == Error::Conflict
                    &&& !save_ok(old(self)@, upload@)
                    &&& final(self)@ == old(self)@
                },
            },
    {
        let id = upload.id;
        if id >= self.sessions.len() as u64 {
            proof {
                assert(final(self)@ =~= old(self)@);
            }
            return Err(Error::Conflict);
        }
        let i = id as usize;
        let rev_matches = match (&self.sessions[i], upload.rev) {
            (Some(stored), Some(r)) => match stored.rev {
                Some(sr) => sr == r,
                None => false,
            },
            _ => false,
        };
        if !rev_matches {
            proof {
                assert(final(self)@ =~= old(self)@);
            }
            return Err(Error::Conflict);
        }
        let mut u = upload;
        let new_rev = match u.rev {
            Some(r) => if r == u64::MAX {
                0
            } else {
                r + 1
            },
            None => 0,
        };
        u.rev = Some(new_rev);
        let ret = clone_upload(&u);
        let ghost s0 = self.sessions@;
        let ghost uv = u@;
        self.sessions[i] = Some(u);
        proof {
            assert forall|j: int|
                0 <= j < self.sessions@.len() && self.sessions@[j] is Some implies {
                &&& (#[trigger] session_view(self.sessions@, j)).wf()
                &&& session_view(self.sessions@, j).id as int == j
                &&& session_view(self.sessions@, j).rev is Some
            } by {
                if j != i as int {
                    assert(self.sessions@[j] == s0[j]);
                    assert(session_view(self.sessions@, j) == session_view(s0, j));
                } else {
                    assert(session_view(self.sessions@, j) == uv);
                }
            }
            assert forall|k: u64| true implies #[trigger] sessions_map(self.sessions@).contains_key(
                k,
            ) == saved(old(self)@, upload@).contains_key(k) by {
                if k as int != i as int && (k as int) < self.sessions@.len() {
                    assert(self.sessions@[k as int] == s0[k as int]);
                }
            }
            assert forall|k: u64| sessions_map(self.sessions@).contains_key(k) implies #[trigger]
            sessions_map(self.sessions@)[k] == saved(old(self)@, upload@)[k] by {
                if k as int != i as int && (k as int) < self.sessions@.len() {
                    assert(self.sessions@[k as int] == s0[k as int]);
                    assert(session_view(self.sessions@, k as int) == session_view(s0, k as int));
                }
            }
            assert(final(self)@ =~= saved(old(self)@, upload@));
        }
        Ok(ret)
    }

    /// Commits a chunk to a session. The session is loaded by id
    /// (`BlobUploadUnknown` if absent); a chunk whose claimed start
    /// offset is not the session's current offset is rejected with
    /// `RequestedRangeNotSatisfiable` carrying the offset the session
    /// expects, and the session is left untouched, so replaying the same
    /// bad push yields the same error. An accepted chunk is appended,
    /// persisted under the store's optimistic-concurrency rule, and its
    /// raw bytes are stored under its chunk key.
    pub fn push_chunk(&mut self, store: &mut BlobStore, upload_id: u64, chunk: UploadChunk) -> (r:
        Result<Upload, Error>)
        requires
            old(self).wf(),
            old(store).wf(),
            chunk@.storage_key is None,
            chunk@.start_range as int + chunk@.content.len() <= usize::MAX as int,
        ensures
            final(self).wf(),
            final(store).wf(),
            final(self).sessions@.len() == old(self).sessions@.len(),
            match r {
                Ok(u) => {
                    &&& old(self)@.contains_key(upload_id)
                    &&& chunk@.start_range as int == old(self)@[upload_id].offset()
                    &&& u@ == with_bumped_rev(appended(old(self)@[upload_id], chunk@))
                    &&& final(self)@ == old(self)@.insert(upload_id, u@)
                    &&& final(store)@ == old(store)@.insert(
                        chunk_key_view(upload_id, old(self)@[upload_id].chunks.len() as u64),
                        chunk@.content,
                    )
                },
                Err(e) => {
                    &&& final(self)@ == old(self)@
                    &&& final(store)@ == old(store)@
                    &&& match e {
                        Error::BlobUploadUnknown => !old(self)@.contains_key(upload_id),
                        Error::RequestedRangeNotSatisfiable(off) => {
                            &&& old(self)@.contains_key(upload_id)
                            &&& off as int == old(self)@[upload_id].offset()
                            &&& chunk@.start_range != off
                        },
                        _ => false,
                    }
                },
            },
    {
        if upload_id >= self.sessions.len() as u64 {
            return Err(Error::BlobUploadUnknown);
        }
        let i = upload_id as usize;
        let mut u = match &self.sessions[i] {
            Some(stored) => clone_upload(stored),
            None => {
                return Err(Error::BlobUploadUnknown);
            },
        };
        let off = u.latest_offset();
        if chunk.start_range() != off {
            return Err(Error::RequestedRangeNotSatisfiable(off));
        }
        let body = vstd::slice::slice_to_vec(chunk.content.as_slice());
        let ord = u.chunks.len();
        u.add_chunk(chunk);
        proof {
            assert(u@ == appended(old(self)@[upload_id], chunk@));
        }
        let saved_upload = match self.save(u) {
            Ok(s) => s,
            Err(_) => {
                proof {
                    assert(false);
                }
                return Err(Error::Conflict);
            },
        };
        store.put(chunk_key(upload_id, ord as u64), body);
        Ok(saved_upload)
    }

    /// Completes a session: reassembles the committed chunks in
    /// ascending chunk order from the byte store (`BlobUnknown` if any
    /// chunk's bytes are missing, a consistency violation between the
    /// session record and the byte store), appends the optional trailing
    /// chunk that arrived with the completion call, stores the result as
    /// one blob keyed by the caller-supplied digest, then deletes the
    /// session record and after it every chunk's byte-store entry, in
    /// that order. The caller's digest is trusted, not recomputed:
    /// checking that the assembled bytes actually hash to `digest` is a
    /// protocol obligation this flow leaves open and visible rather than
    /// silently assumed.
    #[verifier::rlimit(60)]
    #[verifier::loop_isolation(false)]
    pub fn complete_upload(
        &mut self,
        store: &mut BlobStore,
        upload_id: u64,
        digest: &Digest,
        trailing: Option<UploadChunk>,
    ) -> (r: Result<Upload, Error>)
        requires
            old(self).wf(),
            old(store).wf(),
        ensures
            final(self).wf(),
            final(store).wf(),
            final(self).sessions@.len() == old(self).sessions@.len(),
            match r {
                Ok(u) => {
                    &&& old(self)@.contains_key(upload_id)
                    &&& u@ == old(self)@[upload_id]
                    &&& chunks_stored(
                        old(store)@,
                        upload_id,
                        old(self)@[upload_id].chunks.len() as int,
                    )
                    &&& final(self)@ == old(self)@.remove(upload_id)
                    &&& final(store)@ == old(store)@.insert(
                        blob_key_view(digest@),
                        stored_concat(
                            old(store)@,
                            upload_id,
                            old(self)@[upload_id].chunks.len() as int,
                        ) + (match trailing {
                            Some(c) => c@.content,
                            None => Seq::<u8>::empty(),
                        }),
                    ).remove_keys(
                        chunk_keys_set(upload_id, old(self)@[upload_id].chunks.len() as int),
                    )
                },
                Err(e) => {
                    &&& final(self)@ == old(self)@
                    &&& final(store)@ == old(store)@
                    &&& match e {
                        Error::BlobUploadUnknown => !old(self)@.contains_key(upload_id),
                        Error::BlobUnknown => old(self)@.contains_key(upload_id)
                            && !chunks_stored(
                            old(store)@,
                            upload_id,
                            old(self)@[upload_id].chunks.len() as int,
                        ),
                        _ => false,
                    }
                },
            },
    {
        if upload_id >= self.sessions.len() as u64 {
            return Err(Error::BlobUploadUnknown);
        }
        let i = upload_id as usize;
        let u = match &self.sessions[i] {
            Some(stored) => clone_upload(stored),
            None => {
                return Err(Error::BlobUploadUnknown);
            },
        };
        let n = u.chunks.len();
        let ghost total = n as int;
        let mut buf: Vec<u8> = Vec::new();
        for j in 0..n
            invariant
                n == u.chunks.len(),
                store.wf(),
                store@ == old(store)@,
                buf@ == stored_concat(old(store)@, upload_id, j as int),
                chunks_stored(old(store)@, upload_id, j as int),
        {
            let key = chunk_key(upload_id, j as u64);
            match store.get(&key) {
                Some(bytes) => {
                    let mut piece = vstd::slice::slice_to_vec(bytes.as_slice());
                    buf.append(&mut piece);
                    proof {
                        assert(stored_concat(old(store)@, upload_id, j as int + 1)
                            == stored_concat(old(store)@, upload_id, j as int) + old(store)@[
                            chunk_key_view(upload_id, j as u64)]);
                        assert forall|x: int|
                            0 <= x < j as int + 1 implies old(store)@.contains_key(
                            #[trigger] chunk_key_view(upload_id, x as u64),
                        ) by {}
                    }
                },
                None => {
                    proof {
                        assert(!old(store)@.contains_key(chunk_key_view(upload_id, j as u64)));
                    }
                    return Err(Error::BlobUnknown);
                },
            }
        }
        let mut trailing_in = trailing;
        match &mut trailing_in {
            Some(c) => {
                buf.append(&mut c.content);
            },
            None => {},
        }
        let blob_storage_key = blob_key(digest);
        store.put(blob_storage_key, buf);
        let ghost mid_store = store@;
        let ghost s0 = self.sessions@;
        self.sessions[i] = None;
        proof {
            assert forall|j: int|
                0 <= j < self.sessions@.len() && self.sessions@[j] is Some implies {
                &&& (#[trigger] session_view(self.sessions@, j)).wf()
                &&& session_view(self.sessions@, j).id as int == j
                &&& session_view(self.sessions@, j).rev is Some
            } by {
                if j != i as int {
                    assert(self.sessions@[j] == s0[j]);
                    assert(session_view(self.sessions@, j) == session_view(s0, j));
                }
            }
            assert forall|k: u64| true implies #[trigger] sessions_map(self.sessions@).contains_key(
                k,
            ) == old(self)@.remove(upload_id).contains_key(k) by {
                if k as int != i as int && (k as int) < self.sessions@.len() {
                    assert(self.sessions@[k as int] == s0[k as int]);
                }
            }
            assert forall|k: u64| sessions_map(self.sessions@).contains_key(k) implies #[trigger]
            sessions_map(self.sessions@)[k] == old(self)@.remove(upload_id)[k] by {
                if k as int != i as int && (k as int) < self.sessions@.len() {
                    assert(self.sessions@[k as int] == s0[k as int]);
                    assert(session_view(self.sessions@, k as int) == session_view(s0, k as int));
                }
            }
            assert(sessions_map(self.sessions@) =~= old(self)@.remove(upload_id));
        }
        for j in 0..n
            invariant
                store.wf(),
                forall|k: KeyView| #[trigger]
                    store@.contains_key(k) == (mid_store.contains_key(k) && !chunk_keys_set(
                        upload_id,
                        j as int,
                    ).contains(k)),
                forall|k: KeyView| #[trigger] store@.contains_key(k) ==> store@[k] == mid_store[k],
        {
            let key = chunk_key(upload_id, j as u64);
            store.delete(&key);
            proof {
                assert forall|k: KeyView| #[trigger]
                    chunk_keys_set(upload_id, j as int + 1).contains(k) == (chunk_keys_set(
                        upload_id,
                        j as int,
                    ).contains(k) || k == chunk_key_view(upload_id, j as u64)) by {
                    if chunk_keys_set(upload_id, j as int).contains(k) {
                        let x = choose|x: int|
                            0 <= x < j as int && k == #[trigger] chunk_key_view(upload_id, x as u64);
                        assert(0 <= x < j as int + 1 && k == chunk_key_view(upload_id, x as u64));
                    }
                    if k == chunk_key_view(upload_id, j as u64) {
                        let x: int = j as int;
                        assert(0 <= x < x + 1 && k == chunk_key_view(upload_id, x as u64));
                    }
                    if chunk_keys_set(upload_id, j as int + 1).contains(k) {
                        let x = choose|x: int|
                            0 <= x < j as int + 1 && k == #[trigger] chunk_key_view(
                                upload_id,
                                x as u64,
                            );
                        if x < j as int {
                            assert(chunk_keys_set(upload_id, j as int).contains(k));
                        } else {
                            assert(k == chunk_key_view(upload_id, j as u64));
                        }
                    }
                }
            }
        }
        proof {
            assert(store@ =~= mid_store.remove_keys(chunk_keys_set(upload_id, total)));
        }
        Ok(u)
    }

    /// Reaction to `RepoDeleted`. An open upload against a deleted
    /// repository is an orphan; reclaiming it is a surrounding policy's
    /// concern, and this handler deliberately leaves every session in
    /// place rather than inventing a reclamation rule.
    pub fn handle_repo_deleted(&mut self, event: &RepoDeleted)
        ensures
            *final(self) == *old(self),
    {
        let _ = event;
    }
}

/// The session `u` with chunk `c` accepted: `c`'s payload appended under
/// the storage key derived from the session id and the new chunk's
/// ordinal.
pub open spec fn appended(u: UploadView, c: ChunkView) -> UploadView {
    UploadView {
        chunks: u.chunks.push(
            ChunkView {
                start_range: c.start_range,
                content: c.content,
                storage_key: Some(chunk_key_view(u.id, u.chunks.len() as u64)),
            },
        ),
        ..u
    }
}

} // verus!
