use oci_core::blob::{Blob, BlobService};
use oci_core::digest::Digest;
use oci_core::error::Error;
use oci_core::events::RepoDeleted;
use oci_core::pagination::PaginationQuery;
use oci_core::repo::Repo;
use oci_core::storage::BlobStore;
use oci_core::tag::{self, TagPagination};
use oci_core::upload::{UploadChunk, UploadService};

fn sample_repo(group: &str, name: &str, tags: Vec<String>) -> Repo {
    Repo::new(group.to_string(), name.to_string(), None, tags)
}

fn digest(hex: &str) -> Digest {
    Digest::new("sha256".to_string(), hex.to_string())
}

#[test]
fn digest_renders_as_algorithm_colon_hex() {
    let d = digest("abc123");
    assert_eq!(d.to_text(), "sha256:abc123");
    assert_eq!(d.algorithm(), "sha256");
    assert_eq!(d.hex(), "abc123");
}

#[test]
fn repo_id_is_group_slash_name() {
    let r = sample_repo("acme", "widget", vec![]);
    assert_eq!(r.id(), "acme/widget");
    assert_eq!(r.full_name(), "acme/widget");
    assert_eq!(Repo::build_id("a", "b"), "a/b");
}

#[test]
fn events_snapshot_repo_fields() {
    let r = sample_repo("acme", "widget", vec!["v1".to_string()]);
    let ev = RepoDeleted::from(&r);
    assert_eq!(ev.id, "acme/widget");
    assert_eq!(ev.group, "acme");
    assert_eq!(ev.name, "widget");
    assert_eq!(ev.rev, None);
    assert_eq!(ev.tags, vec!["v1".to_string()]);
}

#[test]
fn fetch_content_unknown_digest_fails_blob_unknown() {
    let store = BlobStore::new();
    let blobs = BlobService::new();
    let r = blobs.fetch_content(&store, &digest("deadbeef"));
    assert_eq!(r, Err(Error::BlobUnknown));
}

#[test]
fn fetch_content_after_record_returns_bytes() {
    let mut store = BlobStore::new();
    let mut blobs = BlobService::new();
    let d = digest("cafe");
    blobs.record_blob(&mut store, Blob::new(d.clone(), "acme/widget".to_string()), vec![1, 2, 3]);
    assert_eq!(blobs.fetch_content(&store, &d), Ok(vec![1, 2, 3]));
}

#[test]
fn fetch_content_after_delete_fails_blob_unknown() {
    let mut store = BlobStore::new();
    let mut blobs = BlobService::new();
    let d = digest("cafe");
    let b = Blob::new(d.clone(), "acme/widget".to_string());
    blobs.record_blob(&mut store, Blob::new(d.clone(), "acme/widget".to_string()), vec![9]);
    assert_eq!(blobs.delete_blob(&mut store, &b), Ok(()));
    assert_eq!(blobs.fetch_content(&store, &d), Err(Error::BlobUnknown));
}

#[test]
fn delete_blob_without_record_fails_blob_unknown() {
    let mut store = BlobStore::new();
    let mut blobs = BlobService::new();
    let b = Blob::new(digest("00"), "acme/widget".to_string());
    assert_eq!(blobs.delete_blob(&mut store, &b), Err(Error::BlobUnknown));
}

#[test]
fn chunked_upload_reassembles_bytes_in_push_order() {
    let mut store = BlobStore::new();
    let mut uploads = UploadService::new();
    let repo = sample_repo("acme", "widget", vec![]);
    let u = uploads.start_upload(&repo);
    let id = u.id();
    uploads
        .push_chunk(&mut store, id, UploadChunk::new(0, b"hel".to_vec()))
        .unwrap();
    uploads
        .push_chunk(&mut store, id, UploadChunk::new(3, b"lo ".to_vec()))
        .unwrap();
    uploads
        .push_chunk(&mut store, id, UploadChunk::new(6, b"world".to_vec()))
        .unwrap();
    let d = digest("feed");
    uploads.complete_upload(&mut store, id, &d, None).unwrap();
    let blobs = BlobService::new();
    assert_eq!(blobs.fetch_content(&store, &d), Ok(b"hello world".to_vec()));
}

#[test]
fn complete_upload_appends_trailing_chunk_last() {
    let mut store = BlobStore::new();
    let mut uploads = UploadService::new();
    let repo = sample_repo("acme", "widget", vec![]);
    let u = uploads.start_upload(&repo);
    let id = u.id();
    uploads
        .push_chunk(&mut store, id, UploadChunk::new(0, b"ab".to_vec()))
        .unwrap();
    let d = digest("0ff");
    let trailing = UploadChunk::new(2, b"cd".to_vec());
    uploads
        .complete_upload(&mut store, id, &d, Some(trailing))
        .unwrap();
    let blobs = BlobService::new();
    assert_eq!(blobs.fetch_content(&store, &d), Ok(b"abcd".to_vec()));
}

#[test]
fn push_chunk_with_wrong_offset_reports_current_offset_and_changes_nothing() {
    let mut store = BlobStore::new();
    let mut uploads = UploadService::new();
    let repo = sample_repo("acme", "widget", vec![]);
    let u = uploads.start_upload(&repo);
    let id = u.id();
    uploads
        .push_chunk(&mut store, id, UploadChunk::new(0, b"abc".to_vec()))
        .unwrap();
    let bad = uploads.push_chunk(&mut store, id, UploadChunk::new(7, b"xyz".to_vec()));
    assert!(matches!(bad, Err(Error::RequestedRangeNotSatisfiable(3))));
    // Idempotent rejection: replaying the same bad push yields the same error.
    let again = uploads.push_chunk(&mut store, id, UploadChunk::new(7, b"xyz".to_vec()));
    assert!(matches!(again, Err(Error::RequestedRangeNotSatisfiable(3))));
    // The session still accepts the chunk at the disclosed offset.
    let ok = uploads.push_chunk(&mut store, id, UploadChunk::new(3, b"de".to_vec()));
    assert!(ok.is_ok());
}

#[test]
fn completed_upload_is_unresolvable_and_chunk_keys_are_gone() {
    let mut store = BlobStore::new();
    let mut uploads = UploadService::new();
    let repo = sample_repo("acme", "widget", vec![]);
    let u = uploads.start_upload(&repo);
    let id = u.id();
    let pushed = uploads
        .push_chunk(&mut store, id, UploadChunk::new(0, b"data".to_vec()))
        .unwrap();
    let chunk_key = pushed.chunks()[0].storage_key().clone().unwrap();
    assert!(store.get(&chunk_key).is_some());
    let d = digest("abcd");
    uploads.complete_upload(&mut store, id, &d, None).unwrap();
    assert!(uploads.find_upload(id).is_none());
    assert!(store.get(&chunk_key).is_none());
    let further = uploads.push_chunk(&mut store, id, UploadChunk::new(4, b"x".to_vec()));
    assert!(matches!(further, Err(Error::BlobUploadUnknown)));
    let again = uploads.complete_upload(&mut store, id, &d, None);
    assert!(matches!(again, Err(Error::BlobUploadUnknown)));
}

#[test]
fn complete_upload_unknown_id_fails_blob_upload_unknown() {
    let mut store = BlobStore::new();
    let mut uploads = UploadService::new();
    let r = uploads.complete_upload(&mut store, 42, &digest("aa"), None);
    assert!(matches!(r, Err(Error::BlobUploadUnknown)));
}

#[test]
fn complete_upload_with_missing_chunk_bytes_fails_blob_unknown() {
    let mut store = BlobStore::new();
    let mut uploads = UploadService::new();
    let repo = sample_repo("acme", "widget", vec![]);
    let u = uploads.start_upload(&repo);
    let id = u.id();
    let pushed = uploads
        .push_chunk(&mut store, id, UploadChunk::new(0, b"data".to_vec()))
        .unwrap();
    let chunk_key = pushed.chunks()[0].storage_key().clone().unwrap();
    store.delete(&chunk_key);
    let r = uploads.complete_upload(&mut store, id, &digest("aa"), None);
    assert!(matches!(r, Err(Error::BlobUnknown)));
    // The failed completion left the session in place.
    assert!(uploads.find_upload(id).is_some());
}

#[test]
fn conflicting_saves_let_exactly_one_writer_win() {
    let mut store = BlobStore::new();
    let mut uploads = UploadService::new();
    let repo = sample_repo("acme", "widget", vec![]);
    let u = uploads.start_upload(&repo);
    let id = u.id();
    // Two writers read the same revision of the session.
    let first = uploads.find_upload(id).unwrap();
    let second = uploads.find_upload(id).unwrap();
    assert_eq!(first.rev(), second.rev());
    assert!(uploads.save(first).is_ok());
    assert!(matches!(uploads.save(second), Err(Error::Conflict)));
    // A re-reading racer instead sees the range check fail: after one
    // push of a non-empty chunk wins, the same claimed offset is stale.
    uploads
        .push_chunk(&mut store, id, UploadChunk::new(0, b"abc".to_vec()))
        .unwrap();
    let loser = uploads.push_chunk(&mut store, id, UploadChunk::new(0, b"abc".to_vec()));
    assert!(matches!(loser, Err(Error::RequestedRangeNotSatisfiable(3))));
}

#[test]
fn repo_deletion_cascade_removes_blobs_of_that_image_only() {
    let mut store = BlobStore::new();
    let mut blobs = BlobService::new();
    let d1 = digest("01");
    let d2 = digest("02");
    let d3 = digest("03");
    blobs.record_blob(&mut store, Blob::new(d1.clone(), "acme/widget".to_string()), vec![1]);
    blobs.record_blob(&mut store, Blob::new(d2.clone(), "acme/widget".to_string()), vec![2]);
    blobs.record_blob(&mut store, Blob::new(d3.clone(), "other/thing".to_string()), vec![3]);
    let repo = sample_repo("acme", "widget", vec!["v1".to_string()]);
    let ev = RepoDeleted::from(&repo);
    blobs.handle_repo_deleted(&mut store, &ev);
    assert_eq!(blobs.fetch_content(&store, &d1), Err(Error::BlobUnknown));
    assert_eq!(blobs.fetch_content(&store, &d2), Err(Error::BlobUnknown));
    assert_eq!(blobs.fetch_content(&store, &d3), Ok(vec![3]));
    assert_eq!(blobs.records.len(), 1);
    assert_eq!(blobs.records[0].image(), "other/thing");
}

#[test]
fn upload_service_leaves_sessions_alone_on_repo_deletion() {
    let mut store = BlobStore::new();
    let mut uploads = UploadService::new();
    let repo = sample_repo("acme", "widget", vec![]);
    let u = uploads.start_upload(&repo);
    uploads
        .push_chunk(&mut store, u.id(), UploadChunk::new(0, b"x".to_vec()))
        .unwrap();
    let ev = RepoDeleted::from(&repo);
    uploads.handle_repo_deleted(&ev);
    assert!(uploads.find_upload(u.id()).is_some());
}

fn alphabet_repo() -> Repo {
    let tags: Vec<String> = (b'a'..=b'z').map(|c| (c as char).to_string()).collect();
    sample_repo("acme", "widget", tags)
}

#[test]
fn tag_page_of_ten_from_first_advertises_eleven_next() {
    let repo = alphabet_repo();
    let page = TagPagination::new(Some(10), 1);
    let (list, next) = tag::list(Some(&repo), Some(&page)).unwrap();
    let expect: Vec<String> = (b'a'..=b'j').map(|c| (c as char).to_string()).collect();
    assert_eq!(list.tags, expect);
    assert_eq!(list.name, "acme/widget");
    let next = next.unwrap();
    assert_eq!(next.n, Some(10));
    assert_eq!(next.last, 11);
}

#[test]
fn tag_page_size_is_clamped_not_rejected() {
    let repo = alphabet_repo();
    let (list, next) = tag::list(Some(&repo), Some(&TagPagination::new(Some(0), 1))).unwrap();
    assert_eq!(list.tags, vec!["a".to_string()]);
    assert_eq!(next.unwrap().n, Some(1));
    let (list, next) = tag::list(Some(&repo), Some(&TagPagination::new(Some(100), 1))).unwrap();
    assert_eq!(list.tags.len(), 26);
    assert_eq!(next.unwrap().n, Some(50));
}

#[test]
fn tag_listing_without_page_returns_all_tags() {
    let repo = alphabet_repo();
    let (list, next) = tag::list(Some(&repo), None).unwrap();
    assert_eq!(list.tags.len(), 26);
    assert!(next.is_none());
}

#[test]
fn tag_listing_of_unknown_repo_fails_name_unknown() {
    let r = tag::list(None, None);
    assert_eq!(r.err(), Some(Error::NameUnknown));
}

#[test]
fn tag_page_past_the_end_is_empty() {
    let repo = alphabet_repo();
    let (list, _) = tag::list(Some(&repo), Some(&TagPagination::new(Some(10), 100))).unwrap();
    assert!(list.tags.is_empty());
}

#[test]
fn pagination_query_defaults() {
    let q = PaginationQuery::new(None, None);
    assert_eq!(q.limit(), 20);
    assert!(q.cursor().is_none());
    let q = PaginationQuery::new(Some(7), Some("abc".to_string()));
    assert_eq!(q.limit(), 7);
    assert_eq!(q.cursor(), Some(&"abc".to_string()));
}

#[test]
fn upload_status_reports_offset_via_chunks() {
    let mut store = BlobStore::new();
    let mut uploads = UploadService::new();
    let repo = sample_repo("acme", "widget", vec![]);
    let u = uploads.start_upload(&repo);
    assert_eq!(u.latest_offset(), 0);
    uploads
        .push_chunk(&mut store, u.id(), UploadChunk::new(0, b"abcde".to_vec()))
        .unwrap();
    let found = uploads.find_upload(u.id()).unwrap();
    assert_eq!(found.latest_offset(), 5);
    assert_eq!(found.group(), "acme");
    assert_eq!(found.name(), "widget");
}

#[test]
fn repo_path_carries_group_and_name() {
    let p = oci_core::repo::RepoPath::new("acme".to_string(), "widget".to_string());
    assert_eq!(p.group(), "acme");
    assert_eq!(p.name(), "widget");
    assert_eq!(Repo::build_id(p.group(), p.name()), "acme/widget");
}
