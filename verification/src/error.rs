use vstd::prelude::*;

verus! {

/// Registry-protocol error taxonomy. Every failure a service operation can
/// report is one of these caller-visible, terminal outcomes.
#[derive(Debug, Clone, PartialEq, Eq, Structural)]
pub enum Error {
    /// A blob (or a chunk recorded by an upload session) is absent from the
    /// blob store.
    BlobUnknown,
    /// No upload session exists under the given id.
    BlobUploadUnknown,
    /// A pushed chunk's start offset does not match the session's current
    /// offset; the payload is the offset the session expects next.
    RequestedRangeNotSatisfiable(u64),
    /// No repository exists under the given name.
    NameUnknown,
    /// An optimistic-concurrency write lost: the document's revision in the
    /// store no longer matches the revision the writer read.
    Conflict,
}

} // verus!
