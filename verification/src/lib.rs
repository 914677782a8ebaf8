//! Content-addressable storage core of a container-image registry.
//!
//! The library models the registry's document store and blob store as
//! verified in-memory structures and proves the behaviour of the three
//! services built on them: content-addressable blob access with a
//! repository-deletion cascade, the resumable chunked-upload state
//! machine, and paginated tag listing.

pub mod blob;
pub mod digest;
pub mod error;
pub mod events;
pub mod pagination;
pub mod repo;
pub mod tag;
pub mod storage;
pub mod upload;
