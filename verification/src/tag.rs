use vstd::prelude::*;

use crate::error::Error;
use crate::repo::{image_coordinate, Repo};

verus! {

/// Structural view of a [`TagList`].
pub struct TagListView {
    pub name: Seq<char>,
    pub tags: Seq<Seq<char>>,
}

/// The tag-listing response body: the repository's qualified name and a
/// sequence of its tags.
#[derive(Debug)]
pub struct TagList {
    pub name: String,
    pub tags: Vec<String>,
}

impl View for TagList {
    type V = TagListView;

    open spec fn view(&self) -> TagListView {
        TagListView { name: self.name@, tags: self.tags.deep_view() }
    }
}

impl TagList {
    /// The unpaginated listing: every tag, under the repository's
    /// qualified name.
    pub fn from(repo: &Repo) -> (t: TagList)
        ensures
            t@.name == image_coordinate(repo@.group, repo@.name),
            t@.tags == repo@.tags,
    {
        let name = repo.full_name();
        let tags = clone_tags(repo.tags());
        TagList { name, tags }
    }
}

fn clone_tags(tags: &Vec<String>) -> (r: Vec<String>)
    ensures
        r.deep_view() == tags.deep_view(),
{
    let n = tags.len();
    let mut out: Vec<String> = Vec::new();
    for i in 0..n
        invariant
            n == tags.len(),
            out@.len() == i,
            forall|j: int| 0 <= j < i ==> (#[trigger] out@[j])@ == tags@[j]@,
    {
        out.push(tags[i].clone());
    }
    proof {
        assert(out.deep_view() =~= tags.deep_view());
    }
    out
}

/// The page parameters of a tag-listing request: `n` is the requested
/// page size, `last` the 1-based position of the last tag the caller has
/// already seen.
#[derive(Debug, Clone)]
pub struct TagPagination {
    pub n: Option<usize>,
    pub last: usize,
}

impl TagPagination {
    pub fn new(n: Option<usize>, last: usize) -> (p: TagPagination)
        ensures
            p.n == n,
            p.last == last,
    {
        TagPagination { n, last }
    }
}

/// The effective page size: the requested one clamped to `[1, 50]`, or 25
/// when none was requested. Out-of-range values are clamped, never
/// rejected.
pub open spec fn effective_page_size(n: Option<usize>) -> int {
    match n {
        Some(v) => if v < 1 {
            1
        } else if v > 50 {
            50
        } else {
            v as int
        },
        None => 25,
    }
}

/// The 0-based index the page starts at: `max(last, 1) - 1`.
pub open spec fn page_start(last: usize) -> int {
    if last < 1 {
        0
    } else {
        last - 1
    }
}

/// The paginated, read-only tag listing. The repository argument is what
/// the document store resolved for the requested name: `None` fails with
/// `NameUnknown`. Without page parameters the full tag sequence is
/// returned and no further page is advertised. With page parameters the
/// result is the slice of `n` tags (clamped to `[1, 50]`, default 25)
/// starting at `max(last, 1) - 1`, clipped to the tag sequence, and the
/// advertised next page carries `n` and `last + n`.
pub fn list(repo: Option<&Repo>, page: Option<&TagPagination>) -> (r: Result<
    (TagList, Option<TagPagination>),
    Error,
>)
    requires
        match page {
            Some(p) => p.last <= usize::MAX - 50,
            None => true,
        },
    ensures
        match r {
            Ok((list, next)) => {
                &&& repo is Some
                &&& list@.name == image_coordinate(repo->0@.group, repo->0@.name)
                &&& match page {
                    None => list@.tags == repo->0@.tags && next is None,
                    Some(p) => {
                        let n = effective_page_size(p.n);
                        let len = repo->0@.tags.len() as int;
                        let lo = if page_start(p.last) < len {
                            page_start(p.last)
                        } else {
                            len
                        };
                        let hi = if page_start(p.last) + n < len {
                            page_start(p.last) + n
                        } else {
                            len
                        };
                        &&& list@.tags == repo->0@.tags.subrange(lo, hi)
                        &&& next matches Some(np) && np.n matches Some(nn) && nn as int == n
                            && np.last as int == p.last + n
                    },
                }
            },
            Err(e) => e == Error::NameUnknown && repo is None,
        },
{
    let repo = match repo {
        Some(r) => r,
        None => {
            return Err(Error::NameUnknown);
        },
    };
    match page {
        None => Ok((TagList::from(repo), None)),
        Some(p) => {
            let n: usize = match p.n {
                Some(v) => if v < 1 {
                    1
                } else if v > 50 {
                    50
                } else {
                    v
                },
                None => 25,
            };
            let start: usize = if p.last < 1 {
                0
            } else {
                p.last - 1
            };
            let len = repo.tags.len();
            let lo = if start < len {
                start
            } else {
                len
            };
            let hi = if start + n < len {
                start + n
            } else {
                len
            };
            let mut tags: Vec<String> = Vec::new();
            for i in lo..hi
                invariant
                    lo <= i <= hi <= len,
                    len == repo.tags.len(),
                    tags@.len() == i - lo,
                    forall|j: int|
                        0 <= j < i - lo ==> (#[trigger] tags@[j])@ == repo.tags@[lo + j]@,
            {
                tags.push(repo.tags[i].clone());
            }
            proof {
                assert(tags.deep_view() =~= repo@.tags.subrange(lo as int, hi as int));
            }
            let list = TagList { name: repo.full_name(), tags };
            let next = TagPagination { n: Some(n), last: p.last + n };
            Ok((list, Some(next)))
        },
    }
}

} // verus!
