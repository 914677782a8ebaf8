use vstd::prelude::*;

verus! {

/// The generic pagination parameters of the management API: an optional
/// page size and an optional opaque cursor.
#[derive(Debug, Clone)]
pub struct PaginationQuery {
    pub limit: Option<usize>,
    pub cursor: Option<String>,
}

impl PaginationQuery {
    pub fn new(limit: Option<usize>, cursor: Option<String>) -> (q: PaginationQuery)
        ensures
            q.limit == limit,
            q.cursor.deep_view() == cursor.deep_view(),
    {
        PaginationQuery { limit, cursor }
    }

    /// The requested page size, 20 when none was given.
    pub fn limit(&self) -> (l: usize)
        ensures
            l == (match self.limit {
                Some(v) => v,
                None => 20usize,
            }),
    {
        match self.limit {
            Some(v) => v,
            None => 20,
        }
    }

    /// The cursor to resume from, if one was given.
    pub fn cursor(&self) -> (c: Option<&String>)
        ensures
            match c {
                Some(s) => self.cursor matches Some(v) && v@ == s@,
                None => self.cursor is None,
            },
    {
        self.cursor.as_ref()
    }
}

} // verus!
