//! Paging rules for listing incident records.

use vstd::prelude::*;

verus! {

/// Page size used when a query names none.
pub const DEFAULT_PAGE_SIZE: usize = 50;

/// Largest page size a query may obtain.
pub const MAX_PAGE_SIZE: usize = 100;

/// Paging parameters of an incident listing, as the client sent them.
#[derive(Clone, Copy, Debug, PartialEq, Eq)]
pub struct ListIncidentsQuery {
    pub limit: Option<usize>,
    pub offset: Option<usize>,
}

impl ListIncidentsQuery {
    /// The number of rows a listing returns at most: the requested limit,
    /// or the default where none was given, capped at the maximum.
    pub open spec fn page_size_spec(self) -> int {
        let wanted: int = match self.limit {
            Some(n) => n as int,
            None => DEFAULT_PAGE_SIZE as int,
        };
        if wanted <= MAX_PAGE_SIZE {
            wanted
        } else {
            MAX_PAGE_SIZE as int
        }
    }

    /// The number of rows a listing skips: the requested offset, or zero.
    pub open spec fn page_start_spec(self) -> int {
        match self.offset {
            Some(n) => n as int,
            None => 0,
        }
    }

    /// The number of rows a listing returns at most.
    pub fn page_size(&self) -> (n: usize)
        ensures
            n == self.page_size_spec(),
            n <= MAX_PAGE_SIZE,
    {
        let wanted: usize = match self.limit {
            Some(n) => n,
            None => DEFAULT_PAGE_SIZE,
        };
        if wanted <= MAX_PAGE_SIZE {
            wanted
        } else {
            MAX_PAGE_SIZE
        }
    }

    /// The number of rows a listing skips.
    pub fn page_start(&self) -> (n: usize)
        ensures
            n == self.page_start_spec(),
    {
        match self.offset {
            Some(n) => n,
            None => 0,
        }
    }
}

} // verus!
