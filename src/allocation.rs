//! The ceiling on lengths read from untrusted input, checked before a decoder
//! allocates a buffer of that size.
use vstd::prelude::*;
use crate::error::{AllocationError, Error};

verus! {

/// The ceiling that holds until another is installed: 512 MiB.
pub const DEFAULT_MAX_ALLOCATION_BYTES: usize = 512 * 1024 * 1024;

/// What checking `len` against `ceiling` gives: the length itself when it is
/// within the ceiling, else an error that carries both numbers.
pub open spec fn checked_len(len: usize, ceiling: usize, r: Result<usize, Error>) -> bool {
    if len <= ceiling {
        r == Ok::<usize, Error>(len)
    } else {
        r matches Err(Error::AllocationExceeded { requested, ceiling: c, .. }) && requested == len
            && c == ceiling
    }
}

/// Returns `len` when it is within `ceiling`, else an allocation error.
pub fn check_len(len: usize, ceiling: usize) -> (r: Result<usize, Error>)
    ensures
        checked_len(len, ceiling, r),
{
    if len <= ceiling {
        Ok(len)
    } else {
        Err(
            Error::AllocationExceeded {
                requested: len,
                ceiling,
                error: AllocationError::new("unable to allocate more bytes than the maximum allowed"),
            },
        )
    }
}

/// Checks `len` against the default ceiling.
pub fn safe_len(len: usize) -> (r: Result<usize, Error>)
    ensures
        checked_len(len, DEFAULT_MAX_ALLOCATION_BYTES, r),
{
    check_len(len, DEFAULT_MAX_ALLOCATION_BYTES)
}

/// An allocation ceiling that is installed at most once: by an explicit
/// `max_allocation_bytes`, or as the default on the first check, whichever
/// comes first. Later attempts to change it leave it as it is.
pub struct AllocationLimit {
    installed: Option<usize>,
}

impl AllocationLimit {
    /// The installed ceiling, if any.
    pub closed spec fn installed(&self) -> Option<usize> {
        self.installed
    }

    /// The ceiling that a check uses now.
    pub open spec fn effective(&self) -> usize {
        match self.installed() {
            Some(c) => c,
            None => DEFAULT_MAX_ALLOCATION_BYTES,
        }
    }

    /// A limit on which no ceiling is installed yet.
    pub fn new() -> (r: AllocationLimit)
        ensures
            r.installed() == None::<usize>,
    {
        AllocationLimit { installed: None }
    }

    /// Installs `num_bytes` as the ceiling if none is installed yet, and
    /// returns the ceiling in force afterwards.
    pub fn max_allocation_bytes(&mut self, num_bytes: usize) -> (r: usize)
        ensures
            old(self).installed() == None::<usize> ==> r == num_bytes,
            old(self).installed() matches Some(c) ==> r == c,
            final(self).installed() == Some(r),
    {
        match self.installed {
            Some(c) => c,
            None => {
                self.installed = Some(num_bytes);
                num_bytes
            },
        }
    }

    /// Checks `len` against the installed ceiling, installing the default
    /// first if none is.
    pub fn safe_len(&mut self, len: usize) -> (r: Result<usize, Error>)
        ensures
            final(self).installed() == Some(old(self).effective()),
            checked_len(len, old(self).effective(), r),
    {
        let ceiling = self.max_allocation_bytes(DEFAULT_MAX_ALLOCATION_BYTES);
        check_len(len, ceiling)
    }
}

} // verus!
