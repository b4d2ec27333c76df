//! The page-size oracle: a query for the platform's native memory page size,
//! consulted once when an arena is constructed.

use vstd::prelude::*;

verus! {

/// Relies on page_size::get: the platform's native memory page size, a
/// positive number of bytes (cached after the first query).
#[verifier::external_body]
pub fn get_page_size() -> (r: usize)
    ensures
        1 <= r,
{
    page_size::get()
}

} // verus!
