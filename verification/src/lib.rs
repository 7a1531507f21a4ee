pub mod api;
pub mod framing;
pub mod laws;
pub mod model;
pub mod query_laws;
pub mod recency;
pub mod sort;
pub mod state;
pub mod storage;
pub mod text;
pub mod ui;

use vstd::prelude::*;

verus! {

/// Smallest capacity an LRU-bounded collection may have.
pub fn cap(n: usize) -> (r: usize)
    ensures
        r == if n == 0 { 1 } else { n },
{
    if n == 0 {
        1
    } else {
        n
    }
}

} // verus!
