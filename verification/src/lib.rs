//! Reference-counting and reclamation core for volumes assembled from
//! shared storage resources.
//!
//! A volume is a logical disk described by a tree of construction requests
//! that reference read/write regions and shared read-only snapshots. The
//! store tracks, per snapshot address, how many live volumes reference it,
//! adjusts those counts when volumes are created or deleted, and on deletion
//! computes and durably records the set of resources that became
//! unreferenced, so that a replayed deletion returns the same set.

pub mod codec;
pub mod datastore;
pub mod hex;
pub mod laws;
pub mod model;
pub mod reclaim;
pub mod walker;

use vstd::prelude::*;

verus! {

/// Compares two byte strings for equality of their contents.
pub fn bytes_eq(a: &Vec<u8>, b: &Vec<u8>) -> (r: bool)
    ensures
        r == (a@ == b@),
{
    if a.len() != b.len() {
        assert(a@ != b@);
        return false;
    }
    let n: usize = a.len();
    let mut i: usize = 0;
    while i < n
        invariant
            n == a@.len() == b@.len(),
            0 <= i <= n,
            forall|k: int| 0 <= k < i ==> a@[k] == b@[k],
        decreases n - i,
    {
        if a[i] != b[i] {
            return false;
        }
        i += 1;
    }
    proof {
        assert(a@ =~= b@);
    }
    true
}

} // verus!
