//! An in-memory key-value store speaking the RESP wire format, with
//! leader-follower replication and two persistence forms: snapshot files
//! and an append-only command log. Every module here is verified: the frame
//! codec round-trips, the LZF compressor inverts its decoder, snapshots
//! load back to the keyspace they were saved from, and commands change the
//! store exactly as their contracts say. The surrounding program supplies
//! sockets, files, clocks and scheduling.

pub mod num;
pub mod frame;
pub mod parse;
pub mod lzf;
pub mod store;
pub mod rdb;
pub mod cmd;
pub mod repl;
pub mod aof;
pub mod conf;
pub mod list_db;

use vstd::prelude::*;

verus! {

/// Returns true when the two byte slices hold the same bytes.
pub fn bytes_eq(a: &[u8], b: &[u8]) -> (r: bool)
    ensures
        r == (a@ == b@),
{
    if a.len() != b.len() {
        assert(a@ != b@);
        return false;
    }
    let mut i: usize = 0;
    while i < a.len()
        invariant
            i <= a.len(),
            a.len() == b.len(),
            forall|j: int| 0 <= j < i ==> a@[j] == b@[j],
        decreases a.len() - i,
    {
        if a[i] != b[i] {
            assert(a@ != b@);
            return false;
        }
        i += 1;
    }
    assert(a@ =~= b@);
    true
}

} // verus!
