//! The DAG Merkle roots, one for each epoch.
//!
//! The cell that holds them carries a table of one item, a vector of byte
//! strings; the root of epoch `i` is the byte string at index `i`, 16 bytes
//! long.

use vstd::prelude::*;
use vstd::slice::slice_subrange;
use crate::bytes::to_array;
use crate::error::Error;
use crate::layout::bytes_vec_content;
use crate::layout::is_bytes_vec;
use crate::layout::is_table;
use crate::layout::item;
use crate::layout::lemma_item_between_bounds;
use crate::layout::read_bytes_vec;
use crate::layout::table_bounds;

verus! {

/// The number of blocks that share one DAG.
pub const EPOCH_LENGTH: u64 = 30000;

/// Whether `s` is a well-formed list of roots.
pub open spec fn is_dag_roots(s: Seq<u8>) -> bool {
    is_table(s, 1) && is_bytes_vec(item(s, 0))
}

/// The roots that a well-formed list holds, by epoch.
pub open spec fn dag_roots_of(s: Seq<u8>) -> Seq<Seq<u8>> {
    bytes_vec_content(item(s, 0))
}

/// The epoch of the block at height `number`.
pub open spec fn epoch_of(number: u64) -> int {
    number as int / 30000
}

/// The root for the block at height `number` that the list `s` gives: the
/// entry at the index of the block's epoch, if `s` is well formed, has such
/// an entry, and the entry is 16 bytes long.
pub open spec fn dag_root(s: Seq<u8>, number: u64) -> Option<Seq<u8>> {
    if is_dag_roots(s) && epoch_of(number) < dag_roots_of(s).len() && dag_roots_of(
        s,
    )[epoch_of(number)].len() == 16 {
        Some(dag_roots_of(s)[epoch_of(number)])
    } else {
        None
    }
}

/// The root that is found for a block is the entry of the list at the index
/// of the block's epoch, which is the block's height divided by the length
/// of an epoch; so all blocks of one epoch are given the same root.
pub proof fn law_root_by_epoch(s: Seq<u8>, number: u64, other: u64)
    requires
        dag_root(s, number) is Some,
        number / EPOCH_LENGTH == other / EPOCH_LENGTH,
    ensures
        is_dag_roots(s),
        0 <= number as int / 30000 < dag_roots_of(s).len(),
        dag_root(s, number) == Some(dag_roots_of(s)[number as int / 30000]),
        dag_root(s, other) == dag_root(s, number),
{
}

/// Finds the DAG Merkle root for the block at height `number` in the payload
/// `dep_data` of the cell that holds the roots. Fails with
/// `DagsMerkleRootsDataInvalid` if the payload is malformed or holds no root
/// of 16 bytes for the block's epoch.
pub fn parse_dep_data(dep_data: &[u8], number: u64) -> (found: Result<[u8; 16], Error>)
    ensures
        found matches Ok(root) ==> dag_root(dep_data@, number) == Some(root@),
        found matches Err(e) ==> e == Error::DagsMerkleRootsDataInvalid && dag_root(
            dep_data@,
            number,
        ) is None,
{
    let bounds: Vec<usize> = match table_bounds(dep_data, 1) {
        Some(bounds) => bounds,
        None => {
            return Err(Error::DagsMerkleRootsDataInvalid);
        },
    };
    proof {
        lemma_item_between_bounds(bounds@, dep_data@, 0);
    }
    let roots: Vec<Vec<u8>> = match read_bytes_vec(slice_subrange(dep_data, bounds[0], bounds[1])) {
        Some(items) => items,
        None => {
            return Err(Error::DagsMerkleRootsDataInvalid);
        },
    };
    let epoch: u64 = number / EPOCH_LENGTH;
    if epoch >= roots.len() as u64 {
        return Err(Error::DagsMerkleRootsDataInvalid);
    }
    match to_array::<16>(roots[epoch as usize].as_slice()) {
        Some(root) => Ok(root),
        None => Err(Error::DagsMerkleRootsDataInvalid),
    }
}

} // verus!
