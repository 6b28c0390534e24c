//! The ways in which a transition is turned down.

use vstd::prelude::*;

verus! {

/// Why a transition was rejected. Every rejection is final: nothing is
/// written, and the host drops the transaction.
#[derive(Clone, Copy, Debug, PartialEq, Eq, Structural)]
pub enum Error {
    /// The group does not hold exactly one input cell and one output cell.
    TxInvalid,
    /// The owner lock of the output differs from that of the input.
    InvalidDataChange,
    /// A cell payload is malformed, or the chain it holds was not changed
    /// according to the rules.
    InvalidCellData,
    /// The witness is missing or malformed.
    InvalidWitness,
    /// The cell with the DAG Merkle roots is malformed, or has no root for
    /// the header's epoch.
    DagsMerkleRootsDataInvalid,
    /// The header's proof of work was not confirmed.
    InvalidMerkleProofData,
}

/// The exit code by which an outcome is reported to the host: 0 for success,
/// and for each error a code of its own. The codes 1 to 4 are left to the
/// host's own errors.
pub open spec fn exit_code_of(outcome: Result<(), Error>) -> i8 {
    match outcome {
        Ok(_) => 0,
        Err(Error::TxInvalid) => 5,
        Err(Error::InvalidDataChange) => 6,
        Err(Error::InvalidCellData) => 7,
        Err(Error::InvalidWitness) => 8,
        Err(Error::DagsMerkleRootsDataInvalid) => 9,
        Err(Error::InvalidMerkleProofData) => 10,
    }
}

/// The exit code by which `outcome` is reported to the host.
pub fn exit_code(outcome: Result<(), Error>) -> (code: i8)
    ensures
        code == exit_code_of(outcome),
{
    match outcome {
        Ok(_) => 0,
        Err(Error::TxInvalid) => 5,
        Err(Error::InvalidDataChange) => 6,
        Err(Error::InvalidCellData) => 7,
        Err(Error::InvalidWitness) => 8,
        Err(Error::DagsMerkleRootsDataInvalid) => 9,
        Err(Error::InvalidMerkleProofData) => 10,
    }
}

/// The exit code tells the outcome: only success is reported as 0, and no
/// two errors share a code.
pub proof fn law_exit_codes_distinct(a: Result<(), Error>, b: Result<(), Error>)
    requires
        exit_code_of(a) == exit_code_of(b),
    ensures
        a == b,
        exit_code_of(a) == 0 <==> a is Ok,
{
    match (a, b) {
        (Ok(x), Ok(y)) => {
            assert(x == y);
        },
        (Err(e), Err(f)) => {
            assert(e == f);
        },
        _ => {},
    }
}

} // verus!
