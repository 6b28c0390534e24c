//! The witness: the new header, the proof of its work, and where to find the
//! DAG Merkle roots.
//!
//! The witness is a table of three items: a byte string with the index of the
//! cell that holds the roots, a byte string with the header, and a vector of
//! byte strings with one proof each. A proof is a table of two vectors of byte
//! strings: DAG nodes of 64 bytes and Merkle path siblings of 16 bytes.

use vstd::prelude::*;
use vstd::slice::slice_subrange;
use vstd::slice::slice_to_vec;
use crate::bytes::to_array;
use crate::error::Error;
use crate::layout::bytes_content;
use crate::layout::bytes_vec_content;
use crate::layout::is_bytes;
use crate::layout::is_bytes_vec;
use crate::layout::is_table;
use crate::layout::item;
use crate::layout::lemma_item_between_bounds;
use crate::layout::read_bytes;
use crate::layout::read_bytes_vec;
use crate::layout::seqs;
use crate::layout::table_bounds;

verus! {

/// A decoded witness. The proofs are kept as they came; [`parse_proof`]
/// decodes one.
#[derive(Debug)]
pub struct Witness {
    /// The positions, among the cells that the transaction depends on, of the
    /// cells to consult. Exactly one is expected.
    pub cell_dep_index_list: Vec<u8>,
    /// The new header, RLP-encoded.
    pub header: Vec<u8>,
    /// The proofs, one byte string each.
    pub merkle_proof: Vec<Vec<u8>>,
}

/// A [`Witness`] as the contracts see it.
pub ghost struct WitnessView {
    pub cell_dep_index_list: Seq<u8>,
    pub header: Seq<u8>,
    pub merkle_proof: Seq<Seq<u8>>,
}

impl View for Witness {
    type V = WitnessView;

    open spec fn view(&self) -> WitnessView {
        WitnessView {
            cell_dep_index_list: self.cell_dep_index_list@,
            header: self.header@,
            merkle_proof: seqs(self.merkle_proof@),
        }
    }
}

/// Whether `s` is a well-formed witness.
pub open spec fn is_witness(s: Seq<u8>) -> bool {
    &&& is_table(s, 3)
    &&& is_bytes(item(s, 0))
    &&& is_bytes(item(s, 1))
    &&& is_bytes_vec(item(s, 2))
}

/// What a well-formed witness holds.
pub open spec fn witness_of(s: Seq<u8>) -> WitnessView {
    WitnessView {
        cell_dep_index_list: bytes_content(item(s, 0)),
        header: bytes_content(item(s, 1)),
        merkle_proof: bytes_vec_content(item(s, 2)),
    }
}

/// The witness that `s` encodes, if it encodes one.
pub open spec fn witness(s: Seq<u8>) -> Option<WitnessView> {
    if is_witness(s) {
        Some(witness_of(s))
    } else {
        None
    }
}

impl Witness {
    /// Decodes a witness. Fails with `InvalidWitness` exactly when `data` is
    /// not a well-formed witness.
    pub fn from_slice(data: &[u8]) -> (decoded: Result<Witness, Error>)
        ensures
            decoded matches Ok(w) ==> witness(data@) == Some(w@),
            decoded matches Err(e) ==> e == Error::InvalidWitness && witness(data@) is None,
    {
        let bounds: Vec<usize> = match table_bounds(data, 3) {
            Some(bounds) => bounds,
            None => {
                return Err(Error::InvalidWitness);
            },
        };
        proof {
            lemma_item_between_bounds(bounds@, data@, 0);
            lemma_item_between_bounds(bounds@, data@, 1);
            lemma_item_between_bounds(bounds@, data@, 2);
        }
        let cell_dep_index_list: Vec<u8> = match read_bytes(
            slice_subrange(data, bounds[0], bounds[1]),
        ) {
            Some(content) => slice_to_vec(content),
            None => {
                return Err(Error::InvalidWitness);
            },
        };
        let header: Vec<u8> = match read_bytes(slice_subrange(data, bounds[1], bounds[2])) {
            Some(content) => slice_to_vec(content),
            None => {
                return Err(Error::InvalidWitness);
            },
        };
        let merkle_proof: Vec<Vec<u8>> = match read_bytes_vec(
            slice_subrange(data, bounds[2], bounds[3]),
        ) {
            Some(items) => items,
            None => {
                return Err(Error::InvalidWitness);
            },
        };
        Ok(Witness { cell_dep_index_list, header, merkle_proof })
    }

    /// The index of the cell that holds the DAG Merkle roots. Fails with
    /// `InvalidWitness` unless the witness names exactly one cell.
    pub fn cell_dep_index(&self) -> (index: Result<u8, Error>)
        ensures
            index == cell_dep_index_of(self@.cell_dep_index_list),
    {
        if self.cell_dep_index_list.len() != 1 {
            return Err(Error::InvalidWitness);
        }
        Ok(self.cell_dep_index_list[0])
    }
}

/// The one index that `list` names, or `InvalidWitness` if it does not name
/// exactly one.
pub open spec fn cell_dep_index_of(list: Seq<u8>) -> Result<u8, Error> {
    if list.len() == 1 {
        Ok(list[0])
    } else {
        Err(Error::InvalidWitness)
    }
}

/// The DAG nodes that an Ethash lookup reads, with the Merkle path that ties
/// them to the root of their epoch.
#[derive(Debug)]
pub struct DoubleNodeWithMerkleProof {
    /// The DAG nodes, 64 bytes each.
    pub dag_nodes: Vec<[u8; 64]>,
    /// The siblings on the Merkle path, 16 bytes each.
    pub proof: Vec<[u8; 16]>,
}

/// A [`DoubleNodeWithMerkleProof`] as the contracts see it.
pub ghost struct ProofView {
    pub dag_nodes: Seq<Seq<u8>>,
    pub proof: Seq<Seq<u8>>,
}

/// The byte strings that the arrays of `v` stand for.
pub open spec fn arrays<const N: usize>(v: Seq<[u8; N]>) -> Seq<Seq<u8>> {
    Seq::new(v.len(), |i: int| v[i]@)
}

impl View for DoubleNodeWithMerkleProof {
    type V = ProofView;

    open spec fn view(&self) -> ProofView {
        ProofView { dag_nodes: arrays(self.dag_nodes@), proof: arrays(self.proof@) }
    }
}

/// Whether every byte string of `items` is `n` bytes long.
pub open spec fn all_of_len(items: Seq<Seq<u8>>, n: nat) -> bool {
    forall|i: int| 0 <= i < items.len() ==> (#[trigger] items[i]).len() == n
}

/// Whether `s` is a well-formed proof.
pub open spec fn is_proof(s: Seq<u8>) -> bool {
    &&& is_table(s, 2)
    &&& is_bytes_vec(item(s, 0))
    &&& is_bytes_vec(item(s, 1))
    &&& all_of_len(bytes_vec_content(item(s, 0)), 64)
    &&& all_of_len(bytes_vec_content(item(s, 1)), 16)
}

/// What a well-formed proof holds.
pub open spec fn proof_of(s: Seq<u8>) -> ProofView {
    ProofView { dag_nodes: bytes_vec_content(item(s, 0)), proof: bytes_vec_content(item(s, 1)) }
}

/// The proof that `s` encodes, if it encodes one.
pub open spec fn merkle_proof(s: Seq<u8>) -> Option<ProofView> {
    if is_proof(s) {
        Some(proof_of(s))
    } else {
        None
    }
}

/// Turns byte strings into arrays of `N` bytes. Gives nothing unless every
/// one of them is `N` bytes long.
fn to_arrays<const N: usize>(items: &Vec<Vec<u8>>) -> (found: Option<Vec<[u8; N]>>)
    ensures
        found is Some <==> all_of_len(seqs(items@), N as nat),
        found matches Some(out) ==> arrays(out@) == seqs(items@),
{
    let mut out: Vec<[u8; N]> = Vec::new();
    let mut i: usize = 0;
    while i < items.len()
        invariant
            i <= items@.len(),
            out@.len() == i,
            forall|k: int| 0 <= k < i ==> (#[trigger] seqs(items@)[k]).len() == N,
            forall|k: int| 0 <= k < i ==> (#[trigger] out@[k])@ == items@[k]@,
        decreases items@.len() - i,
    {
        match to_array::<N>(items[i].as_slice()) {
            Some(array) => {
                out.push(array);
            },
            None => {
                assert(seqs(items@)[i as int].len() != N);
                return None;
            },
        }
        i += 1;
    }
    assert(arrays(out@) =~= seqs(items@));
    Some(out)
}

/// Decodes one proof. Fails with `InvalidWitness` exactly when `proof_raw` is
/// not a well-formed proof.
pub fn parse_proof(proof_raw: &[u8]) -> (decoded: Result<DoubleNodeWithMerkleProof, Error>)
    ensures
        decoded matches Ok(p) ==> merkle_proof(proof_raw@) == Some(p@),
        decoded matches Err(e) ==> e == Error::InvalidWitness && merkle_proof(proof_raw@) is None,
{
    let bounds: Vec<usize> = match table_bounds(proof_raw, 2) {
        Some(bounds) => bounds,
        None => {
            return Err(Error::InvalidWitness);
        },
    };
    proof {
        lemma_item_between_bounds(bounds@, proof_raw@, 0);
        lemma_item_between_bounds(bounds@, proof_raw@, 1);
    }
    let nodes: Vec<Vec<u8>> = match read_bytes_vec(
        slice_subrange(proof_raw, bounds[0], bounds[1]),
    ) {
        Some(items) => items,
        None => {
            return Err(Error::InvalidWitness);
        },
    };
    let siblings: Vec<Vec<u8>> = match read_bytes_vec(
        slice_subrange(proof_raw, bounds[1], bounds[2]),
    ) {
        Some(items) => items,
        None => {
            return Err(Error::InvalidWitness);
        },
    };
    let dag_nodes: Vec<[u8; 64]> = match to_arrays::<64>(&nodes) {
        Some(arrays) => arrays,
        None => {
            return Err(Error::InvalidWitness);
        },
    };
    let proof: Vec<[u8; 16]> = match to_arrays::<16>(&siblings) {
        Some(arrays) => arrays,
        None => {
            return Err(Error::InvalidWitness);
        },
    };
    Ok(DoubleNodeWithMerkleProof { dag_nodes, proof })
}

} // verus!
