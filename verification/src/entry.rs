//! One transition from end to end.
//!
//! The checks are made in stages, since the host and the Ethash verifier
//! have to be asked in between. [`verify`] takes the payloads of the cells
//! and of the witness, and what the Ethash primitives have decoded of them,
//! and carries out every check before the proof of work. The [`ProofCheck`]
//! that it returns names the cell to load next. [`ProofCheck::find_root`]
//! finds the root in that cell; the [`WorkCheck`] that it returns holds what
//! the Ethash verifier is to be given. [`WorkCheck::close`] takes what the
//! verifier found and closes the transition.

use vstd::prelude::*;
use crate::bytes::bytes_eq;
use crate::cell::cell_data;
use crate::cell::CellData;
use crate::cell::CellDataView;
use crate::dag::dag_root;
use crate::dag::parse_dep_data;
use crate::error::Error;
use crate::header::DecodedHeaders;
use crate::header::Header;
use crate::layout::seqs;
use crate::transition::transition_of;
use crate::transition::verify_input_output_data;
use crate::transition::Transition;
use crate::witness::cell_dep_index_of;
use crate::witness::is_proof;
use crate::witness::parse_proof;
use crate::witness::proof_of;
use crate::witness::witness;
use crate::witness::DoubleNodeWithMerkleProof;
use crate::witness::ProofView;
use crate::witness::Witness;

verus! {

/// The views of the input cell and of the output cell of one transition,
/// each absent where the group holds no such cell.
#[derive(Debug)]
pub struct CellDataTuple(pub Option<CellDataView>, pub Option<CellDataView>);

/// A transition that has passed every check on the cells and the witness,
/// with what is needed to find the DAG Merkle root for the new header.
#[derive(Debug)]
pub struct ProofCheck {
    /// What the transition did with the new header.
    pub transition: Transition,
    /// The height of the new header.
    pub number: u64,
    /// The position, among the cells that the transaction depends on, of the
    /// cell that holds the DAG Merkle roots.
    pub cell_dep_index: u8,
    /// The proofs from the witness, decoded.
    pub proofs: Vec<DoubleNodeWithMerkleProof>,
}

/// A [`ProofCheck`] as the contracts see it.
pub ghost struct ProofCheckView {
    pub transition: Transition,
    pub number: u64,
    pub cell_dep_index: u8,
    pub proofs: Seq<ProofView>,
}

/// A transition that has passed every check but that of the header's proof of
/// work, with the DAG Merkle root and the proofs that the Ethash verifier is
/// to be given along with the header.
#[derive(Debug)]
pub struct WorkCheck {
    /// What the transition did with the new header.
    pub transition: Transition,
    /// The DAG Merkle root of the epoch of the new header.
    pub merkle_root: [u8; 16],
    /// The proofs from the witness, decoded.
    pub proofs: Vec<DoubleNodeWithMerkleProof>,
}

/// The proofs that the elements of `v` stand for.
pub open spec fn proof_views(v: Seq<DoubleNodeWithMerkleProof>) -> Seq<ProofView> {
    Seq::new(v.len(), |i: int| v[i]@)
}

impl View for ProofCheck {
    type V = ProofCheckView;

    open spec fn view(&self) -> ProofCheckView {
        ProofCheckView {
            transition: self.transition,
            number: self.number,
            cell_dep_index: self.cell_dep_index,
            proofs: proof_views(self.proofs@),
        }
    }
}

/// The bytes of the witness, if there is one.
pub open spec fn payload_of(witness: Option<&[u8]>) -> Option<Seq<u8>> {
    match witness {
        Some(bytes) => Some(bytes@),
        None => None,
    }
}

/// The decoded header, if there is one.
pub open spec fn header_of(header: Option<&Header>) -> Option<Header> {
    match header {
        Some(h) => Some(*h),
        None => None,
    }
}

/// Whether `got` is the outcome `expected`: the same error, or a value that
/// stands for the same thing.
pub open spec fn agrees(got: Result<ProofCheck, Error>, expected: Result<ProofCheckView, Error>) -> bool {
    match (got, expected) {
        (Ok(check), Ok(view)) => check@ == view,
        (Err(e), Err(f)) => e == f,
        _ => false,
    }
}

/// What a group holds: nothing if it is empty, the decoded payload of its
/// cell if it holds one, `InvalidCellData` if that payload is malformed, and
/// `TxInvalid` if it holds several cells.
pub open spec fn group_of(cells: Seq<Seq<u8>>) -> Result<Option<CellData>, Error> {
    if cells.len() == 0 {
        Ok(None)
    } else if cells.len() == 1 {
        match cell_data(cells[0]) {
            Some(data) => Ok(Some(data)),
            None => Err(Error::InvalidCellData),
        }
    } else {
        Err(Error::TxInvalid)
    }
}

/// What the two groups hold, the input group first; the error of the first
/// group that has one.
pub open spec fn groups_of(input_cells: Seq<Seq<u8>>, output_cells: Seq<Seq<u8>>) -> Result<
    (Option<CellData>, Option<CellData>),
    Error,
> {
    match group_of(input_cells) {
        Err(e) => Err(e),
        Ok(input) => match group_of(output_cells) {
            Err(e) => Err(e),
            Ok(output) => Ok((input, output)),
        },
    }
}

/// The cells of a transition: the decoded payloads of the one cell of each
/// group. `TxInvalid` unless each group holds exactly one cell; failing that,
/// `InvalidCellData` if a payload is malformed.
pub open spec fn cells_of(input_cells: Seq<Seq<u8>>, output_cells: Seq<Seq<u8>>) -> Result<
    (CellData, CellData),
    Error,
> {
    if input_cells.len() != 1 || output_cells.len() != 1 {
        Err(Error::TxInvalid)
    } else {
        match (cell_data(input_cells[0]), cell_data(output_cells[0])) {
            (Some(input), Some(output)) => Ok((input, output)),
            _ => Err(Error::InvalidCellData),
        }
    }
}

/// Whether `view` stands for `data`: both absent, or the one the view of the
/// other.
pub open spec fn stands_for(view: Option<CellDataView>, data: Option<CellData>) -> bool {
    match (view, data) {
        (Some(v), Some(d)) => v@ == d,
        (None, None) => true,
        _ => false,
    }
}

/// The proofs that the byte strings of `raw` encode, if every one of them is
/// well formed.
pub open spec fn proofs_of(raw: Seq<Seq<u8>>) -> Option<Seq<ProofView>> {
    if forall|i: int| 0 <= i < raw.len() ==> is_proof(#[trigger] raw[i]) {
        Some(Seq::new(raw.len(), |i: int| proof_of(raw[i])))
    } else {
        None
    }
}

/// The outcome of the checks that involve the witness, in the order in which
/// they are made: the witness is there and well formed; its header was
/// decoded; the caches changed as the rules allow; every proof is well
/// formed; exactly one cell is named for the roots.
#[verifier::opaque]
pub open spec fn witness_outcome(
    input: CellData,
    output: CellData,
    witness_bytes: Option<Seq<u8>>,
    header: Option<Header>,
    decoded: DecodedHeaders,
) -> Result<ProofCheckView, Error> {
    match witness_bytes {
        None => Err(Error::InvalidWitness),
        Some(bytes) => match (witness(bytes), header) {
            (Some(w), Some(h)) => match transition_of(input, output, w.header, h, decoded) {
                None => Err(Error::InvalidCellData),
                Some(transition) => match proofs_of(w.merkle_proof) {
                    None => Err(Error::InvalidWitness),
                    Some(proofs) => match cell_dep_index_of(w.cell_dep_index_list) {
                        Err(e) => Err(e),
                        Ok(cell_dep_index) => Ok(
                            ProofCheckView { transition, number: h.number, cell_dep_index, proofs },
                        ),
                    },
                },
            },
            _ => Err(Error::InvalidWitness),
        },
    }
}

/// The outcome of all checks before the proof of work, in the order in which
/// they are made: each group holds one cell; both payloads are well formed;
/// the owner lock is unchanged; then the checks of [`witness_outcome`].
pub open spec fn verify_outcome(
    input_cells: Seq<Seq<u8>>,
    output_cells: Seq<Seq<u8>>,
    witness_bytes: Option<Seq<u8>>,
    header: Option<Header>,
    decoded: DecodedHeaders,
) -> Result<ProofCheckView, Error> {
    match cells_of(input_cells, output_cells) {
        Err(e) => Err(e),
        Ok((input, output)) => if input.owner_lock != output.owner_lock {
            Err(Error::InvalidDataChange)
        } else {
            witness_outcome(input, output, witness_bytes, header, decoded)
        },
    }
}

/// Decodes the cell of a group from the payloads of the group's cells.
/// Gives nothing for an empty group, fails with `TxInvalid` for a group of
/// several cells, and with `InvalidCellData` for a malformed payload.
pub fn get_data(cells: &Vec<Vec<u8>>) -> (found: Result<Option<CellDataView>, Error>)
    ensures
        found matches Ok(view) ==> group_of(seqs(cells@)) matches Ok(data) && stands_for(view, data),
        found matches Err(e) ==> group_of(seqs(cells@)) == Err::<Option<CellData>, Error>(e),
{
    if cells.len() == 0 {
        Ok(None)
    } else if cells.len() == 1 {
        match CellDataView::from_slice(cells[0].as_slice()) {
            Ok(view) => Ok(Some(view)),
            Err(e) => Err(e),
        }
    } else {
        Err(Error::TxInvalid)
    }
}

impl CellDataTuple {
    /// Decodes the cells of both groups, the input's first. Fails as
    /// [`get_data`] does on the first group that it fails on.
    pub fn from_groups(input_cells: &Vec<Vec<u8>>, output_cells: &Vec<Vec<u8>>) -> (found: Result<
        CellDataTuple,
        Error,
    >)
        ensures
            found matches Ok(cells) ==> groups_of(seqs(input_cells@), seqs(output_cells@))
                matches Ok(pair) && stands_for(cells.0, pair.0) && stands_for(cells.1, pair.1),
            found matches Err(e) ==> groups_of(seqs(input_cells@), seqs(output_cells@)) == Err::<
                (Option<CellData>, Option<CellData>),
                Error,
            >(e),
    {
        let input: Option<CellDataView> = match get_data(input_cells) {
            Ok(input) => input,
            Err(e) => {
                return Err(e);
            },
        };
        let output: Option<CellDataView> = match get_data(output_cells) {
            Ok(output) => output,
            Err(e) => {
                return Err(e);
            },
        };
        Ok(CellDataTuple(input, output))
    }
}

/// Decodes the cells of a transition from the payloads of the cells of the
/// two groups. Fails with `TxInvalid` unless each group holds exactly one
/// cell, and failing that with `InvalidCellData` if a payload is malformed.
pub fn get_cells(input_cells: &Vec<Vec<u8>>, output_cells: &Vec<Vec<u8>>) -> (found: Result<
    (CellDataView, CellDataView),
    Error,
>)
    ensures
        found matches Ok(pair) ==> cells_of(seqs(input_cells@), seqs(output_cells@)) == Ok::<
            (CellData, CellData),
            Error,
        >((pair.0@, pair.1@)),
        found matches Err(e) ==> cells_of(seqs(input_cells@), seqs(output_cells@)) == Err::<
            (CellData, CellData),
            Error,
        >(e),
{
    if input_cells.len() != 1 || output_cells.len() != 1 {
        return Err(Error::TxInvalid);
    }
    match CellDataTuple::from_groups(input_cells, output_cells) {
        Ok(CellDataTuple(Some(input), Some(output))) => Ok((input, output)),
        Ok(_) => Err(Error::TxInvalid),
        Err(e) => Err(e),
    }
}

impl ProofCheck {
    /// Finds, in the payload `dep_data` of the cell that the witness names,
    /// the DAG Merkle root of the epoch of the new header, and hands on what
    /// the Ethash verifier is to be given. Fails with
    /// `DagsMerkleRootsDataInvalid` if the payload is malformed or holds no
    /// root of 16 bytes for that epoch.
    pub fn find_root(self, dep_data: &[u8]) -> (found: Result<WorkCheck, Error>)
        ensures
            found matches Ok(work) ==> dag_root(dep_data@, self.number) == Some(work.merkle_root@),
            found matches Ok(work) ==> work.transition == self.transition,
            found matches Ok(work) ==> work.proofs == self.proofs,
            found matches Err(e) ==> e == Error::DagsMerkleRootsDataInvalid && dag_root(
                dep_data@,
                self.number,
            ) is None,
    {
        match parse_dep_data(dep_data, self.number) {
            Ok(merkle_root) => Ok(
                WorkCheck { transition: self.transition, merkle_root, proofs: self.proofs },
            ),
            Err(e) => Err(e),
        }
    }
}

impl WorkCheck {
    /// Closes the transition once the Ethash verifier has run on the header,
    /// the root and the proofs: the transition is accepted, and its kind
    /// returned, if the header's proof of work was confirmed, and fails with
    /// `InvalidMerkleProofData` if it was not.
    pub fn close(self, confirmed: bool) -> (closed: Result<Transition, Error>)
        ensures
            closed matches Ok(transition) ==> confirmed && transition == self.transition,
            closed matches Err(e) ==> !confirmed && e == Error::InvalidMerkleProofData,
    {
        match verify_proof_result(confirmed) {
            Ok(_) => Ok(self.transition),
            Err(e) => Err(e),
        }
    }
}

/// Checks that the owner lock is the same in both cells. Fails with
/// `InvalidDataChange` otherwise.
pub fn verify_data(input_data: &CellDataView, output_data: &CellDataView) -> (checked: Result<
    (),
    Error,
>)
    ensures
        checked is Ok <==> input_data@.owner_lock == output_data@.owner_lock,
        checked matches Err(e) ==> e == Error::InvalidDataChange,
{
    if bytes_eq(input_data.owner_lock.as_slice(), output_data.owner_lock.as_slice()) {
        Ok(())
    } else {
        Err(Error::InvalidDataChange)
    }
}

/// Decodes every proof of a witness. Fails with `InvalidWitness` if one of
/// them is malformed.
fn parse_proofs(raw: &Vec<Vec<u8>>) -> (decoded: Result<Vec<DoubleNodeWithMerkleProof>, Error>)
    ensures
        decoded matches Ok(proofs) ==> proofs_of(seqs(raw@)) == Some(proof_views(proofs@)),
        decoded matches Err(e) ==> e == Error::InvalidWitness && proofs_of(seqs(raw@)) is None,
{
    let mut proofs: Vec<DoubleNodeWithMerkleProof> = Vec::new();
    let mut i: usize = 0;
    while i < raw.len()
        invariant
            i <= raw@.len(),
            proofs@.len() == i,
            forall|k: int| 0 <= k < i ==> is_proof(#[trigger] seqs(raw@)[k]),
            forall|k: int| 0 <= k < i ==> (#[trigger] proofs@[k])@ == proof_of(seqs(raw@)[k]),
        decreases raw@.len() - i,
    {
        match parse_proof(raw[i].as_slice()) {
            Ok(proof) => {
                proofs.push(proof);
            },
            Err(e) => {
                assert(!is_proof(seqs(raw@)[i as int]));
                return Err(e);
            },
        }
        i += 1;
    }
    assert(proof_views(proofs@) =~= Seq::new(
        seqs(raw@).len(),
        |i: int| proof_of(seqs(raw@)[i]),
    ));
    Ok(proofs)
}

/// Carries out the checks that involve the witness.
///
/// `witness` is the payload of the witness, absent where the host has none;
/// `header` is the decoded form of the header that the witness carries,
/// absent where it could not be decoded; `decoded` holds the decoded headers
/// of `input`.
pub fn verify_witness(
    input: &CellDataView,
    output: &CellDataView,
    witness: Option<&[u8]>,
    header: Option<&Header>,
    decoded: &DecodedHeaders,
) -> (outcome: Result<ProofCheck, Error>)
    ensures
        agrees(
            outcome,
            witness_outcome(input@, output@, payload_of(witness), header_of(header), *decoded),
        ),
{
    reveal(witness_outcome);
    let bytes: &[u8] = match witness {
        Some(bytes) => bytes,
        None => {
            return Err(Error::InvalidWitness);
        },
    };
    let parsed: Witness = match Witness::from_slice(bytes) {
        Ok(parsed) => parsed,
        Err(e) => {
            return Err(e);
        },
    };
    let header: &Header = match header {
        Some(header) => header,
        None => {
            return Err(Error::InvalidWitness);
        },
    };
    let transition: Transition = match verify_input_output_data(
        input,
        output,
        parsed.header.as_slice(),
        header,
        decoded,
    ) {
        Ok(transition) => transition,
        Err(e) => {
            return Err(e);
        },
    };
    let proofs: Vec<DoubleNodeWithMerkleProof> = match parse_proofs(&parsed.merkle_proof) {
        Ok(proofs) => proofs,
        Err(e) => {
            return Err(e);
        },
    };
    let cell_dep_index: u8 = match parsed.cell_dep_index() {
        Ok(index) => index,
        Err(e) => {
            return Err(e);
        },
    };
    Ok(ProofCheck { transition, number: header.number, cell_dep_index, proofs })
}

/// Carries out every check before the proof of work.
///
/// `input_cells` and `output_cells` are the payloads of the cells of the two
/// groups; `witness`, `header` and `decoded` are as for [`verify_witness`].
pub fn verify(
    input_cells: &Vec<Vec<u8>>,
    output_cells: &Vec<Vec<u8>>,
    witness: Option<&[u8]>,
    header: Option<&Header>,
    decoded: &DecodedHeaders,
) -> (outcome: Result<ProofCheck, Error>)
    ensures
        agrees(
            outcome,
            verify_outcome(
                seqs(input_cells@),
                seqs(output_cells@),
                payload_of(witness),
                header_of(header),
                *decoded,
            ),
        ),
{
    let (input, output): (CellDataView, CellDataView) = match get_cells(
        input_cells,
        output_cells,
    ) {
        Ok(pair) => pair,
        Err(e) => {
            return Err(e);
        },
    };
    match verify_data(&input, &output) {
        Ok(_) => {},
        Err(e) => {
            return Err(e);
        },
    }
    verify_witness(&input, &output, witness, header, decoded)
}

/// Judges what the Ethash verifier found: accepted if the header's proof of
/// work was confirmed, `InvalidMerkleProofData` if it was not.
pub fn verify_proof_result(confirmed: bool) -> (closed: Result<(), Error>)
    ensures
        closed is Ok <==> confirmed,
        closed matches Err(e) ==> e == Error::InvalidMerkleProofData,
{
    if confirmed {
        Ok(())
    } else {
        Err(Error::InvalidMerkleProofData)
    }
}

} // verus!
