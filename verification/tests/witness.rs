use eth_client::dag::{parse_dep_data, EPOCH_LENGTH};
use eth_client::error::Error;
use eth_client::witness::{parse_proof, DoubleNodeWithMerkleProof, Witness};

fn byte_string(content: &[u8]) -> Vec<u8> {
    let mut out: Vec<u8> = molecule::pack_number(content.len() as u32).to_vec();
    out.extend_from_slice(content);
    out
}

fn frame(items: &[Vec<u8>]) -> Vec<u8> {
    let header: usize = 4 * (items.len() + 1);
    let total: usize = header + items.iter().map(|item| item.len()).sum::<usize>();
    let mut out: Vec<u8> = molecule::pack_number(total as u32).to_vec();
    let mut at: usize = header;
    for item in items {
        out.extend_from_slice(&molecule::pack_number(at as u32));
        at += item.len();
    }
    for item in items {
        out.extend_from_slice(item);
    }
    out
}

fn bytes_vec(items: &[Vec<u8>]) -> Vec<u8> {
    let wrapped: Vec<Vec<u8>> = items.iter().map(|item| byte_string(item)).collect();
    frame(&wrapped)
}

fn proof_bytes(nodes: &[Vec<u8>], siblings: &[Vec<u8>]) -> Vec<u8> {
    frame(&[bytes_vec(nodes), bytes_vec(siblings)])
}

fn witness(index_list: &[u8], header: &[u8], proofs: &[Vec<u8>]) -> Vec<u8> {
    frame(&[byte_string(index_list), byte_string(header), bytes_vec(proofs)])
}

fn roots(list: &[Vec<u8>]) -> Vec<u8> {
    frame(&[bytes_vec(list)])
}

#[test]
fn witness_holds_index_list_header_and_proofs() {
    let p: Vec<u8> = proof_bytes(&[vec![1; 64], vec![2; 64]], &[vec![3; 16]]);
    let data: Vec<u8> = witness(&[7], b"rlp of the header", &[p.clone(), b"kept as it came".to_vec()]);
    let w: Witness = Witness::from_slice(&data).unwrap();
    assert_eq!(w.cell_dep_index_list, vec![7]);
    assert_eq!(w.header, b"rlp of the header".to_vec());
    assert_eq!(w.merkle_proof, vec![p, b"kept as it came".to_vec()]);
    assert_eq!(w.cell_dep_index(), Ok(7));
}

#[test]
fn witness_without_proofs() {
    let data: Vec<u8> = witness(&[0], b"", &[]);
    let w: Witness = Witness::from_slice(&data).unwrap();
    assert_eq!(w.cell_dep_index_list, vec![0]);
    assert_eq!(w.header, Vec::<u8>::new());
    assert_eq!(w.merkle_proof, Vec::<Vec<u8>>::new());
}

#[test]
fn witness_rejects_a_malformed_payload() {
    assert_eq!(Witness::from_slice(&[]).unwrap_err(), Error::InvalidWitness);
    assert_eq!(Witness::from_slice(&[4, 0, 0, 0]).unwrap_err(), Error::InvalidWitness);
    let two: Vec<u8> = frame(&[byte_string(&[0]), byte_string(b"h")]);
    assert_eq!(Witness::from_slice(&two).unwrap_err(), Error::InvalidWitness);
    let four: Vec<u8> = frame(&[byte_string(&[0]), byte_string(b"h"), bytes_vec(&[]), vec![]]);
    assert_eq!(Witness::from_slice(&four).unwrap_err(), Error::InvalidWitness);
    let bare_list: Vec<u8> = frame(&[vec![0], byte_string(b"h"), bytes_vec(&[])]);
    assert_eq!(Witness::from_slice(&bare_list).unwrap_err(), Error::InvalidWitness);
    let bare_header: Vec<u8> = frame(&[byte_string(&[0]), b"h".to_vec(), bytes_vec(&[])]);
    assert_eq!(Witness::from_slice(&bare_header).unwrap_err(), Error::InvalidWitness);
    let bare_proofs: Vec<u8> = frame(&[byte_string(&[0]), byte_string(b"h"), b"p".to_vec()]);
    assert_eq!(Witness::from_slice(&bare_proofs).unwrap_err(), Error::InvalidWitness);
    let mut cut: Vec<u8> = witness(&[0], b"h", &[]);
    cut.pop();
    assert_eq!(Witness::from_slice(&cut).unwrap_err(), Error::InvalidWitness);
}

#[test]
fn witness_must_name_exactly_one_cell() {
    let none: Witness = Witness::from_slice(&witness(&[], b"h", &[])).unwrap();
    assert_eq!(none.cell_dep_index(), Err(Error::InvalidWitness));
    let two: Witness = Witness::from_slice(&witness(&[1, 2], b"h", &[])).unwrap();
    assert_eq!(two.cell_dep_index(), Err(Error::InvalidWitness));
    let one: Witness = Witness::from_slice(&witness(&[255], b"h", &[])).unwrap();
    assert_eq!(one.cell_dep_index(), Ok(255));
}

#[test]
fn proof_holds_nodes_and_siblings() {
    let mut node: Vec<u8> = vec![0; 64];
    node[0] = 0xaa;
    node[63] = 0xbb;
    let mut sibling: Vec<u8> = vec![0; 16];
    sibling[0] = 0xcc;
    sibling[15] = 0xdd;
    let data: Vec<u8> = proof_bytes(&[node.clone(), vec![5; 64]], &[sibling.clone(), vec![6; 16], vec![7; 16]]);
    let p: DoubleNodeWithMerkleProof = parse_proof(&data).unwrap();
    assert_eq!(p.dag_nodes.len(), 2);
    assert_eq!(p.dag_nodes[0].to_vec(), node);
    assert_eq!(p.dag_nodes[1], [5; 64]);
    assert_eq!(p.proof.len(), 3);
    assert_eq!(p.proof[0].to_vec(), sibling);
    assert_eq!(p.proof[1], [6; 16]);
    assert_eq!(p.proof[2], [7; 16]);
}

#[test]
fn proof_may_be_empty() {
    let p: DoubleNodeWithMerkleProof = parse_proof(&proof_bytes(&[], &[])).unwrap();
    assert!(p.dag_nodes.is_empty());
    assert!(p.proof.is_empty());
}

#[test]
fn proof_rejects_items_of_the_wrong_size() {
    assert_eq!(parse_proof(&proof_bytes(&[vec![1; 63]], &[])).unwrap_err(), Error::InvalidWitness);
    assert_eq!(parse_proof(&proof_bytes(&[vec![1; 65]], &[])).unwrap_err(), Error::InvalidWitness);
    assert_eq!(
        parse_proof(&proof_bytes(&[vec![1; 64], vec![]], &[])).unwrap_err(),
        Error::InvalidWitness
    );
    assert_eq!(parse_proof(&proof_bytes(&[], &[vec![1; 15]])).unwrap_err(), Error::InvalidWitness);
    assert_eq!(parse_proof(&proof_bytes(&[], &[vec![1; 17]])).unwrap_err(), Error::InvalidWitness);
    assert_eq!(
        parse_proof(&proof_bytes(&[vec![1; 16]], &[vec![1; 64]])).unwrap_err(),
        Error::InvalidWitness
    );
}

#[test]
fn proof_rejects_a_malformed_payload() {
    assert_eq!(parse_proof(&[]).unwrap_err(), Error::InvalidWitness);
    assert_eq!(parse_proof(b"kept as it came").unwrap_err(), Error::InvalidWitness);
    assert_eq!(parse_proof(&frame(&[bytes_vec(&[])])).unwrap_err(), Error::InvalidWitness);
    assert_eq!(
        parse_proof(&frame(&[bytes_vec(&[]), bytes_vec(&[]), bytes_vec(&[])])).unwrap_err(),
        Error::InvalidWitness
    );
    assert_eq!(
        parse_proof(&frame(&[bytes_vec(&[]), vec![1, 2, 3]])).unwrap_err(),
        Error::InvalidWitness
    );
    assert_eq!(
        parse_proof(&frame(&[frame(&[vec![1; 64]]), bytes_vec(&[])])).unwrap_err(),
        Error::InvalidWitness
    );
}

#[test]
fn epoch_length_is_thirty_thousand() {
    assert_eq!(EPOCH_LENGTH, 30000);
}

#[test]
fn dag_root_is_indexed_by_epoch() {
    let data: Vec<u8> = roots(&[vec![0xa0; 16], vec![0xa1; 16], vec![0xa2; 16]]);
    assert_eq!(parse_dep_data(&data, 0), Ok([0xa0; 16]));
    assert_eq!(parse_dep_data(&data, 29999), Ok([0xa0; 16]));
    assert_eq!(parse_dep_data(&data, 30000), Ok([0xa1; 16]));
    assert_eq!(parse_dep_data(&data, 59999), Ok([0xa1; 16]));
    assert_eq!(parse_dep_data(&data, 60000), Ok([0xa2; 16]));
    assert_eq!(parse_dep_data(&data, 89999), Ok([0xa2; 16]));
}

#[test]
fn dag_root_keeps_the_bytes_in_order() {
    let root: Vec<u8> = (1..=16).collect();
    let data: Vec<u8> = roots(&[root]);
    assert_eq!(
        parse_dep_data(&data, 12345),
        Ok([1, 2, 3, 4, 5, 6, 7, 8, 9, 10, 11, 12, 13, 14, 15, 16])
    );
}

#[test]
fn dag_root_beyond_the_last_epoch() {
    let data: Vec<u8> = roots(&[vec![0xa0; 16], vec![0xa1; 16], vec![0xa2; 16]]);
    assert_eq!(parse_dep_data(&data, 90000), Err(Error::DagsMerkleRootsDataInvalid));
    assert_eq!(parse_dep_data(&data, u64::MAX), Err(Error::DagsMerkleRootsDataInvalid));
    assert_eq!(parse_dep_data(&roots(&[]), 0), Err(Error::DagsMerkleRootsDataInvalid));
}

#[test]
fn dag_root_of_the_wrong_size() {
    let data: Vec<u8> = roots(&[vec![0xa0; 16], vec![0xa1; 15], vec![0xa2; 17], vec![]]);
    assert_eq!(parse_dep_data(&data, 0), Ok([0xa0; 16]));
    assert_eq!(parse_dep_data(&data, 30000), Err(Error::DagsMerkleRootsDataInvalid));
    assert_eq!(parse_dep_data(&data, 60000), Err(Error::DagsMerkleRootsDataInvalid));
    assert_eq!(parse_dep_data(&data, 90000), Err(Error::DagsMerkleRootsDataInvalid));
}

#[test]
fn dag_roots_reject_a_malformed_payload() {
    assert_eq!(parse_dep_data(&[], 0), Err(Error::DagsMerkleRootsDataInvalid));
    assert_eq!(parse_dep_data(&[4, 0, 0, 0], 0), Err(Error::DagsMerkleRootsDataInvalid));
    assert_eq!(
        parse_dep_data(&bytes_vec(&[vec![0xa0; 16]]), 0),
        Err(Error::DagsMerkleRootsDataInvalid)
    );
    assert_eq!(
        parse_dep_data(&frame(&[bytes_vec(&[vec![0xa0; 16]]), vec![]]), 0),
        Err(Error::DagsMerkleRootsDataInvalid)
    );
    assert_eq!(
        parse_dep_data(&frame(&[frame(&[vec![0xa0; 16]])]), 0),
        Err(Error::DagsMerkleRootsDataInvalid)
    );
}
