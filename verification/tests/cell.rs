use eth_client::cell::{CellDataView, HeaderInfo};
use eth_client::error::Error;

fn byte_string(content: &[u8]) -> Vec<u8> {
    let mut out: Vec<u8> = molecule::pack_number(content.len() as u32).to_vec();
    out.extend_from_slice(content);
    out
}

fn frame(items: &[Vec<u8>]) -> Vec<u8> {
    let header: usize = 4 * (items.len() + 1);
    let total: usize = header + items.iter().map(|item| item.len()).sum::<usize>();
    let mut out: Vec<u8> = molecule::pack_number(total as u32).to_vec();
    let mut at: usize = header;
    for item in items {
        out.extend_from_slice(&molecule::pack_number(at as u32));
        at += item.len();
    }
    for item in items {
        out.extend_from_slice(item);
    }
    out
}

fn bytes_vec(items: &[Vec<u8>]) -> Vec<u8> {
    let wrapped: Vec<Vec<u8>> = items.iter().map(|item| byte_string(item)).collect();
    frame(&wrapped)
}

fn entry(header: &[u8], hash: [u8; 32], total_difficulty: u64) -> Vec<u8> {
    frame(&[byte_string(header), hash.to_vec(), total_difficulty.to_be_bytes().to_vec()])
}

fn cell(owner_lock: &[u8], main: &[Vec<u8>], uncle: &[Vec<u8>]) -> Vec<u8> {
    let chain: Vec<u8> = frame(&[bytes_vec(main), bytes_vec(uncle)]);
    frame(&[byte_string(owner_lock), byte_string(&chain)])
}

#[test]
fn header_info_holds_header_hash_and_total_difficulty() {
    let data: Vec<u8> = entry(b"raw header", [0x5a; 32], 0x1122334455667788);
    let info: HeaderInfo = HeaderInfo::from_slice(&data).unwrap();
    assert_eq!(info.header, b"raw header".to_vec());
    assert_eq!(info.hash, [0x5a; 32]);
    assert_eq!(info.total_difficulty, 0x1122334455667788);
}

#[test]
fn header_info_total_difficulty_is_big_endian() {
    let data: Vec<u8> = frame(&[byte_string(b"h"), vec![0; 32], vec![0, 0, 0, 0, 0, 0, 1, 2]]);
    let info: HeaderInfo = HeaderInfo::from_slice(&data).unwrap();
    assert_eq!(info.total_difficulty, 258);
}

#[test]
fn header_info_with_an_empty_header() {
    let data: Vec<u8> = entry(b"", [1; 32], 0);
    let info: HeaderInfo = HeaderInfo::from_slice(&data).unwrap();
    assert_eq!(info.header, Vec::<u8>::new());
    assert_eq!(info.hash, [1; 32]);
    assert_eq!(info.total_difficulty, 0);
}

#[test]
fn header_info_rejects_a_wrong_number_of_items() {
    let two: Vec<u8> = frame(&[byte_string(b"h"), vec![0; 32]]);
    assert_eq!(HeaderInfo::from_slice(&two).unwrap_err(), Error::InvalidCellData);
    let four: Vec<u8> = frame(&[byte_string(b"h"), vec![0; 32], vec![0; 8], vec![]]);
    assert_eq!(HeaderInfo::from_slice(&four).unwrap_err(), Error::InvalidCellData);
    assert_eq!(HeaderInfo::from_slice(&[4, 0, 0, 0]).unwrap_err(), Error::InvalidCellData);
}

#[test]
fn header_info_rejects_items_of_the_wrong_size() {
    let short_hash: Vec<u8> = frame(&[byte_string(b"h"), vec![0; 31], vec![0; 8]]);
    assert_eq!(HeaderInfo::from_slice(&short_hash).unwrap_err(), Error::InvalidCellData);
    let long_hash: Vec<u8> = frame(&[byte_string(b"h"), vec![0; 33], vec![0; 8]]);
    assert_eq!(HeaderInfo::from_slice(&long_hash).unwrap_err(), Error::InvalidCellData);
    let short_total: Vec<u8> = frame(&[byte_string(b"h"), vec![0; 32], vec![0; 7]]);
    assert_eq!(HeaderInfo::from_slice(&short_total).unwrap_err(), Error::InvalidCellData);
    let bare_header: Vec<u8> = frame(&[b"h".to_vec(), vec![0; 32], vec![0; 8]]);
    assert_eq!(HeaderInfo::from_slice(&bare_header).unwrap_err(), Error::InvalidCellData);
}

#[test]
fn header_info_rejects_what_is_no_frame() {
    assert_eq!(HeaderInfo::from_slice(&[]).unwrap_err(), Error::InvalidCellData);
    assert_eq!(HeaderInfo::from_slice(b"not a table").unwrap_err(), Error::InvalidCellData);
    let mut data: Vec<u8> = entry(b"raw header", [0x5a; 32], 7);
    data.pop();
    assert_eq!(HeaderInfo::from_slice(&data).unwrap_err(), Error::InvalidCellData);
}

#[test]
fn cell_data_holds_lock_main_and_uncle() {
    let a: Vec<u8> = entry(b"A", [1; 32], 5);
    let b: Vec<u8> = entry(b"B", [2; 32], 10);
    let u: Vec<u8> = entry(b"U", [3; 32], 9);
    let data: Vec<u8> = cell(b"owner", &[a.clone(), b.clone()], &[u.clone()]);
    let view: CellDataView = CellDataView::from_slice(&data).unwrap();
    assert_eq!(view.owner_lock(), &b"owner".to_vec());
    assert_eq!(view.main(), &vec![a, b]);
    assert_eq!(view.uncle(), &vec![u]);
}

#[test]
fn cell_data_entries_are_not_decoded_before_they_are_read() {
    let data: Vec<u8> = cell(b"", &[b"anything".to_vec()], &[]);
    let view: CellDataView = CellDataView::from_slice(&data).unwrap();
    assert_eq!(view.owner_lock, Vec::<u8>::new());
    assert_eq!(view.main, vec![b"anything".to_vec()]);
    assert_eq!(view.uncle, Vec::<Vec<u8>>::new());
}

#[test]
fn cell_data_rejects_a_malformed_payload() {
    assert_eq!(CellDataView::from_slice(&[]).unwrap_err(), Error::InvalidCellData);
    assert_eq!(CellDataView::from_slice(&[4, 0, 0, 0]).unwrap_err(), Error::InvalidCellData);
    let chain: Vec<u8> = frame(&[bytes_vec(&[]), bytes_vec(&[])]);
    // One item only.
    let one: Vec<u8> = frame(&[byte_string(&chain)]);
    assert_eq!(CellDataView::from_slice(&one).unwrap_err(), Error::InvalidCellData);
    // Three items.
    let three: Vec<u8> = frame(&[byte_string(b"o"), byte_string(&chain), byte_string(b"x")]);
    assert_eq!(CellDataView::from_slice(&three).unwrap_err(), Error::InvalidCellData);
    // The chain is not wrapped in a byte string.
    let bare: Vec<u8> = frame(&[byte_string(b"o"), chain.clone()]);
    assert_eq!(CellDataView::from_slice(&bare).unwrap_err(), Error::InvalidCellData);
    // The owner lock is not a byte string.
    let lock: Vec<u8> = frame(&[vec![9, 0, 0, 0], byte_string(&chain)]);
    assert_eq!(CellDataView::from_slice(&lock).unwrap_err(), Error::InvalidCellData);
}

#[test]
fn cell_data_rejects_a_malformed_chain() {
    let no_uncle: Vec<u8> = frame(&[bytes_vec(&[])]);
    let data: Vec<u8> = frame(&[byte_string(b"o"), byte_string(&no_uncle)]);
    assert_eq!(CellDataView::from_slice(&data).unwrap_err(), Error::InvalidCellData);
    let bad_main: Vec<u8> = frame(&[frame(&[vec![1, 2, 3]]), bytes_vec(&[])]);
    let data: Vec<u8> = frame(&[byte_string(b"o"), byte_string(&bad_main)]);
    assert_eq!(CellDataView::from_slice(&data).unwrap_err(), Error::InvalidCellData);
    let bad_uncle: Vec<u8> = frame(&[bytes_vec(&[]), vec![1, 2, 3]]);
    let data: Vec<u8> = frame(&[byte_string(b"o"), byte_string(&bad_uncle)]);
    assert_eq!(CellDataView::from_slice(&data).unwrap_err(), Error::InvalidCellData);
    let data: Vec<u8> = frame(&[byte_string(b"o"), byte_string(b"")]);
    assert_eq!(CellDataView::from_slice(&data).unwrap_err(), Error::InvalidCellData);
}

#[test]
fn headers_to_decode_are_those_of_the_well_formed_entries() {
    let a: Vec<u8> = entry(b"A", [1; 32], 5);
    let b: Vec<u8> = entry(b"header of B", [2; 32], 10);
    let u: Vec<u8> = entry(b"U", [3; 32], 9);
    let v: Vec<u8> = entry(b"", [4; 32], 9);
    let view: CellDataView = CellDataView {
        owner_lock: vec![],
        main: vec![a.clone(), b],
        uncle: vec![u, b"junk".to_vec(), v],
    };
    assert_eq!(view.main_tail_header(), Some(b"header of B".to_vec()));
    assert_eq!(view.uncle_headers(), vec![Some(b"U".to_vec()), None, Some(vec![])]);
    let view: CellDataView =
        CellDataView { owner_lock: vec![], main: vec![a, b"junk".to_vec()], uncle: vec![] };
    assert_eq!(view.main_tail_header(), None);
    assert_eq!(view.uncle_headers(), Vec::<Option<Vec<u8>>>::new());
    let view: CellDataView = CellDataView { owner_lock: vec![], main: vec![], uncle: vec![] };
    assert_eq!(view.main_tail_header(), None);
}
