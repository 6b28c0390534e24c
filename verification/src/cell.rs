//! The cell payload: an owner lock and the two header caches.
//!
//! The payload is a table of two byte strings. The first is the owner lock,
//! which the rules only ever compare. The second holds the chain: a table of
//! two vectors of byte strings, the main chain and the uncle pool, oldest
//! entry first. Each entry is itself the bytes of a table, a [`HeaderInfo`],
//! which is decoded when the rules come to read it and not before.

use vstd::prelude::*;
use vstd::slice::slice_subrange;
use vstd::slice::slice_to_vec;
use crate::bytes::be_nat;
use crate::bytes::lemma_be_nat_injective;
use crate::bytes::to_array;
use crate::bytes::to_u64;
use crate::error::Error;
use crate::layout::bytes_content;
use crate::layout::bytes_vec_content;
use crate::layout::is_bytes;
use crate::layout::is_bytes_vec;
use crate::layout::is_table;
use crate::layout::item;
use crate::layout::items;
use crate::layout::law_bytes_injective;
use crate::layout::law_bytes_vec_injective;
use crate::layout::law_frame_injective;
use crate::layout::lemma_item_between_bounds;
use crate::layout::read_bytes;
use crate::layout::read_bytes_vec;
use crate::layout::seqs;
use crate::layout::table_bounds;

verus! {

/// One entry of a header cache.
#[derive(Debug)]
pub struct HeaderInfo {
    /// The header as it was received, RLP-encoded.
    pub header: Vec<u8>,
    /// The hash of the header.
    pub hash: [u8; 32],
    /// The difficulty of the chain up to and including this header.
    pub total_difficulty: u64,
}

/// A [`HeaderInfo`] as the contracts see it.
pub ghost struct HeaderInfoView {
    pub header: Seq<u8>,
    pub hash: Seq<u8>,
    pub total_difficulty: nat,
}

impl View for HeaderInfo {
    type V = HeaderInfoView;

    open spec fn view(&self) -> HeaderInfoView {
        HeaderInfoView {
            header: self.header@,
            hash: self.hash@,
            total_difficulty: self.total_difficulty as nat,
        }
    }
}

/// Whether `s` is a well-formed cache entry: a table of a byte string, 32
/// bytes of hash and 8 bytes of total difficulty.
pub open spec fn is_header_info(s: Seq<u8>) -> bool {
    &&& is_table(s, 3)
    &&& is_bytes(item(s, 0))
    &&& item(s, 1).len() == 32
    &&& item(s, 2).len() == 8
}

/// What a well-formed cache entry holds. The total difficulty is written most
/// significant byte first.
pub open spec fn header_info_of(s: Seq<u8>) -> HeaderInfoView {
    HeaderInfoView {
        header: bytes_content(item(s, 0)),
        hash: item(s, 1),
        total_difficulty: be_nat(item(s, 2)),
    }
}

/// The cache entry that `s` encodes, if it encodes one.
pub open spec fn header_info(s: Seq<u8>) -> Option<HeaderInfoView> {
    if is_header_info(s) {
        Some(header_info_of(s))
    } else {
        None
    }
}

/// The header that the entry `s` carries, as it was received, if `s` is a
/// well-formed entry.
pub open spec fn raw_header(s: Seq<u8>) -> Option<Seq<u8>> {
    match header_info(s) {
        Some(info) => Some(info.header),
        None => None,
    }
}

/// The header that the last entry of `main` carries, if there is one and it
/// is well formed.
pub open spec fn tail_header(main: Seq<Seq<u8>>) -> Option<Seq<u8>> {
    if main.len() > 0 {
        raw_header(main.last())
    } else {
        None
    }
}

/// The bytes that `v` holds, if it holds any.
pub open spec fn bytes_of(v: Option<Vec<u8>>) -> Option<Seq<u8>> {
    match v {
        Some(bytes) => Some(bytes@),
        None => None,
    }
}

/// No two byte strings encode the same cache entry.
pub proof fn law_header_info_injective(a: Seq<u8>, b: Seq<u8>)
    requires
        header_info(a) is Some,
        header_info(a) == header_info(b),
    ensures
        a == b,
{
    law_bytes_injective(item(a, 0), item(b, 0));
    lemma_be_nat_injective(item(a, 2), item(b, 2));
    assert(items(a) =~= items(b));
    law_frame_injective(a, b);
}

impl HeaderInfo {
    /// Decodes a cache entry. Fails with `InvalidCellData` exactly when
    /// `data` is not a well-formed entry.
    pub fn from_slice(data: &[u8]) -> (decoded: Result<HeaderInfo, Error>)
        ensures
            decoded matches Ok(info) ==> header_info(data@) == Some(info@),
            decoded matches Err(e) ==> e == Error::InvalidCellData && header_info(data@) is None,
    {
        let bounds: Vec<usize> = match table_bounds(data, 3) {
            Some(bounds) => bounds,
            None => {
                return Err(Error::InvalidCellData);
            },
        };
        proof {
            lemma_item_between_bounds(bounds@, data@, 0);
            lemma_item_between_bounds(bounds@, data@, 1);
            lemma_item_between_bounds(bounds@, data@, 2);
        }
        let header: Vec<u8> = match read_bytes(slice_subrange(data, bounds[0], bounds[1])) {
            Some(content) => slice_to_vec(content),
            None => {
                return Err(Error::InvalidCellData);
            },
        };
        let hash: [u8; 32] = match to_array::<32>(slice_subrange(data, bounds[1], bounds[2])) {
            Some(hash) => hash,
            None => {
                return Err(Error::InvalidCellData);
            },
        };
        let total: [u8; 8] = match to_array::<8>(slice_subrange(data, bounds[2], bounds[3])) {
            Some(total) => total,
            None => {
                return Err(Error::InvalidCellData);
            },
        };
        Ok(HeaderInfo { header, hash, total_difficulty: to_u64(&total) })
    }
}

/// The payload of a cell, decoded as far as the two caches' entries.
#[derive(Debug)]
pub struct CellDataView {
    /// The owner lock, which a transition must leave as it is.
    pub owner_lock: Vec<u8>,
    /// The main chain, oldest entry first.
    pub main: Vec<Vec<u8>>,
    /// The uncle pool, oldest entry first.
    pub uncle: Vec<Vec<u8>>,
}

/// A [`CellDataView`] as the contracts see it.
pub ghost struct CellData {
    pub owner_lock: Seq<u8>,
    pub main: Seq<Seq<u8>>,
    pub uncle: Seq<Seq<u8>>,
}

impl View for CellDataView {
    type V = CellData;

    open spec fn view(&self) -> CellData {
        CellData { owner_lock: self.owner_lock@, main: seqs(self.main@), uncle: seqs(self.uncle@) }
    }
}

/// Whether `s` is a well-formed chain: a table of two vectors of byte strings.
pub open spec fn is_chain(s: Seq<u8>) -> bool {
    &&& is_table(s, 2)
    &&& is_bytes_vec(item(s, 0))
    &&& is_bytes_vec(item(s, 1))
}

/// Whether `s` is a well-formed cell payload: a table of two byte strings, the
/// second of which holds a well-formed chain.
pub open spec fn is_cell_data(s: Seq<u8>) -> bool {
    &&& is_table(s, 2)
    &&& is_bytes(item(s, 0))
    &&& is_bytes(item(s, 1))
    &&& is_chain(bytes_content(item(s, 1)))
}

/// What a well-formed cell payload holds.
pub open spec fn cell_data_of(s: Seq<u8>) -> CellData {
    let chain = bytes_content(item(s, 1));
    CellData {
        owner_lock: bytes_content(item(s, 0)),
        main: bytes_vec_content(item(chain, 0)),
        uncle: bytes_vec_content(item(chain, 1)),
    }
}

/// The cell payload that `s` encodes, if it encodes one.
pub open spec fn cell_data(s: Seq<u8>) -> Option<CellData> {
    if is_cell_data(s) {
        Some(cell_data_of(s))
    } else {
        None
    }
}

/// No two byte strings encode the same cell payload: where two cells hold the
/// same owner lock and the same entries in both caches, their payloads are
/// the same, byte for byte.
pub proof fn law_cell_data_injective(a: Seq<u8>, b: Seq<u8>)
    requires
        cell_data(a) is Some,
        cell_data(a) == cell_data(b),
    ensures
        a == b,
{
    let chain_a = bytes_content(item(a, 1));
    let chain_b = bytes_content(item(b, 1));
    law_bytes_vec_injective(item(chain_a, 0), item(chain_b, 0));
    law_bytes_vec_injective(item(chain_a, 1), item(chain_b, 1));
    assert(items(chain_a) =~= items(chain_b));
    law_frame_injective(chain_a, chain_b);
    law_bytes_injective(item(a, 0), item(b, 0));
    law_bytes_injective(item(a, 1), item(b, 1));
    assert(items(a) =~= items(b));
    law_frame_injective(a, b);
}

impl CellDataView {
    /// Decodes a cell payload. Fails with `InvalidCellData` exactly when
    /// `data` is not a well-formed payload.
    pub fn from_slice(data: &[u8]) -> (decoded: Result<CellDataView, Error>)
        ensures
            decoded matches Ok(view) ==> cell_data(data@) == Some(view@),
            decoded matches Err(e) ==> e == Error::InvalidCellData && cell_data(data@) is None,
    {
        let bounds: Vec<usize> = match table_bounds(data, 2) {
            Some(bounds) => bounds,
            None => {
                return Err(Error::InvalidCellData);
            },
        };
        proof {
            lemma_item_between_bounds(bounds@, data@, 0);
            lemma_item_between_bounds(bounds@, data@, 1);
        }
        let owner_lock: Vec<u8> = match read_bytes(slice_subrange(data, bounds[0], bounds[1])) {
            Some(content) => slice_to_vec(content),
            None => {
                return Err(Error::InvalidCellData);
            },
        };
        let chain: &[u8] = match read_bytes(slice_subrange(data, bounds[1], bounds[2])) {
            Some(content) => content,
            None => {
                return Err(Error::InvalidCellData);
            },
        };
        let parts: Vec<usize> = match table_bounds(chain, 2) {
            Some(parts) => parts,
            None => {
                return Err(Error::InvalidCellData);
            },
        };
        proof {
            lemma_item_between_bounds(parts@, chain@, 0);
            lemma_item_between_bounds(parts@, chain@, 1);
        }
        let main: Vec<Vec<u8>> = match read_bytes_vec(slice_subrange(chain, parts[0], parts[1])) {
            Some(items) => items,
            None => {
                return Err(Error::InvalidCellData);
            },
        };
        let uncle: Vec<Vec<u8>> = match read_bytes_vec(slice_subrange(chain, parts[1], parts[2])) {
            Some(items) => items,
            None => {
                return Err(Error::InvalidCellData);
            },
        };
        Ok(CellDataView { owner_lock, main, uncle })
    }

    /// The header that the last entry of the main chain carries, as it was
    /// received; nothing if the main chain is empty or its last entry is
    /// malformed. This is the first of the headers that the rules may need
    /// decoded.
    pub fn main_tail_header(&self) -> (header: Option<Vec<u8>>)
        ensures
            bytes_of(header) == tail_header(self@.main),
    {
        if self.main.len() == 0 {
            return None;
        }
        match HeaderInfo::from_slice(self.main[self.main.len() - 1].as_slice()) {
            Ok(info) => Some(info.header),
            Err(_) => None,
        }
    }

    /// The header that each uncle carries, as it was received, in the order
    /// of the pool; nothing in the place of a malformed entry. These are the
    /// other headers that the rules may need decoded.
    pub fn uncle_headers(&self) -> (headers: Vec<Option<Vec<u8>>>)
        ensures
            headers@.len() == self@.uncle.len(),
            forall|i: int|
                0 <= i < headers@.len() ==> bytes_of(#[trigger] headers@[i]) == raw_header(
                    self@.uncle[i],
                ),
    {
        let mut headers: Vec<Option<Vec<u8>>> = Vec::new();
        let mut i: usize = 0;
        while i < self.uncle.len()
            invariant
                i <= self.uncle@.len(),
                headers@.len() == i,
                forall|k: int|
                    0 <= k < i ==> bytes_of(#[trigger] headers@[k]) == raw_header(self@.uncle[k]),
            decreases self.uncle@.len() - i,
        {
            match HeaderInfo::from_slice(self.uncle[i].as_slice()) {
                Ok(info) => {
                    headers.push(Some(info.header));
                },
                Err(_) => {
                    headers.push(None);
                },
            }
            i += 1;
        }
        headers
    }

    /// The owner lock.
    pub fn owner_lock(&self) -> (lock: &Vec<u8>)
        ensures
            lock@ == self@.owner_lock,
    {
        &self.owner_lock
    }

    /// The entries of the main chain, oldest first.
    pub fn main(&self) -> (entries: &Vec<Vec<u8>>)
        ensures
            seqs(entries@) == self@.main,
    {
        &self.main
    }

    /// The entries of the uncle pool, oldest first.
    pub fn uncle(&self) -> (entries: &Vec<Vec<u8>>)
        ensures
            seqs(entries@) == self@.uncle,
    {
        &self.uncle
    }
}

} // verus!
