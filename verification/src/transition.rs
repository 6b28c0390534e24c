//! The rules by which the header caches may change.
//!
//! One transition brings one new header. If the last entry of the output's
//! main chain carries that header, the header claims a place on the main
//! chain: as the child of the previous tip (an extension), or of an older
//! ancestor (a reorganisation). Otherwise the transition is taken to put the
//! header aside in the uncle pool. Each of the three has its own rule for
//! what the caches may look like afterwards; [`transition_of`] says which
//! rule applies and whether it is kept, and [`verify_input_output_data`]
//! computes it.
//!
//! One thing about the walk back from a reorganising header is worth
//! knowing. For an ancestor at height `n` it consults the entry of the main
//! chain that lies `tip - n - 1` places before the tip, and it lowers the
//! height by one for every uncle it passes, whatever the height of that
//! uncle.

use vstd::prelude::*;
use crate::bytes::bytes_eq;
use crate::cell::header_info;
use crate::cell::CellData;
use crate::cell::CellDataView;
use crate::cell::HeaderInfo;
use crate::cell::HeaderInfoView;
use crate::error::Error;
use crate::header::DecodedHeaders;
use crate::header::Header;
use crate::layout::seqs;

verus! {

/// The most entries that the main chain may hold.
pub const MAIN_HEADER_CACHE_LIMIT: usize = 500;

/// The most entries that the uncle pool may hold.
pub const UNCLE_HEADER_CACHE_LIMIT: usize = 500;

/// What an accepted transition did with the new header.
#[derive(Clone, Copy, Debug, PartialEq, Eq, Structural)]
pub enum Transition {
    /// The header was appended to the main chain as the child of its tip.
    Extension,
    /// The header became the tip of the main chain in place of the entries
    /// from a fork point on.
    Reorg,
    /// The main chain was left alone and the header was appended to the uncle
    /// pool.
    UncleAppend,
}

/// Whether `after` is `before` with one entry appended, where a cache that
/// was full at `limit` entries has dropped its oldest entry to make room.
/// Nothing is said here about the appended entry itself.
pub open spec fn ring_appended(before: Seq<Seq<u8>>, after: Seq<Seq<u8>>, limit: nat) -> bool {
    ||| {
        &&& before.len() == after.len()
        &&& after.len() == limit
        &&& after.len() > 0
        &&& before.skip(1) == after.drop_last()
    }
    ||| {
        &&& before.len() < after.len()
        &&& before == after.drop_last()
    }
}

/// The entries of `main` that a reorganisation keeps when the fork point is
/// found at index `split`: those from index 1 up to, and not including,
/// `split`. The oldest entry is always given up.
pub open spec fn surviving_prefix(main: Seq<Seq<u8>>, split: int) -> Seq<Seq<u8>> {
    if 1 <= split <= main.len() {
        main.subrange(1, split)
    } else {
        Seq::empty()
    }
}

/// Whether entry `i` of the uncle pool is the one that a search for `hash`
/// stops at. The search goes from the newest entry towards the oldest, never
/// looks at the entry at index 0, and needs every entry that it passes to be
/// well formed.
pub open spec fn uncle_hit(uncle: Seq<Seq<u8>>, hash: Seq<u8>, i: int) -> bool {
    &&& 1 <= i < uncle.len()
    &&& header_info(uncle[i]) matches Some(info) && info.hash == hash
    &&& forall|j: int|
        i < j < uncle.len() ==> (#[trigger] header_info(uncle[j]) matches Some(info) && info.hash
            != hash)
}

/// The parent of the uncle whose hash is `hash`: the parent hash of the
/// decoded header of the entry that the search stops at. `None` if the search
/// finds no entry, or if the header of the entry found was not decoded.
pub open spec fn uncle_parent(uncle: Seq<Seq<u8>>, decoded: DecodedHeaders, hash: Seq<u8>) -> Option<
    [u8; 32],
> {
    if exists|i: int| uncle_hit(uncle, hash, i) {
        match decoded.uncle(choose|i: int| uncle_hit(uncle, hash, i)) {
            Some(header) => Some(header.parent_hash),
            None => None,
        }
    } else {
        None
    }
}

/// One step of the walk through the uncle pool from the hash `hash` at
/// height `number`: the hash of the parent of the uncle found, and the height
/// below. `None` if there is no such uncle, if its header was not decoded,
/// or if there is no height below.
pub open spec fn uncle_step(
    uncle: Seq<Seq<u8>>,
    decoded: DecodedHeaders,
    hash: Seq<u8>,
    number: u64,
) -> Option<([u8; 32], u64)> {
    match uncle_parent(uncle, decoded, hash) {
        Some(parent) => if number > 0 {
            Some((parent, (number - 1) as u64))
        } else {
            None
        },
        None => None,
    }
}

/// What the main chain of the input says of an ancestor sought at height
/// `number` with hash `hash`. `Some(true)`: the fork point is found and the
/// output keeps what it must. `Some(false)`: the search fails here. `None`:
/// the main chain does not decide, and the search goes on among the uncles.
///
/// The entry consulted lies `tail_number - number - 1` places before the tip.
pub open spec fn main_step(
    in_main: Seq<Seq<u8>>,
    out_main: Seq<Seq<u8>>,
    tail_number: nat,
    number: nat,
    hash: Seq<u8>,
) -> Option<bool> {
    if tail_number <= number {
        None
    } else if tail_number - number - 1 >= in_main.len() {
        Some(false)
    } else {
        let split = in_main.len() - 1 - (tail_number - number - 1);
        match header_info(in_main[split]) {
            None => Some(false),
            Some(candidate) => if candidate.hash == hash {
                Some(surviving_prefix(in_main, split) == out_main.drop_last())
            } else {
                None
            },
        }
    }
}

/// Whether the walk back from height `number` and hash `hash` reaches a fork
/// point on the input's main chain for which the output keeps what it must.
/// Each step through the uncle pool lowers the height by one, whatever the
/// height of the uncle found; at height 0 the walk has failed.
pub open spec fn fork_found(
    in_main: Seq<Seq<u8>>,
    in_uncle: Seq<Seq<u8>>,
    decoded: DecodedHeaders,
    out_main: Seq<Seq<u8>>,
    tail_number: nat,
    number: nat,
    hash: Seq<u8>,
) -> bool
    decreases number,
{
    if number == 0 {
        false
    } else {
        match main_step(in_main, out_main, tail_number, number, hash) {
            Some(decided) => decided,
            None => match uncle_parent(in_uncle, decoded, hash) {
                Some(parent) => fork_found(
                    in_main,
                    in_uncle,
                    decoded,
                    out_main,
                    tail_number,
                    (number - 1) as nat,
                    parent@,
                ),
                None => false,
            },
        }
    }
}

/// The rule for an extension: the total difficulty grows by the header's own
/// difficulty, the main chain is appended to within its limit, and the uncle
/// pool stays as it is.
pub open spec fn extension_ok(
    input: CellData,
    output: CellData,
    header: Header,
    in_tail: HeaderInfoView,
    out_tail: HeaderInfoView,
) -> bool {
    &&& out_tail.total_difficulty == in_tail.total_difficulty + header.difficulty_value()
    &&& output.main.len() <= MAIN_HEADER_CACHE_LIMIT
    &&& ring_appended(input.main, output.main, MAIN_HEADER_CACHE_LIMIT as nat)
    &&& output.uncle == input.uncle
}

/// The rule for a reorganisation: the total difficulty does not fall, and the
/// walk back from the header's parent reaches a fork point on the input's main
/// chain. The uncle pool is free to change.
pub open spec fn reorg_ok(
    input: CellData,
    output: CellData,
    header: Header,
    decoded: DecodedHeaders,
    tail: Header,
    in_tail: HeaderInfoView,
    out_tail: HeaderInfoView,
) -> bool {
    &&& out_tail.total_difficulty >= in_tail.total_difficulty
    &&& header.number >= 1
    &&& fork_found(
        input.main,
        input.uncle,
        decoded,
        output.main,
        tail.number as nat,
        (header.number - 1) as nat,
        header.parent_hash@,
    )
}

/// Whether the entry `entry` is well formed and carries the header
/// `header_raw` and the hash of its decoded form `header`.
pub open spec fn carries_header(entry: Seq<u8>, header_raw: Seq<u8>, header: Header) -> bool {
    &&& header_info(entry) matches Some(info)
    &&& info.header == header_raw
    &&& info.hash == header.hash@
}

/// The rule for an uncle: the uncle pool is appended to within its limit, the
/// entry appended carries the new header and its hash, and the main chain
/// stays as it is. Nothing is asked of the total difficulty of the entry
/// appended, since the chain that the uncle stands on is not known.
pub open spec fn uncle_append_ok(
    input: CellData,
    output: CellData,
    header_raw: Seq<u8>,
    header: Header,
) -> bool {
    &&& output.uncle.len() <= UNCLE_HEADER_CACHE_LIMIT
    &&& ring_appended(input.uncle, output.uncle, UNCLE_HEADER_CACHE_LIMIT as nat)
    &&& output.uncle.len() > 0
    &&& carries_header(output.uncle.last(), header_raw, header)
    &&& output.main == input.main
}

/// What a change from `input` to `output` that brings the header
/// `header_raw`, decoded as `header`, amounts to; `None` if the rules do not
/// allow it.
///
/// All four caches must be non-empty and both tips well formed. The header
/// claims the main chain if the output's tip carries its bytes; the tip must
/// then carry its hash too, and the input's tip must have been decoded. It
/// extends the chain if its parent hash is the hash of the input's decoded
/// tip, and reorganises it otherwise. A header that does not claim the main
/// chain must have been appended to the uncle pool.
pub open spec fn transition_of(
    input: CellData,
    output: CellData,
    header_raw: Seq<u8>,
    header: Header,
    decoded: DecodedHeaders,
) -> Option<Transition> {
    if input.main.len() == 0 || input.uncle.len() == 0 || output.main.len() == 0
        || output.uncle.len() == 0 {
        None
    } else {
        match (header_info(input.main.last()), header_info(output.main.last())) {
            (Some(in_tail), Some(out_tail)) => {
                if out_tail.header != header_raw {
                    if uncle_append_ok(input, output, header_raw, header) {
                        Some(Transition::UncleAppend)
                    } else {
                        None
                    }
                } else if out_tail.hash != header.hash@ {
                    None
                } else {
                    match decoded.main_tail {
                        None => None,
                        Some(tail) => {
                            if tail.hash@ == header.parent_hash@ {
                                if extension_ok(input, output, header, in_tail, out_tail) {
                                    Some(Transition::Extension)
                                } else {
                                    None
                                }
                            } else {
                                if reorg_ok(
                                    input,
                                    output,
                                    header,
                                    decoded,
                                    tail,
                                    in_tail,
                                    out_tail,
                                ) {
                                    Some(Transition::Reorg)
                                } else {
                                    None
                                }
                            }
                        },
                    }
                }
            },
            _ => None,
        }
    }
}

/// Whether the entries `a[a_from..a_to]` are the entries `b[b_from..b_to]`,
/// byte for byte.
fn entries_eq(
    a: &Vec<Vec<u8>>,
    a_from: usize,
    a_to: usize,
    b: &Vec<Vec<u8>>,
    b_from: usize,
    b_to: usize,
) -> (same: bool)
    requires
        a_from <= a_to <= a@.len(),
        b_from <= b_to <= b@.len(),
    ensures
        same == (seqs(a@).subrange(a_from as int, a_to as int) == seqs(b@).subrange(
            b_from as int,
            b_to as int,
        )),
{
    let ghost left = seqs(a@).subrange(a_from as int, a_to as int);
    let ghost right = seqs(b@).subrange(b_from as int, b_to as int);
    if a_to - a_from != b_to - b_from {
        assert(left.len() != right.len());
        return false;
    }
    let count: usize = a_to - a_from;
    let mut i: usize = 0;
    while i < count
        invariant
            a_from <= a_to <= a@.len(),
            b_from <= b_to <= b@.len(),
            count == a_to - a_from,
            count == b_to - b_from,
            i <= count,
            left == seqs(a@).subrange(a_from as int, a_to as int),
            right == seqs(b@).subrange(b_from as int, b_to as int),
            forall|k: int| 0 <= k < i ==> left[k] == right[k],
        decreases count - i,
    {
        if !bytes_eq(a[a_from + i].as_slice(), b[b_from + i].as_slice()) {
            assert(left[i as int] != right[i as int]);
            return false;
        }
        i += 1;
    }
    assert(left =~= right);
    true
}

/// Checks that `output` is `input` with one entry appended, where a cache
/// that was full at `limit` entries has dropped its oldest entry. Fails with
/// `InvalidCellData` otherwise.
pub fn verify_original_chain_data(input: &Vec<Vec<u8>>, output: &Vec<Vec<u8>>, limit: usize) -> (checked:
    Result<(), Error>)
    ensures
        checked is Ok <==> ring_appended(seqs(input@), seqs(output@), limit as nat),
        checked matches Err(e) ==> e == Error::InvalidCellData,
{
    let ghost before = seqs(input@);
    let ghost after = seqs(output@);
    if input.len() == output.len() && output.len() == limit {
        if output.len() == 0 {
            return Err(Error::InvalidCellData);
        }
        assert(before.skip(1) == before.subrange(1, before.len() as int));
        assert(after.drop_last() == after.subrange(0, after.len() - 1));
        if entries_eq(input, 1, input.len(), output, 0, output.len() - 1) {
            Ok(())
        } else {
            Err(Error::InvalidCellData)
        }
    } else if input.len() < output.len() {
        assert(before =~= before.subrange(0, before.len() as int));
        assert(after.drop_last() == after.subrange(0, after.len() - 1));
        if entries_eq(input, 0, input.len(), output, 0, output.len() - 1) {
            Ok(())
        } else {
            Err(Error::InvalidCellData)
        }
    } else {
        Err(Error::InvalidCellData)
    }
}

/// Two entries cannot both be the one that a search stops at.
pub proof fn lemma_uncle_hit_unique(uncle: Seq<Seq<u8>>, hash: Seq<u8>, i: int, j: int)
    requires
        uncle_hit(uncle, hash, i),
        uncle_hit(uncle, hash, j),
    ensures
        i == j,
{
    if i < j {
        assert(header_info(uncle[j]) matches Some(info) && info.hash != hash);
    } else if j < i {
        assert(header_info(uncle[i]) matches Some(info) && info.hash != hash);
    }
}

/// Takes one step of the walk through the uncle pool: looks for the uncle
/// whose hash is `current_hash`, and on finding it replaces `current_hash` by
/// the hash of its parent and lowers `number` by one.
///
/// Fails with `InvalidCellData`, and changes nothing, if no uncle is found, if
/// the header of the uncle found was not decoded, or if `number` is already 0.
pub fn traverse_uncle_chain(
    uncle: &Vec<Vec<u8>>,
    decoded: &DecodedHeaders,
    current_hash: &mut [u8; 32],
    number: &mut u64,
) -> (stepped: Result<(), Error>)
    ensures
        stepped is Ok <==> uncle_step(seqs(uncle@), *decoded, old(current_hash)@, *old(number))
            is Some,
        stepped is Ok ==> uncle_step(seqs(uncle@), *decoded, old(current_hash)@, *old(number))
            == Some((*final(current_hash), *final(number))),
        stepped matches Err(e) ==> e == Error::InvalidCellData,
        stepped is Err ==> *final(current_hash) == *old(current_hash),
        stepped is Err ==> *final(number) == *old(number),
{
    let ghost pool = seqs(uncle@);
    let ghost sought = current_hash@;
    if uncle.len() == 0 {
        return Err(Error::InvalidCellData);
    }
    let mut index: usize = uncle.len() - 1;
    loop
        invariant
            pool == seqs(uncle@),
            sought == current_hash@,
            *current_hash == *old(current_hash),
            *number == *old(number),
            index < uncle@.len(),
            forall|j: int|
                index < j < pool.len() ==> (#[trigger] header_info(pool[j]) matches Some(info)
                    && info.hash != sought),
        decreases index,
    {
        if index == 0 {
            assert forall|i: int| !uncle_hit(pool, sought, i) by {
                if uncle_hit(pool, sought, i) {
                    assert(header_info(pool[i]) matches Some(info) && info.hash != sought);
                }
            }
            return Err(Error::InvalidCellData);
        }
        let info: HeaderInfo = match HeaderInfo::from_slice(uncle[index].as_slice()) {
            Ok(info) => info,
            Err(_) => {
                assert forall|i: int| !uncle_hit(pool, sought, i) by {
                    if uncle_hit(pool, sought, i) {
                        if i < index {
                            assert(header_info(pool[index as int]) is Some);
                        } else if i > index {
                            assert(header_info(pool[i]) matches Some(info) && info.hash != sought);
                        }
                    }
                }
                return Err(Error::InvalidCellData);
            },
        };
        if bytes_eq(info.hash.as_slice(), current_hash.as_slice()) {
            proof {
                assert(uncle_hit(pool, sought, index as int));
                let chosen = choose|i: int| uncle_hit(pool, sought, i);
                lemma_uncle_hit_unique(pool, sought, chosen, index as int);
            }
            match decoded.get_uncle(index) {
                Some(header) => {
                    if *number == 0 {
                        return Err(Error::InvalidCellData);
                    }
                    *number = *number - 1;
                    *current_hash = header.parent_hash;
                    return Ok(());
                },
                None => {
                    return Err(Error::InvalidCellData);
                },
            }
        }
        index -= 1;
    }
}

/// Consults the input's main chain about an ancestor sought at height
/// `number` with hash `hash`: whether the fork point is found and the output
/// keeps what it must, whether the search fails here, or whether the main
/// chain does not decide.
fn check_main(
    input: &CellDataView,
    output: &CellDataView,
    tail_number: u64,
    number: u64,
    hash: &[u8; 32],
) -> (decided: Option<bool>)
    requires
        output@.main.len() > 0,
    ensures
        decided == main_step(
            input@.main,
            output@.main,
            tail_number as nat,
            number as nat,
            hash@,
        ),
{
    if tail_number <= number {
        return None;
    }
    let main_len: usize = input.main.len();
    let offset: u64 = tail_number - number - 1;
    if offset >= main_len as u64 {
        return Some(false);
    }
    let split: usize = main_len - 1 - offset as usize;
    let candidate: HeaderInfo = match HeaderInfo::from_slice(input.main[split].as_slice()) {
        Ok(candidate) => candidate,
        Err(_) => {
            return Some(false);
        },
    };
    if !bytes_eq(candidate.hash.as_slice(), hash.as_slice()) {
        return None;
    }
    let ghost kept = surviving_prefix(input@.main, split as int);
    let ghost rest = output@.main.drop_last();
    assert(rest == seqs(output.main@).subrange(0, output.main@.len() - 1));
    if split >= 1 {
        Some(entries_eq(&input.main, 1, split, &output.main, 0, output.main.len() - 1))
    } else {
        assert(kept.len() == 0);
        assert(rest.len() == 0 ==> kept =~= rest);
        Some(output.main.len() == 1)
    }
}

/// Walks back from the parent of `header` until a fork point on the input's
/// main chain is found, and checks that the output keeps what it must.
fn find_fork(
    input: &CellDataView,
    output: &CellDataView,
    header: &Header,
    decoded: &DecodedHeaders,
    tail: &Header,
) -> (found: bool)
    requires
        header.number >= 1,
        output@.main.len() > 0,
    ensures
        found == fork_found(
            input@.main,
            input@.uncle,
            *decoded,
            output@.main,
            tail.number as nat,
            (header.number - 1) as nat,
            header.parent_hash@,
        ),
{
    let mut number: u64 = header.number - 1;
    let mut current_hash: [u8; 32] = header.parent_hash;
    loop
        invariant
            header.number >= 1,
            output@.main.len() > 0,
            fork_found(
                input@.main,
                input@.uncle,
                *decoded,
                output@.main,
                tail.number as nat,
                (header.number - 1) as nat,
                header.parent_hash@,
            ) == fork_found(
                input@.main,
                input@.uncle,
                *decoded,
                output@.main,
                tail.number as nat,
                number as nat,
                current_hash@,
            ),
        decreases number,
    {
        if number == 0 {
            return false;
        }
        match check_main(input, output, tail.number, number, &current_hash) {
            Some(decided) => {
                return decided;
            },
            None => {},
        }
        match traverse_uncle_chain(&input.uncle, decoded, &mut current_hash, &mut number) {
            Ok(_) => {},
            Err(_) => {
                return false;
            },
        }
    }
}

/// Checks the rule for an extension: that the total difficulty grew by the
/// header's own difficulty, that the main chain was appended to within its
/// limit, and that the uncle pool was left alone.
fn check_extension(
    input: &CellDataView,
    output: &CellDataView,
    header: &Header,
    in_tail: &HeaderInfo,
    out_tail: &HeaderInfo,
) -> (kept: bool)
    ensures
        kept == extension_ok(input@, output@, *header, in_tail@, out_tail@),
{
    let grown: u64 = match header.difficulty_u64() {
        Some(own) => match in_tail.total_difficulty.checked_add(own) {
            Some(grown) => grown,
            None => {
                return false;
            },
        },
        None => {
            return false;
        },
    };
    if out_tail.total_difficulty != grown {
        return false;
    }
    if output.main.len() > MAIN_HEADER_CACHE_LIMIT {
        return false;
    }
    match verify_original_chain_data(&input.main, &output.main, MAIN_HEADER_CACHE_LIMIT) {
        Ok(_) => {},
        Err(_) => {
            return false;
        },
    }
    assert(input@.uncle == seqs(input.uncle@).subrange(0, input.uncle@.len() as int));
    assert(output@.uncle == seqs(output.uncle@).subrange(0, output.uncle@.len() as int));
    entries_eq(&output.uncle, 0, output.uncle.len(), &input.uncle, 0, input.uncle.len())
}

/// Checks the rule for an uncle: that the uncle pool was appended to within
/// its limit, that the entry appended carries the new header and its hash,
/// and that the main chain was left alone.
fn check_uncle_append(
    input: &CellDataView,
    output: &CellDataView,
    header_raw: &[u8],
    header: &Header,
) -> (kept: bool)
    ensures
        kept == uncle_append_ok(input@, output@, header_raw@, *header),
{
    if output.uncle.len() == 0 || output.uncle.len() > UNCLE_HEADER_CACHE_LIMIT {
        return false;
    }
    match verify_original_chain_data(&input.uncle, &output.uncle, UNCLE_HEADER_CACHE_LIMIT) {
        Ok(_) => {},
        Err(_) => {
            return false;
        },
    }
    let appended: HeaderInfo = match HeaderInfo::from_slice(
        output.uncle[output.uncle.len() - 1].as_slice(),
    ) {
        Ok(info) => info,
        Err(_) => {
            return false;
        },
    };
    if !bytes_eq(appended.header.as_slice(), header_raw) {
        return false;
    }
    if !bytes_eq(appended.hash.as_slice(), header.hash.as_slice()) {
        return false;
    }
    assert(input@.main == seqs(input.main@).subrange(0, input.main@.len() as int));
    assert(output@.main == seqs(output.main@).subrange(0, output.main@.len() as int));
    entries_eq(&output.main, 0, output.main.len(), &input.main, 0, input.main.len())
}

/// Decides whether the change from `input` to `output` is allowed for the
/// new header `header_raw`, whose decoded form is `header`, and says what the
/// change amounts to. `decoded` holds the decoded headers of `input`.
///
/// Returns the kind of transition if the rules allow the change, and
/// `InvalidCellData` if they do not.
pub fn verify_input_output_data(
    input: &CellDataView,
    output: &CellDataView,
    header_raw: &[u8],
    header: &Header,
    decoded: &DecodedHeaders,
) -> (verdict: Result<Transition, Error>)
    ensures
        verdict matches Ok(transition) ==> transition_of(
            input@,
            output@,
            header_raw@,
            *header,
            *decoded,
        ) == Some(transition),
        verdict matches Err(e) ==> e == Error::InvalidCellData && transition_of(
            input@,
            output@,
            header_raw@,
            *header,
            *decoded,
        ) is None,
{
    if input.main.len() == 0 || input.uncle.len() == 0 || output.main.len() == 0
        || output.uncle.len() == 0 {
        return Err(Error::InvalidCellData);
    }
    let in_tail: HeaderInfo = match HeaderInfo::from_slice(
        input.main[input.main.len() - 1].as_slice(),
    ) {
        Ok(info) => info,
        Err(e) => {
            return Err(Error::InvalidCellData);
        },
    };
    let out_tail: HeaderInfo = match HeaderInfo::from_slice(
        output.main[output.main.len() - 1].as_slice(),
    ) {
        Ok(info) => info,
        Err(e) => {
            return Err(Error::InvalidCellData);
        },
    };
    if !bytes_eq(out_tail.header.as_slice(), header_raw) {
        if check_uncle_append(input, output, header_raw, header) {
            return Ok(Transition::UncleAppend);
        } else {
            return Err(Error::InvalidCellData);
        }
    }
    if !bytes_eq(out_tail.hash.as_slice(), header.hash.as_slice()) {
        return Err(Error::InvalidCellData);
    }
    let tail: Header = match decoded.main_tail {
        Some(tail) => tail,
        None => {
            return Err(Error::InvalidCellData);
        },
    };
    if bytes_eq(tail.hash.as_slice(), header.parent_hash.as_slice()) {
        if check_extension(input, output, header, &in_tail, &out_tail) {
            Ok(Transition::Extension)
        } else {
            Err(Error::InvalidCellData)
        }
    } else {
        if out_tail.total_difficulty < in_tail.total_difficulty {
            return Err(Error::InvalidCellData);
        }
        if header.number == 0 {
            return Err(Error::InvalidCellData);
        }
        if find_fork(input, output, header, decoded, &tail) {
            Ok(Transition::Reorg)
        } else {
            Err(Error::InvalidCellData)
        }
    }
}

} // verus!
