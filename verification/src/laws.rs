//! What holds of every accepted transition.
//!
//! The functions of this module are theorems: each states, over the
//! definitions that the contracts of the other modules use, something that
//! follows from the rules and that a user of the crate may rely on.

use vstd::prelude::*;
use crate::cell::cell_data;
use crate::cell::header_info;
use crate::cell::law_header_info_injective;
use crate::cell::CellData;
use crate::cell::HeaderInfoView;
use crate::entry::cells_of;
use crate::entry::proofs_of;
use crate::entry::verify_outcome;
use crate::entry::witness_outcome;
use crate::error::Error;
use crate::header::DecodedHeaders;
use crate::header::Header;
use crate::transition::fork_found;
use crate::transition::main_step;
use crate::transition::ring_appended;
use crate::transition::surviving_prefix;
use crate::transition::transition_of;
use crate::transition::uncle_parent;
use crate::transition::Transition;
use crate::transition::MAIN_HEADER_CACHE_LIMIT;
use crate::transition::UNCLE_HEADER_CACHE_LIMIT;
use crate::witness::is_witness;
use crate::witness::witness_of;

verus! {

/// How many of its oldest entries a cache of `len` entries gives up when one
/// entry is appended under the limit `limit`: one if it is full, none
/// otherwise.
pub open spec fn evicted(len: nat, limit: nat) -> int {
    if len == limit {
        1
    } else {
        0
    }
}

/// A cache that was appended to within its limit is the old cache without
/// what it gave up, followed by one new entry; and it gave up its oldest
/// entry exactly if it was full.
pub proof fn law_ring_discipline(before: Seq<Seq<u8>>, after: Seq<Seq<u8>>, limit: nat)
    requires
        ring_appended(before, after, limit),
        after.len() <= limit,
    ensures
        after.len() >= 1,
        before.len() <= limit,
        after == before.skip(evicted(before.len(), limit)).push(after.last()),
        after.len() == before.len() + 1 - evicted(before.len(), limit),
{
    let k = evicted(before.len(), limit);
    if before.len() == limit {
        assert(after.drop_last() == before.skip(1));
    } else {
        assert(before.skip(0) =~= before);
        assert(after.drop_last() == before.skip(0));
    }
    assert(after =~= after.drop_last().push(after.last()));
}

/// In an accepted transition both tips of the main chain are well-formed
/// entries.
pub proof fn law_tips_well_formed(
    input: CellData,
    output: CellData,
    header_raw: Seq<u8>,
    header: Header,
    decoded: DecodedHeaders,
)
    requires
        transition_of(input, output, header_raw, header, decoded) is Some,
    ensures
        input.main.len() > 0,
        input.uncle.len() > 0,
        output.main.len() > 0,
        output.uncle.len() > 0,
        header_info(input.main.last()) is Some,
        header_info(output.main.last()) is Some,
{
}

/// An extension appends the new header to the main chain and changes nothing
/// else. The main chain stays within its limit and is the old one, without
/// its oldest entry if it was full, followed by one entry; that entry carries
/// the new header, its hash, and a total difficulty that is the old tip's
/// plus the header's own. The uncle pool is unchanged.
pub proof fn law_extension(
    input: CellData,
    output: CellData,
    header_raw: Seq<u8>,
    header: Header,
    decoded: DecodedHeaders,
)
    requires
        transition_of(input, output, header_raw, header, decoded) == Some(Transition::Extension),
    ensures
        output.main.len() <= MAIN_HEADER_CACHE_LIMIT,
        output.main == input.main.skip(
            evicted(input.main.len(), MAIN_HEADER_CACHE_LIMIT as nat),
        ).push(output.main.last()),
        header_info(output.main.last()) == Some(
            (HeaderInfoView {
                header: header_raw,
                hash: header.hash@,
                total_difficulty: header_info(input.main.last())->0.total_difficulty
                    + header.difficulty_value(),
            }),
        ),
        output.uncle == input.uncle,
        decoded.main_tail matches Some(tail) && tail.hash@ == header.parent_hash@,
{
    law_ring_discipline(input.main, output.main, MAIN_HEADER_CACHE_LIMIT as nat);
}

/// An extension has one outcome. If two outputs are both extensions of one
/// input by one header, their caches are the same, byte for byte.
pub proof fn law_extension_unique(
    input: CellData,
    first: CellData,
    second: CellData,
    header_raw: Seq<u8>,
    header: Header,
    decoded: DecodedHeaders,
)
    requires
        transition_of(input, first, header_raw, header, decoded) == Some(Transition::Extension),
        transition_of(input, second, header_raw, header, decoded) == Some(Transition::Extension),
    ensures
        first.main == second.main,
        first.uncle == second.uncle,
{
    law_extension(input, first, header_raw, header, decoded);
    law_extension(input, second, header_raw, header, decoded);
    law_header_info_injective(first.main.last(), second.main.last());
}

/// An uncle is appended to the uncle pool and changes nothing else. The pool
/// stays within its limit and is the old one, without its oldest entry if it
/// was full, followed by one entry; that entry carries the new header and its
/// hash. The main chain is unchanged, and its tip does not carry the new
/// header.
pub proof fn law_uncle_append(
    input: CellData,
    output: CellData,
    header_raw: Seq<u8>,
    header: Header,
    decoded: DecodedHeaders,
)
    requires
        transition_of(input, output, header_raw, header, decoded) == Some(
            Transition::UncleAppend,
        ),
    ensures
        output.uncle.len() <= UNCLE_HEADER_CACHE_LIMIT,
        output.uncle == input.uncle.skip(
            evicted(input.uncle.len(), UNCLE_HEADER_CACHE_LIMIT as nat),
        ).push(output.uncle.last()),
        header_info(output.uncle.last()) matches Some(appended) && appended.header == header_raw
            && appended.hash == header.hash@,
        output.main == input.main,
        header_info(output.main.last())->0.header != header_raw,
{
    law_ring_discipline(input.uncle, output.uncle, UNCLE_HEADER_CACHE_LIMIT as nat);
}

/// An uncle append has one outcome but for the total difficulty that the
/// entry appended claims. If two outputs are both uncle appends of one input
/// by one header, their main chains are the same, their pools are the same
/// but for the last entry, and the last entries carry the same header and
/// hash.
pub proof fn law_uncle_append_unique(
    input: CellData,
    first: CellData,
    second: CellData,
    header_raw: Seq<u8>,
    header: Header,
    decoded: DecodedHeaders,
)
    requires
        transition_of(input, first, header_raw, header, decoded) == Some(Transition::UncleAppend),
        transition_of(input, second, header_raw, header, decoded) == Some(
            Transition::UncleAppend,
        ),
    ensures
        first.main == second.main,
        first.uncle.drop_last() == second.uncle.drop_last(),
        header_info(first.uncle.last())->0.header == header_info(second.uncle.last())->0.header,
        header_info(first.uncle.last())->0.hash == header_info(second.uncle.last())->0.hash,
        header_info(first.uncle.last())->0.total_difficulty == header_info(
            second.uncle.last(),
        )->0.total_difficulty ==> first.uncle == second.uncle,
{
    law_uncle_append(input, first, header_raw, header, decoded);
    law_uncle_append(input, second, header_raw, header, decoded);
    let k = evicted(input.uncle.len(), UNCLE_HEADER_CACHE_LIMIT as nat);
    assert(first.uncle.drop_last() =~= input.uncle.skip(k));
    assert(second.uncle.drop_last() =~= input.uncle.skip(k));
    if header_info(first.uncle.last())->0.total_difficulty == header_info(
        second.uncle.last(),
    )->0.total_difficulty {
        law_header_info_injective(first.uncle.last(), second.uncle.last());
    }
}

/// A walk that finds a fork point leaves the output's main chain, but for its
/// tip, equal to the entries of the input's main chain from index 1 up to
/// the fork point, which is a well-formed entry of that chain.
pub proof fn lemma_fork_point(
    in_main: Seq<Seq<u8>>,
    in_uncle: Seq<Seq<u8>>,
    decoded: DecodedHeaders,
    out_main: Seq<Seq<u8>>,
    tail_number: nat,
    number: nat,
    hash: Seq<u8>,
) -> (split: int)
    requires
        fork_found(in_main, in_uncle, decoded, out_main, tail_number, number, hash),
    ensures
        0 <= split < in_main.len(),
        header_info(in_main[split]) is Some,
        out_main.drop_last() == surviving_prefix(in_main, split),
    decreases number,
{
    match main_step(in_main, out_main, tail_number, number, hash) {
        Some(decided) => in_main.len() - 1 - (tail_number - number - 1),
        None => {
            let parent = uncle_parent(in_uncle, decoded, hash)->0;
            lemma_fork_point(
                in_main,
                in_uncle,
                decoded,
                out_main,
                tail_number,
                (number - 1) as nat,
                parent@,
            )
        },
    }
}

/// A reorganisation replaces the end of the main chain by the new header. The
/// total difficulty of the tip does not fall; the new tip carries the new
/// header and its hash; and the entries before it are entries of the old
/// chain, from index 1 up to a fork point.
pub proof fn law_reorg(
    input: CellData,
    output: CellData,
    header_raw: Seq<u8>,
    header: Header,
    decoded: DecodedHeaders,
) -> (split: int)
    requires
        transition_of(input, output, header_raw, header, decoded) == Some(Transition::Reorg),
    ensures
        header_info(output.main.last())->0.total_difficulty >= header_info(
            input.main.last(),
        )->0.total_difficulty,
        header_info(output.main.last())->0.header == header_raw,
        header_info(output.main.last())->0.hash == header.hash@,
        0 <= split < input.main.len(),
        output.main == surviving_prefix(input.main, split).push(output.main.last()),
        output.main.len() <= input.main.len(),
        decoded.main_tail matches Some(tail) && tail.hash@ != header.parent_hash@,
{
    let tail = decoded.main_tail->0;
    let split = lemma_fork_point(
        input.main,
        input.uncle,
        decoded,
        output.main,
        tail.number as nat,
        (header.number - 1) as nat,
        header.parent_hash@,
    );
    assert(output.main =~= output.main.drop_last().push(output.main.last()));
    split
}

/// The total difficulty of the main chain's tip never falls while the main
/// chain changes: it grows by the header's difficulty in an extension and
/// does not fall in a reorganisation. An uncle leaves the main chain alone.
pub proof fn law_total_difficulty(
    input: CellData,
    output: CellData,
    header_raw: Seq<u8>,
    header: Header,
    decoded: DecodedHeaders,
)
    requires
        transition_of(input, output, header_raw, header, decoded) is Some,
    ensures
        header_info(output.main.last())->0.total_difficulty >= header_info(
            input.main.last(),
        )->0.total_difficulty,
        transition_of(input, output, header_raw, header, decoded) == Some(Transition::Extension)
            ==> header_info(output.main.last())->0.total_difficulty == header_info(
            input.main.last(),
        )->0.total_difficulty + header.difficulty_value(),
{
    match transition_of(input, output, header_raw, header, decoded)->0 {
        Transition::Extension => {},
        Transition::Reorg => {},
        Transition::UncleAppend => {
            assert(output.main.last() == input.main.last());
        },
    }
}

/// Whether the entry `entry` is well formed and carries the hash that the
/// decoder `decode` computes for its header.
pub open spec fn hash_consistent(entry: Seq<u8>, decode: spec_fn(Seq<u8>) -> Option<Header>) -> bool {
    &&& header_info(entry) matches Some(info)
    &&& decode(info.header) matches Some(header)
    &&& header.hash@ == info.hash
}

/// Whether every entry of `cache` is well formed and carries the hash of its
/// header.
pub open spec fn all_hash_consistent(
    cache: Seq<Seq<u8>>,
    decode: spec_fn(Seq<u8>) -> Option<Header>,
) -> bool {
    forall|i: int| 0 <= i < cache.len() ==> hash_consistent(#[trigger] cache[i], decode)
}

/// An accepted transition keeps the hashes of the main chain right. If the
/// new header was decoded by `decode`, and every entry of the input's main
/// chain carries the hash that `decode` computes for its header, then so does
/// every entry of the output's main chain.
pub proof fn law_main_hashes(
    input: CellData,
    output: CellData,
    header_raw: Seq<u8>,
    header: Header,
    decoded: DecodedHeaders,
    decode: spec_fn(Seq<u8>) -> Option<Header>,
)
    requires
        transition_of(input, output, header_raw, header, decoded) is Some,
        decode(header_raw) == Some(header),
        all_hash_consistent(input.main, decode),
    ensures
        all_hash_consistent(output.main, decode),
{
    match transition_of(input, output, header_raw, header, decoded)->0 {
        Transition::Extension => {
            law_extension(input, output, header_raw, header, decoded);
            let k = evicted(input.main.len(), MAIN_HEADER_CACHE_LIMIT as nat);
            assert forall|i: int| 0 <= i < output.main.len() implies hash_consistent(
                #[trigger] output.main[i],
                decode,
            ) by {
                if i < output.main.len() - 1 {
                    assert(output.main[i] == input.main[i + k]);
                } else {
                    assert(output.main[i] == output.main.last());
                }
            }
        },
        Transition::Reorg => {
            let split = law_reorg(input, output, header_raw, header, decoded);
            assert forall|i: int| 0 <= i < output.main.len() implies hash_consistent(
                #[trigger] output.main[i],
                decode,
            ) by {
                if i < output.main.len() - 1 {
                    assert(output.main[i] == input.main[i + 1]);
                } else {
                    assert(output.main[i] == output.main.last());
                }
            }
        },
        Transition::UncleAppend => {},
    }
}

/// An extension and an uncle append keep the hashes of the uncle pool right.
/// If the new header was decoded by `decode`, and every entry of the input's
/// uncle pool carries the hash that `decode` computes for its header, then so
/// does every entry of the output's uncle pool. A reorganisation leaves the
/// pool free, so nothing is claimed of it there.
pub proof fn law_uncle_hashes(
    input: CellData,
    output: CellData,
    header_raw: Seq<u8>,
    header: Header,
    decoded: DecodedHeaders,
    decode: spec_fn(Seq<u8>) -> Option<Header>,
)
    requires
        transition_of(input, output, header_raw, header, decoded) is Some,
        transition_of(input, output, header_raw, header, decoded) != Some(Transition::Reorg),
        decode(header_raw) == Some(header),
        all_hash_consistent(input.uncle, decode),
    ensures
        all_hash_consistent(output.uncle, decode),
{
    match transition_of(input, output, header_raw, header, decoded)->0 {
        Transition::Extension => {},
        Transition::Reorg => {},
        Transition::UncleAppend => {
            law_uncle_append(input, output, header_raw, header, decoded);
            let k = evicted(input.uncle.len(), UNCLE_HEADER_CACHE_LIMIT as nat);
            assert forall|i: int| 0 <= i < output.uncle.len() implies hash_consistent(
                #[trigger] output.uncle[i],
                decode,
            ) by {
                if i < output.uncle.len() - 1 {
                    assert(output.uncle[i] == input.uncle[i + k]);
                } else {
                    assert(output.uncle[i] == output.uncle.last());
                }
            }
        },
    }
}

/// An accepted transition that is no reorganisation keeps the hashes of both
/// caches right: if the new header was decoded by `decode`, and every entry
/// of the input carries the hash that `decode` computes for its header, then
/// so does every entry of the output.
pub proof fn law_hash_consistency(
    input: CellData,
    output: CellData,
    header_raw: Seq<u8>,
    header: Header,
    decoded: DecodedHeaders,
    decode: spec_fn(Seq<u8>) -> Option<Header>,
)
    requires
        transition_of(input, output, header_raw, header, decoded) is Some,
        transition_of(input, output, header_raw, header, decoded) != Some(Transition::Reorg),
        decode(header_raw) == Some(header),
        all_hash_consistent(input.main, decode),
        all_hash_consistent(input.uncle, decode),
    ensures
        all_hash_consistent(output.main, decode),
        all_hash_consistent(output.uncle, decode),
{
    law_main_hashes(input, output, header_raw, header, decoded, decode);
    law_uncle_hashes(input, output, header_raw, header, decoded, decode);
}

/// The owner lock survives every transition that passes the checks.
pub proof fn law_owner_lock_preserved(
    input_cells: Seq<Seq<u8>>,
    output_cells: Seq<Seq<u8>>,
    witness_bytes: Option<Seq<u8>>,
    header: Option<Header>,
    decoded: DecodedHeaders,
)
    requires
        verify_outcome(input_cells, output_cells, witness_bytes, header, decoded) is Ok,
    ensures
        cells_of(input_cells, output_cells) matches Ok((input, output)) && output.owner_lock
            == input.owner_lock,
{
}

/// Nothing malformed passes the checks. Where they pass, each group holds
/// exactly one cell with a well-formed payload, the witness is there and well
/// formed, its header was decoded, every proof in it is well formed, it names
/// exactly one cell for the roots, and the rules allow the change of the
/// caches; and what is handed on is the kind of the change, the cell named,
/// the height of the new header, and the proofs decoded.
pub proof fn law_accepted_is_well_formed(
    input_cells: Seq<Seq<u8>>,
    output_cells: Seq<Seq<u8>>,
    witness_bytes: Option<Seq<u8>>,
    header: Option<Header>,
    decoded: DecodedHeaders,
)
    requires
        verify_outcome(input_cells, output_cells, witness_bytes, header, decoded) is Ok,
    ensures
        input_cells.len() == 1 && cell_data(input_cells[0]) is Some,
        output_cells.len() == 1 && cell_data(output_cells[0]) is Some,
        witness_bytes is Some && is_witness(witness_bytes->0),
        header is Some,
        proofs_of(witness_of(witness_bytes->0).merkle_proof) is Some,
        witness_of(witness_bytes->0).cell_dep_index_list.len() == 1,
        transition_of(
            cell_data(input_cells[0])->0,
            cell_data(output_cells[0])->0,
            witness_of(witness_bytes->0).header,
            header->0,
            decoded,
        ) is Some,
        verify_outcome(input_cells, output_cells, witness_bytes, header, decoded)->Ok_0.transition
            == transition_of(
            cell_data(input_cells[0])->0,
            cell_data(output_cells[0])->0,
            witness_of(witness_bytes->0).header,
            header->0,
            decoded,
        )->0,
        verify_outcome(input_cells, output_cells, witness_bytes, header, decoded)->Ok_0.number
            == header->0.number,
        verify_outcome(
            input_cells,
            output_cells,
            witness_bytes,
            header,
            decoded,
        )->Ok_0.cell_dep_index == witness_of(witness_bytes->0).cell_dep_index_list[0],
        verify_outcome(input_cells, output_cells, witness_bytes, header, decoded)->Ok_0.proofs
            == proofs_of(witness_of(witness_bytes->0).merkle_proof)->0,
{
    reveal(witness_outcome);
}

} // verus!
