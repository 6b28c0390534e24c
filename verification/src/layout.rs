//! The wire layout of the payloads.
//!
//! The payloads are written in the Molecule serialisation format. Of its
//! shapes they use two. A *byte string* is a 32-bit count
//! followed by that many bytes. A *frame* holds a number of items of varying
//! size: a 32-bit total size, one 32-bit offset for each item, then the items
//! back to back. Every number is written least significant byte first. A table
//! is a frame with a fixed number of items; a vector of byte strings is a
//! frame whose items are all byte strings.
//!
//! The format leaves no choice in how a value is written: a well-formed
//! frame is determined by its items, as [`law_frame_injective`] shows. Two
//! caches that hold the same entries are therefore the same bytes.

use vstd::prelude::*;
use vstd::slice::slice_subrange;
use vstd::slice::slice_to_vec;
use crate::bytes::le_u32;
use crate::bytes::lemma_le_u32_injective;
use crate::bytes::unpack_number;

verus! {

/// Whether `s` is a well-formed byte string: a count and exactly that many
/// bytes behind it.
pub open spec fn is_bytes(s: Seq<u8>) -> bool {
    s.len() >= 4 && s.len() == 4 + le_u32(s)
}

/// What a byte string holds.
pub open spec fn bytes_content(s: Seq<u8>) -> Seq<u8> {
    s.skip(4)
}

/// The offset of the first item, which is also the size of the frame's
/// header.
pub open spec fn first_offset(s: Seq<u8>) -> nat {
    le_u32(s.skip(4))
}

/// How many items a frame holds.
pub open spec fn item_count(s: Seq<u8>) -> nat {
    if s.len() < 8 {
        0
    } else {
        (first_offset(s) / 4 - 1) as nat
    }
}

/// Where item `i` begins.
pub open spec fn item_start(s: Seq<u8>, i: int) -> nat {
    le_u32(s.skip(4 + 4 * i))
}

/// Where item `i` ends: at the start of the next item, or at the end of the
/// frame.
pub open spec fn item_end(s: Seq<u8>, i: int) -> nat {
    if i + 1 < item_count(s) {
        item_start(s, i + 1)
    } else {
        s.len()
    }
}

/// Whether `s` is a well-formed frame: its total size is its length, its
/// header has room for the offsets it announces, and no item ends before it
/// begins.
pub open spec fn is_frame(s: Seq<u8>) -> bool {
    &&& s.len() >= 4
    &&& le_u32(s) == s.len()
    &&& s.len() != 4 ==> {
        &&& s.len() >= 8
        &&& first_offset(s) % 4 == 0
        &&& 8 <= first_offset(s) <= s.len()
        &&& forall|i: int| 0 <= i < item_count(s) ==> item_start(s, i) <= #[trigger] item_end(s, i)
    }
}

/// Item `i` of a frame.
pub open spec fn item(s: Seq<u8>, i: int) -> Seq<u8> {
    s.subrange(item_start(s, i) as int, item_end(s, i) as int)
}

/// Whether `s` is a table of `n` items.
pub open spec fn is_table(s: Seq<u8>, n: nat) -> bool {
    is_frame(s) && item_count(s) == n
}

/// Whether `s` is a vector of byte strings.
pub open spec fn is_bytes_vec(s: Seq<u8>) -> bool {
    is_frame(s) && forall|i: int| 0 <= i < item_count(s) ==> is_bytes(#[trigger] item(s, i))
}

/// What a vector of byte strings holds.
pub open spec fn bytes_vec_content(s: Seq<u8>) -> Seq<Seq<u8>> {
    Seq::new(item_count(s), |i: int| bytes_content(item(s, i)))
}

/// The byte strings that the vectors of `v` stand for.
pub open spec fn seqs(v: Seq<Vec<u8>>) -> Seq<Seq<u8>> {
    Seq::new(v.len(), |i: int| v[i]@)
}

/// Whether `bounds` lists where the items of the frame `s` begin, and last
/// where the frame ends.
pub open spec fn bounds_of(bounds: Seq<usize>, s: Seq<u8>) -> bool {
    &&& bounds.len() == item_count(s) + 1
    &&& forall|i: int| 0 <= i < item_count(s) ==> bounds[i] == item_start(s, i)
    &&& bounds[item_count(s) as int] == s.len()
    &&& forall|i: int| 0 <= i < item_count(s) ==> bounds[i] <= #[trigger] bounds[i + 1]
    &&& forall|i: int| 0 <= i <= item_count(s) ==> #[trigger] bounds[i] <= s.len()
}

/// In a well-formed frame every item lies between two neighbouring bounds.
pub proof fn lemma_item_between_bounds(bounds: Seq<usize>, s: Seq<u8>, i: int)
    requires
        bounds_of(bounds, s),
        0 <= i < item_count(s),
    ensures
        item(s, i) == s.subrange(bounds[i] as int, bounds[i + 1] as int),
        0 <= bounds[i] <= bounds[i + 1] <= s.len(),
{
    assert(bounds[i + 1] <= s.len());
    if i + 1 < item_count(s) {
        assert(bounds[i + 1] == item_start(s, i + 1));
    }
}

/// Reads the header of a frame. Gives the bounds of its items if `data` is a
/// well-formed frame, and nothing otherwise.
pub fn frame_bounds(data: &[u8]) -> (found: Option<Vec<usize>>)
    ensures
        found is Some <==> is_frame(data@),
        found matches Some(bounds) ==> bounds_of(bounds@, data@),
{
    let len: usize = data.len();
    if len < 4 {
        return None;
    }
    let total: usize = unpack_number(data) as usize;
    if total != len {
        return None;
    }
    let mut bounds: Vec<usize> = Vec::new();
    if len == 4 {
        bounds.push(len);
        return Some(bounds);
    }
    if len < 8 {
        return None;
    }
    let first: usize = unpack_number(slice_subrange(data, 4, len)) as usize;
    assert(data@.subrange(4, len as int) == data@.skip(4));
    if first % 4 != 0 || first < 8 || first > len {
        return None;
    }
    let count: usize = first / 4 - 1;
    let mut i: usize = 0;
    let mut last: usize = 0;
    while i < count
        invariant
            len == data@.len(),
            len >= 8,
            count == item_count(data@),
            4 * (count + 1) <= len,
            i <= count,
            bounds@.len() == i,
            forall|k: int| 0 <= k < i ==> bounds@[k] == item_start(data@, k),
            forall|k: int| 0 <= k < i - 1 ==> bounds@[k] <= #[trigger] bounds@[k + 1],
            forall|k: int| 0 <= k < i ==> #[trigger] bounds@[k] <= last,
            i == 0 ==> last == 0,
            i > 0 ==> last == bounds@[i - 1],
            forall|k: int| 0 <= k < i - 1 ==> item_start(data@, k) <= #[trigger] item_end(data@, k),
        decreases count - i,
    {
        let at: usize = 4 + 4 * i;
        let start: usize = unpack_number(slice_subrange(data, at, len)) as usize;
        assert(data@.subrange(at as int, len as int) == data@.skip(4 + 4 * i));
        if start < last {
            assert(!(item_start(data@, i - 1) <= item_end(data@, i - 1)));
            return None;
        }
        bounds.push(start);
        last = start;
        i += 1;
    }
    if last > len {
        assert(!(item_start(data@, count - 1) <= item_end(data@, count - 1)));
        return None;
    }
    bounds.push(len);
    Some(bounds)
}

/// Reads a table of `n` items. Gives the bounds of the items if `data` is
/// such a table.
pub fn table_bounds(data: &[u8], n: usize) -> (found: Option<Vec<usize>>)
    ensures
        found is Some <==> is_table(data@, n as nat),
        found matches Some(bounds) ==> bounds_of(bounds@, data@),
{
    match frame_bounds(data) {
        Some(bounds) => {
            if bounds.len() - 1 == n {
                Some(bounds)
            } else {
                None
            }
        },
        None => None,
    }
}

/// Reads a byte string. Gives what it holds if `data` is well formed.
pub fn read_bytes(data: &[u8]) -> (found: Option<&[u8]>)
    ensures
        found is Some <==> is_bytes(data@),
        found matches Some(content) ==> content@ == bytes_content(data@),
{
    let len: usize = data.len();
    if len < 4 {
        return None;
    }
    let count: usize = unpack_number(data) as usize;
    if len - 4 != count {
        return None;
    }
    Some(slice_subrange(data, 4, len))
}

/// Reads a vector of byte strings. Gives what each of them holds, in order,
/// if `data` is well formed.
pub fn read_bytes_vec(data: &[u8]) -> (found: Option<Vec<Vec<u8>>>)
    ensures
        found is Some <==> is_bytes_vec(data@),
        found matches Some(items) ==> seqs(items@) == bytes_vec_content(data@),
{
    let bounds: Vec<usize> = match frame_bounds(data) {
        Some(bounds) => bounds,
        None => {
            return None;
        },
    };
    let count: usize = bounds.len() - 1;
    let mut items: Vec<Vec<u8>> = Vec::new();
    let mut i: usize = 0;
    while i < count
        invariant
            is_frame(data@),
            bounds_of(bounds@, data@),
            count == item_count(data@),
            i <= count,
            items@.len() == i,
            forall|k: int| 0 <= k < i ==> is_bytes(#[trigger] item(data@, k)),
            forall|k: int| 0 <= k < i ==> (#[trigger] items@[k])@ == bytes_content(item(data@, k)),
        decreases count - i,
    {
        proof {
            lemma_item_between_bounds(bounds@, data@, i as int);
        }
        let piece: &[u8] = slice_subrange(data, bounds[i], bounds[i + 1]);
        match read_bytes(piece) {
            Some(content) => {
                items.push(slice_to_vec(content));
            },
            None => {
                return None;
            },
        }
        i += 1;
    }
    assert(seqs(items@) =~= bytes_vec_content(data@));
    Some(items)
}

/// The items of a frame, in order.
pub open spec fn items(s: Seq<u8>) -> Seq<Seq<u8>> {
    Seq::new(item_count(s), |i: int| item(s, i))
}

/// Where item `i` begins in a frame that holds `items` back to back behind
/// its header; for `i` the number of items, where the frame ends.
pub open spec fn packed_start(items: Seq<Seq<u8>>, i: int) -> int
    decreases i,
{
    if i <= 0 {
        4 * (items.len() as int + 1)
    } else {
        packed_start(items, i - 1) + items[i - 1].len()
    }
}

/// Where item `i` of the frame `s` begins according to its header; for `i`
/// the number of items, where the frame ends.
pub open spec fn item_bound(s: Seq<u8>, i: int) -> int {
    if i < item_count(s) {
        item_start(s, i) as int
    } else {
        s.len() as int
    }
}

/// No item of a well-formed frame begins behind the end of the frame.
proof fn lemma_bound_in_frame(s: Seq<u8>, i: int)
    requires
        is_frame(s),
        0 <= i <= item_count(s),
    ensures
        0 <= item_bound(s, i) <= s.len(),
    decreases item_count(s) - i,
{
    if i < item_count(s) {
        lemma_bound_in_frame(s, i + 1);
        assert(item_start(s, i) <= item_end(s, i));
    }
}

/// The header of a well-formed frame says no more than the sizes of the
/// items: each item begins where the one before it ends, and the first
/// begins right behind the header.
pub proof fn lemma_frame_is_packed(s: Seq<u8>, i: int)
    requires
        is_frame(s),
        0 <= i <= item_count(s),
    ensures
        item_bound(s, i) == packed_start(items(s), i),
        item_count(s) == 0 <==> s.len() == 4,
    decreases i,
{
    if i > 0 {
        lemma_frame_is_packed(s, i - 1);
        lemma_bound_in_frame(s, i - 1);
        lemma_bound_in_frame(s, i);
        assert(item_start(s, i - 1) <= item_end(s, i - 1));
        assert(items(s)[i - 1] == item(s, i - 1));
        assert(item_end(s, i - 1) == item_bound(s, i));
    }
}

/// The item in which the byte at `at` lies, for a byte behind the header of a
/// frame that holds `items`.
proof fn lemma_locate(items: Seq<Seq<u8>>, at: int, below: int) -> (i: int)
    requires
        0 < below <= items.len(),
        packed_start(items, 0) <= at < packed_start(items, below),
    ensures
        0 <= i < below,
        packed_start(items, i) <= at < packed_start(items, i + 1),
    decreases below,
{
    if at >= packed_start(items, below - 1) {
        below - 1
    } else {
        lemma_locate(items, at, below - 1)
    }
}

/// No two frames hold the same items: a well-formed frame is determined,
/// byte for byte, by the items that it holds.
pub proof fn law_frame_injective(a: Seq<u8>, b: Seq<u8>)
    requires
        is_frame(a),
        is_frame(b),
        items(a) == items(b),
    ensures
        a == b,
{
    let n = item_count(a) as int;
    assert(items(a).len() == n && items(b).len() == item_count(b));
    lemma_frame_is_packed(a, n);
    lemma_frame_is_packed(b, n);
    assert(a.len() == b.len());
    lemma_le_u32_injective(a, b);
    assert forall|j: int| 0 <= j < a.len() implies a[j] == b[j] by {
        if j < 4 {
        } else if j < 4 * (n + 1) {
            let k = (j - 4) / 4;
            lemma_frame_is_packed(a, k);
            lemma_frame_is_packed(b, k);
            lemma_frame_is_packed(a, 0);
            lemma_bound_in_frame(a, 0);
            lemma_le_u32_injective(a.skip(4 + 4 * k), b.skip(4 + 4 * k));
            assert(a[j] == a.skip(4 + 4 * k)[j - 4 - 4 * k]);
            assert(b[j] == b.skip(4 + 4 * k)[j - 4 - 4 * k]);
        } else {
            let i = lemma_locate(items(a), j, n);
            lemma_frame_is_packed(a, i);
            lemma_frame_is_packed(b, i);
            lemma_frame_is_packed(a, i + 1);
            lemma_frame_is_packed(b, i + 1);
            lemma_bound_in_frame(a, i + 1);
            lemma_bound_in_frame(b, i + 1);
            assert(item_end(a, i) == item_bound(a, i + 1));
            assert(item_end(b, i) == item_bound(b, i + 1));
            assert(items(a)[i] == item(a, i));
            assert(items(b)[i] == item(b, i));
            assert(a[j] == item(a, i)[j - item_bound(a, i)]);
            assert(b[j] == item(b, i)[j - item_bound(b, i)]);
        }
    }
    assert(a =~= b);
}

/// No two byte strings hold the same content.
pub proof fn law_bytes_injective(a: Seq<u8>, b: Seq<u8>)
    requires
        is_bytes(a),
        is_bytes(b),
        bytes_content(a) == bytes_content(b),
    ensures
        a == b,
{
    assert(bytes_content(a).len() == a.len() - 4);
    assert(bytes_content(b).len() == b.len() - 4);
    lemma_le_u32_injective(a, b);
    assert forall|j: int| 0 <= j < a.len() implies a[j] == b[j] by {
        if j >= 4 {
            assert(a[j] == bytes_content(a)[j - 4]);
            assert(b[j] == bytes_content(b)[j - 4]);
        }
    }
    assert(a =~= b);
}

/// No two vectors of byte strings hold the same byte strings.
pub proof fn law_bytes_vec_injective(a: Seq<u8>, b: Seq<u8>)
    requires
        is_bytes_vec(a),
        is_bytes_vec(b),
        bytes_vec_content(a) == bytes_vec_content(b),
    ensures
        a == b,
{
    assert(bytes_vec_content(a).len() == item_count(a));
    assert(bytes_vec_content(b).len() == item_count(b));
    assert forall|i: int| 0 <= i < item_count(a) implies item(a, i) == item(b, i) by {
        assert(bytes_vec_content(a)[i] == bytes_content(item(a, i)));
        assert(bytes_vec_content(b)[i] == bytes_content(item(b, i)));
        law_bytes_injective(item(a, i), item(b, i));
    }
    assert(items(a) =~= items(b));
    law_frame_injective(a, b);
}

} // verus!
