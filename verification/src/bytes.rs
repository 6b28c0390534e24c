//! Byte strings: comparison and fixed-width integers.

use vstd::prelude::*;

verus! {

/// The number that four bytes spell, least significant byte first.
pub open spec fn le_u32(s: Seq<u8>) -> nat
    recommends
        s.len() >= 4,
{
    (s[0] as nat) + 256 * (s[1] as nat) + 65536 * (s[2] as nat) + 16777216 * (s[3] as nat)
}

/// The number that the bytes of `s` spell, most significant byte first.
pub open spec fn be_nat(s: Seq<u8>) -> nat
    decreases s.len(),
{
    if s.len() == 0 {
        0
    } else {
        256 * be_nat(s.drop_last()) + (s.last() as nat)
    }
}

/// Reads the 32-bit number at the front of `slice` by a call of
/// `molecule::unpack_number`.
///
/// Trusted, not proved: the result is the number that the first four bytes of
/// `slice` spell, least significant byte first, whatever follows them. The
/// outside function panics on fewer than four bytes, which the precondition
/// rules out.
#[verifier::external_body]
pub(crate) fn unpack_number(slice: &[u8]) -> (n: u32)
    requires
        slice@.len() >= 4,
    ensures
        n as nat == le_u32(slice@),
{
    molecule::unpack_number(slice)
}

/// Whether two byte strings are the same.
pub fn bytes_eq(a: &[u8], b: &[u8]) -> (same: bool)
    ensures
        same == (a@ == b@),
{
    if a.len() != b.len() {
        return false;
    }
    let mut i: usize = 0;
    while i < a.len()
        invariant
            a@.len() == b@.len(),
            i <= a@.len(),
            forall|k: int| 0 <= k < i ==> a@[k] == b@[k],
        decreases a@.len() - i,
    {
        if a[i] != b[i] {
            return false;
        }
        i += 1;
    }
    assert(a@ =~= b@);
    true
}

/// Copies `src` into an array of `N` bytes. Gives nothing if `src` has another
/// length.
pub fn to_array<const N: usize>(src: &[u8]) -> (found: Option<[u8; N]>)
    ensures
        found is Some <==> src@.len() == N,
        found matches Some(array) ==> array@ == src@,
{
    if src.len() != N {
        return None;
    }
    let mut array: [u8; N] = [0u8; N];
    let mut i: usize = 0;
    while i < N
        invariant
            src@.len() == N,
            i <= N,
            forall|k: int| 0 <= k < i ==> array@[k] == src@[k],
        decreases N - i,
    {
        array[i] = src[i];
        i += 1;
    }
    assert(array@ =~= src@);
    Some(array)
}

/// The big-endian value of eight bytes.
pub fn to_u64(data: &[u8; 8]) -> (value: u64)
    ensures
        value as nat == be_nat(data@),
{
    let mut value: u64 = 0;
    let mut i: usize = 0;
    while i < 8
        invariant
            i <= 8,
            data@.len() == 8,
            value as nat == be_nat(data@.take(i as int)),
            (value as nat) < pow256(i as nat),
        decreases 8 - i,
    {
        proof {
            let next = data@.take(i + 1);
            assert(next.drop_last() =~= data@.take(i as int));
            assert(next.last() == data@[i as int]);
            lemma_pow256_values();
        }
        value = value * 256 + data[i] as u64;
        i += 1;
    }
    assert(data@.take(8) =~= data@);
    value
}

/// 256 raised to `n`.
pub open spec fn pow256(n: nat) -> nat
    decreases n,
{
    if n == 0 {
        1
    } else {
        256 * pow256((n - 1) as nat)
    }
}

proof fn lemma_pow256_values()
    ensures
        pow256(0) == 1,
        pow256(1) == 0x100,
        pow256(2) == 0x1_0000,
        pow256(3) == 0x100_0000,
        pow256(4) == 0x1_0000_0000,
        pow256(5) == 0x100_0000_0000,
        pow256(6) == 0x1_0000_0000_0000,
        pow256(7) == 0x100_0000_0000_0000,
        pow256(8) == 0x1_0000_0000_0000_0000,
{
    reveal_with_fuel(pow256, 10);
}

/// Four bytes are determined by the number that they spell, least
/// significant byte first.
pub proof fn lemma_le_u32_injective(a: Seq<u8>, b: Seq<u8>)
    requires
        a.len() >= 4,
        b.len() >= 4,
        le_u32(a) == le_u32(b),
    ensures
        a[0] == b[0],
        a[1] == b[1],
        a[2] == b[2],
        a[3] == b[3],
{
    let low_a = (a[0] as int) + 256 * (a[1] as int) + 65536 * (a[2] as int);
    let low_b = (b[0] as int) + 256 * (b[1] as int) + 65536 * (b[2] as int);
    assert(a[3] == b[3]) by {
        assert(0 <= low_a < 16777216 && 0 <= low_b < 16777216);
        assert(low_a + 16777216 * (a[3] as int) == low_b + 16777216 * (b[3] as int));
    }
    let mid_a = (a[0] as int) + 256 * (a[1] as int);
    let mid_b = (b[0] as int) + 256 * (b[1] as int);
    assert(a[2] == b[2]) by {
        assert(0 <= mid_a < 65536 && 0 <= mid_b < 65536);
        assert(mid_a + 65536 * (a[2] as int) == mid_b + 65536 * (b[2] as int));
    }
    assert(a[1] == b[1]);
}

/// Byte strings of one length are determined by the number that they spell,
/// most significant byte first.
pub proof fn lemma_be_nat_injective(a: Seq<u8>, b: Seq<u8>)
    requires
        a.len() == b.len(),
        be_nat(a) == be_nat(b),
    ensures
        a == b,
    decreases a.len(),
{
    if a.len() == 0 {
        assert(a =~= b);
    } else {
        let high_a = be_nat(a.drop_last()) as int;
        let high_b = be_nat(b.drop_last()) as int;
        assert(256 * high_a + (a.last() as int) == 256 * high_b + (b.last() as int));
        assert(high_a == high_b);
        lemma_be_nat_injective(a.drop_last(), b.drop_last());
        assert(a =~= a.drop_last().push(a.last()));
        assert(b =~= b.drop_last().push(b.last()));
    }
}

} // verus!
