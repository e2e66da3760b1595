//! The variable-length unsigned integer encoding: a 4-bit byte count, then
//! the value in that many whole bytes.

use vstd::prelude::*;
use crate::text::{directive, write_directive};

verus! {

/// `256` raised to the power `n`.
pub open spec fn pow256(n: nat) -> nat
    decreases n,
{
    if n == 0 {
        1
    } else {
        256 * pow256((n - 1) as nat)
    }
}

/// The number of whole bytes that hold `v`; zero takes none.
pub open spec fn bytes_needed(v: nat) -> nat
    decreases v,
{
    if v == 0 {
        0
    } else {
        1 + bytes_needed(v / 256)
    }
}

/// The directives of `v`: its byte count in 4 bits, then `v` in that many bytes.
pub open spec fn varuint_cells(v: nat) -> Seq<Seq<char>> {
    seq![directive(bytes_needed(v), 4), directive(v, 8 * bytes_needed(v))]
}

/// The largest byte count that the 4-bit header can carry.
pub const MAX_VARUINT_BYTES: u32 = 15;

pub proof fn lemma_pow256_positive(n: nat)
    ensures
        pow256(n) > 0,
    decreases n,
{
    if n > 0 {
        lemma_pow256_positive((n - 1) as nat);
    }
}

/// `v` fits in `k` bytes exactly when `v < 256^k`.
pub proof fn lemma_bytes_needed_bound(v: nat, k: nat)
    ensures
        bytes_needed(v) <= k <==> v < pow256(k),
    decreases v,
{
    lemma_pow256_positive(k);
    if v > 0 && k > 0 {
        lemma_bytes_needed_bound(v / 256, (k - 1) as nat);
        assert(v / 256 < pow256((k - 1) as nat) <==> v < 256 * pow256((k - 1) as nat));
    }
}

/// The byte count that the encoding writes is the least `n` with `v < 256^n`,
/// and it fits the header exactly when `v < 256^15`.
pub proof fn varuint_length_is_minimal(v: nat)
    ensures
        v < pow256(bytes_needed(v)),
        bytes_needed(v) == 0 || pow256((bytes_needed(v) - 1) as nat) <= v,
        bytes_needed(v) <= 15 <==> v < pow256(15),
{
    lemma_bytes_needed_bound(v, bytes_needed(v));
    if bytes_needed(v) > 0 {
        lemma_bytes_needed_bound(v, (bytes_needed(v) - 1) as nat);
    }
    lemma_bytes_needed_bound(v, 15);
}

/// The number of whole bytes that hold `value`.
pub fn byte_length(value: u128) -> (r: u32)
    ensures
        r as nat == bytes_needed(value as nat),
        r <= 16,
{
    proof {
        reveal_with_fuel(pow256, 17);
        assert(pow256(16) == 0x1_0000_0000_0000_0000_0000_0000_0000_0000nat);
        lemma_bytes_needed_bound(value as nat, 16);
    }
    let mut rest: u128 = value;
    let mut n: u32 = 0;
    while rest != 0
        invariant
            n + bytes_needed(rest as nat) == bytes_needed(value as nat),
            bytes_needed(value as nat) <= 16,
        decreases rest,
    {
        rest = rest / 256;
        n = n + 1;
    }
    n
}

/// Encodes `value` as its byte count in 4 bits followed by the value in that
/// many whole bytes; `None` when the count exceeds what 4 bits can carry.
pub fn encode_varuint16(value: u128) -> (r: Option<Vec<String>>)
    ensures
        r is None <==> value as nat >= pow256(15),
        r matches Some(cells) ==> cells.deep_view() == varuint_cells(value as nat),
{
    proof {
        varuint_length_is_minimal(value as nat);
    }
    let n = byte_length(value);
    if n > MAX_VARUINT_BYTES {
        return None;
    }
    let v = vec![write_directive(n as u128, 4), write_directive(value, n * 8)];
    assert(v.deep_view() =~= varuint_cells(value as nat));
    Some(v)
}

} // verus!
