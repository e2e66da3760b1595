//! The message building blocks: coin amounts, addresses and currency
//! collections, each with its layout written out.

use vstd::prelude::*;
pub use crate::cell::CellSerialize;
use crate::cell::extend_cells;
use crate::text::{directive, write_directive};
use crate::varuint::{encode_varuint16, pow256, varuint_cells};

verus! {

/// An amount of coins, written with the variable-length encoding
/// (layout `__fundamental_varuint16`).
#[derive(Default, Clone, Copy, Debug, PartialEq, Eq)]
pub struct Coins(pub u128);

/// An address: a 3-bit tag `4`, then the workchain and the two halves of the
/// hash (layout `u 4 3bit, workchain, hash_high, hash_low`).
#[derive(Default, Clone, Copy, Debug, PartialEq, Eq)]
pub struct Address {
    pub workchain: u8,
    pub hash_high: u128,
    pub hash_low: u128,
}

/// A currency collection: the coin amount, then one `0` bit for the absent
/// extra currencies (layout `grams, u 0 1bit`).
#[derive(Default, Clone, Copy, Debug, PartialEq, Eq)]
pub struct CurrencyCollection {
    pub grams: Coins,
}

impl CellSerialize for Coins {
    open spec fn encodable(&self) -> bool {
        self.0 < pow256(15)
    }

    open spec fn cells(&self) -> Seq<Seq<char>> {
        varuint_cells(self.0 as nat)
    }

    fn serialize(&self) -> (r: Vec<String>) {
        match encode_varuint16(self.0) {
            Some(cells) => cells,
            None => {
                assert(false);
                Vec::new()
            },
        }
    }
}

impl CellSerialize for Address {
    open spec fn encodable(&self) -> bool {
        true
    }

    open spec fn cells(&self) -> Seq<Seq<char>> {
        seq![directive(4, 3)] + self.workchain.cells() + self.hash_high.cells()
            + self.hash_low.cells()
    }

    fn serialize(&self) -> (r: Vec<String>) {
        let mut result: Vec<String> = Vec::new();
        result.push(write_directive(4, 3));
        extend_cells(&mut result, self.workchain.serialize());
        extend_cells(&mut result, self.hash_high.serialize());
        extend_cells(&mut result, self.hash_low.serialize());
        assert(result.deep_view() =~= self.cells());
        result
    }
}

impl CellSerialize for CurrencyCollection {
    open spec fn encodable(&self) -> bool {
        self.grams.encodable()
    }

    open spec fn cells(&self) -> Seq<Seq<char>> {
        self.grams.cells() + seq![directive(0, 1)]
    }

    fn serialize(&self) -> (r: Vec<String>) {
        let mut result: Vec<String> = Vec::new();
        extend_cells(&mut result, self.grams.serialize());
        result.push(write_directive(0, 1));
        assert(result.deep_view() =~= self.cells());
        result
    }
}

/// Serializing a value twice gives the same directives: the result depends
/// on the value alone.
pub proof fn serialize_is_idempotent<T: CellSerialize>(
    value: &T,
    first: Vec<String>,
    second: Vec<String>,
)
    requires
        value.encodable(),
        first.deep_view() == value.cells(),
        second.deep_view() == value.cells(),
    ensures
        first.deep_view() == second.deep_view(),
{
}

} // verus!
