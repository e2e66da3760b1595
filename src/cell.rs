//! Values that know how to write themselves as a sequence of directives, the
//! leaf encoders for integers and booleans, and the variable-length encoding
//! of coin amounts.

use vstd::prelude::*;
use crate::text::{directive, write_directive};

verus! {

/// A value that serializes to an ordered sequence of bit-write directives.
pub trait CellSerialize {
    /// Whether the value can be written at all.
    spec fn encodable(&self) -> bool;

    /// The directives that write the value, in wire order.
    spec fn cells(&self) -> Seq<Seq<char>>;

    /// Writes the value as its directives, in wire order.
    fn serialize(&self) -> (r: Vec<String>)
        requires
            self.encodable(),
        ensures
            r.deep_view() == self.cells(),
    ;
}

/// Appends the directives of `more` to `out`.
pub fn extend_cells(out: &mut Vec<String>, more: Vec<String>)
    ensures
        final(out).deep_view() == old(out).deep_view() + more.deep_view(),
{
    let mut more = more;
    let ghost tail = more.deep_view();
    out.append(&mut more);
    assert(final(out).deep_view() =~= old(out).deep_view() + tail);
}

/// A one-element directive sequence.
pub fn single_cell(value: u128, width: u32) -> (r: Vec<String>)
    ensures
        r.deep_view() == seq![directive(value as nat, width as nat)],
{
    let v = vec![write_directive(value, width)];
    assert(v.deep_view() =~= seq![directive(value as nat, width as nat)]);
    v
}

impl CellSerialize for u8 {
    open spec fn encodable(&self) -> bool {
        true
    }

    open spec fn cells(&self) -> Seq<Seq<char>> {
        seq![directive(*self as nat, 8)]
    }

    fn serialize(&self) -> (r: Vec<String>) {
        single_cell(*self as u128, 8)
    }
}

impl CellSerialize for u32 {
    open spec fn encodable(&self) -> bool {
        true
    }

    open spec fn cells(&self) -> Seq<Seq<char>> {
        seq![directive(*self as nat, 32)]
    }

    fn serialize(&self) -> (r: Vec<String>) {
        single_cell(*self as u128, 32)
    }
}

impl CellSerialize for u64 {
    open spec fn encodable(&self) -> bool {
        true
    }

    open spec fn cells(&self) -> Seq<Seq<char>> {
        seq![directive(*self as nat, 64)]
    }

    fn serialize(&self) -> (r: Vec<String>) {
        single_cell(*self as u128, 64)
    }
}

impl CellSerialize for u128 {
    open spec fn encodable(&self) -> bool {
        true
    }

    open spec fn cells(&self) -> Seq<Seq<char>> {
        seq![directive(*self as nat, 128)]
    }

    fn serialize(&self) -> (r: Vec<String>) {
        single_cell(*self, 128)
    }
}

impl CellSerialize for bool {
    open spec fn encodable(&self) -> bool {
        true
    }

    open spec fn cells(&self) -> Seq<Seq<char>> {
        seq![directive(if *self { 1 } else { 0 }, 1)]
    }

    fn serialize(&self) -> (r: Vec<String>) {
        single_cell(if *self { 1 } else { 0 }, 1)
    }
}

} // verus!
