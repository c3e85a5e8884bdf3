use vstd::prelude::*;

verus! {

/// The bit pattern of the single-precision number one.
pub const ONE_BITS: u32 = 0x3F80_0000;

/// A 4x4 matrix of single-precision numbers, column after column, each number held by
/// its IEEE 754 bit pattern.
#[derive(Clone, Copy, Debug, PartialEq, Eq)]
pub struct Transform([[u32; 4]; 4]);

impl Transform {
    /// The bit pattern in column `col`, row `row`.
    pub closed spec fn entry(self, col: int, row: int) -> u32 {
        self.0@[col]@[row]
    }

    /// Whether two transforms agree on all sixteen bit patterns.
    pub open spec fn same_bits(self, other: Transform) -> bool {
        forall|col: int, row: int|
            0 <= col < 4 && 0 <= row < 4 ==> self.entry(col, row) == other.entry(col, row)
    }

    /// The transform with the bit patterns of `mat`.
    pub fn new(mat: [[u32; 4]; 4]) -> (t: Transform)
        ensures
            forall|col: int, row: int|
                0 <= col < 4 && 0 <= row < 4 ==> t.entry(col, row) == mat@[col]@[row],
    {
        Transform(mat)
    }

    /// The sixteen bit patterns, column after column.
    pub fn mat4(&self) -> (mat: &[[u32; 4]; 4])
        ensures
            forall|col: int, row: int|
                0 <= col < 4 && 0 <= row < 4 ==> mat@[col]@[row] == self.entry(col, row),
    {
        &self.0
    }

    /// The identity: ones on the diagonal, zeros elsewhere.
    pub fn identity() -> (t: Transform)
        ensures
            forall|col: int, row: int|
                0 <= col < 4 && 0 <= row < 4 ==> t.entry(col, row) == if col == row {
                    ONE_BITS
                } else {
                    0u32
                },
    {
        Transform(
            [
                [ONE_BITS, 0, 0, 0],
                [0, ONE_BITS, 0, 0],
                [0, 0, ONE_BITS, 0],
                [0, 0, 0, ONE_BITS],
            ],
        )
    }
}

} // verus!
