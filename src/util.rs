use vstd::prelude::*;

verus! {

/// The value that a new board puts at (`row`, `col`): the values descend in
/// row-major order from `size² - 1` down to the blank in the last cell.
pub open spec fn starting_value(size: int, row: int, col: int) -> int {
    size * size - row * size - (col + 1)
}

/// The value of the cell at (`row`, `col`) on a new board of side `size`.
pub fn get_starting_index(size: u8, row: u8, col: u8) -> (r: u8)
    requires
        row < size,
        col < size,
        size * size <= 256,
    ensures
        r as int == starting_value(size as int, row as int, col as int),
{
    let n: u32 = size as u32;
    let i: u32 = row as u32;
    let j: u32 = col as u32;
    assert(0 <= i * n + j < n * n) by (nonlinear_arith)
        requires
            i < n,
            j < n,
    ;
    assert(n * n <= 256);
    assert(i * n <= 256) by (nonlinear_arith)
        requires
            i < n,
            n * n <= 256,
    ;
    (n * n - i * n - (j + 1)) as u8
}

} // verus!
