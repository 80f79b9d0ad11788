use vstd::prelude::*;

use crate::board::{Board, lemma_swap_permutation};
use crate::coordinates::Coordinates;

verus! {

/// On a new board the largest value stands in the top-left cell and the blank
/// in the bottom-right one.
pub proof fn lemma_start_corners(b: Board)
    requires
        b.wf(),
        b.is_starting(),
        b.side() >= 1,
    ensures
        b.coords(b.position((b.area() - 1) as u8)) == (Coordinates { row: 0, col: 0 }),
        b.coords(b.position(0)) == (Coordinates {
            row: (b.side() - 1) as usize,
            col: (b.side() - 1) as usize,
        }),
{
    let n = b.side() as int;
    let top = (b.area() - 1) as u8;
    assert(n * n >= 1) by (nonlinear_arith)
        requires
            n >= 1,
    ;
    assert(b.cells()[0] == top);
    assert(b.cells()[n * n - 1] == 0);
    b.lemma_position(top);
    b.lemma_position(0);
    assert(n * n - 1 == (n - 1) * n + (n - 1)) by (nonlinear_arith);
    vstd::arithmetic::div_mod::lemma_fundamental_div_mod_converse(n * n - 1, n, n - 1, n - 1);
}

/// After a legal move of `tile`, the tile stands where the blank stood, the
/// blank where the tile stood, and every other cell is as it was.
pub proof fn lemma_move_exchanges(before: Board, after: Board, tile: u8)
    requires
        before.wf(),
        before.is_legal(tile),
        after.side() == before.side(),
        after.cells() == before.after_move(tile),
    ensures
        after.wf(),
        after.coords(after.position(tile)) == before.coords(before.position(0)),
        after.coords(after.position(0)) == before.coords(before.position(tile)),
        forall|k: int|
            0 <= k < after.area() && k != before.position(tile) && k != before.position(0)
                ==> after.cells()[k] == before.cells()[k],
{
    let t = before.position(tile);
    let z = before.position(0);
    before.lemma_has_blank(tile);
    before.lemma_position(tile);
    before.lemma_position(0);
    let s = before.cells();
    lemma_swap_permutation(s, before.area(), t, z);
    assert(after.cells() =~= s.update(t, s[z]).update(z, s[t]));
    assert(after.cells()[z] == tile);
    assert(after.cells()[t] == 0);
    after.lemma_position(tile);
    after.lemma_position(0);
}

/// Moving a tile and then moving it again brings the board back to where it was.
pub proof fn lemma_move_back(before: Board, after: Board, tile: u8)
    requires
        before.wf(),
        before.is_legal(tile),
        after.side() == before.side(),
        after.cells() == before.after_move(tile),
    ensures
        after.is_legal(tile),
        after.after_move(tile) == before.cells(),
{
    lemma_move_exchanges(before, after, tile);
    before.lemma_position(tile);
    before.lemma_position(0);
    after.lemma_position(tile);
    after.lemma_position(0);
    assert(after.after_move(tile) =~= before.cells());
}

} // verus!
