use vstd::prelude::*;

verus! {

broadcast use vstd::array::group_array_axioms;

/// A tic-tac-toe board: a 3x3 grid of cells, each holding 0 (empty),
/// 1 (a noughts marker) or 2 (a crosses marker). Cell (x, y) is row x,
/// column y.
pub type Board = [[u8; 3]; 3];

/// 1 when the condition holds, 0 otherwise; used to count cells.
pub open spec fn b2i(b: bool) -> int {
    if b {
        1
    } else {
        0
    }
}

/// Every cell holds a legal value: 0, 1 or 2.
pub open spec fn cell_ok(c: u8) -> bool {
    c == 0 || c == 1 || c == 2
}

/// Every cell of the board holds 0, 1 or 2.
pub open spec fn cells_in_range(b: Board) -> bool {
    &&& cell_ok(b[0][0]) && cell_ok(b[0][1]) && cell_ok(b[0][2])
    &&& cell_ok(b[1][0]) && cell_ok(b[1][1]) && cell_ok(b[1][2])
    &&& cell_ok(b[2][0]) && cell_ok(b[2][1]) && cell_ok(b[2][2])
}

/// How many cells of the board hold the value v.
pub open spec fn count_cells(b: Board, v: u8) -> int {
    b2i(b[0][0] == v) + b2i(b[0][1] == v) + b2i(b[0][2] == v) + b2i(b[1][0] == v) + b2i(
        b[1][1] == v,
    ) + b2i(b[1][2] == v) + b2i(b[2][0] == v) + b2i(b[2][1] == v) + b2i(b[2][2] == v)
}

/// How many cells of the board are not empty.
pub open spec fn count_marks(b: Board) -> int {
    b2i(b[0][0] != 0) + b2i(b[0][1] != 0) + b2i(b[0][2] != 0) + b2i(b[1][0] != 0) + b2i(
        b[1][1] != 0,
    ) + b2i(b[1][2] != 0) + b2i(b[2][0] != 0) + b2i(b[2][1] != 0) + b2i(b[2][2] != 0)
}

/// Does the board hold three cells of value v along one of the eight lines
/// (three rows, three columns, two diagonals)?
pub open spec fn has_line(b: Board, v: u8) -> bool {
    ||| (b[0][0] == v && b[0][1] == v && b[0][2] == v)
    ||| (b[1][0] == v && b[1][1] == v && b[1][2] == v)
    ||| (b[2][0] == v && b[2][1] == v && b[2][2] == v)
    ||| (b[0][0] == v && b[1][0] == v && b[2][0] == v)
    ||| (b[0][1] == v && b[1][1] == v && b[2][1] == v)
    ||| (b[0][2] == v && b[1][2] == v && b[2][2] == v)
    ||| (b[0][0] == v && b[1][1] == v && b[2][2] == v)
    ||| (b[0][2] == v && b[1][1] == v && b[2][0] == v)
}

/// The board with cell (x, y) set to v and every other cell unchanged.
pub open spec fn spec_update(b: Board, x: int, y: int, v: u8) -> Board {
    vstd::array::spec_array_update(b, x, vstd::array::spec_array_update(b[x], y, v))
}

/// The empty board.
pub open spec fn empty_board() -> Board {
    vstd::array::spec_array_fill_for_copy_type::<[u8; 3], 3>(
        vstd::array::spec_array_fill_for_copy_type::<u8, 3>(0u8),
    )
}

/// Reads every cell of an updated board back: the written cell holds v and
/// the other eight are unchanged.
pub proof fn lemma_update_cells(b: Board, x: int, y: int, v: u8)
    requires
        0 <= x < 3,
        0 <= y < 3,
    ensures
        spec_update(b, x, y, v)[0][0] == (if x == 0 && y == 0 { v } else { b[0][0] }),
        spec_update(b, x, y, v)[0][1] == (if x == 0 && y == 1 { v } else { b[0][1] }),
        spec_update(b, x, y, v)[0][2] == (if x == 0 && y == 2 { v } else { b[0][2] }),
        spec_update(b, x, y, v)[1][0] == (if x == 1 && y == 0 { v } else { b[1][0] }),
        spec_update(b, x, y, v)[1][1] == (if x == 1 && y == 1 { v } else { b[1][1] }),
        spec_update(b, x, y, v)[1][2] == (if x == 1 && y == 2 { v } else { b[1][2] }),
        spec_update(b, x, y, v)[2][0] == (if x == 2 && y == 0 { v } else { b[2][0] }),
        spec_update(b, x, y, v)[2][1] == (if x == 2 && y == 1 { v } else { b[2][1] }),
        spec_update(b, x, y, v)[2][2] == (if x == 2 && y == 2 { v } else { b[2][2] }),
{
    let row = vstd::array::spec_array_update(b[x], y, v);
    let nb = spec_update(b, x, y, v);
    assert(nb@ == b@.update(x, row));
    assert(row@ == b[x]@.update(y, v));
}

} // verus!
