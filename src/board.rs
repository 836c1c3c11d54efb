//! The packed board: cell and subboard bit fields, and the move that updates them.
use vstd::prelude::*;

use crate::rules::{has_win_spec, subboard_has_win};

verus! {

/// All 81 cell bits set.
pub const ALL_CELLS: u128 = 0x1_ffff_ffff_ffff_ffff_ffff;

/// All 9 bits of a subboard (or of the macro-board) set.
pub const FULL_SUBBOARD: u16 = 0x1ff;

/// A position. Cell `i` (0..80) is bit `80 - i` of `x_cells` / `o_cells`;
/// subboard `s` (0..8) is bit `8 - s` of `x_won` / `o_won`.
#[derive(Clone, Copy, PartialEq, Eq, Hash, Debug, Structural)]
pub struct Board {
    pub x_cells: u128,
    pub o_cells: u128,
    pub x_won: u16,
    pub o_won: u16,
}

impl Board {
    /// No cell and no subboard belongs to both players, and no bit lies
    /// outside the board.
    pub open spec fn wf(&self) -> bool {
        &&& self.x_cells & self.o_cells == 0
        &&& self.x_won & self.o_won == 0
        &&& self.x_cells >> 81u128 == 0
        &&& self.o_cells >> 81u128 == 0
        &&& self.x_won >> 9u16 == 0
        &&& self.o_won >> 9u16 == 0
    }

    pub open spec fn occupied(&self) -> u128 {
        self.x_cells | self.o_cells
    }

    pub open spec fn won(&self) -> u16 {
        self.x_won | self.o_won
    }

    /// The empty board.
    pub fn empty() -> (r: Board)
        ensures
            r == (Board { x_cells: 0, o_cells: 0, x_won: 0, o_won: 0 }),
            r.wf(),
    {
        let r = Board { x_cells: 0, o_cells: 0, x_won: 0, o_won: 0 };
        assert(0u128 >> 81u128 == 0 && 0u16 >> 9u16 == 0 && 0u128 & 0u128 == 0 && 0u16 & 0u16 == 0)
            by (bit_vector);
        r
    }
}

/// The bit of cell `idx` in an 81-bit cell field.
pub open spec fn cell_bit(idx: int) -> u128 {
    1u128 << ((80 - idx) as u128)
}

/// How far subboard `s` lies from the low end of a cell field.
pub open spec fn span_shift(s: int) -> u128 {
    (72 - 9 * s) as u128
}

/// The nine cells of subboard `s`, as a mask of the cell field.
pub open spec fn span(s: int) -> u128 {
    0x1ffu128 << span_shift(s)
}

/// The 9-bit view of subboard `s` in a cell field: local cell `k` is bit `8 - k`.
pub open spec fn sub_bits(cells: u128, s: int) -> u16 {
    ((cells >> span_shift(s)) & 0x1ffu128) as u16
}

/// The bit of subboard `s` in a 9-bit macro field (or of local cell `s` in a subboard view).
pub open spec fn sub_flag(s: int) -> u16 {
    1u16 << ((8 - s) as u16)
}

/// The position after the player `token` (1: first player, else second) marks cell `idx`.
pub open spec fn apply_spec(b: Board, idx: int, token: i16) -> Board {
    let s = idx / 9;
    if token == 1 {
        let x = b.x_cells | cell_bit(idx);
        Board {
            x_cells: x,
            x_won: if has_win_spec(sub_bits(x, s)) { b.x_won | sub_flag(s) } else { b.x_won },
            ..b
        }
    } else {
        let o = b.o_cells | cell_bit(idx);
        Board {
            o_cells: o,
            o_won: if has_win_spec(sub_bits(o, s)) { b.o_won | sub_flag(s) } else { b.o_won },
            ..b
        }
    }
}

/// The single-bit mask of cell `idx`.
pub fn cell_mask(idx: u16) -> (r: u128)
    requires
        idx < 81,
    ensures
        r == cell_bit(idx as int),
{
    1u128 << (80 - idx) as u128
}

/// The subboard that a move into cell `idx` sends the opponent to.
pub fn next_subboard(idx: u16) -> (r: u16)
    requires
        idx < 81,
    ensures
        r == idx % 9,
{
    idx % 9
}

/// The 9-bit views of subboard `subboard` for the first and the second player.
pub fn get_subboard(board: Board, subboard: u16) -> (r: (u16, u16))
    requires
        subboard < 9,
    ensures
        r == (sub_bits(board.x_cells, subboard as int), sub_bits(board.o_cells, subboard as int)),
{
    let sh: u128 = (72 - 9 * subboard) as u128;
    (((board.x_cells >> sh) & 0x1ff) as u16, ((board.o_cells >> sh) & 0x1ff) as u16)
}

/// Marks cell `idx` for `token` and sets the won bit of the touched subboard
/// when the mark completes a triple there.
pub fn make_move(board: Board, idx: u16, token: i16) -> (r: Board)
    requires
        idx < 81,
    ensures
        r == apply_spec(board, idx as int, token),
{
    let s: u16 = idx / 9;
    let mv: u128 = cell_mask(idx);
    let flag: u16 = 1u16 << (8 - s);
    if token == 1 {
        let x: u128 = board.x_cells | mv;
        let next = Board { x_cells: x, ..board };
        let sb = get_subboard(next, s);
        if subboard_has_win(sb.0) {
            Board { x_won: board.x_won | flag, ..next }
        } else {
            next
        }
    } else {
        let o: u128 = board.o_cells | mv;
        let next = Board { o_cells: o, ..board };
        let sb = get_subboard(next, s);
        if subboard_has_win(sb.1) {
            Board { o_won: board.o_won | flag, ..next }
        } else {
            next
        }
    }
}

proof fn lemma_set_bit_disjoint(x: u128, o: u128, k: u128)
    by (bit_vector)
    requires
        x & o == 0,
        o & (1u128 << k) == 0,
        x >> 81u128 == 0,
        k < 81,
    ensures
        (x | (1u128 << k)) & o == 0,
        (x | (1u128 << k)) >> 81u128 == 0,
{
}

proof fn lemma_set_flag_disjoint(w: u16, v: u16, t: u16)
    by (bit_vector)
    requires
        w & v == 0,
        (w | v) & (1u16 << t) == 0,
        w >> 9u16 == 0,
        t < 9,
    ensures
        (w | (1u16 << t)) & v == 0,
        (w | (1u16 << t)) >> 9u16 == 0,
{
}

/// A move into an empty cell of a subboard that nobody has won keeps the
/// position well formed: no cell and no subboard is owned by both players.
pub proof fn lemma_make_move_keeps_disjoint(b: Board, idx: int, token: i16)
    requires
        b.wf(),
        0 <= idx < 81,
        b.occupied() & cell_bit(idx) == 0,
        b.won() & sub_flag(idx / 9) == 0,
    ensures
        apply_spec(b, idx, token).wf(),
{
    let k = (80 - idx) as u128;
    let t = (8 - idx / 9) as u16;
    let occ = b.occupied();
    let (x, o) = (b.x_cells, b.o_cells);
    assert(o & (1u128 << k) == 0 && x & (1u128 << k) == 0) by (bit_vector)
        requires
            (x | o) & (1u128 << k) == 0,
    ;
    lemma_set_bit_disjoint(x, o, k);
    assert(o & x == 0) by (bit_vector)
        requires
            x & o == 0,
    ;
    lemma_set_bit_disjoint(o, x, k);
    let (xw, ow) = (b.x_won, b.o_won);
    lemma_set_flag_disjoint(xw, ow, t);
    assert(ow & xw == 0 && (ow | xw) & (1u16 << t) == 0) by (bit_vector)
        requires
            xw & ow == 0,
            (xw | ow) & (1u16 << t) == 0,
    ;
    lemma_set_flag_disjoint(ow, xw, t);
    assert((xw | (1u16 << t)) & ow == 0 ==> ow & (xw | (1u16 << t)) == 0) by (bit_vector);
    assert((o | (1u128 << k)) & x == 0 ==> x & (o | (1u128 << k)) == 0) by (bit_vector);
    assert((ow | (1u16 << t)) & xw == 0 ==> xw & (ow | (1u16 << t)) == 0) by (bit_vector);
    assert(cell_bit(idx) == 1u128 << k);
    assert(sub_flag(idx / 9) == 1u16 << t);
}

proof fn lemma_sub_bits_of_set(x: u128, k: u128, sh: u128)
    by (bit_vector)
    requires
        k < 81,
        sh < 81,
    ensures
        (k < sh || k >= sh + 9) ==> (((x | (1u128 << k)) >> sh) & 0x1ffu128) as u16 == ((x >> sh)
            & 0x1ffu128) as u16,
        (sh <= k && k < sh + 9) ==> (((x | (1u128 << k)) >> sh) & 0x1ffu128) as u16 == (((x >> sh)
            & 0x1ffu128) as u16 | (1u16 << ((k - sh) as u16))),
{
}

/// A move adds its own mark to the touched subboard and leaves every other
/// subboard's view as it was; so no subboard ever loses an occupied cell.
pub proof fn lemma_make_move_subboards(b: Board, idx: int, token: i16, s: int)
    requires
        0 <= idx < 81,
        0 <= s < 9,
    ensures
        ({
            let n = apply_spec(b, idx, token);
            &&& s != idx / 9 ==> sub_bits(n.x_cells, s) == sub_bits(b.x_cells, s) && sub_bits(
                n.o_cells,
                s,
            ) == sub_bits(b.o_cells, s)
            &&& s == idx / 9 ==> (sub_bits(n.x_cells, s) | sub_bits(n.o_cells, s)) == (sub_bits(
                b.x_cells,
                s,
            ) | sub_bits(b.o_cells, s) | sub_flag(idx % 9))
        }),
{
    let k = (80 - idx) as u128;
    let sh = span_shift(s);
    lemma_sub_bits_of_set(b.x_cells, k, sh);
    lemma_sub_bits_of_set(b.o_cells, k, sh);
    if s == idx / 9 {
        assert(k - sh == 8 - idx % 9);
        let (a, c, f) = (sub_bits(b.x_cells, s), sub_bits(b.o_cells, s), sub_flag(idx % 9));
        assert((a | f) | c == a | c | f) by (bit_vector);
        assert(a | (c | f) == a | c | f) by (bit_vector);
    } else {
        assert(k < sh || k >= sh + 9);
    }
}

} // verus!
