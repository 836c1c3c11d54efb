//! Subboard and game outcomes, and the set of legal moves.
use vstd::prelude::*;

use crate::board::{
    apply_spec, cell_bit, get_subboard, lemma_make_move_keeps_disjoint, span, span_shift, sub_bits, sub_flag, Board, ALL_CELLS,
    FULL_SUBBOARD,
};

verus! {

/// The eight triples of a 3×3 grid (three rows, three columns, two diagonals),
/// local cell `k` being bit `8 - k`.
pub open spec fn win_pattern(j: int) -> u16 {
    if j == 0 {
        0b111000000
    } else if j == 1 {
        0b000111000
    } else if j == 2 {
        0b000000111
    } else if j == 3 {
        0b100100100
    } else if j == 4 {
        0b010010010
    } else if j == 5 {
        0b001001001
    } else if j == 6 {
        0b100010001
    } else {
        0b001010100
    }
}

/// The triple `j` (0..7) as a 9-bit mask.
pub fn pattern(j: usize) -> (r: u16)
    requires
        j < 8,
    ensures
        r == win_pattern(j as int),
{
    match j {
        0 => 0b111000000,
        1 => 0b000111000,
        2 => 0b000000111,
        3 => 0b100100100,
        4 => 0b010010010,
        5 => 0b001001001,
        6 => 0b100010001,
        _ => 0b001010100,
    }
}

/// Some triple is fully set in the 9-bit field `v`.
pub open spec fn has_win_spec(v: u16) -> bool {
    exists|j: int| 0 <= j < 8 && #[trigger] (v & win_pattern(j)) == win_pattern(j)
}

/// The game outcome on the macro-board: 1 when the first player's won
/// subboards form a triple, else -1 when the second player's do, else 0.
pub open spec fn win_spec(b: Board) -> i16 {
    if has_win_spec(b.x_won) {
        1
    } else if has_win_spec(b.o_won) {
        -1i16
    } else {
        0
    }
}

/// Subboard `s` is decided: won by a player, or with all nine cells taken.
pub open spec fn resolved(b: Board, s: int) -> bool {
    ||| b.won() & sub_flag(s) != 0
    ||| (sub_bits(b.x_cells, s) | sub_bits(b.o_cells, s)) == FULL_SUBBOARD
}

/// Every subboard is decided.
pub open spec fn all_resolved(b: Board) -> bool {
    forall|s: int| 0 <= s < 9 ==> #[trigger] resolved(b, s)
}

/// The game is drawn: nobody has a macro triple and every subboard is decided.
pub open spec fn draw_spec(b: Board) -> bool {
    win_spec(b) == 0 && all_resolved(b)
}

/// The cells of the subboards among the first `k` that nobody has won.
pub open spec fn open_spans(won: u16, k: int) -> u128
    decreases k,
{
    if k <= 0 {
        0
    } else {
        open_spans(won, k - 1) | (if won & sub_flag(k - 1) == 0 {
            span(k - 1)
        } else {
            0
        })
    }
}

/// The legal moves with `active` as the subboard to play in: its empty cells,
/// or, when it is decided, every empty cell of every subboard nobody has won.
pub open spec fn legal_spec(b: Board, active: int) -> u128 {
    if resolved(b, active) {
        open_spans(b.won(), 9) & !b.occupied()
    } else {
        span(active) & !b.occupied()
    }
}

/// Cell `idx` is a move of the mask `moves`.
pub open spec fn is_move(moves: u128, idx: int) -> bool {
    0 <= idx < 81 && (moves >> ((80 - idx) as u128)) & 1u128 == 1
}

/// Some triple is fully set in the 9-bit field `subboard`.
pub fn subboard_has_win(subboard: u16) -> (r: bool)
    ensures
        r == has_win_spec(subboard),
{
    let mut j: usize = 0;
    while j < 8
        invariant
            j <= 8,
            forall|i: int| 0 <= i < j ==> #[trigger] (subboard & win_pattern(i)) != win_pattern(i),
        decreases 8 - j,
    {
        let p = pattern(j);
        if subboard & p == p {
            return true;
        }
        j += 1;
    }
    false
}

/// 1 if the first player has won the game, -1 if the second has, else 0.
pub fn check_win(board: Board) -> (r: i16)
    ensures
        r == win_spec(board),
{
    if subboard_has_win(board.x_won) {
        return 1;
    }
    if subboard_has_win(board.o_won) {
        return -1;
    }
    0
}

/// Every subboard is decided. Callers test `check_win` first: a decided
/// game is not a draw.
pub fn check_draw(board: Board) -> (r: bool)
    requires
        win_spec(board) == 0,
    ensures
        r == draw_spec(board),
{
    let overall: u16 = board.x_won | board.o_won;
    if overall == FULL_SUBBOARD {
        assert forall|s: int| 0 <= s < 9 implies #[trigger] resolved(board, s) by {
            let t = (8 - s) as u16;
            assert(overall == 0x1ff && t < 9 ==> overall & (1u16 << t) != 0) by (bit_vector);
        }
        return true;
    }
    let mut i: u16 = 0;
    while i < 9
        invariant
            i <= 9,
            overall == board.won(),
            forall|s: int| 0 <= s < i ==> #[trigger] resolved(board, s),
        decreases 9 - i,
    {
        if overall & (1u16 << (8 - i)) == 0 {
            let sb = get_subboard(board, i);
            if sb.0 | sb.1 != FULL_SUBBOARD {
                assert(!resolved(board, i as int));
                return false;
            }
        }
        i += 1;
    }
    true
}

/// The legal moves as a cell mask (see `legal_spec`).
pub fn find_moves(board: Board, subboard: u16) -> (r: u128)
    requires
        subboard < 9,
    ensures
        r == legal_spec(board, subboard as int),
{
    let won: u16 = board.x_won | board.o_won;
    let occupied: u128 = board.x_cells | board.o_cells;
    let sb = get_subboard(board, subboard);
    if won & (1u16 << (8 - subboard)) != 0 || (sb.0 | sb.1) == FULL_SUBBOARD {
        let mut spans: u128 = 0;
        let mut i: u16 = 0;
        while i < 9
            invariant
                i <= 9,
                won == board.won(),
                spans == open_spans(won, i as int),
            decreases 9 - i,
        {
            if won & (1u16 << (8 - i)) == 0 {
                spans = spans | (0x1ffu128 << (72 - 9 * i) as u128);
            } else {
                assert(spans | 0 == spans) by (bit_vector);
            }
            i += 1;
        }
        spans & !occupied
    } else {
        (0x1ffu128 << (72 - 9 * subboard) as u128) & !occupied
    }
}

/// No legal move lies on an occupied cell.
pub proof fn lemma_legal_moves_empty(b: Board, active: int)
    ensures
        legal_spec(b, active) & b.occupied() == 0,
{
    let occ = b.occupied();
    let m = if resolved(b, active) { open_spans(b.won(), 9) } else { span(active) };
    assert((m & !occ) & occ == 0) by (bit_vector);
}

/// While the active subboard is undecided, every legal move lies inside it.
pub proof fn lemma_legal_moves_in_active(b: Board, active: int)
    requires
        !resolved(b, active),
    ensures
        legal_spec(b, active) & !span(active) == 0,
{
    let occ = b.occupied();
    let m = span(active);
    assert((m & !occ) & !m == 0) by (bit_vector);
}

proof fn lemma_span_bit(sh: u128, k: u128)
    by (bit_vector)
    requires
        sh <= 72,
        k < 81,
    ensures
        ((0x1ffu128 << sh) >> k) & 1u128 == 1 <==> (sh <= k && k < sh + 9),
{
}

proof fn lemma_or_bit(a: u128, c: u128, k: u128)
    by (bit_vector)
    requires
        k < 81,
    ensures
        ((a | c) >> k) & 1u128 == 1 <==> ((a >> k) & 1u128 == 1 || (c >> k) & 1u128 == 1),
        (0u128 >> k) & 1u128 == 0,
{
}

proof fn lemma_masked_bit(a: u128, o: u128, k: u128)
    by (bit_vector)
    requires
        k < 81,
        ((a & !o) >> k) & 1u128 == 1,
    ensures
        (a >> k) & 1u128 == 1,
        o & (1u128 << k) == 0,
{
}

/// Cell `idx` lies in span `s` exactly when it belongs to subboard `s`.
proof fn lemma_cell_in_span(s: int, idx: int)
    requires
        0 <= s < 9,
        0 <= idx < 81,
    ensures
        (span(s) >> ((80 - idx) as u128)) & 1u128 == 1 <==> idx / 9 == s,
{
    lemma_span_bit(span_shift(s), (80 - idx) as u128);
}

/// A cell of `open_spans(won, n)` lies in one of the first `n` subboards, and
/// nobody has won that subboard.
proof fn lemma_open_spans_cell(won: u16, n: int, idx: int)
    requires
        0 <= n <= 9,
        0 <= idx < 81,
        (open_spans(won, n) >> ((80 - idx) as u128)) & 1u128 == 1,
    ensures
        idx / 9 < n,
        won & sub_flag(idx / 9) == 0,
    decreases n,
{
    let k = (80 - idx) as u128;
    if n == 0 {
        lemma_or_bit(0, 0, k);
    } else {
        let extra = if won & sub_flag(n - 1) == 0 { span(n - 1) } else { 0 };
        lemma_or_bit(open_spans(won, n - 1), extra, k);
        if (open_spans(won, n - 1) >> k) & 1u128 == 1 {
            lemma_open_spans_cell(won, n - 1, idx);
        } else {
            lemma_cell_in_span(n - 1, idx);
        }
    }
}

/// Every legal move is an empty cell of a subboard that nobody has won.
pub proof fn lemma_legal_move_cell(b: Board, active: int, idx: int)
    requires
        0 <= active < 9,
        is_move(legal_spec(b, active), idx),
    ensures
        b.occupied() & cell_bit(idx) == 0,
        b.won() & sub_flag(idx / 9) == 0,
{
    let k = (80 - idx) as u128;
    let m = if resolved(b, active) { open_spans(b.won(), 9) } else { span(active) };
    lemma_masked_bit(m, b.occupied(), k);
    if resolved(b, active) {
        lemma_open_spans_cell(b.won(), 9, idx);
    } else {
        lemma_cell_in_span(active, idx);
    }
}

/// Playing any legal move keeps a well-formed position well formed: no cell
/// and no subboard ever belongs to both players.
pub proof fn lemma_legal_move_keeps_disjoint(b: Board, active: int, idx: int, token: i16)
    requires
        b.wf(),
        0 <= active < 9,
        is_move(legal_spec(b, active), idx),
    ensures
        apply_spec(b, idx, token).wf(),
{
    lemma_legal_move_cell(b, active, idx);
    lemma_make_move_keeps_disjoint(b, idx, token);
}

/// The game is never both won and drawn.
pub proof fn lemma_win_draw_exclusive(b: Board)
    ensures
        !(win_spec(b) != 0 && draw_spec(b)),
{
}

} // verus!
