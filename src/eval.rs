//! Static scoring of a position.
use vstd::prelude::*;

use crate::board::{get_subboard, sub_bits, Board};
use crate::rules::{check_win, pattern, win_pattern, win_spec};

verus! {

/// Score of one won subboard.
pub const SUBBOARD_WIN_WEIGHT: i64 = 100;

/// Score of one open two-in-a-row inside a subboard.
pub const SUBBOARD_NEAR_WIN_WEIGHT: i64 = 5;

/// Score of one open two-in-a-row on the macro-board.
pub const OVERALL_NEAR_WIN_WEIGHT: i64 = 200;

/// Score of a won game, before the sign of the player to move.
pub const WIN_SCORE: i64 = 100_000_000;

/// The number of set bits among the lowest `n` bits of `v`.
pub open spec fn pop_bits(v: u16, n: int) -> int
    decreases n,
{
    if n <= 0 {
        0
    } else {
        pop_bits(v, n - 1) + if (v >> ((n - 1) as u16)) & 1 == 1 {
            1int
        } else {
            0
        }
    }
}

/// The number of set bits of `v`.
pub open spec fn popcount(v: u16) -> int {
    pop_bits(v, 16)
}

/// Triple `j` holds two marks of `a` and none of `b` (1), the reverse (-1), or neither (0).
pub open spec fn pattern_score(a: u16, b: u16, j: int) -> int {
    let xs = popcount(a & win_pattern(j));
    let os = popcount(b & win_pattern(j));
    if xs == 2 && os == 0 {
        1
    } else if os == 2 && xs == 0 {
        -1
    } else {
        0
    }
}

/// The sum of `pattern_score` over the first `n` triples.
pub open spec fn score_upto(a: u16, b: u16, n: int) -> int
    decreases n,
{
    if n <= 0 {
        0
    } else {
        score_upto(a, b, n - 1) + pattern_score(a, b, n - 1)
    }
}

/// Open two-in-a-rows of `a` minus those of `b`, over all eight triples.
pub open spec fn score_spec(a: u16, b: u16) -> int {
    score_upto(a, b, 8)
}

/// The sum of `score_spec` over the views of the first `n` subboards.
pub open spec fn subboards_score(b: Board, n: int) -> int
    decreases n,
{
    if n <= 0 {
        0
    } else {
        subboards_score(b, n - 1) + score_spec(sub_bits(b.x_cells, n - 1), sub_bits(b.o_cells, n - 1))
    }
}

/// The heuristic score of a position that nobody has won, for the first player.
pub open spec fn heuristic(b: Board) -> int {
    SUBBOARD_WIN_WEIGHT * popcount(b.x_won) - SUBBOARD_WIN_WEIGHT * popcount(b.o_won)
        + SUBBOARD_NEAR_WIN_WEIGHT * subboards_score(b, 9) + OVERALL_NEAR_WIN_WEIGHT * score_spec(
        b.x_won,
        b.o_won,
    )
}

/// The score of `b` for the player `token`.
pub open spec fn eval_spec(b: Board, token: i16) -> int {
    if win_spec(b) != 0 {
        win_spec(b) * token * WIN_SCORE
    } else {
        heuristic(b) * token
    }
}

/// The number of set bits of `v`.
pub fn count_ones(v: u16) -> (r: u32)
    ensures
        r == popcount(v),
        r <= 16,
{
    let mut c: u32 = 0;
    let mut i: u16 = 0;
    while i < 16
        invariant
            i <= 16,
            c <= i,
            c == pop_bits(v, i as int),
        decreases 16 - i,
    {
        if (v >> i) & 1 == 1 {
            c += 1;
        }
        i += 1;
    }
    c
}

/// Open two-in-a-rows of `subboard` minus those of `opponent_subboard`.
pub fn score_subboard(subboard: u16, opponent_subboard: u16) -> (r: i64)
    ensures
        r == score_spec(subboard, opponent_subboard),
        -8 <= r <= 8,
{
    let mut score: i64 = 0;
    let mut j: usize = 0;
    while j < 8
        invariant
            j <= 8,
            -j <= score <= j,
            score == score_upto(subboard, opponent_subboard, j as int),
        decreases 8 - j,
    {
        let p = pattern(j);
        let xs = count_ones(subboard & p);
        let os = count_ones(opponent_subboard & p);
        if xs == 2 && os == 0 {
            score += 1;
        } else if os == 2 && xs == 0 {
            score -= 1;
        }
        j += 1;
    }
    score
}

/// The static score of `board` for the player `token`: the large win score
/// when the game is decided, else the heuristic, each signed by `token`.
pub fn evaluate_board(board: Board, token: i16) -> (r: i64)
    requires
        token == 1 || token == -1,
    ensures
        r == eval_spec(board, token),
        -WIN_SCORE <= r <= WIN_SCORE,
{
    let cw = check_win(board);
    if cw != 0 {
        return (cw * token) as i64 * WIN_SCORE;
    }
    let mut evaluation: i64 = count_ones(board.x_won) as i64 * SUBBOARD_WIN_WEIGHT;
    evaluation = evaluation - count_ones(board.o_won) as i64 * SUBBOARD_WIN_WEIGHT;
    let mut sum: i64 = 0;
    let mut i: u16 = 0;
    while i < 9
        invariant
            i <= 9,
            -8 * i <= sum <= 8 * i,
            sum == subboards_score(board, i as int),
        decreases 9 - i,
    {
        let (x_sb, o_sb) = get_subboard(board, i);
        sum = sum + score_subboard(x_sb, o_sb);
        i += 1;
    }
    evaluation = evaluation + sum * SUBBOARD_NEAR_WIN_WEIGHT;
    evaluation = evaluation + score_subboard(board.x_won, board.o_won) * OVERALL_NEAR_WIN_WEIGHT;
    assert(-10_000 <= evaluation <= 10_000);
    assert(token == 1 ==> evaluation * token == evaluation);
    assert(token == -1 ==> evaluation * token == -evaluation);
    evaluation * token as i64
}

} // verus!
