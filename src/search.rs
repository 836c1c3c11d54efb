//! Move ordering, negascout search with memoization, and iterative deepening.
use vstd::prelude::*;

use crate::board::{apply_spec, get_subboard, make_move, next_subboard, sub_bits, Board};
use crate::eval::{eval_spec, evaluate_board, score_spec, score_subboard};
use crate::rules::{check_draw, check_win, draw_spec, find_moves, is_move, legal_spec, win_spec};
use crate::table::{Entry, TranspositionTable, SCORE_BOUND};

verus! {

broadcast use vstd::seq_lib::group_to_multiset_ensures;

/// The cell indices of the moves in `moves` among its lowest `n` bits, lowest bit first.
pub open spec fn move_seq(moves: u128, n: int) -> Seq<u16>
    decreases n,
{
    if n <= 0 {
        Seq::empty()
    } else {
        let prev = move_seq(moves, n - 1);
        if (moves >> ((n - 1) as u128)) & 1u128 == 1 {
            prev.push((80 - (n - 1)) as u16)
        } else {
            prev
        }
    }
}

/// Every index listed by `move_seq` is a move of the mask.
pub proof fn lemma_move_seq_moves(moves: u128, n: int, idx: u16)
    requires
        n <= 81,
        move_seq(moves, n).contains(idx),
    ensures
        is_move(moves, idx as int),
    decreases n,
{
    if n > 0 {
        let prev = move_seq(moves, n - 1);
        if (moves >> ((n - 1) as u128)) & 1u128 == 1 {
            if prev.contains(idx) {
                lemma_move_seq_moves(moves, n - 1, idx);
            } else {
                let w = choose|w: int| 0 <= w < move_seq(moves, n).len() && move_seq(moves, n)[w] == idx;
                assert(w == prev.len());
            }
        } else {
            lemma_move_seq_moves(moves, n - 1, idx);
        }
    }
}

/// The ordering key of the move into cell `idx`: minus the stored score of
/// the position it leads to, when the table holds that position; else the
/// open two-in-a-rows of the touched subboard, signed by `token`.
pub open spec fn order_key(b: Board, idx: int, token: i16, table: Map<Board, Entry>) -> int {
    let n = apply_spec(b, idx, token);
    if table.contains_key(n) {
        -table[n].score
    } else {
        score_spec(sub_bits(n.x_cells, idx / 9), sub_bits(n.o_cells, idx / 9)) * token
    }
}

/// The moves among the lowest `n` bits of `moves`, lowest bit first, each
/// paired with its ordering key.
pub open spec fn keyed_seq(b: Board, moves: u128, token: i16, table: Map<Board, Entry>, n: int) -> Seq<
    (i64, u16),
>
    decreases n,
{
    if n <= 0 {
        Seq::empty()
    } else {
        let prev = keyed_seq(b, moves, token, table, n - 1);
        if (moves >> ((n - 1) as u128)) & 1u128 == 1 {
            let idx = 80 - (n - 1);
            prev.push((order_key(b, idx, token, table) as i64, idx as u16))
        } else {
            prev
        }
    }
}

/// Where an item with key `k` goes into the descending list `s`, searching
/// from `p`: before the first item with a smaller key, after all others.
pub open spec fn insert_pos(s: Seq<(i64, u16)>, k: i64, p: int) -> int
    decreases s.len() - p,
{
    if p < 0 || p >= s.len() {
        s.len() as int
    } else if s[p].0 >= k {
        insert_pos(s, k, p + 1)
    } else {
        p
    }
}

/// The first `t` items of `items`, inserted one by one at `insert_pos`.
pub open spec fn sort_upto(items: Seq<(i64, u16)>, t: int) -> Seq<(i64, u16)>
    decreases t,
{
    if t <= 0 {
        Seq::empty()
    } else {
        let s = sort_upto(items, t - 1);
        s.insert(insert_pos(s, items[t - 1].0, 0), items[t - 1])
    }
}

/// The moves of `moves` in the order the search tries them.
pub open spec fn order_list(b: Board, moves: u128, token: i16, table: Map<Board, Entry>) -> Seq<u16> {
    let keyed = keyed_seq(b, moves, token, table, 81);
    sort_upto(keyed, keyed.len() as int).map_values(|p: (i64, u16)| p.1)
}

/// The moves of the mask `moves` (its 81 cell bits) as cell indices, sorted by
/// `order_key`, largest first.
pub fn order_moves(board: Board, moves: u128, token: i16, cache: &TranspositionTable) -> (r: Vec<
    u16,
>)
    requires
        cache.wf(),
        token == 1 || token == -1,
    ensures
        r@ == order_list(board, moves, token, cache@),
        r@.to_multiset() == move_seq(moves, 81).to_multiset(),
        forall|j: int| 0 <= j < r@.len() ==> #[trigger] r@[j] < 81,
        forall|a: int, c: int|
            0 <= a < c < r@.len() ==> order_key(board, r@[a] as int, token, cache@) >= order_key(
                board,
                r@[c] as int,
                token,
                cache@,
            ),
{
    let mut keyed: Vec<(i64, u16)> = Vec::new();
    let mut bit: u16 = 0;
    while bit < 81
        invariant
            cache.wf(),
            token == 1 || token == -1,
            bit <= 81,
            keyed@.map_values(|p: (i64, u16)| p.1) == move_seq(moves, bit as int),
            keyed@ == keyed_seq(board, moves, token, cache@, bit as int),
            forall|j: int|
                0 <= j < keyed@.len() ==> (#[trigger] keyed@[j]).1 < 81 && keyed@[j].0 == order_key(
                    board,
                    keyed@[j].1 as int,
                    token,
                    cache@,
                ),
        decreases 81 - bit,
    {
        if (moves >> bit as u128) & 1 == 1 {
            let idx: u16 = 80 - bit;
            let next = make_move(board, idx, token);
            let key: i64 = match cache.get(&next) {
                Some(e) => -e.score,
                None => {
                    let sb = get_subboard(next, idx / 9);
                    let v = score_subboard(sb.0, sb.1);
                    assert(token == 1 ==> v * token == v);
                    assert(token == -1 ==> v * token == -v);
                    v * token as i64
                },
            };
            let ghost before = keyed@;
            keyed.push((key, idx));
            assert(keyed@.map_values(|p: (i64, u16)| p.1) =~= before.map_values(
                |p: (i64, u16)| p.1,
            ).push(idx));
        }
        bit += 1;
    }
    let mut sorted: Vec<(i64, u16)> = Vec::new();
    let mut t: usize = 0;
    while t < keyed.len()
        invariant
            t <= keyed@.len(),
            sorted@ == sort_upto(keyed@, t as int),
            sorted@.map_values(|p: (i64, u16)| p.1).to_multiset() == keyed@.subrange(
                0,
                t as int,
            ).map_values(|p: (i64, u16)| p.1).to_multiset(),
            forall|a: int, c: int| 0 <= a < c < sorted@.len() ==> sorted@[a].0 >= sorted@[c].0,
            forall|j: int|
                0 <= j < keyed@.len() ==> (#[trigger] keyed@[j]).1 < 81 && keyed@[j].0 == order_key(
                    board,
                    keyed@[j].1 as int,
                    token,
                    cache@,
                ),
            forall|j: int|
                0 <= j < sorted@.len() ==> (#[trigger] sorted@[j]).1 < 81 && sorted@[j].0
                    == order_key(board, sorted@[j].1 as int, token, cache@),
        decreases keyed@.len() - t,
    {
        let item = keyed[t];
        let mut p: usize = 0;
        while p < sorted.len() && sorted[p].0 >= item.0
            invariant
                p <= sorted@.len(),
                insert_pos(sorted@, item.0, p as int) == insert_pos(sorted@, item.0, 0),
                forall|j: int| 0 <= j < p ==> sorted@[j].0 >= item.0,
            decreases sorted@.len() - p,
        {
            p += 1;
        }
        let ghost before = sorted@;
        assert(insert_pos(before, item.0, p as int) == p);
        sorted.insert(p, item);
        assert(sorted@.map_values(|q: (i64, u16)| q.1) =~= before.map_values(|q: (i64, u16)| q.1).insert(
            p as int,
            item.1,
        ));
        assert(keyed@.subrange(0, t + 1).map_values(|q: (i64, u16)| q.1) =~= keyed@.subrange(
            0,
            t as int,
        ).map_values(|q: (i64, u16)| q.1).push(item.1));
        assert forall|a: int, c: int| 0 <= a < c < sorted@.len() implies sorted@[a].0
            >= sorted@[c].0 by {
            if p < before.len() {
                assert(before[p as int].0 < item.0);
            }
            if c < p {
            } else if c == p {
            } else if a < p {
                assert(sorted@[c] == before[c - 1]);
            } else if a == p {
                assert(sorted@[c] == before[c - 1]);
                assert(before[c - 1].0 <= before[p as int].0);
            } else {
                assert(sorted@[c] == before[c - 1]);
                assert(sorted@[a] == before[a - 1]);
            }
        }
        assert forall|j: int| 0 <= j < sorted@.len() implies (#[trigger] sorted@[j]).1 < 81
            && sorted@[j].0 == order_key(board, sorted@[j].1 as int, token, cache@) by {
            if j < p {
                assert(sorted@[j] == before[j]);
            } else if j > p {
                assert(sorted@[j] == before[j - 1]);
            }
        }
        t += 1;
    }
    assert(keyed@.subrange(0, keyed@.len() as int) =~= keyed@);
    let mut r: Vec<u16> = Vec::new();
    let mut u: usize = 0;
    while u < sorted.len()
        invariant
            u <= sorted@.len(),
            r@ == sorted@.subrange(0, u as int).map_values(|q: (i64, u16)| q.1),
        decreases sorted@.len() - u,
    {
        r.push(sorted[u].1);
        u += 1;
        assert(r@ =~= sorted@.subrange(0, u as int).map_values(|q: (i64, u16)| q.1));
    }
    assert(sorted@.subrange(0, sorted@.len() as int) =~= sorted@);
    assert(keyed@ == keyed_seq(board, moves, token, cache@, 81));
    r
}

/// The table holds `b` searched at least `depth` deep.
pub open spec fn table_hit(table: Map<Board, Entry>, b: Board, depth: i16) -> bool {
    table.contains_key(b) && table[b].depth >= depth
}

/// The search stops at `b`: no depth is left, or the game is decided.
pub open spec fn is_leaf(b: Board, depth: i16) -> bool {
    depth <= 0 || win_spec(b) != 0 || draw_spec(b)
}

/// The result of searching `b` (score for `token`, best move, final table),
/// starting from the table `t`: a stored result at least `depth` deep is
/// reused; a leaf is scored statically; otherwise the ordered legal moves are
/// searched by `search_loop`. Leaves and searched nodes are stored.
pub open spec fn search_spec(
    b: Board,
    sub: int,
    token: i16,
    depth: int,
    t: Map<Board, Entry>,
    alpha: int,
    beta: int,
) -> (int, u16, Map<Board, Entry>)
    decreases depth, 1int, 0int,
{
    if t.contains_key(b) && t[b].depth >= depth {
        (t[b].score as int, t[b].best, t)
    } else if depth <= 0 || win_spec(b) != 0 || draw_spec(b) {
        let e = eval_spec(b, token);
        (e, 0, t.insert(b, Entry { depth: depth as i16, score: e as i64, best: 0 }))
    } else {
        let list = order_list(b, legal_spec(b, sub), token, t);
        let r = search_loop(b, token, depth, list, 0, t, alpha, beta, -SCORE_BOUND, 0, alpha);
        (r.0, r.1, r.2.insert(b, Entry { depth: depth as i16, score: r.0 as i64, best: r.1 }))
    }
}

/// The scan of the moves `list` from position `i` on, with running best
/// `value` / `best` and lower bound `alp`: the first move gets the full
/// window, later ones a null window and, when that lands strictly inside
/// `(alpha, beta)`, a full re-search; the scan stops once `alp >= beta`.
pub open spec fn search_loop(
    b: Board,
    token: i16,
    depth: int,
    list: Seq<u16>,
    i: int,
    t: Map<Board, Entry>,
    alpha: int,
    beta: int,
    value: int,
    best: u16,
    alp: int,
) -> (int, u16, Map<Board, Entry>)
    decreases depth, 0int, list.len() - i,
{
    if depth <= 0 || i < 0 || i >= list.len() {
        (value, best, t)
    } else {
        let mv = list[i];
        let child = apply_spec(b, mv as int, token);
        let cs = (mv % 9) as int;
        let ct = (-token) as i16;
        let first = if i == 0 {
            search_spec(child, cs, ct, depth - 1, t, -beta, -alp)
        } else {
            search_spec(child, cs, ct, depth - 1, t, -alp - 1, -alp)
        };
        let res = if i != 0 && alpha < -first.0 && -first.0 < beta {
            search_spec(child, cs, ct, depth - 1, first.2, -beta, -alp)
        } else {
            first
        };
        let v2 = if -res.0 > value { -res.0 } else { value };
        let b2 = if -res.0 > value { mv } else { best };
        let a2 = if v2 > alp { v2 } else { alp };
        if a2 >= beta {
            (v2, b2, res.2)
        } else {
            search_loop(b, token, depth, list, i + 1, res.2, alpha, beta, v2, b2, a2)
        }
    }
}

/// Negascout search of `board` with `token` to move in `subboard`, `depth`
/// plies deep, in the window `(alpha, beta)`. Returns the score for `token`
/// and the best move found, and records the result in `cache`. The window
/// stays within `SCORE_BOUND`, so every negated bound handed down fits an `i64`.
pub fn negascout(
    board: Board,
    subboard: u16,
    token: i16,
    depth: i16,
    cache: &mut TranspositionTable,
    alpha: i64,
    beta: i64,
) -> (r: (i64, u16))
    requires
        old(cache).wf(),
        subboard < 9,
        token == 1 || token == -1,
        -SCORE_BOUND <= alpha <= SCORE_BOUND,
        -SCORE_BOUND <= beta <= SCORE_BOUND,
    ensures
        final(cache).wf(),
        ({
            let s = search_spec(
                board,
                subboard as int,
                token,
                depth as int,
                old(cache)@,
                alpha as int,
                beta as int,
            );
            r.0 == s.0 && r.1 == s.1 && final(cache)@ == s.2
        }),
        -SCORE_BOUND <= r.0 <= SCORE_BOUND,
        r.1 < 81,
        table_hit(old(cache)@, board, depth) ==> r == (old(cache)@[board].score, old(cache)@[board].best)
            && final(cache)@ == old(cache)@,
        !table_hit(old(cache)@, board, depth) && is_leaf(board, depth) ==> r.0 == eval_spec(
            board,
            token,
        ) && r.1 == 0 && final(cache)@ == old(cache)@.insert(
            board,
            Entry { depth, score: r.0, best: 0 },
        ),
        !table_hit(old(cache)@, board, depth) ==> final(cache)@.contains_key(board)
            && final(cache)@[board] == (Entry { depth, score: r.0, best: r.1 }),
        !table_hit(old(cache)@, board, depth) ==> r.1 == 0 || is_move(
            legal_spec(board, subboard as int),
            r.1 as int,
        ),
    decreases depth,
{
    match cache.get(&board) {
        Some(e) => {
            if e.depth >= depth {
                return (e.score, e.best);
            }
        },
        None => {},
    }
    if depth <= 0 || check_win(board) != 0 || check_draw(board) {
        let evaluation: i64 = evaluate_board(board, token);
        cache.insert(board, Entry { depth, score: evaluation, best: 0 });
        return (evaluation, 0);
    }
    let all_moves: u128 = find_moves(board, subboard);
    let move_list: Vec<u16> = order_moves(board, all_moves, token, cache);
    let ghost start = cache@;
    let ghost list = move_list@;
    let ghost target = search_loop(
        board,
        token,
        depth as int,
        list,
        0,
        start,
        alpha as int,
        beta as int,
        -SCORE_BOUND,
        0,
        alpha as int,
    );
    let mut value: i64 = -SCORE_BOUND;
    let mut best_move: u16 = 0;
    let mut alp: i64 = alpha;
    let mut i: usize = 0;
    let mut cut: bool = false;
    while i < move_list.len() && !cut
        invariant
            cache.wf(),
            token == 1 || token == -1,
            depth > 0,
            -SCORE_BOUND <= alpha <= SCORE_BOUND,
            -SCORE_BOUND <= beta <= SCORE_BOUND,
            forall|j: int| 0 <= j < move_list@.len() ==> #[trigger] move_list@[j] < 81,
            move_list@ == list,
            i <= move_list@.len(),
            cut ==> i < move_list@.len(),
            -SCORE_BOUND <= value <= SCORE_BOUND,
            best_move < 81,
            best_move == 0 || is_move(all_moves, best_move as int),
            move_list@.to_multiset() == move_seq(all_moves, 81).to_multiset(),
            all_moves == legal_spec(board, subboard as int),
            alpha <= alp <= SCORE_BOUND,
            !cut && i > 0 ==> alp < beta,
            cut ==> target == (value as int, best_move, cache@),
            !cut ==> target == search_loop(
                board,
                token,
                depth as int,
                list,
                i as int,
                cache@,
                alpha as int,
                beta as int,
                value as int,
                best_move,
                alp as int,
            ),
        decreases move_list@.len() - i + if cut { 0int } else { 1 },
    {
        let mv: u16 = move_list[i];
        let child: Board = make_move(board, mv, token);
        let child_subboard: u16 = next_subboard(mv);
        let mut recur_score: i64;
        if i == 0 {
            recur_score = negascout(child, child_subboard, -token, depth - 1, cache, -beta, -alp).0;
        } else {
            recur_score =
                negascout(child, child_subboard, -token, depth - 1, cache, -alp - 1, -alp).0;
            if alpha < -recur_score && -recur_score < beta {
                recur_score =
                    negascout(child, child_subboard, -token, depth - 1, cache, -beta, -alp).0;
            }
        }
        if -recur_score > value {
            proof {
                assert(move_list@[i as int] == mv);
                assert(move_list@.contains(mv));
                assert(move_list@.to_multiset().count(mv) > 0);
                assert(move_seq(all_moves, 81).to_multiset().count(mv) > 0);
                assert(move_seq(all_moves, 81).contains(mv));
                lemma_move_seq_moves(all_moves, 81, mv);
            }
            value = -recur_score;
            best_move = mv;
        }
        if value > alp {
            alp = value;
        }
        if alp >= beta {
            cut = true;
        } else {
            i += 1;
        }
    }
    cache.insert(board, Entry { depth, score: value, best: best_move });
    (value, best_move)
}

/// The best move and the table after searching `b` at depths 1 through `d`
/// in turn, all with one table that starts empty.
pub open spec fn deepen_spec(b: Board, sub: int, token: i16, d: int) -> (u16, Map<Board, Entry>)
    decreases d,
{
    if d < 1 {
        (0, Map::empty())
    } else {
        let prev = deepen_spec(b, sub, token, d - 1);
        let s = search_spec(b, sub, token, d, prev.1, -SCORE_BOUND, SCORE_BOUND as int);
        (s.1, s.2)
    }
}

/// Search is deterministic: two searches of the same position with the same
/// arguments, each from an empty table, that meet the contract of `negascout`
/// give the same score, the same best move and the same table.
pub proof fn lemma_search_deterministic(
    b: Board,
    sub: int,
    token: i16,
    depth: int,
    alpha: int,
    beta: int,
    r1: (i64, u16),
    t1: Map<Board, Entry>,
    r2: (i64, u16),
    t2: Map<Board, Entry>,
)
    requires
        ({
            let s = search_spec(b, sub, token, depth, Map::empty(), alpha, beta);
            r1.0 == s.0 && r1.1 == s.1 && t1 == s.2
        }),
        ({
            let s = search_spec(b, sub, token, depth, Map::empty(), alpha, beta);
            r2.0 == s.0 && r2.1 == s.1 && t2 == s.2
        }),
    ensures
        r1 == r2,
        t1 == t2,
{
}

/// Searches `board` at depths 1, 2, ... up to `max_depth`, sharing one table
/// across the iterations, and returns the best move of the deepest search
/// (0 when `max_depth` is below 1).
pub fn iterative_deepening(board: Board, subboard: u16, token: i16, max_depth: i16) -> (r: u16)
    requires
        subboard < 9,
        token == 1 || token == -1,
    ensures
        r == deepen_spec(board, subboard as int, token, max_depth as int).0,
        r < 81,
        max_depth < 1 ==> r == 0,
        r == 0 || is_move(legal_spec(board, subboard as int), r as int),
{
    let mut cache = TranspositionTable::new();
    let mut best: u16 = 0;
    let mut depth: i16 = 0;
    while depth < max_depth
        invariant
            cache.wf(),
            subboard < 9,
            token == 1 || token == -1,
            0 <= depth,
            depth <= max_depth || depth == 0,
            (best, cache@) == deepen_spec(board, subboard as int, token, depth as int),
            best < 81,
            best == 0 || is_move(legal_spec(board, subboard as int), best as int),
            depth == 0 ==> cache@ == Map::<Board, Entry>::empty(),
            depth > 0 ==> cache@.contains_key(board) && cache@[board].depth == depth,
        decreases max_depth - depth,
    {
        depth += 1;
        best = negascout(board, subboard, token, depth, &mut cache, -SCORE_BOUND, SCORE_BOUND).1;
    }
    proof {
        if max_depth < 1 {
            assert(deepen_spec(board, subboard as int, token, max_depth as int).0 == 0);
            assert(deepen_spec(board, subboard as int, token, 0).0 == 0);
        }
    }
    best
}

/// The best move (a cell index) for `token` to play in `subboard`, searched
/// `depth` plies deep.
pub fn find_best_move(board: Board, subboard: u16, token: i16, depth: i16) -> (r: u16)
    requires
        subboard < 9,
        token == 1 || token == -1,
    ensures
        r == deepen_spec(board, subboard as int, token, depth as int).0,
        r < 81,
        depth < 1 ==> r == 0,
        r == 0 || is_move(legal_spec(board, subboard as int), r as int),
{
    iterative_deepening(board, subboard, token, depth)
}

} // verus!
