use rust_engine::board::{cell_mask, get_subboard, make_move, next_subboard, Board};
use rust_engine::eval::{count_ones, evaluate_board, score_subboard};
use rust_engine::rules::{check_draw, check_win, find_moves, subboard_has_win};
use rust_engine::search::{find_best_move, iterative_deepening, negascout, order_moves};
use rust_engine::table::{Entry, TranspositionTable, SCORE_BOUND};

fn cells(idx: &[u16]) -> u128 {
    let mut m: u128 = 0;
    for &i in idx {
        m |= 1u128 << (80 - i);
    }
    m
}

fn span(s: u16) -> u128 {
    0x1ffu128 << (72 - 9 * s)
}

const ALL: u128 = (1u128 << 81) - 1;

fn near_macro_win() -> Board {
    Board {
        x_cells: cells(&[0, 1, 2, 9, 10, 11, 18, 19]),
        o_cells: cells(&[30, 31, 40, 41, 50, 60, 70]),
        x_won: 0b110000000,
        o_won: 0,
    }
}

#[test]
fn empty_board_active_subboard_moves() {
    let b = Board::empty();
    for s in 0..9u16 {
        let m = find_moves(b, s);
        assert_eq!(m, span(s));
        assert_eq!(m.count_ones(), 9);
    }
}

#[test]
fn resolved_active_subboard_frees_the_move() {
    // subboard 4 full without a winner
    let b = Board {
        x_cells: cells(&[36, 37, 41, 42, 44]),
        o_cells: cells(&[38, 39, 40, 43]),
        x_won: 0,
        o_won: 0,
    };
    let (x, o) = get_subboard(b, 4);
    assert_eq!(x | o, 0x1ff);
    let m = find_moves(b, 4);
    assert_eq!(m, ALL & !span(4));
    assert_eq!(m.count_ones(), 72);
    // a won subboard is closed as well
    let b2 = Board { x_won: 0b000000001, ..b };
    assert_eq!(find_moves(b2, 4), ALL & !span(4) & !span(8));
}

#[test]
fn center_move_sends_opponent_to_center() {
    assert_eq!(next_subboard(40), 4);
    for s in 0..9u16 {
        assert_eq!(next_subboard(9 * s + 4), 4);
        assert_eq!(next_subboard(9 * s), 0);
    }
    let b = make_move(Board::empty(), 40, 1);
    assert_eq!(find_moves(b, next_subboard(40)), span(4) & !cell_mask(40));
}

#[test]
fn two_in_a_row_is_not_a_win() {
    assert!(!subboard_has_win(0b110000000));
    assert_eq!(score_subboard(0b110000000, 0), 1);
    assert_eq!(score_subboard(0, 0b110000000), -1);
    assert_eq!(score_subboard(0b110000000, 0b001000000), 0);
    assert!(subboard_has_win(0b111000000));
    assert!(subboard_has_win(0b001010100));
    assert!(subboard_has_win(0b100100100 | 0b000000010));
    assert!(!subboard_has_win(0b101010010));
}

#[test]
fn leaf_score_of_macro_win_is_terminal() {
    let b = near_macro_win();
    assert_eq!(check_win(b), 0);
    let before = evaluate_board(b, 1);
    assert!(before.abs() < 10_000);
    let after = make_move(b, 20, 1);
    assert_eq!(after.x_won, 0b111000000);
    assert_eq!(check_win(after), 1);
    assert_eq!(evaluate_board(after, 1), 100_000_000);
    assert_eq!(evaluate_board(after, -1), -100_000_000);
}

#[test]
fn search_finds_macro_win() {
    let b = near_macro_win();
    assert_eq!(find_best_move(b, 2, 1, 1), 20);
    assert_eq!(find_best_move(b, 2, 1, 2), 20);
    assert_eq!(find_best_move(b, 2, 1, 3), 20);
    let mut t = TranspositionTable::new();
    let (score, mv) = negascout(b, 2, 1, 2, &mut t, -SCORE_BOUND, SCORE_BOUND);
    assert_eq!(mv, 20);
    assert_eq!(score, 100_000_000);
}

#[test]
fn search_is_deterministic() {
    let b = make_move(make_move(Board::empty(), 40, 1), 36, -1);
    let mut t1 = TranspositionTable::new();
    let mut t2 = TranspositionTable::new();
    let r1 = negascout(b, 0, 1, 3, &mut t1, -SCORE_BOUND, SCORE_BOUND);
    let r2 = negascout(b, 0, 1, 3, &mut t2, -SCORE_BOUND, SCORE_BOUND);
    assert_eq!(r1, r2);
    assert_eq!(iterative_deepening(b, 0, 1, 3), iterative_deepening(b, 0, 1, 3));
    assert_eq!(find_best_move(b, 0, 1, 3), r1.1);
    assert!(r1.1 < 9);
}

#[test]
fn zero_depth_returns_sentinel() {
    assert_eq!(find_best_move(Board::empty(), 4, 1, 0), 0);
    let mut t = TranspositionTable::new();
    let r = negascout(Board::empty(), 4, 1, 0, &mut t, -SCORE_BOUND, SCORE_BOUND);
    assert_eq!(r, (0, 0));
    assert_eq!(t.get(&Board::empty()), Some(Entry { depth: 0, score: 0, best: 0 }));
}

#[test]
fn make_move_keeps_players_apart() {
    let mut b = Board::empty();
    let moves: [(u16, i16); 6] = [(40, 1), (36, -1), (4, 1), (44, -1), (76, 1), (80, -1)];
    for &(idx, tok) in moves.iter() {
        b = make_move(b, idx, tok);
        assert_eq!(b.x_cells & b.o_cells, 0);
        assert_eq!(b.x_won & b.o_won, 0);
    }
    assert_eq!(b.x_cells, cells(&[40, 4, 76]));
    assert_eq!(b.o_cells, cells(&[36, 44, 80]));
}

#[test]
fn make_move_wins_subboard() {
    let b = Board { x_cells: cells(&[0, 1]), o_cells: cells(&[3, 4]), x_won: 0, o_won: 0 };
    let x = make_move(b, 2, 1);
    assert_eq!(x.x_won, 0b100000000);
    assert_eq!(x.o_won, 0);
    let o = make_move(b, 5, -1);
    assert_eq!(o.o_won, 0b100000000);
    assert_eq!(o.x_won, 0);
    let none = make_move(b, 8, 1);
    assert_eq!(none.x_won, 0);
}

#[test]
fn make_move_touches_one_subboard() {
    let b = make_move(make_move(Board::empty(), 40, 1), 36, -1);
    let n = make_move(b, 22, 1);
    for s in 0..9u16 {
        let (x0, o0) = get_subboard(b, s);
        let (x1, o1) = get_subboard(n, s);
        if s == 2 {
            assert_eq!(x1 | o1, x0 | o0 | (1 << (8 - 4)));
            assert_eq!(count_ones(x1 | o1), count_ones(x0 | o0) + 1);
        } else {
            assert_eq!((x1, o1), (x0, o0));
        }
    }
}

#[test]
fn legal_moves_avoid_occupied_cells() {
    let b = near_macro_win();
    for s in 0..9u16 {
        let m = find_moves(b, s);
        assert_eq!(m & (b.x_cells | b.o_cells), 0);
    }
    assert_eq!(find_moves(b, 2), cells(&[20, 21, 22, 23, 24, 25, 26]));
    // subboard 0 is won: the move is free among the subboards nobody has won
    let free = find_moves(b, 0);
    assert_eq!(free & (span(0) | span(1)), 0);
    assert_eq!(free.count_ones(), 81 - 18 - 2 - 7);
}

#[test]
fn legal_moves_stay_in_open_active_subboard() {
    let b = make_move(make_move(Board::empty(), 40, 1), 36, -1);
    let m = find_moves(b, 4);
    assert_eq!(m & !span(4), 0);
    assert_eq!(m.count_ones(), 7);
}

#[test]
fn win_and_draw_exclusive() {
    // every subboard full, nobody wins: a draw
    let mut x: Vec<u16> = Vec::new();
    let mut o: Vec<u16> = Vec::new();
    let xs = [0, 1, 5, 6, 8];
    for s in 0..9u16 {
        for k in 0..9u16 {
            if xs.contains(&k) {
                x.push(9 * s + k);
            } else {
                o.push(9 * s + k);
            }
        }
    }
    let b = Board { x_cells: cells(&x), o_cells: cells(&o), x_won: 0, o_won: 0 };
    assert_eq!(check_win(b), 0);
    assert!(check_draw(b));
    assert!(!check_draw(Board::empty()));
    let won = Board { x_won: 0b100010001, o_won: 0b011101110, ..Board::empty() };
    assert_eq!(check_win(won), 1);
    let all_won = Board { x_won: 0b110001100, o_won: 0b001110011, ..Board::empty() };
    assert_eq!(check_win(all_won), 0);
    assert!(check_draw(all_won));
}

#[test]
fn check_win_second_player() {
    let b = Board { o_won: 0b001001001, ..Board::empty() };
    assert_eq!(check_win(b), -1);
    assert_eq!(evaluate_board(b, 1), -100_000_000);
    assert_eq!(evaluate_board(b, -1), 100_000_000);
}

#[test]
fn evaluate_exact_values() {
    let b = Board { x_cells: cells(&[0, 1]), ..Board::empty() };
    assert_eq!(evaluate_board(b, 1), 5);
    assert_eq!(evaluate_board(b, -1), -5);
    let w = Board { x_won: 0b100000000, o_won: 0b000000011, ..Board::empty() };
    // 100 - 200 subboards, second player has an open pair on the macro-board
    assert_eq!(evaluate_board(w, 1), 100 - 200 - 200);
    assert_eq!(evaluate_board(Board::empty(), 1), 0);
}

#[test]
fn count_ones_values() {
    assert_eq!(count_ones(0), 0);
    assert_eq!(count_ones(0x1ff), 9);
    assert_eq!(count_ones(0xffff), 16);
    assert_eq!(count_ones(0b1010), 2);
}

#[test]
fn order_moves_prefers_open_pairs() {
    let b = Board { x_cells: cells(&[36]), o_cells: cells(&[0]), x_won: 0, o_won: 0 };
    let t = TranspositionTable::new();
    let moves = find_moves(b, 4);
    let r = order_moves(b, moves, 1, &t);
    assert_eq!(r.len(), 8);
    let mut sorted = r.clone();
    sorted.sort();
    assert_eq!(sorted, vec![37, 38, 39, 40, 41, 42, 43, 44]);
    // 40 (center) and 44 (corner) make diagonal/row/column pairs with 36
    let top = r[0];
    assert!(top == 37 || top == 38 || top == 39 || top == 40 || top == 42 || top == 44);
    assert_eq!(order_moves(b, 0, 1, &t), Vec::<u16>::new());
}

#[test]
fn order_moves_uses_table_scores() {
    let b = Board::empty();
    let mut t = TranspositionTable::new();
    let after = make_move(b, 44, 1);
    t.insert(after, Entry { depth: 1, score: -1000, best: 0 });
    let r = order_moves(b, find_moves(b, 4), 1, &t);
    assert_eq!(r[0], 44);
    assert_eq!(r.len(), 9);
}

#[test]
fn table_insert_and_replace() {
    let mut t = TranspositionTable::new();
    let a = Board::empty();
    let b = make_move(a, 10, 1);
    let c = Board { o_cells: cells(&[3]), ..a };
    assert_eq!(t.get(&a), None);
    t.insert(a, Entry { depth: 1, score: 5, best: 3 });
    t.insert(c, Entry { depth: 2, score: -7, best: 4 });
    t.insert(b, Entry { depth: 3, score: 9, best: 10 });
    assert_eq!(t.get(&a), Some(Entry { depth: 1, score: 5, best: 3 }));
    assert_eq!(t.get(&c), Some(Entry { depth: 2, score: -7, best: 4 }));
    t.insert(a, Entry { depth: 4, score: 6, best: 2 });
    assert_eq!(t.get(&a), Some(Entry { depth: 4, score: 6, best: 2 }));
    assert_eq!(t.get(&c), Some(Entry { depth: 2, score: -7, best: 4 }));
    assert_eq!(t.get(&b), Some(Entry { depth: 3, score: 9, best: 10 }));
}

#[test]
fn cached_result_is_reused() {
    let b = make_move(Board::empty(), 40, 1);
    let mut t = TranspositionTable::new();
    t.insert(b, Entry { depth: 5, score: 123, best: 41 });
    assert_eq!(negascout(b, 4, -1, 3, &mut t, -SCORE_BOUND, SCORE_BOUND), (123, 41));
}

#[test]
fn playout_keeps_invariants() {
    let mut b = Board::empty();
    let mut active: u16 = 4;
    let mut token: i16 = 1;
    let mut plies = 0;
    loop {
        if check_win(b) != 0 || check_draw(b) {
            break;
        }
        let legal = find_moves(b, active);
        assert_eq!(legal & (b.x_cells | b.o_cells), 0);
        let (x, o) = get_subboard(b, active);
        let open = (b.x_won | b.o_won) & (1 << (8 - active)) == 0 && (x | o) != 0x1ff;
        if open {
            assert_eq!(legal & !span(active), 0);
        }
        assert_ne!(legal, 0);
        let mv = find_best_move(b, active, token, 1);
        assert_ne!(legal & cell_mask(mv), 0);
        b = make_move(b, mv, token);
        assert_eq!(b.x_cells & b.o_cells, 0);
        assert_eq!(b.x_won & b.o_won, 0);
        active = next_subboard(mv);
        token = -token;
        plies += 1;
        assert!(plies <= 81);
    }
    assert!(plies >= 17);
}
