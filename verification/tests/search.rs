use gobblet::eval::{classify, deepening, EvalKind, Evaluation};
use gobblet::negamax::{
    negamax, DRAW_SCORE, FAR_SCORE, LOSS_SCORE, MAX_SCORE, MIN_SCORE, WIN_SCORE,
};
use gobblet::{Board, GameBoard, Move};

fn place(size: i32, to: i32) -> Move {
    Move { is_new: true, size, from: -1, to }
}

fn shift(size: i32, from: i32, to: i32) -> Move {
    Move { is_new: false, size, from, to }
}

fn game(moves: &[Move]) -> GameBoard {
    let mut g = GameBoard::new(false);
    for m in moves {
        assert!(g.do_move(*m), "{:?}", m);
    }
    g
}

fn search(b: &Board, depth: i32) -> (i32, u64) {
    let mut copy = *b;
    let mut nodes = 0;
    let score = negamax(&mut copy, MIN_SCORE, MAX_SCORE, depth, &mut nodes);
    assert_eq!(copy, *b);
    (score, nodes)
}

fn kind(score: i32) -> EvalKind {
    classify(score, 0, 0, 0).kind
}

/// The moves of a position, straight from the rules.
fn moves_of(b: &Board) -> Vec<Move> {
    let mut moves = Vec::new();
    for size in 0..3 {
        for to in 0..9 {
            if !b.is_free(size, to) {
                continue;
            }
            if b.is_left(size) {
                moves.push(place(size, to));
            }
            for from in 0..9 {
                if b.is_movable(size, from) {
                    moves.push(shift(size, from, to));
                }
            }
        }
    }
    moves
}

fn play(b: &Board, m: Move) -> Board {
    let mut next = *b;
    if m.is_new {
        next.do_new_move(m.size, m.to);
    } else {
        next.do_board_move(m.size, m.from, m.to);
    }
    next
}

/// The score of a position by trying every move, without a window.
fn full_width(b: &Board, depth: i32) -> i32 {
    match b.get_state() {
        1 => return WIN_SCORE + depth,
        2 => return LOSS_SCORE - depth,
        3 => return DRAW_SCORE,
        _ => (),
    }
    if depth == 0 {
        return FAR_SCORE;
    }
    let mut best = MIN_SCORE;
    for m in moves_of(b) {
        let mut score = full_width(&play(b, m), depth - 1);
        if score != FAR_SCORE {
            score = -score;
        }
        if score > best {
            best = score;
        }
    }
    best
}

fn positions_after(plies: usize, every: usize) -> Vec<Board> {
    let mut level = vec![Board::new()];
    for _ in 0..plies {
        let mut next = Vec::new();
        for b in &level {
            if b.get_state() != 0 {
                continue;
            }
            for m in moves_of(b) {
                next.push(play(b, m));
            }
        }
        level = next;
    }
    level.into_iter().step_by(every).collect()
}

#[test]
fn scores_are_classified_by_sign() {
    assert_eq!(
        classify(FAR_SCORE, 3, 7, 9),
        Evaluation { kind: EvalKind::TooFar, depth: 3, time: 7, nodes: 9 }
    );
    assert_eq!(classify(DRAW_SCORE, 0, 0, 0).kind, EvalKind::Draw);
    assert_eq!(classify(WIN_SCORE, 0, 0, 0).kind, EvalKind::Win);
    assert_eq!(classify(WIN_SCORE + 12, 0, 0, 0).kind, EvalKind::Win);
    assert_eq!(classify(2, 0, 0, 0).kind, EvalKind::Win);
    assert_eq!(classify(LOSS_SCORE, 0, 0, 0).kind, EvalKind::Loss);
    assert_eq!(classify(-1, 0, 0, 0).kind, EvalKind::Loss);
    assert_eq!(classify(MIN_SCORE, 0, 0, 0).kind, EvalKind::Loss);
}

#[test]
fn the_horizon_leaves_a_position_unresolved() {
    assert_eq!(search(&Board::new(), 0), (FAR_SCORE, 1));
}

#[test]
fn the_initial_position_at_depth_1_looks_at_every_move() {
    assert_eq!(search(&Board::new(), 1), (FAR_SCORE, 28));
}

#[test]
fn the_initial_position_at_depth_2_cuts_off_after_the_first_reply() {
    // the first move is answered by all 24 replies, each other move by one
    assert_eq!(search(&Board::new(), 2), (FAR_SCORE, 1 + 25 + 26 * 2));
}

#[test]
fn a_line_of_the_side_that_moved_is_a_loss_at_any_depth() {
    let b = Board {
        layers: [0b000000100, 0, 0b000000011, 0, 0, 0b100100000],
        pieces: [1, 2, 0, 2, 2, 0],
        player: 1,
    };
    for depth in [0, 1, 2, 5, 40, 65535] {
        assert_eq!(search(&b, depth), (LOSS_SCORE - depth, 1), "depth {}", depth);
        let mut copy = b;
        let mut nodes = 10;
        assert_eq!(negamax(&mut copy, -3, 4, depth, &mut nodes), LOSS_SCORE - depth);
        assert_eq!(nodes, 11);
    }
    let g = game(&[place(2, 0), place(2, 5), place(2, 1), place(2, 8), place(0, 2)]);
    assert_eq!(*g.get_board(), b);
    for start in [0, 1, 4] {
        let e = deepening(&g, start, 6);
        assert_eq!((e.kind, e.depth, e.nodes), (EvalKind::Loss, start as u16, 1));
    }
}

#[test]
fn a_line_of_the_side_to_move_is_a_win_at_any_depth() {
    let b = Board {
        layers: [0b000000100, 0, 0b000000011, 0, 0, 0b100100000],
        pieces: [1, 2, 0, 2, 2, 0],
        player: 0,
    };
    for depth in [0, 1, 2, 5, 40, 65535] {
        assert_eq!(search(&b, depth), (WIN_SCORE + depth, 1), "depth {}", depth);
        assert_eq!(kind(search(&b, depth).0), EvalKind::Win);
    }
}

#[test]
fn lines_of_both_sides_are_a_draw() {
    let b = Board {
        layers: [0, 0b000111000, 0, 0, 0, 0b111000000],
        pieces: [2, 0, 2, 2, 2, 0],
        player: 0,
    };
    assert_eq!(search(&b, 3), (DRAW_SCORE, 1));
    assert_eq!(search(&Board { player: 1, ..b }, 0), (DRAW_SCORE, 1));
}

#[test]
fn two_in_a_line_with_a_piece_at_hand_win_at_depth_1() {
    let g = game(&[place(2, 0), place(2, 5), place(2, 1), place(2, 8)]);
    assert_eq!(search(g.get_board(), 1), (WIN_SCORE, 2));
    let e = deepening(&g, 1, 1);
    assert_eq!((e.kind, e.depth, e.nodes), (EvalKind::Win, 1, 2));
    // found one move later at depth 2, and so scored one higher
    assert_eq!(search(g.get_board(), 2).0, WIN_SCORE + 1);
    let e = deepening(&g, 0, 4);
    assert_eq!((e.kind, e.depth, e.nodes), (EvalKind::Win, 1, 3));
}

#[test]
fn a_win_on_the_diagonal_is_tried_first() {
    // large pieces on 0 and 4: cell 8 completes the diagonal
    let g = game(&[place(2, 0), place(2, 1), place(2, 4), place(2, 2)]);
    assert_eq!(search(g.get_board(), 1), (WIN_SCORE, 2));
}

#[test]
fn a_threat_that_cannot_be_met_is_a_loss_at_depth_2() {
    // player 1 has large pieces on 0 and 4 and on 0 and 1; player 0 can cover
    // neither 8 nor 2 for good, and has no line of its own in reach
    let b = Board {
        layers: [0b010000000, 0, 0, 0, 0b000000010, 0b000010001],
        pieces: [1, 2, 2, 2, 1, 0],
        player: 0,
    };
    assert_eq!(b.get_state(), 0);
    assert_eq!(full_width(&b, 2), LOSS_SCORE - 0);
    let (score, _) = search(&b, 2);
    assert_eq!(score, LOSS_SCORE);
    assert_eq!(search(&b, 1).0, FAR_SCORE);
}

#[test]
fn the_initial_position_is_too_far_at_depth_3() {
    let g = GameBoard::new(false);
    let e = deepening(&g, 1, 3);
    assert_eq!(e.kind, EvalKind::TooFar);
    assert_eq!(e.depth, 3);
    let by_depth: u64 = (1..=3).map(|d| search(g.get_board(), d).1).sum();
    assert_eq!(e.nodes, by_depth);
    let e = deepening(&g, 3, 3);
    assert_eq!((e.kind, e.depth), (EvalKind::TooFar, 3));
    assert_eq!(e.nodes, search(g.get_board(), 3).1);
}

#[test]
fn deepening_stops_at_the_start_depth_where_it_is_past_the_limit() {
    let g = GameBoard::new(false);
    let e = deepening(&g, 2, 1);
    assert_eq!((e.kind, e.depth, e.nodes), (EvalKind::TooFar, 2, 78));
    let e = deepening(&g, 0, 0);
    assert_eq!((e.kind, e.depth, e.nodes), (EvalKind::TooFar, 0, 1));
}

#[test]
fn deepening_adds_up_the_nodes_of_its_searches() {
    let g = GameBoard::new(false);
    let e = deepening(&g, 0, 2);
    assert_eq!((e.kind, e.depth, e.nodes), (EvalKind::TooFar, 2, 1 + 28 + 78));
}

#[test]
fn the_counter_of_nodes_stops_at_its_largest_value() {
    let mut b = Board::new();
    let mut nodes = u64::MAX - 5;
    assert_eq!(negamax(&mut b, MIN_SCORE, MAX_SCORE, 1, &mut nodes), FAR_SCORE);
    assert_eq!(nodes, u64::MAX);
}

#[test]
fn the_window_bounds_the_score() {
    let g = game(&[place(2, 0), place(2, 5), place(2, 1), place(2, 8)]);
    let mut b = *g.get_board();
    let mut nodes = 0;
    // no score can reach beta any more: alpha comes back
    assert_eq!(negamax(&mut b, WIN_SCORE + 1, MAX_SCORE, 2, &mut nodes), WIN_SCORE + 1);
    assert_eq!(nodes, 1);
    // the first move reaches beta
    assert_eq!(negamax(&mut b, MIN_SCORE, 0, 1, &mut nodes), WIN_SCORE);
    assert_eq!(nodes, 3);
}

#[test]
fn the_search_agrees_with_full_width_minimax_after_one_and_two_plies() {
    for depth in 0..=3 {
        assert_eq!(
            kind(search(&Board::new(), depth).0),
            kind(full_width(&Board::new(), depth))
        );
    }
    for b in positions_after(1, 1) {
        for depth in 0..=3 {
            assert_eq!(
                kind(search(&b, depth).0),
                kind(full_width(&b, depth)),
                "{:?} at depth {}",
                b,
                depth
            );
        }
    }
    for b in positions_after(2, 7) {
        for depth in 0..=2 {
            assert_eq!(
                kind(search(&b, depth).0),
                kind(full_width(&b, depth)),
                "{:?} at depth {}",
                b,
                depth
            );
        }
    }
}

#[test]
fn the_search_agrees_with_full_width_minimax_near_the_end() {
    let mut decided = 0;
    let mut open = 0;
    for b in positions_after(4, 211) {
        for depth in 0..=2 {
            let score = search(&b, depth).0;
            assert_eq!(score, full_width(&b, depth), "{:?} at depth {}", b, depth);
            if kind(score) == EvalKind::TooFar {
                open += 1;
            } else {
                decided += 1;
            }
        }
    }
    assert!(decided > 0);
    assert!(open > 0);
}

#[test]
fn the_search_agrees_with_full_width_minimax_in_chosen_positions() {
    let games = [
        game(&[place(2, 0), place(2, 5), place(2, 1), place(2, 8)]),
        game(&[place(2, 0), place(2, 1), place(2, 4), place(2, 2)]),
        game(&[place(2, 4), place(2, 0), place(1, 8), place(2, 2), place(2, 1)]),
        game(&[place(1, 4), place(2, 4), place(2, 0), place(2, 8), place(1, 2), place(0, 6)]),
        game(&[place(0, 0), place(1, 0), place(2, 0), place(0, 4), shift(2, 0, 4), place(2, 8)]),
    ];
    for g in &games {
        for depth in 0..=3 {
            assert_eq!(
                kind(search(g.get_board(), depth).0),
                kind(full_width(g.get_board(), depth)),
                "{:?} at depth {}",
                g.get_board(),
                depth
            );
        }
    }
}
