use gobblet::{Board, GameBoard, Move, Select, State};

fn place(size: i32, to: i32) -> Move {
    Move { is_new: true, size, from: -1, to }
}

fn shift(size: i32, from: i32, to: i32) -> Move {
    Move { is_new: false, size, from, to }
}

fn game(moves: &[Move]) -> GameBoard {
    let mut g = GameBoard::new(false);
    for m in moves {
        assert!(g.do_move(*m), "{:?}", m);
    }
    g
}

#[test]
fn a_new_game_starts_from_the_initial_position() {
    let g = GameBoard::new(true);
    assert_eq!(*g.get_board(), Board::new());
    assert_eq!(g.player(), 0);
    assert_eq!(g.get_state(), State::InGame);
    assert!(g.get_history().is_empty());
    assert!(g.auto_select);
    assert_eq!(
        g.get_select(),
        (Select::Idle, Move { is_new: false, size: 0, from: 0, to: 0 })
    );
    for player in 0..2 {
        for size in 0..3 {
            assert_eq!(g.get_left(player, size), 2);
        }
    }
}

#[test]
fn a_move_is_played_and_recorded() {
    let mut g = GameBoard::new(false);
    assert!(g.do_move(place(2, 4)));
    assert_eq!(g.player(), 1);
    assert_eq!(g.get_history(), &vec![place(2, 4)]);
    assert_eq!(g.get_left(0, 2), 1);
    assert_eq!(g.get_board().layers, [0, 0, 0b000010000, 0, 0, 0]);
    assert!(g.do_move(place(1, 0)));
    assert!(g.do_move(shift(2, 4, 0)));
    assert_eq!(g.get_board().layers, [0, 0, 0b000000001, 0, 0b000000001, 0]);
    assert_eq!(g.get_history().len(), 3);
    assert_eq!(g.player(), 1);
}

#[test]
fn a_move_against_the_rules_is_refused() {
    let mut g = game(&[place(1, 4)]);
    let before = g.clone();
    assert!(!g.do_move(place(0, 4)));
    assert!(!g.do_move(place(1, 4)));
    assert!(!g.do_move(shift(1, 4, 5)));
    assert!(!g.do_move(shift(0, 0, 5)));
    assert_eq!(g, before);
    assert!(g.is_valid(place(2, 4)));
    assert!(!g.is_valid(place(1, 4)));
}

#[test]
fn a_reserve_runs_out() {
    let mut g = game(&[place(2, 0), place(2, 1), place(2, 2), place(2, 3)]);
    assert_eq!(g.get_left(0, 2), 0);
    assert!(!g.is_valid(place(2, 8)));
    assert!(!g.do_move(place(2, 8)));
    assert!(g.is_valid(shift(2, 0, 8)));
}

#[test]
fn taking_back_restores_the_game() {
    let mut g = game(&[place(2, 4), place(1, 0)]);
    let before = g.clone();
    assert!(g.do_move(shift(2, 4, 0)));
    assert!(g.undo_move());
    assert_eq!(g, before);
    assert!(g.undo_move());
    assert!(g.undo_move());
    assert_eq!(*g.get_board(), Board::new());
    assert!(g.get_history().is_empty());
    assert!(!g.undo_move());
    assert_eq!(*g.get_board(), Board::new());
}

#[test]
fn the_game_ends_with_a_line() {
    let mut g = game(&[place(2, 0), place(2, 5), place(2, 1), place(2, 8)]);
    assert_eq!(g.get_state(), State::InGame);
    assert!(g.do_move(place(0, 2)));
    // the side to move has lost
    assert_eq!(g.get_state(), State::Loss);
    assert_eq!(g.player(), 1);
    assert!(!g.do_move(place(0, 3)));
    assert!(g.get_moves().len() > 0);
    assert!(g.undo_move());
    assert_eq!(g.get_state(), State::InGame);
}

#[test]
fn uncovering_a_line_of_the_other_side_while_making_one_is_a_draw() {
    // player 0 has pieces on 0, 1 and 2, the one on 1 under a large piece of
    // player 1, who has pieces on 3 and 5
    let mut g = game(&[
        place(1, 0),
        place(0, 3),
        place(1, 1),
        place(2, 1),
        place(2, 2),
        place(1, 5),
        place(0, 8),
    ]);
    assert_eq!(g.player(), 1);
    assert_eq!(g.get_state(), State::InGame);
    // the large piece leaves 1 for 4: a row for each side
    assert!(g.do_move(shift(2, 1, 4)));
    assert_eq!(g.get_state(), State::Draw);
}

#[test]
fn the_top_of_a_cell_is_its_largest_piece() {
    let g = game(&[place(0, 3), place(1, 3), place(2, 3), place(0, 5)]);
    assert_eq!(g.get_top(3), Some((0, 2)));
    assert_eq!(g.get_top(5), Some((1, 0)));
    assert_eq!(g.get_top(4), None);
    let g = game(&[place(0, 3), place(1, 3)]);
    assert_eq!(g.get_top(3), Some((1, 1)));
}

#[test]
fn the_initial_position_has_27_moves_by_cell_and_size() {
    let g = GameBoard::new(false);
    let moves = g.get_moves();
    assert_eq!(moves.len(), 27);
    assert_eq!(moves[0], place(0, 0));
    assert_eq!(moves[1], place(1, 0));
    assert_eq!(moves[2], place(2, 0));
    assert_eq!(moves[3], place(0, 1));
    assert_eq!(moves[26], place(2, 8));
}

#[test]
fn relocations_come_before_the_placement() {
    let g = game(&[place(1, 4), place(0, 0)]);
    let moves = g.get_moves();
    // cell 0: medium from 4, medium new, large new
    assert_eq!(&moves[0..3], &[shift(1, 4, 0), place(1, 0), place(2, 0)]);
    // cell 1: small new, medium from 4, medium new, large new
    assert_eq!(&moves[3..7], &[place(0, 1), shift(1, 4, 1), place(1, 1), place(2, 1)]);
    // 7 empty cells with 4 moves, cell 0 with 3, cell 4 with the large piece
    assert_eq!(moves.len(), 7 * 4 + 3 + 1);
    for m in &moves {
        assert!(g.is_valid(*m), "{:?}", m);
    }
}

#[test]
fn every_listed_move_can_be_played_and_taken_back() {
    let mut g = game(&[place(1, 4), place(0, 0), place(2, 0), place(2, 4)]);
    let before = g.clone();
    let moves = g.get_moves();
    assert!(!moves.is_empty());
    for m in moves {
        assert!(g.do_move(m), "{:?}", m);
        assert!(g.undo_move());
        assert_eq!(g, before);
    }
}

#[test]
fn choosing_a_piece_from_the_reserve_and_a_cell() {
    let mut g = GameBoard::new(false);
    g.select_new(0, 2);
    assert_eq!(g.get_select().0, Select::From);
    assert!(g.is_selected_new(2));
    assert!(!g.is_selected_new(1));
    assert!(!g.is_selected_board(0));
    assert!(g.select_board(4));
    assert_eq!(
        g.get_select(),
        (Select::Move, Move { is_new: true, size: 2, from: 0, to: 4 })
    );
    assert!(g.is_selected_board(4));
    assert!(g.get_history().is_empty());
    assert!(g.submit_select());
    assert_eq!(g.get_history().len(), 1);
    assert_eq!(g.get_top(4), Some((0, 2)));
    assert_eq!(g.get_select().0, Select::Idle);
    assert!(!g.submit_select());
}

#[test]
fn choosing_with_auto_select_plays_at_once() {
    let mut g = GameBoard::new(true);
    g.select_new(0, 1);
    assert!(g.select_board(3));
    assert_eq!(g.get_history().len(), 1);
    assert_eq!(g.get_top(3), Some((0, 1)));
    assert_eq!(g.player(), 1);
    assert_eq!(g.get_select().0, Select::Idle);
}

#[test]
fn choosing_a_piece_on_the_board() {
    let mut g = game(&[place(1, 4), place(0, 0)]);
    // cell 0 holds a piece of the other side, cell 8 nothing
    assert!(!g.select_board(0));
    assert_eq!(g.get_select().0, Select::Idle);
    assert!(!g.select_board(8));
    assert_eq!(g.get_select().0, Select::Idle);
    assert!(!g.select_board(4));
    assert_eq!(g.get_select().0, Select::From);
    assert!(g.is_selected_board(4));
    assert!(!g.is_selected_new(1));
    // cell 4 is not free for the piece that stands on it: the choice is dropped
    assert!(!g.select_board(4));
    assert_eq!(g.get_select().0, Select::Idle);
    assert!(!g.select_board(4));
    assert!(g.select_board(0));
    assert_eq!(g.get_select(), (Select::Move, shift(1, 4, 0)));
    assert!(g.is_selected_board(4));
    assert!(g.is_selected_board(0));
    assert!(g.submit_select());
    assert_eq!(g.get_top(0), Some((0, 1)));
    assert_eq!(g.get_top(4), None);
}

#[test]
fn choosing_for_the_wrong_side_or_without_a_piece_drops_the_choice() {
    let mut g = GameBoard::new(false);
    g.select_new(0, 2);
    g.select_new(1, 2);
    assert_eq!(g.get_select().0, Select::Idle);
    let mut g = game(&[place(2, 0), place(2, 1), place(2, 2), place(2, 3)]);
    g.select_new(0, 1);
    assert_eq!(g.get_select().0, Select::From);
    g.select_new(0, 2);
    assert_eq!(g.get_select().0, Select::Idle);
}

#[test]
fn a_choice_can_be_removed() {
    let mut g = GameBoard::new(false);
    g.select_new(0, 0);
    g.remove_select();
    assert_eq!(g.get_select().0, Select::Idle);
    assert!(!g.is_selected_new(0));
}

#[test]
fn nothing_can_be_chosen_when_the_game_is_over() {
    let mut g = game(&[place(2, 0), place(2, 5), place(2, 1), place(2, 8), place(0, 2)]);
    g.select_new(1, 0);
    assert_eq!(g.get_select().0, Select::Idle);
    assert!(!g.select_board(5));
    assert_eq!(g.get_select().0, Select::Idle);
}

#[test]
fn a_clone_is_equal_and_independent() {
    let mut g = game(&[place(1, 4)]);
    let copy = g.clone();
    assert_eq!(copy, g);
    assert!(g.do_move(place(0, 0)));
    assert_eq!(copy.get_history().len(), 1);
    assert_eq!(g.get_history().len(), 2);
}
