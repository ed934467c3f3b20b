use gobblet::Board;

fn board(layers: [i32; 6], pieces: [i32; 6], player: i32) -> Board {
    Board { layers, pieces, player }
}

#[test]
fn new_board_is_empty_with_all_pieces() {
    let b = Board::new();
    assert_eq!(b.layers, [0; 6]);
    assert_eq!(b.pieces, [2; 6]);
    assert_eq!(b.player, 0);
    assert_eq!(b.get_state(), 0);
}

#[test]
fn idx_is_three_per_player_plus_size() {
    let mut b = Board::new();
    assert_eq!(b.idx(0), 0);
    assert_eq!(b.idx(2), 2);
    b.player = 1;
    assert_eq!(b.idx(0), 3);
    assert_eq!(b.idx(1), 4);
}

#[test]
fn placement_takes_a_piece_sets_the_cell_and_passes_the_turn() {
    let mut b = Board::new();
    b.do_new_move(1, 4);
    assert_eq!(b.layers, [0, 0b000010000, 0, 0, 0, 0]);
    assert_eq!(b.pieces, [2, 1, 2, 2, 2, 2]);
    assert_eq!(b.player, 1);
    b.do_new_move(2, 4);
    assert_eq!(b.layers, [0, 0b000010000, 0, 0, 0, 0b000010000]);
    assert_eq!(b.pieces, [2, 1, 2, 2, 2, 1]);
    assert_eq!(b.player, 0);
}

#[test]
fn taking_back_a_placement_restores_the_board() {
    let mut b = Board::new();
    b.do_new_move(2, 0);
    let before = b;
    b.do_new_move(0, 7);
    b.undo_new_move(0, 7);
    assert_eq!(b, before);
    b.undo_new_move(2, 0);
    assert_eq!(b, Board::new());
}

#[test]
fn relocation_moves_the_bit_and_passes_the_turn() {
    let mut b = board([0, 0, 0b000000001, 0, 0, 0], [2, 2, 1, 2, 2, 2], 0);
    b.do_board_move(2, 0, 8);
    assert_eq!(b.layers, [0, 0, 0b100000000, 0, 0, 0]);
    assert_eq!(b.pieces, [2, 2, 1, 2, 2, 2]);
    assert_eq!(b.player, 1);
    b.undo_board_move(2, 0, 8);
    assert_eq!(b, board([0, 0, 0b000000001, 0, 0, 0], [2, 2, 1, 2, 2, 2], 0));
}

#[test]
fn a_cell_is_free_for_larger_pieces_only() {
    // a medium piece of player 1 on cell 3
    let b = board([0, 0, 0, 0, 0b000001000, 0], [2, 2, 2, 2, 1, 2], 0);
    assert!(!b.is_free(0, 3));
    assert!(!b.is_free(1, 3));
    assert!(b.is_free(2, 3));
    assert!(b.is_free(0, 4));
    assert!(b.is_free(1, 4));
}

#[test]
fn a_piece_is_left_while_the_reserve_is_not_empty() {
    let mut b = board([0; 6], [0, 1, 2, 2, 0, 2], 0);
    assert!(!b.is_left(0));
    assert!(b.is_left(1));
    assert!(b.is_left(2));
    b.player = 1;
    assert!(b.is_left(0));
    assert!(!b.is_left(1));
}

#[test]
fn a_covered_piece_cannot_be_moved() {
    // player 0: small on 0 and 1; player 1: medium on 1
    let b = board([0b000000011, 0, 0, 0, 0b000000010, 0], [0, 2, 2, 2, 1, 2], 0);
    assert!(b.is_movable(0, 0));
    assert!(!b.is_movable(0, 1));
    assert!(!b.is_movable(0, 2));
    assert!(!b.is_movable(1, 1));
    let other = Board { player: 1, ..b };
    assert!(other.is_movable(1, 1));
}

#[test]
fn a_piece_covers_the_next_smaller_size_only() {
    // a small piece on 0, a medium piece on 1
    let b = board([0b000000001, 0, 0, 0, 0b000000010, 0], [1, 2, 2, 2, 1, 2], 0);
    assert!(b.is_cover(1, 0));
    assert!(!b.is_cover(2, 0));
    assert!(b.is_cover(2, 1));
    assert!(!b.is_cover(1, 1));
    assert!(!b.is_cover(0, 0));
    assert!(!b.is_cover(1, 5));
}

#[test]
fn the_view_shows_the_top_piece_of_each_cell() {
    // player 0: small on 0, 1, 2; medium on 3; large on 1
    // player 1: medium on 0 and 1; large on 3
    let b = board(
        [0b000000111, 0b000001000, 0b000000010, 0, 0b000000011, 0b000001000],
        [0, 1, 1, 2, 0, 1],
        0,
    );
    assert_eq!(b.get_view(0), 0b000000110);
    assert_eq!(b.get_view(1), 0b000001001);
}

#[test]
fn lines_are_rows_columns_and_diagonals() {
    assert!(Board::is_line(0b000000111));
    assert!(Board::is_line(0b000111000));
    assert!(Board::is_line(0b111000000));
    assert!(Board::is_line(0b001001001));
    assert!(Board::is_line(0b010010010));
    assert!(Board::is_line(0b100100100));
    assert!(Board::is_line(0b100010001));
    assert!(Board::is_line(0b001010100));
    assert!(Board::is_line(0b101010101));
    assert!(!Board::is_line(0));
    assert!(!Board::is_line(0b000000110));
    assert!(!Board::is_line(0b000001110));
    assert!(!Board::is_line(0b110001011));
    assert!(!Board::is_line(0b010101010));
}

#[test]
fn the_state_tells_who_has_a_line() {
    let row = 0b000000111;
    let column = 0b100100100;
    assert_eq!(board([0, 0, row, 0, 0, 0], [2, 2, 0, 2, 2, 2], 0).get_state(), 1);
    assert_eq!(board([0, 0, row, 0, 0, 0], [2, 2, 0, 2, 2, 2], 1).get_state(), 2);
    assert_eq!(board([0, 0, 0b000011000, 0, 0, column], [2; 6], 0).get_state(), 2);
    assert_eq!(board([0, 0b000111000, 0, 0, 0, 0b111000000], [2; 6], 0).get_state(), 3);
    assert_eq!(board([0, 0b000111000, 0, 0, 0, 0b111000000], [2; 6], 1).get_state(), 3);
    assert_eq!(board([0, 0b000011000, 0, 0, 0, 0b011000000], [2; 6], 1).get_state(), 0);
}

#[test]
fn a_covered_line_does_not_count() {
    // player 0 has a row of small pieces, the middle one under a medium piece
    let b = board([0b000000111, 0, 0, 0, 0b000000010, 0], [0, 2, 2, 2, 1, 2], 0);
    assert_eq!(b.get_state(), 0);
}

#[test]
fn winning_spots_in_rows_and_columns() {
    let b = board([0, 0, 0b000000011, 0, 0, 0], [2, 2, 0, 2, 2, 2], 0);
    assert!(b.is_winning_spot(2));
    for pos in [0, 1, 3, 4, 5, 6, 7, 8] {
        assert!(!b.is_winning_spot(pos), "cell {}", pos);
    }
    let b = board([0, 0b001000001, 0, 0, 0, 0], [2, 0, 2, 2, 2, 2], 0);
    assert!(b.is_winning_spot(3));
    assert!(!b.is_winning_spot(4));
}

#[test]
fn winning_spots_at_the_ends_of_the_diagonals() {
    // cells 0 and 4: cell 8 completes the diagonal
    let b = board([0, 0, 0b000010001, 0, 0, 0], [2, 2, 0, 2, 2, 2], 0);
    assert!(b.is_winning_spot(8));
    assert!(!b.is_winning_spot(2));
    // cells 4 and 8: cell 0
    let b = board([0, 0, 0b100010000, 0, 0, 0], [2, 2, 0, 2, 2, 2], 0);
    assert!(b.is_winning_spot(0));
    // cells 2 and 4: cell 6
    let b = board([0, 0, 0b000010100, 0, 0, 0], [2, 2, 0, 2, 2, 2], 0);
    assert!(b.is_winning_spot(6));
    // cells 4 and 6: cell 2
    let b = board([0, 0, 0b001010000, 0, 0, 0], [2, 2, 0, 2, 2, 2], 0);
    assert!(b.is_winning_spot(2));
    // cells 0 and 8, or 2 and 6: the centre
    let b = board([0, 0, 0b100000001, 0, 0, 0], [2, 2, 0, 2, 2, 2], 0);
    assert!(b.is_winning_spot(4));
    let b = board([0, 0, 0b001000100, 0, 0, 0], [2, 2, 0, 2, 2, 2], 0);
    assert!(b.is_winning_spot(4));
}

#[test]
fn winning_spots_are_those_of_the_side_to_move() {
    let b = board([0, 0, 0b000000011, 0, 0, 0], [2, 2, 0, 2, 2, 2], 1);
    assert!(!b.is_winning_spot(2));
}

#[test]
fn reorder_takes_each_cell_where_the_order_says() {
    let rotate = [2, 5, 8, 1, 4, 7, 0, 3, 6];
    let mirror = [6, 7, 8, 3, 4, 5, 0, 1, 2];
    let start = board([0b000000001, 0b000000110, 0, 0b000010000, 0, 0b100000000], [1, 0, 2, 1, 2, 1], 1);
    let mut b = start;
    b.reorder(rotate);
    assert_eq!(b.layers, [0b000000100, 0b100100000, 0, 0b000010000, 0, 0b001000000]);
    assert_eq!(b.pieces, start.pieces);
    assert_eq!(b.player, 1);
    b.reorder(rotate);
    b.reorder(rotate);
    b.reorder(rotate);
    assert_eq!(b, start);
    b.reorder(mirror);
    assert_eq!(b.layers, [0b001000000, 0b110000000, 0, 0b000010000, 0, 0b000000100]);
    b.reorder(mirror);
    assert_eq!(b, start);
}

#[test]
fn reorder_with_a_constant_order_gathers_the_cells() {
    let mut b = board([0b000000110, 0, 0, 0, 0, 0], [0, 2, 2, 2, 2, 2], 0);
    b.reorder([3; 9]);
    assert_eq!(b.layers, [0b000001000, 0, 0, 0, 0, 0]);
}

#[test]
fn the_text_shows_the_cells_by_size_and_the_reserves() {
    assert_eq!(
        Board::new().text(),
        "Board p0 s0\n  --------- | 2-2\n  --------- | 2-2\n  --------- | 2-2\n"
    );
    // player 0: small on 0 and 3, large on 8; player 1: small on 3, medium on 1
    // and 2, large on 6, 7 and 8
    let b = board(
        [0b000001001, 0, 0b100000000, 0b000001000, 0b000000110, 0b111000000],
        [0, 2, 1, 1, 0, 0],
        1,
    );
    assert_eq!(
        b.text(),
        "Board p1 s1\n  ------XX# | 1-0\n  -XX------ | 2-0\n  O--#----- | 0-1\n"
    );
}
