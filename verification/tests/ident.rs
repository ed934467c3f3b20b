use gobblet::{Board, GameBoard, Move};

fn place(size: i32, to: i32) -> Move {
    Move { is_new: true, size, from: -1, to }
}

fn game(moves: &[Move]) -> GameBoard {
    let mut g = GameBoard::new(false);
    for m in moves {
        assert!(g.do_move(*m), "{:?}", m);
    }
    g
}

#[test]
fn the_initial_position_has_identifier_zero() {
    let g = GameBoard::new(false);
    assert_eq!(g.get_id(), 0);
    assert_eq!(g.get_max_id(), 0);
}

#[test]
fn the_identifier_packs_masks_moves_and_player() {
    let g = game(&[place(0, 0)]);
    // mask 0 is shifted by 5 * 9 + 8 + 1 bits, one move, player 1
    assert_eq!(g.get_id(), (1u64 << 54) + 3);
    let b = Board {
        layers: [1, 2, 3, 4, 5, 511],
        pieces: [0; 6],
        player: 1,
    };
    let masks: u64 = (1 << 45) | (2 << 36) | (3 << 27) | (4 << 18) | (5 << 9) | 511;
    assert_eq!(b.ident(200), (masks << 9) | (200 << 1) | 1);
    assert_eq!(Board { player: 0, ..b }.ident(0), masks << 9);
}

#[test]
fn the_canonical_identifier_is_the_largest_of_the_eight() {
    let g = game(&[place(0, 0)]);
    // the piece can be turned to the cells 0, 2, 8 and 6: cell 8 gives the most
    assert_eq!(g.get_max_id(), (1u64 << 62) + 3);
    let g = game(&[place(0, 8)]);
    assert_eq!(g.get_max_id(), g.get_id());
}

#[test]
fn symmetric_positions_share_the_canonical_identifier() {
    let rotate = [2, 5, 8, 1, 4, 7, 0, 3, 6];
    let mirror = [6, 7, 8, 3, 4, 5, 0, 1, 2];
    let g = game(&[place(2, 0), place(1, 1), place(0, 5), place(2, 1), place(1, 6)]);
    let id = g.get_board().canonical_ident(5);
    assert_eq!(id, g.get_max_id());
    let mut b = *g.get_board();
    let mut ids = Vec::new();
    for _ in 0..2 {
        for _ in 0..4 {
            assert_eq!(b.canonical_ident(5), id);
            assert!(b.ident(5) <= id);
            ids.push(b.ident(5));
            b.reorder(rotate);
        }
        b.reorder(mirror);
    }
    assert!(ids.contains(&id));
    ids.sort();
    ids.dedup();
    assert_eq!(ids.len(), 8);
}

#[test]
fn the_same_moves_mirrored_give_the_same_canonical_identifier() {
    let a = game(&[place(2, 0), place(1, 4), place(0, 1)]);
    let b = game(&[place(2, 2), place(1, 4), place(0, 5)]);
    let c = game(&[place(2, 6), place(1, 4), place(0, 7)]);
    assert_ne!(a.get_id(), b.get_id());
    assert_eq!(a.get_max_id(), b.get_max_id());
    assert_eq!(a.get_max_id(), c.get_max_id());
}

#[test]
fn positions_that_differ_in_moves_or_player_differ_in_identifier() {
    let b = Board::new();
    assert_ne!(b.canonical_ident(0), b.canonical_ident(1));
    assert_ne!(b.canonical_ident(0), Board { player: 1, ..b }.canonical_ident(0));
    let a = game(&[place(2, 0)]);
    let c = game(&[place(2, 1)]);
    assert_ne!(a.get_max_id(), c.get_max_id());
}
