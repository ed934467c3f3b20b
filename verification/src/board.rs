//! The position: six masks of placed pieces, the pieces still in reserve, and
//! the player to move.

use crate::bits::{
    bit, cell, completes, has_line, lemma_cell_or, lemma_cell_set, lemma_line_marks,
    line_marks, lemma_other_player, lemma_spot_marks, lemma_top_mask, nine, top_mask,
};
use vstd::prelude::*;

verus! {

/// A position of the stacking game.
///
/// Players are 0 and 1, sizes 0 (small) to 2 (large), cells 0..9. Player `p`'s
/// pieces of size `s` are in `layers[3 * p + s]`, one bit per cell, and
/// `pieces[3 * p + s]` of them are still in reserve. A larger piece covers the
/// smaller ones on its cell.
#[derive(Clone, Copy, PartialEq, Eq, Debug)]
pub struct Board {
    pub layers: [i32; 6],
    pub pieces: [i32; 6],
    pub player: i32,
}

impl Board {
    /// Well-formed: a valid player to move, masks of board cells, and between
    /// zero and two pieces of each kind in reserve.
    pub open spec fn wf(&self) -> bool {
        &&& self.turn_ok()
        &&& forall|i: int| 0 <= i < 6 ==> nine(#[trigger] self.layers[i])
        &&& forall|i: int| 0 <= i < 6 ==> 0 <= #[trigger] self.pieces[i] <= 2
    }

    /// The player to move is 0 or 1.
    pub open spec fn turn_ok(&self) -> bool {
        self.player == 0 || self.player == 1
    }

    /// The empty board with every piece in reserve and player 0 to move.
    pub open spec fn initial() -> Board {
        Board { layers: [0i32, 0, 0, 0, 0, 0], pieces: [2i32, 2, 2, 2, 2, 2], player: 0 }
    }

    /// Where the side to move keeps its pieces of `size`.
    pub open spec fn spec_idx(&self, size: i32) -> int {
        self.player * 3 + size
    }

    /// Whether `player` has a piece of `size` on cell `pos`.
    pub open spec fn occupied(&self, player: i32, size: i32, pos: i32) -> bool {
        cell(self.layers[player * 3 + size], pos)
    }

    /// Whether either player has a piece of `size` on cell `pos`.
    pub open spec fn stacked(&self, size: i32, pos: i32) -> bool {
        self.occupied(0, size, pos) || self.occupied(1, size, pos)
    }

    /// Whether the largest piece on cell `pos` is `player`'s.
    pub open spec fn owns(&self, player: i32, pos: i32) -> bool {
        let other = (1 - player) as i32;
        self.occupied(player, 2, pos) || (!self.occupied(other, 2, pos) && (self.occupied(
            player,
            1,
            pos,
        ) || (!self.occupied(other, 1, pos) && self.occupied(player, 0, pos))))
    }

    /// The cells that `player` shows from above, as a mask.
    pub open spec fn spec_view(&self, player: i32) -> i32 {
        let other = (1 - player) as i32;
        top_mask(
            self.layers[player * 3],
            self.layers[player * 3 + 1],
            self.layers[player * 3 + 2],
            self.layers[other * 3 + 1],
            self.layers[other * 3 + 2],
        )
    }

    /// Whether `player` shows three cells in a line.
    pub open spec fn lined(&self, player: i32) -> bool {
        has_line(self.spec_view(player))
    }

    /// 0 while the game goes on, 1 when the side to move has a line, 2 when the
    /// other side has one, 3 when both have.
    pub open spec fn spec_state(&self) -> i32 {
        let win: i32 = if self.lined(self.player) { 1 } else { 0 };
        let loss: i32 = if self.lined((1 - self.player) as i32) { 2 } else { 0 };
        (win + loss) as i32
    }

    /// Whether the side to move would have a line with cell `pos` added to
    /// what it shows.
    pub open spec fn spec_is_winning_spot(&self, pos: i32) -> bool {
        completes(self.spec_view(self.player), pos)
    }

    /// Whether the side to move has a piece of `size` in reserve.
    pub open spec fn spec_is_left(&self, size: i32) -> bool {
        self.pieces[self.spec_idx(size)] > 0
    }

    /// Whether a piece of `size` may go on cell `pos`: no piece of that size or
    /// a larger one is there.
    pub open spec fn spec_is_free(&self, size: i32, pos: i32) -> bool {
        &&& !self.stacked(2, pos)
        &&& size <= 1 ==> !self.stacked(1, pos)
        &&& size <= 0 ==> !self.stacked(0, pos)
    }

    /// Whether the side to move has a piece of `size` on cell `pos` with no
    /// larger piece on it.
    pub open spec fn spec_is_movable(&self, size: i32, pos: i32) -> bool {
        &&& self.occupied(self.player, size, pos)
        &&& size <= 1 ==> !self.stacked(2, pos)
        &&& size <= 0 ==> !self.stacked(1, pos)
    }

    /// Whether a piece of `size` put on cell `pos` would sit on a piece of the
    /// next smaller size.
    pub open spec fn spec_is_cover(&self, size: i32, pos: i32) -> bool {
        size >= 1 && self.stacked((size - 1) as i32, pos)
    }

    /// The position after the side to move has placed a piece of `size` from
    /// its reserve on cell `to`.
    pub open spec fn spec_do_new_move(self, size: i32, to: i32) -> Board {
        let i = self.spec_idx(size);
        Board {
            layers: vstd::array::spec_array_update(self.layers, i, self.layers[i] | bit(to)),
            pieces: vstd::array::spec_array_update(self.pieces, i, (self.pieces[i] - 1) as i32),
            player: (1 - self.player) as i32,
        }
    }

    /// The position before the side that moved last placed a piece of `size`
    /// on cell `to`.
    pub open spec fn spec_undo_new_move(self, size: i32, to: i32) -> Board {
        let i = (1 - self.player) * 3 + size;
        Board {
            layers: vstd::array::spec_array_update(self.layers, i, self.layers[i] ^ bit(to)),
            pieces: vstd::array::spec_array_update(self.pieces, i, (self.pieces[i] + 1) as i32),
            player: (1 - self.player) as i32,
        }
    }

    /// The position after the side to move has taken its piece of `size` from
    /// cell `from` to cell `to`.
    pub open spec fn spec_do_board_move(self, size: i32, from: i32, to: i32) -> Board {
        let i = self.spec_idx(size);
        Board {
            layers: vstd::array::spec_array_update(
                self.layers,
                i,
                (self.layers[i] ^ bit(from)) | bit(to),
            ),
            pieces: self.pieces,
            player: (1 - self.player) as i32,
        }
    }

    /// The position before the side that moved last took its piece of `size`
    /// from cell `from` to cell `to`.
    pub open spec fn spec_undo_board_move(self, size: i32, from: i32, to: i32) -> Board {
        let i = (1 - self.player) * 3 + size;
        Board {
            layers: vstd::array::spec_array_update(
                self.layers,
                i,
                (self.layers[i] ^ bit(to)) | bit(from),
            ),
            pieces: self.pieces,
            player: (1 - self.player) as i32,
        }
    }

    /// The initial position.
    pub fn new() -> (b: Board)
        ensures
            b == Board::initial(),
            b.wf(),
    {
        let b = Board { layers: [0;6], pieces: [2;6], player: 0 };
        assert(b.layers =~= Board::initial().layers);
        assert(b.pieces =~= Board::initial().pieces);
        return b;
    }

    /// Whether cell `pos` would complete a line of what the side to move shows.
    pub fn is_winning_spot(self: &Board, pos: i32) -> (r: bool)
        requires
            self.turn_ok(),
            0 <= pos < 9,
        ensures
            r == self.spec_is_winning_spot(pos),
    {
        let view = self.get_view(self.player);
        let mut spots: i32 = 0;
        spots |= (view << 1) & (view << 2) & 0b100100100;  // right end of a row
        spots |= (view >> 1) & (view << 1) & 0b010010010;  // middle
        spots |= (view >> 2) & (view >> 1) & 0b001001001;  // left end
        spots |= (view << 3) & (view << 6) & 0b111000000;  // bottom of a column
        spots |= (view >> 3) & (view << 3) & 0b000111000;  // middle
        spots |= (view >> 6) & (view >> 3) & 0b000000111;  // top
        spots |= (view << 2) & (view << 4) & 0b001000000;  // diagonal 2-4-6, at 6
        spots |= (view >> 2) & (view << 2) & 0b000010000;  // at 4
        spots |= (view >> 4) & (view >> 2) & 0b000000100;  // at 2
        spots |= (view << 4) & (view << 8) & 0b100000000;  // diagonal 0-4-8, at 8
        spots |= (view >> 4) & (view << 4) & 0b000010000;  // at 4
        spots |= (view >> 8) & (view >> 4) & 0b000000001;  // at 0
        proof {
            lemma_spot_marks(view, pos);
        }
        return spots & (1 << pos) != 0;
    }

    /// Whether the side to move has a piece of `size` in reserve.
    pub fn is_left(self: &Board, size: i32) -> (r: bool)
        requires
            self.turn_ok(),
            0 <= size < 3,
        ensures
            r == self.spec_is_left(size),
    {
        return self.pieces[self.idx(size)] > 0;
    }

    /// Whether a piece of `size` may go on cell `pos`.
    pub fn is_free(self: &Board, size: i32, pos: i32) -> (r: bool)
        requires
            0 <= size < 3,
            0 <= pos < 9,
        ensures
            r == self.spec_is_free(size, pos),
    {
        let large = self.layers[2] | self.layers[5];
        let medium = self.layers[1] | self.layers[4] | large;
        let same = match size {
            0 => self.layers[0] | self.layers[3] | medium,
            1 => medium,
            _ => large,
        };
        proof {
            lemma_cell_or(self.layers[2], self.layers[5], pos);
            lemma_cell_or(self.layers[1], self.layers[4], pos);
            lemma_cell_or(self.layers[1] | self.layers[4], large, pos);
            lemma_cell_or(self.layers[0], self.layers[3], pos);
            lemma_cell_or(self.layers[0] | self.layers[3], medium, pos);
        }
        return ((1 << pos) & same) == 0;
    }

    /// Whether the side to move can take its piece of `size` from cell `pos`.
    pub fn is_movable(self: &Board, size: i32, pos: i32) -> (r: bool)
        requires
            self.turn_ok(),
            0 <= size < 3,
            0 <= pos < 9,
        ensures
            r == self.spec_is_movable(size, pos),
    {
        let large = self.layers[2] | self.layers[5];
        let bigger = match size {
            0 => self.layers[1] | self.layers[4] | large,
            1 => large,
            _ => 0,
        };
        let own = self.layers[self.idx(size)];
        proof {
            lemma_cell_or(self.layers[2], self.layers[5], pos);
            lemma_cell_or(self.layers[1], self.layers[4], pos);
            lemma_cell_or(self.layers[1] | self.layers[4], large, pos);
            lemma_cell_or(own, bigger, pos);
            lemma_cell_or(own, 0, pos);
        }
        return ((1 << pos) & own & !bigger) != 0;
    }

    /// The cells that `player` shows from above, as a mask.
    pub fn get_view(&self, player: i32) -> (view: i32)
        requires
            player == 0 || player == 1,
        ensures
            view == self.spec_view(player),
            nine(view),
            forall|pos: i32| 0 <= pos < 9 ==> cell(view, pos) == #[trigger] self.owns(player, pos),
    {
        proof {
            lemma_other_player(player);
            self.lemma_view_cells(player);
        }
        let zro = self.layers[(player * 3) as usize] & !self.layers[((player ^ 1) * 3
            + 1) as usize];
        let one = (zro | self.layers[(player * 3 + 1) as usize]) & !self.layers[((player ^ 1) * 3
            + 2) as usize];
        let two = one | self.layers[(player * 3 + 2) as usize];
        return two & 0b111111111;
    }

    /// Whether `view` holds a line.
    pub fn is_line(view: i32) -> (r: bool)
        requires
            nine(view),
        ensures
            r == has_line(view),
    {
        let mut check = view & (view << 1) & (view << 2) & 0b100100100;
        check |= view & (view << 2) & (view << 4) & 0b001000000;
        check |= view & (view << 3) & (view << 6);
        check |= view & (view << 4) & (view << 8);
        proof {
            lemma_line_marks(view);
        }
        return check != 0;
    }

    /// The state of the position: 0 while the game goes on, 1 when the side to
    /// move has a line, 2 when the other side has one, 3 when both have.
    pub fn get_state(&self) -> (state: i32)
        requires
            self.turn_ok(),
        ensures
            state == self.spec_state(),
            0 <= state <= 3,
    {
        proof {
            lemma_other_player(self.player);
        }
        let win = Self::is_line(self.get_view(self.player));
        let loss = Self::is_line(self.get_view(self.player ^ 1));
        let won: i32 = if win { 1 } else { 0 };
        let lost: i32 = if loss { 2 } else { 0 };
        return won + lost;
    }

    /// Whether a piece of `size` on cell `pos` would sit on a piece of the next
    /// smaller size.
    pub fn is_cover(&self, size: i32, pos: i32) -> (r: bool)
        requires
            0 <= size < 3,
            0 <= pos < 9,
        ensures
            r == self.spec_is_cover(size, pos),
    {
        let smaller = match size {
            0 => 0,
            1 => self.layers[0] | self.layers[3],
            _ => self.layers[1] | self.layers[4],
        };
        proof {
            lemma_cell_or(self.layers[0], self.layers[3], pos);
            lemma_cell_or(self.layers[1], self.layers[4], pos);
        }
        return ((1 << pos) & smaller) != 0;
    }

    /// Where the side to move keeps its pieces of `size`.
    pub fn idx(&self, size: i32) -> (i: usize)
        requires
            self.turn_ok(),
            0 <= size < 3,
        ensures
            i == self.spec_idx(size),
            i < 6,
    {
        return (self.player * 3 + size) as usize;
    }

    /// Places a piece of `size` from the reserve of the side to move on cell
    /// `to`.
    pub fn do_new_move(&mut self, size: i32, to: i32)
        requires
            old(self).wf(),
            0 <= size < 3,
            0 <= to < 9,
            old(self).spec_is_left(size),
        ensures
            *final(self) == old(self).spec_do_new_move(size, to),
            final(self).wf(),
    {
        let i = self.idx(size);
        proof {
            lemma_cell_set(self.layers[i as int], to, 0);
            lemma_other_player(self.player);
        }
        self.pieces[i] -= 1;
        self.layers[i] |= 1 << to;
        self.player ^= 1;
        assert(self.layers =~= old(self).spec_do_new_move(size, to).layers);
        assert(self.pieces =~= old(self).spec_do_new_move(size, to).pieces);
    }

    /// Takes back the placement of a piece of `size` on cell `to`.
    pub fn undo_new_move(&mut self, size: i32, to: i32)
        requires
            old(self).wf(),
            0 <= size < 3,
            0 <= to < 9,
            old(self).pieces[(1 - old(self).player) * 3 + size] < 2,
        ensures
            *final(self) == old(self).spec_undo_new_move(size, to),
            final(self).wf(),
    {
        proof {
            lemma_other_player(self.player);
        }
        self.player ^= 1;
        let i = self.idx(size);
        proof {
            lemma_cell_set(self.layers[i as int], to, 0);
        }
        self.layers[i] ^= 1 << to;
        self.pieces[i] += 1;
        assert(self.layers =~= old(self).spec_undo_new_move(size, to).layers);
        assert(self.pieces =~= old(self).spec_undo_new_move(size, to).pieces);
    }

    /// Takes the piece of `size` of the side to move from cell `from` to cell
    /// `to`.
    pub fn do_board_move(&mut self, size: i32, from: i32, to: i32)
        requires
            old(self).wf(),
            0 <= size < 3,
            0 <= from < 9,
            0 <= to < 9,
        ensures
            *final(self) == old(self).spec_do_board_move(size, from, to),
            final(self).wf(),
    {
        let i = self.idx(size);
        proof {
            lemma_cell_set(self.layers[i as int], from, 0);
            lemma_cell_set(self.layers[i as int] ^ bit(from), to, 0);
            lemma_other_player(self.player);
        }
        self.layers[i] ^= 1 << from;
        self.layers[i] |= 1 << to;
        self.player ^= 1;
        assert(self.layers =~= old(self).spec_do_board_move(size, from, to).layers);
    }

    /// Takes back the relocation of a piece of `size` from cell `from` to cell
    /// `to`.
    pub fn undo_board_move(&mut self, size: i32, from: i32, to: i32)
        requires
            old(self).wf(),
            0 <= size < 3,
            0 <= from < 9,
            0 <= to < 9,
        ensures
            *final(self) == old(self).spec_undo_board_move(size, from, to),
            final(self).wf(),
    {
        proof {
            lemma_other_player(self.player);
        }
        self.player ^= 1;
        let i = self.idx(size);
        proof {
            lemma_cell_set(self.layers[i as int], to, 0);
            lemma_cell_set(self.layers[i as int] ^ bit(to), from, 0);
        }
        self.layers[i] ^= 1 << to;
        self.layers[i] |= 1 << from;
        assert(self.layers =~= old(self).spec_undo_board_move(size, from, to).layers);
    }

    /// The initial position is well-formed, and the game goes on in it.
    pub proof fn lemma_initial()
        ensures
            Board::initial().wf(),
            Board::initial().spec_state() == 0,
    {
        assert(top_mask(0, 0, 0, 0, 0) == 0 && line_marks(0) == 0) by (bit_vector);
        lemma_line_marks(0);
    }

    /// What `spec_view` shows, cell by cell.
    pub proof fn lemma_view_cells(&self, player: i32)
        requires
            player == 0 || player == 1,
        ensures
            nine(self.spec_view(player)),
            forall|pos: i32|
                0 <= pos < 9 ==> cell(self.spec_view(player), pos) == #[trigger] self.owns(
                    player,
                    pos,
                ),
    {
        let other = (1 - player) as i32;
        assert forall|pos: i32| 0 <= pos < 9 implies cell(self.spec_view(player), pos)
            == #[trigger] self.owns(player, pos) by {
            lemma_top_mask(
                self.layers[player * 3],
                self.layers[player * 3 + 1],
                self.layers[player * 3 + 2],
                self.layers[other * 3 + 1],
                self.layers[other * 3 + 2],
                pos,
            );
        }
        lemma_top_mask(
            self.layers[player * 3],
            self.layers[player * 3 + 1],
            self.layers[player * 3 + 2],
            self.layers[other * 3 + 1],
            self.layers[other * 3 + 2],
            0,
        );
    }

    /// Taking back a placement restores the position, if the cell was free
    /// for the piece.
    pub proof fn lemma_undo_new_move(self, size: i32, to: i32)
        requires
            self.wf(),
            0 <= size < 3,
            0 <= to < 9,
            self.spec_is_left(size),
            self.spec_is_free(size, to),
        ensures
            self.spec_do_new_move(size, to).wf(),
            self.spec_do_new_move(size, to).pieces[(1 - self.spec_do_new_move(size, to).player) * 3
                + size] < 2,
            self.spec_do_new_move(size, to).spec_undo_new_move(size, to) == self,
    {
        let i = self.spec_idx(size);
        let next = self.spec_do_new_move(size, to);
        lemma_cell_set(self.layers[i], to, 0);
        assert(next.spec_undo_new_move(size, to).layers =~= self.layers);
        assert(next.spec_undo_new_move(size, to).pieces =~= self.pieces);
    }

    /// Taking back a relocation restores the position, if the piece could be
    /// moved and the target cell was free for it.
    pub proof fn lemma_undo_board_move(self, size: i32, from: i32, to: i32)
        requires
            self.wf(),
            0 <= size < 3,
            0 <= from < 9,
            0 <= to < 9,
            self.spec_is_movable(size, from),
            self.spec_is_free(size, to),
        ensures
            self.spec_do_board_move(size, from, to).wf(),
            self.spec_do_board_move(size, from, to).spec_undo_board_move(size, from, to) == self,
    {
        let i = self.spec_idx(size);
        let next = self.spec_do_board_move(size, from, to);
        let a = self.layers[i];
        lemma_cell_set(a, from, to);
        lemma_cell_set(a, from, from);
        lemma_cell_set(a ^ bit(from), to, from);
        lemma_cell_set(a ^ bit(from), to, to);
        lemma_cell_set((a ^ bit(from)) | bit(to), to, from);
        lemma_cell_set(((a ^ bit(from)) | bit(to)) ^ bit(to), from, 0);
        assert(!cell(a ^ bit(from), to));
        assert(next.spec_undo_board_move(size, from, to).layers =~= self.layers);
    }
}

} // verus!
