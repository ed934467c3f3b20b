//! A game in progress: the position with the moves that led to it, its
//! outcome, and the move that is being put together cell by cell.

use crate::board::Board;
use crate::ident::{canonical_ident, ident};
use crate::moves::Move;
use vstd::prelude::*;

verus! {

/// The outcome of a position for the side to move.
#[derive(Debug, Clone, Copy, PartialEq, Eq, Structural)]
pub enum State {
    InGame,
    Win,
    Draw,
    Loss,
}

/// How far the move that is being put together has come: nothing chosen, the
/// piece chosen, or piece and target cell chosen.
#[derive(Debug, Copy, Clone, PartialEq, Eq, Structural)]
pub enum Select {
    Idle,
    From,
    Move,
}

/// The outcome that a state number of `Board` stands for.
pub open spec fn state_of(code: i32) -> State {
    if code == 0 {
        State::InGame
    } else if code == 1 {
        State::Win
    } else if code == 2 {
        State::Loss
    } else {
        State::Draw
    }
}

/// The position that the moves of `history` lead to from the initial one, if
/// each of them was a move of the position it met and the game still went on.
pub open spec fn replay(history: Seq<Move>) -> Option<Board>
    decreases history.len(),
{
    if history.len() == 0 {
        Some(Board::initial())
    } else {
        match replay(history.drop_last()) {
            Some(b) => if b.spec_state() == 0 && b.legal(history.last()) {
                Some(b.spec_do_move(history.last()))
            } else {
                None
            },
            None => None,
        }
    }
}

/// What a `GameBoard` holds.
pub struct GameView {
    pub history: Seq<Move>,
    pub board: Board,
    pub state: State,
    pub sel: Select,
    pub m: Move,
    pub auto_select: bool,
}

impl GameView {
    /// Well-formed: the position is the one the history leads to, the state is
    /// that of the position, and what is chosen of the pending move is on the
    /// board.
    pub open spec fn wf(self) -> bool {
        &&& replay(self.history) == Some(self.board)
        &&& self.board.wf()
        &&& self.state == state_of(self.board.spec_state())
        &&& self.sel != Select::Idle ==> 0 <= self.m.size < 3
        &&& self.sel != Select::Idle && !self.m.is_new ==> 0 <= self.m.from < 9
        &&& self.sel == Select::Move ==> 0 <= self.m.to < 9
    }

    /// A new game.
    pub open spec fn start(auto_select: bool) -> GameView {
        GameView {
            history: Seq::empty(),
            board: Board::initial(),
            state: State::InGame,
            sel: Select::Idle,
            m: Move { is_new: false, size: 0, from: 0, to: 0 },
            auto_select,
        }
    }

    /// Whether `m` can be played: the game goes on and the rules admit `m`.
    pub open spec fn can_play(self, m: Move) -> bool {
        self.board.spec_is_valid(m) && self.state == State::InGame
    }

    /// The game after `m` was played.
    pub open spec fn played(self, m: Move) -> GameView {
        GameView {
            history: self.history.push(m),
            board: self.board.spec_do_move(m),
            state: state_of(self.board.spec_do_move(m).spec_state()),
            sel: Select::Idle,
            ..self
        }
    }

    /// The game after an attempt to play `m`.
    pub open spec fn after_do_move(self, m: Move) -> GameView {
        if self.can_play(m) {
            self.played(m)
        } else {
            self
        }
    }

    /// The game after the last move was taken back, where there is one.
    pub open spec fn after_undo_move(self) -> GameView {
        if self.history.len() == 0 {
            self
        } else {
            let board = self.board.spec_undo_move(self.history.last());
            GameView {
                history: self.history.drop_last(),
                board,
                state: state_of(board.spec_state()),
                sel: Select::Idle,
                ..self
            }
        }
    }

    /// The game after an attempt to play the pending move.
    pub open spec fn after_submit(self) -> GameView {
        if self.sel == Select::Move {
            self.after_do_move(self.m)
        } else {
            self
        }
    }

    /// The game after cell `pos` was chosen. With nothing chosen yet, a cell
    /// whose top piece belongs to the side to move gives the piece to move.
    /// With a piece chosen, a cell that is free for it gives the target, and
    /// the move is played at once where `auto_select` is set; a cell that is
    /// not free drops the choice.
    pub open spec fn after_select_board(self, pos: i32) -> GameView {
        if self.state != State::InGame {
            self
        } else if self.sel == Select::Idle {
            match self.board.spec_top(pos) {
                Some((p, s)) => if p == self.board.player {
                    GameView {
                        sel: Select::From,
                        m: Move { is_new: false, size: s, from: pos, to: self.m.to },
                        ..self
                    }
                } else {
                    self
                },
                None => self,
            }
        } else if self.board.spec_is_free(self.m.size, pos) {
            let chosen = GameView {
                sel: Select::Move,
                m: Move { to: pos, ..self.m },
                ..self
            };
            if self.auto_select {
                chosen.after_submit()
            } else {
                chosen
            }
        } else {
            GameView { sel: Select::Idle, ..self }
        }
    }

    /// The game after a piece of `size` from the reserve of `player` was
    /// chosen: it is the piece to move if `player` is to move and has one, else
    /// the choice is dropped.
    pub open spec fn after_select_new(self, player: i32, size: i32) -> GameView {
        if self.state != State::InGame {
            self
        } else if self.board.player == player && self.board.spec_is_left(size) {
            GameView {
                sel: Select::From,
                m: Move { is_new: true, size, from: self.m.from, to: self.m.to },
                ..self
            }
        } else {
            GameView { sel: Select::Idle, ..self }
        }
    }

    /// Whether cell `pos` is part of the pending move.
    pub open spec fn spec_is_selected_board(self, pos: i32) -> bool {
        ||| self.sel != Select::Idle && !self.m.is_new && self.m.from == pos
        ||| self.sel == Select::Move && self.m.to == pos
    }

    /// Whether a reserve piece of `size` is the piece of the pending move.
    pub open spec fn spec_is_selected_new(self, size: i32) -> bool {
        self.sel != Select::Idle && self.m.is_new && self.m.size == size
    }
}

impl Board {
    /// The player and size of the largest piece on cell `pos`, if there is
    /// one; of two pieces of one size, that of player 0.
    pub open spec fn spec_top(&self, pos: i32) -> Option<(i32, i32)> {
        if self.occupied(0, 2, pos) {
            Some((0i32, 2i32))
        } else if self.occupied(1, 2, pos) {
            Some((1i32, 2i32))
        } else if self.occupied(0, 1, pos) {
            Some((0i32, 1i32))
        } else if self.occupied(1, 1, pos) {
            Some((1i32, 1i32))
        } else if self.occupied(0, 0, pos) {
            Some((0i32, 0i32))
        } else if self.occupied(1, 0, pos) {
            Some((1i32, 0i32))
        } else {
            None
        }
    }
}

/// A game in progress.
#[derive(Debug, PartialEq, Eq)]
pub struct GameBoard {
    history: Vec<Move>,
    b: Board,
    s: State,
    sel: Select,
    m: Move,
    pub auto_select: bool,
}

impl View for GameBoard {
    type V = GameView;

    closed spec fn view(&self) -> GameView {
        GameView {
            history: self.history@,
            board: self.b,
            state: self.s,
            sel: self.sel,
            m: self.m,
            auto_select: self.auto_select,
        }
    }
}

impl Clone for GameBoard {
    /// A copy of the game.
    fn clone(&self) -> (g: GameBoard)
        ensures
            g@ == self@,
    {
        let history = self.history.clone();
        assert(history@ =~= self.history@);
        GameBoard {
            history,
            b: self.b,
            s: self.s,
            sel: self.sel,
            m: self.m,
            auto_select: self.auto_select,
        }
    }
}

impl GameBoard {
    /// Well-formed, as its view is.
    pub open spec fn wf(&self) -> bool {
        self@.wf()
    }

    /// A new game. With `auto_select`, a move is played as soon as its target
    /// cell is chosen.
    pub fn new(auto_select: bool) -> (g: GameBoard)
        ensures
            g@ == GameView::start(auto_select),
            g.wf(),
    {
        proof {
            Board::lemma_initial();
        }
        return GameBoard {
            history: Vec::new(),
            b: Board::new(),
            s: State::InGame,
            sel: Select::Idle,
            m: Move { is_new: false, size: 0, from: 0, to: 0 },
            auto_select,
        };
    }

    /// The side to move.
    pub fn player(&self) -> (p: i32)
        ensures
            p == self@.board.player,
    {
        return self.b.player;
    }

    /// The position.
    pub fn get_board(&self) -> (b: &Board)
        ensures
            *b == self@.board,
    {
        return &self.b;
    }

    /// The identifier of the position as it stands, without regard to
    /// symmetry.
    pub fn get_id(&self) -> (id: u64)
        requires
            self.wf(),
        ensures
            id == ident(self@.board, self@.history.len()),
    {
        return self.b.ident(self.history.len());
    }

    /// The identifier that the position shares with its rotations and
    /// reflections: the largest identifier among the eight.
    pub fn get_max_id(&self) -> (id: u64)
        requires
            self.wf(),
        ensures
            id == canonical_ident(self@.board, self@.history.len()),
    {
        return self.b.canonical_ident(self.history.len());
    }

    /// The outcome of the position for the side to move.
    pub fn get_state(&self) -> (s: State)
        ensures
            s == self@.state,
    {
        return self.s;
    }

    /// The moves played, the first one first.
    pub fn get_history(&self) -> (h: &Vec<Move>)
        ensures
            h@ == self@.history,
    {
        return &self.history;
    }

    /// The number of pieces of `size` that `player` has in reserve.
    pub fn get_left(&self, player: i32, size: i32) -> (n: i32)
        requires
            player == 0 || player == 1,
            0 <= size < 3,
        ensures
            n == self@.board.pieces[player * 3 + size],
    {
        return self.b.pieces[(player * 3 + size) as usize];
    }

    /// The player and the size of the largest piece on cell `pos`.
    pub fn get_top(&self, pos: i32) -> (top: Option<(i32, i32)>)
        requires
            0 <= pos < 9,
        ensures
            top == self@.board.spec_top(pos),
    {
        let mut size: i32 = 2;
        while size >= 0
            invariant
                -1 <= size <= 2,
                0 <= pos < 9,
                forall|p: i32, s: i32|
                    0 <= p < 2 && size < s <= 2 ==> !#[trigger] self.b.occupied(p, s, pos),
            decreases size + 1,
        {
            let mut p: i32 = 0;
            while p < 2
                invariant
                    0 <= p <= 2,
                    0 <= size <= 2,
                    0 <= pos < 9,
                    forall|q: i32, s: i32|
                        0 <= q < 2 && size < s <= 2 ==> !#[trigger] self.b.occupied(q, s, pos),
                    forall|q: i32| 0 <= q < p ==> !#[trigger] self.b.occupied(q, size, pos),
                decreases 2 - p,
            {
                if (1 << pos) & self.b.layers[(p * 3 + size) as usize] != 0 {
                    return Some((p, size));
                }
                p += 1;
            }
            size -= 1;
        }
        return None;
    }

    /// Whether the rules admit `m` in the position.
    pub fn is_valid(&self, m: Move) -> (r: bool)
        requires
            self.wf(),
            m.in_range(),
        ensures
            r == self@.board.spec_is_valid(m),
    {
        let from_ok = match m.is_new {
            true => self.b.is_left(m.size),
            false => self.b.is_movable(m.size, m.from),
        };
        return from_ok && self.b.is_free(m.size, m.to);
    }

    /// Sets the state from the position, and drops the pending move.
    fn update_state(&mut self)
        requires
            old(self).b.turn_ok(),
        ensures
            final(self)@ == (GameView {
                state: state_of(old(self).b.spec_state()),
                sel: Select::Idle,
                ..old(self)@
            }),
    {
        self.sel = Select::Idle;
        match self.b.get_state() {
            0 => self.s = State::InGame,
            1 => self.s = State::Win,
            2 => self.s = State::Loss,
            _ => self.s = State::Draw,
        }
    }

    /// Chooses cell `pos`, for the piece to move or for its target. Says whether
    /// the cell was taken for the target.
    pub fn select_board(&mut self, pos: i32) -> (r: bool)
        requires
            old(self).wf(),
            0 <= pos < 9,
        ensures
            final(self).wf(),
            final(self)@ == old(self)@.after_select_board(pos),
            r == (old(self)@.state == State::InGame && old(self)@.sel != Select::Idle && old(
                self,
            )@.board.spec_is_free(old(self)@.m.size, pos)),
    {
        if self.s != State::InGame {
            return false;
        }
        if self.sel == Select::Idle {
            if let Some((p, s)) = self.get_top(pos) {
                if p == self.b.player {
                    self.sel = Select::From;
                    self.m.is_new = false;
                    self.m.size = s;
                    self.m.from = pos;
                }
            }
        } else {
            if self.b.is_free(self.m.size, pos) {
                self.sel = Select::Move;
                self.m.to = pos;
                if self.auto_select {
                    self.submit_select();
                }
                return true;
            } else {
                self.sel = Select::Idle;
            }
        }
        return false;
    }

    /// Chooses a piece of `size` from the reserve of `player`.
    pub fn select_new(&mut self, player: i32, size: i32)
        requires
            old(self).wf(),
            0 <= size < 3,
        ensures
            final(self).wf(),
            final(self)@ == old(self)@.after_select_new(player, size),
    {
        if self.s != State::InGame {
            return ;
        }
        if self.b.player == player && self.b.is_left(size) {
            self.sel = Select::From;
            self.m.is_new = true;
            self.m.size = size;
        } else {
            self.sel = Select::Idle;
        }
    }

    /// How far the pending move has come, and the move.
    pub fn get_select(&self) -> (r: (Select, Move))
        ensures
            r == (self@.sel, self@.m),
    {
        return (self.sel, self.m);
    }

    /// Whether cell `pos` is part of the pending move.
    pub fn is_selected_board(&self, pos: i32) -> (r: bool)
        ensures
            r == self@.spec_is_selected_board(pos),
    {
        if self.sel != Select::Idle && !self.m.is_new {
            if self.m.from == pos {
                return true;
            }
        }
        if self.sel == Select::Move {
            if self.m.to == pos {
                return true;
            }
        }
        return false;
    }

    /// Whether a reserve piece of `size` is the piece of the pending move.
    pub fn is_selected_new(&self, size: i32) -> (r: bool)
        ensures
            r == self@.spec_is_selected_new(size),
    {
        if self.sel != Select::Idle && self.m.is_new {
            if self.m.size == size {
                return true;
            }
        }
        return false;
    }

    /// Plays the pending move, if it is complete and the rules admit it. Says
    /// whether it was complete.
    pub fn submit_select(&mut self) -> (r: bool)
        requires
            old(self).wf(),
        ensures
            final(self).wf(),
            final(self)@ == old(self)@.after_submit(),
            r == (old(self)@.sel == Select::Move),
    {
        if self.sel == Select::Move {
            self.do_move(self.m);
            return true;
        }
        return false;
    }

    /// Drops the pending move.
    pub fn remove_select(&mut self)
        requires
            old(self).wf(),
        ensures
            final(self).wf(),
            final(self)@ == (GameView { sel: Select::Idle, ..old(self)@ }),
    {
        self.sel = Select::Idle;
    }

    /// Plays `m`, if the game goes on and the rules admit it. Says whether it was
    /// played.
    pub fn do_move(&mut self, m: Move) -> (r: bool)
        requires
            old(self).wf(),
            m.in_range(),
        ensures
            final(self).wf(),
            r == old(self)@.can_play(m),
            final(self)@ == old(self)@.after_do_move(m),
    {
        if !self.is_valid(m) || self.s != State::InGame {
            return false;
        }
        proof {
            self.b.lemma_undo_move(m);
            assert(self.history@.push(m).drop_last() == self.history@);
        }
        match m.is_new {
            true => self.b.do_new_move(m.size, m.to),
            false => self.b.do_board_move(m.size, m.from, m.to),
        };
        self.history.push(m);
        self.update_state();
        return true;
    }

    /// Takes back the last move. Says whether there was one.
    pub fn undo_move(&mut self) -> (r: bool)
        requires
            old(self).wf(),
        ensures
            final(self).wf(),
            r == (old(self)@.history.len() > 0),
            final(self)@ == old(self)@.after_undo_move(),
            r ==> replay(old(self)@.history.drop_last()) == Some(final(self)@.board),
    {
        let m = match self.history.pop() {
            Some(m) => m,
            None => {
                return false;
            },
        };
        proof {
            let before = replay(old(self)@.history.drop_last());
            assert(before is Some);
            lemma_replay_wf(old(self)@.history.drop_last());
            before->0.lemma_undo_move(m);
        }
        match m.is_new {
            true => self.b.undo_new_move(m.size, m.to),
            false => self.b.undo_board_move(m.size, m.from, m.to),
        }
        self.update_state();
        return true;
    }

    /// All moves of the position.
    pub fn get_moves(&self) -> (moves: Vec<Move>)
        requires
            self.wf(),
        ensures
            moves@ == self@.board.spec_moves(),
    {
        let mut moves = Vec::new();
        let ghost all = self.b.spec_moves();
        let mut to: i32 = 0;
        while to < 9
            invariant
                0 <= to <= 9,
                self.b.turn_ok(),
                moves@ + self.b.moves_from(to) == all,
            decreases 9 - to,
        {
            let ghost after_cell = self.b.moves_from((to + 1) as i32);
            let mut size: i32 = 0;
            while size < 3
                invariant
                    0 <= size <= 3,
                    0 <= to < 9,
                    self.b.turn_ok(),
                    moves@ + (self.b.moves_to(to, size) + after_cell) == all,
                decreases 3 - size,
            {
                let ghost after_size = self.b.moves_to(to, (size + 1) as i32) + after_cell;
                let ghost last = if self.b.spec_is_left(size) {
                    seq![crate::moves::placement(size, to)]
                } else {
                    Seq::empty()
                };
                assert(self.b.moves_to(to, size) + after_cell == self.b.moves_of_size(to, size)
                    + after_size);
                if self.b.is_free(size, to) {
                    let mut from: i32 = 0;
                    assert(self.b.moves_of_size(to, size) + after_size == self.b.relocations(
                        size,
                        to,
                        0,
                    ) + (last + after_size));
                    while from < 9
                        invariant
                            0 <= from <= 9,
                            0 <= size < 3,
                            0 <= to < 9,
                            self.b.turn_ok(),
                            moves@ + (self.b.relocations(size, to, from) + (last + after_size))
                                == all,
                        decreases 9 - from,
                    {
                        let ghost rest = self.b.relocations(size, to, (from + 1) as i32) + (last
                            + after_size);
                        if self.b.is_movable(size, from) {
                            assert(self.b.relocations(size, to, from) + (last + after_size)
                                == seq![crate::moves::relocation(size, from, to)] + rest);
                            let ghost before = moves@;
                            moves.push(Move { is_new: false, size, from, to });
                            assert(moves@ + rest == before + (seq![
                                crate::moves::relocation(size, from, to),
                            ] + rest));
                        } else {
                            assert(self.b.relocations(size, to, from) + (last + after_size)
                                == rest);
                        }
                        from += 1;
                    }
                    assert(self.b.relocations(size, to, from) + (last + after_size) == last
                        + after_size);
                    if self.b.is_left(size) {
                        let ghost before = moves@;
                        moves.push(Move { is_new: true, size, from: -1, to });
                        assert(moves@ + after_size == before + (last + after_size));
                    } else {
                        assert(last + after_size == after_size);
                    }
                } else {
                    assert(self.b.moves_of_size(to, size) + after_size == after_size);
                }
                size += 1;
            }
            assert(self.b.moves_to(to, size) + after_cell == after_cell);
            to += 1;
        }
        assert(moves@ + self.b.moves_from(to) == moves@);
        return moves;
    }
}

impl Board {
    /// Whether no cell holds two pieces of one size.
    pub open spec fn separate(&self) -> bool {
        forall|size: i32, pos: i32|
            0 <= size < 3 && 0 <= pos < 9 ==> !(self.occupied(0, size, pos) && #[trigger] self.occupied(
                1,
                size,
                pos,
            ))
    }

    /// A move of the position puts no piece on a piece of its size.
    pub proof fn lemma_move_separate(self, m: Move)
        requires
            self.wf(),
            self.separate(),
            self.legal(m),
        ensures
            self.spec_do_move(m).separate(),
    {
        let next = self.spec_do_move(m);
        let i = self.spec_idx(m.size);
        assert forall|size: i32, pos: i32| 0 <= size < 3 && 0 <= pos < 9 implies !(next.occupied(
            0,
            size,
            pos,
        ) && #[trigger] next.occupied(1, size, pos)) by {
            assert(!(self.occupied(0, size, pos) && self.occupied(1, size, pos)));
            if size == m.size {
                if m.is_new {
                    crate::bits::lemma_cell_set(self.layers[i], m.to, pos);
                } else {
                    crate::bits::lemma_cell_set(self.layers[i], m.from, pos);
                    crate::bits::lemma_cell_set(
                        self.layers[i] ^ crate::bits::bit(m.from),
                        m.to,
                        pos,
                    );
                }
            }
        }
    }
}

/// In a position that a history leads to, no cell holds two pieces of one
/// size.
pub proof fn lemma_replay_separate(history: Seq<Move>)
    requires
        replay(history) is Some,
    ensures
        replay(history)->0.separate(),
    decreases history.len(),
{
    if history.len() == 0 {
        let b = Board::initial();
        assert forall|size: i32, pos: i32| 0 <= size < 3 && 0 <= pos < 9 implies !(b.occupied(
            0,
            size,
            pos,
        ) && #[trigger] b.occupied(1, size, pos)) by {
            crate::bits::lemma_cell_or(0, 0, pos);
        }
    } else {
        lemma_replay_separate(history.drop_last());
        lemma_replay_wf(history.drop_last());
        replay(history.drop_last())->0.lemma_move_separate(history.last());
    }
}

/// A history that can be replayed leads to a well-formed position.
pub proof fn lemma_replay_wf(history: Seq<Move>)
    requires
        replay(history) is Some,
    ensures
        replay(history)->0.wf(),
    decreases history.len(),
{
    if history.len() == 0 {
        Board::lemma_initial();
    } else {
        lemma_replay_wf(history.drop_last());
        replay(history.drop_last())->0.lemma_undo_move(history.last());
    }
}

} // verus!
