//! Moves: what they do to a position, when a position admits them, and the
//! list of all moves of a position.

use crate::board::Board;
use vstd::prelude::*;

verus! {

/// A move: a piece of `size` goes to cell `to`, from the reserve of the side to
/// move (`is_new`) or from cell `from`.
#[derive(Debug, Clone, Copy, PartialEq, Eq, Structural)]
pub struct Move {
    pub is_new: bool,
    pub size: i32,
    pub from: i32,
    pub to: i32,
}

/// The placement of a piece of `size` on cell `to`, as the move lists hold it.
pub open spec fn placement(size: i32, to: i32) -> Move {
    Move { is_new: true, size, from: -1i32, to }
}

/// The relocation of a piece of `size` from cell `from` to cell `to`.
pub open spec fn relocation(size: i32, from: i32, to: i32) -> Move {
    Move { is_new: false, size, from, to }
}

impl Move {
    /// Size and cells name a size and cells of the board.
    pub open spec fn in_range(&self) -> bool {
        &&& 0 <= self.size < 3
        &&& 0 <= self.to < 9
        &&& !self.is_new ==> 0 <= self.from < 9
    }
}

impl Board {
    /// Whether the rules admit `m`: the piece is at hand and the target cell
    /// is free for it.
    pub open spec fn spec_is_valid(&self, m: Move) -> bool {
        &&& if m.is_new {
            self.spec_is_left(m.size)
        } else {
            self.spec_is_movable(m.size, m.from)
        }
        &&& self.spec_is_free(m.size, m.to)
    }

    /// Whether `m` is a move of this position.
    pub open spec fn legal(&self, m: Move) -> bool {
        m.in_range() && self.spec_is_valid(m)
    }

    /// The position after `m`.
    pub open spec fn spec_do_move(self, m: Move) -> Board {
        if m.is_new {
            self.spec_do_new_move(m.size, m.to)
        } else {
            self.spec_do_board_move(m.size, m.from, m.to)
        }
    }

    /// The position before `m`.
    pub open spec fn spec_undo_move(self, m: Move) -> Board {
        if m.is_new {
            self.spec_undo_new_move(m.size, m.to)
        } else {
            self.spec_undo_board_move(m.size, m.from, m.to)
        }
    }

    /// The relocations of a piece of `size` to cell `to` from the cells
    /// `from..9`, in the order of the cells.
    pub open spec fn relocations(&self, size: i32, to: i32, from: i32) -> Seq<Move>
        decreases 9 - from,
    {
        if 0 <= from < 9 {
            let first = if self.spec_is_movable(size, from) {
                seq![relocation(size, from, to)]
            } else {
                Seq::empty()
            };
            first + self.relocations(size, to, (from + 1) as i32)
        } else {
            Seq::empty()
        }
    }

    /// The moves of a piece of `size` to cell `to`: the relocations, then the
    /// placement.
    pub open spec fn moves_of_size(&self, to: i32, size: i32) -> Seq<Move> {
        if self.spec_is_free(size, to) {
            self.relocations(size, to, 0) + if self.spec_is_left(size) {
                seq![placement(size, to)]
            } else {
                Seq::empty()
            }
        } else {
            Seq::empty()
        }
    }

    /// The moves to cell `to` with the sizes `size..3`, smaller sizes first.
    pub open spec fn moves_to(&self, to: i32, size: i32) -> Seq<Move>
        decreases 3 - size,
    {
        if 0 <= size < 3 {
            self.moves_of_size(to, size) + self.moves_to(to, (size + 1) as i32)
        } else {
            Seq::empty()
        }
    }

    /// The moves to the cells `to..9`, in the order of the cells.
    pub open spec fn moves_from(&self, to: i32) -> Seq<Move>
        decreases 9 - to,
    {
        if 0 <= to < 9 {
            self.moves_to(to, 0) + self.moves_from((to + 1) as i32)
        } else {
            Seq::empty()
        }
    }

    /// All moves of the position: by target cell, then by size, relocations
    /// before the placement.
    pub open spec fn spec_moves(&self) -> Seq<Move> {
        self.moves_from(0)
    }

    /// Whether a move list of this position holds `m`: a move of the position,
    /// a placement with -1 for the cell it does not come from.
    pub open spec fn lists(&self, m: Move) -> bool {
        self.legal(m) && (m.is_new ==> m.from == -1)
    }

    /// A move of the position leads to a well-formed position, and taking it
    /// back restores the position.
    pub proof fn lemma_undo_move(self, m: Move)
        requires
            self.wf(),
            self.legal(m),
        ensures
            self.spec_do_move(m).wf(),
            self.spec_do_move(m).spec_undo_move(m) == self,
            m.is_new ==> self.spec_do_move(m).pieces[(1 - self.spec_do_move(m).player) * 3 + m.size]
                < 2,
    {
        if m.is_new {
            self.lemma_undo_new_move(m.size, m.to);
        } else {
            self.lemma_undo_board_move(m.size, m.from, m.to);
        }
    }

    /// A relocation is listed exactly when its piece can be moved.
    pub proof fn lemma_relocations(&self, size: i32, to: i32, from: i32, m: Move)
        requires
            0 <= from <= 9,
        ensures
            self.relocations(size, to, from).contains(m) <==> (!m.is_new && m.size == size && m.to
                == to && from <= m.from < 9 && self.spec_is_movable(size, m.from)),
        decreases 9 - from,
    {
        if from < 9 {
            let first = if self.spec_is_movable(size, from) {
                seq![relocation(size, from, to)]
            } else {
                Seq::empty()
            };
            let rest = self.relocations(size, to, (from + 1) as i32);
            self.lemma_relocations(size, to, (from + 1) as i32, m);
            lemma_contains_add(first, rest, m);
            if self.spec_is_movable(size, from) {
                assert(first[0] == relocation(size, from, to));
            }
        }
    }

    /// The moves to one cell with one size are the moves of the position with
    /// that cell and size.
    pub proof fn lemma_moves_of_size(&self, to: i32, size: i32, m: Move)
        requires
            0 <= size < 3,
            0 <= to < 9,
        ensures
            self.moves_of_size(to, size).contains(m) <==> (self.lists(m) && m.to == to && m.size
                == size),
    {
        let falls = self.relocations(size, to, 0);
        let last = if self.spec_is_left(size) {
            seq![placement(size, to)]
        } else {
            Seq::empty()
        };
        self.lemma_relocations(size, to, 0, m);
        lemma_contains_add(falls, last, m);
        if self.spec_is_left(size) {
            assert(last[0] == placement(size, to));
        }
    }

    /// The moves to one cell are the moves of the position with that cell.
    pub proof fn lemma_moves_to(&self, to: i32, size: i32, m: Move)
        requires
            0 <= size <= 3,
            0 <= to < 9,
        ensures
            self.moves_to(to, size).contains(m) <==> (self.lists(m) && m.to == to && size
                <= m.size),
        decreases 3 - size,
    {
        if size < 3 {
            self.lemma_moves_of_size(to, size, m);
            self.lemma_moves_to(to, (size + 1) as i32, m);
            lemma_contains_add(
                self.moves_of_size(to, size),
                self.moves_to(to, (size + 1) as i32),
                m,
            );
        }
    }

    /// The moves to the cells from `to` on are the moves of the position with
    /// such a cell.
    pub proof fn lemma_moves_from(&self, to: i32, m: Move)
        requires
            0 <= to <= 9,
        ensures
            self.moves_from(to).contains(m) <==> (self.lists(m) && to <= m.to),
        decreases 9 - to,
    {
        if to < 9 {
            self.lemma_moves_to(to, 0, m);
            self.lemma_moves_from((to + 1) as i32, m);
            lemma_contains_add(self.moves_to(to, 0), self.moves_from((to + 1) as i32), m);
        }
    }

    /// The move list holds every move of the position, and nothing else.
    pub proof fn lemma_moves_complete(&self, m: Move)
        ensures
            self.spec_moves().contains(m) <==> self.lists(m),
    {
        self.lemma_moves_from(0, m);
    }
}

/// A concatenation holds what one of its parts holds.
pub proof fn lemma_contains_add<A>(a: Seq<A>, b: Seq<A>, x: A)
    ensures
        (a + b).contains(x) <==> (a.contains(x) || b.contains(x)),
{
    if a.contains(x) {
        let i = choose|i: int| 0 <= i < a.len() && a[i] == x;
        assert((a + b)[i] == x);
    }
    if b.contains(x) {
        let i = choose|i: int| 0 <= i < b.len() && b[i] == x;
        assert((a + b)[a.len() + i] == x);
    }
    if (a + b).contains(x) {
        let i = choose|i: int| 0 <= i < (a + b).len() && (a + b)[i] == x;
        if i < a.len() {
            assert(a[i] == x);
        } else {
            assert(b[i - a.len()] == x);
        }
    }
}

} // verus!
