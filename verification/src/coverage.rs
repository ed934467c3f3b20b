//! The order in which the search tries the moves leaves no move out: it holds
//! exactly the moves of the position.

use crate::board::Board;
use crate::moves::{lemma_contains_add, placement, Move};
use vstd::prelude::*;

verus! {

impl Board {
    /// The moves to a cell with one size, as the search lists them first.
    pub proof fn lemma_winning_of_size(&self, to: i32, size: i32, m: Move)
        requires
            0 <= size < 3,
            0 <= to < 9,
        ensures
            self.winning_of_size(to, size).contains(m) <==> (self.lists(m) && m.to == to && m.size
                == size),
    {
        let first = if self.spec_is_left(size) {
            seq![placement(size, to)]
        } else {
            Seq::empty()
        };
        self.lemma_relocations(size, to, 0, m);
        lemma_contains_add(first, self.relocations(size, to, 0), m);
        if self.spec_is_left(size) {
            assert(first[0] == placement(size, to));
        }
    }

    /// The moves to a cell as the search lists them first are the moves of the
    /// position with that cell.
    pub proof fn lemma_winning_to(&self, to: i32, size: i32, m: Move)
        requires
            0 <= size <= 3,
            0 <= to < 9,
        ensures
            self.winning_to(to, size).contains(m) <==> (self.lists(m) && m.to == to && size
                <= m.size),
        decreases 3 - size,
    {
        if size < 3 {
            self.lemma_winning_of_size(to, size, m);
            self.lemma_winning_to(to, (size + 1) as i32, m);
            lemma_contains_add(
                self.winning_of_size(to, size),
                self.winning_to(to, (size + 1) as i32),
                m,
            );
        }
    }

    /// The moves that the search tries first are the moves to the cells that
    /// complete a line.
    pub proof fn lemma_winning_from(&self, to: i32, m: Move)
        requires
            0 <= to <= 9,
        ensures
            self.winning_from(to).contains(m) <==> (self.lists(m) && to <= m.to
                && self.spec_is_winning_spot(m.to)),
        decreases 9 - to,
    {
        if to < 9 {
            let first = if self.spec_is_winning_spot(to) {
                self.winning_to(to, 0)
            } else {
                Seq::empty()
            };
            self.lemma_winning_to(to, 0, m);
            self.lemma_winning_from((to + 1) as i32, m);
            lemma_contains_add(first, self.winning_from((to + 1) as i32), m);
        }
    }

    /// The placements of a size on covering or on plain cells.
    pub proof fn lemma_placements(&self, size: i32, cover: bool, to: i32, m: Move)
        requires
            0 <= to <= 9,
        ensures
            self.placements(size, cover, to).contains(m) <==> (m == placement(size, m.to) && to
                <= m.to < 9 && self.spec_is_free(size, m.to) && self.spec_is_cover(size, m.to)
                == cover),
        decreases 9 - to,
    {
        if to < 9 {
            let first = if self.spec_is_free(size, to) && self.spec_is_cover(size, to) == cover {
                seq![placement(size, to)]
            } else {
                Seq::empty()
            };
            self.lemma_placements(size, cover, (to + 1) as i32, m);
            lemma_contains_add(first, self.placements(size, cover, (to + 1) as i32), m);
            if self.spec_is_free(size, to) && self.spec_is_cover(size, to) == cover {
                assert(first[0] == placement(size, to));
            }
        }
    }

    /// The placements of the sizes in a range on covering or on plain cells.
    pub proof fn lemma_placements_down(&self, size: i32, least: i32, cover: bool, m: Move)
        requires
            -1 <= size < 3,
            0 <= least,
        ensures
            self.placements_down(size, least, cover).contains(m) <==> (self.lists(m) && m.is_new
                && least <= m.size <= size && self.spec_is_cover(m.size, m.to) == cover),
        decreases size + 1,
    {
        if least <= size {
            let first = if self.spec_is_left(size) {
                self.placements(size, cover, 0)
            } else {
                Seq::empty()
            };
            self.lemma_placements(size, cover, 0, m);
            self.lemma_placements_down((size - 1) as i32, least, cover, m);
            lemma_contains_add(first, self.placements_down((size - 1) as i32, least, cover), m);
        }
    }

    /// The relocations of a size are those of the position with that size.
    pub proof fn lemma_relocations_to(&self, size: i32, to: i32, m: Move)
        requires
            0 <= size < 3,
            0 <= to <= 9,
        ensures
            self.relocations_to(size, to).contains(m) <==> (self.lists(m) && !m.is_new && m.size
                == size && to <= m.to),
        decreases 9 - to,
    {
        if to < 9 {
            let first = if self.spec_is_free(size, to) {
                self.relocations(size, to, 0)
            } else {
                Seq::empty()
            };
            self.lemma_relocations(size, to, 0, m);
            self.lemma_relocations_to(size, (to + 1) as i32, m);
            lemma_contains_add(first, self.relocations_to(size, (to + 1) as i32), m);
        }
    }

    /// The relocations of the sizes up to `size`.
    pub proof fn lemma_relocations_down(&self, size: i32, m: Move)
        requires
            -1 <= size < 3,
        ensures
            self.relocations_down(size).contains(m) <==> (self.lists(m) && !m.is_new && m.size
                <= size),
        decreases size + 1,
    {
        if 0 <= size {
            self.lemma_relocations_to(size, 0, m);
            self.lemma_relocations_down((size - 1) as i32, m);
            lemma_contains_add(
                self.relocations_to(size, 0),
                self.relocations_down((size - 1) as i32),
                m,
            );
        }
    }

    /// The search tries every move of the position, and nothing else.
    pub proof fn lemma_search_order_complete(&self, m: Move)
        ensures
            self.search_order().contains(m) <==> self.lists(m),
    {
        let winning = self.winning_from(0);
        let covering = self.placements_down(2, 1, true);
        let plain = self.placements_down(2, 0, false);
        let moving = self.relocations_down(2);
        self.lemma_winning_from(0, m);
        self.lemma_placements_down(2, 1, true, m);
        self.lemma_placements_down(2, 0, false, m);
        self.lemma_relocations_down(2, m);
        lemma_contains_add(winning, covering, m);
        lemma_contains_add(winning + covering, plain, m);
        lemma_contains_add(winning + covering + plain, moving, m);
    }

    /// The search tries the same moves as the move list holds.
    pub proof fn lemma_search_order_is_moves(&self, m: Move)
        ensures
            self.search_order().contains(m) <==> self.spec_moves().contains(m),
    {
        self.lemma_search_order_complete(m);
        self.lemma_moves_complete(m);
    }
}

} // verus!
