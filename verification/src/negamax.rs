//! The depth-bounded alpha-beta search.
//!
//! A score is relative to the side to move: a win counts `WIN_SCORE` plus the
//! depth that was left when it was found, a loss the negative of that, a draw
//! 0. `FAR_SCORE` is no result but the mark of a position that the depth did
//! not resolve; it passes from a position to the one before it unchanged,
//! whereas a result changes its sign on the way.

use crate::board::Board;
use crate::moves::{placement, relocation, Move};
use vstd::prelude::*;

verus! {

pub const MAX_SCORE: i32 = 10000;

pub const MIN_SCORE: i32 = -MAX_SCORE;

pub const WIN_SCORE: i32 = 1000;

pub const LOSS_SCORE: i32 = -WIN_SCORE;

pub const FAR_SCORE: i32 = 1;

pub const DRAW_SCORE: i32 = 0;

/// The largest depth of a search: what the depth of an evaluation can hold.
pub const MAX_DEPTH: i32 = 65535;

/// What a search gives: the score, and the number of positions it looked at.
pub struct Searched {
    pub score: int,
    pub nodes: nat,
}

/// The score of a position as it counts for the position before it.
pub open spec fn lift(score: int) -> int {
    if score != FAR_SCORE {
        -score
    } else {
        score
    }
}

/// A count of positions as a counter holds it: the counter stops at its
/// largest value.
pub open spec fn saturate(count: int) -> u64 {
    if count > u64::MAX {
        u64::MAX
    } else {
        count as u64
    }
}

impl Board {
    /// The moves of a piece of `size` to the cell `to`, the placement first.
    pub open spec fn winning_of_size(&self, to: i32, size: i32) -> Seq<Move> {
        if self.spec_is_free(size, to) {
            (if self.spec_is_left(size) {
                seq![placement(size, to)]
            } else {
                Seq::empty()
            }) + self.relocations(size, to, 0)
        } else {
            Seq::empty()
        }
    }

    /// The moves to the cell `to` with the sizes `size..3`, smaller sizes
    /// first.
    pub open spec fn winning_to(&self, to: i32, size: i32) -> Seq<Move>
        decreases 3 - size,
    {
        if 0 <= size < 3 {
            self.winning_of_size(to, size) + self.winning_to(to, (size + 1) as i32)
        } else {
            Seq::empty()
        }
    }

    /// The moves to those of the cells `to..9` that complete a line for the
    /// side to move.
    pub open spec fn winning_from(&self, to: i32) -> Seq<Move>
        decreases 9 - to,
    {
        if 0 <= to < 9 {
            (if self.spec_is_winning_spot(to) {
                self.winning_to(to, 0)
            } else {
                Seq::empty()
            }) + self.winning_from((to + 1) as i32)
        } else {
            Seq::empty()
        }
    }

    /// The placements of a piece of `size` on those of the cells `to..9` where
    /// it covers a piece (`cover`) or where it covers none (`!cover`).
    pub open spec fn placements(&self, size: i32, cover: bool, to: i32) -> Seq<Move>
        decreases 9 - to,
    {
        if 0 <= to < 9 {
            (if self.spec_is_free(size, to) && self.spec_is_cover(size, to) == cover {
                seq![placement(size, to)]
            } else {
                Seq::empty()
            }) + self.placements(size, cover, (to + 1) as i32)
        } else {
            Seq::empty()
        }
    }

    /// The placements with the sizes from `size` down to `least`, larger sizes
    /// first, of the pieces that the side to move has in reserve.
    pub open spec fn placements_down(&self, size: i32, least: i32, cover: bool) -> Seq<Move>
        decreases size + 1,
    {
        if 0 <= least <= size < 3 {
            (if self.spec_is_left(size) {
                self.placements(size, cover, 0)
            } else {
                Seq::empty()
            }) + self.placements_down((size - 1) as i32, least, cover)
        } else {
            Seq::empty()
        }
    }

    /// The relocations of the pieces of `size` to the cells `to..9`.
    pub open spec fn relocations_to(&self, size: i32, to: i32) -> Seq<Move>
        decreases 9 - to,
    {
        if 0 <= to < 9 {
            (if self.spec_is_free(size, to) {
                self.relocations(size, to, 0)
            } else {
                Seq::empty()
            }) + self.relocations_to(size, (to + 1) as i32)
        } else {
            Seq::empty()
        }
    }

    /// The relocations with the sizes from `size` down to 0, larger sizes
    /// first.
    pub open spec fn relocations_down(&self, size: i32) -> Seq<Move>
        decreases size + 1,
    {
        if 0 <= size < 3 {
            self.relocations_to(size, 0) + self.relocations_down((size - 1) as i32)
        } else {
            Seq::empty()
        }
    }

    /// The moves in the order in which the search tries them: the moves to
    /// cells that complete a line; the placements that cover a piece, larger
    /// pieces first; the placements that cover none; the relocations. A move
    /// to a cell that completes a line comes again in its later place.
    pub open spec fn search_order(&self) -> Seq<Move> {
        self.winning_from(0) + self.placements_down(2, 1, true) + self.placements_down(2, 0, false)
            + self.relocations_down(2)
    }
}

/// What `negamax` gives for position `b`, window `alpha` to `beta` and
/// `depth`.
///
/// A position with a line is scored at once. At depth 0 a position without
/// one is left unresolved. Otherwise `beta` is lowered to the best score that
/// is still possible, a win by the next move; if that empties the window, the
/// score is `alpha`; else the moves are tried in their order.
pub open spec fn search(b: Board, alpha: int, beta: int, depth: nat) -> Searched
    decreases depth, 1nat, 0nat,
{
    let state = b.spec_state();
    let best = WIN_SCORE + depth - 1;
    if state == 1 {
        Searched { score: WIN_SCORE + depth, nodes: 1 }
    } else if state == 2 {
        Searched { score: LOSS_SCORE - depth, nodes: 1 }
    } else if state == 3 {
        Searched { score: DRAW_SCORE as int, nodes: 1 }
    } else if depth == 0 {
        Searched { score: FAR_SCORE as int, nodes: 1 }
    } else if beta > best && alpha >= best {
        Searched { score: alpha, nodes: 1 }
    } else {
        scan(b, b.search_order(), alpha, if beta > best { best } else { beta }, depth, 1)
    }
}

/// What trying `moves` in position `b` gives, one after the other, with
/// `nodes` positions looked at so far: the first score that reaches `beta`, or
/// else the largest of `alpha` and the scores.
pub open spec fn scan(b: Board, moves: Seq<Move>, alpha: int, beta: int, depth: nat, nodes: nat)
    -> Searched
    decreases depth, 0nat, moves.len(),
{
    if moves.len() == 0 || depth == 0 {
        Searched { score: alpha, nodes }
    } else {
        let child = search(b.spec_do_move(moves[0]), -beta, -alpha, (depth - 1) as nat);
        let score = lift(child.score);
        if score >= beta {
            Searched { score, nodes: nodes + child.nodes }
        } else {
            scan(
                b,
                moves.drop_first(),
                if score > alpha { score } else { alpha },
                beta,
                depth,
                nodes + child.nodes,
            )
        }
    }
}

/// What holds while `negamax` tries the moves of `b`: with `seen` positions
/// looked at and the counter gone from `start` to `now`, trying `rest` gives
/// `goal`.
spec fn scanning(
    b: Board,
    rest: Seq<Move>,
    alpha: i32,
    beta: i32,
    depth: i32,
    seen: nat,
    start: u64,
    now: u64,
    goal: Searched,
) -> bool {
    &&& b.wf()
    &&& 1 <= depth <= MAX_DEPTH
    &&& i32::MIN < alpha
    &&& i32::MIN < beta
    &&& now == saturate(start + seen)
    &&& scan(b, rest, alpha as int, beta as int, depth as nat, seen) == goal
}

/// One step of `scan`: the first move is tried, and either ends the scan or
/// leaves the others to try.
proof fn lemma_scan_step(
    b: Board,
    m: Move,
    rest: Seq<Move>,
    alpha: i32,
    beta: i32,
    depth: i32,
    seen: nat,
    start: u64,
    now: u64,
    goal: Searched,
    score: i32,
    after: u64,
)
    requires
        scanning(b, seq![m] + rest, alpha, beta, depth, seen, start, now, goal),
        score == lift(search(b.spec_do_move(m), -beta, -alpha, (depth - 1) as nat).score),
        after == saturate(now + search(b.spec_do_move(m), -beta, -alpha, (depth - 1) as nat).nodes),
        i32::MIN < score,
    ensures
        score >= beta ==> goal.score == score && after == saturate(start + goal.nodes),
        score < beta ==> scanning(
            b,
            rest,
            if score > alpha { score } else { alpha },
            beta,
            depth,
            seen + search(b.spec_do_move(m), -beta, -alpha, (depth - 1) as nat).nodes,
            start,
            after,
            goal,
        ),
{
    let moves = seq![m] + rest;
    assert(moves[0] == m);
    assert(moves.drop_first() =~= rest);
}

/// Tries one move: plays it, searches the position it leads to, takes it back,
/// and gives the score as it counts for the position the move was played in.
fn probe(b: &mut Board, m: Move, alpha: i32, beta: i32, depth: i32, nodes: &mut u64) -> (score: i32)
    requires
        old(b).wf(),
        old(b).legal(m),
        1 <= depth <= MAX_DEPTH,
        i32::MIN < alpha,
        i32::MIN < beta,
    ensures
        *final(b) == *old(b),
        score == lift(search(old(b).spec_do_move(m), -beta, -alpha, (depth - 1) as nat).score),
        *final(nodes) == saturate(
            *old(nodes) + search(old(b).spec_do_move(m), -beta, -alpha, (depth - 1) as nat).nodes,
        ),
        i32::MIN < score,
    decreases depth, 0nat,
{
    proof {
        old(b).lemma_undo_move(m);
    }
    if m.is_new {
        b.do_new_move(m.size, m.to);
    } else {
        b.do_board_move(m.size, m.from, m.to);
    }
    let mut score = negamax(b, -beta, -alpha, depth - 1, nodes);
    if m.is_new {
        b.undo_new_move(m.size, m.to);
    } else {
        b.undo_board_move(m.size, m.from, m.to);
    }
    if score != FAR_SCORE {
        score = -score;
    }
    score
}

/// Searches position `b` to `depth` within the window `alpha` to `beta`, and
/// counts the positions it looks at in `nodes`. The position is played on and
/// restored.
pub fn negamax(b: &mut Board, alpha: i32, beta: i32, depth: i32, nodes: &mut u64) -> (score: i32)
    requires
        old(b).wf(),
        0 <= depth <= MAX_DEPTH,
        i32::MIN < alpha,
        i32::MIN < beta,
    ensures
        *final(b) == *old(b),
        score == search(*old(b), alpha as int, beta as int, depth as nat).score,
        *final(nodes) == saturate(
            *old(nodes) + search(*old(b), alpha as int, beta as int, depth as nat).nodes,
        ),
        i32::MIN < score,
    decreases depth, 1nat,
{
    let ghost b0 = *b;
    let ghost start = *nodes;
    let ghost goal = search(b0, alpha as int, beta as int, depth as nat);
    let mut lo = alpha;
    let mut hi = beta;
    *nodes = nodes.saturating_add(1);
    match b.get_state() {
        1 => return WIN_SCORE + depth,
        2 => return LOSS_SCORE - depth,
        3 => return DRAW_SCORE,
        _ => (),
    }
    if depth == 0 {
        return FAR_SCORE;
    }
    let best = WIN_SCORE + depth - 1;
    if hi > best {
        hi = best;
        if lo >= hi {
            return lo;
        }
    }
    let ghost mut seen: nat = 1;
    let ghost covering = b0.placements_down(2, 1, true);
    let ghost plain = b0.placements_down(2, 0, false);
    let ghost moving = b0.relocations_down(2);
    assert(b0.search_order() =~= b0.winning_from(0) + (covering + (plain + moving)));
    // Winning
    let ghost after_winning = covering + (plain + moving);
    let mut to: i32 = 0;
    while to < 9
        invariant
            0 <= to <= 9,
            *b == b0,
            b0 == *old(b),
            start == *old(nodes),
            goal == search(b0, alpha as int, beta as int, depth as nat),
            scanning(
                b0,
                b0.winning_from(to) + after_winning,
                lo,
                hi,
                depth,
                seen,
                start,
                *nodes,
                goal,
            ),
        decreases 9 - to,
    {
        let ghost after_to = b0.winning_from((to + 1) as i32) + after_winning;
        if b.is_winning_spot(to) {
            assert(b0.winning_from(to) + after_winning =~= b0.winning_to(to, 0) + after_to);
            let mut size: i32 = 0;
            while size < 3
                invariant
                    0 <= size <= 3,
                    0 <= to < 9,
                    *b == b0,
                    b0 == *old(b),
                    start == *old(nodes),
                    goal == search(b0, alpha as int, beta as int, depth as nat),
                    scanning(
                        b0,
                        b0.winning_to(to, size) + after_to,
                        lo,
                        hi,
                        depth,
                        seen,
                        start,
                        *nodes,
                        goal,
                    ),
                decreases 3 - size,
            {
                let ghost after_size = b0.winning_to(to, (size + 1) as i32) + after_to;
                if b.is_free(size, to) {
                    let ghost moves = b0.relocations(size, to, 0) + after_size;
                    if b.is_left(size) {
                        assert(b0.winning_to(to, size) + after_to =~= seq![placement(size, to)]
                            + moves);
                        let ghost now = *nodes;
                        let score = probe(
                            b,
                            Move { is_new: true, size, from: -1, to },
                            lo,
                            hi,
                            depth,
                            nodes,
                        );
                        proof {
                            lemma_scan_step(
                                b0,
                                placement(size, to),
                                moves,
                                lo,
                                hi,
                                depth,
                                seen,
                                start,
                                now,
                                goal,
                                score,
                                *nodes,
                            );
                            seen = seen + search(
                                b0.spec_do_move(placement(size, to)),
                                -hi,
                                -lo,
                                (depth - 1) as nat,
                            ).nodes;
                        }
                        if score >= hi {
                            return score;
                        }
                        if score > lo {
                            lo = score;
                        }
                    } else {
                        assert(b0.winning_to(to, size) + after_to =~= moves);
                    }
                    let mut from: i32 = 0;
                    while from < 9
                        invariant
                            0 <= from <= 9,
                            0 <= size < 3,
                            0 <= to < 9,
                            *b == b0,
                            b0 == *old(b),
                            start == *old(nodes),
                            goal == search(b0, alpha as int, beta as int, depth as nat),
                            b0.spec_is_free(size, to),
                            scanning(
                                b0,
                                b0.relocations(size, to, from) + after_size,
                                lo,
                                hi,
                                depth,
                                seen,
                                start,
                                *nodes,
                                goal,
                            ),
                        decreases 9 - from,
                    {
                        let ghost rest = b0.relocations(size, to, (from + 1) as i32) + after_size;
                        if b.is_movable(size, from) {
                            assert(b0.relocations(size, to, from) + after_size =~= seq![
                                relocation(size, from, to),
                            ] + rest);
                            let ghost now = *nodes;
                            let score = probe(
                                b,
                                Move { is_new: false, size, from, to },
                                lo,
                                hi,
                                depth,
                                nodes,
                            );
                            proof {
                                lemma_scan_step(
                                    b0,
                                    relocation(size, from, to),
                                    rest,
                                    lo,
                                    hi,
                                    depth,
                                    seen,
                                    start,
                                    now,
                                    goal,
                                    score,
                                    *nodes,
                                );
                                seen = seen + search(
                                    b0.spec_do_move(relocation(size, from, to)),
                                    -hi,
                                    -lo,
                                    (depth - 1) as nat,
                                ).nodes;
                            }
                            if score >= hi {
                                return score;
                            }
                            if score > lo {
                                lo = score;
                            }
                        } else {
                            assert(b0.relocations(size, to, from) + after_size =~= rest);
                        }
                        from += 1;
                    }
                    assert(b0.relocations(size, to, from) + after_size =~= after_size);
                } else {
                    assert(b0.winning_to(to, size) + after_to =~= after_size);
                }
                size += 1;
            }
            assert(b0.winning_to(to, size) + after_to =~= after_to);
        } else {
            assert(b0.winning_from(to) + after_winning =~= after_to);
        }
        to += 1;
    }
    assert(b0.winning_from(to) + after_winning =~= covering + (plain + moving));
    // New cover
    let ghost after_covering = plain + moving;
    let mut size: i32 = 2;
    while size >= 1
        invariant
            0 <= size <= 2,
            *b == b0,
            b0 == *old(b),
            start == *old(nodes),
            goal == search(b0, alpha as int, beta as int, depth as nat),
            scanning(
                b0,
                b0.placements_down(size, 1, true) + after_covering,
                lo,
                hi,
                depth,
                seen,
                start,
                *nodes,
                goal,
            ),
        decreases size,
    {
        let ghost after_size = b0.placements_down((size - 1) as i32, 1, true) + after_covering;
        if b.is_left(size) {
            assert(b0.placements_down(size, 1, true) + after_covering =~= b0.placements(
                size,
                true,
                0,
            ) + after_size);
            let mut to: i32 = 0;
            while to < 9
                invariant
                    0 <= to <= 9,
                    1 <= size <= 2,
                    *b == b0,
                    b0 == *old(b),
                    start == *old(nodes),
                    goal == search(b0, alpha as int, beta as int, depth as nat),
                    b0.spec_is_left(size),
                    scanning(
                        b0,
                        b0.placements(size, true, to) + after_size,
                        lo,
                        hi,
                        depth,
                        seen,
                        start,
                        *nodes,
                        goal,
                    ),
                decreases 9 - to,
            {
                let ghost rest = b0.placements(size, true, (to + 1) as i32) + after_size;
                if b.is_free(size, to) && b.is_cover(size, to) {
                    assert(b0.placements(size, true, to) + after_size =~= seq![placement(size, to)]
                        + rest);
                    let ghost now = *nodes;
                    let score = probe(
                        b,
                        Move { is_new: true, size, from: -1, to },
                        lo,
                        hi,
                        depth,
                        nodes,
                    );
                    proof {
                        lemma_scan_step(
                            b0,
                            placement(size, to),
                            rest,
                            lo,
                            hi,
                            depth,
                            seen,
                            start,
                            now,
                            goal,
                            score,
                            *nodes,
                        );
                        seen = seen + search(
                            b0.spec_do_move(placement(size, to)),
                            -hi,
                            -lo,
                            (depth - 1) as nat,
                        ).nodes;
                    }
                    if score >= hi {
                        return score;
                    }
                    if score > lo {
                        lo = score;
                    }
                } else {
                    assert(b0.placements(size, true, to) + after_size =~= rest);
                }
                to += 1;
            }
            assert(b0.placements(size, true, to) + after_size =~= after_size);
        } else {
            assert(b0.placements_down(size, 1, true) + after_covering =~= after_size);
        }
        size -= 1;
    }
    assert(b0.placements_down(size, 1, true) + after_covering =~= plain + moving);
    // New !cover
    let mut size: i32 = 2;
    while size >= 0
        invariant
            -1 <= size <= 2,
            *b == b0,
            b0 == *old(b),
            start == *old(nodes),
            goal == search(b0, alpha as int, beta as int, depth as nat),
            scanning(
                b0,
                b0.placements_down(size, 0, false) + moving,
                lo,
                hi,
                depth,
                seen,
                start,
                *nodes,
                goal,
            ),
        decreases size + 1,
    {
        let ghost after_size = b0.placements_down((size - 1) as i32, 0, false) + moving;
        if b.is_left(size) {
            assert(b0.placements_down(size, 0, false) + moving =~= b0.placements(size, false, 0)
                + after_size);
            let mut to: i32 = 0;
            while to < 9
                invariant
                    0 <= to <= 9,
                    0 <= size <= 2,
                    *b == b0,
                    b0 == *old(b),
                    start == *old(nodes),
                    goal == search(b0, alpha as int, beta as int, depth as nat),
                    b0.spec_is_left(size),
                    scanning(
                        b0,
                        b0.placements(size, false, to) + after_size,
                        lo,
                        hi,
                        depth,
                        seen,
                        start,
                        *nodes,
                        goal,
                    ),
                decreases 9 - to,
            {
                let ghost rest = b0.placements(size, false, (to + 1) as i32) + after_size;
                if b.is_free(size, to) && !b.is_cover(size, to) {
                    assert(b0.placements(size, false, to) + after_size =~= seq![
                        placement(size, to),
                    ] + rest);
                    let ghost now = *nodes;
                    let score = probe(
                        b,
                        Move { is_new: true, size, from: -1, to },
                        lo,
                        hi,
                        depth,
                        nodes,
                    );
                    proof {
                        lemma_scan_step(
                            b0,
                            placement(size, to),
                            rest,
                            lo,
                            hi,
                            depth,
                            seen,
                            start,
                            now,
                            goal,
                            score,
                            *nodes,
                        );
                        seen = seen + search(
                            b0.spec_do_move(placement(size, to)),
                            -hi,
                            -lo,
                            (depth - 1) as nat,
                        ).nodes;
                    }
                    if score >= hi {
                        return score;
                    }
                    if score > lo {
                        lo = score;
                    }
                } else {
                    assert(b0.placements(size, false, to) + after_size =~= rest);
                }
                to += 1;
            }
            assert(b0.placements(size, false, to) + after_size =~= after_size);
        } else {
            assert(b0.placements_down(size, 0, false) + moving =~= after_size);
        }
        size -= 1;
    }
    assert(b0.placements_down(size, 0, false) + moving =~= moving);
    // Relocations
    let ghost nothing = Seq::<Move>::empty();
    assert(moving =~= b0.relocations_down(2) + nothing);
    let mut size: i32 = 2;
    while size >= 0
        invariant
            -1 <= size <= 2,
            *b == b0,
            b0 == *old(b),
            start == *old(nodes),
            goal == search(b0, alpha as int, beta as int, depth as nat),
            nothing == Seq::<Move>::empty(),
            scanning(
                b0,
                b0.relocations_down(size) + nothing,
                lo,
                hi,
                depth,
                seen,
                start,
                *nodes,
                goal,
            ),
        decreases size + 1,
    {
        let ghost after_size = b0.relocations_down((size - 1) as i32) + nothing;
        assert(b0.relocations_down(size) + nothing =~= b0.relocations_to(size, 0) + after_size);
        let mut to: i32 = 0;
        while to < 9
            invariant
                0 <= to <= 9,
                0 <= size <= 2,
                *b == b0,
                b0 == *old(b),
                start == *old(nodes),
                goal == search(b0, alpha as int, beta as int, depth as nat),
                scanning(
                    b0,
                    b0.relocations_to(size, to) + after_size,
                    lo,
                    hi,
                    depth,
                    seen,
                    start,
                    *nodes,
                    goal,
                ),
            decreases 9 - to,
        {
            let ghost after_to = b0.relocations_to(size, (to + 1) as i32) + after_size;
            if b.is_free(size, to) {
                assert(b0.relocations_to(size, to) + after_size =~= b0.relocations(size, to, 0)
                    + after_to);
                let mut from: i32 = 0;
                while from < 9
                    invariant
                        0 <= from <= 9,
                        0 <= size <= 2,
                        0 <= to < 9,
                        *b == b0,
                        b0 == *old(b),
                        start == *old(nodes),
                        goal == search(b0, alpha as int, beta as int, depth as nat),
                        b0.spec_is_free(size, to),
                        scanning(
                            b0,
                            b0.relocations(size, to, from) + after_to,
                            lo,
                            hi,
                            depth,
                            seen,
                            start,
                            *nodes,
                            goal,
                        ),
                    decreases 9 - from,
                {
                    let ghost rest = b0.relocations(size, to, (from + 1) as i32) + after_to;
                    if b.is_movable(size, from) {
                        assert(b0.relocations(size, to, from) + after_to =~= seq![
                            relocation(size, from, to),
                        ] + rest);
                        let ghost now = *nodes;
                        let score = probe(
                            b,
                            Move { is_new: false, size, from, to },
                            lo,
                            hi,
                            depth,
                            nodes,
                        );
                        proof {
                            lemma_scan_step(
                                b0,
                                relocation(size, from, to),
                                rest,
                                lo,
                                hi,
                                depth,
                                seen,
                                start,
                                now,
                                goal,
                                score,
                                *nodes,
                            );
                            seen = seen + search(
                                b0.spec_do_move(relocation(size, from, to)),
                                -hi,
                                -lo,
                                (depth - 1) as nat,
                            ).nodes;
                        }
                        if score >= hi {
                            return score;
                        }
                        if score > lo {
                            lo = score;
                        }
                    } else {
                        assert(b0.relocations(size, to, from) + after_to =~= rest);
                    }
                    from += 1;
                }
                assert(b0.relocations(size, to, from) + after_to =~= after_to);
            } else {
                assert(b0.relocations_to(size, to) + after_size =~= after_to);
            }
            to += 1;
        }
        assert(b0.relocations_to(size, to) + after_size =~= after_size);
        size -= 1;
    }
    assert(b0.relocations_down(size) + nothing =~= nothing);
    return lo;
}

} // verus!
