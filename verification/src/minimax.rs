//! What the search finds, held against trying every move.
//!
//! The search leaves moves out where the window allows it. It decides a
//! position all the same as the search without a window does: it finds a win
//! exactly where that one finds a win, and a loss exactly where that one finds
//! a loss. Between a draw and a position that the depth did not resolve the
//! two may differ, as the mark of the unresolved does not change its sign.

use crate::board::Board;
use crate::eval::{deepened, kind_of, root_score, EvalKind, Evaluation};
use crate::moves::Move;
use crate::negamax::{
    lift, scan, search, DRAW_SCORE, FAR_SCORE, LOSS_SCORE, MAX_SCORE, MIN_SCORE, WIN_SCORE,
};
use vstd::prelude::*;

verus! {

/// The score of position `b` at `depth` by trying every move: that of the
/// position itself where it has a line or the depth is used up, else the best
/// of the scores that the moves lead to.
pub open spec fn minimax(b: Board, depth: nat) -> int
    decreases depth, 1nat, 0nat,
{
    let state = b.spec_state();
    if state == 1 {
        WIN_SCORE + depth
    } else if state == 2 {
        LOSS_SCORE - depth
    } else if state == 3 {
        DRAW_SCORE as int
    } else if depth == 0 {
        FAR_SCORE as int
    } else {
        best_reply(b, b.spec_moves(), depth)
    }
}

/// The best of the scores that `moves` lead to from `b`, and `MIN_SCORE` where
/// there is no move.
pub open spec fn best_reply(b: Board, moves: Seq<Move>, depth: nat) -> int
    decreases depth, 0nat, moves.len(),
{
    if moves.len() == 0 || depth == 0 {
        MIN_SCORE as int
    } else {
        let first = lift(minimax(b.spec_do_move(moves[0]), (depth - 1) as nat));
        let rest = best_reply(b, moves.drop_first(), depth);
        if first > rest {
            first
        } else {
            rest
        }
    }
}

/// The two bars that tell the kinds of scores apart: a score is a win from
/// `WIN_SCORE` on, and no loss from `LOSS_SCORE + 1` on.
pub open spec fn is_bar(c: int) -> bool {
    c == WIN_SCORE || c == LOSS_SCORE + 1
}

/// Whether the score that `m` leads to from `b` reaches `c`.
pub open spec fn reply_reaches(b: Board, m: Move, depth: nat, c: int) -> bool {
    lift(minimax(b.spec_do_move(m), (depth - 1) as nat)) >= c
}

/// Whether the score that one of `moves` leads to from `b` reaches `c`.
pub open spec fn some_reply(b: Board, moves: Seq<Move>, depth: nat, c: int) -> bool {
    exists|i: int| 0 <= i < moves.len() && #[trigger] reply_reaches(b, moves[i], depth, c)
}

/// Whether `x` is a score as the search gives it: a win, a loss, a draw or
/// the mark of the unresolved.
pub open spec fn plain(x: int) -> bool {
    x <= LOSS_SCORE || x == DRAW_SCORE || x == FAR_SCORE || x >= WIN_SCORE
}

proof fn lemma_some_reply_split(b: Board, moves: Seq<Move>, depth: nat, c: int)
    requires
        moves.len() > 0,
    ensures
        some_reply(b, moves, depth, c) <==> (reply_reaches(b, moves[0], depth, c) || some_reply(
            b,
            moves.drop_first(),
            depth,
            c,
        )),
{
    let rest = moves.drop_first();
    if some_reply(b, moves, depth, c) {
        let i = choose|i: int|
            0 <= i < moves.len() && #[trigger] reply_reaches(b, moves[i], depth, c);
        if i > 0 {
            assert(rest[i - 1] == moves[i]);
            assert(reply_reaches(b, rest[i - 1], depth, c));
        }
    }
    if some_reply(b, rest, depth, c) {
        let i = choose|i: int| 0 <= i < rest.len() && #[trigger] reply_reaches(b, rest[i], depth, c);
        assert(moves[i + 1] == rest[i]);
        assert(reply_reaches(b, moves[i + 1], depth, c));
    }
    if reply_reaches(b, moves[0], depth, c) {
        assert(some_reply(b, moves, depth, c));
    }
}

/// The best reply reaches a bar exactly where one of the replies does.
proof fn lemma_best_reply(b: Board, moves: Seq<Move>, depth: nat, c: int)
    requires
        depth > 0,
    ensures
        best_reply(b, moves, depth) >= c <==> (MIN_SCORE >= c || some_reply(b, moves, depth, c)),
    decreases moves.len(),
{
    if moves.len() > 0 {
        lemma_some_reply_split(b, moves, depth, c);
        lemma_best_reply(b, moves.drop_first(), depth, c);
    }
}

/// Two lists that hold the same moves lead to the same scores.
proof fn lemma_some_reply_subset(b: Board, one: Seq<Move>, other: Seq<Move>, depth: nat, c: int)
    requires
        forall|m: Move| one.contains(m) ==> other.contains(m),
        some_reply(b, one, depth, c),
    ensures
        some_reply(b, other, depth, c),
{
    let i = choose|i: int| 0 <= i < one.len() && #[trigger] reply_reaches(b, one[i], depth, c);
    assert(one.contains(one[i]));
    let j = choose|j: int| 0 <= j < other.len() && other[j] == one[i];
    assert(reply_reaches(b, other[j], depth, c));
}

/// Trying moves within a window reaches a bar of the window exactly where
/// `alpha` does or one of the moves leads to a score that does.
proof fn lemma_scan_sound(
    b: Board,
    moves: Seq<Move>,
    alpha: int,
    beta: int,
    depth: nat,
    nodes: nat,
    c: int,
)
    requires
        depth > 0,
        is_bar(c),
        c <= beta,
    ensures
        scan(b, moves, alpha, beta, depth, nodes).score >= c <==> (alpha >= c || some_reply(
            b,
            moves,
            depth,
            c,
        )),
    decreases depth, 0nat, moves.len(),
{
    if moves.len() > 0 {
        let next = b.spec_do_move(moves[0]);
        let child = search(next, -beta, -alpha, (depth - 1) as nat);
        let score = lift(child.score);
        lemma_some_reply_split(b, moves, depth, c);
        if alpha < c {
            lemma_search_sound(next, -beta, -alpha, (depth - 1) as nat, 1 - c);
            assert(score >= c <==> reply_reaches(b, moves[0], depth, c));
        }
        if score < beta {
            lemma_scan_sound(
                b,
                moves.drop_first(),
                if score > alpha { score } else { alpha },
                beta,
                depth,
                nodes + child.nodes,
                c,
            );
        }
    } else {
        assert(!some_reply(b, moves, depth, c));
    }
}

/// The search reaches a bar of its window exactly where the search without a
/// window does.
pub proof fn lemma_search_sound(b: Board, alpha: int, beta: int, depth: nat, c: int)
    requires
        is_bar(c),
        alpha < c <= beta,
    ensures
        search(b, alpha, beta, depth).score >= c <==> minimax(b, depth) >= c,
    decreases depth, 1nat, 0nat,
{
    if b.spec_state() == 0 && depth > 0 {
        let best = WIN_SCORE + depth - 1;
        let order = b.search_order();
        let moves = b.spec_moves();
        lemma_scan_sound(b, order, alpha, if beta > best { best } else { beta }, depth, 1, c);
        lemma_best_reply(b, moves, depth, c);
        assert forall|m: Move| order.contains(m) <==> moves.contains(m) by {
            b.lemma_search_order_is_moves(m);
        }
        if some_reply(b, order, depth, c) {
            lemma_some_reply_subset(b, order, moves, depth, c);
        }
        if some_reply(b, moves, depth, c) {
            lemma_some_reply_subset(b, moves, order, depth, c);
        }
    }
}

proof fn lemma_scan_plain(
    b: Board,
    moves: Seq<Move>,
    alpha: int,
    beta: int,
    depth: nat,
    nodes: nat,
)
    requires
        depth > 0,
        plain(alpha),
        plain(-beta),
    ensures
        plain(scan(b, moves, alpha, beta, depth, nodes).score),
    decreases depth, 0nat, moves.len(),
{
    if moves.len() > 0 {
        let child = search(b.spec_do_move(moves[0]), -beta, -alpha, (depth - 1) as nat);
        let score = lift(child.score);
        lemma_search_plain(b.spec_do_move(moves[0]), -beta, -alpha, (depth - 1) as nat);
        if score < beta {
            lemma_scan_plain(
                b,
                moves.drop_first(),
                if score > alpha { score } else { alpha },
                beta,
                depth,
                nodes + child.nodes,
            );
        }
    }
}

/// Within a window of scores, the search gives a score.
pub proof fn lemma_search_plain(b: Board, alpha: int, beta: int, depth: nat)
    requires
        plain(alpha),
        plain(-beta),
    ensures
        plain(search(b, alpha, beta, depth).score),
    decreases depth, 1nat, 0nat,
{
    if b.spec_state() == 0 && depth > 0 {
        let best = WIN_SCORE + depth - 1;
        lemma_scan_plain(
            b,
            b.search_order(),
            alpha,
            if beta > best { best } else { beta },
            depth,
            1,
        );
    }
}

proof fn lemma_best_reply_plain(b: Board, moves: Seq<Move>, depth: nat)
    requires
        depth > 0,
    ensures
        plain(best_reply(b, moves, depth)),
    decreases depth, 0nat, moves.len(),
{
    if moves.len() > 0 {
        lemma_minimax_plain(b.spec_do_move(moves[0]), (depth - 1) as nat);
        lemma_best_reply_plain(b, moves.drop_first(), depth);
    }
}

/// Trying every move gives a score.
pub proof fn lemma_minimax_plain(b: Board, depth: nat)
    ensures
        plain(minimax(b, depth)),
    decreases depth, 1nat, 0nat,
{
    if b.spec_state() == 0 && depth > 0 {
        lemma_best_reply_plain(b, b.spec_moves(), depth);
    }
}

/// With the full window, the search finds a win exactly where trying every
/// move to the same depth finds one, and a loss exactly where that finds one.
pub proof fn lemma_search_is_minimax(b: Board, depth: nat)
    ensures
        kind_of(root_score(b, depth as int)) == EvalKind::Win <==> kind_of(minimax(b, depth))
            == EvalKind::Win,
        kind_of(root_score(b, depth as int)) == EvalKind::Loss <==> kind_of(minimax(b, depth))
            == EvalKind::Loss,
{
    lemma_search_sound(b, MIN_SCORE as int, MAX_SCORE as int, depth, WIN_SCORE as int);
    lemma_search_sound(b, MIN_SCORE as int, MAX_SCORE as int, depth, LOSS_SCORE + 1);
    lemma_search_plain(b, MIN_SCORE as int, MAX_SCORE as int, depth);
    lemma_minimax_plain(b, depth);
}

/// Deepening finds a win exactly where trying every move to the depth it
/// stopped at finds one, and a loss exactly where that finds one.
pub proof fn lemma_deepened_is_minimax(b: Board, start: int, max: int, eval: Evaluation)
    requires
        0 <= start,
        deepened(b, start, max, eval),
    ensures
        eval.kind == EvalKind::Win <==> kind_of(minimax(b, eval.depth as nat)) == EvalKind::Win,
        eval.kind == EvalKind::Loss <==> kind_of(minimax(b, eval.depth as nat)) == EvalKind::Loss,
{
    lemma_search_is_minimax(b, eval.depth as nat);
}

} // verus!
