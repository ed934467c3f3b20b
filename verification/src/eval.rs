//! Evaluations, and the search that deepens until it has one.

use crate::board::Board;
use crate::clock::{elapsed, now, seconds};
use crate::game::GameBoard;
use crate::negamax::{
    negamax, saturate, search, DRAW_SCORE, FAR_SCORE, LOSS_SCORE, MAX_DEPTH, MAX_SCORE, MIN_SCORE,
    WIN_SCORE,
};
use vstd::prelude::*;

verus! {

/// What is known of a position, for the side to move.
#[derive(Debug, Clone, Copy, PartialEq, Eq, Structural)]
pub enum EvalKind {
    TooFar,
    Loss,
    Draw,
    Win,
}

/// The outcome of a search: its kind, the depth that gave it, the seconds the
/// search took (as the bit pattern of a single-precision number) and the
/// number of positions it looked at. An evaluation that was not searched for
/// but found has time and nodes 0.
#[derive(Debug, Clone, Copy, PartialEq, Eq, Structural)]
pub struct Evaluation {
    pub kind: EvalKind,
    pub depth: u16,
    pub time: u32,
    pub nodes: u64,
}

/// The kind that a score stands for.
pub open spec fn kind_of(score: int) -> EvalKind {
    if score == FAR_SCORE {
        EvalKind::TooFar
    } else if score == DRAW_SCORE {
        EvalKind::Draw
    } else if score < 0 {
        EvalKind::Loss
    } else {
        EvalKind::Win
    }
}

/// The score of position `b` searched to `depth` with the full window.
pub open spec fn root_score(b: Board, depth: int) -> int {
    search(b, MIN_SCORE as int, MAX_SCORE as int, depth as nat).score
}

/// The number of positions that the search of `b` to `depth` looks at.
pub open spec fn root_nodes(b: Board, depth: int) -> nat {
    search(b, MIN_SCORE as int, MAX_SCORE as int, depth as nat).nodes
}

/// The number of positions that the searches of `b` to the depths from
/// `first` to `last` look at, taken together.
pub open spec fn nodes_between(b: Board, first: int, last: int) -> nat
    decreases last - first + 1,
{
    if last < first {
        0
    } else {
        nodes_between(b, first, last - 1) + root_nodes(b, last)
    }
}

/// Whether `eval` is what deepening from `start` to `max` gives for position
/// `b`, but for the time: its depth is the first from `start` on that
/// resolves the position or reaches `max`, its kind is that of the score at
/// that depth, and its nodes are those of all the searches up to there.
pub open spec fn deepened(b: Board, start: int, max: int, eval: Evaluation) -> bool {
    &&& start <= eval.depth
    &&& forall|d: int|
        start <= d < eval.depth ==> #[trigger] root_score(b, d) == FAR_SCORE && d < max
    &&& root_score(b, eval.depth as int) != FAR_SCORE || eval.depth >= max
    &&& eval.kind == kind_of(root_score(b, eval.depth as int))
    &&& eval.nodes == saturate(nodes_between(b, start, eval.depth as int) as int)
}

/// The evaluation that `score` at `depth` stands for.
pub fn classify(score: i32, depth: u16, time: u32, nodes: u64) -> (eval: Evaluation)
    ensures
        eval == (Evaluation { kind: kind_of(score as int), depth, time, nodes }),
{
    let mut eval = Evaluation { kind: EvalKind::TooFar, depth, time, nodes };
    if score == FAR_SCORE {
        eval.kind = EvalKind::TooFar;
    } else if score == DRAW_SCORE {
        eval.kind = EvalKind::Draw;
    } else if score < 0 {
        eval.kind = EvalKind::Loss;
    } else if score > 0 {
        eval.kind = EvalKind::Win;
    }
    return eval;
}

/// Searches the position of `b` to `start_depth`, then one deeper at a time,
/// until a search resolves it or `max_depth` is reached. The time is that of
/// all the searches together.
pub fn deepening(b: &GameBoard, start_depth: i32, max_depth: i32) -> (eval: Evaluation)
    requires
        b.wf(),
        0 <= start_depth <= MAX_DEPTH,
        0 <= max_depth <= MAX_DEPTH,
    ensures
        deepened(b@.board, start_depth as int, max_depth as int, eval),
{
    let mut nodes: u64 = 0;
    let mut depth = start_depth;
    let start = now();
    let ghost board = b@.board;
    loop
        invariant
            b.wf(),
            board == b@.board,
            0 <= start_depth <= depth <= MAX_DEPTH,
            0 <= max_depth <= MAX_DEPTH,
            forall|d: int|
                start_depth <= d < depth ==> #[trigger] root_score(board, d) == FAR_SCORE && d
                    < max_depth,
            nodes == saturate(nodes_between(board, start_depth as int, depth - 1) as int),
        decreases MAX_DEPTH - depth,
    {
        let mut search_b = b.get_board().clone();
        let score = negamax(&mut search_b, MIN_SCORE, MAX_SCORE, depth, &mut nodes);
        if score != FAR_SCORE || depth >= max_depth {
            let time = seconds(&elapsed(&start));
            return classify(score, depth as u16, time, nodes);
        }
        depth += 1;
    }
}

/// A position with a line is decided at every depth and in every window: the
/// side to move has lost where only the other side has a line, and won where
/// only it has one itself.
pub proof fn lemma_line_decides(b: Board, alpha: int, beta: int, depth: nat)
    ensures
        b.spec_state() == 2 ==> search(b, alpha, beta, depth).score == LOSS_SCORE - depth
            && kind_of(search(b, alpha, beta, depth).score) == EvalKind::Loss,
        b.spec_state() == 1 ==> search(b, alpha, beta, depth).score == WIN_SCORE + depth
            && kind_of(search(b, alpha, beta, depth).score) == EvalKind::Win,
        b.spec_state() == 3 ==> kind_of(search(b, alpha, beta, depth).score) == EvalKind::Draw,
{
}

/// Deepening decides a position with a line at the depth it starts from.
pub proof fn lemma_line_deepened(b: Board, start: int, max: int, eval: Evaluation)
    requires
        0 <= start,
        deepened(b, start, max, eval),
    ensures
        b.spec_state() == 2 ==> eval.kind == EvalKind::Loss && eval.depth == start,
        b.spec_state() == 1 ==> eval.kind == EvalKind::Win && eval.depth == start,
        b.spec_state() == 3 ==> eval.kind == EvalKind::Draw && eval.depth == start,
{
    lemma_line_decides(b, MIN_SCORE as int, MAX_SCORE as int, start as nat);
    lemma_line_decides(b, MIN_SCORE as int, MAX_SCORE as int, eval.depth as nat);
    if b.spec_state() != 0 && start < eval.depth {
        assert(root_score(b, start) == FAR_SCORE);
    }
}

} // verus!
