//! The cache of evaluations and the evaluations in progress.
//!
//! An evaluation is kept under the canonical identifier of its position. A
//! position is searched only where the cache has no answer for it, and while
//! a search for an identifier goes on, the identifier is marked, so that no
//! second search for it starts.

use crate::codec::{
    collected, decode, encode, evaluation, fields, readable, snapshot_of, spec_evaluation,
    StoreError,
};
use crate::eval::{deepened, deepening};
pub use crate::eval::{EvalKind, Evaluation};
use crate::game::{GameBoard, GameView, State};
use crate::ident::canonical_ident;
use crate::moves::Move;
use crate::negamax::{saturate, MAX_DEPTH};
use std::collections::{HashMap, HashSet};
use vstd::prelude::*;
use vstd::std_specs::iter::IteratorSpec;

verus! {

/// The depth at which a search starts, where nothing deeper is known.
pub const START_DEPTH: i32 = 10;

/// The evaluations by identifier, and the identifiers that are being
/// searched for.
pub struct Search {
    cache: HashMap<u64, Evaluation>,
    eval: HashSet<u64>,
}

/// What a `Search` holds.
pub struct SearchView {
    pub cache: Map<u64, Evaluation>,
    pub in_flight: Set<u64>,
}

/// What is to be done for a request.
#[derive(Debug, Clone, Copy, PartialEq, Eq, Structural)]
pub enum Step {
    /// The identifier is being searched for: ask again when that has ended.
    Wait,
    /// The cache has the answer.
    Hit(Evaluation),
    /// The identifier is now marked: search from `start_depth`, then hand in
    /// the evaluation with `finish`.
    Run { start_depth: i32 },
}

impl SearchView {
    /// Whether the cache answers a request for `id` at `max_depth`: it has an
    /// evaluation that is decided, or one that is as deep as asked for.
    pub open spec fn answers(self, id: u64, max_depth: int) -> bool {
        self.cache.contains_key(id) && (self.cache[id].kind != EvalKind::TooFar
            || self.cache[id].depth >= max_depth)
    }

    /// The answer of the cache for `id`: what it holds, marked as found.
    pub open spec fn hit(self, id: u64) -> Evaluation {
        Evaluation { nodes: 0, time: 0, ..self.cache[id] }
    }

    /// The depth at which the search for `id` starts: `START_DEPTH` or
    /// `max_depth`, whichever is less, but no less than the depth that the
    /// cache has for `id`.
    pub open spec fn start_depth(self, id: u64, max_depth: int) -> int {
        let least = if max_depth < START_DEPTH {
            max_depth
        } else {
            START_DEPTH as int
        };
        if self.cache.contains_key(id) && self.cache[id].depth > least {
            self.cache[id].depth as int
        } else {
            least
        }
    }

    /// What is to be done for a request for `id` at `max_depth`.
    pub open spec fn spec_begin(self, id: u64, max_depth: int) -> Step {
        if self.in_flight.contains(id) {
            Step::Wait
        } else if self.answers(id, max_depth) {
            Step::Hit(self.hit(id))
        } else {
            Step::Run { start_depth: self.start_depth(id, max_depth) as i32 }
        }
    }

    /// The state after a request for `id` at `max_depth`: `id` is marked where
    /// a search is to be run.
    pub open spec fn after_begin(self, id: u64, max_depth: int) -> SearchView {
        if !self.in_flight.contains(id) && !self.answers(id, max_depth) {
            SearchView { in_flight: self.in_flight.insert(id), ..self }
        } else {
            self
        }
    }

    /// The state after the search for `id` has ended with `eval`.
    pub open spec fn after_finish(self, id: u64, eval: Evaluation) -> SearchView {
        SearchView { cache: self.cache.insert(id, eval), in_flight: self.in_flight.remove(id) }
    }

    /// Whether `later` knows of every identifier what `self` knows, or more: a
    /// decided evaluation is kept, an undecided one gives way only to a
    /// decided one or to one that is as deep.
    pub open spec fn improved_by(self, later: SearchView) -> bool {
        forall|id: u64| #[trigger]
            self.cache.contains_key(id) ==> later.cache.contains_key(id) && if self.cache[id].kind
                != EvalKind::TooFar {
                later.cache[id] == self.cache[id]
            } else {
                later.cache[id].kind != EvalKind::TooFar || later.cache[id].depth
                    >= self.cache[id].depth
            }
    }
}

/// Whether `eval` and `post` are what `evaluate` gives for position `b` after
/// `moves` moves, asked at `max_depth` in state `pre`: the answer of the cache
/// and the same state, or else what deepening gives, entered in the cache.
pub open spec fn evaluated(
    pre: SearchView,
    b: crate::board::Board,
    moves: nat,
    max_depth: int,
    eval: Evaluation,
    post: SearchView,
) -> bool {
    let id = canonical_ident(b, moves);
    if pre.answers(id, max_depth) {
        eval == pre.hit(id) && post == pre
    } else {
        &&& deepened(b, pre.start_depth(id, max_depth), max_depth, eval)
        &&& post == (SearchView { cache: pre.cache.insert(id, eval), ..pre })
    }
}

/// Whether `post` is what evaluating the `games` one after the other at
/// `max_depth` leaves of state `pre`.
pub open spec fn evaluated_all(
    pre: SearchView,
    games: Seq<GameView>,
    max_depth: int,
    post: SearchView,
) -> bool
    decreases games.len(),
{
    if games.len() == 0 {
        post == pre
    } else {
        exists|eval: Evaluation, mid: SearchView|
            evaluated_all(pre, games.drop_last(), max_depth, mid) && #[trigger] evaluated(
                mid,
                games.last().board,
                games.last().history.len(),
                max_depth,
                eval,
                post,
            )
    }
}

/// The positions below `g`, `g` itself first, down to `depth` moves on, for
/// which the cache has no answer at `max_depth`. A position is followed
/// further while the game goes on in it.
pub open spec fn wanted(s: SearchView, g: GameView, depth: nat, max_depth: int) -> Seq<GameView>
    decreases depth, 1nat, 0nat,
{
    let own = if s.answers(canonical_ident(g.board, g.history.len()), max_depth) {
        Seq::empty()
    } else {
        seq![g]
    };
    if g.state != State::InGame || depth == 0 {
        own
    } else {
        own + wanted_after(s, g, g.board.spec_moves(), depth, max_depth)
    }
}

/// The wanted positions below those that `moves` lead to from `g`.
pub open spec fn wanted_after(
    s: SearchView,
    g: GameView,
    moves: Seq<Move>,
    depth: nat,
    max_depth: int,
) -> Seq<GameView>
    decreases depth, 0nat, moves.len(),
{
    if moves.len() == 0 || depth == 0 {
        Seq::empty()
    } else {
        wanted(s, g.played(moves[0]), (depth - 1) as nat, max_depth) + wanted_after(
            s,
            g,
            moves.drop_first(),
            depth,
            max_depth,
        )
    }
}

/// The number of positions below `g`, `g` itself among them, down to `depth`
/// moves on.
pub open spec fn visited(g: GameView, depth: nat) -> nat
    decreases depth, 1nat, 0nat,
{
    if g.state != State::InGame || depth == 0 {
        1
    } else {
        1 + visited_after(g, g.board.spec_moves(), depth)
    }
}

/// The number of positions below those that `moves` lead to from `g`.
pub open spec fn visited_after(g: GameView, moves: Seq<Move>, depth: nat) -> nat
    decreases depth, 0nat, moves.len(),
{
    if moves.len() == 0 || depth == 0 {
        0
    } else {
        visited(g.played(moves[0]), (depth - 1) as nat) + visited_after(
            g,
            moves.drop_first(),
            depth,
        )
    }
}

/// The game after the positions below it were walked through: a pending move
/// is dropped where a move was played and taken back.
pub open spec fn walked(g: GameView, depth: nat) -> GameView {
    if g.state != State::InGame || depth == 0 || g.board.spec_moves().len() == 0 {
        g
    } else {
        GameView { sel: crate::game::Select::Idle, ..g }
    }
}

/// What the games hold.
pub open spec fn views(games: Seq<GameBoard>) -> Seq<GameView> {
    games.map_values(|g: GameBoard| g@)
}

/// Whether the games are well-formed.
pub open spec fn all_wf(games: Seq<GameBoard>) -> bool {
    forall|i: int| 0 <= i < games.len() ==> (#[trigger] games[i]).wf()
}

impl View for Search {
    type V = SearchView;

    closed spec fn view(&self) -> SearchView {
        SearchView { cache: self.cache@, in_flight: self.eval@ }
    }
}

impl Search {
    /// The cache that the bytes hold, with nothing being searched for.
    pub fn new(bytes: &[u8]) -> (r: Result<Search, StoreError>)
        ensures
            match r {
                Ok(s) => crate::codec::bincode_deserialized(bytes@) matches Some(records)
                    && readable(records) && s@.cache == collected(records) && s@.in_flight
                    == Set::<u64>::empty(),
                Err(e) => match crate::codec::bincode_deserialized(bytes@) {
                    Some(records) => !readable(records) && e == StoreError::UnknownKind,
                    None => e == StoreError::Unreadable,
                },
            },
    {
        match decode(bytes) {
            Ok(records) => Search::from_records(&records),
            Err(e) => Err(e),
        }
    }

    /// The cache that the records give, with nothing being searched for.
    pub fn from_records(records: &Vec<(u64, (u32, u16, u32, u64))>) -> (r: Result<
        Search,
        StoreError,
    >)
        ensures
            match r {
                Ok(s) => readable(records@) && s@.cache == collected(records@) && s@.in_flight
                    == Set::<u64>::empty(),
                Err(e) => !readable(records@) && e == StoreError::UnknownKind,
            },
    {
        let mut cache: HashMap<u64, Evaluation> = HashMap::new();
        let mut i: usize = 0;
        while i < records.len()
            invariant
                0 <= i <= records.len(),
                forall|j: int| 0 <= j < i ==> spec_evaluation(#[trigger] records@[j].1) is Some,
                cache@ == collected(records@.take(i as int)),
            decreases records.len() - i,
        {
            let record = records[i];
            match evaluation(record.1) {
                Some(eval) => {
                    cache.insert(record.0, eval);
                },
                None => {
                    return Err(StoreError::UnknownKind);
                },
            }
            assert(records@.take(i + 1).drop_last() =~= records@.take(i as int));
            i += 1;
        }
        assert(records@.take(i as int) =~= records@);
        Ok(Search { cache, eval: HashSet::new() })
    }

    /// The cache entry by entry, in no particular order.
    pub fn records(&self) -> (records: Vec<(u64, (u32, u16, u32, u64))>)
        ensures
            snapshot_of(self@.cache, records@),
    {
        let mut records: Vec<(u64, (u32, u16, u32, u64))> = Vec::new();
        let ghost all = self.cache.iter().remaining();
        for entry in it: self.cache.iter()
            invariant
                it.seq() == all,
                all == self.cache.iter().remaining(),
                records@.len() == it.index(),
                forall|j: int|
                    0 <= j < records@.len() ==> (#[trigger] records@[j]) == (
                        *all[j].0,
                        crate::codec::spec_fields(*all[j].1),
                    ),
        {
            let (id, eval) = entry;
            records.push((*id, fields(eval)));
        }
        proof {
            assert(records@.len() == all.len());
            assert forall|i: int, j: int| 0 <= i < j < records@.len() implies (
            #[trigger] records@[i]).0 != (#[trigger] records@[j]).0 by {
                if records@[i].0 == records@[j].0 {
                    assert(self.cache@[*all[i].0] == *all[i].1);
                    assert(self.cache@[*all[j].0] == *all[j].1);
                    assert(all[i] == all[j]);
                }
            }
            assert forall|id: u64| self@.cache.contains_key(id) implies exists|i: int|
                0 <= i < records@.len() && (#[trigger] records@[i]).0 == id by {
                assert(all.contains((&id, &self.cache@[id])));
                let i = choose|i: int| 0 <= i < all.len() && all[i] == (&id, &self.cache@[id]);
                assert(records@[i].0 == id);
            }
        }
        records
    }

    /// The bytes of the cache: those of its records, in the order in which the
    /// cache gave them.
    pub fn flush(&self) -> (r: Result<Vec<u8>, StoreError>)
        ensures
            exists|records: Seq<(u64, (u32, u16, u32, u64))>|
                #![trigger snapshot_of(self@.cache, records)]
                snapshot_of(self@.cache, records) && match r {
                    Ok(bytes) => crate::codec::bincode_serialized(records) == Some(bytes@),
                    Err(e) => crate::codec::bincode_serialized(records) is None && e
                        == StoreError::Unwritable,
                },
    {
        let records = self.records();
        encode(&records)
    }

    /// The number of evaluations in the cache.
    pub fn len(&self) -> (n: usize)
        ensures
            n == self@.cache.len(),
    {
        self.cache.len()
    }

    /// The evaluation that the cache holds for `id`.
    pub fn get(&self, id: u64) -> (r: Option<Evaluation>)
        ensures
            r == if self@.cache.contains_key(id) {
                Some(self@.cache[id])
            } else {
                None
            },
    {
        match self.cache.get(&id) {
            Some(e) => Some(*e),
            None => None,
        }
    }

    /// A copy of the cache as it is, with nothing being searched for.
    pub fn snapshot(&self) -> (s: Search)
        ensures
            s@.cache == self@.cache,
            s@.in_flight == Set::<u64>::empty(),
    {
        Search { cache: self.cache.clone(), eval: HashSet::new() }
    }

    /// Whether `id` is being searched for.
    pub fn in_flight(&self, id: u64) -> (r: bool)
        ensures
            r == self@.in_flight.contains(id),
    {
        self.eval.contains(&id)
    }

    /// Whether nothing is being searched for.
    pub fn idle(&self) -> (r: bool)
        ensures
            r == (self@.in_flight == Set::<u64>::empty()),
    {
        let r = self.eval.is_empty();
        assert(self@.in_flight.is_empty() <==> self@.in_flight =~= Set::<u64>::empty());
        r
    }

    /// Whether the cache answers a request for `id` at `max_depth`.
    pub fn answers(&self, id: u64, max_depth: i32) -> (r: bool)
        requires
            0 <= max_depth <= MAX_DEPTH,
        ensures
            r == self@.answers(id, max_depth as int),
    {
        if let Some(e) = self.cache.get(&id) {
            if e.kind != EvalKind::TooFar || e.depth >= max_depth as u16 {
                return true;
            }
        }
        return false;
    }

    /// Takes up a request for `id` at `max_depth`: says what is to be done,
    /// and marks `id` where that is a search.
    pub fn begin(&mut self, id: u64, max_depth: i32) -> (step: Step)
        requires
            0 <= max_depth <= MAX_DEPTH,
        ensures
            step == old(self)@.spec_begin(id, max_depth as int),
            final(self)@ == old(self)@.after_begin(id, max_depth as int),
            step matches Step::Run { start_depth } ==> 0 <= start_depth <= MAX_DEPTH,
    {
        let mut start_depth = if max_depth < START_DEPTH {
            max_depth
        } else {
            START_DEPTH
        };
        if self.eval.contains(&id) {
            return Step::Wait;
        }
        if let Some(e) = self.cache.get(&id) {
            if e.kind != EvalKind::TooFar || e.depth >= max_depth as u16 {
                let mut eval = *e;
                eval.nodes = 0;
                eval.time = 0;
                return Step::Hit(eval);
            }
            if e.depth as i32 > start_depth {
                start_depth = e.depth as i32;
            }
        }
        self.eval.insert(id);
        return Step::Run { start_depth };
    }

    /// Hands in the evaluation that the search for `id` has ended with: it
    /// takes the place of what the cache held for `id`, and the mark is taken
    /// off.
    pub fn finish(&mut self, id: u64, eval: Evaluation)
        ensures
            final(self)@ == old(self)@.after_finish(id, eval),
    {
        self.cache.insert(id, eval);
        self.eval.remove(&id);
    }

    /// The evaluation of the position of `b` at `max_depth`: the answer of
    /// the cache where it has one, else the outcome of a search that goes on
    /// from the depth the cache has, and is entered in the cache.
    pub fn evaluate(&mut self, b: &GameBoard, max_depth: i32) -> (eval: Evaluation)
        requires
            b.wf(),
            0 <= max_depth <= MAX_DEPTH,
            !old(self)@.in_flight.contains(canonical_ident(b@.board, b@.history.len())),
        ensures
            evaluated(
                old(self)@,
                b@.board,
                b@.history.len(),
                max_depth as int,
                eval,
                final(self)@,
            ),
    {
        let id = b.get_max_id();
        match self.begin(id, max_depth) {
            Step::Hit(eval) => eval,
            Step::Run { start_depth } => {
                let eval = deepening(b, start_depth, max_depth);
                self.finish(id, eval);
                assert(self@.in_flight =~= old(self)@.in_flight);
                eval
            },
            Step::Wait => vstd::pervasive::unreached(),
        }
    }

    /// Walks through the positions below that of `b`, down to `depth` moves
    /// on: counts them in `count`, and adds to `entries` those for which the
    /// cache has no answer at `max_depth`.
    pub fn add_entries(
        &self,
        b: &mut GameBoard,
        depth: i32,
        max_depth: i32,
        count: &mut u64,
        entries: &mut Vec<GameBoard>,
    )
        requires
            old(b).wf(),
            0 <= depth,
            0 <= max_depth <= MAX_DEPTH,
            all_wf(old(entries)@),
        ensures
            final(b).wf(),
            final(b)@ == walked(old(b)@, depth as nat),
            *final(count) == saturate(*old(count) + visited(old(b)@, depth as nat)),
            views(final(entries)@) == views(old(entries)@) + wanted(
                self@,
                old(b)@,
                depth as nat,
                max_depth as int,
            ),
            all_wf(final(entries)@),
        decreases depth,
    {
        let ghost g = b@;
        let ghost before = entries@;
        *count = count.saturating_add(1);
        if !self.answers(b.get_max_id(), max_depth) {
            let copy = b.clone();
            entries.push(copy);
            assert(views(entries@) =~= views(before) + seq![g]);
        } else {
            assert(views(entries@) =~= views(before) + Seq::<GameView>::empty());
        }
        if b.get_state() != State::InGame || depth == 0 {
            return ;
        }
        let moves = b.get_moves();
        let ghost own = views(entries@);
        let mut i: usize = 0;
        assert(moves@.skip(0) =~= moves@);
        while i < moves.len()
            invariant
                0 <= i <= moves.len(),
                0 < depth,
                0 <= max_depth <= MAX_DEPTH,
                g.wf(),
                g.state == State::InGame,
                moves@ == g.board.spec_moves(),
                b.wf(),
                b@ == if i == 0 {
                    g
                } else {
                    GameView { sel: crate::game::Select::Idle, ..g }
                },
                all_wf(entries@),
                saturate(*count + visited_after(g, moves@.skip(i as int), depth as nat)) == saturate(
                    *old(count) + visited(g, depth as nat),
                ),
                views(entries@) + wanted_after(
                    self@,
                    g,
                    moves@.skip(i as int),
                    depth as nat,
                    max_depth as int,
                ) == views(before) + wanted(self@, g, depth as nat, max_depth as int),
            decreases moves.len() - i,
        {
            let m = moves[i];
            let ghost rest = moves@.skip(i as int);
            let ghost so_far = views(entries@);
            let ghost counted = *count;
            proof {
                g.board.lemma_moves_complete(m);
                assert(moves@[i as int] == m);
                g.board.lemma_undo_move(m);
                assert(rest[0] == m);
                assert(rest.drop_first() =~= moves@.skip(i + 1));
                assert(b@.played(m) == g.played(m));
                assert(g.history.push(m).drop_last() =~= g.history);
            }
            b.do_move(m);
            self.add_entries(b, depth - 1, max_depth, count, entries);
            b.undo_move();
            proof {
                let below = wanted(self@, g.played(m), (depth - 1) as nat, max_depth as int);
                let later = wanted_after(
                    self@,
                    g,
                    moves@.skip(i + 1),
                    depth as nat,
                    max_depth as int,
                );
                assert((so_far + below) + later =~= so_far + (below + later));
            }
            i += 1;
        }
        assert(moves@.skip(i as int) =~= Seq::<Move>::empty());
        assert(views(entries@) + Seq::<GameView>::empty() =~= views(entries@));
    }

    /// Evaluates at `max_depth` the positions down to `depth` moves from the
    /// initial one for which the cache has no answer, one after the other.
    pub fn pre_evaluate(&mut self, depth: i32, max_depth: i32)
        requires
            0 <= depth,
            0 <= max_depth <= MAX_DEPTH,
            old(self)@.in_flight == Set::<u64>::empty(),
        ensures
            evaluated_all(
                old(self)@,
                wanted(old(self)@, GameView::start(false), depth as nat, max_depth as int),
                max_depth as int,
                final(self)@,
            ),
    {
        let mut board = GameBoard::new(false);
        let mut entries: Vec<GameBoard> = Vec::new();
        let mut count: u64 = 0;
        assert(views(entries@) =~= Seq::<GameView>::empty());
        self.add_entries(&mut board, depth, max_depth, &mut count, &mut entries);
        let ghost queue = wanted(
            old(self)@,
            GameView::start(false),
            depth as nat,
            max_depth as int,
        );
        assert(views(entries@) =~= queue);
        let mut i: usize = 0;
        while i < entries.len()
            invariant
                0 <= i <= entries.len(),
                0 <= max_depth <= MAX_DEPTH,
                all_wf(entries@),
                views(entries@) == queue,
                self@.in_flight == Set::<u64>::empty(),
                evaluated_all(old(self)@, queue.take(i as int), max_depth as int, self@),
            decreases entries.len() - i,
        {
            let ghost pre = self@;
            assert(entries@[i as int].wf());
            assert(views(entries@)[i as int] == entries@[i as int]@);
            let eval = self.evaluate(&entries[i], max_depth);
            proof {
                let done = queue.take(i + 1);
                assert(done.drop_last() =~= queue.take(i as int));
                assert(done.last() == queue[i as int]);
                assert(evaluated(
                    pre,
                    done.last().board,
                    done.last().history.len(),
                    max_depth as int,
                    eval,
                    self@,
                ));
            }
            i += 1;
        }
        assert(queue.take(i as int) =~= queue);
    }
}

/// What an evaluation gives and leaves behind: it is decided, or as deep as
/// was asked for; the cache answers a request like it, and gives the kind of
/// the evaluation without a search; if the kind is decided, this is so at
/// every depth; and the cache has lost nothing by it.
pub proof fn lemma_evaluated(
    pre: SearchView,
    b: crate::board::Board,
    moves: nat,
    max_depth: int,
    eval: Evaluation,
    post: SearchView,
)
    requires
        0 <= max_depth <= MAX_DEPTH,
        evaluated(pre, b, moves, max_depth, eval, post),
    ensures
        eval.kind != EvalKind::TooFar || eval.depth >= max_depth,
        post.in_flight == pre.in_flight,
        pre.improved_by(post),
        post.answers(canonical_ident(b, moves), max_depth),
        post.hit(canonical_ident(b, moves)).kind == eval.kind,
        post.hit(canonical_ident(b, moves)).nodes == 0,
        post.hit(canonical_ident(b, moves)).time == 0,
        eval.kind != EvalKind::TooFar ==> forall|deeper: int|
            #[trigger] post.answers(canonical_ident(b, moves), deeper),
{
}

/// Asked again at the same depth, or at any depth up to the one that the
/// first answer has, the request is answered from the cache, with the kind of
/// the first answer, and leaves the state as it is.
pub proof fn lemma_evaluate_again(
    pre: SearchView,
    b: crate::board::Board,
    moves: nat,
    max_depth: int,
    first: Evaluation,
    between: SearchView,
    asked: int,
    second: Evaluation,
    post: SearchView,
)
    requires
        0 <= max_depth <= MAX_DEPTH,
        evaluated(pre, b, moves, max_depth, first, between),
        asked <= max_depth || asked <= first.depth,
        evaluated(between, b, moves, asked, second, post),
    ensures
        second.kind == first.kind,
        second.nodes == 0,
        second.time == 0,
        post == between,
{
    lemma_evaluated(pre, b, moves, max_depth, first, between);
}

/// A decided answer stays: asked again at any depth, the request is answered
/// from the cache with the same kind.
pub proof fn lemma_decided_stays(
    pre: SearchView,
    b: crate::board::Board,
    moves: nat,
    max_depth: int,
    first: Evaluation,
    between: SearchView,
    deeper: int,
    second: Evaluation,
    post: SearchView,
)
    requires
        0 <= max_depth <= MAX_DEPTH,
        evaluated(pre, b, moves, max_depth, first, between),
        first.kind != EvalKind::TooFar,
        evaluated(between, b, moves, deeper, second, post),
    ensures
        second.kind == first.kind,
        second.nodes == 0,
        second.time == 0,
        post == between,
{
    lemma_evaluated(pre, b, moves, max_depth, first, between);
    assert(between.answers(canonical_ident(b, moves), deeper));
}

/// While an identifier is being searched for, a request for it starts no
/// second search and changes nothing; when the search has ended, a request at
/// no greater depth than the search was for is answered with its kind and
/// depth.
pub proof fn lemma_one_search_at_a_time(
    s: SearchView,
    id: u64,
    b: crate::board::Board,
    start: int,
    max_depth: int,
    eval: Evaluation,
)
    requires
        s.in_flight.contains(id),
        deepened(b, start, max_depth, eval),
    ensures
        forall|asked: int| #[trigger] s.spec_begin(id, asked) == Step::Wait,
        forall|asked: int| #[trigger] s.after_begin(id, asked) == s,
        !s.after_finish(id, eval).in_flight.contains(id),
        forall|asked: int|
            asked <= max_depth ==> #[trigger] s.after_finish(id, eval).spec_begin(id, asked)
                == Step::Hit(Evaluation { nodes: 0, time: 0, ..eval }),
{
}

/// What evaluating games one after the other leaves behind: the marks are as
/// before, the cache has lost nothing, and it answers a request for each of
/// the games.
pub proof fn lemma_evaluated_all(
    pre: SearchView,
    games: Seq<GameView>,
    max_depth: int,
    post: SearchView,
)
    requires
        0 <= max_depth <= MAX_DEPTH,
        evaluated_all(pre, games, max_depth, post),
    ensures
        post.in_flight == pre.in_flight,
        pre.improved_by(post),
        forall|i: int|
            0 <= i < games.len() ==> post.answers(
                canonical_ident((#[trigger] games[i]).board, games[i].history.len()),
                max_depth,
            ),
    decreases games.len(),
{
    if games.len() > 0 {
        let front = games.drop_last();
        let (eval, mid) = choose|eval: Evaluation, mid: SearchView|
            evaluated_all(pre, front, max_depth, mid) && #[trigger] evaluated(
                mid,
                games.last().board,
                games.last().history.len(),
                max_depth,
                eval,
                post,
            );
        lemma_evaluated_all(pre, front, max_depth, mid);
        lemma_evaluated(
            mid,
            games.last().board,
            games.last().history.len(),
            max_depth,
            eval,
            post,
        );
        lemma_improved_twice(pre, mid, post);
        assert forall|i: int| 0 <= i < games.len() implies post.answers(
            canonical_ident((#[trigger] games[i]).board, games[i].history.len()),
            max_depth,
        ) by {
            if i < games.len() - 1 {
                assert(front[i] == games[i]);
                lemma_improved_answers(
                    mid,
                    post,
                    canonical_ident(games[i].board, games[i].history.len()),
                    max_depth,
                );
            }
        }
    }
}

/// A request that starts a search marks its identifier, so that the next
/// request for it has to wait.
pub proof fn lemma_run_marks(s: SearchView, id: u64, max_depth: int)
    requires
        s.spec_begin(id, max_depth) is Run,
    ensures
        s.after_begin(id, max_depth).in_flight == s.in_flight.insert(id),
        s.after_begin(id, max_depth).cache == s.cache,
        forall|asked: int| #[trigger] s.after_begin(id, max_depth).spec_begin(id, asked) == Step::Wait,
{
}

/// What answers a request once answers it ever after.
pub proof fn lemma_improved_answers(pre: SearchView, post: SearchView, id: u64, max_depth: int)
    requires
        pre.improved_by(post),
        pre.answers(id, max_depth),
    ensures
        post.answers(id, max_depth),
{
}

/// Knowing more, and more again, is knowing more.
pub proof fn lemma_improved_twice(first: SearchView, second: SearchView, third: SearchView)
    requires
        first.improved_by(second),
        second.improved_by(third),
    ensures
        first.improved_by(third),
{
}

} // verus!
