//! Identifiers of positions, and the symmetries of the grid.
//!
//! A position, the number of moves played and the side to move are packed
//! into 63 bits. The canonical identifier of a position is the largest
//! identifier among its eight images under the rotations and reflections of
//! the grid, so that all eight share it.

use crate::bits::{bit, cell, lemma_cell_set, nine};
use crate::board::Board;
use vstd::prelude::*;

verus! {

/// Where a quarter turn takes each cell.
pub open spec fn rotate_order() -> Seq<usize> {
    seq![2usize, 5, 8, 1, 4, 7, 0, 3, 6]
}

/// Where the reflection that swaps the first and the last row takes each cell.
pub open spec fn mirror_order() -> Seq<usize> {
    seq![6usize, 7, 8, 3, 4, 5, 0, 1, 2]
}

/// Whether `order` names a cell for each cell.
pub open spec fn order_ok(order: Seq<usize>) -> bool {
    order.len() == 9 && forall|i: int| 0 <= i < 9 ==> #[trigger] order[i] < 9
}

/// The cells that the first `n` cells of `mask` are taken to by `order`.
pub open spec fn scatter(mask: i32, order: Seq<usize>, n: int) -> i32
    decreases n,
{
    if n <= 0 {
        0
    } else {
        let rest = scatter(mask, order, n - 1);
        if cell(mask, (n - 1) as i32) {
            rest | bit(order[n - 1] as i32)
        } else {
            rest
        }
    }
}

/// The position with each cell taken to where `order` says.
pub open spec fn spec_reorder(b: Board, order: Seq<usize>) -> Board {
    Board {
        layers: [
            scatter(b.layers[0], order, 9),
            scatter(b.layers[1], order, 9),
            scatter(b.layers[2], order, 9),
            scatter(b.layers[3], order, 9),
            scatter(b.layers[4], order, 9),
            scatter(b.layers[5], order, 9),
        ],
        pieces: b.pieces,
        player: b.player,
    }
}

/// The position after a quarter turn of the grid.
pub open spec fn turned(b: Board) -> Board {
    spec_reorder(b, rotate_order())
}

/// The position reflected, first row for last.
pub open spec fn flipped(b: Board) -> Board {
    spec_reorder(b, mirror_order())
}

/// The first `n` masks of `b` packed nine bits each, the first one highest.
pub open spec fn packed(b: Board, n: int) -> u64
    decreases n,
{
    if n <= 0 {
        0
    } else {
        (packed(b, n - 1) << 9u64) | (b.layers[n - 1] as u64)
    }
}

/// The identifier of position `b` after `moves` moves: the six masks, then
/// eight bits for the number of moves, then the side to move. A number of
/// moves from 256 on runs into the bits of the masks.
pub open spec fn ident(b: Board, moves: nat) -> u64 {
    (((packed(b, 6) << 8u64) | (moves as u64)) << 1u64) | (b.player as u64)
}

/// The `k`-th image of `b` under the symmetries of the grid: three quarter
/// turns, then the reflection of the first image and its three quarter turns.
pub open spec fn image(b: Board, k: int) -> Board
    decreases k,
{
    if k <= 0 {
        b
    } else if k % 4 == 0 {
        flipped(turned(image(b, k - 1)))
    } else {
        turned(image(b, k - 1))
    }
}

/// The largest identifier among the first `k` images of `b`.
pub open spec fn max_ident(b: Board, moves: nat, k: int) -> u64
    decreases k,
{
    if k <= 0 {
        0
    } else {
        let rest = max_ident(b, moves, k - 1);
        let id = ident(image(b, k - 1), moves);
        if id > rest {
            id
        } else {
            rest
        }
    }
}

/// The largest identifier among the eight images of `b`.
pub open spec fn canonical_ident(b: Board, moves: nat) -> u64 {
    max_ident(b, moves, 8)
}

impl Board {
    /// The identifier of the position after `moves` moves.
    pub fn ident(&self, moves: usize) -> (id: u64)
        requires
            self.wf(),
        ensures
            id == ident(*self, moves as nat),
    {
        let mut id: u64 = 0;
        let mut i: usize = 0;
        while i < 6
            invariant
                0 <= i <= 6,
                self.wf(),
                id == packed(*self, i as int),
            decreases 6 - i,
        {
            id <<= 9;
            id |= self.layers[i] as u64;
            i += 1;
        }
        id <<= 8;
        id |= moves as u64;
        id <<= 1;
        id |= self.player as u64;
        return id;
    }

    /// Takes each cell of the position to the cell that `order` gives for it.
    pub fn reorder(&mut self, order: [usize; 9])
        requires
            old(self).wf(),
            order_ok(order@),
        ensures
            *final(self) == spec_reorder(*old(self), order@),
            final(self).wf(),
    {
        let mut tmp: [i32; 6] = [0;6];
        let mut i: usize = 0;
        while i < 6
            invariant
                0 <= i <= 6,
                order_ok(order@),
                *self == *old(self),
                forall|k: int| 0 <= k < i ==> #[trigger] tmp[k] == scatter(self.layers[k], order@, 9),
                forall|k: int| i <= k < 6 ==> #[trigger] tmp[k] == 0,
            decreases 6 - i,
        {
            let mut pos: usize = 0;
            while pos < 9
                invariant
                    0 <= pos <= 9,
                    0 <= i < 6,
                    order_ok(order@),
                    *self == *old(self),
                    forall|k: int|
                        0 <= k < i ==> #[trigger] tmp[k] == scatter(self.layers[k], order@, 9),
                    forall|k: int| i < k < 6 ==> #[trigger] tmp[k] == 0,
                    tmp[i as int] == scatter(self.layers[i as int], order@, pos as int),
                decreases 9 - pos,
            {
                if (1 << pos) & self.layers[i] != 0 {
                    tmp[i] |= 1 << order[pos];
                }
                pos += 1;
            }
            i += 1;
        }
        proof {
            let goal = spec_reorder(*old(self), order@);
            assert(tmp =~= goal.layers);
            assert forall|k: int| 0 <= k < 6 implies nine(#[trigger] tmp[k]) by {
                lemma_scatter_nine(self.layers[k], order@, 9);
            }
        }
        self.layers = tmp;
    }

    /// The identifier that the position shares with its rotations and
    /// reflections, after `moves` moves.
    pub fn canonical_ident(&self, moves: usize) -> (id: u64)
        requires
            self.wf(),
        ensures
            id == canonical_ident(*self, moves as nat),
    {
        let rotate: [usize; 9] = [2, 5, 8, 1, 4, 7, 0, 3, 6];
        let mirror: [usize; 9] = [6, 7, 8, 3, 4, 5, 0, 1, 2];
        assert(rotate@ =~= rotate_order());
        assert(mirror@ =~= mirror_order());
        let mut tmp = *self;
        let mut max_id: u64 = 0;
        let mut j: usize = 0;
        while j < 2
            invariant
                0 <= j <= 2,
                rotate@ == rotate_order(),
                mirror@ == mirror_order(),
                tmp.wf(),
                tmp == image(*self, 4 * j),
                max_id == max_ident(*self, moves as nat, 4 * j),
            decreases 2 - j,
        {
            let mut i: usize = 0;
            while i < 4
                invariant
                    0 <= i <= 4,
                    0 <= j < 2,
                    rotate@ == rotate_order(),
                    tmp.wf(),
                    tmp == if i == 0 {
                        image(*self, 4 * j)
                    } else {
                        turned(image(*self, 4 * j + i - 1))
                    },
                    max_id == max_ident(*self, moves as nat, 4 * j + i),
                decreases 4 - i,
            {
                assert(tmp == image(*self, 4 * j + i));
                let id = tmp.ident(moves);
                if id > max_id {
                    max_id = id;
                }
                tmp.reorder(rotate);
                i += 1;
            }
            tmp.reorder(mirror);
            j += 1;
        }
        return max_id;
    }
}

/// The cells of a mask stay on the board wherever `order` takes them.
pub proof fn lemma_scatter_nine(mask: i32, order: Seq<usize>, n: int)
    requires
        order_ok(order),
        0 <= n <= 9,
    ensures
        nine(scatter(mask, order, n)),
    decreases n,
{
    if n > 0 {
        lemma_scatter_nine(mask, order, n - 1);
        lemma_cell_set(scatter(mask, order, n - 1), order[n - 1] as i32, 0);
    }
}

/// A mask after a quarter turn, bit by bit.
pub open spec fn turn_mask(m: i32) -> i32 {
    ((m & 1) << 2u32) | ((m & 2) << 4u32) | ((m & 4) << 6u32) | ((m & 8) >> 2u32) | (m & 16) | ((m
        & 32) << 2u32) | ((m & 64) >> 6u32) | ((m & 128) >> 4u32) | ((m & 256) >> 2u32)
}

/// A mask after the reflection, bit by bit.
pub open spec fn flip_mask(m: i32) -> i32 {
    ((m & 7) << 6u32) | (m & 56) | ((m & 448) >> 6u32)
}

/// Setting one cell after the other, as `scatter` does, with the cell that
/// each of the nine cells is taken to.
pub open spec fn spread(
    m: i32,
    t0: i32,
    t1: i32,
    t2: i32,
    t3: i32,
    t4: i32,
    t5: i32,
    t6: i32,
    t7: i32,
    t8: i32,
) -> i32 {
    let r0 = if cell(m, 0) { 0i32 | bit(t0) } else { 0i32 };
    let r1 = if cell(m, 1) { r0 | bit(t1) } else { r0 };
    let r2 = if cell(m, 2) { r1 | bit(t2) } else { r1 };
    let r3 = if cell(m, 3) { r2 | bit(t3) } else { r2 };
    let r4 = if cell(m, 4) { r3 | bit(t4) } else { r3 };
    let r5 = if cell(m, 5) { r4 | bit(t5) } else { r4 };
    let r6 = if cell(m, 6) { r5 | bit(t6) } else { r5 };
    let r7 = if cell(m, 7) { r6 | bit(t7) } else { r6 };
    if cell(m, 8) { r7 | bit(t8) } else { r7 }
}

/// What the two symmetries do to a mask, bit by bit.
proof fn lemma_spread_turn(m: i32)
    by (bit_vector)
    requires
        nine(m),
    ensures
        spread(m, 2, 5, 8, 1, 4, 7, 0, 3, 6) == turn_mask(m),
        spread(m, 6, 7, 8, 3, 4, 5, 0, 1, 2) == flip_mask(m),
        nine(turn_mask(m)),
        nine(flip_mask(m)),
        flip_mask(flip_mask(m)) == m,
{
}

/// Four quarter turns give the mask back.
proof fn lemma_turn_four(m: i32, a: i32, b: i32, c: i32)
    by (bit_vector)
    requires
        nine(m),
        a == turn_mask(m),
        b == turn_mask(a),
        c == turn_mask(b),
    ensures
        turn_mask(c) == m,
{
}

/// A quarter turn followed by the reflection is the reflection followed by
/// three quarter turns.
proof fn lemma_flip_turn(m: i32, a: i32, x: i32, y: i32, z: i32)
    by (bit_vector)
    requires
        nine(m),
        a == turn_mask(m),
        x == flip_mask(m),
        y == turn_mask(x),
        z == turn_mask(y),
    ensures
        flip_mask(a) == turn_mask(z),
{
}

/// What the two symmetries do to a mask of board cells.
pub proof fn lemma_scatter_masks(m: i32)
    requires
        nine(m),
    ensures
        scatter(m, rotate_order(), 9) == turn_mask(m),
        scatter(m, mirror_order(), 9) == flip_mask(m),
        nine(turn_mask(m)),
        nine(flip_mask(m)),
{
    reveal_with_fuel(scatter, 10);
    lemma_spread_turn(m);
    assert(scatter(m, rotate_order(), 9) == spread(m, 2, 5, 8, 1, 4, 7, 0, 3, 6));
    assert(scatter(m, mirror_order(), 9) == spread(m, 6, 7, 8, 3, 4, 5, 0, 1, 2));
}

/// A turned or reflected position is well-formed, and its masks are those of
/// the position, turned or reflected.
pub proof fn lemma_symmetry_masks(b: Board)
    requires
        b.wf(),
    ensures
        turned(b).wf(),
        flipped(b).wf(),
        forall|i: int| 0 <= i < 6 ==> #[trigger] turned(b).layers[i] == turn_mask(b.layers[i]),
        forall|i: int| 0 <= i < 6 ==> #[trigger] flipped(b).layers[i] == flip_mask(b.layers[i]),
{
    assert forall|i: int| 0 <= i < 6 implies #[trigger] turned(b).layers[i] == turn_mask(
        b.layers[i],
    ) && nine(turned(b).layers[i]) by {
        lemma_scatter_masks(b.layers[i]);
    }
    assert forall|i: int| 0 <= i < 6 implies #[trigger] flipped(b).layers[i] == flip_mask(
        b.layers[i],
    ) && nine(flipped(b).layers[i]) by {
        lemma_scatter_masks(b.layers[i]);
    }
}

/// Four quarter turns, or two reflections, give the position back; a quarter
/// turn followed by the reflection is the reflection followed by three quarter
/// turns.
pub proof fn lemma_symmetry_group(b: Board)
    requires
        b.wf(),
    ensures
        turned(turned(turned(turned(b)))) == b,
        flipped(flipped(b)) == b,
        flipped(turned(b)) == turned(turned(turned(flipped(b)))),
{
    let t1 = turned(b);
    let t2 = turned(t1);
    let t3 = turned(t2);
    let t4 = turned(t3);
    let f = flipped(b);
    let f1 = turned(f);
    let f2 = turned(f1);
    let f3 = turned(f2);
    lemma_symmetry_masks(b);
    lemma_symmetry_masks(t1);
    lemma_symmetry_masks(t2);
    lemma_symmetry_masks(t3);
    lemma_symmetry_masks(f);
    lemma_symmetry_masks(f1);
    lemma_symmetry_masks(f2);
    assert forall|i: int| 0 <= i < 6 implies #[trigger] t4.layers[i] == b.layers[i] && flipped(
        f,
    ).layers[i] == b.layers[i] && flipped(t1).layers[i] == f3.layers[i] by {
        let m = b.layers[i];
        lemma_turn_four(m, t1.layers[i], t2.layers[i], t3.layers[i]);
        lemma_spread_turn(m);
        lemma_flip_turn(m, t1.layers[i], f.layers[i], f1.layers[i], f2.layers[i]);
    }
    assert(t4.layers =~= b.layers);
    assert(flipped(f).layers =~= b.layers);
    assert(flipped(t1).layers =~= f3.layers);
}

/// The largest identifier is one of the identifiers it was taken from, and
/// none of them is larger.
pub proof fn lemma_max_ident(b: Board, moves: nat, n: int)
    requires
        0 < n,
    ensures
        exists|k: int| 0 <= k < n && max_ident(b, moves, n) == ident(#[trigger] image(b, k), moves),
        forall|k: int| 0 <= k < n ==> ident(#[trigger] image(b, k), moves) <= max_ident(b, moves, n),
    decreases n,
{
    if n > 1 {
        lemma_max_ident(b, moves, n - 1);
        let k0 = choose|k: int|
            0 <= k < n - 1 && max_ident(b, moves, n - 1) == ident(#[trigger] image(b, k), moves);
        if ident(image(b, n - 1), moves) > max_ident(b, moves, n - 1) {
            assert(max_ident(b, moves, n) == ident(image(b, n - 1), moves));
        } else {
            assert(max_ident(b, moves, n) == ident(image(b, k0), moves));
        }
    } else {
        assert(max_ident(b, moves, 0) == 0);
        assert(max_ident(b, moves, 1) == ident(image(b, 0), moves));
    }
}

/// The eight images of a position, by turns and reflection of the position
/// itself.
pub proof fn lemma_images(b: Board)
    requires
        b.wf(),
    ensures
        image(b, 0) == b,
        image(b, 1) == turned(b),
        image(b, 2) == turned(turned(b)),
        image(b, 3) == turned(turned(turned(b))),
        image(b, 4) == flipped(b),
        image(b, 5) == turned(flipped(b)),
        image(b, 6) == turned(turned(flipped(b))),
        image(b, 7) == turned(turned(turned(flipped(b)))),
{
    reveal_with_fuel(image, 9);
    lemma_symmetry_group(b);
}

/// A position and its quarter turn have the same images, in another order.
proof fn lemma_images_turned(b: Board, k: int) -> (j: int)
    requires
        b.wf(),
        0 <= k < 8,
    ensures
        0 <= j < 8,
        image(turned(b), k) == image(b, j),
        image(b, k) == image(turned(b), (if k == 0 { 3 } else if k == 4 { 5 } else if k < 4 { k - 1 } else if k == 5 { 6 } else if k == 6 { 7 } else { 4 })),
{
    let t = turned(b);
    let f = flipped(b);
    lemma_symmetry_masks(b);
    lemma_symmetry_masks(f);
    lemma_symmetry_masks(turned(f));
    lemma_symmetry_masks(turned(turned(f)));
    lemma_images(b);
    lemma_images(t);
    lemma_symmetry_group(b);
    lemma_symmetry_group(f);
    lemma_symmetry_group(turned(f));
    // the reflection of the turned position is the third turn of the reflection
    assert(flipped(t) == turned(turned(turned(f))));
    assert(turned(flipped(t)) == f);
    if k < 3 {
        k + 1
    } else if k == 3 {
        0
    } else if k == 4 {
        7
    } else {
        k - 1
    }
}

/// A position and its reflection have the same images, in another order.
proof fn lemma_images_flipped(b: Board, k: int) -> (j: int)
    requires
        b.wf(),
        0 <= k < 8,
    ensures
        0 <= j < 8,
        image(flipped(b), k) == image(b, j),
        image(b, k) == image(flipped(b), j),
{
    let f = flipped(b);
    lemma_symmetry_masks(b);
    lemma_images(b);
    lemma_images(f);
    lemma_symmetry_group(b);
    if k < 4 {
        k + 4
    } else {
        k - 4
    }
}

/// A position and its quarter turn have the same canonical identifier.
pub proof fn lemma_canonical_turned(b: Board, moves: nat)
    requires
        b.wf(),
    ensures
        canonical_ident(turned(b), moves) == canonical_ident(b, moves),
{
    let t = turned(b);
    lemma_max_ident(b, moves, 8);
    lemma_max_ident(t, moves, 8);
    let kt = choose|k: int|
        0 <= k < 8 && max_ident(t, moves, 8) == ident(#[trigger] image(t, k), moves);
    let j = lemma_images_turned(b, kt);
    assert(ident(image(b, j), moves) <= max_ident(b, moves, 8));
    let kb = choose|k: int|
        0 <= k < 8 && max_ident(b, moves, 8) == ident(#[trigger] image(b, k), moves);
    let _ = lemma_images_turned(b, kb);
    let back = if kb == 0 { 3 } else if kb == 4 { 5 } else if kb < 4 { kb - 1 } else if kb == 5 { 6 } else if kb == 6 { 7 } else { 4int };
    assert(ident(image(t, back), moves) <= max_ident(t, moves, 8));
}

/// A position and its reflection have the same canonical identifier.
pub proof fn lemma_canonical_flipped(b: Board, moves: nat)
    requires
        b.wf(),
    ensures
        canonical_ident(flipped(b), moves) == canonical_ident(b, moves),
{
    let f = flipped(b);
    lemma_max_ident(b, moves, 8);
    lemma_max_ident(f, moves, 8);
    let kf = choose|k: int|
        0 <= k < 8 && max_ident(f, moves, 8) == ident(#[trigger] image(f, k), moves);
    let j = lemma_images_flipped(b, kf);
    assert(ident(image(b, j), moves) <= max_ident(b, moves, 8));
    let kb = choose|k: int|
        0 <= k < 8 && max_ident(b, moves, 8) == ident(#[trigger] image(b, k), moves);
    let i = lemma_images_flipped(b, kb);
    assert(ident(image(f, i), moves) <= max_ident(f, moves, 8));
}

/// The identifier with its parts written out.
pub open spec fn ident_of(
    l0: i32,
    l1: i32,
    l2: i32,
    l3: i32,
    l4: i32,
    l5: i32,
    moves: u64,
    player: i32,
) -> u64 {
    let m1 = (0u64 << 9u64) | (l0 as u64);
    let m2 = (m1 << 9u64) | (l1 as u64);
    let m3 = (m2 << 9u64) | (l2 as u64);
    let m4 = (m3 << 9u64) | (l3 as u64);
    let m5 = (m4 << 9u64) | (l4 as u64);
    let m6 = (m5 << 9u64) | (l5 as u64);
    (((m6 << 8u64) | moves) << 1u64) | (player as u64)
}

/// The parts of an identifier can be read off it.
proof fn lemma_ident_parts(
    l0: i32,
    l1: i32,
    l2: i32,
    l3: i32,
    l4: i32,
    l5: i32,
    moves: u64,
    player: i32,
)
    by (bit_vector)
    requires
        nine(l0),
        nine(l1),
        nine(l2),
        nine(l3),
        nine(l4),
        nine(l5),
        moves < 256,
        player == 0 || player == 1,
    ensures
        ident_of(l0, l1, l2, l3, l4, l5, moves, player) & 1 == player as u64,
        (ident_of(l0, l1, l2, l3, l4, l5, moves, player) >> 1u64) & 255 == moves,
        (ident_of(l0, l1, l2, l3, l4, l5, moves, player) >> 9u64) & 511 == l5 as u64,
        (ident_of(l0, l1, l2, l3, l4, l5, moves, player) >> 18u64) & 511 == l4 as u64,
        (ident_of(l0, l1, l2, l3, l4, l5, moves, player) >> 27u64) & 511 == l3 as u64,
        (ident_of(l0, l1, l2, l3, l4, l5, moves, player) >> 36u64) & 511 == l2 as u64,
        (ident_of(l0, l1, l2, l3, l4, l5, moves, player) >> 45u64) & 511 == l1 as u64,
        (ident_of(l0, l1, l2, l3, l4, l5, moves, player) >> 54u64) & 511 == l0 as u64,
        ident_of(l0, l1, l2, l3, l4, l5, moves, player) < 0x8000_0000_0000_0000,
{
}

/// The identifier of a well-formed position after fewer than 256 moves is
/// below 2^63 and tells masks, moves and player: two such positions with one
/// identifier have the same pieces on the same cells, the same number of moves
/// behind them and the same side to move.
pub proof fn lemma_ident_injective(a: Board, moves_a: nat, b: Board, moves_b: nat)
    requires
        a.wf(),
        b.wf(),
        moves_a < 256,
        moves_b < 256,
        ident(a, moves_a) == ident(b, moves_b),
    ensures
        a.layers == b.layers,
        a.player == b.player,
        moves_a == moves_b,
        ident(a, moves_a) < 0x8000_0000_0000_0000,
{
    reveal_with_fuel(packed, 7);
    lemma_ident_parts(
        a.layers[0],
        a.layers[1],
        a.layers[2],
        a.layers[3],
        a.layers[4],
        a.layers[5],
        moves_a as u64,
        a.player,
    );
    lemma_ident_parts(
        b.layers[0],
        b.layers[1],
        b.layers[2],
        b.layers[3],
        b.layers[4],
        b.layers[5],
        moves_b as u64,
        b.player,
    );
    assert(ident(a, moves_a) == ident_of(
        a.layers[0],
        a.layers[1],
        a.layers[2],
        a.layers[3],
        a.layers[4],
        a.layers[5],
        moves_a as u64,
        a.player,
    ));
    assert(ident(b, moves_b) == ident_of(
        b.layers[0],
        b.layers[1],
        b.layers[2],
        b.layers[3],
        b.layers[4],
        b.layers[5],
        moves_b as u64,
        b.player,
    ));
    assert(a.layers =~= b.layers);
}

/// Two well-formed positions with one canonical identifier, each after fewer
/// than 256 moves, have an image in common but for the reserves: the same
/// pieces on the same cells, and the same side to move after as many moves.
pub proof fn lemma_canonical_shared(a: Board, moves_a: nat, b: Board, moves_b: nat)
    requires
        a.wf(),
        b.wf(),
        moves_a < 256,
        moves_b < 256,
        canonical_ident(a, moves_a) == canonical_ident(b, moves_b),
    ensures
        moves_a == moves_b,
        a.player == b.player,
        exists|i: int, j: int|
            0 <= i < 8 && 0 <= j < 8 && (#[trigger] image(a, i)).layers == (#[trigger] image(
                b,
                j,
            )).layers,
{
    lemma_max_ident(a, moves_a, 8);
    lemma_max_ident(b, moves_b, 8);
    let i = choose|k: int|
        0 <= k < 8 && max_ident(a, moves_a, 8) == ident(#[trigger] image(a, k), moves_a);
    let j = choose|k: int|
        0 <= k < 8 && max_ident(b, moves_b, 8) == ident(#[trigger] image(b, k), moves_b);
    lemma_image_wf(a, i);
    lemma_image_wf(b, j);
    lemma_ident_injective(image(a, i), moves_a, image(b, j), moves_b);
}

/// The images of a well-formed position are well-formed, with the same side
/// to move.
pub proof fn lemma_image_wf(b: Board, k: int)
    requires
        b.wf(),
        0 <= k,
    ensures
        image(b, k).wf(),
        image(b, k).player == b.player,
        image(b, k).pieces == b.pieces,
    decreases k,
{
    if k > 0 {
        lemma_image_wf(b, k - 1);
        lemma_symmetry_masks(image(b, k - 1));
        lemma_symmetry_masks(turned(image(b, k - 1)));
    }
}

} // verus!
