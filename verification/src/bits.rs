//! Nine-cell masks: the cells of the 3x3 grid are numbered 0..9 row by row,
//! and a mask holds cell `pos` in bit `pos`.

use vstd::prelude::*;

verus! {

/// The mask that holds exactly cell `pos`.
pub open spec fn bit(pos: i32) -> i32 {
    1i32 << (pos as u32)
}

/// Whether `mask` holds cell `pos`.
pub open spec fn cell(mask: i32, pos: i32) -> bool {
    bit(pos) & mask != 0
}

/// Whether `mask` is made of board cells only.
pub open spec fn nine(mask: i32) -> bool {
    0 <= mask < 512
}

/// Whether `mask` holds the two cells `a` and `b`.
pub open spec fn pair(mask: i32, a: i32, b: i32) -> bool {
    cell(mask, a) && cell(mask, b)
}

/// Whether `mask` holds the three cells `a`, `b` and `c`.
pub open spec fn three(mask: i32, a: i32, b: i32, c: i32) -> bool {
    cell(mask, a) && cell(mask, b) && cell(mask, c)
}

/// Whether `mask` holds one of the eight lines of the grid: three rows, three
/// columns, two diagonals.
pub open spec fn has_line(mask: i32) -> bool {
    ||| three(mask, 0, 1, 2)
    ||| three(mask, 3, 4, 5)
    ||| three(mask, 6, 7, 8)
    ||| three(mask, 0, 3, 6)
    ||| three(mask, 1, 4, 7)
    ||| three(mask, 2, 5, 8)
    ||| three(mask, 0, 4, 8)
    ||| three(mask, 2, 4, 6)
}

/// Whether `mask` holds the two other cells of some line through `pos`.
pub open spec fn completes(mask: i32, pos: i32) -> bool {
    if pos == 0 {
        pair(mask, 1, 2) || pair(mask, 3, 6) || pair(mask, 4, 8)
    } else if pos == 1 {
        pair(mask, 0, 2) || pair(mask, 4, 7)
    } else if pos == 2 {
        pair(mask, 0, 1) || pair(mask, 5, 8) || pair(mask, 4, 6)
    } else if pos == 3 {
        pair(mask, 4, 5) || pair(mask, 0, 6)
    } else if pos == 4 {
        pair(mask, 3, 5) || pair(mask, 1, 7) || pair(mask, 0, 8) || pair(mask, 2, 6)
    } else if pos == 5 {
        pair(mask, 3, 4) || pair(mask, 2, 8)
    } else if pos == 6 {
        pair(mask, 7, 8) || pair(mask, 0, 3) || pair(mask, 2, 4)
    } else if pos == 7 {
        pair(mask, 6, 8) || pair(mask, 1, 4)
    } else if pos == 8 {
        pair(mask, 6, 7) || pair(mask, 2, 5) || pair(mask, 0, 4)
    } else {
        false
    }
}

/// The cells that three shifted copies of `view` agree on: the lines of
/// `view`, each marked at its highest cell.
pub open spec fn line_marks(view: i32) -> i32 {
    (view & (view << 1u32) & (view << 2u32) & 0b100100100)
        | (view & (view << 2u32) & (view << 4u32) & 0b001000000)
        | (view & (view << 3u32) & (view << 6u32))
        | (view & (view << 4u32) & (view << 8u32))
}

/// The cells that complete a line of which `view` holds the other two.
pub open spec fn spot_marks(view: i32) -> i32 {
    0i32 | ((view << 1u32) & (view << 2u32) & 0b100100100)
        | ((view >> 1u32) & (view << 1u32) & 0b010010010)
        | ((view >> 2u32) & (view >> 1u32) & 0b001001001)
        | ((view << 3u32) & (view << 6u32) & 0b111000000)
        | ((view >> 3u32) & (view << 3u32) & 0b000111000)
        | ((view >> 6u32) & (view >> 3u32) & 0b000000111)
        | ((view << 2u32) & (view << 4u32) & 0b001000000)
        | ((view >> 2u32) & (view << 2u32) & 0b000010000)
        | ((view >> 4u32) & (view >> 2u32) & 0b000000100)
        | ((view << 4u32) & (view << 8u32) & 0b100000000)
        | ((view >> 4u32) & (view << 4u32) & 0b000010000)
        | ((view >> 8u32) & (view >> 4u32) & 0b000000001)
}

/// The cells a player shows from above: `small`, `medium` and `large` are that
/// player's masks by size, `other_medium` and `other_large` the opponent's.
pub open spec fn top_mask(
    small: i32,
    medium: i32,
    large: i32,
    other_medium: i32,
    other_large: i32,
) -> i32 {
    ((((small & !other_medium) | medium) & !other_large) | large) & 0b111111111
}

/// The cells of a union, and the bit test with a mask taken away.
pub proof fn lemma_cell_or(a: i32, b: i32, p: i32)
    by (bit_vector)
    requires
        0 <= p < 9,
    ensures
        cell(a | b, p) == (cell(a, p) || cell(b, p)),
        !cell(0i32, p),
        ((bit(p) & a & !b) != 0) == (cell(a, p) && !cell(b, p)),
        ((bit(p) & a & !0i32) != 0) == cell(a, p),
{
}

/// Adding cell `q` to a mask, and taking it away again.
pub proof fn lemma_cell_set(a: i32, q: i32, p: i32)
    by (bit_vector)
    requires
        nine(a),
        0 <= q < 9,
        0 <= p < 9,
    ensures
        nine(a | bit(q)),
        nine(a ^ bit(q)),
        cell(a | bit(q), p) == (cell(a, p) || p == q),
        cell(a ^ bit(q), p) == (cell(a, p) != (p == q)),
        !cell(a, q) ==> (a | bit(q)) ^ bit(q) == a,
        cell(a, q) ==> (a ^ bit(q)) | bit(q) == a,
{
}

/// Cell by cell, a player shows a cell when the largest piece on it is theirs.
pub proof fn lemma_top_mask(
    small: i32,
    medium: i32,
    large: i32,
    other_medium: i32,
    other_large: i32,
    p: i32,
)
    by (bit_vector)
    requires
        0 <= p < 9,
    ensures
        nine(top_mask(small, medium, large, other_medium, other_large)),
        cell(top_mask(small, medium, large, other_medium, other_large), p) == (cell(large, p) || (
        !cell(other_large, p) && (cell(medium, p) || (!cell(other_medium, p) && cell(small, p))))),
{
}

/// The shifted copies of a mask meet exactly where it holds a line.
pub proof fn lemma_line_marks(view: i32)
    by (bit_vector)
    requires
        nine(view),
    ensures
        (line_marks(view) != 0) == has_line(view),
{
}

/// A cell is marked as a spot exactly when it completes a line.
pub proof fn lemma_spot_marks(view: i32, p: i32)
    by (bit_vector)
    requires
        nine(view),
        0 <= p < 9,
    ensures
        (spot_marks(view) & bit(p) != 0) == completes(view, p),
{
}

/// A cell that completes a line does so: with it the mask holds a line, and a
/// mask without a line gains one by a cell only if that cell completes one.
pub proof fn lemma_completes(mask: i32, p: i32)
    by (bit_vector)
    requires
        nine(mask),
        0 <= p < 9,
    ensures
        completes(mask, p) ==> has_line(mask | bit(p)),
        !has_line(mask) && has_line(mask | bit(p)) ==> completes(mask, p),
{
}

/// The two players are 0 and 1: flipping the lowest bit gives the other one.
pub proof fn lemma_other_player(player: i32)
    by (bit_vector)
    requires
        player == 0 || player == 1,
    ensures
        player ^ 1 == 1 - player,
{
}

} // verus!
