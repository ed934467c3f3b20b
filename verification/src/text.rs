//! The position as text: a line that names the side to move and the state,
//! then a line for each size, the largest first, with a mark for each cell and
//! the reserves of the two players.

use crate::board::Board;
use vstd::prelude::*;

verus! {

/// `String::push`: appends `c` to `text`.
#[verifier::external_body]
fn push(text: &mut String, c: char)
    ensures
        final(text)@ == old(text)@.push(c),
{
    text.push(c)
}

/// The digit for a number from 0 to 3.
pub open spec fn spec_digit(n: i32) -> char {
    if n == 0 {
        '0'
    } else if n == 1 {
        '1'
    } else if n == 2 {
        '2'
    } else {
        '3'
    }
}

/// The digit for a number from 0 to 3.
fn digit(n: i32) -> (c: char)
    ensures
        c == spec_digit(n),
{
    match n {
        0 => '0',
        1 => '1',
        2 => '2',
        _ => '3',
    }
}

impl Board {
    /// The mark of cell `pos` among the pieces of `size`: `O` for a piece of
    /// player 0, `X` for one of player 1, `#` for both, `-` for none.
    pub open spec fn mark(&self, size: i32, pos: i32) -> char {
        if self.occupied(0, size, pos) {
            if self.occupied(1, size, pos) {
                '#'
            } else {
                'O'
            }
        } else if self.occupied(1, size, pos) {
            'X'
        } else {
            '-'
        }
    }

    /// The marks of the cells `0..n` among the pieces of `size`.
    pub open spec fn marks(&self, size: i32, n: int) -> Seq<char> {
        Seq::new(n as nat, |pos: int| self.mark(size, pos as i32))
    }

    /// The line for the pieces of `size`.
    pub open spec fn row_text(&self, size: i32) -> Seq<char> {
        seq![' ', ' '] + self.marks(size, 9) + seq![
            ' ',
            '|',
            ' ',
            spec_digit(self.pieces[size as int]),
            '-',
            spec_digit(self.pieces[size + 3]),
            '\n',
        ]
    }

    /// The position as text.
    pub open spec fn spec_text(&self) -> Seq<char> {
        seq![
            'B',
            'o',
            'a',
            'r',
            'd',
            ' ',
            'p',
            spec_digit(self.player),
            ' ',
            's',
            spec_digit(self.spec_state()),
            '\n',
        ] + self.row_text(2) + self.row_text(1) + self.row_text(0)
    }

    /// Appends the line for the pieces of `size` to `text`.
    fn row(&self, size: usize, text: &mut String)
        requires
            0 <= size < 3,
        ensures
            final(text)@ == old(text)@ + self.row_text(size as i32),
    {
        let ghost start = text@;
        push(text, ' ');
        push(text, ' ');
        let mut pos: i32 = 0;
        while pos < 9
            invariant
                0 <= pos <= 9,
                0 <= size < 3,
                text@ == start + seq![' ', ' '] + self.marks(size as i32, pos as int),
            decreases 9 - pos,
        {
            let mut c = '-';
            if (1 << pos) & self.layers[size] != 0 {
                c = 'O';
            }
            if (1 << pos) & self.layers[size + 3] != 0 {
                if c == 'O' {
                    c = '#';
                } else {
                    c = 'X';
                }
            }
            push(text, c);
            assert(text@ =~= start + seq![' ', ' '] + self.marks(size as i32, pos + 1));
            pos += 1;
        }
        push(text, ' ');
        push(text, '|');
        push(text, ' ');
        push(text, digit(self.pieces[size]));
        push(text, '-');
        push(text, digit(self.pieces[size + 3]));
        push(text, '\n');
        assert(text@ =~= start + self.row_text(size as i32));
    }

    /// The position as text.
    pub fn text(&self) -> (text: String)
        requires
            self.wf(),
        ensures
            text@ == self.spec_text(),
    {
        let state = self.get_state();
        let mut s = String::new();
        push(&mut s, 'B');
        push(&mut s, 'o');
        push(&mut s, 'a');
        push(&mut s, 'r');
        push(&mut s, 'd');
        push(&mut s, ' ');
        push(&mut s, 'p');
        push(&mut s, digit(self.player));
        push(&mut s, ' ');
        push(&mut s, 's');
        push(&mut s, digit(state));
        push(&mut s, '\n');
        let ghost head = s@;
        assert(head =~= seq![
            'B',
            'o',
            'a',
            'r',
            'd',
            ' ',
            'p',
            spec_digit(self.player),
            ' ',
            's',
            spec_digit(self.spec_state()),
            '\n',
        ]);
        self.row(2, &mut s);
        self.row(1, &mut s);
        self.row(0, &mut s);
        return s;
    }
}

} // verus!
