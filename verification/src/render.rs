//! The board as text: one line for each row from the fill height down, with
//! the row's index, its cells and its fill count, and a base line under them.

use vstd::prelude::*;
use crate::board::Board;
use crate::common::{HeightType, WidthType};
use crate::column::{grid_of, top_of};
use crate::grid::{lemma_tallest, BoardView};
use crate::rows::fill_count;

verus! {

/// The character of a decimal digit.
pub open spec fn digit(d: int) -> char {
    if d == 0 {
        '0'
    } else if d == 1 {
        '1'
    } else if d == 2 {
        '2'
    } else if d == 3 {
        '3'
    } else if d == 4 {
        '4'
    } else if d == 5 {
        '5'
    } else if d == 6 {
        '6'
    } else if d == 7 {
        '7'
    } else if d == 8 {
        '8'
    } else {
        '9'
    }
}

/// A number in decimal, without leading zeros.
pub open spec fn decimal(n: nat) -> Seq<char>
    decreases n,
{
    if n < 10 {
        seq![digit(n as int)]
    } else {
        decimal(n / 10).push(digit((n % 10) as int))
    }
}

/// `count` copies of one character.
pub open spec fn repeated(ch: char, count: int) -> Seq<char> {
    Seq::new(
        if count > 0 {
            count as nat
        } else {
            0
        },
        |i: int| ch,
    )
}

/// A text moved to the right edge of a field of `width` characters.
pub open spec fn right_aligned(text: Seq<char>, width: int) -> Seq<char> {
    repeated(' ', width - text.len()) + text
}

/// The cells of row `r`, left to right: `x` where a column occupies the row.
pub open spec fn cells(columns: Seq<Seq<int>>, r: int) -> Seq<char> {
    Seq::new(
        columns.len(),
        |c: int|
            if columns[c].contains(r) {
                'x'
            } else {
                ' '
            },
    )
}

/// The line of row `r`: its index counted from 0 in a field of `digits`
/// characters, its cells between bars, and its fill count.
pub open spec fn row_line(board: BoardView, r: int, digits: int) -> Seq<char> {
    right_aligned(decimal((r - 1) as nat), digits) + seq![' ', '|'] + cells(board.columns, r)
        + seq!['|', ' '] + decimal(fill_count(board.columns, r)) + seq!['\n']
}

/// The lines of rows `top`, `top - 1`, down to row 1.
pub open spec fn row_lines(board: BoardView, top: int, digits: int) -> Seq<char>
    decreases top,
{
    if top <= 0 {
        Seq::empty()
    } else {
        row_line(board, top, digits) + row_lines(board, top - 1, digits)
    }
}

/// The line under the rows: dashes below the bars and the cells.
pub open spec fn base_line(board: BoardView, digits: int) -> Seq<char> {
    repeated(' ', digits + 1) + repeated('-', board.width() + 2) + seq!['\n']
}

/// The text of a board: the rows from the fill height down, then the base
/// line. Row indices are as wide as the fill height written in decimal.
pub open spec fn rendered(board: BoardView) -> Seq<char> {
    let digits = decimal(board.fill_height() as nat).len() as int;
    row_lines(board, board.fill_height(), digits) + base_line(board, digits)
}

/// The first `cursor` rows of a column are those that lie at or below row `r`.
pub open spec fn cursor_at(column: Seq<HeightType>, cursor: int, r: int) -> bool {
    &&& 0 <= cursor <= column.len()
    &&& forall|t: int| 0 <= t < cursor ==> column[t] <= r
    &&& forall|t: int| cursor <= t < column.len() ==> column[t] > r
}

/// The character of the decimal digit `d`.
fn digit_char(d: u8) -> (ch: char)
    requires
        d < 10,
    ensures
        ch == digit(d as int),
{
    if d == 0 {
        '0'
    } else if d == 1 {
        '1'
    } else if d == 2 {
        '2'
    } else if d == 3 {
        '3'
    } else if d == 4 {
        '4'
    } else if d == 5 {
        '5'
    } else if d == 6 {
        '6'
    } else if d == 7 {
        '7'
    } else if d == 8 {
        '8'
    } else {
        '9'
    }
}

/// The number of digits of `n` in decimal.
fn decimal_len(n: u8) -> (len: usize)
    ensures
        len == decimal(n as nat).len(),
        1 <= len <= 3,
{
    proof {
        reveal_with_fuel(decimal, 3);
    }
    if n >= 100 {
        3
    } else if n >= 10 {
        2
    } else {
        1
    }
}

/// Appends `n` in decimal.
fn push_decimal(out: &mut Vec<char>, n: u8)
    ensures
        final(out)@ == old(out)@ + decimal(n as nat),
{
    proof {
        reveal_with_fuel(decimal, 3);
    }
    if n >= 100 {
        out.push(digit_char(n / 100));
        out.push(digit_char(n / 10 % 10));
        out.push(digit_char(n % 10));
        assert(decimal(n as nat) =~= seq![
            digit((n / 100) as int),
            digit((n / 10 % 10) as int),
            digit((n % 10) as int),
        ]);
    } else if n >= 10 {
        out.push(digit_char(n / 10));
        out.push(digit_char(n % 10));
    } else {
        out.push(digit_char(n));
    }
}

/// Appends `count` copies of `ch`.
fn push_repeated(out: &mut Vec<char>, ch: char, count: usize)
    ensures
        final(out)@ == old(out)@ + repeated(ch, count as int),
{
    let mut i: usize = 0;
    while i < count
        invariant
            i <= count,
            out@ == old(out)@ + repeated(ch, i as int),
        decreases count - i,
    {
        out.push(ch);
        i += 1;
    }
}

/// The text that holds the given characters.
///
/// The body calls `String::from_iter` of the standard library. It is taken
/// on trust, not proved, that the string it builds holds the characters that
/// the vector yields, each once and in the vector's order.
#[verifier::external_body]
fn string_from_chars(chars: Vec<char>) -> (text: String)
    ensures
        text@ == chars@,
{
    String::from_iter(chars)
}

impl Board {
    /// The board as text, top row first: for every row up to the fill height
    /// a line with the row's index, its cells and its fill count, then a base
    /// line.
    pub fn render(&self) -> (text: String)
        requires
            self.wf(),
        ensures
            text@ == rendered(self@),
    {
        let columns = self.blocks();
        let width: WidthType = self.width();
        let fill: HeightType = self.fill_height();
        let digits: usize = decimal_len(fill);
        let ghost board = self@;
        let ghost total = row_lines(board, fill as int, digits as int);
        proof {
            lemma_tallest(board.columns);
        }
        let mut cursors: Vec<usize> = Vec::new();
        let mut c: usize = 0;
        while c < width as usize
            invariant
                c <= width,
                width == columns@.len(),
                cursors@.len() == c,
                forall|k: int| 0 <= k < c ==> #[trigger] cursors@[k] == columns@[k]@.len(),
            decreases width - c,
        {
            cursors.push(columns[c].len());
            c += 1;
        }
        proof {
            assert forall|k: int| 0 <= k < width implies cursor_at(
                columns@[k]@,
                #[trigger] cursors@[k] as int,
                fill as int,
            ) by {
                let rows = board.columns[k];
                assert forall|t: int| 0 <= t < columns@[k]@.len() implies columns@[k]@[t] <= fill by {
                    assert(rows[t] <= top_of(rows));
                }
            }
        }
        let mut out: Vec<char> = Vec::new();
        let mut r: HeightType = fill;
        while r > 0
            invariant
                r <= fill,
                self.wf(),
                board == self@,
                grid_of(columns@) == board.columns,
                width == board.width(),
                width == columns@.len(),
                fill == board.fill_height(),
                fill <= board.height,
                cursors@.len() == width,
                forall|k: int|
                    0 <= k < width ==> cursor_at(
                        columns@[k]@,
                        #[trigger] cursors@[k] as int,
                        r as int,
                    ),
                out@ + row_lines(board, r as int, digits as int) == total,
            decreases r,
        {
            let ghost done = out@;
            let index: HeightType = r - 1;
            let used: usize = decimal_len(index);
            push_repeated(&mut out, ' ', if digits > used { digits - used } else { 0 });
            push_decimal(&mut out, index);
            out.push(' ');
            out.push('|');
            let ghost head = right_aligned(decimal(index as nat), digits as int) + seq![' ', '|'];
            let mut c: usize = 0;
            while c < width as usize
                invariant
                    c <= width,
                    1 <= r <= fill,
                    self.wf(),
                    board == self@,
                    grid_of(columns@) == board.columns,
                    width == board.width(),
                    width == columns@.len(),
                    cursors@.len() == width,
                    forall|k: int|
                        c <= k < width ==> cursor_at(
                            columns@[k]@,
                            #[trigger] cursors@[k] as int,
                            r as int,
                        ),
                    forall|k: int|
                        0 <= k < c ==> cursor_at(columns@[k]@, #[trigger] cursors@[k] as int, r - 1),
                    out@ == done + head + cells(board.columns, r as int).take(c as int),
                decreases width - c,
            {
                let column = &columns[c];
                let cursor: usize = cursors[c];
                let ghost rows = board.columns[c as int];
                if cursor > 0 && column[cursor - 1] == r {
                    proof {
                        assert forall|t: int| 0 <= t < cursor - 1 implies column@[t] <= r - 1 by {
                            assert(rows[t] < rows[cursor - 1]);
                        }
                    }
                    cursors[c] = cursor - 1;
                    out.push('x');
                } else {
                    proof {
                        assert forall|t: int| 0 <= t < cursor implies column@[t] <= r - 1 by {
                            assert(rows[t] <= rows[cursor - 1]);
                        }
                    }
                    out.push(' ');
                }
                c += 1;
            }
            out.push('|');
            out.push(' ');
            let count: WidthType = self.row_fill_count(r);
            push_decimal(&mut out, count);
            out.push('\n');
            r -= 1;
        }
        push_repeated(&mut out, ' ', digits + 1);
        push_repeated(&mut out, '-', width as usize + 2);
        out.push('\n');
        string_from_chars(out)
    }
}

} // verus!
