//! Drop requests written as text.
//!
//! A line of a script holds requests separated by commas. A request is the
//! symbol of a piece followed by the digit of the column of its left edge. A
//! line of a dialogue holds one request and ends with one more byte, the line
//! break; there the column is a decimal number.

use vstd::prelude::*;
use vstd::slice::slice_subrange;
use std::collections::HashMap;
use crate::board::{Board, STANDARD_BOARD_HEIGHT, STANDARD_BOARD_WIDTH};
use crate::common::{HeightType, WidthType};
use crate::grid::{BoardView, DropError};
use crate::shape::Shape;

verus! {

/// The byte that separates the requests of a line.
pub const COMMA: u8 = 44;

/// The sign that may stand before a number.
pub const PLUS: u8 = 43;

/// The digit 0.
pub const DIGIT_ZERO: u8 = 48;

/// The digit 9.
pub const DIGIT_NINE: u8 = 57;

/// Why a line of a script stops before its end.
#[derive(Clone, Copy, Debug, PartialEq, Eq, Structural)]
pub enum ScriptError {
    /// A request is shorter than two bytes, or its second byte is no digit.
    Malformed,
    /// No piece of the catalog has the symbol.
    UnknownShape,
    /// The piece cannot be dropped at the column.
    Rejected(DropError),
}

/// What a line of a dialogue leads to.
#[derive(Clone, Copy, Debug, PartialEq, Eq, Structural)]
pub enum Reply {
    /// The line is empty but for its line break: the dialogue ends.
    Quit,
    /// The line is too short to hold a symbol and a column.
    InvalidInput,
    /// No piece of the catalog has the symbol.
    UnknownShape,
    /// What follows the symbol is no number that a column index can hold.
    InvalidLocation,
    /// The piece cannot be dropped at the column.
    Rejected(DropError),
    /// The piece was dropped.
    Dropped,
}

/// Every piece of the catalog is well formed.
pub open spec fn catalog_ok(shapes: Map<u8, Shape>) -> bool {
    forall|symbol: u8| shapes.contains_key(symbol) ==> (#[trigger] shapes[symbol]).wf()
}

/// The byte is an ASCII digit.
pub open spec fn is_digit(byte: u8) -> bool {
    DIGIT_ZERO <= byte <= DIGIT_NINE
}

/// The symbol and the column that a request of a script names: its first
/// byte, and the digit that is its second byte. Bytes after these are not read.
pub open spec fn request_of(token: Seq<u8>) -> Option<(u8, WidthType)> {
    if token.len() >= 2 && is_digit(token[1]) {
        Some((token[0], (token[1] - DIGIT_ZERO) as WidthType))
    } else {
        None
    }
}

/// What one request of a script does to a board.
pub open spec fn request_outcome(shapes: Map<u8, Shape>, board: BoardView, token: Seq<u8>) -> Result<
    BoardView,
    ScriptError,
> {
    match request_of(token) {
        None => Err(ScriptError::Malformed),
        Some((symbol, column)) => {
            if !shapes.contains_key(symbol) {
                Err(ScriptError::UnknownShape)
            } else {
                match board.drop_error(shapes[symbol]@, column as int) {
                    Some(e) => Err(ScriptError::Rejected(e)),
                    None => Ok(board.dropped(shapes[symbol]@, column as int)),
                }
            }
        },
    }
}

/// The position of the first comma of a line, or the line's length where it
/// has none.
pub open spec fn first_comma(line: Seq<u8>) -> nat
    decreases line.len(),
{
    if line.len() == 0 || line[0] == COMMA {
        0
    } else {
        1 + first_comma(line.skip(1))
    }
}

/// The board that a line of a script leads to, and the error that stopped it,
/// if one did. The requests are taken from left to right; the first one that
/// fails ends the line and leaves the board as the requests before it made it.
pub open spec fn played(shapes: Map<u8, Shape>, board: BoardView, line: Seq<u8>) -> (
    BoardView,
    Option<ScriptError>,
)
    decreases line.len(),
{
    let end = first_comma(line);
    match request_outcome(shapes, board, line.take(end as int)) {
        Err(e) => (board, Some(e)),
        Ok(next) => {
            if end >= line.len() {
                (next, None)
            } else {
                played(shapes, next, line.skip(end as int + 1))
            }
        },
    }
}

/// The fill height that a line of a script leads to on an empty standard
/// board, or the error that stopped the line.
pub open spec fn line_fill_height(shapes: Map<u8, Shape>, line: Seq<u8>) -> Result<int, ScriptError> {
    let start = BoardView::empty(STANDARD_BOARD_WIDTH as int, STANDARD_BOARD_HEIGHT as int);
    match played(shapes, start, line).1 {
        Some(e) => Err(e),
        None => Ok(played(shapes, start, line).0.fill_height()),
    }
}

/// The number that a sequence of digits writes in decimal.
pub open spec fn digits_value(digits: Seq<u8>) -> nat
    decreases digits.len(),
{
    if digits.len() == 0 {
        0
    } else {
        (digits_value(digits.drop_last()) * 10 + (digits.last() - DIGIT_ZERO)) as nat
    }
}

/// Every byte is a digit.
pub open spec fn all_digits(text: Seq<u8>) -> bool {
    forall|i: int| 0 <= i < text.len() ==> is_digit(#[trigger] text[i])
}

/// The column index that a text writes: an optional plus sign, then at least
/// one digit and nothing else, with a value that the index can hold.
pub open spec fn number_of(text: Seq<u8>) -> Option<WidthType> {
    let digits = if text.len() > 0 && text[0] == PLUS {
        text.skip(1)
    } else {
        text
    };
    if digits.len() > 0 && all_digits(digits) && digits_value(digits) <= WidthType::MAX {
        Some(digits_value(digits) as WidthType)
    } else {
        None
    }
}

/// The reply to a line of a dialogue. The line's last byte is its line break;
/// what stands between the symbol and that byte is the column.
pub open spec fn reply_to(shapes: Map<u8, Shape>, board: BoardView, line: Seq<u8>) -> Reply {
    if line.len() == 1 {
        Reply::Quit
    } else if line.len() < 3 {
        Reply::InvalidInput
    } else if !shapes.contains_key(line[0]) {
        Reply::UnknownShape
    } else {
        match number_of(line.subrange(1, line.len() - 1)) {
            None => Reply::InvalidLocation,
            Some(column) => match board.drop_error(shapes[line[0]]@, column as int) {
                Some(e) => Reply::Rejected(e),
                None => Reply::Dropped,
            },
        }
    }
}

/// The board after a line of a dialogue: the piece is dropped where the reply
/// says so, and nothing changes otherwise.
pub open spec fn board_after(shapes: Map<u8, Shape>, board: BoardView, line: Seq<u8>) -> BoardView {
    if reply_to(shapes, board, line) == Reply::Dropped {
        board.dropped(
            shapes[line[0]]@,
            number_of(line.subrange(1, line.len() - 1)).unwrap() as int,
        )
    } else {
        board
    }
}

/// The first comma of a line is where no comma stands before.
pub proof fn lemma_first_comma(line: Seq<u8>, at: nat)
    requires
        at <= line.len(),
        forall|k: int| 0 <= k < at ==> line[k] != COMMA,
        at < line.len() ==> line[at as int] == COMMA,
    ensures
        first_comma(line) == at,
    decreases at,
{
    if at > 0 {
        let rest = line.skip(1);
        lemma_first_comma(rest, (at - 1) as nat);
    }
}

/// Digits that follow can only raise the value of a number.
pub proof fn lemma_digits_value_grows(digits: Seq<u8>, n: int)
    requires
        all_digits(digits),
        0 <= n <= digits.len(),
    ensures
        digits_value(digits.take(n)) <= digits_value(digits),
    decreases digits.len() - n,
{
    if n < digits.len() {
        let init = digits.drop_last();
        lemma_digits_value_grows(init, n);
        assert(init.take(n) =~= digits.take(n));
    } else {
        assert(digits.take(n) =~= digits);
    }
}

/// The column index that `text` writes in decimal, if it writes one.
pub fn parse_number(text: &[u8]) -> (number: Option<WidthType>)
    ensures
        number == number_of(text@),
{
    let n: usize = text.len();
    let start: usize = if n > 0 && text[0] == PLUS {
        1
    } else {
        0
    };
    let ghost digits = text@.skip(start as int);
    if start == n {
        return None;
    }
    let mut value: u16 = 0;
    let mut i: usize = start;
    while i < n
        invariant
            start <= i <= n,
            n == text@.len(),
            digits == text@.skip(start as int),
            digits == if text@.len() > 0 && text@[0] == PLUS {
                text@.skip(1)
            } else {
                text@
            },
            forall|k: int| 0 <= k < i - start ==> is_digit(#[trigger] digits[k]),
            value == digits_value(digits.take(i - start)),
            value <= WidthType::MAX,
        decreases n - i,
    {
        let byte: u8 = text[i];
        assert(digits[i - start] == byte);
        if byte < DIGIT_ZERO || byte > DIGIT_NINE {
            return None;
        }
        proof {
            assert(digits.take(i - start + 1).drop_last() =~= digits.take(i - start));
        }
        value = value * 10 + (byte - DIGIT_ZERO) as u16;
        if value > WidthType::MAX as u16 {
            proof {
                if all_digits(digits) {
                    lemma_digits_value_grows(digits, i - start + 1);
                }
            }
            return None;
        }
        i += 1;
    }
    proof {
        assert(digits.take(n - start) =~= digits);
    }
    Some(value as WidthType)
}

/// Carries out one request of a script: drops the piece that the request
/// names, or says why it cannot and leaves the board as it is.
pub fn play_request(shapes: &HashMap<u8, Shape>, board: &mut Board, token: &[u8]) -> (result: Result<
    (),
    ScriptError,
>)
    requires
        catalog_ok(shapes@),
        old(board).wf(),
    ensures
        final(board).wf(),
        match result {
            Ok(_) => request_outcome(shapes@, old(board)@, token@) == Ok::<BoardView, ScriptError>(
                final(board)@,
            ),
            Err(e) => {
                &&& request_outcome(shapes@, old(board)@, token@) == Err::<BoardView, ScriptError>(e)
                &&& *final(board) == *old(board)
            },
        },
{
    if token.len() < 2 {
        return Err(ScriptError::Malformed);
    }
    let digit: u8 = token[1];
    if digit < DIGIT_ZERO || digit > DIGIT_NINE {
        return Err(ScriptError::Malformed);
    }
    let symbol: u8 = token[0];
    let column: WidthType = digit - DIGIT_ZERO;
    match shapes.get(&symbol) {
        None => Err(ScriptError::UnknownShape),
        Some(shape) => match board.try_drop(shape, column) {
            Ok(()) => Ok(()),
            Err(e) => Err(ScriptError::Rejected(e)),
        },
    }
}

/// Carries out the requests of a line of a script from left to right, up to
/// the first one that fails.
pub fn play_line(shapes: &HashMap<u8, Shape>, board: &mut Board, line: &[u8]) -> (result: Result<
    (),
    ScriptError,
>)
    requires
        catalog_ok(shapes@),
        old(board).wf(),
    ensures
        final(board).wf(),
        final(board)@ == played(shapes@, old(board)@, line@).0,
        match result {
            Ok(_) => played(shapes@, old(board)@, line@).1 is None,
            Err(e) => played(shapes@, old(board)@, line@).1 == Some(e),
        },
{
    let n: usize = line.len();
    let mut start: usize = 0;
    assert(line@.skip(0) =~= line@);
    loop
        invariant
            start <= n,
            n == line@.len(),
            catalog_ok(shapes@),
            board.wf(),
            played(shapes@, board@, line@.skip(start as int)) == played(shapes@, old(board)@, line@),
        decreases n - start,
    {
        let ghost rest = line@.skip(start as int);
        let mut end: usize = start;
        while end < n && line[end] != COMMA
            invariant
                start <= end <= n,
                n == line@.len(),
                forall|k: int| start <= k < end ==> line@[k] != COMMA,
            decreases n - end,
        {
            end += 1;
        }
        proof {
            lemma_first_comma(rest, (end - start) as nat);
        }
        let token = slice_subrange(line, start, end);
        match play_request(shapes, board, token) {
            Err(e) => {
                return Err(e);
            },
            Ok(()) => {},
        }
        if end >= n {
            return Ok(());
        }
        proof {
            assert(rest.skip(end - start + 1) =~= line@.skip(end + 1));
        }
        start = end + 1;
    }
}

/// The fill height that a line of a script leads to on an empty standard
/// board.
pub fn fill_height_of_line(shapes: &HashMap<u8, Shape>, line: &[u8]) -> (result: Result<
    HeightType,
    ScriptError,
>)
    requires
        catalog_ok(shapes@),
    ensures
        match result {
            Ok(h) => line_fill_height(shapes@, line@) == Ok::<int, ScriptError>(h as int),
            Err(e) => line_fill_height(shapes@, line@) == Err::<int, ScriptError>(e),
        },
{
    let mut board = Board::new(STANDARD_BOARD_WIDTH, STANDARD_BOARD_HEIGHT);
    match play_line(shapes, &mut board, line) {
        Ok(()) => Ok(board.fill_height()),
        Err(e) => Err(e),
    }
}

/// Answers a line of a dialogue: drops the piece that the line names, or says
/// why nothing was dropped and leaves the board as it is.
pub fn respond(shapes: &HashMap<u8, Shape>, board: &mut Board, line: &[u8]) -> (reply: Reply)
    requires
        catalog_ok(shapes@),
        old(board).wf(),
    ensures
        final(board).wf(),
        reply == reply_to(shapes@, old(board)@, line@),
        final(board)@ == board_after(shapes@, old(board)@, line@),
        reply != Reply::Dropped ==> *final(board) == *old(board),
{
    let n: usize = line.len();
    if n == 1 {
        return Reply::Quit;
    }
    if n < 3 {
        return Reply::InvalidInput;
    }
    let symbol: u8 = line[0];
    match shapes.get(&symbol) {
        None => Reply::UnknownShape,
        Some(shape) => match parse_number(slice_subrange(line, 1, n - 1)) {
            None => Reply::InvalidLocation,
            Some(column) => match board.try_drop(shape, column) {
                Ok(()) => Reply::Dropped,
                Err(e) => Reply::Rejected(e),
            },
        },
    }
}

} // verus!
