//! The text form of a shape catalog.
//!
//! A catalog is plain text with one shape per line. A line ends at a line
//! feed; the last line may do without. Within a line, words are separated
//! by ASCII whitespace. A word of exactly three bytes stands for a cell and
//! must read as a digit, a hyphen and a digit: the column and the row. Words
//! of any other length are passed over. Lengths are counted in bytes of the
//! text as it is encoded.

use vstd::prelude::*;
use crate::cell::Position;

verus! {

/// The line feed.
pub const LINE_FEED: u8 = 10;

/// The hyphen that joins column and row.
pub const HYPHEN: u8 = 45;

/// The digit zero.
pub const ZERO: u8 = 48;

/// The digit nine.
pub const NINE: u8 = 57;

/// Whether `byte` is ASCII whitespace: a space, a tab, a line feed, a form
/// feed or a carriage return.
pub open spec fn is_space(byte: u8) -> bool {
    byte == 32 || byte == 9 || byte == 10 || byte == 12 || byte == 13
}

/// Whether `byte` is a decimal digit.
pub open spec fn is_digit(byte: u8) -> bool {
    ZERO <= byte <= NINE
}

/// The number of bytes at the start of `text` before the first one that
/// `stop` holds of, or all of them if there is none.
pub open spec fn run_len(text: Seq<u8>, stop: spec_fn(u8) -> bool) -> nat
    decreases text.len(),
{
    if text.len() == 0 || stop(text[0]) {
        0
    } else {
        1 + run_len(text.skip(1), stop)
    }
}

/// The length of the first line of `text`, its line feed not counted.
pub open spec fn line_len(text: Seq<u8>) -> nat {
    run_len(text, |byte: u8| byte == LINE_FEED)
}

/// The length of the word that `text` starts with.
pub open spec fn word_len(text: Seq<u8>) -> nat {
    run_len(text, |byte: u8| is_space(byte))
}

/// The lines of `text`, without their line feeds. An empty text has no
/// line, and a line feed at the very end starts no further line.
pub open spec fn lines(text: Seq<u8>) -> Seq<Seq<u8>>
    decreases text.len(),
{
    if text.len() == 0 {
        Seq::empty()
    } else {
        let n = line_len(text) as int;
        if n < text.len() {
            seq![text.take(n)] + lines(text.skip(n + 1))
        } else {
            seq![text]
        }
    }
}

/// The words of `line`: its longest runs of bytes that are not whitespace.
pub open spec fn words(line: Seq<u8>) -> Seq<Seq<u8>>
    decreases line.len(),
{
    if line.len() == 0 {
        Seq::empty()
    } else if is_space(line[0]) {
        words(line.skip(1))
    } else {
        let n = word_len(line) as int;
        if n < line.len() {
            seq![line.take(n)] + words(line.skip(n + 1))
        } else {
            seq![line]
        }
    }
}

/// The words of `line` that stand for cells: those of three bytes.
pub open spec fn tokens(line: Seq<u8>) -> Seq<Seq<u8>> {
    words(line).filter(|word: Seq<u8>| word.len() == 3)
}

/// Whether `token` reads as a digit, a hyphen and a digit.
pub open spec fn is_cell(token: Seq<u8>) -> bool {
    token.len() == 3 && is_digit(token[0]) && token[1] == HYPHEN && is_digit(token[2])
}

/// The cell that `token` stands for.
pub open spec fn cell_of(token: Seq<u8>) -> Position {
    Position { x: (token[0] - ZERO) as usize, y: (token[2] - ZERO) as usize }
}

/// Whether every token of `line` reads as a cell.
pub open spec fn line_ok(line: Seq<u8>) -> bool {
    forall|i: int| 0 <= i < tokens(line).len() ==> is_cell(#[trigger] tokens(line)[i])
}

/// The shape that `line` encodes: the cells of its tokens, in order.
pub open spec fn shape_of(line: Seq<u8>) -> Seq<Position> {
    tokens(line).map_values(|token: Seq<u8>| cell_of(token))
}

/// Whether every token of `text` reads as a cell.
pub open spec fn text_ok(text: Seq<u8>) -> bool {
    forall|i: int| 0 <= i < lines(text).len() ==> line_ok(#[trigger] lines(text)[i])
}

/// The catalog that `text` encodes: the shapes of its lines, in order.
pub open spec fn catalog_of(text: Seq<u8>) -> Seq<Seq<Position>> {
    lines(text).map_values(|line: Seq<u8>| shape_of(line))
}

/// A run ends where the first byte stands that `stop` holds of.
pub proof fn lemma_run_len(text: Seq<u8>, stop: spec_fn(u8) -> bool, n: int)
    requires
        0 <= n <= text.len(),
        forall|j: int| 0 <= j < n ==> !stop(#[trigger] text[j]),
        n == text.len() || stop(text[n]),
    ensures
        run_len(text, stop) == n,
    decreases n,
{
    if n > 0 {
        let rest = text.skip(1);
        assert forall|j: int| 0 <= j < n - 1 implies !stop(#[trigger] rest[j]) by {
            assert(rest[j] == text[j + 1]);
        }
        lemma_run_len(rest, stop, n - 1);
    }
}

} // verus!
