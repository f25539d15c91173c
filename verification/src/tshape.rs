//! The catalog of shapes that pieces are drawn from.

use vstd::prelude::*;
use vstd::slice::slice_subrange;
use vstd::string::StringSliceAdditionalSpecFns;
use crate::cell::Position;
use crate::format::{
    catalog_of, cell_of, is_cell, is_digit, is_space, lemma_run_len, line_len, line_ok, lines,
    shape_of, text_ok, tokens, word_len, words, HYPHEN, LINE_FEED, NINE, ZERO,
};
use crate::random::random_index;

verus! {

/// Why a text is no catalog: a word of three bytes on line `line`, counted
/// from 0, does not read as a cell. It is the first such line.
#[derive(Clone, Copy, PartialEq, Eq, Structural, Debug)]
pub struct ParseError {
    pub line: usize,
}

/// A catalog of shape templates, in the order in which they were loaded.
pub struct TShape {
    shapes: Vec<Vec<Position>>,
}

impl View for TShape {
    type V = Seq<Seq<Position>>;

    closed spec fn view(&self) -> Seq<Seq<Position>> {
        self.shapes@.map_values(|shape: Vec<Position>| shape@)
    }
}

impl TShape {
    /// Reads a catalog from its text form. The result is the catalog that
    /// the text encodes if every word of three bytes reads as a cell, and
    /// otherwise an error that names the first line with a word that does
    /// not.
    pub fn load(source: &str) -> (result: Result<TShape, ParseError>)
        ensures
            result is Ok <==> text_ok(source.spec_bytes()),
            match result {
                Ok(catalog) => text_ok(source.spec_bytes()) && catalog@ == catalog_of(
                    source.spec_bytes(),
                ),
                Err(error) => {
                    let all = lines(source.spec_bytes());
                    &&& error.line < all.len()
                    &&& !line_ok(all[error.line as int])
                    &&& forall|i: int| 0 <= i < error.line ==> line_ok(#[trigger] all[i])
                },
            },
    {
        let bytes = source.as_bytes();
        let ghost text = bytes@;
        let mut shapes: Vec<Vec<Position>> = Vec::new();
        let ghost mut done: Seq<Seq<u8>> = Seq::empty();
        let mut start: usize = 0;
        assert(text.skip(0) == text);
        while start < bytes.len()
            invariant
                0 <= start <= bytes.len(),
                text == bytes@,
                text == source.spec_bytes(),
                lines(text) == done + lines(text.skip(start as int)),
                shapes.len() == done.len(),
                forall|i: int| 0 <= i < done.len() ==> line_ok(#[trigger] done[i]),
                forall|i: int| 0 <= i < done.len() ==> (#[trigger] shapes[i])@ == shape_of(done[i]),
            decreases bytes.len() - start,
        {
            let end = line_end(bytes, start);
            let line = slice_subrange(bytes, start, end);
            proof {
                let rest = text.skip(start as int);
                assert(rest.take(end - start) == line@);
                if end < bytes.len() {
                    assert(rest.skip(end - start + 1) == text.skip(end + 1));
                } else {
                    assert(rest == line@);
                    assert(lines(text.skip(end as int)) == Seq::<Seq<u8>>::empty());
                }
            }
            match parse_line(line) {
                Some(shape) => {
                    shapes.push(shape);
                    proof {
                        done = done.push(line@);
                    }
                },
                None => {
                    proof {
                        let all = lines(text);
                        let rest = lines(text.skip(start as int));
                        assert(rest[0] == line@);
                        assert(all[done.len() as int] == line@);
                        assert forall|i: int| 0 <= i < done.len() implies line_ok(
                            #[trigger] all[i],
                        ) by {
                            assert(all[i] == done[i]);
                        }
                    }
                    return Err(ParseError { line: shapes.len() });
                },
            }
            start = if end < bytes.len() {
                end + 1
            } else {
                end
            };
        }
        assert(lines(text) == done);
        let catalog = TShape { shapes };
        assert(catalog@ == catalog_of(text));
        Ok(catalog)
    }

    /// The number of templates.
    pub fn len(&self) -> (n: usize)
        ensures
            n == self@.len(),
    {
        self.shapes.len()
    }

    /// Whether the catalog holds no template.
    pub fn is_empty(&self) -> (b: bool)
        ensures
            b == (self@.len() == 0),
    {
        self.shapes.len() == 0
    }

    /// A copy of the template at `index`.
    pub fn shape(&self, index: usize) -> (shape: Vec<Position>)
        requires
            index < self@.len(),
        ensures
            shape@ == self@[index as int],
    {
        self.shapes[index].clone()
    }

    /// A copy of one template, chosen at random. Which one is not
    /// determined; it is one of the catalog.
    pub fn rand_shape(&self) -> (shape: Vec<Position>)
        requires
            self@.len() > 0,
        ensures
            exists|i: int| 0 <= i < self@.len() && shape@ == #[trigger] self@[i],
    {
        let index = random_index(self.shapes.len());
        self.shape(index)
    }
}

/// Whether `byte` is ASCII whitespace.
fn is_space_byte(byte: u8) -> (b: bool)
    ensures
        b == is_space(byte),
{
    byte == 32 || byte == 9 || byte == 10 || byte == 12 || byte == 13
}

/// Whether `byte` is a decimal digit.
fn is_digit_byte(byte: u8) -> (b: bool)
    ensures
        b == is_digit(byte),
{
    ZERO <= byte && byte <= NINE
}

/// Where the line that starts at `start` ends: at its line feed, or at the
/// end of `bytes`.
fn line_end(bytes: &[u8], start: usize) -> (end: usize)
    requires
        start <= bytes.len(),
    ensures
        start <= end <= bytes.len(),
        end - start == line_len(bytes@.skip(start as int)),
{
    let mut end = start;
    while end < bytes.len() && bytes[end] != LINE_FEED
        invariant
            start <= end <= bytes.len(),
            forall|j: int| start <= j < end ==> bytes[j] != LINE_FEED,
        decreases bytes.len() - end,
    {
        end += 1;
    }
    proof {
        let rest = bytes@.skip(start as int);
        lemma_run_len(rest, |byte: u8| byte == LINE_FEED, end - start);
    }
    end
}

/// Where the word that starts at `start` ends: at the next whitespace, or
/// at the end of `bytes`.
fn word_end(bytes: &[u8], start: usize) -> (end: usize)
    requires
        start <= bytes.len(),
    ensures
        start <= end <= bytes.len(),
        end - start == word_len(bytes@.skip(start as int)),
{
    let mut end = start;
    while end < bytes.len() && !is_space_byte(bytes[end])
        invariant
            start <= end <= bytes.len(),
            forall|j: int| start <= j < end ==> !is_space(#[trigger] bytes[j]),
        decreases bytes.len() - end,
    {
        end += 1;
    }
    proof {
        let rest = bytes@.skip(start as int);
        lemma_run_len(rest, |byte: u8| is_space(byte), end - start);
    }
    end
}

/// Reads the shape that one line encodes, if every word of three bytes in
/// it reads as a cell.
fn parse_line(line: &[u8]) -> (result: Option<Vec<Position>>)
    ensures
        result is Some <==> line_ok(line@),
        result matches Some(shape) ==> shape@ == shape_of(line@),
{
    let ghost three = |word: Seq<u8>| word.len() == 3;
    let ghost to_cell = |token: Seq<u8>| cell_of(token);
    let mut shape: Vec<Position> = Vec::new();
    let ghost mut done: Seq<Seq<u8>> = Seq::empty();
    let mut at: usize = 0;
    proof {
        assert(line@.skip(0) == line@);
        done.lemma_filter_len(three);
    }
    while at < line.len()
        invariant
            0 <= at <= line.len(),
            three == |word: Seq<u8>| word.len() == 3,
            to_cell == |token: Seq<u8>| cell_of(token),
            words(line@) == done + words(line@.skip(at as int)),
            forall|i: int| 0 <= i < done.filter(three).len() ==> is_cell(#[trigger] done.filter(three)[i]),
            shape@ == done.filter(three).map_values(to_cell),
        decreases line.len() - at,
    {
        let ghost rest = line@.skip(at as int);
        if is_space_byte(line[at]) {
            assert(rest.skip(1) == line@.skip(at + 1));
            at += 1;
        } else {
            let end = word_end(line, at);
            let ghost word = line@.subrange(at as int, end as int);
            let ghost after = if end < line.len() {
                line@.skip(end + 1)
            } else {
                Seq::<u8>::empty()
            };
            proof {
                assert(rest.take(end - at) == word);
                if end < line.len() {
                    assert(rest.skip(end - at + 1) == after);
                } else {
                    assert(rest == word);
                    assert(words(after) == Seq::<Seq<u8>>::empty());
                }
                assert(words(rest) == seq![word] + words(after));
                assert(done + words(rest) == done.push(word) + words(after));
                done.lemma_filter_push(word, three);
            }
            if end - at == 3 {
                if is_digit_byte(line[at]) && line[at + 1] == HYPHEN && is_digit_byte(line[at + 2]) {
                    shape.push(
                        Position { x: (line[at] - ZERO) as usize, y: (line[at + 2] - ZERO) as usize },
                    );
                    proof {
                        assert(is_cell(word));
                        assert(shape@ == done.push(word).filter(three).map_values(to_cell));
                    }
                } else {
                    proof {
                        let bad = done.push(word);
                        Seq::filter_distributes_over_add(bad, words(after), three);
                        assert(words(line@) == bad + words(after));
                        let kept = bad.filter(three);
                        assert(tokens(line@) == kept + words(after).filter(three));
                        assert(kept[kept.len() - 1] == word);
                        assert(tokens(line@)[kept.len() - 1] == word);
                        assert(!is_cell(word));
                    }
                    return None;
                }
            }
            proof {
                done = done.push(word);
                if end == line.len() {
                    assert(line@.skip(end as int).len() == 0);
                }
            }
            at = if end < line.len() {
                end + 1
            } else {
                end
            };
        }
    }
    proof {
        assert(line@.skip(at as int).len() == 0);
        assert(words(line@) == done);
    }
    Some(shape)
}

} // verus!
