use tetris::{ParseError, Position, TShape};

fn cell(x: usize, y: usize) -> Position {
    Position { x, y }
}

fn shapes_of(catalog: &TShape) -> Vec<Vec<Position>> {
    (0..catalog.len()).map(|i| catalog.shape(i)).collect()
}

#[test]
fn load_reads_two_squares() {
    let catalog = TShape::load("0-0 1-0 0-1 1-1\n2-0 3-0 2-1 3-1").unwrap();
    assert_eq!(catalog.len(), 2);
    assert_eq!(catalog.shape(0), vec![cell(0, 0), cell(1, 0), cell(0, 1), cell(1, 1)]);
    assert_eq!(catalog.shape(1), vec![cell(2, 0), cell(3, 0), cell(2, 1), cell(3, 1)]);
    assert_eq!(catalog.shape(0).len(), 4);
    assert_eq!(catalog.shape(1).len(), 4);
}

#[test]
fn load_of_empty_text_is_empty_catalog() {
    let catalog = TShape::load("").unwrap();
    assert_eq!(catalog.len(), 0);
    assert!(catalog.is_empty());
}

#[test]
fn load_takes_final_line_feed_as_optional() {
    let with = TShape::load("0-0\n1-1\n").unwrap();
    let without = TShape::load("0-0\n1-1").unwrap();
    assert_eq!(shapes_of(&with), shapes_of(&without));
    assert_eq!(with.len(), 2);
}

#[test]
fn load_keeps_blank_lines_as_empty_shapes() {
    let catalog = TShape::load("0-0\n\n1-1").unwrap();
    assert_eq!(shapes_of(&catalog), vec![vec![cell(0, 0)], vec![], vec![cell(1, 1)]]);
    let only = TShape::load("\n").unwrap();
    assert_eq!(shapes_of(&only), vec![Vec::<Position>::new()]);
}

#[test]
fn load_passes_over_words_of_other_lengths() {
    let catalog = TShape::load("square: 0-0 1-0 # 10-2 x 0-1 1-1 done").unwrap();
    assert_eq!(shapes_of(&catalog), vec![vec![cell(0, 0), cell(1, 0), cell(0, 1), cell(1, 1)]]);
}

#[test]
fn load_splits_words_at_any_ascii_whitespace() {
    let catalog = TShape::load("0-0\t1-0  2-0\r\n3-4\x0c4-4\r").unwrap();
    assert_eq!(
        shapes_of(&catalog),
        vec![vec![cell(0, 0), cell(1, 0), cell(2, 0)], vec![cell(3, 4), cell(4, 4)]]
    );
}

#[test]
fn load_reads_every_digit() {
    let catalog = TShape::load("9-9 5-0 0-7").unwrap();
    assert_eq!(shapes_of(&catalog), vec![vec![cell(9, 9), cell(5, 0), cell(0, 7)]]);
}

#[test]
fn load_refuses_letters_for_digits() {
    assert_eq!(TShape::load("a-1").err(), Some(ParseError { line: 0 }));
    assert_eq!(TShape::load("1-b").err(), Some(ParseError { line: 0 }));
    assert_eq!(TShape::load("abc").err(), Some(ParseError { line: 0 }));
}

#[test]
fn load_refuses_three_bytes_without_hyphen_in_the_middle() {
    assert_eq!(TShape::load("123").err(), Some(ParseError { line: 0 }));
    assert_eq!(TShape::load("-12").err(), Some(ParseError { line: 0 }));
    assert_eq!(TShape::load("12-").err(), Some(ParseError { line: 0 }));
    assert_eq!(TShape::load("1+2").err(), Some(ParseError { line: 0 }));
    assert_eq!(TShape::load("---").err(), Some(ParseError { line: 0 }));
}

#[test]
fn load_counts_length_in_bytes() {
    // one character of three bytes is a word of three bytes
    assert_eq!(TShape::load("\u{20ac}").err(), Some(ParseError { line: 0 }));
    // three characters of four bytes are passed over
    let catalog = TShape::load("\u{e9}-1 2-2").unwrap();
    assert_eq!(shapes_of(&catalog), vec![vec![cell(2, 2)]]);
}

#[test]
fn load_names_the_first_bad_line() {
    assert_eq!(TShape::load("0-0 1-1\n2-2\n3-x 0-0\ny-y").err(), Some(ParseError { line: 2 }));
    assert_eq!(TShape::load("\n\n\n0-0 0_0").err(), Some(ParseError { line: 3 }));
}

#[test]
fn shape_hands_out_a_copy() {
    let catalog = TShape::load("0-0 1-0").unwrap();
    let mut copy = catalog.shape(0);
    copy.push(cell(4, 4));
    assert_eq!(catalog.shape(0), vec![cell(0, 0), cell(1, 0)]);
}

#[test]
fn rand_shape_is_one_of_the_catalog() {
    let catalog = TShape::load("0-0 1-0 0-1 1-1\n2-0 3-0 2-1 3-1\n4-4").unwrap();
    let all = shapes_of(&catalog);
    for _ in 0..200 {
        let shape = catalog.rand_shape();
        assert!(all.contains(&shape));
    }
}

#[test]
fn rand_shape_of_single_shape_catalog() {
    let catalog = TShape::load("1-2 3-4").unwrap();
    for _ in 0..20 {
        assert_eq!(catalog.rand_shape(), vec![cell(1, 2), cell(3, 4)]);
    }
}

#[test]
fn rand_shape_reaches_every_shape() {
    let catalog = TShape::load("0-0\n1-1\n2-2").unwrap();
    let mut seen = [false; 3];
    for _ in 0..2000 {
        let shape = catalog.rand_shape();
        seen[shape[0].x] = true;
    }
    assert_eq!(seen, [true, true, true]);
}
