use regulus::atom::Atom;
use regulus::parser::build_program;
use regulus::positions::Position;
use regulus::span::{no_path, CharPositions, Span};
use regulus::token::{extract, tokenize};

fn p(line: u32, column: u32) -> Position {
    Position { line, column }
}

fn pc(line: u32, column: u32, ch: char) -> (Position, char) {
    (p(line, column), ch)
}

fn sp(start_line: u32, start_col: u32, end_line: u32, end_col: u32) -> Span {
    Span::new(
        Position::new(start_line, start_col),
        Position::new(end_line, end_col),
        no_path(),
    )
}

fn so(text: &str) -> Option<String> {
    Some(text.to_string())
}

#[test]
fn sizes_of_types() {
    assert_eq!(size_of::<Position>(), 8);
    assert_eq!(size_of::<Span>(), 24);
}

#[test]
fn span_iter() {
    let t = "abc\nde\nf\n";
    let mut i = CharPositions::new(t);
    assert_eq!(
        i.collect_vec(),
        [
            pc(1, 1, 'a'),
            pc(1, 2, 'b'),
            pc(1, 3, 'c'),
            pc(1, 4, '\n'),
            pc(2, 1, 'd'),
            pc(2, 2, 'e'),
            pc(2, 3, '\n'),
            pc(3, 1, 'f'),
            pc(3, 2, '\n'),
        ]
    );
}

#[test]
fn pos_order() {
    assert!(p(2, 4) < p(2, 5));
    assert!(p(1, 3) > p(1, 1));
    assert!(p(1, 4) == p(1, 4));
    assert!(p(2, 1) > p(1, 10));
}

#[test]
fn extract_1() {
    let t = "abc\nde\nf\nghi\n";
    assert_eq!(extract(t, sp(1, 1, 1, 4)), so("abc\n"));
    assert_eq!(extract(t, sp(1, 1, 2, 2)), so("abc\nde"));
    assert_eq!(extract(t, sp(1, 1, 2, 1)), so("abc\nd"));
    assert_eq!(extract(t, sp(1, 3, 2, 2)), so("c\nde"));
    assert_eq!(extract(t, sp(1, 1, 1, 2)), so("ab"));
    assert_eq!(extract(t, sp(1, 1, 1, 1)), so("a"));
    assert_eq!(extract(t, sp(1, 1, 1, 1000)), None);
    assert_eq!(extract(t, sp(1, 2, 1, 1)), None);
    assert_eq!(extract(t, sp(2, 2, 3, 2)), so("e\nf\n"));
    assert_eq!(extract(t, sp(3, 1, 1, 1)), None);
    assert_eq!(extract(t, sp(2, 1, 1, 4)), None);
    assert_eq!(extract(t, sp(2, 2, 2, 2)), so("e"));
    assert_eq!(extract(t, sp(3, 2, 3, 2)), so("\n"));
    assert_eq!(extract(t, sp(4, 5, 4, 5)), None);
    assert_eq!(extract(t, sp(4, 5, 4, 4)), None);
    assert_eq!(extract(t, sp(3, 2, 4, 1)), so("\ng"));
    assert_eq!(extract(t, sp(3, 2, 6, 1)), None);
    assert_eq!(extract(t, sp(3, 3, 4, 1)), None);
}

#[test]
fn token_extraction() {
    let code = "_(
	def(double_and_print, x, print(*(2, x))),
)
";
    let tokens = tokenize(code, no_path()).unwrap();

    let parts = tokens
        .into_iter()
        .map(|t| extract(code, t.span).unwrap())
        .collect::<Vec<_>>();

    assert_eq!(
        parts,
        [
            "_",
            "(",
            "def",
            "(",
            "double_and_print",
            ",",
            "x",
            ",",
            "print",
            "(",
            "*",
            "(",
            "2",
            ",",
            "x",
            ")",
            ")",
            ")",
            ",",
            ")"
        ]
        .map(ToString::to_string)
    );

    assert_eq!(parts.join(""), code.replace(['\n', '\t', ' '], ""));
}

#[test]
fn extra_parens() {
    let prog = build_program(tokenize("_((2))", no_path()).unwrap());

    assert_eq!(
        prog.unwrap_err().to_string(),
        "SyntaxError: expected atom or ident\nat <file>:0:3"
    );

    let prog = build_program(tokenize("(print(2)), print(3)", no_path()).unwrap());

    assert_eq!(
        prog.unwrap_err().to_string(),
        "SyntaxError: expected atom or ident\nat <file>:0:1"
    );
}

#[test]
fn atom_fn() {
    let prog = build_program(tokenize("2(4)", no_path()).unwrap());
    assert_eq!(prog.unwrap().stringify(), "2(4)");
}

#[test]
fn two_commas() {
    let prog = build_program(tokenize("_(4,,4)", no_path()).unwrap());
    assert_eq!(
        prog.unwrap_err().to_string(),
        "SyntaxError: expected atom or ident\nat <file>:0:5"
    );
}

#[allow(clippy::neg_cmp_op_on_partial_ord)]
#[test]
fn atom_not_ord() {
    assert!(!(Atom::Null < Atom::Int(2)));
    assert!(!(Atom::Null == Atom::Int(2)));
    assert!(!(Atom::Null > Atom::Int(2)));
}
