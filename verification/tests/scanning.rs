use plat::fragment::{classify, fragmentize, scan, Classified, Fragment};
use plat::node::Node;
use plat::position::Position;
use plat::text::{ch_to_str, integer_to_text, parse_integer, same_text, to_chars, CharClass};

fn at(line: usize, column: usize) -> Position {
    Position { line, column }
}

fn word(text: &str, line: usize, column: usize) -> Node<Fragment> {
    Node::new(Fragment::AlphaNumeric(text.to_string()), at(line, column))
}

fn number(text: &str, line: usize, column: usize) -> Node<Fragment> {
    Node::new(Fragment::Numeric(text.to_string()), at(line, column))
}

fn symbol(ch: char, line: usize, column: usize) -> Node<Fragment> {
    Node::new(Fragment::Symbol(ch), at(line, column))
}

#[test]
fn position_starts_at_origin() {
    assert_eq!(Position::new(), at(0, 0));
}

#[test]
fn position_shift_moves_one_column() {
    let mut position = at(3, 4);
    position.shift();
    assert_eq!(position, at(3, 5));
}

#[test]
fn position_newline_resets_column() {
    let mut position = at(3, 4);
    position.newline();
    assert_eq!(position, at(4, 0));
}

#[test]
fn position_advance_tells_line_breaks_apart() {
    let mut position = at(0, 0);
    position.advance('a');
    assert_eq!(position, at(0, 1));
    position.advance('\n');
    assert_eq!(position, at(1, 0));
    position.advance(' ');
    assert_eq!(position, at(1, 1));
}

#[test]
fn char_class_asks_numeric_first() {
    assert_eq!(CharClass::from_answers(true, true, false), CharClass::Digit);
    assert_eq!(CharClass::from_answers(false, true, false), CharClass::Letter);
    assert_eq!(CharClass::from_answers(false, false, true), CharClass::Space);
    assert_eq!(CharClass::from_answers(false, false, false), CharClass::Other);
}

#[test]
fn char_class_of_common_characters() {
    assert_eq!(CharClass::of('7'), CharClass::Digit);
    assert_eq!(CharClass::of('x'), CharClass::Letter);
    assert_eq!(CharClass::of('\t'), CharClass::Space);
    assert_eq!(CharClass::of('-'), CharClass::Other);
    assert_eq!(CharClass::of('\u{0663}'), CharClass::Digit);
    assert_eq!(CharClass::of('\u{00e9}'), CharClass::Letter);
}

#[test]
fn word_classes_are_digit_and_letter() {
    assert!(CharClass::Digit.is_word());
    assert!(CharClass::Letter.is_word());
    assert!(!CharClass::Space.is_word());
    assert!(!CharClass::Other.is_word());
}

#[test]
fn to_chars_keeps_every_character() {
    assert_eq!(to_chars("a\u{00e9}1"), vec!['a', '\u{00e9}', '1']);
    assert_eq!(to_chars(""), Vec::<char>::new());
}

#[test]
fn ch_to_str_holds_one_character() {
    assert_eq!(ch_to_str('x'), "x");
    assert_eq!(ch_to_str('\u{00e9}'), "\u{00e9}");
}

#[test]
fn same_text_compares_characters() {
    assert!(same_text("copy", "copy"));
    assert!(!same_text("copy", "cop"));
    assert!(same_text("", ""));
}

#[test]
fn parse_integer_reads_plain_digits() {
    assert_eq!(parse_integer("0"), Some(0));
    assert_eq!(parse_integer("12"), Some(12));
    assert_eq!(parse_integer("007"), Some(7));
    assert_eq!(parse_integer("2147483647"), Some(i32::MAX));
}

#[test]
fn parse_integer_reads_a_sign() {
    assert_eq!(parse_integer("-12"), Some(-12));
    assert_eq!(parse_integer("+12"), Some(12));
    assert_eq!(parse_integer("-2147483648"), Some(i32::MIN));
    assert_eq!(parse_integer("-0"), Some(0));
}

#[test]
fn parse_integer_refuses_what_does_not_fit() {
    assert_eq!(parse_integer("2147483648"), None);
    assert_eq!(parse_integer("-2147483649"), None);
    assert_eq!(parse_integer("99999999999999999999999999"), None);
}

#[test]
fn parse_integer_refuses_what_is_no_number() {
    assert_eq!(parse_integer(""), None);
    assert_eq!(parse_integer("-"), None);
    assert_eq!(parse_integer("+"), None);
    assert_eq!(parse_integer("1a"), None);
    assert_eq!(parse_integer("--1"), None);
    assert_eq!(parse_integer("1 "), None);
    assert_eq!(parse_integer("\u{0663}"), None);
}

#[test]
fn parse_integer_agrees_with_std() {
    for text in ["0", "-0", "+5", "17", "-2147483648", "2147483648", "", "+", "x", "1x", "0001"] {
        assert_eq!(parse_integer(text), text.parse::<i32>().ok());
    }
}

#[test]
fn integer_to_text_writes_base_ten() {
    assert_eq!(integer_to_text(0), "0");
    assert_eq!(integer_to_text(7), "7");
    assert_eq!(integer_to_text(10), "10");
    assert_eq!(integer_to_text(12345), "12345");
    assert_eq!(integer_to_text(-1), "-1");
    assert_eq!(integer_to_text(i32::MAX), "2147483647");
    assert_eq!(integer_to_text(i32::MIN), "-2147483648");
}

#[test]
fn integer_text_round_trip() {
    for value in [0, 1, -1, 9, 10, 99, 100, -100, 65535, i32::MAX, i32::MIN] {
        assert_eq!(parse_integer(integer_to_text(value).as_str()), Some(value));
    }
}

#[test]
fn classify_pairs_each_character_with_its_class() {
    assert_eq!(
        classify("a1 ;"),
        vec![
            Classified { ch: 'a', class: CharClass::Letter },
            Classified { ch: '1', class: CharClass::Digit },
            Classified { ch: ' ', class: CharClass::Space },
            Classified { ch: ';', class: CharClass::Other },
        ]
    );
}

#[test]
fn scan_goes_by_the_classes_it_is_given() {
    // The classes decide, not the characters: here `x` is declared a digit.
    let cells = vec![
        Classified { ch: 'x', class: CharClass::Digit },
        Classified { ch: '1', class: CharClass::Digit },
        Classified { ch: '2', class: CharClass::Other },
    ];
    assert_eq!(scan(&cells), vec![number("x1", 0, 0), symbol('2', 0, 2)]);
}

#[test]
fn fragmentize_empty_source() {
    assert_eq!(fragmentize(""), Vec::<Node<Fragment>>::new());
    assert_eq!(fragmentize("  \n\t "), Vec::<Node<Fragment>>::new());
}

#[test]
fn fragmentize_words_numbers_and_symbols() {
    assert_eq!(
        fragmentize("at 12;"),
        vec![word("at", 0, 0), number("12", 0, 3), symbol(';', 0, 5)]
    );
}

#[test]
fn fragmentize_digits_then_letters_are_one_word() {
    assert_eq!(fragmentize("12ab"), vec![word("12ab", 0, 0)]);
    assert_eq!(fragmentize("ab12"), vec![word("ab12", 0, 0)]);
    assert_eq!(fragmentize("1a2"), vec![word("1a2", 0, 0)]);
}

#[test]
fn fragmentize_every_symbol_stands_alone() {
    assert_eq!(
        fragmentize("::{}"),
        vec![symbol(':', 0, 0), symbol(':', 0, 1), symbol('{', 0, 2), symbol('}', 0, 3)]
    );
}

#[test]
fn fragmentize_minus_is_a_symbol() {
    assert_eq!(fragmentize("-5"), vec![symbol('-', 0, 0), number("5", 0, 1)]);
}

#[test]
fn fragmentize_tracks_lines_and_columns() {
    assert_eq!(
        fragmentize("a\n  b1\n\n;"),
        vec![word("a", 0, 0), word("b1", 1, 2), symbol(';', 3, 0)]
    );
}

#[test]
fn fragmentize_range_and_decimal_shapes() {
    assert_eq!(
        fragmentize("12..34"),
        vec![number("12", 0, 0), symbol('.', 0, 2), symbol('.', 0, 3), number("34", 0, 4)]
    );
    assert_eq!(
        fragmentize("12.34"),
        vec![number("12", 0, 0), symbol('.', 0, 2), number("34", 0, 3)]
    );
}

#[test]
fn fragmentize_twice_gives_the_same_fragments() {
    let source = "match x { 1..5 | \"hi\" { y: Text > \"Say $x\" } }\n";
    assert_eq!(fragmentize(source), fragmentize(source));
}

#[test]
fn fragmentize_keeps_all_that_is_not_white_space() {
    let source = "at \"a b\"\n to $c { copy; }";
    let mut joined = String::new();
    for fragment in fragmentize(source) {
        joined.push_str(fragment.data.content().as_str());
    }
    let expected: String = source.chars().filter(|ch| !ch.is_whitespace()).collect();
    assert_eq!(joined, expected);
}

#[test]
fn fragmentize_positions_never_go_back() {
    let fragments = fragmentize("a b\nc 1 2\n\n  ; x");
    for pair in fragments.windows(2) {
        let (first, second) = (pair[0].position, pair[1].position);
        assert!(
            first.line < second.line
                || (first.line == second.line && first.column < second.column)
        );
    }
}

#[test]
fn fragment_describe_names_the_kind() {
    assert_eq!(Fragment::AlphaNumeric("ab".to_string()).describe(), "AlphaNumeric (ab)");
    assert_eq!(Fragment::Numeric("12".to_string()).describe(), "Numeric (12)");
    assert_eq!(Fragment::Symbol(';').describe(), "Symbol (;)");
}

#[test]
fn fragments_have_the_shape_of_their_kind() {
    let fragments = fragmentize("copy 12 a1 1a \u{0663}\u{0664} \u{00bd}x _ \u{00e9}t\u{00e9},7");
    assert_eq!(fragments.len(), 10);
    for fragment in &fragments {
        match &fragment.data {
            Fragment::Numeric(text) => {
                assert!(!text.is_empty());
                assert!(text.chars().all(|ch| ch.is_numeric()));
            }
            Fragment::AlphaNumeric(text) => {
                assert!(text.chars().all(|ch| ch.is_alphanumeric()));
                assert!(text.chars().any(|ch| !ch.is_numeric()));
            }
            Fragment::Symbol(ch) => {
                assert!(!ch.is_alphanumeric());
                assert!(!ch.is_whitespace());
            }
        }
    }
    assert_eq!(fragments[4].data, Fragment::Numeric("\u{0663}\u{0664}".to_string()));
    assert_eq!(fragments[5].data, Fragment::AlphaNumeric("\u{00bd}x".to_string()));
}
