use plat::collection::Collection;
use plat::environment::{
    close_body, collect_switch_options, finish, is_symbol_at, mismatch_at, parse_environment,
    read_declaration, read_pattern, read_statement, read_step, read_validator, FieldType, Level,
    MatchCase, OpenMatch, Pattern, Statement, Validator,
};
use plat::error::Error;
use plat::node::Node;
use plat::pipeline::{read_schema, read_tokens};
use plat::position::Position;
use plat::token::Token;
use plat::value::{NumberValue, Range, StringExpression, StringPart, Value};

fn point(line: usize, column: usize) -> Position {
    Position { line, column }
}

fn words(value: &str) -> StringExpression {
    StringExpression { parts: vec![StringPart::Literal(value.to_string())] }
}

fn field(
    identifier: &str,
    field_type: FieldType,
    prompt: &str,
    validator: Option<Validator>,
) -> Statement {
    Statement::Declaration {
        identifier: identifier.to_string(),
        field_type,
        prompt: words(prompt),
        validator,
    }
}

fn lexed(source: &str) -> Vec<Node<Token>> {
    read_tokens(source).into_result().unwrap()
}

fn statements(source: &str) -> Vec<Node<Statement>> {
    match read_schema(source) {
        Collection::Okay(nodes) => nodes,
        Collection::Failed(errors) => panic!("unexpected errors: {:?}", errors),
    }
}

fn mistakes(source: &str) -> Vec<Error> {
    match read_schema(source) {
        Collection::Okay(nodes) => panic!("unexpected statements: {:?}", nodes),
        Collection::Failed(errors) => errors,
    }
}

fn unexpected(expected: &str, received: &str, line: usize, column: usize) -> Error {
    Error::Unexpected {
        expected: expected.to_string(),
        received: received.to_string(),
        position: point(line, column),
    }
}

fn invalid(received: &str, line: usize, column: usize) -> Error {
    Error::Invalid { received: received.to_string(), position: point(line, column) }
}

fn ended(expected: &str, line: usize, column: usize) -> Error {
    Error::EndOfFile { expected: expected.to_string(), position: point(line, column) }
}

fn ground() -> Level {
    Level { statements: Collection::new(), open: None, opened: point(0, 0) }
}

#[test]
fn parse_declaration_with_range_validator() {
    assert_eq!(
        read_schema("x: Integer > \"Enter x\" :: 1..10"),
        Collection::Okay(vec![Node::new(
            field("x", FieldType::Integer, "Enter x", Some(Validator::Range(1, 10))),
            point(0, 0)
        )])
    );
}

#[test]
fn parse_match_with_two_patterns_and_empty_body() {
    assert_eq!(
        read_schema("match x { 1..5 | \"hi\" { } }"),
        Collection::Okay(vec![Node::new(
            Statement::Match {
                identifier: "x".to_string(),
                cases: vec![MatchCase {
                    patterns: vec![
                        Pattern::Value(Value::Range(Range::new(1, 5))),
                        Pattern::Value(Value::String(words("hi"))),
                    ],
                    body: vec![],
                }],
            },
            point(0, 0)
        )])
    );
}

#[test]
fn switch_options_with_an_empty_slot() {
    let tokens = lexed("[\"a\",,\"b\"]");
    let read = collect_switch_options(&tokens, 1, point(0, 0));
    assert_eq!(read.0, vec![words("a"), words("b")]);
    assert_eq!(read.1, vec![unexpected("String", "symbol ','", 0, 5)]);
    assert_eq!(read.2, 6);
}

#[test]
fn switch_options_plain() {
    let tokens = lexed("[\"a\", \"b\", \"c\"] x");
    assert_eq!(
        collect_switch_options(&tokens, 1, point(0, 0)),
        (vec![words("a"), words("b"), words("c")], vec![], 7)
    );
    assert_eq!(collect_switch_options(&lexed("[]"), 1, point(0, 0)), (vec![], vec![], 2));
}

#[test]
fn switch_options_commas_at_the_ends() {
    let trailing = collect_switch_options(&lexed("[\"a\",]"), 1, point(0, 0));
    assert_eq!(trailing, (vec![words("a")], vec![], 4));
    let leading = collect_switch_options(&lexed("[,\"a\"]"), 1, point(0, 0));
    assert_eq!(leading.0, vec![words("a")]);
    assert_eq!(leading.1, vec![unexpected("String", "symbol ','", 0, 1)]);
}

#[test]
fn switch_options_without_comma() {
    let read = collect_switch_options(&lexed("[\"a\" \"b\"]"), 1, point(0, 0));
    assert_eq!(read.0, vec![words("a")]);
    assert_eq!(read.1, vec![unexpected(",", "\"b\"", 0, 5)]);
    assert_eq!(read.2, 4);
}

#[test]
fn switch_options_with_something_else() {
    let read = collect_switch_options(&lexed("[\"a\", 5, \"b\"]"), 1, point(0, 0));
    assert_eq!(read.0, vec![words("a"), words("b")]);
    assert_eq!(
        read.1,
        vec![unexpected("String", "Int 5", 0, 6), unexpected("String", "symbol ','", 0, 7)]
    );
}

#[test]
fn switch_options_that_never_end() {
    let read = collect_switch_options(&lexed("[\"a\","), 1, point(0, 0));
    assert_eq!(read, (vec![words("a")], vec![ended("]", 0, 0)], 3));
}

#[test]
fn field_type_names() {
    assert_eq!(FieldType::named("Text"), Some(FieldType::Text));
    assert_eq!(FieldType::named("Integer"), Some(FieldType::Integer));
    assert_eq!(FieldType::named("Decimal"), Some(FieldType::Decimal));
    assert_eq!(FieldType::named("Switch"), Some(FieldType::Switch));
    assert_eq!(FieldType::named("text"), None);
    assert_eq!(FieldType::named(""), None);
}

#[test]
fn parse_declaration_without_validator() {
    assert_eq!(
        statements("name: Text > \"Your name\""),
        vec![Node::new(field("name", FieldType::Text, "Your name", None), point(0, 0))]
    );
}

#[test]
fn parse_declaration_with_dollar_identifier() {
    assert_eq!(
        statements("$name: Text > \"Your name\""),
        vec![Node::new(field("name", FieldType::Text, "Your name", None), point(0, 0))]
    );
}

#[test]
fn parse_declaration_with_regex_validator() {
    assert_eq!(
        statements("d: Decimal > \"d\" :: /a+/"),
        vec![Node::new(
            field("d", FieldType::Decimal, "d", Some(Validator::Regex("a+".to_string()))),
            point(0, 0)
        )]
    );
}

#[test]
fn parse_declaration_with_switch_validator() {
    assert_eq!(
        statements("s: Switch > \"Pick\" :: [\"a\", \"b\"]"),
        vec![Node::new(
            field(
                "s",
                FieldType::Switch,
                "Pick",
                Some(Validator::Switch(vec![words("a"), words("b")]))
            ),
            point(0, 0)
        )]
    );
}

#[test]
fn parse_several_declarations() {
    assert_eq!(
        statements("a: Text > \"A\"\nb: Integer > \"B\" :: 1..2\nc: Text > \"C\""),
        vec![
            Node::new(field("a", FieldType::Text, "A", None), point(0, 0)),
            Node::new(field("b", FieldType::Integer, "B", Some(Validator::Range(1, 2))), point(1, 0)),
            Node::new(field("c", FieldType::Text, "C", None), point(2, 0)),
        ]
    );
}

#[test]
fn parse_declaration_with_unknown_type() {
    assert_eq!(
        mistakes("x: Float > \"p\""),
        vec![
            Error::Other {
                message: "Text, Integer, Decimal or Switch".to_string(),
                position: point(0, 0),
            },
            invalid("symbol '>'", 0, 9),
            invalid("\"p\"", 0, 11),
        ]
    );
}

#[test]
fn parse_declaration_missing_pieces() {
    assert_eq!(mistakes("x"), vec![ended(":", 0, 0)]);
    assert_eq!(mistakes("x:"), vec![ended("Type", 0, 0)]);
    assert_eq!(mistakes("x: Text"), vec![ended(">", 0, 0)]);
    assert_eq!(mistakes("x: Text >"), vec![ended("String", 0, 0)]);
    assert_eq!(mistakes("x: Text > \"p\" ::"), vec![ended("Range, Regex or [", 0, 0)]);
}

#[test]
fn parse_declaration_wrong_pieces() {
    assert_eq!(mistakes("x > Text"), vec![unexpected(":", "symbol '>'", 0, 2), ended(":", 0, 4)]);
    assert_eq!(mistakes("x: 5"), vec![unexpected("Type", "Int 5", 0, 3)]);
    assert_eq!(mistakes("x: Text : \"p\""), vec![unexpected(">", "symbol ':'", 0, 8), invalid("\"p\"", 0, 10)]);
    assert_eq!(mistakes("x: Text > 7"), vec![unexpected("String", "Int 7", 0, 10)]);
    assert_eq!(
        mistakes("x: Text > \"p\" :: 7"),
        vec![unexpected("Range, Regex or [", "Int 7", 0, 17)]
    );
}

#[test]
fn parse_declaration_with_single_colon_after_prompt() {
    assert_eq!(mistakes("x: Text > \"p\" : 1..2"), vec![invalid("symbol ':'", 0, 14), invalid("range 1-2", 0, 16)]);
}

#[test]
fn parse_switch_mistake_fails_the_schema_but_is_one_error() {
    assert_eq!(
        mistakes("s: Switch > \"Pick\" :: [\"a\",,\"b\"]\nt: Text > \"T\""),
        vec![unexpected("String", "symbol ','", 0, 27)]
    );
}

#[test]
fn parse_invalid_statement_start() {
    assert_eq!(mistakes("> 5"), vec![invalid("symbol '>'", 0, 0), invalid("Int 5", 0, 2)]);
    assert_eq!(mistakes("}"), vec![invalid("symbol '}'", 0, 0)]);
}

#[test]
fn parse_empty_schema() {
    assert_eq!(read_schema(""), Collection::Okay(vec![]));
}

#[test]
fn parse_match_without_cases() {
    assert_eq!(
        statements("match $x { }"),
        vec![Node::new(Statement::Match { identifier: "x".to_string(), cases: vec![] }, point(0, 0))]
    );
}

#[test]
fn parse_match_patterns_of_every_kind() {
    assert_eq!(
        statements("match x { * | $y | z | 5 | /r/ { } }"),
        vec![Node::new(
            Statement::Match {
                identifier: "x".to_string(),
                cases: vec![MatchCase {
                    patterns: vec![
                        Pattern::Any,
                        Pattern::Variable("y".to_string()),
                        Pattern::Variable("z".to_string()),
                        Pattern::Value(Value::Number(NumberValue::Integer(5))),
                        Pattern::Value(Value::Regex("r".to_string())),
                    ],
                    body: vec![],
                }],
            },
            point(0, 0)
        )]
    );
}

#[test]
fn parse_match_with_bodies_and_nesting() {
    let source = "match x {\n 1 { a: Text > \"A\" }\n * { match y { 2 { b: Text > \"B\" } } c: Text > \"C\" }\n}\nd: Text > \"D\"";
    assert_eq!(
        statements(source),
        vec![
            Node::new(
                Statement::Match {
                    identifier: "x".to_string(),
                    cases: vec![
                        MatchCase {
                            patterns: vec![Pattern::Value(Value::Number(NumberValue::Integer(1)))],
                            body: vec![Node::new(field("a", FieldType::Text, "A", None), point(1, 5))],
                        },
                        MatchCase {
                            patterns: vec![Pattern::Any],
                            body: vec![
                                Node::new(
                                    Statement::Match {
                                        identifier: "y".to_string(),
                                        cases: vec![MatchCase {
                                            patterns: vec![Pattern::Value(Value::Number(
                                                NumberValue::Integer(2)
                                            ))],
                                            body: vec![Node::new(
                                                field("b", FieldType::Text, "B", None),
                                                point(2, 19)
                                            )],
                                        }],
                                    },
                                    point(2, 5)
                                ),
                                Node::new(field("c", FieldType::Text, "C", None), point(2, 37)),
                            ],
                        },
                    ],
                },
                point(0, 0)
            ),
            Node::new(field("d", FieldType::Text, "D", None), point(4, 0)),
        ]
    );
}

#[test]
fn parse_match_two_patterns_without_separator() {
    assert_eq!(mistakes("match x { 1 2 { } }"), vec![unexpected("|", "Int 2", 0, 12)]);
}

#[test]
fn parse_match_separator_without_pattern() {
    assert_eq!(mistakes("match x { 1 | { } }"), vec![unexpected("Pattern", "symbol '{'", 0, 14)]);
    assert_eq!(mistakes("match x { | 1 { } }"), vec![unexpected("Pattern", "symbol '|'", 0, 10)]);
    assert_eq!(mistakes("match x { 1 || 2 { } }"), vec![unexpected("Pattern", "symbol '|'", 0, 13)]);
    assert_eq!(mistakes("match x { 1 | }"), vec![unexpected("Pattern", "symbol '}'", 0, 14)]);
}

#[test]
fn parse_match_body_without_pattern() {
    assert_eq!(mistakes("match x { { } }"), vec![unexpected("Pattern", "symbol '{'", 0, 10)]);
}

#[test]
fn parse_match_patterns_without_body_are_dropped() {
    assert_eq!(
        statements("match x { 1 }"),
        vec![Node::new(Statement::Match { identifier: "x".to_string(), cases: vec![] }, point(0, 0))]
    );
}

#[test]
fn parse_match_header_mistakes() {
    assert_eq!(mistakes("match"), vec![ended("Identifier", 0, 0)]);
    assert_eq!(mistakes("match 5"), vec![unexpected("Identifier", "Int 5", 0, 6)]);
    assert_eq!(mistakes("match x"), vec![ended("{", 0, 0)]);
    assert_eq!(mistakes("match x ;"), vec![unexpected("{", "symbol ';'", 0, 8)]);
}

#[test]
fn parse_match_gives_up_on_what_is_no_pattern() {
    assert_eq!(
        mistakes("match x { ; a: Text > \"A\" }"),
        vec![invalid("symbol ';'", 0, 10), invalid("symbol '}'", 0, 26)]
    );
}

#[test]
fn parse_unterminated_match() {
    assert_eq!(mistakes("match x { 1"), vec![ended("}", 0, 0)]);
}

#[test]
fn parse_unterminated_body() {
    assert_eq!(mistakes("match x { 1 {"), vec![ended("}", 0, 12), ended("}", 0, 0)]);
}

#[test]
fn parse_unterminated_body_keeps_its_own_errors_first() {
    assert_eq!(
        mistakes("match x { 1 { > "),
        vec![invalid("symbol '>'", 0, 14), ended("}", 0, 12), ended("}", 0, 0)]
    );
}

#[test]
fn parse_errors_inside_a_body_reach_the_top() {
    assert_eq!(
        mistakes("match x { 1 { a: Float > \"A\" } }\nb: Nope > \"B\""),
        vec![
            Error::Other {
                message: "Text, Integer, Decimal or Switch".to_string(),
                position: point(0, 14),
            },
            invalid("symbol '>'", 0, 23),
            invalid("\"A\"", 0, 25),
            Error::Other {
                message: "Text, Integer, Decimal or Switch".to_string(),
                position: point(1, 0),
            },
            invalid("symbol '>'", 1, 8),
            invalid("\"B\"", 1, 10),
        ]
    );
}

#[test]
fn parse_schema_does_not_start_on_failed_tokens() {
    assert_eq!(mistakes("x: Float > \"open"), vec![ended("\"", 0, 11)]);
}

#[test]
fn parse_environment_takes_tokens() {
    assert_eq!(
        parse_environment(lexed("x: Text > \"p\"")),
        Collection::Okay(vec![Node::new(field("x", FieldType::Text, "p", None), point(0, 0))])
    );
}

#[test]
fn read_validator_kinds() {
    let tokens = lexed("1..2 /r/ [\"a\"] x");
    assert_eq!(read_validator(&tokens, 0, point(0, 0)), (Some(Validator::Range(1, 2)), vec![], 1));
    assert_eq!(
        read_validator(&tokens, 1, point(0, 0)),
        (Some(Validator::Regex("r".to_string())), vec![], 2)
    );
    assert_eq!(
        read_validator(&tokens, 2, point(0, 0)),
        (Some(Validator::Switch(vec![words("a")])), vec![], 5)
    );
    assert_eq!(
        read_validator(&tokens, 5, point(0, 0)),
        (None, vec![unexpected("Range, Regex or [", "x", 0, 15)], 6)
    );
    assert_eq!(
        read_validator(&tokens, 6, point(7, 7)),
        (None, vec![ended("Range, Regex or [", 7, 7)], 6)
    );
}

#[test]
fn read_declaration_keeps_a_statement_beside_its_errors() {
    let tokens = lexed("x: Switch > \"Pick\" :: [\"a\",,\"b\"]");
    let read = read_declaration(&tokens, 1, "x".to_string(), point(0, 0));
    assert_eq!(
        read.0,
        Some(Node::new(
            field(
                "x",
                FieldType::Switch,
                "Pick",
                Some(Validator::Switch(vec![words("a"), words("b")]))
            ),
            point(0, 0)
        ))
    );
    assert_eq!(read.1, vec![unexpected("String", "symbol ','", 0, 27)]);
    assert_eq!(read.2, tokens.len());
}

#[test]
fn lookups_on_tokens() {
    let tokens = lexed(": x");
    assert!(is_symbol_at(&tokens, 0, ':'));
    assert!(!is_symbol_at(&tokens, 0, ';'));
    assert!(!is_symbol_at(&tokens, 1, ':'));
    assert!(!is_symbol_at(&tokens, 2, ':'));
    assert_eq!(mismatch_at(&tokens, 1, "Type", point(5, 5)), unexpected("Type", "x", 0, 2));
    assert_eq!(mismatch_at(&tokens, 2, "Type", point(5, 5)), ended("Type", 5, 5));
}

#[test]
fn read_statement_into_a_level() {
    let tokens = lexed("x: Text > \"p\" match y {");
    let mut level = ground();
    assert_eq!(read_statement(&tokens, 0, &mut level), 5);
    assert_eq!(read_statement(&tokens, 5, &mut level), 8);
    assert_eq!(
        level,
        Level {
            statements: Collection::Okay(vec![Node::new(
                field("x", FieldType::Text, "p", None),
                point(0, 0)
            )]),
            open: Some(OpenMatch {
                identifier: "y".to_string(),
                position: point(0, 14),
                cases: vec![],
                patterns: vec![],
                pattern_due: true,
            }),
            opened: point(0, 0),
        }
    );
}

#[test]
fn read_pattern_into_a_level() {
    let tokens = lexed("5 | {");
    let open = OpenMatch {
        identifier: "y".to_string(),
        position: point(0, 0),
        cases: vec![],
        patterns: vec![],
        pattern_due: true,
    };
    let mut level = ground();
    assert!(!read_pattern(&mut level, open, &tokens[0]));
    let open = level.open.take().unwrap();
    assert_eq!(open.patterns, vec![Pattern::Value(Value::Number(NumberValue::Integer(5)))]);
    assert!(!open.pattern_due);
    assert!(!read_pattern(&mut level, open, &tokens[1]));
    let open = level.open.take().unwrap();
    assert!(open.pattern_due);
    assert!(read_pattern(&mut level, open, &tokens[2]));
    assert_eq!(level.statements, Collection::Failed(vec![unexpected("Pattern", "symbol '{'", 0, 4)]));
}

#[test]
fn close_body_makes_an_arm() {
    let below = Level {
        statements: Collection::new(),
        open: Some(OpenMatch {
            identifier: "y".to_string(),
            position: point(0, 0),
            cases: vec![],
            patterns: vec![Pattern::Any],
            pattern_due: false,
        }),
        opened: point(0, 0),
    };
    let mut body = ground();
    body.statements.push(Node::new(field("x", FieldType::Text, "p", None), point(1, 1)));
    let level = close_body(below, body);
    assert_eq!(
        level.open,
        Some(OpenMatch {
            identifier: "y".to_string(),
            position: point(0, 0),
            cases: vec![MatchCase {
                patterns: vec![Pattern::Any],
                body: vec![Node::new(field("x", FieldType::Text, "p", None), point(1, 1))],
            }],
            patterns: vec![],
            pattern_due: true,
        })
    );
    assert!(level.statements.is_ok());
}

#[test]
fn read_step_and_finish() {
    let tokens = lexed("match y { * {");
    let mut levels = vec![ground()];
    let mut at = 0;
    while at < tokens.len() {
        at = read_step(&tokens, at, &mut levels);
    }
    assert_eq!(levels.len(), 2);
    assert_eq!(finish(levels), Collection::Failed(vec![ended("}", 0, 12), ended("}", 0, 0)]));
    assert_eq!(finish(vec![]), Collection::Okay(vec![]));
    assert_eq!(finish(vec![ground()]), Collection::Okay(vec![]));
}
