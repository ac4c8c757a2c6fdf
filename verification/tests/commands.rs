use plat::collection::Collection;
use plat::commands::{
    check_chain, clone_sources, clone_stack, find_modifier, is_symbol, parse_commands,
    read_block, read_pattern, read_source, submit, Chain, Command, Instruction, Modifier,
    ModifierKind, StringSource,
};
use plat::error::Error;
use plat::node::Node;
use plat::pipeline::{read_script, read_tokens};
use plat::position::Position;
use plat::token::Token;
use plat::value::{StringExpression, StringPart};

fn here(line: usize, column: usize) -> Position {
    Position { line, column }
}

fn text(value: &str) -> StringSource {
    StringSource::Expression(StringExpression {
        parts: vec![StringPart::Literal(value.to_string())],
    })
}

fn name(value: &str) -> StringSource {
    StringSource::Variable(value.to_string())
}

fn copy(source: Vec<StringSource>, target: Vec<StringSource>) -> Instruction {
    Instruction::Copy { source, target }
}

fn broken(message: &str, line: usize, column: usize) -> Error {
    Error::Other { message: message.to_string(), position: here(line, column) }
}

fn tokens(source: &str) -> Vec<Node<Token>> {
    read_tokens(source).into_result().unwrap()
}

fn instructions(source: &str) -> Vec<Instruction> {
    match read_script(source) {
        Collection::Okay(nodes) => nodes.into_iter().map(|node| node.data).collect(),
        Collection::Failed(errors) => panic!("unexpected errors: {:?}", errors),
    }
}

fn failures(source: &str) -> Vec<Error> {
    match read_script(source) {
        Collection::Okay(nodes) => panic!("unexpected instructions: {:?}", nodes),
        Collection::Failed(errors) => errors,
    }
}

#[test]
fn parse_copy_with_one_source_and_one_target() {
    assert_eq!(
        read_script("at \"a\" to \"b\" copy;"),
        Collection::Okay(vec![Node::new(copy(vec![text("a")], vec![text("b")]), here(0, 14))])
    );
}

#[test]
fn parse_copy_keeps_sources_in_order() {
    assert_eq!(
        instructions("at \"a\" at \"b\" to \"c\" copy;"),
        vec![copy(vec![text("a"), text("b")], vec![text("c")])]
    );
}

#[test]
fn parse_copy_does_not_merge_equal_sources() {
    assert_eq!(
        instructions("at \"a\" at \"a\" to \"c\" to \"c\" copy;"),
        vec![copy(vec![text("a"), text("a")], vec![text("c"), text("c")])]
    );
}

#[test]
fn parse_copy_without_at_is_one_error() {
    assert_eq!(
        read_script("to \"c\" copy;"),
        Collection::Failed(vec![broken("Copy command requires an 'at' modifier.", 0, 7)])
    );
}

#[test]
fn parse_copy_without_to() {
    assert_eq!(
        failures("at \"c\" copy;"),
        vec![broken("Copy command requires a 'to' modifier.", 0, 7)]
    );
}

#[test]
fn parse_copy_without_anything_reports_the_first_missing() {
    assert_eq!(failures("copy;"), vec![broken("Copy command requires an 'at' modifier.", 0, 0)]);
}

#[test]
fn parse_copy_may_stand_anywhere_in_the_chain() {
    assert_eq!(
        instructions("copy at \"a\" to \"b\";"),
        vec![copy(vec![text("a")], vec![text("b")])]
    );
}

#[test]
fn parse_sources_may_be_variables() {
    assert_eq!(
        instructions("at $src to $dst copy;"),
        vec![copy(vec![name("src")], vec![name("dst")])]
    );
}

#[test]
fn parse_write() {
    assert_eq!(
        read_script("for /x+/ to \"t\" write \"v\";"),
        Collection::Okay(vec![Node::new(
            Instruction::Write {
                value: text("v"),
                selector: "x+".to_string(),
                target: vec![text("t")],
            },
            here(0, 16)
        )])
    );
}

#[test]
fn parse_write_without_for() {
    assert_eq!(
        failures("to \"t\" write \"v\";"),
        vec![broken("Write command requires a 'for' modifier.", 0, 7)]
    );
}

#[test]
fn parse_write_without_to() {
    assert_eq!(
        failures("for /x/ write \"v\";"),
        vec![broken("Write command requires a 'to' modifier.", 0, 8)]
    );
}

#[test]
fn parse_write_under_at() {
    assert_eq!(
        failures("at \"a\" for /x/ to \"t\" write \"v\";"),
        vec![broken("Write command can only be used under 'for' and 'to' modifiers.", 0, 22)]
    );
}

#[test]
fn parse_copy_under_for() {
    assert_eq!(
        failures("at \"a\" to \"b\" for /x/ copy;"),
        vec![broken("Copy command can only be used under 'at' and 'to' modifiers.", 0, 22)]
    );
}

#[test]
fn parse_second_for_is_invalid() {
    assert_eq!(
        failures("for /a/ for /b/ to \"t\" write \"v\";"),
        vec![Error::Invalid { received: "for".to_string(), position: here(0, 8) }]
    );
}

#[test]
fn parse_second_command() {
    assert_eq!(
        failures("at \"a\" to \"b\" copy copy;"),
        vec![broken("Copy command can not be chained multiple times.", 0, 19)]
    );
    assert_eq!(
        failures("at \"a\" to \"b\" copy write \"v\";"),
        vec![
            broken("Write command can not be chained multiple times.", 0, 19),
            Error::Unexpected {
                expected: "Keyword".to_string(),
                received: "\"v\"".to_string(),
                position: here(0, 25),
            },
        ]
    );
}

#[test]
fn parse_chain_without_command() {
    assert_eq!(failures(";"), vec![broken("Chain does not contain an active command.", 0, 0)]);
    assert_eq!(
        failures("at \"a\";"),
        vec![broken("Chain does not contain an active command.", 0, 6)]
    );
}

#[test]
fn parse_unknown_keyword() {
    assert_eq!(
        failures("move;"),
        vec![
            Error::Unexpected {
                expected: "Keyword".to_string(),
                received: "move".to_string(),
                position: here(0, 0),
            },
            broken("Chain does not contain an active command.", 0, 4),
        ]
    );
}

#[test]
fn parse_what_is_no_keyword() {
    assert_eq!(
        failures("12 }"),
        vec![
            Error::Unexpected {
                expected: "Keyword".to_string(),
                received: "Int 12".to_string(),
                position: here(0, 0),
            },
            Error::Unexpected {
                expected: "Keyword".to_string(),
                received: "symbol '}'".to_string(),
                position: here(0, 3),
            },
        ]
    );
}

#[test]
fn parse_modifier_without_argument() {
    assert_eq!(
        failures("at"),
        vec![Error::EndOfFile {
            expected: "String or Identifier".to_string(),
            position: here(0, 0),
        }]
    );
    assert_eq!(
        failures("for"),
        vec![Error::EndOfFile { expected: "Regex".to_string(), position: here(0, 0) }]
    );
}

#[test]
fn parse_modifier_with_wrong_argument() {
    assert_eq!(
        failures("at 5 to \"b\" copy;"),
        vec![
            Error::Unexpected {
                expected: "String or Identifier".to_string(),
                received: "Int 5".to_string(),
                position: here(0, 3),
            },
            broken("Copy command requires an 'at' modifier.", 0, 12),
        ]
    );
    assert_eq!(
        failures("for \"x\""),
        vec![Error::Unexpected {
            expected: "Regex".to_string(),
            received: "\"x\"".to_string(),
            position: here(0, 4),
        }]
    );
}

#[test]
fn parse_chain_that_never_ends_is_dropped() {
    assert_eq!(read_script("at \"a\" to \"b\" copy"), Collection::Okay(vec![]));
    assert_eq!(read_script(""), Collection::Okay(vec![]));
}

#[test]
fn parse_scope_starts_each_statement_from_the_chain_before_it() {
    assert_eq!(
        instructions("at \"a\" { to \"b\" copy; to \"c\" copy; }"),
        vec![copy(vec![text("a")], vec![text("b")]), copy(vec![text("a")], vec![text("c")])]
    );
}

#[test]
fn parse_scope_statements_do_not_see_each_other() {
    assert_eq!(
        failures("{ at \"a\" to \"b\" copy; to \"c\" copy; }"),
        vec![broken("Copy command requires an 'at' modifier.", 0, 29)]
    );
}

#[test]
fn parse_scope_adds_to_the_modifiers_outside() {
    assert_eq!(
        instructions("at \"a\" to \"x\" { at \"b\" copy; }"),
        vec![copy(vec![text("a"), text("b")], vec![text("x")])]
    );
}

#[test]
fn parse_scope_may_carry_the_command() {
    assert_eq!(
        instructions("copy { at \"a\" to \"b\"; at \"c\" to \"d\"; }"),
        vec![copy(vec![text("a")], vec![text("b")]), copy(vec![text("c")], vec![text("d")])]
    );
}

#[test]
fn parse_scope_close_submits_a_pending_chain() {
    assert_eq!(
        instructions("at \"a\" to \"b\" { copy }"),
        vec![copy(vec![text("a")], vec![text("b")])]
    );
}

#[test]
fn parse_empty_scope_submits_nothing() {
    assert_eq!(read_script("at \"a\" to \"b\" copy { }"), Collection::Okay(vec![]));
}

#[test]
fn parse_nested_scopes() {
    assert_eq!(
        instructions("at \"a\" { to \"b\" { copy; } to \"c\" copy; } at \"z\" to \"y\" copy;"),
        vec![
            copy(vec![text("a")], vec![text("b")]),
            copy(vec![text("a")], vec![text("c")]),
            copy(vec![text("z")], vec![text("y")]),
        ]
    );
}

#[test]
fn parse_after_a_scope_the_chain_starts_over() {
    assert_eq!(
        failures("at \"a\" { to \"b\" copy; } to \"c\" copy;"),
        vec![broken("Copy command requires an 'at' modifier.", 0, 31)]
    );
}

#[test]
fn parse_unterminated_scope() {
    assert_eq!(
        failures("at \"a\" {"),
        vec![Error::EndOfFile { expected: "}".to_string(), position: here(0, 7) }]
    );
}

#[test]
fn parse_unterminated_scopes_innermost_first() {
    assert_eq!(
        failures("{ at \"a\" {"),
        vec![
            Error::EndOfFile { expected: "}".to_string(), position: here(0, 9) },
            Error::EndOfFile { expected: "}".to_string(), position: here(0, 0) },
        ]
    );
}

#[test]
fn parse_reports_every_mistake_in_one_pass() {
    assert_eq!(
        failures("to \"a\" copy; at \"b\" copy; at \"c\" to \"d\" copy;"),
        vec![
            broken("Copy command requires an 'at' modifier.", 0, 7),
            broken("Copy command requires a 'to' modifier.", 0, 20),
        ]
    );
}

#[test]
fn parse_does_not_start_on_failed_tokens() {
    assert_eq!(
        failures("to \"c\" copy; \"open"),
        vec![Error::EndOfFile { expected: "\"".to_string(), position: here(0, 13) }]
    );
}

#[test]
fn parse_commands_takes_tokens() {
    assert_eq!(
        parse_commands(tokens("at $a to $b copy;")),
        Collection::Okay(vec![Node::new(copy(vec![name("a")], vec![name("b")]), here(0, 12))])
    );
}

#[test]
fn chain_add_source_merges_by_kind() {
    let mut chain = Chain::new();
    assert_eq!(chain, Chain { stack: vec![], command: None });
    chain.add_source(ModifierKind::To, text("t"));
    chain.add_source(ModifierKind::At, text("a"));
    chain.add_source(ModifierKind::To, text("u"));
    chain.add_source(ModifierKind::At, name("b"));
    assert_eq!(
        chain.stack,
        vec![
            Modifier::To(vec![text("t"), text("u")]),
            Modifier::At(vec![text("a"), name("b")]),
        ]
    );
    assert_eq!(chain.clone(), chain);
}

#[test]
fn find_modifier_gives_the_first_of_its_kind() {
    let stack = vec![
        Modifier::To(vec![text("t")]),
        Modifier::For("x".to_string()),
        Modifier::To(vec![text("u")]),
    ];
    assert_eq!(find_modifier(&stack, ModifierKind::To), 0);
    assert_eq!(find_modifier(&stack, ModifierKind::For), 1);
    assert_eq!(find_modifier(&stack, ModifierKind::At), 3);
    assert_eq!(find_modifier(&vec![], ModifierKind::At), 0);
}

#[test]
fn modifier_kind_and_with() {
    assert_eq!(Modifier::At(vec![]).kind(), ModifierKind::At);
    assert_eq!(Modifier::To(vec![]).kind(), ModifierKind::To);
    assert_eq!(Modifier::For(String::new()).kind(), ModifierKind::For);
    assert_eq!(
        Modifier::At(vec![text("a")]).with(text("b")),
        Modifier::At(vec![text("a"), text("b")])
    );
    assert_eq!(Modifier::To(vec![]).with(name("b")), Modifier::To(vec![name("b")]));
    assert_eq!(Modifier::For("x".to_string()).with(name("b")), Modifier::For("x".to_string()));
}

#[test]
fn clones_are_equal() {
    let sources = vec![text("a"), name("b")];
    assert_eq!(clone_sources(&sources), sources);
    let stack = vec![Modifier::At(vec![text("a")]), Modifier::For("x".to_string())];
    assert_eq!(clone_stack(&stack), stack);
    let command = Command::Write(text("v"), here(1, 1));
    assert_eq!(command.clone(), command);
    assert_eq!(Command::Copy(here(2, 2)).clone(), Command::Copy(here(2, 2)));
}

#[test]
fn check_chain_builds_the_instruction() {
    let chain = Chain {
        stack: vec![Modifier::At(vec![text("a")]), Modifier::To(vec![text("b")])],
        command: Some(Command::Copy(here(3, 3))),
    };
    assert_eq!(
        check_chain(&chain, here(9, 9)),
        (Some(Node::new(copy(vec![text("a")], vec![text("b")]), here(3, 3))), vec![])
    );
}

#[test]
fn check_chain_reports_misuse_and_still_builds() {
    let chain = Chain {
        stack: vec![
            Modifier::At(vec![text("a")]),
            Modifier::For("x".to_string()),
            Modifier::To(vec![text("b")]),
        ],
        command: Some(Command::Copy(here(3, 3))),
    };
    assert_eq!(
        check_chain(&chain, here(9, 9)),
        (
            Some(Node::new(copy(vec![text("a")], vec![text("b")]), here(3, 3))),
            vec![broken("Copy command can only be used under 'at' and 'to' modifiers.", 3, 3)]
        )
    );
}

#[test]
fn check_chain_without_command_points_at_the_end_of_the_chain() {
    assert_eq!(
        check_chain(&Chain::new(), here(9, 9)),
        (None, vec![broken("Chain does not contain an active command.", 9, 9)])
    );
}

#[test]
fn submit_throws_then_pushes() {
    let chain = Chain {
        stack: vec![Modifier::At(vec![text("a")]), Modifier::To(vec![text("b")])],
        command: Some(Command::Copy(here(3, 3))),
    };
    let mut collection = Collection::new();
    submit(&mut collection, &chain, here(9, 9));
    submit(&mut collection, &Chain::new(), here(9, 9));
    submit(&mut collection, &chain, here(9, 9));
    assert_eq!(
        collection,
        Collection::Failed(vec![broken("Chain does not contain an active command.", 9, 9)])
    );
}

#[test]
fn read_block_and_its_parts() {
    let short = tokens("; x");
    assert!(is_symbol(&short, 0, ';'));
    assert!(!is_symbol(&short, 1, ';'));
    assert!(!is_symbol(&short, 2, ';'));
    let tokens = tokens("at \"a\" for /x/ copy 5");
    assert_eq!(read_source(&tokens, 1, here(0, 0)), Ok(text("a")));
    assert!(read_source(&tokens, 2, here(0, 0)).is_err());
    assert_eq!(read_pattern(&tokens, 3, here(0, 7)), Ok("x".to_string()));
    assert!(read_pattern(&tokens, 9, here(0, 7)).is_err());
    let mut chain = Chain::new();
    assert_eq!(read_block(&tokens, 0, &mut chain), (None, 2));
    assert_eq!(read_block(&tokens, 2, &mut chain), (None, 4));
    assert_eq!(read_block(&tokens, 4, &mut chain), (None, 5));
    let wrong = read_block(&tokens, 5, &mut chain);
    assert!(wrong.0.is_some());
    assert_eq!(wrong.1, 6);
    assert_eq!(
        chain,
        Chain {
            stack: vec![Modifier::At(vec![text("a")]), Modifier::For("x".to_string())],
            command: Some(Command::Copy(here(0, 15))),
        }
    );
}

#[test]
fn string_source_written_as_in_the_script() {
    assert_eq!(name("folder").written(), "$folder");
    assert_eq!(text("src/*.rs").written(), "src/*.rs");
    let mut mixed = StringExpression::new();
    mixed.push(StringPart::Literal("out/".to_string()));
    mixed.push(StringPart::Variable("name".to_string()));
    assert_eq!(StringSource::Expression(mixed).written(), "out/$name");
    assert_eq!(StringSource::Expression(StringExpression::new()).written(), "");
}
