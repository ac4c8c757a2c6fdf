//! The field and match grammar: typed field declarations with a prompt and
//! a validator, and `match` statements whose arms hold statements again.

use vstd::prelude::*;
use crate::collection::{lemma_keeps, Collection, CollectionView};
use crate::error::{option_view, Error, ErrorView};
use crate::node::{Node, NodeView};
use crate::position::Position;
use crate::text::same_text;
use crate::token::{Token, TokenView};
use crate::value::{StringExpression, StringPartView, Value, ValueView};

verus! {

/// The type of a field.
#[derive(Clone, Copy, Debug, PartialEq, Eq, Structural)]
pub enum FieldType {
    Text,
    Integer,
    Decimal,
    Switch,
}

/// The field type that `name` names, if it names one.
pub open spec fn field_type_of(name: Seq<char>) -> Option<FieldType> {
    if name == "Text"@ {
        Some(FieldType::Text)
    } else if name == "Integer"@ {
        Some(FieldType::Integer)
    } else if name == "Decimal"@ {
        Some(FieldType::Decimal)
    } else if name == "Switch"@ {
        Some(FieldType::Switch)
    } else {
        None
    }
}

impl FieldType {
    /// The field type that `name` names, if it names one.
    pub fn named(name: &str) -> (field_type: Option<FieldType>)
        ensures
            field_type == field_type_of(name@),
    {
        if same_text(name, "Text") {
            Some(FieldType::Text)
        } else if same_text(name, "Integer") {
            Some(FieldType::Integer)
        } else if same_text(name, "Decimal") {
            Some(FieldType::Decimal)
        } else if same_text(name, "Switch") {
            Some(FieldType::Switch)
        } else {
            None
        }
    }
}

/// A constraint on the answer to a field.
#[derive(Debug, PartialEq, Eq)]
pub enum Validator {
    /// A range of integers, both ends included.
    Range(i32, i32),
    /// A regular expression, kept as text.
    Regex(String),
    /// The options to choose from.
    Switch(Vec<StringExpression>),
}

/// The mathematical model of a [`Validator`].
pub enum ValidatorView {
    Range(i32, i32),
    Regex(Seq<char>),
    Switch(Seq<Seq<StringPartView>>),
}

impl DeepView for Validator {
    type V = ValidatorView;

    open spec fn deep_view(&self) -> ValidatorView {
        match self {
            Validator::Range(begin, end) => ValidatorView::Range(*begin, *end),
            Validator::Regex(pattern) => ValidatorView::Regex(pattern@),
            Validator::Switch(options) => ValidatorView::Switch(options.deep_view()),
        }
    }
}

/// What a match arm selects.
#[derive(Debug, PartialEq, Eq)]
pub enum Pattern {
    /// `*`: anything.
    Any,
    /// A name: anything, bound to the name.
    Variable(String),
    /// A literal.
    Value(Value),
}

/// The mathematical model of a [`Pattern`].
pub enum PatternView {
    Any,
    Variable(Seq<char>),
    Value(ValueView),
}

impl DeepView for Pattern {
    type V = PatternView;

    open spec fn deep_view(&self) -> PatternView {
        match self {
            Pattern::Any => PatternView::Any,
            Pattern::Variable(name) => PatternView::Variable(name@),
            Pattern::Value(value) => PatternView::Value(value.deep_view()),
        }
    }
}

/// One arm of a `match`: its patterns and the statements it holds.
#[derive(Debug, PartialEq, Eq)]
pub struct MatchCase {
    pub patterns: Vec<Pattern>,
    pub body: Vec<Node<Statement>>,
}

/// A statement of a field schema.
#[derive(Debug, PartialEq, Eq)]
pub enum Statement {
    Declaration {
        identifier: String,
        field_type: FieldType,
        prompt: StringExpression,
        validator: Option<Validator>,
    },
    Match { identifier: String, cases: Vec<MatchCase> },
}

/// The mathematical model of a [`MatchCase`].
pub struct MatchCaseView {
    pub patterns: Seq<PatternView>,
    pub body: Seq<NodeView<StatementView>>,
}

/// The mathematical model of a [`Statement`].
pub enum StatementView {
    Declaration {
        identifier: Seq<char>,
        field_type: FieldType,
        prompt: Seq<StringPartView>,
        validator: Option<ValidatorView>,
    },
    Match { identifier: Seq<char>, cases: Seq<MatchCaseView> },
}

/// The model of a statement.
pub open spec fn statement_view(statement: Statement) -> StatementView
    decreases statement,
{
    match statement {
        Statement::Declaration { identifier, field_type, prompt, validator } => {
            StatementView::Declaration {
                identifier: identifier@,
                field_type,
                prompt: prompt.deep_view(),
                validator: option_view(validator),
            }
        },
        Statement::Match { identifier, cases } => StatementView::Match {
            identifier: identifier@,
            cases: Seq::new(
                cases@.len(),
                |i: int|
                    if 0 <= i < cases@.len() {
                        case_view(cases@[i])
                    } else {
                        arbitrary()
                    },
            ),
        },
    }
}

/// The model of a statement with its position.
pub open spec fn node_view(node: Node<Statement>) -> NodeView<StatementView>
    decreases node,
{
    NodeView { data: statement_view(node.data), position: node.position }
}

/// The model of a match arm.
pub open spec fn case_view(case: MatchCase) -> MatchCaseView
    decreases case,
{
    MatchCaseView {
        patterns: case.patterns.deep_view(),
        body: Seq::new(
            case.body@.len(),
            |i: int|
                if 0 <= i < case.body@.len() {
                    node_view(case.body@[i])
                } else {
                    arbitrary()
                },
        ),
    }
}

impl DeepView for Statement {
    type V = StatementView;

    open spec fn deep_view(&self) -> StatementView {
        statement_view(*self)
    }
}

impl DeepView for MatchCase {
    type V = MatchCaseView;

    open spec fn deep_view(&self) -> MatchCaseView {
        case_view(*self)
    }
}

/// The model of a `match` is made of the models of its arms.
pub proof fn lemma_match_view(identifier: String, cases: Vec<MatchCase>)
    ensures
        (Statement::Match { identifier, cases }).deep_view() == (StatementView::Match {
            identifier: identifier@,
            cases: cases.deep_view(),
        }),
{
    let whole = Statement::Match { identifier, cases };
    assert(statement_view(whole)->cases =~= cases.deep_view());
}

/// The model of an arm is made of the models of its statements.
pub proof fn lemma_case_view(patterns: Vec<Pattern>, body: Vec<Node<Statement>>)
    ensures
        (MatchCase { patterns, body }).deep_view() == (MatchCaseView {
            patterns: patterns.deep_view(),
            body: body.deep_view(),
        }),
{
    let case = MatchCase { patterns, body };
    assert(case_view(case).body =~= body.deep_view());
}

/// True when the token at `at` is the symbol `ch`.
pub open spec fn symbol_at(tokens: Seq<NodeView<TokenView>>, at: int, ch: char) -> bool {
    0 <= at < tokens.len() && tokens[at].data == TokenView::Symbol(ch)
}

/// The error for a token that is not what the grammar asks for at `at`, or
/// for the end of the input there; the end is reported at `previous`.
pub open spec fn mismatch(
    tokens: Seq<NodeView<TokenView>>,
    at: int,
    expected: Seq<char>,
    previous: Position,
) -> ErrorView {
    if 0 <= at < tokens.len() {
        ErrorView::Unexpected {
            expected,
            received: tokens[at].data.describe(),
            position: tokens[at].position,
        }
    } else {
        ErrorView::EndOfFile { expected, position: previous }
    }
}

/// The index after the token at `at`, which is taken whatever it is; `at`
/// itself where the input has ended.
pub open spec fn after(tokens: Seq<NodeView<TokenView>>, at: int) -> int {
    if 0 <= at < tokens.len() {
        at + 1
    } else {
        at
    }
}

/// The name that a token gives where the grammar asks for an identifier: that
/// of an identifier, or a bare word.
pub open spec fn name_of(token: TokenView) -> Option<Seq<char>> {
    match token {
        TokenView::Identifier(name) => Some(name),
        TokenView::Segment(name) => Some(name),
        _ => None,
    }
}

/// The pattern that a token writes, if it writes one: `*`, a name or a
/// literal.
pub open spec fn pattern_of(token: TokenView) -> Option<PatternView> {
    match token {
        TokenView::Symbol(ch) => if ch == '*' {
            Some(PatternView::Any)
        } else {
            None
        },
        TokenView::Identifier(name) => Some(PatternView::Variable(name)),
        TokenView::Segment(name) => Some(PatternView::Variable(name)),
        TokenView::Value(value) => Some(PatternView::Value(value)),
    }
}

/// The rest of a list of switch options, read from the token at `at` on,
/// with the options and the errors gathered so far, and whether a comma is
/// due. The result is every option, every error, and the index after the
/// closing `]`.
///
/// Options and commas alternate. What stands in the wrong place is an error
/// of its own and reading goes on, so a list with a mistake in it still
/// gives its valid options. A comma before the `]` is accepted; one at the
/// start or after another comma is not.
pub open spec fn options_from(
    tokens: Seq<NodeView<TokenView>>,
    at: int,
    options: Seq<Seq<StringPartView>>,
    errors: Seq<ErrorView>,
    comma_due: bool,
    opened: Position,
) -> (Seq<Seq<StringPartView>>, Seq<ErrorView>, int)
    decreases tokens.len() - at,
{
    if at < 0 || at >= tokens.len() {
        (
            options,
            errors.push(ErrorView::EndOfFile { expected: "]"@, position: opened }),
            tokens.len() as int,
        )
    } else {
        let position = tokens[at].position;
        match tokens[at].data {
            TokenView::Symbol(ch) => if ch == ']' {
                (options, errors, at + 1)
            } else if ch == ',' {
                if comma_due {
                    options_from(tokens, at + 1, options, errors, false, opened)
                } else {
                    options_from(
                        tokens,
                        at + 1,
                        options,
                        errors.push(
                            ErrorView::Unexpected {
                                expected: "String"@,
                                received: tokens[at].data.describe(),
                                position,
                            },
                        ),
                        false,
                        opened,
                    )
                }
            } else {
                options_from(
                    tokens,
                    at + 1,
                    options,
                    errors.push(
                        ErrorView::Unexpected {
                            expected: "String"@,
                            received: tokens[at].data.describe(),
                            position,
                        },
                    ),
                    comma_due,
                    opened,
                )
            },
            TokenView::Value(ValueView::String(parts)) => if comma_due {
                options_from(
                    tokens,
                    at + 1,
                    options,
                    errors.push(
                        ErrorView::Unexpected {
                            expected: ","@,
                            received: tokens[at].data.describe(),
                            position,
                        },
                    ),
                    comma_due,
                    opened,
                )
            } else {
                options_from(tokens, at + 1, options.push(parts), errors, true, opened)
            },
            other => options_from(
                tokens,
                at + 1,
                options,
                errors.push(
                    ErrorView::Unexpected {
                        expected: "String"@,
                        received: other.describe(),
                        position,
                    },
                ),
                comma_due,
                opened,
            ),
        }
    }
}

/// The validator that follows a `::`, read from the token at `at`: a range,
/// a regular expression, or a list of switch options between `[` and `]`.
/// The result is the validator if there is one, the errors met, and the
/// index after it.
pub open spec fn validator_at(tokens: Seq<NodeView<TokenView>>, at: int, previous: Position) -> (
    Option<ValidatorView>,
    Seq<ErrorView>,
    int,
) {
    if at < 0 || at >= tokens.len() {
        (None, seq![mismatch(tokens, at, "Range, Regex or ["@, previous)], at)
    } else {
        match tokens[at].data {
            TokenView::Value(ValueView::Range(range)) => (
                Some(ValidatorView::Range(range.begin, range.end)),
                Seq::empty(),
                at + 1,
            ),
            TokenView::Value(ValueView::Regex(pattern)) => (
                Some(ValidatorView::Regex(pattern)),
                Seq::empty(),
                at + 1,
            ),
            other => if other == TokenView::Symbol('[') {
                let read = options_from(
                    tokens,
                    at + 1,
                    Seq::empty(),
                    Seq::empty(),
                    false,
                    tokens[at].position,
                );
                (Some(ValidatorView::Switch(read.0)), read.1, read.2)
            } else {
                (None, seq![mismatch(tokens, at, "Range, Regex or ["@, previous)], at + 1)
            },
        }
    }
}

/// A field declaration, read from the token after its identifier on:
/// `:`, a type name, `>`, a prompt and, after `::`, a validator. The result
/// is the declaration if it is complete, the errors met, and the index
/// after it. What does not fit is taken and ends the declaration.
pub open spec fn declaration_after(
    tokens: Seq<NodeView<TokenView>>,
    at: int,
    identifier: Seq<char>,
    position: Position,
) -> (Option<NodeView<StatementView>>, Seq<ErrorView>, int) {
    if !symbol_at(tokens, at, ':') {
        (None, seq![mismatch(tokens, at, ":"@, position)], after(tokens, at))
    } else if !(at + 1 < tokens.len() && tokens[at + 1].data is Segment) {
        (None, seq![mismatch(tokens, at + 1, "Type"@, position)], after(tokens, at + 1))
    } else if field_type_of(tokens[at + 1].data->Segment_0) is None {
        (
            None,
            seq![
                ErrorView::Other { message: "Text, Integer, Decimal or Switch"@, position },
            ],
            at + 2,
        )
    } else if !symbol_at(tokens, at + 2, '>') {
        (None, seq![mismatch(tokens, at + 2, ">"@, position)], after(tokens, at + 2))
    } else if !(at + 3 < tokens.len() && tokens[at + 3].data matches TokenView::Value(
        ValueView::String(_),
    )) {
        (None, seq![mismatch(tokens, at + 3, "String"@, position)], after(tokens, at + 3))
    } else {
        let validated = if symbol_at(tokens, at + 4, ':') && symbol_at(tokens, at + 5, ':') {
            validator_at(tokens, at + 6, position)
        } else {
            (None, Seq::empty(), at + 4)
        };
        (
            Some(
                NodeView {
                    data: StatementView::Declaration {
                        identifier,
                        field_type: field_type_of(tokens[at + 1].data->Segment_0)->0,
                        prompt: tokens[at + 3].data->Value_0->String_0,
                        validator: validated.0,
                    },
                    position,
                },
            ),
            validated.1,
            validated.2,
        )
    }
}

/// A `match` that is being read: its identifier, the position of its
/// keyword, the arms that are complete, the patterns of the arm that is
/// open, and whether a pattern is due next.
#[derive(Debug, PartialEq, Eq)]
pub struct OpenMatch {
    pub identifier: String,
    pub position: Position,
    pub cases: Vec<MatchCase>,
    pub patterns: Vec<Pattern>,
    pub pattern_due: bool,
}

/// The mathematical model of an [`OpenMatch`].
pub struct OpenMatchView {
    pub identifier: Seq<char>,
    pub position: Position,
    pub cases: Seq<MatchCaseView>,
    pub patterns: Seq<PatternView>,
    pub pattern_due: bool,
}

impl DeepView for OpenMatch {
    type V = OpenMatchView;

    open spec fn deep_view(&self) -> OpenMatchView {
        OpenMatchView {
            identifier: self.identifier@,
            position: self.position,
            cases: self.cases.deep_view(),
            patterns: self.patterns.deep_view(),
            pattern_due: self.pattern_due,
        }
    }
}

/// One level of nesting: the statements gathered at this level, the `match`
/// that is open in it if one is, and, for the body of a match arm, the
/// position of its `{`. The outermost level is the document itself.
#[derive(Debug, PartialEq, Eq)]
pub struct Level {
    pub statements: Collection<Statement>,
    pub open: Option<OpenMatch>,
    pub opened: Position,
}

/// The mathematical model of a [`Level`].
pub struct LevelView {
    pub statements: CollectionView<StatementView>,
    pub open: Option<OpenMatchView>,
    pub opened: Position,
}

impl DeepView for Level {
    type V = LevelView;

    open spec fn deep_view(&self) -> LevelView {
        LevelView {
            statements: self.statements.deep_view(),
            open: option_view(self.open),
            opened: self.opened,
        }
    }
}

impl LevelView {
    /// The level with `error` thrown into its statements.
    pub open spec fn throw(self, error: ErrorView) -> LevelView {
        LevelView { statements: self.statements.throw(error), open: self.open, opened: self.opened }
    }

    /// The level after a statement was read: its errors are thrown, then
    /// the statement is pushed, if there is one.
    pub open spec fn deliver(
        self,
        statement: Option<NodeView<StatementView>>,
        errors: Seq<ErrorView>,
    ) -> LevelView {
        let failed = self.statements.throw_each(errors);
        LevelView {
            statements: match statement {
                Some(node) => failed.push(node),
                None => failed,
            },
            open: self.open,
            opened: self.opened,
        }
    }

    /// The level with another `match` open, or none.
    pub open spec fn with_open(self, open: Option<OpenMatchView>) -> LevelView {
        LevelView { statements: self.statements, open, opened: self.opened }
    }
}

/// The level below after the body on top of it is closed: the errors of the
/// body join those of the level below, and its statements, none if it
/// failed, become the body of a new arm with the patterns that were open.
pub open spec fn closed_into(below: LevelView, body: LevelView) -> LevelView {
    LevelView {
        statements: below.statements.throw_each(body.statements.errors()),
        open: match below.open {
            Some(open) => Some(
                OpenMatchView {
                    identifier: open.identifier,
                    position: open.position,
                    cases: open.cases.push(
                        MatchCaseView { patterns: open.patterns, body: body.statements.nodes() },
                    ),
                    patterns: Seq::empty(),
                    pattern_due: true,
                },
            ),
            None => None,
        },
        opened: below.opened,
    }
}

/// What a token does to a level in which a `match` is open; the second part
/// of the result is true when the token opens the body of an arm.
///
/// `}` ends the match and pushes it; `{` opens the body of an arm; patterns
/// and `|` alternate, and what stands in the wrong place is unexpected. A
/// token that is no pattern at all is invalid and gives the match up.
pub open spec fn pattern_step(level: LevelView, open: OpenMatchView, token: NodeView<TokenView>)
    -> (LevelView, bool) {
    let position = token.position;
    let missing = ErrorView::Unexpected {
        expected: "Pattern"@,
        received: token.data.describe(),
        position,
    };
    if token.data == TokenView::Symbol('}') {
        let checked = if open.patterns.len() > 0 && open.pattern_due {
            level.throw(missing)
        } else {
            level
        };
        (
            LevelView {
                statements: checked.statements.push(
                    NodeView {
                        data: StatementView::Match {
                            identifier: open.identifier,
                            cases: open.cases,
                        },
                        position: open.position,
                    },
                ),
                open: None,
                opened: level.opened,
            },
            false,
        )
    } else if token.data == TokenView::Symbol('{') {
        (
            if open.pattern_due {
                level.throw(missing).with_open(Some(open))
            } else {
                level.with_open(Some(open))
            },
            true,
        )
    } else if token.data == TokenView::Symbol('|') {
        if open.pattern_due {
            (level.throw(missing).with_open(Some(open)), false)
        } else {
            (
                level.with_open(
                    Some(
                        OpenMatchView {
                            identifier: open.identifier,
                            position: open.position,
                            cases: open.cases,
                            patterns: open.patterns,
                            pattern_due: true,
                        },
                    ),
                ),
                false,
            )
        }
    } else {
        match pattern_of(token.data) {
            Some(pattern) => if open.pattern_due {
                (
                    level.with_open(
                        Some(
                            OpenMatchView {
                                identifier: open.identifier,
                                position: open.position,
                                cases: open.cases,
                                patterns: open.patterns.push(pattern),
                                pattern_due: false,
                            },
                        ),
                    ),
                    false,
                )
            } else {
                (
                    level.throw(
                        ErrorView::Unexpected {
                            expected: "|"@,
                            received: token.data.describe(),
                            position,
                        },
                    ).with_open(Some(open)),
                    false,
                )
            },
            None => (
                level.throw(
                    ErrorView::Invalid { received: token.data.describe(), position },
                ).with_open(None),
                false,
            ),
        }
    }
}

/// What the tokens from `at` on do to a level in which no `match` is open,
/// where the token at `at` begins a statement: the level after the
/// statement, and the index after it.
///
/// `match`, an identifier and `{` open a match; any other name begins a
/// field declaration; anything else is invalid and takes one token.
pub open spec fn statement_step(tokens: Seq<NodeView<TokenView>>, at: int, level: LevelView) -> (
    LevelView,
    int,
) {
    let position = tokens[at].position;
    if tokens[at].data == TokenView::Segment("match"@) {
        if !(at + 1 < tokens.len() && name_of(tokens[at + 1].data) is Some) {
            (level.throw(mismatch(tokens, at + 1, "Identifier"@, position)), after(tokens, at + 1))
        } else if !symbol_at(tokens, at + 2, '{') {
            (level.throw(mismatch(tokens, at + 2, "{"@, position)), after(tokens, at + 2))
        } else {
            (
                level.with_open(
                    Some(
                        OpenMatchView {
                            identifier: name_of(tokens[at + 1].data)->0,
                            position,
                            cases: Seq::empty(),
                            patterns: Seq::empty(),
                            pattern_due: true,
                        },
                    ),
                ),
                at + 3,
            )
        }
    } else {
        match name_of(tokens[at].data) {
            Some(identifier) => {
                let read = declaration_after(tokens, at + 1, identifier, position);
                (level.deliver(read.0, read.1), read.2)
            },
            None => (
                level.throw(
                    ErrorView::Invalid { received: tokens[at].data.describe(), position },
                ),
                at + 1,
            ),
        }
    }
}

/// What the token at `at` and those that belong with it do to the levels
/// that are open, and the index after them.
pub open spec fn step_at(tokens: Seq<NodeView<TokenView>>, at: int, levels: Seq<LevelView>) -> (
    Seq<LevelView>,
    int,
) {
    let top = levels.last();
    let rest = levels.drop_last();
    match top.open {
        Some(open) => {
            let stepped = pattern_step(top, open, tokens[at]);
            (
                if stepped.1 {
                    rest.push(stepped.0).push(
                        LevelView {
                            statements: CollectionView::empty(),
                            open: None,
                            opened: tokens[at].position,
                        },
                    )
                } else {
                    rest.push(stepped.0)
                },
                at + 1,
            )
        },
        None => if tokens[at].data == TokenView::Symbol('}') && levels.len() > 1 {
            (rest.drop_last().push(closed_into(rest.last(), top)), at + 1)
        } else {
            let stepped = statement_step(tokens, at, top);
            (rest.push(stepped.0), stepped.1)
        },
    }
}

/// The statements of the document once the input has ended with `levels`
/// open: every open match and every open body is an error, the innermost
/// first, and the errors of a body join those of the level below it.
pub open spec fn at_end(levels: Seq<LevelView>) -> CollectionView<StatementView>
    decreases levels.len(),
{
    if levels.len() == 0 {
        CollectionView::empty()
    } else {
        let top = levels.last();
        let own = match top.open {
            Some(open) => top.statements.throw(
                ErrorView::EndOfFile { expected: "}"@, position: open.position },
            ),
            None => top.statements,
        };
        if levels.len() == 1 {
            own
        } else {
            let below = levels[levels.len() - 2];
            at_end(
                levels.drop_last().drop_last().push(
                    LevelView {
                        statements: below.statements.throw_each(own.errors()).throw(
                            ErrorView::EndOfFile { expected: "}"@, position: top.opened },
                        ),
                        open: below.open,
                        opened: below.opened,
                    },
                ),
            )
        }
    }
}

/// A list of switch options ends after the place where its rest began.
pub proof fn lemma_options_advance(
    tokens: Seq<NodeView<TokenView>>,
    at: int,
    options: Seq<Seq<StringPartView>>,
    errors: Seq<ErrorView>,
    comma_due: bool,
    opened: Position,
)
    requires
        0 <= at <= tokens.len(),
    ensures
        at <= options_from(tokens, at, options, errors, comma_due, opened).2 <= tokens.len(),
    decreases tokens.len() - at,
{
    if at < tokens.len() {
        let position = tokens[at].position;
        match tokens[at].data {
            TokenView::Symbol(ch) => {
                if ch == ']' {
                } else if ch == ',' {
                    if comma_due {
                        lemma_options_advance(tokens, at + 1, options, errors, false, opened);
                    } else {
                        lemma_options_advance(
                            tokens,
                            at + 1,
                            options,
                            errors.push(
                                ErrorView::Unexpected {
                                    expected: "String"@,
                                    received: tokens[at].data.describe(),
                                    position,
                                },
                            ),
                            false,
                            opened,
                        );
                    }
                } else {
                    lemma_options_advance(
                        tokens,
                        at + 1,
                        options,
                        errors.push(
                            ErrorView::Unexpected {
                                expected: "String"@,
                                received: tokens[at].data.describe(),
                                position,
                            },
                        ),
                        comma_due,
                        opened,
                    );
                }
            },
            TokenView::Value(ValueView::String(parts)) => {
                if comma_due {
                    lemma_options_advance(
                        tokens,
                        at + 1,
                        options,
                        errors.push(
                            ErrorView::Unexpected {
                                expected: ","@,
                                received: tokens[at].data.describe(),
                                position,
                            },
                        ),
                        comma_due,
                        opened,
                    );
                } else {
                    lemma_options_advance(
                        tokens,
                        at + 1,
                        options.push(parts),
                        errors,
                        true,
                        opened,
                    );
                }
            },
            other => {
                lemma_options_advance(
                    tokens,
                    at + 1,
                    options,
                    errors.push(
                        ErrorView::Unexpected {
                            expected: "String"@,
                            received: other.describe(),
                            position,
                        },
                    ),
                    comma_due,
                    opened,
                );
            },
        }
    }
}

/// Every step takes at least one token, so the parser always moves on.
pub proof fn lemma_step_advances(
    tokens: Seq<NodeView<TokenView>>,
    at: int,
    levels: Seq<LevelView>,
)
    requires
        0 <= at < tokens.len(),
        levels.len() > 0,
    ensures
        at < step_at(tokens, at, levels).1 <= tokens.len(),
        step_at(tokens, at, levels).0.len() > 0,
{
    let top = levels.last();
    if top.open is None && !(tokens[at].data == TokenView::Symbol('}') && levels.len() > 1) {
        if tokens[at].data != TokenView::Segment("match"@) && name_of(tokens[at].data) is Some {
            if symbol_at(tokens, at + 5, ':') && symbol_at(tokens, at + 6, ':') && at + 7
                < tokens.len() && tokens[at + 7].data == TokenView::Symbol('[') {
                lemma_options_advance(
                    tokens,
                    at + 8,
                    Seq::empty(),
                    Seq::empty(),
                    false,
                    tokens[at + 7].position,
                );
            }
        }
    }
}

/// The statements of the document, read from the token at `at` on with
/// `levels` open.
pub open spec fn environment_from(
    tokens: Seq<NodeView<TokenView>>,
    at: int,
    levels: Seq<LevelView>,
) -> CollectionView<StatementView>
    decreases tokens.len() - at,
{
    if at < 0 || at >= tokens.len() || levels.len() == 0 {
        at_end(levels)
    } else {
        proof {
            lemma_step_advances(tokens, at, levels);
        }
        let step = step_at(tokens, at, levels);
        environment_from(tokens, step.1, step.0)
    }
}

/// A statement that stands for any other where only errors matter.
spec fn any_node() -> NodeView<StatementView> {
    NodeView {
        data: StatementView::Match { identifier: Seq::empty(), cases: Seq::empty() },
        position: Position { line: 0, column: 0 },
    }
}

/// A token in a level with an open match keeps every error of the level.
proof fn lemma_pattern_keeps(level: LevelView, open: OpenMatchView, token: NodeView<TokenView>)
    ensures
        pattern_step(level, open, token).0.statements.keeps(level.statements),
{
    let position = token.position;
    let missing = ErrorView::Unexpected {
        expected: "Pattern"@,
        received: token.data.describe(),
        position,
    };
    let separator = ErrorView::Unexpected {
        expected: "|"@,
        received: token.data.describe(),
        position,
    };
    let invalid = ErrorView::Invalid { received: token.data.describe(), position };
    let whole = NodeView {
        data: StatementView::Match { identifier: open.identifier, cases: open.cases },
        position: open.position,
    };
    lemma_keeps(level.statements, whole, missing, Seq::empty());
    lemma_keeps(level.statements, whole, separator, Seq::empty());
    lemma_keeps(level.statements, whole, invalid, Seq::empty());
    lemma_keeps(level.statements.throw(missing), whole, missing, Seq::empty());
}

/// A statement keeps every error of the level it is read into.
proof fn lemma_statement_keeps(tokens: Seq<NodeView<TokenView>>, at: int, level: LevelView)
    requires
        0 <= at < tokens.len(),
    ensures
        statement_step(tokens, at, level).0.statements.keeps(level.statements),
{
    let position = tokens[at].position;
    let first = level.statements;
    lemma_keeps(first, any_node(), mismatch(tokens, at + 1, "Identifier"@, position), Seq::empty());
    lemma_keeps(first, any_node(), mismatch(tokens, at + 2, "{"@, position), Seq::empty());
    lemma_keeps(
        first,
        any_node(),
        ErrorView::Invalid { received: tokens[at].data.describe(), position },
        Seq::empty(),
    );
    if tokens[at].data != TokenView::Segment("match"@) && name_of(tokens[at].data) is Some {
        let read = declaration_after(tokens, at + 1, name_of(tokens[at].data)->0, position);
        lemma_keeps(first, any_node(), mismatch(tokens, at, ":"@, position), read.1);
        lemma_keeps(
            first.throw_each(read.1),
            read.0->0,
            mismatch(tokens, at, ":"@, position),
            read.1,
        );
    }
}

/// One step keeps every error of the document.
proof fn lemma_step_keeps(tokens: Seq<NodeView<TokenView>>, at: int, levels: Seq<LevelView>)
    requires
        0 <= at < tokens.len(),
        levels.len() > 0,
    ensures
        step_at(tokens, at, levels).0.len() > 0,
        step_at(tokens, at, levels).0[0].statements.keeps(levels[0].statements),
{
    let top = levels.last();
    let rest = levels.drop_last();
    let first = levels[0].statements;
    lemma_keeps(first, any_node(), mismatch(tokens, at, ":"@, top.opened), top.statements.errors());
    match top.open {
        Some(open) => {
            lemma_pattern_keeps(top, open, tokens[at]);
        },
        None => {
            if tokens[at].data == TokenView::Symbol('}') && levels.len() > 1 {
                if levels.len() == 2 {
                    assert(rest.last() == levels[0]);
                }
            } else {
                lemma_statement_keeps(tokens, at, top);
            }
        },
    }
}

/// The end of the input keeps every error of the document.
proof fn lemma_end_keeps(levels: Seq<LevelView>)
    requires
        levels.len() > 0,
    ensures
        at_end(levels).keeps(levels[0].statements),
    decreases levels.len(),
{
    let top = levels.last();
    let closing = ErrorView::EndOfFile { expected: "}"@, position: top.opened };
    let own = match top.open {
        Some(open) => top.statements.throw(
            ErrorView::EndOfFile { expected: "}"@, position: open.position },
        ),
        None => top.statements,
    };
    lemma_keeps(
        top.statements,
        any_node(),
        ErrorView::EndOfFile { expected: "}"@, position: top.open->0.position },
        Seq::empty(),
    );
    if levels.len() > 1 {
        let below = levels[levels.len() - 2];
        let merged = below.statements.throw_each(own.errors());
        let shorter = levels.drop_last().drop_last().push(
            LevelView { statements: merged.throw(closing), open: below.open, opened: below.opened },
        );
        lemma_end_keeps(shorter);
        lemma_keeps(below.statements, any_node(), closing, own.errors());
        lemma_keeps(merged, any_node(), closing, own.errors());
        lemma_keeps(levels[0].statements, any_node(), closing, own.errors());
        assert(shorter[0].statements.keeps(levels[0].statements));
    }
}

/// The parser never forgets an error: once the document has failed it is
/// still failed when every token is read, and the errors it held come first
/// in the result.
pub proof fn lemma_environment_keeps_errors(
    tokens: Seq<NodeView<TokenView>>,
    at: int,
    levels: Seq<LevelView>,
)
    requires
        levels.len() > 0,
    ensures
        environment_from(tokens, at, levels).keeps(levels[0].statements),
    decreases tokens.len() - at,
{
    if at < 0 || at >= tokens.len() {
        lemma_end_keeps(levels);
    } else {
        lemma_step_advances(tokens, at, levels);
        lemma_step_keeps(tokens, at, levels);
        let step = step_at(tokens, at, levels);
        lemma_environment_keeps_errors(tokens, step.1, step.0);
        lemma_keeps(
            levels[0].statements,
            any_node(),
            mismatch(tokens, at, ":"@, levels[0].opened),
            Seq::empty(),
        );
    }
}

/// The level that a document starts with.
pub open spec fn ground() -> LevelView {
    LevelView {
        statements: CollectionView::empty(),
        open: None,
        opened: Position { line: 0, column: 0 },
    }
}

/// The statements of a field schema, or the errors met while reading it.
pub open spec fn environment_of(tokens: Seq<NodeView<TokenView>>) -> CollectionView<
    StatementView,
> {
    environment_from(tokens, 0, seq![ground()])
}

/// True when the token at `at` is the symbol `ch`.
pub fn is_symbol_at(tokens: &Vec<Node<Token>>, at: usize, ch: char) -> (answer: bool)
    ensures
        answer == symbol_at(tokens.deep_view(), at as int, ch),
{
    if at >= tokens.len() {
        return false;
    }
    assert(tokens.deep_view()[at as int] == tokens[at as int].deep_view());
    match &tokens[at].data {
        Token::Symbol(symbol) => *symbol == ch,
        _ => false,
    }
}

/// The error for what stands at `at` in place of `expected`.
pub fn mismatch_at(
    tokens: &Vec<Node<Token>>,
    at: usize,
    expected: &str,
    previous: Position,
) -> (error: Error)
    ensures
        error.deep_view() == mismatch(tokens.deep_view(), at as int, expected@, previous),
{
    if at < tokens.len() {
        assert(tokens.deep_view()[at as int] == tokens[at as int].deep_view());
        let received = tokens[at].data.describe();
        Error::unexpected(expected, received.as_str(), tokens[at].position)
    } else {
        Error::end_of_file(expected, previous)
    }
}

/// The index after the token at `at`, if there is one.
fn step_over(tokens: &Vec<Node<Token>>, at: usize) -> (next: usize)
    requires
        at <= tokens.len(),
    ensures
        next == after(tokens.deep_view(), at as int),
        at <= next <= tokens.len(),
{
    if at < tokens.len() {
        at + 1
    } else {
        at
    }
}

/// The name that the token gives where an identifier is asked for.
fn name_in(token: &Token) -> (name: Option<String>)
    ensures
        match name {
            Some(text) => Some(text@),
            None => None,
        } == name_of(token.deep_view()),
{
    match token {
        Token::Identifier(name) => Some(name.clone()),
        Token::Segment(name) => Some(name.clone()),
        _ => None,
    }
}

/// The pattern that the token writes.
fn pattern_in(token: &Token) -> (pattern: Option<Pattern>)
    ensures
        option_view(pattern) == pattern_of(token.deep_view()),
{
    match token {
        Token::Symbol(ch) => if *ch == '*' {
            Some(Pattern::Any)
        } else {
            None
        },
        Token::Identifier(name) => Some(Pattern::Variable(name.clone())),
        Token::Segment(name) => Some(Pattern::Variable(name.clone())),
        Token::Value(value) => Some(Pattern::Value(value.clone())),
    }
}

/// One error on top of the errors gathered so far.
fn note(errors: &mut Vec<Error>, error: Error)
    ensures
        final(errors).deep_view() == old(errors).deep_view().push(error.deep_view()),
{
    let ghost before = errors.deep_view();
    errors.push(error);
    assert(errors.deep_view() =~= before.push(error.deep_view()));
}

/// A list that holds the one error `error`.
fn only(error: Error) -> (errors: Vec<Error>)
    ensures
        errors.deep_view() == seq![error.deep_view()],
{
    let mut errors: Vec<Error> = Vec::new();
    errors.push(error);
    assert(errors.deep_view() =~= seq![error.deep_view()]);
    errors
}

/// A list without errors.
fn none() -> (errors: Vec<Error>)
    ensures
        errors.deep_view() == Seq::<ErrorView>::empty(),
{
    let errors: Vec<Error> = Vec::new();
    assert(errors.deep_view() =~= Seq::<ErrorView>::empty());
    errors
}

/// Reads a list of switch options, from the token after its `[` on.
pub fn collect_switch_options(tokens: &Vec<Node<Token>>, from: usize, opened: Position) -> (read: (
    Vec<StringExpression>,
    Vec<Error>,
    usize,
))
    requires
        from <= tokens.len(),
    ensures
        (read.0.deep_view(), read.1.deep_view(), read.2 as int) == options_from(
            tokens.deep_view(),
            from as int,
            Seq::empty(),
            Seq::empty(),
            false,
            opened,
        ),
        from <= read.2 <= tokens.len(),
{
    let mut options: Vec<StringExpression> = Vec::new();
    let mut errors: Vec<Error> = none();
    let mut comma_due = false;
    let mut i: usize = from;
    let ghost all = tokens.deep_view();
    let ghost whole = options_from(all, from as int, Seq::empty(), Seq::empty(), false, opened);
    assert(options.deep_view() =~= Seq::<Seq<StringPartView>>::empty());
    proof {
        lemma_options_advance(all, from as int, Seq::empty(), Seq::empty(), false, opened);
    }
    while i < tokens.len()
        invariant
            from <= i <= tokens.len(),
            all == tokens.deep_view(),
            from <= whole.2 <= tokens.len(),
            whole == options_from(all, from as int, Seq::empty(), Seq::empty(), false, opened),
            options_from(all, i as int, options.deep_view(), errors.deep_view(), comma_due, opened)
                == whole,
        decreases tokens.len() - i,
    {
        assert(all[i as int] == tokens[i as int].deep_view());
        let position = tokens[i].position;
        match &tokens[i].data {
            Token::Symbol(ch) => {
                if *ch == ']' {
                    return (options, errors, i + 1);
                } else if *ch == ',' {
                    if !comma_due {
                        let received = tokens[i].data.describe();
                        note(&mut errors, Error::unexpected("String", received.as_str(), position));
                    }
                    comma_due = false;
                } else {
                    let received = tokens[i].data.describe();
                    note(&mut errors, Error::unexpected("String", received.as_str(), position));
                }
            },
            Token::Value(Value::String(expression)) => {
                if comma_due {
                    let received = tokens[i].data.describe();
                    note(&mut errors, Error::unexpected(",", received.as_str(), position));
                } else {
                    let ghost before = options.deep_view();
                    let option = expression.clone();
                    options.push(option);
                    assert(options.deep_view() =~= before.push(option.deep_view()));
                    comma_due = true;
                }
            },
            other => {
                let received = other.describe();
                note(&mut errors, Error::unexpected("String", received.as_str(), position));
            },
        }
        i = i + 1;
    }
    note(&mut errors, Error::end_of_file("]", opened));
    (options, errors, tokens.len())
}

/// Reads the validator that follows a `::`.
pub fn read_validator(tokens: &Vec<Node<Token>>, at: usize, previous: Position) -> (read: (
    Option<Validator>,
    Vec<Error>,
    usize,
))
    requires
        at <= tokens.len(),
    ensures
        (option_view(read.0), read.1.deep_view(), read.2 as int) == validator_at(
            tokens.deep_view(),
            at as int,
            previous,
        ),
        at <= read.2 <= tokens.len(),
{
    if at >= tokens.len() {
        return (None, only(mismatch_at(tokens, at, "Range, Regex or [", previous)), at);
    }
    assert(tokens.deep_view()[at as int] == tokens[at as int].deep_view());
    match &tokens[at].data {
        Token::Value(Value::Range(range)) => (
            Some(Validator::Range(range.begin, range.end)),
            none(),
            at + 1,
        ),
        Token::Value(Value::Regex(pattern)) => (
            Some(Validator::Regex(pattern.clone())),
            none(),
            at + 1,
        ),
        _ => {
            if is_symbol_at(tokens, at, '[') {
                let read = collect_switch_options(tokens, at + 1, tokens[at].position);
                (Some(Validator::Switch(read.0)), read.1, read.2)
            } else {
                (None, only(mismatch_at(tokens, at, "Range, Regex or [", previous)), at + 1)
            }
        },
    }
}

/// Reads a field declaration, from the token after its identifier on.
pub fn read_declaration(
    tokens: &Vec<Node<Token>>,
    at: usize,
    identifier: String,
    position: Position,
) -> (read: (Option<Node<Statement>>, Vec<Error>, usize))
    requires
        at <= tokens.len(),
    ensures
        (option_view(read.0), read.1.deep_view(), read.2 as int) == declaration_after(
            tokens.deep_view(),
            at as int,
            identifier@,
            position,
        ),
        at <= read.2 <= tokens.len(),
{
    let ghost all = tokens.deep_view();
    assert(all.len() == tokens.len());
    if !is_symbol_at(tokens, at, ':') {
        return (None, only(mismatch_at(tokens, at, ":", position)), step_over(tokens, at));
    }
    let kind_name = if at + 1 < tokens.len() {
        assert(all[at + 1] == tokens[at + 1].deep_view());
        match &tokens[at + 1].data {
            Token::Segment(name) => Some(name.clone()),
            _ => None,
        }
    } else {
        None
    };
    let kind_name = match kind_name {
        Some(name) => name,
        None => {
            return (
                None,
                only(mismatch_at(tokens, at + 1, "Type", position)),
                step_over(tokens, at + 1),
            );
        },
    };
    let field_type = match FieldType::named(kind_name.as_str()) {
        Some(field_type) => field_type,
        None => {
            return (
                None,
                only(Error::other("Text, Integer, Decimal or Switch", position)),
                at + 2,
            );
        },
    };
    if !is_symbol_at(tokens, at + 2, '>') {
        return (
            None,
            only(mismatch_at(tokens, at + 2, ">", position)),
            step_over(tokens, at + 2),
        );
    }
    let prompt = if at + 3 < tokens.len() {
        assert(all[at + 3] == tokens[at + 3].deep_view());
        match &tokens[at + 3].data {
            Token::Value(Value::String(expression)) => Some(expression.clone()),
            _ => None,
        }
    } else {
        None
    };
    let prompt = match prompt {
        Some(prompt) => prompt,
        None => {
            return (
                None,
                only(mismatch_at(tokens, at + 3, "String", position)),
                step_over(tokens, at + 3),
            );
        },
    };
    let validated = if is_symbol_at(tokens, at + 4, ':') && is_symbol_at(tokens, at + 5, ':') {
        read_validator(tokens, at + 6, position)
    } else {
        (None, none(), at + 4)
    };
    let statement = Statement::Declaration {
        identifier,
        field_type,
        prompt,
        validator: validated.0,
    };
    (Some(Node::new(statement, position)), validated.1, validated.2)
}

impl Level {
    /// The level after a statement was read.
    fn deliver(&mut self, statement: Option<Node<Statement>>, errors: Vec<Error>)
        ensures
            final(self).deep_view() == old(self).deep_view().deliver(
                match statement {
                    Some(node) => Some(node.deep_view()),
                    None => None,
                },
                errors.deep_view(),
            ),
    {
        self.statements.throw_each(errors);
        match statement {
            Some(node) => {
                self.statements.push(node);
            },
            None => {},
        }
    }
}

/// Reads the statement that begins at the token at `at` into `level`.
pub fn read_statement(tokens: &Vec<Node<Token>>, at: usize, level: &mut Level) -> (next: usize)
    requires
        at < tokens.len(),
        old(level).open is None,
    ensures
        (final(level).deep_view(), next as int) == statement_step(
            tokens.deep_view(),
            at as int,
            old(level).deep_view(),
        ),
        at < next <= tokens.len(),
{
    let ghost all = tokens.deep_view();
    assert(all[at as int] == tokens[at as int].deep_view());
    let position = tokens[at].position;
    let is_match = match &tokens[at].data {
        Token::Segment(word) => same_text(word.as_str(), "match"),
        _ => false,
    };
    if is_match {
        let identifier = if at + 1 < tokens.len() {
            assert(all[at + 1] == tokens[at + 1].deep_view());
            name_in(&tokens[at + 1].data)
        } else {
            None
        };
        match identifier {
            None => {
                level.statements.throw(mismatch_at(tokens, at + 1, "Identifier", position));
                step_over(tokens, at + 1)
            },
            Some(identifier) => {
                if !is_symbol_at(tokens, at + 2, '{') {
                    level.statements.throw(mismatch_at(tokens, at + 2, "{", position));
                    step_over(tokens, at + 2)
                } else {
                    let cases: Vec<MatchCase> = Vec::new();
                    let patterns: Vec<Pattern> = Vec::new();
                    assert(cases.deep_view() =~= Seq::<MatchCaseView>::empty());
                    assert(patterns.deep_view() =~= Seq::<PatternView>::empty());
                    level.open = Some(
                        OpenMatch { identifier, position, cases, patterns, pattern_due: true },
                    );
                    at + 3
                }
            },
        }
    } else {
        match name_in(&tokens[at].data) {
            Some(identifier) => {
                let read = read_declaration(tokens, at + 1, identifier, position);
                proof {
                    if symbol_at(all, at + 5, ':') && symbol_at(all, at + 6, ':') && at + 7
                        < all.len() && all[at + 7].data == TokenView::Symbol('[') {
                        lemma_options_advance(
                            all,
                            at + 8,
                            Seq::empty(),
                            Seq::empty(),
                            false,
                            all[at + 7].position,
                        );
                    }
                }
                level.deliver(read.0, read.1);
                read.2
            },
            None => {
                let received = tokens[at].data.describe();
                level.statements.throw(Error::invalid(received.as_str(), position));
                at + 1
            },
        }
    }
}

/// Reads one token into a level in which `open` is the match that is being
/// read; answers whether the token opens the body of an arm.
pub fn read_pattern(level: &mut Level, open: OpenMatch, token: &Node<Token>) -> (opens: bool)
    ensures
        (final(level).deep_view(), opens) == pattern_step(
            old(level).deep_view(),
            open.deep_view(),
            token.deep_view(),
        ),
{
    let position = token.position;
    let OpenMatch { identifier, position: keyword, cases, patterns, pattern_due } = open;
    let closes = match &token.data {
        Token::Symbol(ch) => *ch == '}',
        _ => false,
    };
    let opens = match &token.data {
        Token::Symbol(ch) => *ch == '{',
        _ => false,
    };
    let separates = match &token.data {
        Token::Symbol(ch) => *ch == '|',
        _ => false,
    };
    if closes {
        if patterns.len() > 0 && pattern_due {
            let received = token.data.describe();
            level.statements.throw(Error::unexpected("Pattern", received.as_str(), position));
        }
        proof {
            lemma_match_view(identifier, cases);
        }
        level.statements.push(Node::new(Statement::Match { identifier, cases }, keyword));
        level.open = None;
        false
    } else if opens {
        if pattern_due {
            let received = token.data.describe();
            level.statements.throw(Error::unexpected("Pattern", received.as_str(), position));
        }
        level.open = Some(
            OpenMatch { identifier, position: keyword, cases, patterns, pattern_due },
        );
        true
    } else if separates {
        if pattern_due {
            let received = token.data.describe();
            level.statements.throw(Error::unexpected("Pattern", received.as_str(), position));
            level.open = Some(
                OpenMatch { identifier, position: keyword, cases, patterns, pattern_due },
            );
        } else {
            level.open = Some(
                OpenMatch { identifier, position: keyword, cases, patterns, pattern_due: true },
            );
        }
        false
    } else {
        match pattern_in(&token.data) {
            Some(pattern) => {
                if pattern_due {
                    let mut patterns = patterns;
                    let ghost before = patterns.deep_view();
                    patterns.push(pattern);
                    assert(patterns.deep_view() =~= before.push(pattern.deep_view()));
                    level.open = Some(
                        OpenMatch {
                            identifier,
                            position: keyword,
                            cases,
                            patterns,
                            pattern_due: false,
                        },
                    );
                } else {
                    let received = token.data.describe();
                    level.statements.throw(Error::unexpected("|", received.as_str(), position));
                    level.open = Some(
                        OpenMatch { identifier, position: keyword, cases, patterns, pattern_due },
                    );
                }
            },
            None => {
                let received = token.data.describe();
                level.statements.throw(Error::invalid(received.as_str(), position));
                level.open = None;
            },
        }
        false
    }
}

/// Closes the body `body` into the level below it.
pub fn close_body(below: Level, body: Level) -> (level: Level)
    ensures
        level.deep_view() == closed_into(below.deep_view(), body.deep_view()),
{
    let Level { statements, open, opened } = below;
    let mut statements = statements;
    let (nodes, errors) = match body.statements {
        Collection::Okay(nodes) => (nodes, none()),
        Collection::Failed(errors) => {
            let nodes: Vec<Node<Statement>> = Vec::new();
            assert(nodes.deep_view() =~= Seq::<NodeView<StatementView>>::empty());
            (nodes, errors)
        },
    };
    statements.throw_each(errors);
    let open = match open {
        Some(open) => {
            let OpenMatch { identifier, position, cases, patterns, pattern_due: _ } = open;
            let mut cases = cases;
            let ghost before = cases.deep_view();
            proof {
                lemma_case_view(patterns, nodes);
            }
            let case = MatchCase { patterns, body: nodes };
            cases.push(case);
            assert(cases.deep_view() =~= before.push(case.deep_view()));
            let fresh: Vec<Pattern> = Vec::new();
            assert(fresh.deep_view() =~= Seq::<PatternView>::empty());
            Some(OpenMatch { identifier, position, cases, patterns: fresh, pattern_due: true })
        },
        None => None,
    };
    Level { statements, open, opened }
}

/// Reads the token at `at`, and those that belong with it, into the levels
/// that are open.
pub fn read_step(tokens: &Vec<Node<Token>>, at: usize, levels: &mut Vec<Level>) -> (next: usize)
    requires
        at < tokens.len(),
        old(levels).len() > 0,
    ensures
        (final(levels).deep_view(), next as int) == step_at(
            tokens.deep_view(),
            at as int,
            old(levels).deep_view(),
        ),
        final(levels).len() > 0,
        at < next <= tokens.len(),
{
    let ghost all = tokens.deep_view();
    let ghost open_levels = levels.deep_view();
    assert(all[at as int] == tokens[at as int].deep_view());
    assert(open_levels.last() == levels[levels.len() - 1].deep_view());
    let top = levels.pop().unwrap();
    assert(levels.deep_view() =~= open_levels.drop_last());
    let ghost rest = levels.deep_view();
    let Level { statements, open, opened } = top;
    match open {
        Some(open) => {
            let mut level = Level { statements, open: None, opened };
            let opens = read_pattern(&mut level, open, &tokens[at]);
            levels.push(level);
            assert(levels.deep_view() =~= rest.push(level.deep_view()));
            if opens {
                let ghost lower = levels.deep_view();
                let body = Level {
                    statements: Collection::new(),
                    open: None,
                    opened: tokens[at].position,
                };
                levels.push(body);
                assert(levels.deep_view() =~= lower.push(body.deep_view()));
            }
            at + 1
        },
        None => {
            let body = Level { statements, open: None, opened };
            if is_symbol_at(tokens, at, '}') && levels.len() > 0 {
                assert(rest.last() == levels[levels.len() - 1].deep_view());
                let below = levels.pop().unwrap();
                assert(levels.deep_view() =~= rest.drop_last());
                let ghost lower = levels.deep_view();
                let level = close_body(below, body);
                levels.push(level);
                assert(levels.deep_view() =~= lower.push(level.deep_view()));
                at + 1
            } else {
                let mut level = body;
                let next = read_statement(tokens, at, &mut level);
                levels.push(level);
                assert(levels.deep_view() =~= rest.push(level.deep_view()));
                next
            }
        },
    }
}

/// Ends the document with `levels` open.
pub fn finish(levels: Vec<Level>) -> (statements: Collection<Statement>)
    ensures
        statements.deep_view() == at_end(levels.deep_view()),
{
    let mut levels = levels;
    let ghost whole = at_end(levels.deep_view());
    while levels.len() > 1
        invariant
            at_end(levels.deep_view()) == whole,
        decreases levels.len(),
    {
        let ghost open_levels = levels.deep_view();
        assert(open_levels.last() == levels[levels.len() - 1].deep_view());
        assert(open_levels[open_levels.len() - 2] == levels[levels.len() - 2].deep_view());
        let top = levels.pop().unwrap();
        let below = levels.pop().unwrap();
        assert(levels.deep_view() =~= open_levels.drop_last().drop_last());
        let ghost rest = levels.deep_view();
        let mut own = top.statements;
        match &top.open {
            Some(open) => {
                own.throw(Error::end_of_file("}", open.position));
            },
            None => {},
        }
        let errors = match own {
            Collection::Okay(_) => none(),
            Collection::Failed(errors) => errors,
        };
        let Level { statements, open, opened } = below;
        let mut statements = statements;
        statements.throw_each(errors);
        statements.throw(Error::end_of_file("}", top.opened));
        let level = Level { statements, open, opened };
        levels.push(level);
        assert(levels.deep_view() =~= rest.push(level.deep_view()));
    }
    if levels.len() == 0 {
        return Collection::new();
    }
    let ghost open_levels = levels.deep_view();
    assert(open_levels.last() == levels[levels.len() - 1].deep_view());
    let top = levels.pop().unwrap();
    let mut own = top.statements;
    match &top.open {
        Some(open) => {
            own.throw(Error::end_of_file("}", open.position));
        },
        None => {},
    }
    own
}

/// Parses a field schema. Every error is kept and reading goes on after it,
/// so that one pass reports every mistake of the schema.
pub fn parse_environment(tokens: Vec<Node<Token>>) -> (statements: Collection<Statement>)
    ensures
        statements.deep_view() == environment_of(tokens.deep_view()),
{
    let mut levels: Vec<Level> = Vec::new();
    let first = Level {
        statements: Collection::new(),
        open: None,
        opened: Position { line: 0, column: 0 },
    };
    levels.push(first);
    assert(levels.deep_view() =~= seq![ground()]);
    let ghost all = tokens.deep_view();
    let mut i: usize = 0;
    while i < tokens.len()
        invariant
            i <= tokens.len(),
            levels.len() > 0,
            all == tokens.deep_view(),
            environment_from(all, i as int, levels.deep_view()) == environment_of(all),
        decreases tokens.len() - i,
    {
        i = read_step(&tokens, i, &mut levels);
    }
    finish(levels)
}

} // verus!
