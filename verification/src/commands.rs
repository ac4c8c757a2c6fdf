//! The command-chain grammar: modifiers (`at`, `to`, `for`) and commands
//! (`copy`, `write`), chained up to a `;` and scoped by `{ }`.

use vstd::prelude::*;
use crate::collection::{lemma_keeps, Collection, CollectionView};
use crate::error::{option_view, result_view, Error, ErrorView};
use crate::node::{Node, NodeView};
use crate::position::Position;
use crate::text::same_text;
use crate::token::{Token, TokenView};
use crate::value::{parts_text, StringExpression, StringPartView, Value, ValueView};

verus! {

/// Where a text comes from: a variable, or a string literal.
#[derive(Debug, PartialEq, Eq)]
pub enum StringSource {
    Variable(String),
    Expression(StringExpression),
}

/// The mathematical model of a [`StringSource`].
pub enum StringSourceView {
    Variable(Seq<char>),
    Expression(Seq<StringPartView>),
}

impl DeepView for StringSource {
    type V = StringSourceView;

    open spec fn deep_view(&self) -> StringSourceView {
        match self {
            StringSource::Variable(name) => StringSourceView::Variable(name@),
            StringSource::Expression(expression) => StringSourceView::Expression(
                expression.deep_view(),
            ),
        }
    }
}

impl StringSourceView {
    /// The source as a script writes it: a variable with its `$`, a string
    /// literal as it stands between its quotes.
    pub open spec fn written(self) -> Seq<char> {
        match self {
            StringSourceView::Variable(name) => seq!['$'] + name,
            StringSourceView::Expression(parts) => parts_text(parts),
        }
    }
}

impl StringSource {
    /// The source as a script writes it.
    pub fn written(&self) -> (text: String)
        ensures
            text@ == self.deep_view().written(),
    {
        match self {
            StringSource::Variable(name) => {
                let mut text = String::from_str("$");
                proof {
                    reveal_strlit("$");
                }
                text.append(name.as_str());
                text
            },
            StringSource::Expression(expression) => expression.written(),
        }
    }
}

impl Clone for StringSource {
    fn clone(&self) -> (copy: Self)
        ensures
            copy.deep_view() == self.deep_view(),
    {
        match self {
            StringSource::Variable(name) => StringSource::Variable(name.clone()),
            StringSource::Expression(expression) => StringSource::Expression(expression.clone()),
        }
    }
}

/// The sources of `sources`, copied one by one.
pub fn clone_sources(sources: &Vec<StringSource>) -> (copy: Vec<StringSource>)
    ensures
        copy.deep_view() == sources.deep_view(),
{
    let mut copy: Vec<StringSource> = Vec::new();
    let mut i: usize = 0;
    while i < sources.len()
        invariant
            i <= sources.len(),
            copy.deep_view() == sources.deep_view().take(i as int),
        decreases sources.len() - i,
    {
        let ghost before = copy.deep_view();
        let source = sources[i].clone();
        copy.push(source);
        assert(copy.deep_view() =~= before.push(source.deep_view()));
        assert(source.deep_view() == sources.deep_view()[i as int]);
        i = i + 1;
        assert(copy.deep_view() =~= sources.deep_view().take(i as int));
    }
    assert(sources.deep_view().take(i as int) =~= sources.deep_view());
    copy
}

/// The three kinds of modifier.
#[derive(Clone, Copy, Debug, PartialEq, Eq, Structural)]
pub enum ModifierKind {
    At,
    To,
    For,
}

/// A clause of a chain that supplies arguments to its command.
#[derive(Debug, PartialEq, Eq)]
pub enum Modifier {
    /// Where to read: every `at` of the chain, in order.
    At(Vec<StringSource>),
    /// Where to write: every `to` of the chain, in order.
    To(Vec<StringSource>),
    /// What to select: the pattern of the one `for` of the chain.
    For(String),
}

/// The mathematical model of a [`Modifier`].
pub enum ModifierView {
    At(Seq<StringSourceView>),
    To(Seq<StringSourceView>),
    For(Seq<char>),
}

impl DeepView for Modifier {
    type V = ModifierView;

    open spec fn deep_view(&self) -> ModifierView {
        match self {
            Modifier::At(sources) => ModifierView::At(sources.deep_view()),
            Modifier::To(sources) => ModifierView::To(sources.deep_view()),
            Modifier::For(pattern) => ModifierView::For(pattern@),
        }
    }
}

impl ModifierView {
    /// The kind of the modifier.
    pub open spec fn kind(self) -> ModifierKind {
        match self {
            ModifierView::At(_) => ModifierKind::At,
            ModifierView::To(_) => ModifierKind::To,
            ModifierView::For(_) => ModifierKind::For,
        }
    }

    /// The sources that an `at` or a `to` holds; none for a `for`.
    pub open spec fn sources(self) -> Seq<StringSourceView> {
        match self {
            ModifierView::At(sources) => sources,
            ModifierView::To(sources) => sources,
            ModifierView::For(_) => Seq::empty(),
        }
    }

    /// The modifier with one more source at its end. A `for` holds none and
    /// stays as it is.
    pub open spec fn with(self, source: StringSourceView) -> ModifierView {
        match self {
            ModifierView::At(sources) => ModifierView::At(sources.push(source)),
            ModifierView::To(sources) => ModifierView::To(sources.push(source)),
            ModifierView::For(pattern) => ModifierView::For(pattern),
        }
    }

    /// The first modifier of its kind in a chain: an `at` or a `to` with the
    /// one source `source`.
    pub open spec fn first(kind: ModifierKind, source: StringSourceView) -> ModifierView
        recommends
            kind != ModifierKind::For,
    {
        if kind == ModifierKind::To {
            ModifierView::To(seq![source])
        } else {
            ModifierView::At(seq![source])
        }
    }
}

impl Clone for Modifier {
    fn clone(&self) -> (copy: Self)
        ensures
            copy.deep_view() == self.deep_view(),
    {
        match self {
            Modifier::At(sources) => Modifier::At(clone_sources(sources)),
            Modifier::To(sources) => Modifier::To(clone_sources(sources)),
            Modifier::For(pattern) => Modifier::For(pattern.clone()),
        }
    }
}

impl Modifier {
    /// The kind of the modifier.
    pub fn kind(&self) -> (kind: ModifierKind)
        ensures
            kind == self.deep_view().kind(),
    {
        match self {
            Modifier::At(_) => ModifierKind::At,
            Modifier::To(_) => ModifierKind::To,
            Modifier::For(_) => ModifierKind::For,
        }
    }

    /// A copy of the modifier with `source` added at its end.
    pub fn with(&self, source: StringSource) -> (longer: Modifier)
        ensures
            longer.deep_view() == self.deep_view().with(source.deep_view()),
    {
        match self {
            Modifier::At(sources) => {
                let mut sources = clone_sources(sources);
                let ghost before = sources.deep_view();
                sources.push(source);
                assert(sources.deep_view() =~= before.push(source.deep_view()));
                Modifier::At(sources)
            },
            Modifier::To(sources) => {
                let mut sources = clone_sources(sources);
                let ghost before = sources.deep_view();
                sources.push(source);
                assert(sources.deep_view() =~= before.push(source.deep_view()));
                Modifier::To(sources)
            },
            Modifier::For(pattern) => Modifier::For(pattern.clone()),
        }
    }
}

/// The command of a chain, with the position of its keyword.
#[derive(Debug, PartialEq, Eq)]
pub enum Command {
    Copy(Position),
    /// `write`, with the value to write.
    Write(StringSource, Position),
}

/// The mathematical model of a [`Command`].
pub enum CommandView {
    Copy(Position),
    Write(StringSourceView, Position),
}

impl DeepView for Command {
    type V = CommandView;

    open spec fn deep_view(&self) -> CommandView {
        match self {
            Command::Copy(position) => CommandView::Copy(*position),
            Command::Write(value, position) => CommandView::Write(value.deep_view(), *position),
        }
    }
}

impl Clone for Command {
    fn clone(&self) -> (copy: Self)
        ensures
            copy.deep_view() == self.deep_view(),
    {
        match self {
            Command::Copy(position) => Command::Copy(*position),
            Command::Write(value, position) => Command::Write(value.clone(), *position),
        }
    }
}

/// What a chain asks for, once it is complete.
#[derive(Debug, PartialEq, Eq)]
pub enum Instruction {
    Copy { source: Vec<StringSource>, target: Vec<StringSource> },
    Write { value: StringSource, selector: String, target: Vec<StringSource> },
}

/// The mathematical model of an [`Instruction`].
pub enum InstructionView {
    Copy { source: Seq<StringSourceView>, target: Seq<StringSourceView> },
    Write { value: StringSourceView, selector: Seq<char>, target: Seq<StringSourceView> },
}

impl DeepView for Instruction {
    type V = InstructionView;

    open spec fn deep_view(&self) -> InstructionView {
        match self {
            Instruction::Copy { source, target } => InstructionView::Copy {
                source: source.deep_view(),
                target: target.deep_view(),
            },
            Instruction::Write { value, selector, target } => InstructionView::Write {
                value: value.deep_view(),
                selector: selector@,
                target: target.deep_view(),
            },
        }
    }
}

/// What a chain has gathered so far: its modifiers, one of each kind at
/// most, in the order in which each kind first came, and its command.
#[derive(Debug, PartialEq, Eq)]
pub struct Chain {
    pub stack: Vec<Modifier>,
    pub command: Option<Command>,
}

/// The mathematical model of a [`Chain`].
pub struct ChainView {
    pub stack: Seq<ModifierView>,
    pub command: Option<CommandView>,
}

impl DeepView for Chain {
    type V = ChainView;

    open spec fn deep_view(&self) -> ChainView {
        ChainView { stack: self.stack.deep_view(), command: option_view(self.command) }
    }
}

/// The index of the first modifier of kind `kind` at or after `from`, or the
/// length of the stack where there is none.
pub open spec fn find_kind(stack: Seq<ModifierView>, kind: ModifierKind, from: int) -> int
    decreases stack.len() - from,
{
    if from < 0 || from >= stack.len() {
        stack.len() as int
    } else if stack[from].kind() == kind {
        from
    } else {
        find_kind(stack, kind, from + 1)
    }
}

/// True when the stack holds a modifier of kind `kind`.
pub open spec fn has_kind(stack: Seq<ModifierView>, kind: ModifierKind) -> bool {
    find_kind(stack, kind, 0) < stack.len()
}

/// The first modifier of kind `kind` in the stack.
pub open spec fn first_of(stack: Seq<ModifierView>, kind: ModifierKind) -> ModifierView {
    stack[find_kind(stack, kind, 0)]
}

/// The stack after one more `at` or `to`: the source joins the modifier of
/// its kind where the stack holds one, and opens a new modifier at the end
/// where it does not.
pub open spec fn with_source(
    stack: Seq<ModifierView>,
    kind: ModifierKind,
    source: StringSourceView,
) -> Seq<ModifierView>
    recommends
        kind != ModifierKind::For,
{
    if has_kind(stack, kind) {
        stack.update(find_kind(stack, kind, 0), first_of(stack, kind).with(source))
    } else {
        stack.push(ModifierView::first(kind, source))
    }
}

impl ChainView {
    /// The chain that has gathered nothing.
    pub open spec fn empty() -> ChainView {
        ChainView { stack: Seq::empty(), command: None }
    }
}

/// Where the first modifier of a kind stands, it is of that kind, and none
/// before it is.
proof fn lemma_find_kind(stack: Seq<ModifierView>, kind: ModifierKind, from: int)
    requires
        0 <= from <= stack.len(),
    ensures
        from <= find_kind(stack, kind, from) <= stack.len(),
        find_kind(stack, kind, from) < stack.len() ==> stack[find_kind(stack, kind, from)].kind()
            == kind,
        forall|i: int|
            from <= i < find_kind(stack, kind, from) ==> (#[trigger] stack[i]).kind() != kind,
    decreases stack.len() - from,
{
    if from < stack.len() && stack[from].kind() != kind {
        lemma_find_kind(stack, kind, from + 1);
    }
}

/// The first modifier of a kind is found where one of that kind stands with
/// none of it before.
proof fn lemma_found(stack: Seq<ModifierView>, kind: ModifierKind, from: int, index: int)
    requires
        0 <= from <= index <= stack.len(),
        forall|i: int| from <= i < index ==> (#[trigger] stack[i]).kind() != kind,
        index < stack.len() ==> stack[index].kind() == kind,
    ensures
        find_kind(stack, kind, from) == index,
    decreases index - from,
{
    if from < index {
        lemma_found(stack, kind, from + 1, index);
    }
}

/// Modifiers of the same kind accumulate: one more `at` or `to` adds its
/// source at the end of the sources of its kind, in the order in which they
/// were written, and leaves the modifiers of the other kinds as they were.
pub proof fn lemma_sources_accumulate(
    stack: Seq<ModifierView>,
    kind: ModifierKind,
    source: StringSourceView,
    other: ModifierKind,
)
    requires
        kind != ModifierKind::For,
        other != kind,
    ensures
        has_kind(with_source(stack, kind, source), kind),
        first_of(with_source(stack, kind, source), kind).sources() == if has_kind(stack, kind) {
            first_of(stack, kind).sources().push(source)
        } else {
            seq![source]
        },
        has_kind(with_source(stack, kind, source), other) == has_kind(stack, other),
        has_kind(stack, other) ==> first_of(with_source(stack, kind, source), other) == first_of(
            stack,
            other,
        ),
{
    let longer = with_source(stack, kind, source);
    let index = find_kind(stack, kind, 0);
    let beside = find_kind(stack, other, 0);
    lemma_find_kind(stack, kind, 0);
    lemma_find_kind(stack, other, 0);
    if has_kind(stack, kind) {
        assert forall|i: int| 0 <= i < index implies (#[trigger] longer[i]).kind() != kind by {
            assert(longer[i] == stack[i]);
        }
        lemma_found(longer, kind, 0, index);
        assert forall|i: int| 0 <= i < beside implies (#[trigger] longer[i]).kind() != other by {
            assert(stack[i].kind() != other);
        }
        if beside < stack.len() {
            assert(longer[beside] == stack[beside]);
        }
        let found = if beside < stack.len() {
            beside
        } else {
            longer.len() as int
        };
        lemma_found(longer, other, 0, found);
    } else {
        assert forall|i: int| 0 <= i < index implies (#[trigger] longer[i]).kind() != kind by {
            assert(longer[i] == stack[i]);
        }
        lemma_found(longer, kind, 0, index);
        if beside < stack.len() {
            assert forall|i: int| 0 <= i < beside implies (#[trigger] longer[i]).kind()
                != other by {
                assert(longer[i] == stack[i]);
            }
            assert(longer[beside] == stack[beside]);
            lemma_found(longer, other, 0, beside);
        } else {
            assert forall|i: int| 0 <= i < longer.len() implies (#[trigger] longer[i]).kind()
                != other by {
                if i < stack.len() {
                    assert(longer[i] == stack[i]);
                }
            }
            lemma_found(longer, other, 0, longer.len() as int);
        }
    }
}

/// The modifiers of `stack`, copied one by one.
pub fn clone_stack(stack: &Vec<Modifier>) -> (copy: Vec<Modifier>)
    ensures
        copy.deep_view() == stack.deep_view(),
{
    let mut copy: Vec<Modifier> = Vec::new();
    let mut i: usize = 0;
    while i < stack.len()
        invariant
            i <= stack.len(),
            copy.deep_view() == stack.deep_view().take(i as int),
        decreases stack.len() - i,
    {
        let ghost before = copy.deep_view();
        let modifier = stack[i].clone();
        copy.push(modifier);
        assert(copy.deep_view() =~= before.push(modifier.deep_view()));
        assert(modifier.deep_view() == stack.deep_view()[i as int]);
        i = i + 1;
        assert(copy.deep_view() =~= stack.deep_view().take(i as int));
    }
    assert(stack.deep_view().take(i as int) =~= stack.deep_view());
    copy
}

/// The index of the first modifier of kind `kind`, or the length of the
/// stack where there is none.
pub fn find_modifier(stack: &Vec<Modifier>, kind: ModifierKind) -> (index: usize)
    ensures
        index == find_kind(stack.deep_view(), kind, 0),
        index <= stack.len(),
        index < stack.len() ==> stack[index as int].deep_view().kind() == kind,
{
    let mut i: usize = 0;
    while i < stack.len()
        invariant
            i <= stack.len(),
            find_kind(stack.deep_view(), kind, i as int) == find_kind(stack.deep_view(), kind, 0),
        decreases stack.len() - i,
    {
        assert(stack.deep_view()[i as int] == stack[i as int].deep_view());
        if stack[i].kind() == kind {
            return i;
        }
        i = i + 1;
    }
    i
}

impl Clone for Chain {
    fn clone(&self) -> (copy: Self)
        ensures
            copy.deep_view() == self.deep_view(),
    {
        let command = match &self.command {
            Some(command) => Some(command.clone()),
            None => None,
        };
        Chain { stack: clone_stack(&self.stack), command }
    }
}

impl Chain {
    /// A chain that has gathered nothing.
    pub fn new() -> (chain: Chain)
        ensures
            chain.deep_view() == ChainView::empty(),
    {
        let chain = Chain { stack: Vec::new(), command: None };
        assert(chain.deep_view().stack =~= Seq::empty());
        chain
    }

    /// Adds the source of one more `at` or `to`, as `kind` says. A `for`
    /// holds a pattern and takes no source.
    pub fn add_source(&mut self, kind: ModifierKind, source: StringSource)
        requires
            kind != ModifierKind::For,
        ensures
            final(self).deep_view() == (ChainView {
                stack: with_source(old(self).deep_view().stack, kind, source.deep_view()),
                command: old(self).deep_view().command,
            }),
    {
        let ghost before = self.stack.deep_view();
        let index = find_modifier(&self.stack, kind);
        if index < self.stack.len() {
            assert(before[index as int] == self.stack[index as int].deep_view());
            let longer = self.stack[index].with(source);
            self.stack.set(index, longer);
            assert(self.stack.deep_view() =~= before.update(index as int, longer.deep_view()));
        } else {
            let modifier = match kind {
                ModifierKind::To => {
                    let mut sources: Vec<StringSource> = Vec::new();
                    sources.push(source);
                    assert(sources.deep_view() =~= seq![source.deep_view()]);
                    Modifier::To(sources)
                },
                _ => {
                    let mut sources: Vec<StringSource> = Vec::new();
                    sources.push(source);
                    assert(sources.deep_view() =~= seq![source.deep_view()]);
                    Modifier::At(sources)
                },
            };
            self.stack.push(modifier);
            assert(self.stack.deep_view() =~= before.push(modifier.deep_view()));
        }
    }
}

/// The error for a rule of the grammar that a chain breaks.
pub open spec fn broken(message: Seq<char>, position: Position) -> ErrorView {
    ErrorView::Other { message, position }
}

/// The source that an `at`, a `to` or a `write` takes from the token at
/// `at`: a string literal or an identifier. `keyword` is where the keyword
/// stands, which is where the error points if the input ends there.
pub open spec fn source_at(tokens: Seq<NodeView<TokenView>>, at: int, keyword: Position) -> Result<
    StringSourceView,
    ErrorView,
> {
    if at < 0 || at >= tokens.len() {
        Err(ErrorView::EndOfFile { expected: "String or Identifier"@, position: keyword })
    } else {
        match tokens[at].data {
            TokenView::Value(ValueView::String(parts)) => Ok(StringSourceView::Expression(parts)),
            TokenView::Identifier(name) => Ok(StringSourceView::Variable(name)),
            other => Err(
                ErrorView::Unexpected {
                    expected: "String or Identifier"@,
                    received: other.describe(),
                    position: tokens[at].position,
                },
            ),
        }
    }
}

/// The pattern that a `for` takes from the token at `at`: a regular
/// expression.
pub open spec fn pattern_at(tokens: Seq<NodeView<TokenView>>, at: int, keyword: Position) -> Result<
    Seq<char>,
    ErrorView,
> {
    if at < 0 || at >= tokens.len() {
        Err(ErrorView::EndOfFile { expected: "Regex"@, position: keyword })
    } else {
        match tokens[at].data {
            TokenView::Value(ValueView::Regex(pattern)) => Ok(pattern),
            other => Err(
                ErrorView::Unexpected {
                    expected: "Regex"@,
                    received: other.describe(),
                    position: tokens[at].position,
                },
            ),
        }
    }
}

/// The index after the keyword at `at` and its argument: the argument is
/// taken whatever it is, if there is one.
pub open spec fn after_argument(tokens: Seq<NodeView<TokenView>>, at: int) -> int {
    if at + 1 < tokens.len() {
        at + 2
    } else {
        at + 1
    }
}

/// What one block does to a chain. The block begins at the token at `at`;
/// the result is the chain after it, the error it met if any, and the index
/// of the first token after it.
///
/// `at` and `to` add a source; `for` adds the pattern, once; `copy` and
/// `write` become the command of the chain, if it has none. Anything else is
/// unexpected and takes one token.
pub open spec fn block_at(tokens: Seq<NodeView<TokenView>>, at: int, chain: ChainView) -> (
    ChainView,
    Option<ErrorView>,
    int,
) {
    let position = tokens[at].position;
    match tokens[at].data {
        TokenView::Segment(keyword) => if keyword == "at"@ || keyword == "to"@ {
            let kind = if keyword == "at"@ {
                ModifierKind::At
            } else {
                ModifierKind::To
            };
            match source_at(tokens, at + 1, position) {
                Ok(source) => (
                    ChainView {
                        stack: with_source(chain.stack, kind, source),
                        command: chain.command,
                    },
                    None,
                    after_argument(tokens, at),
                ),
                Err(error) => (chain, Some(error), after_argument(tokens, at)),
            }
        } else if keyword == "for"@ {
            match pattern_at(tokens, at + 1, position) {
                Ok(pattern) => if has_kind(chain.stack, ModifierKind::For) {
                    (
                        chain,
                        Some(ErrorView::Invalid { received: "for"@, position }),
                        after_argument(tokens, at),
                    )
                } else {
                    (
                        ChainView {
                            stack: chain.stack.push(ModifierView::For(pattern)),
                            command: chain.command,
                        },
                        None,
                        after_argument(tokens, at),
                    )
                },
                Err(error) => (chain, Some(error), after_argument(tokens, at)),
            }
        } else if keyword == "copy"@ {
            if chain.command is Some {
                (
                    chain,
                    Some(broken("Copy command can not be chained multiple times."@, position)),
                    at + 1,
                )
            } else {
                (
                    ChainView { stack: chain.stack, command: Some(CommandView::Copy(position)) },
                    None,
                    at + 1,
                )
            }
        } else if keyword == "write"@ {
            if chain.command is Some {
                (
                    chain,
                    Some(broken("Write command can not be chained multiple times."@, position)),
                    at + 1,
                )
            } else {
                match source_at(tokens, at + 1, position) {
                    Ok(value) => (
                        ChainView {
                            stack: chain.stack,
                            command: Some(CommandView::Write(value, position)),
                        },
                        None,
                        after_argument(tokens, at),
                    ),
                    Err(error) => (chain, Some(error), after_argument(tokens, at)),
                }
            }
        } else {
            (
                chain,
                Some(ErrorView::Unexpected { expected: "Keyword"@, received: keyword, position }),
                at + 1,
            )
        },
        other => (
            chain,
            Some(
                ErrorView::Unexpected {
                    expected: "Keyword"@,
                    received: other.describe(),
                    position,
                },
            ),
            at + 1,
        ),
    }
}

/// What a chain gives when it is submitted at `position`: the instruction,
/// if the chain is complete, and the errors, in the order in which they are
/// thrown.
///
/// A chain without a command is an error. `copy` takes no `for` and needs an
/// `at` and a `to`; `write` takes no `at` and needs a `for` and a `to`. Of
/// two missing modifiers the first is reported.
pub open spec fn submission(chain: ChainView, position: Position) -> (
    Option<NodeView<InstructionView>>,
    Seq<ErrorView>,
) {
    let stack = chain.stack;
    match chain.command {
        None => (None, seq![broken("Chain does not contain an active command."@, position)]),
        Some(CommandView::Copy(keyword)) => {
            let misuse = if has_kind(stack, ModifierKind::For) {
                seq![
                    broken(
                        "Copy command can only be used under 'at' and 'to' modifiers."@,
                        keyword,
                    ),
                ]
            } else {
                Seq::empty()
            };
            if !has_kind(stack, ModifierKind::At) {
                (None, misuse.push(broken("Copy command requires an 'at' modifier."@, keyword)))
            } else if !has_kind(stack, ModifierKind::To) {
                (None, misuse.push(broken("Copy command requires a 'to' modifier."@, keyword)))
            } else {
                (
                    Some(
                        NodeView {
                            data: InstructionView::Copy {
                                source: first_of(stack, ModifierKind::At).sources(),
                                target: first_of(stack, ModifierKind::To).sources(),
                            },
                            position: keyword,
                        },
                    ),
                    misuse,
                )
            }
        },
        Some(CommandView::Write(value, keyword)) => {
            let misuse = if has_kind(stack, ModifierKind::At) {
                seq![
                    broken(
                        "Write command can only be used under 'for' and 'to' modifiers."@,
                        keyword,
                    ),
                ]
            } else {
                Seq::empty()
            };
            if !has_kind(stack, ModifierKind::For) {
                (None, misuse.push(broken("Write command requires a 'for' modifier."@, keyword)))
            } else if !has_kind(stack, ModifierKind::To) {
                (None, misuse.push(broken("Write command requires a 'to' modifier."@, keyword)))
            } else {
                (
                    Some(
                        NodeView {
                            data: InstructionView::Write {
                                value,
                                selector: first_of(stack, ModifierKind::For)->For_0,
                                target: first_of(stack, ModifierKind::To).sources(),
                            },
                            position: keyword,
                        },
                    ),
                    misuse,
                )
            }
        },
    }
}

/// The collection after a chain is submitted: its errors are thrown, then
/// its instruction is pushed, which keeps it only if nothing was ever thrown.
pub open spec fn submitted(
    collection: CollectionView<InstructionView>,
    chain: ChainView,
    position: Position,
) -> CollectionView<InstructionView> {
    let outcome = submission(chain, position);
    match outcome.0 {
        Some(instruction) => collection.throw_each(outcome.1).push(instruction),
        None => collection.throw_each(outcome.1),
    }
}

/// An open scope: the chain that each statement inside it starts from, and
/// the position of its `{`.
#[derive(Debug, PartialEq, Eq)]
pub struct Scope {
    pub base: Chain,
    pub opened: Position,
}

/// The mathematical model of a [`Scope`].
pub struct ScopeView {
    pub base: ChainView,
    pub opened: Position,
}

impl DeepView for Scope {
    type V = ScopeView;

    open spec fn deep_view(&self) -> ScopeView {
        ScopeView { base: self.base.deep_view(), opened: self.opened }
    }
}

/// The chain that a statement starts from: that of the innermost open scope,
/// or the empty chain outside every scope.
pub open spec fn base_of(scopes: Seq<ScopeView>) -> ChainView {
    if scopes.len() == 0 {
        ChainView::empty()
    } else {
        scopes.last().base
    }
}

/// The collection after the input ends with `scopes` still open: one error
/// for each, the innermost first.
pub open spec fn unclosed(
    collection: CollectionView<InstructionView>,
    scopes: Seq<ScopeView>,
) -> CollectionView<InstructionView>
    decreases scopes.len(),
{
    if scopes.len() == 0 {
        collection
    } else {
        unclosed(
            collection.throw(
                ErrorView::EndOfFile { expected: "}"@, position: scopes.last().opened },
            ),
            scopes.drop_last(),
        )
    }
}

/// Every block takes at least one token.
pub proof fn lemma_block_advances(tokens: Seq<NodeView<TokenView>>, at: int, chain: ChainView)
    requires
        0 <= at < tokens.len(),
    ensures
        at < block_at(tokens, at, chain).2 <= tokens.len(),
{
}

/// The collection after the tokens from `at` on are read, with the scopes
/// that are open, the chain gathered so far, and whether that chain holds a
/// block that no `;` has closed yet.
///
/// A `;` submits the chain. A `{` opens a scope that starts from the chain as
/// it stands. A `}` closes the innermost scope and submits a chain that is
/// still pending; outside every scope it is no keyword. After each of the
/// three the chain goes back to what the statement started from. Any other
/// token begins a block. A chain that is pending when the input ends is
/// dropped.
pub open spec fn commands_from(
    tokens: Seq<NodeView<TokenView>>,
    at: int,
    scopes: Seq<ScopeView>,
    chain: ChainView,
    pending: bool,
    collection: CollectionView<InstructionView>,
) -> CollectionView<InstructionView>
    decreases tokens.len() - at,
{
    if at < 0 || at >= tokens.len() {
        unclosed(collection, scopes)
    } else if tokens[at].data == TokenView::Symbol(';') {
        commands_from(
            tokens,
            at + 1,
            scopes,
            base_of(scopes),
            false,
            submitted(collection, chain, tokens[at].position),
        )
    } else if tokens[at].data == TokenView::Symbol('{') {
        commands_from(
            tokens,
            at + 1,
            scopes.push(ScopeView { base: chain, opened: tokens[at].position }),
            chain,
            false,
            collection,
        )
    } else if tokens[at].data == TokenView::Symbol('}') && scopes.len() > 0 {
        commands_from(
            tokens,
            at + 1,
            scopes.drop_last(),
            base_of(scopes.drop_last()),
            false,
            if pending {
                submitted(collection, chain, tokens[at].position)
            } else {
                collection
            },
        )
    } else {
        proof {
            lemma_block_advances(tokens, at, chain);
        }
        let step = block_at(tokens, at, chain);
        commands_from(
            tokens,
            step.2,
            scopes,
            step.0,
            true,
            match step.1 {
                Some(error) => collection.throw(error),
                None => collection,
            },
        )
    }
}

/// Submitting a chain keeps every error.
pub proof fn lemma_submitted_keeps(
    collection: CollectionView<InstructionView>,
    chain: ChainView,
    position: Position,
)
    ensures
        submitted(collection, chain, position).keeps(collection),
{
    let outcome = submission(chain, position);
    let failed = collection.throw_each(outcome.1);
    lemma_keeps(collection, outcome.0->0, broken(Seq::empty(), position), outcome.1);
    lemma_keeps(failed, outcome.0->0, broken(Seq::empty(), position), outcome.1);
}

/// The end of the input keeps every error.
pub proof fn lemma_unclosed_keeps(
    collection: CollectionView<InstructionView>,
    scopes: Seq<ScopeView>,
)
    ensures
        unclosed(collection, scopes).keeps(collection),
    decreases scopes.len(),
{
    let node = NodeView {
        data: InstructionView::Copy { source: Seq::empty(), target: Seq::empty() },
        position: Position { line: 0, column: 0 },
    };
    if scopes.len() > 0 {
        let error = ErrorView::EndOfFile { expected: "}"@, position: scopes.last().opened };
        lemma_unclosed_keeps(collection.throw(error), scopes.drop_last());
        lemma_keeps(collection, node, error, Seq::empty());
    } else {
        lemma_keeps(collection, node, broken(Seq::empty(), node.position), Seq::empty());
    }
}

/// The parser never forgets an error: a collection that has failed is still
/// failed when every token is read, and the errors it held come first in the
/// result.
pub proof fn lemma_commands_keep_errors(
    tokens: Seq<NodeView<TokenView>>,
    at: int,
    scopes: Seq<ScopeView>,
    chain: ChainView,
    pending: bool,
    collection: CollectionView<InstructionView>,
)
    ensures
        commands_from(tokens, at, scopes, chain, pending, collection).keeps(collection),
    decreases tokens.len() - at,
{
    let node = NodeView {
        data: InstructionView::Copy { source: Seq::empty(), target: Seq::empty() },
        position: Position { line: 0, column: 0 },
    };
    let whole = commands_from(tokens, at, scopes, chain, pending, collection);
    if at < 0 || at >= tokens.len() {
        lemma_unclosed_keeps(collection, scopes);
    } else if tokens[at].data == TokenView::Symbol(';') {
        let next = submitted(collection, chain, tokens[at].position);
        lemma_submitted_keeps(collection, chain, tokens[at].position);
        lemma_commands_keep_errors(tokens, at + 1, scopes, base_of(scopes), false, next);
        lemma_keeps(collection, node, broken(Seq::empty(), node.position), Seq::empty());
        assert(whole.keeps(next));
    } else if tokens[at].data == TokenView::Symbol('{') {
        lemma_commands_keep_errors(
            tokens,
            at + 1,
            scopes.push(ScopeView { base: chain, opened: tokens[at].position }),
            chain,
            false,
            collection,
        );
    } else if tokens[at].data == TokenView::Symbol('}') && scopes.len() > 0 {
        let next = if pending {
            submitted(collection, chain, tokens[at].position)
        } else {
            collection
        };
        lemma_submitted_keeps(collection, chain, tokens[at].position);
        lemma_commands_keep_errors(
            tokens,
            at + 1,
            scopes.drop_last(),
            base_of(scopes.drop_last()),
            false,
            next,
        );
        lemma_keeps(collection, node, broken(Seq::empty(), node.position), Seq::empty());
        assert(whole.keeps(next));
    } else {
        lemma_block_advances(tokens, at, chain);
        let step = block_at(tokens, at, chain);
        let next = match step.1 {
            Some(error) => collection.throw(error),
            None => collection,
        };
        lemma_keeps(collection, node, step.1->0, Seq::empty());
        lemma_commands_keep_errors(tokens, step.2, scopes, step.0, true, next);
        assert(whole.keeps(next));
    }
}

/// The instructions of a command script, or the errors met while reading it.
pub open spec fn commands_of(tokens: Seq<NodeView<TokenView>>) -> CollectionView<InstructionView> {
    commands_from(tokens, 0, Seq::empty(), ChainView::empty(), false, CollectionView::empty())
}

/// True when the token at `at` is the symbol `ch`.
pub fn is_symbol(tokens: &Vec<Node<Token>>, at: usize, ch: char) -> (answer: bool)
    ensures
        answer == (at < tokens.len() && tokens.deep_view()[at as int].data == TokenView::Symbol(
            ch,
        )),
{
    if at >= tokens.len() {
        return false;
    }
    assert(tokens.deep_view()[at as int] == tokens[at as int].deep_view());
    match &tokens[at].data {
        Token::Symbol(symbol) => *symbol == ch,
        _ => false,
    }
}

/// Reads the source that an `at`, a `to` or a `write` takes.
pub fn read_source(tokens: &Vec<Node<Token>>, at: usize, keyword: Position) -> (source: Result<
    StringSource,
    Error,
>)
    ensures
        result_view(source) == source_at(tokens.deep_view(), at as int, keyword),
{
    if at >= tokens.len() {
        return Err(Error::end_of_file("String or Identifier", keyword));
    }
    assert(tokens.deep_view()[at as int] == tokens[at as int].deep_view());
    match &tokens[at].data {
        Token::Value(Value::String(expression)) => Ok(StringSource::Expression(expression.clone())),
        Token::Identifier(name) => Ok(StringSource::Variable(name.clone())),
        other => {
            let received = other.describe();
            Err(Error::unexpected("String or Identifier", received.as_str(), tokens[at].position))
        },
    }
}

/// Reads the pattern that a `for` takes.
pub fn read_pattern(tokens: &Vec<Node<Token>>, at: usize, keyword: Position) -> (pattern: Result<
    String,
    Error,
>)
    ensures
        match pattern {
            Ok(text) => Ok(text@),
            Err(error) => Err(error.deep_view()),
        } == pattern_at(tokens.deep_view(), at as int, keyword),
{
    if at >= tokens.len() {
        return Err(Error::end_of_file("Regex", keyword));
    }
    assert(tokens.deep_view()[at as int] == tokens[at as int].deep_view());
    match &tokens[at].data {
        Token::Value(Value::Regex(pattern)) => Ok(pattern.clone()),
        other => {
            let received = other.describe();
            Err(Error::unexpected("Regex", received.as_str(), tokens[at].position))
        },
    }
}

/// Reads one block into `chain`: a modifier or a command.
pub fn read_block(tokens: &Vec<Node<Token>>, at: usize, chain: &mut Chain) -> (read: (
    Option<Error>,
    usize,
))
    requires
        at < tokens.len(),
    ensures
        (final(chain).deep_view(), option_view(read.0), read.1 as int) == block_at(
            tokens.deep_view(),
            at as int,
            old(chain).deep_view(),
        ),
        at < read.1 <= tokens.len(),
{
    assert(tokens.deep_view()[at as int] == tokens[at as int].deep_view());
    let position = tokens[at].position;
    let after: usize = if at + 1 < tokens.len() {
        at + 2
    } else {
        at + 1
    };
    match &tokens[at].data {
        Token::Segment(keyword) => {
            let is_at = same_text(keyword.as_str(), "at");
            if is_at || same_text(keyword.as_str(), "to") {
                let kind = if is_at {
                    ModifierKind::At
                } else {
                    ModifierKind::To
                };
                match read_source(tokens, at + 1, position) {
                    Ok(source) => {
                        chain.add_source(kind, source);
                        (None, after)
                    },
                    Err(error) => (Some(error), after),
                }
            } else if same_text(keyword.as_str(), "for") {
                match read_pattern(tokens, at + 1, position) {
                    Ok(pattern) => {
                        let index = find_modifier(&chain.stack, ModifierKind::For);
                        if index < chain.stack.len() {
                            (Some(Error::invalid("for", position)), after)
                        } else {
                            let ghost before = chain.stack.deep_view();
                            let modifier = Modifier::For(pattern);
                            chain.stack.push(modifier);
                            assert(chain.stack.deep_view() =~= before.push(modifier.deep_view()));
                            (None, after)
                        }
                    },
                    Err(error) => (Some(error), after),
                }
            } else if same_text(keyword.as_str(), "copy") {
                if chain.command.is_some() {
                    (
                        Some(
                            Error::other(
                                "Copy command can not be chained multiple times.",
                                position,
                            ),
                        ),
                        at + 1,
                    )
                } else {
                    chain.command = Some(Command::Copy(position));
                    (None, at + 1)
                }
            } else if same_text(keyword.as_str(), "write") {
                if chain.command.is_some() {
                    (
                        Some(
                            Error::other(
                                "Write command can not be chained multiple times.",
                                position,
                            ),
                        ),
                        at + 1,
                    )
                } else {
                    match read_source(tokens, at + 1, position) {
                        Ok(value) => {
                            chain.command = Some(Command::Write(value, position));
                            (None, after)
                        },
                        Err(error) => (Some(error), after),
                    }
                }
            } else {
                (Some(Error::unexpected("Keyword", keyword.as_str(), position)), at + 1)
            }
        },
        other => {
            let received = other.describe();
            (Some(Error::unexpected("Keyword", received.as_str(), position)), at + 1)
        },
    }
}

/// The sources of the first modifier of kind `kind`, copied; none where the
/// stack holds no such modifier.
fn sources_of(stack: &Vec<Modifier>, kind: ModifierKind) -> (sources: Option<Vec<StringSource>>)
    ensures
        sources is Some == has_kind(stack.deep_view(), kind),
        sources matches Some(list) ==> list.deep_view() == first_of(
            stack.deep_view(),
            kind,
        ).sources(),
{
    let index = find_modifier(stack, kind);
    if index >= stack.len() {
        return None;
    }
    assert(stack.deep_view()[index as int] == stack[index as int].deep_view());
    match &stack[index] {
        Modifier::At(sources) => Some(clone_sources(sources)),
        Modifier::To(sources) => Some(clone_sources(sources)),
        Modifier::For(_) => {
            let list: Vec<StringSource> = Vec::new();
            assert(list.deep_view() =~= Seq::<StringSourceView>::empty());
            Some(list)
        },
    }
}

/// The pattern of the first `for`, copied; none where the stack holds none.
fn selector_of(stack: &Vec<Modifier>) -> (selector: Option<String>)
    ensures
        selector is Some == has_kind(stack.deep_view(), ModifierKind::For),
        selector matches Some(text) ==> text@ == first_of(
            stack.deep_view(),
            ModifierKind::For,
        )->For_0,
{
    let index = find_modifier(stack, ModifierKind::For);
    if index >= stack.len() {
        return None;
    }
    assert(stack.deep_view()[index as int] == stack[index as int].deep_view());
    match &stack[index] {
        Modifier::For(pattern) => Some(pattern.clone()),
        _ => None,
    }
}

/// Checks a chain that is submitted at `position` and builds its
/// instruction.
pub fn check_chain(chain: &Chain, position: Position) -> (outcome: (
    Option<Node<Instruction>>,
    Vec<Error>,
))
    ensures
        (option_view(outcome.0), outcome.1.deep_view()) == submission(
            chain.deep_view(),
            position,
        ),
{
    let mut errors: Vec<Error> = Vec::new();
    assert(errors.deep_view() =~= Seq::<ErrorView>::empty());
    match &chain.command {
        None => {
            let error = Error::other("Chain does not contain an active command.", position);
            errors.push(error);
            assert(errors.deep_view() =~= seq![error.deep_view()]);
            (None, errors)
        },
        Some(Command::Copy(keyword)) => {
            if find_modifier(&chain.stack, ModifierKind::For) < chain.stack.len() {
                let error = Error::other(
                    "Copy command can only be used under 'at' and 'to' modifiers.",
                    *keyword,
                );
                errors.push(error);
                assert(errors.deep_view() =~= seq![error.deep_view()]);
            }
            let ghost misuse = errors.deep_view();
            let source = sources_of(&chain.stack, ModifierKind::At);
            let target = sources_of(&chain.stack, ModifierKind::To);
            match (source, target) {
                (None, _) => {
                    let error = Error::other("Copy command requires an 'at' modifier.", *keyword);
                    errors.push(error);
                    assert(errors.deep_view() =~= misuse.push(error.deep_view()));
                    (None, errors)
                },
                (Some(_), None) => {
                    let error = Error::other("Copy command requires a 'to' modifier.", *keyword);
                    errors.push(error);
                    assert(errors.deep_view() =~= misuse.push(error.deep_view()));
                    (None, errors)
                },
                (Some(source), Some(target)) => (
                    Some(Node::new(Instruction::Copy { source, target }, *keyword)),
                    errors,
                ),
            }
        },
        Some(Command::Write(value, keyword)) => {
            if find_modifier(&chain.stack, ModifierKind::At) < chain.stack.len() {
                let error = Error::other(
                    "Write command can only be used under 'for' and 'to' modifiers.",
                    *keyword,
                );
                errors.push(error);
                assert(errors.deep_view() =~= seq![error.deep_view()]);
            }
            let ghost misuse = errors.deep_view();
            let selector = selector_of(&chain.stack);
            let target = sources_of(&chain.stack, ModifierKind::To);
            match (selector, target) {
                (None, _) => {
                    let error = Error::other("Write command requires a 'for' modifier.", *keyword);
                    errors.push(error);
                    assert(errors.deep_view() =~= misuse.push(error.deep_view()));
                    (None, errors)
                },
                (Some(_), None) => {
                    let error = Error::other("Write command requires a 'to' modifier.", *keyword);
                    errors.push(error);
                    assert(errors.deep_view() =~= misuse.push(error.deep_view()));
                    (None, errors)
                },
                (Some(selector), Some(target)) => (
                    Some(
                        Node::new(
                            Instruction::Write { value: value.clone(), selector, target },
                            *keyword,
                        ),
                    ),
                    errors,
                ),
            }
        },
    }
}

/// Submits a chain at `position`: throws its errors, then pushes its
/// instruction.
pub fn submit(collection: &mut Collection<Instruction>, chain: &Chain, position: Position)
    ensures
        final(collection).deep_view() == submitted(
            old(collection).deep_view(),
            chain.deep_view(),
            position,
        ),
{
    let outcome = check_chain(chain, position);
    collection.throw_each(outcome.1);
    match outcome.0 {
        Some(instruction) => {
            collection.push(instruction);
        },
        None => {},
    }
}

/// The chain that a statement starts from.
fn base_chain(scopes: &Vec<Scope>) -> (chain: Chain)
    ensures
        chain.deep_view() == base_of(scopes.deep_view()),
{
    if scopes.len() == 0 {
        Chain::new()
    } else {
        assert(scopes.deep_view().last() == scopes[scopes.len() - 1].deep_view());
        scopes[scopes.len() - 1].base.clone()
    }
}

/// Parses a command script. Every error is kept and reading goes on after
/// it, so that one pass reports every mistake of the script.
pub fn parse_commands(tokens: Vec<Node<Token>>) -> (instructions: Collection<Instruction>)
    ensures
        instructions.deep_view() == commands_of(tokens.deep_view()),
{
    let mut collection: Collection<Instruction> = Collection::new();
    let mut scopes: Vec<Scope> = Vec::new();
    let mut chain = Chain::new();
    let mut pending = false;
    let mut i: usize = 0;
    let ghost all = tokens.deep_view();
    assert(scopes.deep_view() =~= Seq::<ScopeView>::empty());
    while i < tokens.len()
        invariant
            i <= tokens.len(),
            all == tokens.deep_view(),
            commands_from(
                all,
                i as int,
                scopes.deep_view(),
                chain.deep_view(),
                pending,
                collection.deep_view(),
            ) == commands_of(all),
        decreases tokens.len() - i,
    {
        assert(all[i as int] == tokens[i as int].deep_view());
        let position = tokens[i].position;
        let ghost open = scopes.deep_view();
        if is_symbol(&tokens, i, ';') {
            submit(&mut collection, &chain, position);
            chain = base_chain(&scopes);
            pending = false;
            i = i + 1;
        } else if is_symbol(&tokens, i, '{') {
            let scope = Scope { base: chain.clone(), opened: position };
            scopes.push(scope);
            assert(scopes.deep_view() =~= open.push(scope.deep_view()));
            pending = false;
            i = i + 1;
        } else if is_symbol(&tokens, i, '}') && scopes.len() > 0 {
            if pending {
                submit(&mut collection, &chain, position);
            }
            scopes.pop();
            assert(scopes.deep_view() =~= open.drop_last());
            chain = base_chain(&scopes);
            pending = false;
            i = i + 1;
        } else {
            let read = read_block(&tokens, i, &mut chain);
            match read.0 {
                Some(error) => {
                    collection.throw(error);
                },
                None => {},
            }
            pending = true;
            i = read.1;
        }
    }
    // The input has ended: every scope that is still open is an error.
    while scopes.len() > 0
        invariant
            unclosed(collection.deep_view(), scopes.deep_view()) == commands_of(all),
        decreases scopes.len(),
    {
        let ghost open = scopes.deep_view();
        assert(open.last() == scopes[scopes.len() - 1].deep_view());
        let scope = scopes.pop().unwrap();
        assert(scopes.deep_view() =~= open.drop_last());
        collection.throw(Error::end_of_file("}", scope.opened));
    }
    collection
}

} // verus!
