//! The whole front end, from source text to instructions or statements.

use vstd::prelude::*;
use crate::collection::{Collection, CollectionView};
use crate::commands::{commands_of, parse_commands, Instruction, InstructionView};
use crate::environment::{environment_of, parse_environment, Statement, StatementView};
use crate::fragment::{classified, fragmentize, fragments_of};
use crate::token::{tokenize, tokens_of, Token, TokenView};

verus! {

/// The tokens of a source text, or the errors met while building them.
pub open spec fn source_tokens(source: Seq<char>) -> CollectionView<TokenView> {
    tokens_of(fragments_of(classified(source)))
}

/// The instructions of a command script given as text. A script whose
/// tokens cannot be built is not parsed: the errors of the token builder are
/// the result.
pub open spec fn script_of(source: Seq<char>) -> CollectionView<InstructionView> {
    match source_tokens(source) {
        CollectionView::Okay(tokens) => commands_of(tokens),
        CollectionView::Failed(errors) => CollectionView::Failed(errors),
    }
}

/// The statements of a field schema given as text. A schema whose tokens
/// cannot be built is not parsed: the errors of the token builder are the
/// result.
pub open spec fn schema_of(source: Seq<char>) -> CollectionView<StatementView> {
    match source_tokens(source) {
        CollectionView::Okay(tokens) => environment_of(tokens),
        CollectionView::Failed(errors) => CollectionView::Failed(errors),
    }
}

/// Scans `source` and builds its tokens.
pub fn read_tokens(source: &str) -> (tokens: Collection<Token>)
    ensures
        tokens.deep_view() == source_tokens(source@),
{
    tokenize(fragmentize(source))
}

/// Reads a command script from its text.
pub fn read_script(source: &str) -> (instructions: Collection<Instruction>)
    ensures
        instructions.deep_view() == script_of(source@),
{
    match read_tokens(source) {
        Collection::Okay(tokens) => parse_commands(tokens),
        Collection::Failed(errors) => Collection::Failed(errors),
    }
}

/// Reads a field schema from its text.
pub fn read_schema(source: &str) -> (statements: Collection<Statement>)
    ensures
        statements.deep_view() == schema_of(source@),
{
    match read_tokens(source) {
        Collection::Okay(tokens) => parse_environment(tokens),
        Collection::Failed(errors) => Collection::Failed(errors),
    }
}

/// A source whose tokens cannot be built gives the same errors to both
/// grammars, and neither adds one of its own.
pub proof fn lemma_failed_tokens_stop_the_parsers(source: Seq<char>)
    requires
        source_tokens(source) is Failed,
    ensures
        script_of(source) == CollectionView::<InstructionView>::Failed(
            source_tokens(source)->Failed_0,
        ),
        schema_of(source) == CollectionView::<StatementView>::Failed(
            source_tokens(source)->Failed_0,
        ),
{
}

} // verus!
