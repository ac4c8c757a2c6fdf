//! The token builder: reads fragments and resolves the literal forms that
//! span several of them.

use vstd::prelude::*;
use vstd::string::StringExecFns;
use crate::collection::{lemma_keeps, Collection, CollectionView};
use crate::error::{option_view, result_view, Error, ErrorView};
use crate::fragment::{Fragment, FragmentView};
use crate::node::{Node, NodeView};
use crate::text::{all_digits, ch_to_str, integer_value, parse_integer, to_chars};
use crate::value::{
    decimal_written, Decimal, DecimalView, NumberValue, NumberView, Range, StringExpression,
    StringPart, StringPartView, Value, ValueView,
};

verus! {

/// A lexical unit ready for a grammar.
#[derive(Debug, PartialEq, Eq)]
pub enum Token {
    /// A bare word: a keyword, a type name or a field name.
    Segment(String),
    /// The name that followed a `$`.
    Identifier(String),
    /// A single symbol.
    Symbol(char),
    /// A literal.
    Value(Value),
}

/// The mathematical model of a [`Token`].
pub enum TokenView {
    Segment(Seq<char>),
    Identifier(Seq<char>),
    Symbol(char),
    Value(ValueView),
}

impl DeepView for Token {
    type V = TokenView;

    open spec fn deep_view(&self) -> TokenView {
        match self {
            Token::Segment(text) => TokenView::Segment(text@),
            Token::Identifier(name) => TokenView::Identifier(name@),
            Token::Symbol(ch) => TokenView::Symbol(*ch),
            Token::Value(value) => TokenView::Value(value.deep_view()),
        }
    }
}

impl TokenView {
    /// How an error message names the token.
    pub open spec fn describe(self) -> Seq<char> {
        match self {
            TokenView::Segment(text) => text,
            TokenView::Identifier(name) => "identifier '"@ + name + "'"@,
            TokenView::Symbol(ch) => "symbol '"@ + seq![ch] + "'"@,
            TokenView::Value(value) => value.describe(),
        }
    }
}

impl Clone for Token {
    fn clone(&self) -> (copy: Self)
        ensures
            copy.deep_view() == self.deep_view(),
    {
        match self {
            Token::Segment(text) => Token::Segment(text.clone()),
            Token::Identifier(name) => Token::Identifier(name.clone()),
            Token::Symbol(ch) => Token::Symbol(*ch),
            Token::Value(value) => Token::Value(value.clone()),
        }
    }
}

impl Token {
    /// How an error message names the token.
    pub fn describe(&self) -> (text: String)
        ensures
            text@ == self.deep_view().describe(),
    {
        match self {
            Token::Segment(segment) => segment.clone(),
            Token::Identifier(name) => {
                let mut text = String::from_str("identifier '");
                text.append(name.as_str());
                text.append("'");
                text
            },
            Token::Symbol(ch) => {
                let mut text = String::from_str("symbol '");
                let symbol = ch_to_str(*ch);
                text.append(symbol.as_str());
                text.append("'");
                text
            },
            Token::Value(value) => value.describe(),
        }
    }
}

/// True when the fragment at `at` is the symbol `ch`.
pub open spec fn symbol_at(fragments: Seq<NodeView<FragmentView>>, at: int, ch: char) -> bool {
    0 <= at < fragments.len() && fragments[at].data == FragmentView::Symbol(ch)
}

/// True when the fragment at `at` is a run of digits.
pub open spec fn numeric_at(fragments: Seq<NodeView<FragmentView>>, at: int) -> bool {
    0 <= at < fragments.len() && fragments[at].data is Numeric
}

/// True when the fragment at `at` is a word with a letter in it.
pub open spec fn alphanumeric_at(fragments: Seq<NodeView<FragmentView>>, at: int) -> bool {
    0 <= at < fragments.len() && fragments[at].data is AlphaNumeric
}

/// The error for a number that cannot be read.
pub open spec fn unreadable(message: Seq<char>, fragments: Seq<NodeView<FragmentView>>, at: int)
    -> ErrorView {
    ErrorView::Other { message, position: fragments[at].position }
}

/// The token that begins with the run of digits at `at`, and the index of
/// the first fragment after it. Three forms, told apart by the fragments
/// that follow: `base..end` is a range, `base.fraction` a decimal, and
/// anything else leaves `base` an integer on its own. A form takes its
/// fragments whether or not its numbers can be read.
pub open spec fn number_at(fragments: Seq<NodeView<FragmentView>>, at: int) -> (
    Result<TokenView, ErrorView>,
    int,
) {
    let base = fragments[at].data->Numeric_0;
    if symbol_at(fragments, at + 1, '.') && symbol_at(fragments, at + 2, '.') && numeric_at(
        fragments,
        at + 3,
    ) {
        let end = fragments[at + 3].data->Numeric_0;
        (
            match integer_value(base) {
                None => Err(unreadable("Failed to parse range begin"@, fragments, at)),
                Some(begin) => match integer_value(end) {
                    None => Err(unreadable("Failed to parse range end"@, fragments, at + 3)),
                    Some(end) => Ok(TokenView::Value(ValueView::Range(Range { begin, end }))),
                },
            },
            at + 4,
        )
    } else if symbol_at(fragments, at + 1, '.') && numeric_at(fragments, at + 2) {
        let fraction = fragments[at + 2].data->Numeric_0;
        (
            if decimal_written(base, fraction) {
                Ok(
                    TokenView::Value(
                        ValueView::Number(
                            NumberView::Decimal(DecimalView { whole: base, fraction }),
                        ),
                    ),
                )
            } else {
                Err(unreadable("Failed to parse decimal"@, fragments, at))
            },
            at + 3,
        )
    } else {
        (
            match integer_value(base) {
                Some(value) => Ok(TokenView::Value(ValueView::Number(NumberView::Integer(value)))),
                None => Err(unreadable("Failed to parse integer"@, fragments, at)),
            },
            at + 1,
        )
    }
}

/// The parts of a string literal once the pending text is closed: a literal
/// part is added for it unless it is empty.
pub open spec fn flushed(parts: Seq<StringPartView>, pending: Seq<char>) -> Seq<StringPartView> {
    if pending.len() == 0 {
        parts
    } else {
        parts.push(StringPartView::Literal(pending))
    }
}

/// The pending text of a string literal after a word is added. White space
/// is not a fragment, so two words in a row were parted by some: one space is
/// put back between them.
pub open spec fn with_word(pending: Seq<char>, word: Seq<char>, after_word: bool) -> Seq<char> {
    if after_word {
        pending.push(' ') + word
    } else {
        pending + word
    }
}

/// The rest of a string literal, read from the fragment at `at` on, with the
/// parts closed so far, the text of the literal part that is open, and
/// whether the last fragment was a word. The result is the parts of the
/// whole literal and the index after its closing quote, or nothing, with the
/// number of fragments, where the input ends before the quote.
///
/// A backslash takes the fragment after it as plain text. A `$` before an
/// alphanumeric fragment closes the open literal part and adds a variable;
/// any other `$` is plain text. A `"` that no backslash precedes ends the
/// literal.
pub open spec fn string_from(
    fragments: Seq<NodeView<FragmentView>>,
    at: int,
    parts: Seq<StringPartView>,
    pending: Seq<char>,
    after_word: bool,
) -> (Option<Seq<StringPartView>>, int)
    decreases fragments.len() - at,
{
    if at < 0 || at >= fragments.len() {
        (None, fragments.len() as int)
    } else {
        match fragments[at].data {
            FragmentView::AlphaNumeric(word) => string_from(
                fragments,
                at + 1,
                parts,
                with_word(pending, word, after_word),
                true,
            ),
            FragmentView::Numeric(word) => string_from(
                fragments,
                at + 1,
                parts,
                with_word(pending, word, after_word),
                true,
            ),
            FragmentView::Symbol(ch) => if ch == '\\' {
                if at + 1 >= fragments.len() {
                    (None, fragments.len() as int)
                } else {
                    string_from(
                        fragments,
                        at + 2,
                        parts,
                        pending + fragments[at + 1].data.content(),
                        false,
                    )
                }
            } else if ch == '"' {
                (Some(flushed(parts, pending)), at + 1)
            } else if ch == '$' && alphanumeric_at(fragments, at + 1) {
                string_from(
                    fragments,
                    at + 2,
                    flushed(parts, pending).push(
                        StringPartView::Variable(fragments[at + 1].data->AlphaNumeric_0),
                    ),
                    Seq::empty(),
                    false,
                )
            } else {
                string_from(fragments, at + 1, parts, pending.push(ch), false)
            },
        }
    }
}

/// The rest of a regular expression, read from the fragment at `at` on, with
/// the text gathered so far. The result is the whole text and the index
/// after the closing `/`, or nothing, with the number of fragments, where
/// the input ends before it. A backslash takes the fragment after it as
/// plain text.
pub open spec fn regex_from(fragments: Seq<NodeView<FragmentView>>, at: int, text: Seq<char>) -> (
    Option<Seq<char>>,
    int,
)
    decreases fragments.len() - at,
{
    if at < 0 || at >= fragments.len() {
        (None, fragments.len() as int)
    } else if fragments[at].data == FragmentView::Symbol('\\') {
        if at + 1 >= fragments.len() {
            (None, fragments.len() as int)
        } else {
            regex_from(fragments, at + 2, text + fragments[at + 1].data.content())
        }
    } else if fragments[at].data == FragmentView::Symbol('/') {
        (Some(text), at + 1)
    } else {
        regex_from(fragments, at + 1, text + fragments[at].data.content())
    }
}

/// The identifier that follows the `$` at `at`: the next fragment if it is
/// alphanumeric. Any other fragment is unexpected and stays unread; no
/// fragment at all is the end of the input.
pub open spec fn identifier_at(fragments: Seq<NodeView<FragmentView>>, at: int) -> (
    Result<TokenView, ErrorView>,
    int,
) {
    if alphanumeric_at(fragments, at + 1) {
        (Ok(TokenView::Identifier(fragments[at + 1].data->AlphaNumeric_0)), at + 2)
    } else if at + 1 < fragments.len() {
        (
            Err(
                ErrorView::Unexpected {
                    expected: "identifier"@,
                    received: fragments[at + 1].data.describe(),
                    position: fragments[at + 1].position,
                },
            ),
            at + 1,
        )
    } else {
        (
            Err(ErrorView::EndOfFile { expected: "identifier"@, position: fragments[at].position }),
            at + 1,
        )
    }
}

/// The token that begins at the fragment at `at`, or the error met while
/// reading it, and the index of the first fragment after it.
pub open spec fn token_at(fragments: Seq<NodeView<FragmentView>>, at: int) -> (
    Result<TokenView, ErrorView>,
    int,
) {
    match fragments[at].data {
        FragmentView::AlphaNumeric(word) => (Ok(TokenView::Segment(word)), at + 1),
        FragmentView::Numeric(_) => number_at(fragments, at),
        FragmentView::Symbol(ch) => if ch == '"' {
            let read = string_from(fragments, at + 1, Seq::empty(), Seq::empty(), false);
            match read.0 {
                Some(parts) => (Ok(TokenView::Value(ValueView::String(parts))), read.1),
                None => (
                    Err(
                        ErrorView::EndOfFile {
                            expected: "\""@,
                            position: fragments[at].position,
                        },
                    ),
                    read.1,
                ),
            }
        } else if ch == '/' {
            let read = regex_from(fragments, at + 1, Seq::empty());
            match read.0 {
                Some(text) => (Ok(TokenView::Value(ValueView::Regex(text))), read.1),
                None => (
                    Err(
                        ErrorView::EndOfFile { expected: "/"@, position: fragments[at].position },
                    ),
                    read.1,
                ),
            }
        } else if ch == '$' {
            identifier_at(fragments, at)
        } else {
            (Ok(TokenView::Symbol(ch)), at + 1)
        },
    }
}

/// A string literal ends after the place where its rest began.
pub proof fn lemma_string_advances(
    fragments: Seq<NodeView<FragmentView>>,
    at: int,
    parts: Seq<StringPartView>,
    pending: Seq<char>,
    after_word: bool,
)
    requires
        0 <= at <= fragments.len(),
    ensures
        at <= string_from(fragments, at, parts, pending, after_word).1 <= fragments.len(),
        string_from(fragments, at, parts, pending, after_word).0 is Some ==> at < string_from(
            fragments,
            at,
            parts,
            pending,
            after_word,
        ).1,
        string_from(fragments, at, parts, pending, after_word).0 is None ==> string_from(
            fragments,
            at,
            parts,
            pending,
            after_word,
        ).1 == fragments.len(),
    decreases fragments.len() - at,
{
    if at < fragments.len() {
        match fragments[at].data {
            FragmentView::AlphaNumeric(word) => {
                lemma_string_advances(
                    fragments,
                    at + 1,
                    parts,
                    with_word(pending, word, after_word),
                    true,
                );
            },
            FragmentView::Numeric(word) => {
                lemma_string_advances(
                    fragments,
                    at + 1,
                    parts,
                    with_word(pending, word, after_word),
                    true,
                );
            },
            FragmentView::Symbol(ch) => {
                if ch == '\\' {
                    if at + 1 < fragments.len() {
                        lemma_string_advances(
                            fragments,
                            at + 2,
                            parts,
                            pending + fragments[at + 1].data.content(),
                            false,
                        );
                    }
                } else if ch == '"' {
                } else if ch == '$' && alphanumeric_at(fragments, at + 1) {
                    lemma_string_advances(
                        fragments,
                        at + 2,
                        flushed(parts, pending).push(
                            StringPartView::Variable(fragments[at + 1].data->AlphaNumeric_0),
                        ),
                        Seq::empty(),
                        false,
                    );
                } else {
                    lemma_string_advances(fragments, at + 1, parts, pending.push(ch), false);
                }
            },
        }
    }
}

/// A regular expression ends after the place where its rest began.
pub proof fn lemma_regex_advances(
    fragments: Seq<NodeView<FragmentView>>,
    at: int,
    text: Seq<char>,
)
    requires
        0 <= at <= fragments.len(),
    ensures
        at <= regex_from(fragments, at, text).1 <= fragments.len(),
        regex_from(fragments, at, text).0 is None ==> regex_from(fragments, at, text).1
            == fragments.len(),
    decreases fragments.len() - at,
{
    if at < fragments.len() {
        if fragments[at].data == FragmentView::Symbol('\\') {
            if at + 1 < fragments.len() {
                lemma_regex_advances(fragments, at + 2, text + fragments[at + 1].data.content());
            }
        } else if fragments[at].data == FragmentView::Symbol('/') {
        } else {
            lemma_regex_advances(fragments, at + 1, text + fragments[at].data.content());
        }
    }
}

/// Every token takes at least one fragment, so the token builder always
/// moves on.
pub proof fn lemma_token_advances(fragments: Seq<NodeView<FragmentView>>, at: int)
    requires
        0 <= at < fragments.len(),
    ensures
        at < token_at(fragments, at).1 <= fragments.len(),
{
    lemma_string_advances(fragments, at + 1, Seq::empty(), Seq::empty(), false);
    lemma_regex_advances(fragments, at + 1, Seq::empty());
}

/// A string or a regular expression that never ends is fatal: it takes every
/// fragment that is left, so that nothing is read after it, and the
/// collection it is thrown into is what the token builder returns.
pub proof fn lemma_unterminated_is_fatal(
    fragments: Seq<NodeView<FragmentView>>,
    at: int,
    collection: CollectionView<TokenView>,
)
    requires
        0 <= at < fragments.len(),
        token_at(fragments, at).0 matches Err(ErrorView::EndOfFile { expected, .. }) && (expected
            == "\""@ || expected == "/"@),
    ensures
        token_at(fragments, at).1 == fragments.len(),
        tokens_from(fragments, at, collection) == collection.throw(
            token_at(fragments, at).0->Err_0,
        ),
{
    reveal_strlit("\"");
    reveal_strlit("/");
    reveal_strlit("identifier");
    lemma_string_advances(fragments, at + 1, Seq::empty(), Seq::empty(), false);
    lemma_regex_advances(fragments, at + 1, Seq::empty());
    assert("identifier"@.len() == 10);
    assert("\""@.len() == 1);
    assert("/"@.len() == 1);
    let thrown = collection.throw(token_at(fragments, at).0->Err_0);
    assert(tokens_from(fragments, fragments.len() as int, thrown) == thrown);
}

/// The collection after the fragments from `at` on are read into
/// `collection`: each token is pushed at the position of its first fragment,
/// each error is thrown, and reading goes on after either.
pub open spec fn tokens_from(
    fragments: Seq<NodeView<FragmentView>>,
    at: int,
    collection: CollectionView<TokenView>,
) -> CollectionView<TokenView>
    decreases fragments.len() - at,
{
    if at < 0 || at >= fragments.len() {
        collection
    } else {
        proof {
            lemma_token_advances(fragments, at);
        }
        let read = token_at(fragments, at);
        tokens_from(
            fragments,
            read.1,
            match read.0 {
                Ok(token) => collection.push(
                    NodeView { data: token, position: fragments[at].position },
                ),
                Err(error) => collection.throw(error),
            },
        )
    }
}

/// The token builder never forgets an error: a collection that has failed
/// is still failed when every fragment is read, and the errors it held come
/// first in the result.
pub proof fn lemma_tokens_keep_errors(
    fragments: Seq<NodeView<FragmentView>>,
    at: int,
    collection: CollectionView<TokenView>,
)
    ensures
        tokens_from(fragments, at, collection).keeps(collection),
    decreases fragments.len() - at,
{
    if 0 <= at < fragments.len() {
        lemma_token_advances(fragments, at);
        let read = token_at(fragments, at);
        let node = NodeView { data: read.0->Ok_0, position: fragments[at].position };
        let next = match read.0 {
            Ok(token) => collection.push(node),
            Err(error) => collection.throw(error),
        };
        lemma_keeps(collection, node, read.0->Err_0, Seq::empty());
        lemma_tokens_keep_errors(fragments, read.1, next);
        assert(tokens_from(fragments, at, collection) == tokens_from(fragments, read.1, next));
    }
}

/// The tokens of a sequence of fragments, or the errors met while reading it.
pub open spec fn tokens_of(fragments: Seq<NodeView<FragmentView>>) -> CollectionView<TokenView> {
    tokens_from(fragments, 0, CollectionView::empty())
}

/// True when the fragment at `at` is the symbol `ch`.
pub fn is_symbol_at(fragments: &Vec<Node<Fragment>>, at: usize, ch: char) -> (answer: bool)
    ensures
        answer == symbol_at(fragments.deep_view(), at as int, ch),
{
    if at >= fragments.len() {
        return false;
    }
    match &fragments[at].data {
        Fragment::Symbol(symbol) => *symbol == ch,
        _ => false,
    }
}

/// True when the fragment at `at` is a run of digits.
pub fn is_numeric_at(fragments: &Vec<Node<Fragment>>, at: usize) -> (answer: bool)
    ensures
        answer == numeric_at(fragments.deep_view(), at as int),
{
    if at >= fragments.len() {
        return false;
    }
    match &fragments[at].data {
        Fragment::Numeric(_) => true,
        _ => false,
    }
}

/// True when the fragment at `at` is a word with a letter in it.
pub fn is_alphanumeric_at(fragments: &Vec<Node<Fragment>>, at: usize) -> (answer: bool)
    ensures
        answer == alphanumeric_at(fragments.deep_view(), at as int),
{
    if at >= fragments.len() {
        return false;
    }
    match &fragments[at].data {
        Fragment::AlphaNumeric(_) => true,
        _ => false,
    }
}

/// The text of the word at `at`; empty for a symbol.
fn word_at(fragments: &Vec<Node<Fragment>>, at: usize) -> (text: String)
    requires
        at < fragments.len(),
    ensures
        fragments.deep_view()[at as int].data matches FragmentView::AlphaNumeric(word) ==> text@
            == word,
        fragments.deep_view()[at as int].data matches FragmentView::Numeric(word) ==> text@
            == word,
{
    match &fragments[at].data {
        Fragment::AlphaNumeric(word) => word.clone(),
        Fragment::Numeric(word) => word.clone(),
        Fragment::Symbol(_) => String::new(),
    }
}

/// True when every character of `text` is an ASCII digit.
pub fn written_in_digits(text: &str) -> (answer: bool)
    ensures
        answer == all_digits(text@),
{
    let chars = to_chars(text);
    let mut i: usize = 0;
    while i < chars.len()
        invariant
            i <= chars.len(),
            chars@ == text@,
            all_digits(text@.take(i as int)),
        decreases chars.len() - i,
    {
        let ch = chars[i];
        if !('0' <= ch && ch <= '9') {
            assert(text@[i as int] == ch);
            return false;
        }
        i = i + 1;
        assert forall|k: int| 0 <= k < i implies crate::text::is_digit(
            #[trigger] text@.take(i as int)[k],
        ) by {
            if k < i - 1 {
                assert(text@.take(i - 1)[k] == text@.take(i as int)[k]);
            }
        }
    }
    assert(text@.take(i as int) =~= text@);
    true
}

/// Reads the number that begins with the run of digits at `at`.
pub fn read_number(fragments: &Vec<Node<Fragment>>, at: usize) -> (read: (
    Result<Token, Error>,
    usize,
))
    requires
        numeric_at(fragments.deep_view(), at as int),
    ensures
        (result_view(read.0), read.1 as int) == number_at(fragments.deep_view(), at as int),
        at < read.1 <= fragments.len(),
{
    let base = word_at(fragments, at);
    let position = fragments[at].position;
    let room: usize = fragments.len() - at;
    assert(fragments.deep_view().len() == fragments.len());
    if room > 3 && is_symbol_at(fragments, at + 1, '.') && is_symbol_at(fragments, at + 2, '.')
        && is_numeric_at(fragments, at + 3) {
        let end = word_at(fragments, at + 3);
        let outcome = match parse_integer(base.as_str()) {
            None => Err(Error::other("Failed to parse range begin", position)),
            Some(begin) => match parse_integer(end.as_str()) {
                None => Err(Error::other("Failed to parse range end", fragments[at + 3].position)),
                Some(end) => Ok(Token::Value(Value::Range(Range::new(begin, end)))),
            },
        };
        (outcome, at + 4)
    } else if room > 2 && is_symbol_at(fragments, at + 1, '.') && is_numeric_at(
        fragments,
        at + 2,
    ) {
        let fraction = word_at(fragments, at + 2);
        let written = written_in_digits(base.as_str()) && written_in_digits(fraction.as_str())
            && !(base.as_str().is_empty() && fraction.as_str().is_empty());
        let outcome = if written {
            Ok(Token::Value(Value::Number(NumberValue::Decimal(Decimal { whole: base, fraction }))))
        } else {
            Err(Error::other("Failed to parse decimal", position))
        };
        (outcome, at + 3)
    } else {
        let outcome = match parse_integer(base.as_str()) {
            Some(value) => Ok(Token::Value(Value::Number(NumberValue::Integer(value)))),
            None => Err(Error::other("Failed to parse integer", position)),
        };
        (outcome, at + 1)
    }
}

/// Closes the open literal part of a string: `pending` becomes a part unless
/// it is empty.
fn flush(parts: &mut Vec<StringPart>, pending: String)
    ensures
        final(parts).deep_view() == flushed(old(parts).deep_view(), pending@),
{
    if !pending.as_str().is_empty() {
        let ghost before = parts.deep_view();
        let part = StringPart::Literal(pending);
        parts.push(part);
        assert(parts.deep_view() =~= before.push(part.deep_view()));
    }
}

/// Reads the rest of a string literal, from the fragment after its opening
/// quote on.
pub fn read_string(fragments: &Vec<Node<Fragment>>, from: usize) -> (read: (
    Option<StringExpression>,
    usize,
))
    requires
        from <= fragments.len(),
    ensures
        (option_view(read.0), read.1 as int) == string_from(
            fragments.deep_view(),
            from as int,
            Seq::empty(),
            Seq::empty(),
            false,
        ),
        from <= read.1 <= fragments.len(),
{
    let mut parts: Vec<StringPart> = Vec::new();
    let mut pending = String::new();
    let mut after_word = false;
    let mut i: usize = from;
    let ghost all = fragments.deep_view();
    let ghost whole = string_from(all, from as int, Seq::empty(), Seq::empty(), false);
    assert(parts.deep_view() =~= Seq::<StringPartView>::empty());
    proof {
        lemma_string_advances(all, from as int, Seq::empty(), Seq::empty(), false);
    }
    while i < fragments.len()
        invariant
            from <= i <= fragments.len(),
            all == fragments.deep_view(),
            from <= whole.1 <= fragments.len(),
            whole == string_from(all, from as int, Seq::empty(), Seq::empty(), false),
            string_from(all, i as int, parts.deep_view(), pending@, after_word) == whole,
        decreases fragments.len() - i,
    {
        let ghost parts_before = parts.deep_view();
        assert(all[i as int].data == fragments[i as int].data.deep_view());
        match &fragments[i].data {
            Fragment::AlphaNumeric(word) => {
                if after_word {
                    pending.push(' ');
                }
                pending.append(word.as_str());
                after_word = true;
                i = i + 1;
            },
            Fragment::Numeric(word) => {
                if after_word {
                    pending.push(' ');
                }
                pending.append(word.as_str());
                after_word = true;
                i = i + 1;
            },
            Fragment::Symbol(ch) => {
                if *ch == '\\' {
                    if i + 1 >= fragments.len() {
                        return (None, fragments.len());
                    }
                    assert(all[i + 1].data == fragments[i + 1].data.deep_view());
                    let escaped = fragments[i + 1].data.content();
                    pending.append(escaped.as_str());
                    after_word = false;
                    i = i + 2;
                } else if *ch == '"' {
                    flush(&mut parts, pending);
                    return (Some(StringExpression { parts }), i + 1);
                } else if *ch == '$' && is_alphanumeric_at(fragments, i + 1) {
                    assert(all[i + 1].data == fragments[i + 1].data.deep_view());
                    let name = word_at(fragments, i + 1);
                    flush(&mut parts, pending);
                    let ghost closed = parts.deep_view();
                    let part = StringPart::Variable(name);
                    parts.push(part);
                    assert(parts.deep_view() =~= closed.push(part.deep_view()));
                    pending = String::new();
                    after_word = false;
                    i = i + 2;
                } else {
                    pending.push(*ch);
                    after_word = false;
                    i = i + 1;
                }
            },
        }
    }
    (None, fragments.len())
}

/// Reads the rest of a regular expression, from the fragment after its
/// opening `/` on.
pub fn read_regex(fragments: &Vec<Node<Fragment>>, from: usize) -> (read: (Option<String>, usize))
    requires
        from <= fragments.len(),
    ensures
        (
            match read.0 {
                Some(text) => Some(text@),
                None => None,
            },
            read.1 as int,
        ) == regex_from(fragments.deep_view(), from as int, Seq::empty()),
        from <= read.1 <= fragments.len(),
{
    let mut text = String::new();
    let mut i: usize = from;
    let ghost all = fragments.deep_view();
    let ghost whole = regex_from(all, from as int, Seq::empty());
    proof {
        lemma_regex_advances(all, from as int, Seq::empty());
    }
    while i < fragments.len()
        invariant
            from <= i <= fragments.len(),
            all == fragments.deep_view(),
            from <= whole.1 <= fragments.len(),
            whole == regex_from(all, from as int, Seq::empty()),
            regex_from(all, i as int, text@) == whole,
        decreases fragments.len() - i,
    {
        assert(all[i as int].data == fragments[i as int].data.deep_view());
        if is_symbol_at(fragments, i, '\\') {
            if i + 1 >= fragments.len() {
                return (None, fragments.len());
            }
            assert(all[i + 1].data == fragments[i + 1].data.deep_view());
            let escaped = fragments[i + 1].data.content();
            text.append(escaped.as_str());
            i = i + 2;
        } else if is_symbol_at(fragments, i, '/') {
            return (Some(text), i + 1);
        } else {
            let content = fragments[i].data.content();
            text.append(content.as_str());
            i = i + 1;
        }
    }
    (None, fragments.len())
}

/// Reads the identifier that follows the `$` at `at`.
pub fn read_identifier(fragments: &Vec<Node<Fragment>>, at: usize) -> (read: (
    Result<Token, Error>,
    usize,
))
    requires
        at < fragments.len(),
    ensures
        (result_view(read.0), read.1 as int) == identifier_at(fragments.deep_view(), at as int),
        at < read.1 <= fragments.len(),
{
    if is_alphanumeric_at(fragments, at + 1) {
        let name = word_at(fragments, at + 1);
        (Ok(Token::Identifier(name)), at + 2)
    } else if at + 1 < fragments.len() {
        assert(fragments.deep_view()[at + 1] == fragments[at + 1].deep_view());
        let received = fragments[at + 1].data.describe();
        (
            Err(Error::unexpected("identifier", received.as_str(), fragments[at + 1].position)),
            at + 1,
        )
    } else {
        (Err(Error::end_of_file("identifier", fragments[at].position)), at + 1)
    }
}

/// Reads the token that begins at the fragment at `at`.
pub fn read_token(fragments: &Vec<Node<Fragment>>, at: usize) -> (read: (
    Result<Token, Error>,
    usize,
))
    requires
        at < fragments.len(),
    ensures
        (result_view(read.0), read.1 as int) == token_at(fragments.deep_view(), at as int),
        at < read.1 <= fragments.len(),
{
    assert(fragments.deep_view()[at as int] == fragments[at as int].deep_view());
    proof {
        lemma_token_advances(fragments.deep_view(), at as int);
    }
    match &fragments[at].data {
        Fragment::AlphaNumeric(word) => (Ok(Token::Segment(word.clone())), at + 1),
        Fragment::Numeric(_) => read_number(fragments, at),
        Fragment::Symbol(ch) => {
            if *ch == '"' {
                let read = read_string(fragments, at + 1);
                match read.0 {
                    Some(expression) => (Ok(Token::Value(Value::String(expression))), read.1),
                    None => (Err(Error::end_of_file("\"", fragments[at].position)), read.1),
                }
            } else if *ch == '/' {
                let read = read_regex(fragments, at + 1);
                match read.0 {
                    Some(text) => (Ok(Token::Value(Value::Regex(text))), read.1),
                    None => (Err(Error::end_of_file("/", fragments[at].position)), read.1),
                }
            } else if *ch == '$' {
                read_identifier(fragments, at)
            } else {
                (Ok(Token::Symbol(*ch)), at + 1)
            }
        },
    }
}

/// Builds the tokens of `fragments`. Every error is kept and reading goes on
/// after it; a string or a regular expression that never ends takes the
/// rest of the input with it.
pub fn tokenize(fragments: Vec<Node<Fragment>>) -> (tokens: Collection<Token>)
    ensures
        tokens.deep_view() == tokens_of(fragments.deep_view()),
{
    let mut collection: Collection<Token> = Collection::new();
    let mut i: usize = 0;
    let ghost all = fragments.deep_view();
    while i < fragments.len()
        invariant
            i <= fragments.len(),
            all == fragments.deep_view(),
            tokens_from(all, i as int, collection.deep_view()) == tokens_of(all),
        decreases fragments.len() - i,
    {
        let read = read_token(&fragments, i);
        assert(all[i as int] == fragments[i as int].deep_view());
        match read.0 {
            Ok(token) => {
                collection.push(Node::new(token, fragments[i].position));
            },
            Err(error) => {
                collection.throw(error);
            },
        }
        i = read.1;
    }
    collection
}

} // verus!
