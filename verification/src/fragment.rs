//! The fragment scanner: one pass over the source that groups characters into
//! words, numbers and single symbols, and drops white space.

use vstd::prelude::*;
use vstd::string::StringExecFns;
use crate::node::{Node, NodeView};
use crate::position::{lemma_position_after_push, lemma_position_bounded, position_after, Position};
use crate::text::{
    ch_to_str, char_class, char_is_alphanumeric, char_is_numeric, char_is_whitespace,
    is_word_class, to_chars, CharClass,
};

verus! {

/// A lexical unit one level below a token.
#[derive(Clone, Debug, PartialEq, Eq)]
pub enum Fragment {
    /// A run of digits and letters that holds at least one letter.
    AlphaNumeric(String),
    /// A run of digits.
    Numeric(String),
    /// One character that is neither digit, letter nor white space.
    Symbol(char),
}

/// The mathematical model of a [`Fragment`].
pub enum FragmentView {
    AlphaNumeric(Seq<char>),
    Numeric(Seq<char>),
    Symbol(char),
}

impl DeepView for Fragment {
    type V = FragmentView;

    open spec fn deep_view(&self) -> FragmentView {
        match self {
            Fragment::AlphaNumeric(text) => FragmentView::AlphaNumeric(text@),
            Fragment::Numeric(text) => FragmentView::Numeric(text@),
            Fragment::Symbol(ch) => FragmentView::Symbol(*ch),
        }
    }
}

impl FragmentView {
    /// The characters of the source that the fragment stands for.
    pub open spec fn content(self) -> Seq<char> {
        match self {
            FragmentView::AlphaNumeric(text) => text,
            FragmentView::Numeric(text) => text,
            FragmentView::Symbol(ch) => seq![ch],
        }
    }

    /// How an error message names the fragment.
    pub open spec fn describe(self) -> Seq<char> {
        match self {
            FragmentView::AlphaNumeric(text) => "AlphaNumeric ("@ + text + ")"@,
            FragmentView::Numeric(text) => "Numeric ("@ + text + ")"@,
            FragmentView::Symbol(ch) => "Symbol ("@ + seq![ch] + ")"@,
        }
    }
}

impl Fragment {
    /// The characters of the source that the fragment stands for.
    pub fn content(&self) -> (text: String)
        ensures
            text@ == self.deep_view().content(),
    {
        match self {
            Fragment::AlphaNumeric(text) => text.clone(),
            Fragment::Numeric(text) => text.clone(),
            Fragment::Symbol(ch) => ch_to_str(*ch),
        }
    }

    /// How an error message names the fragment.
    pub fn describe(&self) -> (text: String)
        ensures
            text@ == self.deep_view().describe(),
    {
        let mut text = match self {
            Fragment::AlphaNumeric(_) => String::from_str("AlphaNumeric ("),
            Fragment::Numeric(_) => String::from_str("Numeric ("),
            Fragment::Symbol(_) => String::from_str("Symbol ("),
        };
        let content = self.content();
        text.append(content.as_str());
        text.append(")");
        text
    }
}

/// A character of the source together with its class.
#[derive(Clone, Copy, Debug, PartialEq, Eq, Structural)]
pub struct Classified {
    pub ch: char,
    pub class: CharClass,
}

/// The character `ch` with the class that std gives it.
pub open spec fn cell_of(ch: char) -> Classified {
    Classified { ch, class: char_class(ch) }
}

impl Classified {
    /// The character `ch` with the class that std gives it.
    pub fn of(ch: char) -> (cell: Classified)
        ensures
            cell == cell_of(ch),
            in_words(cell),
    {
        Classified { ch, class: CharClass::of(ch) }
    }
}

/// True when the cell stands in a word exactly when its character is
/// alphanumeric.
pub open spec fn in_words(cell: Classified) -> bool {
    is_word_class(cell.class) == char_is_alphanumeric(cell.ch)
}

/// The characters of `text`, each with the class that std gives it.
pub open spec fn classified(text: Seq<char>) -> Seq<Classified> {
    text.map_values(|ch: char| cell_of(ch))
}

/// The characters of `cells`, without their classes.
pub open spec fn glyphs(cells: Seq<Classified>) -> Seq<char> {
    Seq::new(cells.len(), |i: int| cells[i].ch)
}

/// Where the word that holds the character at `from` ends: the index of the
/// first character at or after `from` that is no digit and no letter.
pub open spec fn run_end(cells: Seq<Classified>, from: int) -> int
    decreases cells.len() - from,
{
    if 0 <= from < cells.len() && is_word_class(cells[from].class) {
        run_end(cells, from + 1)
    } else {
        from
    }
}

/// True when every character of `cells[from..to]` is a digit.
pub open spec fn only_digits(cells: Seq<Classified>, from: int, to: int) -> bool {
    forall|i: int| from <= i < to ==> (#[trigger] cells[i]).class == CharClass::Digit
}

/// The word that `cells[from..to]` spells: a number when all of it is
/// digits, alphanumeric when a single letter stands anywhere in it.
pub open spec fn word(cells: Seq<Classified>, from: int, to: int) -> FragmentView {
    if only_digits(cells, from, to) {
        FragmentView::Numeric(glyphs(cells).subrange(from, to))
    } else {
        FragmentView::AlphaNumeric(glyphs(cells).subrange(from, to))
    }
}

/// The fragment that begins at index `at`, if one does: a word where a run
/// of digits and letters starts, a symbol at a character of class `Other`,
/// nothing inside a word or at white space. Its position is that of the
/// character at `at`.
pub open spec fn fragment_at(cells: Seq<Classified>, at: int) -> Option<NodeView<FragmentView>> {
    let position = position_after(glyphs(cells).take(at));
    if is_word_class(cells[at].class) {
        if at > 0 && is_word_class(cells[at - 1].class) {
            None
        } else {
            Some(NodeView { data: word(cells, at, run_end(cells, at)), position })
        }
    } else if cells[at].class == CharClass::Space {
        None
    } else {
        Some(NodeView { data: FragmentView::Symbol(cells[at].ch), position })
    }
}

/// The fragments that begin before index `until`, in order.
pub open spec fn fragments_until(cells: Seq<Classified>, until: int) -> Seq<
    NodeView<FragmentView>,
>
    decreases until,
{
    if until <= 0 {
        Seq::empty()
    } else {
        match fragment_at(cells, until - 1) {
            Some(fragment) => fragments_until(cells, until - 1).push(fragment),
            None => fragments_until(cells, until - 1),
        }
    }
}

/// The fragments of a classified source.
pub open spec fn fragments_of(cells: Seq<Classified>) -> Seq<NodeView<FragmentView>> {
    fragments_until(cells, cells.len() as int)
}

/// A run of digits and letters that stops at `to` ends there.
proof fn lemma_run_end(cells: Seq<Classified>, from: int, to: int)
    requires
        0 <= from <= to <= cells.len(),
        forall|i: int| from <= i < to ==> is_word_class((#[trigger] cells[i]).class),
        to == cells.len() || !is_word_class(cells[to].class),
    ensures
        run_end(cells, from) == to,
    decreases to - from,
{
    if from < to {
        lemma_run_end(cells, from + 1, to);
    }
}

/// No fragment begins inside a word.
proof fn lemma_inside_word(cells: Seq<Classified>, from: int, to: int)
    requires
        0 <= from < to <= cells.len(),
        forall|i: int| from <= i < to ==> is_word_class((#[trigger] cells[i]).class),
    ensures
        fragments_until(cells, to) == fragments_until(cells, from + 1),
    decreases to - from,
{
    if from + 1 < to {
        lemma_inside_word(cells, from, to - 1);
        assert(is_word_class(cells[to - 1].class));
        assert(is_word_class(cells[to - 2].class));
    }
}

/// Pairs every character of `source` with its class. The characters that
/// stand in words are the alphanumeric ones.
pub fn classify(source: &str) -> (cells: Vec<Classified>)
    ensures
        cells@ == classified(source@),
        forall|k: int| 0 <= k < cells@.len() ==> in_words(#[trigger] cells@[k]),
{
    let chars = to_chars(source);
    let mut cells: Vec<Classified> = Vec::new();
    let mut i: usize = 0;
    while i < chars.len()
        invariant
            i <= chars.len(),
            chars@ == source@,
            cells@.len() == i,
            forall|k: int| 0 <= k < i ==> #[trigger] cells@[k] == cell_of(source@[k]),
            forall|k: int| 0 <= k < i ==> in_words(#[trigger] cells@[k]),
        decreases chars.len() - i,
    {
        cells.push(Classified::of(chars[i]));
        i = i + 1;
    }
    assert(cells@ =~= classified(source@));
    cells
}

/// Scans characters whose classes are known: a single pass from left to
/// right, total on every input.
pub fn scan(cells: &Vec<Classified>) -> (fragments: Vec<Node<Fragment>>)
    ensures
        fragments.deep_view() == fragments_of(cells@),
{
    let mut fragments: Vec<Node<Fragment>> = Vec::new();
    let mut position = Position::new();
    let mut i: usize = 0;
    assert(glyphs(cells@).take(0) =~= Seq::<char>::empty());
    assert(fragments.deep_view() =~= fragments_until(cells@, 0));
    while i < cells.len()
        invariant
            i <= cells.len(),
            position == position_after(glyphs(cells@).take(i as int)),
            fragments.deep_view() == fragments_until(cells@, i as int),
            i == 0 || i == cells.len() || !(is_word_class(cells[i - 1].class) && is_word_class(
                cells[i as int].class,
            )),
        decreases cells.len() - i,
    {
        let cell = cells[i];
        let ghost before = fragments.deep_view();
        if cell.class.is_word() {
            let from: usize = i;
            let start = position;
            let mut text = String::new();
            let mut numeric = true;
            assert(text@ =~= glyphs(cells@).subrange(from as int, i as int));
            while i < cells.len() && cells[i].class.is_word()
                invariant
                    from <= i <= cells.len(),
                    position == position_after(glyphs(cells@).take(i as int)),
                    forall|k: int| from <= k < i ==> is_word_class((#[trigger] cells[k]).class),
                    numeric == only_digits(cells@, from as int, i as int),
                    text@ == glyphs(cells@).subrange(from as int, i as int),
                decreases cells.len() - i,
            {
                let ch = cells[i].ch;
                text.push(ch);
                let digit = cells[i].class == CharClass::Digit;
                proof {
                    let read = glyphs(cells@).take(i as int);
                    lemma_position_bounded(read);
                    lemma_position_after_push(read, ch);
                    assert(read.push(ch) =~= glyphs(cells@).take(i + 1));
                    if numeric && digit {
                        assert(only_digits(cells@, from as int, i + 1));
                    } else if !digit {
                        assert(cells@[i as int].class != CharClass::Digit);
                    } else {
                        assert(!only_digits(cells@, from as int, i as int));
                    }
                }
                numeric = numeric && digit;
                position.advance(ch);
                i = i + 1;
                assert(text@ =~= glyphs(cells@).subrange(from as int, i as int));
            }
            proof {
                lemma_run_end(cells@, from as int, i as int);
                lemma_inside_word(cells@, from as int, i as int);
            }
            let data = if numeric {
                Fragment::Numeric(text)
            } else {
                Fragment::AlphaNumeric(text)
            };
            let node = Node::new(data, start);
            fragments.push(node);
            assert(fragments.deep_view() =~= before.push(node.deep_view()));
        } else {
            if !(cell.class == CharClass::Space) {
                let node = Node::new(Fragment::Symbol(cell.ch), position);
                fragments.push(node);
                assert(fragments.deep_view() =~= before.push(node.deep_view()));
            }
            proof {
                let read = glyphs(cells@).take(i as int);
                lemma_position_bounded(read);
                lemma_position_after_push(read, cell.ch);
                assert(read.push(cell.ch) =~= glyphs(cells@).take(i + 1));
            }
            position.advance(cell.ch);
            i = i + 1;
        }
    }
    fragments
}

/// True when every character of `text` is numeric.
pub open spec fn all_numeric(text: Seq<char>) -> bool {
    forall|i: int| 0 <= i < text.len() ==> char_is_numeric(#[trigger] text[i])
}

/// True when every character of `text` is alphanumeric.
pub open spec fn all_alphanumeric(text: Seq<char>) -> bool {
    forall|i: int| 0 <= i < text.len() ==> char_is_alphanumeric(#[trigger] text[i])
}

/// True when the fragment has the shape of its kind: a number is a run of
/// numeric characters, a word a run of alphanumeric characters that are not
/// all numeric, and a symbol is neither alphanumeric nor white space.
pub open spec fn well_shaped(fragment: FragmentView) -> bool {
    match fragment {
        FragmentView::Numeric(text) => text.len() > 0 && all_numeric(text),
        FragmentView::AlphaNumeric(text) => all_alphanumeric(text) && !all_numeric(text),
        FragmentView::Symbol(ch) => !char_is_alphanumeric(ch) && !char_is_whitespace(ch),
    }
}

/// Every fragment that begins before `until` has the shape of its kind.
proof fn lemma_shapes(cells: Seq<Classified>, until: int)
    requires
        0 <= until <= cells.len(),
        forall|k: int| 0 <= k < cells.len() ==> (#[trigger] cells[k]).class == char_class(cells[k].ch),
        forall|k: int| 0 <= k < cells.len() ==> in_words(#[trigger] cells[k]),
    ensures
        forall|i: int|
            0 <= i < fragments_until(cells, until).len() ==> well_shaped(
                (#[trigger] fragments_until(cells, until)[i]).data,
            ),
    decreases until,
{
    if until > 0 {
        let at = until - 1;
        lemma_shapes(cells, at);
        let before = fragments_until(cells, at);
        let whole = fragments_until(cells, until);
        if let Some(fragment) = fragment_at(cells, at) {
            assert(cells[at].class == char_class(cells[at].ch));
            assert(in_words(cells[at]));
            if is_word_class(cells[at].class) {
                let end = run_end(cells, at);
                lemma_run_words(cells, at);
                lemma_run_words(cells, at + 1);
                let text = glyphs(cells).subrange(at, end);
                assert(all_alphanumeric(text)) by {
                    assert forall|j: int| 0 <= j < text.len() implies char_is_alphanumeric(
                        #[trigger] text[j],
                    ) by {
                        assert(in_words(cells[at + j]));
                    }
                }
                if only_digits(cells, at, end) {
                    assert(all_numeric(text)) by {
                        assert forall|j: int| 0 <= j < text.len() implies char_is_numeric(
                            #[trigger] text[j],
                        ) by {
                            assert(cells[at + j].class == char_class(cells[at + j].ch));
                        }
                    }
                } else {
                    let letter = choose|i: int|
                        at <= i < end && (#[trigger] cells[i]).class != CharClass::Digit;
                    assert(cells[letter].class == char_class(cells[letter].ch));
                    assert(!char_is_numeric(text[letter - at]));
                    assert(!all_numeric(text));
                }
            }
            assert(well_shaped(fragment.data));
            assert forall|i: int| 0 <= i < whole.len() implies well_shaped(
                (#[trigger] whole[i]).data,
            ) by {
                if i < before.len() {
                    assert(whole[i] == before[i]);
                }
            }
        }
    }
}

/// Scans `source` into fragments. Every character is classified once, by
/// std's Unicode tables, and the classified text is scanned. Each fragment
/// has the shape of its kind.
pub fn fragmentize(source: &str) -> (fragments: Vec<Node<Fragment>>)
    ensures
        fragments.deep_view() == fragments_of(classified(source@)),
        forall|i: int|
            0 <= i < fragments.len() ==> well_shaped((#[trigger] fragments.deep_view()[i]).data),
{
    let cells = classify(source);
    proof {
        lemma_shapes(cells@, cells@.len() as int);
    }
    scan(&cells)
}

/// Scanning is a function of the text: two scans of the same source give the
/// same fragments, at the same positions.
pub proof fn lemma_fragmentize_pure(
    first_source: Seq<char>,
    second_source: Seq<char>,
    first: Seq<NodeView<FragmentView>>,
    second: Seq<NodeView<FragmentView>>,
)
    requires
        first_source == second_source,
        first == fragments_of(classified(first_source)),
        second == fragments_of(classified(second_source)),
    ensures
        first == second,
{
}

/// The characters of `cells[..until]` that are not white space, in order.
pub open spec fn visible(cells: Seq<Classified>, until: int) -> Seq<char>
    decreases until,
{
    if until <= 0 {
        Seq::empty()
    } else if cells[until - 1].class == CharClass::Space {
        visible(cells, until - 1)
    } else {
        visible(cells, until - 1).push(cells[until - 1].ch)
    }
}

/// The contents of `fragments`, one after the other.
pub open spec fn joined(fragments: Seq<NodeView<FragmentView>>) -> Seq<char>
    decreases fragments.len(),
{
    if fragments.len() == 0 {
        Seq::empty()
    } else {
        joined(fragments.drop_last()) + fragments.last().data.content()
    }
}

/// How far the fragments that begin before `until` reach: to the end of the
/// word that the character before `until` stands in, if it stands in one.
spec fn reach(cells: Seq<Classified>, until: int) -> int {
    if until > 0 && is_word_class(cells[until - 1].class) {
        run_end(cells, until)
    } else {
        until
    }
}

/// A word ends inside the text, and all of it is digits and letters.
proof fn lemma_run_words(cells: Seq<Classified>, from: int)
    requires
        0 <= from <= cells.len(),
    ensures
        from <= run_end(cells, from) <= cells.len(),
        forall|i: int|
            from <= i < run_end(cells, from) ==> is_word_class((#[trigger] cells[i]).class),
    decreases cells.len() - from,
{
    if from < cells.len() && is_word_class(cells[from].class) {
        lemma_run_words(cells, from + 1);
    }
}

/// Nothing of a word is white space.
proof fn lemma_visible_word(cells: Seq<Classified>, from: int, to: int)
    requires
        0 <= from <= to <= cells.len(),
        forall|i: int| from <= i < to ==> is_word_class((#[trigger] cells[i]).class),
    ensures
        visible(cells, to) == visible(cells, from) + glyphs(cells).subrange(from, to),
    decreases to - from,
{
    if from == to {
        assert(visible(cells, from) + glyphs(cells).subrange(from, to) =~= visible(cells, from));
    } else {
        lemma_visible_word(cells, from, to - 1);
        assert(is_word_class(cells[to - 1].class));
        assert(visible(cells, to - 1).push(cells[to - 1].ch) =~= visible(cells, from) + glyphs(
            cells,
        ).subrange(from, to));
    }
}

/// The fragments that begin before `until` hold what is not white space up
/// to where they reach.
proof fn lemma_joined_until(cells: Seq<Classified>, until: int)
    requires
        0 <= until <= cells.len(),
    ensures
        joined(fragments_until(cells, until)) == visible(cells, reach(cells, until)),
    decreases until,
{
    if until > 0 {
        let at = until - 1;
        lemma_joined_until(cells, at);
        let before = fragments_until(cells, at);
        if is_word_class(cells[at].class) {
            if at > 0 && is_word_class(cells[at - 1].class) {
            } else {
                let end = run_end(cells, at);
                lemma_run_words(cells, at);
                lemma_visible_word(cells, at, end);
                let whole = fragments_until(cells, until);
                assert(whole.drop_last() =~= before);
                assert(whole.last().data.content() == glyphs(cells).subrange(at, end));
            }
        } else if cells[at].class == CharClass::Space {
        } else {
            let whole = fragments_until(cells, until);
            assert(whole.drop_last() =~= before);
            assert(visible(cells, at) + seq![cells[at].ch] =~= visible(cells, at).push(
                cells[at].ch,
            ));
        }
    }
}

/// Scanning loses nothing but white space: the contents of the fragments,
/// one after the other, are the characters of the source that are not white
/// space, in order.
pub proof fn lemma_fragments_keep_content(cells: Seq<Classified>)
    ensures
        joined(fragments_of(cells)) == visible(cells, cells.len() as int),
{
    lemma_joined_until(cells, cells.len() as int);
    lemma_run_words(cells, cells.len() as int);
}

} // verus!
