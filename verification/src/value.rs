//! Literal values: strings with interpolated variables, numbers, ranges and
//! regular expressions.

use vstd::prelude::*;
use vstd::string::StringExecFns;
use crate::text::{all_digits, integer_text, integer_to_text};

verus! {

/// One part of a string literal.
#[derive(Debug, PartialEq, Eq)]
pub enum StringPart {
    /// Text that stands for itself.
    Literal(String),
    /// The name of a variable whose value is put in its place.
    Variable(String),
}

/// The mathematical model of a [`StringPart`].
pub enum StringPartView {
    Literal(Seq<char>),
    Variable(Seq<char>),
}

impl DeepView for StringPart {
    type V = StringPartView;

    open spec fn deep_view(&self) -> StringPartView {
        match self {
            StringPart::Literal(text) => StringPartView::Literal(text@),
            StringPart::Variable(name) => StringPartView::Variable(name@),
        }
    }
}

impl StringPartView {
    /// How the part is written inside a string literal.
    pub open spec fn describe(self) -> Seq<char> {
        match self {
            StringPartView::Literal(text) => text,
            StringPartView::Variable(name) => seq!['$'] + name,
        }
    }
}

impl Clone for StringPart {
    fn clone(&self) -> (copy: Self)
        ensures
            copy.deep_view() == self.deep_view(),
    {
        match self {
            StringPart::Literal(text) => StringPart::Literal(text.clone()),
            StringPart::Variable(name) => StringPart::Variable(name.clone()),
        }
    }
}

/// A string literal: its parts in the order in which they are joined.
#[derive(Debug, PartialEq, Eq)]
pub struct StringExpression {
    pub parts: Vec<StringPart>,
}

impl DeepView for StringExpression {
    type V = Seq<StringPartView>;

    open spec fn deep_view(&self) -> Seq<StringPartView> {
        self.parts.deep_view()
    }
}

/// The parts of a string literal written one after the other.
pub open spec fn parts_text(parts: Seq<StringPartView>) -> Seq<char>
    decreases parts.len(),
{
    if parts.len() == 0 {
        Seq::empty()
    } else {
        parts_text(parts.drop_last()) + parts.last().describe()
    }
}

/// How an error message shows a string literal: its parts between quotes.
pub open spec fn string_text(parts: Seq<StringPartView>) -> Seq<char> {
    seq!['"'] + parts_text(parts) + seq!['"']
}

/// The parts of `parts`, copied one by one.
pub fn clone_parts(parts: &Vec<StringPart>) -> (copy: Vec<StringPart>)
    ensures
        copy.deep_view() == parts.deep_view(),
{
    let mut copy: Vec<StringPart> = Vec::new();
    let mut i: usize = 0;
    while i < parts.len()
        invariant
            i <= parts.len(),
            copy.deep_view() == parts.deep_view().take(i as int),
        decreases parts.len() - i,
    {
        let ghost before = copy.deep_view();
        let part = parts[i].clone();
        copy.push(part);
        assert(copy.deep_view() =~= before.push(part.deep_view()));
        assert(part.deep_view() == parts.deep_view()[i as int]);
        i = i + 1;
        assert(copy.deep_view() =~= parts.deep_view().take(i as int));
    }
    assert(parts.deep_view().take(i as int) =~= parts.deep_view());
    copy
}

impl Clone for StringExpression {
    fn clone(&self) -> (copy: Self)
        ensures
            copy.deep_view() == self.deep_view(),
    {
        StringExpression { parts: clone_parts(&self.parts) }
    }
}

impl StringExpression {
    /// A string literal without parts.
    pub fn new() -> (expression: StringExpression)
        ensures
            expression.deep_view() == Seq::<StringPartView>::empty(),
    {
        let expression = StringExpression { parts: Vec::new() };
        assert(expression.deep_view() =~= Seq::<StringPartView>::empty());
        expression
    }

    /// Adds `part` at the end.
    pub fn push(&mut self, part: StringPart)
        ensures
            final(self).deep_view() == old(self).deep_view().push(part.deep_view()),
    {
        let ghost before = self.deep_view();
        self.parts.push(part);
        assert(self.deep_view() =~= before.push(part.deep_view()));
    }

    /// The literal as it is written between its quotes: its parts one after
    /// the other, each variable with its `$`.
    pub fn written(&self) -> (text: String)
        ensures
            text@ == parts_text(self.deep_view()),
    {
        let mut text = String::from_str("");
        proof {
            reveal_strlit("");
            reveal_strlit("$");
            assert(text@ =~= parts_text(self.deep_view().take(0)));
        }
        let mut i: usize = 0;
        while i < self.parts.len()
            invariant
                i <= self.parts.len(),
                "$"@ == seq!['$'],
                text@ == parts_text(self.deep_view().take(i as int)),
            decreases self.parts.len() - i,
        {
            let ghost before = text@;
            match &self.parts[i] {
                StringPart::Literal(literal) => {
                    text.append(literal.as_str());
                },
                StringPart::Variable(name) => {
                    text.append("$");
                    text.append(name.as_str());
                },
            }
            proof {
                let longer = self.deep_view().take(i + 1);
                assert(longer.drop_last() =~= self.deep_view().take(i as int));
                assert(longer.last() == self.parts[i as int].deep_view());
                assert(text@ =~= before + longer.last().describe());
            }
            i = i + 1;
        }
        assert(self.deep_view().take(i as int) =~= self.deep_view());
        text
    }

    /// How an error message shows the literal.
    pub fn describe(&self) -> (text: String)
        ensures
            text@ == string_text(self.deep_view()),
    {
        let mut text = String::from_str("\"");
        let written = self.written();
        proof {
            reveal_strlit("\"");
        }
        text.append(written.as_str());
        text.append("\"");
        text
    }
}

/// A range of integers, both ends included.
#[derive(Clone, Copy, Debug, PartialEq, Eq, Structural)]
pub struct Range {
    pub begin: i32,
    pub end: i32,
}

impl Range {
    /// The range from `begin` to `end`.
    pub fn new(begin: i32, end: i32) -> (range: Range)
        ensures
            range == (Range { begin, end }),
    {
        Range { begin, end }
    }

    /// How an error message shows the range.
    pub fn describe(&self) -> (text: String)
        ensures
            text@ == range_text(*self),
    {
        let mut text = String::from_str("range ");
        let begin = integer_to_text(self.begin);
        let end = integer_to_text(self.end);
        text.append(begin.as_str());
        text.append("-");
        text.append(end.as_str());
        text
    }
}

/// How an error message shows a range.
pub open spec fn range_text(range: Range) -> Seq<char> {
    "range "@ + integer_text(range.begin as int) + "-"@ + integer_text(range.end as int)
}

/// A decimal number, kept as it was written: the digits before the point and
/// the digits after it.
#[derive(Debug, PartialEq, Eq)]
pub struct Decimal {
    pub whole: String,
    pub fraction: String,
}

/// The mathematical model of a [`Decimal`].
pub struct DecimalView {
    pub whole: Seq<char>,
    pub fraction: Seq<char>,
}

impl DeepView for Decimal {
    type V = DecimalView;

    open spec fn deep_view(&self) -> DecimalView {
        DecimalView { whole: self.whole@, fraction: self.fraction@ }
    }
}

/// True when `whole`, a point and `fraction` write a decimal number: ASCII
/// digits on both sides, and at least one digit in all.
pub open spec fn decimal_written(whole: Seq<char>, fraction: Seq<char>) -> bool {
    all_digits(whole) && all_digits(fraction) && whole.len() + fraction.len() > 0
}

impl DecimalView {
    /// The number as it was written, with its point.
    pub open spec fn text(self) -> Seq<char> {
        self.whole + seq!['.'] + self.fraction
    }
}

impl Clone for Decimal {
    fn clone(&self) -> (copy: Self)
        ensures
            copy.deep_view() == self.deep_view(),
    {
        Decimal { whole: self.whole.clone(), fraction: self.fraction.clone() }
    }
}

impl Decimal {
    /// The number as it was written, with its point.
    pub fn text(&self) -> (text: String)
        ensures
            text@ == self.deep_view().text(),
    {
        let mut text = self.whole.clone();
        proof {
            reveal_strlit(".");
        }
        text.append(".");
        text.append(self.fraction.as_str());
        text
    }
}

/// A number: a 32-bit integer or a decimal.
#[derive(Debug, PartialEq, Eq)]
pub enum NumberValue {
    Integer(i32),
    Decimal(Decimal),
}

/// The mathematical model of a [`NumberValue`].
pub enum NumberView {
    Integer(i32),
    Decimal(DecimalView),
}

impl DeepView for NumberValue {
    type V = NumberView;

    open spec fn deep_view(&self) -> NumberView {
        match self {
            NumberValue::Integer(value) => NumberView::Integer(*value),
            NumberValue::Decimal(decimal) => NumberView::Decimal(decimal.deep_view()),
        }
    }
}

impl NumberView {
    /// How an error message shows the number.
    pub open spec fn describe(self) -> Seq<char> {
        match self {
            NumberView::Integer(value) => "Int "@ + integer_text(value as int),
            NumberView::Decimal(decimal) => "Dec "@ + decimal.text(),
        }
    }
}

impl Clone for NumberValue {
    fn clone(&self) -> (copy: Self)
        ensures
            copy.deep_view() == self.deep_view(),
    {
        match self {
            NumberValue::Integer(value) => NumberValue::Integer(*value),
            NumberValue::Decimal(decimal) => NumberValue::Decimal(decimal.clone()),
        }
    }
}

impl NumberValue {
    /// How an error message shows the number.
    pub fn describe(&self) -> (text: String)
        ensures
            text@ == self.deep_view().describe(),
    {
        match self {
            NumberValue::Integer(value) => {
                let mut text = String::from_str("Int ");
                let digits = integer_to_text(*value);
                text.append(digits.as_str());
                text
            },
            NumberValue::Decimal(decimal) => {
                let mut text = String::from_str("Dec ");
                let written = decimal.text();
                text.append(written.as_str());
                text
            },
        }
    }
}

/// A literal value.
#[derive(Debug, PartialEq, Eq)]
pub enum Value {
    /// A string, with the variables it interpolates.
    String(StringExpression),
    /// A number.
    Number(NumberValue),
    /// A regular expression, kept as text.
    Regex(String),
    /// A range of integers.
    Range(Range),
}

/// The mathematical model of a [`Value`].
pub enum ValueView {
    String(Seq<StringPartView>),
    Number(NumberView),
    Regex(Seq<char>),
    Range(Range),
}

impl DeepView for Value {
    type V = ValueView;

    open spec fn deep_view(&self) -> ValueView {
        match self {
            Value::String(expression) => ValueView::String(expression.deep_view()),
            Value::Number(number) => ValueView::Number(number.deep_view()),
            Value::Regex(text) => ValueView::Regex(text@),
            Value::Range(range) => ValueView::Range(*range),
        }
    }
}

impl ValueView {
    /// How an error message shows the value.
    pub open spec fn describe(self) -> Seq<char> {
        match self {
            ValueView::String(parts) => string_text(parts),
            ValueView::Number(number) => number.describe(),
            ValueView::Regex(text) => "regex /"@ + text + "/"@,
            ValueView::Range(range) => range_text(range),
        }
    }
}

impl Clone for Value {
    fn clone(&self) -> (copy: Self)
        ensures
            copy.deep_view() == self.deep_view(),
    {
        match self {
            Value::String(expression) => Value::String(expression.clone()),
            Value::Number(number) => Value::Number(number.clone()),
            Value::Regex(text) => Value::Regex(text.clone()),
            Value::Range(range) => Value::Range(*range),
        }
    }
}

impl Value {
    /// How an error message shows the value.
    pub fn describe(&self) -> (text: String)
        ensures
            text@ == self.deep_view().describe(),
    {
        match self {
            Value::String(expression) => expression.describe(),
            Value::Number(number) => number.describe(),
            Value::Regex(regex) => {
                let mut text = String::from_str("regex /");
                text.append(regex.as_str());
                text.append("/");
                text
            },
            Value::Range(range) => range.describe(),
        }
    }
}

} // verus!
