//! Characters and text: the character classes the scanner works with, and
//! the few conversions between text and numbers that the later stages need.

use vstd::prelude::*;

verus! {

/// What `char::is_numeric` answers for `ch`: whether Unicode lists the
/// character in one of its number categories.
pub uninterp spec fn char_is_numeric(ch: char) -> bool;

/// What `char::is_alphanumeric` answers for `ch`: whether the character is
/// alphabetic or numeric in Unicode's sense.
pub uninterp spec fn char_is_alphanumeric(ch: char) -> bool;

/// What `char::is_whitespace` answers for `ch`: whether the character has
/// Unicode's `White_Space` property.
pub uninterp spec fn char_is_whitespace(ch: char) -> bool;

/// `char::is_numeric` looks the character up in the Unicode tables that std
/// was built with; its answer depends on the character alone.
pub assume_specification[ char::is_numeric ](ch: char) -> (answer: bool)
    ensures
        answer == char_is_numeric(ch),
;

/// `char::is_alphanumeric` looks the character up in the Unicode tables that
/// std was built with; its answer depends on the character alone. std
/// documents it as true of every character that is alphabetic or numeric, so
/// it is true wherever `char::is_numeric` is.
pub assume_specification[ char::is_alphanumeric ](ch: char) -> (answer: bool)
    ensures
        answer == char_is_alphanumeric(ch),
        char_is_numeric(ch) ==> answer,
;

/// `char::is_whitespace` looks the character up in the Unicode tables that
/// std was built with; its answer depends on the character alone.
pub assume_specification[ char::is_whitespace ](ch: char) -> (answer: bool)
    ensures
        answer == char_is_whitespace(ch),
;

/// `String::push` appends one character to the end of the string and leaves
/// the characters before it as they were.
pub assume_specification[ std::string::String::push ](text: &mut std::string::String, ch: char)
    ensures
        final(text)@ == old(text)@.push(ch),
;

/// The class of a character as the scanner sees it.
#[derive(Clone, Copy, Debug, PartialEq, Eq, Structural)]
pub enum CharClass {
    /// A numeric character.
    Digit,
    /// An alphanumeric character that is not numeric.
    Letter,
    /// White space.
    Space,
    /// Anything else.
    Other,
}

/// The class that follows from the three answers about one character. The
/// questions are asked in this order: numeric, alphanumeric, white space.
pub open spec fn class_from(numeric: bool, alphanumeric: bool, whitespace: bool) -> CharClass {
    if numeric {
        CharClass::Digit
    } else if alphanumeric {
        CharClass::Letter
    } else if whitespace {
        CharClass::Space
    } else {
        CharClass::Other
    }
}

/// The class of `ch`.
pub open spec fn char_class(ch: char) -> CharClass {
    class_from(char_is_numeric(ch), char_is_alphanumeric(ch), char_is_whitespace(ch))
}

impl CharClass {
    /// Decides the class from the three answers about one character.
    pub fn from_answers(numeric: bool, alphanumeric: bool, whitespace: bool) -> (class: CharClass)
        ensures
            class == class_from(numeric, alphanumeric, whitespace),
    {
        if numeric {
            CharClass::Digit
        } else if alphanumeric {
            CharClass::Letter
        } else if whitespace {
            CharClass::Space
        } else {
            CharClass::Other
        }
    }

    /// The class of `ch`. It is one of the two classes that make up words
    /// exactly when the character is alphanumeric.
    pub fn of(ch: char) -> (class: CharClass)
        ensures
            class == char_class(ch),
            is_word_class(class) == char_is_alphanumeric(ch),
    {
        CharClass::from_answers(ch.is_numeric(), ch.is_alphanumeric(), ch.is_whitespace())
    }

    /// True for the two classes that make up words: digits and letters.
    pub fn is_word(self) -> (answer: bool)
        ensures
            answer == is_word_class(self),
    {
        match self {
            CharClass::Digit => true,
            CharClass::Letter => true,
            CharClass::Space => false,
            CharClass::Other => false,
        }
    }
}

/// True for the two classes that make up words: digits and letters.
pub open spec fn is_word_class(class: CharClass) -> bool {
    class == CharClass::Digit || class == CharClass::Letter
}

/// The characters of `source`, in order.
pub fn to_chars(source: &str) -> (chars: Vec<char>)
    ensures
        chars@ == source@,
{
    let mut chars: Vec<char> = Vec::new();
    for ch in walk: source.chars()
        invariant
            walk.seq() == source@,
            chars@ == walk.seq().take(walk.index() as int),
    {
        chars.push(ch);
    }
    chars
}

/// The text that holds the one character `ch`.
pub fn ch_to_str(ch: char) -> (text: String)
    ensures
        text@ == seq![ch],
{
    let mut text = String::new();
    text.push(ch);
    assert(text@ =~= seq![ch]);
    text
}

/// True when `left` and `right` hold the same characters.
pub fn same_text(left: &str, right: &str) -> (answer: bool)
    ensures
        answer == (left@ == right@),
{
    let a = String::from_str(left);
    let b = String::from_str(right);
    a == b
}

/// True for the ten ASCII digits.
pub open spec fn is_digit(ch: char) -> bool {
    '0' <= ch <= '9'
}

/// The number that an ASCII digit stands for.
pub open spec fn digit_value(ch: char) -> int {
    ch as int - '0' as int
}

/// The ASCII digit that stands for a number below ten.
pub open spec fn digit_char(value: int) -> char {
    ('0' as int + value) as char
}

/// True when every character of `text` is an ASCII digit.
pub open spec fn all_digits(text: Seq<char>) -> bool {
    forall|i: int| 0 <= i < text.len() ==> is_digit(#[trigger] text[i])
}

/// The number that a run of ASCII digits writes in base ten.
pub open spec fn digits_value(text: Seq<char>) -> nat
    decreases text.len(),
{
    if text.len() == 0 {
        0
    } else {
        (digits_value(text.drop_last()) * 10 + digit_value(text.last())) as nat
    }
}

/// The digits of a signed integer literal: `text` without its sign.
pub open spec fn unsigned_part(text: Seq<char>) -> Seq<char> {
    if text.len() > 0 && (text[0] == '-' || text[0] == '+') {
        text.skip(1)
    } else {
        text
    }
}

/// The integer that `text` writes, before any limit on its size: an optional
/// sign and the value of the digits that follow.
pub open spec fn signed_value(text: Seq<char>) -> int {
    if text.len() > 0 && text[0] == '-' {
        -(digits_value(unsigned_part(text)) as int)
    } else {
        digits_value(unsigned_part(text)) as int
    }
}

/// The 32-bit integer that `text` writes in base ten, if it writes one: an
/// optional `+` or `-`, then at least one ASCII digit and nothing else, with
/// a value that fits.
pub open spec fn integer_value(text: Seq<char>) -> Option<i32> {
    if unsigned_part(text).len() > 0 && all_digits(unsigned_part(text)) && i32::MIN
        <= signed_value(text) <= i32::MAX {
        Some(signed_value(text) as i32)
    } else {
        None
    }
}

/// The digits that write `value` in base ten, without leading zeros.
pub open spec fn digits_text(value: nat) -> Seq<char>
    decreases value,
{
    if value < 10 {
        seq![digit_char(value as int)]
    } else {
        digits_text(value / 10).push(digit_char((value % 10) as int))
    }
}

/// The text that writes `value` in base ten, with `-` before a negative one.
pub open spec fn integer_text(value: int) -> Seq<char> {
    if value < 0 {
        seq!['-'] + digits_text((-value) as nat)
    } else {
        digits_text(value as nat)
    }
}

/// The value of a run of digits never shrinks when a digit is added.
pub proof fn lemma_digits_value_grows(text: Seq<char>, shorter: int)
    requires
        all_digits(text),
        0 <= shorter <= text.len(),
    ensures
        digits_value(text.take(shorter)) <= digits_value(text),
    decreases text.len(),
{
    if shorter == text.len() {
        assert(text.take(shorter) =~= text);
    } else {
        assert(text.drop_last().take(shorter) =~= text.take(shorter));
        assert(is_digit(text[text.len() - 1]));
        assert forall|i: int| 0 <= i < text.drop_last().len() implies is_digit(
            #[trigger] text.drop_last()[i],
        ) by {
            assert(text.drop_last()[i] == text[i]);
        }
        lemma_digits_value_grows(text.drop_last(), shorter);
    }
}

/// Reads a signed 32-bit integer written in base ten.
pub fn parse_integer(text: &str) -> (value: Option<i32>)
    ensures
        value == integer_value(text@),
{
    let chars = to_chars(text);
    let negative = chars.len() > 0 && chars[0] == '-';
    let start: usize = if chars.len() > 0 && (chars[0] == '-' || chars[0] == '+') {
        1
    } else {
        0
    };
    let ghost digits = unsigned_part(text@);
    assert(digits =~= chars@.skip(start as int));
    if start == chars.len() {
        return None;
    }
    let mut magnitude: i64 = 0;
    let mut i: usize = start;
    while i < chars.len()
        invariant
            start <= i <= chars.len(),
            digits == chars@.skip(start as int),
            digits == unsigned_part(text@),
            all_digits(digits.take(i - start)),
            magnitude == digits_value(digits.take(i - start)),
            0 <= magnitude <= 2147483648,
        decreases chars.len() - i,
    {
        let ch = chars[i];
        assert(digits[i - start] == ch);
        if !('0' <= ch && ch <= '9') {
            assert(!is_digit(digits[i - start]));
            return None;
        }
        let digit: i64 = (ch as u32 - '0' as u32) as i64;
        let next: i64 = magnitude * 10 + digit;
        proof {
            let longer = digits.take(i - start + 1);
            assert(longer.drop_last() =~= digits.take(i - start));
            assert(longer.last() == ch);
            assert(digits_value(longer) == next);
            assert forall|k: int| 0 <= k < longer.len() implies is_digit(#[trigger] longer[k]) by {
                if k < i - start {
                    assert(digits.take(i - start)[k] == longer[k]);
                }
            }
        }
        if next > 2147483648 {
            proof {
                let longer = digits.take(i - start + 1);
                if all_digits(digits) {
                    lemma_digits_value_grows(digits, i - start + 1);
                }
            }
            return None;
        }
        magnitude = next;
        i = i + 1;
    }
    assert(digits.take(i - start) =~= digits);
    if negative {
        Some((0 - magnitude) as i32)
    } else if magnitude > 2147483647 {
        None
    } else {
        Some(magnitude as i32)
    }
}

/// Writes a signed 32-bit integer in base ten.
pub fn integer_to_text(value: i32) -> (text: String)
    ensures
        text@ == integer_text(value as int),
{
    let mut magnitude: u32 = if value < 0 {
        (0 - (value as i64)) as u32
    } else {
        value as u32
    };
    let ghost whole: nat = magnitude as nat;
    // The digits come out last first.
    let mut reversed: Vec<char> = Vec::new();
    let first: char = ((magnitude % 10) as u8 + 48u8) as char;
    reversed.push(first);
    magnitude = magnitude / 10;
    let ghost mut done: Seq<char> = seq![first];
    while magnitude > 0
        invariant
            reversed@.len() > 0,
            done == reversed@.reverse(),
            digits_text(whole) == if magnitude == 0 {
                done
            } else {
                digits_text(magnitude as nat) + done
            },
        decreases magnitude,
    {
        let digit: char = ((magnitude % 10) as u8 + 48u8) as char;
        reversed.push(digit);
        proof {
            let rest = (magnitude / 10) as nat;
            let longer = seq![digit] + done;
            assert(longer =~= reversed@.reverse());
            if rest == 0 {
                assert(digits_text(magnitude as nat) =~= seq![digit]);
            } else {
                assert(digits_text(magnitude as nat) =~= digits_text(rest).push(digit));
                assert(digits_text(rest).push(digit) + done =~= digits_text(rest) + longer);
            }
            done = longer;
        }
        magnitude = magnitude / 10;
    }
    let mut text = String::new();
    if value < 0 {
        text.push('-');
    }
    let ghost sign: Seq<char> = text@;
    let mut i: usize = reversed.len();
    while i > 0
        invariant
            i <= reversed.len(),
            text@ == sign + reversed@.reverse().take(reversed.len() - i),
        decreases i,
    {
        i = i - 1;
        text.push(reversed[i]);
        assert(text@ =~= sign + reversed@.reverse().take(reversed.len() - i));
    }
    assert(reversed@.reverse().take(reversed.len() as int) =~= reversed@.reverse());
    assert(text@ =~= integer_text(value as int));
    text
}

/// The digits that write a number are ASCII digits, at least one, and write
/// that number.
pub proof fn lemma_digits_text(value: nat)
    ensures
        digits_text(value).len() > 0,
        all_digits(digits_text(value)),
        digits_value(digits_text(value)) == value,
    decreases value,
{
    let digits = digits_text(value);
    if value < 10 {
        assert(digits.drop_last() =~= Seq::<char>::empty());
        assert(digits_value(digits.drop_last()) == 0);
    } else {
        lemma_digits_text(value / 10);
        let front = digits_text(value / 10);
        assert(digits.drop_last() =~= front);
        assert forall|i: int| 0 <= i < digits.len() implies is_digit(#[trigger] digits[i]) by {
            if i < front.len() {
                assert(digits[i] == front[i]);
            }
        }
    }
}

/// Reading back what was written gives the number that was written.
pub proof fn lemma_integer_round_trip(value: i32)
    ensures
        integer_value(integer_text(value as int)) == Some(value),
{
    let text = integer_text(value as int);
    if value < 0 {
        let magnitude = (-(value as int)) as nat;
        lemma_digits_text(magnitude);
        assert(text[0] == '-');
        assert(unsigned_part(text) =~= digits_text(magnitude));
    } else {
        lemma_digits_text(value as nat);
        assert(is_digit(digits_text(value as nat)[0]));
        assert(unsigned_part(text) =~= text);
    }
}

} // verus!
