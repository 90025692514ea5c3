//! Attributes whose values are numbers or words: `@`, a name of letters,
//! and, in parentheses right after the name, fields of the form
//! `name: value` separated by commas.

use vstd::prelude::*;
use vstd::string::StrSliceExecFns;
use vstd::string::StringExecFns;
use crate::attribute::parser::field_at;
use crate::attribute::parser::find_char;
use crate::attribute::parser::find_char_exec;
use crate::attribute::parser::skip_letters_exec;
use crate::attribute::parser::skip_spaces_exec;
use crate::attribute::parser::lemma_field_bounds;
use crate::attribute::parser::skip_letters;

verus! {

#[derive(Clone, Debug, PartialEq, Eq)]
pub enum AttributeValue {
    String(String),
    Int(i32),
}

pub enum AttributeValueView {
    String(Seq<char>),
    Int(i32),
}

impl View for AttributeValue {
    type V = AttributeValueView;

    open spec fn view(&self) -> AttributeValueView {
        match self {
            AttributeValue::String(s) => AttributeValueView::String(s@),
            AttributeValue::Int(n) => AttributeValueView::Int(*n),
        }
    }
}

#[derive(Clone, Debug, PartialEq, Eq)]
pub struct Attribute {
    pub name: String,
    pub fields: Vec<(String, AttributeValue)>,
}

pub struct AttributeView {
    pub name: Seq<char>,
    pub fields: Seq<(Seq<char>, AttributeValueView)>,
}

/// The names and values of a list of fields.
pub open spec fn fields_view(fields: Seq<(String, AttributeValue)>) -> Seq<(Seq<char>, AttributeValueView)> {
    Seq::new(fields.len(), |i: int| (fields[i].0@, fields[i].1@))
}

impl View for Attribute {
    type V = AttributeView;

    open spec fn view(&self) -> AttributeView {
        AttributeView { name: self.name@, fields: fields_view(self.fields@) }
    }
}

pub open spec fn is_digit(c: char) -> bool {
    '0' as u32 <= c as u32 && c as u32 <= '9' as u32
}

/// The first position from `i` on that holds no digit.
pub open spec fn skip_digits(s: Seq<char>, i: int) -> int
    decreases s.len() - i,
{
    if 0 <= i < s.len() && is_digit(s[i]) {
        skip_digits(s, i + 1)
    } else {
        i
    }
}

/// The number that the digits from `from` up to `to` write.
pub open spec fn digits_value(s: Seq<char>, from: int, to: int) -> int
    decreases to - from,
{
    if to <= from {
        0
    } else {
        digits_value(s, from, to - 1) * 10 + (s[to - 1] as u32 - '0' as u32)
    }
}

/// The number that a text begins with: a sign or none, and digits. There is
/// none where the digits are missing or the number is out of range.
pub open spec fn int_of(text: Seq<char>) -> Option<i32> {
    let negative = text.len() > 0 && text[0] == '-';
    let start: int = if text.len() > 0 && (text[0] == '-' || text[0] == '+') {
        1
    } else {
        0
    };
    let end = skip_digits(text, start);
    let value = if negative {
        -digits_value(text, start, end)
    } else {
        digits_value(text, start, end)
    };
    if end == start || value < i32::MIN || value > i32::MAX {
        None
    } else {
        Some(value as i32)
    }
}

/// The value that a text begins with: a number, or else a word of letters.
pub open spec fn value_of(text: Seq<char>) -> Option<AttributeValueView> {
    match int_of(text) {
        Some(n) => Some(AttributeValueView::Int(n)),
        None => {
            let end = skip_letters(text, 0);
            if end == 0 {
                None
            } else {
                Some(AttributeValueView::String(text.subrange(0, end)))
            }
        },
    }
}

/// The field that begins at `i`, with its value read, and where it ends.
pub open spec fn typed_field_at(v: Seq<char>, i: int) -> Option<(Seq<char>, AttributeValueView, int)> {
    match field_at(v, i) {
        Some((name, text, end)) => match value_of(text) {
            Some(value) => Some((name, value, end)),
            None => None,
        },
        None => None,
    }
}

/// The fields that follow a field that ends at `i`.
pub open spec fn more_typed_fields(v: Seq<char>, i: int) -> Seq<(Seq<char>, AttributeValueView)>
    decreases v.len() - i,
    via more_typed_fields_decreases
{
    let field = typed_field_at(v, i + 1);
    if 0 <= i < v.len() && v[i] == ',' && field.is_some() {
        seq![(field.unwrap().0, field.unwrap().1)] + more_typed_fields(v, field.unwrap().2)
    } else {
        seq![]
    }
}

#[via_fn]
proof fn more_typed_fields_decreases(v: Seq<char>, i: int) {
    if 0 <= i < v.len() {
        lemma_field_bounds(v, i + 1);
    }
}

/// The fields of a list, which has one field at least.
pub open spec fn typed_fields_of(v: Seq<char>) -> Option<Seq<(Seq<char>, AttributeValueView)>> {
    match typed_field_at(v, 0) {
        Some((name, value, end)) => Some(seq![(name, value)] + more_typed_fields(v, end)),
        None => None,
    }
}

/// The attribute that a text begins with, and where the rest of the text
/// begins. No white space may stand before `@`, after it, or before the
/// parentheses.
pub open spec fn typed_attribute_of(s: Seq<char>) -> Option<(AttributeView, int)> {
    if s.len() == 0 || s[0] != '@' {
        None
    } else {
        let end = skip_letters(s, 1);
        if end == 1 {
            None
        } else {
            let name = s.subrange(1, end);
            let close = find_char(s, end + 1, ')');
            if end < s.len() && s[end] == '(' && close > end + 1 && close < s.len() {
                match typed_fields_of(s.subrange(end + 1, close)) {
                    Some(fields) => Some((AttributeView { name, fields }, close + 1)),
                    None => None,
                }
            } else {
                Some((AttributeView { name, fields: seq![] }, end))
            }
        }
    }
}

fn is_digit_exec(c: char) -> (b: bool)
    ensures
        b == is_digit(c),
{
    '0' <= c && c <= '9'
}

/// Reads the number that a text begins with.
fn int_exec(text: &str, n: usize) -> (r: Option<i32>)
    requires
        n == text@.len(),
    ensures
        r == int_of(text@),
{
    if n == 0 {
        return None;
    }
    let first = text.get_char(0);
    let negative = first == '-';
    let start: usize = if first == '-' || first == '+' {
        1
    } else {
        0
    };
    let mut value: i64 = 0;
    let mut overflow = false;
    let mut i = start;
    while i < n && is_digit_exec(text.get_char(i))
        invariant
            n == text@.len(),
            start <= i <= n,
            skip_digits(text@, start as int) == skip_digits(text@, i as int),
            !overflow ==> value == digits_value(text@, start as int, i as int) && 0 <= value <= 2147483648,
            overflow ==> digits_value(text@, start as int, i as int) > 2147483648,
        decreases n - i,
    {
        let digit = (text.get_char(i) as u32 - '0' as u32) as i64;
        if !overflow {
            value = value * 10 + digit;
            if value > 2147483648 {
                overflow = true;
            }
        }
        i += 1;
    }
    if i == start || overflow {
        return None;
    }
    if negative {
        Some((-value) as i32)
    } else if value > 2147483647 {
        None
    } else {
        Some(value as i32)
    }
}

/// Reads the value that a text begins with.
fn value_exec(text: &str) -> (r: Option<AttributeValue>)
    ensures
        match r {
            Some(value) => value_of(text@) == Some(value@),
            None => value_of(text@).is_none(),
        },
{
    let n = text.unicode_len();
    match int_exec(text, n) {
        Some(number) => Some(AttributeValue::Int(number)),
        None => {
            let end = skip_letters_exec(text, 0, n);
            if end == 0 {
                None
            } else {
                Some(AttributeValue::String(String::from_str(text.substring_char(0, end))))
            }
        },
    }
}

/// Reads the field that begins at `i`.
fn attribute_field(v: &str, i: usize, n: usize) -> (r: Option<(String, AttributeValue, usize)>)
    requires
        n == v@.len(),
        i <= n,
    ensures
        match r {
            Some((name, value, end)) => typed_field_at(v@, i as int) == Some((name@, value@, end as int)) && i
                < end <= n,
            None => typed_field_at(v@, i as int).is_none(),
        },
{
    let name_start = skip_spaces_exec(v, i, n);
    let colon = find_char_exec(v, name_start, n, ':');
    if colon == name_start || colon >= n {
        return None;
    }
    let value_start = skip_spaces_exec(v, colon + 1, n);
    let end = find_char_exec(v, value_start, n, ',');
    if end == value_start {
        return None;
    }
    match value_exec(v.substring_char(value_start, end)) {
        Some(value) => Some((String::from_str(v.substring_char(name_start, colon)), value, end)),
        None => None,
    }
}

/// Reads the fields of a list.
fn attribute_fields(v: &str) -> (r: Option<Vec<(String, AttributeValue)>>)
    ensures
        match r {
            Some(fields) => typed_fields_of(v@) == Some(fields_view(fields@)),
            None => typed_fields_of(v@).is_none(),
        },
{
    let n = v.unicode_len();
    match attribute_field(v, 0, n) {
        None => None,
        Some((name, value, end)) => {
            let ghost first = (name@, value@);
            let mut fields: Vec<(String, AttributeValue)> = Vec::new();
            fields.push((name, value));
            let mut at = end;
            assert(fields_view(fields@) =~= seq![first]);
            loop
                invariant
                    n == v@.len(),
                    at <= n,
                    typed_field_at(v@, 0) == Some((first.0, first.1, end as int)),
                    seq![first] + more_typed_fields(v@, end as int) == fields_view(fields@) + more_typed_fields(
                        v@,
                        at as int,
                    ),
                decreases n - at,
            {
                if at >= n || v.get_char(at) != ',' {
                    assert(fields_view(fields@) + more_typed_fields(v@, at as int) =~= fields_view(fields@));
                    return Some(fields);
                }
                match attribute_field(v, at + 1, n) {
                    Some((name, value, end)) => {
                        let ghost before = fields_view(fields@);
                        let ghost next = (name@, value@);
                        fields.push((name, value));
                        assert(fields_view(fields@) =~= before + seq![next]);
                        assert(before + (seq![next] + more_typed_fields(v@, end as int)) =~= fields_view(fields@)
                            + more_typed_fields(v@, end as int));
                        at = end;
                    },
                    None => {
                        assert(fields_view(fields@) + more_typed_fields(v@, at as int) =~= fields_view(fields@));
                        return Some(fields);
                    },
                }
            }
        },
    }
}

/// Reads the attribute that `input` begins with, and returns it with the
/// rest of the input.
pub fn attribute<'a>(input: &'a str) -> (r: Result<(&'a str, Attribute), ()>)
    ensures
        match r {
            Ok((rest, attribute)) => typed_attribute_of(input@) matches Some((view, at)) && attribute@ == view
                && 0 <= at <= input@.len() && rest@ == input@.subrange(at, input@.len() as int),
            Err(_) => typed_attribute_of(input@).is_none(),
        },
{
    let n = input.unicode_len();
    if n == 0 || input.get_char(0) != '@' {
        return Err(());
    }
    let end = skip_letters_exec(input, 1, n);
    if end == 1 {
        return Err(());
    }
    let name = String::from_str(input.substring_char(1, end));
    if end < n && input.get_char(end) == '(' {
        let close = find_char_exec(input, end + 1, n, ')');
        if close > end + 1 && close < n {
            return match attribute_fields(input.substring_char(end + 1, close)) {
                Some(fields) => Ok((input.substring_char(close + 1, n), Attribute { name, fields })),
                None => Err(()),
            };
        }
    }
    let fields: Vec<(String, AttributeValue)> = Vec::new();
    assert(fields_view(fields@) =~= seq![]);
    Ok((input.substring_char(end, n), Attribute { name, fields }))
}

} // verus!
