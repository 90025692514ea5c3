//! The grammar of a model's attribute: `@`, a name of letters, and, in
//! parentheses, fields of the form `name: value` separated by commas.
//!
//! White space may stand before and after `@`, before the parentheses, and
//! before the name and the value of a field. A field's name runs up to the
//! colon and its value up to the next comma or the end, white space at the end
//! included.

use vstd::prelude::*;
use vstd::string::StrSliceExecFns;
use crate::attribute::Attribute;
use crate::attribute::AttributeView;

verus! {

pub open spec fn is_space(c: char) -> bool {
    c == ' ' || c == '\t' || c == '\r' || c == '\n'
}

pub open spec fn is_letter(c: char) -> bool {
    ('a' as u32 <= c as u32 && c as u32 <= 'z' as u32) || ('A' as u32 <= c as u32 && c as u32 <= 'Z' as u32)
}

/// The first position from `i` on that holds no white space.
pub open spec fn skip_spaces(s: Seq<char>, i: int) -> int
    decreases s.len() - i,
{
    if 0 <= i < s.len() && is_space(s[i]) {
        skip_spaces(s, i + 1)
    } else {
        i
    }
}

/// The first position from `i` on that holds no letter.
pub open spec fn skip_letters(s: Seq<char>, i: int) -> int
    decreases s.len() - i,
{
    if 0 <= i < s.len() && is_letter(s[i]) {
        skip_letters(s, i + 1)
    } else {
        i
    }
}

/// The first position from `i` on that holds `c`, or the end.
pub open spec fn find_char(s: Seq<char>, i: int, c: char) -> int
    decreases s.len() - i,
{
    if 0 <= i < s.len() && s[i] != c {
        find_char(s, i + 1, c)
    } else {
        i
    }
}

/// The field that begins at `i`: its name, its value, and where it ends.
pub open spec fn field_at(v: Seq<char>, i: int) -> Option<(Seq<char>, Seq<char>, int)> {
    let name_start = skip_spaces(v, i);
    let colon = find_char(v, name_start, ':');
    if colon == name_start || colon >= v.len() {
        None
    } else {
        let value_start = skip_spaces(v, colon + 1);
        let end = find_char(v, value_start, ',');
        if end == value_start {
            None
        } else {
            Some((v.subrange(name_start, colon), v.subrange(value_start, end), end))
        }
    }
}

/// The fields that follow a field that ends at `i`, each after a comma, up
/// to the first that is no field.
pub open spec fn more_fields(v: Seq<char>, i: int) -> Seq<(Seq<char>, Seq<char>)>
    decreases v.len() - i,
    via more_fields_decreases
{
    let field = field_at(v, i + 1);
    if 0 <= i < v.len() && v[i] == ',' && field.is_some() {
        seq![(field.unwrap().0, field.unwrap().1)] + more_fields(v, field.unwrap().2)
    } else {
        seq![]
    }
}

#[via_fn]
proof fn more_fields_decreases(v: Seq<char>, i: int) {
    if 0 <= i < v.len() {
        lemma_field_bounds(v, i + 1);
    }
}

/// A field ends after it begins, and within the text.
pub proof fn lemma_field_bounds(v: Seq<char>, i: int)
    requires
        0 <= i <= v.len(),
    ensures
        field_at(v, i) matches Some((_, _, end)) ==> i < end <= v.len(),
{
    let name_start = skip_spaces(v, i);
    lemma_skip_spaces_bounds(v, i);
    let colon = find_char(v, name_start, ':');
    lemma_find_char_bounds(v, name_start, ':');
    if colon < v.len() {
        let value_start = skip_spaces(v, colon + 1);
        lemma_skip_spaces_bounds(v, colon + 1);
        lemma_find_char_bounds(v, value_start, ',');
    }
}

/// The fields of a list, which has one field at least.
pub open spec fn fields_of(v: Seq<char>) -> Option<Seq<(Seq<char>, Seq<char>)>> {
    match field_at(v, 0) {
        Some((name, value, end)) => Some(seq![(name, value)] + more_fields(v, end)),
        None => None,
    }
}

/// The attribute that a text begins with, and where the rest of the text
/// begins. Parentheses that are empty or not closed are no part of the
/// attribute. There is no attribute where `@` or the name is missing, or
/// where what stands in the parentheses does not begin with a field.
pub open spec fn attribute_of(s: Seq<char>) -> Option<(AttributeView, int)> {
    let at = skip_spaces(s, 0);
    if at >= s.len() || s[at] != '@' {
        None
    } else {
        let start = skip_spaces(s, at + 1);
        let end = skip_letters(s, start);
        if end == start {
            None
        } else {
            let name = s.subrange(start, end);
            let open = skip_spaces(s, end);
            let close = find_char(s, open + 1, ')');
            if open < s.len() && s[open] == '(' && close > open + 1 && close < s.len() {
                match fields_of(s.subrange(open + 1, close)) {
                    Some(fields) => Some((AttributeView { name, fields }, skip_spaces(s, close + 1))),
                    None => None,
                }
            } else {
                Some((AttributeView { name, fields: seq![] }, end))
            }
        }
    }
}

proof fn lemma_skip_spaces_bounds(s: Seq<char>, i: int)
    requires
        0 <= i <= s.len(),
    ensures
        i <= skip_spaces(s, i) <= s.len(),
    decreases s.len() - i,
{
    if i < s.len() && is_space(s[i]) {
        lemma_skip_spaces_bounds(s, i + 1);
    }
}

proof fn lemma_find_char_bounds(s: Seq<char>, i: int, c: char)
    requires
        0 <= i <= s.len(),
    ensures
        i <= find_char(s, i, c) <= s.len(),
    decreases s.len() - i,
{
    if i < s.len() && s[i] != c {
        lemma_find_char_bounds(s, i + 1, c);
    }
}

pub(crate) fn is_space_exec(c: char) -> (b: bool)
    ensures
        b == is_space(c),
{
    c == ' ' || c == '\t' || c == '\r' || c == '\n'
}

pub(crate) fn is_letter_exec(c: char) -> (b: bool)
    ensures
        b == is_letter(c),
{
    ('a' <= c && c <= 'z') || ('A' <= c && c <= 'Z')
}

pub(crate) fn skip_spaces_exec(s: &str, i: usize, n: usize) -> (r: usize)
    requires
        n == s@.len(),
        i <= n,
    ensures
        r == skip_spaces(s@, i as int),
        i <= r <= n,
{
    let mut j = i;
    while j < n && is_space_exec(s.get_char(j))
        invariant
            n == s@.len(),
            i <= j <= n,
            skip_spaces(s@, i as int) == skip_spaces(s@, j as int),
        decreases n - j,
    {
        j += 1;
    }
    j
}

pub(crate) fn skip_letters_exec(s: &str, i: usize, n: usize) -> (r: usize)
    requires
        n == s@.len(),
        i <= n,
    ensures
        r == skip_letters(s@, i as int),
        i <= r <= n,
{
    let mut j = i;
    while j < n && is_letter_exec(s.get_char(j))
        invariant
            n == s@.len(),
            i <= j <= n,
            skip_letters(s@, i as int) == skip_letters(s@, j as int),
        decreases n - j,
    {
        j += 1;
    }
    j
}

pub(crate) fn find_char_exec(s: &str, i: usize, n: usize, c: char) -> (r: usize)
    requires
        n == s@.len(),
        i <= n,
    ensures
        r == find_char(s@, i as int, c),
        i <= r <= n,
{
    let mut j = i;
    while j < n && s.get_char(j) != c
        invariant
            n == s@.len(),
            i <= j <= n,
            find_char(s@, i as int, c) == find_char(s@, j as int, c),
        decreases n - j,
    {
        j += 1;
    }
    j
}

/// Reads the field that begins at `i`.
fn field_exec<'a>(v: &'a str, i: usize, n: usize) -> (r: Option<(&'a str, &'a str, usize)>)
    requires
        n == v@.len(),
        i <= n,
    ensures
        match r {
            Some((name, value, end)) => field_at(v@, i as int) == Some((name@, value@, end as int)) && i < end
                <= n,
            None => field_at(v@, i as int).is_none(),
        },
{
    let name_start = skip_spaces_exec(v, i, n);
    let colon = find_char_exec(v, name_start, n, ':');
    if colon == name_start || colon >= n {
        return None;
    }
    let value_start = skip_spaces_exec(v, colon + 1, n);
    let end = find_char_exec(v, value_start, n, ',');
    if end == value_start {
        return None;
    }
    Some((v.substring_char(name_start, colon), v.substring_char(value_start, end), end))
}

/// Reads the fields of a list.
fn fields_exec<'a>(v: &'a str) -> (r: Option<Vec<(&'a str, &'a str)>>)
    ensures
        match r {
            Some(fields) => fields_of(v@) == Some(pairs_view(fields@)),
            None => fields_of(v@).is_none(),
        },
{
    let n = v.unicode_len();
    let first = field_exec(v, 0, n);
    match first {
        None => None,
        Some((name, value, end)) => {
            let mut fields: Vec<(&'a str, &'a str)> = Vec::new();
            fields.push((name, value));
            let mut at = end;
            let ghost head = pairs_view(fields@);
            assert(head =~= seq![(name@, value@)]);
            loop
                invariant
                    n == v@.len(),
                    at <= n,
                    field_at(v@, 0) == Some((name@, value@, end as int)),
                    seq![(name@, value@)] + more_fields(v@, end as int) == pairs_view(fields@) + more_fields(
                        v@,
                        at as int,
                    ),
                decreases n - at,
            {
                if at >= n || v.get_char(at) != ',' {
                    assert(pairs_view(fields@) + more_fields(v@, at as int) =~= pairs_view(fields@));
                    return Some(fields);
                }
                match field_exec(v, at + 1, n) {
                    Some((name, value, end)) => {
                        let ghost before = pairs_view(fields@);
                        fields.push((name, value));
                        assert(pairs_view(fields@) =~= before + seq![(name@, value@)]);
                        assert(before + (seq![(name@, value@)] + more_fields(v@, end as int)) =~= pairs_view(
                            fields@,
                        ) + more_fields(v@, end as int));
                        at = end;
                    },
                    None => {
                        assert(pairs_view(fields@) + more_fields(v@, at as int) =~= pairs_view(fields@));
                        return Some(fields);
                    },
                }
            }
        },
    }
}

/// The names and values of a list of fields.
pub open spec fn pairs_view(fields: Seq<(&str, &str)>) -> Seq<(Seq<char>, Seq<char>)> {
    Seq::new(fields.len(), |i: int| (fields[i].0@, fields[i].1@))
}

/// Reads the attribute that `input` begins with, and returns it with the
/// rest of the input.
pub fn parse<'a>(input: &'a str) -> (r: Result<(&'a str, Attribute<'a>), ()>)
    ensures
        match r {
            Ok((rest, attribute)) => attribute_of(input@) matches Some((view, at)) && attribute@ == view
                && 0 <= at <= input@.len() && rest@ == input@.subrange(at, input@.len() as int),
            Err(_) => attribute_of(input@).is_none(),
        },
{
    let n = input.unicode_len();
    let at = skip_spaces_exec(input, 0, n);
    if at >= n || input.get_char(at) != '@' {
        return Err(());
    }
    let start = skip_spaces_exec(input, at + 1, n);
    let end = skip_letters_exec(input, start, n);
    if end == start {
        return Err(());
    }
    let name = input.substring_char(start, end);
    let open = skip_spaces_exec(input, end, n);
    if open < n && input.get_char(open) == '(' {
        let close = find_char_exec(input, open + 1, n, ')');
        if close > open + 1 && close < n {
            let inner = input.substring_char(open + 1, close);
            return match fields_exec(inner) {
                Some(fields) => {
                    let rest = skip_spaces_exec(input, close + 1, n);
                    Ok((input.substring_char(rest, n), Attribute { name, fields }))
                },
                None => Err(()),
            };
        }
    }
    let fields: Vec<(&'a str, &'a str)> = Vec::new();
    assert(pairs_view(fields@) =~= seq![]);
    Ok((input.substring_char(end, n), Attribute { name, fields }))
}

} // verus!
