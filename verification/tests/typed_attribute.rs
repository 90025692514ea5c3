use nom::branch::alt;
use nom::bytes::complete::is_not;
use nom::bytes::complete::tag;
use nom::character::complete::alpha1;
use nom::character::complete::char;
use nom::character::complete::i32;
use nom::character::complete::multispace0;
use nom::combinator::opt;
use nom::error::ParseError;
use nom::multi::separated_list1;
use nom::sequence::delimited;
use nom::sequence::separated_pair;
use nom::IResult;
use prisma_crdt::generator::attribute_parser::attribute;
use prisma_crdt::generator::attribute_parser::Attribute;
use prisma_crdt::generator::attribute_parser::AttributeValue;

fn wrap_ws<'a, O, E: ParseError<&'a str>, F>(wrapped: F) -> impl FnMut(&'a str) -> IResult<&'a str, O, E>
where
    F: FnMut(&'a str) -> IResult<&'a str, O, E>,
{
    delimited(multispace0, wrapped, multispace0)
}

fn parens(input: &str) -> IResult<&str, &str> {
    delimited(char('('), is_not(")"), char(')'))(input)
}

fn attribute_field(input: &str) -> IResult<&str, (String, AttributeValue)> {
    let (input, (field, value)) = wrap_ws(separated_pair(
        nom::combinator::map(wrap_ws(is_not(":")), |v: &str| v.to_string()),
        char(':'),
        wrap_ws(is_not(",")),
    ))(input)?;

    let (_, value) =
        alt((
        nom::combinator::map(i32, AttributeValue::Int),
        nom::combinator::map(alpha1, |s: &str| AttributeValue::String(s.to_string())),
    ))(value)?;

    Ok((input, (field, value)))
}

fn attribute_fields(input: &str) -> IResult<&str, Vec<(String, AttributeValue)>> {
    separated_list1(char(','), attribute_field)(input)
}

/// The grammar, written with the combinators of `nom`.
fn with_combinators(input: &str) -> IResult<&str, Attribute> {
    let (input, _) = tag("@")(input)?;
    let (input, name) = alpha1(input)?;
    let (input, values_str) = opt(parens)(input)?;

    let fields = match values_str {
        Some(values_str) => attribute_fields(values_str)?.1,
        None => vec![],
    };

    Ok((input, Attribute { name: name.to_string(), fields }))
}

fn agree(input: &str) {
    assert_eq!(attribute(input).ok(), with_combinators(input).ok(), "on {:?}", input);
}

#[test]
fn words_and_numbers() {
    let (rest, a) = attribute("@sync(depth: 3, mode: fast, back: -12) rest").unwrap();
    assert_eq!(rest, " rest");
    assert_eq!(a.name, "sync");
    assert_eq!(
        a.fields,
        vec![
            ("depth".to_string(), AttributeValue::Int(3)),
            ("mode".to_string(), AttributeValue::String("fast".to_string())),
            ("back".to_string(), AttributeValue::Int(-12)),
        ]
    );
}

#[test]
fn value_ends_where_the_number_or_the_word_ends() {
    let (_, a) = attribute("@a(b: 12ab, c: ab12, d: +7 )").unwrap();
    assert_eq!(
        a.fields,
        vec![
            ("b".to_string(), AttributeValue::Int(12)),
            ("c".to_string(), AttributeValue::String("ab".to_string())),
            ("d".to_string(), AttributeValue::Int(7)),
        ]
    );
}

#[test]
fn numbers_at_the_limits() {
    let (_, a) = attribute("@a(b: 2147483647, c: -2147483648, d: 0000000000000)").unwrap();
    assert_eq!(
        a.fields,
        vec![
            ("b".to_string(), AttributeValue::Int(2147483647)),
            ("c".to_string(), AttributeValue::Int(-2147483648)),
            ("d".to_string(), AttributeValue::Int(0)),
        ]
    );
    assert!(attribute("@a(b: 2147483648)").is_err());
    assert!(attribute("@a(b: -2147483649)").is_err());
    assert!(attribute("@a(b: 99999999999999999999999999)").is_err());
    let (_, a) = attribute("@a(b: 1, c: 2147483648)").unwrap();
    assert_eq!(a.fields.len(), 1);
}

#[test]
fn no_white_space_around_the_name() {
    assert!(attribute(" @a").is_err());
    assert!(attribute("@ a").is_err());
    let (rest, a) = attribute("@a (b: 1)").unwrap();
    assert_eq!(rest, " (b: 1)");
    assert!(a.fields.is_empty());
}

#[test]
fn values_that_are_neither() {
    assert!(attribute("@a(b: -)").is_err());
    assert!(attribute("@a(b: _x)").is_err());
    assert!(attribute("@a(b: é)").is_err());
    assert!(attribute("@a(b: ٣)").is_err());
}

#[test]
fn typed_parser_agrees_with_the_combinators_on_chosen_inputs() {
    for input in [
        "@a",
        "@a(b:1)",
        "@a(b: +1, c: -1, d: x)",
        "@a(b: 1 , c: x y, d: -x)",
        "@a(b: 2147483647)",
        "@a(b: 2147483648)",
        "@a(b: -2147483648)",
        "@a(b: -2147483649)",
        "@a(b:00000000000000000000001)",
        "@a(b:+)",
        "@a(b:+-1)",
        "@a(b:1,c:)",
        "@a()",
        "@a(b:1",
        "@a(b:1)(c:2)",
        "@é(b:1)",
        "@a(é: 1, b: é)",
    ] {
        agree(input);
    }
}

#[test]
fn typed_parser_agrees_with_the_combinators_on_all_short_inputs() {
    let alphabet = ['a', '(', ')', ':', ',', ' ', '1', '-', '+', '9'];
    let mut tails: Vec<String> = vec![String::new()];
    let mut from = 0;
    for _ in 0..5 {
        let upto = tails.len();
        for i in from..upto {
            for c in alphabet {
                let mut next = tails[i].clone();
                next.push(c);
                tails.push(next);
            }
        }
        from = upto;
    }
    for tail in &tails {
        agree(&format!("@a{}", tail));
        agree(&format!("@a(b:{}", tail));
        agree(&format!("@a(b:214748364{})", tail));
    }
    agree("");
    agree("a");
}
