use nom::bytes::complete::is_not;
use nom::bytes::complete::tag;
use nom::character::complete::alpha1;
use nom::character::complete::char;
use nom::character::complete::multispace0;
use nom::combinator::opt;
use nom::error::ParseError;
use nom::multi::separated_list1;
use nom::sequence::delimited;
use nom::sequence::separated_pair;
use nom::IResult;
use prisma_crdt::attribute::parser::parse;
use prisma_crdt::attribute::Attribute;

fn remove_ws<'a, O, E: ParseError<&'a str>, F>(wrapped: F) -> impl FnMut(&'a str) -> IResult<&'a str, O, E>
where
    F: FnMut(&'a str) -> IResult<&'a str, O, E>,
{
    delimited(multispace0, wrapped, multispace0)
}

fn parens(input: &str) -> IResult<&str, &str> {
    delimited(char('('), is_not(")"), char(')'))(input)
}

fn attribute_field(input: &str) -> IResult<&str, (&str, &str)> {
    remove_ws(separated_pair(remove_ws(is_not(":")), char(':'), remove_ws(is_not(","))))(input)
}

fn attribute_fields(input: &str) -> IResult<&str, Vec<(&str, &str)>> {
    separated_list1(char(','), attribute_field)(input)
}

/// The grammar, written with the combinators of `nom`.
fn with_combinators(input: &str) -> IResult<&str, (&str, Vec<(&str, &str)>)> {
    let (input, _) = remove_ws(tag("@"))(input)?;
    let (input, name) = alpha1(input)?;
    let (input, values_str) = opt(remove_ws(parens))(input)?;

    let fields = match values_str {
        Some(values_str) => attribute_fields(values_str)?.1,
        None => vec![],
    };

    Ok((input, (name, fields)))
}

fn agree(input: &str) {
    let expected = with_combinators(input).ok();
    let found = parse(input).ok().map(|(rest, a)| (rest, (a.name, a.fields)));
    assert_eq!(found, expected, "on {:?}", input);
}

#[test]
fn attribute_without_fields() {
    let a = Attribute::parse("@local").unwrap();
    assert_eq!(a.name, "local");
    assert!(a.fields.is_empty());
    assert_eq!(a.field("id"), None);
}

#[test]
fn attribute_with_fields() {
    let a = Attribute::parse("  @ shared (id: pub_id, create: Atomic) trailing").unwrap();
    assert_eq!(a.name, "shared");
    assert_eq!(a.fields, vec![("id", "pub_id"), ("create", "Atomic")]);
    assert_eq!(a.field("id"), Some("pub_id"));
    assert_eq!(a.field("create"), Some("Atomic"));
    assert_eq!(a.field("owner"), None);
}

#[test]
fn rest_of_the_input_is_returned() {
    let (rest, a) = parse("@owned(owner: node)  \n next").unwrap();
    assert_eq!(rest, "next");
    assert_eq!(a.fields, vec![("owner", "node")]);
    let (rest, a) = parse("@owned  () x").unwrap();
    assert_eq!(rest, "  () x");
    assert!(a.fields.is_empty());
}

#[test]
fn name_and_value_keep_white_space_at_their_end() {
    let a = Attribute::parse("@relation(item : tag , group:file )").unwrap();
    assert_eq!(a.fields, vec![("item ", "tag "), ("group", "file ")]);
    assert_eq!(a.field("item"), None);
    assert_eq!(a.field("item "), Some("tag "));
}

#[test]
fn first_field_of_a_name_is_found() {
    let a = Attribute::parse("@owned(id: a, id: b)").unwrap();
    assert_eq!(a.field("id"), Some("a"));
}

#[test]
fn inputs_without_an_attribute() {
    assert!(Attribute::parse("").is_err());
    assert!(Attribute::parse("local").is_err());
    assert!(Attribute::parse("@").is_err());
    assert!(Attribute::parse("@1").is_err());
    assert!(Attribute::parse("@shared(id)").is_err());
    assert!(Attribute::parse("@shared(: x)").is_err());
    assert!(Attribute::parse("@shared(id: )").is_err());
    assert!(Attribute::parse("@shared(id:x").is_ok());
}

#[test]
fn fields_end_at_the_first_that_is_none() {
    let a = Attribute::parse("@shared(id: a, broken)").unwrap();
    assert_eq!(a.fields, vec![("id", "a")]);
    // a name runs up to the colon, commas included
    let a = Attribute::parse("@shared(id: a, broken, create: Unique)").unwrap();
    assert_eq!(a.fields, vec![("id", "a"), ("broken, create", "Unique")]);
    let a = Attribute::parse("@shared(id: a,)").unwrap();
    assert_eq!(a.fields, vec![("id", "a")]);
}

#[test]
fn characters_beyond_ascii() {
    let a = Attribute::parse("@owned(ключ: значение, é: ü)").unwrap();
    assert_eq!(a.fields, vec![("ключ", "значение"), ("é", "ü")]);
    agree("@owned(ключ: значение, é: ü) ё");
    agree("@é");
    agree(" \u{a0}@a");
}

#[test]
fn agrees_with_the_combinators_on_chosen_inputs() {
    for input in [
        "@local",
        "@shared(id: pub_id)",
        "@shared (id: pub_id, create: Atomic)",
        "  @  owned\t(owner: node , id:x)\r\n rest",
        "@relation(item: tag, group: file",
        "@relation()",
        "@relation( )",
        "@relation(a:b,,c:d)",
        "@relation(a:b:c,d:e)",
        "@relation(a:b)(c:d)",
        "@a(b:c) ) ",
        "@a b",
        "@A(\n b : c \n,\n d : e \n)",
    ] {
        agree(input);
    }
}

#[test]
fn agrees_with_the_combinators_on_all_short_inputs() {
    let alphabet = ['@', 'a', 'B', '(', ')', ':', ',', ' ', '\n', '1'];
    let mut inputs: Vec<String> = vec![String::new()];
    let mut from = 0;
    for _ in 0..5 {
        let upto = inputs.len();
        for i in from..upto {
            for c in alphabet {
                let mut next = inputs[i].clone();
                next.push(c);
                inputs.push(next);
            }
        }
        from = upto;
    }
    assert_eq!(inputs.len(), 111_111);
    for input in &inputs {
        agree(input);
    }
    // longer inputs that begin as an attribute with a list
    for tail in inputs.iter().filter(|s| s.chars().count() == 4) {
        agree(&format!("@a(b:c{}", tail));
        agree(&format!("@a(b{})", tail));
    }
}
