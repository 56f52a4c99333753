use regex_parser::ast::{
    Alternation, Expression, ParserError, Quantifier, QuantifiedToken, RawQuantifier,
    SubExpression, Token,
};
use regex_parser::combinators::{
    pair, left, right, repeat_range, predicate, MapFn, ParseElement, PredFn,
};
use regex_parser::parsers::{
    any_char, expression, match_literal, number, optional, pqtoken, quantifier, sub_expression,
    token,
};

#[test]
fn test_match_literal() {
    let parse_hello = match_literal("Hello");
    assert_eq!(Ok((ParseElement::Unit, " World")), parse_hello.parse("Hello World"));
    assert_eq!(
        Err(ParserError::Error("HeLlO WoRlD".to_owned())),
        parse_hello.parse("HeLlO WoRlD")
    );
    assert_eq!(Ok((ParseElement::Unit, "")), parse_hello.parse("Hello"));
}

#[test]
fn test_any_char() {
    assert_eq!(Ok((ParseElement::Char('H'), "ello")), any_char().parse("Hello"));
    assert_eq!(Err(ParserError::Error("".to_owned())), any_char().parse(""));
}

#[test]
fn test_map() {
    let any_char_lc = regex_parser::combinators::map(any_char(), MapFn::LowerAscii);
    assert_eq!(Ok((ParseElement::Char('h'), "ello")), any_char_lc.parse("Hello"));
    assert_eq!(Err(ParserError::Error("".to_owned())), any_char_lc.parse(""));

    let parse_hello_to_bool =
        regex_parser::combinators::map(match_literal("Hello"), MapFn::ConstTrue);
    assert_eq!(Ok((ParseElement::Bool(true), "")), parse_hello_to_bool.parse("Hello"));
    assert_eq!(Err(ParserError::Error("Hola".to_owned())), parse_hello_to_bool.parse("Hola"));
}

#[test]
fn test_pair() {
    let first_char_then_ello = pair(any_char(), match_literal("ello"));
    assert_eq!(
        Ok((
            ParseElement::Duo(
                Box::new(ParseElement::Char('H')),
                Box::new(ParseElement::Unit)
            ),
            ""
        )),
        first_char_then_ello.parse("Hello")
    );
}

#[test]
fn test_left() {
    let first_char_then_ello_left = left(any_char(), match_literal("ello"));
    assert_eq!(Ok((ParseElement::Char('H'), "")), first_char_then_ello_left.parse("Hello"));
}

#[test]
fn test_right() {
    let first_char_then_ello_right = right(any_char(), match_literal("ello"));
    assert_eq!(Ok((ParseElement::Unit, "")), first_char_then_ello_right.parse("Hello"));
}

fn units(n: usize) -> ParseElement {
    ParseElement::List((0..n).map(|_| ParseElement::Unit).collect())
}

#[test]
fn test_repeat_range() {
    let s1 = "eeeeeeeeefffffff";

    let all_parsed_res = Ok((units(9), "fffffff"));
    let parsed_5_res = Ok((units(5), "eeeefffffff"));

    assert_eq!(all_parsed_res, repeat_range(match_literal("e"), 0, None).parse(s1));
    assert_eq!(all_parsed_res, repeat_range(match_literal("e"), 1, None).parse(s1));
    assert_eq!(all_parsed_res, repeat_range(match_literal("e"), 5, None).parse(s1));
    assert_eq!(all_parsed_res, repeat_range(match_literal("e"), 9, None).parse(s1));
    assert_eq!(all_parsed_res, repeat_range(match_literal("e"), 0, Some(20)).parse(s1));

    assert_eq!(parsed_5_res, repeat_range(match_literal("e"), 0, Some(5)).parse(s1));
    assert_eq!(parsed_5_res, repeat_range(match_literal("e"), 1, Some(5)).parse(s1));
    assert_eq!(parsed_5_res, repeat_range(match_literal("e"), 2, Some(5)).parse(s1));
    assert_eq!(parsed_5_res, repeat_range(match_literal("e"), 3, Some(5)).parse(s1));

    assert_eq!(
        Err(ParserError::RepeatLower(10)),
        repeat_range(match_literal("e"), 10, None).parse(s1)
    );
    assert_eq!(
        Err(ParserError::RepeatLower(25)),
        repeat_range(match_literal("e"), 25, None).parse(s1)
    );
}

#[test]
fn test_predicate() {
    let white_space_remover = predicate(any_char(), PredFn::IsWhitespace);

    let leading_space = " hello";
    let no_leading_space = &leading_space[1..];

    assert_eq!(Ok((ParseElement::Char(' '), "hello")), white_space_remover.parse(leading_space));
    assert_eq!(
        Err(ParserError::Error("hello".to_owned())),
        white_space_remover.parse(no_leading_space)
    );
}

#[test]
fn test_optional() {
    let maybe_j = optional(match_literal("J"));

    assert_eq!(
        Ok((ParseElement::Maybe(Some(Box::new(ParseElement::Unit))), "")),
        maybe_j.parse("J")
    );
    assert_eq!(Ok((ParseElement::Maybe(None), "K")), maybe_j.parse("K"));
}

#[test]
fn test_quantifier() {
    let quant_parser = quantifier();

    assert_eq!(Ok((Quantifier::Greedy(RawQuantifier::Kleene), "")), quant_parser.parse("*"));
}

#[test]
fn test_parser() {
    let t_parser = expression();
    println!("BUILT!");
    assert_eq!(
        Ok((
            Expression {
                alt: Alternation {
                    choices: vec![SubExpression {
                        tokens: vec![
                            QuantifiedToken::Singleton(Token::Char('J')),
                            QuantifiedToken::Singleton(Token::Char('T'))
                        ]
                    }]
                }
            },
            ""
        )),
        t_parser.parse("JT")
    )
}

#[test]
fn test_parser_print() {
    let par = expression();
    let expr = par.parse("a*b(?:[a-e])((i?)[\\w][^a-e])");
    println!("{:#?}", expr);
}

#[test]
fn test_number() {
    let t_parser = number();
    println!("BUILT!");
    assert_eq!(Ok((10000, "")), t_parser.parse("10000"))
}

#[test]
fn test_char_token() {
    let t_parser = token();
    println!("BUILT!");
    assert_eq!(Ok((Token::Char('J'), "")), t_parser.parse("J"))
}

#[test]
fn test_pq_char_token() {
    let t_parser = pqtoken();
    println!("BUILT!");
    assert_eq!(Ok((QuantifiedToken::Singleton(Token::Char('J')), "T")), t_parser.parse("JT"))
}

#[test]
fn test_subexpression() {
    let t_parser = sub_expression();
    println!("BUILT!");
    assert_eq!(
        Ok((
            SubExpression {
                tokens: vec![
                    QuantifiedToken::Singleton(Token::Char('J')),
                    QuantifiedToken::Singleton(Token::Char('T'))
                ],
            },
            ""
        )),
        t_parser.parse("JT")
    )
}
