use regex_parser::ast::{
    Alternation, Anchor, CharClass, CharSet, Expression, Group, IndirectMatch, ParserError,
    Quantifier, QuantifiedToken, RawCharClass, RawQuantifier, SubExpression, Token,
    UnicodeCategory,
};
use regex_parser::combinators::{
    and_then, either, not, not_but, one_or_more, quantified, repeat_range, zero_or_more,
    BoxedParser, ChainFn, ParseElement, UnimplementedParser,
};
use regex_parser::parsers::{
    any_char, escapable, expression, map_anchor, map_literal_charset, map_unicode_charset,
    match_literal, not_reserved, number, quantifier, token,
};

fn units(n: usize) -> ParseElement {
    ParseElement::List((0..n).map(|_| ParseElement::Unit).collect())
}

/// An expression holding one literal character, as nested groups contain.
fn char_expression(c: char) -> Expression {
    Expression {
        alt: Alternation {
            choices: vec![SubExpression {
                tokens: vec![QuantifiedToken::Singleton(Token::Char(c))],
            }],
        },
    }
}

#[test]
fn either_backtracks_from_original_input() {
    // the first alternative inspects two characters before failing; the
    // second still sees the whole original input
    let p = either(match_literal("Hej"), match_literal("Hello"));
    assert_eq!(Ok((ParseElement::Unit, " World")), p.parse("Hello World"));

    let q = either(match_literal("Hej"), match_literal("Hello"));
    assert_eq!(Ok((ParseElement::Unit, "da")), q.parse("Hejda"));

    let r = either(match_literal("Hej"), match_literal("Hello"));
    assert_eq!(Err(ParserError::Error("Hola".to_owned())), r.parse("Hola"));
}

#[test]
fn repeat_boundaries_at_exact_bound() {
    // exactly three matches: all three consumed
    assert_eq!(
        Ok((units(3), "f")),
        repeat_range(match_literal("e"), 3, Some(3)).parse("eeef")
    );
    // one too few: the lower bound is violated
    assert_eq!(
        Err(ParserError::RepeatLower(3)),
        repeat_range(match_literal("e"), 3, Some(3)).parse("eef")
    );
    // one extra available: exactly three consumed, the extra is left
    assert_eq!(
        Ok((units(3), "ef")),
        repeat_range(match_literal("e"), 3, Some(3)).parse("eeeef")
    );
}

#[test]
fn zero_or_more_never_fails() {
    assert_eq!(Ok((units(0), "f")), zero_or_more(match_literal("e")).parse("f"));
    assert_eq!(Ok((units(0), "")), zero_or_more(match_literal("e")).parse(""));
}

#[test]
fn one_or_more_needs_one() {
    assert_eq!(Err(ParserError::RepeatLower(1)), one_or_more(match_literal("e")).parse("f"));
    assert_eq!(Ok((units(2), "f")), one_or_more(match_literal("e")).parse("eef"));
}

#[test]
fn not_reports_unexpected_match() {
    let p = not(match_literal("H"));
    assert_eq!(Err(ParserError::UnexpectedMatch("Hello".to_owned())), p.parse("Hello"));
    assert_eq!(Ok((ParseElement::Unit, "World")), p.parse("World"));
}

#[test]
fn not_but_matches_only_elsewhere() {
    let p = not_but(match_literal("a"), any_char());
    assert_eq!(Ok((ParseElement::Char('b'), "a")), p.parse("ba"));
    let q = not_but(match_literal("a"), any_char());
    assert_eq!(Err(ParserError::UnexpectedMatch("ab".to_owned())), q.parse("ab"));
}

#[test]
fn and_then_acts_as_back_reference() {
    // parse one character, then require that same character again
    let p = and_then(any_char(), ChainFn::MatchSameChar);
    assert_eq!(Ok((ParseElement::Unit, " bc")), p.parse("aa bc"));
    let q = and_then(any_char(), ChainFn::MatchSameChar);
    assert_eq!(Err(ParserError::Error("b".to_owned())), q.parse("ab"));
}

#[test]
fn quantified_hands_the_parser_back() {
    let p = quantified(match_literal("a"));
    assert_eq!(Ok((ParseElement::Unit, "b")), p.parse("ab"));
}

#[test]
fn boxed_parser_parses_like_the_parser() {
    let p = BoxedParser::new(match_literal("a"));
    assert_eq!(Ok((ParseElement::Unit, "b")), p.parse("ab"));
}

#[test]
fn unimplemented_parser_always_fails() {
    let p = UnimplementedParser {};
    assert_eq!(
        Err::<(ParseElement, &str), ParserError>(ParserError::Error("abc".to_owned())),
        p.parse("abc")
    );
}

#[test]
fn number_saturates_and_stops_at_nondigits() {
    assert_eq!(Ok((42, "x")), number().parse("42x"));
    assert_eq!(Err(ParserError::RepeatLower(1)), number().parse("x42"));
    // a value past the machine's range saturates
    assert_eq!(
        Ok((usize::MAX, "")),
        number().parse("99999999999999999999999999999999")
    );
}

#[test]
fn quantifier_forms() {
    assert_eq!(Ok((Quantifier::Lazy(RawQuantifier::Kleene), "")), quantifier().parse("*?"));
    assert_eq!(Ok((Quantifier::Greedy(RawQuantifier::Plus), "")), quantifier().parse("+"));
    assert_eq!(Ok((Quantifier::Lazy(RawQuantifier::Plus), "")), quantifier().parse("+?"));
    assert_eq!(Ok((Quantifier::Greedy(RawQuantifier::Possible), "")), quantifier().parse("?"));
    assert_eq!(
        Ok((Quantifier::Greedy(RawQuantifier::Exact(3)), "")),
        quantifier().parse("{3}")
    );
    assert_eq!(
        Ok((Quantifier::Greedy(RawQuantifier::Range(2, None)), "")),
        quantifier().parse("{2,}")
    );
    assert_eq!(
        Ok((Quantifier::Lazy(RawQuantifier::Range(2, Some(5))), "")),
        quantifier().parse("{2,5}?")
    );
    assert_eq!(Err(ParserError::Error("x".to_owned())), quantifier().parse("x"));
}

#[test]
fn token_forms() {
    assert_eq!(Ok((Token::Anchor(Anchor::Begin), "a")), token().parse("^a"));
    assert_eq!(Ok((Token::Anchor(Anchor::End), "")), token().parse("$"));
    assert_eq!(
        Ok((Token::IndirectMatch(IndirectMatch::WildCard), "a")),
        token().parse(".a")
    );
    assert_eq!(Ok((Token::Char('*'), "b")), token().parse("\\*b"));
    assert_eq!(
        Ok((
            Token::IndirectMatch(IndirectMatch::Class(CharClass::Regular(
                RawCharClass::CharRange('a', 'e')
            ))),
            ""
        )),
        token().parse("[a-e]")
    );
    assert_eq!(
        Ok((
            Token::IndirectMatch(IndirectMatch::Class(CharClass::Inverted(
                RawCharClass::CharRange('a', 'e')
            ))),
            "x"
        )),
        token().parse("[^a-e]x")
    );
    assert_eq!(
        Ok((
            Token::IndirectMatch(IndirectMatch::Class(CharClass::Regular(
                RawCharClass::CharGroup(vec!['a', 'b', 'c'])
            ))),
            ""
        )),
        token().parse("[abc]")
    );
    assert_eq!(
        Ok((
            Token::IndirectMatch(IndirectMatch::Class(CharClass::Regular(
                RawCharClass::SpecialSet(CharSet::Word)
            ))),
            ""
        )),
        token().parse("[\\w]")
    );
    assert_eq!(
        Ok((
            Token::IndirectMatch(IndirectMatch::Class(CharClass::Regular(
                RawCharClass::SpecialSet(CharSet::DecimalDigit)
            ))),
            "x"
        )),
        token().parse("\\dx")
    );
    assert_eq!(
        Ok((
            Token::IndirectMatch(IndirectMatch::Class(CharClass::Regular(
                RawCharClass::SpecialSet(CharSet::UnicodeCategory(UnicodeCategory::Punctuation))
            ))),
            "x"
        )),
        token().parse("\\P{Lt}x")
    );
    assert_eq!(Err(ParserError::Error(")".to_owned())), token().parse(")"));
}

#[test]
fn capturing_groups_numbered_left_to_right() {
    // the non-capturing group is skipped by the counter: the first and the
    // third group get indices 1 and 2
    let expected = Expression {
        alt: Alternation {
            choices: vec![SubExpression {
                tokens: vec![
                    QuantifiedToken::Singleton(Token::Group(Group::Capturing(
                        1,
                        Box::new(char_expression('a')),
                    ))),
                    QuantifiedToken::Singleton(Token::Group(Group::NonCapturing(Box::new(
                        char_expression('b'),
                    )))),
                    QuantifiedToken::Singleton(Token::Group(Group::Capturing(
                        2,
                        Box::new(char_expression('c')),
                    ))),
                ],
            }],
        },
    };
    assert_eq!(Ok((expected, "")), expression().parse("(a)(?:b)(c)"));
}

#[test]
fn nested_groups_numbered_by_opening_parenthesis() {
    // the outer group opens first and gets index 1, the nested one index 2
    let inner = Expression {
        alt: Alternation {
            choices: vec![SubExpression {
                tokens: vec![
                    QuantifiedToken::Singleton(Token::Group(Group::Capturing(
                        2,
                        Box::new(char_expression('a')),
                    ))),
                    QuantifiedToken::Singleton(Token::Char('b')),
                ],
            }],
        },
    };
    let expected = Expression {
        alt: Alternation {
            choices: vec![SubExpression {
                tokens: vec![QuantifiedToken::Singleton(Token::Group(Group::Capturing(
                    1,
                    Box::new(inner),
                )))],
            }],
        },
    };
    assert_eq!(Ok((expected, "")), expression().parse("((a)b)"));
}

#[test]
fn alternation_splits_on_bars() {
    let expected = Expression {
        alt: Alternation {
            choices: vec![
                SubExpression { tokens: vec![QuantifiedToken::Singleton(Token::Char('a'))] },
                SubExpression { tokens: vec![QuantifiedToken::Singleton(Token::Char('b'))] },
                SubExpression { tokens: vec![QuantifiedToken::Singleton(Token::Char('c'))] },
            ],
        },
    };
    assert_eq!(Ok((expected, "")), expression().parse("a|b|c"));
}

#[test]
fn trailing_bar_is_left_unconsumed() {
    assert_eq!(Ok((char_expression('a'), "|")), expression().parse("a|"));
}

#[test]
fn quantified_tokens_in_expression() {
    let expected = Expression {
        alt: Alternation {
            choices: vec![SubExpression {
                tokens: vec![
                    QuantifiedToken::Quantified(
                        Token::Char('a'),
                        Quantifier::Greedy(RawQuantifier::Kleene),
                    ),
                    QuantifiedToken::Quantified(
                        Token::Char('b'),
                        Quantifier::Lazy(RawQuantifier::Exact(2)),
                    ),
                ],
            }],
        },
    };
    assert_eq!(Ok((expected, "")), expression().parse("a*b{2}?"));
}

#[test]
fn empty_pattern_is_rejected() {
    assert_eq!(Err(ParserError::Error("".to_owned())), expression().parse(""));
}

#[test]
fn helper_character_maps() {
    assert_eq!(Some(CharSet::Word), map_literal_charset('w'));
    assert_eq!(Some(CharSet::WhiteSpace), map_literal_charset('s'));
    assert_eq!(Some(CharSet::DecimalDigit), map_literal_charset('d'));
    assert_eq!(None, map_literal_charset('x'));

    assert_eq!(Some(UnicodeCategory::Punctuation), map_unicode_charset("P"));
    assert_eq!(Some(UnicodeCategory::Punctuation), map_unicode_charset("Lt"));
    assert_eq!(Some(UnicodeCategory::Punctuation), map_unicode_charset("Ll"));
    assert_eq!(Some(UnicodeCategory::Punctuation), map_unicode_charset("N"));
    assert_eq!(Some(UnicodeCategory::Punctuation), map_unicode_charset("S"));
    assert_eq!(None, map_unicode_charset("Zs"));

    assert_eq!(Some(Anchor::Begin), map_anchor('^'));
    assert_eq!(Some(Anchor::End), map_anchor('$'));
    assert_eq!(None, map_anchor('a'));

    assert!(not_reserved(&'a'));
    assert!(!not_reserved(&'['));
    assert!(escapable(&'\\'));
    assert!(!escapable(&'a'));
}
