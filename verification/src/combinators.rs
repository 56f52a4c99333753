//! The combinator engine: a first-class parser value, its mathematical
//! meaning, and the composition operators that build new parsers from
//! existing ones.
//!
//! A parser is a value of the [`Parser`] enum. Running it on an input either
//! succeeds with a value and the remaining input, or fails with a
//! [`ParserError`]; the meaning of every parser is the spec function
//! [`spec_parse`], and the executable [`Parser::parse`] is proved to return
//! exactly that. Transformations and predicates handed to `map`, `predicate`
//! and `and_then` are drawn from the closed enums [`MapFn`], [`PredFn`] and
//! [`ChainFn`], so that each has an exact specification.

use vstd::prelude::*;
use vstd::string::*;

use crate::ast::{
    Expression, Quantifier, QuantifiedToken, RawQuantifier, SubExpression, Token,
    ParserError, SpecParserError,
    SpecExpression, SpecQuantifiedToken, SpecSubExpression, SpecToken,
    view_expression, view_quantified_token, view_sub_expression, view_token,
};

verus! {

/// The value a parser yields: a closed union of everything the combinators
/// and the grammar rules produce, from unit and single characters up to whole
/// expressions.
#[derive(Debug, PartialEq, Eq)]
pub enum ParseElement {
    Unit,
    Bool(bool),
    Char(char),
    Num(usize),
    List(Vec<ParseElement>),
    Maybe(Option<Box<ParseElement>>),
    Duo(Box<ParseElement>, Box<ParseElement>),
    Raw(RawQuantifier),
    Quant(Quantifier),
    Tok(Token),
    QuantTok(QuantifiedToken),
    Sub(SubExpression),
    Expr(Expression),
}

/// Model of [`ParseElement`].
pub enum SpecParseElement {
    Unit,
    Bool(bool),
    Char(char),
    Num(usize),
    List(Seq<SpecParseElement>),
    Maybe(Option<Box<SpecParseElement>>),
    Duo(Box<SpecParseElement>, Box<SpecParseElement>),
    Raw(RawQuantifier),
    Quant(Quantifier),
    Tok(SpecToken),
    QuantTok(SpecQuantifiedToken),
    Sub(SpecSubExpression),
    Expr(SpecExpression),
}

pub open spec fn view_parse_elements(s: Seq<ParseElement>) -> Seq<SpecParseElement>
    decreases s,
{
    Seq::new(
        s.len(),
        |i: int|
            if 0 <= i < s.len() {
                view_parse_element(s[i])
            } else {
                arbitrary()
            },
    )
}

pub open spec fn view_parse_element(e: ParseElement) -> SpecParseElement
    decreases e,
{
    match e {
        ParseElement::Unit => SpecParseElement::Unit,
        ParseElement::Bool(b) => SpecParseElement::Bool(b),
        ParseElement::Char(c) => SpecParseElement::Char(c),
        ParseElement::Num(n) => SpecParseElement::Num(n),
        ParseElement::List(es) => SpecParseElement::List(view_parse_elements(es@)),
        ParseElement::Maybe(o) => match o {
            Option::Some(b) => SpecParseElement::Maybe(Some(Box::new(view_parse_element(*b)))),
            Option::None => SpecParseElement::Maybe(None),
        },
        ParseElement::Duo(a, b) => SpecParseElement::Duo(
            Box::new(view_parse_element(*a)),
            Box::new(view_parse_element(*b)),
        ),
        ParseElement::Raw(r) => SpecParseElement::Raw(r),
        ParseElement::Quant(q) => SpecParseElement::Quant(q),
        ParseElement::Tok(t) => SpecParseElement::Tok(view_token(t)),
        ParseElement::QuantTok(t) => SpecParseElement::QuantTok(view_quantified_token(t)),
        ParseElement::Sub(s) => SpecParseElement::Sub(view_sub_expression(s)),
        ParseElement::Expr(e) => SpecParseElement::Expr(view_expression(e)),
    }
}

impl View for ParseElement {
    type V = SpecParseElement;

    open spec fn view(&self) -> SpecParseElement {
        view_parse_element(*self)
    }
}

/// The transformations `map` may apply to a parsed value. Each is total: on
/// a value of an unexpected shape it returns the value unchanged.
#[derive(Debug, PartialEq, Eq, Clone, Copy)]
pub enum MapFn {
    /// Keep the first component of a pair.
    First,
    /// Keep the second component of a pair.
    Second,
    /// Lower-case an ASCII letter.
    LowerAscii,
    /// Replace any value by `true`.
    ConstTrue,
    /// Turn a list of decimal digit characters into their numeric value,
    /// saturating at `usize::MAX`.
    DigitsToNum,
    /// Replace any value by the Kleene-star quantifier.
    ToKleene,
    /// Replace any value by the plus quantifier.
    ToPlus,
    /// Replace any value by the question-mark quantifier.
    ToPossible,
    /// Turn the parsed body of a `{..}` bound into a raw quantifier.
    ToBound,
    /// Attach the optional laziness marker to a raw quantifier.
    ToQuantifier,
}

/// The predicates `predicate` may test a parsed value with.
#[derive(Debug, PartialEq, Eq, Clone, Copy)]
pub enum PredFn {
    /// The value is an ASCII whitespace character.
    IsWhitespace,
    /// The value is a decimal digit character.
    IsAsciiDigit,
    /// The value is a character and not one of the reserved metacharacters.
    IsNotReserved,
    /// The value is one of the reserved metacharacters, so a backslash may
    /// escape it.
    IsEscapable,
}

/// The continuations `and_then` may build a second parser from. Each one
/// builds a literal parser, so that the continuation of a monadic bind has a
/// meaning Verus can unfold.
#[derive(Debug, PartialEq, Eq, Clone, Copy)]
pub enum ChainFn {
    /// Match the very character that was just parsed, as a back-reference
    /// would; on a value that is not a character, match the empty literal.
    MatchSameChar,
}

/// A first-class parser. The composition operators below build values of
/// this type; [`Parser::parse`] runs them.
#[derive(Debug, PartialEq, Eq)]
pub enum Parser {
    /// Consume exactly the given characters.
    MatchLiteral(Vec<char>),
    /// Consume any single character.
    AnyChar,
    /// Run the parser, then transform its value.
    Mapped(Box<Parser>, MapFn),
    /// Run the first parser, then the second on what remains.
    Pair(Box<Parser>, Box<Parser>),
    /// Apply the parser repeatedly, with a lower and an optional upper bound
    /// on the number of repetitions.
    Repeat(Box<Parser>, usize, Option<usize>),
    /// Run the parser, then fail unless the predicate holds of its value.
    Predicate(Box<Parser>, PredFn),
    /// Run the parser, then run the parser its value determines.
    AndThen(Box<Parser>, ChainFn),
    /// Try the first parser; on failure try the second on the same input.
    Either(Box<Parser>, Box<Parser>),
    /// Succeed, consuming nothing, exactly when the parser fails.
    Not(Box<Parser>),
    /// Run the parser; on failure succeed with no value, consuming nothing.
    Optional(Box<Parser>),
}

/// Model of [`Parser`].
pub enum SpecParser {
    MatchLiteral(Seq<char>),
    AnyChar,
    Mapped(Box<SpecParser>, MapFn),
    Pair(Box<SpecParser>, Box<SpecParser>),
    Repeat(Box<SpecParser>, usize, Option<usize>),
    Predicate(Box<SpecParser>, PredFn),
    AndThen(Box<SpecParser>, ChainFn),
    Either(Box<SpecParser>, Box<SpecParser>),
    Not(Box<SpecParser>),
    Optional(Box<SpecParser>),
}

pub open spec fn view_parser(p: Parser) -> SpecParser
    decreases p,
{
    match p {
        Parser::MatchLiteral(cs) => SpecParser::MatchLiteral(cs@),
        Parser::AnyChar => SpecParser::AnyChar,
        Parser::Mapped(p, f) => SpecParser::Mapped(Box::new(view_parser(*p)), f),
        Parser::Pair(p1, p2) => SpecParser::Pair(
            Box::new(view_parser(*p1)),
            Box::new(view_parser(*p2)),
        ),
        Parser::Repeat(p, start, stop) => SpecParser::Repeat(
            Box::new(view_parser(*p)),
            start,
            stop,
        ),
        Parser::Predicate(p, f) => SpecParser::Predicate(Box::new(view_parser(*p)), f),
        Parser::AndThen(p, f) => SpecParser::AndThen(Box::new(view_parser(*p)), f),
        Parser::Either(p1, p2) => SpecParser::Either(
            Box::new(view_parser(*p1)),
            Box::new(view_parser(*p2)),
        ),
        Parser::Not(p) => SpecParser::Not(Box::new(view_parser(*p))),
        Parser::Optional(p) => SpecParser::Optional(Box::new(view_parser(*p))),
    }
}

impl View for Parser {
    type V = SpecParser;

    open spec fn view(&self) -> SpecParser {
        view_parser(*self)
    }
}

/// The number of nodes of a parser: the innermost component of the
/// termination measure of [`spec_parse`].
pub open spec fn parser_size(p: SpecParser) -> nat
    decreases p,
{
    match p {
        SpecParser::MatchLiteral(_) => 1,
        SpecParser::AnyChar => 1,
        SpecParser::Mapped(p, _) => 1 + parser_size(*p),
        SpecParser::Pair(p1, p2) => 1 + parser_size(*p1) + parser_size(*p2),
        SpecParser::Repeat(p, _, _) => 1 + parser_size(*p),
        SpecParser::Predicate(p, _) => 1 + parser_size(*p),
        SpecParser::AndThen(p, _) => 1 + parser_size(*p),
        SpecParser::Either(p1, p2) => 1 + parser_size(*p1) + parser_size(*p2),
        SpecParser::Not(p) => 1 + parser_size(*p),
        SpecParser::Optional(p) => 1 + parser_size(*p),
    }
}

/// The rank of a parser orders the grammar's nonterminals so that rules may
/// refer to lower-ranked rules without consuming input; plain combinator
/// trees all have rank zero.
pub open spec fn parser_rank(p: SpecParser) -> nat
    decreases p,
{
    match p {
        SpecParser::MatchLiteral(_) => 0,
        SpecParser::AnyChar => 0,
        SpecParser::Mapped(p, _) => parser_rank(*p),
        SpecParser::Pair(p1, p2) => rank_max(parser_rank(*p1), parser_rank(*p2)),
        SpecParser::Repeat(p, _, _) => parser_rank(*p),
        SpecParser::Predicate(p, _) => parser_rank(*p),
        SpecParser::AndThen(p, _) => parser_rank(*p),
        SpecParser::Either(p1, p2) => rank_max(parser_rank(*p1), parser_rank(*p2)),
        SpecParser::Not(p) => parser_rank(*p),
        SpecParser::Optional(p) => parser_rank(*p),
    }
}

pub open spec fn rank_max(a: nat, b: nat) -> nat {
    if a >= b {
        a
    } else {
        b
    }
}

/// Lower-case an ASCII upper-case letter; leave every other character alone.
pub open spec fn lower_char(c: char) -> char {
    if 'A' <= c && c <= 'Z' {
        (((c as u32) + 32) as u8) as char
    } else {
        c
    }
}

/// The numeric value of a decimal digit character; zero for any other
/// character.
pub open spec fn digit_val(c: char) -> nat {
    if '0' <= c && c <= '9' {
        (c as u32 - '0' as u32) as nat
    } else {
        0
    }
}

/// The numeric value of a sequence of decimal digit characters.
pub open spec fn digits_val(s: Seq<char>) -> nat
    decreases s.len(),
{
    if s.len() == 0 {
        0
    } else {
        digits_val(s.drop_last()) * 10 + digit_val(s.last())
    }
}

/// The numeric value of the digits, saturating at `usize::MAX`.
pub open spec fn digits_val_sat(s: Seq<char>) -> usize {
    if digits_val(s) > usize::MAX {
        usize::MAX
    } else {
        digits_val(s) as usize
    }
}

/// Whether every element of the list is a single character.
pub open spec fn all_chars(s: Seq<SpecParseElement>) -> bool {
    forall|i: int| 0 <= i < s.len() ==> s[i] is Char
}

/// The characters of a list whose elements are all single characters.
pub open spec fn chars_of(s: Seq<SpecParseElement>) -> Seq<char> {
    Seq::new(s.len(), |i: int| s[i]->Char_0)
}

/// An ASCII whitespace character.
pub open spec fn is_space_char(c: char) -> bool {
    c == ' ' || c == '\t' || c == '\n' || c == '\r' || c == '\u{b}' || c == '\u{c}'
}

/// A decimal digit character.
pub open spec fn is_digit_char(c: char) -> bool {
    '0' <= c && c <= '9'
}

/// A reserved metacharacter of the regex grammar.
pub open spec fn is_reserved_char(c: char) -> bool {
    c == '[' || c == ']' || c == '(' || c == ')' || c == '*' || c == '?' || c == '+' || c == '.'
        || c == '\\' || c == '-'
}

/// What each [`MapFn`] does to a value.
pub open spec fn spec_apply_map(f: MapFn, e: SpecParseElement) -> SpecParseElement {
    match f {
        MapFn::First => match e {
            SpecParseElement::Duo(a, _b) => *a,
            _ => e,
        },
        MapFn::Second => match e {
            SpecParseElement::Duo(_a, b) => *b,
            _ => e,
        },
        MapFn::LowerAscii => match e {
            SpecParseElement::Char(c) => SpecParseElement::Char(lower_char(c)),
            _ => e,
        },
        MapFn::ConstTrue => SpecParseElement::Bool(true),
        MapFn::DigitsToNum => match e {
            SpecParseElement::List(es) => if all_chars(es) {
                SpecParseElement::Num(digits_val_sat(chars_of(es)))
            } else {
                e
            },
            _ => e,
        },
        MapFn::ToKleene => SpecParseElement::Raw(RawQuantifier::Kleene),
        MapFn::ToPlus => SpecParseElement::Raw(RawQuantifier::Plus),
        MapFn::ToPossible => SpecParseElement::Raw(RawQuantifier::Possible),
        MapFn::ToBound => spec_to_bound(e),
        MapFn::ToQuantifier => spec_to_quantifier(e),
    }
}

/// The raw quantifier a parsed `{..}` bound body denotes: `{n}` is an exact
/// count, `{n,}` an open range, `{n,m}` a closed range.
pub open spec fn spec_to_bound(e: SpecParseElement) -> SpecParseElement {
    match e {
        SpecParseElement::Duo(a, b) => match *a {
            SpecParseElement::Num(n) => match *b {
                SpecParseElement::Maybe(tail) => match tail {
                    None => SpecParseElement::Raw(RawQuantifier::Exact(n)),
                    Some(inner) => match *inner {
                        SpecParseElement::Maybe(None) => SpecParseElement::Raw(
                            RawQuantifier::Range(n, None),
                        ),
                        SpecParseElement::Maybe(Some(m)) => match *m {
                            SpecParseElement::Num(hi) => SpecParseElement::Raw(
                                RawQuantifier::Range(n, Some(hi)),
                            ),
                            _ => e,
                        },
                        _ => e,
                    },
                },
                _ => e,
            },
            _ => e,
        },
        _ => e,
    }
}

/// A raw quantifier paired with an optional trailing `?` becomes a lazy
/// quantifier if the marker is there, a greedy one otherwise.
pub open spec fn spec_to_quantifier(e: SpecParseElement) -> SpecParseElement {
    match e {
        SpecParseElement::Duo(a, b) => match *a {
            SpecParseElement::Raw(r) => match *b {
                SpecParseElement::Maybe(marker) => match marker {
                    None => SpecParseElement::Quant(Quantifier::Greedy(r)),
                    Some(_) => SpecParseElement::Quant(Quantifier::Lazy(r)),
                },
                _ => e,
            },
            _ => e,
        },
        _ => e,
    }
}

/// What each [`PredFn`] tests of a value. A predicate over characters is
/// false of any value that is not a character.
pub open spec fn spec_apply_pred(f: PredFn, e: SpecParseElement) -> bool {
    match f {
        PredFn::IsWhitespace => e matches SpecParseElement::Char(c) && is_space_char(c),
        PredFn::IsAsciiDigit => e matches SpecParseElement::Char(c) && is_digit_char(c),
        PredFn::IsNotReserved => e matches SpecParseElement::Char(c) && !is_reserved_char(c),
        PredFn::IsEscapable => e matches SpecParseElement::Char(c) && is_reserved_char(c),
    }
}

/// The parser each [`ChainFn`] continues with, given the first parser's
/// value.
pub open spec fn spec_apply_chain(f: ChainFn, e: SpecParseElement) -> SpecParser {
    match f {
        ChainFn::MatchSameChar => match e {
            SpecParseElement::Char(c) => SpecParser::MatchLiteral(seq![c]),
            _ => SpecParser::MatchLiteral(Seq::empty()),
        },
    }
}

/// The innermost termination-measure component of [`spec_repeat`].
pub open spec fn repeat_budget(remaining: Option<nat>) -> int {
    match remaining {
        Some(r) => r + 1int,
        None => 1int,
    }
}

/// The meaning of repetition: the sequence of values the repeated parser
/// yields and the input left after them.
///
/// With a budget (an upper repetition bound still open), repetition stops
/// when the parser fails or the budget is spent. Without one it stops when
/// the parser fails — or succeeds without consuming input, since such a
/// repetition could never end otherwise.
pub open spec fn spec_repeat(
    p: SpecParser,
    input: Seq<char>,
    remaining: Option<nat>,
) -> (Seq<SpecParseElement>, Seq<char>)
    decreases input.len(), parser_rank(p), parser_size(p), repeat_budget(remaining),
{
    match remaining {
        Some(r) => if r == 0 {
            (Seq::empty(), input)
        } else {
            match spec_parse(p, input) {
                Err(_) => (Seq::empty(), input),
                Ok((v, rem)) => if rem.len() <= input.len() {
                    let (tail, fin) = spec_repeat(p, rem, Some((r - 1) as nat));
                    (seq![v] + tail, fin)
                } else {
                    (Seq::empty(), input)
                },
            }
        },
        None => match spec_parse(p, input) {
            Err(_) => (Seq::empty(), input),
            Ok((v, rem)) => if rem.len() < input.len() {
                let (tail, fin) = spec_repeat(p, rem, None);
                (seq![v] + tail, fin)
            } else {
                (Seq::empty(), input)
            },
        },
    }
}

/// The meaning of every parser: the value and remaining input it yields on
/// the given input, or the error it fails with.
pub open spec fn spec_parse(p: SpecParser, input: Seq<char>) -> Result<
    (SpecParseElement, Seq<char>),
    SpecParserError,
>
    decreases input.len(), parser_rank(p), parser_size(p), 0int,
{
    match p {
        SpecParser::MatchLiteral(lit) => if lit.len() <= input.len() && input.subrange(
            0,
            lit.len() as int,
        ) == lit {
            Ok((SpecParseElement::Unit, input.skip(lit.len() as int)))
        } else {
            Err(SpecParserError::Error(input))
        },
        SpecParser::AnyChar => if input.len() > 0 {
            Ok((SpecParseElement::Char(input[0]), input.skip(1)))
        } else {
            Err(SpecParserError::Error(input))
        },
        SpecParser::Mapped(p, f) => match spec_parse(*p, input) {
            Ok((v, rem)) => Ok((spec_apply_map(f, v), rem)),
            Err(e) => Err(e),
        },
        SpecParser::Pair(p1, p2) => match spec_parse(*p1, input) {
            Ok((v1, rem1)) => if rem1.len() <= input.len() {
                match spec_parse(*p2, rem1) {
                    Ok((v2, rem2)) => Ok(
                        (SpecParseElement::Duo(Box::new(v1), Box::new(v2)), rem2),
                    ),
                    Err(e) => Err(e),
                }
            } else {
                Err(SpecParserError::Error(input))
            },
            Err(e) => Err(e),
        },
        SpecParser::Repeat(p, start, stop) => {
            let budget = match stop {
                Some(s) => Some(s as nat),
                None => None,
            };
            let (items, rem) = spec_repeat(*p, input, budget);
            if start <= items.len() {
                Ok((SpecParseElement::List(items), rem))
            } else {
                Err(SpecParserError::RepeatLower(start))
            }
        },
        SpecParser::Predicate(p, f) => match spec_parse(*p, input) {
            Ok((v, rem)) => if spec_apply_pred(f, v) {
                Ok((v, rem))
            } else {
                Err(SpecParserError::Error(input))
            },
            Err(e) => Err(e),
        },
        SpecParser::AndThen(p, f) => match spec_parse(*p, input) {
            Ok((v, rem)) => if rem.len() <= input.len() {
                spec_parse(spec_apply_chain(f, v), rem)
            } else {
                Err(SpecParserError::Error(input))
            },
            Err(e) => Err(e),
        },
        SpecParser::Either(p1, p2) => match spec_parse(*p1, input) {
            Ok(r) => Ok(r),
            Err(_) => spec_parse(*p2, input),
        },
        SpecParser::Not(p) => match spec_parse(*p, input) {
            Ok(_) => Err(SpecParserError::UnexpectedMatch(input)),
            Err(_) => Ok((SpecParseElement::Unit, input)),
        },
        SpecParser::Optional(p) => match spec_parse(*p, input) {
            Ok((v, rem)) => Ok((SpecParseElement::Maybe(Some(Box::new(v))), rem)),
            Err(_) => Ok((SpecParseElement::Maybe(None), input)),
        },
    }
}

/// The model of an executable parse result.
pub open spec fn parse_result_view(r: Result<(ParseElement, &str), ParserError>) -> Result<
    (SpecParseElement, Seq<char>),
    SpecParserError,
> {
    match r {
        Ok((e, rem)) => Ok((e@, rem@)),
        Err(pe) => Err(pe@),
    }
}

/// Copies the borrowed input into an owned string for an error value.
pub(crate) fn str_to_owned(s: &str) -> (r: String)
    ensures
        r@ == s@,
{
    String::from_str(s)
}

/// Whether the character is ASCII whitespace, as [`is_space_char`] says.
fn whitespace_char(c: char) -> (r: bool)
    ensures
        r == is_space_char(c),
{
    c == ' ' || c == '\t' || c == '\n' || c == '\r' || c == '\u{b}' || c == '\u{c}'
}

/// Whether the character is a decimal digit, as [`is_digit_char`] says.
fn digit_char(c: char) -> (r: bool)
    ensures
        r == is_digit_char(c),
{
    let u = c as u32;
    48 <= u && u <= 57
}

/// Whether the character is reserved, as [`is_reserved_char`] says.
pub(crate) fn reserved_char(c: char) -> (r: bool)
    ensures
        r == is_reserved_char(c),
{
    c == '[' || c == ']' || c == '(' || c == ')' || c == '*' || c == '?' || c == '+' || c == '.'
        || c == '\\' || c == '-'
}

/// Applies a [`MapFn`] to a value, as [`spec_apply_map`] says.
pub fn apply_map(f: MapFn, e: ParseElement) -> (r: ParseElement)
    ensures
        r@ == spec_apply_map(f, e@),
{
    match f {
        MapFn::First => match e {
            ParseElement::Duo(a, _b) => *a,
            other => other,
        },
        MapFn::Second => match e {
            ParseElement::Duo(_a, b) => *b,
            other => other,
        },
        MapFn::LowerAscii => match e {
            ParseElement::Char(c) => {
                let u = c as u32;
                if 65 <= u && u <= 90 {
                    ParseElement::Char(((u + 32) as u8) as char)
                } else {
                    ParseElement::Char(c)
                }
            },
            other => other,
        },
        MapFn::ConstTrue => ParseElement::Bool(true),
        MapFn::DigitsToNum => digits_to_num(e),
        MapFn::ToKleene => ParseElement::Raw(RawQuantifier::Kleene),
        MapFn::ToPlus => ParseElement::Raw(RawQuantifier::Plus),
        MapFn::ToPossible => ParseElement::Raw(RawQuantifier::Possible),
        MapFn::ToBound => to_bound(e),
        MapFn::ToQuantifier => to_quantifier(e),
    }
}

/// Turns a list of digit characters into its saturated numeric value, as
/// [`spec_apply_map`] says of [`MapFn::DigitsToNum`].
#[verifier::loop_isolation(false)]
fn digits_to_num(e: ParseElement) -> (r: ParseElement)
    ensures
        r@ == spec_apply_map(MapFn::DigitsToNum, e@),
{
    match e {
        ParseElement::List(es) => {
            let n = es.len();
            let mut i: usize = 0;
            let mut ok = true;
            while i < n
                invariant
                    0 <= i <= n,
                    n == es@.len(),
                    ok ==> (forall|j: int| 0 <= j < i ==> view_parse_elements(es@)[j] is Char),
                    !ok ==> !all_chars(view_parse_elements(es@)),
                decreases n - i,
            {
                match &es[i] {
                    ParseElement::Char(_) => {
                        proof {
                            assert(view_parse_elements(es@)[i as int] == view_parse_element(
                                es@[i as int],
                            ));
                        }
                    },
                    _ => {
                        proof {
                            assert(view_parse_elements(es@)[i as int] == view_parse_element(
                                es@[i as int],
                            ));
                        }
                        ok = false;
                    },
                }
                i += 1;
            }
            if !ok {
                return ParseElement::List(es);
            }
            proof {
                assert(all_chars(view_parse_elements(es@)));
            }
            let ghost cs = chars_of(view_parse_elements(es@));
            let mut acc: usize = 0;
            let mut i: usize = 0;
            while i < n
                invariant
                    0 <= i <= n,
                    n == es@.len(),
                    all_chars(view_parse_elements(es@)),
                    cs == chars_of(view_parse_elements(es@)),
                    acc == digits_val_sat(cs.subrange(0, i as int)),
                decreases n - i,
            {
                let c = match &es[i] {
                    ParseElement::Char(c) => *c,
                    _ => {
                        proof {
                            assert(view_parse_elements(es@)[i as int] is Char);
                            assert(false);
                        }
                        ' '
                    },
                };
                let u = c as u32;
                let dv: usize = if 48 <= u && u <= 57 {
                    (u - 48) as usize
                } else {
                    0
                };
                let wide: u128 = acc as u128 * 10 + dv as u128;
                proof {
                    let pre = cs.subrange(0, i as int);
                    let post = cs.subrange(0, i as int + 1);
                    assert(post.drop_last() =~= pre);
                    assert(post.last() == cs[i as int]);
                    assert(cs[i as int] == c);
                    assert(dv == digit_val(c));
                    assert(digits_val(post) == digits_val(pre) * 10 + digit_val(c));
                }
                if wide > usize::MAX as u128 {
                    acc = usize::MAX;
                } else {
                    acc = wide as usize;
                }
                i += 1;
            }
            proof {
                assert(cs.subrange(0, n as int) =~= cs);
            }
            ParseElement::Num(acc)
        },
        other => other,
    }
}

/// Builds the raw quantifier a `{..}` bound denotes, as [`spec_to_bound`]
/// says.
fn to_bound(e: ParseElement) -> (r: ParseElement)
    ensures
        r@ == spec_to_bound(e@),
{
    match e {
        ParseElement::Duo(a, b) => {
        proof {
            assert(e@ == SpecParseElement::Duo(
                Box::new(view_parse_element(*a)),
                Box::new(view_parse_element(*b)),
            ));
        }
        let ghost vb = view_parse_element(*b);
        match *a {
            ParseElement::Num(n) => match *b {
                ParseElement::Maybe(tail) => {
                proof {
                    match &tail {
                        Some(bx) => assert(vb == SpecParseElement::Maybe(
                            Some(Box::new(view_parse_element(**bx))),
                        )),
                        None => assert(vb == SpecParseElement::Maybe(None)),
                    }
                }
                match tail {
                    None => ParseElement::Raw(RawQuantifier::Exact(n)),
                    Some(inner) => {
                    let ghost vi = view_parse_element(*inner);
                    match *inner {
                        ParseElement::Maybe(None) => ParseElement::Raw(
                            RawQuantifier::Range(n, None),
                        ),
                        ParseElement::Maybe(Some(m)) => {
                        proof {
                            assert(vi == SpecParseElement::Maybe(
                                Some(Box::new(view_parse_element(*m))),
                            ));
                        }
                        match *m {
                            ParseElement::Num(hi) => ParseElement::Raw(
                                RawQuantifier::Range(n, Some(hi)),
                            ),
                            mm => ParseElement::Duo(
                                Box::new(ParseElement::Num(n)),
                                Box::new(ParseElement::Maybe(Some(Box::new(
                                    ParseElement::Maybe(Some(Box::new(mm))),
                                )))),
                            ),
                        }
                        },
                        ii => ParseElement::Duo(
                            Box::new(ParseElement::Num(n)),
                            Box::new(ParseElement::Maybe(Some(Box::new(ii)))),
                        ),
                    }
                    },
                }
                },
                bb => ParseElement::Duo(Box::new(ParseElement::Num(n)), Box::new(bb)),
            },
            aa => ParseElement::Duo(Box::new(aa), b),
        }
        },
        other => other,
    }
}

/// Attaches the laziness marker to a raw quantifier, as
/// [`spec_to_quantifier`] says.
fn to_quantifier(e: ParseElement) -> (r: ParseElement)
    ensures
        r@ == spec_to_quantifier(e@),
{
    match e {
        ParseElement::Duo(a, b) => {
        proof {
            assert(e@ == SpecParseElement::Duo(
                Box::new(view_parse_element(*a)),
                Box::new(view_parse_element(*b)),
            ));
        }
        match *a {
            ParseElement::Raw(raw) => match *b {
                ParseElement::Maybe(marker) => match marker {
                    None => ParseElement::Quant(Quantifier::Greedy(raw)),
                    Some(_) => ParseElement::Quant(Quantifier::Lazy(raw)),
                },
                bb => ParseElement::Duo(Box::new(ParseElement::Raw(raw)), Box::new(bb)),
            },
            aa => ParseElement::Duo(Box::new(aa), b),
        }
        },
        other => other,
    }
}

/// Applies a [`PredFn`] to a value, as [`spec_apply_pred`] says.
pub fn apply_pred(f: PredFn, e: &ParseElement) -> (r: bool)
    ensures
        r == spec_apply_pred(f, e@),
{
    match e {
        ParseElement::Char(c) => match f {
            PredFn::IsWhitespace => whitespace_char(*c),
            PredFn::IsAsciiDigit => digit_char(*c),
            PredFn::IsNotReserved => !reserved_char(*c),
            PredFn::IsEscapable => reserved_char(*c),
        },
        _ => false,
    }
}

/// Builds the continuation parser of a [`ChainFn`], as [`spec_apply_chain`]
/// says.
pub fn apply_chain(f: ChainFn, e: ParseElement) -> (r: Parser)
    ensures
        r@ == spec_apply_chain(f, e@),
{
    match f {
        ChainFn::MatchSameChar => match e {
            ParseElement::Char(c) => {
                let mut lit: Vec<char> = Vec::new();
                lit.push(c);
                proof {
                    assert(lit@ =~= seq![c]);
                }
                Parser::MatchLiteral(lit)
            },
            _ => {
                let lit: Vec<char> = Vec::new();
                proof {
                    assert(lit@ =~= Seq::<char>::empty());
                }
                Parser::MatchLiteral(lit)
            },
        },
    }
}

proof fn lemma_parser_size_pos(p: SpecParser)
    ensures
        parser_size(p) >= 1,
{
}

proof fn lemma_view_elements_push(s: Seq<ParseElement>, v: ParseElement)
    ensures
        view_parse_elements(s.push(v)) == view_parse_elements(s) + seq![v@],
{
    assert(view_parse_elements(s.push(v)) =~= view_parse_elements(s) + seq![v@]);
}

impl Parser {
    /// Runs the parser on the input. The result is exactly what
    /// [`spec_parse`] says of the parser's model and the input's characters,
    /// and a success leaves a suffix of the input as the remainder.
    #[verifier::loop_isolation(false)]
    pub fn parse<'a>(&self, input: &'a str) -> (res: Result<(ParseElement, &'a str), ParserError>)
        ensures
            parse_result_view(res) == spec_parse(self@, input@),
            res matches Ok((_, rem)) ==> rem@.len() <= input@.len(),
        decreases input@.len(), parser_rank(self@), parser_size(self@), 0int,
    {
        match self {
            Parser::MatchLiteral(lit) => {
                let n = input.unicode_len();
                let k = lit.len();
                if k > n {
                    Err(ParserError::Error(str_to_owned(input)))
                } else {
                    let mut i: usize = 0;
                    while i < k
                        invariant
                            0 <= i <= k,
                            k == lit@.len(),
                            k <= n,
                            n == input@.len(),
                            forall|j: int| 0 <= j < i ==> input@[j] == lit@[j],
                        decreases k - i,
                    {
                        if input.get_char(i) != lit[i] {
                            proof {
                                assert(input@.subrange(0, k as int)[i as int] != lit@[i as int]);
                            }
                            return Err(ParserError::Error(str_to_owned(input)));
                        }
                        i += 1;
                    }
                    proof {
                        assert(input@.subrange(0, k as int) =~= lit@);
                    }
                    let rem = input.substring_char(k, n);
                    proof {
                        assert(rem@ =~= input@.skip(k as int));
                    }
                    Ok((ParseElement::Unit, rem))
                }
            },
            Parser::AnyChar => {
                let n = input.unicode_len();
                if n == 0 {
                    Err(ParserError::Error(str_to_owned(input)))
                } else {
                    let c = input.get_char(0);
                    let rem = input.substring_char(1, n);
                    proof {
                        assert(rem@ =~= input@.skip(1));
                    }
                    Ok((ParseElement::Char(c), rem))
                }
            },
            Parser::Mapped(p, f) => match p.parse(input) {
                Ok((v, rem)) => Ok((apply_map(*f, v), rem)),
                Err(e) => Err(e),
            },
            Parser::Pair(p1, p2) => match p1.parse(input) {
                Ok((v1, rem1)) => match p2.parse(rem1) {
                    Ok((v2, rem2)) => Ok(
                        (ParseElement::Duo(Box::new(v1), Box::new(v2)), rem2),
                    ),
                    Err(e) => Err(e),
                },
                Err(e) => Err(e),
            },
            Parser::Repeat(p, start, stop) => {
                let ghost budget0: Option<nat> = match *stop {
                    Some(s) => Some(s as nat),
                    None => None,
                };
                let mut items: Vec<ParseElement> = Vec::new();
                let mut cur: &'a str = input;
                match stop {
                    Some(s_ref) => {
                        let s = *s_ref;
                        let mut failed = false;
                        while !failed && items.len() < s
                            invariant
                                items@.len() <= s,
                                cur@.len() <= input@.len(),
                                !failed ==> spec_repeat(p@, input@, Some(s as nat)).0
                                    == view_parse_elements(items@) + spec_repeat(
                                    p@,
                                    cur@,
                                    Some((s - items@.len()) as nat),
                                ).0,
                                !failed ==> spec_repeat(p@, input@, Some(s as nat)).1
                                    == spec_repeat(p@, cur@, Some((s - items@.len()) as nat)).1,
                                failed ==> spec_repeat(p@, input@, Some(s as nat)).0
                                    == view_parse_elements(items@),
                                failed ==> spec_repeat(p@, input@, Some(s as nat)).1 == cur@,
                            decreases s - items@.len(), (if failed { 0int } else { 1int }),
                        {
                            match p.parse(cur) {
                                Err(_) => {
                                    proof {
                                        assert(view_parse_elements(items@) + Seq::<
                                            SpecParseElement,
                                        >::empty() =~= view_parse_elements(items@));
                                    }
                                    failed = true;
                                },
                                Ok((v, rem)) => {
                                    proof {
                                        let a = view_parse_elements(items@);
                                        let tail = spec_repeat(
                                            p@,
                                            rem@,
                                            Some((s - items@.len() - 1) as nat),
                                        ).0;
                                        lemma_view_elements_push(items@, v);
                                        assert(a + (seq![v@] + tail) =~= (a + seq![v@]) + tail);
                                    }
                                    items.push(v);
                                    cur = rem;
                                },
                            }
                        }
                        proof {
                            if !failed {
                                assert(spec_repeat(p@, cur@, Some((s - items@.len()) as nat)).0
                                    =~= Seq::<SpecParseElement>::empty());
                                assert(view_parse_elements(items@) + Seq::<
                                    SpecParseElement,
                                >::empty() =~= view_parse_elements(items@));
                            }
                        }
                    },
                    None => {
                        let mut stopped = false;
                        while !stopped
                            invariant
                                cur@.len() <= input@.len(),
                                !stopped ==> spec_repeat(p@, input@, None).0
                                    == view_parse_elements(items@) + spec_repeat(
                                    p@,
                                    cur@,
                                    None,
                                ).0,
                                !stopped ==> spec_repeat(p@, input@, None).1 == spec_repeat(
                                    p@,
                                    cur@,
                                    None,
                                ).1,
                                stopped ==> spec_repeat(p@, input@, None).0
                                    == view_parse_elements(items@),
                                stopped ==> spec_repeat(p@, input@, None).1 == cur@,
                            decreases cur@.len(), (if stopped { 0int } else { 1int }),
                        {
                            match p.parse(cur) {
                                Err(_) => {
                                    proof {
                                        assert(view_parse_elements(items@) + Seq::<
                                            SpecParseElement,
                                        >::empty() =~= view_parse_elements(items@));
                                    }
                                    stopped = true;
                                },
                                Ok((v, rem)) => {
                                    let rl = rem.unicode_len();
                                    let cl = cur.unicode_len();
                                    if rl < cl {
                                        proof {
                                            let a = view_parse_elements(items@);
                                            let tail = spec_repeat(p@, rem@, None).0;
                                            lemma_view_elements_push(items@, v);
                                            assert(a + (seq![v@] + tail) =~= (a + seq![v@])
                                                + tail);
                                        }
                                        items.push(v);
                                        cur = rem;
                                    } else {
                                        proof {
                                            assert(view_parse_elements(items@) + Seq::<
                                                SpecParseElement,
                                            >::empty() =~= view_parse_elements(items@));
                                        }
                                        stopped = true;
                                    }
                                },
                            }
                        }
                    },
                }
                proof {
                    assert(spec_repeat(p@, input@, budget0).0 == view_parse_elements(items@));
                    assert(spec_repeat(p@, input@, budget0).1 == cur@);
                    assert(view_parse_elements(items@).len() == items@.len());
                }
                if *start <= items.len() {
                    Ok((ParseElement::List(items), cur))
                } else {
                    Err(ParserError::RepeatLower(*start))
                }
            },
            Parser::Predicate(p, f) => match p.parse(input) {
                Ok((v, rem)) => if apply_pred(*f, &v) {
                    Ok((v, rem))
                } else {
                    Err(ParserError::Error(str_to_owned(input)))
                },
                Err(e) => Err(e),
            },
            Parser::AndThen(p, f) => match p.parse(input) {
                Ok((v, rem)) => {
                    let q = apply_chain(*f, v);
                    proof {
                        assert(q@ matches SpecParser::MatchLiteral(_));
                        assert(parser_rank(q@) == 0 && parser_size(q@) == 1);
                        lemma_parser_size_pos(*self@->AndThen_0);
                    }
                    q.parse(rem)
                },
                Err(e) => Err(e),
            },
            Parser::Either(p1, p2) => match p1.parse(input) {
                Ok(r) => Ok(r),
                Err(_) => p2.parse(input),
            },
            Parser::Not(p) => match p.parse(input) {
                Ok(_) => Err(ParserError::UnexpectedMatch(str_to_owned(input))),
                Err(_) => Ok((ParseElement::Unit, input)),
            },
            Parser::Optional(p) => match p.parse(input) {
                Ok((v, rem)) => Ok((ParseElement::Maybe(Some(Box::new(v))), rem)),
                Err(_) => Ok((ParseElement::Maybe(None), input)),
            },
        }
    }
}

impl Parser {
    /// Method form of [`map`].
    pub fn map(self, f: MapFn) -> (r: Parser)
        ensures
            r@ == SpecParser::Mapped(Box::new(self@), f),
    {
        Parser::Mapped(Box::new(self), f)
    }

    /// Method form of [`predicate`].
    pub fn predicate(self, f: PredFn) -> (r: Parser)
        ensures
            r@ == SpecParser::Predicate(Box::new(self@), f),
    {
        Parser::Predicate(Box::new(self), f)
    }
}

/// Runs `parser`, then transforms its value with `map_fn`; a failure is
/// propagated unchanged.
pub fn map(parser: Parser, map_fn: MapFn) -> (r: Parser)
    ensures
        r@ == SpecParser::Mapped(Box::new(parser@), map_fn),
{
    Parser::Mapped(Box::new(parser), map_fn)
}

/// Runs `p1`, then `p2` on what remains, and pairs their values; the first
/// failure is propagated.
pub fn pair(p1: Parser, p2: Parser) -> (r: Parser)
    ensures
        r@ == SpecParser::Pair(Box::new(p1@), Box::new(p2@)),
{
    Parser::Pair(Box::new(p1), Box::new(p2))
}

/// Like [`pair`], keeping only the first value.
pub fn left(p1: Parser, p2: Parser) -> (r: Parser)
    ensures
        r@ == SpecParser::Mapped(
            Box::new(SpecParser::Pair(Box::new(p1@), Box::new(p2@))),
            MapFn::First,
        ),
{
    map(pair(p1, p2), MapFn::First)
}

/// Like [`pair`], keeping only the second value.
pub fn right(p1: Parser, p2: Parser) -> (r: Parser)
    ensures
        r@ == SpecParser::Mapped(
            Box::new(SpecParser::Pair(Box::new(p1@), Box::new(p2@))),
            MapFn::Second,
        ),
{
    map(pair(p1, p2), MapFn::Second)
}

/// Applies `p` greedily between `start` and `stop` times, as
/// [`spec_repeat`] says; fewer than `start` successes fail with
/// `RepeatLower(start)` and leave the input where it was.
pub fn repeat_range(p: Parser, start: usize, stop: Option<usize>) -> (r: Parser)
    ensures
        r@ == SpecParser::Repeat(Box::new(p@), start, stop),
{
    Parser::Repeat(Box::new(p), start, stop)
}

/// Applies `p` any number of times; never fails.
pub fn zero_or_more(p: Parser) -> (r: Parser)
    ensures
        r@ == SpecParser::Repeat(Box::new(p@), 0, None),
{
    repeat_range(p, 0, None)
}

/// Applies `p` at least once.
pub fn one_or_more(p: Parser) -> (r: Parser)
    ensures
        r@ == SpecParser::Repeat(Box::new(p@), 1, None),
{
    repeat_range(p, 1, None)
}

/// Runs `parser`, then fails — reporting the input the whole combinator was
/// given, not the consumed one — unless `pred` holds of the value.
pub fn predicate(parser: Parser, pred: PredFn) -> (r: Parser)
    ensures
        r@ == SpecParser::Predicate(Box::new(parser@), pred),
{
    Parser::Predicate(Box::new(parser), pred)
}

/// Monadic bind: runs `p`, builds a second parser from its value with `f`,
/// and runs that on what remains.
pub fn and_then(p: Parser, f: ChainFn) -> (r: Parser)
    ensures
        r@ == SpecParser::AndThen(Box::new(p@), f),
{
    Parser::AndThen(Box::new(p), f)
}

/// Tries `p1`; if it fails, tries `p2` on the original input. This is the
/// backtracking point of the whole engine.
pub fn either(p1: Parser, p2: Parser) -> (r: Parser)
    ensures
        r@ == SpecParser::Either(Box::new(p1@), Box::new(p2@)),
{
    Parser::Either(Box::new(p1), Box::new(p2))
}

/// Negative lookahead: succeeds, consuming nothing, exactly when `p` fails.
pub fn not(p: Parser) -> (r: Parser)
    ensures
        r@ == SpecParser::Not(Box::new(p@)),
{
    Parser::Not(Box::new(p))
}

/// Negative lookahead followed by a real match: succeeds with `p2`'s value
/// exactly when `p1` does not match at the current position.
pub fn not_but(p1: Parser, p2: Parser) -> (r: Parser)
    ensures
        r@ == SpecParser::Mapped(
            Box::new(SpecParser::Pair(
                Box::new(SpecParser::Not(Box::new(p1@))),
                Box::new(p2@),
            )),
            MapFn::Second,
        ),
{
    right(not(p1), p2)
}

/// Hands the parser back unchanged: the hook where quantified tokens would
/// be post-processed.
pub fn quantified(p: Parser) -> (r: Parser)
    ensures
        r == p,
{
    p
}

/// An owned, boxed parser, for places that must store a parser under one
/// concrete type.
pub struct BoxedParser {
    pub inner: Box<Parser>,
}

impl View for BoxedParser {
    type V = SpecParser;

    open spec fn view(&self) -> SpecParser {
        view_parser(*self.inner)
    }
}

impl BoxedParser {
    /// Boxes the given parser; its meaning is unchanged.
    pub fn new(p: Parser) -> (r: Self)
        ensures
            r@ == p@,
    {
        BoxedParser { inner: Box::new(p) }
    }

    /// Runs the boxed parser, exactly as [`Parser::parse`] would.
    pub fn parse<'a>(&self, input: &'a str) -> (res: Result<
        (ParseElement, &'a str),
        ParserError,
    >)
        ensures
            parse_result_view(res) == spec_parse(self@, input@),
            res matches Ok((_, rem)) ==> rem@.len() <= input@.len(),
    {
        self.inner.parse(input)
    }
}

/// A stand-in for a grammar production that is not implemented yet: it fails
/// on every input, consuming nothing.
pub struct UnimplementedParser {}

impl UnimplementedParser {
    /// Fails with a generic error carrying the whole input.
    pub fn parse<'a>(&self, input: &'a str) -> (res: Result<
        (ParseElement, &'a str),
        ParserError,
    >)
        ensures
            res matches Err(e) && e@ == SpecParserError::Error(input@),
    {
        Err(ParserError::Error(str_to_owned(input)))
    }
}

} // verus!
