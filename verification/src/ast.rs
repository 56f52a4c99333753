//! The AST node types a parsed regex pattern is made of, the error type that
//! parsers report, and the mathematical models (views) of both.
//!
//! Every node is an immutable value tree: a `Group` owns its nested
//! `Expression` through a box, so the tree has no sharing and no cycles.

use vstd::prelude::*;

verus! {

/// A parse failure, reported as a value.
///
/// `Error` and `UnexpectedMatch` carry the input the failing parser saw;
/// `RepeatLower` carries the violated lower repetition bound. `RepeatUpper`
/// exists in the taxonomy for a repetition that would exceed its declared
/// upper bound, but the combinators stop repeating at the bound instead of
/// failing, so no combinator of this library returns it.
#[derive(Debug, PartialEq, Eq)]
pub enum ParserError {
    Error(String),
    RepeatUpper(usize),
    RepeatLower(usize),
    UnexpectedMatch(String),
}

/// Model of [`ParserError`]: the carried input as a sequence of characters.
pub enum SpecParserError {
    Error(Seq<char>),
    RepeatUpper(usize),
    RepeatLower(usize),
    UnexpectedMatch(Seq<char>),
}

impl View for ParserError {
    type V = SpecParserError;

    open spec fn view(&self) -> SpecParserError {
        match self {
            ParserError::Error(s) => SpecParserError::Error(s@),
            ParserError::RepeatUpper(n) => SpecParserError::RepeatUpper(*n),
            ParserError::RepeatLower(n) => SpecParserError::RepeatLower(*n),
            ParserError::UnexpectedMatch(s) => SpecParserError::UnexpectedMatch(s@),
        }
    }
}

/// A position assertion: start or end of the subject text.
#[derive(Debug, PartialEq, Eq, Clone, Copy)]
pub enum Anchor {
    Begin,
    End,
}

/// A Unicode category a `\P{...}` escape names. Every recognized category
/// name maps to this single placeholder category: a known incompleteness of
/// the grammar, kept as it is.
#[derive(Debug, PartialEq, Eq, Clone, Copy)]
pub enum UnicodeCategory {
    Punctuation,
}

/// A built-in character set (`\w`, `\s`, `\d`, or a Unicode category).
#[derive(Debug, PartialEq, Eq, Clone, Copy)]
pub enum CharSet {
    Word,
    WhiteSpace,
    DecimalDigit,
    UnicodeCategory(UnicodeCategory),
}

/// The repetition operator itself, before the lazy/greedy marker is applied.
#[derive(Debug, PartialEq, Eq, Clone, Copy)]
pub enum RawQuantifier {
    Kleene,
    Plus,
    Possible,
    Exact(usize),
    Range(usize, Option<usize>),
}

/// A repetition modifier: a raw quantifier tagged lazy (trailing `?`) or
/// greedy. The tag only records what was written; matching strategy belongs
/// to an execution engine outside this library.
#[derive(Debug, PartialEq, Eq, Clone, Copy)]
pub enum Quantifier {
    Lazy(RawQuantifier),
    Greedy(RawQuantifier),
}

/// The body of a character class: an explicit set of characters, a range of
/// characters, or a built-in set.
#[derive(Debug, PartialEq, Eq)]
pub enum RawCharClass {
    CharGroup(Vec<char>),
    CharRange(char, char),
    SpecialSet(CharSet),
}

/// A character class, either plain or caret-inverted.
#[derive(Debug, PartialEq, Eq)]
pub enum CharClass {
    Regular(RawCharClass),
    Inverted(RawCharClass),
}

/// A token that matches more than one possible character.
#[derive(Debug, PartialEq, Eq)]
pub enum IndirectMatch {
    WildCard,
    Class(CharClass),
}

/// A complete pattern: one alternation.
#[derive(Debug, PartialEq, Eq)]
pub struct Expression {
    pub alt: Alternation,
}

/// An ordered choice of alternative sub-patterns; at match time the first
/// matching alternative wins, so the order is significant.
#[derive(Debug, PartialEq, Eq)]
pub struct Alternation {
    pub choices: Vec<SubExpression>,
}

/// A left-to-right concatenation of quantified tokens.
#[derive(Debug, PartialEq, Eq)]
pub struct SubExpression {
    pub tokens: Vec<QuantifiedToken>,
}

/// A token with an optional repetition modifier; a token without one behaves
/// as exactly-one.
#[derive(Debug, PartialEq, Eq)]
pub enum QuantifiedToken {
    Singleton(Token),
    Quantified(Token, Quantifier),
}

/// An atomic matchable unit.
#[derive(Debug, PartialEq, Eq)]
pub enum Token {
    Char(char),
    IndirectMatch(IndirectMatch),
    Group(Group),
    Anchor(Anchor),
    Unimpl,
}

/// A parenthesized sub-expression. A capturing group carries its index:
/// capturing groups are numbered from 1 in left-to-right order of their
/// opening parenthesis, and `(?:...)` groups are skipped by the counter.
#[derive(Debug, PartialEq, Eq)]
pub enum Group {
    Capturing(usize, Box<Expression>),
    NonCapturing(Box<Expression>),
}

/// Model of [`RawCharClass`].
pub enum SpecRawCharClass {
    CharGroup(Seq<char>),
    CharRange(char, char),
    SpecialSet(CharSet),
}

/// Model of [`CharClass`].
pub enum SpecCharClass {
    Regular(SpecRawCharClass),
    Inverted(SpecRawCharClass),
}

/// Model of [`IndirectMatch`].
pub enum SpecIndirectMatch {
    WildCard,
    Class(SpecCharClass),
}

/// Model of [`Expression`].
pub struct SpecExpression {
    pub alt: SpecAlternation,
}

/// Model of [`Alternation`].
pub struct SpecAlternation {
    pub choices: Seq<SpecSubExpression>,
}

/// Model of [`SubExpression`].
pub struct SpecSubExpression {
    pub tokens: Seq<SpecQuantifiedToken>,
}

/// Model of [`QuantifiedToken`].
pub enum SpecQuantifiedToken {
    Singleton(SpecToken),
    Quantified(SpecToken, Quantifier),
}

/// Model of [`Token`].
pub enum SpecToken {
    Char(char),
    IndirectMatch(SpecIndirectMatch),
    Group(SpecGroup),
    Anchor(Anchor),
    Unimpl,
}

/// Model of [`Group`].
pub enum SpecGroup {
    Capturing(usize, Box<SpecExpression>),
    NonCapturing(Box<SpecExpression>),
}

pub open spec fn view_raw_char_class(r: RawCharClass) -> SpecRawCharClass {
    match r {
        RawCharClass::CharGroup(cs) => SpecRawCharClass::CharGroup(cs@),
        RawCharClass::CharRange(lo, hi) => SpecRawCharClass::CharRange(lo, hi),
        RawCharClass::SpecialSet(s) => SpecRawCharClass::SpecialSet(s),
    }
}

pub open spec fn view_char_class(c: CharClass) -> SpecCharClass {
    match c {
        CharClass::Regular(r) => SpecCharClass::Regular(view_raw_char_class(r)),
        CharClass::Inverted(r) => SpecCharClass::Inverted(view_raw_char_class(r)),
    }
}

pub open spec fn view_indirect_match(m: IndirectMatch) -> SpecIndirectMatch {
    match m {
        IndirectMatch::WildCard => SpecIndirectMatch::WildCard,
        IndirectMatch::Class(c) => SpecIndirectMatch::Class(view_char_class(c)),
    }
}

pub open spec fn view_expression(e: Expression) -> SpecExpression
    decreases e,
{
    SpecExpression { alt: view_alternation(e.alt) }
}

pub open spec fn view_alternation(a: Alternation) -> SpecAlternation
    decreases a,
{
    SpecAlternation { choices: view_sub_expressions(a.choices@) }
}

pub open spec fn view_sub_expressions(s: Seq<SubExpression>) -> Seq<SpecSubExpression>
    decreases s,
{
    Seq::new(
        s.len(),
        |i: int|
            if 0 <= i < s.len() {
                view_sub_expression(s[i])
            } else {
                arbitrary()
            },
    )
}

pub open spec fn view_sub_expression(s: SubExpression) -> SpecSubExpression
    decreases s,
{
    SpecSubExpression { tokens: view_quantified_tokens(s.tokens@) }
}

pub open spec fn view_quantified_tokens(ts: Seq<QuantifiedToken>) -> Seq<SpecQuantifiedToken>
    decreases ts,
{
    Seq::new(
        ts.len(),
        |i: int|
            if 0 <= i < ts.len() {
                view_quantified_token(ts[i])
            } else {
                arbitrary()
            },
    )
}

pub open spec fn view_quantified_token(t: QuantifiedToken) -> SpecQuantifiedToken
    decreases t,
{
    match t {
        QuantifiedToken::Singleton(tok) => SpecQuantifiedToken::Singleton(view_token(tok)),
        QuantifiedToken::Quantified(tok, q) => SpecQuantifiedToken::Quantified(view_token(tok), q),
    }
}

pub open spec fn view_token(t: Token) -> SpecToken
    decreases t,
{
    match t {
        Token::Char(c) => SpecToken::Char(c),
        Token::IndirectMatch(m) => SpecToken::IndirectMatch(view_indirect_match(m)),
        Token::Group(g) => SpecToken::Group(view_group(g)),
        Token::Anchor(a) => SpecToken::Anchor(a),
        Token::Unimpl => SpecToken::Unimpl,
    }
}

pub open spec fn view_group(g: Group) -> SpecGroup
    decreases g,
{
    match g {
        Group::Capturing(n, e) => SpecGroup::Capturing(n, Box::new(view_expression(*e))),
        Group::NonCapturing(e) => SpecGroup::NonCapturing(Box::new(view_expression(*e))),
    }
}

impl View for Expression {
    type V = SpecExpression;

    open spec fn view(&self) -> SpecExpression {
        view_expression(*self)
    }
}

impl View for Alternation {
    type V = SpecAlternation;

    open spec fn view(&self) -> SpecAlternation {
        view_alternation(*self)
    }
}

impl View for SubExpression {
    type V = SpecSubExpression;

    open spec fn view(&self) -> SpecSubExpression {
        view_sub_expression(*self)
    }
}

impl View for QuantifiedToken {
    type V = SpecQuantifiedToken;

    open spec fn view(&self) -> SpecQuantifiedToken {
        view_quantified_token(*self)
    }
}

impl View for Token {
    type V = SpecToken;

    open spec fn view(&self) -> SpecToken {
        view_token(*self)
    }
}

impl View for Group {
    type V = SpecGroup;

    open spec fn view(&self) -> SpecGroup {
        view_group(*self)
    }
}

impl View for IndirectMatch {
    type V = SpecIndirectMatch;

    open spec fn view(&self) -> SpecIndirectMatch {
        view_indirect_match(*self)
    }
}

impl View for CharClass {
    type V = SpecCharClass;

    open spec fn view(&self) -> SpecCharClass {
        view_char_class(*self)
    }
}

impl View for RawCharClass {
    type V = SpecRawCharClass;

    open spec fn view(&self) -> SpecRawCharClass {
        view_raw_char_class(*self)
    }
}

impl Expression {
    /// Wraps the given alternatives as a complete expression.
    pub fn new(choices: Vec<SubExpression>) -> (result: Self)
        ensures
            result@ == (SpecExpression { alt: SpecAlternation { choices: view_sub_expressions(choices@) } }),
    {
        Expression { alt: Alternation::new(choices) }
    }
}

impl Alternation {
    /// Wraps the given alternatives, keeping their order.
    pub fn new(choices: Vec<SubExpression>) -> (result: Self)
        ensures
            result@ == (SpecAlternation { choices: view_sub_expressions(choices@) }),
    {
        Alternation { choices }
    }
}

impl SubExpression {
    /// Wraps the given tokens, keeping their order.
    pub fn new(tokens: Vec<QuantifiedToken>) -> (result: Self)
        ensures
            result@ == (SpecSubExpression { tokens: view_quantified_tokens(tokens@) }),
    {
        SubExpression { tokens }
    }
}

} // verus!
