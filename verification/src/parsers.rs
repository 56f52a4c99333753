//! The leaf parsers and the regex grammar: mutually recursive
//! recursive-descent rules, built over the combinator engine, that recognize
//! the regex syntax and build the AST.
//!
//! Each rule has a spec function giving its exact meaning on a sequence of
//! characters, and an executable parser proved to return that meaning.
//! Capturing groups are numbered from 1 in left-to-right order of their
//! opening parenthesis, by a counter threaded through the recursive rules as
//! an ordinary argument; `(?:...)` groups are skipped by the counter.

use vstd::prelude::*;
use vstd::string::*;

use crate::ast::{
    Anchor, CharSet, Expression, Group, IndirectMatch, ParserError, Quantifier, QuantifiedToken,
    RawCharClass, CharClass, SpecParserError, SubExpression, Token, UnicodeCategory,
    SpecCharClass, SpecExpression, SpecAlternation, SpecGroup, SpecIndirectMatch,
    SpecQuantifiedToken, SpecRawCharClass, SpecSubExpression, SpecToken,
    view_sub_expressions, view_quantified_tokens,
};
use crate::combinators::{
    either, one_or_more, pair, predicate, str_to_owned, reserved_char, is_reserved_char,
    spec_parse, MapFn, ParseElement, Parser, PredFn, SpecParseElement, SpecParser,
};

verus! {

/// Returns the input after its first `k` characters.
fn skip_chars<'a>(input: &'a str, k: usize) -> (r: &'a str)
    requires
        k <= input@.len(),
    ensures
        r@ == input@.skip(k as int),
{
    let n = input.unicode_len();
    let r = input.substring_char(k, n);
    proof {
        assert(r@ =~= input@.skip(k as int));
    }
    r
}

/// Whether the character is not one of the grammar's reserved
/// metacharacters, so it may stand for itself in a pattern.
pub fn not_reserved(c: &char) -> (r: bool)
    ensures
        r == !is_reserved_char(*c),
{
    !reserved_char(*c)
}

/// Whether a backslash may escape the character: exactly the reserved
/// metacharacters are escapable.
pub fn escapable(c: &char) -> (r: bool)
    ensures
        r == is_reserved_char(*c),
{
    reserved_char(*c)
}

/// The built-in character set a single escape letter names, if any.
pub open spec fn spec_map_literal_charset(c: char) -> Option<CharSet> {
    if c == 'w' {
        Some(CharSet::Word)
    } else if c == 's' {
        Some(CharSet::WhiteSpace)
    } else if c == 'd' {
        Some(CharSet::DecimalDigit)
    } else {
        None
    }
}

/// Maps an escape letter to its built-in character set, as
/// [`spec_map_literal_charset`] says.
pub fn map_literal_charset(c: char) -> (r: Option<CharSet>)
    ensures
        r == spec_map_literal_charset(c),
{
    if c == 'w' {
        Some(CharSet::Word)
    } else if c == 's' {
        Some(CharSet::WhiteSpace)
    } else if c == 'd' {
        Some(CharSet::DecimalDigit)
    } else {
        None
    }
}

/// The Unicode category a `\P{...}` name denotes. Every recognized name
/// collapses to the placeholder category: a known incompleteness of the
/// grammar, kept as it is.
pub open spec fn spec_map_unicode_charset(s: Seq<char>) -> Option<UnicodeCategory> {
    if s == seq!['P'] || s == seq!['L', 't'] || s == seq!['L', 'l'] || s == seq!['N'] || s
        == seq!['S'] {
        Some(UnicodeCategory::Punctuation)
    } else {
        None
    }
}

/// Maps a category name to its Unicode category, as
/// [`spec_map_unicode_charset`] says.
pub fn map_unicode_charset(s: &str) -> (r: Option<UnicodeCategory>)
    ensures
        r == spec_map_unicode_charset(s@),
{
    let n = s.unicode_len();
    if n == 1 {
        let c = s.get_char(0);
        if c == 'P' || c == 'N' || c == 'S' {
            proof {
                assert(s@ =~= seq![c]);
            }
            Some(UnicodeCategory::Punctuation)
        } else {
            proof {
                assert(s@ != seq!['P'] && s@ != seq!['N'] && s@ != seq!['S']);
                assert(s@ != seq!['L', 't'] && s@ != seq!['L', 'l']);
            }
            None
        }
    } else if n == 2 {
        let c0 = s.get_char(0);
        let c1 = s.get_char(1);
        if c0 == 'L' && (c1 == 't' || c1 == 'l') {
            proof {
                assert(s@ =~= seq![c0, c1]);
            }
            Some(UnicodeCategory::Punctuation)
        } else {
            proof {
                assert(s@ != seq!['L', 't'] && s@ != seq!['L', 'l']);
                assert(s@ != seq!['P'] && s@ != seq!['N'] && s@ != seq!['S']);
            }
            None
        }
    } else {
        None
    }
}

/// The anchor a character denotes, if any: `^` asserts the begin, `$` the
/// end of the subject.
pub open spec fn spec_map_anchor(c: char) -> Option<Anchor> {
    if c == '^' {
        Some(Anchor::Begin)
    } else if c == '$' {
        Some(Anchor::End)
    } else {
        None
    }
}

/// Maps a character to the anchor it denotes, as [`spec_map_anchor`] says.
pub fn map_anchor(c: char) -> (r: Option<Anchor>)
    ensures
        r == spec_map_anchor(c),
{
    if c == '^' {
        Some(Anchor::Begin)
    } else if c == '$' {
        Some(Anchor::End)
    } else {
        None
    }
}

/// Succeeds consuming exactly the literal `s` as a prefix of the input,
/// yielding no value; fails otherwise, reporting the original input.
#[verifier::loop_isolation(false)]
pub fn match_literal(s: &str) -> (r: Parser)
    ensures
        r@ == SpecParser::MatchLiteral(s@),
{
    let n = s.unicode_len();
    let mut lit: Vec<char> = Vec::new();
    let mut i: usize = 0;
    while i < n
        invariant
            0 <= i <= n,
            lit@ == s@.subrange(0, i as int),
        decreases n - i,
    {
        let c = s.get_char(i);
        lit.push(c);
        proof {
            assert(lit@ =~= s@.subrange(0, i as int + 1));
        }
        i += 1;
    }
    proof {
        assert(lit@ =~= s@);
    }
    Parser::MatchLiteral(lit)
}

/// Consumes any single character, yielding it; fails on empty input.
pub fn any_char() -> (r: Parser)
    ensures
        r@ == SpecParser::AnyChar,
{
    Parser::AnyChar
}

/// Always succeeds: with `Some` of `p`'s value if `p` succeeds (consuming
/// what it consumed), with `None` (consuming nothing) if `p` fails.
pub fn optional(p: Parser) -> (r: Parser)
    ensures
        r@ == SpecParser::Optional(Box::new(p@)),
{
    Parser::Optional(Box::new(p))
}

/// The combinator tree of the number rule: one or more decimal digits,
/// turned into their numeric value.
pub open spec fn spec_number_parser() -> SpecParser {
    SpecParser::Mapped(
        Box::new(SpecParser::Repeat(
            Box::new(SpecParser::Predicate(Box::new(SpecParser::AnyChar), PredFn::IsAsciiDigit)),
            1,
            None,
        )),
        MapFn::DigitsToNum,
    )
}

pub(crate) fn number_tree() -> (r: Parser)
    ensures
        r@ == spec_number_parser(),
{
    crate::combinators::map(one_or_more(predicate(any_char(), PredFn::IsAsciiDigit)), MapFn::DigitsToNum)
}

/// The combinator tree of the quantifier rule:
/// `('*' | '+' | '?' | '{' bound '}') '?'?`, where
/// `bound := number (',' number?)?`.
pub open spec fn spec_quantifier_parser() -> SpecParser {
    SpecParser::Mapped(
        Box::new(SpecParser::Pair(
            Box::new(SpecParser::Either(
                Box::new(SpecParser::Mapped(
                    Box::new(SpecParser::MatchLiteral("*"@)),
                    MapFn::ToKleene,
                )),
                Box::new(SpecParser::Either(
                    Box::new(SpecParser::Mapped(
                        Box::new(SpecParser::MatchLiteral("+"@)),
                        MapFn::ToPlus,
                    )),
                    Box::new(SpecParser::Either(
                        Box::new(SpecParser::Mapped(
                            Box::new(SpecParser::MatchLiteral("?"@)),
                            MapFn::ToPossible,
                        )),
                        Box::new(spec_braced_bound_parser()),
                    )),
                )),
            )),
            Box::new(SpecParser::Optional(Box::new(SpecParser::MatchLiteral("?"@)))),
        )),
        MapFn::ToQuantifier,
    )
}

/// The `{..}` part of the quantifier rule.
pub open spec fn spec_braced_bound_parser() -> SpecParser {
    SpecParser::Mapped(
        Box::new(SpecParser::Pair(
            Box::new(SpecParser::MatchLiteral("{"@)),
            Box::new(SpecParser::Mapped(
                Box::new(SpecParser::Pair(
                    Box::new(spec_bound_parser()),
                    Box::new(SpecParser::MatchLiteral("}"@)),
                )),
                MapFn::First,
            )),
        )),
        MapFn::Second,
    )
}

/// The body of a `{..}` bound: a number, optionally followed by a comma and
/// an optional second number.
pub open spec fn spec_bound_parser() -> SpecParser {
    SpecParser::Mapped(
        Box::new(SpecParser::Pair(
            Box::new(spec_number_parser()),
            Box::new(SpecParser::Optional(Box::new(SpecParser::Mapped(
                Box::new(SpecParser::Pair(
                    Box::new(SpecParser::MatchLiteral(","@)),
                    Box::new(SpecParser::Optional(Box::new(spec_number_parser()))),
                )),
                MapFn::Second,
            )))),
        )),
        MapFn::ToBound,
    )
}

pub(crate) fn quantifier_tree() -> (r: Parser)
    ensures
        r@ == spec_quantifier_parser(),
{
    let star = crate::combinators::map(match_literal("*"), MapFn::ToKleene);
    let plus = crate::combinators::map(match_literal("+"), MapFn::ToPlus);
    let qmark = crate::combinators::map(match_literal("?"), MapFn::ToPossible);
    let tail = crate::combinators::map(pair(match_literal(","), optional(number_tree())), MapFn::Second);
    let bound = crate::combinators::map(pair(number_tree(), optional(tail)), MapFn::ToBound);
    let braced = crate::combinators::map(
        pair(match_literal("{"), crate::combinators::map(pair(bound, match_literal("}")), MapFn::First)),
        MapFn::Second,
    );
    let raw = either(star, either(plus, either(qmark, braced)));
    crate::combinators::map(pair(raw, optional(match_literal("?"))), MapFn::ToQuantifier)
}

/// What the number rule yields: the saturated numeric value of one or more
/// leading decimal digits, or the error of the underlying combinators.
pub open spec fn spec_number(input: Seq<char>) -> Result<(usize, Seq<char>), SpecParserError> {
    match spec_parse(spec_number_parser(), input) {
        Ok((SpecParseElement::Num(v), rem)) => Ok((v, rem)),
        Ok(_) => Err(SpecParserError::Error(input)),
        Err(e) => Err(e),
    }
}

/// The number rule: one or more decimal digits as an unsigned integer.
pub struct NumberParser {}

/// Builds the number rule.
pub fn number() -> (r: NumberParser) {
    NumberParser {}
}

impl NumberParser {
    /// Parses leading decimal digits into their numeric value, as
    /// [`spec_number`] says.
    pub fn parse<'a>(&self, input: &'a str) -> (res: Result<(usize, &'a str), ParserError>)
        ensures
            spec_number(input@) matches Ok(p) ==> (res matches Ok(q) && q.0 == p.0 && q.1@
                == p.1),
            spec_number(input@) matches Err(e) ==> (res matches Err(pe) && pe@ == e),
            res matches Ok(q) ==> q.1@.len() <= input@.len(),
    {
        let t = number_tree();
        match t.parse(input) {
            Ok((ParseElement::Num(v), rem)) => Ok((v, rem)),
            Ok((_, _)) => Err(ParserError::Error(str_to_owned(input))),
            Err(e) => Err(e),
        }
    }
}

/// What the quantifier rule yields: a repetition modifier, greedy unless a
/// trailing `?` marks it lazy.
pub open spec fn spec_quantifier(input: Seq<char>) -> Result<
    (Quantifier, Seq<char>),
    SpecParserError,
> {
    match spec_parse(spec_quantifier_parser(), input) {
        Ok((SpecParseElement::Quant(q), rem)) => Ok((q, rem)),
        Ok(_) => Err(SpecParserError::Error(input)),
        Err(e) => Err(e),
    }
}

/// The quantifier rule: `*`, `+`, `?` or a `{..}` bound, with an optional
/// trailing `?` marking laziness.
pub struct QuantifierParser {}

/// Builds the quantifier rule.
pub fn quantifier() -> (r: QuantifierParser) {
    QuantifierParser {}
}

impl QuantifierParser {
    /// Parses a leading repetition modifier, as [`spec_quantifier`] says.
    pub fn parse<'a>(&self, input: &'a str) -> (res: Result<(Quantifier, &'a str), ParserError>)
        ensures
            spec_quantifier(input@) matches Ok(p) ==> (res matches Ok(q) && q.0 == p.0 && q.1@
                == p.1),
            spec_quantifier(input@) matches Err(e) ==> (res matches Err(pe) && pe@ == e),
            res matches Ok(q) ==> q.1@.len() <= input@.len(),
    {
        let t = quantifier_tree();
        match t.parse(input) {
            Ok((ParseElement::Quant(q), rem)) => Ok((q, rem)),
            Ok((_, _)) => Err(ParserError::Error(str_to_owned(input))),
            Err(e) => Err(e),
        }
    }
}

/// What the char-literal rule yields: a backslash-escaped reserved
/// character, or a single ordinary character. `|` is never an ordinary
/// character, so that a sub-expression stops at an alternation bar.
pub open spec fn spec_char_literal(input: Seq<char>) -> Result<(char, Seq<char>), SpecParserError> {
    if input.len() >= 2 && input[0] == '\\' && is_reserved_char(input[1]) {
        Ok((input[1], input.skip(2)))
    } else if input.len() >= 1 && !is_reserved_char(input[0]) && input[0] != '|' {
        Ok((input[0], input.skip(1)))
    } else {
        Err(SpecParserError::Error(input))
    }
}

/// Parses a leading character literal, as [`spec_char_literal`] says.
fn char_literal_parse<'a>(input: &'a str) -> (res: Result<(char, &'a str), ParserError>)
    ensures
        spec_char_literal(input@) matches Ok(p) ==> (res matches Ok(q) && q.0 == p.0 && q.1@
            == p.1),
        spec_char_literal(input@) matches Err(e) ==> (res matches Err(pe) && pe@ == e),
        res matches Ok(q) ==> q.1@.len() < input@.len(),
{
    let n = input.unicode_len();
    if n >= 2 && input.get_char(0) == '\\' {
        let c1 = input.get_char(1);
        if escapable(&c1) {
            return Ok((c1, skip_chars(input, 2)));
        }
    }
    if n >= 1 {
        let c0 = input.get_char(0);
        if not_reserved(&c0) && c0 != '|' {
            return Ok((c0, skip_chars(input, 1)));
        }
    }
    Err(ParserError::Error(str_to_owned(input)))
}

/// `i` is the position of the first closing brace of `s`.
pub open spec fn first_close_brace(s: Seq<char>, i: int) -> bool {
    0 <= i < s.len() && s[i] == '}' && (forall|j: int| 0 <= j < i ==> s[j] != '}')
}

/// Finds the first closing brace at or after `from`.
#[verifier::loop_isolation(false)]
fn find_close_brace(input: &str, from: usize) -> (res: Option<usize>)
    requires
        from <= input@.len(),
    ensures
        res matches Some(i) ==> from <= i < input@.len() && input@[i as int] == '}' && (forall|
            j: int,
        | from <= j < i ==> input@[j] != '}'),
        res is None ==> forall|j: int| from <= j < input@.len() ==> input@[j] != '}',
{
    let n = input.unicode_len();
    let mut i: usize = from;
    while i < n
        invariant
            from <= i <= n,
            forall|j: int| from <= j < i ==> input@[j] != '}',
        decreases n - i,
    {
        if input.get_char(i) == '}' {
            return Some(i);
        }
        i += 1;
    }
    None
}

/// What an escape of a built-in set yields: `\w`, `\s`, `\d`, or a
/// `\P{Name}` Unicode category.
pub open spec fn spec_escape_set(input: Seq<char>) -> Result<(CharSet, Seq<char>), SpecParserError> {
    if input.len() >= 2 && input[0] == '\\' {
        match spec_map_literal_charset(input[1]) {
            Some(cs) => Ok((cs, input.skip(2))),
            None => if input.len() >= 3 && input[1] == 'P' && input[2] == '{' {
                let body = input.skip(3);
                if exists|i: int| first_close_brace(body, i) {
                    let i = choose|i: int| first_close_brace(body, i);
                    match spec_map_unicode_charset(body.take(i)) {
                        Some(cat) => Ok((CharSet::UnicodeCategory(cat), body.skip(i + 1))),
                        None => Err(SpecParserError::Error(input)),
                    }
                } else {
                    Err(SpecParserError::Error(input))
                }
            } else {
                Err(SpecParserError::Error(input))
            },
        }
    } else {
        Err(SpecParserError::Error(input))
    }
}

/// Parses a leading built-in set escape, as [`spec_escape_set`] says.
fn escape_set_parse<'a>(input: &'a str) -> (res: Result<(CharSet, &'a str), ParserError>)
    ensures
        spec_escape_set(input@) matches Ok(p) ==> (res matches Ok(q) && q.0 == p.0 && q.1@
            == p.1),
        spec_escape_set(input@) matches Err(e) ==> (res matches Err(pe) && pe@ == e),
        res matches Ok(q) ==> q.1@.len() < input@.len(),
{
    let n = input.unicode_len();
    if n >= 2 && input.get_char(0) == '\\' {
        let c1 = input.get_char(1);
        match map_literal_charset(c1) {
            Some(cs) => Ok((cs, skip_chars(input, 2))),
            None => {
                if n >= 3 && c1 == 'P' && input.get_char(2) == '{' {
                    match find_close_brace(input, 3) {
                        Some(i) => {
                            let name = input.substring_char(3, i);
                            let rem = skip_chars(input, i + 1);
                            proof {
                                let body = input@.skip(3);
                                assert(first_close_brace(body, i - 3));
                                let k = choose|k: int| first_close_brace(body, k);
                                if k < i - 3 {
                                    assert(input@[k + 3] == '}');
                                    assert(false);
                                }
                                if k > i - 3 {
                                    assert(body[i - 3] == '}');
                                    assert(false);
                                }
                                assert(name@ =~= body.take(i - 3));
                                assert(rem@ =~= body.skip(i - 3 + 1));
                            }
                            match map_unicode_charset(name) {
                                Some(cat) => Ok((CharSet::UnicodeCategory(cat), rem)),
                                None => Err(ParserError::Error(str_to_owned(input))),
                            }
                        },
                        None => {
                            proof {
                                assert forall|k: int| !first_close_brace(input@.skip(3), k) by {
                                    if 0 <= k < input@.skip(3).len() {
                                        assert(input@.skip(3)[k] == input@[k + 3]);
                                    }
                                }
                            }
                            Err(ParserError::Error(str_to_owned(input)))
                        },
                    }
                } else {
                    Err(ParserError::Error(str_to_owned(input)))
                }
            },
        }
    } else {
        Err(ParserError::Error(str_to_owned(input)))
    }
}

/// The longest leading run of unreserved characters, and what follows it.
pub open spec fn spec_plain_chars(input: Seq<char>) -> (Seq<char>, Seq<char>)
    decreases input.len(),
{
    if input.len() >= 1 && !is_reserved_char(input[0]) {
        let (cs, rem) = spec_plain_chars(input.skip(1));
        (seq![input[0]] + cs, rem)
    } else {
        (Seq::empty(), input)
    }
}

proof fn lemma_plain_chars_characterization(s: Seq<char>, i: int)
    requires
        0 <= i <= s.len(),
        forall|j: int| 0 <= j < i ==> !is_reserved_char(s[j]),
        i < s.len() ==> is_reserved_char(s[i]),
    ensures
        spec_plain_chars(s) == (s.subrange(0, i), s.skip(i)),
    decreases i,
{
    if i == 0 {
        assert(s.subrange(0, 0) =~= Seq::<char>::empty());
        assert(s.skip(0) =~= s);
    } else {
        let t = s.skip(1);
        lemma_plain_chars_characterization(t, i - 1);
        assert(seq![s[0]] + t.subrange(0, i - 1) =~= s.subrange(0, i));
        assert(t.skip(i - 1) =~= s.skip(i));
    }
}

/// What a class body yields: a character range, a built-in set, or a group
/// of explicit characters — tried in that order.
pub open spec fn spec_class_body(input: Seq<char>) -> Result<
    (SpecRawCharClass, Seq<char>),
    SpecParserError,
> {
    if input.len() >= 3 && !is_reserved_char(input[0]) && input[1] == '-' && !is_reserved_char(
        input[2],
    ) {
        Ok((SpecRawCharClass::CharRange(input[0], input[2]), input.skip(3)))
    } else {
        match spec_escape_set(input) {
            Ok((cs, rem)) => Ok((SpecRawCharClass::SpecialSet(cs), rem)),
            Err(_) => {
                let (cs, rem) = spec_plain_chars(input);
                if cs.len() >= 1 {
                    Ok((SpecRawCharClass::CharGroup(cs), rem))
                } else {
                    Err(SpecParserError::Error(input))
                }
            },
        }
    }
}

/// Parses a leading class body, as [`spec_class_body`] says.
#[verifier::loop_isolation(false)]
fn class_body_parse<'a>(input: &'a str) -> (res: Result<(RawCharClass, &'a str), ParserError>)
    ensures
        spec_class_body(input@) matches Ok(p) ==> (res matches Ok(q) && q.0@ == p.0 && q.1@
            == p.1),
        spec_class_body(input@) matches Err(e) ==> (res matches Err(pe) && pe@ == e),
        res matches Ok(q) ==> q.1@.len() <= input@.len(),
{
    let n = input.unicode_len();
    if n >= 3 {
        let c0 = input.get_char(0);
        let c1 = input.get_char(1);
        let c2 = input.get_char(2);
        if not_reserved(&c0) && c1 == '-' && not_reserved(&c2) {
            return Ok((RawCharClass::CharRange(c0, c2), skip_chars(input, 3)));
        }
    }
    match escape_set_parse(input) {
        Ok((cs, rem)) => Ok((RawCharClass::SpecialSet(cs), rem)),
        Err(_) => {
            let mut cs: Vec<char> = Vec::new();
            let mut i: usize = 0;
            let mut stop = false;
            while i < n && !stop
                invariant
                    0 <= i <= n,
                    cs@ == input@.subrange(0, i as int),
                    forall|j: int| 0 <= j < i ==> !is_reserved_char(input@[j]),
                    stop ==> i < n && is_reserved_char(input@[i as int]),
                decreases n - i + (if stop { 0int } else { 1int }),
            {
                let c = input.get_char(i);
                if reserved_char(c) {
                    stop = true;
                } else {
                    cs.push(c);
                    proof {
                        assert(cs@ =~= input@.subrange(0, i as int + 1));
                    }
                    i += 1;
                }
            }
            proof {
                lemma_plain_chars_characterization(input@, i as int);
            }
            if cs.len() >= 1 {
                Ok((RawCharClass::CharGroup(cs), skip_chars(input, i)))
            } else {
                Err(ParserError::Error(str_to_owned(input)))
            }
        },
    }
}

/// What a character class yields: `[` then an optional inverting `^`, a
/// class body, and a closing `]`.
pub open spec fn spec_char_class(input: Seq<char>) -> Result<
    (SpecCharClass, Seq<char>),
    SpecParserError,
> {
    if input.len() >= 1 && input[0] == '[' {
        let inverted = input.len() >= 2 && input[1] == '^';
        let body0 = if inverted {
            input.skip(2)
        } else {
            input.skip(1)
        };
        match spec_class_body(body0) {
            Ok((raw, rem)) => if rem.len() <= body0.len() && rem.len() >= 1 && rem[0] == ']' {
                if inverted {
                    Ok((SpecCharClass::Inverted(raw), rem.skip(1)))
                } else {
                    Ok((SpecCharClass::Regular(raw), rem.skip(1)))
                }
            } else {
                Err(SpecParserError::Error(input))
            },
            Err(_) => Err(SpecParserError::Error(input)),
        }
    } else {
        Err(SpecParserError::Error(input))
    }
}

/// Parses a leading character class, as [`spec_char_class`] says.
fn char_class_parse<'a>(input: &'a str) -> (res: Result<(CharClass, &'a str), ParserError>)
    ensures
        spec_char_class(input@) matches Ok(p) ==> (res matches Ok(q) && q.0@ == p.0 && q.1@
            == p.1),
        spec_char_class(input@) matches Err(e) ==> (res matches Err(pe) && pe@ == e),
        res matches Ok(q) ==> q.1@.len() < input@.len(),
{
    let n = input.unicode_len();
    if n >= 1 && input.get_char(0) == '[' {
        let inverted = n >= 2 && input.get_char(1) == '^';
        let body0 = if inverted {
            skip_chars(input, 2)
        } else {
            skip_chars(input, 1)
        };
        match class_body_parse(body0) {
            Ok((raw, rem)) => {
                let rn = rem.unicode_len();
                if rn >= 1 && rem.get_char(0) == ']' {
                    let fin = skip_chars(rem, 1);
                    if inverted {
                        Ok((CharClass::Inverted(raw), fin))
                    } else {
                        Ok((CharClass::Regular(raw), fin))
                    }
                } else {
                    Err(ParserError::Error(str_to_owned(input)))
                }
            },
            Err(_) => Err(ParserError::Error(str_to_owned(input))),
        }
    } else {
        Err(ParserError::Error(str_to_owned(input)))
    }
}

/// What an indirect match yields: the wildcard `.`, a character class, or a
/// bare built-in set escape.
pub open spec fn spec_indirect(input: Seq<char>) -> Result<
    (SpecIndirectMatch, Seq<char>),
    SpecParserError,
> {
    if input.len() >= 1 && input[0] == '.' {
        Ok((SpecIndirectMatch::WildCard, input.skip(1)))
    } else {
        match spec_char_class(input) {
            Ok((cc, rem)) => Ok((SpecIndirectMatch::Class(cc), rem)),
            Err(_) => match spec_escape_set(input) {
                Ok((cs, rem)) => Ok(
                    (
                        SpecIndirectMatch::Class(
                            SpecCharClass::Regular(SpecRawCharClass::SpecialSet(cs)),
                        ),
                        rem,
                    ),
                ),
                Err(e) => Err(e),
            },
        }
    }
}

/// Parses a leading indirect match, as [`spec_indirect`] says.
fn indirect_parse<'a>(input: &'a str) -> (res: Result<(IndirectMatch, &'a str), ParserError>)
    ensures
        spec_indirect(input@) matches Ok(p) ==> (res matches Ok(q) && q.0@ == p.0 && q.1@ == p.1),
        spec_indirect(input@) matches Err(e) ==> (res matches Err(pe) && pe@ == e),
        res matches Ok(q) ==> q.1@.len() < input@.len(),
{
    let n = input.unicode_len();
    if n >= 1 && input.get_char(0) == '.' {
        return Ok((IndirectMatch::WildCard, skip_chars(input, 1)));
    }
    match char_class_parse(input) {
        Ok((cc, rem)) => Ok((IndirectMatch::Class(cc), rem)),
        Err(_) => match escape_set_parse(input) {
            Ok((cs, rem)) => Ok(
                (IndirectMatch::Class(CharClass::Regular(RawCharClass::SpecialSet(cs))), rem),
            ),
            Err(e) => Err(e),
        },
    }
}

/// What the token rule yields: an anchor, a group, an indirect match or a
/// character literal — tried in that order, each from the same input.
/// `next` is the index the next capturing group will get.
pub open spec fn spec_token(input: Seq<char>, next: int) -> Result<
    ((SpecToken, int), Seq<char>),
    SpecParserError,
>
    decreases input.len(), 3int,
{
    match (if input.len() >= 1 {
        spec_map_anchor(input[0])
    } else {
        None
    }) {
        Some(a) => Ok(((SpecToken::Anchor(a), next), input.skip(1))),
        None => match spec_group(input, next) {
            Ok(((g, nx), rem)) => Ok(((SpecToken::Group(g), nx), rem)),
            Err(_) => match spec_indirect(input) {
                Ok((im, rem)) => Ok(((SpecToken::IndirectMatch(im), next), rem)),
                Err(_) => match spec_char_literal(input) {
                    Ok((c, rem)) => Ok(((SpecToken::Char(c), next), rem)),
                    Err(e) => Err(e),
                },
            },
        },
    }
}

/// What the group rule yields: `(` then an optional `?:`, a full expression,
/// and `)`. A capturing group takes the index `next` — left-to-right order
/// of the opening parenthesis — and the expression inside is numbered from
/// `next + 1`; a non-capturing group passes `next` through unchanged.
pub open spec fn spec_group(input: Seq<char>, next: int) -> Result<
    ((SpecGroup, int), Seq<char>),
    SpecParserError,
>
    decreases input.len(), 2int,
{
    if input.len() >= 1 && input[0] == '(' {
        let inner0 = input.skip(1);
        if inner0.len() >= 2 && inner0[0] == '?' && inner0[1] == ':' {
            match spec_expression(inner0.skip(2), next) {
                Ok(((e, nx), rem)) => if rem.len() >= 1 && rem[0] == ')' {
                    Ok(((SpecGroup::NonCapturing(Box::new(e)), nx), rem.skip(1)))
                } else {
                    Err(SpecParserError::Error(input))
                },
                Err(_) => Err(SpecParserError::Error(input)),
            }
        } else {
            match spec_expression(inner0, next + 1) {
                Ok(((e, nx), rem)) => if rem.len() >= 1 && rem[0] == ')' {
                    Ok(((SpecGroup::Capturing(next as usize, Box::new(e)), nx), rem.skip(1)))
                } else {
                    Err(SpecParserError::Error(input))
                },
                Err(_) => Err(SpecParserError::Error(input)),
            }
        }
    } else {
        Err(SpecParserError::Error(input))
    }
}

/// What the quantified-token rule yields: a token, then an optional
/// quantifier attached to it.
pub open spec fn spec_quantified_token(input: Seq<char>, next: int) -> Result<
    ((SpecQuantifiedToken, int), Seq<char>),
    SpecParserError,
>
    decreases input.len(), 4int,
{
    match spec_token(input, next) {
        Ok(((tok, nx), rem)) => if rem.len() < input.len() {
            match spec_parse(spec_quantifier_parser(), rem) {
                Ok((SpecParseElement::Quant(q), rem2)) => Ok(
                    ((SpecQuantifiedToken::Quantified(tok, q), nx), rem2),
                ),
                Ok(_) => Ok(((SpecQuantifiedToken::Singleton(tok), nx), rem)),
                Err(_) => Ok(((SpecQuantifiedToken::Singleton(tok), nx), rem)),
            }
        } else {
            Err(SpecParserError::Error(input))
        },
        Err(e) => Err(e),
    }
}

/// The further quantified tokens of a sub-expression: as many as will
/// parse, each consuming input.
pub open spec fn spec_qt_rest(input: Seq<char>, next: int) -> (
    (Seq<SpecQuantifiedToken>, int),
    Seq<char>,
)
    decreases input.len(), 5int,
{
    match spec_quantified_token(input, next) {
        Ok(((qt, nx), rem)) => if rem.len() < input.len() {
            let ((tail, nx2), rem2) = spec_qt_rest(rem, nx);
            ((seq![qt] + tail, nx2), rem2)
        } else {
            ((Seq::empty(), next), input)
        },
        Err(_) => ((Seq::empty(), next), input),
    }
}

/// What the sub-expression rule yields: one or more quantified tokens in
/// sequence.
pub open spec fn spec_sub_expression(input: Seq<char>, next: int) -> Result<
    ((SpecSubExpression, int), Seq<char>),
    SpecParserError,
>
    decreases input.len(), 6int,
{
    match spec_quantified_token(input, next) {
        Ok(((qt, nx), rem)) => if rem.len() < input.len() {
            let ((tail, nx2), rem2) = spec_qt_rest(rem, nx);
            Ok(((SpecSubExpression { tokens: seq![qt] + tail }, nx2), rem2))
        } else {
            Err(SpecParserError::Error(input))
        },
        Err(e) => Err(e),
    }
}

/// The further alternatives of an expression: a `|` and a sub-expression,
/// as many times as they will parse. A trailing `|` whose sub-expression
/// fails is left unconsumed.
pub open spec fn spec_alt_rest(input: Seq<char>, next: int) -> (
    (Seq<SpecSubExpression>, int),
    Seq<char>,
)
    decreases input.len(), 7int,
{
    if input.len() >= 1 && input[0] == '|' {
        match spec_sub_expression(input.skip(1), next) {
            Ok(((sub, nx), rem)) => if rem.len() < input.len() {
                let ((tail, nx2), rem2) = spec_alt_rest(rem, nx);
                ((seq![sub] + tail, nx2), rem2)
            } else {
                ((Seq::empty(), next), input)
            },
            Err(_) => ((Seq::empty(), next), input),
        }
    } else {
        ((Seq::empty(), next), input)
    }
}

/// What the expression rule yields: an alternation of one or more
/// sub-expressions separated by `|`, with capturing groups numbered from
/// `next` in left-to-right order of their opening parenthesis.
pub open spec fn spec_expression(input: Seq<char>, next: int) -> Result<
    ((SpecExpression, int), Seq<char>),
    SpecParserError,
>
    decreases input.len(), 8int,
{
    match spec_sub_expression(input, next) {
        Ok(((first, nx), rem)) => if rem.len() < input.len() {
            let ((tail, nx2), rem2) = spec_alt_rest(rem, nx);
            Ok(
                (
                    (
                        SpecExpression {
                            alt: SpecAlternation { choices: seq![first] + tail },
                        },
                        nx2,
                    ),
                    rem2,
                ),
            )
        } else {
            Err(SpecParserError::Error(input))
        },
        Err(e) => Err(e),
    }
}

proof fn lemma_view_qts_push(s: Seq<QuantifiedToken>, v: QuantifiedToken)
    ensures
        view_quantified_tokens(s.push(v)) == view_quantified_tokens(s) + seq![
            crate::ast::view_quantified_token(v),
        ],
{
    assert(view_quantified_tokens(s.push(v)) =~= view_quantified_tokens(s) + seq![
        crate::ast::view_quantified_token(v),
    ]);
}

proof fn lemma_view_subs_push(s: Seq<SubExpression>, v: SubExpression)
    ensures
        view_sub_expressions(s.push(v)) == view_sub_expressions(s) + seq![
            crate::ast::view_sub_expression(v),
        ],
{
    assert(view_sub_expressions(s.push(v)) =~= view_sub_expressions(s) + seq![
        crate::ast::view_sub_expression(v),
    ]);
}

/// Parses a leading token, as [`spec_token`] says; a token always consumes
/// at least one character, and moves the capture counter by at most one per
/// consumed character.
fn token_parse<'a>(input: &'a str, next: usize) -> (res: Result<
    ((Token, usize), &'a str),
    ParserError,
>)
    requires
        next + input@.len() <= usize::MAX,
    ensures
        spec_token(input@, next as int) matches Ok(t) ==> (res matches Ok(u) && u.0.0@ == t.0.0
            && u.0.1 as int == t.0.1 && u.1@ == t.1),
        spec_token(input@, next as int) matches Err(e) ==> (res matches Err(pe) && pe@ == e),
        res matches Ok(u) ==> u.1@.len() < input@.len() && next <= u.0.1 && u.0.1 - next
            <= input@.len() - u.1@.len(),
    decreases input@.len(), 3int,
{
    let n = input.unicode_len();
    if n >= 1 {
        let c0 = input.get_char(0);
        match map_anchor(c0) {
            Some(a) => {
                return Ok(((Token::Anchor(a), next), skip_chars(input, 1)));
            },
            None => {},
        }
    }
    match group_parse(input, next) {
        Ok(((g, nx), rem)) => Ok(((Token::Group(g), nx), rem)),
        Err(_) => match indirect_parse(input) {
            Ok((im, rem)) => Ok(((Token::IndirectMatch(im), next), rem)),
            Err(_) => match char_literal_parse(input) {
                Ok((c, rem)) => Ok(((Token::Char(c), next), rem)),
                Err(e) => Err(e),
            },
        },
    }
}

/// Parses a leading group, as [`spec_group`] says.
fn group_parse<'a>(input: &'a str, next: usize) -> (res: Result<
    ((Group, usize), &'a str),
    ParserError,
>)
    requires
        next + input@.len() <= usize::MAX,
    ensures
        spec_group(input@, next as int) matches Ok(t) ==> (res matches Ok(u) && u.0.0@ == t.0.0
            && u.0.1 as int == t.0.1 && u.1@ == t.1),
        spec_group(input@, next as int) matches Err(e) ==> (res matches Err(pe) && pe@ == e),
        res matches Ok(u) ==> u.1@.len() < input@.len() && next <= u.0.1 && u.0.1 - next
            <= input@.len() - u.1@.len(),
    decreases input@.len(), 2int,
{
    let n = input.unicode_len();
    if n >= 1 && input.get_char(0) == '(' {
        let inner0 = skip_chars(input, 1);
        let n1 = inner0.unicode_len();
        if n1 >= 2 && inner0.get_char(0) == '?' && inner0.get_char(1) == ':' {
            let body = skip_chars(inner0, 2);
            match expression_parse(body, next) {
                Ok(((e, nx), rem)) => {
                    let rn = rem.unicode_len();
                    if rn >= 1 && rem.get_char(0) == ')' {
                        Ok(((Group::NonCapturing(Box::new(e)), nx), skip_chars(rem, 1)))
                    } else {
                        Err(ParserError::Error(str_to_owned(input)))
                    }
                },
                Err(_) => Err(ParserError::Error(str_to_owned(input))),
            }
        } else {
            match expression_parse(inner0, next + 1) {
                Ok(((e, nx), rem)) => {
                    let rn = rem.unicode_len();
                    if rn >= 1 && rem.get_char(0) == ')' {
                        Ok(((Group::Capturing(next, Box::new(e)), nx), skip_chars(rem, 1)))
                    } else {
                        Err(ParserError::Error(str_to_owned(input)))
                    }
                },
                Err(_) => Err(ParserError::Error(str_to_owned(input))),
            }
        }
    } else {
        Err(ParserError::Error(str_to_owned(input)))
    }
}

/// Parses a leading quantified token, as [`spec_quantified_token`] says.
fn quantified_token_parse<'a>(input: &'a str, next: usize) -> (res: Result<
    ((QuantifiedToken, usize), &'a str),
    ParserError,
>)
    requires
        next + input@.len() <= usize::MAX,
    ensures
        spec_quantified_token(input@, next as int) matches Ok(t) ==> (res matches Ok(u) && u.0.0@
            == t.0.0 && u.0.1 as int == t.0.1 && u.1@ == t.1),
        spec_quantified_token(input@, next as int) matches Err(e) ==> (res matches Err(pe) && pe@
            == e),
        res matches Ok(u) ==> u.1@.len() < input@.len() && next <= u.0.1 && u.0.1 - next
            <= input@.len() - u.1@.len(),
    decreases input@.len(), 4int,
{
    match token_parse(input, next) {
        Ok(((tok, nx), rem)) => {
            let qt = quantifier_tree();
            match qt.parse(rem) {
                Ok((ParseElement::Quant(q), rem2)) => Ok(
                    ((QuantifiedToken::Quantified(tok, q), nx), rem2),
                ),
                Ok((_, _)) => Ok(((QuantifiedToken::Singleton(tok), nx), rem)),
                Err(_) => Ok(((QuantifiedToken::Singleton(tok), nx), rem)),
            }
        },
        Err(e) => Err(e),
    }
}

/// Parses a leading sub-expression, as [`spec_sub_expression`] says.
#[verifier::loop_isolation(false)]
fn sub_expression_parse<'a>(input: &'a str, next: usize) -> (res: Result<
    ((SubExpression, usize), &'a str),
    ParserError,
>)
    requires
        next + input@.len() <= usize::MAX,
    ensures
        spec_sub_expression(input@, next as int) matches Ok(t) ==> (res matches Ok(u) && u.0.0@
            == t.0.0 && u.0.1 as int == t.0.1 && u.1@ == t.1),
        spec_sub_expression(input@, next as int) matches Err(e) ==> (res matches Err(pe) && pe@
            == e),
        res matches Ok(u) ==> u.1@.len() < input@.len() && next <= u.0.1 && u.0.1 - next
            <= input@.len() - u.1@.len(),
    decreases input@.len(), 6int,
{
    match quantified_token_parse(input, next) {
        Err(e) => Err(e),
        Ok(((first, nx0), rem0)) => {
            let mut tokens: Vec<QuantifiedToken> = Vec::new();
            let mut cur: &'a str = rem0;
            let mut nx: usize = nx0;
            let mut done = false;
            while !done
                invariant
                    cur@.len() <= rem0@.len(),
                    nx0 <= nx,
                    nx - nx0 <= rem0@.len() - cur@.len(),
                    !done ==> spec_qt_rest(rem0@, nx0 as int) == {
                        let ((tail, n2), r2) = spec_qt_rest(cur@, nx as int);
                        ((view_quantified_tokens(tokens@) + tail, n2), r2)
                    },
                    done ==> spec_qt_rest(rem0@, nx0 as int) == (
                        (view_quantified_tokens(tokens@), nx as int),
                        cur@,
                    ),
                decreases cur@.len(), (if done { 0int } else { 1int }),
            {
                match quantified_token_parse(cur, nx) {
                    Ok(((qt2, nx2), rem2)) => {
                        proof {
                            let a = view_quantified_tokens(tokens@);
                            let tail = spec_qt_rest(rem2@, nx2 as int).0.0;
                            lemma_view_qts_push(tokens@, qt2);
                            assert(a + (seq![qt2@] + tail) =~= (a + seq![qt2@]) + tail);
                        }
                        tokens.push(qt2);
                        nx = nx2;
                        cur = rem2;
                    },
                    Err(_) => {
                        proof {
                            assert(view_quantified_tokens(tokens@) + Seq::<
                                SpecQuantifiedToken,
                            >::empty() =~= view_quantified_tokens(tokens@));
                        }
                        done = true;
                    },
                }
            }
            let ghost collected = tokens@;
            let mut all: Vec<QuantifiedToken> = Vec::new();
            all.push(first);
            all.append(&mut tokens);
            proof {
                assert(all@ == seq![first] + collected);
                assert(view_quantified_tokens(all@) =~= seq![first@] + view_quantified_tokens(
                    collected,
                ));
            }
            Ok(((SubExpression::new(all), nx), cur))
        },
    }
}

/// Parses a leading expression, as [`spec_expression`] says.
#[verifier::loop_isolation(false)]
fn expression_parse<'a>(input: &'a str, next: usize) -> (res: Result<
    ((Expression, usize), &'a str),
    ParserError,
>)
    requires
        next + input@.len() <= usize::MAX,
    ensures
        spec_expression(input@, next as int) matches Ok(t) ==> (res matches Ok(u) && u.0.0@
            == t.0.0 && u.0.1 as int == t.0.1 && u.1@ == t.1),
        spec_expression(input@, next as int) matches Err(e) ==> (res matches Err(pe) && pe@ == e),
        res matches Ok(u) ==> u.1@.len() < input@.len() && next <= u.0.1 && u.0.1 - next
            <= input@.len() - u.1@.len(),
    decreases input@.len(), 8int,
{
    match sub_expression_parse(input, next) {
        Err(e) => Err(e),
        Ok(((first, nx0), rem0)) => {
            let mut rest: Vec<SubExpression> = Vec::new();
            let mut cur: &'a str = rem0;
            let mut nx: usize = nx0;
            let mut done = false;
            while !done
                invariant
                    cur@.len() <= rem0@.len(),
                    nx0 <= nx,
                    nx - nx0 <= rem0@.len() - cur@.len(),
                    !done ==> spec_alt_rest(rem0@, nx0 as int) == {
                        let ((tail, n2), r2) = spec_alt_rest(cur@, nx as int);
                        ((view_sub_expressions(rest@) + tail, n2), r2)
                    },
                    done ==> spec_alt_rest(rem0@, nx0 as int) == (
                        (view_sub_expressions(rest@), nx as int),
                        cur@,
                    ),
                decreases cur@.len(), (if done { 0int } else { 1int }),
            {
                let cn = cur.unicode_len();
                if cn >= 1 && cur.get_char(0) == '|' {
                    let after = skip_chars(cur, 1);
                    match sub_expression_parse(after, nx) {
                        Ok(((sub, nx2), rem2)) => {
                            proof {
                                let a = view_sub_expressions(rest@);
                                let tail = spec_alt_rest(rem2@, nx2 as int).0.0;
                                lemma_view_subs_push(rest@, sub);
                                assert(a + (seq![sub@] + tail) =~= (a + seq![sub@]) + tail);
                            }
                            rest.push(sub);
                            nx = nx2;
                            cur = rem2;
                        },
                        Err(_) => {
                            proof {
                                assert(view_sub_expressions(rest@) + Seq::<
                                    SpecSubExpression,
                                >::empty() =~= view_sub_expressions(rest@));
                            }
                            done = true;
                        },
                    }
                } else {
                    proof {
                        assert(view_sub_expressions(rest@) + Seq::<
                            SpecSubExpression,
                        >::empty() =~= view_sub_expressions(rest@));
                    }
                    done = true;
                }
            }
            let ghost collected = rest@;
            let mut all: Vec<SubExpression> = Vec::new();
            all.push(first);
            all.append(&mut rest);
            proof {
                assert(all@ == seq![first] + collected);
                assert(view_sub_expressions(all@) =~= seq![first@] + view_sub_expressions(
                    collected,
                ));
            }
            Ok(((Expression::new(all), nx), cur))
        },
    }
}

/// The token rule: an anchor, a group, an indirect match or a character
/// literal.
pub struct TokenParser {}

/// Builds the token rule.
pub fn token() -> (r: TokenParser) {
    TokenParser {}
}

impl TokenParser {
    /// Parses a leading token, numbering capturing groups from 1. The input
    /// must be one character shorter than the address space, so that every
    /// capture index fits in a `usize`.
    pub fn parse<'a>(&self, input: &'a str) -> (res: Result<(Token, &'a str), ParserError>)
        requires
            input@.len() < usize::MAX,
        ensures
            spec_token(input@, 1) matches Ok(t) ==> (res matches Ok(u) && u.0@ == t.0.0 && u.1@
                == t.1),
            spec_token(input@, 1) matches Err(e) ==> (res matches Err(pe) && pe@ == e),
            res matches Ok(u) ==> u.1@.len() < input@.len(),
    {
        match token_parse(input, 1) {
            Ok(((t, _), rem)) => Ok((t, rem)),
            Err(e) => Err(e),
        }
    }
}

/// The quantified-token rule: a token with an optional quantifier.
pub struct QuantifiedTokenParser {}

/// Builds the quantified-token rule.
pub fn pqtoken() -> (r: QuantifiedTokenParser) {
    QuantifiedTokenParser {}
}

impl QuantifiedTokenParser {
    /// Parses a leading quantified token, numbering capturing groups from 1.
    /// The input must be one character shorter than the address space, so
    /// that every capture index fits in a `usize`.
    pub fn parse<'a>(&self, input: &'a str) -> (res: Result<
        (QuantifiedToken, &'a str),
        ParserError,
    >)
        requires
            input@.len() < usize::MAX,
        ensures
            spec_quantified_token(input@, 1) matches Ok(t) ==> (res matches Ok(u) && u.0@ == t.0.0
                && u.1@ == t.1),
            spec_quantified_token(input@, 1) matches Err(e) ==> (res matches Err(pe) && pe@ == e),
            res matches Ok(u) ==> u.1@.len() < input@.len(),
    {
        match quantified_token_parse(input, 1) {
            Ok(((t, _), rem)) => Ok((t, rem)),
            Err(e) => Err(e),
        }
    }
}

/// The sub-expression rule: one or more quantified tokens in sequence.
pub struct SubExpressionParser {}

/// Builds the sub-expression rule.
pub fn sub_expression() -> (r: SubExpressionParser) {
    SubExpressionParser {}
}

impl SubExpressionParser {
    /// Parses a leading sub-expression, numbering capturing groups from 1.
    /// The input must be one character shorter than the address space, so
    /// that every capture index fits in a `usize`.
    pub fn parse<'a>(&self, input: &'a str) -> (res: Result<
        (SubExpression, &'a str),
        ParserError,
    >)
        requires
            input@.len() < usize::MAX,
        ensures
            spec_sub_expression(input@, 1) matches Ok(t) ==> (res matches Ok(u) && u.0@ == t.0.0
                && u.1@ == t.1),
            spec_sub_expression(input@, 1) matches Err(e) ==> (res matches Err(pe) && pe@ == e),
            res matches Ok(u) ==> u.1@.len() < input@.len(),
    {
        match sub_expression_parse(input, 1) {
            Ok(((t, _), rem)) => Ok((t, rem)),
            Err(e) => Err(e),
        }
    }
}

/// The expression rule: the public entry point of the grammar. It parses a
/// whole pattern into its AST; trailing unconsumed input is handed back to
/// the caller, whose responsibility it is to reject it.
pub struct ExpressionParser {}

/// Builds the expression rule.
pub fn expression() -> (r: ExpressionParser) {
    ExpressionParser {}
}

impl ExpressionParser {
    /// Parses a leading expression, numbering capturing groups from 1 in
    /// left-to-right order of their opening parenthesis. The input must be
    /// one character shorter than the address space, so that every capture
    /// index fits in a `usize`.
    pub fn parse<'a>(&self, input: &'a str) -> (res: Result<(Expression, &'a str), ParserError>)
        requires
            input@.len() < usize::MAX,
        ensures
            spec_expression(input@, 1) matches Ok(t) ==> (res matches Ok(u) && u.0@ == t.0.0
                && u.1@ == t.1),
            spec_expression(input@, 1) matches Err(e) ==> (res matches Err(pe) && pe@ == e),
            res matches Ok(u) ==> u.1@.len() < input@.len(),
    {
        match expression_parse(input, 1) {
            Ok(((t, _), rem)) => Ok((t, rem)),
            Err(e) => Err(e),
        }
    }
}

} // verus!
