//! The general laws of the library, stated over the models and proved once
//! and for all: failure without consumption, backtracking of `either`, the
//! boundary behaviour of bounded repetition, and the left-to-right numbering
//! of capturing groups.

use vstd::prelude::*;

use crate::ast::{
    SpecExpression, SpecGroup, SpecParserError, SpecQuantifiedToken, SpecSubExpression, SpecToken,
};
use crate::parsers::{
    first_close_brace, spec_alt_rest, spec_char_class, spec_char_literal, spec_escape_set,
    spec_expression, spec_group, spec_indirect, spec_map_anchor, spec_map_literal_charset,
    spec_qt_rest, spec_quantified_token, spec_quantifier_parser, spec_sub_expression, spec_token,
};
use crate::combinators::{
    parser_rank, parser_size, repeat_budget, spec_apply_chain, spec_apply_pred, spec_parse,
    spec_repeat, PredFn, SpecParseElement, SpecParser,
};

verus! {

/// Whether a parser reports, on failure, the very input it was handed.
///
/// Sequencing (`pair` and `and_then`, and anything built on them such as
/// `left` and `right`) is excluded when its second part may fail: the first
/// part's consumption is already spent on the shared remainder, and the
/// error then carries that intermediate input. That is accepted sequential
/// consumption, not a backtracking defect. `either` only ever reports its
/// second alternative's error, raised on the original input, so only that
/// alternative needs to be safe.
pub open spec fn backtrack_safe(p: SpecParser) -> bool
    decreases p,
{
    match p {
        SpecParser::MatchLiteral(_) => true,
        SpecParser::AnyChar => true,
        SpecParser::Mapped(q, _) => backtrack_safe(*q),
        SpecParser::Pair(_, _) => false,
        SpecParser::Repeat(_, _, _) => true,
        SpecParser::Predicate(q, _) => backtrack_safe(*q),
        SpecParser::AndThen(_, _) => false,
        SpecParser::Either(_, q2) => backtrack_safe(*q2),
        SpecParser::Not(_) => true,
        SpecParser::Optional(_) => true,
    }
}

/// No partial consumption on failure: whenever a backtrack-safe parser
/// fails, the input its error reports (when the error carries one) is
/// exactly the input the parser was given — however much of it the parser
/// inspected before failing.
pub proof fn lemma_no_partial_consumption(p: SpecParser, input: Seq<char>)
    requires
        backtrack_safe(p),
    ensures
        (match spec_parse(p, input) {
            Err(SpecParserError::Error(s)) => s == input,
            Err(SpecParserError::UnexpectedMatch(s)) => s == input,
            _ => true,
        }),
    decreases input.len(), parser_rank(p), parser_size(p), 0int,
{
    match p {
        SpecParser::Mapped(q, _f) => {
            lemma_no_partial_consumption(*q, input);
        },
        SpecParser::Predicate(q, _f) => {
            lemma_no_partial_consumption(*q, input);
        },
        SpecParser::Either(q1, q2) => {
            if spec_parse(*q1, input) is Err {
                lemma_no_partial_consumption(*q2, input);
            }
        },
        _ => {},
    }
}

/// The `predicate` combinator enforces the no-partial-consumption law
/// explicitly: when the wrapped parser succeeds but the predicate rejects
/// its value, the reported input is the one the whole combinator saw, not
/// the consumed remainder — whatever the wrapped parser is.
pub proof fn lemma_predicate_reports_original(p: SpecParser, f: PredFn, input: Seq<char>)
    ensures
        spec_parse(p, input) matches Ok(vr) ==> (!spec_apply_pred(f, vr.0)
            ==> spec_parse(SpecParser::Predicate(Box::new(p), f), input) == Err::<
            (SpecParseElement, Seq<char>),
            SpecParserError,
        >(SpecParserError::Error(input))),
{
}

/// Backtracking correctness of `either`: whenever the first alternative
/// fails on an input — no matter how much of it it inspected first — the
/// whole combinator behaves exactly as the second alternative does on that
/// same, original input; and whenever the first succeeds, the second is
/// never consulted.
pub proof fn lemma_either_backtracks(p1: SpecParser, p2: SpecParser, input: Seq<char>)
    ensures
        spec_parse(p1, input) is Err ==> spec_parse(
            SpecParser::Either(Box::new(p1), Box::new(p2)),
            input,
        ) == spec_parse(p2, input),
        spec_parse(p1, input) is Ok ==> spec_parse(
            SpecParser::Either(Box::new(p1), Box::new(p2)),
            input,
        ) == spec_parse(p1, input),
{
}

/// Applies the parser exactly `k` times in sequence: the values and the
/// final remainder if every application succeeds, and nothing otherwise.
/// The suffix guard mirrors the one in [`spec_repeat`].
pub open spec fn iter_parse(p: SpecParser, input: Seq<char>, k: nat) -> Option<
    (Seq<SpecParseElement>, Seq<char>),
>
    decreases k,
{
    if k == 0 {
        Some((Seq::empty(), input))
    } else {
        match spec_parse(p, input) {
            Err(_) => None,
            Ok((v, rem)) => if rem.len() <= input.len() {
                match iter_parse(p, rem, (k - 1) as nat) {
                    Some((tail, fin)) => Some((seq![v] + tail, fin)),
                    None => None,
                }
            } else {
                None
            },
        }
    }
}

/// A repetition whose budget allows exactly `k` applications collects
/// exactly the first `k` results, wherever more would have been available.
pub proof fn lemma_repeat_hits_cap(p: SpecParser, input: Seq<char>, k: nat)
    ensures
        iter_parse(p, input, k) matches Some(r) ==> (spec_repeat(p, input, Some(k)) == r
            && r.0.len() == k),
    decreases k,
{
    if k > 0 {
        match spec_parse(p, input) {
            Ok((v, rem)) => {
                if rem.len() <= input.len() {
                    lemma_repeat_hits_cap(p, rem, (k - 1) as nat);
                }
            },
            Err(_) => {},
        }
    }
}

/// A repetition that can only apply `j` times before the parser fails
/// collects exactly those `j` results under any budget of at least `j`.
pub proof fn lemma_repeat_stops_early(
    p: SpecParser,
    input: Seq<char>,
    items: Seq<SpecParseElement>,
    rem: Seq<char>,
    j: nat,
    k: nat,
)
    requires
        iter_parse(p, input, j) == Some((items, rem)),
        spec_parse(p, rem) is Err,
        j <= k,
    ensures
        spec_repeat(p, input, Some(k)) == (items, rem),
        items.len() == j,
    decreases j,
{
    if j == 0 {
    } else {
        match spec_parse(p, input) {
            Ok((v, rem1)) => {
                if rem1.len() <= input.len() {
                    match iter_parse(p, rem1, (j - 1) as nat) {
                        Some((tail, fin)) => {
                            lemma_repeat_stops_early(
                                p,
                                rem1,
                                tail,
                                fin,
                                (j - 1) as nat,
                                (k - 1) as nat,
                            );
                        },
                        None => {
                            assert(false);
                        },
                    }
                } else {
                    assert(false);
                }
            },
            Err(_) => {
                assert(false);
            },
        }
    }
}

/// Repetition boundary, upper side: on an input that offers at least `k`
/// repeated matches, `repeat_range(p, k, Some(k))` succeeds with exactly the
/// first `k` values and consumes exactly those `k` matches — an available
/// extra match is left unconsumed.
pub proof fn lemma_repeat_range_takes_exactly_bound(p: SpecParser, input: Seq<char>, k: usize)
    ensures
        iter_parse(p, input, k as nat) matches Some(r) ==> spec_parse(
            SpecParser::Repeat(Box::new(p), k, Some(k)),
            input,
        ) == Ok::<(SpecParseElement, Seq<char>), SpecParserError>(
            (SpecParseElement::List(r.0), r.1),
        ),
{
    lemma_repeat_hits_cap(p, input, k as nat);
}

/// Repetition boundary, lower side: on an input that offers only `j < k`
/// repeated matches, `repeat_range(p, k, Some(k))` fails with
/// `RepeatLower(k)` — an error that carries no remainder at all, so no
/// partial consumption is reported either.
pub proof fn lemma_repeat_range_lower_violation(
    p: SpecParser,
    input: Seq<char>,
    items: Seq<SpecParseElement>,
    rem: Seq<char>,
    j: nat,
    k: usize,
)
    requires
        iter_parse(p, input, j) == Some((items, rem)),
        spec_parse(p, rem) is Err,
        j < k,
    ensures
        spec_parse(SpecParser::Repeat(Box::new(p), k, Some(k)), input) == Err::<
            (SpecParseElement, Seq<char>),
            SpecParserError,
        >(SpecParserError::RepeatLower(k)),
{
    lemma_repeat_stops_early(p, input, items, rem, j, k as nat);
}

/// A successful parse leaves a suffix: the remainder is never longer than
/// the input. Stated for every parser and every input.
pub proof fn lemma_spec_parse_suffix(p: SpecParser, input: Seq<char>)
    ensures
        spec_parse(p, input) matches Ok(vr) ==> vr.1.len() <= input.len(),
    decreases input.len(), parser_rank(p), parser_size(p), 0int,
{
    match p {
        SpecParser::MatchLiteral(_) => {},
        SpecParser::AnyChar => {},
        SpecParser::Mapped(q, _) => {
            lemma_spec_parse_suffix(*q, input);
        },
        SpecParser::Pair(q1, q2) => {
            lemma_spec_parse_suffix(*q1, input);
            match spec_parse(*q1, input) {
                Ok((v1, rem1)) => {
                    if rem1.len() <= input.len() {
                        lemma_spec_parse_suffix(*q2, rem1);
                    }
                },
                Err(_) => {},
            }
        },
        SpecParser::Repeat(q, _, stop) => {
            let budget = match stop {
                Some(s) => Some(s as nat),
                None => None,
            };
            lemma_spec_repeat_suffix(*q, input, budget);
        },
        SpecParser::Predicate(q, _) => {
            lemma_spec_parse_suffix(*q, input);
        },
        SpecParser::AndThen(q, f) => {
            lemma_spec_parse_suffix(*q, input);
            match spec_parse(*q, input) {
                Ok((v, rem)) => {
                    if rem.len() <= input.len() {
                        let cont = spec_apply_chain(f, v);
                        assert(cont matches SpecParser::MatchLiteral(_));
                        assert(parser_rank(cont) == 0 && parser_size(cont) == 1);
                        assert(parser_size(*q) >= 1) by {
                            lemma_parser_size_at_least_one(*q);
                        }
                        lemma_spec_parse_suffix(cont, rem);
                    }
                },
                Err(_) => {},
            }
        },
        SpecParser::Either(q1, q2) => {
            lemma_spec_parse_suffix(*q1, input);
            lemma_spec_parse_suffix(*q2, input);
        },
        SpecParser::Not(_) => {},
        SpecParser::Optional(q) => {
            lemma_spec_parse_suffix(*q, input);
        },
    }
}

proof fn lemma_parser_size_at_least_one(p: SpecParser)
    ensures
        parser_size(p) >= 1,
{
}

/// Repetition leaves a suffix too.
pub proof fn lemma_spec_repeat_suffix(p: SpecParser, input: Seq<char>, remaining: Option<nat>)
    ensures
        spec_repeat(p, input, remaining).1.len() <= input.len(),
    decreases input.len(), parser_rank(p), parser_size(p), repeat_budget(remaining),
{
    match remaining {
        Some(r) => {
            if r > 0 {
                match spec_parse(p, input) {
                    Ok((v, rem)) => {
                        if rem.len() <= input.len() {
                            lemma_spec_repeat_suffix(p, rem, Some((r - 1) as nat));
                        }
                    },
                    Err(_) => {},
                }
            }
        },
        None => {
            match spec_parse(p, input) {
                Ok((v, rem)) => {
                    if rem.len() < input.len() {
                        lemma_spec_repeat_suffix(p, rem, None);
                    }
                },
                Err(_) => {},
            }
        },
    }
}

/// The capture indices a parsed tree holds, in document order — the
/// left-to-right order of the opening parentheses.
pub open spec fn expression_captures(e: SpecExpression) -> Seq<int>
    decreases e, 0int,
{
    subs_captures(e.alt.choices, 0)
}

pub open spec fn subs_captures(subs: Seq<SpecSubExpression>, i: int) -> Seq<int>
    decreases subs, subs.len() - i,
{
    if 0 <= i < subs.len() {
        sub_captures(subs[i]) + subs_captures(subs, i + 1)
    } else {
        Seq::empty()
    }
}

pub open spec fn sub_captures(s: SpecSubExpression) -> Seq<int>
    decreases s, 0int,
{
    qts_captures(s.tokens, 0)
}

pub open spec fn qts_captures(ts: Seq<SpecQuantifiedToken>, i: int) -> Seq<int>
    decreases ts, ts.len() - i,
{
    if 0 <= i < ts.len() {
        qt_captures(ts[i]) + qts_captures(ts, i + 1)
    } else {
        Seq::empty()
    }
}

pub open spec fn qt_captures(t: SpecQuantifiedToken) -> Seq<int>
    decreases t, 0int,
{
    match t {
        SpecQuantifiedToken::Singleton(tok) => token_captures(tok),
        SpecQuantifiedToken::Quantified(tok, _) => token_captures(tok),
    }
}

pub open spec fn token_captures(t: SpecToken) -> Seq<int>
    decreases t, 0int,
{
    match t {
        SpecToken::Group(g) => group_captures(g),
        _ => Seq::empty(),
    }
}

pub open spec fn group_captures(g: SpecGroup) -> Seq<int>
    decreases g, 0int,
{
    match g {
        SpecGroup::Capturing(n, e) => seq![n as int] + expression_captures(*e),
        SpecGroup::NonCapturing(e) => expression_captures(*e),
    }
}

/// The integers from `a` inclusive to `b` exclusive, in order.
pub open spec fn int_range(a: int, b: int) -> Seq<int> {
    Seq::new(
        if b >= a {
            (b - a) as nat
        } else {
            0
        },
        |i: int| a + i,
    )
}

proof fn lemma_subs_captures_shift(x: SpecSubExpression, t: Seq<SpecSubExpression>, i: int)
    requires
        0 <= i <= t.len(),
    ensures
        subs_captures(seq![x] + t, i + 1) == subs_captures(t, i),
    decreases t.len() - i,
{
    if i < t.len() {
        assert((seq![x] + t)[i + 1] == t[i]);
        lemma_subs_captures_shift(x, t, i + 1);
    }
}

proof fn lemma_subs_captures_cons(x: SpecSubExpression, t: Seq<SpecSubExpression>)
    ensures
        subs_captures(seq![x] + t, 0) == sub_captures(x) + subs_captures(t, 0),
{
    assert((seq![x] + t)[0] == x);
    lemma_subs_captures_shift(x, t, 0);
}

proof fn lemma_qts_captures_shift(x: SpecQuantifiedToken, t: Seq<SpecQuantifiedToken>, i: int)
    requires
        0 <= i <= t.len(),
    ensures
        qts_captures(seq![x] + t, i + 1) == qts_captures(t, i),
    decreases t.len() - i,
{
    if i < t.len() {
        assert((seq![x] + t)[i + 1] == t[i]);
        lemma_qts_captures_shift(x, t, i + 1);
    }
}

proof fn lemma_qts_captures_cons(x: SpecQuantifiedToken, t: Seq<SpecQuantifiedToken>)
    ensures
        qts_captures(seq![x] + t, 0) == qt_captures(x) + qts_captures(t, 0),
{
    assert((seq![x] + t)[0] == x);
    lemma_qts_captures_shift(x, t, 0);
}

proof fn lemma_char_literal_suffix(input: Seq<char>)
    ensures
        spec_char_literal(input) matches Ok(p) ==> p.1.len() < input.len(),
{
}

proof fn lemma_escape_set_suffix(input: Seq<char>)
    ensures
        spec_escape_set(input) matches Ok(p) ==> p.1.len() < input.len(),
{
    if input.len() >= 2 && input[0] == '\\' && spec_map_literal_charset(input[1]) is None
        && input.len() >= 3 && input[1] == 'P' && input[2] == '{' {
        let body = input.skip(3);
        if exists|i: int| first_close_brace(body, i) {
            let i = choose|i: int| first_close_brace(body, i);
            assert(0 <= i < body.len());
        }
    }
}

proof fn lemma_char_class_suffix(input: Seq<char>)
    ensures
        spec_char_class(input) matches Ok(p) ==> p.1.len() < input.len(),
{
}

proof fn lemma_indirect_suffix(input: Seq<char>)
    ensures
        spec_indirect(input) matches Ok(p) ==> p.1.len() < input.len(),
{
    lemma_char_class_suffix(input);
    lemma_escape_set_suffix(input);
}

/// Capturing numbering, token level: a parsed token's capture indices are
/// exactly the counter values it used up, in document order.
pub proof fn lemma_token_numbers_captures(input: Seq<char>, next: int)
    requires
        0 <= next,
        next + input.len() <= usize::MAX,
    ensures
        spec_token(input, next) matches Ok(t) ==> (next <= t.0.1 && t.0.1 <= next + input.len()
            - t.1.len() && token_captures(t.0.0) == int_range(next, t.0.1)),
    decreases input.len(), 3int,
{
    assert(int_range(next, next) =~= Seq::<int>::empty());
    match (if input.len() >= 1 {
        spec_map_anchor(input[0])
    } else {
        None
    }) {
        Some(_) => {},
        None => {
            lemma_group_numbers_captures(input, next);
            match spec_group(input, next) {
                Ok(_) => {},
                Err(_) => {
                    lemma_indirect_suffix(input);
                    lemma_char_literal_suffix(input);
                },
            }
        },
    }
}

/// Capturing numbering, group level: a capturing group takes the next index
/// itself and numbers its inner expression from the following one; a
/// non-capturing group is skipped by the counter.
pub proof fn lemma_group_numbers_captures(input: Seq<char>, next: int)
    requires
        0 <= next,
        next + input.len() <= usize::MAX,
    ensures
        spec_group(input, next) matches Ok(t) ==> (next <= t.0.1 && t.0.1 <= next + input.len()
            - t.1.len() && group_captures(t.0.0) == int_range(next, t.0.1)),
    decreases input.len(), 2int,
{
    if input.len() >= 1 && input[0] == '(' {
        let inner0 = input.skip(1);
        if inner0.len() >= 2 && inner0[0] == '?' && inner0[1] == ':' {
            lemma_expression_numbers_captures(inner0.skip(2), next);
        } else {
            lemma_expression_numbers_captures(inner0, next + 1);
            match spec_expression(inner0, next + 1) {
                Ok(((e, nx), rem)) => {
                    if rem.len() >= 1 && rem[0] == ')' {
                        assert(seq![next] + int_range(next + 1, nx) =~= int_range(next, nx));
                        assert((next as usize) as int == next);
                    }
                },
                Err(_) => {},
            }
        }
    }
}

/// Capturing numbering, quantified-token level: a quantifier adds no
/// captures of its own.
pub proof fn lemma_quantified_token_numbers_captures(input: Seq<char>, next: int)
    requires
        0 <= next,
        next + input.len() <= usize::MAX,
    ensures
        spec_quantified_token(input, next) matches Ok(t) ==> (next <= t.0.1 && t.0.1 <= next
            + input.len() - t.1.len() && qt_captures(t.0.0) == int_range(next, t.0.1)),
    decreases input.len(), 4int,
{
    lemma_token_numbers_captures(input, next);
    match spec_token(input, next) {
        Ok(((tok, nx), rem)) => {
            if rem.len() < input.len() {
                lemma_spec_parse_suffix(spec_quantifier_parser(), rem);
            }
        },
        Err(_) => {},
    }
}

/// Capturing numbering, across the rest of a sub-expression.
pub proof fn lemma_qt_rest_numbers_captures(input: Seq<char>, next: int)
    requires
        0 <= next,
        next + input.len() <= usize::MAX,
    ensures
        ({
            let ((tail, nx2), rem2) = spec_qt_rest(input, next);
            next <= nx2 && nx2 <= next + input.len() - rem2.len() && qts_captures(tail, 0)
                == int_range(next, nx2)
        }),
    decreases input.len(), 5int,
{
    assert(int_range(next, next) =~= Seq::<int>::empty());
    lemma_quantified_token_numbers_captures(input, next);
    match spec_quantified_token(input, next) {
        Ok(((qt, nx), rem)) => {
            if rem.len() < input.len() {
                lemma_qt_rest_numbers_captures(rem, nx);
                let ((tail, nx2), rem2) = spec_qt_rest(rem, nx);
                lemma_qts_captures_cons(qt, tail);
                assert(int_range(next, nx) + int_range(nx, nx2) =~= int_range(next, nx2));
            }
        },
        Err(_) => {},
    }
}

/// Capturing numbering, sub-expression level.
pub proof fn lemma_sub_expression_numbers_captures(input: Seq<char>, next: int)
    requires
        0 <= next,
        next + input.len() <= usize::MAX,
    ensures
        spec_sub_expression(input, next) matches Ok(t) ==> (next <= t.0.1 && t.0.1 <= next
            + input.len() - t.1.len() && sub_captures(t.0.0) == int_range(next, t.0.1)),
    decreases input.len(), 6int,
{
    lemma_quantified_token_numbers_captures(input, next);
    match spec_quantified_token(input, next) {
        Ok(((qt, nx), rem)) => {
            if rem.len() < input.len() {
                lemma_qt_rest_numbers_captures(rem, nx);
                let ((tail, nx2), rem2) = spec_qt_rest(rem, nx);
                lemma_qts_captures_cons(qt, tail);
                assert(int_range(next, nx) + int_range(nx, nx2) =~= int_range(next, nx2));
            }
        },
        Err(_) => {},
    }
}

/// Capturing numbering, across the remaining alternatives.
pub proof fn lemma_alt_rest_numbers_captures(input: Seq<char>, next: int)
    requires
        0 <= next,
        next + input.len() <= usize::MAX,
    ensures
        ({
            let ((tail, nx2), rem2) = spec_alt_rest(input, next);
            next <= nx2 && nx2 <= next + input.len() - rem2.len() && subs_captures(tail, 0)
                == int_range(next, nx2)
        }),
    decreases input.len(), 7int,
{
    assert(int_range(next, next) =~= Seq::<int>::empty());
    if input.len() >= 1 && input[0] == '|' {
        lemma_sub_expression_numbers_captures(input.skip(1), next);
        match spec_sub_expression(input.skip(1), next) {
            Ok(((sub, nx), rem)) => {
                if rem.len() < input.len() {
                    lemma_alt_rest_numbers_captures(rem, nx);
                    let ((tail, nx2), rem2) = spec_alt_rest(rem, nx);
                    lemma_subs_captures_cons(sub, tail);
                    assert(int_range(next, nx) + int_range(nx, nx2) =~= int_range(next, nx2));
                }
            },
            Err(_) => {},
        }
    }
}

/// Capturing numbering, the law itself: when a pattern parses as an
/// expression with the counter starting at `next`, the capture indices in
/// the resulting tree are exactly `next, next + 1, ...` up to the counter
/// the parse ended with, in document order. In particular they are unique,
/// and at the public entry point — which starts the counter at 1 — they are
/// `1, 2, ...` with the non-capturing groups skipped.
pub proof fn lemma_expression_numbers_captures(input: Seq<char>, next: int)
    requires
        0 <= next,
        next + input.len() <= usize::MAX,
    ensures
        spec_expression(input, next) matches Ok(t) ==> (next <= t.0.1 && t.0.1 <= next
            + input.len() - t.1.len() && expression_captures(t.0.0) == int_range(next, t.0.1)),
    decreases input.len(), 8int,
{
    lemma_sub_expression_numbers_captures(input, next);
    match spec_sub_expression(input, next) {
        Ok(((first, nx), rem)) => {
            if rem.len() < input.len() {
                lemma_alt_rest_numbers_captures(rem, nx);
                let ((tail, nx2), rem2) = spec_alt_rest(rem, nx);
                lemma_subs_captures_cons(first, tail);
                assert(int_range(next, nx) + int_range(nx, nx2) =~= int_range(next, nx2));
            }
        },
        Err(_) => {},
    }
}

} // verus!
