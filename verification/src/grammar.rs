//! The DID grammar as a function on text: which texts are DIDs, what each
//! one parses to, and where and why the others are rejected.
use crate::chars::{is_hex, Token};
use crate::model::{prefix, DidValue, Item};
use vstd::prelude::*;

verus! {

/// Why a text is not a DID: the position at which no rule of the grammar
/// could go on, and the categories of text that would have been accepted
/// there. Every character before `offset` is ASCII, so `offset` counts bytes
/// as well as characters.
pub struct SyntaxError {
    pub offset: int,
    pub expected: Seq<Token>,
}

/// The length of the unit of `rule` content that starts at `p`: 1 for an
/// admitted character, 3 for a percent-encoded triplet, 0 where there is
/// neither.
pub open spec fn unit_len(t: Seq<char>, p: int, rule: Token) -> int {
    if 0 <= p < t.len() && rule.admits(t[p]) {
        1
    } else if rule.escapes() && 0 <= p && p + 2 < t.len() && t[p] == '%' && is_hex(t[p + 1])
        && is_hex(t[p + 2]) {
        3
    } else {
        0
    }
}

/// Where the longest run of `rule` content that starts at `p` ends.
pub open spec fn run_end(t: Seq<char>, p: int, rule: Token) -> int
    decreases t.len() - p,
{
    if unit_len(t, p, rule) > 0 {
        run_end(t, p + unit_len(t, p, rule), rule)
    } else {
        p
    }
}

/// Whether a piece of rule `next` may come directly after one of rule `prev`
/// (`Prefix`: at the start; `End`: the text may end here).
pub open spec fn spec_may_follow(prev: Token, next: Token) -> bool {
    match next {
        Token::Method => prev is Prefix,
        Token::IdSegment => prev is Method || prev is IdSegment,
        Token::Param => prev is IdSegment || prev is Param,
        Token::PathSegment | Token::Query => prev is IdSegment || prev is Param
            || prev is PathSegment,
        Token::Fragment => prev is IdSegment || prev is Param || prev is PathSegment
            || prev is Query,
        Token::End => prev is IdSegment || prev is Param || prev is PathSegment || prev is Query
            || prev is Fragment,
        _ => false,
    }
}

/// The rule of the piece that the delimiter `c` opens; `Prefix` where `c`
/// opens none.
pub open spec fn spec_delimiter_rule(c: char) -> Token {
    if c == ':' {
        Token::IdSegment
    } else if c == ';' {
        Token::Param
    } else if c == '/' {
        Token::PathSegment
    } else if c == '?' {
        Token::Query
    } else if c == '#' {
        Token::Fragment
    } else {
        Token::Prefix
    }
}

/// The rule whose piece starts at `p`: the method right after the prefix,
/// `End` at the end of the text, and else what the delimiter at `p` says.
pub open spec fn rule_at(t: Seq<char>, p: int, prev: Token) -> Token {
    if prev is Prefix {
        Token::Method
    } else if p >= t.len() {
        Token::End
    } else {
        spec_delimiter_rule(t[p])
    }
}

/// What would have been accepted where the text stops matching after a
/// piece of rule `stage`: more of that piece, a piece that may follow it, or
/// the end of the text. After a parameter, `valued` says whether it has a
/// value. After a query or a fragment a text never stops matching (a query
/// takes everything up to `#`, a fragment everything); the lists given for
/// them say what the grammar accepts there all the same.
pub open spec fn spec_expected(stage: Token, valued: bool) -> Seq<Token> {
    match stage {
        Token::Prefix => seq![Token::Method],
        Token::Method => seq![Token::Method, Token::IdSegment],
        Token::IdSegment => seq![
            Token::IdSegment,
            Token::Param,
            Token::PathSegment,
            Token::Query,
            Token::Fragment,
            Token::End,
        ],
        Token::Param => if valued {
            seq![
                Token::ParamValue,
                Token::Param,
                Token::PathSegment,
                Token::Query,
                Token::Fragment,
                Token::End,
            ]
        } else {
            seq![
                Token::ParamName,
                Token::ParamValue,
                Token::Param,
                Token::PathSegment,
                Token::Query,
                Token::Fragment,
                Token::End,
            ]
        },
        Token::PathSegment => seq![
            Token::PathSegment,
            Token::Query,
            Token::Fragment,
            Token::End,
        ],
        Token::Query => seq![Token::Query, Token::Fragment, Token::End],
        _ => seq![Token::Fragment, Token::End],
    }
}

/// What would have been accepted where the text stops matching after the
/// pieces in `acc`.
pub open spec fn expected_after(acc: DidValue) -> Seq<Token> {
    spec_expected(acc.stage(), acc.params.len() > 0 && acc.params.last().1 is Some)
}

/// The piece of `rule` that starts at `p` (at its delimiter; the method has
/// none) together with the position where it ends, or the error where its
/// content is missing. Content is always the longest run that matches. The
/// parse asks only for the six rules of pieces; any other rule is read as an
/// identifier segment.
pub open spec fn read_item(t: Seq<char>, p: int, rule: Token) -> Result<(Item, int), SyntaxError> {
    match rule {
        Token::Method => {
            let e = run_end(t, p, Token::Method);
            if e == p {
                Err(SyntaxError { offset: p, expected: seq![Token::Method] })
            } else {
                Ok((Item::Method(t.subrange(p, e)), e))
            }
        },
        Token::Param => {
            let n = run_end(t, p + 1, Token::ParamName);
            if n == p + 1 {
                Err(SyntaxError { offset: p + 1, expected: seq![Token::ParamName] })
            } else if n < t.len() && t[n] == '=' {
                let v = run_end(t, n + 1, Token::ParamValue);
                Ok((Item::Param(t.subrange(p + 1, n), Some(t.subrange(n + 1, v))), v))
            } else {
                Ok((Item::Param(t.subrange(p + 1, n), None), n))
            }
        },
        Token::PathSegment => {
            let e = run_end(t, p + 1, Token::PathSegment);
            if e == p + 1 {
                Err(SyntaxError { offset: p + 1, expected: seq![Token::PathSegment] })
            } else {
                Ok((Item::PathSegment(t.subrange(p + 1, e)), e))
            }
        },
        Token::Query => {
            let e = run_end(t, p + 1, Token::Query);
            Ok((Item::Query(t.subrange(p + 1, e)), e))
        },
        Token::Fragment => {
            let e = run_end(t, p + 1, Token::Fragment);
            Ok((Item::Fragment(t.subrange(p + 1, e)), e))
        },
        _ => {
            let e = run_end(t, p + 1, Token::IdSegment);
            Ok((Item::IdSegment(t.subrange(p + 1, e)), e))
        },
    }
}

/// A run of content stays inside the text.
pub proof fn lemma_run_end_bounds(t: Seq<char>, p: int, rule: Token)
    requires
        0 <= p <= t.len(),
    ensures
        p <= run_end(t, p, rule) <= t.len(),
    decreases t.len() - p,
{
    if unit_len(t, p, rule) > 0 {
        lemma_run_end_bounds(t, p + unit_len(t, p, rule), rule);
    }
}

/// A piece that is read ends after the position where it starts, inside the
/// text.
pub proof fn lemma_read_item_advances(t: Seq<char>, p: int, rule: Token)
    requires
        0 <= p,
        rule is Method || p < t.len(),
    ensures
        read_item(t, p, rule) matches Ok((_, end)) ==> p < end <= t.len(),
{
    if p <= t.len() {
        lemma_run_end_bounds(t, p, Token::Method);
    }
    if p < t.len() {
        lemma_run_end_bounds(t, p + 1, Token::IdSegment);
        lemma_run_end_bounds(t, p + 1, Token::ParamName);
        lemma_run_end_bounds(t, p + 1, Token::PathSegment);
        lemma_run_end_bounds(t, p + 1, Token::Query);
        lemma_run_end_bounds(t, p + 1, Token::Fragment);
        let n = run_end(t, p + 1, Token::ParamName);
        if n < t.len() {
            lemma_run_end_bounds(t, n + 1, Token::ParamValue);
        }
    }
}

/// The parse of `t` from position `p` on, where the pieces before `p` have
/// made up `acc`.
pub open spec fn scan_from(t: Seq<char>, p: int, acc: DidValue) -> Result<DidValue, SyntaxError>
    decreases t.len() - p,
    when 0 <= p
{
    let next = rule_at(t, p, acc.stage());
    if !spec_may_follow(acc.stage(), next) {
        Err(SyntaxError { offset: p, expected: expected_after(acc) })
    } else if next is End {
        Ok(acc)
    } else {
        match read_item(t, p, next) {
            Ok((item, end)) => {
                proof {
                    lemma_read_item_advances(t, p, next);
                }
                scan_from(t, end, acc.absorb(item))
            },
            Err(e) => Err(e),
        }
    }
}

/// What parsing the text `t` gives: the DID that it denotes, or the place
/// where it stops being one.
pub open spec fn spec_parse(t: Seq<char>) -> Result<DidValue, SyntaxError> {
    if t.len() >= 4 && t.subrange(0, 4) == prefix() {
        scan_from(t, 4, DidValue::empty())
    } else {
        Err(SyntaxError { offset: 0, expected: seq![Token::Prefix] })
    }
}

/// Whether `t` is the text of some well-formed DID.
pub open spec fn is_did_text(t: Seq<char>) -> bool {
    exists|d: DidValue| d.well_formed() && #[trigger] d.text() == t
}

/// Whether a piece of rule `next` may come directly after one of rule
/// `prev`.
#[verifier::when_used_as_spec(spec_may_follow)]
pub fn may_follow(prev: Token, next: Token) -> (b: bool)
    ensures
        b == spec_may_follow(prev, next),
{
    match next {
        Token::Method => matches!(prev, Token::Prefix),
        Token::IdSegment => matches!(prev, Token::Method | Token::IdSegment),
        Token::Param => matches!(prev, Token::IdSegment | Token::Param),
        Token::PathSegment | Token::Query => matches!(
            prev,
            Token::IdSegment | Token::Param | Token::PathSegment
        ),
        Token::Fragment => matches!(
            prev,
            Token::IdSegment | Token::Param | Token::PathSegment | Token::Query
        ),
        Token::End => matches!(
            prev,
            Token::IdSegment | Token::Param | Token::PathSegment | Token::Query | Token::Fragment
        ),
        _ => false,
    }
}

/// The rule of the piece that the delimiter `c` opens; `Prefix` where `c`
/// opens none.
#[verifier::when_used_as_spec(spec_delimiter_rule)]
pub fn delimiter_rule(c: char) -> (rule: Token)
    ensures
        rule == spec_delimiter_rule(c),
{
    if c == ':' {
        Token::IdSegment
    } else if c == ';' {
        Token::Param
    } else if c == '/' {
        Token::PathSegment
    } else if c == '?' {
        Token::Query
    } else if c == '#' {
        Token::Fragment
    } else {
        Token::Prefix
    }
}

/// What would have been accepted where the text stops matching after a
/// piece of rule `stage`; after a parameter, `valued` says whether it has a
/// value.
pub fn expected(stage: Token, valued: bool) -> (tokens: Vec<Token>)
    ensures
        tokens@ == spec_expected(stage, valued),
{
    match stage {
        Token::Prefix => vec![Token::Method],
        Token::Method => vec![Token::Method, Token::IdSegment],
        Token::IdSegment => vec![
            Token::IdSegment,
            Token::Param,
            Token::PathSegment,
            Token::Query,
            Token::Fragment,
            Token::End,
        ],
        Token::Param => if valued {
            vec![
                Token::ParamValue,
                Token::Param,
                Token::PathSegment,
                Token::Query,
                Token::Fragment,
                Token::End,
            ]
        } else {
            vec![
                Token::ParamName,
                Token::ParamValue,
                Token::Param,
                Token::PathSegment,
                Token::Query,
                Token::Fragment,
                Token::End,
            ]
        },
        Token::PathSegment => vec![
            Token::PathSegment,
            Token::Query,
            Token::Fragment,
            Token::End,
        ],
        Token::Query => vec![Token::Query, Token::Fragment, Token::End],
        _ => vec![Token::Fragment, Token::End],
    }
}

} // verus!
