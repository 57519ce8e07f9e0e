//! Character classes of the DID grammar, and the categories of text it names.
use vstd::prelude::*;

verus! {

/// A category of text in the grammar. The categories serve three purposes:
/// they label what a syntax error expected, they name the rule of each piece
/// of a parsed text, and those with content fix which characters the content
/// may hold.
#[derive(Clone, Copy, Debug, PartialEq, Eq, Hash, Structural)]
pub enum Token {
    /// The literal `did:` that opens every DID.
    Prefix,
    /// The method name: lowercase letters and digits.
    Method,
    /// One segment of the method-specific identifier, with the `:` before it.
    IdSegment,
    /// A parameter, with the `;` before it.
    Param,
    /// The name of a parameter.
    ParamName,
    /// The value of a parameter, with the `=` before it.
    ParamValue,
    /// One segment of the path, with the `/` before it.
    PathSegment,
    /// The query, with the `?` before it.
    Query,
    /// The fragment, with the `#` before it.
    Fragment,
    /// The end of the text.
    End,
}

/// A lowercase ASCII letter.
pub open spec fn is_lower(c: char) -> bool {
    'a' <= c <= 'z'
}

/// An uppercase ASCII letter.
pub open spec fn is_upper(c: char) -> bool {
    'A' <= c <= 'Z'
}

/// An ASCII digit.
pub open spec fn is_digit(c: char) -> bool {
    '0' <= c <= '9'
}

/// A hexadecimal digit, in either case.
pub open spec fn is_hex(c: char) -> bool {
    is_digit(c) || 'a' <= c <= 'f' || 'A' <= c <= 'F'
}

/// A letter, a digit, or one of `.`, `-`, `_`.
pub open spec fn is_idchar(c: char) -> bool {
    is_lower(c) || is_upper(c) || is_digit(c) || c == '.' || c == '-' || c == '_'
}

impl Token {
    /// Whether the character `c`, by itself, may stand in the content of this
    /// rule. Rules without content admit nothing.
    pub open spec fn spec_admits(self, c: char) -> bool {
        match self {
            Token::Method => is_lower(c) || is_digit(c),
            Token::IdSegment | Token::ParamName | Token::ParamValue => is_idchar(c),
            Token::PathSegment => is_idchar(c) || c == ':',
            Token::Query => c != '#',
            Token::Fragment => true,
            Token::Prefix | Token::Param | Token::End => false,
        }
    }

    /// Whether the content of this rule may hold percent-encoded triplets
    /// (`%` and two hexadecimal digits).
    pub open spec fn spec_escapes(self) -> bool {
        self is IdSegment || self is ParamValue || self is PathSegment
    }

    /// Whether the character `c`, by itself, may stand in the content of this
    /// rule.
    #[verifier::when_used_as_spec(spec_admits)]
    pub fn admits(self, c: char) -> (b: bool)
        ensures
            b == self.spec_admits(c),
    {
        match self {
            Token::Method => lower(c) || digit(c),
            Token::IdSegment | Token::ParamName | Token::ParamValue => idchar(c),
            Token::PathSegment => idchar(c) || c == ':',
            Token::Query => c != '#',
            Token::Fragment => true,
            Token::Prefix | Token::Param | Token::End => false,
        }
    }

    /// Whether the content of this rule may hold percent-encoded triplets.
    #[verifier::when_used_as_spec(spec_escapes)]
    pub fn escapes(self) -> (b: bool)
        ensures
            b == self.spec_escapes(),
    {
        match self {
            Token::IdSegment | Token::ParamValue | Token::PathSegment => true,
            _ => false,
        }
    }
}

/// Whether `c` is a lowercase ASCII letter.
#[verifier::when_used_as_spec(is_lower)]
pub fn lower(c: char) -> (b: bool)
    ensures
        b == is_lower(c),
{
    'a' <= c && c <= 'z'
}

/// Whether `c` is an ASCII digit.
#[verifier::when_used_as_spec(is_digit)]
pub fn digit(c: char) -> (b: bool)
    ensures
        b == is_digit(c),
{
    '0' <= c && c <= '9'
}

/// Whether `c` is a hexadecimal digit, in either case.
#[verifier::when_used_as_spec(is_hex)]
pub fn hex(c: char) -> (b: bool)
    ensures
        b == is_hex(c),
{
    digit(c) || ('a' <= c && c <= 'f') || ('A' <= c && c <= 'F')
}

/// Whether `c` is a letter, a digit, or one of `.`, `-`, `_`.
#[verifier::when_used_as_spec(is_idchar)]
pub fn idchar(c: char) -> (b: bool)
    ensures
        b == is_idchar(c),
{
    lower(c) || ('A' <= c && c <= 'Z') || digit(c) || c == '.' || c == '-' || c == '_'
}

} // verus!
