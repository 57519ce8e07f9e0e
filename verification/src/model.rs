//! The mathematical model of a DID: its fields as sequences of characters,
//! what makes them well formed, and the text that renders them.
use crate::chars::{is_hex, Token};
use vstd::prelude::*;

verus! {

/// The literal that opens every DID text.
pub open spec fn prefix() -> Seq<char> {
    seq!['d', 'i', 'd', ':']
}

/// Whether position `i` of `s` is accounted for as content of `rule`: the
/// character there is admitted by itself, or it is a `%` that `s` follows
/// with two hexadecimal digits, where the rule has percent-encoding.
pub open spec fn unit_ok(rule: Token, s: Seq<char>, i: int) -> bool {
    rule.admits(s[i]) || (rule.escapes() && s[i] == '%' && i + 2 < s.len() && is_hex(s[i + 1])
        && is_hex(s[i + 2]))
}

/// Whether `s` is content of `rule`: a sequence of admitted characters and,
/// where the rule has them, percent-encoded triplets.
pub open spec fn is_content(rule: Token, s: Seq<char>) -> bool {
    forall|i: int| 0 <= i < s.len() ==> #[trigger] unit_ok(rule, s, i)
}

/// Whether a parameter's name and value are well formed: the name is a
/// non-empty run of identifier characters, the value (if any) is content of
/// a parameter value.
pub open spec fn param_ok(p: (Seq<char>, Option<Seq<char>>)) -> bool {
    &&& p.0.len() >= 1
    &&& is_content(Token::ParamName, p.0)
    &&& p.1 matches Some(v) ==> is_content(Token::ParamValue, v)
}

/// One piece of a DID text, by what it holds.
pub enum Item {
    /// The method name.
    Method(Seq<char>),
    /// An identifier segment, without its `:`.
    IdSegment(Seq<char>),
    /// A parameter: its name, and its value where it has one.
    Param(Seq<char>, Option<Seq<char>>),
    /// A path segment, without its `/`.
    PathSegment(Seq<char>),
    /// The query, without its `?`.
    Query(Seq<char>),
    /// The fragment, without its `#`.
    Fragment(Seq<char>),
}

impl Item {
    /// The rule that this piece is an instance of.
    pub open spec fn rule(self) -> Token {
        match self {
            Item::Method(_) => Token::Method,
            Item::IdSegment(_) => Token::IdSegment,
            Item::Param(_, _) => Token::Param,
            Item::PathSegment(_) => Token::PathSegment,
            Item::Query(_) => Token::Query,
            Item::Fragment(_) => Token::Fragment,
        }
    }

    /// The rule of the content that ends this piece.
    pub open spec fn last_rule(self) -> Token {
        match self {
            Item::Param(_, None) => Token::ParamName,
            Item::Param(_, Some(_)) => Token::ParamValue,
            _ => self.rule(),
        }
    }

    /// Whether the content of this piece is what its rule allows.
    pub open spec fn valid(self) -> bool {
        match self {
            Item::Method(m) => m.len() >= 1 && is_content(Token::Method, m),
            Item::IdSegment(s) => is_content(Token::IdSegment, s),
            Item::Param(n, v) => param_ok((n, v)),
            Item::PathSegment(s) => s.len() >= 1 && is_content(Token::PathSegment, s),
            Item::Query(q) => is_content(Token::Query, q),
            Item::Fragment(_) => true,
        }
    }

    /// The text of this piece: its delimiter, then its content.
    pub open spec fn text(self) -> Seq<char> {
        match self {
            Item::Method(m) => m,
            Item::IdSegment(s) => seq![':'] + s,
            Item::Param(n, None) => seq![';'] + n,
            Item::Param(n, Some(v)) => seq![';'] + n + seq!['='] + v,
            Item::PathSegment(s) => seq!['/'] + s,
            Item::Query(q) => seq!['?'] + q,
            Item::Fragment(f) => seq!['#'] + f,
        }
    }
}

/// The identifier segments, each after a `:`.
pub open spec fn segments_text(segments: Seq<Seq<char>>) -> Seq<char>
    decreases segments.len(),
{
    if segments.len() == 0 {
        Seq::empty()
    } else {
        segments_text(segments.drop_last()) + Item::IdSegment(segments.last()).text()
    }
}

/// The parameters, each after a `;`, a value after `=`.
pub open spec fn params_text(params: Seq<(Seq<char>, Option<Seq<char>>)>) -> Seq<char>
    decreases params.len(),
{
    if params.len() == 0 {
        Seq::empty()
    } else {
        params_text(params.drop_last()) + Item::Param(params.last().0, params.last().1).text()
    }
}

/// The path segments, each after a `/`.
pub open spec fn path_text(segments: Seq<Seq<char>>) -> Seq<char>
    decreases segments.len(),
{
    if segments.len() == 0 {
        Seq::empty()
    } else {
        path_text(segments.drop_last()) + Item::PathSegment(segments.last()).text()
    }
}

/// The query after a `?`, or nothing.
pub open spec fn query_text(query: Option<Seq<char>>) -> Seq<char> {
    match query {
        Some(q) => Item::Query(q).text(),
        None => Seq::empty(),
    }
}

/// The fragment after a `#`, or nothing.
pub open spec fn fragment_text(fragment: Option<Seq<char>>) -> Seq<char> {
    match fragment {
        Some(f) => Item::Fragment(f).text(),
        None => Seq::empty(),
    }
}

/// A DID as a mathematical value. Two DIDs are equal exactly when all six
/// fields are equal.
pub struct DidValue {
    pub method: Seq<char>,
    pub id_segments: Seq<Seq<char>>,
    pub params: Seq<(Seq<char>, Option<Seq<char>>)>,
    pub path_segments: Seq<Seq<char>>,
    pub query: Option<Seq<char>>,
    pub fragment: Option<Seq<char>>,
}

impl DidValue {
    /// The value with nothing in it.
    pub open spec fn empty() -> DidValue {
        DidValue {
            method: Seq::empty(),
            id_segments: Seq::empty(),
            params: Seq::empty(),
            path_segments: Seq::empty(),
            query: None,
            fragment: None,
        }
    }

    /// Whether every field that is present holds what the grammar allows
    /// there. Says nothing on whether the method and a segment are present.
    pub open spec fn parts_valid(self) -> bool {
        &&& is_content(Token::Method, self.method)
        &&& forall|i: int|
            0 <= i < self.id_segments.len() ==> is_content(
                Token::IdSegment,
                #[trigger] self.id_segments[i],
            )
        &&& forall|i: int| 0 <= i < self.params.len() ==> param_ok(#[trigger] self.params[i])
        &&& forall|i: int|
            0 <= i < self.path_segments.len() ==> (#[trigger] self.path_segments[i]).len() >= 1
                && is_content(Token::PathSegment, self.path_segments[i])
        &&& self.query matches Some(q) ==> is_content(Token::Query, q)
    }

    /// Whether the pieces held came in grammar order from the start: no
    /// piece without a method, and nothing after the method without an
    /// identifier segment.
    pub open spec fn grown(self) -> bool {
        &&& self.stage() !is Prefix ==> self.method.len() >= 1
        &&& (self.stage() !is Prefix && self.stage() !is Method) ==> self.id_segments.len() >= 1
    }

    /// Whether this value is one that the grammar describes: a non-empty
    /// method, at least one identifier segment, and every field valid.
    pub open spec fn well_formed(self) -> bool {
        &&& self.method.len() >= 1
        &&& self.id_segments.len() >= 1
        &&& self.parts_valid()
    }

    /// The canonical text of this value: `did:`, the method, the segments
    /// (a lone `:` where there is none), the parameters, the path, the query
    /// and the fragment.
    pub open spec fn text(self) -> Seq<char> {
        prefix() + self.method + (if self.id_segments.len() == 0 {
            seq![':']
        } else {
            segments_text(self.id_segments)
        }) + params_text(self.params) + path_text(self.path_segments) + query_text(self.query)
            + fragment_text(self.fragment)
    }

    /// The text of the pieces that this value holds, in grammar order, with
    /// nothing put in for a piece that is absent.
    pub open spec fn body(self) -> Seq<char> {
        prefix() + self.method + segments_text(self.id_segments) + params_text(self.params)
            + path_text(self.path_segments) + query_text(self.query) + fragment_text(
            self.fragment,
        )
    }

    /// The rule of the last piece that this value holds, in grammar order;
    /// `Prefix` where it holds none.
    pub open spec fn stage(self) -> Token {
        if self.fragment is Some {
            Token::Fragment
        } else if self.query is Some {
            Token::Query
        } else if self.path_segments.len() > 0 {
            Token::PathSegment
        } else if self.params.len() > 0 {
            Token::Param
        } else if self.id_segments.len() > 0 {
            Token::IdSegment
        } else if self.method.len() > 0 {
            Token::Method
        } else {
            Token::Prefix
        }
    }

    /// This value with one more piece: a method, query or fragment replaces
    /// the one held, a segment or parameter goes to the end of its list.
    pub open spec fn absorb(self, item: Item) -> DidValue {
        match item {
            Item::Method(m) => DidValue { method: m, ..self },
            Item::IdSegment(s) => DidValue { id_segments: self.id_segments.push(s), ..self },
            Item::Param(n, v) => DidValue { params: self.params.push((n, v)), ..self },
            Item::PathSegment(s) => DidValue {
                path_segments: self.path_segments.push(s),
                ..self
            },
            Item::Query(q) => DidValue { query: Some(q), ..self },
            Item::Fragment(f) => DidValue { fragment: Some(f), ..self },
        }
    }
}

} // verus!
