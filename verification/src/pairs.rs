//! The recognizer: from a text to the ordered pieces that the grammar finds
//! in it, each a labelled span of the text.
use crate::chars::{hex, Token};
use crate::error::ParseError;
use crate::grammar::{
    delimiter_rule, expected, may_follow, read_item, rule_at, run_end, scan_from,
    spec_may_follow, spec_parse, unit_len, SyntaxError,
};
use crate::grammar::is_did_text;
use crate::laws::{
    lemma_error_offset_counts_bytes, lemma_parses_iff_did_text, lemma_text_inverts_parse,
};
use crate::lemmas::{lemma_absorb, lemma_read_item_sound};
use crate::model::{prefix, DidValue, Item};
use vstd::prelude::*;
use vstd::utf8::encode_utf8;

verus! {

/// The characters of a text from `start` up to `end`, counted from 0.
#[derive(Clone, Copy, Debug, PartialEq, Eq)]
pub struct Span {
    pub start: usize,
    pub end: usize,
}

impl Span {
    /// Whether this span lies in a text of `len` characters.
    pub open spec fn in_bounds(self, len: int) -> bool {
        self.start <= self.end <= len
    }

    /// The characters of `t` that this span covers.
    pub open spec fn of(self, t: Seq<char>) -> Seq<char> {
        t.subrange(self.start as int, self.end as int)
    }
}

/// One piece that the recognizer found: the rule that matched, and where its
/// content stands in the text. The delimiter before the content belongs to
/// the piece but not to the span.
#[derive(Clone, Copy, Debug, PartialEq, Eq)]
pub enum Pair {
    Method(Span),
    IdSegment(Span),
    Param { name: Span, value: Option<Span> },
    PathSegment(Span),
    Query(Span),
    Fragment(Span),
}

impl Pair {
    /// Whether every span of this piece lies in a text of `len` characters.
    pub open spec fn in_bounds(self, len: int) -> bool {
        match self {
            Pair::Param { name, value } => name.in_bounds(len) && (value matches Some(v)
                ==> v.in_bounds(len)),
            Pair::Method(s)
            | Pair::IdSegment(s)
            | Pair::PathSegment(s)
            | Pair::Query(s)
            | Pair::Fragment(s) => s.in_bounds(len),
        }
    }

    /// What this piece holds, read from the text `t`.
    pub open spec fn item(self, t: Seq<char>) -> Item {
        match self {
            Pair::Method(s) => Item::Method(s.of(t)),
            Pair::IdSegment(s) => Item::IdSegment(s.of(t)),
            Pair::Param { name, value: Some(v) } => Item::Param(name.of(t), Some(v.of(t))),
            Pair::Param { name, value: None } => Item::Param(name.of(t), None),
            Pair::PathSegment(s) => Item::PathSegment(s.of(t)),
            Pair::Query(s) => Item::Query(s.of(t)),
            Pair::Fragment(s) => Item::Fragment(s.of(t)),
        }
    }

    /// Where this piece begins: at its delimiter, or for the method at its
    /// first character.
    pub open spec fn begin(self) -> int {
        match self {
            Pair::Method(s) => s.start as int,
            Pair::Param { name, .. } => name.start - 1,
            Pair::IdSegment(s) | Pair::PathSegment(s) | Pair::Query(s) | Pair::Fragment(s) => s.start
                - 1,
        }
    }

    /// Where this piece ends.
    pub open spec fn end(self) -> int {
        match self {
            Pair::Param { value: Some(v), .. } => v.end as int,
            Pair::Param { name, value: None } => name.end as int,
            Pair::Method(s)
            | Pair::IdSegment(s)
            | Pair::PathSegment(s)
            | Pair::Query(s)
            | Pair::Fragment(s) => s.end as int,
        }
    }

    /// Whether this piece sits in `t` as its rule says: from its beginning to
    /// its end the text is the delimiter and the content (for a parameter
    /// with a value: `;`, the name, `=`, the value), and the content is what
    /// the rule allows.
    pub open spec fn laid_out(self, t: Seq<char>) -> bool {
        &&& self.in_bounds(t.len() as int)
        &&& 0 <= self.begin()
        &&& t.subrange(self.begin(), self.end()) == self.item(t).text()
        &&& self.item(t).valid()
    }
}

/// Whether piece `i` begins where the piece before it ends, and may follow
/// it by the grammar.
pub open spec fn joins(pairs: Seq<Pair>, t: Seq<char>, i: int) -> bool {
    &&& pairs[i].begin() == pairs[i - 1].end()
    &&& spec_may_follow(pairs[i - 1].item(t).rule(), pairs[i].item(t).rule())
}

/// What a sequence of pieces amounts to when each is taken in, in order.
pub open spec fn assemble(items: Seq<Item>) -> DidValue
    decreases items.len(),
{
    if items.len() == 0 {
        DidValue::empty()
    } else {
        assemble(items.drop_last()).absorb(items.last())
    }
}

/// What the pieces `pairs` hold, read from the text `t`.
pub open spec fn items_of(pairs: Seq<Pair>, t: Seq<char>) -> Seq<Item> {
    Seq::new(pairs.len(), |i: int| pairs[i].item(t))
}

/// A text together with the pieces found in it.
#[derive(Clone, Debug, PartialEq, Eq)]
pub struct Pairs {
    pub text: Vec<char>,
    pub pairs: Vec<Pair>,
}

impl Pairs {
    /// Whether every span lies in the text.
    pub open spec fn in_bounds(&self) -> bool {
        forall|i: int|
            0 <= i < self.pairs.len() ==> (#[trigger] self.pairs[i]).in_bounds(
                self.text.len() as int,
            )
    }

    /// The value that the pieces amount to.
    pub open spec fn value(&self) -> DidValue {
        assemble(items_of(self.pairs@, self.text@))
    }

    /// Whether the pieces are a parse tree of the text: the method comes
    /// first, right after the prefix, each piece begins where the one
    /// before it ends, the last one ends with the text, each sits in the
    /// text as its rule says, and each may follow the one before it.
    pub open spec fn is_parse_tree(&self) -> bool {
        &&& self.text@.len() >= 4
        &&& self.text@.subrange(0, 4) == prefix()
        &&& self.pairs.len() >= 2
        &&& self.pairs[0] is Method
        &&& self.pairs[0].begin() == 4
        &&& self.pairs@.last().end() == self.text.len()
        &&& forall|i: int|
            0 <= i < self.pairs.len() ==> (#[trigger] self.pairs[i]).laid_out(self.text@)
        &&& forall|i: int| 0 < i < self.pairs.len() ==> #[trigger] joins(self.pairs@, self.text@, i)
    }
}

/// The characters of a string, in order.
pub fn chars_of(input: &str) -> (text: Vec<char>)
    ensures
        text@ == input@,
{
    let mut text: Vec<char> = Vec::new();
    let chars = input.chars();
    for c in iter: chars
        invariant
            text@ == iter.seq().take(iter.index() as int),
    {
        text.push(c);
    }
    text
}

/// Where the longest run of `rule` content that starts at `start` ends.
pub fn run(text: &Vec<char>, start: usize, rule: Token) -> (end: usize)
    requires
        start <= text.len(),
    ensures
        end == run_end(text@, start as int, rule),
        start <= end <= text.len(),
{
    let n = text.len();
    let mut p = start;
    loop
        invariant
            n == text.len(),
            start <= p <= n,
            run_end(text@, p as int, rule) == run_end(text@, start as int, rule),
        ensures
            unit_len(text@, p as int, rule) == 0,
        decreases n - p,
    {
        if p < n && rule.admits(text[p]) {
            p += 1;
        } else if rule.escapes() && n - p > 2 && text[p] == '%' && hex(text[p + 1]) && hex(
            text[p + 2],
        ) {
            p += 3;
        } else {
            break ;
        }
    }
    p
}

/// Whether `pairs` are the pieces of `t` up to `pos`: as in a parse tree,
/// but for the end, which is at `pos`.
pub open spec fn parsed_up_to(pairs: Seq<Pair>, t: Seq<char>, pos: int) -> bool {
    &&& if pairs.len() == 0 {
        pos == 4
    } else {
        pairs[0] is Method && pairs[0].begin() == 4 && pairs.last().end() == pos
    }
    &&& forall|i: int| 0 <= i < pairs.len() ==> (#[trigger] pairs[i]).laid_out(t)
    &&& forall|i: int| 0 < i < pairs.len() ==> #[trigger] joins(pairs, t, i)
}

/// The error of a text that stops matching at `offset`, where only `token`
/// would have been accepted.
pub fn expecting(offset: usize, token: Token) -> (e: ParseError)
    ensures
        e@ == (SyntaxError { offset: offset as int, expected: seq![token] }),
{
    let expected = vec![token];
    assert(expected@ =~= seq![token]);
    ParseError { offset, expected }
}

/// Whether the text opens with `did:`.
pub fn has_prefix(text: &Vec<char>) -> (b: bool)
    ensures
        b == (text@.len() >= 4 && text@.subrange(0, 4) == prefix()),
{
    if text.len() < 4 {
        return false;
    }
    let b = text[0] == 'd' && text[1] == 'i' && text[2] == 'd' && text[3] == ':';
    proof {
        let head = text@.subrange(0, 4);
        assert(head[0] == text[0] && head[1] == text[1] && head[2] == text[2] && head[3]
            == text[3]);
        if b {
            assert(head =~= prefix());
        } else {
            assert(prefix()[0] == 'd' && prefix()[1] == 'i' && prefix()[2] == 'd' && prefix()[3]
                == ':');
        }
    }
    b
}

/// Reads the piece of `rule` that starts at `pos`: its spans and where it
/// ends, or the error where its content is missing.
pub fn read_pair(text: &Vec<char>, pos: usize, rule: Token) -> (r: Result<(Pair, usize), ParseError>)
    requires
        rule is Method || pos < text.len(),
        pos <= text.len(),
    ensures
        match r {
            Ok((pair, end)) => read_item(text@, pos as int, rule) == Ok::<(Item, int), SyntaxError>(
                (pair.item(text@), end as int),
            ) && pair.begin() == pos && pair.end() == end && pair.in_bounds(text@.len() as int),
            Err(e) => read_item(text@, pos as int, rule) == Err::<(Item, int), SyntaxError>(e@),
        },
{
    let n = text.len();
    match rule {
        Token::Method => {
            let e = run(text, pos, Token::Method);
            if e == pos {
                return Err(expecting(pos, Token::Method));
            }
            Ok((Pair::Method(Span { start: pos, end: e }), e))
        },
        Token::Param => {
            let name_end = run(text, pos + 1, Token::ParamName);
            if name_end == pos + 1 {
                return Err(expecting(pos + 1, Token::ParamName));
            }
            let name = Span { start: pos + 1, end: name_end };
            if name_end < n && text[name_end] == '=' {
                let e = run(text, name_end + 1, Token::ParamValue);
                Ok((Pair::Param { name, value: Some(Span { start: name_end + 1, end: e }) }, e))
            } else {
                Ok((Pair::Param { name, value: None }, name_end))
            }
        },
        Token::PathSegment => {
            let e = run(text, pos + 1, Token::PathSegment);
            if e == pos + 1 {
                return Err(expecting(pos + 1, Token::PathSegment));
            }
            Ok((Pair::PathSegment(Span { start: pos + 1, end: e }), e))
        },
        Token::Query => {
            let e = run(text, pos + 1, Token::Query);
            Ok((Pair::Query(Span { start: pos + 1, end: e }), e))
        },
        Token::Fragment => {
            let e = run(text, pos + 1, Token::Fragment);
            Ok((Pair::Fragment(Span { start: pos + 1, end: e }), e))
        },
        _ => {
            let e = run(text, pos + 1, Token::IdSegment);
            Ok((Pair::IdSegment(Span { start: pos + 1, end: e }), e))
        },
    }
}

/// One more piece, read where the pieces so far end, keeps them the pieces
/// of the text up to where it ends, and their value takes it in.
proof fn lemma_push_pair(pairs: Seq<Pair>, t: Seq<char>, pos: int, pair: Pair, end: int)
    requires
        parsed_up_to(pairs, t, pos),
        4 <= pos,
        pairs.len() == 0 <==> assemble(items_of(pairs, t)).stage() is Prefix,
        pairs.len() > 0 ==> pairs.last().item(t).rule() == assemble(items_of(pairs, t)).stage(),
        spec_may_follow(
            assemble(items_of(pairs, t)).stage(),
            rule_at(t, pos, assemble(items_of(pairs, t)).stage()),
        ),
        rule_at(t, pos, assemble(items_of(pairs, t)).stage()) !is End,
        read_item(t, pos, rule_at(t, pos, assemble(items_of(pairs, t)).stage())) == Ok::<
            (Item, int),
            SyntaxError,
        >((pair.item(t), end)),
        pair.begin() == pos,
        pair.end() == end,
        pair.in_bounds(t.len() as int),
    ensures
        parsed_up_to(pairs.push(pair), t, end),
        pos < end <= t.len(),
        assemble(items_of(pairs.push(pair), t)) == assemble(items_of(pairs, t)).absorb(
            pair.item(t),
        ),
        assemble(items_of(pairs.push(pair), t)).stage() == pair.item(t).rule(),
        pair.item(t).rule() == rule_at(t, pos, assemble(items_of(pairs, t)).stage()),
        scan_from(t, pos, assemble(items_of(pairs, t))) == scan_from(
            t,
            end,
            assemble(items_of(pairs.push(pair), t)),
        ),
{
    let acc = assemble(items_of(pairs, t));
    let next = rule_at(t, pos, acc.stage());
    let item = pair.item(t);
    lemma_read_item_sound(t, pos, next);
    lemma_absorb(acc, item);
    let grown = pairs.push(pair);
    assert(items_of(grown, t).drop_last() =~= items_of(pairs, t));
    assert(items_of(grown, t).last() == item);
    assert(pair.laid_out(t));
    assert forall|i: int| 0 <= i < grown.len() implies (#[trigger] grown[i]).laid_out(t) by {
        if i < pairs.len() {
            assert(pairs[i].laid_out(t));
        }
    }
    assert forall|i: int| 0 < i < grown.len() implies #[trigger] joins(grown, t, i) by {
        if i < pairs.len() {
            assert(joins(pairs, t, i));
        }
    }
}

/// Recognizes a DID text: finds its pieces, in order, or the place where
/// the text stops being a DID.
///
/// The result is `Ok` exactly for the texts of well-formed values. The
/// pieces then tile the text, and amount to the value that the text
/// denotes. A text that is rejected gives the error that the grammar
/// assigns to it.
pub fn recognize(input: &str) -> (r: Result<Pairs, ParseError>)
    ensures
        match r {
            Ok(tree) => {
                &&& tree.text@ == input@
                &&& tree.is_parse_tree()
                &&& spec_parse(input@) == Ok::<DidValue, SyntaxError>(tree.value())
                &&& tree.value().well_formed()
                &&& tree.value().text() == input@
            },
            Err(e) => {
                &&& !is_did_text(input@)
                &&& spec_parse(input@) == Err::<DidValue, SyntaxError>(e@)
                &&& e.offset <= input@.len()
                &&& encode_utf8(input@.take(e.offset as int)).len() == e.offset
            },
        },
{
    let text = chars_of(input);
    let n = text.len();
    proof {
        lemma_parses_iff_did_text(input@);
        if spec_parse(input@) is Err {
            lemma_error_offset_counts_bytes(input@);
        }
    }
    if !has_prefix(&text) {
        return Err(expecting(0, Token::Prefix));
    }
    let mut pairs: Vec<Pair> = Vec::new();
    let mut pos: usize = 4;
    let mut stage = Token::Prefix;
    let mut valued = false;
    assert(items_of(pairs@, text@) =~= Seq::empty());
    loop
        invariant
            n == text.len(),
            text@ == input@,
            4 <= pos <= n,
            stage == assemble(items_of(pairs@, text@)).stage(),
            stage is Prefix <==> pairs.len() == 0,
            pairs.len() > 0 ==> pairs@.last().item(text@).rule() == stage,
            pairs.len() > 0 ==> valued == (pairs@.last() matches Pair::Param { value: Some(_), .. }),
            spec_parse(text@) == scan_from(text@, pos as int, assemble(items_of(pairs@, text@))),
            parsed_up_to(pairs@, text@, pos as int),
        ensures
            pos == n,
            spec_may_follow(stage, Token::End),
            stage == assemble(items_of(pairs@, text@)).stage(),
            pairs.len() > 0 ==> pairs@.last().item(text@).rule() == stage,
            parsed_up_to(pairs@, text@, pos as int),
            spec_parse(text@) == Ok::<DidValue, SyntaxError>(assemble(items_of(pairs@, text@))),
        decreases n - pos,
    {
        let ghost acc = assemble(items_of(pairs@, text@));
        let next = if matches!(stage, Token::Prefix) {
            Token::Method
        } else if pos >= n {
            Token::End
        } else {
            delimiter_rule(text[pos])
        };
        assert(next == rule_at(text@, pos as int, stage));
        if !may_follow(stage, next) {
            proof {
                lemma_parses_iff_did_text(input@);
                if pairs.len() > 0 {
                    lemma_last_param(pairs@, text@);
                }
                lemma_error_offset_counts_bytes(input@);
            }
            return Err(ParseError { offset: pos, expected: expected(stage, valued) });
        }
        if matches!(next, Token::End) {
            break ;
        }
        match read_pair(&text, pos, next) {
            Err(e) => {
                proof {
                    lemma_parses_iff_did_text(input@);
                    lemma_error_offset_counts_bytes(input@);
                }
                return Err(e);
            },
            Ok((pair, end)) => {
                proof {
                    lemma_push_pair(pairs@, text@, pos as int, pair, end as int);
                }
                valued = matches!(pair, Pair::Param { value: Some(_), .. });
                pairs.push(pair);
                pos = end;
                stage = next;
            },
        }
    }
    proof {
        lemma_text_inverts_parse(text@);
    }
    Ok(Pairs { text, pairs })
}

/// The last parameter of the value that pieces amount to is the one that
/// the last piece holds, where that is a parameter.
proof fn lemma_last_param(pairs: Seq<Pair>, t: Seq<char>)
    requires
        pairs.len() > 0,
    ensures
        pairs.last().item(t) matches Item::Param(n, v) ==> {
            let acc = assemble(items_of(pairs, t));
            acc.params.len() > 0 && acc.params.last() == (n, v)
        },
{
    assert(items_of(pairs, t).last() == pairs.last().item(t));
}

} // verus!
