//! Lemmas that relate the grammar's parse to the text of a value.
use crate::chars::{is_hex, Token};
use crate::grammar::{
    lemma_read_item_advances, lemma_run_end_bounds, read_item, rule_at, run_end, scan_from,
    spec_delimiter_rule, spec_may_follow, unit_len,
};
use crate::model::{
    is_content, params_text, path_text, prefix, segments_text, unit_ok, DidValue, Item,
};
use vstd::prelude::*;
use vstd::utf8::is_ascii_chars;

verus! {

/// Content followed by content is content.
pub proof fn lemma_content_concat(rule: Token, a: Seq<char>, b: Seq<char>)
    requires
        is_content(rule, a),
        is_content(rule, b),
    ensures
        is_content(rule, a + b),
{
    let s = a + b;
    assert forall|i: int| 0 <= i < s.len() implies #[trigger] unit_ok(rule, s, i) by {
        if i < a.len() {
            assert(unit_ok(rule, a, i));
        } else {
            assert(unit_ok(rule, b, i - a.len()));
        }
    }
}

/// What a run covers is content of its rule.
pub proof fn lemma_run_content(t: Seq<char>, p: int, rule: Token)
    requires
        0 <= p <= t.len(),
    ensures
        is_content(rule, t.subrange(p, run_end(t, p, rule))),
        p <= run_end(t, p, rule) <= t.len(),
    decreases t.len() - p,
{
    lemma_run_end_bounds(t, p, rule);
    let u = unit_len(t, p, rule);
    let e = run_end(t, p, rule);
    if u > 0 {
        lemma_run_content(t, p + u, rule);
        lemma_run_end_bounds(t, p + u, rule);
        let head = t.subrange(p, p + u);
        let tail = t.subrange(p + u, e);
        assert forall|i: int| 0 <= i < head.len() implies #[trigger] unit_ok(rule, head, i) by {
            if u == 3 {
                assert(head[0] == '%' && is_hex(head[1]) && is_hex(head[2]));
                assert(rule.admits(head[1]) && rule.admits(head[2]));
            }
        }
        lemma_content_concat(rule, head, tail);
        assert(t.subrange(p, e) =~= head + tail);
    } else {
        assert(t.subrange(p, e) =~= Seq::<char>::empty());
    }
}

/// A run that starts on content ends where the content does, provided no
/// unit of content starts there.
pub proof fn lemma_run_exact(t: Seq<char>, p: int, e: int, rule: Token)
    requires
        0 <= p <= e <= t.len(),
        is_content(rule, t.subrange(p, e)),
        unit_len(t, e, rule) == 0,
    ensures
        run_end(t, p, rule) == e,
    decreases e - p,
{
    if p < e {
        let s = t.subrange(p, e);
        assert(unit_ok(rule, s, 0));
        let u = unit_len(t, p, rule);
        assert(u == 1 || u == 3);
        assert(p + u <= e);
        let rest = t.subrange(p + u, e);
        assert forall|i: int| 0 <= i < rest.len() implies #[trigger] unit_ok(rule, rest, i) by {
            assert(unit_ok(rule, s, i + u));
        }
        lemma_run_exact(t, p + u, e, rule);
    }
}

/// A piece that is read is valid, of the rule asked for, and spans exactly
/// its own text.
pub proof fn lemma_read_item_sound(t: Seq<char>, p: int, rule: Token)
    requires
        0 <= p,
        rule is Method || (p < t.len() && spec_delimiter_rule(t[p]) == rule && rule !is Prefix),
        read_item(t, p, rule) is Ok,
    ensures
        ({
            let (item, end) = read_item(t, p, rule)->Ok_0;
            &&& item.valid()
            &&& item.rule() == rule
            &&& p < end <= t.len()
            &&& t.subrange(p, end) =~= item.text()
        }),
{
    lemma_read_item_advances(t, p, rule);
    let (item, end) = read_item(t, p, rule)->Ok_0;
    match rule {
        Token::Method => {
            lemma_run_content(t, p, Token::Method);
        },
        Token::Param => {
            lemma_run_content(t, p + 1, Token::ParamName);
            let n = run_end(t, p + 1, Token::ParamName);
            if n < t.len() && t[n] == '=' {
                lemma_run_content(t, n + 1, Token::ParamValue);
            }
        },
        Token::PathSegment => {
            lemma_run_content(t, p + 1, Token::PathSegment);
        },
        Token::Query => {
            lemma_run_content(t, p + 1, Token::Query);
        },
        Token::Fragment => {
            lemma_run_content(t, p + 1, Token::Fragment);
        },
        _ => {
            lemma_run_content(t, p + 1, Token::IdSegment);
        },
    }
}

/// Whether the text `t` cannot go on with the content that ends `item`,
/// from position `q` on: it ends there, or no unit of that content starts
/// there (nor a `=`, after a parameter without a value).
pub open spec fn stops(t: Seq<char>, q: int, item: Item) -> bool {
    q >= t.len() || (unit_len(t, q, item.last_rule()) == 0 && (item.last_rule() is ParamName ==> t[q] != '='))
}

/// Reading a piece where its text stands gives that piece, provided the
/// text cannot go on with its content.
pub proof fn lemma_read_item_exact(t: Seq<char>, p: int, item: Item)
    requires
        0 <= p,
        item.valid(),
        p + item.text().len() <= t.len(),
        t.subrange(p, p + item.text().len()) == item.text(),
        stops(t, p + item.text().len(), item),
    ensures
        read_item(t, p, item.rule()) == Ok::<(Item, int), crate::grammar::SyntaxError>(
            (item, p + item.text().len()),
        ),
{
    let q = p + item.text().len();
    let s = t.subrange(p, q);
    match item {
        Item::Method(m) => {
            assert(t.subrange(p, q) =~= m);
            lemma_run_exact(t, p, q, Token::Method);
        },
        Item::IdSegment(c) => {
            assert(t.subrange(p + 1, q) =~= s.subrange(1, s.len() as int));
            assert(s.subrange(1, s.len() as int) =~= c);
            lemma_run_exact(t, p + 1, q, Token::IdSegment);
        },
        Item::Param(n, None) => {
            assert(t.subrange(p + 1, q) =~= s.subrange(1, s.len() as int));
            assert(s.subrange(1, s.len() as int) =~= n);
            lemma_run_exact(t, p + 1, q, Token::ParamName);
        },
        Item::Param(n, Some(v)) => {
            let k: int = n.len() as int + 1;
            let e = p + k;
            assert(t.subrange(p + 1, e) =~= s.subrange(1, k));
            assert(s.subrange(1, k) =~= n);
            assert(t[e] == s[k]);
            assert(s[k] == '=');
            lemma_run_exact(t, p + 1, e, Token::ParamName);
            assert(t.subrange(e + 1, q) =~= s.subrange(k + 1, s.len() as int));
            assert(s.subrange(k + 1, s.len() as int) =~= v);
            lemma_run_exact(t, e + 1, q, Token::ParamValue);
        },
        Item::PathSegment(c) => {
            assert(t.subrange(p + 1, q) =~= s.subrange(1, s.len() as int));
            assert(s.subrange(1, s.len() as int) =~= c);
            lemma_run_exact(t, p + 1, q, Token::PathSegment);
        },
        Item::Query(c) => {
            assert(t.subrange(p + 1, q) =~= s.subrange(1, s.len() as int));
            assert(s.subrange(1, s.len() as int) =~= c);
            lemma_run_exact(t, p + 1, q, Token::Query);
        },
        Item::Fragment(c) => {
            assert(t.subrange(p + 1, q) =~= s.subrange(1, s.len() as int));
            assert(s.subrange(1, s.len() as int) =~= c);
            assert(is_content(Token::Fragment, c)) by {
                assert forall|i: int| 0 <= i < c.len() implies #[trigger] unit_ok(
                    Token::Fragment,
                    c,
                    i,
                ) by {}
            }
            lemma_run_exact(t, p + 1, q, Token::Fragment);
        },
    }
}

/// Taking in a piece that may follow appends the text of the piece, makes
/// its rule the stage, and keeps what is valid and grown so.
pub proof fn lemma_absorb(d: DidValue, item: Item)
    requires
        spec_may_follow(d.stage(), item.rule()),
        item.valid(),
    ensures
        d.absorb(item).body() =~= d.body() + item.text(),
        d.absorb(item).stage() == item.rule(),
        d.parts_valid() ==> d.absorb(item).parts_valid(),
        d.grown() ==> d.absorb(item).grown(),
{
    let r = d.absorb(item);
    reveal_with_fuel(segments_text, 2);
    reveal_with_fuel(params_text, 2);
    reveal_with_fuel(path_text, 2);
    match item {
        Item::Method(m) => {
            assert(d.method =~= Seq::<char>::empty());
            assert(d.id_segments =~= Seq::empty());
            assert(d.params =~= Seq::empty());
            assert(d.path_segments =~= Seq::empty());
        },
        Item::IdSegment(c) => {
            assert(r.id_segments.drop_last() =~= d.id_segments);
            assert(d.params =~= Seq::empty());
            assert(d.path_segments =~= Seq::empty());
        },
        Item::Param(n, v) => {
            assert(r.params.drop_last() =~= d.params);
            assert(d.path_segments =~= Seq::empty());
        },
        Item::PathSegment(c) => {
            assert(r.path_segments.drop_last() =~= d.path_segments);
        },
        Item::Query(c) => {},
        Item::Fragment(c) => {},
    }
}

/// A parse that succeeds from a valid state gives a well-formed value whose
/// text is the whole input.
pub proof fn lemma_scan_sound(t: Seq<char>, p: int, acc: DidValue)
    requires
        0 <= p <= t.len(),
        acc.parts_valid(),
        acc.grown(),
        acc.body() == t.subrange(0, p),
        scan_from(t, p, acc) is Ok,
    ensures
        scan_from(t, p, acc)->Ok_0.well_formed(),
        scan_from(t, p, acc)->Ok_0.text() == t,
    decreases t.len() - p,
{
    let next = rule_at(t, p, acc.stage());
    if next is End {
        assert(t.subrange(0, p) =~= t);
        assert(acc.text() =~= acc.body());
    } else {
        lemma_read_item_sound(t, p, next);
        let (item, end) = read_item(t, p, next)->Ok_0;
        lemma_absorb(acc, item);
        assert(t.subrange(0, end) =~= t.subrange(0, p) + t.subrange(p, end));
        lemma_scan_sound(t, end, acc.absorb(item));
    }
}

/// The number of pieces that a value holds.
pub open spec fn size(d: DidValue) -> nat {
    (if d.method.len() > 0 {
        1nat
    } else {
        0nat
    }) + d.id_segments.len() + d.params.len() + d.path_segments.len() + (if d.query is Some {
        1nat
    } else {
        0nat
    }) + (if d.fragment is Some {
        1nat
    } else {
        0nat
    })
}

/// The piece of a value that comes last in grammar order.
pub open spec fn last_item(d: DidValue) -> Item {
    match d.stage() {
        Token::Fragment => Item::Fragment(d.fragment->Some_0),
        Token::Query => Item::Query(d.query->Some_0),
        Token::PathSegment => Item::PathSegment(d.path_segments.last()),
        Token::Param => Item::Param(d.params.last().0, d.params.last().1),
        Token::IdSegment => Item::IdSegment(d.id_segments.last()),
        _ => Item::Method(d.method),
    }
}

/// A value without the piece that comes last in grammar order.
pub open spec fn without_last(d: DidValue) -> DidValue {
    match d.stage() {
        Token::Fragment => DidValue { fragment: None, ..d },
        Token::Query => DidValue { query: None, ..d },
        Token::PathSegment => DidValue { path_segments: d.path_segments.drop_last(), ..d },
        Token::Param => DidValue { params: d.params.drop_last(), ..d },
        Token::IdSegment => DidValue { id_segments: d.id_segments.drop_last(), ..d },
        _ => DidValue { method: Seq::empty(), ..d },
    }
}

/// A value that holds a piece is the value without its last piece, with
/// that piece taken in again.
pub proof fn lemma_split_last(d: DidValue)
    requires
        d.parts_valid(),
        d.grown(),
        d.stage() !is Prefix,
    ensures
        without_last(d).absorb(last_item(d)) == d,
        spec_may_follow(without_last(d).stage(), last_item(d).rule()),
        last_item(d).valid(),
        last_item(d).rule() == d.stage(),
        without_last(d).parts_valid(),
        without_last(d).grown(),
        size(without_last(d)) < size(d),
{
    let d0 = without_last(d);
    let r = d0.absorb(last_item(d));
    match d.stage() {
        Token::PathSegment => {
            assert(r.path_segments =~= d.path_segments);
        },
        Token::Param => {
            assert(r.params =~= d.params);
        },
        Token::IdSegment => {
            assert(r.id_segments =~= d.id_segments);
        },
        _ => {},
    }
    assert(last_item(d) is Fragment ==> is_content(Token::Fragment, d.fragment->Some_0)) by {
        if last_item(d) is Fragment {
            let c = d.fragment->Some_0;
            assert forall|i: int| 0 <= i < c.len() implies #[trigger] unit_ok(
                Token::Fragment,
                c,
                i,
            ) by {}
        }
    }
}

/// Parsing a text that starts with the body of `d`, and cannot go on with
/// the last piece of `d` after it, comes to the end of that body with `d`
/// in hand.
pub proof fn lemma_scan_reaches(t: Seq<char>, d: DidValue)
    requires
        d.parts_valid(),
        d.grown(),
        d.body().len() <= t.len(),
        t.subrange(0, d.body().len() as int) == d.body(),
        d.stage() !is Prefix ==> stops(t, d.body().len() as int, last_item(d)),
    ensures
        scan_from(t, 4, DidValue::empty()) == scan_from(t, d.body().len() as int, d),
    decreases size(d),
{
    let q = d.body().len() as int;
    if d.stage() is Prefix {
        assert(d.method =~= Seq::<char>::empty());
        assert(d.id_segments =~= Seq::empty());
        assert(d.params =~= Seq::empty());
        assert(d.path_segments =~= Seq::empty());
        assert(d == DidValue::empty());
        assert(d.body() =~= prefix());
    } else {
        let d0 = without_last(d);
        let item = last_item(d);
        lemma_split_last(d);
        lemma_absorb(d0, item);
        let p0 = d0.body().len() as int;
        assert(q == p0 + item.text().len());
        assert(t.subrange(0, p0) =~= d.body().subrange(0, p0));
        assert(d.body().subrange(0, p0) =~= d0.body());
        assert(t.subrange(p0, q) =~= d.body().subrange(p0, q));
        assert(d.body().subrange(p0, q) =~= item.text());
        assert(p0 >= 4);
        if d0.stage() !is Prefix {
            lemma_split_last(d0);
            assert(t[p0] == item.text()[0]);
            assert(stops(t, p0, last_item(d0)));
        }
        lemma_scan_reaches(t, d0);
        lemma_read_item_exact(t, p0, item);
        assert(rule_at(t, p0, d0.stage()) == item.rule()) by {
            if d0.stage() !is Prefix {
                assert(t[p0] == item.text()[0]);
            }
        }
        assert(scan_from(t, p0, d0) == scan_from(t, q, d));
    }
}

/// No unit of content starts where a run ends.
pub proof fn lemma_run_stops(t: Seq<char>, p: int, rule: Token)
    requires
        0 <= p <= t.len(),
    ensures
        unit_len(t, run_end(t, p, rule), rule) == 0,
    decreases t.len() - p,
{
    if unit_len(t, p, rule) > 0 {
        lemma_run_stops(t, p + unit_len(t, p, rule), rule);
    }
}

/// Content of a rule other than the query and the fragment is ASCII.
pub proof fn lemma_content_is_ascii(rule: Token, s: Seq<char>)
    requires
        is_content(rule, s),
        rule !is Query,
        rule !is Fragment,
    ensures
        is_ascii_chars(s),
{
    assert forall|i: int| 0 <= i < s.len() implies '\0' <= #[trigger] s[i] <= '\u{7f}' by {
        assert(unit_ok(rule, s, i));
    }
}

/// Whether the pieces before `p` leave the text before `p` ASCII, or else
/// leave nothing at `p` but what the grammar accepts: after a query no
/// character of a query stands at `p`, after a fragment the text has ended.
pub open spec fn plain_so_far(t: Seq<char>, p: int, stage: Token) -> bool {
    if stage is Query || stage is Fragment {
        unit_len(t, p, stage) == 0
    } else {
        is_ascii_chars(t.subrange(0, p))
    }
}

/// Where a parse fails, it fails inside the text, and on ASCII text only.
pub proof fn lemma_scan_error_is_ascii(t: Seq<char>, p: int, acc: DidValue)
    requires
        0 <= p <= t.len(),
        plain_so_far(t, p, acc.stage()),
        scan_from(t, p, acc) is Err,
    ensures
        p <= scan_from(t, p, acc)->Err_0.offset <= t.len(),
        is_ascii_chars(t.subrange(0, scan_from(t, p, acc)->Err_0.offset)),
    decreases t.len() - p,
{
    let stage = acc.stage();
    let next = rule_at(t, p, stage);
    if !spec_may_follow(stage, next) {
    } else if next is End {
    } else {
        match read_item(t, p, next) {
            Ok((item, end)) => {
                lemma_read_item_sound(t, p, next);
                lemma_absorb(acc, item);
                lemma_read_item_stops(t, p, next);
                if !(next is Query || next is Fragment) {
                    let text = item.text();
                    assert(is_ascii_chars(text)) by {
                        match item {
                            Item::Method(c) => {
                                lemma_content_is_ascii(Token::Method, c);
                            },
                            Item::IdSegment(c) => {
                                lemma_content_is_ascii(Token::IdSegment, c);
                            },
                            Item::Param(n, None) => {
                                lemma_content_is_ascii(Token::ParamName, n);
                            },
                            Item::Param(n, Some(v)) => {
                                lemma_content_is_ascii(Token::ParamName, n);
                                lemma_content_is_ascii(Token::ParamValue, v);
                            },
                            Item::PathSegment(c) => {
                                lemma_content_is_ascii(Token::PathSegment, c);
                            },
                            _ => {},
                        }
                    }
                    let whole = t.subrange(0, end);
                    assert forall|i: int| 0 <= i < whole.len() implies '\0' <= #[trigger] whole[i]
                        <= '\u{7f}' by {
                        if i < p {
                            assert(whole[i] == t.subrange(0, p)[i]);
                        } else {
                            assert(whole[i] == t.subrange(p, end)[i - p]);
                        }
                    }
                }
                lemma_scan_error_is_ascii(t, end, acc.absorb(item));
            },
            Err(e) => {
                if e.offset == p + 1 {
                    let whole = t.subrange(0, p + 1);
                    assert forall|i: int| 0 <= i < whole.len() implies '\0' <= #[trigger] whole[i]
                        <= '\u{7f}' by {
                        if i < p {
                            assert(whole[i] == t.subrange(0, p)[i]);
                        }
                    }
                }
            },
        }
    }
}

/// No unit of the content that ends a piece starts where the piece, as
/// read, ends.
pub proof fn lemma_read_item_stops(t: Seq<char>, p: int, rule: Token)
    requires
        0 <= p,
        rule is Method || p < t.len(),
        read_item(t, p, rule) is Ok,
    ensures
        ({
            let (item, end) = read_item(t, p, rule)->Ok_0;
            unit_len(t, end, item.last_rule()) == 0
        }),
{
    if p <= t.len() {
        lemma_run_stops(t, p, Token::Method);
    }
    if p < t.len() {
        lemma_run_stops(t, p + 1, Token::IdSegment);
        lemma_run_stops(t, p + 1, Token::ParamName);
        lemma_run_stops(t, p + 1, Token::PathSegment);
        lemma_run_stops(t, p + 1, Token::Query);
        lemma_run_stops(t, p + 1, Token::Fragment);
        lemma_run_end_bounds(t, p + 1, Token::ParamName);
        let n = run_end(t, p + 1, Token::ParamName);
        if n < t.len() {
            lemma_run_stops(t, n + 1, Token::ParamValue);
        }
    }
}

} // verus!
