//! The DID itself: parsing it from text and rendering it back.
use crate::error::ParseError;
use crate::grammar::{is_did_text, spec_parse, SyntaxError};
use crate::model::{
    fragment_text, params_text, path_text, prefix, query_text, segments_text, DidValue, Item,
};
use crate::pairs::{assemble, items_of, recognize, Pair, Pairs, Span};
use vstd::prelude::*;
use vstd::std_specs::cmp::PartialEqSpecImpl;
use vstd::string::StringExecFns;
use vstd::utf8::encode_utf8;

verus! {

/// Assumed of `String::push` in the standard library, not proved here: it
/// appends the given character to the end of the string and leaves the
/// characters before it as they were.
pub assume_specification[ String::push ](s: &mut String, c: char)
    ensures
        final(s)@ == old(s)@.push(c),
;

/// A decentralized identifier, taken apart.
#[derive(Clone, Debug, Eq)]
pub struct DID {
    /// The DID method: lowercase letters and digits, never empty in a DID
    /// that was parsed.
    pub method: String,
    /// The segments of the method-specific identifier, which the text
    /// separates by `:`. A parsed DID has at least one; a segment may be
    /// empty.
    pub id_segments: Vec<String>,
    /// The parameters, which the text introduces by `;`, in the order of the
    /// text. A name may occur more than once. A parameter written without
    /// `=` has no value; one written with `=` and nothing after it has the
    /// empty value.
    pub params: Vec<(String, Option<String>)>,
    /// The segments of the path, which the text introduces by `/`.
    pub path_segments: Vec<String>,
    /// The query: what stands between `?` and `#` or the end.
    pub query: Option<String>,
    /// The fragment: what stands after `#`.
    pub fragment: Option<String>,
}

/// The value that six fields make up.
pub open spec fn value_of(
    method: String,
    id_segments: Vec<String>,
    params: Vec<(String, Option<String>)>,
    path_segments: Vec<String>,
    query: Option<String>,
    fragment: Option<String>,
) -> DidValue {
    DidValue {
        method: method@,
        id_segments: id_segments.deep_view(),
        params: params.deep_view(),
        path_segments: path_segments.deep_view(),
        query: query.deep_view(),
        fragment: fragment.deep_view(),
    }
}

impl View for DID {
    type V = DidValue;

    open spec fn view(&self) -> DidValue {
        value_of(
            self.method,
            self.id_segments,
            self.params,
            self.path_segments,
            self.query,
            self.fragment,
        )
    }
}

/// An owned copy of the characters that `span` covers.
pub fn copy_span(text: &Vec<char>, span: Span) -> (s: String)
    requires
        span.in_bounds(text@.len() as int),
    ensures
        s@ == span.of(text@),
{
    let mut s = String::new();
    let mut i = span.start;
    while i < span.end
        invariant
            span.start <= i <= span.end <= text.len(),
            s@ == text@.subrange(span.start as int, i as int),
        decreases span.end - i,
    {
        s.push(text[i]);
        i += 1;
    }
    s
}

/// Turns the pieces that the recognizer found into a DID: each piece goes
/// to the field of its rule, in the order of the pieces. A method, query or
/// fragment replaces an earlier one; segments and parameters are appended.
pub fn pairs_to_parsed(pairs: &Pairs) -> (did: DID)
    requires
        pairs.in_bounds(),
    ensures
        did@ == pairs.value(),
{
    let mut method = String::new();
    let mut id_segments: Vec<String> = Vec::new();
    let mut params: Vec<(String, Option<String>)> = Vec::new();
    let mut path_segments: Vec<String> = Vec::new();
    let mut query: Option<String> = None;
    let mut fragment: Option<String> = None;
    let ghost items = items_of(pairs.pairs@, pairs.text@);
    let n = pairs.pairs.len();
    let mut i: usize = 0;
    assert(items.take(0) =~= Seq::empty());
    assert(value_of(method, id_segments, params, path_segments, query, fragment)
        == DidValue::empty()) by {
        assert(id_segments.deep_view() =~= Seq::empty());
        assert(params.deep_view() =~= Seq::empty());
        assert(path_segments.deep_view() =~= Seq::empty());
    }
    while i < n
        invariant
            n == pairs.pairs.len(),
            i <= n,
            pairs.in_bounds(),
            items == items_of(pairs.pairs@, pairs.text@),
            value_of(method, id_segments, params, path_segments, query, fragment) == assemble(
                items.take(i as int),
            ),
        decreases n - i,
    {
        let ghost before = value_of(method, id_segments, params, path_segments, query, fragment);
        let pair = pairs.pairs[i];
        assert(pair.in_bounds(pairs.text@.len() as int));
        match pair {
            Pair::Method(span) => {
                method = copy_span(&pairs.text, span);
            },
            Pair::IdSegment(span) => {
                let segment = copy_span(&pairs.text, span);
                id_segments.push(segment);
                assert(id_segments.deep_view() =~= before.id_segments.push(segment@));
            },
            Pair::Param { name, value } => {
                let n = copy_span(&pairs.text, name);
                let v = match value {
                    Some(span) => Some(copy_span(&pairs.text, span)),
                    None => None,
                };
                let ghost entry = (n@, v.deep_view());
                params.push((n, v));
                assert(params.deep_view() =~= before.params.push(entry));
            },
            Pair::PathSegment(span) => {
                let segment = copy_span(&pairs.text, span);
                path_segments.push(segment);
                assert(path_segments.deep_view() =~= before.path_segments.push(segment@));
            },
            Pair::Query(span) => {
                query = Some(copy_span(&pairs.text, span));
            },
            Pair::Fragment(span) => {
                fragment = Some(copy_span(&pairs.text, span));
            },
        }
        proof {
            let grown = items.take(i + 1);
            assert(grown.drop_last() =~= items.take(i as int));
            assert(grown.last() == pair.item(pairs.text@));
        }
        i += 1;
    }
    assert(items.take(n as int) =~= items);
    DID { method, id_segments, params, path_segments, query, fragment }
}

impl DID {
    /// Parses a DID from its text.
    ///
    /// Succeeds exactly on the texts of well-formed values; the DID returned
    /// is then the one value whose text is the input. Any other input gives
    /// the error that the grammar assigns to it; there is no partial result.
    pub fn parse(input: &str) -> (r: Result<DID, ParseError>)
        ensures
            match r {
                Ok(did) => {
                    &&& did@.well_formed()
                    &&& did@.text() == input@
                    &&& spec_parse(input@) == Ok::<DidValue, SyntaxError>(did@)
                },
                Err(e) => {
                    &&& !is_did_text(input@)
                    &&& spec_parse(input@) == Err::<DidValue, SyntaxError>(e@)
                    &&& e.offset <= input@.len()
                    &&& encode_utf8(input@.take(e.offset as int)).len() == e.offset
                },
            },
    {
        match recognize(input) {
            Ok(pairs) => Ok(pairs_to_parsed(&pairs)),
            Err(e) => Err(e),
        }
    }

    /// Renders this DID as text: `did:` and the method, each identifier
    /// segment after a `:` (a lone `:` where there is none), each parameter
    /// after a `;` with its value after `=`, each path segment after a `/`,
    /// the query after `?` and the fragment after `#`. Nothing is encoded or
    /// decoded on the way.
    pub fn to_string(&self) -> (out: String)
        ensures
            out@ == self@.text(),
    {
        let mut out = String::new();
        out.push('d');
        out.push('i');
        out.push('d');
        out.push(':');
        assert(out@ =~= prefix());
        out.append(self.method.as_str());
        let ghost head = out@;
        if self.id_segments.len() == 0 {
            out.push(':');
        } else {
            let ghost segments = self.id_segments.deep_view();
            let mut i: usize = 0;
            while i < self.id_segments.len()
                invariant
                    i <= self.id_segments.len(),
                    segments == self.id_segments.deep_view(),
                    out@ == head + segments_text(segments.take(i as int)),
                decreases self.id_segments.len() - i,
            {
                let ghost so_far = segments_text(segments.take(i as int));
                out.push(':');
                out.append(self.id_segments[i].as_str());
                proof {
                    let grown = segments.take(i + 1);
                    assert(grown.drop_last() =~= segments.take(i as int));
                    assert(grown.last() == self.id_segments[i as int]@);
                    assert(out@ =~= head + (so_far + Item::IdSegment(grown.last()).text()));
                }
                i += 1;
            }
            assert(segments.take(i as int) =~= segments);
        }
        let ghost head = out@;
        let ghost params = self.params.deep_view();
        let mut i: usize = 0;
        while i < self.params.len()
            invariant
                i <= self.params.len(),
                params == self.params.deep_view(),
                out@ == head + params_text(params.take(i as int)),
            decreases self.params.len() - i,
        {
            let ghost so_far = params_text(params.take(i as int));
            out.push(';');
            out.append(self.params[i].0.as_str());
            match &self.params[i].1 {
                Some(value) => {
                    out.push('=');
                    out.append(value.as_str());
                },
                None => {},
            }
            proof {
                let grown = params.take(i + 1);
                assert(grown.drop_last() =~= params.take(i as int));
                assert(grown.last() == self.params[i as int].deep_view());
                assert(out@ =~= head + (so_far + Item::Param(grown.last().0, grown.last().1).text()));
            }
            i += 1;
        }
        assert(params.take(i as int) =~= params);
        let ghost head = out@;
        let ghost path = self.path_segments.deep_view();
        let mut i: usize = 0;
        while i < self.path_segments.len()
            invariant
                i <= self.path_segments.len(),
                path == self.path_segments.deep_view(),
                out@ == head + path_text(path.take(i as int)),
            decreases self.path_segments.len() - i,
        {
            let ghost so_far = path_text(path.take(i as int));
            out.push('/');
            out.append(self.path_segments[i].as_str());
            proof {
                let grown = path.take(i + 1);
                assert(grown.drop_last() =~= path.take(i as int));
                assert(grown.last() == self.path_segments[i as int]@);
                assert(out@ =~= head + (so_far + Item::PathSegment(grown.last()).text()));
            }
            i += 1;
        }
        assert(path.take(i as int) =~= path);
        let ghost head = out@;
        match &self.query {
            Some(query) => {
                out.push('?');
                out.append(query.as_str());
            },
            None => {},
        }
        assert(out@ =~= head + query_text(self@.query));
        let ghost head = out@;
        match &self.fragment {
            Some(fragment) => {
                out.push('#');
                out.append(fragment.as_str());
            },
            None => {},
        }
        assert(out@ =~= head + fragment_text(self@.fragment));
        out
    }
}

/// Whether two lists of strings hold the same strings in the same order.
pub fn same_strings(a: &Vec<String>, b: &Vec<String>) -> (r: bool)
    ensures
        r == (a.deep_view() == b.deep_view()),
{
    if a.len() != b.len() {
        assert(a.deep_view().len() != b.deep_view().len());
        return false;
    }
    let mut i: usize = 0;
    while i < a.len()
        invariant
            i <= a.len(),
            a.len() == b.len(),
            forall|j: int| 0 <= j < i ==> a[j]@ == b[j]@,
        decreases a.len() - i,
    {
        if a[i] != b[i] {
            assert(a.deep_view()[i as int] != b.deep_view()[i as int]);
            return false;
        }
        i += 1;
    }
    assert(a.deep_view() =~= b.deep_view());
    true
}

/// Whether two optional strings are both absent or both the same string.
pub fn same_option(a: &Option<String>, b: &Option<String>) -> (r: bool)
    ensures
        r == (a.deep_view() == b.deep_view()),
{
    match a {
        Some(x) => match b {
            Some(y) => *x == *y,
            None => false,
        },
        None => b.is_none(),
    }
}

/// Whether two lists of parameters hold the same names and values in the
/// same order.
pub fn same_params(a: &Vec<(String, Option<String>)>, b: &Vec<(String, Option<String>)>) -> (r:
    bool)
    ensures
        r == (a.deep_view() == b.deep_view()),
{
    if a.len() != b.len() {
        assert(a.deep_view().len() != b.deep_view().len());
        return false;
    }
    let mut i: usize = 0;
    while i < a.len()
        invariant
            i <= a.len(),
            a.len() == b.len(),
            forall|j: int| 0 <= j < i ==> a[j].deep_view() == b[j].deep_view(),
        decreases a.len() - i,
    {
        if a[i].0 != b[i].0 || !same_option(&a[i].1, &b[i].1) {
            assert(a.deep_view()[i as int] != b.deep_view()[i as int]);
            return false;
        }
        i += 1;
    }
    assert(a.deep_view() =~= b.deep_view());
    true
}

impl PartialEq for DID {
    /// Two DIDs are equal exactly when all six fields are equal.
    fn eq(&self, other: &DID) -> (r: bool) {
        self.method == other.method && same_strings(&self.id_segments, &other.id_segments)
            && same_params(&self.params, &other.params) && same_strings(
            &self.path_segments,
            &other.path_segments,
        ) && same_option(&self.query, &other.query) && same_option(
            &self.fragment,
            &other.fragment,
        )
    }
}

impl PartialEqSpecImpl for DID {
    open spec fn obeys_eq_spec() -> bool {
        true
    }

    open spec fn eq_spec(&self, other: &DID) -> bool {
        self@ == other@
    }
}

} // verus!
