use did::{pairs_to_parsed, recognize, Pair, Pairs, ParseError, Span, Token, DID};

fn span(start: usize, end: usize) -> Span {
    Span { start, end }
}

#[test]
fn recognizer_labels_each_piece_with_its_span() {
    let tree = recognize("did:m:a;x=1/p?q#f").unwrap();
    assert_eq!(tree.text, "did:m:a;x=1/p?q#f".chars().collect::<Vec<char>>());
    assert_eq!(
        tree.pairs,
        vec![
            Pair::Method(span(4, 5)),
            Pair::IdSegment(span(6, 7)),
            Pair::Param { name: span(8, 9), value: Some(span(10, 11)) },
            Pair::PathSegment(span(12, 13)),
            Pair::Query(span(14, 15)),
            Pair::Fragment(span(16, 17)),
        ]
    );
}

#[test]
fn recognizer_gives_empty_spans_for_empty_content() {
    let tree = recognize("did:ab::;n=?#").unwrap();
    assert_eq!(
        tree.pairs,
        vec![
            Pair::Method(span(4, 6)),
            Pair::IdSegment(span(7, 7)),
            Pair::IdSegment(span(8, 8)),
            Pair::Param { name: span(9, 10), value: Some(span(11, 11)) },
            Pair::Query(span(12, 12)),
            Pair::Fragment(span(13, 13)),
        ]
    );
}

#[test]
fn recognizer_tells_a_parameter_without_a_value() {
    let tree = recognize("did:m:a;hi;hello=").unwrap();
    assert_eq!(
        tree.pairs,
        vec![
            Pair::Method(span(4, 5)),
            Pair::IdSegment(span(6, 7)),
            Pair::Param { name: span(8, 10), value: None },
            Pair::Param { name: span(11, 16), value: Some(span(17, 17)) },
        ]
    );
}

#[test]
fn recognizer_counts_characters_in_spans() {
    let tree = recognize("did:m:a?\u{e9}\u{1f600}#\u{fc}").unwrap();
    assert_eq!(tree.text.len(), 12);
    assert_eq!(
        tree.pairs,
        vec![
            Pair::Method(span(4, 5)),
            Pair::IdSegment(span(6, 7)),
            Pair::Query(span(8, 10)),
            Pair::Fragment(span(11, 12)),
        ]
    );
}

#[test]
fn recognizer_takes_a_percent_triplet_whole() {
    let tree = recognize("did:m:%41/%2F:").unwrap();
    assert_eq!(
        tree.pairs,
        vec![
            Pair::Method(span(4, 5)),
            Pair::IdSegment(span(6, 9)),
            Pair::PathSegment(span(10, 14)),
        ]
    );
}

#[test]
fn recognizer_never_gives_a_partial_tree() {
    assert_eq!(
        recognize("did:m:a;x/"),
        Err(ParseError { offset: 10, expected: vec![Token::PathSegment] })
    );
    assert_eq!(recognize("x"), Err(ParseError { offset: 0, expected: vec![Token::Prefix] }));
}

#[test]
fn converter_agrees_with_parse() {
    let text = "did:gaia:id0:id1:id2;hi;hello=;ha=1/segment0/segment1?whatis#fraggy";
    let tree = recognize(text).unwrap();
    assert_eq!(Ok(pairs_to_parsed(&tree)), DID::parse(text));
}

#[test]
fn converter_copies_each_span_to_the_field_of_its_rule() {
    let tree = Pairs {
        text: "abcdefgh".chars().collect(),
        pairs: vec![
            Pair::PathSegment(span(0, 2)),
            Pair::Fragment(span(7, 8)),
            Pair::Param { name: span(2, 3), value: None },
            Pair::IdSegment(span(3, 6)),
            Pair::Param { name: span(1, 4), value: Some(span(4, 4)) },
            Pair::Method(span(5, 7)),
            Pair::Query(span(0, 8)),
            Pair::IdSegment(span(8, 8)),
        ],
    };
    let did = pairs_to_parsed(&tree);
    assert_eq!(did.method, "fg");
    assert_eq!(did.id_segments, vec![String::from("def"), String::new()]);
    assert_eq!(
        did.params,
        vec![
            (String::from("c"), None),
            (String::from("bcd"), Some(String::new())),
        ]
    );
    assert_eq!(did.path_segments, vec![String::from("ab")]);
    assert_eq!(did.query, Some(String::from("abcdefgh")));
    assert_eq!(did.fragment, Some(String::from("h")));
}

#[test]
fn converter_lets_the_last_method_query_and_fragment_win() {
    let tree = Pairs {
        text: "abcdef".chars().collect(),
        pairs: vec![
            Pair::Method(span(0, 2)),
            Pair::Query(span(3, 4)),
            Pair::Fragment(span(0, 1)),
            Pair::Method(span(2, 3)),
            Pair::Query(span(4, 6)),
            Pair::Fragment(span(1, 3)),
        ],
    };
    let did = pairs_to_parsed(&tree);
    assert_eq!(did.method, "c");
    assert_eq!(did.query, Some(String::from("ef")));
    assert_eq!(did.fragment, Some(String::from("bc")));
    assert!(did.id_segments.is_empty());
}

#[test]
fn converter_gives_the_empty_did_for_no_pieces() {
    let did = pairs_to_parsed(&Pairs { text: vec![], pairs: vec![] });
    assert_eq!(
        did,
        DID {
            method: String::new(),
            id_segments: vec![],
            params: vec![],
            path_segments: vec![],
            query: None,
            fragment: None,
        }
    );
}
