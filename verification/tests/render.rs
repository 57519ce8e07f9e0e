use did::DID;

fn s(text: &str) -> String {
    String::from(text)
}

fn bare(method: &str, id_segments: Vec<String>) -> DID {
    DID {
        method: s(method),
        id_segments,
        params: vec![],
        path_segments: vec![],
        query: None,
        fragment: None,
    }
}

#[test]
fn renders_every_part_in_order() {
    let did = DID {
        method: s("gaia"),
        id_segments: vec![s("id0"), s("id1"), s("id2")],
        params: vec![(s("hi"), None), (s("hello"), Some(s(""))), (s("ha"), Some(s("1")))],
        path_segments: vec![s("segment0"), s("segment1")],
        query: Some(s("whatis")),
        fragment: Some(s("fraggy")),
    };
    assert_eq!(
        did.to_string(),
        "did:gaia:id0:id1:id2;hi;hello=;ha=1/segment0/segment1?whatis#fraggy"
    );
}

#[test]
fn renders_a_minimal_did() {
    assert_eq!(bare("m", vec![s("a")]).to_string(), "did:m:a");
}

#[test]
fn renders_a_lone_colon_for_no_segments() {
    assert_eq!(bare("m", vec![]).to_string(), "did:m:");
    let mut did = bare("m", vec![]);
    did.params = vec![(s("x"), None)];
    did.fragment = Some(s("f"));
    assert_eq!(did.to_string(), "did:m:;x#f");
}

#[test]
fn renders_empty_segments() {
    assert_eq!(bare("m", vec![s("")]).to_string(), "did:m:");
    assert_eq!(bare("m", vec![s(""), s("x"), s("")]).to_string(), "did:m::x:");
}

#[test]
fn renders_one_separator_per_parameter() {
    let mut did = bare("m", vec![s("a")]);
    did.params = vec![(s("x"), None)];
    assert_eq!(did.to_string(), "did:m:a;x");
    did.params = vec![(s("x"), None), (s("y"), Some(s("1"))), (s("y"), Some(s("")))];
    assert_eq!(did.to_string(), "did:m:a;x;y=1;y=");
}

#[test]
fn renders_an_empty_query_and_fragment() {
    let mut did = bare("m", vec![s("a")]);
    did.query = Some(s(""));
    assert_eq!(did.to_string(), "did:m:a?");
    did.fragment = Some(s(""));
    assert_eq!(did.to_string(), "did:m:a?#");
    did.query = None;
    assert_eq!(did.to_string(), "did:m:a#");
}

#[test]
fn renders_without_encoding() {
    let mut did = bare("m", vec![s("a%41")]);
    did.path_segments = vec![s("p:q"), s("%20")];
    did.query = Some(s("\u{e9} ?"));
    did.fragment = Some(s("#\u{1f600}"));
    assert_eq!(did.to_string(), "did:m:a%41/p:q/%20?\u{e9} ?##\u{1f600}");
}

#[test]
fn renders_whatever_the_fields_hold() {
    let did = DID {
        method: s(""),
        id_segments: vec![],
        params: vec![],
        path_segments: vec![],
        query: None,
        fragment: None,
    };
    assert_eq!(did.to_string(), "did::");
}

#[test]
fn equality_is_field_by_field() {
    let did = DID::parse("did:m:a:b;x=1;y/p/q?r#s").unwrap();
    assert_eq!(did, did.clone());
    let mut other = did.clone();
    other.method = s("n");
    assert_ne!(did, other);
    let mut other = did.clone();
    other.id_segments = vec![s("b"), s("a")];
    assert_ne!(did, other);
    let mut other = did.clone();
    other.id_segments.push(s(""));
    assert_ne!(did, other);
    let mut other = did.clone();
    other.params[1].1 = Some(s(""));
    assert_ne!(did, other);
    let mut other = did.clone();
    other.params[0].0 = s("z");
    assert_ne!(did, other);
    let mut other = did.clone();
    other.path_segments.pop();
    assert_ne!(did, other);
    let mut other = did.clone();
    other.query = None;
    assert_ne!(did, other);
    let mut other = did.clone();
    other.fragment = Some(s(""));
    assert_ne!(did, other);
}

#[test]
fn debug_shows_the_fields() {
    let shown = format!("{:?}", DID::parse("did:m:a").unwrap());
    assert!(shown.contains("method"));
    assert!(shown.contains("id_segments"));
}
