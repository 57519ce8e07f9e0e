use did::DID;

fn there_and_back(text: &str) {
    let did = DID::parse(text).unwrap();
    assert_eq!(did.to_string(), text);
    assert_eq!(DID::parse(&did.to_string()), Ok(did));
}

#[test]
fn parse_inverts_render_on_parsed_values() {
    there_and_back("did:gaia:id0:id1:id2;hi;hello=;ha=1/segment0/segment1?whatis#fraggy");
    there_and_back("did:m:a");
    there_and_back("did:m:");
    there_and_back("did:m::");
    there_and_back("did:m:a:b");
    there_and_back("did:m:a;x;y=1;y=2");
    there_and_back("did:m:a;hello=");
    there_and_back("did:m:a;hi");
    there_and_back("did:m:a/x/y");
    there_and_back("did:m:a/x:y");
    there_and_back("did:m:a?");
    there_and_back("did:m:a#");
    there_and_back("did:m:a?#");
    there_and_back("did:m:a?q?r#f#g");
    there_and_back("did:m:a%41;n=%7e/%20?\u{e9}#\u{fc}");
}

#[test]
fn parse_inverts_render_on_a_built_value() {
    let did = DID {
        method: String::from("web"),
        id_segments: vec![String::from("example.com"), String::from("")],
        params: vec![
            (String::from("service"), Some(String::from("files"))),
            (String::from("flag"), None),
            (String::from("flag"), Some(String::from(""))),
        ],
        path_segments: vec![String::from("a:b"), String::from("c")],
        query: Some(String::from("x=1&y=2")),
        fragment: Some(String::from("key-1")),
    };
    let text = did.to_string();
    assert_eq!(text, "did:web:example.com:;service=files;flag;flag=/a:b/c?x=1&y=2#key-1");
    assert_eq!(DID::parse(&text), Ok(did));
}

#[test]
fn a_value_without_segments_comes_back_with_an_empty_one() {
    let did = DID {
        method: String::from("m"),
        id_segments: vec![],
        params: vec![],
        path_segments: vec![],
        query: None,
        fragment: None,
    };
    let back = DID::parse(&did.to_string()).unwrap();
    assert_eq!(back.id_segments, vec![String::new()]);
    assert_ne!(back, did);
}
