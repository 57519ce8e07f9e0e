use did::chars::{digit, hex, idchar, lower};
use did::grammar::{delimiter_rule, expected, may_follow};
use did::Token;

#[test]
fn character_classes_are_ascii() {
    assert!(lower('a') && lower('z') && !lower('A') && !lower('0') && !lower('\u{e9}'));
    assert!(digit('0') && digit('9') && !digit('a') && !digit('\u{0663}'));
    assert!(hex('0') && hex('9') && hex('a') && hex('f') && hex('A') && hex('F'));
    assert!(!hex('g') && !hex('G') && !hex('%'));
    assert!(idchar('a') && idchar('Z') && idchar('5') && idchar('.') && idchar('-') && idchar('_'));
    assert!(!idchar(':') && !idchar('%') && !idchar(';') && !idchar('=') && !idchar('\u{e9}'));
}

#[test]
fn rules_admit_their_own_characters() {
    assert!(Token::Method.admits('a') && Token::Method.admits('7'));
    assert!(!Token::Method.admits('A') && !Token::Method.admits('-'));
    assert!(Token::IdSegment.admits('A') && !Token::IdSegment.admits(':'));
    assert!(Token::ParamName.admits('_') && !Token::ParamName.admits('='));
    assert!(Token::ParamValue.admits('.') && !Token::ParamValue.admits(';'));
    assert!(Token::PathSegment.admits(':') && !Token::PathSegment.admits('/'));
    assert!(Token::Query.admits('?') && Token::Query.admits('%') && !Token::Query.admits('#'));
    assert!(Token::Fragment.admits('#') && Token::Fragment.admits('\u{1f600}'));
    assert!(!Token::Prefix.admits('d') && !Token::Param.admits(';') && !Token::End.admits('a'));
}

#[test]
fn only_three_rules_have_percent_encoding() {
    assert!(Token::IdSegment.escapes());
    assert!(Token::ParamValue.escapes());
    assert!(Token::PathSegment.escapes());
    assert!(!Token::Method.escapes());
    assert!(!Token::ParamName.escapes());
    assert!(!Token::Query.escapes());
    assert!(!Token::Fragment.escapes());
}

#[test]
fn delimiters_open_their_rules() {
    assert_eq!(delimiter_rule(':'), Token::IdSegment);
    assert_eq!(delimiter_rule(';'), Token::Param);
    assert_eq!(delimiter_rule('/'), Token::PathSegment);
    assert_eq!(delimiter_rule('?'), Token::Query);
    assert_eq!(delimiter_rule('#'), Token::Fragment);
    assert_eq!(delimiter_rule('='), Token::Prefix);
    assert_eq!(delimiter_rule('a'), Token::Prefix);
}

#[test]
fn pieces_follow_in_grammar_order() {
    assert!(may_follow(Token::Prefix, Token::Method));
    assert!(may_follow(Token::Method, Token::IdSegment));
    assert!(!may_follow(Token::Method, Token::End));
    assert!(!may_follow(Token::Method, Token::Param));
    assert!(may_follow(Token::IdSegment, Token::IdSegment));
    assert!(may_follow(Token::IdSegment, Token::End));
    assert!(may_follow(Token::Param, Token::Param));
    assert!(!may_follow(Token::Param, Token::IdSegment));
    assert!(may_follow(Token::PathSegment, Token::PathSegment));
    assert!(!may_follow(Token::PathSegment, Token::Param));
    assert!(may_follow(Token::Query, Token::Fragment));
    assert!(!may_follow(Token::Query, Token::Query));
    assert!(!may_follow(Token::Query, Token::PathSegment));
    assert!(may_follow(Token::Fragment, Token::End));
    assert!(!may_follow(Token::Fragment, Token::Fragment));
    assert!(!may_follow(Token::IdSegment, Token::ParamName));
}

#[test]
fn expected_lists_what_may_go_on() {
    assert_eq!(expected(Token::Prefix, false), vec![Token::Method]);
    assert_eq!(expected(Token::Method, false), vec![Token::Method, Token::IdSegment]);
    assert_eq!(
        expected(Token::Param, false),
        vec![
            Token::ParamName,
            Token::ParamValue,
            Token::Param,
            Token::PathSegment,
            Token::Query,
            Token::Fragment,
            Token::End,
        ]
    );
    assert_eq!(
        expected(Token::Param, true),
        vec![
            Token::ParamValue,
            Token::Param,
            Token::PathSegment,
            Token::Query,
            Token::Fragment,
            Token::End,
        ]
    );
    assert_eq!(expected(Token::Query, false), vec![Token::Query, Token::Fragment, Token::End]);
    assert_eq!(expected(Token::Fragment, false), vec![Token::Fragment, Token::End]);
}
