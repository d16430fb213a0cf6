use frd_lisp::lexer::{lex, nfa_id, nfa_num, NFAResult, Token, TokenKind};

fn chars(s: &str) -> Vec<char> {
    s.chars().collect()
}

fn kinds_and_lexemes(tokens: &[Token]) -> Vec<(TokenKind, String)> {
    tokens.iter().map(|t| (t.kind, t.lexeme.iter().collect::<String>())).collect()
}

#[test]
fn test_it() {
    let tokens = lex("(() abc123 123 +").expect("lexes");
    let expected = vec![
        (TokenKind::ParOpen, "(".to_string()),
        (TokenKind::ParOpen, "(".to_string()),
        (TokenKind::ParClose, ")".to_string()),
        (TokenKind::Id, "abc123".to_string()),
        (TokenKind::Num, "123".to_string()),
        (TokenKind::PrimitiveOp, "+".to_string()),
    ];
    assert_eq!(kinds_and_lexemes(&tokens), expected);
}

#[test]
fn maximal_munch_keeps_identifier_whole() {
    let tokens = lex("abc123").expect("lexes");
    assert_eq!(tokens.len(), 1);
    assert!(tokens[0].is_kind(TokenKind::Id));
    assert_eq!(tokens[0].lexeme.iter().collect::<String>(), "abc123");
}

#[test]
fn number_with_dangling_separator_is_no_token() {
    // maximal munch takes "123"; the dangling separator matches no class,
    // so the whole text is rejected rather than accepted as a truncated
    // number
    let err = lex("123,").unwrap_err();
    assert_eq!(err.position, 3);
    assert_eq!(err.fragment, ',');
    assert!(lex(",").is_err());
}

#[test]
fn lex_error_names_the_position() {
    let err = lex("ab #").unwrap_err();
    assert_eq!(err.position, 3);
    assert_eq!(err.fragment, '#');
}

#[test]
fn number_recogniser_states() {
    let v = chars("12,");
    assert_eq!(nfa_num(&v, 0, 2), NFAResult::Accepted);
    assert_eq!(nfa_num(&v, 0, 3), NFAResult::NotAccepted);
    let w = chars("12,x");
    assert_eq!(nfa_num(&w, 0, 4), NFAResult::Trapped);
    let u = chars("12,5");
    assert_eq!(nfa_num(&u, 0, 4), NFAResult::Accepted);
}

#[test]
fn identifier_recogniser_needs_letter_start() {
    let v = chars("1ab");
    assert_eq!(nfa_id(&v, 0, 3), NFAResult::Trapped);
    let w = chars("ab1");
    assert_eq!(nfa_id(&w, 0, 3), NFAResult::Accepted);
}
