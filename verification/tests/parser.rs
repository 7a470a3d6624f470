use schemers::ASTNode;
use schemers::ASTNode::Integer;
use schemers::ASTNode::List;
use schemers::Token;
use schemers::parse;

fn id_token(id: &str) -> Token {
    Token::Identifier(id.to_string())
}

fn id(id: &str) -> ASTNode {
    ASTNode::Identifier(id.to_string())
}

#[test]
fn test_parse() {
    assert_eq!(
        parse(&vec![
            Token::OpenParen,
            id_token("+"),
            Token::Integer(1),
            Token::Integer(2),
            Token::CloseParen
        ])
        .unwrap(),
        vec![List(vec![id("+"), Integer(1), Integer(2)])]
    );

    assert_eq!(
        parse(&vec![
            Token::OpenParen,
            id_token("+"),
            Token::Integer(1),
            Token::OpenParen,
            id_token("-"),
            Token::Integer(5),
            Token::Integer(4),
            Token::CloseParen,
            Token::CloseParen
        ])
        .unwrap(),
        vec![List(vec![
            id("+"),
            Integer(1),
            List(vec![id("-"), Integer(5), Integer(4)])
        ])]
    );
}

#[test]
fn test_parse_err() {
    assert!(parse(&vec![Token::OpenParen, id_token("+")]).is_err())
}

#[test]
fn test_parse_close_without_open() {
    match parse(&vec![Token::CloseParen]) {
        Err(schemers::ParseError::ClosingParenWithoutOpening) => {}
        other => panic!("expected a closing-paren error, got {:?}", other),
    }
}

#[test]
fn test_parse_unclosed_group() {
    match parse(&vec![Token::OpenParen, Token::OpenParen, Token::CloseParen]) {
        Err(schemers::ParseError::UnexpectedEOI) => {}
        other => panic!("expected an unexpected-end error, got {:?}", other),
    }
}

#[test]
fn test_parse_empty_and_sibling_forms() {
    assert_eq!(parse(&vec![]).unwrap(), vec![]);
    assert_eq!(
        parse(&vec![
            Token::OpenParen,
            Token::CloseParen,
            Token::Boolean(true),
            Token::StringToken("s".to_string())
        ])
        .unwrap(),
        vec![
            List(vec![]),
            ASTNode::Boolean(true),
            ASTNode::StringNode("s".to_string())
        ]
    );
}
