use schemers::Token;
use schemers::Token::Boolean;
use schemers::Token::CloseParen;
use schemers::Token::Integer;
use schemers::Token::OpenParen;
use schemers::Token::StringToken;
use schemers::LexerIterator;
use schemers::tokenize;

fn id(id: &str) -> Token {
    Token::Identifier(id.to_string())
}

#[test]
fn test_simple_expression_tokenize() {
    assert_eq!(
        tokenize("(+ 1 4)").unwrap(),
        vec![OpenParen, id("+"), Integer(1), Integer(4), CloseParen]
    );

    assert_eq!(
        tokenize("(-5)").unwrap(),
        vec![OpenParen, Integer(-5), CloseParen]
    );
}

#[test]
fn test_tokenize_invalid_syntax() {
    assert!(tokenize("(')").is_err());
    assert!(tokenize("+%").is_err());
    assert!(tokenize("(-23+)").is_err());
    assert!(tokenize("(24r2+)").is_err())
}

#[test]
fn test_white_space_tokenize() {
    assert_eq!(
        tokenize("(+ 3    2)\n(-  \n \t   2\t1 \t)\r\n \t \n").unwrap(),
        vec![
            OpenParen,
            id("+"),
            Integer(3),
            Integer(2),
            CloseParen,
            OpenParen,
            id("-"),
            Integer(2),
            Integer(1),
            CloseParen
        ]
    )
}

#[test]
fn test_tokenize_strings() {
    assert_eq!(
        tokenize("\"Sh!t and f*ck & stu$$$6!\"").unwrap(),
        vec![StringToken("Sh!t and f*ck & stu$$$6!".to_string())]
    );

    assert!(tokenize("\"down, down").is_err());
}

#[test]
fn test_integer_tokenize() {
    assert_eq!(
        tokenize("(+ -4 +1 -713 -5 6)").unwrap(),
        vec![
            OpenParen,
            id("+"),
            Integer(-4),
            Integer(1),
            Integer(-713),
            Integer(-5),
            Integer(6),
            CloseParen
        ]
    );

    assert_eq!(
        tokenize("(- 7 49)").unwrap(),
        vec![OpenParen, id("-"), Integer(7), Integer(49), CloseParen]
    );

    assert_eq!(
        tokenize("( - 778899 (+ 2131 4362))").unwrap(),
        vec![
            OpenParen,
            id("-"),
            Integer(778899),
            OpenParen,
            id("+"),
            Integer(2131),
            Integer(4362),
            CloseParen,
            CloseParen
        ]
    )
}

#[test]
fn test_identifiers() {
    for identifier in ["+", ">=", "ho!", "unless", "it", "$salam"].iter() {
        assert_eq!(tokenize(*identifier).unwrap(), vec![id(identifier)])
    }
}

#[test]
fn test_tokenize_booleans() {
    assert_eq!(tokenize("#t").unwrap(), vec![Boolean(true)]);
    assert_eq!(tokenize("#f").unwrap(), vec![Boolean(false)]);

    assert!(tokenize("#a").is_err());
    assert!(tokenize("#T").is_err());
}

#[test]
fn test_tokenize_reports_position_of_invalid_character() {
    match tokenize("(33^3)") {
        Err(schemers::SyntaxError::InvalidSymbol(line, column, message)) => {
            assert_eq!(line, 1);
            assert_eq!(column, 4);
            assert_eq!(
                message,
                "Unexpected symbol '^'. Expected white space or closing paren."
            );
        }
        other => panic!("expected an invalid-symbol error, got {:?}", other),
    }
}

#[test]
fn test_tokenize_boolean_at_end_of_input() {
    match tokenize("#") {
        Err(schemers::SyntaxError::UnexpectedEOL) => {}
        other => panic!("expected an unexpected-end error, got {:?}", other),
    }
}

#[test]
fn test_tokenize_string_keeps_newlines() {
    assert_eq!(
        tokenize("\"a\nb\"").unwrap(),
        vec![StringToken("a\nb".to_string())]
    );
}

#[test]
fn test_tokenize_integer_bounds() {
    assert_eq!(
        tokenize("9223372036854775807").unwrap(),
        vec![Integer(isize::MAX)]
    );
    assert_eq!(
        tokenize("-9223372036854775808").unwrap(),
        vec![Integer(isize::MIN)]
    );
    assert!(tokenize("9223372036854775808").is_err());
    assert!(tokenize("-9223372036854775809").is_err());
    assert!(tokenize("99999999999999999999").is_err());
}

#[test]
fn test_tokenize_identifiers_begun_by_ampersand_or_caret() {
    // `&` and `^` may begin an identifier, and the start character belongs
    // to it, although neither may continue one.
    assert_eq!(tokenize("&").unwrap(), vec![id("&")]);
    assert_eq!(tokenize("^").unwrap(), vec![id("^")]);
    assert_eq!(tokenize("&foo").unwrap(), vec![id("&foo")]);
    assert_eq!(tokenize("^2").unwrap(), vec![id("^2")]);
    assert!(tokenize("&&").is_err());
}

#[test]
fn test_lexer_iterator_scanning() {
    let mut it = LexerIterator::new("ab 12");
    assert_eq!(it.peek(), Some((0, 'a')));
    assert_eq!(it.next_identifier().unwrap(), id("ab"));
    assert_eq!(it.next(), Some((2, ' ')));
    assert_eq!(it.peek(), Some((3, '1')));
    assert_eq!(it.next_number('+').unwrap(), Integer(12));
    assert_eq!(it.peek(), None);
}
