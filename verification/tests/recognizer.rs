use may_rust::modules::common::error::SyntaxError;
use may_rust::parser::lexer::token::Token;
use may_rust::parser::lexer::Lexer;
use may_rust::parser::{Site, Parser};

fn recognize(text: &str) -> Result<(), SyntaxError<Token, Site>> {
    let mut parser = Parser::new(text);
    parser.try_next_token()?;
    parser.try_namespace()
}

#[test]
fn recognizes_a_full_component() {
    let mut parser = Parser::new(
        "import a.b.Parent namespace ex.sub { component Child specializes Parent[T] { requires log: Logger provides run: Runnable = worker.run provides stop: Stoppable part worker: Worker[T] { bind log to printer.out } } }",
    );
    parser.next_token();
    parser.namespace();
    assert_eq!(parser.token, Token::EOF);
}

#[test]
fn one_enum_lexer_reads_speadl_tokens() {
    let mut lexer = Lexer::new("x.y: = {}[] to");
    let expected = vec![
        Token::Identifier(String::from("x")),
        Token::Dot,
        Token::Identifier(String::from("y")),
        Token::Colon,
        Token::Equals,
        Token::Lbrace,
        Token::Rbrace,
        Token::Lbracket,
        Token::Rbracket,
        Token::To,
        Token::EOF,
    ];
    for token in expected {
        assert_eq!(lexer.next_token(), token);
    }
}

#[test]
fn recognizer_errors_name_their_site() {
    assert_eq!(
        recognize("namespace n component C"),
        Err(SyntaxError::Unexpected {
            found: Token::Component,
            expected: Token::Lbrace,
            context: Site::Namespace2,
        })
    );
    assert_eq!(
        recognize("namespace n { component C [G { provides p: P } }"),
        Err(SyntaxError::Unexpected {
            found: Token::Lbrace,
            expected: Token::Rbracket,
            context: Site::Component2,
        })
    );
    assert_eq!(
        recognize("namespace n { component C { } }"),
        Err(SyntaxError::MissingProvides { found: Token::Rbrace })
    );
    assert_eq!(
        recognize("namespace n.{"),
        Err(SyntaxError::ExpectedIdentifier { found: Token::Lbrace })
    );
    assert_eq!(recognize("namespace ("), Err(SyntaxError::InvalidCharacter('(')));
}
