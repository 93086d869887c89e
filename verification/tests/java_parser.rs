use may_rust::ast::Ast;
use may_rust::module::parser::lexer::token::Token as FlatJavaToken;
use may_rust::module::parser::Parser as FlatJavaParser;
use may_rust::modules::common::error::SyntaxError;
use may_rust::modules::common::token::{CommonToken, Token};
use may_rust::modules::java::grammar::Context;
use may_rust::modules::java::lexer::Lexer;
use may_rust::modules::java::parser::Parser;
use may_rust::modules::java::token::JavaTokenExtension;

fn expected_start_class() -> Ast {
    Ast::SEQ(vec![
        Ast::Package {
            name: String::from("ex1"),
        },
        Ast::Class {
            name: String::from("Start"),
            access: Some(String::from("public")),
            body: Box::new(Ast::Function {
                name: String::from("go"),
                typ: String::from("void"),
                access: Some(String::from("public")),
                body: None,
            }),
        },
    ])
}

#[test]
fn parses_java_using_shared_and_java_tokens() {
    let mut parser = Parser::new("package ex1; public class Start { public void go() {} }");
    parser.next_token();

    assert_eq!(
        parser.class(),
        Ast::SEQ(vec![
            Ast::Package {
                name: String::from("ex1"),
            },
            Ast::Class {
                name: String::from("Start"),
                access: Some(String::from("public")),
                body: Box::new(Ast::Function {
                    name: String::from("go"),
                    typ: String::from("void"),
                    access: Some(String::from("public")),
                    body: None,
                }),
            },
        ])
    );
}

#[test]
fn java_lexer_reads_every_token_kind() {
    let mut lexer = Lexer::new("package public class name_1 ; { } ( ) 42");
    let expected = vec![
        Token::Extended(JavaTokenExtension::Package),
        Token::Extended(JavaTokenExtension::Public),
        Token::Extended(JavaTokenExtension::Class),
        Token::Common(CommonToken::Identifier(String::from("name_1"))),
        Token::Common(CommonToken::Semicolon),
        Token::Common(CommonToken::Lbrace),
        Token::Common(CommonToken::Rbrace),
        Token::Common(CommonToken::Lparentheses),
        Token::Common(CommonToken::Rparentheses),
        Token::Common(CommonToken::Identifier(String::from("42"))),
        Token::Common(CommonToken::EOF),
        Token::Common(CommonToken::EOF),
    ];
    for token in expected {
        assert_eq!(lexer.try_next_token(), Ok(token));
    }
}

#[test]
fn java_lexer_rejects_a_dot() {
    let mut lexer = Lexer::new("a.b");
    assert_eq!(
        lexer.try_next_token(),
        Ok(Token::Common(CommonToken::Identifier(String::from("a"))))
    );
    assert_eq!(lexer.try_next_token(), Err('.'));
}

#[test]
fn java_keywords_are_reserved_but_longer_words_are_names() {
    let mut lexer = Lexer::new("classes class");
    assert_eq!(
        lexer.next_token(),
        Token::Common(CommonToken::Identifier(String::from("classes")))
    );
    assert_eq!(lexer.next_token(), Token::Extended(JavaTokenExtension::Class));
}

#[test]
fn java_class_without_package_or_access() {
    let mut parser = Parser::new("class A { int f() {} }");
    parser.next_token();
    assert_eq!(
        parser.try_class(),
        Ok(Ast::SEQ(vec![Ast::Class {
            name: String::from("A"),
            access: None,
            body: Box::new(Ast::Function {
                name: String::from("f"),
                typ: String::from("int"),
                access: None,
                body: None,
            }),
        }]))
    );
}

#[test]
fn java_errors_name_the_missing_token() {
    let mut parser = Parser::new("package p public class A { void f() {} }");
    parser.next_token();
    assert_eq!(
        parser.try_class(),
        Err(SyntaxError::Unexpected {
            found: Token::Extended(JavaTokenExtension::Public),
            expected: Token::Common(CommonToken::Semicolon),
            context: Context::AfterPackageDeclaration,
        })
    );

    let mut parser = Parser::new("class { }");
    parser.next_token();
    assert_eq!(
        parser.try_class(),
        Err(SyntaxError::ExpectedIdentifier {
            found: Token::Common(CommonToken::Lbrace),
        })
    );

    let mut parser = Parser::new("class A { void f() {} } #");
    parser.next_token();
    assert_eq!(parser.try_class(), Err(SyntaxError::InvalidCharacter('#')));
}

#[test]
fn flat_token_parser_agrees_with_the_java_parser() {
    let mut parser = FlatJavaParser::new("package ex1; public class Start { public void go() {} }");
    parser.next_token();
    assert_eq!(parser.class(), expected_start_class());

    let mut parser = FlatJavaParser::new("public class { }");
    parser.next_token();
    assert_eq!(
        parser.try_class(),
        Err(SyntaxError::ExpectedIdentifier {
            found: FlatJavaToken::Lbrace,
        })
    );
}
