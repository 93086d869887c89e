use may_rust::ast::Ast;
use may_rust::modules::common::lexer::{is_whitespace_char, is_word_character, CharReader};
use may_rust::modules::common::token::{CommonToken, Token};
use may_rust::modules::java::token::JavaTokenExtension;

#[test]
fn reads_words_and_skips_whitespace() {
    let mut reader = CharReader::new("  ab_9 é");
    reader.skip_whitespace();
    assert_eq!(reader.current_char(), Some('a'));
    assert_eq!(reader.read_identifier(), String::from("ab_9"));
    assert_eq!(reader.current_char(), Some(' '));
    reader.skip_whitespace();
    assert_eq!(reader.current_char(), Some('é'));
    assert_eq!(reader.read_identifier(), String::new());
    reader.next_char();
    assert_eq!(reader.current_char(), None);
    reader.next_char();
    assert_eq!(reader.current_char(), None);
    let again = reader.reset();
    assert_eq!(again.current_char(), Some(' '));
}

#[test]
fn classifies_characters_as_std_does() {
    for c in ['\t', '\n', '\u{b}', '\u{c}', '\r', ' ', '\u{85}', '\u{a0}', '\u{1680}', '\u{2000}', '\u{200a}', '\u{2028}', '\u{2029}', '\u{202f}', '\u{205f}', '\u{3000}', 'a', '\u{200b}', '\u{180e}', '_'] {
        assert_eq!(is_whitespace_char(c), c.is_whitespace());
    }
    for c in ['a', 'z', 'A', 'Z', '0', '9', '_', '-', 'é', ' '] {
        assert_eq!(is_word_character(c), c.is_ascii_alphanumeric() || c == '_');
    }
}

#[test]
fn tokens_compare_and_copy() {
    let a: Token<JavaTokenExtension> = Token::Common(CommonToken::Identifier(String::from("x")));
    let b: Token<JavaTokenExtension> = Token::Common(CommonToken::Identifier(String::from("y")));
    assert!(a.same(&a.duplicate()));
    assert!(!a.same(&b));
    assert!(!a.same(&Token::Extended(JavaTokenExtension::Class)));
    assert_eq!(a.duplicate(), a);
}

#[test]
fn trees_copy_to_equal_trees() {
    let tree = Ast::SEQ(vec![
        Ast::Package { name: String::from("p") },
        Ast::Function {
            name: String::from("f"),
            typ: String::from("void"),
            access: None,
            body: Some(Box::new(Ast::SEQ(vec![]))),
        },
    ]);
    assert_eq!(tree.duplicate(), tree);
}
