use may_rust::ast::{Ast, ProvidedServiceImplementation, ServiceReference, Specializes};
use may_rust::modules::common::error::SyntaxError;
use may_rust::modules::common::token::{CommonToken, Token};
use may_rust::modules::speadl::grammar::Context;
use may_rust::modules::speadl::lexer::Lexer;
use may_rust::modules::speadl::parser::{
    attach_specialized_parent_to_imports, with_parent_file, Parser,
};
use may_rust::modules::speadl::token::SpeadlTokenExtension;

const CHILD: &str = "import a.b.Parent
namespace ex.sub {
    component Child specializes Parent[T] {
        requires log: Logger
        provides run: Runnable = worker.run
        provides stop: Stoppable
        part worker: Worker[T] {
            bind log to printer.out
        }
    }
}
";

fn s(text: &str) -> String {
    String::from(text)
}

fn strings(items: &[&str]) -> Vec<String> {
    items.iter().map(|x| s(x)).collect()
}

fn child_component(parent_file: Option<Box<Ast>>) -> Ast {
    Ast::Component {
        name: s("Child"),
        specializes: Some(Specializes {
            parent: s("Parent"),
            parent_file,
        }),
        generic: Some(s("T")),
        body: Box::new(Ast::SEQ(vec![
            Ast::Requires {
                name: s("log"),
                typ: s("Logger"),
            },
            Ast::Provides {
                name: s("run"),
                typ: s("Runnable"),
                implementation: ProvidedServiceImplementation::Delegated(ServiceReference {
                    part_name: s("worker"),
                    service_name: s("run"),
                }),
            },
            Ast::Provides {
                name: s("stop"),
                typ: s("Stoppable"),
                implementation: ProvidedServiceImplementation::Local,
            },
            Ast::Part {
                name: s("worker"),
                typ: s("Worker"),
                generic: Some(s("T")),
                body: Box::new(Ast::SEQ(vec![Ast::Bind {
                    name: s("log"),
                    target: strings(&["printer", "out"]),
                }])),
            },
        ])),
    }
}

fn child_tree() -> Ast {
    Ast::SEQ(vec![
        Ast::Import {
            path: strings(&["a", "b", "Parent"]),
            ast: None,
        },
        Ast::Namespace {
            path: strings(&["ex", "sub"]),
            body: Box::new(child_component(None)),
        },
    ])
}

fn parse(text: &str) -> Result<Ast, SyntaxError<Token<SpeadlTokenExtension>, Context>> {
    let mut parser = Parser::new(text);
    parser.try_next_token()?;
    parser.try_namespace()
}

#[test]
fn speadl_lexer_reads_every_token_kind() {
    let mut lexer = Lexer::new(
        "import namespace component specializes provides requires part bind to x . : = { } [ ]",
    );
    let expected = vec![
        Token::Extended(SpeadlTokenExtension::Import),
        Token::Extended(SpeadlTokenExtension::Namespace),
        Token::Extended(SpeadlTokenExtension::Component),
        Token::Extended(SpeadlTokenExtension::Specializes),
        Token::Extended(SpeadlTokenExtension::Provides),
        Token::Extended(SpeadlTokenExtension::Requires),
        Token::Extended(SpeadlTokenExtension::Part),
        Token::Extended(SpeadlTokenExtension::Bind),
        Token::Extended(SpeadlTokenExtension::To),
        Token::Common(CommonToken::Identifier(s("x"))),
        Token::Common(CommonToken::Dot),
        Token::Common(CommonToken::Colon),
        Token::Common(CommonToken::Equals),
        Token::Common(CommonToken::Lbrace),
        Token::Common(CommonToken::Rbrace),
        Token::Common(CommonToken::Lbracket),
        Token::Common(CommonToken::Rbracket),
        Token::Common(CommonToken::EOF),
    ];
    for token in expected {
        assert_eq!(lexer.try_next_token(), Ok(token));
    }
}

#[test]
fn speadl_lexer_rejects_a_semicolon() {
    let mut lexer = Lexer::new(" ;");
    assert_eq!(lexer.try_next_token(), Err(';'));
}

#[test]
fn whitespace_before_a_token_is_ignored() {
    let mut spaced = Lexer::new(" \t\r\n\u{a0}\u{2003}\u{3000} part");
    let mut bare = Lexer::new("part");
    assert_eq!(spaced.next_token(), bare.next_token());
    assert_eq!(spaced.next_token(), Token::Common(CommonToken::EOF));
}

#[test]
fn keywords_are_reserved_but_longer_words_are_names() {
    let mut lexer = Lexer::new("importer import to_x");
    assert_eq!(
        lexer.next_token(),
        Token::Common(CommonToken::Identifier(s("importer")))
    );
    assert_eq!(lexer.next_token(), Token::Extended(SpeadlTokenExtension::Import));
    assert_eq!(
        lexer.next_token(),
        Token::Common(CommonToken::Identifier(s("to_x")))
    );
}

#[test]
fn lexer_from_starts_over_on_the_same_text() {
    let mut lexer = Lexer::new("a b");
    assert_eq!(lexer.next_token(), Token::Common(CommonToken::Identifier(s("a"))));
    assert_eq!(lexer.next_token(), Token::Common(CommonToken::Identifier(s("b"))));
    let mut again = Lexer::from(&lexer);
    assert_eq!(again.next_token(), Token::Common(CommonToken::Identifier(s("a"))));
}

#[test]
fn parses_a_full_component() {
    let mut parser = Parser::new(CHILD);
    parser.next_token();
    assert_eq!(parser.namespace(), child_tree());
    assert_eq!(parser.token, Token::Common(CommonToken::EOF));
    assert_eq!(parser.find_import(&s("Parent")), Some(strings(&["a", "b", "Parent"])));
    assert_eq!(parser.find_import(&s("b")), None);
}

#[test]
fn parses_a_minimal_component() {
    assert_eq!(
        parse("namespace n { component C { provides p: P } }"),
        Ok(Ast::SEQ(vec![Ast::Namespace {
            path: strings(&["n"]),
            body: Box::new(Ast::Component {
                name: s("C"),
                specializes: None,
                generic: None,
                body: Box::new(Ast::SEQ(vec![Ast::Provides {
                    name: s("p"),
                    typ: s("P"),
                    implementation: ProvidedServiceImplementation::Local,
                }])),
            }),
        }]))
    );
}

#[test]
fn a_part_without_bindings_has_an_empty_body() {
    let tree = parse("namespace n { component C { provides p: P part q: Q { } } }").unwrap();
    let Ast::SEQ(nodes) = tree else { panic!("not a sequence") };
    let Ast::Namespace { body, .. } = &nodes[0] else { panic!("not a namespace") };
    let Ast::Component { body, .. } = &**body else { panic!("not a component") };
    let Ast::SEQ(items) = &**body else { panic!("not a sequence") };
    assert_eq!(
        items[1],
        Ast::Part {
            name: s("q"),
            typ: s("Q"),
            generic: None,
            body: Box::new(Ast::SEQ(vec![])),
        }
    );
}

#[test]
fn a_component_without_provides_is_refused() {
    assert_eq!(
        parse("namespace n { component C { requires r: R } }"),
        Err(SyntaxError::MissingProvides {
            found: Token::Common(CommonToken::Rbrace),
        })
    );
}

#[test]
fn a_missing_brace_is_reported_with_its_place() {
    assert_eq!(
        parse("namespace n component C"),
        Err(SyntaxError::Unexpected {
            found: Token::Extended(SpeadlTokenExtension::Component),
            expected: Token::Common(CommonToken::Lbrace),
            context: Context::BeforeNamespaceBody,
        })
    );
    assert_eq!(
        parse("namespace n { component C { provides p P } }"),
        Err(SyntaxError::Unexpected {
            found: Token::Common(CommonToken::Identifier(s("P"))),
            expected: Token::Common(CommonToken::Colon),
            context: Context::AfterProvidedServiceName,
        })
    );
}

#[test]
fn a_missing_name_is_reported() {
    assert_eq!(
        parse("namespace { }"),
        Err(SyntaxError::ExpectedIdentifier {
            found: Token::Common(CommonToken::Lbrace),
        })
    );
}

#[test]
fn an_invalid_character_stops_the_parse() {
    assert_eq!(
        parse("namespace n { component C @ }"),
        Err(SyntaxError::InvalidCharacter('@'))
    );
}

#[test]
fn garbage_after_the_closing_brace_is_read_only_once() {
    assert!(parse("namespace n { component C { provides p: P } } x ; ;").is_ok());
    assert_eq!(
        parse("namespace n { component C { provides p: P } } ;"),
        Err(SyntaxError::InvalidCharacter(';'))
    );
}

#[test]
fn no_parent_file_keeps_the_tree() {
    let tree = parse(CHILD).unwrap();
    assert_eq!(with_parent_file(tree.duplicate(), None), tree);
}

#[test]
fn the_parent_file_goes_to_the_component_and_its_import() {
    let parent = parse("namespace a.b { component Parent { provides p: P } }").unwrap();
    let linked = with_parent_file(parse(CHILD).unwrap(), Some(Box::new(parent.duplicate())));
    assert_eq!(
        linked,
        Ast::SEQ(vec![
            Ast::Import {
                path: strings(&["a", "b", "Parent"]),
                ast: Some(Box::new(parent.duplicate())),
            },
            Ast::Namespace {
                path: strings(&["ex", "sub"]),
                body: Box::new(child_component(Some(Box::new(parent)))),
            },
        ])
    );
}

#[test]
fn only_the_first_matching_import_gets_the_parent() {
    let file = Box::new(Ast::SEQ(vec![]));
    let component = Ast::Component {
        name: s("C"),
        specializes: Some(Specializes {
            parent: s("P"),
            parent_file: Some(file.duplicate_box()),
        }),
        generic: None,
        body: Box::new(Ast::SEQ(vec![])),
    };
    let mut imports = vec![
        Ast::Import { path: strings(&["x", "Q"]), ast: None },
        Ast::Import { path: strings(&["x", "P"]), ast: None },
        Ast::Import { path: strings(&["y", "P"]), ast: None },
    ];
    attach_specialized_parent_to_imports(&mut imports, &component);
    assert_eq!(
        imports,
        vec![
            Ast::Import { path: strings(&["x", "Q"]), ast: None },
            Ast::Import { path: strings(&["x", "P"]), ast: Some(file) },
            Ast::Import { path: strings(&["y", "P"]), ast: None },
        ]
    );
}

trait DuplicateBox {
    fn duplicate_box(&self) -> Box<Ast>;
}

impl DuplicateBox for Box<Ast> {
    fn duplicate_box(&self) -> Box<Ast> {
        Box::new(self.duplicate())
    }
}

#[test]
fn new_with_path_records_the_directory() {
    let parser = Parser::new_with_path("namespace n {}", Some(s("dir/sub")));
    assert_eq!(parser.source_dir(), Some(&s("dir/sub")));
    assert_eq!(Parser::new("").source_dir(), None);
}
