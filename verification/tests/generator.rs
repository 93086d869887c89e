use may_rust::ast::{Ast, ProvidedServiceImplementation};
use may_rust::gen_python::{GenPython, PythonModule};
use may_rust::modules::speadl::parser::Parser;

fn s(text: &str) -> String {
    String::from(text)
}

fn parse(text: &str) -> Ast {
    let mut parser = Parser::new(text);
    parser.next_token();
    parser.namespace()
}

#[test]
fn generates_the_python_class_of_a_component() {
    let tree = parse(
        "import a.b.Parent
namespace ex.sub {
    component Child specializes Parent[T] {
        requires log: Logger
        provides run: Runnable = worker.run
        provides stop: Stoppable
        part worker: Worker[T] {
            bind log to printer.out
        }
    }
}",
    );
    let mut generator = GenPython::new(tree);
    assert_eq!(
        generator.generate(),
        Some(PythonModule {
            directory: vec![s("ex"), s("sub")],
            file_name: s("Child.py"),
            source: s("from a.b.Parent import *\n\nclass Child :\n\tdef __init__(self, log : Logger):\n\t\tself.log = log\n\t\tself.log = Worker(self.printer.out)\n\t\treturn\n\n\tdef run(self) -> Runnable:\n\t\treturn self.worker.run()\n\n\tdef stop(self) -> Stoppable:\n\t\treturn"),
        })
    );
}

#[test]
fn generates_a_class_with_no_services_but_one() {
    let mut generator = GenPython::new(parse("namespace n { component C { provides p: P part q: Q { } } }"));
    assert_eq!(
        generator.generate(),
        Some(PythonModule {
            directory: vec![s("n")],
            file_name: s("C.py"),
            source: s("\nclass C :\n\tdef __init__(self):\n\t\tself.q = Q()\n\t\treturn\n\n\tdef p(self) -> P:\n\t\treturn"),
        })
    );
}

#[test]
fn every_parsed_file_yields_a_python_file() {
    for text in [
        "namespace n { component C { provides p: P } }",
        "import x.y import z namespace a.b.c { component D specializes y [G] { requires r: R requires q: Q provides p: P = w.s part w: W { bind a to b bind c to d.e } part v: V [H] { } } }",
    ] {
        assert!(GenPython::new(parse(text)).generate().is_some());
    }
}

#[test]
fn an_unknown_item_in_the_component_body_writes_nothing() {
    let tree = Ast::SEQ(vec![Ast::Namespace {
        path: vec![s("n")],
        body: Box::new(Ast::Component {
            name: s("C"),
            specializes: None,
            generic: None,
            body: Box::new(Ast::SEQ(vec![
                Ast::Provides {
                    name: s("p"),
                    typ: s("P"),
                    implementation: ProvidedServiceImplementation::Local,
                },
                Ast::Bind {
                    name: s("b"),
                    target: vec![],
                },
            ])),
        }),
    }]);
    assert_eq!(GenPython::new(tree).generate(), None);
    assert_eq!(GenPython::new(Ast::Package { name: s("p") }).generate(), None);
}

#[test]
fn a_part_whose_body_starts_with_no_binding_keeps_its_name() {
    let tree = Ast::SEQ(vec![Ast::Namespace {
        path: vec![s("n")],
        body: Box::new(Ast::Component {
            name: s("C"),
            specializes: None,
            generic: None,
            body: Box::new(Ast::SEQ(vec![Ast::Part {
                name: s("w"),
                typ: s("W"),
                generic: None,
                body: Box::new(Ast::SEQ(vec![Ast::Package { name: s("x") }])),
            }])),
        }),
    }]);
    let module = GenPython::new(tree).generate().unwrap();
    assert_eq!(module.source, s("\nclass C :\n\tdef __init__(self):\n\t\tself.w = W()\n\t\treturn\n"));
}
