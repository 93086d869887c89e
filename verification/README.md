# may_rust

Lexers and recursive-descent parsers for the SpeADL component description
language and for a small subset of Java, and a generator that turns a SpeADL
component into a Python class. Every part of the library is verified with Verus.

## Layout

- `src/modules/common/`: the character reader shared by the lexers, the tokens
  shared by both languages, and the syntax-error type.
- `src/modules/speadl/`: the SpeADL lexer, its grammar written as specification
  functions over the lexer's states (`grammar.rs`), and the parser proved to
  follow it.
- `src/modules/java/`: the same for the Java subset.
- `src/parser/`: a SpeADL recognizer over one-enum tokens; it accepts exactly the
  files that the SpeADL parser parses.
- `src/module/parser/`: the Java parser over one-enum tokens.
- `src/ast.rs`: the syntax tree and its mathematical value.
- `src/gen_python.rs`: what the generator gathers from a tree, and the text of
  the Python class.
- `src/cli.rs`: the command-line options and the assignment of output paths.
- `src/laws.rs`: properties that relate the lexers, the parsers and the generator.
- `app/main.rs`: the program: reads files, looks up the files of specialized
  parents, prints the tree and writes the generated Python.
