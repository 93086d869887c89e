//! Lexers, recursive-descent parsers and a Python code generator for the
//! SpeADL component description language and for a small subset of Java.

pub mod ast;
pub mod cli;
pub mod gen_python;
pub mod laws;
pub mod module;
pub mod modules;
pub mod parser;
