//! Front end and lowering of a small statically typed language.

// From typed trees to machine code.
pub mod lower;
pub mod show;
pub mod codegen;
pub mod native;
pub mod agreement;
pub mod machine;
pub mod barrier;
pub mod meaning;
pub mod shapes;
pub mod running;
pub mod aliasing;
pub mod calling;
pub mod walking;
pub mod branching;
pub mod indexing;
pub mod sameness;
pub mod arity;
pub mod emit;
pub mod ir;

// From text to syntax trees, and back.
pub mod grammar;
pub mod inspect;
pub mod parser;
pub mod precedence;
pub mod phrases;
pub mod lexer;
pub mod spellings;
pub mod display;
pub mod diagnostics;
pub mod markers;
pub mod expression;
pub mod notation;
pub mod number;
pub mod tokens;
pub mod type_expr;

// Programs of several files.
pub mod rename;
pub mod mention;
pub mod type_mention;
pub mod modules;
pub mod imports;

// Ownership.
pub mod flow;
pub mod liveness;
pub mod linear;
pub mod dump;

// Types, layouts and values.
pub mod layout;
pub mod pack;
pub mod fields;
pub mod host;
pub mod numbering;
pub mod typed_ast;
pub mod types;

// Strings and the command line.
pub mod cli;
pub mod text;
