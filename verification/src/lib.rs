//! The core of a stack-based array language, and the rules of the tools
//! around it, with their proofs.
//!
//! Values are arrays of numbers, characters or functions. Code is read from
//! the right end of each line to its left, and works on one stack.
//!
//! The values:
//! [`shape`] (shapes, and which shapes fit each other),
//! [`array`] (arrays of elements of one type),
//! [`fill`] (filling up rows of different shapes),
//! [`number`] (whole numbers among the floating-point numbers),
//! [`chars`] (arithmetic on characters),
//! [`value`] (arrays of the three types), and
//! [`error`] (what can go wrong).
//!
//! The text:
//! [`text`] and [`seqs`] (strings as sequences of characters),
//! [`lex`] (words, literals and comments),
//! [`primitive`] (the built-ins, their names and glyphs),
//! [`format`] and [`format_laws`] (formatting; that a word which begins two
//! names is refused, and that formatting is idempotent),
//! [`token`] and [`code`] (tokens, and the partners of brackets), and
//! [`dfn`] (how many arguments a dfn takes).
//!
//! The machine:
//! [`names`] and [`scope`] (bindings and scopes),
//! [`import`] (files are run once),
//! [`machine`], [`calls`] and [`modules`] (the stack and what works on it), and
//! [`interpreter`] with [`semantics`] (carrying out code step by step, with a
//! host that does the arithmetic on numbers and reads the files).
//!
//! The tools:
//! [`cli`] (what each command does, and where it ends),
//! [`files`] (which file a command works on),
//! [`watch`] and [`terminal`] (running a file again when it changes), and
//! [`tutorial`] (the pages of the tutorial).

pub mod array;
pub mod calls;
pub mod chars;
pub mod cli;
pub mod code;
pub mod dfn;
pub mod error;
pub mod files;
pub mod fill;
pub mod format;
pub mod format_laws;
pub mod import;
pub mod interpreter;
pub mod lex;
pub mod machine;
pub mod modules;
pub mod names;
pub mod number;
pub mod primitive;
pub mod scope;
pub mod semantics;
pub mod seqs;
pub mod shape;
pub mod terminal;
pub mod text;
pub mod token;
pub mod tutorial;
pub mod value;
pub mod watch;
