//! The core of an interactive shell: splitting a line into tokens under
//! shell quoting rules, resolving a command name to a builtin or to a file on
//! the search path, and deciding what one line of input does.

pub mod builtins;
pub mod executables;
pub mod repl;
pub mod search_path;
pub mod text;
pub mod tokenizer;
