//! The verified core of a small interactive shell: the command-line lexer,
//! command dispatch, and the pure parts of the built-in commands.
pub mod builtins;
pub mod builtins_laws;
pub mod fmt;
pub mod input;
pub mod input_laws;
pub mod lexer_laws;
pub mod ls;
pub mod ls_laws;
pub mod options;
pub mod parser;
pub mod path_laws;
pub mod paths;
pub mod shell;
pub mod text;
pub mod time;
