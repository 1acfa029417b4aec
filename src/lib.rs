//! A small interactive shell's line parser: it turns one line of input into a
//! command name, its arguments and an optional output redirection, under
//! POSIX-like quoting rules. Beside it stand what the built-in commands
//! compute, command resolution and tab completion of command names.

pub mod text;
pub mod lexer;
pub mod assemble;
pub mod redirect;
pub mod parser;
pub mod builtin;
pub mod command;
pub mod autocomplete;

pub use assemble::{assemble, escape_double_quoted_arg};
pub use autocomplete::{Autocompleter, Command, Completion};
pub use builtin::{builtin_names, handle_echo_cmd, handle_exit_cmd, is_builtin, parse_status};
pub use command::{split_path, handle_type_cmd, CommandType};
pub use lexer::{tokenize, LexError, Token};
pub use parser::{parse_input, ParsedLine};
pub use redirect::{extract_redirection, Mode, Redirection, Stream};
