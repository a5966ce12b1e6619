//! Line completion for an interactive command shell.
mod ast;
mod classify;
mod closer;
mod completion;
mod constants;
mod errors;
mod lexer;
mod lister;
mod locate;
mod parser;
mod scope;
mod text;

pub use ast::{CommandNode, JobListNode, JobNode, Location, Node, TokenNode, TokenType};
pub use errors::{CompletionError, CrushResult};
pub use closer::close_command;
pub use lexer::tokenize;
pub use parser::ast;
pub use locate::{find_command_in_command, find_command_in_expression, find_command_in_job, find_command_in_job_list};
pub use scope::{Scope, Value, ValueType};
pub use lister::DirectoryLister;
pub use classify::{classify, classify_parsed, parse, ArgumentView, CompletionCommand, LastArgument, ParseResult, ParseView, PartialCommandResult};
pub use completion::{complete, complete_parsed, directory_needed, Completion, ParseState};
pub use constants::declare;
