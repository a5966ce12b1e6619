use vstd::prelude::*;

verus! {

/// The ways a completion request can fail.
#[derive(Debug, Clone, Copy, PartialEq, Eq, Structural)]
pub enum CompletionError {
    /// The line could not be parsed, even after closing open brackets.
    ParseError,
    /// The program, or the command under the cursor, is empty.
    NothingToComplete,
    /// A path-shaped node could not be reduced to a static path.
    InvalidPath,
    /// A segment of a nested field path names no field.
    UnknownMember,
    /// The node under the cursor is known, but completing it is not implemented.
    UnsupportedCompletionTarget,
    /// A directory could not be listed.
    IoError,
    /// A name was declared twice in one scope.
    AlreadyDeclared,
    /// A declaration was made in a scope that is read-only.
    ReadOnlyScope,
}

pub type CrushResult<T> = Result<T, CompletionError>;

} // verus!
