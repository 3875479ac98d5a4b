//! Errors reported by the codec.
use vstd::prelude::*;
use vstd::string::*;

verus! {

/// The class of a failure.
#[derive(Clone, Copy, Debug, PartialEq, Eq, Structural)]
pub enum ErrorKind {
    /// A malformed schema description or impossible data-type parameters.
    SchemaInvalid,
    /// A value that does not match the type expected at its position.
    SchemaMismatch,
    /// A number that does not fit the target column.
    OutOfRange,
    /// A string that could not be read as a date or a decimal.
    Parse,
    /// An unbalanced stream, a missing required field or a duplicate field.
    StructuralError,
    /// A data type that the builders or sources do not handle.
    Unsupported,
    /// A broken internal invariant.
    Internal,
}

/// A failure together with a human-readable message.
#[derive(Clone, Debug)]
pub struct Error {
    pub kind: ErrorKind,
    pub message: String,
}

impl Error {
    /// Builds an error of the given kind.
    pub fn new(kind: ErrorKind, message: &str) -> (e: Error)
        ensures
            e.kind == kind,
            e.message@ == message@,
    {
        Error { kind, message: message.to_owned() }
    }

    /// The text of the error: the word `Error`, a colon and the message.
    pub fn to_string(&self) -> (text: String)
        ensures
            text@ == "Error: "@ + self.message@,
    {
        let mut text = "Error: ".to_owned();
        text.append(self.message.as_str());
        text
    }

    /// The error with a context in front of its message: `context: message`.
    pub fn within(self, context: &str) -> (e: Error)
        ensures
            e.kind == self.kind,
            e.message@ == context@ + ": "@ + self.message@,
    {
        let mut message = context.to_owned();
        message.append(": ");
        message.append(self.message.as_str());
        Error { kind: self.kind, message }
    }

    /// The kind of this error.
    pub fn kind(&self) -> (k: ErrorKind)
        ensures
            k == self.kind,
    {
        self.kind
    }
}

} // verus!
