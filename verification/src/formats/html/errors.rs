//! The errors of the HTML tokenizer.
use vstd::prelude::*;

verus! {

/// What went wrong.
#[derive(Debug, PartialEq, Eq, Structural, Clone, Copy)]
pub enum ErrorKind {
    UnexpectedEndOfFile,
}

/// What went wrong, and the position in the input where it was noticed.
#[derive(Debug, PartialEq, Eq, Structural, Clone, Copy)]
pub struct Error {
    pub kind: ErrorKind,
    pub pos: usize,
}

impl ErrorKind {
    /// The human readable message of the kind.
    pub open spec fn message(&self) -> Seq<char> {
        match self {
            ErrorKind::UnexpectedEndOfFile => "Unexpected end of file"@,
        }
    }

    /// The human readable message of the kind.
    pub fn to_string(&self) -> (s: String)
        ensures
            s@ == self.message(),
    {
        match self {
            ErrorKind::UnexpectedEndOfFile => String::from_str("Unexpected end of file"),
        }
    }
}

impl Error {
    /// `Error ( kind: ` and the kind's message, then ` )`.
    pub fn to_string(&self) -> (s: String)
        ensures
            s@ == "Error ( kind: "@ + self.kind.message() + " )"@,
    {
        let mut s = String::from_str("Error ( kind: ");
        let k = self.kind.to_string();
        s.append(k.as_str());
        s.append(" )");
        s
    }
}

} // verus!
