//! The errors of the scanner-based XML tokenizer.
use vstd::prelude::*;

verus! {

/// What went wrong.
#[derive(Debug, PartialEq, Eq, Structural, Clone, Copy)]
pub enum ErrorKind {
    UnexpectedEndOfFile,
    UnterminatedComment,
    UnterminatedAttributeName,
    UnterminatedAttributeValue,
    UnterminatedCharacterData,
    UnterminatedDocumentType,
    UnterminatedDeclaration,
    UnterminatedTagName,
    UnterminatedTag,
    UnterminatedExternalIdentifier,
    UnterminatedEntityDeclaration,
    UnexpectedAttributeFormat,
    UnknownExternalIdentifier,
}

/// What went wrong, and the position in the input where it was noticed.
#[derive(Debug, PartialEq, Eq, Structural, Clone, Copy)]
pub struct Error {
    pub kind: ErrorKind,
    pub pos: usize,
}

impl ErrorKind {
    /// The human readable message of the kind.
    pub open spec fn message(&self) -> Seq<char> {
        match self {
            ErrorKind::UnexpectedEndOfFile => "Unexpected end of file"@,
            ErrorKind::UnterminatedComment => "Unterminated comment"@,
            ErrorKind::UnterminatedAttributeName => "Unterminated attribute name"@,
            ErrorKind::UnterminatedAttributeValue => "Unterminated attribute value"@,
            ErrorKind::UnterminatedCharacterData => "Unterminated character data"@,
            ErrorKind::UnterminatedDocumentType => "Unterminated document type"@,
            ErrorKind::UnterminatedDeclaration => "Unterminated declaration"@,
            ErrorKind::UnterminatedTagName => "Unterminated tag name"@,
            ErrorKind::UnterminatedTag => "Unterminated tag"@,
            ErrorKind::UnterminatedExternalIdentifier => "Unterminated external identifier"@,
            ErrorKind::UnterminatedEntityDeclaration => "Unterminated entity declaration"@,
            ErrorKind::UnexpectedAttributeFormat => "Unexpected attribute format"@,
            ErrorKind::UnknownExternalIdentifier => "Unknown external identifier"@,
        }
    }

    /// The human readable message of the kind.
    pub fn to_string(&self) -> (s: String)
        ensures
            s@ == self.message(),
    {
        match self {
            ErrorKind::UnexpectedEndOfFile => String::from_str("Unexpected end of file"),
            ErrorKind::UnterminatedComment => String::from_str("Unterminated comment"),
            ErrorKind::UnterminatedAttributeName => String::from_str("Unterminated attribute name"),
            ErrorKind::UnterminatedAttributeValue => String::from_str("Unterminated attribute value"),
            ErrorKind::UnterminatedCharacterData => String::from_str("Unterminated character data"),
            ErrorKind::UnterminatedDocumentType => String::from_str("Unterminated document type"),
            ErrorKind::UnterminatedDeclaration => String::from_str("Unterminated declaration"),
            ErrorKind::UnterminatedTagName => String::from_str("Unterminated tag name"),
            ErrorKind::UnterminatedTag => String::from_str("Unterminated tag"),
            ErrorKind::UnterminatedExternalIdentifier => String::from_str(
                "Unterminated external identifier",
            ),
            ErrorKind::UnterminatedEntityDeclaration => String::from_str(
                "Unterminated entity declaration",
            ),
            ErrorKind::UnexpectedAttributeFormat => String::from_str("Unexpected attribute format"),
            ErrorKind::UnknownExternalIdentifier => String::from_str("Unknown external identifier"),
        }
    }
}

impl Error {
    /// `Error ( kind: <message> )`.
    pub fn to_string(&self) -> (s: String)
        ensures
            s@ == "Error ( kind: "@ + self.kind.message() + " )"@,
    {
        let mut s = String::from_str("Error ( kind: ");
        let k = self.kind.to_string();
        s.append(k.as_str());
        s.append(" )");
        s
    }
}

} // verus!
