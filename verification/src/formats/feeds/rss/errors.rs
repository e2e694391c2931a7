//! What reading an RSS document can fail with.
use vstd::prelude::*;
use crate::text::utf8_error_string;

verus! {

/// An error of the RSS reader.
#[derive(Debug)]
pub enum Error {
    Utf8Parse(std::str::Utf8Error),
    Other(String),
    ElementMismatch { expected: String, found: String },
    UnexpectedRssChannelElement(String),
}

/// An error, with its texts taken as values; what a UTF-8 error holds is left
/// out.
pub enum ErrorView {
    Utf8Parse,
    Other(Seq<char>),
    ElementMismatch { expected: Seq<char>, found: Seq<char> },
    UnexpectedRssChannelElement(Seq<char>),
}

impl View for Error {
    type V = ErrorView;

    open spec fn view(&self) -> ErrorView {
        match self {
            Error::Utf8Parse(_) => ErrorView::Utf8Parse,
            Error::Other(s) => ErrorView::Other(s@),
            Error::ElementMismatch { expected, found } => ErrorView::ElementMismatch {
                expected: expected@,
                found: found@,
            },
            Error::UnexpectedRssChannelElement(s) => ErrorView::UnexpectedRssChannelElement(s@),
        }
    }
}

impl Error {
    /// The error's message. For a UTF-8 error it is the decoder's own message,
    /// which is not stated here.
    pub fn to_string(&self) -> (s: String)
        ensures
            match self@ {
                ErrorView::Utf8Parse => true,
                ErrorView::Other(e) => s@ == e,
                ErrorView::ElementMismatch { expected, found } => s@ == "Element mismatch. Expected: "@
                    + expected + ", found: "@ + found,
                ErrorView::UnexpectedRssChannelElement(e) => s@ == "Unexpected rss channel element: "@
                    + e,
            },
    {
        match self {
            Error::Utf8Parse(e) => utf8_error_string(e),
            Error::Other(e) => e.clone(),
            Error::ElementMismatch { expected, found } => {
                let mut s = String::from_str("Element mismatch. Expected: ");
                s.append(expected.as_str());
                s.append(", found: ");
                s.append(found.as_str());
                s
            },
            Error::UnexpectedRssChannelElement(e) => {
                let mut s = String::from_str("Unexpected rss channel element: ");
                s.append(e.as_str());
                s
            },
        }
    }
}

impl From<std::str::Utf8Error> for Error {
    fn from(value: std::str::Utf8Error) -> Self {
        Error::Utf8Parse(value)
    }
}

impl vstd::std_specs::convert::FromSpecImpl<std::str::Utf8Error> for Error {
    open spec fn obeys_from_spec() -> bool {
        true
    }

    open spec fn from_spec(v: std::str::Utf8Error) -> Self {
        Error::Utf8Parse(v)
    }
}

} // verus!
