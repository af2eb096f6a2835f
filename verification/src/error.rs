//! The errors of the library.

use crate::ident::Ident;
use vstd::prelude::*;
use vstd::string::*;

verus! {

/// The ways in which the byte stream itself can fail.
#[derive(Clone, Copy, Debug, PartialEq, Eq, Structural)]
pub enum IoErrorKind {
    /// The stream ended before the bytes asked for.
    UnexpectedEof,
    /// A position outside of what can be addressed.
    InvalidInput,
}

/// The kinds of errors.
#[derive(Clone, Debug, PartialEq, Eq)]
pub enum ErrorKind {
    /// The byte stream failed.
    Io(IoErrorKind),
    /// The structure of the file does not fit what it declares.
    Parsing,
    /// An atom that is needed is missing. Holds its identifier.
    AtomNotFound(Ident),
    /// A version of an atom that is not known. Holds the version.
    UnknownVersion(u8),
    /// The file type atom names a brand that is not supported. Holds the
    /// brand.
    InvalidFiletype(String),
    /// The file type atom is missing or holds no text.
    NoTag,
    /// The change would need a transformation that is not supported. Holds
    /// what it is.
    Unsupported(String),
}

/// The mathematical value of an [`ErrorKind`].
pub enum ErrorKindView {
    Io(IoErrorKind),
    Parsing,
    AtomNotFound(Ident),
    UnknownVersion(u8),
    InvalidFiletype(Seq<char>),
    NoTag,
    Unsupported(Seq<char>),
}

impl View for ErrorKind {
    type V = ErrorKindView;

    open spec fn view(&self) -> ErrorKindView {
        match self {
            ErrorKind::Io(k) => ErrorKindView::Io(*k),
            ErrorKind::Parsing => ErrorKindView::Parsing,
            ErrorKind::AtomNotFound(i) => ErrorKindView::AtomNotFound(*i),
            ErrorKind::UnknownVersion(v) => ErrorKindView::UnknownVersion(*v),
            ErrorKind::InvalidFiletype(s) => ErrorKindView::InvalidFiletype(s@),
            ErrorKind::NoTag => ErrorKindView::NoTag,
            ErrorKind::Unsupported(s) => ErrorKindView::Unsupported(s@),
        }
    }
}

/// An error: its kind and a description for a reader.
#[derive(Clone, Debug, PartialEq, Eq)]
pub struct Error {
    /// The kind of the error.
    pub kind: ErrorKind,
    /// What went wrong, in words.
    pub description: String,
}

/// The mathematical value of an [`Error`].
pub struct ErrorView {
    pub kind: ErrorKindView,
    pub description: Seq<char>,
}

impl View for Error {
    type V = ErrorView;

    open spec fn view(&self) -> ErrorView {
        ErrorView { kind: self.kind@, description: self.description@ }
    }
}

/// The error of the given kind and description.
pub open spec fn error(kind: ErrorKindView, description: &str) -> ErrorView {
    ErrorView { kind, description: description@ }
}

/// The error that a read past the end of the stream gives.
pub open spec fn eof() -> ErrorView {
    error(ErrorKindView::Io(IoErrorKind::UnexpectedEof), "failed to fill whole buffer")
}

/// The error `e` as reported by the atom `ident`, inside which it happened
/// while `doing` ("parsing", "writing").
pub open spec fn annotated(doing: &str, ident: Ident, e: ErrorView) -> ErrorView {
    ErrorView {
        kind: e.kind,
        description: "Error "@ + doing@ + " "@ + ident.chars() + ": "@ + e.description,
    }
}

/// `r` with its error, if it is one, reported by the atom `ident`.
pub open spec fn annotate<T>(doing: &str, ident: Ident, r: Result<T, ErrorView>) -> Result<
    T,
    ErrorView,
> {
    match r {
        Ok(v) => Ok(v),
        Err(e) => Err(annotated(doing, ident, e)),
    }
}

impl Error {
    /// The error of the given kind and description.
    pub fn new(kind: ErrorKind, description: &str) -> (r: Error)
        ensures
            r@ == error(kind@, description),
    {
        Error { kind, description: description.to_owned() }
    }

    /// The error that a read past the end of the stream gives.
    pub fn eof() -> (r: Error)
        ensures
            r@ == eof(),
    {
        Error::new(ErrorKind::Io(IoErrorKind::UnexpectedEof), "failed to fill whole buffer")
    }

    /// The error reported by the atom `ident`, inside which it happened while
    /// `doing`: the kind stays, the description names the atom.
    pub fn annotate(self, doing: &str, ident: Ident) -> (r: Error)
        ensures
            r@ == annotated(doing, ident, self@),
    {
        let mut d = "Error ".to_owned();
        d.append(doing);
        d.append(" ");
        d.append(ident.to_string().as_str());
        d.append(": ");
        d.append(self.description.as_str());
        Error { kind: self.kind, description: d }
    }

    /// The description of the error.
    pub fn to_string(&self) -> (r: String)
        ensures
            r@ == self.description@,
    {
        self.description.clone()
    }
}

} // verus!
