//! The one error type of the library: what went wrong first, and where.

use vstd::prelude::*;
use vstd::string::*;

use crate::types::{ValueName, ValueNameView};

verus! {

/// The first failure of an import or an export, with the key path and,
/// where there is one, the value name at which it happened.
#[derive(Debug, PartialEq, Eq)]
pub enum Error {
    /// The first piece of a key path names no root.
    RootNotFound { path: String },
    /// The store did not open `segment` on the way to the key at `path`.
    SegmentNotFound { path: String, segment: String },
    /// The value `name` of the key at `path` cannot be converted.
    UnsupportedValueType { path: String, name: ValueName },
    /// The store refused to write the value `name` of the key at `path`.
    NativeIoError { path: String, name: ValueName, message: String },
    /// The document could not be read.
    MalformedDocument { message: String },
}

/// What an [`Error`] is, mathematically.
pub enum ErrorView {
    RootNotFound { path: Seq<char> },
    SegmentNotFound { path: Seq<char>, segment: Seq<char> },
    UnsupportedValueType { path: Seq<char>, name: ValueNameView },
    NativeIoError { path: Seq<char>, name: ValueNameView, message: Seq<char> },
    MalformedDocument { message: Seq<char> },
}

impl View for Error {
    type V = ErrorView;

    open spec fn view(&self) -> ErrorView {
        match self {
            Error::RootNotFound { path } => ErrorView::RootNotFound { path: path@ },
            Error::SegmentNotFound { path, segment } => ErrorView::SegmentNotFound {
                path: path@,
                segment: segment@,
            },
            Error::UnsupportedValueType { path, name } => ErrorView::UnsupportedValueType {
                path: path@,
                name: name@,
            },
            Error::NativeIoError { path, name, message } => ErrorView::NativeIoError {
                path: path@,
                name: name@,
                message: message@,
            },
            Error::MalformedDocument { message } => ErrorView::MalformedDocument {
                message: message@,
            },
        }
    }
}

impl DeepView for Error {
    type V = ErrorView;

    open spec fn deep_view(&self) -> ErrorView {
        self@
    }
}

impl Clone for Error {
    fn clone(&self) -> (out: Self)
        ensures
            out@ == self@,
    {
        match self {
            Error::RootNotFound { path } => Error::RootNotFound { path: path.clone() },
            Error::SegmentNotFound { path, segment } => Error::SegmentNotFound {
                path: path.clone(),
                segment: segment.clone(),
            },
            Error::UnsupportedValueType { path, name } => Error::UnsupportedValueType {
                path: path.clone(),
                name: name.clone(),
            },
            Error::NativeIoError { path, name, message } => Error::NativeIoError {
                path: path.clone(),
                name: name.clone(),
                message: message.clone(),
            },
            Error::MalformedDocument { message } => Error::MalformedDocument {
                message: message.clone(),
            },
        }
    }
}

/// How a value name is written in a message: `@` for the default value,
/// the name itself for every other.
pub open spec fn name_text(name: ValueNameView) -> Seq<char> {
    match name {
        ValueNameView::Default => "@"@,
        ValueNameView::Named(text) => text,
    }
}

/// The message of an error: what failed, then where.
pub open spec fn message_of(error: ErrorView) -> Seq<char> {
    match error {
        ErrorView::RootNotFound { path } => "root not found: "@ + path,
        ErrorView::SegmentNotFound { path, segment } => "key not found: "@ + path + ", at: "@
            + segment,
        ErrorView::UnsupportedValueType { path, name } => "unsupported value type: "@ + path
            + ", value: "@ + name_text(name),
        ErrorView::NativeIoError { path, name, message } => "write refused: "@ + path
            + ", value: "@ + name_text(name) + ", cause: "@ + message,
        ErrorView::MalformedDocument { message } => "malformed document: "@ + message,
    }
}

/// How a value name is written in a message.
fn name_as_text(name: &ValueName) -> (out: &str)
    ensures
        out@ == name_text(name@),
{
    match name {
        ValueName::Default => "@",
        ValueName::Named(text) => text.as_str(),
    }
}

impl Error {
    /// The message of the error: what failed, then the path of the key and,
    /// where there is one, the name of the value at which it failed.
    pub fn message(&self) -> (out: String)
        ensures
            out@ == message_of(self@),
    {
        match self {
            Error::RootNotFound { path } => {
                let mut out = String::from_str("root not found: ");
                out.append(path.as_str());
                out
            },
            Error::SegmentNotFound { path, segment } => {
                let mut out = String::from_str("key not found: ");
                out.append(path.as_str());
                out.append(", at: ");
                out.append(segment.as_str());
                out
            },
            Error::UnsupportedValueType { path, name } => {
                let mut out = String::from_str("unsupported value type: ");
                out.append(path.as_str());
                out.append(", value: ");
                out.append(name_as_text(name));
                out
            },
            Error::NativeIoError { path, name, message } => {
                let mut out = String::from_str("write refused: ");
                out.append(path.as_str());
                out.append(", value: ");
                out.append(name_as_text(name));
                out.append(", cause: ");
                out.append(message.as_str());
                out
            },
            Error::MalformedDocument { message } => {
                let mut out = String::from_str("malformed document: ");
                out.append(message.as_str());
                out
            },
        }
    }
}

} // verus!
