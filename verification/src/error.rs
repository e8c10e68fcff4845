//! Errors of the library.

use vstd::prelude::*;


verus! {

/// Everything that can go wrong while locating, reading or interpreting a
/// project. Paths and messages are carried as text.
#[derive(Debug, Clone, PartialEq, Eq)]
pub enum Error {
    PathNotFound(String),
    NoAlsInFolder(String),
    MultipleAlsInFolder(String),
    NotAnAlsTarget(String),
    Io { path: String, message: String },
    Gunzip { path: String, message: String },
    Xml(String),
    Malformed(String),
    MissingElement(&'static str),
    Output(String),
}

/// The mathematical form of an error.
pub enum ErrorModel {
    PathNotFound(Seq<char>),
    NoAlsInFolder(Seq<char>),
    MultipleAlsInFolder(Seq<char>),
    NotAnAlsTarget(Seq<char>),
    Io { path: Seq<char>, message: Seq<char> },
    Gunzip { path: Seq<char>, message: Seq<char> },
    Xml(Seq<char>),
    Malformed(Seq<char>),
    MissingElement(Seq<char>),
    Output(Seq<char>),
}

impl View for Error {
    type V = ErrorModel;

    open spec fn view(&self) -> ErrorModel {
        match self {
            Error::PathNotFound(p) => ErrorModel::PathNotFound(p@),
            Error::NoAlsInFolder(p) => ErrorModel::NoAlsInFolder(p@),
            Error::MultipleAlsInFolder(p) => ErrorModel::MultipleAlsInFolder(p@),
            Error::NotAnAlsTarget(p) => ErrorModel::NotAnAlsTarget(p@),
            Error::Io { path, message } => ErrorModel::Io { path: path@, message: message@ },
            Error::Gunzip { path, message } => ErrorModel::Gunzip { path: path@, message: message@ },
            Error::Xml(m) => ErrorModel::Xml(m@),
            Error::Malformed(m) => ErrorModel::Malformed(m@),
            Error::MissingElement(m) => ErrorModel::MissingElement(m@),
            Error::Output(m) => ErrorModel::Output(m@),
        }
    }
}

/// The text `prefix + a`.
pub fn concat2(prefix: &str, a: &str) -> (r: String)
    ensures
        r@ == prefix@ + a@,
{
    let mut s = String::new();
    s.append(prefix);
    s.append(a);
    s
}

/// The text `prefix + a + suffix`.
pub fn concat3(prefix: &str, a: &str, suffix: &str) -> (r: String)
    ensures
        r@ == prefix@ + a@ + suffix@,
{
    let mut s = String::new();
    s.append(prefix);
    s.append(a);
    s.append(suffix);
    s
}

/// The human-readable message of an error, as the command line prints it.
pub open spec fn message_of(e: ErrorModel) -> Seq<char> {
    match e {
        ErrorModel::PathNotFound(p) => "path does not exist: "@ + p,
        ErrorModel::NoAlsInFolder(p) => "no .als file found in folder: "@ + p,
        ErrorModel::MultipleAlsInFolder(p) => "multiple .als files found in folder; expected exactly one: "@
            + p,
        ErrorModel::NotAnAlsTarget(p) => "expected an .als file or a folder containing one: "@ + p,
        ErrorModel::Io { path, message } => "failed to read file "@ + path + ": "@ + message,
        ErrorModel::Gunzip { path, message } => "failed to gunzip .als file "@ + path + ": "@
            + message,
        ErrorModel::Xml(m) => "invalid XML in .als file: "@ + m,
        ErrorModel::Malformed(m) => "malformed Ableton project: "@ + m,
        ErrorModel::MissingElement(m) => "missing required element: "@ + m,
        ErrorModel::Output(m) => "failed to write output: "@ + m,
    }
}

impl Error {
    /// The human-readable message of this error.
    pub fn message(&self) -> (r: String)
        ensures
            r@ == message_of(self@),
    {
        match self {
            Error::PathNotFound(p) => concat2("path does not exist: ", p.as_str()),
            Error::NoAlsInFolder(p) => concat2("no .als file found in folder: ", p.as_str()),
            Error::MultipleAlsInFolder(p) => concat2(
                "multiple .als files found in folder; expected exactly one: ",
                p.as_str()),
            Error::NotAnAlsTarget(p) => concat2(
                "expected an .als file or a folder containing one: ",
                p.as_str()),
            Error::Io { path, message } => {
                let mut s = concat3("failed to read file ", path.as_str(), ": ");
                s.append(message.as_str());
                s
            },
            Error::Gunzip { path, message } => {
                let mut s = concat3("failed to gunzip .als file ", path.as_str(), ": ");
                s.append(message.as_str());
                s
            },
            Error::Xml(m) => concat2("invalid XML in .als file: ", m.as_str()),
            Error::Malformed(m) => concat2("malformed Ableton project: ", m.as_str()),
            Error::MissingElement(m) => concat2("missing required element: ", m),
            Error::Output(m) => concat2("failed to write output: ", m.as_str()),
        }
    }
}

} // verus!
