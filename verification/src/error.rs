//! Errors that lexing, compiling and running a program can end in.
use vstd::prelude::*;

verus! {

/// An error of the language. `S` carries the detail text: a `String` in
/// running code, its characters in specifications.
#[derive(Debug, PartialEq)]
pub enum ErrorOf<S> {
    Syntax(S),
    Runtime(S),
    TypeError(S),
    IndexError(S),
    NameError(S),
    DivisionByZero,
    FileNotFound(S),
    ImportError(S),
    ClassError(S),
    MethodError(S),
    DownloadError(S),
    NetworkError(S),
    ArityError,
}

pub type Error = ErrorOf<String>;

pub type SpecError = ErrorOf<Seq<char>>;

impl View for ErrorOf<String> {
    type V = ErrorOf<Seq<char>>;

    open spec fn view(&self) -> ErrorOf<Seq<char>> {
        match self {
            ErrorOf::Syntax(s) => ErrorOf::Syntax(s@),
            ErrorOf::Runtime(s) => ErrorOf::Runtime(s@),
            ErrorOf::TypeError(s) => ErrorOf::TypeError(s@),
            ErrorOf::IndexError(s) => ErrorOf::IndexError(s@),
            ErrorOf::NameError(s) => ErrorOf::NameError(s@),
            ErrorOf::FileNotFound(s) => ErrorOf::FileNotFound(s@),
            ErrorOf::ImportError(s) => ErrorOf::ImportError(s@),
            ErrorOf::ClassError(s) => ErrorOf::ClassError(s@),
            ErrorOf::MethodError(s) => ErrorOf::MethodError(s@),
            ErrorOf::DownloadError(s) => ErrorOf::DownloadError(s@),
            ErrorOf::NetworkError(s) => ErrorOf::NetworkError(s@),
            ErrorOf::DivisionByZero => ErrorOf::DivisionByZero,
            ErrorOf::ArityError => ErrorOf::ArityError,
        }
    }
}

impl Clone for ErrorOf<String> {
    fn clone(&self) -> (r: Self)
        ensures
            r == *self,
    {
        match self {
            ErrorOf::Syntax(s) => ErrorOf::Syntax(s.clone()),
            ErrorOf::Runtime(s) => ErrorOf::Runtime(s.clone()),
            ErrorOf::TypeError(s) => ErrorOf::TypeError(s.clone()),
            ErrorOf::IndexError(s) => ErrorOf::IndexError(s.clone()),
            ErrorOf::NameError(s) => ErrorOf::NameError(s.clone()),
            ErrorOf::FileNotFound(s) => ErrorOf::FileNotFound(s.clone()),
            ErrorOf::ImportError(s) => ErrorOf::ImportError(s.clone()),
            ErrorOf::ClassError(s) => ErrorOf::ClassError(s.clone()),
            ErrorOf::MethodError(s) => ErrorOf::MethodError(s.clone()),
            ErrorOf::DownloadError(s) => ErrorOf::DownloadError(s.clone()),
            ErrorOf::NetworkError(s) => ErrorOf::NetworkError(s.clone()),
            ErrorOf::DivisionByZero => ErrorOf::DivisionByZero,
            ErrorOf::ArityError => ErrorOf::ArityError,
        }
    }
}

} // verus!
