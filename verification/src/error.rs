//! The errors of the library: one type, five kinds.
use vstd::prelude::*;
use vstd::string::StringExecFns;

verus! {

/// What went wrong.
#[derive(Debug)]
pub enum ErrorKind {
    /// No file stands at `path`.
    HiveFile { path: String },
    /// The boundary to the engine refused an argument.
    Ffi { description: String },
    /// The engine operation named `function` reported a failure.
    Hivex { function: String },
    /// A text of the engine is not valid UTF-8.
    StrConvert,
    /// A number of the engine does not fit the integer it was meant for.
    IntConvert,
}

/// The mathematical value of an [`ErrorKind`].
pub enum ErrorKindView {
    HiveFile { path: Seq<char> },
    Ffi { description: Seq<char> },
    Hivex { function: Seq<char> },
    StrConvert,
    IntConvert,
}

impl View for ErrorKind {
    type V = ErrorKindView;

    open spec fn view(&self) -> ErrorKindView {
        match *self {
            ErrorKind::HiveFile { path } => ErrorKindView::HiveFile { path: path@ },
            ErrorKind::Ffi { description } => ErrorKindView::Ffi { description: description@ },
            ErrorKind::Hivex { function } => ErrorKindView::Hivex { function: function@ },
            ErrorKind::StrConvert => ErrorKindView::StrConvert,
            ErrorKind::IntConvert => ErrorKindView::IntConvert,
        }
    }
}

/// An error: a sentence for a reader and the kind for a program.
#[derive(Debug)]
pub struct Error {
    reason: String,
    kind: ErrorKind,
}

/// The mathematical value of an [`Error`].
pub struct ErrorView {
    pub reason: Seq<char>,
    pub kind: ErrorKindView,
}

impl View for Error {
    type V = ErrorView;

    closed spec fn view(&self) -> ErrorView {
        ErrorView { reason: self.reason@, kind: self.kind@ }
    }
}

/// The error for a path at which no file stands.
pub open spec fn hive_does_not_exist(path: Seq<char>) -> ErrorView {
    ErrorView {
        reason: "The path provided does not exist"@,
        kind: ErrorKindView::HiveFile { path },
    }
}

/// The error for a text that is not valid UTF-8.
pub open spec fn string_convert_error() -> ErrorView {
    ErrorView { reason: "Could not convert to str"@, kind: ErrorKindView::StrConvert }
}

/// The error for a number that does not fit.
pub open spec fn int_convert_error() -> ErrorView {
    ErrorView { reason: "Could not convert int"@, kind: ErrorKindView::IntConvert }
}

/// The error for a refusal at the boundary to the engine.
pub open spec fn ffi_error(description: Seq<char>) -> ErrorView {
    ErrorView { reason: "An FFI error occurred"@, kind: ErrorKindView::Ffi { description } }
}

/// The error for a failure of the engine operation `function`.
pub open spec fn hivex_error(function: Seq<char>) -> ErrorView {
    ErrorView {
        reason: "Hivex function "@ + function + " encountered an error"@,
        kind: ErrorKindView::Hivex { function },
    }
}

impl From<core::num::TryFromIntError> for Error {
    /// A number that did not fit is the integer conversion error.
    fn from(_err: core::num::TryFromIntError) -> (e: Error)
        ensures
            e@ == int_convert_error(),
    {
        Error::int_convert_error()
    }
}

/// The conversion is stated by the view of its result, in the `ensures` of
/// `from`; no spec function names the result itself.
impl vstd::std_specs::convert::FromSpecImpl<core::num::TryFromIntError> for Error {
    open spec fn obeys_from_spec() -> bool {
        false
    }

    open spec fn from_spec(err: core::num::TryFromIntError) -> Error {
        arbitrary()
    }
}

/// The words that name a kind of error to a reader.
pub open spec fn label(kind: ErrorKindView) -> Seq<char> {
    match kind {
        ErrorKindView::HiveFile { .. } => "File Error"@,
        ErrorKindView::Ffi { .. } => "FFI Error"@,
        ErrorKindView::Hivex { .. } => "Hivex Error"@,
        ErrorKindView::StrConvert => "Str Error"@,
        ErrorKindView::IntConvert => "Int Error"@,
    }
}

impl Error {
    /// The error for the path `path`, at which no file stands.
    pub fn hive_does_not_exist(path: &str) -> (e: Error)
        ensures
            e@ == hive_does_not_exist(path@),
    {
        Error {
            reason: String::from_str("The path provided does not exist"),
            kind: ErrorKind::HiveFile { path: String::from_str(path) },
        }
    }

    /// The error for a text that is not valid UTF-8.
    pub fn string_convert_error() -> (e: Error)
        ensures
            e@ == string_convert_error(),
    {
        Error { reason: String::from_str("Could not convert to str"), kind: ErrorKind::StrConvert }
    }

    /// The error for a number that does not fit.
    pub fn int_convert_error() -> (e: Error)
        ensures
            e@ == int_convert_error(),
    {
        Error { reason: String::from_str("Could not convert int"), kind: ErrorKind::IntConvert }
    }

    /// The error for a refusal at the boundary to the engine, which
    /// `description` describes.
    pub fn ffi_error(description: &str) -> (e: Error)
        ensures
            e@ == ffi_error(description@),
    {
        Error {
            reason: String::from_str("An FFI error occurred"),
            kind: ErrorKind::Ffi { description: String::from_str(description) },
        }
    }

    /// The error for a failure of the engine operation `function`.
    pub fn hivex_error(function: &str) -> (e: Error)
        ensures
            e@ == hivex_error(function@),
    {
        let mut reason = String::from_str("Hivex function ");
        reason.append(function);
        reason.append(" encountered an error");
        Error { reason, kind: ErrorKind::Hivex { function: String::from_str(function) } }
    }

    /// The line that heads the error when it is shown: the words for its
    /// kind, a comma and the sentence.
    pub fn headline(&self) -> (line: String)
        ensures
            line@ == label(self@.kind) + ", "@ + self@.reason,
    {
        let mut line = String::from_str(
            match &self.kind {
                ErrorKind::HiveFile { .. } => "File Error",
                ErrorKind::Ffi { .. } => "FFI Error",
                ErrorKind::Hivex { .. } => "Hivex Error",
                ErrorKind::StrConvert => "Str Error",
                ErrorKind::IntConvert => "Int Error",
            },
        );
        line.append(", ");
        line.append(self.reason.as_str());
        line
    }

    /// The sentence for a reader.
    pub fn reason(&self) -> (r: &str)
        ensures
            r@ == self@.reason,
    {
        self.reason.as_str()
    }

    /// The kind for a program.
    pub fn kind(&self) -> (k: &ErrorKind)
        ensures
            k@ == self@.kind,
    {
        &self.kind
    }
}

} // verus!
