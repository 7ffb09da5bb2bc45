use vstd::prelude::*;
use vstd::string::StringExecFns;

verus! {

/// What went wrong, without the details.
pub enum ErrorKind {
    Arg,
    BadFormat,
    BadRegex,
    Base64,
    Env,
    Other,
    RemoteStore,
    InvalidPath,
    Io,
    StringUtf8,
    StrUtf8,
}

/// What a failure is known to be: its kind and, where the library itself
/// fixes it, its message.
pub type Fault = (ErrorKind, Option<Seq<char>>);

/// A failure of a kind whose message comes from elsewhere.
pub open spec fn fault(kind: ErrorKind) -> Fault {
    (kind, None)
}

/// A failure of a kind with a fixed message.
pub open spec fn fault_with(kind: ErrorKind, message: Seq<char>) -> Fault {
    (kind, Some(message))
}

/// Every failure of the library, each with a message.
#[derive(Debug, PartialEq, Eq)]
pub enum Error {
    ArgError(String),
    BadFormat(String),
    BadRegex(String),
    Base64Error(String),
    EnvError(String),
    Error(String),
    GetParametersByPathError(String),
    InvalidPathError(String),
    IOError(String),
    StringUtf8Error(String),
    StrUtf8Error(String),
}

impl Error {
    pub open spec fn kind(&self) -> ErrorKind {
        match self {
            Error::ArgError(_) => ErrorKind::Arg,
            Error::BadFormat(_) => ErrorKind::BadFormat,
            Error::BadRegex(_) => ErrorKind::BadRegex,
            Error::Base64Error(_) => ErrorKind::Base64,
            Error::EnvError(_) => ErrorKind::Env,
            Error::Error(_) => ErrorKind::Other,
            Error::GetParametersByPathError(_) => ErrorKind::RemoteStore,
            Error::InvalidPathError(_) => ErrorKind::InvalidPath,
            Error::IOError(_) => ErrorKind::Io,
            Error::StringUtf8Error(_) => ErrorKind::StringUtf8,
            Error::StrUtf8Error(_) => ErrorKind::StrUtf8,
        }
    }

    pub open spec fn message(&self) -> Seq<char> {
        match self {
            Error::ArgError(m) => m@,
            Error::BadFormat(m) => m@,
            Error::BadRegex(m) => m@,
            Error::Base64Error(m) => m@,
            Error::EnvError(m) => m@,
            Error::Error(m) => m@,
            Error::GetParametersByPathError(m) => m@,
            Error::InvalidPathError(m) => m@,
            Error::IOError(m) => m@,
            Error::StringUtf8Error(m) => m@,
            Error::StrUtf8Error(m) => m@,
        }
    }

    /// This error is the failure `f`: same kind, and the same message where `f`
    /// fixes one.
    pub open spec fn is_fault(&self, f: Fault) -> bool {
        &&& self.kind() == f.0
        &&& f.1 matches Some(m) ==> self.message() == m
    }

    /// The label that starts the human-readable description.
    pub open spec fn label(&self) -> Seq<char> {
        match self {
            Error::ArgError(_) => "ArgError: "@,
            Error::BadFormat(_) => "BadFormat: "@,
            Error::BadRegex(_) => "BadRegex: "@,
            Error::Base64Error(_) => "Base64Error: "@,
            Error::EnvError(_) => "EnvError: "@,
            Error::Error(_) => "Error: "@,
            Error::GetParametersByPathError(_) => "GetParametersByPathError: "@,
            Error::InvalidPathError(_) => "InvalidPathError: "@,
            Error::IOError(_) => "IOError: "@,
            Error::StringUtf8Error(_) => "Utf8Error: "@,
            Error::StrUtf8Error(_) => "Utf8Error: "@,
        }
    }

    /// The human-readable description: the label, then the message.
    pub fn to_string(&self) -> (r: String)
        ensures
            r@ == self.label() + self.message(),
    {
        let (label, message) = match self {
            Error::ArgError(m) => ("ArgError: ", m),
            Error::BadFormat(m) => ("BadFormat: ", m),
            Error::BadRegex(m) => ("BadRegex: ", m),
            Error::Base64Error(m) => ("Base64Error: ", m),
            Error::EnvError(m) => ("EnvError: ", m),
            Error::Error(m) => ("Error: ", m),
            Error::GetParametersByPathError(m) => ("GetParametersByPathError: ", m),
            Error::InvalidPathError(m) => ("InvalidPathError: ", m),
            Error::IOError(m) => ("IOError: ", m),
            Error::StringUtf8Error(m) => ("Utf8Error: ", m),
            Error::StrUtf8Error(m) => ("Utf8Error: ", m),
        };
        let mut r = String::from_str(label);
        r.append(message.as_str());
        r
    }
}

} // verus!
