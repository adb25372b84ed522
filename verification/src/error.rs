//! Error values raised by the virtual machine and by the compiler.

use vstd::prelude::*;
use vstd::string::StringExecFns;

verus! {

/// Classification of a runtime error.
pub enum Lovm2ErrorTy {
    Custom(String),
    Basic,
    FrameStackEmpty,
    ImportConflict,
    KeyNotFound,
    LookupFailed,
    ModuleNotFound,
    NoEntryPoint,
    OperationNotSupported,
    ValueStackEmpty,
}

/// Mathematical view of [Lovm2ErrorTy].
pub enum ErrorKind {
    Custom(Seq<char>),
    Basic,
    FrameStackEmpty,
    ImportConflict,
    KeyNotFound,
    LookupFailed,
    ModuleNotFound,
    NoEntryPoint,
    OperationNotSupported,
    ValueStackEmpty,
}

impl View for Lovm2ErrorTy {
    type V = ErrorKind;

    open spec fn view(&self) -> ErrorKind {
        match self {
            Lovm2ErrorTy::Custom(s) => ErrorKind::Custom(s@),
            Lovm2ErrorTy::Basic => ErrorKind::Basic,
            Lovm2ErrorTy::FrameStackEmpty => ErrorKind::FrameStackEmpty,
            Lovm2ErrorTy::ImportConflict => ErrorKind::ImportConflict,
            Lovm2ErrorTy::KeyNotFound => ErrorKind::KeyNotFound,
            Lovm2ErrorTy::LookupFailed => ErrorKind::LookupFailed,
            Lovm2ErrorTy::ModuleNotFound => ErrorKind::ModuleNotFound,
            Lovm2ErrorTy::NoEntryPoint => ErrorKind::NoEntryPoint,
            Lovm2ErrorTy::OperationNotSupported => ErrorKind::OperationNotSupported,
            Lovm2ErrorTy::ValueStackEmpty => ErrorKind::ValueStackEmpty,
        }
    }
}

/// A runtime error: an optional classification and a message.
pub struct Lovm2Error {
    pub ty: Option<Lovm2ErrorTy>,
    pub msg: String,
}

/// Mathematical view of [Lovm2Error].
pub struct ErrorV {
    pub ty: Option<ErrorKind>,
    pub msg: Seq<char>,
}

impl View for Lovm2Error {
    type V = ErrorV;

    open spec fn view(&self) -> ErrorV {
        ErrorV {
            ty: match self.ty {
                Some(t) => Some(t@),
                None => None,
            },
            msg: self.msg@,
        }
    }
}

pub type Lovm2Result<T> = Result<T, Lovm2Error>;

/// The error view with classification `ty` and message `msg`.
pub open spec fn err_v(ty: ErrorKind, msg: Seq<char>) -> ErrorV {
    ErrorV { ty: Some(ty), msg }
}

/// Error raised while building a module.
pub enum Lovm2CompileError {
    Msg(Option<String>, String),
}

pub type Lovm2CompileResult<T> = Result<T, Lovm2CompileError>;

/// Name under which a classification is printed.
pub open spec fn kind_name(k: ErrorKind) -> Seq<char> {
    match k {
        ErrorKind::Custom(s) => s,
        ErrorKind::Basic => "Basic"@,
        ErrorKind::FrameStackEmpty => "FrameStackEmpty"@,
        ErrorKind::ImportConflict => "ImportConflict"@,
        ErrorKind::KeyNotFound => "KeyNotFound"@,
        ErrorKind::LookupFailed => "LookupFailed"@,
        ErrorKind::ModuleNotFound => "ModuleNotFound"@,
        ErrorKind::NoEntryPoint => "NoEntryPoint"@,
        ErrorKind::OperationNotSupported => "OperationNotSupported"@,
        ErrorKind::ValueStackEmpty => "ValueStackEmpty"@,
    }
}

/// Text of an error: the classification, a colon and the message, or the
/// message alone where there is no classification.
pub open spec fn error_text(e: ErrorV) -> Seq<char> {
    match e.ty {
        Some(k) => kind_name(k) + ": "@ + e.msg,
        None => e.msg,
    }
}

impl Lovm2ErrorTy {
    /// Copy of the classification.
    pub fn duplicate(&self) -> (r: Lovm2ErrorTy)
        ensures
            r@ == self@,
    {
        match self {
            Lovm2ErrorTy::Custom(s) => Lovm2ErrorTy::Custom(s.clone()),
            Lovm2ErrorTy::Basic => Lovm2ErrorTy::Basic,
            Lovm2ErrorTy::FrameStackEmpty => Lovm2ErrorTy::FrameStackEmpty,
            Lovm2ErrorTy::ImportConflict => Lovm2ErrorTy::ImportConflict,
            Lovm2ErrorTy::KeyNotFound => Lovm2ErrorTy::KeyNotFound,
            Lovm2ErrorTy::LookupFailed => Lovm2ErrorTy::LookupFailed,
            Lovm2ErrorTy::ModuleNotFound => Lovm2ErrorTy::ModuleNotFound,
            Lovm2ErrorTy::NoEntryPoint => Lovm2ErrorTy::NoEntryPoint,
            Lovm2ErrorTy::OperationNotSupported => Lovm2ErrorTy::OperationNotSupported,
            Lovm2ErrorTy::ValueStackEmpty => Lovm2ErrorTy::ValueStackEmpty,
        }
    }

    /// The name under which the classification is printed.
    pub fn describe(&self) -> (r: String)
        ensures
            r@ == kind_name(self@),
    {
        match self {
            Lovm2ErrorTy::Custom(s) => s.clone(),
            Lovm2ErrorTy::Basic => String::from_str("Basic"),
            Lovm2ErrorTy::FrameStackEmpty => String::from_str("FrameStackEmpty"),
            Lovm2ErrorTy::ImportConflict => String::from_str("ImportConflict"),
            Lovm2ErrorTy::KeyNotFound => String::from_str("KeyNotFound"),
            Lovm2ErrorTy::LookupFailed => String::from_str("LookupFailed"),
            Lovm2ErrorTy::ModuleNotFound => String::from_str("ModuleNotFound"),
            Lovm2ErrorTy::NoEntryPoint => String::from_str("NoEntryPoint"),
            Lovm2ErrorTy::OperationNotSupported => String::from_str("OperationNotSupported"),
            Lovm2ErrorTy::ValueStackEmpty => String::from_str("ValueStackEmpty"),
        }
    }
}

impl Lovm2Error {
    /// Error with a classification and an empty message.
    pub fn from_ty(ty: Lovm2ErrorTy) -> (r: Lovm2Error)
        ensures
            r@ == err_v(ty@, Seq::empty()),
    {
        Lovm2Error { ty: Some(ty), msg: String::new() }
    }

    /// Error with a classification and a message.
    pub fn with_msg(ty: Lovm2ErrorTy, msg: &str) -> (r: Lovm2Error)
        ensures
            r@ == err_v(ty@, msg@),
    {
        Lovm2Error { ty: Some(ty), msg: String::from_str(msg) }
    }

    /// Error with a custom classification name and a message.
    pub fn custom(name: String, msg: String) -> (r: Lovm2Error)
        ensures
            r@ == err_v(ErrorKind::Custom(name@), msg@),
    {
        Lovm2Error { ty: Some(Lovm2ErrorTy::Custom(name)), msg }
    }

    /// Error that only carries a message.
    pub fn from_msg(msg: &str) -> (r: Lovm2Error)
        ensures
            r@ == (ErrorV { ty: None, msg: msg@ }),
    {
        Lovm2Error { ty: None, msg: String::from_str(msg) }
    }

    /// Error that only carries a message.
    pub fn from_string(msg: String) -> (r: Lovm2Error)
        ensures
            r@ == (ErrorV { ty: None, msg: msg@ }),
    {
        Lovm2Error { ty: None, msg }
    }

    /// The error without classification and with an empty message.
    pub fn default() -> (r: Lovm2Error)
        ensures
            r@ == (ErrorV { ty: None, msg: Seq::empty() }),
    {
        Lovm2Error { ty: None, msg: String::new() }
    }

    /// Whether the error is classified as `KeyNotFound`.
    pub fn is_key_not_found(&self) -> (r: bool)
        ensures
            r == (self@.ty == Some(ErrorKind::KeyNotFound)),
    {
        match &self.ty {
            Some(Lovm2ErrorTy::KeyNotFound) => true,
            _ => false,
        }
    }

    /// The text under which the error is printed.
    pub fn describe(&self) -> (r: String)
        ensures
            r@ == error_text(self@),
    {
        match &self.ty {
            Some(ty) => {
                let mut s = ty.describe();
                s.append(": ");
                s.append(self.msg.as_str());
                s
            },
            None => self.msg.clone(),
        }
    }
}

impl Lovm2CompileError {
    /// Error carrying a message.
    pub fn from_msg(msg: &str) -> (r: Lovm2CompileError)
        ensures
            r matches Lovm2CompileError::Msg(None, m) && m@ == msg@,
    {
        Lovm2CompileError::Msg(None, String::from_str(msg))
    }

    /// The text under which the error is printed.
    pub fn describe(&self) -> (r: String)
        ensures
            match self {
                Lovm2CompileError::Msg(Some(ty), msg) => r@ == ty@ + ": "@ + msg@,
                Lovm2CompileError::Msg(None, msg) => r@ == msg@,
            },
    {
        match self {
            Lovm2CompileError::Msg(Some(ty), msg) => {
                let mut s = ty.clone();
                s.append(": ");
                s.append(msg.as_str());
                s
            },
            Lovm2CompileError::Msg(None, msg) => msg.clone(),
        }
    }
}

} // verus!
