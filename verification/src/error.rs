//! The error type produced by name resolution: a discriminant for
//! programmatic handling plus a growable human-readable message, to which a
//! context breadcrumb is appended at each clause boundary.

use vstd::prelude::*;
use vstd::string::StringExecFns;

verus! {

/// The two conditions under which resolution fails.
#[derive(Clone, Copy, PartialEq, Eq, Structural, Debug)]
pub enum ErrorKind {
    /// A bare or dotted reference that matches no column of the joined schema.
    UnknownColumn,
    /// A structurally invalid construct: `* AS alias`, or a qualified
    /// reference whose residual after the table match has several components.
    Syntax,
}

/// Mathematical model of an error: its kind and its message text.
pub struct ErrorV {
    pub kind: ErrorKind,
    pub message: Seq<char>,
}

/// An error carrying its kind and a message that grows by appended context.
#[derive(Debug)]
pub struct ErrorCode {
    pub kind: ErrorKind,
    pub message: String,
}

impl View for ErrorCode {
    type V = ErrorV;

    open spec fn view(&self) -> ErrorV {
        ErrorV { kind: self.kind, message: self.message@ }
    }
}

impl ErrorCode {
    /// An Unknown-Column error with the given message.
    pub fn unknown_column(message: String) -> (r: ErrorCode)
        ensures
            r@ == (ErrorV { kind: ErrorKind::UnknownColumn, message: message@ }),
    {
        ErrorCode { kind: ErrorKind::UnknownColumn, message }
    }

    /// A Syntax error with the given message.
    pub fn syntax_exception(message: String) -> (r: ErrorCode)
        ensures
            r@ == (ErrorV { kind: ErrorKind::Syntax, message: message@ }),
    {
        ErrorCode { kind: ErrorKind::Syntax, message }
    }

    /// Appends a context breadcrumb to the message; the kind is preserved.
    pub fn add_message_back(self, context: &str) -> (r: ErrorCode)
        ensures
            r@.kind == self@.kind,
            r@.message == self@.message + context@,
    {
        let mut message = self.message;
        message.append(context);
        ErrorCode { kind: self.kind, message }
    }

    /// The error's kind.
    pub fn kind(&self) -> (k: ErrorKind)
        ensures
            k == self@.kind,
    {
        self.kind
    }

    /// The error's message.
    pub fn message(&self) -> (m: &String)
        ensures
            m@ == self@.message,
    {
        &self.message
    }
}

} // verus!
