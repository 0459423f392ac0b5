use vstd::prelude::*;
use vstd::string::StringExecFns;

verus! {

/// What went wrong in an operation.
#[derive(Debug, Copy, Clone, Hash, PartialEq, Eq, Structural)]
pub enum OperationErrorType {
    /// A numerator or a denominator did not fit the backing integer.
    Overflow,
    /// A zero denominator was asked for.
    DivisionByZero,
    /// A value of another kind could not be turned into a fraction.
    ConvertionError,
}

impl OperationErrorType {
    /// The text of an error kind.
    pub open spec fn text(self) -> Seq<char> {
        match self {
            OperationErrorType::Overflow => "overflow error"@,
            OperationErrorType::DivisionByZero => "division by zero"@,
            OperationErrorType::ConvertionError => "convertion"@,
        }
    }

    /// The kind as text.
    pub fn to_string(&self) -> (result: String)
        ensures
            result@ == self.text(),
    {
        match self {
            OperationErrorType::Overflow => "overflow error".to_owned(),
            OperationErrorType::DivisionByZero => "division by zero".to_owned(),
            OperationErrorType::ConvertionError => "convertion".to_owned(),
        }
    }
}

/// A failed operation: its kind and a message for people.
#[derive(Debug, Clone, Hash, PartialEq, Eq)]
pub struct OperationError {
    error_type: OperationErrorType,
    message: String,
}

/// What an error holds, as plain values.
pub struct ErrorView {
    pub kind: OperationErrorType,
    pub text: Seq<char>,
}

impl View for OperationError {
    type V = ErrorView;

    closed spec fn view(&self) -> ErrorView {
        ErrorView { kind: self.error_type, text: self.message@ }
    }
}

impl OperationError {
    /// The kind of this error.
    pub open spec fn kind(&self) -> OperationErrorType {
        self@.kind
    }

    /// The message of this error.
    pub open spec fn text(&self) -> Seq<char> {
        self@.text
    }

    /// An error of the given kind with the given message.
    pub fn new(message: &str, error_type: OperationErrorType) -> (result: OperationError)
        ensures
            result.kind() == error_type,
            result.text() == message@,
    {
        OperationError { error_type, message: message.to_owned() }
    }

    /// A copy of the message.
    pub fn message(&self) -> (result: String)
        ensures
            result@ == self.text(),
    {
        self.message.clone()
    }

    /// The kind of the error.
    pub fn error_type(&self) -> (result: OperationErrorType)
        ensures
            result == self.kind(),
    {
        self.error_type
    }

    /// What `to_string` returns: the kind, then the message.
    pub open spec fn rendering(&self) -> Seq<char> {
        "error caused by "@ + self.kind().text() + ", reason: "@ + self.text()
    }

    /// The error as one line of text.
    pub fn to_string(&self) -> (result: String)
        ensures
            result@ == self.rendering(),
    {
        let mut out = "error caused by ".to_owned();
        let kind = self.error_type.to_string();
        out.append(kind.as_str());
        out.append(", reason: ");
        out.append(self.message.as_str());
        out
    }
}

} // verus!
