use vstd::prelude::*;

verus! {

/// The kinds of failure that end a run.
#[derive(Debug, Clone, Copy, PartialEq, Eq)]
pub enum ErrorType {
    /// The command line does not have the expected arguments.
    InputError,
    /// The report could not be written.
    IOError,
    /// The input directory or one of its files could not be read.
    InvalidPath,
    /// The header row lacks a required column.
    ColumnsError,
    /// A row could not be read, or lacks a required field.
    RecordError,
}

/// A failure: its kind and a message for the user.
#[derive(Debug, Clone, PartialEq, Eq)]
pub struct Error {
    pub type_error: ErrorType,
    pub message: String,
}

impl ErrorType {
    /// The words that name this kind of failure.
    pub open spec fn label_text(self) -> Seq<char> {
        match self {
            ErrorType::InputError => "Input Error"@,
            ErrorType::IOError => "IO Error"@,
            ErrorType::InvalidPath => "Invalid Path Error"@,
            ErrorType::ColumnsError => "Columns Error"@,
            ErrorType::RecordError => "Record Error"@,
        }
    }

    /// The words that name this kind of failure.
    pub fn label(&self) -> (text: &'static str)
        ensures
            text@ == self.label_text(),
    {
        match self {
            ErrorType::InputError => "Input Error",
            ErrorType::IOError => "IO Error",
            ErrorType::InvalidPath => "Invalid Path Error",
            ErrorType::ColumnsError => "Columns Error",
            ErrorType::RecordError => "Record Error",
        }
    }
}

impl Error {
    /// A failure of the given kind with the given message.
    pub fn new(type_error: ErrorType, message: &str) -> (error: Error)
        ensures
            error.type_error == type_error,
            error.message@ == message@,
    {
        Error { type_error, message: String::from_str(message) }
    }

    /// The line shown to the user: the kind in square brackets, a colon, and the message.
    pub open spec fn line(self) -> Seq<char> {
        "["@ + self.type_error.label_text() + "]: "@ + self.message@
    }

    /// The line shown to the user: the kind in square brackets, a colon, and the message.
    pub fn to_text(&self) -> (text: String)
        ensures
            text@ == self.line(),
    {
        let mut text = String::from_str("[");
        text.append(self.type_error.label());
        text.append("]: ");
        text.append(self.message.as_str());
        text
    }
}

} // verus!
