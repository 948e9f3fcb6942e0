//! The error type shared by all decoding steps.
use vstd::prelude::*;
use vstd::string::{to_string_from_display_ensures, StringExecFns};
use vstd::std_specs::convert::FromSpecImpl;

verus! {

/// What went wrong while a file was read or decoded.
#[derive(Debug, Clone, Copy, PartialEq, Eq, Structural)]
pub enum QvdErrorKind {
    /// The file could not be opened or read.
    ReadFile,
    /// The metadata block is not valid UTF-8.
    Utf8Error,
    /// The bytes do not form a well-formed table.
    Format,
}

/// An error with its kind and a message for the person who has to
/// find the fault in the file.
#[derive(Debug)]
pub struct QvdError {
    pub kind: QvdErrorKind,
    pub message: String,
}

/// The character of a decimal digit.
pub open spec fn digit(d: nat) -> char {
    if d == 0 {
        '0'
    } else if d == 1 {
        '1'
    } else if d == 2 {
        '2'
    } else if d == 3 {
        '3'
    } else if d == 4 {
        '4'
    } else if d == 5 {
        '5'
    } else if d == 6 {
        '6'
    } else if d == 7 {
        '7'
    } else if d == 8 {
        '8'
    } else {
        '9'
    }
}

/// A number in decimal, without leading zeros.
pub open spec fn decimal(n: nat) -> Seq<char>
    decreases n,
{
    if n < 10 {
        seq![digit(n)]
    } else {
        decimal(n / 10).push(digit(n % 10))
    }
}

/// The message of an error that was found at a byte offset.
pub open spec fn located(message: Seq<char>, offset: nat) -> Seq<char> {
    message + " at byte "@ + decimal(offset)
}

/// One decimal digit as text.
fn digit_text(d: usize) -> (text: &'static str)
    requires
        d < 10,
    ensures
        text@ == seq![digit(d as nat)],
{
    proof {
        reveal_strlit("0");
        reveal_strlit("1");
        reveal_strlit("2");
        reveal_strlit("3");
        reveal_strlit("4");
        reveal_strlit("5");
        reveal_strlit("6");
        reveal_strlit("7");
        reveal_strlit("8");
        reveal_strlit("9");
    }
    let text = if d == 0 {
        "0"
    } else if d == 1 {
        "1"
    } else if d == 2 {
        "2"
    } else if d == 3 {
        "3"
    } else if d == 4 {
        "4"
    } else if d == 5 {
        "5"
    } else if d == 6 {
        "6"
    } else if d == 7 {
        "7"
    } else if d == 8 {
        "8"
    } else {
        "9"
    };
    assert(text@ =~= seq![digit(d as nat)]);
    text
}

/// A number as decimal text.
pub fn decimal_text(n: usize) -> (text: String)
    ensures
        text@ == decimal(n as nat),
    decreases n,
{
    if n < 10 {
        digit_text(n).to_owned()
    } else {
        let mut text = decimal_text(n / 10);
        text.append(digit_text(n % 10));
        assert(text@ =~= decimal(n as nat));
        text
    }
}

/// What stands in front of the message of an error that was found in the
/// field of the given name.
pub open spec fn field_label(field_name: Seq<char>) -> Seq<char> {
    "field "@ + field_name + ": "@
}

impl QvdError {
    /// An error of the given kind.
    pub fn new(kind: QvdErrorKind, message: String) -> (e: QvdError)
        ensures
            e.kind == kind,
            e.message@ == message@,
    {
        QvdError { kind, message }
    }

    /// A format error with a fixed message.
    pub fn format(message: &str) -> (e: QvdError)
        ensures
            e.kind == QvdErrorKind::Format,
            e.message@ == message@,
    {
        QvdError { kind: QvdErrorKind::Format, message: message.to_owned() }
    }

    /// A format error found at a byte offset, which its message names.
    pub fn format_at(message: &str, offset: usize) -> (e: QvdError)
        ensures
            e.kind == QvdErrorKind::Format,
            e.message@ == located(message@, offset as nat),
    {
        let mut text: String = message.to_owned();
        text.append(" at byte ");
        let number: String = decimal_text(offset);
        text.append(number.as_str());
        QvdError { kind: QvdErrorKind::Format, message: text }
    }

    /// The same error with the name of the field it was found in put in
    /// front of its message.
    pub fn in_field(self, field_name: &str) -> (e: QvdError)
        ensures
            e.kind == self.kind,
            e.message@ == field_label(field_name@) + self.message@,
    {
        let mut text: String = "field ".to_owned();
        text.append(field_name);
        text.append(": ");
        text.append(self.message.as_str());
        QvdError { kind: self.kind, message: text }
    }

    /// The kind of this error.
    pub fn kind(&self) -> (k: QvdErrorKind)
        ensures
            k == self.kind,
    {
        self.kind
    }

    /// The message of this error.
    pub fn message(&self) -> (m: &str)
        ensures
            m@ == self.message@,
    {
        self.message.as_str()
    }
}

/// `std::io::Error`, of which only its text is used.
#[verifier::external_type_specification]
#[verifier::external_body]
pub struct ExIoError(std::io::Error);

/// `std::str::Utf8Error`, of which only its text is used.
#[verifier::external_type_specification]
#[verifier::external_body]
pub struct ExUtf8Error(std::str::Utf8Error);

impl From<std::io::Error> for QvdError {
    /// A failure to open or read a file; the message is the text that the
    /// cause displays.
    fn from(value: std::io::Error) -> (e: QvdError)
        ensures
            e.kind == QvdErrorKind::ReadFile,
            to_string_from_display_ensures::<std::io::Error>(&value, e.message),
    {
        QvdError { kind: QvdErrorKind::ReadFile, message: value.to_string() }
    }
}

impl FromSpecImpl<std::io::Error> for QvdError {
    open spec fn obeys_from_spec() -> bool {
        false
    }

    open spec fn from_spec(value: std::io::Error) -> QvdError {
        arbitrary()
    }
}

impl From<std::str::Utf8Error> for QvdError {
    /// A metadata block that is not valid UTF-8; the message is the text
    /// that the cause displays.
    fn from(value: std::str::Utf8Error) -> (e: QvdError)
        ensures
            e.kind == QvdErrorKind::Utf8Error,
            to_string_from_display_ensures::<std::str::Utf8Error>(&value, e.message),
    {
        QvdError { kind: QvdErrorKind::Utf8Error, message: value.to_string() }
    }
}

impl FromSpecImpl<std::str::Utf8Error> for QvdError {
    open spec fn obeys_from_spec() -> bool {
        false
    }

    open spec fn from_spec(value: std::str::Utf8Error) -> QvdError {
        arbitrary()
    }
}

} // verus!
