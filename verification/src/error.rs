//! What can go wrong in a trim, and how it is told to the user.

use vstd::prelude::*;
use vstd::string::StringExecFns;
use crate::path::Fault;
use crate::trim::StructuralError;

verus! {

/// A failure as a mathematical value: the errors below, with their messages
/// as sequences of characters.
pub ghost enum Failure {
    /// A file could not be read or written.
    Io { path: Seq<char>, message: Seq<char> },
    /// The gzip framing could not be taken off or put on.
    Compression(Seq<char>),
    /// The text is not a document of the strict grammar.
    Malformed(Seq<char>),
    /// The document could not be printed.
    Serialization(Seq<char>),
    /// The path to a queue fails.
    Structure(StructuralError),
    /// The queues held nothing, or no path led to one.
    NothingTrimmed,
}

/// Why bytes could not be read as a document.
#[derive(Debug, PartialEq)]
pub enum DecodeError {
    /// The bytes are not a gzip stream; the decompressor's message.
    Compression(String),
    /// The text is not a document; the parser's message, with line and column.
    Malformed(String),
}

/// Why a document could not be written as bytes.
#[derive(Debug, PartialEq)]
pub enum EncodeError {
    /// The serializer refused the document; its message.
    Serialization(String),
    /// The compressor failed; its message.
    Compression(String),
}

/// Why a trim failed.
#[derive(Debug, PartialEq)]
pub enum TrimError {
    /// A file could not be read or written. The library touches no file:
    /// the caller that does makes this error.
    Io { path: String, message: String },
    /// The gzip framing could not be taken off or put on.
    Compression(String),
    /// The text is not a document of the strict grammar.
    Decode(String),
    /// The document could not be printed.
    Encode(String),
    /// The path to a queue fails.
    Structure(StructuralError),
    /// The queues held nothing, or no path led to one.
    NothingTrimmed,
}

impl View for DecodeError {
    type V = Failure;

    open spec fn view(&self) -> Failure {
        match self {
            DecodeError::Compression(message) => Failure::Compression(message@),
            DecodeError::Malformed(message) => Failure::Malformed(message@),
        }
    }
}

impl View for EncodeError {
    type V = Failure;

    open spec fn view(&self) -> Failure {
        match self {
            EncodeError::Serialization(message) => Failure::Serialization(message@),
            EncodeError::Compression(message) => Failure::Compression(message@),
        }
    }
}

impl View for TrimError {
    type V = Failure;

    open spec fn view(&self) -> Failure {
        match self {
            TrimError::Io { path, message } => Failure::Io { path: path@, message: message@ },
            TrimError::Compression(message) => Failure::Compression(message@),
            TrimError::Decode(message) => Failure::Malformed(message@),
            TrimError::Encode(message) => Failure::Serialization(message@),
            TrimError::Structure(e) => Failure::Structure(*e),
            TrimError::NothingTrimmed => Failure::NothingTrimmed,
        }
    }
}

impl TrimError {
    /// A failure to decode as a failure of the trim.
    pub fn from_decode(e: DecodeError) -> (r: TrimError)
        ensures
            r@ == e@,
    {
        match e {
            DecodeError::Compression(message) => TrimError::Compression(message),
            DecodeError::Malformed(message) => TrimError::Decode(message),
        }
    }

    /// A failure to encode as a failure of the trim.
    pub fn from_encode(e: EncodeError) -> (r: TrimError)
        ensures
            r@ == e@,
    {
        match e {
            EncodeError::Serialization(message) => TrimError::Encode(message),
            EncodeError::Compression(message) => TrimError::Compression(message),
        }
    }
}

/// The character of a decimal digit.
pub open spec fn digit(d: nat) -> char {
    if d == 0 {
        '0'
    } else if d == 1 {
        '1'
    } else if d == 2 {
        '2'
    } else if d == 3 {
        '3'
    } else if d == 4 {
        '4'
    } else if d == 5 {
        '5'
    } else if d == 6 {
        '6'
    } else if d == 7 {
        '7'
    } else if d == 8 {
        '8'
    } else {
        '9'
    }
}

/// A number in decimal digits, without leading zeros.
pub open spec fn decimal(n: nat) -> Seq<char>
    decreases n,
{
    if n < 10 {
        seq![digit(n)]
    } else {
        decimal(n / 10).push(digit(n % 10))
    }
}

/// What a fault is called in a message.
pub open spec fn fault_text(fault: Fault) -> Seq<char> {
    match fault {
        Fault::MissingKey => "missing key"@,
        Fault::MissingIndex => "missing index"@,
        Fault::WrongKind => "wrong kind of value"@,
    }
}

impl Failure {
    /// The message that tells the user of the failure.
    pub open spec fn text(self) -> Seq<char> {
        match self {
            Failure::Io { path, message } => path + ": "@ + message,
            Failure::Compression(message) => "Compression failed: "@ + message,
            Failure::Malformed(message) => "Malformed document: "@ + message,
            Failure::Serialization(message) => "Document cannot be written: "@ + message,
            Failure::Structure(e) => "Couldn't find notifications to trim: "@ + e.queue.key()
                + ", step "@ + decimal(e.hop as nat) + ": "@ + fault_text(e.fault),
            Failure::NothingTrimmed => "No notifications trimmed"@,
        }
    }
}

/// A decimal digit as text.
fn digit_text(d: usize) -> (text: &'static str)
    requires
        d < 10,
    ensures
        text@ == seq![digit(d as nat)],
{
    proof {
        reveal_strlit("0");
        reveal_strlit("1");
        reveal_strlit("2");
        reveal_strlit("3");
        reveal_strlit("4");
        reveal_strlit("5");
        reveal_strlit("6");
        reveal_strlit("7");
        reveal_strlit("8");
        reveal_strlit("9");
    }
    let text = if d == 0 {
        "0"
    } else if d == 1 {
        "1"
    } else if d == 2 {
        "2"
    } else if d == 3 {
        "3"
    } else if d == 4 {
        "4"
    } else if d == 5 {
        "5"
    } else if d == 6 {
        "6"
    } else if d == 7 {
        "7"
    } else if d == 8 {
        "8"
    } else {
        "9"
    };
    assert(text@ =~= seq![digit(d as nat)]);
    text
}

/// A number in decimal digits.
pub fn decimal_text(n: usize) -> (text: String)
    ensures
        text@ == decimal(n as nat),
    decreases n,
{
    if n < 10 {
        String::from_str(digit_text(n))
    } else {
        let mut text = decimal_text(n / 10);
        text.append(digit_text(n % 10));
        assert(text@ =~= decimal(n as nat));
        text
    }
}

impl Fault {
    /// What the fault is called in a message.
    pub fn text(self) -> (text: &'static str)
        ensures
            text@ == fault_text(self),
    {
        match self {
            Fault::MissingKey => "missing key",
            Fault::MissingIndex => "missing index",
            Fault::WrongKind => "wrong kind of value",
        }
    }
}

impl StructuralError {
    /// The message that tells the user where the path to a queue fails.
    pub fn message(&self) -> (text: String)
        ensures
            text@ == Failure::Structure(*self).text(),
    {
        let mut text = String::from_str("Couldn't find notifications to trim: ");
        text.append(self.queue.name());
        text.append(", step ");
        let hop = decimal_text(self.hop);
        text.append(hop.as_str());
        text.append(": ");
        text.append(self.fault.text());
        text
    }
}

/// `lead` and then `message`.
fn prefixed(lead: &str, message: &String) -> (text: String)
    ensures
        text@ == lead@ + message@,
{
    let mut text = String::from_str(lead);
    text.append(message.as_str());
    text
}

impl DecodeError {
    /// The message that tells the user of the failure.
    pub fn message(&self) -> (text: String)
        ensures
            text@ == self@.text(),
    {
        match self {
            DecodeError::Compression(message) => prefixed("Compression failed: ", message),
            DecodeError::Malformed(message) => prefixed("Malformed document: ", message),
        }
    }
}

impl EncodeError {
    /// The message that tells the user of the failure.
    pub fn message(&self) -> (text: String)
        ensures
            text@ == self@.text(),
    {
        match self {
            EncodeError::Serialization(message) => prefixed(
                "Document cannot be written: ",
                message,
            ),
            EncodeError::Compression(message) => prefixed("Compression failed: ", message),
        }
    }
}

impl TrimError {
    /// The message that tells the user of the failure.
    pub fn message(&self) -> (text: String)
        ensures
            text@ == self@.text(),
    {
        match self {
            TrimError::Io { path, message } => {
                let mut text = path.clone();
                text.append(": ");
                text.append(message.as_str());
                text
            },
            TrimError::Compression(message) => prefixed("Compression failed: ", message),
            TrimError::Decode(message) => prefixed("Malformed document: ", message),
            TrimError::Encode(message) => prefixed("Document cannot be written: ", message),
            TrimError::Structure(e) => e.message(),
            TrimError::NothingTrimmed => String::from_str("No notifications trimmed"),
        }
    }
}

} // verus!
