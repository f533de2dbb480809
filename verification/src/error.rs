//! The library's error type.
use vstd::prelude::*;
use vstd::string::StringExecFns;

verus! {

#[verifier::external_type_specification]
#[verifier::external_body]
pub struct ExIoError(std::io::Error);

#[verifier::external_type_specification]
#[verifier::external_body]
pub struct ExBincodeErrorKind(bincode::ErrorKind);

#[verifier::external_type_specification]
#[verifier::external_body]
pub struct ExJsonError(serde_json::Error);

/// Errors of the library's operations.
#[derive(Debug)]
pub enum GuddaError {
    /// I/O errors (file read/write, network).
    Io(std::io::Error),
    /// Serialization or deserialization errors.
    Serialize(String),
    /// Dimension mismatch between vectors.
    DimMismatch { expected: usize, got: usize },
    /// Invalid configuration or parameter.
    Config(String),
    /// Parse errors.
    Parse(String),
    /// Anything else.
    Other(String),
}

/// `Result` with the library's error.
pub type GuddaResult<T> = Result<T, GuddaError>;

/// The decimal digit character for `d` (0 to 9).
pub open spec fn digit_char(d: nat) -> char {
    (48 + d) as char
}

/// The decimal representation of `n`, most significant digit first, with no
/// leading zeros ("0" for zero).
pub open spec fn decimal_text(n: nat) -> Seq<char>
    decreases n,
{
    if n < 10 {
        seq![digit_char(n)]
    } else {
        decimal_text(n / 10).push(digit_char(n % 10))
    }
}

/// `usize::to_string`: std's `Display` for integers writes the decimal
/// representation, so the text is `decimal_text(n)`.
#[verifier::external_body]
fn usize_text(n: usize) -> (s: String)
    ensures
        s@ == decimal_text(n as nat),
{
    n.to_string()
}

/// `std::io::Error::to_string`: its `Display` text. It can hold messages of
/// the operating system, so nothing is claimed of it.
#[verifier::external_body]
fn io_error_text(e: &std::io::Error) -> String {
    e.to_string()
}

/// `bincode::ErrorKind`'s `Display` text. It carries the text of the
/// failure that bincode met, so nothing is claimed of it.
#[verifier::external_body]
fn bincode_error_text(e: &bincode::ErrorKind) -> String {
    e.to_string()
}

/// `serde_json::Error`'s `Display` text: the failure with its line and
/// column. Nothing is claimed of it.
#[verifier::external_body]
fn json_error_text(e: &serde_json::Error) -> String {
    e.to_string()
}

/// The message `GuddaError` displays for each variant.
pub open spec fn message_of(e: GuddaError, io_text: Seq<char>) -> Seq<char> {
    match e {
        GuddaError::Io(_) => "I/O error: "@ + io_text,
        GuddaError::Serialize(msg) => "serialization error: "@ + msg@,
        GuddaError::DimMismatch { expected, got } => "dimension mismatch: expected "@ + decimal_text(
            expected as nat,
        ) + ", got "@ + decimal_text(got as nat),
        GuddaError::Config(msg) => "configuration error: "@ + msg@,
        GuddaError::Parse(msg) => "parse error: "@ + msg@,
        GuddaError::Other(msg) => msg@,
    }
}

impl GuddaError {
    /// The error's message: a fixed prefix per variant and its details (the
    /// text the error displays).
    pub fn message(&self) -> (r: String)
        ensures
            !(self is Io) ==> r@ == message_of(*self, Seq::empty()),
            self is Io ==> exists|t: Seq<char>| r@ == message_of(*self, t),
    {
        match self {
            GuddaError::Io(e) => {
                let t = io_error_text(e);
                let r = String::from_str("I/O error: ").concat(t.as_str());
                assert(r@ == message_of(*self, t@));
                r
            },
            GuddaError::Serialize(msg) => String::from_str("serialization error: ").concat(
                msg.as_str(),
            ),
            GuddaError::DimMismatch { expected, got } => {
                let e = usize_text(*expected);
                let g = usize_text(*got);
                String::from_str("dimension mismatch: expected ").concat(e.as_str()).concat(
                    ", got ",
                ).concat(g.as_str())
            },
            GuddaError::Config(msg) => String::from_str("configuration error: ").concat(
                msg.as_str(),
            ),
            GuddaError::Parse(msg) => String::from_str("parse error: ").concat(msg.as_str()),
            GuddaError::Other(msg) => String::from_str(msg.as_str()),
        }
    }
}

impl From<std::io::Error> for GuddaError {
    fn from(e: std::io::Error) -> (r: Self) {
        GuddaError::Io(e)
    }
}

impl vstd::std_specs::convert::FromSpecImpl<std::io::Error> for GuddaError {
    open spec fn obeys_from_spec() -> bool {
        true
    }

    open spec fn from_spec(e: std::io::Error) -> GuddaError {
        GuddaError::Io(e)
    }
}

impl From<Box<bincode::ErrorKind>> for GuddaError {
    /// A serialization error: `bincode: ` and bincode's message.
    fn from(e: Box<bincode::ErrorKind>) -> (r: Self)
        ensures
            r matches GuddaError::Serialize(m) && exists|t: Seq<char>| m@ == "bincode: "@ + t,
    {
        let t = bincode_error_text(&*e);
        let m = String::from_str("bincode: ").concat(t.as_str());
        assert(m@ == "bincode: "@ + t@);
        GuddaError::Serialize(m)
    }
}

/// The message of a bincode error is not a function of the value that
/// Verus can see, so `from_spec` is not claimed; `from` states its result.
impl vstd::std_specs::convert::FromSpecImpl<Box<bincode::ErrorKind>> for GuddaError {
    open spec fn obeys_from_spec() -> bool {
        false
    }

    open spec fn from_spec(e: Box<bincode::ErrorKind>) -> GuddaError {
        GuddaError::Serialize(choose|t: String| t@.len() >= 0)
    }
}

impl From<serde_json::Error> for GuddaError {
    /// A serialization error: `json: ` and the parser's message.
    fn from(e: serde_json::Error) -> (r: Self)
        ensures
            r matches GuddaError::Serialize(m) && exists|t: Seq<char>| m@ == "json: "@ + t,
    {
        let t = json_error_text(&e);
        let m = String::from_str("json: ").concat(t.as_str());
        assert(m@ == "json: "@ + t@);
        GuddaError::Serialize(m)
    }
}

/// The message of a JSON error is not a function of the value that Verus
/// can see, so `from_spec` is not claimed; `from` states its result.
impl vstd::std_specs::convert::FromSpecImpl<serde_json::Error> for GuddaError {
    open spec fn obeys_from_spec() -> bool {
        false
    }

    open spec fn from_spec(e: serde_json::Error) -> GuddaError {
        GuddaError::Serialize(choose|t: String| t@.len() >= 0)
    }
}

impl From<String> for GuddaError {
    fn from(s: String) -> (r: Self) {
        GuddaError::Other(s)
    }
}

impl vstd::std_specs::convert::FromSpecImpl<String> for GuddaError {
    open spec fn obeys_from_spec() -> bool {
        true
    }

    open spec fn from_spec(s: String) -> GuddaError {
        GuddaError::Other(s)
    }
}

impl From<&str> for GuddaError {
    /// An `Other` error holding a copy of the text.
    fn from(s: &str) -> (r: Self)
        ensures
            r matches GuddaError::Other(m) && m@ == s@,
    {
        let t = String::from_str(s);
        GuddaError::Other(t)
    }
}

/// Spec equality of two `String` values cannot be derived from equal text, so
/// `from_spec` is not claimed here; `from` itself states what it returns.
impl vstd::std_specs::convert::FromSpecImpl<&str> for GuddaError {
    open spec fn obeys_from_spec() -> bool {
        false
    }

    open spec fn from_spec(s: &str) -> GuddaError {
        GuddaError::Other(choose|t: String| t@ == s@)
    }
}

} // verus!
