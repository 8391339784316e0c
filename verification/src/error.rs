//! Error types of the shortcut sender and of the address updater.
use vstd::prelude::*;
use vstd::string::*;

verus! {

#[verifier::external_type_specification]
#[verifier::external_body]
pub struct ExIoError(std::io::Error);

#[verifier::external_type_specification]
#[verifier::external_body]
pub struct ExParseIntError(std::num::ParseIntError);

#[verifier::external_type_specification]
#[verifier::external_body]
pub struct ExFromUtf8Error(std::string::FromUtf8Error);

/// An error of the shortcut sender: a kind (`"io"`, `"mslnk"`, `"parse"`,
/// or the empty kind for its own checks) and a message.
#[derive(Debug)]
pub struct SendError {
    kind: String,
    message: String,
}

impl View for SendError {
    type V = (Seq<char>, Seq<char>);

    /// The kind and the message.
    closed spec fn view(&self) -> (Seq<char>, Seq<char>) {
        (self.kind@, self.message@)
    }
}

impl SendError {
    /// An error of the given kind with the given message.
    pub fn new(kind: &str, message: &str) -> (e: SendError)
        ensures
            e@ == (kind@, message@),
    {
        SendError { kind: kind.to_owned(), message: message.to_owned() }
    }

    /// The kind of the error.
    pub fn kind(&self) -> (k: &str)
        ensures
            k@ == self@.0,
    {
        self.kind.as_str()
    }

    /// The message of the error.
    pub fn message(&self) -> (m: &str)
        ensures
            m@ == self@.1,
    {
        self.message.as_str()
    }

    /// The displayed form of the error: the kind, a colon, the message.
    pub fn to_string(&self) -> (s: String)
        ensures
            s@ == self@.0 + ":"@ + self@.1,
    {
        let mut s = self.kind.clone();
        s.append(":");
        s.append(self.message.as_str());
        s
    }

    /// An `"io"` error carrying the displayed text of an I/O error.
    pub fn from_io(error: std::io::Error) -> (e: SendError)
        ensures
            e@.0 == "io"@,
            exists|text: String|
                to_string_from_display_ensures::<std::io::Error>(&error, text) && text@ == e@.1,
    {
        let message = error.to_string();
        let ghost text = message;
        let e = SendError { kind: "io".to_owned(), message };
        assert(to_string_from_display_ensures::<std::io::Error>(&error, text) && text@ == e@.1);
        e
    }

    /// An `"mslnk"` error carrying the displayed text of a shell link error.
    pub fn from_mslink_message(message: &str) -> (e: SendError)
        ensures
            e@ == ("mslnk"@, message@),
    {
        SendError { kind: "mslnk".to_owned(), message: message.to_owned() }
    }

    /// A `"parse"` error carrying the displayed text of an integer parse
    /// error.
    pub fn from_parse(error: std::num::ParseIntError) -> (e: SendError)
        ensures
            e@.0 == "parse"@,
            exists|text: String|
                to_string_from_display_ensures::<std::num::ParseIntError>(&error, text) && text@
                    == e@.1,
    {
        let message = error.to_string();
        let ghost text = message;
        let e = SendError { kind: "parse".to_owned(), message };
        assert(to_string_from_display_ensures::<std::num::ParseIntError>(&error, text) && text@
            == e@.1);
        e
    }
}

/// An error of the sync address updater.
#[derive(Debug)]
pub enum UpdateAddrError {
    /// A file could not be read or written.
    IO(std::io::Error),
    /// A number could not be read.
    ParseInt(std::num::ParseIntError),
    /// Bytes were not valid UTF-8.
    FromUtf8(std::string::FromUtf8Error),
    /// Any other failure.
    Unknown,
}

} // verus!
