//! What can go wrong between this client and a server.

use crate::jsonrpc;
use crate::jsonrpc::ErrorCode;
use crate::transport::{decimal_digits, write_decimal};
use vstd::prelude::*;
use vstd::string::*;

verus! {

/// What can go wrong between this client and a server. Where the cause
/// is an error of a parser or of the system, the variant holds that error
/// in words.
#[derive(Clone, Debug, PartialEq)]
pub enum Error {
    /// The server answered with an error, or sent what is no message.
    Rpc(jsonrpc::Error),
    /// What the server sent does not have the shape that was expected.
    Parse(String),
    /// Reading from or writing to the server failed.
    IO(String),
    /// No answer to the request with this identifier came in time.
    Timeout(jsonrpc::Id),
    /// The server closed its output before it answered.
    StreamClosed,
    /// The server called a method that this client does not know.
    Unhandled,
    /// Anything else.
    Other(String),
}

/// A request identifier in words: `null`, the number in decimal digits,
/// or the string.
pub open spec fn id_text(id: jsonrpc::Id) -> Seq<char> {
    match id {
        jsonrpc::Id::Null => "null"@,
        jsonrpc::Id::Num(n) => decimal_digits(n as nat),
        jsonrpc::Id::Str(s) => s@,
    }
}

impl Error {
    /// What the error says before its particulars.
    pub open spec fn prefix(&self) -> Seq<char> {
        match self {
            Error::Rpc(_) => "protocol error: "@,
            Error::Parse(_) => "failed to parse: "@,
            Error::IO(_) => "IO Error: "@,
            Error::Timeout(_) => "request "@,
            Error::StreamClosed => "server closed the stream"@,
            Error::Unhandled => "Unhandled"@,
            Error::Other(_) => Seq::empty(),
        }
    }

    /// What the error says behind its prefix: the message of the server,
    /// the cause in words, or for a timeout the identifier of the request
    /// and ` timed out`.
    pub open spec fn particulars(&self) -> Seq<char> {
        match self {
            Error::Rpc(e) => e.message@,
            Error::Parse(e) => e@,
            Error::IO(e) => e@,
            Error::Other(e) => e@,
            Error::Timeout(id) => id_text(*id) + " timed out"@,
            Error::StreamClosed => Seq::empty(),
            Error::Unhandled => Seq::empty(),
        }
    }

    /// The error in words: its prefix, then its particulars.
    pub fn message(&self) -> (s: String)
        ensures
            s@ == self.prefix() + self.particulars(),
    {
        let (start, rest) = match self {
            Error::Rpc(e) => ("protocol error: ", e.message.clone()),
            Error::Parse(e) => ("failed to parse: ", e.clone()),
            Error::IO(e) => ("IO Error: ", e.clone()),
            Error::Timeout(id) => {
                let id = match id {
                    jsonrpc::Id::Null => "null".to_owned(),
                    jsonrpc::Id::Num(n) => write_decimal(*n),
                    jsonrpc::Id::Str(s) => s.clone(),
                };
                ("request ", id.concat(" timed out"))
            },
            Error::StreamClosed => ("server closed the stream", String::new()),
            Error::Unhandled => ("Unhandled", String::new()),
            Error::Other(e) => ("", e.clone()),
        };
        let s = start.to_owned().concat(rest.as_str());
        proof {
            assert(self.prefix() == start@) by {
                reveal_strlit("");
                assert(""@ =~= Seq::<char>::empty());
            }
            assert(rest@ =~= self.particulars());
        }
        s
    }

    /// Whether this is the error for parameters that the parser turned
    /// down with the words `text`: a protocol error with the code for
    /// invalid parameters, no data, and a message that holds the words.
    pub open spec fn says_invalid_params(&self, text: Seq<char>) -> bool {
        self matches Error::Rpc(e) && e.code == ErrorCode::InvalidParams && e.data is None
            && e.message@ == "Invalid params: "@ + text + "."@
    }
}

/// What parsing the parameters of a method comes to: the parameters, or
/// the protocol error for invalid parameters that says what the parser
/// found wrong.
pub fn params_or_invalid<T>(parsed: Result<T, String>) -> (r: Result<T, Error>)
    ensures
        parsed matches Ok(value) ==> r matches Ok(v) && v == value,
        parsed matches Err(text) ==> r matches Err(e) && e.says_invalid_params(text@),
{
    match parsed {
        Ok(value) => Ok(value),
        Err(text) => {
            let message = "Invalid params: ".to_owned().concat(text.as_str()).concat(".");
            Err(Error::Rpc(jsonrpc::Error::invalid_params(message)))
        },
    }
}

} // verus!
