//! What can go wrong, and how each failure reads.

use vstd::prelude::*;
use vstd::string::*;

use crate::text::{dec, push_dec};

verus! {

/// A failure of the library.
#[allow(inconsistent_fields)]
#[derive(Debug, PartialEq, Eq)]
pub enum Error {
    /// A file or a stream that could not be read or written.
    Io(String),
    /// Key material that cannot be used.
    Key(String),
    /// Text that is not base58.
    Base58Decode(String),
    /// A message that breaks the wire protocol.
    Protocol(String),
    /// Bytes or text that do not describe a record.
    Record(String),
    /// A signature that does not verify, or a signer that may not sign.
    Signature(String),
    /// A record past its lifetime, by this many seconds.
    Expired(u64),
    /// A record for another key than the one asked for.
    KeyMismatch { asked: String, got: String },
    /// A server address that cannot be read.
    Address(String),
    /// A key retired with no replacement.
    Revoked {
        key: String,
        /// Untrusted hint at the operator's new identity, if the revocation
        /// named one. Never act on it without out-of-band confirmation.
        successor: Option<String>,
        reason: String,
    },
    /// A key retired in favour of another.
    Superseded { key: String, successor: String },
    /// A chain of replacements that cannot be followed.
    SupersedeChain(String),
    /// An answer older than one already seen for the key.
    Downgrade(String),
    /// A delegation that does not hold.
    Delegation(String),
    /// A key nobody has published.
    Unpublished(String),
    /// A connection that could not be made or used.
    Connection(String),
    /// No server gave an answer.
    NoServer(String),
    /// A server refused the request.
    Server { code: u16, message: String },
}

/// The result of an operation of the library.
pub type Result<T> = std::result::Result<T, Error>;

/// An [`Error`] with its texts as character sequences.
#[allow(inconsistent_fields)]
#[verifier::ext_equal]
pub enum ErrorModel {
    Io(Seq<char>),
    Key(Seq<char>),
    Base58Decode(Seq<char>),
    Protocol(Seq<char>),
    Record(Seq<char>),
    Signature(Seq<char>),
    Expired(u64),
    KeyMismatch { asked: Seq<char>, got: Seq<char> },
    Address(Seq<char>),
    Revoked { key: Seq<char>, successor: Option<Seq<char>>, reason: Seq<char> },
    Superseded { key: Seq<char>, successor: Seq<char> },
    SupersedeChain(Seq<char>),
    Downgrade(Seq<char>),
    Delegation(Seq<char>),
    Unpublished(Seq<char>),
    Connection(Seq<char>),
    NoServer(Seq<char>),
    Server { code: u16, message: Seq<char> },
}

/// An optional text as an optional character sequence.
pub open spec fn opt_text(o: Option<String>) -> Option<Seq<char>> {
    match o {
        Some(s) => Some(s@),
        None => None,
    }
}

impl View for Error {
    type V = ErrorModel;

    open spec fn view(&self) -> ErrorModel {
        match *self {
            Error::Io(s) => ErrorModel::Io(s@),
            Error::Key(s) => ErrorModel::Key(s@),
            Error::Base58Decode(s) => ErrorModel::Base58Decode(s@),
            Error::Protocol(s) => ErrorModel::Protocol(s@),
            Error::Record(s) => ErrorModel::Record(s@),
            Error::Signature(s) => ErrorModel::Signature(s@),
            Error::Expired(n) => ErrorModel::Expired(n),
            Error::KeyMismatch { asked, got } => ErrorModel::KeyMismatch {
                asked: asked@,
                got: got@,
            },
            Error::Address(s) => ErrorModel::Address(s@),
            Error::Revoked { key, successor, reason } => ErrorModel::Revoked {
                key: key@,
                successor: opt_text(successor),
                reason: reason@,
            },
            Error::Superseded { key, successor } => ErrorModel::Superseded {
                key: key@,
                successor: successor@,
            },
            Error::SupersedeChain(s) => ErrorModel::SupersedeChain(s@),
            Error::Downgrade(s) => ErrorModel::Downgrade(s@),
            Error::Delegation(s) => ErrorModel::Delegation(s@),
            Error::Unpublished(s) => ErrorModel::Unpublished(s@),
            Error::Connection(s) => ErrorModel::Connection(s@),
            Error::NoServer(s) => ErrorModel::NoServer(s@),
            Error::Server { code, message } => ErrorModel::Server { code, message: message@ },
        }
    }
}

/// A result with its value and its error taken by their views.
pub open spec fn outcome<T: View>(r: Result<T>) -> std::result::Result<T::V, ErrorModel> {
    match r {
        Ok(v) => Ok(v@),
        Err(e) => Err(e@),
    }
}

/// How a failure reads.
pub open spec fn error_text(e: ErrorModel) -> Seq<char> {
    match e {
        ErrorModel::Io(s) => "I/O error: "@ + s,
        ErrorModel::Key(s) => "invalid key: "@ + s,
        ErrorModel::Base58Decode(s) => "base58 decode error: "@ + s,
        ErrorModel::Protocol(s) => "protocol error: "@ + s,
        ErrorModel::Record(s) => "malformed record: "@ + s,
        ErrorModel::Signature(s) => "signature verification failed: "@ + s,
        ErrorModel::Expired(n) => "record has expired (expired "@ + dec(n as nat) + "s ago)"@,
        ErrorModel::KeyMismatch { asked, got } => "record key mismatch: asked for "@ + asked
            + ", server answered for "@ + got,
        ErrorModel::Address(s) => "invalid sqc:// address: "@ + s,
        ErrorModel::Revoked { key, successor, reason } => "key "@ + key + " is revoked: "@ + reason,
        ErrorModel::Superseded { key, successor } => "key "@ + key + " was superseded by "@
            + successor,
        ErrorModel::SupersedeChain(s) => "supersede chain: "@ + s,
        ErrorModel::Downgrade(s) => "refusing a downgrade for "@ + s
            + ": a newer authority for this key was already seen"@,
        ErrorModel::Delegation(s) => "delegation error: "@ + s,
        ErrorModel::Unpublished(s) => "no record published for "@ + s,
        ErrorModel::Connection(s) => "connection error: "@ + s,
        ErrorModel::NoServer(s) => "no sqns server answered: "@ + s,
        ErrorModel::Server { code, message } => "server error "@ + dec(code as nat) + ": "@
            + message,
    }
}

/// `a` followed by `b`.
pub fn join2(a: &str, b: &str) -> (out: String)
    ensures
        out@ == a@ + b@,
{
    let mut out = String::from_str(a);
    out.append(b);
    out
}

/// `a`, `b` and `c` in a row.
pub fn join3(a: &str, b: &str, c: &str) -> (out: String)
    ensures
        out@ == a@ + b@ + c@,
{
    let mut out = join2(a, b);
    out.append(c);
    out
}

/// `a`, `b`, `c` and `d` in a row.
pub fn join4(a: &str, b: &str, c: &str, d: &str) -> (out: String)
    ensures
        out@ == a@ + b@ + c@ + d@,
{
    let mut out = join3(a, b, c);
    out.append(d);
    out
}

impl Error {
    /// How this failure reads.
    pub fn to_string(&self) -> (out: String)
        ensures
            out@ == error_text(self@),
    {
        match self {
            Error::Io(s) => join2("I/O error: ", s.as_str()),
            Error::Key(s) => join2("invalid key: ", s.as_str()),
            Error::Base58Decode(s) => join2("base58 decode error: ", s.as_str()),
            Error::Protocol(s) => join2("protocol error: ", s.as_str()),
            Error::Record(s) => join2("malformed record: ", s.as_str()),
            Error::Signature(s) => join2("signature verification failed: ", s.as_str()),
            Error::Expired(n) => {
                let mut out = String::from_str("record has expired (expired ");
                push_dec(&mut out, *n);
                out.append("s ago)");
                out
            },
            Error::KeyMismatch { asked, got } => join4(
                "record key mismatch: asked for ",
                asked.as_str(),
                ", server answered for ",
                got.as_str(),
            ),
            Error::Address(s) => join2("invalid sqc:// address: ", s.as_str()),
            Error::Revoked { key, successor: _, reason } => join4(
                "key ",
                key.as_str(),
                " is revoked: ",
                reason.as_str(),
            ),
            Error::Superseded { key, successor } => join4(
                "key ",
                key.as_str(),
                " was superseded by ",
                successor.as_str(),
            ),
            Error::SupersedeChain(s) => join2("supersede chain: ", s.as_str()),
            Error::Downgrade(s) => join3(
                "refusing a downgrade for ",
                s.as_str(),
                ": a newer authority for this key was already seen",
            ),
            Error::Delegation(s) => join2("delegation error: ", s.as_str()),
            Error::Unpublished(s) => join2("no record published for ", s.as_str()),
            Error::Connection(s) => join2("connection error: ", s.as_str()),
            Error::NoServer(s) => join2("no sqns server answered: ", s.as_str()),
            Error::Server { code, message } => {
                let mut out = String::from_str("server error ");
                push_dec(&mut out, *code as u64);
                out.append(": ");
                out.append(message.as_str());
                out
            },
        }
    }
}

} // verus!
