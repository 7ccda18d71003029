//! What can end a run before its time.
use vstd::prelude::*;

verus! {

/// `url::ParseError`, the error that `url` reports for text that is no
/// absolute URL. Nothing is known of a value of it here; it is carried to the
/// caller as it came.
#[verifier::external_type_specification]
#[verifier::external_body]
pub struct ExParseError(url::ParseError);

/// The four families of failure.
#[derive(Clone, Copy, Debug, PartialEq, Eq, Structural)]
pub enum ErrorKind {
    /// The request could not be formed or sent, or the service refused it.
    Transport,
    /// The answer was not a page of songs.
    Decode,
    /// The store failed, or did not change exactly one row.
    Storage,
    /// The playlist could not be written.
    Io,
}

/// A failure, with what is known of its cause.
#[derive(Debug, PartialEq)]
pub enum Error {
    /// The address of the listing service could not be formed.
    Url(url::ParseError),
    /// The request failed on the way; the text is the transport's own.
    Transport(String),
    /// The service answered with a status code outside 200..=299.
    Status(u16),
    /// The answer could not be decoded; the text is the decoder's own.
    Decode(String),
    /// The store reported a failure; the text is the store's own.
    Storage(String),
    /// An upsert changed this many rows, and not the single one it must.
    RowsAffected(usize),
    /// Writing the playlist failed; the text is the system's own.
    Io(String),
}

impl Error {
    /// The family a failure belongs to.
    pub open spec fn kind_of(self) -> ErrorKind {
        match self {
            Error::Url(_) => ErrorKind::Transport,
            Error::Transport(_) => ErrorKind::Transport,
            Error::Status(_) => ErrorKind::Transport,
            Error::Decode(_) => ErrorKind::Decode,
            Error::Storage(_) => ErrorKind::Storage,
            Error::RowsAffected(_) => ErrorKind::Storage,
            Error::Io(_) => ErrorKind::Io,
        }
    }

    /// The family a failure belongs to.
    pub fn kind(&self) -> (kind: ErrorKind)
        ensures
            kind == self.kind_of(),
    {
        match self {
            Error::Url(_) => ErrorKind::Transport,
            Error::Transport(_) => ErrorKind::Transport,
            Error::Status(_) => ErrorKind::Transport,
            Error::Decode(_) => ErrorKind::Decode,
            Error::Storage(_) => ErrorKind::Storage,
            Error::RowsAffected(_) => ErrorKind::Storage,
            Error::Io(_) => ErrorKind::Io,
        }
    }

}

impl Clone for Error {
    fn clone(&self) -> (copy: Self)
        ensures
            copy == *self,
    {
        match self {
            Error::Url(cause) => Error::Url(*cause),
            Error::Transport(text) => Error::Transport(text.clone()),
            Error::Status(code) => Error::Status(*code),
            Error::Decode(text) => Error::Decode(text.clone()),
            Error::Storage(text) => Error::Storage(text.clone()),
            Error::RowsAffected(rows) => Error::RowsAffected(*rows),
            Error::Io(text) => Error::Io(text.clone()),
        }
    }
}

} // verus!
