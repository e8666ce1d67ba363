//! What can go wrong.
use redb::Error as StoreError;
use vstd::prelude::*;
use vstd::std_specs::convert::FromSpecImpl;
use vstd::string::*;

verus! {

/// `std::io::Error`, which is carried but not looked into.
#[verifier::external_type_specification]
#[verifier::external_body]
pub struct ExIoError(std::io::Error);

/// `redb::Error`, which is carried but not looked into.
#[verifier::external_type_specification]
#[verifier::external_body]
pub struct ExRedbError(StoreError);

/// An error of the library.
#[derive(Debug)]
pub enum Error {
    Io(std::io::Error),
    Store(Box<StoreError>),
    Invalid(String),
    /// A failure that an execution backend reports.
    Backend(String),
}

pub type Result<T> = std::result::Result<T, Error>;

impl From<std::io::Error> for Error {
    fn from(e: std::io::Error) -> (r: Self) {
        Error::Io(e)
    }
}

impl FromSpecImpl<std::io::Error> for Error {
    open spec fn obeys_from_spec() -> bool {
        true
    }

    open spec fn from_spec(e: std::io::Error) -> Self {
        Error::Io(e)
    }
}

impl From<StoreError> for Error {
    fn from(e: StoreError) -> (r: Self) {
        Error::Store(Box::new(e))
    }
}

impl FromSpecImpl<StoreError> for Error {
    open spec fn obeys_from_spec() -> bool {
        true
    }

    open spec fn from_spec(e: StoreError) -> Self {
        Error::Store(Box::new(e))
    }
}

impl Error {
    /// The message for the error, whose underlying cause reads `cause`.
    pub open spec fn message_text(self, cause: Seq<char>) -> Seq<char> {
        match self {
            Error::Io(_) => "io error: "@ + cause,
            Error::Store(_) => "store error: "@ + cause,
            Error::Invalid(m) => "invalid input: "@ + m@,
            Error::Backend(m) => "backend error: "@ + m@,
        }
    }

    /// The message for the error.  `cause` is the text of the underlying I/O or store error, and
    /// stays unused where there is none.
    pub fn message(&self, cause: &str) -> (s: String)
        ensures
            s@ == self.message_text(cause@),
    {
        match self {
            Error::Io(_) => joined("io error: ", cause),
            Error::Store(_) => joined("store error: ", cause),
            Error::Invalid(m) => joined("invalid input: ", m.as_str()),
            Error::Backend(m) => joined("backend error: ", m.as_str()),
        }
    }
}

fn joined(a: &str, b: &str) -> (s: String)
    ensures
        s@ == a@ + b@,
{
    let mut s = a.to_owned();
    s.append(b);
    s
}

/// An error that rejects the input for the reason `why`.
pub fn invalid(why: &str) -> (e: Error)
    ensures
        e matches Error::Invalid(m) && m@ == why@,
{
    Error::Invalid(why.to_owned())
}

} // verus!
