use vstd::prelude::*;
use vstd::std_specs::cmp::PartialEqSpecImpl;
use vstd::std_specs::convert::FromSpecImpl;

verus! {

/// `std::io::Error`, carried through as an opaque value.
#[verifier::external_type_specification]
#[verifier::external_body]
pub struct ExIoError(std::io::Error);

/// Everything that can end a resolution without an answer.
#[derive(Debug)]
pub enum Error {
    /// The name to resolve is not a well-formed host name.
    InvalidHostname,
    /// The transport could not send the query or receive a reply.
    NetworkError(std::io::Error),
    /// The resolver gave up; the text says why.
    ResolverError(String),
    /// The name server answered with a non-zero response code.
    ServerError(NameServerError),
}

/// The failure that a name server reports in the response code of a header.
#[derive(Debug, Clone, Copy, PartialEq, Eq, Structural)]
pub enum NameServerError {
    FormatError,
    ServerFailure,
    NxDomain,
    NotImplemented,
    Refused,
    Unknown,
}

/// What an [`Error`] says, with the text of a message as a sequence of
/// characters.
pub enum ErrorView {
    InvalidHostname,
    NetworkError(std::io::Error),
    ResolverError(Seq<char>),
    ServerError(NameServerError),
}

impl View for Error {
    type V = ErrorView;

    open spec fn view(&self) -> ErrorView {
        match *self {
            Error::InvalidHostname => ErrorView::InvalidHostname,
            Error::NetworkError(cause) => ErrorView::NetworkError(cause),
            Error::ResolverError(message) => ErrorView::ResolverError(message@),
            Error::ServerError(kind) => ErrorView::ServerError(kind),
        }
    }
}

impl NameServerError {
    /// The failure that response code `code` stands for.
    pub open spec fn of_code(code: u16) -> NameServerError {
        if code == 1 {
            NameServerError::FormatError
        } else if code == 2 {
            NameServerError::ServerFailure
        } else if code == 3 {
            NameServerError::NxDomain
        } else if code == 4 {
            NameServerError::NotImplemented
        } else if code == 5 {
            NameServerError::Refused
        } else {
            NameServerError::Unknown
        }
    }
}

impl From<u16> for NameServerError {
    /// The failure that the response code `value` stands for.
    fn from(value: u16) -> (kind: NameServerError) {
        match value {
            1 => NameServerError::FormatError,
            2 => NameServerError::ServerFailure,
            3 => NameServerError::NxDomain,
            4 => NameServerError::NotImplemented,
            5 => NameServerError::Refused,
            _ => NameServerError::Unknown,
        }
    }
}

impl FromSpecImpl<u16> for NameServerError {
    open spec fn obeys_from_spec() -> bool {
        true
    }

    open spec fn from_spec(value: u16) -> NameServerError {
        NameServerError::of_code(value)
    }
}

/// Two errors are equal only when both are [`Error::InvalidHostname`]: no
/// other variant compares equal to anything, itself included.
impl PartialEq for Error {
    fn eq(&self, other: &Error) -> (equal: bool) {
        match (self, other) {
            (Error::InvalidHostname, Error::InvalidHostname) => true,
            _ => false,
        }
    }
}

impl PartialEqSpecImpl for Error {
    open spec fn obeys_eq_spec() -> bool {
        true
    }

    open spec fn eq_spec(&self, other: &Error) -> bool {
        *self is InvalidHostname && *other is InvalidHostname
    }
}

impl Error {
    /// A [`Error::ResolverError`] that carries `message`.
    pub fn resolver(message: &str) -> (error: Error)
        ensures
            error@ == ErrorView::ResolverError(message@),
    {
        Error::ResolverError(message.to_owned())
    }
}

} // verus!
