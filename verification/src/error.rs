//! The reasons for which a request is turned away.

use vstd::prelude::*;
use vstd::string::*;

verus! {

/// Why no host was resolved for a request, or why the resolved host is not
/// served.
#[derive(Debug)]
#[non_exhaustive]
pub enum Error {
    /// The resolved host is accepted by no matcher.
    HostNotAllowed(String),
    /// A `Forwarded` header is not well-formed.
    InvalidForwardedHeader,
    /// A host value is not a bare authority, or not text.
    InvalidHost,
    /// The request names no host.
    MissingHost,
    /// The request names more than one host.
    MultipleHostHeader,
    /// The request has no `:authority`, though its protocol calls for one.
    MissingAuthority,
    /// `:authority` and the `Host` header differ.
    MismatchAuthorityHost,
    /// The protocol version is not one that is known.
    UnsupportedHttpVersion,
}

impl Error {
    /// The wording of this error.
    pub open spec fn text(&self) -> Seq<char> {
        match self {
            Error::HostNotAllowed(host) => "host "@ + host@ + " not allowed"@,
            Error::InvalidForwardedHeader => "invalid forwarded header"@,
            Error::InvalidHost => "invalid host"@,
            Error::MissingHost => "missing host"@,
            Error::MultipleHostHeader => "multiple host header"@,
            Error::MissingAuthority => "missing :authority pseudo header"@,
            Error::MismatchAuthorityHost => {
                ":authority pseudo header and host header is mismatched"@
            },
            Error::UnsupportedHttpVersion => "unsupported http version"@,
        }
    }

    /// The wording of this error, as a string.
    pub fn message(&self) -> (message: String)
        ensures
            message@ == self.text(),
    {
        match self {
            Error::HostNotAllowed(host) => {
                let mut message = "host ".to_owned();
                message.append(host.as_str());
                message.append(" not allowed");
                message
            },
            Error::InvalidForwardedHeader => "invalid forwarded header".to_owned(),
            Error::InvalidHost => "invalid host".to_owned(),
            Error::MissingHost => "missing host".to_owned(),
            Error::MultipleHostHeader => "multiple host header".to_owned(),
            Error::MissingAuthority => "missing :authority pseudo header".to_owned(),
            Error::MismatchAuthorityHost => {
                ":authority pseudo header and host header is mismatched".to_owned()
            },
            Error::UnsupportedHttpVersion => "unsupported http version".to_owned(),
        }
    }

    /// Whether `self` and `other` are the same kind of error, about the same
    /// host.
    pub open spec fn same_as(&self, other: Error) -> bool {
        match (*self, other) {
            (Error::HostNotAllowed(a), Error::HostNotAllowed(b)) => a@ == b@,
            (a, b) => a == b,
        }
    }
}

impl Clone for Error {
    fn clone(&self) -> (copy: Error)
        ensures
            copy.same_as(*self),
    {
        match self {
            Error::HostNotAllowed(host) => Error::HostNotAllowed(host.clone()),
            Error::InvalidForwardedHeader => Error::InvalidForwardedHeader,
            Error::InvalidHost => Error::InvalidHost,
            Error::MissingHost => Error::MissingHost,
            Error::MultipleHostHeader => Error::MultipleHostHeader,
            Error::MissingAuthority => Error::MissingAuthority,
            Error::MismatchAuthorityHost => Error::MismatchAuthorityHost,
            Error::UnsupportedHttpVersion => Error::UnsupportedHttpVersion,
        }
    }
}

} // verus!
