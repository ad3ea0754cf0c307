//! Resolving the host of a request and deciding whether it is served.

use vstd::prelude::*;
use crate::authority::{normalize, normalized};
use crate::cache::CachedMatcher;
use crate::error::Error;
use crate::forwarded::{extract_from_forwarded, forwarded_candidate};
use crate::host::{extract_listed, host_candidate};
use crate::matcher::{KeyValueMatcher, Matcher};
use crate::request::{values_named, HttpVersion, RequestHead, RequestView};
use crate::text::str_eq;
use crate::Host;

verus! {

/// Which sources may name the host, and how more than one name is taken.
#[derive(Clone, Copy, Debug)]
pub struct Policy {
    /// Whether the `Forwarded` header is consulted.
    pub use_forwarded: bool,
    /// Whether the `X-Forwarded-Host` header is consulted.
    pub use_x_forwarded_host: bool,
    /// Whether a source that names more than one host is refused. Where it is
    /// not, the first name counts.
    pub reject_multiple_hosts: bool,
}

/// The name of the `Forwarded` header.
pub open spec fn forwarded_header() -> Seq<char> {
    "forwarded"@
}

/// The name of the `X-Forwarded-Host` header.
pub open spec fn x_forwarded_host_header() -> Seq<char> {
    "x-forwarded-host"@
}

/// The name of the `Host` header.
pub open spec fn host_header_name() -> Seq<char> {
    "host"@
}

/// The candidate that the forwarding headers give, `Forwarded` before
/// `X-Forwarded-Host`, each only where the policy consults it; `None` where
/// they give none.
pub open spec fn forwarded_source<F: KeyValueMatcher>(
    request: RequestView,
    policy: Policy,
    trust: Option<F>,
) -> Result<Option<Seq<char>>, Error> {
    let forwarded = if policy.use_forwarded {
        forwarded_candidate(
            values_named(request.headers, forwarded_header()),
            trust,
            policy.reject_multiple_hosts,
        )
    } else {
        Ok(None)
    };
    match forwarded {
        Ok(None) => if policy.use_x_forwarded_host {
            host_candidate(
                values_named(request.headers, x_forwarded_host_header()),
                policy.reject_multiple_hosts,
            )
        } else {
            Ok(None)
        },
        found => found,
    }
}

/// The candidate that the protocol's own source gives. In HTTP/2 and HTTP/3
/// that is the target authority, which has to be there and with which a `Host`
/// header has to agree; up to HTTP/1.1 it is the `Host` header, which has to be
/// there.
pub open spec fn protocol_source(request: RequestView, policy: Policy) -> Result<Seq<char>, Error> {
    let host = host_candidate(
        values_named(request.headers, host_header_name()),
        policy.reject_multiple_hosts,
    );
    match request.version {
        HttpVersion::Http2 | HttpVersion::Http3 => match request.authority {
            None => Err(Error::MissingAuthority),
            Some(authority) => match host {
                Err(error) => Err(error),
                Ok(None) => Ok(authority),
                Ok(Some(host)) => if host == authority {
                    Ok(authority)
                } else {
                    Err(Error::MismatchAuthorityHost)
                },
            },
        },
        HttpVersion::Http09 | HttpVersion::Http10 | HttpVersion::Http11 => match host {
            Err(error) => Err(error),
            Ok(None) => Err(Error::MissingHost),
            Ok(Some(host)) => Ok(host),
        },
        HttpVersion::Other => Err(Error::UnsupportedHttpVersion),
    }
}

/// The text that is taken for the host of a request, before it is checked:
/// that of the forwarding headers where they give one, else that of the
/// protocol's own source.
pub open spec fn candidate<F: KeyValueMatcher>(
    request: RequestView,
    policy: Policy,
    trust: Option<F>,
) -> Result<Seq<char>, Error> {
    match forwarded_source(request, policy, trust) {
        Err(error) => Err(error),
        Ok(Some(host)) => Ok(host),
        Ok(None) => protocol_source(request, policy),
    }
}

/// The host of a request: its candidate, checked to be an authority and put
/// in lowercase.
pub open spec fn resolved<F: KeyValueMatcher>(
    request: RequestView,
    policy: Policy,
    trust: Option<F>,
) -> Result<Seq<char>, Error> {
    match candidate(request, policy, trust) {
        Err(error) => Err(error),
        Ok(host) => normalized(host),
    }
}

/// What is decided of a request.
pub enum Verdict {
    /// The request is for this host, which is served.
    Allowed(Seq<char>),
    /// The request is for this host, which is not served.
    Blocked(Seq<char>),
    /// The request names no host that could be taken.
    Unresolvable(Error),
}

/// The verdict on a request: unresolvable where no host is resolved, else
/// allowed or blocked as the host matcher accepts the host or not.
pub open spec fn verdict<H: Matcher, F: KeyValueMatcher>(
    request: RequestView,
    policy: Policy,
    trust: Option<F>,
    hosts: H,
) -> Verdict {
    match resolved(request, policy, trust) {
        Err(error) => Verdict::Unresolvable(error),
        Ok(host) => if hosts.matches(host) {
            Verdict::Allowed(host)
        } else {
            Verdict::Blocked(host)
        },
    }
}

/// The outcome of checking one request.
#[derive(Debug)]
pub enum Decision {
    /// The request is for this host, which is served.
    Allowed(Host),
    /// The request is for this host, which is not served.
    Blocked(Host),
    /// The request names no host that could be taken.
    Unresolvable(Error),
}

impl View for Decision {
    type V = Verdict;

    open spec fn view(&self) -> Verdict {
        match self {
            Decision::Allowed(host) => Verdict::Allowed(host.0@),
            Decision::Blocked(host) => Verdict::Blocked(host.0@),
            Decision::Unresolvable(error) => Verdict::Unresolvable(*error),
        }
    }
}

/// A request that lacks every source that is consulted for it resolves to
/// no host: its verdict is `Unresolvable`, with `MissingAuthority` in HTTP/2
/// and HTTP/3, `MissingHost` up to HTTP/1.1, and `UnsupportedHttpVersion`
/// for any other version.
pub proof fn lemma_no_source_unresolvable<H: Matcher, F: KeyValueMatcher>(
    request: RequestView,
    policy: Policy,
    trust: Option<F>,
    hosts: H,
)
    requires
        policy.use_forwarded ==> values_named(request.headers, forwarded_header()).len() == 0,
        policy.use_x_forwarded_host ==> values_named(
            request.headers,
            x_forwarded_host_header(),
        ).len() == 0,
        values_named(request.headers, host_header_name()).len() == 0,
        request.version is Http2 || request.version is Http3 ==> request.authority is None,
    ensures
        verdict(request, policy, trust, hosts) == Verdict::Unresolvable(
            match request.version {
                HttpVersion::Http2 | HttpVersion::Http3 => Error::MissingAuthority,
                HttpVersion::Other => Error::UnsupportedHttpVersion,
                _ => Error::MissingHost,
            },
        ),
{
    let none = Seq::<Seq<u8>>::empty();
    crate::host::lemma_no_values_no_host(policy.reject_multiple_hosts);
    if policy.use_forwarded {
        assert(values_named(request.headers, forwarded_header()) == none);
    }
    if policy.use_x_forwarded_host {
        assert(values_named(request.headers, x_forwarded_host_header()) == none);
    }
    assert(values_named(request.headers, host_header_name()) == none);
}

/// Where the `Forwarded` header is consulted and gives a host, that host is
/// the candidate, whatever the `Host` header, the target authority and the
/// protocol version are.
pub proof fn lemma_forwarded_wins<F: KeyValueMatcher>(
    request: RequestView,
    policy: Policy,
    trust: Option<F>,
    host: Seq<char>,
)
    requires
        policy.use_forwarded,
        forwarded_candidate(
            values_named(request.headers, forwarded_header()),
            trust,
            policy.reject_multiple_hosts,
        ) == Ok::<Option<Seq<char>>, Error>(Some(host)),
    ensures
        candidate(request, policy, trust) == Ok::<Seq<char>, Error>(host),
        resolved(request, policy, trust) == normalized(host),
{
}

/// Two requests with the same `Forwarded` header lines that give a host
/// resolve alike, however they differ otherwise.
pub proof fn lemma_forwarded_alone_decides<F: KeyValueMatcher>(
    first: RequestView,
    second: RequestView,
    policy: Policy,
    trust: Option<F>,
)
    requires
        policy.use_forwarded,
        values_named(first.headers, forwarded_header()) == values_named(
            second.headers,
            forwarded_header(),
        ),
        forwarded_candidate(
            values_named(first.headers, forwarded_header()),
            trust,
            policy.reject_multiple_hosts,
        ) matches Ok(Some(_)),
    ensures
        resolved(first, policy, trust) == resolved(second, policy, trust),
{
}

/// Up to HTTP/1.1, a request for which the forwarding headers give no host
/// and whose `Host` header names more than one host, in two lines or in one
/// line with a comma, is refused with `MultipleHostHeader` where several hosts
/// are not tolerated.
pub proof fn lemma_multiple_hosts_unresolvable<F: KeyValueMatcher>(
    request: RequestView,
    policy: Policy,
    trust: Option<F>,
)
    requires
        policy.reject_multiple_hosts,
        forwarded_source(request, policy, trust) == Ok::<Option<Seq<char>>, Error>(None),
        request.version is Http09 || request.version is Http10 || request.version is Http11,
        forall|i: int|
            0 <= i < values_named(request.headers, host_header_name()).len()
                ==> crate::host::is_header_text(
                #[trigger] values_named(request.headers, host_header_name())[i],
            ),
        values_named(request.headers, host_header_name()).len() >= 2 || (values_named(
            request.headers,
            host_header_name(),
        ).len() == 1 && crate::host::header_text(
            values_named(request.headers, host_header_name())[0],
        ).contains(',')),
    ensures
        resolved(request, policy, trust) == Err::<Seq<char>, Error>(Error::MultipleHostHeader),
{
    crate::host::lemma_multiple_hosts_rejected(values_named(request.headers, host_header_name()));
}

/// A host that is resolved is an authority in lowercase.
pub proof fn lemma_resolved_is_normal<F: KeyValueMatcher>(
    request: RequestView,
    policy: Policy,
    trust: Option<F>,
)
    requires
        resolved(request, policy, trust) is Ok,
    ensures
        crate::authority::is_authority(resolved(request, policy, trust)->Ok_0),
        crate::authority::is_lowercase(resolved(request, policy, trust)->Ok_0),
        normalized(resolved(request, policy, trust)->Ok_0) == resolved(request, policy, trust),
{
    crate::authority::lemma_normalized_idempotent(candidate(request, policy, trust)->Ok_0);
}

/// The candidate of the forwarding headers.
fn from_forwarding<F: KeyValueMatcher>(
    request: &RequestHead,
    policy: &Policy,
    forwarded_matcher: &Option<F>,
) -> (result: Result<Option<String>, Error>)
    ensures
        match forwarded_source(request@, *policy, *forwarded_matcher) {
            Ok(host) => result matches Ok(h) && crate::text::text_of(h) == host,
            Err(error) => result == Err::<Option<String>, Error>(error),
        },
{
    if policy.use_forwarded {
        let values = request.values("forwarded");
        match extract_from_forwarded(
            values.as_slice(),
            forwarded_matcher,
            policy.reject_multiple_hosts,
        ) {
            Ok(None) => {},
            found => {
                return found;
            },
        }
    }
    if policy.use_x_forwarded_host {
        let values = request.values("x-forwarded-host");
        extract_listed(values.as_slice(), policy.reject_multiple_hosts)
    } else {
        Ok(None)
    }
}

/// The candidate of the protocol's own source.
fn from_protocol(request: &RequestHead, policy: &Policy) -> (result: Result<String, Error>)
    ensures
        match protocol_source(request@, *policy) {
            Ok(host) => result matches Ok(h) && h@ == host,
            Err(error) => result == Err::<String, Error>(error),
        },
{
    match request.version {
        HttpVersion::Http2 | HttpVersion::Http3 => {
            match &request.authority {
                None => Err(Error::MissingAuthority),
                Some(authority) => {
                    let values = request.values("host");
                    match extract_listed(values.as_slice(), policy.reject_multiple_hosts) {
                        Err(error) => Err(error),
                        Ok(None) => Ok(authority.clone()),
                        Ok(Some(host)) => {
                            if str_eq(host.as_str(), authority.as_str()) {
                                Ok(authority.clone())
                            } else {
                                Err(Error::MismatchAuthorityHost)
                            }
                        },
                    }
                },
            }
        },
        HttpVersion::Http09 | HttpVersion::Http10 | HttpVersion::Http11 => {
            let values = request.values("host");
            match extract_listed(values.as_slice(), policy.reject_multiple_hosts) {
                Err(error) => Err(error),
                Ok(None) => Err(Error::MissingHost),
                Ok(Some(host)) => Ok(host),
            }
        },
        HttpVersion::Other => Err(Error::UnsupportedHttpVersion),
    }
}

/// Resolves the host that a request is for.
///
/// The forwarding headers come first, as far as the policy consults them; a
/// request for which they name no host is resolved by its protocol's own
/// source. What is found has to be an authority and is returned in lowercase.
pub fn get_host<F: KeyValueMatcher>(
    request: &RequestHead,
    policy: &Policy,
    forwarded_matcher: &Option<F>,
) -> (result: Result<String, Error>)
    ensures
        match resolved(request@, *policy, *forwarded_matcher) {
            Ok(host) => result matches Ok(h) && h@ == host,
            Err(error) => result == Err::<String, Error>(error),
        },
{
    let found = match from_forwarding(request, policy, forwarded_matcher) {
        Err(error) => {
            return Err(error);
        },
        Ok(Some(host)) => host,
        Ok(None) => match from_protocol(request, policy) {
            Err(error) => {
                return Err(error);
            },
            Ok(host) => host,
        },
    };
    normalize(found.as_str())
}

/// The configuration of the check: which hosts are served, which `Forwarded`
/// entries are believed, and the policy on the sources.
#[derive(Clone)]
pub struct AllowedHostLayer<H, F> {
    host_matcher: H,
    forwarded_matcher: Option<F>,
    policy: Policy,
}

impl<H> AllowedHostLayer<H, ()> {
    /// A layer that serves the hosts that `host_matcher` accepts. It consults
    /// no forwarding header and refuses a source that names several hosts.
    pub fn new(host_matcher: H) -> (layer: Self)
        ensures
            layer.host_matcher() == host_matcher,
            layer.forwarded_matcher() == None::<()>,
            layer.policy() == (Policy {
                use_forwarded: false,
                use_x_forwarded_host: false,
                reject_multiple_hosts: true,
            }),
    {
        Self {
            host_matcher,
            forwarded_matcher: None,
            policy: Policy {
                use_forwarded: false,
                use_x_forwarded_host: false,
                reject_multiple_hosts: true,
            },
        }
    }

    /// Lets the layer consult the `Forwarded` header and believe the entries
    /// whose parameters `forwarded_matcher` accepts.
    pub fn with_forwarded_matcher<F: KeyValueMatcher>(self, forwarded_matcher: F) -> (layer:
        AllowedHostLayer<H, F>)
        ensures
            layer.host_matcher() == self.host_matcher(),
            layer.forwarded_matcher() == Some(forwarded_matcher),
            layer.policy() == (Policy { use_forwarded: true, ..self.policy() }),
    {
        AllowedHostLayer {
            host_matcher: self.host_matcher,
            forwarded_matcher: Some(forwarded_matcher),
            policy: Policy { use_forwarded: true, ..self.policy },
        }
    }
}

impl<H, F> AllowedHostLayer<H, F> {
    /// The matcher that says which hosts are served.
    pub closed spec fn host_matcher(&self) -> H {
        self.host_matcher
    }

    /// The matcher that says which `Forwarded` entries are believed, if one
    /// was given.
    pub closed spec fn forwarded_matcher(&self) -> Option<F> {
        self.forwarded_matcher
    }

    /// The policy on the sources.
    pub closed spec fn policy(&self) -> Policy {
        self.policy
    }

    /// Says whether the `Forwarded` header is consulted. Without a matcher for
    /// its entries, the first entry that names a host is believed.
    pub fn use_forwarded(self, enabled: bool) -> (layer: Self)
        ensures
            layer.host_matcher() == self.host_matcher(),
            layer.forwarded_matcher() == self.forwarded_matcher(),
            layer.policy() == (Policy { use_forwarded: enabled, ..self.policy() }),
    {
        Self {
            host_matcher: self.host_matcher,
            forwarded_matcher: self.forwarded_matcher,
            policy: Policy { use_forwarded: enabled, ..self.policy },
        }
    }

    /// Says whether the `X-Forwarded-Host` header is consulted.
    pub fn use_x_forwarded_host(self, enabled: bool) -> (layer: Self)
        ensures
            layer.host_matcher() == self.host_matcher(),
            layer.forwarded_matcher() == self.forwarded_matcher(),
            layer.policy() == (Policy { use_x_forwarded_host: enabled, ..self.policy() }),
    {
        Self {
            host_matcher: self.host_matcher,
            forwarded_matcher: self.forwarded_matcher,
            policy: Policy { use_x_forwarded_host: enabled, ..self.policy },
        }
    }

    /// Says whether a source that names several hosts is refused.
    pub fn reject_multiple_hosts(self, enabled: bool) -> (layer: Self)
        ensures
            layer.host_matcher() == self.host_matcher(),
            layer.forwarded_matcher() == self.forwarded_matcher(),
            layer.policy() == (Policy { reject_multiple_hosts: enabled, ..self.policy() }),
    {
        Self {
            host_matcher: self.host_matcher,
            forwarded_matcher: self.forwarded_matcher,
            policy: Policy { reject_multiple_hosts: enabled, ..self.policy },
        }
    }

    /// The policy on the sources.
    pub fn source_policy(&self) -> (policy: Policy)
        ensures
            policy == self.policy(),
    {
        self.policy
    }
}

impl<H: Matcher, F: KeyValueMatcher> AllowedHostLayer<H, F> {
    /// The verdict of this layer on a request.
    pub open spec fn verdict(&self, request: RequestView) -> Verdict {
        verdict(request, self.policy(), self.forwarded_matcher(), self.host_matcher())
    }

    /// Resolves the host of `request` and tests it against the host matcher.
    pub fn check(&self, request: &RequestHead) -> (decision: Decision)
        ensures
            decision@ == self.verdict(request@),
    {
        match get_host(request, &self.policy, &self.forwarded_matcher) {
            Err(error) => Decision::Unresolvable(error),
            Ok(host) => {
                if self.host_matcher.matches_value(host.as_str()) {
                    Decision::Allowed(Host(host))
                } else {
                    Decision::Blocked(Host(host))
                }
            },
        }
    }
}

impl<H, F: KeyValueMatcher> AllowedHostLayer<H, F> {
    /// Resolves the host of `request` and tests it against a host matcher that
    /// remembers its answers. The decision is the one that the matcher would
    /// give without its cache.
    pub fn check_with<M: Matcher>(
        &self,
        request: &RequestHead,
        hosts: &mut CachedMatcher<M>,
    ) -> (decision: Decision)
        ensures
            decision@ == verdict(
                request@,
                self.policy(),
                self.forwarded_matcher(),
                old(hosts).inner(),
            ),
            final(hosts).inner() == old(hosts).inner(),
            final(hosts).cache().capacity() == old(hosts).cache().capacity(),
    {
        match get_host(request, &self.policy, &self.forwarded_matcher) {
            Err(error) => Decision::Unresolvable(error),
            Ok(host) => {
                if hosts.matches_value(host.as_str()) {
                    Decision::Allowed(Host(host))
                } else {
                    Decision::Blocked(Host(host))
                }
            },
        }
    }
}

/// A service behind the check: the inner service, and the layer that guards
/// it.
#[derive(Clone)]
pub struct AllowedHost<H, F, S> {
    /// The service that handles the requests that pass.
    pub inner: S,
    /// The layer that guards it.
    pub layer: AllowedHostLayer<H, F>,
}

impl<H, F, S> AllowedHost<H, F, S> {
    /// Puts `inner` behind `layer`.
    pub fn new(inner: S, layer: AllowedHostLayer<H, F>) -> (service: Self)
        ensures
            service.inner == inner,
            service.layer == layer,
    {
        Self { inner, layer }
    }
}

impl<H: Matcher, F: KeyValueMatcher, S> AllowedHost<H, F, S> {
    /// Checks a request that has arrived for the inner service.
    pub fn check(&self, request: &RequestHead) -> (decision: Decision)
        ensures
            decision@ == self.layer.verdict(request@),
    {
        self.layer.check(request)
    }
}

/// What is to be done with the response of the inner service.
#[derive(Debug)]
pub enum Step {
    /// The request was for a host that is served: the response of the inner
    /// service is awaited and handed on.
    Forward,
    /// The request is turned away with this error, whatever the inner service
    /// answers.
    Reject(Error),
}

/// The pending answer to a checked request: the response that the inner
/// service is working on, and what the check found.
pub struct AllowedHostFuture<F> {
    response_future: F,
    host: Result<String, Error>,
    host_allowed: bool,
}

impl<F> AllowedHostFuture<F> {
    /// The pending response of the inner service.
    pub closed spec fn response(&self) -> F {
        self.response_future
    }

    /// Gives the pending response of the inner service back.
    pub fn into_response(self) -> (response_future: F)
        ensures
            response_future == self.response(),
    {
        self.response_future
    }

    /// What the check found: the verdict that this answer was made for.
    pub closed spec fn verdict(&self) -> Verdict {
        match self.host {
            Ok(host) => if self.host_allowed {
                Verdict::Allowed(host@)
            } else {
                Verdict::Blocked(host@)
            },
            Err(error) => Verdict::Unresolvable(error),
        }
    }

    /// Joins the pending response of the inner service with the decision on
    /// the request.
    pub fn new(response_future: F, decision: Decision) -> (future: Self)
        ensures
            future.response() == response_future,
            future.verdict() == decision@,
    {
        match decision {
            Decision::Allowed(host) => Self {
                response_future,
                host: Ok(host.0),
                host_allowed: true,
            },
            Decision::Blocked(host) => Self {
                response_future,
                host: Ok(host.0),
                host_allowed: false,
            },
            Decision::Unresolvable(error) => Self {
                response_future,
                host: Err(error),
                host_allowed: false,
            },
        }
    }

    /// Says what to do when the answer is asked for: forward the response of
    /// the inner service for an allowed host, else reject.
    pub fn step(&self) -> (step: Step)
        ensures
            match self.verdict() {
                Verdict::Allowed(_) => step is Forward,
                Verdict::Blocked(host) => step matches Step::Reject(Error::HostNotAllowed(h))
                    && h@ == host,
                Verdict::Unresolvable(error) => step matches Step::Reject(e) && e.same_as(error),
            },
    {
        match &self.host {
            Ok(host) => {
                if self.host_allowed {
                    Step::Forward
                } else {
                    Step::Reject(Error::HostNotAllowed(host.clone()))
                }
            },
            Err(error) => Step::Reject(error.clone()),
        }
    }
}

} // verus!
