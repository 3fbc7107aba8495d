//! Which transport a locator asks for, and where it connects to.

use crate::error::TransportError;
use crate::text::str_eq;
use vstd::prelude::*;

verus! {

/// The port of the byte-stream transport where the locator names none.
pub const DEFAULT_TCP_PORT: u16 = 8081;

/// The transports, chosen once by the scheme of the locator.
#[derive(Debug, Clone, Copy, PartialEq, Eq, Structural)]
pub enum Transport {
    /// A raw byte stream: one JSON document per read. Scheme "tcp".
    Tcp,
    /// Discrete messages: one JSON document per message. Scheme "ws".
    Ws,
}

/// Where to connect to, and how.
#[derive(Debug, Clone, PartialEq)]
pub struct Endpoint {
    pub transport: Transport,
    pub host: String,
    pub port: u16,
}

/// What an endpoint is.
pub ghost struct EndpointView {
    pub transport: Transport,
    pub host: Seq<char>,
    pub port: u16,
}

impl View for Endpoint {
    type V = EndpointView;

    open spec fn view(&self) -> EndpointView {
        EndpointView { transport: self.transport, host: self.host@, port: self.port }
    }
}

/// The parts of a URL that the choice of a transport reads.
#[derive(Debug, Clone, PartialEq)]
pub struct Locator {
    pub scheme: String,
    pub host: Option<String>,
    /// The port that the URL names, or the one that its scheme implies.
    pub port: Option<u16>,
}

/// What the parts of a URL are.
pub ghost struct LocatorView {
    pub scheme: Seq<char>,
    pub host: Option<Seq<char>>,
    pub port: Option<u16>,
}

impl View for Locator {
    type V = LocatorView;

    open spec fn view(&self) -> LocatorView {
        LocatorView {
            scheme: self.scheme@,
            host: match self.host {
                Some(h) => Some(h@),
                None => None,
            },
            port: self.port,
        }
    }
}

/// The parts of the URL that `text` is, as `url::Url::parse` reads it:
/// its scheme, its host, and its port or the default port of its scheme
/// where `url` knows one. `None` where `text` is no absolute URL.
pub uninterp spec fn url_parts(text: Seq<char>) -> Option<LocatorView>;

/// Parses `text` with `url::Url::parse`, and takes the scheme, the host
/// and the port of the URL by `scheme`, `host_str` and
/// `port_or_known_default`.
#[verifier::external_body]
fn split_url(text: &str) -> (r: Option<Locator>)
    ensures
        match r {
            Some(locator) => url_parts(text@) == Some(locator@),
            None => url_parts(text@) is None,
        },
{
    let url = url::Url::parse(text).ok()?;
    Some(
        Locator {
            scheme: url.scheme().to_string(),
            host: url.host_str().map(str::to_string),
            port: url.port_or_known_default(),
        },
    )
}

/// The transport that speaks `scheme`.
pub open spec fn transport_of(scheme: Seq<char>) -> Option<Transport> {
    if scheme == "tcp"@ {
        Some(Transport::Tcp)
    } else if scheme == "ws"@ {
        Some(Transport::Ws)
    } else {
        None
    }
}

/// The endpoint that the parts of a URL lead to.
///
/// The scheme chooses the transport, and a scheme that no transport speaks
/// is refused. The URL must name a host. For the byte-stream transport a
/// missing port is the default port; for the message transport the scheme
/// always implies one.
pub open spec fn endpoint_of(locator: LocatorView) -> Result<EndpointView, TransportError> {
    match transport_of(locator.scheme) {
        None => Err(TransportError::UnsupportedScheme),
        Some(transport) => match (locator.host, locator.port) {
            (Some(host), Some(port)) => Ok(EndpointView { transport, host, port }),
            (Some(host), None) => if transport is Tcp {
                Ok(EndpointView { transport, host, port: DEFAULT_TCP_PORT })
            } else {
                Err(TransportError::InvalidLocator)
            },
            (None, _) => Err(TransportError::InvalidLocator),
        },
    }
}

impl Transport {
    /// The transport that speaks `scheme`, if there is one.
    pub fn with_scheme(scheme: &str) -> (r: Option<Transport>)
        ensures
            r == transport_of(scheme@),
    {
        if str_eq(scheme, "tcp") {
            Some(Transport::Tcp)
        } else if str_eq(scheme, "ws") {
            Some(Transport::Ws)
        } else {
            None
        }
    }
}

impl Endpoint {
    /// The endpoint that the parts of a URL lead to.
    pub fn select(locator: Locator) -> (r: Result<Endpoint, TransportError>)
        ensures
            match r {
                Ok(endpoint) => endpoint_of(locator@) == Ok::<EndpointView, TransportError>(
                    endpoint@,
                ),
                Err(e) => endpoint_of(locator@) == Err::<EndpointView, TransportError>(e),
            },
    {
        let transport = match Transport::with_scheme(locator.scheme.as_str()) {
            Some(transport) => transport,
            None => {
                return Err(TransportError::UnsupportedScheme);
            },
        };
        let host = match locator.host {
            Some(host) => host,
            None => {
                return Err(TransportError::InvalidLocator);
            },
        };
        match locator.port {
            Some(port) => Ok(Endpoint { transport, host, port }),
            None => match transport {
                Transport::Tcp => Ok(Endpoint { transport, host, port: DEFAULT_TCP_PORT }),
                Transport::Ws => Err(TransportError::InvalidLocator),
            },
        }
    }

    /// The endpoint that the URL `text` leads to.
    ///
    /// Text that is no URL is refused as an invalid locator; a URL is
    /// handled as `select` handles its parts.
    pub fn resolve(text: &str) -> (r: Result<Endpoint, TransportError>)
        ensures
            match r {
                Ok(endpoint) => url_parts(text@) matches Some(locator) && endpoint_of(locator)
                    == Ok::<EndpointView, TransportError>(endpoint@),
                Err(e) => match url_parts(text@) {
                    Some(locator) => endpoint_of(locator) == Err::<EndpointView, TransportError>(e),
                    None => e == TransportError::InvalidLocator,
                },
            },
    {
        match split_url(text) {
            Some(locator) => Endpoint::select(locator),
            None => Err(TransportError::InvalidLocator),
        }
    }
}

} // verus!
