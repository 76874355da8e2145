//! The secure connector: given a destination, either refuse it before any
//! I/O, or stage a transport dial and a TLS handshake in that strict order.
//!
//! The connector itself performs no I/O. It checks the scheme, hands the
//! caller what the dial needs (the authority string and the host name for
//! certificate validation), and advances through its phases as the caller
//! reports how each stage went. The phase discipline makes the ordering and
//! the short-circuit on failure facts of the type, not conventions.
//!
//! No timeout exists anywhere in an attempt, deliberately: a dial or
//! handshake that never reports back leaves its attempt in that phase for
//! good, and stalls nothing but its own site's task.

use crate::uri::{authority_rep, parse_uri, parseable, parses_to, Destination};
use vstd::prelude::*;

verus! {

/// Why one site's fetch failed. Every value is scoped to the one site whose
/// task produced it; none aborts a sibling task.
#[derive(Debug, PartialEq)]
pub enum FetchError {
    /// The site's URI does not meet the destination grammar.
    UriParse,
    /// The destination does not use the secure scheme; raised before any
    /// transport operation is attempted.
    Scheme,
    /// The transport connection could not be established.
    Transport(String),
    /// The TLS handshake or certificate validation failed.
    Tls(String),
    /// The HTTP exchange failed after the secure connection stood.
    HttpProtocol(String),
}

/// What the transport dialer needs for one connection: the authority to dial
/// and the host name to present and validate the peer certificate against.
#[derive(Debug, PartialEq)]
pub struct DialPlan {
    pub authority: String,
    pub sni_host: String,
}

/// Where one connection attempt stands. The phases move only forward:
/// `Ready` to `Dialing` to `Handshaking` to `Connected`, with any failure
/// ending in `Failed` and accepting no further events.
#[derive(Debug, PartialEq)]
pub enum ConnectPhase {
    /// No attempt started.
    Ready,
    /// The scheme check passed; the transport dial is outstanding.
    Dialing,
    /// The transport stands; the TLS handshake is outstanding.
    Handshaking,
    /// The encrypted transport stands, ready for one HTTP exchange.
    Connected,
    /// A stage failed; the attempt is over.
    Failed,
}

/// The staged secure connector for one connection attempt.
pub struct HttpsConnector {
    pub phase: ConnectPhase,
}

impl HttpsConnector {
    /// A fresh connector, before any attempt.
    pub fn new() -> (r: HttpsConnector)
        ensures
            r.phase == ConnectPhase::Ready,
    {
        HttpsConnector { phase: ConnectPhase::Ready }
    }

    /// The pre-I/O stage: refuse any destination that does not ask for the
    /// secure scheme, without yielding anything a dial could use; otherwise
    /// hand out the dial plan and await the transport result.
    pub fn connect(&mut self, dst: &Destination) -> (r: Result<DialPlan, FetchError>)
        requires
            old(self).phase == ConnectPhase::Ready,
        ensures
            dst.is_secure() ==> {
                &&& final(self).phase == ConnectPhase::Dialing
                &&& match r {
                    Result::Ok(plan) => plan.authority@ == authority_rep(dst.host@, dst.port)
                        && plan.sni_host@ == dst.host@,
                    Result::Err(_) => false,
                }
            },
            !dst.is_secure() ==> {
                &&& final(self).phase == ConnectPhase::Failed
                &&& r == Result::<DialPlan, FetchError>::Err(FetchError::Scheme)
            },
    {
        let https = String::from_str("https");
        if !dst.scheme.eq(&https) {
            self.phase = ConnectPhase::Failed;
            return Err(FetchError::Scheme);
        }
        let authority = dst.authority();
        let sni_host = dst.host.clone();
        self.phase = ConnectPhase::Dialing;
        Ok(DialPlan { authority, sni_host })
    }

    /// The caller reports how the transport dial went. Success moves the
    /// attempt to the handshake; failure ends it with a transport error
    /// carrying the cause.
    pub fn transport_result(&mut self, r: Result<(), String>) -> (e: Option<FetchError>)
        requires
            old(self).phase == ConnectPhase::Dialing,
        ensures
            match r {
                Result::Ok(_) => final(self).phase == ConnectPhase::Handshaking && e
                    == Option::<FetchError>::None,
                Result::Err(cause) => final(self).phase == ConnectPhase::Failed && e
                    == Option::Some(FetchError::Transport(cause)),
            },
    {
        match r {
            Ok(_) => {
                self.phase = ConnectPhase::Handshaking;
                None
            },
            Err(cause) => {
                self.phase = ConnectPhase::Failed;
                Some(FetchError::Transport(cause))
            },
        }
    }

    /// The caller reports how the TLS handshake went. Success completes the
    /// attempt; failure ends it with a TLS error carrying the cause.
    pub fn handshake_result(&mut self, r: Result<(), String>) -> (e: Option<FetchError>)
        requires
            old(self).phase == ConnectPhase::Handshaking,
        ensures
            match r {
                Result::Ok(_) => final(self).phase == ConnectPhase::Connected && e
                    == Option::<FetchError>::None,
                Result::Err(cause) => final(self).phase == ConnectPhase::Failed && e
                    == Option::Some(FetchError::Tls(cause)),
            },
    {
        match r {
            Ok(_) => {
                self.phase = ConnectPhase::Connected;
                None
            },
            Err(cause) => {
                self.phase = ConnectPhase::Failed;
                Some(FetchError::Tls(cause))
            },
        }
    }
}

/// `d` is a parse of `uri`, for some ignored remainder.
pub open spec fn has_parse(uri: Seq<char>, d: Destination) -> bool {
    exists|t: Seq<char>| #[trigger] parses_to(uri, d, t)
}

/// The destination a well-formed URI denotes. Meaningful only when the URI
/// is parseable; the grammar is unambiguous, so this is the parse.
pub open spec fn spec_dest(uri: Seq<char>) -> Destination {
    choose|d: Destination| has_parse(uri, d)
}

/// The pre-I/O outcome for one URI: the authority and host-name strings the
/// dial will use, or the error that ends the attempt before any I/O.
pub open spec fn plan_of(uri: Seq<char>) -> Result<(Seq<char>, Seq<char>), FetchError> {
    if !parseable(uri) {
        Result::Err(FetchError::UriParse)
    } else if !spec_dest(uri).is_secure() {
        Result::Err(FetchError::Scheme)
    } else {
        Result::Ok(
            (authority_rep(spec_dest(uri).host@, spec_dest(uri).port), spec_dest(uri).host@),
        )
    }
}

/// The request/response client facade: one GET per client, over a fresh
/// secure connector.
pub struct HttpsClient {
    pub connector: HttpsConnector,
}

impl HttpsClient {
    /// A fresh client with a fresh connector, ready for one GET.
    pub fn new() -> (r: HttpsClient)
        ensures
            r.connector.phase == ConnectPhase::Ready,
    {
        HttpsClient { connector: HttpsConnector::new() }
    }

    /// Begins one GET: parses the URI and runs the connector's pre-I/O
    /// stage. An unparseable URI is refused before the connector starts; a
    /// non-secure one is refused by the connector before any I/O. On success
    /// the caller holds the dial plan and drives the connector on.
    pub fn get(&mut self, uri: &str) -> (r: Result<DialPlan, FetchError>)
        requires
            old(self).connector.phase == ConnectPhase::Ready,
        ensures
            match r {
                Result::Ok(plan) => {
                    &&& final(self).connector.phase == ConnectPhase::Dialing
                    &&& match plan_of(uri@) {
                        Result::Ok(p) => plan.authority@ == p.0 && plan.sni_host@ == p.1,
                        Result::Err(_) => false,
                    }
                },
                Result::Err(e) => {
                    &&& plan_of(uri@) == Result::<(Seq<char>, Seq<char>), FetchError>::Err(e)
                    &&& final(self).connector.phase == (if e == FetchError::UriParse {
                        ConnectPhase::Ready
                    } else {
                        ConnectPhase::Failed
                    })
                },
            },
    {
        match parse_uri(uri) {
            None => Err(FetchError::UriParse),
            Some(d) => {
                proof {
                    let t = choose|t: Seq<char>| #[trigger] parses_to(uri@, d, t);
                    assert(parses_to(uri@, d, t));
                    assert(parseable(uri@));
                    assert(has_parse(uri@, d));
                    assert(has_parse(uri@, spec_dest(uri@)));
                    let t0 = choose|t0: Seq<char>| #[trigger] parses_to(
                        uri@,
                        spec_dest(uri@),
                        t0,
                    );
                    crate::uri::lemma_parses_to_unique(uri@, d, t, spec_dest(uri@), t0);
                }
                self.connector.connect(&d)
            },
        }
    }
}

} // verus!
