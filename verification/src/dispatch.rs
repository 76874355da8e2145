//! The poll dispatcher: one fan-out pass over the configured sites.
//!
//! The dispatcher consumes the site mapping exactly once and plans one
//! independent task per entry; the surrounding binary runs the tasks
//! concurrently and reports each outcome. A single site's task — parse the
//! URI, stage the secure connection, classify the network events — is the
//! verified [`run_site`], which the binary drives with the events it saw.

use crate::connector::{plan_of, FetchError, HttpsClient};
use crate::settings::{Settings, SiteEntry, Sites};
use vstd::pervasive::unreached;
use vstd::prelude::*;

verus! {

/// One planned task of a pass: which site, and what URI to fetch.
#[derive(Debug, PartialEq)]
pub struct PollTask {
    pub name: String,
    pub uri: String,
}

/// What one pass plans: either the report that no sites were found, or one
/// task per configured site.
#[derive(Debug, PartialEq)]
pub enum Dispatch {
    /// The mapping was empty: report it and spawn nothing.
    NoSites,
    /// One independent task per site, in mapping order.
    Tasks(Vec<PollTask>),
}

/// How the network legs of one task went, as its driver saw them. The three
/// failure values carry the underlying cause.
#[derive(Debug, PartialEq)]
pub enum ConnectorReply {
    /// Dial, handshake and exchange all succeeded, with this response status.
    Status(u16),
    /// The transport dial failed.
    TransportFailed(String),
    /// The dial stood but the TLS handshake failed.
    TlsFailed(String),
    /// The secure connection stood but the HTTP exchange failed.
    HttpFailed(String),
}

/// The per-site result of one fetch attempt: a response status or an error,
/// tagged with the site name it belongs to.
#[derive(Debug, PartialEq)]
pub struct FetchOutcome {
    pub name: String,
    pub result: Result<u16, FetchError>,
}

/// What one site's task reports, given its URI and how the network legs
/// went. A URI refused before I/O decides the outcome alone; only past the
/// pre-I/O checks do the network events matter.
pub open spec fn outcome_of(uri: Seq<char>, reply: ConnectorReply) -> Result<u16, FetchError> {
    match plan_of(uri) {
        Result::Err(e) => Result::Err(e),
        Result::Ok(_) => match reply {
            ConnectorReply::Status(code) => Result::Ok(code),
            ConnectorReply::TransportFailed(cause) => Result::Err(FetchError::Transport(cause)),
            ConnectorReply::TlsFailed(cause) => Result::Err(FetchError::Tls(cause)),
            ConnectorReply::HttpFailed(cause) => Result::Err(FetchError::HttpProtocol(cause)),
        },
    }
}

/// The outcomes of a full pass, entry by entry: the task at each position
/// reports for its own site only.
pub open spec fn outcomes_of(entries: Seq<SiteEntry>, replies: Seq<ConnectorReply>) -> Seq<
    FetchOutcome,
> {
    Seq::new(
        entries.len(),
        |x: int|
            FetchOutcome {
                name: entries[x].name,
                result: outcome_of(entries[x].site.uri@, replies[x]),
            },
    )
}

/// Failure domains are isolated: what the task at position `x` reports
/// depends only on its own entry and its own network events. Changing every
/// other task's events changes nothing at `x`.
pub proof fn lemma_outcome_isolation(
    entries: Seq<SiteEntry>,
    a: Seq<ConnectorReply>,
    b: Seq<ConnectorReply>,
    x: int,
)
    requires
        0 <= x < entries.len(),
        a.len() == entries.len(),
        b.len() == entries.len(),
        a[x] == b[x],
    ensures
        outcomes_of(entries, a)[x] == outcomes_of(entries, b)[x],
{
}

/// A site's name reaches its reported outcome verbatim, whatever the events.
pub proof fn lemma_name_round_trip(
    entries: Seq<SiteEntry>,
    replies: Seq<ConnectorReply>,
    x: int,
)
    requires
        0 <= x < entries.len(),
        replies.len() == entries.len(),
    ensures
        outcomes_of(entries, replies)[x].name == entries[x].name,
{
}

/// One site's task: build a fresh client over a fresh secure connector,
/// begin the GET, and classify the outcome from the events the caller saw.
/// The reply is consulted only when the URI passed the pre-I/O checks.
pub fn run_site(name: String, uri: &str, reply: ConnectorReply) -> (o: FetchOutcome)
    ensures
        o.name@ == name@,
        o.result == outcome_of(uri@, reply),
{
    let mut client = HttpsClient::new();
    match client.get(uri) {
        Err(e) => FetchOutcome { name, result: Err(e) },
        Ok(_plan) => match reply {
            ConnectorReply::Status(code) => {
                let _ = client.connector.transport_result(Ok(()));
                let _ = client.connector.handshake_result(Ok(()));
                FetchOutcome { name, result: Ok(code) }
            },
            ConnectorReply::TransportFailed(cause) => {
                match client.connector.transport_result(Err(cause)) {
                    Some(err) => FetchOutcome { name, result: Err(err) },
                    None => unreached(),
                }
            },
            ConnectorReply::TlsFailed(cause) => {
                let _ = client.connector.transport_result(Ok(()));
                match client.connector.handshake_result(Err(cause)) {
                    Some(err) => FetchOutcome { name, result: Err(err) },
                    None => unreached(),
                }
            },
            ConnectorReply::HttpFailed(cause) => {
                let _ = client.connector.transport_result(Ok(()));
                let _ = client.connector.handshake_result(Ok(()));
                FetchOutcome { name, result: Err(FetchError::HttpProtocol(cause)) }
            },
        },
    }
}

/// One whole pass run sequentially with the given per-site network events:
/// the deterministic reference a concurrent runner must match site by site,
/// since no ordering across sites is implied and no task sees another's
/// events. Entry by entry, the outcome is exactly `outcomes_of`.
pub fn run_pass(sites: Sites, replies: Vec<ConnectorReply>) -> (outs: Vec<FetchOutcome>)
    requires
        replies@.len() == sites@.len(),
    ensures
        outs@.len() == outcomes_of(sites@, replies@).len(),
        forall|x: int|
            0 <= x < outs@.len() ==> (#[trigger] outs@[x]).name@ == outcomes_of(
                sites@,
                replies@,
            )[x].name@ && outs@[x].result == outcomes_of(sites@, replies@)[x].result,
{
    let ghost orig_sites = sites@;
    let ghost orig_replies = replies@;
    let mut sites = sites;
    let mut replies = replies;
    let mut outs: Vec<FetchOutcome> = Vec::new();
    while sites.len() > 0
        invariant
            orig_replies.len() == orig_sites.len(),
            replies@.len() == sites@.len(),
            outs@.len() + sites@.len() == orig_sites.len(),
            sites@ =~= orig_sites.subrange(outs@.len() as int, orig_sites.len() as int),
            replies@ =~= orig_replies.subrange(outs@.len() as int, orig_replies.len() as int),
            forall|x: int|
                0 <= x < outs@.len() ==> (#[trigger] outs@[x]).name@ == orig_sites[x].name@
                    && outs@[x].result == outcome_of(orig_sites[x].site.uri@, orig_replies[x]),
        decreases sites@.len(),
    {
        proof {
            let pos = outs@.len() as int;
            assert(replies@ == orig_replies.subrange(pos, orig_replies.len() as int));
            assert(orig_replies.subrange(pos, orig_replies.len() as int)[0] == orig_replies[pos
                + 0]);
            assert(sites@[0] == orig_sites.subrange(pos, orig_sites.len() as int)[0]);
            assert(sites@[0] == orig_sites[pos]);
            assert(replies@[0] == orig_replies[pos]);
        }
        let entry = sites.remove(0);
        let reply = replies.remove(0);
        let o = run_site(entry.name, entry.site.uri.as_str(), reply);
        outs.push(o);
    }
    outs
}

/// The one-shot dispatcher: holds the settings for exactly one pass.
pub struct Uprs {
    pub settings: Settings,
}

impl Uprs {
    /// Wraps loaded settings for one poll pass.
    pub fn new(settings: Settings) -> (r: Uprs)
        ensures
            r.settings == settings,
    {
        Uprs { settings }
    }

    /// One fan-out pass. Takes the site mapping — it cannot be consumed a
    /// second time — and plans one task per entry, in order, each carrying
    /// its site's name and URI. An empty mapping yields the no-sites report
    /// and no tasks. The dispatcher neither runs nor waits for the tasks.
    pub fn poll(&mut self) -> (r: Dispatch)
        requires
            old(self).settings.sites is Some,
        ensures
            final(self).settings.sites is None,
            final(self).settings.notifications == old(self).settings.notifications,
            match r {
                Dispatch::NoSites => old(self).settings.sites->Some_0@.len() == 0,
                Dispatch::Tasks(tasks) => {
                    let entries = old(self).settings.sites->Some_0@;
                    &&& entries.len() > 0
                    &&& tasks@.len() == entries.len()
                    &&& forall|x: int|
                        0 <= x < entries.len() ==> (#[trigger] tasks@[x]).name@ == entries[x].name@
                            && tasks@[x].uri@ == entries[x].site.uri@
                },
            },
    {
        let taken = self.settings.sites.take();
        match taken {
            None => unreached(),
            Some(entries) => {
                if entries.len() == 0 {
                    return Dispatch::NoSites;
                }
                let mut tasks: Vec<PollTask> = Vec::new();
                let mut idx: usize = 0;
                while idx < entries.len()
                    invariant
                        idx <= entries.len(),
                        tasks@.len() == idx,
                        forall|x: int|
                            0 <= x < idx ==> (#[trigger] tasks@[x]).name@ == entries@[x].name@
                                && tasks@[x].uri@ == entries@[x].site.uri@,
                    decreases entries.len() - idx,
                {
                    let entry = &entries[idx];
                    tasks.push(
                        PollTask { name: entry.name.clone(), uri: entry.site.uri.clone() },
                    );
                    idx = idx + 1;
                }
                Dispatch::Tasks(tasks)
            },
        }
    }
}

} // verus!
