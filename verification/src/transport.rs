//! Transport resolution: an endpoint address names exactly one transport
//! kind, decided by its URL scheme. Request-only transports answer JSON-RPC
//! calls but carry no server-push subscriptions; the two socket transports
//! carry both.

use vstd::prelude::*;
use vstd::string::StrSliceExecFns;

verus! {

/// The three connection kinds an endpoint address can resolve to. The kind is
/// fixed at connect time and never changes for the lifetime of a connection.
#[derive(Clone, Copy, PartialEq, Eq, Structural, Debug)]
pub enum TransportKind {
    /// A persistent network socket: requests and push subscriptions.
    PersistentSocket,
    /// A local domain socket reached by filesystem path: requests and push
    /// subscriptions.
    LocalSocket,
    /// A plain request/response connection: requests only.
    RequestOnly,
}

/// The lower-cased scheme of `s` read as a URL, or `None` where `s` is no
/// absolute URL. Left uninterpreted: the trusted URL parser below is its one
/// source.
pub uninterp spec fn url_scheme(s: Seq<char>) -> Option<Seq<char>>;

/// The transport kind an address with the given parsed scheme resolves to:
/// `http`/`https` give a request-only transport, `ws`/`wss` a persistent
/// socket, and anything else — other schemes, or no parseable URL at all — is
/// taken for a filesystem path to a local socket.
pub open spec fn resolution_of(scheme: Option<Seq<char>>) -> TransportKind {
    match scheme {
        Some(s) => if s == "http"@ || s == "https"@ {
            TransportKind::RequestOnly
        } else if s == "ws"@ || s == "wss"@ {
            TransportKind::PersistentSocket
        } else {
            TransportKind::LocalSocket
        },
        None => TransportKind::LocalSocket,
    }
}

/// Relies on `url::Url::parse` and `url::Url::scheme`: whether a string
/// parses as an absolute URL, and its lower-cased scheme when it does, depend
/// on the string alone.
#[verifier::external_body]
fn parse_url_scheme(s: &str) -> (r: Option<String>)
    ensures
        r is Some <==> url_scheme(s@) is Some,
        r matches Some(sch) ==> url_scheme(s@) == Some(sch@),
{
    match url::Url::parse(s) {
        Ok(u) => Some(u.scheme().to_string()),
        Err(_) => None,
    }
}

/// Character-for-character string equality.
fn str_eq(a: &str, b: &str) -> (r: bool)
    ensures
        r == (a@ == b@),
{
    let a_len = a.unicode_len();
    let b_len = b.unicode_len();
    if a_len != b_len {
        return false;
    }
    let mut i: usize = 0;
    while i < a_len
        invariant
            i <= a_len,
            a_len == a@.len(),
            a_len == b@.len(),
            forall|j: int| 0 <= j < i ==> a@[j] == b@[j],
        decreases a_len - i,
    {
        if a.get_char(i) != b.get_char(i) {
            return false;
        }
        i = i + 1;
    }
    proof {
        assert(a@ =~= b@);
    }
    true
}

/// Resolves an endpoint address to the transport kind the connection rule
/// picks for it.
pub fn resolve_transport(address: &str) -> (k: TransportKind)
    ensures
        k == resolution_of(url_scheme(address@)),
{
    match parse_url_scheme(address) {
        Some(scheme) => {
            let s = scheme.as_str();
            if str_eq(s, "http") || str_eq(s, "https") {
                TransportKind::RequestOnly
            } else if str_eq(s, "ws") || str_eq(s, "wss") {
                TransportKind::PersistentSocket
            } else {
                TransportKind::LocalSocket
            }
        },
        None => TransportKind::LocalSocket,
    }
}

impl TransportKind {
    /// Whether this transport carries server-push subscriptions: both socket
    /// kinds do, the request-only kind does not.
    pub fn supports_subscriptions(&self) -> (b: bool)
        ensures
            b == !(self is RequestOnly),
    {
        match self {
            TransportKind::RequestOnly => false,
            _ => true,
        }
    }
}

} // verus!
