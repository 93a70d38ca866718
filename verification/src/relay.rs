//! Which server a client connects to, and by which relays.

use vstd::prelude::*;
use vstd::string::*;
use crate::addr::{IpAddr, Ipv4Addr, Ipv6Addr};
use crate::identity::EndpointId;
use crate::vpn_error;
use crate::vpn_error::{ErrorKind, VpnError};

verus! {

/// The port of a relay whose URL names none.
pub const DEFAULT_RELAY_PORT: u16 = 443;

/// The bytes of the endpoint id that a text stands for, if it stands for one.
pub uninterp spec fn parsed_endpoint_id(text: Seq<char>) -> Option<Seq<u8>>;

/// Calls `FromStr::from_str` of `iroh::EndpointId`, and takes the bytes of the id with its
/// `as_bytes`: whether a text is an id, and of which bytes, is a function of the text.
#[verifier::external_body]
fn parse_endpoint_id(text: &str) -> (r: Option<[u8; 32]>)
    ensures
        match r {
            Some(b) => parsed_endpoint_id(text@) == Some(b@),
            None => parsed_endpoint_id(text@) is None,
        },
{
    match text.parse::<iroh::EndpointId>() {
        Ok(id) => Some(*id.as_bytes()),
        Err(_) => None,
    }
}

/// The serialized form of the relay URL that a text stands for, if it stands for one.
pub uninterp spec fn parsed_relay_url(text: Seq<char>) -> Option<Seq<char>>;

/// Calls `FromStr::from_str` of `iroh::RelayUrl`, and writes the URL with its `Display`: whether
/// a text is a URL, and what it is written as, is a function of the text.
#[verifier::external_body]
fn parse_relay_url(text: &str) -> (r: Option<String>)
    ensures
        match r {
            Some(url) => parsed_relay_url(text@) == Some(url@),
            None => parsed_relay_url(text@) is None,
        },
{
    match text.parse::<iroh::RelayUrl>() {
        Ok(url) => Some(url.to_string()),
        Err(_) => None,
    }
}

/// The host of the relay URL that a text stands for; a text that is no URL has none.
pub uninterp spec fn relay_host_text(text: Seq<char>) -> Option<Seq<char>>;

/// Calls `host_str` of the URL in an `iroh::RelayUrl`: the host, as it stands in the URL, is a
/// function of the URL.
#[verifier::external_body]
fn relay_host_str(text: &str) -> (r: Option<String>)
    ensures
        match r {
            Some(host) => relay_host_text(text@) == Some(host@),
            None => relay_host_text(text@) is None,
        },
{
    match text.parse::<iroh::RelayUrl>() {
        Ok(url) => url.host_str().map(str::to_owned),
        Err(_) => None,
    }
}

/// The port that the relay URL of a text names; a text that is no URL names none.
pub uninterp spec fn relay_port_number(text: Seq<char>) -> Option<u16>;

/// Calls `port` of the URL in an `iroh::RelayUrl`: the port is a function of the URL.
#[verifier::external_body]
fn relay_port(text: &str) -> (r: Option<u16>)
    ensures
        r == relay_port_number(text@),
{
    match text.parse::<iroh::RelayUrl>() {
        Ok(url) => url.port(),
        Err(_) => None,
    }
}

/// The IP address that a text stands for, if it stands for one.
pub uninterp spec fn parsed_ip(text: Seq<char>) -> Option<IpAddr>;

/// Calls `FromStr::from_str` of the standard IP address, and takes its number: whether a text is
/// an address, and which, is a function of the text.
#[verifier::external_body]
fn parse_ip(text: &str) -> (r: Option<IpAddr>)
    ensures
        r == parsed_ip(text@),
{
    match ipnet::IpNet::new(text.parse().ok()?, 0) {
        Ok(ipnet::IpNet::V4(n)) => Some(IpAddr::V4(Ipv4Addr { bits: n.addr().into() })),
        Ok(ipnet::IpNet::V6(n)) => Some(IpAddr::V6(Ipv6Addr { bits: n.addr().into() })),
        Err(_) => None,
    }
}

/// A server, and the relays to reach it by.
#[derive(Debug)]
pub struct ServerAddr {
    pub id: EndpointId,
    /// The URLs of the relays, in their serialized form.
    pub relay_urls: Vec<String>,
}

/// Text `i` is a relay URL.
pub open spec fn is_relay_url(texts: Seq<String>, i: int) -> bool {
    parsed_relay_url(texts[i]@) is Some
}

/// All the texts are relay URLs.
pub open spec fn all_relay_urls(texts: Seq<String>) -> bool {
    forall|i: int| 0 <= i < texts.len() ==> #[trigger] is_relay_url(texts, i)
}

/// Text `k` is the first that is no relay URL.
pub open spec fn fails_first(texts: Seq<String>, k: int) -> bool {
    &&& 0 <= k < texts.len()
    &&& !is_relay_url(texts, k)
    &&& forall|i: int| 0 <= i < k ==> #[trigger] is_relay_url(texts, i)
}

/// The URLs are those that the texts stand for, in order.
pub open spec fn are_urls_of(urls: Seq<String>, texts: Seq<String>) -> bool {
    &&& urls.len() == texts.len()
    &&& forall|i: int|
        0 <= i < urls.len() ==> parsed_relay_url(texts[i]@) == Some((#[trigger] urls[i])@)
}

/// Parses the texts of relay URLs; the first that is none is reported.
pub fn parse_relay_urls(texts: &[String]) -> (r: Result<Vec<String>, VpnError>)
    ensures
        r is Ok <==> all_relay_urls(texts@),
        r is Ok ==> are_urls_of(r->Ok_0@, texts@),
        forall|k: int| #[trigger]
            fails_first(texts@, k) ==> vpn_error::fails(
                r,
                ErrorKind::Config,
                "Invalid relay URL: "@ + texts@[k]@,
            ),
{
    let mut urls: Vec<String> = Vec::new();
    let mut i: usize = 0;
    while i < texts.len()
        invariant
            i <= texts@.len(),
            urls@.len() == i,
            forall|j: int| 0 <= j < i ==> #[trigger] is_relay_url(texts@, j),
            forall|j: int| 0 <= j < i ==> parsed_relay_url(texts@[j]@) == Some((#[trigger] urls@[j])@),
        decreases texts@.len() - i,
    {
        match parse_relay_url(texts[i].as_str()) {
            Some(url) => {
                urls.push(url);
                assert(is_relay_url(texts@, i as int));
            },
            None => {
                assert(!is_relay_url(texts@, i as int));
                let mut m = "Invalid relay URL: ".to_owned();
                m.append(texts[i].as_str());
                assert forall|k: int| #[trigger] fails_first(texts@, k) implies k == i by {
                    if i < k {
                        assert(is_relay_url(texts@, i as int));
                    }
                }
                return Err(VpnError::Config(m));
            },
        }
        i += 1;
    }
    Ok(urls)
}

/// Resolves the configured texts to the server and the relays to reach it by. The first text
/// that stands for nothing is reported, that of the server before those of the relays.
pub fn resolve_server_addr(server_node_id: &str, relay_urls: &[String]) -> (r: Result<
    ServerAddr,
    VpnError,
>)
    ensures
        r is Ok <==> parsed_endpoint_id(server_node_id@) is Some && all_relay_urls(relay_urls@),
        r is Ok ==> {
            &&& parsed_endpoint_id(server_node_id@) == Some(r->Ok_0.id.bytes())
            &&& are_urls_of(r->Ok_0.relay_urls@, relay_urls@)
        },
        parsed_endpoint_id(server_node_id@) is None ==> vpn_error::fails(
            r,
            ErrorKind::Config,
            "Invalid server node ID: "@ + server_node_id@,
        ),
        forall|k: int|
            parsed_endpoint_id(server_node_id@) is Some && #[trigger] fails_first(relay_urls@, k)
                ==> vpn_error::fails(
                r,
                ErrorKind::Config,
                "Invalid relay URL: "@ + relay_urls@[k]@,
            ),
{
    let bytes: [u8; 32] = match parse_endpoint_id(server_node_id) {
        Some(bytes) => bytes,
        None => {
            let mut m = "Invalid server node ID: ".to_owned();
            m.append(server_node_id);
            return Err(VpnError::Config(m));
        },
    };
    let urls: Vec<String> = match parse_relay_urls(relay_urls) {
        Ok(urls) => urls,
        Err(e) => {
            return Err(e);
        },
    };
    let id: EndpointId = EndpointId::from_bytes(bytes.as_slice()).unwrap();
    Ok(ServerAddr { id, relay_urls: urls })
}

/// What stands for the machine in the URL of a relay.
#[derive(Debug, PartialEq, Eq)]
pub enum RelayHost {
    /// Nothing does.
    Absent,
    /// An address, written out.
    Address(IpAddr),
    /// A name, which has to be looked up.
    Name(String),
}

/// Where a relay is found.
#[derive(Debug, PartialEq, Eq)]
pub enum RelayTarget {
    /// Nowhere: its URL has no host.
    NoHost,
    /// At this address and port.
    Address(IpAddr, u16),
    /// At the addresses that the name resolves to, on this port.
    Lookup { name: String, port: u16 },
}

/// The host without the brackets that a URL puts round an IPv6 address.
pub open spec fn unbracketed(host: Seq<char>) -> Seq<char> {
    if host.len() >= 2 && host[0] == '[' && host.last() == ']' {
        host.subrange(1, host.len() - 1)
    } else {
        host
    }
}

/// The host is what its text says: an address if it is written as one, in brackets or without,
/// and otherwise a name.
pub open spec fn reads_as(h: RelayHost, text: Option<Seq<char>>) -> bool {
    match text {
        None => h is Absent,
        Some(t) => match parsed_ip(unbracketed(t)) {
            Some(ip) => h == RelayHost::Address(ip),
            None => h is Name && h->Name_0@ == t,
        },
    }
}

/// Tells what the host of a URL stands for.
pub fn relay_host(host: Option<String>) -> (h: RelayHost)
    ensures
        reads_as(
            h,
            match host {
                Some(t) => Some(t@),
                None => None,
            },
        ),
{
    let name: String = match host {
        Some(name) => name,
        None => {
            return RelayHost::Absent;
        },
    };
    let text = name.as_str();
    let n: usize = text.unicode_len();
    let parsed: Option<IpAddr> = if n >= 2 && text.get_char(0) == '[' && text.get_char(n - 1)
        == ']' {
        parse_ip(text.substring_char(1, n - 1))
    } else {
        parse_ip(text)
    };
    match parsed {
        Some(ip) => RelayHost::Address(ip),
        None => RelayHost::Name(name),
    }
}

/// The port, or that of a relay whose URL names none.
pub open spec fn port_or_default(port: Option<u16>) -> u16 {
    match port {
        Some(p) => p,
        None => DEFAULT_RELAY_PORT,
    }
}

/// Decides where a relay is found. An address needs no lookup.
pub fn relay_target(host: RelayHost, port: Option<u16>) -> (r: RelayTarget)
    ensures
        r == (match host {
            RelayHost::Absent => RelayTarget::NoHost,
            RelayHost::Address(ip) => RelayTarget::Address(ip, port_or_default(port)),
            RelayHost::Name(name) => RelayTarget::Lookup { name, port: port_or_default(port) },
        }),
{
    let number: u16 = match port {
        Some(p) => p,
        None => DEFAULT_RELAY_PORT,
    };
    match host {
        RelayHost::Absent => RelayTarget::NoHost,
        RelayHost::Address(ip) => RelayTarget::Address(ip, number),
        RelayHost::Name(name) => RelayTarget::Lookup { name, port: number },
    }
}

/// A relay is looked up where its URL says.
pub open spec fn is_located(
    r: RelayTarget,
    host: Option<Seq<char>>,
    port: Option<u16>,
) -> bool {
    match host {
        None => r is NoHost,
        Some(t) => match parsed_ip(unbracketed(t)) {
            Some(ip) => r == RelayTarget::Address(ip, port_or_default(port)),
            None => r is Lookup && r->name@ == t && r->port == port_or_default(port),
        },
    }
}

/// Decides where the relay of a URL is found.
pub fn locate_relay(url: &str) -> (r: RelayTarget)
    ensures
        match relay_host_text(url@) {
            None => r is NoHost,
            Some(t) => {
                let port = port_or_default(relay_port_number(url@));
                match parsed_ip(unbracketed(t)) {
                    Some(ip) => r == RelayTarget::Address(ip, port),
                    None => r is Lookup && r->name@ == t && r->port == port,
                }
            },
        },
        is_located(r, relay_host_text(url@), relay_port_number(url@)),
{
    let host = relay_host(relay_host_str(url));
    relay_target(host, relay_port(url))
}

/// Brackets around a host are taken off, once, and a host without a pair of them stays.
pub proof fn law_brackets_are_taken_off(host: Seq<char>)
    ensures
        unbracketed(seq!['['] + host + seq![']']) == host,
        host.len() < 2 || host[0] != '[' || host.last() != ']' ==> unbracketed(host) == host,
{
    let b = seq!['['] + host + seq![']'];
    assert(b[0] == '[');
    assert(b.last() == ']');
    assert(b.subrange(1, b.len() - 1) =~= host);
}

/// A relay is reached on the port that its URL names, and on that of HTTPS where it names none.
pub proof fn law_relay_port(port: Option<u16>)
    ensures
        port is Some ==> port_or_default(port) == port->0,
        port is None ==> port_or_default(port) == 443,
{
}

/// A relay whose host is an address, in brackets or not, is reached there without a lookup; any
/// other host is looked up under its own name. Both take the port of the URL.
pub proof fn law_relays_are_located(
    r: RelayTarget,
    host: Option<Seq<char>>,
    inner: Seq<char>,
    port: u16,
)
    requires
        is_located(r, host, Some(port)),
    ensures
        r is NoHost <==> host is None,
        (host == Some(seq!['['] + inner + seq![']']) || host == Some(inner) && unbracketed(inner)
            == inner) && parsed_ip(inner) is Some ==> r == RelayTarget::Address(
            parsed_ip(inner)->0,
            port,
        ),
        r is Lookup ==> host == Some(r->name@) && r->port == port,
{
    law_brackets_are_taken_off(inner);
}

/// The relays of a server are those of the list, one for one and in order, and a list is refused
/// by the first entry that is no URL.
pub proof fn law_relays_keep_their_order(
    urls: Seq<String>,
    texts: Seq<String>,
    i: int,
    j: int,
    k: int,
)
    ensures
        are_urls_of(urls, texts) && 0 <= i < texts.len() ==> urls.len() == texts.len()
            && parsed_relay_url(texts[i]@) == Some(urls[i]@),
        are_urls_of(urls, texts) ==> all_relay_urls(texts),
        fails_first(texts, j) && fails_first(texts, k) ==> j == k,
        fails_first(texts, k) ==> !all_relay_urls(texts) && parsed_relay_url(texts[k]@) is None,
{
    if are_urls_of(urls, texts) {
        assert forall|m: int| 0 <= m < texts.len() implies #[trigger] is_relay_url(texts, m) by {
            assert(parsed_relay_url(texts[m]@) == Some(urls[m]@));
        }
        if 0 <= i < texts.len() {
            assert(parsed_relay_url(texts[i]@) == Some(urls[i]@));
        }
    }
    if fails_first(texts, k) {
        assert(!is_relay_url(texts, k));
        if fails_first(texts, j) {
            assert(!is_relay_url(texts, j));
            if j < k {
                assert(is_relay_url(texts, j));
            } else if k < j {
                assert(is_relay_url(texts, k));
            }
        }
    }
}

} // verus!
