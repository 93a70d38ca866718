//! Addresses and networks as text, for messages and status reports.

use vstd::prelude::*;
use vstd::string::*;
use crate::addr;
use crate::addr::{Ipv4Addr, Ipv4Net, Ipv6Addr, Ipv6Net};

verus! {

/// The contents of a list of strings.
pub open spec fn texts(v: Seq<String>) -> Seq<Seq<char>> {
    v.map_values(|s: String| s@)
}

/// The text for something that was not assigned.
pub open spec fn opt_text(v: Option<Seq<char>>) -> Seq<char> {
    match v {
        Some(t) => t,
        None => "none"@,
    }
}

/// A string that may be missing says what it should.
pub open spec fn reads(s: Option<String>, text: Option<Seq<char>>) -> bool {
    match (s, text) {
        (Some(s), Some(t)) => s@ == t,
        (None, None) => true,
        _ => false,
    }
}

/// The text of an address that may be missing.
pub open spec fn ip_text(ip: Option<Ipv4Addr>) -> Option<Seq<char>> {
    match ip {
        Some(a) => Some(a.text()),
        None => None,
    }
}

/// The text of a network that may be missing.
pub open spec fn net_text(net: Option<Ipv4Net>) -> Option<Seq<char>> {
    match net {
        Some(n) => Some(n.text()),
        None => None,
    }
}

/// The text of an address that may be missing.
pub open spec fn ip6_text(ip: Option<Ipv6Addr>) -> Option<Seq<char>> {
    match ip {
        Some(a) => Some(addr::ipv6_text(a.bits)),
        None => None,
    }
}

/// The text of a network that may be missing.
pub open spec fn net6_text(net: Option<Ipv6Net>) -> Option<Seq<char>> {
    match net {
        Some(n) => Some(n.text()),
        None => None,
    }
}

/// Renders an address that may be missing.
pub fn render_ip(ip: &Option<Ipv4Addr>) -> (s: Option<String>)
    ensures
        reads(s, ip_text(*ip)),
{
    match ip {
        Some(a) => Some(a.to_text()),
        None => None,
    }
}

/// Renders a network that may be missing.
pub fn render_net(net: &Option<Ipv4Net>) -> (s: Option<String>)
    ensures
        reads(s, net_text(*net)),
{
    match net {
        Some(n) => Some(n.to_text()),
        None => None,
    }
}

/// Renders an address that may be missing.
pub fn render_ip6(ip: &Option<Ipv6Addr>) -> (s: Option<String>)
    ensures
        reads(s, ip6_text(*ip)),
{
    match ip {
        Some(a) => Some(a.to_text()),
        None => None,
    }
}

/// Renders a network that may be missing.
pub fn render_net6(net: &Option<Ipv6Net>) -> (s: Option<String>)
    ensures
        reads(s, net6_text(*net)),
{
    match net {
        Some(n) => Some(n.to_text()),
        None => None,
    }
}

/// Renders a list of networks.
pub fn render_nets(nets: &[Ipv4Net]) -> (r: Vec<String>)
    ensures
        texts(r@) == nets@.map_values(|n: Ipv4Net| n.text()),
{
    let mut r: Vec<String> = Vec::new();
    let mut i: usize = 0;
    while i < nets.len()
        invariant
            i <= nets@.len(),
            r@.len() == i,
            forall|k: int| 0 <= k < i ==> (#[trigger] r@[k])@ == nets@[k].text(),
        decreases nets@.len() - i,
    {
        r.push(nets[i].to_text());
        i += 1;
    }
    assert(texts(r@) =~= nets@.map_values(|n: Ipv4Net| n.text()));
    r
}

/// Renders a list of networks.
pub fn render_nets6(nets: &[Ipv6Net]) -> (r: Vec<String>)
    ensures
        texts(r@) == nets@.map_values(|n: Ipv6Net| n.text()),
{
    let mut r: Vec<String> = Vec::new();
    let mut i: usize = 0;
    while i < nets.len()
        invariant
            i <= nets@.len(),
            r@.len() == i,
            forall|k: int| 0 <= k < i ==> (#[trigger] r@[k])@ == nets@[k].text(),
        decreases nets@.len() - i,
    {
        r.push(nets[i].to_text());
        i += 1;
    }
    assert(texts(r@) =~= nets@.map_values(|n: Ipv6Net| n.text()));
    r
}

/// The text itself, or the word for a missing one.
pub fn or_none(s: Option<String>) -> (r: String)
    ensures
        forall|t: Option<Seq<char>>| #[trigger] reads(s, t) ==> r@ == opt_text(t),
{
    match s {
        Some(s) => s,
        None => "none".to_owned(),
    }
}

/// What was assigned is told by its own text, and what was not is left out of a report and called
/// none in a message.
pub proof fn law_assigned_values_are_told(
    ip: Option<Ipv4Addr>,
    net: Option<Ipv4Net>,
    ip6: Option<Ipv6Addr>,
    net6: Option<Ipv6Net>,
)
    ensures
        ip is Some ==> ip_text(ip) == Some(ip->0.text()) && opt_text(ip_text(ip)) == ip->0.text(),
        net is Some ==> net_text(net) == Some(net->0.text()) && opt_text(net_text(net))
            == net->0.text(),
        ip6 is Some ==> ip6_text(ip6) == Some(addr::ipv6_text(ip6->0.bits)),
        net6 is Some ==> net6_text(net6) == Some(net6->0.text()),
        ip is None ==> ip_text(ip) is None && opt_text(ip_text(ip)) == "none"@,
        net is None ==> net_text(net) is None,
        ip6 is None ==> ip6_text(ip6) is None,
        net6 is None ==> net6_text(net6) is None,
{
}

/// Strings say what they hold: one that may be missing says a text exactly if it is there and
/// holds it, and a list says its texts one by one.
pub proof fn law_strings_say_what_they_hold(
    s: Option<String>,
    text: Option<Seq<char>>,
    v: Seq<String>,
    k: int,
)
    requires
        0 <= k < v.len(),
    ensures
        reads(s, text) && text is Some ==> s is Some && s->0@ == text->0,
        reads(s, text) && text is None ==> s is None,
        texts(v).len() == v.len(),
        texts(v)[k] == v[k]@,
{
}

} // verus!
