//! What a client learns from the server, and what it makes of it.

use vstd::arithmetic::power2::*;
use vstd::prelude::*;
use vstd::string::*;
use crate::addr;
use crate::addr::{IpAddr, Ipv4Addr, Ipv4Net, Ipv6Addr, Ipv6Net};
use crate::render;
use crate::render::{or_none, render_ip, render_ip6, render_net, render_net6};
use crate::signaling::{VpnHandshake, VpnHandshakeResponse, DEFAULT_VPN_MTU, VPN_PROTOCOL_VERSION};
use crate::vpn_error;
use crate::vpn_error::{ErrorKind, VpnError};

verus! {

/// Client GSO capability advertised to the server in the handshake.
///
/// Always `true`: GSO metadata is understood even when the local device has no offload,
/// because inbound metadata is materialized in software.
pub const ADVERTISED_GSO: bool = true;

/// Offload is used on a connection if both of its ends have it.
pub open spec fn gso_agreed(local: bool, peer: bool) -> bool {
    local && peer
}

/// Information received from the VPN server after a successful handshake.
///
/// At least one of IPv4 or IPv6 is configured:
/// - IPv4-only: `assigned_ip`, `network`, `server_ip` are set; the IPv6 fields are `None`
/// - IPv6-only: `assigned_ip6`, `network6`, `server_ip6` are set; the IPv4 fields are `None`
/// - Dual-stack: both are set
#[derive(Debug)]
pub struct ServerInfo {
    /// Assigned VPN IP for this client (IPv4). `None` for IPv6-only mode.
    pub assigned_ip: Option<Ipv4Addr>,
    /// VPN network (IPv4). `None` for IPv6-only mode.
    pub network: Option<Ipv4Net>,
    /// Server's VPN IP (gateway, IPv4). `None` for IPv6-only mode.
    pub server_ip: Option<Ipv4Addr>,
    /// Assigned IPv6 VPN address for this client. `None` for IPv4-only mode.
    pub assigned_ip6: Option<Ipv6Addr>,
    /// IPv6 VPN network. `None` for IPv4-only mode.
    pub network6: Option<Ipv6Net>,
    /// Server's IPv6 VPN address (gateway). `None` for IPv4-only mode.
    pub server_ip6: Option<Ipv6Addr>,
    /// Whether server-side TUN GSO is enabled.
    pub server_gso_enabled: bool,
    /// Server's candidate underlay addresses, delivered in the handshake so that the client
    /// can bypass-route any that a VPN route would capture.
    pub server_addrs: Vec<IpAddr>,
}

/// The families that a server assigned an address of.
#[derive(Debug, Clone, Copy, PartialEq, Eq, Structural)]
pub enum TunnelMode {
    Ipv4Only,
    Ipv6Only,
    DualStack,
}

impl ServerInfo {
    /// All three IPv4 fields are present.
    pub open spec fn has_v4(self) -> bool {
        self.assigned_ip is Some && self.network is Some && self.server_ip is Some
    }

    /// All three IPv4 fields are absent.
    pub open spec fn lacks_v4(self) -> bool {
        self.assigned_ip is None && self.network is None && self.server_ip is None
    }

    /// All three IPv6 fields are present.
    pub open spec fn has_v6(self) -> bool {
        self.assigned_ip6 is Some && self.network6 is Some && self.server_ip6 is Some
    }

    /// All three IPv6 fields are absent.
    pub open spec fn lacks_v6(self) -> bool {
        self.assigned_ip6 is None && self.network6 is None && self.server_ip6 is None
    }

    /// Each family is there as a whole or not at all, and one of them is there.
    pub open spec fn complete(self) -> bool {
        &&& self.has_v4() || self.lacks_v4()
        &&& self.has_v6() || self.lacks_v6()
        &&& self.has_v4() || self.has_v6()
    }

    /// The prefixes of the networks fit their families.
    pub open spec fn wf(self) -> bool {
        &&& self.network is Some ==> self.network->0.wf()
        &&& self.network6 is Some ==> self.network6->0.wf()
    }

    /// Which families the tunnel carries.
    pub open spec fn tunnel_mode(self) -> TunnelMode {
        if self.assigned_ip is None {
            TunnelMode::Ipv6Only
        } else if self.assigned_ip6 is Some {
            TunnelMode::DualStack
        } else {
            TunnelMode::Ipv4Only
        }
    }

    /// Which families the tunnel carries.
    pub fn mode(&self) -> (m: TunnelMode)
        ensures
            m == self.tunnel_mode(),
    {
        if self.assigned_ip.is_none() {
            TunnelMode::Ipv6Only
        } else if self.assigned_ip6.is_some() {
            TunnelMode::DualStack
        } else {
            TunnelMode::Ipv4Only
        }
    }
}

/// Network parameters that define the client's TUN device and routing identity.
///
/// Captured from the first successful handshake and compared against every later reconnect.
#[derive(Debug, Clone, Copy, PartialEq, Eq, Structural)]
pub struct NetworkParams {
    pub assigned_ip: Option<Ipv4Addr>,
    pub network: Option<Ipv4Net>,
    pub server_ip: Option<Ipv4Addr>,
    pub assigned_ip6: Option<Ipv6Addr>,
    pub network6: Option<Ipv6Net>,
    pub server_ip6: Option<Ipv6Addr>,
}

/// The parameters that the server's information holds.
pub open spec fn params_of(info: ServerInfo) -> NetworkParams {
    NetworkParams {
        assigned_ip: info.assigned_ip,
        network: info.network,
        server_ip: info.server_ip,
        assigned_ip6: info.assigned_ip6,
        network6: info.network6,
        server_ip6: info.server_ip6,
    }
}

/// Two sets of parameters differ in the assigned client addresses at most.
pub open spec fn same_network(a: NetworkParams, b: NetworkParams) -> bool {
    a == (NetworkParams { assigned_ip: a.assigned_ip, assigned_ip6: a.assigned_ip6, ..b })
}

impl NetworkParams {
    /// The parameters on one line, each behind its name.
    pub open spec fn text(self) -> Seq<char> {
        let ip = render::opt_text(render::ip_text(self.assigned_ip));
        let net = render::opt_text(render::net_text(self.network));
        let gw = render::opt_text(render::ip_text(self.server_ip));
        let ip6 = render::opt_text(render::ip6_text(self.assigned_ip6));
        let net6 = render::opt_text(render::net6_text(self.network6));
        let gw6 = render::opt_text(render::ip6_text(self.server_ip6));
        "ip="@ + ip + " net="@ + net + " gw="@ + gw + " ip6="@ + ip6 + " net6="@ + net6 + " gw6="@
            + gw6
    }

    /// The parameters that the server's information holds.
    pub fn from_server_info(info: &ServerInfo) -> (p: Self)
        ensures
            p == params_of(*info),
    {
        NetworkParams {
            assigned_ip: info.assigned_ip,
            network: info.network,
            server_ip: info.server_ip,
            assigned_ip6: info.assigned_ip6,
            network6: info.network6,
            server_ip6: info.server_ip6,
        }
    }

    /// True when every field except the assigned client addresses matches `other`.
    pub fn non_ip_fields_eq(&self, other: &Self) -> (r: bool)
        ensures
            r == same_network(*self, *other),
    {
        same_opt_net(&self.network, &other.network) && same_opt_ip(&self.server_ip, &other.server_ip)
            && same_opt_net6(&self.network6, &other.network6) && same_opt_ip6(
            &self.server_ip6,
            &other.server_ip6,
        )
    }

    /// Whether all fields match.
    pub fn same(&self, other: &Self) -> (r: bool)
        ensures
            r == (*self == *other),
    {
        same_opt_ip(&self.assigned_ip, &other.assigned_ip) && same_opt_ip6(
            &self.assigned_ip6,
            &other.assigned_ip6,
        ) && self.non_ip_fields_eq(other)
    }

    /// Renders the parameters on one line.
    pub fn to_text(&self) -> (s: String)
        ensures
            s@ == self.text(),
    {
        let mut s = "ip=".to_owned();
        s.append(or_none(render_ip(&self.assigned_ip)).as_str());
        s.append(" net=");
        s.append(or_none(render_net(&self.network)).as_str());
        s.append(" gw=");
        s.append(or_none(render_ip(&self.server_ip)).as_str());
        s.append(" ip6=");
        s.append(or_none(render_ip6(&self.assigned_ip6)).as_str());
        s.append(" net6=");
        s.append(or_none(render_net6(&self.network6)).as_str());
        s.append(" gw6=");
        s.append(or_none(render_ip6(&self.server_ip6)).as_str());
        s
    }
}

/// Whether two addresses that may be missing are the same.
fn same_opt_ip(a: &Option<Ipv4Addr>, b: &Option<Ipv4Addr>) -> (r: bool)
    ensures
        r == (*a == *b),
{
    match (a, b) {
        (Some(x), Some(y)) => x.bits == y.bits,
        (None, None) => true,
        _ => false,
    }
}

/// Whether two networks that may be missing are the same.
fn same_opt_net(a: &Option<Ipv4Net>, b: &Option<Ipv4Net>) -> (r: bool)
    ensures
        r == (*a == *b),
{
    match (a, b) {
        (Some(x), Some(y)) => x.addr.bits == y.addr.bits && x.prefix_len == y.prefix_len,
        (None, None) => true,
        _ => false,
    }
}

/// Whether two addresses that may be missing are the same.
fn same_opt_ip6(a: &Option<Ipv6Addr>, b: &Option<Ipv6Addr>) -> (r: bool)
    ensures
        r == (*a == *b),
{
    match (a, b) {
        (Some(x), Some(y)) => x.bits == y.bits,
        (None, None) => true,
        _ => false,
    }
}

/// Whether two networks that may be missing are the same.
fn same_opt_net6(a: &Option<Ipv6Net>, b: &Option<Ipv6Net>) -> (r: bool)
    ensures
        r == (*a == *b),
{
    match (a, b) {
        (Some(x), Some(y)) => x.addr.bits == y.addr.bits && x.prefix_len == y.prefix_len,
        (None, None) => true,
        _ => false,
    }
}

/// Whether a handshake that brought `params` fits the session that `baseline` began.
pub open spec fn params_fit(baseline: Option<NetworkParams>, params: NetworkParams) -> bool {
    match baseline {
        None => true,
        Some(prev) => same_network(prev, params),
    }
}

/// What a session reports that cannot go on with the server's new parameters.
pub open spec fn config_changed_text(prev: NetworkParams, params: NetworkParams) -> Seq<char> {
    "VPN config changed on reconnect (was ["@ + prev.text() + "], now ["@ + params.text()
        + "]); quitting to avoid inconsistent routing/TUN state"@
}

/// What a session is held to once a server has told its parameters: those, if they fit.
pub open spec fn session_after(
    established: Option<NetworkParams>,
    params: NetworkParams,
) -> Option<NetworkParams> {
    if params_fit(established, params) {
        Some(params)
    } else {
        established
    }
}

/// Records the server's parameters, or compares them with those that were recorded.
///
/// The first call sets the baseline. On later calls:
/// - identical parameters are accepted;
/// - where only the assigned client addresses changed, the new ones become the baseline, so
///   that the caller rebuilds the TUN device and the routes for them (this is what a server
///   restart that reassigns an address looks like);
/// - any other change is refused and leaves the baseline as it was.
pub fn check_params_against(established: &mut Option<NetworkParams>, info: &ServerInfo) -> (r:
    Result<(), VpnError>)
    ensures
        r is Ok <==> params_fit(*old(established), params_of(*info)),
        r is Ok ==> *final(established) == Some(params_of(*info)),
        *final(established) == session_after(*old(established), params_of(*info)),
        r is Err ==> {
            &&& *final(established) == *old(established)
            &&& vpn_error::fails(
                r,
                ErrorKind::ServerConfigChanged,
                config_changed_text(old(established)->0, params_of(*info)),
            )
        },
{
    let params = NetworkParams::from_server_info(info);
    let prev: NetworkParams = match *established {
        Some(prev) => prev,
        None => {
            *established = Some(params);
            return Ok(());
        },
    };
    if prev.same(&params) {
        return Ok(());
    }
    if prev.non_ip_fields_eq(&params) {
        *established = Some(params);
        return Ok(());
    }
    let mut text = "VPN config changed on reconnect (was [".to_owned();
    text.append(prev.to_text().as_str());
    text.append("], now [");
    text.append(params.to_text().as_str());
    text.append("]); quitting to avoid inconsistent routing/TUN state");
    Err(VpnError::ServerConfigChanged(text))
}

/// A session never leaves its network: whatever handshakes it accepts, one after another, the
/// network and the gateways stay those of the first.
pub proof fn law_session_keeps_its_network(
    baseline: Option<NetworkParams>,
    first: NetworkParams,
    second: NetworkParams,
    third: NetworkParams,
)
    requires
        baseline == Some(first),
        params_fit(baseline, second),
        params_fit(Some(second), third),
    ensures
        params_fit(baseline, third),
        same_network(first, third),
{
}

/// Reconnecting with the same parameters is always accepted, and so is going back to an
/// address that was assigned before.
pub proof fn law_reassignment_is_reversible(a: NetworkParams, b: NetworkParams)
    ensures
        params_fit(Some(a), a),
        params_fit(Some(a), b) ==> params_fit(Some(b), a),
{
}

/// The handshake that a client sends: it advertises GSO, and brings the token if it has one.
pub fn client_handshake(device_id: u64, auth_token: Option<&str>) -> (h: VpnHandshake)
    ensures
        h.version == VPN_PROTOCOL_VERSION,
        h.device_id == device_id,
        h.gso_enabled == ADVERTISED_GSO,
        h.auth_token is Some <==> auth_token is Some,
        auth_token is Some ==> h.auth_token->0@ == auth_token->0@,
{
    let h = VpnHandshake::new(device_id).with_gso(ADVERTISED_GSO);
    match auth_token {
        Some(token) => h.with_auth_token(token),
        None => h,
    }
}

/// The IPv4 half of the response is there in part only.
pub open spec fn v4_partial(r: VpnHandshakeResponse) -> bool {
    let all = r.assigned_ip is Some && r.network is Some && r.server_ip is Some;
    let none = r.assigned_ip is None && r.network is None && r.server_ip is None;
    !all && !none
}

/// The IPv6 half of the response is there in part only.
pub open spec fn v6_partial(r: VpnHandshakeResponse) -> bool {
    let all = r.assigned_ip6 is Some && r.network6 is Some && r.server_ip6 is Some;
    let none = r.assigned_ip6 is None && r.network6 is None && r.server_ip6 is None;
    !all && !none
}

/// Why a client cannot go on with a response, if it cannot: the kind and the text of the error.
pub open spec fn response_refusal(r: VpnHandshakeResponse) -> Option<(ErrorKind, Seq<char>)> {
    if !r.accepted {
        Some(
            (
                ErrorKind::AuthenticationFailed,
                match r.reject_reason {
                    Some(reason) => reason@,
                    None => "Unknown"@,
                },
            ),
        )
    } else if v4_partial(r) {
        Some(
            (
                ErrorKind::Signaling,
                "Server response has incomplete IPv4 configuration: assigned_ip, network, and server_ip must all be present or all absent"@,
            ),
        )
    } else if v6_partial(r) {
        Some(
            (
                ErrorKind::Signaling,
                "Server response has incomplete IPv6 configuration: assigned_ip6, network6, and server_ip6 must all be present or all absent"@,
            ),
        )
    } else if r.assigned_ip is None && r.assigned_ip6 is None {
        Some(
            (
                ErrorKind::Signaling,
                "Server response missing both IPv4 and IPv6 configuration"@,
            ),
        )
    } else {
        None
    }
}

/// Takes the server's information out of its response.
///
/// A rejected client learns the reason. A response is not accepted either if one of its
/// families is there in part only, or if both are absent.
pub fn server_info_of(response: VpnHandshakeResponse) -> (r: Result<ServerInfo, VpnError>)
    ensures
        r is Ok <==> response_refusal(response) is None,
        match response_refusal(response) {
            Some((kind, text)) => vpn_error::fails(r, kind, text),
            None => true,
        },
        r is Ok ==> {
            let info = r->Ok_0;
            &&& info.complete()
            &&& info.assigned_ip == response.assigned_ip
            &&& info.network == response.network
            &&& info.server_ip == response.server_ip
            &&& info.assigned_ip6 == response.assigned_ip6
            &&& info.network6 == response.network6
            &&& info.server_ip6 == response.server_ip6
            &&& info.server_gso_enabled == response.server_gso_enabled
            &&& info.server_addrs == response.server_addrs
        },
{
    if !response.accepted {
        return Err(
            VpnError::AuthenticationFailed(
                match response.reject_reason {
                    Some(reason) => reason,
                    None => "Unknown".to_owned(),
                },
            ),
        );
    }
    match (response.assigned_ip, response.network, response.server_ip) {
        (Some(_), Some(_), Some(_)) => {},
        (None, None, None) => {},
        _ => {
            return Err(
                VpnError::Signaling(
                    "Server response has incomplete IPv4 configuration: assigned_ip, network, and server_ip must all be present or all absent".to_owned(),
                ),
            );
        },
    }
    match (response.assigned_ip6, response.network6, response.server_ip6) {
        (Some(_), Some(_), Some(_)) => {},
        (None, None, None) => {},
        _ => {
            return Err(
                VpnError::Signaling(
                    "Server response has incomplete IPv6 configuration: assigned_ip6, network6, and server_ip6 must all be present or all absent".to_owned(),
                ),
            );
        },
    }
    if response.assigned_ip.is_none() && response.assigned_ip6.is_none() {
        return Err(
            VpnError::Signaling(
                "Server response missing both IPv4 and IPv6 configuration".to_owned(),
            ),
        );
    }
    Ok(
        ServerInfo {
            assigned_ip: response.assigned_ip,
            network: response.network,
            server_ip: response.server_ip,
            assigned_ip6: response.assigned_ip6,
            network6: response.network6,
            server_ip6: response.server_ip6,
            server_gso_enabled: response.server_gso_enabled,
            server_addrs: response.server_addrs,
        },
    )
}

/// The IPv4 half of a TUN device.
#[derive(Debug, Clone, Copy, PartialEq, Eq, Structural)]
pub struct TunV4 {
    pub address: Ipv4Addr,
    pub netmask: Ipv4Addr,
    pub gateway: Ipv4Addr,
}

/// The IPv6 half of a TUN device.
#[derive(Debug, Clone, Copy, PartialEq, Eq, Structural)]
pub struct TunV6 {
    pub address: Ipv6Addr,
    pub prefix_len: u8,
}

/// How a TUN device is to be set up.
#[derive(Debug, Clone, Copy, PartialEq, Eq, Structural)]
pub struct TunPlan {
    pub v4: Option<TunV4>,
    pub v6: Option<TunV6>,
    pub mtu: u16,
    pub gso: bool,
}

/// The mask with as many leading one bits as the network's prefix is long.
pub open spec fn mask_of(net: Ipv4Net) -> int {
    pow2(32) - addr::block(32, net.prefix_len)
}

/// The IPv4 half of the client's TUN device.
pub open spec fn client_tun_v4(info: ServerInfo) -> Option<TunV4> {
    if info.has_v4() {
        Some(
            TunV4 {
                address: info.assigned_ip->0,
                netmask: Ipv4Addr { bits: mask_of(info.network->0) as u32 },
                gateway: info.server_ip->0,
            },
        )
    } else {
        None
    }
}

/// The IPv6 half of the client's TUN device.
pub open spec fn client_tun_v6(info: ServerInfo) -> Option<TunV6> {
    if info.has_v6() {
        Some(TunV6 { address: info.assigned_ip6->0, prefix_len: info.network6->0.prefix_len })
    } else {
        None
    }
}

/// A netmask is an address.
pub proof fn lemma_mask_fits(net: Ipv4Net)
    requires
        net.wf(),
    ensures
        0 <= mask_of(net) <= u32::MAX,
{
    addr::lemma_address_space();
    addr::lemma_network_bounds(net.addr.bits as nat, 32, net.prefix_len);
    if net.prefix_len > 0 {
        lemma_pow2_strictly_increases((32 - net.prefix_len) as nat, 32);
    }
}

/// Lays out the client's TUN device: an address, netmask and gateway for IPv4, an address and
/// prefix length for IPv6, whichever the server assigned, and GSO if the server has it.
pub fn plan_client_tun(info: &ServerInfo) -> (r: Result<TunPlan, VpnError>)
    requires
        info.wf(),
    ensures
        r is Ok <==> info.complete(),
        r is Ok ==> r->Ok_0 == (TunPlan {
            v4: client_tun_v4(*info),
            v6: client_tun_v6(*info),
            mtu: DEFAULT_VPN_MTU,
            gso: info.server_gso_enabled,
        }),
        r is Err ==> vpn_error::fails(
            r,
            ErrorKind::Signaling,
            "Invalid server info: need at least one complete IP configuration"@,
        ),
{
    let v4: Option<TunV4> = match (info.assigned_ip, info.network, info.server_ip) {
        (Some(address), Some(net), Some(gateway)) => {
            proof {
                lemma_mask_fits(net);
            }
            Some(TunV4 { address, netmask: net.netmask(), gateway })
        },
        (None, None, None) => None,
        _ => {
            return Err(
                VpnError::Signaling(
                    "Invalid server info: need at least one complete IP configuration".to_owned(),
                ),
            );
        },
    };
    let v6: Option<TunV6> = match (info.assigned_ip6, info.network6, info.server_ip6) {
        (Some(address), Some(net), Some(_)) => Some(
            TunV6 { address, prefix_len: net.prefix_len },
        ),
        (None, None, None) => None,
        _ => {
            return Err(
                VpnError::Signaling(
                    "Invalid server info: need at least one complete IP configuration".to_owned(),
                ),
            );
        },
    };
    if v4.is_none() && v6.is_none() {
        return Err(
            VpnError::Signaling(
                "Invalid server info: need at least one complete IP configuration".to_owned(),
            ),
        );
    }
    Ok(TunPlan { v4, v6, mtu: DEFAULT_VPN_MTU, gso: info.server_gso_enabled })
}

/// A response is taken exactly if it is an acceptance that tells all or nothing of each family
/// and something of one. A refusal is told with its reason, and anything else is a signaling
/// error.
pub proof fn law_responses_are_judged(r: VpnHandshakeResponse)
    ensures
        ({
            let four = (r.assigned_ip is Some) == (r.network is Some) && (r.assigned_ip is Some)
                == (r.server_ip is Some);
            let six = (r.assigned_ip6 is Some) == (r.network6 is Some) && (r.assigned_ip6 is Some)
                == (r.server_ip6 is Some);
            let refusal = response_refusal(r);
            &&& refusal is None <==> r.accepted && four && six && (r.assigned_ip is Some
                || r.assigned_ip6 is Some)
            &&& !r.accepted ==> refusal is Some
            &&& refusal matches Some((kind, text)) ==> {
                &&& kind == (if r.accepted {
                    ErrorKind::Signaling
                } else {
                    ErrorKind::AuthenticationFailed
                })
                &&& !r.accepted && r.reject_reason is Some ==> text == r.reject_reason->0@
            }
        }),
{
}

/// A session goes on exactly if the networks and the gateways of both families stay as they
/// were; only the assigned addresses may change.
pub proof fn law_sessions_keep_networks_and_gateways(a: NetworkParams, b: NetworkParams)
    ensures
        params_fit(Some(a), b) <==> a.network == b.network && a.server_ip == b.server_ip
            && a.network6 == b.network6 && a.server_ip6 == b.server_ip6,
        params_fit(None, b),
{
}

/// A netmask is the complement of the host bits: it leaves the first address of a network as it
/// is and adds up with its hosts to the whole range.
pub proof fn law_netmask_covers_the_prefix(net: Ipv4Net)
    requires
        net.wf(),
    ensures
        0 <= mask_of(net) <= u32::MAX,
        mask_of(net) + (net.last() - net.first()) == u32::MAX,
{
    lemma_mask_fits(net);
    addr::lemma_address_space();
}

/// A client's device gets what the server assigned, family by family, and nothing of a family
/// that the server left out.
pub proof fn law_device_follows_the_server(info: ServerInfo)
    ensures
        ({
            let four = client_tun_v4(info);
            let six = client_tun_v6(info);
            &&& four is Some <==> info.assigned_ip is Some && info.network is Some && info.server_ip
                is Some
            &&& four is Some ==> four->0.address == info.assigned_ip->0 && four->0.gateway
                == info.server_ip->0 && four->0.netmask.bits == mask_of(info.network->0) as u32
            &&& six is Some <==> info.assigned_ip6 is Some && info.network6 is Some
                && info.server_ip6 is Some
            &&& six is Some ==> six->0.address == info.assigned_ip6->0 && six->0.prefix_len
                == info.network6->0.prefix_len
            &&& info.tunnel_mode() is DualStack <==> info.assigned_ip is Some && info.assigned_ip6
                is Some
            &&& info.tunnel_mode() is Ipv4Only <==> info.assigned_ip is Some && info.assigned_ip6
                is None
            &&& info.tunnel_mode() is Ipv6Only <==> info.assigned_ip is None
        }),
{
}

/// A session begins with what the server tells first and follows it as long as it fits; what does
/// not fit leaves it as it was. The networks and gateways never change.
pub proof fn law_sessions_follow_the_server(
    established: Option<NetworkParams>,
    params: NetworkParams,
)
    ensures
        ({
            let after = session_after(established, params);
            &&& after is Some
            &&& established is None ==> after == Some(params)
            &&& established matches Some(first) ==> {
                &&& after->0.network == first.network
                &&& after->0.server_ip == first.server_ip
                &&& after->0.network6 == first.network6
                &&& after->0.server_ip6 == first.server_ip6
                &&& params_fit(established, params) ==> after == Some(params)
                &&& !params_fit(established, params) ==> after == established
            }
        }),
{
}

/// What a server told is complete exactly if it tells all or nothing of each family and something
/// of one.
pub proof fn law_complete_information(info: ServerInfo)
    ensures
        info.complete() <==> {
            &&& (info.assigned_ip is Some) == (info.network is Some)
            &&& (info.assigned_ip is Some) == (info.server_ip is Some)
            &&& (info.assigned_ip6 is Some) == (info.network6 is Some)
            &&& (info.assigned_ip6 is Some) == (info.server_ip6 is Some)
            &&& info.assigned_ip is Some || info.assigned_ip6 is Some
        },
{
}

} // verus!
