//! IP addresses and networks as plain numbers.

use vstd::arithmetic::power2::*;
use vstd::prelude::*;
use vstd::string::*;
use crate::text;
use crate::text::push_dec;

verus! {

/// An IPv4 address.
#[derive(Debug, Clone, Copy, PartialEq, Eq, Hash, Structural)]
pub struct Ipv4Addr {
    pub bits: u32,
}

/// An IPv6 address.
#[derive(Debug, Clone, Copy, PartialEq, Eq, Hash, Structural)]
pub struct Ipv6Addr {
    pub bits: u128,
}

/// An address of either version.
#[derive(Debug, Clone, Copy, PartialEq, Eq, Hash, Structural)]
pub enum IpAddr {
    V4(Ipv4Addr),
    V6(Ipv6Addr),
}

/// An IPv4 address with a prefix length.
#[derive(Debug, Clone, Copy, PartialEq, Eq, Hash, Structural)]
pub struct Ipv4Net {
    pub addr: Ipv4Addr,
    pub prefix_len: u8,
}

/// An IPv6 address with a prefix length.
#[derive(Debug, Clone, Copy, PartialEq, Eq, Hash, Structural)]
pub struct Ipv6Net {
    pub addr: Ipv6Addr,
    pub prefix_len: u8,
}

/// The number of addresses that share the first `prefix_len` of `width` bits.
pub open spec fn block(width: nat, prefix_len: u8) -> nat {
    pow2((width - prefix_len) as nat)
}

/// The address with everything behind the prefix cleared.
pub open spec fn first_address(bits: nat, width: nat, prefix_len: u8) -> int {
    bits - bits % block(width, prefix_len)
}

/// The address with everything behind the prefix set.
pub open spec fn last_address(bits: nat, width: nat, prefix_len: u8) -> int {
    first_address(bits, width, prefix_len) + block(width, prefix_len) - 1
}

/// The bounds of a network lie around its address, and inside the address space.
pub proof fn lemma_network_bounds(bits: nat, width: nat, prefix_len: u8)
    requires
        prefix_len <= width,
        bits < pow2(width),
    ensures
        block(width, prefix_len) >= 1,
        0 <= first_address(bits, width, prefix_len) <= bits,
        bits <= last_address(bits, width, prefix_len) < pow2(width),
{
    let b = block(width, prefix_len);
    let p = pow2(prefix_len as nat);
    lemma_pow2_pos((width - prefix_len) as nat);
    lemma_pow2_adds(prefix_len as nat, (width - prefix_len) as nat);
    assert(pow2(width) == p * b);
    let q = bits / b;
    let r = bits % b;
    vstd::arithmetic::div_mod::lemma_fundamental_div_mod(bits as int, b as int);
    assert(0 <= r < b) by (nonlinear_arith)
        requires
            b >= 1,
            r == bits % b,
    ;
    assert(bits == b * q + r);
    assert(q < p) by (nonlinear_arith)
        requires
            b * q + r < p * b,
            r >= 0,
            b >= 1,
    ;
    assert(b * q + b <= p * b) by (nonlinear_arith)
        requires
            q + 1 <= p,
            b >= 1,
    ;
}

/// The number of values of 32 and of 128 bits.
pub proof fn lemma_address_space()
    ensures
        pow2(32) == 0x1_0000_0000,
        pow2(64) == 0x1_0000_0000_0000_0000,
        pow2(128) == u128::MAX + 1,
{
    lemma2_to64();
    lemma2_to64_rest();
    lemma_pow2_adds(64, 64);
    assert(0x1_0000_0000_0000_0000int * 0x1_0000_0000_0000_0000int == u128::MAX + 1)
        by (nonlinear_arith);
}

/// Calls `Ipv4Net::network` of `ipnet`: it clears the bits behind the prefix.
#[verifier::external_body]
fn ipnet_network4(bits: u32, prefix_len: u8) -> (r: u32)
    requires
        prefix_len <= 32,
    ensures
        r == first_address(bits as nat, 32, prefix_len),
{
    ipnet::Ipv4Net::new(bits.into(), prefix_len).unwrap().network().into()
}

/// Calls `Ipv4Net::broadcast` of `ipnet`: it sets the bits behind the prefix.
#[verifier::external_body]
fn ipnet_broadcast4(bits: u32, prefix_len: u8) -> (r: u32)
    requires
        prefix_len <= 32,
    ensures
        r == last_address(bits as nat, 32, prefix_len),
{
    ipnet::Ipv4Net::new(bits.into(), prefix_len).unwrap().broadcast().into()
}

/// Calls `Ipv4Net::netmask` of `ipnet`: as many leading one bits as the prefix is long.
#[verifier::external_body]
fn ipnet_netmask4(bits: u32, prefix_len: u8) -> (r: u32)
    requires
        prefix_len <= 32,
    ensures
        r == pow2(32) - block(32, prefix_len),
{
    ipnet::Ipv4Net::new(bits.into(), prefix_len).unwrap().netmask().into()
}

/// Calls `Ipv4Net::contains` of `ipnet` on an address: it asks whether the address lies
/// between the first and the last of the network.
#[verifier::external_body]
fn ipnet_contains4(bits: u32, prefix_len: u8, ip: u32) -> (r: bool)
    requires
        prefix_len <= 32,
    ensures
        r == (first_address(bits as nat, 32, prefix_len) <= ip <= last_address(
            bits as nat,
            32,
            prefix_len,
        )),
{
    let host = ipnet::Ipv4Net::new(ip.into(), 32).unwrap().addr();
    ipnet::Ipv4Net::new(bits.into(), prefix_len).unwrap().contains(&host)
}

/// Calls `Ipv6Net::network` of `ipnet`: it clears the bits behind the prefix.
#[verifier::external_body]
fn ipnet_network6(bits: u128, prefix_len: u8) -> (r: u128)
    requires
        prefix_len <= 128,
    ensures
        r == first_address(bits as nat, 128, prefix_len),
{
    ipnet::Ipv6Net::new(bits.into(), prefix_len).unwrap().network().into()
}

/// Calls `Ipv6Net::broadcast` of `ipnet`: it sets the bits behind the prefix.
#[verifier::external_body]
fn ipnet_broadcast6(bits: u128, prefix_len: u8) -> (r: u128)
    requires
        prefix_len <= 128,
    ensures
        r == last_address(bits as nat, 128, prefix_len),
{
    ipnet::Ipv6Net::new(bits.into(), prefix_len).unwrap().broadcast().into()
}

/// Calls `Ipv6Net::contains` of `ipnet` on an address: it asks whether the address lies
/// between the first and the last of the network.
#[verifier::external_body]
fn ipnet_contains6(bits: u128, prefix_len: u8, ip: u128) -> (r: bool)
    requires
        prefix_len <= 128,
    ensures
        r == (first_address(bits as nat, 128, prefix_len) <= ip <= last_address(
            bits as nat,
            128,
            prefix_len,
        )),
{
    let host = ipnet::Ipv6Net::new(ip.into(), 128).unwrap().addr();
    ipnet::Ipv6Net::new(bits.into(), prefix_len).unwrap().contains(&host)
}

/// The canonical text of an IPv6 address.
pub uninterp spec fn ipv6_text(bits: u128) -> Seq<char>;

/// Calls `Display` of the standard IPv6 address, which writes the canonical text.
#[verifier::external_body]
fn display_ipv6(bits: u128) -> (s: String)
    ensures
        s@ == ipv6_text(bits),
{
    ipnet::Ipv6Net::new(bits.into(), 128).unwrap().addr().to_string()
}

impl Ipv4Addr {
    /// Four decimal numbers with dots between them.
    pub open spec fn text(self) -> Seq<char> {
        text::dec((self.bits / 0x100_0000) as nat) + "."@ + text::dec(
            (self.bits / 0x1_0000 % 256) as nat,
        ) + "."@ + text::dec((self.bits / 0x100 % 256) as nat) + "."@ + text::dec(
            (self.bits % 256) as nat,
        )
    }

    /// The address as text.
    pub fn to_text(&self) -> (s: String)
        ensures
            s@ == self.text(),
    {
        let mut s = String::new();
        push_dec(&mut s, (self.bits / 0x100_0000) as u64);
        assert(s@ =~= text::dec((self.bits / 0x100_0000) as nat));
        s.append(".");
        push_dec(&mut s, (self.bits / 0x1_0000 % 256) as u64);
        s.append(".");
        push_dec(&mut s, (self.bits / 0x100 % 256) as u64);
        s.append(".");
        push_dec(&mut s, (self.bits % 256) as u64);
        s
    }
}

impl Ipv6Addr {
    /// The address as text.
    pub fn to_text(&self) -> (s: String)
        ensures
            s@ == ipv6_text(self.bits),
    {
        display_ipv6(self.bits)
    }
}

impl Ipv4Net {
    /// The prefix is no longer than an address.
    pub open spec fn wf(self) -> bool {
        self.prefix_len <= 32
    }

    /// The first address of the network.
    pub open spec fn first(self) -> int {
        first_address(self.addr.bits as nat, 32, self.prefix_len)
    }

    /// The last address of the network.
    pub open spec fn last(self) -> int {
        last_address(self.addr.bits as nat, 32, self.prefix_len)
    }

    /// The address lies in the network.
    pub open spec fn has(self, ip: Ipv4Addr) -> bool {
        self.first() <= ip.bits <= self.last()
    }

    /// The address and the prefix length, with a slash between them.
    pub open spec fn text(self) -> Seq<char> {
        self.addr.text() + "/"@ + text::dec(self.prefix_len as nat)
    }

    /// A network of the given address, or `None` if the prefix is too long.
    pub fn new(addr: Ipv4Addr, prefix_len: u8) -> (r: Option<Ipv4Net>)
        ensures
            r == (if prefix_len <= 32 {
                Some(Ipv4Net { addr, prefix_len })
            } else {
                None
            }),
    {
        if prefix_len <= 32 {
            Some(Ipv4Net { addr, prefix_len })
        } else {
            None
        }
    }

    /// The first address of the network.
    pub fn network(&self) -> (r: Ipv4Addr)
        requires
            self.wf(),
        ensures
            r.bits == self.first(),
    {
        Ipv4Addr { bits: ipnet_network4(self.addr.bits, self.prefix_len) }
    }

    /// The last address of the network.
    pub fn broadcast(&self) -> (r: Ipv4Addr)
        requires
            self.wf(),
        ensures
            r.bits == self.last(),
    {
        Ipv4Addr { bits: ipnet_broadcast4(self.addr.bits, self.prefix_len) }
    }

    /// The mask of the network.
    pub fn netmask(&self) -> (r: Ipv4Addr)
        requires
            self.wf(),
        ensures
            r.bits == pow2(32) - block(32, self.prefix_len),
    {
        Ipv4Addr { bits: ipnet_netmask4(self.addr.bits, self.prefix_len) }
    }

    /// Whether the address lies in the network.
    pub fn contains(&self, ip: &Ipv4Addr) -> (r: bool)
        requires
            self.wf(),
        ensures
            r == self.has(*ip),
    {
        ipnet_contains4(self.addr.bits, self.prefix_len, ip.bits)
    }

    /// The network as text.
    pub fn to_text(&self) -> (s: String)
        ensures
            s@ == self.text(),
    {
        let mut s = self.addr.to_text();
        s.append("/");
        push_dec(&mut s, self.prefix_len as u64);
        s
    }
}

impl Ipv6Net {
    /// The prefix is no longer than an address.
    pub open spec fn wf(self) -> bool {
        self.prefix_len <= 128
    }

    /// The first address of the network.
    pub open spec fn first(self) -> int {
        first_address(self.addr.bits as nat, 128, self.prefix_len)
    }

    /// The last address of the network.
    pub open spec fn last(self) -> int {
        last_address(self.addr.bits as nat, 128, self.prefix_len)
    }

    /// The address lies in the network.
    pub open spec fn has(self, ip: Ipv6Addr) -> bool {
        self.first() <= ip.bits <= self.last()
    }

    /// The address and the prefix length, with a slash between them.
    pub open spec fn text(self) -> Seq<char> {
        ipv6_text(self.addr.bits) + "/"@ + text::dec(self.prefix_len as nat)
    }

    /// A network of the given address, or `None` if the prefix is too long.
    pub fn new(addr: Ipv6Addr, prefix_len: u8) -> (r: Option<Ipv6Net>)
        ensures
            r == (if prefix_len <= 128 {
                Some(Ipv6Net { addr, prefix_len })
            } else {
                None
            }),
    {
        if prefix_len <= 128 {
            Some(Ipv6Net { addr, prefix_len })
        } else {
            None
        }
    }

    /// The first address of the network.
    pub fn network(&self) -> (r: Ipv6Addr)
        requires
            self.wf(),
        ensures
            r.bits == self.first(),
    {
        Ipv6Addr { bits: ipnet_network6(self.addr.bits, self.prefix_len) }
    }

    /// The last address of the network.
    pub fn broadcast(&self) -> (r: Ipv6Addr)
        requires
            self.wf(),
        ensures
            r.bits == self.last(),
    {
        Ipv6Addr { bits: ipnet_broadcast6(self.addr.bits, self.prefix_len) }
    }

    /// Whether the address lies in the network.
    pub fn contains(&self, ip: &Ipv6Addr) -> (r: bool)
        requires
            self.wf(),
        ensures
            r == self.has(*ip),
    {
        ipnet_contains6(self.addr.bits, self.prefix_len, ip.bits)
    }

    /// The network as text.
    pub fn to_text(&self) -> (s: String)
        ensures
            s@ == self.text(),
    {
        let mut s = self.addr.to_text();
        s.append("/");
        push_dec(&mut s, self.prefix_len as u64);
        s
    }
}

/// A network holds its own address and both its ends.
pub proof fn law_network_holds_its_ends(net: Ipv4Net)
    requires
        net.wf(),
    ensures
        net.has(net.addr),
        0 <= net.first() <= net.last() <= u32::MAX,
{
    lemma_address_space();
    lemma_network_bounds(net.addr.bits as nat, 32, net.prefix_len);
}

/// The IPv6 counterpart of [`law_network_holds_its_ends`].
pub proof fn law_network6_holds_its_ends(net: Ipv6Net)
    requires
        net.wf(),
    ensures
        net.has(net.addr),
        0 <= net.first() <= net.last() <= u128::MAX,
{
    lemma_address_space();
    lemma_network_bounds(net.addr.bits as nat, 128, net.prefix_len);
}

/// A number divided by a block is the block that it lies in.
proof fn lemma_same_block(x: int, y: int, b: int)
    requires
        b >= 1,
        x >= 0,
        y >= 0,
    ensures
        y - y % b <= x <= y - y % b + b - 1 <==> x / b == y / b,
        (y - y % b) % b == 0,
{
    let q = y / b;
    vstd::arithmetic::div_mod::lemma_fundamental_div_mod(y, b);
    vstd::arithmetic::div_mod::lemma_fundamental_div_mod(x, b);
    assert(y - y % b == b * q);
    assert(0 <= x % b < b) by (nonlinear_arith)
        requires
            b >= 1,
    ;
    let p = x / b;
    assert(x == b * p + x % b);
    if p == q {
    } else if p < q {
        assert(b * p + b <= b * q) by (nonlinear_arith)
            requires
                p + 1 <= q,
                b >= 1,
        ;
    } else {
        assert(b * q + b <= b * p) by (nonlinear_arith)
            requires
                q + 1 <= p,
                b >= 1,
        ;
    }
    vstd::arithmetic::div_mod::lemma_mod_multiples_basic(q, b);
    assert(q * b == b * q) by (nonlinear_arith);
}

/// A network holds the addresses that share its prefix: those that are equal to its own once as
/// many low bits as the prefix leaves free are dropped. It has as many as those bits can tell
/// apart.
pub proof fn law_network_is_its_prefix(net: Ipv4Net, ip: Ipv4Addr)
    requires
        net.wf(),
    ensures
        ({
            let free = pow2((32 - net.prefix_len) as nat) as int;
            &&& net.has(ip) <==> ip.bits as int / free == net.addr.bits as int / free
            &&& net.first() % free == 0
            &&& net.last() == net.first() + free - 1
            &&& net.has(ip) <==> net.first() <= ip.bits <= net.last()
        }),
{
    lemma_pow2_pos((32 - net.prefix_len) as nat);
    lemma_same_block(
        ip.bits as int,
        net.addr.bits as int,
        pow2((32 - net.prefix_len) as nat) as int,
    );
}

/// An IPv6 network holds the addresses that share its prefix.
pub proof fn law_network6_is_its_prefix(net: Ipv6Net, ip: Ipv6Addr)
    requires
        net.wf(),
    ensures
        ({
            let free = pow2((128 - net.prefix_len) as nat) as int;
            &&& net.has(ip) <==> ip.bits as int / free == net.addr.bits as int / free
            &&& net.first() % free == 0
            &&& net.last() == net.first() + free - 1
            &&& net.has(ip) <==> net.first() <= ip.bits <= net.last()
        }),
{
    lemma_pow2_pos((128 - net.prefix_len) as nat);
    lemma_same_block(
        ip.bits as int,
        net.addr.bits as int,
        pow2((128 - net.prefix_len) as nat) as int,
    );
}

/// The octets of a number.
proof fn lemma_octets(a: u8, b: u8, c: u8, d: u8, x: u32)
    requires
        x == a * 0x100_0000 + b * 0x1_0000 + c * 0x100 + d,
    ensures
        (x / 0x100_0000) as nat == a as nat,
        (x / 0x1_0000 % 256) as nat == b as nat,
        (x / 0x100 % 256) as nat == c as nat,
        (x % 256) as nat == d as nat,
{
}

/// An IPv4 address is written as its four octets, the first in front, with dots between them.
pub proof fn law_ipv4_text_is_its_octets(a: u8, b: u8, c: u8, d: u8, ip: Ipv4Addr)
    requires
        ip.bits == a * 0x100_0000 + b * 0x1_0000 + c * 0x100 + d,
    ensures
        ip.text() == text::dec(a as nat) + "."@ + text::dec(b as nat) + "."@ + text::dec(c as nat)
            + "."@ + text::dec(d as nat),
{
    lemma_octets(a, b, c, d, ip.bits);
    let x = ip.bits;
    let t = text::dec((x / 0x100_0000) as nat) + "."@ + text::dec((x / 0x1_0000 % 256) as nat)
        + "."@ + text::dec((x / 0x100 % 256) as nat) + "."@ + text::dec((x % 256) as nat);
    assert(ip.text() == t);
}

/// A network is written as its address, a slash and the length of its prefix.
pub proof fn law_network_text(net: Ipv4Net, net6: Ipv6Net)
    ensures
        net.text() == net.addr.text() + "/"@ + text::dec(net.prefix_len as nat),
        net6.text() == ipv6_text(net6.addr.bits) + "/"@ + text::dec(net6.prefix_len as nat),
{
}

} // verus!
