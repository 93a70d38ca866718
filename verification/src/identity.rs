//! Identities of peers.

use sha2::{Digest, Sha256};
use vstd::prelude::*;
use crate::wire;
use crate::wire::{append_bytes, read_be128};

verus! {

/// The public key of a peer: thirty-two bytes, kept as two big-endian numbers.
#[derive(Debug, Clone, Copy, PartialEq, Eq, Hash, Structural)]
pub struct EndpointId {
    pub high: u128,
    pub low: u128,
}

/// One device of a peer: the peer's key and the number that the device drew for itself.
#[derive(Debug, Clone, Copy, PartialEq, Eq, Hash, Structural)]
pub struct ClientKey {
    pub endpoint: EndpointId,
    pub device_id: u64,
}

/// The low `n` bytes of a number, most significant first.
pub open spec fn be_bytes(v: nat, n: nat) -> Seq<u8>
    decreases n,
{
    if n == 0 {
        Seq::empty()
    } else {
        be_bytes(v / 256, (n - 1) as nat).push((v % 256) as u8)
    }
}

/// The number that bytes stand for, most significant first.
pub open spec fn be_value(s: Seq<u8>) -> nat
    decreases s.len(),
{
    if s.len() == 0 {
        0
    } else {
        be_value(s.drop_last()) * 256 + s.last() as nat
    }
}

/// Appends the sixteen bytes of a number.
fn push_be128(out: &mut Vec<u8>, v: u128)
    ensures
        final(out)@ == old(out)@ + be_bytes(v as nat, 16),
{
    let ghost before = out@;
    let mut reversed: Vec<u8> = Vec::new();
    let mut rest: u128 = v;
    let mut i: usize = 0;
    assert(be_bytes(rest as nat, 16) + reversed@.reverse() =~= be_bytes(v as nat, 16));
    while i < 16
        invariant
            i <= 16,
            reversed@.len() == i,
            be_bytes(rest as nat, (16 - i) as nat) + reversed@.reverse() == be_bytes(v as nat, 16),
        decreases 16 - i,
    {
        let ghost tail = reversed@.reverse();
        let ghost head = be_bytes((rest / 256) as nat, (15 - i) as nat);
        let b: u8 = (rest % 256) as u8;
        reversed.push(b);
        proof {
            assert(be_bytes(rest as nat, (16 - i) as nat) == head.push(b));
            assert(reversed@.reverse() =~= seq![b] + tail);
            assert(head + (seq![b] + tail) =~= head.push(b) + tail);
        }
        rest = rest / 256;
        i = i + 1;
    }
    assert(be_bytes(rest as nat, 0) + reversed@.reverse() =~= reversed@.reverse());
    let mut k: usize = 16;
    while k > 0
        invariant
            k <= 16,
            reversed@.len() == 16,
            reversed@.reverse() == be_bytes(v as nat, 16),
            out@ == before + reversed@.reverse().take(16 - k),
        decreases k,
    {
        k = k - 1;
        out.push(reversed[k]);
        assert(reversed@.reverse().take(16 - k) =~= reversed@.reverse().take(15 - k).push(
            reversed@[k as int],
        ));
        assert(out@ =~= before + reversed@.reverse().take(16 - k));
    }
    assert(reversed@.reverse().take(16) =~= reversed@.reverse());
}

impl EndpointId {
    /// The thirty-two bytes of the key.
    pub open spec fn bytes(self) -> Seq<u8> {
        be_bytes(self.high as nat, 16) + be_bytes(self.low as nat, 16)
    }

    /// The key of the given bytes, or `None` unless there are thirty-two.
    pub fn from_bytes(bytes: &[u8]) -> (r: Option<EndpointId>)
        ensures
            r is Some <==> bytes@.len() == 32,
            r is Some ==> r->0.bytes() == bytes@,
    {
        if bytes.len() == 32 {
            proof {
                lemma_be128_bytes(bytes@, 0);
                lemma_be128_bytes(bytes@, 16);
                assert(bytes@ =~= bytes@.subrange(0, 16) + bytes@.subrange(16, 32));
            }
            Some(EndpointId { high: read_be128(bytes, 0), low: read_be128(bytes, 16) })
        } else {
            None
        }
    }

    /// The bytes of the key.
    pub fn to_bytes(&self) -> (r: Vec<u8>)
        ensures
            r@ == self.bytes(),
            r@.len() == 32,
    {
        let mut out: Vec<u8> = Vec::new();
        push_be128(&mut out, self.high);
        push_be128(&mut out, self.low);
        proof {
            lemma_be_bytes_len(self.high as nat, 16);
            lemma_be_bytes_len(self.low as nat, 16);
            assert(out@ =~= self.bytes());
        }
        out
    }
}

/// A number has as many bytes as asked for.
pub proof fn lemma_be_bytes_len(v: nat, n: nat)
    ensures
        be_bytes(v, n).len() == n,
    decreases n,
{
    if n > 0 {
        lemma_be_bytes_len(v / 256, (n - 1) as nat);
    }
}

/// Bytes are the bytes of the number that they stand for.
proof fn lemma_be_bytes_of_value(s: Seq<u8>)
    ensures
        be_bytes(be_value(s), s.len()) == s,
    decreases s.len(),
{
    if s.len() > 0 {
        let head = s.drop_last();
        lemma_be_bytes_of_value(head);
        let v = be_value(s);
        assert(v / 256 == be_value(head));
        assert(v % 256 == s.last());
        assert(head.push(s.last()) =~= s);
    }
}

/// A number below `bound` is the one that its bytes stand for.
proof fn lemma_be_value_of_bytes(v: nat, n: nat)
    requires
        v < vstd::arithmetic::power::pow(256, n),
    ensures
        be_value(be_bytes(v, n)) == v,
    decreases n,
{
    vstd::arithmetic::power::lemma_pow0(256);
    if n > 0 {
        vstd::arithmetic::power::lemma_pow_subtracts(256, 1, n);
        vstd::arithmetic::power::lemma_pow1(256);
        vstd::arithmetic::power::lemma_pow_adds(256, (n - 1) as nat, 1);
        assert(v / 256 < vstd::arithmetic::power::pow(256, (n - 1) as nat));
        lemma_be_value_of_bytes(v / 256, (n - 1) as nat);
        let s = be_bytes(v, n);
        assert(s.drop_last() =~= be_bytes(v / 256, (n - 1) as nat));
    }
}

/// The sixteen bytes of a 128-bit field.
proof fn lemma_be128_bytes(s: Seq<u8>, i: int)
    requires
        0 <= i,
        i + 16 <= s.len(),
    ensures
        be_bytes(wire::be128_at(s, i) as nat, 16) == s.subrange(i, i + 16),
{
    let w = s.subrange(i, i + 16);
    lemma_be_value_word(w, 4);
    lemma_be_value_word(w, 8);
    lemma_be_value_word(w, 12);
    lemma_be_value_word(w, 16);
    assert(w.take(0) =~= Seq::<u8>::empty());
    assert(w.take(16) =~= w);
    assert(wire::be32_at(w, 0) == wire::be32_at(s, i));
    assert(wire::be32_at(w, 4) == wire::be32_at(s, i + 4));
    assert(wire::be32_at(w, 8) == wire::be32_at(s, i + 8));
    assert(wire::be32_at(w, 12) == wire::be32_at(s, i + 12));
    assert(be_value(w) == wire::be128_at(s, i));
    lemma_be_bytes_of_value(w);
}

/// Four more bytes shift a number by a 32-bit word.
proof fn lemma_be_value_word(w: Seq<u8>, n: int)
    requires
        4 <= n <= w.len(),
    ensures
        be_value(w.take(n)) == be_value(w.take(n - 4)) * 0x1_0000_0000 + wire::be32_at(w, n - 4),
{
    assert(w.take(n).drop_last() =~= w.take(n - 1));
    assert(w.take(n - 1).drop_last() =~= w.take(n - 2));
    assert(w.take(n - 2).drop_last() =~= w.take(n - 3));
    assert(w.take(n - 3).drop_last() =~= w.take(n - 4));
    let x = be_value(w.take(n - 4));
    assert(be_value(w.take(n - 3)) == x * 256 + w[n - 4]);
    assert(be_value(w.take(n - 2)) == x * 0x1_0000 + w[n - 4] * 0x100 + w[n - 3]);
    assert(be_value(w.take(n - 1)) == x * 0x100_0000 + w[n - 4] * 0x1_0000 + w[n - 3] * 0x100
        + w[n - 2]);
}

/// The bytes of a 128-bit number determine it.
proof fn lemma_be128_injective(a: u128, b: u128)
    requires
        be_bytes(a as nat, 16) == be_bytes(b as nat, 16),
    ensures
        a == b,
{
    assert(vstd::arithmetic::power::pow(256, 16) == u128::MAX + 1) by {
        reveal_with_fuel(vstd::arithmetic::power::pow, 17);
    }
    lemma_be_value_of_bytes(a as nat, 16);
    lemma_be_value_of_bytes(b as nat, 16);
}

/// Two peers with the same thirty-two bytes are the same peer.
pub proof fn law_id_is_its_bytes(a: EndpointId, b: EndpointId)
    requires
        a.bytes() == b.bytes(),
    ensures
        a == b,
{
    lemma_be_bytes_len(a.high as nat, 16);
    lemma_be_bytes_len(a.low as nat, 16);
    lemma_be_bytes_len(b.high as nat, 16);
    lemma_be_bytes_len(b.low as nat, 16);
    assert(be_bytes(a.high as nat, 16) =~= a.bytes().take(16));
    assert(be_bytes(b.high as nat, 16) =~= b.bytes().take(16));
    assert(be_bytes(a.low as nat, 16) =~= a.bytes().skip(16));
    assert(be_bytes(b.low as nat, 16) =~= b.bytes().skip(16));
    lemma_be128_injective(a.high, b.high);
    lemma_be128_injective(a.low, b.low);
}

/// The SHA-256 digest of a message.
pub uninterp spec fn sha256(message: Seq<u8>) -> Seq<u8>;

/// Calls `Digest::digest` of `Sha256`: the digest is a function of the message, and has
/// thirty-two bytes.
#[verifier::external_body]
pub(crate) fn sha256_digest(message: &[u8]) -> (d: [u8; 32])
    ensures
        d@ == sha256(message@),
{
    Sha256::digest(message).into()
}

/// What a node id is hashed behind, so that the digest serves this one purpose.
pub open spec fn suffix_domain() -> Seq<u8> {
    seq![
        0x65u8, 0x7a, 0x76, 0x70, 0x6e, 0x20, 0x69, 0x70, 0x76, 0x36, 0x20, 0x61, 0x64, 0x64, 0x72,
        0x20, 0x76, 0x31,
    ]
}

/// The first eight bytes of a digest as a number.
pub open spec fn digest_suffix(digest: Seq<u8>) -> u64 {
    (wire::be32_at(digest, 0) * 0x1_0000_0000 + wire::be32_at(digest, 4)) as u64
}

/// The host suffix of a node: a function of its id alone.
pub open spec fn node_suffix(id: EndpointId) -> u64 {
    digest_suffix(sha256(suffix_domain() + id.bytes()))
}

/// The number in the first eight bytes of a digest.
pub fn suffix_of_digest(digest: &[u8]) -> (r: u64)
    requires
        digest@.len() >= 8,
    ensures
        r == digest_suffix(digest@),
{
    (wire::read_be32(digest, 0) as u64) * 0x1_0000_0000 + wire::read_be32(digest, 4) as u64
}

/// Derive a deterministic 64-bit host suffix from a node id.
///
/// Stateless: first 8 bytes (big-endian) of a domain-separated SHA-256 over
/// the node id, so the same node id always maps to the same suffix.
pub fn derive_ip6_suffix(node_id: &EndpointId) -> (r: u64)
    ensures
        r == node_suffix(*node_id),
{
    // "ezvpn ipv6 addr v1"
    let domain: [u8; 18] = [
        0x65, 0x7a, 0x76, 0x70, 0x6e, 0x20, 0x69, 0x70, 0x76, 0x36, 0x20, 0x61, 0x64, 0x64, 0x72,
        0x20, 0x76, 0x31,
    ];
    let mut message: Vec<u8> = Vec::new();
    append_bytes(&mut message, domain.as_slice());
    append_bytes(&mut message, node_id.to_bytes().as_slice());
    assert(message@ =~= suffix_domain() + node_id.bytes());
    let digest = sha256_digest(message.as_slice());
    suffix_of_digest(digest.as_slice())
}

/// The suffix of a digest is its first eight bytes, the most significant first, and that of an
/// endpoint the suffix of the digest of its id behind the domain.
pub proof fn law_suffix_is_the_head_of_the_digest(digest: Seq<u8>, id: EndpointId)
    requires
        digest.len() >= 8,
    ensures
        digest_suffix(digest) == be_value(digest.take(8)),
        node_suffix(id) == digest_suffix(sha256(suffix_domain() + id.bytes())),
{
    let s = digest.take(8);
    reveal_with_fuel(be_value, 9);
    let a = s.drop_last();
    let b = a.drop_last();
    let c = b.drop_last();
    let d = c.drop_last();
    let e = d.drop_last();
    let f = e.drop_last();
    let g = f.drop_last();
    assert(g.drop_last().len() == 0);
    assert(s.last() == digest[7]);
    assert(a.last() == digest[6]);
    assert(b.last() == digest[5]);
    assert(c.last() == digest[4]);
    assert(d.last() == digest[3]);
    assert(e.last() == digest[2]);
    assert(f.last() == digest[1]);
    assert(g.last() == digest[0]);
}

} // verus!
