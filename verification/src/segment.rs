//! Software fallback for offloaded packets: TCP segmentation and checksum completion.

use vstd::prelude::*;
use vstd::slice::{slice_subrange, slice_to_vec};
use crate::checksum;
use crate::checksum::{add_bytes, finalize_checksum};
use crate::error;
use crate::error::OffloadError;
use crate::headers;
use crate::headers::{
    tcp_checksum_ipv4,
    tcp_checksum_ipv6,
    update_ipv4_lengths_and_checksum,
    update_ipv6_payload_length,
    TCP_MIN_HEADER_LEN,
};
use crate::virtio::{
    VirtioNetHdr,
    VIRTIO_NET_HDR_F_DATA_VALID,
    VIRTIO_NET_HDR_F_NEEDS_CSUM,
    VIRTIO_NET_HDR_GSO_NONE,
    VIRTIO_NET_HDR_GSO_TCPV4,
    VIRTIO_NET_HDR_GSO_TCPV6,
};
use crate::wire;
use crate::wire::{append_bytes, high_nibble, read_be32, write_be16, write_be32};

verus! {

/// TCP flag: the sender has finished.
pub const TCP_FLAG_FIN: u8 = 0x01;

/// TCP flag: push buffered data to the receiver.
pub const TCP_FLAG_PSH: u8 = 0x08;

/// Where the parts of a TCP GSO packet lie.
#[derive(Debug, Clone, Copy, PartialEq, Eq, Structural)]
pub struct GsoLayout {
    /// IP version four or six.
    pub is_ipv6: bool,
    /// Length of the headers in front of the payload.
    pub header_len: usize,
    /// Where the TCP header starts.
    pub tcp_offset: usize,
    /// Where the TCP checksum field starts.
    pub checksum_index: usize,
    /// Payload bytes of each segment but the last.
    pub gso_size: usize,
}

impl GsoLayout {
    /// The offsets lie inside the headers of a packet of `len` bytes.
    pub open spec fn fits(self, len: nat) -> bool {
        &&& 0 < self.gso_size <= u16::MAX
        &&& self.tcp_offset + TCP_MIN_HEADER_LEN <= self.header_len
        &&& self.checksum_index + 2 <= self.header_len
        &&& self.header_len <= len
        &&& self.header_len <= u16::MAX
    }
}

/// Packets that were produced in order, and the error that ended the production, if
/// one did.
pub struct Emission {
    pub packets: Seq<Seq<u8>>,
    pub error: Option<OffloadError>,
}

/// Nothing but an error.
pub open spec fn refused(e: OffloadError) -> Emission {
    Emission { packets: Seq::empty(), error: Some(e) }
}

/// One packet and no error.
pub open spec fn emit_one(packet: Seq<u8>) -> Emission {
    Emission { packets: seq![packet], error: None }
}

/// The layout of a TCP GSO packet, or what is wrong with its metadata.
pub open spec fn gso_layout(offload: VirtioNetHdr, p: Seq<u8>) -> Result<GsoLayout, OffloadError> {
    let version = headers::ip_version(p);
    let gso_type = offload.base_gso_type();
    let header_len = offload.hdr_len as int;
    let tcp_offset = offload.csum_start as int;
    let tcp_header_len = headers::tcp_header_len_at(p, tcp_offset);
    let checksum_index = offload.csum_start + offload.csum_offset;
    if !offload.tcp_gso() {
        Err(OffloadError::NotTcpGso)
    } else if p.len() == 0 {
        Err(OffloadError::EmptyPacket)
    } else if version != 4 && version != 6 {
        Err(OffloadError::Version { version })
    } else if version == 4 && gso_type != VIRTIO_NET_HDR_GSO_TCPV4 || version == 6 && gso_type
        != VIRTIO_NET_HDR_GSO_TCPV6 {
        Err(OffloadError::VersionMismatch { version, gso_type })
    } else if header_len == 0 || header_len > p.len() {
        Err(OffloadError::HdrLen { hdr_len: header_len as usize, len: p.len() as usize })
    } else if tcp_offset + TCP_MIN_HEADER_LEN > header_len {
        Err(
            OffloadError::CsumStartInHeader {
                csum_start: tcp_offset as usize,
                header_len: header_len as usize,
            },
        )
    } else if tcp_header_len < TCP_MIN_HEADER_LEN || tcp_offset + tcp_header_len > header_len {
        Err(
            OffloadError::TcpHeaderLen {
                tcp_header_len: tcp_header_len as usize,
                tcp_offset: tcp_offset as usize,
                header_len: header_len as usize,
            },
        )
    } else if checksum_index + 2 > header_len {
        Err(
            OffloadError::CsumOffsetInHeader {
                csum_offset: offload.csum_offset as usize,
                checksum_index: checksum_index as usize,
                header_len: header_len as usize,
            },
        )
    } else {
        Ok(
            GsoLayout {
                is_ipv6: version == 6,
                header_len: header_len as usize,
                tcp_offset: tcp_offset as usize,
                checksum_index: checksum_index as usize,
                gso_size: offload.gso_size as usize,
            },
        )
    }
}

/// `p` with the bytes from `start` on summed into the checksum field at `index`, on
/// top of the partial sum that the field holds.
pub open spec fn checksum_completed(p: Seq<u8>, start: int, index: int) -> Seq<u8> {
    wire::put_be16(
        p,
        index,
        checksum::complement(
            checksum::word_sum(p.skip(start)) % checksum::SUM_MODULUS as nat,
        ) as u16,
    )
}

/// How many payload bytes the segment at payload offset `offset` ends behind.
pub open spec fn chunk_end(l: GsoLayout, p: Seq<u8>, offset: int) -> int {
    if offset + l.gso_size < p.len() - l.header_len {
        offset + l.gso_size
    } else {
        p.len() - l.header_len
    }
}

/// A segment before its lengths and checksums are set: the common headers with the
/// sequence number advanced by `offset`, FIN and PSH kept on the last segment only,
/// and the payload bytes from `offset` on.
pub open spec fn segment_draft(l: GsoLayout, p: Seq<u8>, offset: int) -> Seq<u8> {
    let t = l.tcp_offset as int;
    let end = chunk_end(l, p, offset);
    let joined = p.take(l.header_len as int) + p.subrange(l.header_len + offset, l.header_len + end);
    let seq_number = wire::be32_at(p, t + 4).wrapping_add(offset as u32);
    let numbered = wire::put_be32(joined, t + 4, seq_number);
    if end < p.len() - l.header_len {
        numbered.update(t + 13, p[t + 13] & !(TCP_FLAG_FIN | TCP_FLAG_PSH))
    } else {
        numbered
    }
}

/// A segment with its IP length set and its checksums taken.
#[verifier::opaque]
pub open spec fn segment_sealed(
    is_ipv6: bool,
    tcp_offset: int,
    checksum_index: int,
    draft: Seq<u8>,
) -> Result<Seq<u8>, OffloadError> {
    match headers::length_finished(is_ipv6, draft) {
        Err(e) => Err(e),
        Ok(q) => {
            let zeroed = wire::put_be16(q, checksum_index, 0);
            let sum = if is_ipv6 {
                headers::tcp_checksum_v6(zeroed, tcp_offset)
            } else {
                headers::tcp_checksum_v4(zeroed, tcp_offset)
            };
            match sum {
                Err(e) => Err(e),
                Ok(c) => Ok(wire::put_be16(zeroed, checksum_index, c)),
            }
        },
    }
}

/// The segment at payload offset `offset`.
pub open spec fn segment_at(l: GsoLayout, p: Seq<u8>, offset: int) -> Result<
    Seq<u8>,
    OffloadError,
> {
    if offset > u32::MAX {
        Err(OffloadError::PayloadOffset { offset: offset as usize })
    } else {
        segment_sealed(
            l.is_ipv6,
            l.tcp_offset as int,
            l.checksum_index as int,
            segment_draft(l, p, offset),
        )
    }
}

/// The segments from payload offset `offset` on, up to the first that cannot be built.
pub open spec fn segments_from(l: GsoLayout, p: Seq<u8>, offset: int) -> Emission
    decreases
            (if offset < p.len() - l.header_len {
                p.len() - l.header_len - offset
            } else {
                0
            }),
{
    if l.gso_size == 0 || offset >= p.len() - l.header_len {
        Emission { packets: Seq::empty(), error: None }
    } else {
        match segment_at(l, p, offset) {
            Err(e) => refused(e),
            Ok(s) => {
                let rest = segments_from(l, p, offset + l.gso_size);
                Emission { packets: seq![s] + rest.packets, error: rest.error }
            },
        }
    }
}

/// What segmenting a TCP GSO packet produces.
pub open spec fn gso_emission(offload: VirtioNetHdr, p: Seq<u8>) -> Emission {
    match gso_layout(offload, p) {
        Err(e) => refused(e),
        Ok(l) => if p.len() - l.header_len > l.gso_size {
            segments_from(l, p, 0)
        } else if offload.wants_checksum() {
            emit_one(checksum_completed(p, l.tcp_offset as int, l.checksum_index as int))
        } else {
            emit_one(p)
        },
    }
}

/// Whether segmenting builds packets of its own, rather than passing the input on or
/// refusing it.
pub open spec fn gso_builds(offload: VirtioNetHdr, p: Seq<u8>) -> bool {
    &&& gso_layout(offload, p) is Ok
    &&& p.len() - gso_layout(offload, p)->Ok_0.header_len > gso_layout(offload, p)->Ok_0.gso_size
        || offload.wants_checksum()
}

/// `emit` was handed `packet` and answered `answer`.
pub open spec fn answered<F>(emit: F, packet: Seq<u8>, answer: Result<(), String>) -> bool where
    F: FnMut(&[u8]) -> Result<(), String>,
 {
    exists|s: &[u8]| s@ == packet && #[trigger] call_ensures(emit, (s,), answer)
}

/// `emit` was handed the packets of `e` in order and answered `answers`; only the
/// last answer can be an error.
pub open spec fn handed_out<F>(emit: F, e: Emission, answers: Seq<Result<(), String>>) -> bool where
    F: FnMut(&[u8]) -> Result<(), String>,
 {
    &&& answers.len() <= e.packets.len()
    &&& forall|k: int|
        0 <= k < answers.len() ==> answered(emit, e.packets[k], #[trigger] answers[k])
    &&& forall|k: int| 0 <= k < answers.len() - 1 ==> (#[trigger] answers[k]) is Ok
}

/// `r` is how an emission ends whose packets were answered by `answers`: the error of
/// `emit` if it returned one, and otherwise, once every packet was handed out, the
/// error of the emission itself.
pub open spec fn ends_with(e: Emission, answers: Seq<Result<(), String>>, r: Result<(), String>) -> bool {
    if answers.len() > 0 && answers.last() is Err {
        r == answers.last()
    } else {
        &&& answers.len() == e.packets.len()
        &&& match e.error {
            Some(x) => error::reports(r, x),
            None => r is Ok,
        }
    }
}

/// `emit` takes the packets of `e`. Nothing is said of other packets, which are not handed out.
pub open spec fn takes<F>(emit: F, e: Emission) -> bool where
    F: FnMut(&[u8]) -> Result<(), String>,
 {
    forall|s: &[u8]| e.packets.contains(s@) ==> #[trigger] call_requires(emit, (s,))
}

/// What a scratch buffer holds after the packets of `e` were answered by `answers`: what it held
/// `before` unless packets were built in it, and otherwise the last that was handed out. One that
/// could not be built leaves it as it got.
pub open spec fn scratch_left(
    e: Emission,
    builds: bool,
    answers: Seq<Result<(), String>>,
    before: Seq<u8>,
    after: Seq<u8>,
) -> bool {
    if !builds {
        after == before
    } else {
        answers.len() > 0 && (answers.last() is Err || e.error is None) ==> after
            == e.packets[answers.len() - 1]
    }
}

/// The emission `e` was delivered to `emit` and ended in `r`, with the packets built in a scratch
/// buffer that held `before` and holds `after`, where they had to be built.
pub open spec fn delivered<F>(
    emit: F,
    e: Emission,
    r: Result<(), String>,
    builds: bool,
    before: Seq<u8>,
    after: Seq<u8>,
) -> bool where F: FnMut(&[u8]) -> Result<(), String> {
    exists|answers: Seq<Result<(), String>>|
        handed_out(emit, e, answers) && #[trigger] ends_with(e, answers, r) && scratch_left(
            e,
            builds,
            answers,
            before,
            after,
        )
}

/// Checks the metadata of a TCP GSO packet and locates its parts.
pub fn locate_gso(offload: &VirtioNetHdr, ip_packet: &[u8]) -> (r: Result<GsoLayout, String>)
    ensures
        match gso_layout(*offload, ip_packet@) {
            Ok(l) => r is Ok && r->Ok_0 == l && l.fits(ip_packet@.len()),
            Err(e) => error::reports(r, e),
        },
{
    if !offload.is_tcp_gso() {
        return Err(OffloadError::NotTcpGso.message());
    }
    if ip_packet.is_empty() {
        return Err(OffloadError::EmptyPacket.message());
    }
    let version: u8 = high_nibble(ip_packet[0]);
    let gso_type: u8 = offload.normalized_gso_type();
    if version != 4 && version != 6 {
        return Err(OffloadError::Version { version }.message());
    }
    if version == 4 && gso_type != VIRTIO_NET_HDR_GSO_TCPV4 || version == 6 && gso_type
        != VIRTIO_NET_HDR_GSO_TCPV6 {
        return Err(OffloadError::VersionMismatch { version, gso_type }.message());
    }
    let header_len: usize = offload.hdr_len as usize;
    if header_len == 0 || header_len > ip_packet.len() {
        return Err(OffloadError::HdrLen { hdr_len: header_len, len: ip_packet.len() }.message());
    }
    let tcp_offset: usize = offload.csum_start as usize;
    if tcp_offset + TCP_MIN_HEADER_LEN > header_len {
        return Err(
            OffloadError::CsumStartInHeader { csum_start: tcp_offset, header_len }.message(),
        );
    }
    let tcp_header_len: usize = high_nibble(ip_packet[tcp_offset + 12]) as usize * 4;
    if tcp_header_len < TCP_MIN_HEADER_LEN || tcp_offset + tcp_header_len > header_len {
        return Err(
            OffloadError::TcpHeaderLen { tcp_header_len, tcp_offset, header_len }.message(),
        );
    }
    let csum_offset: usize = offload.csum_offset as usize;
    let checksum_index: usize = tcp_offset + csum_offset;
    if checksum_index + 2 > header_len {
        return Err(
            OffloadError::CsumOffsetInHeader { csum_offset, checksum_index, header_len }.message(),
        );
    }
    Ok(
        GsoLayout {
            is_ipv6: version == 6,
            header_len,
            tcp_offset,
            checksum_index,
            gso_size: offload.gso_size as usize,
        },
    )
}

/// Builds the segment at payload offset `offset` in `scratch`.
pub fn build_segment(
    l: &GsoLayout,
    ip_packet: &[u8],
    offset: usize,
    scratch: &mut Vec<u8>,
) -> (r: Result<(), String>)
    requires
        l.fits(ip_packet@.len()),
        offset < ip_packet@.len() - l.header_len,
    ensures
        match segment_at(*l, ip_packet@, offset as int) {
            Ok(s) => r is Ok && final(scratch)@ == s,
            Err(e) => error::reports(r, e),
        },
{
    reveal(segment_sealed);
    let payload_len: usize = ip_packet.len() - l.header_len;
    let end: usize = if payload_len - offset > l.gso_size {
        offset + l.gso_size
    } else {
        payload_len
    };
    scratch.clear();
    append_bytes(scratch, slice_subrange(ip_packet, 0, l.header_len));
    append_bytes(
        scratch,
        slice_subrange(ip_packet, l.header_len + offset, l.header_len + end),
    );
    if offset as u64 > u32::MAX as u64 {
        return Err(OffloadError::PayloadOffset { offset }.message());
    }
    // The sequence number counts the payload bytes of the earlier segments.
    let t: usize = l.tcp_offset;
    let seq_number: u32 = read_be32(ip_packet, t + 4).wrapping_add(offset as u32);
    let ghost p = ip_packet@;
    proof {
        assert(scratch@ =~= p.take(l.header_len as int) + p.subrange(
            l.header_len + offset,
            l.header_len + end,
        ));
    }
    write_be32(scratch.as_mut_slice(), t + 4, seq_number);
    if end < payload_len {
        // FIN and PSH belong to the last segment only.
        scratch.as_mut_slice()[t + 13] = ip_packet[t + 13] & !(TCP_FLAG_FIN | TCP_FLAG_PSH);
    }
    assert(scratch@ =~= segment_draft(*l, p, offset as int));
    let total: usize = scratch.len();
    if l.is_ipv6 {
        update_ipv6_payload_length(scratch.as_mut_slice(), total)?;
    } else {
        update_ipv4_lengths_and_checksum(scratch.as_mut_slice(), total)?;
    }
    write_be16(scratch.as_mut_slice(), l.checksum_index, 0);
    let sum: u16 = if l.is_ipv6 {
        tcp_checksum_ipv6(scratch.as_slice(), t)?
    } else {
        tcp_checksum_ipv4(scratch.as_slice(), t)?
    };
    write_be16(scratch.as_mut_slice(), l.checksum_index, sum);
    Ok(())
}

/// Copies `ip_packet` into `scratch` and completes the partial checksum at `index` over
/// the bytes from `start` on.
fn complete_checksum(ip_packet: &[u8], start: usize, index: usize, scratch: &mut Vec<u8>)
    requires
        start <= ip_packet@.len(),
        index + 2 <= ip_packet@.len(),
    ensures
        final(scratch)@ == checksum_completed(ip_packet@, start as int, index as int),
{
    scratch.clear();
    append_bytes(scratch, ip_packet);
    assert(scratch@ =~= ip_packet@);
    let covered = slice_subrange(ip_packet, start, ip_packet.len());
    assert(covered@ =~= ip_packet@.skip(start as int));
    let value: u16 = finalize_checksum(add_bytes(0, covered));
    write_be16(scratch.as_mut_slice(), index, value);
}

/// The next segment joins those already built.
proof fn lemma_segments_step(l: GsoLayout, p: Seq<u8>, offset: int, next: int, done: Seq<Seq<u8>>)
    requires
        l.fits(p.len()),
        0 <= offset < p.len() - l.header_len,
        next == chunk_end(l, p, offset),
        segment_at(l, p, offset) is Ok,
    ensures
        done + segments_from(l, p, offset).packets == done.push(segment_at(l, p, offset)->Ok_0)
            + segments_from(l, p, next).packets,
        segments_from(l, p, offset).error == segments_from(l, p, next).error,
{
    let s = segment_at(l, p, offset)->Ok_0;
    let tail = segments_from(l, p, offset + l.gso_size);
    assert(segments_from(l, p, offset).packets == seq![s] + tail.packets);
    if next < offset + l.gso_size {
        assert(segments_from(l, p, next) == tail);
    }
    assert(done + (seq![s] + tail.packets) =~= done.push(s) + tail.packets);
}

/// One more packet was handed out.
proof fn lemma_hand_out<F>(
    emit: F,
    e: Emission,
    answers: Seq<Result<(), String>>,
    packet: &[u8],
    answer: Result<(), String>,
) where F: FnMut(&[u8]) -> Result<(), String>
    requires
        handed_out(emit, e, answers),
        forall|k: int| 0 <= k < answers.len() ==> (#[trigger] answers[k]) is Ok,
        answers.len() < e.packets.len(),
        packet@ == e.packets[answers.len() as int],
        call_ensures(emit, (packet,), answer),
    ensures
        handed_out(emit, e, answers.push(answer)),
{
    let more = answers.push(answer);
    assert forall|k: int| 0 <= k < more.len() implies answered(
        emit,
        e.packets[k],
        #[trigger] more[k],
    ) by {
        if k < answers.len() {
            assert(more[k] == answers[k]);
        } else {
            assert(more[k] == answer);
        }
    }
    assert forall|k: int| 0 <= k < more.len() - 1 implies (#[trigger] more[k]) is Ok by {
        assert(more[k] == answers[k]);
    }
}

/// Software fallback: segment a TCP GSO packet into plain TCP packets,
/// emitting each segment via callback without per-segment heap allocation.
///
/// Each segment is built into the caller-provided `scratch` buffer (reused
/// across segments and across calls) and handed to `emit` as a borrowed
/// slice. The single-segment fast path emits `ip_packet` directly with no
/// copy unless a checksum request asks for completing the partial checksum first.
/// An error returned by `emit` short-circuits segmentation. A packet that is refused is not
/// handed out, in whole or in part, and leaves `scratch` as it was.
pub fn segment_tcp_gso_into<F>(
    offload: &VirtioNetHdr,
    ip_packet: &[u8],
    scratch: &mut Vec<u8>,
    emit: F,
) -> (r: Result<(), String>) where F: FnMut(&[u8]) -> Result<(), String>
    requires
        takes(emit, gso_emission(*offload, ip_packet@)),
    ensures
        delivered(
            emit,
            gso_emission(*offload, ip_packet@),
            r,
            gso_builds(*offload, ip_packet@),
            old(scratch)@,
            final(scratch)@,
        ),
        r is Ok && gso_builds(*offload, ip_packet@) ==> final(scratch)@ == gso_emission(
            *offload,
            ip_packet@,
        ).packets.last(),
        !gso_builds(*offload, ip_packet@) ==> final(scratch)@ == old(scratch)@,
{
    let mut hand = emit;
    let ghost p = ip_packet@;
    let ghost e = gso_emission(*offload, p);
    let ghost none = Seq::<Result<(), String>>::empty();
    let l: GsoLayout = match locate_gso(offload, ip_packet) {
        Ok(l) => l,
        Err(m) => {
            assert(handed_out(emit, e, none) && ends_with(e, none, Err(m)));
            return Err(m);
        },
    };
    let ghost builds = gso_builds(*offload, p);
    let payload_len: usize = ip_packet.len() - l.header_len;
    if payload_len <= l.gso_size {
        assert(e.packets.contains(e.packets[0]));
        // A single segment with a checksum request still carries only the partial
        // pseudo-header checksum, which must be completed first.
        let answer = if offload.needs_checksum() {
            complete_checksum(ip_packet, l.tcp_offset, l.checksum_index, scratch);
            hand(scratch.as_slice())
        } else {
            hand(ip_packet)
        };
        let ghost answers = seq![answer];
        assert(handed_out(emit, e, answers) && ends_with(e, answers, answer));
        assert(scratch_left(e, builds, answers, old(scratch)@, scratch@));
        return answer;
    }
    let mut offset: usize = 0;
    let ghost mut done = Seq::<Seq<u8>>::empty();
    let ghost mut answers = none;
    assert(done + segments_from(l, p, 0).packets =~= segments_from(l, p, 0).packets);
    while offset < payload_len
        invariant
            p == ip_packet@,
            e == gso_emission(*offload, p),
            hand == emit,
            l.fits(p.len()),
            payload_len == p.len() - l.header_len,
            offset <= payload_len,
            e.packets == done + segments_from(l, p, offset as int).packets,
            e.error == segments_from(l, p, offset as int).error,
            takes(emit, e),
            answers.len() == done.len(),
            done.len() > 0 ==> scratch@ == done.last(),
            gso_builds(*offload, p),
            payload_len > 0,
            offset > 0 ==> done.len() > 0,
            handed_out(emit, e, answers),
            forall|k: int| 0 <= k < answers.len() ==> (#[trigger] answers[k]) is Ok,
        decreases payload_len - offset,
    {
        match build_segment(&l, ip_packet, offset, scratch) {
            Ok(()) => {},
            Err(m) => {
                assert(done + Seq::<Seq<u8>>::empty() =~= done);
                assert(ends_with(e, answers, Err(m)));
                assert(scratch_left(e, true, answers, old(scratch)@, scratch@));
                return Err(m);
            },
        }
        let next: usize = if payload_len - offset > l.gso_size {
            offset + l.gso_size
        } else {
            payload_len
        };
        let segment = scratch.as_slice();
        proof {
            lemma_segments_step(l, p, offset as int, next as int, done);
            done = done.push(segment@);
            assert(e.packets[done.len() - 1] == segment@);
            assert(e.packets.contains(segment@));
        }
        let answer = hand(segment);
        proof {
            lemma_hand_out(emit, e, answers, segment, answer);
            answers = answers.push(answer);
        }
        match answer {
            Ok(()) => {},
            Err(m) => {
                assert(ends_with(e, answers, Err(m)));
                assert(scratch_left(e, true, answers, old(scratch)@, scratch@));
                return Err(m);
            },
        }
        offset = next;
    }
    let r: Result<(), String> = Ok(());
    assert(ends_with(e, answers, r));
    assert(e.packets =~= done);
    assert(scratch_left(e, true, answers, old(scratch)@, scratch@));
    r
}

/// The answer of a function that collects an emission: an error where the emission has one.
pub open spec fn collected(e: Emission, r: Result<(), String>) -> bool {
    match e.error {
        None => r is Ok,
        Some(x) => error::reports(r, x),
    }
}

/// Appends the segments of a TCP GSO packet to `out`, up to the first that cannot be built.
pub fn collect_tcp_gso_segments(
    offload: &VirtioNetHdr,
    ip_packet: &[u8],
    out: &mut Vec<Vec<u8>>,
) -> (r: Result<(), String>)
    ensures
        wire::contents(final(out)@) == wire::contents(old(out)@) + gso_emission(
            *offload,
            ip_packet@,
        ).packets,
        collected(gso_emission(*offload, ip_packet@), r),
{
    let ghost p = ip_packet@;
    let ghost e = gso_emission(*offload, p);
    let ghost before = wire::contents(out@);
    let l: GsoLayout = match locate_gso(offload, ip_packet) {
        Ok(l) => l,
        Err(m) => {
            assert(before + e.packets =~= before);
            return Err(m);
        },
    };
    let payload_len: usize = ip_packet.len() - l.header_len;
    if payload_len <= l.gso_size {
        if offload.needs_checksum() {
            let mut single: Vec<u8> = Vec::new();
            complete_checksum(ip_packet, l.tcp_offset, l.checksum_index, &mut single);
            out.push(single);
        } else {
            out.push(slice_to_vec(ip_packet));
        }
        assert(wire::contents(out@) =~= before + e.packets);
        return Ok(());
    }
    let mut offset: usize = 0;
    while offset < payload_len
        invariant
            p == ip_packet@,
            e == gso_emission(*offload, p),
            before == wire::contents(old(out)@),
            l.fits(p.len()),
            payload_len == p.len() - l.header_len,
            offset <= payload_len,
            before + e.packets == wire::contents(out@) + segments_from(
                l,
                p,
                offset as int,
            ).packets,
            e.error == segments_from(l, p, offset as int).error,
        decreases payload_len - offset,
    {
        let mut segment: Vec<u8> = Vec::new();
        match build_segment(&l, ip_packet, offset, &mut segment) {
            Ok(()) => {},
            Err(m) => {
                assert(wire::contents(out@) + Seq::<Seq<u8>>::empty() =~= wire::contents(out@));
                return Err(m);
            },
        }
        let next: usize = if payload_len - offset > l.gso_size {
            offset + l.gso_size
        } else {
            payload_len
        };
        proof {
            lemma_segments_step(l, p, offset as int, next as int, wire::contents(out@));
            assert(wire::contents(out@).push(segment@) =~= wire::contents(out@.push(segment)));
        }
        out.push(segment);
        offset = next;
    }
    assert(wire::contents(out@) + Seq::<Seq<u8>>::empty() =~= wire::contents(out@));
    Ok(())
}

/// Software fallback: segment a TCP GSO packet into plain TCP packets.
///
/// Allocating counterpart of [`segment_tcp_gso_into`].
pub fn segment_tcp_gso_packet(offload: &VirtioNetHdr, ip_packet: &[u8]) -> (r: Result<
    Vec<Vec<u8>>,
    String,
>)
    ensures
        match gso_emission(*offload, ip_packet@).error {
            None => r is Ok && wire::contents(r->Ok_0@) == gso_emission(
                *offload,
                ip_packet@,
            ).packets,
            Some(e) => error::reports(r, e),
        },
{
    let mut out: Vec<Vec<u8>> = Vec::new();
    let ghost e = gso_emission(*offload, ip_packet@);
    assert(wire::contents(out@) + e.packets =~= e.packets);
    match collect_tcp_gso_segments(offload, ip_packet, &mut out) {
        Ok(()) => Ok(out),
        Err(m) => Err(m),
    }
}

/// What completing a checksum-only packet takes: nothing, or the start of the
/// checksummed bytes and the place of the checksum field.
pub open spec fn checksum_plan(offload: VirtioNetHdr, p: Seq<u8>) -> Result<
    Option<(usize, usize)>,
    OffloadError,
> {
    let other_flags = offload.flags & !(VIRTIO_NET_HDR_F_NEEDS_CSUM | VIRTIO_NET_HDR_F_DATA_VALID);
    let index = offload.csum_start + offload.csum_offset;
    if offload.gso_type != VIRTIO_NET_HDR_GSO_NONE {
        Err(OffloadError::NotGsoNone { gso_type: offload.gso_type })
    } else if p.len() == 0 {
        Err(OffloadError::EmptyPacket)
    } else if !offload.wants_checksum() {
        Ok(None)
    } else if other_flags != 0 {
        Err(OffloadError::ChecksumFlags { flags: other_flags })
    } else if offload.csum_start >= p.len() {
        Err(
            OffloadError::CsumStartInPacket {
                csum_start: offload.csum_start as usize,
                len: p.len() as usize,
            },
        )
    } else if index + 2 > p.len() {
        Err(
            OffloadError::CsumOffsetInPacket {
                csum_offset: offload.csum_offset as usize,
                checksum_index: index as usize,
                len: p.len() as usize,
            },
        )
    } else {
        Ok(Some((offload.csum_start as usize, index as usize)))
    }
}

/// What turning an offloaded packet into plain packets produces.
pub open spec fn plain_emission(offload: VirtioNetHdr, p: Seq<u8>) -> Emission {
    if offload.tcp_gso() {
        gso_emission(offload, p)
    } else if offload.gso_type != VIRTIO_NET_HDR_GSO_NONE {
        refused(OffloadError::MetadataGsoType { gso_type: offload.gso_type })
    } else {
        match checksum_plan(offload, p) {
            Err(e) => refused(e),
            Ok(None) => emit_one(p),
            Ok(Some((start, index))) => emit_one(checksum_completed(p, start as int, index as int)),
        }
    }
}

/// Whether turning an offloaded packet into plain packets builds packets of its own.
pub open spec fn plain_builds(offload: VirtioNetHdr, p: Seq<u8>) -> bool {
    if offload.tcp_gso() {
        gso_builds(offload, p)
    } else {
        checksum_plan(offload, p) matches Ok(Some(_))
    }
}

/// Validate checksum-only virtio metadata.
///
/// Returns `Ok(None)` when no checksum completion is needed, or
/// `Ok(Some((csum_start, checksum_index)))` when the partial checksum at
/// `checksum_index` must be finalized over `packet[csum_start..]`.
pub fn validate_checksum_offload(offload: &VirtioNetHdr, ip_packet: &[u8]) -> (r: Result<
    Option<(usize, usize)>,
    String,
>)
    ensures
        match checksum_plan(*offload, ip_packet@) {
            Ok(plan) => r is Ok && r->Ok_0 == plan,
            Err(e) => error::reports(r, e),
        },
{
    if offload.gso_type != VIRTIO_NET_HDR_GSO_NONE {
        return Err(OffloadError::NotGsoNone { gso_type: offload.gso_type }.message());
    }
    if ip_packet.is_empty() {
        return Err(OffloadError::EmptyPacket.message());
    }
    if !offload.needs_checksum() {
        return Ok(None);
    }
    let other_flags: u8 = offload.flags & !(VIRTIO_NET_HDR_F_NEEDS_CSUM
        | VIRTIO_NET_HDR_F_DATA_VALID);
    if other_flags != 0 {
        return Err(OffloadError::ChecksumFlags { flags: other_flags }.message());
    }
    let csum_start: usize = offload.csum_start as usize;
    if csum_start >= ip_packet.len() {
        return Err(OffloadError::CsumStartInPacket { csum_start, len: ip_packet.len() }.message());
    }
    let csum_offset: usize = offload.csum_offset as usize;
    let checksum_index: usize = csum_start + csum_offset;
    if checksum_index + 2 > ip_packet.len() {
        return Err(
            OffloadError::CsumOffsetInPacket {
                csum_offset,
                checksum_index,
                len: ip_packet.len(),
            }.message(),
        );
    }
    Ok(Some((csum_start, checksum_index)))
}

/// Convert offload metadata into one or more plain IP packets, emitting each
/// via callback without per-packet heap allocation.
///
/// TCP GSO packets are segmented via [`segment_tcp_gso_into`]. Checksum-only
/// packets have their partial checksum completed into `scratch` and emitted
/// once; packets needing no work are emitted directly with no copy, and refused ones are not
/// emitted. Both leave `scratch` as it was.
pub fn materialize_offload_into<F>(
    offload: &VirtioNetHdr,
    ip_packet: &[u8],
    scratch: &mut Vec<u8>,
    emit: F,
) -> (r: Result<(), String>) where F: FnMut(&[u8]) -> Result<(), String>
    requires
        takes(emit, plain_emission(*offload, ip_packet@)),
    ensures
        delivered(
            emit,
            plain_emission(*offload, ip_packet@),
            r,
            plain_builds(*offload, ip_packet@),
            old(scratch)@,
            final(scratch)@,
        ),
        r is Ok && plain_builds(*offload, ip_packet@) ==> final(scratch)@ == plain_emission(
            *offload,
            ip_packet@,
        ).packets.last(),
        !plain_builds(*offload, ip_packet@) ==> final(scratch)@ == old(scratch)@,
        !offload.tcp_gso() && plain_builds(*offload, ip_packet@) ==> final(scratch)@
            == plain_emission(*offload, ip_packet@).packets[0],
{
    let ghost e = plain_emission(*offload, ip_packet@);
    let ghost none = Seq::<Result<(), String>>::empty();
    if offload.is_tcp_gso() {
        return segment_tcp_gso_into(offload, ip_packet, scratch, emit);
    }
    if offload.gso_type != VIRTIO_NET_HDR_GSO_NONE {
        let m = OffloadError::MetadataGsoType { gso_type: offload.gso_type }.message();
        assert(handed_out(emit, e, none) && ends_with(e, none, Err(m)));
        return Err(m);
    }
    let mut hand = emit;
    assert(e.error is None ==> e.packets.contains(e.packets[0]));
    let answer = match validate_checksum_offload(offload, ip_packet) {
        Err(m) => {
            assert(handed_out(emit, e, none) && ends_with(e, none, Err(m)));
            return Err(m);
        },
        Ok(None) => hand(ip_packet),
        Ok(Some((csum_start, checksum_index))) => {
            complete_checksum(ip_packet, csum_start, checksum_index, scratch);
            hand(scratch.as_slice())
        },
    };
    let ghost answers = seq![answer];
    assert(handed_out(emit, e, answers) && ends_with(e, answers, answer));
    assert(scratch_left(
        e,
        plain_builds(*offload, ip_packet@),
        answers,
        old(scratch)@,
        scratch@,
    ));
    answer
}

/// Convert offload metadata into one or more plain IP packets.
///
/// Allocating counterpart of [`materialize_offload_into`].
pub fn materialize_offload_packet(offload: &VirtioNetHdr, ip_packet: &[u8]) -> (r: Result<
    Vec<Vec<u8>>,
    String,
>)
    ensures
        match plain_emission(*offload, ip_packet@).error {
            None => r is Ok && wire::contents(r->Ok_0@) == plain_emission(
                *offload,
                ip_packet@,
            ).packets,
            Some(e) => error::reports(r, e),
        },
{
    let mut out: Vec<Vec<u8>> = Vec::new();
    let ghost e = plain_emission(*offload, ip_packet@);
    assert(wire::contents(out@) + e.packets =~= e.packets);
    match collect_offload_packets(offload, ip_packet, &mut out) {
        Ok(()) => Ok(out),
        Err(m) => Err(m),
    }
}

/// Appends the plain packets of an offloaded packet to `out`, up to the first that cannot
/// be built.
pub fn collect_offload_packets(
    offload: &VirtioNetHdr,
    ip_packet: &[u8],
    out: &mut Vec<Vec<u8>>,
) -> (r: Result<(), String>)
    ensures
        wire::contents(final(out)@) == wire::contents(old(out)@) + plain_emission(
            *offload,
            ip_packet@,
        ).packets,
        collected(plain_emission(*offload, ip_packet@), r),
{
    let ghost e = plain_emission(*offload, ip_packet@);
    let ghost before = wire::contents(out@);
    if offload.is_tcp_gso() {
        return collect_tcp_gso_segments(offload, ip_packet, out);
    }
    if offload.gso_type != VIRTIO_NET_HDR_GSO_NONE {
        assert(before + e.packets =~= before);
        return Err(OffloadError::MetadataGsoType { gso_type: offload.gso_type }.message());
    }
    match complete_checksum_offload_packet(offload, ip_packet) {
        Ok(packet) => {
            out.push(packet);
            assert(wire::contents(out@) =~= before + e.packets);
            Ok(())
        },
        Err(m) => {
            assert(before + e.packets =~= before);
            Err(m)
        },
    }
}

/// Complete checksum-only virtio metadata and return a plain IP packet.
pub fn complete_checksum_offload_packet(offload: &VirtioNetHdr, ip_packet: &[u8]) -> (r: Result<
    Vec<u8>,
    String,
>)
    ensures
        match checksum_plan(*offload, ip_packet@) {
            Err(e) => error::reports(r, e),
            Ok(None) => r is Ok && r->Ok_0@ == ip_packet@,
            Ok(Some((start, index))) => r is Ok && r->Ok_0@ == checksum_completed(
                ip_packet@,
                start as int,
                index as int,
            ),
        },
{
    match validate_checksum_offload(offload, ip_packet)? {
        None => Ok(slice_to_vec(ip_packet)),
        Some((csum_start, checksum_index)) => {
            let mut out: Vec<u8> = Vec::new();
            complete_checksum(ip_packet, csum_start, checksum_index, &mut out);
            Ok(out)
        },
    }
}

/// Handing out packets ends in good order exactly if every packet was handed out and taken and
/// none failed to be built. Otherwise it ends with the answer that refused a packet, or with the
/// packet that could not be built once all before it were taken.
pub proof fn law_handing_out_is_complete<F>(
    emit: F,
    e: Emission,
    answers: Seq<Result<(), String>>,
    r: Result<(), String>,
) where F: FnMut(&[u8]) -> Result<(), String>
    requires
        handed_out(emit, e, answers),
        ends_with(e, answers, r),
    ensures
        r is Ok ==> answers.len() == e.packets.len() && e.error is None && forall|k: int|
            0 <= k < answers.len() ==> (#[trigger] answers[k]) is Ok,
        answers.len() < e.packets.len() ==> answers.len() > 0 && answers.last() is Err && r
            == answers.last(),
        answers.len() == e.packets.len() && (forall|k: int|
            0 <= k < answers.len() ==> (#[trigger] answers[k]) is Ok) ==> match e.error {
            Some(x) => r is Err && r->Err_0@ == x.text(),
            None => r is Ok,
        },
        forall|k: int|
            0 <= k < answers.len() ==> answered(emit, e.packets[k], #[trigger] answers[k]),
        forall|k: int| 0 <= k < answers.len() - 1 ==> (#[trigger] answers[k]) is Ok,
{
}

/// Packets are built in the scratch buffer exactly if a packet is segmented or a checksum is
/// written into it; otherwise the input itself is handed on.
pub proof fn law_input_is_handed_on(h: VirtioNetHdr, p: Seq<u8>)
    ensures
        gso_builds(h, p) <==> gso_layout(h, p) is Ok && (p.len() > h.hdr_len + h.gso_size
            || h.wants_checksum()),
        plain_builds(h, p) && !h.tcp_gso() ==> h.wants_checksum() && h.gso_type == 0,
        !plain_builds(h, p) && plain_emission(h, p).error is None ==> plain_emission(h, p).packets
            == seq![p],
{
}

} // verus!
