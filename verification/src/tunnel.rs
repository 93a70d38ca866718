//! What the client's packet loop decides: which packets leave, how writes to the TUN device are
//! batched, and why the tunnel ended.

use bytes::{Bytes, BytesMut};
use std::collections::HashSet;
use vstd::prelude::*;
use vstd::string::*;
use crate::buffer;
use crate::datagram;
use crate::datagram::{open_datagram, tun_writes, Opened, TunWrite};
use crate::error;
use crate::error::OffloadError;
use crate::flow_order;
use crate::gro;
use crate::gro::{CoalescedOutput, TcpGroTable};
use crate::packet;
use crate::packet::packet_has_local_iroh_udp_port;
use crate::segment;
use crate::virtio;
use crate::virtio::{split_tun_frame, VirtioNetHdr};
use crate::vpn_error::{ErrorKind, VpnError};

verus! {

/// How many queued packets are written to the TUN device in one go.
pub const WRITE_BATCH_SIZE: usize = 256;

/// How many writes to the TUN device may fail in a row.
pub const MAX_TUN_WRITE_FAILURES: u32 = 10;

/// How the next frame is read from the TUN device.
#[derive(Debug, Clone, Copy, PartialEq, Eq, Structural)]
pub enum ReadMode {
    /// Wait for a frame.
    Wait,
    /// Take a frame that is queued already; if there is none, send what was coalesced so far
    /// and then wait.
    Poll,
}

/// What is to be sent for a frame of the TUN device.
#[derive(Debug)]
pub enum Outbound<'a> {
    /// The frame cannot be read.
    Unreadable(String),
    /// The packet is one of the tunnel's own transport.
    OwnTransport,
    /// Outputs of earlier packets first. Behind them the packet itself, unless it was coalesced.
    Send {
        outputs: Vec<CoalescedOutput>,
        offload: Option<VirtioNetHdr>,
        packet: &'a [u8],
        pass_through: bool,
    },
}

/// What a frame leads to.
pub enum OutboundView {
    Unreadable(OffloadError),
    OwnTransport,
    Send {
        outputs: Seq<gro::OutputView>,
        offload: Option<VirtioNetHdr>,
        packet: Seq<u8>,
        pass_through: bool,
    },
}

/// The packets on their way from the TUN device to the connection.
///
/// Where the device has no offload of its own, consecutive segments of a TCP flow are coalesced
/// here. A device with offload hands out coalesced frames, and the table stays empty.
#[derive(Debug)]
pub struct OutboundPath {
    /// Whether frames of the device start with an offload header.
    pub vnet_hdr_enabled: bool,
    /// The segments that were coalesced so far.
    pub table: TcpGroTable,
}

/// What a frame leads to, and the table after it.
pub open spec fn outbound(
    vnet_hdr_enabled: bool,
    table: gro::Pending,
    frame: Seq<u8>,
    ports: Set<u16>,
) -> (OutboundView, gro::Pending) {
    match virtio::split_frame(frame, vnet_hdr_enabled) {
        Err(e) => (OutboundView::Unreadable(e), table),
        Ok((offload, p)) => if packet::uses_port(p, ports) {
            (OutboundView::OwnTransport, table)
        } else if vnet_hdr_enabled {
            (
                OutboundView::Send { outputs: Seq::empty(), offload, packet: p, pass_through: true },
                table,
            )
        } else {
            let o = gro::pushed(table, p);
            (
                OutboundView::Send {
                    outputs: o.outputs,
                    offload,
                    packet: p,
                    pass_through: o.pass_through,
                },
                o.table,
            )
        },
    }
}

/// What was decided is what should be.
pub open spec fn shows(o: Outbound<'_>, v: OutboundView) -> bool {
    match (o, v) {
        (Outbound::Unreadable(m), OutboundView::Unreadable(e)) => m@ == e.text(),
        (Outbound::OwnTransport, OutboundView::OwnTransport) => true,
        (
            Outbound::Send { outputs, offload, packet, pass_through },
            OutboundView::Send { outputs: vo, offload: vf, packet: vp, pass_through: vt },
        ) => {
            &&& gro::output_views(outputs@) == vo
            &&& offload == vf
            &&& packet@ == vp
            &&& pass_through == vt
        },
        _ => false,
    }
}

/// How the next frame is read: without waiting as long as something is held.
pub open spec fn mode_for(vnet_hdr_enabled: bool, table: gro::Pending) -> ReadMode {
    if !vnet_hdr_enabled && table.len() > 0 {
        ReadMode::Poll
    } else {
        ReadMode::Wait
    }
}

impl OutboundPath {
    /// The table is in order.
    pub open spec fn wf(self) -> bool {
        self.table.wf()
    }

    /// Nothing under way yet.
    pub fn new(vnet_hdr_enabled: bool) -> (p: Self)
        ensures
            p.wf(),
            p.vnet_hdr_enabled == vnet_hdr_enabled,
            p.table@.len() == 0,
    {
        OutboundPath { vnet_hdr_enabled, table: TcpGroTable::new() }
    }

    /// How the next frame is read: with coalesced segments pending, only what is queued already
    /// is taken, so that they never linger.
    pub fn read_mode(&self) -> (m: ReadMode)
        requires
            self.wf(),
        ensures
            m == (if !self.vnet_hdr_enabled && self.table@.len() > 0 {
                ReadMode::Poll
            } else {
                ReadMode::Wait
            }),
            m == mode_for(self.vnet_hdr_enabled, self.table@),
    {
        if !self.vnet_hdr_enabled && !self.table.is_empty() {
            ReadMode::Poll
        } else {
            ReadMode::Wait
        }
    }

    /// Takes out everything that was coalesced so far.
    pub fn flush(&mut self) -> (r: Vec<CoalescedOutput>)
        requires
            old(self).wf(),
        ensures
            final(self).wf(),
            final(self).vnet_hdr_enabled == old(self).vnet_hdr_enabled,
            final(self).table@.len() == 0,
            gro::output_views(r@) == gro::flushed(old(self).table@),
    {
        self.table.flush_all()
    }

    /// Takes up a frame of the TUN device.
    ///
    /// Packets of the tunnel's own transport are dropped: sending them would wrap them again and
    /// again.
    pub fn take_frame<'a>(&mut self, frame: &'a [u8], own_ports: &HashSet<u16>) -> (o: Outbound<'a>)
        requires
            old(self).wf(),
        ensures
            final(self).wf(),
            final(self).vnet_hdr_enabled == old(self).vnet_hdr_enabled,
            ({
                let (v, table) = outbound(
                    old(self).vnet_hdr_enabled,
                    old(self).table@,
                    frame@,
                    own_ports@,
                );
                &&& shows(o, v)
                &&& final(self).table@ == table
            }),
    {
        let (offload, packet) = match split_tun_frame(frame, self.vnet_hdr_enabled) {
            Ok(parts) => parts,
            Err(m) => {
                return Outbound::Unreadable(m);
            },
        };
        if packet_has_local_iroh_udp_port(packet, own_ports) {
            return Outbound::OwnTransport;
        }
        if self.vnet_hdr_enabled {
            let outputs: Vec<CoalescedOutput> = Vec::new();
            assert(gro::output_views(outputs@) =~= Seq::empty());
            return Outbound::Send { outputs, offload, packet, pass_through: true };
        }
        let pushed = self.table.push(packet);
        Outbound::Send {
            outputs: pushed.outputs,
            offload,
            packet,
            pass_through: pushed.pass_through,
        }
    }
}

/// What a datagram from the server leads to.
#[derive(Debug)]
pub enum Inbound {
    /// It is passed over.
    Ignore(VpnError),
    /// The body of a message with the server's addresses, for the bypass routes.
    ServerAddrs(Bytes),
    /// The metadata of the packet cannot be turned into plain packets.
    Drop(String),
    /// Packets for the TUN device.
    Write(Vec<TunWrite>),
}

/// What a datagram from the server comes to.
pub enum InboundView {
    Ignore(Seq<char>),
    ServerAddrs(Seq<u8>),
    Drop(OffloadError),
    Write(Seq<(Seq<u8>, Option<VirtioNetHdr>)>),
}

/// What a datagram from the server comes to, by what it holds.
pub open spec fn inbound(d: Seq<u8>, gso: bool) -> InboundView {
    match datagram::received(d) {
        datagram::Received::Refused(m) => InboundView::Ignore(m),
        datagram::Received::ServerAddrs(body) => InboundView::ServerAddrs(body),
        datagram::Received::Packet { offload, at } => match datagram::writes_of(
            offload,
            d.skip(at),
            gso,
        ) {
            Ok(w) => InboundView::Write(w),
            Err(e) => InboundView::Drop(e),
        },
    }
}

/// The outcome is what it should be.
pub open spec fn comes_to(r: Inbound, v: InboundView) -> bool {
    match (r, v) {
        (Inbound::Ignore(e), InboundView::Ignore(m)) => e.kind() == ErrorKind::Signaling
            && e.text() == m,
        (Inbound::ServerAddrs(b), InboundView::ServerAddrs(body)) => buffer::bytes_content(b)
            == body,
        (Inbound::Drop(m), InboundView::Drop(e)) => m@ == e.text(),
        (Inbound::Write(w), InboundView::Write(v)) => datagram::written(w@) == v,
        _ => false,
    }
}

/// Takes up a datagram from the server. A packet with metadata is turned into plain packets
/// unless the local device takes metadata.
pub fn take_datagram(dgram: &Bytes, local_gso_enabled: bool, arena: &mut BytesMut) -> (r: Inbound)
    requires
        buffer::bytes_content(*dgram).len() <= isize::MAX,
        buffer::buffer_content(*old(arena)).len() == 0,
    ensures
        buffer::buffer_content(*final(arena)).len() == 0,
        match datagram::received(buffer::bytes_content(*dgram)) {
            datagram::Received::Refused(m) => {
                &&& r is Ignore
                &&& r->Ignore_0.kind() == ErrorKind::Signaling
                &&& r->Ignore_0.text() == m
            },
            datagram::Received::ServerAddrs(body) => {
                &&& r is ServerAddrs
                &&& buffer::bytes_content(r->ServerAddrs_0) == body
            },
            datagram::Received::Packet { offload, at } => match datagram::writes_of(
                offload,
                buffer::bytes_content(*dgram).skip(at),
                local_gso_enabled,
            ) {
                Ok(w) => r is Write && datagram::written(r->Write_0@) == w,
                Err(e) => r is Drop && r->Drop_0@ == e.text(),
            },
        },
        comes_to(r, inbound(buffer::bytes_content(*dgram), local_gso_enabled)),
{
    match open_datagram(dgram) {
        Opened::Refused(e) => Inbound::Ignore(e),
        Opened::ServerAddrs(body) => Inbound::ServerAddrs(body),
        Opened::Packet { offload, at } => match tun_writes(
            dgram,
            offload,
            at,
            local_gso_enabled,
            arena,
        ) {
            Ok(w) => Inbound::Write(w),
            Err(m) => Inbound::Drop(m),
        },
    }
}

/// The writes to the TUN device that failed in a row.
#[derive(Debug, Clone, Copy, PartialEq, Eq, Structural)]
pub struct TunWriteFailures {
    pub consecutive: u32,
}

/// The failures that stand after a write.
pub open spec fn failures_after(consecutive: u32, result: Result<(), VpnError>) -> int {
    match result {
        Ok(()) => 0,
        Err(_) => consecutive + 1,
    }
}

impl TunWriteFailures {
    /// No failure yet.
    pub fn new() -> (f: Self)
        ensures
            f == (TunWriteFailures { consecutive: 0 }),
    {
        TunWriteFailures { consecutive: 0 }
    }

    /// Notes the result of a write, and returns why the tunnel has to end once too many failed
    /// in a row. A write that succeeds starts the count again.
    pub fn note(&mut self, result: Result<(), VpnError>) -> (reason: Option<String>)
        requires
            old(self).consecutive < MAX_TUN_WRITE_FAILURES,
        ensures
            final(self).consecutive == failures_after(old(self).consecutive, result),
            reason is Some <==> final(self).consecutive >= MAX_TUN_WRITE_FAILURES,
            reason is Some ==> reason->0@ == "TUN write failures exceeded: "@
                + result->Err_0.text(),
    {
        match result {
            Ok(()) => {
                self.consecutive = 0;
                None
            },
            Err(e) => {
                self.consecutive = self.consecutive + 1;
                if self.consecutive >= MAX_TUN_WRITE_FAILURES {
                    let mut s = "TUN write failures exceeded: ".to_owned();
                    s.append(e.message().as_str());
                    return Some(s);
                }
                None
            },
        }
    }
}

/// The failures that stand after a list of writes, if the tunnel survived them.
pub open spec fn failures_survived(results: Seq<Result<(), VpnError>>) -> Option<int>
    decreases results.len(),
{
    if results.len() == 0 {
        Some(0)
    } else {
        match failures_survived(results.drop_last()) {
            Some(n) => {
                let now = match results.last() {
                    Ok(()) => 0int,
                    Err(_) => n + 1,
                };
                if now < MAX_TUN_WRITE_FAILURES {
                    Some(now)
                } else {
                    None
                }
            },
            None => None,
        }
    }
}

/// The last `n` results are failures.
pub open spec fn fails_at_end(results: Seq<Result<(), VpnError>>, n: int) -> bool {
    &&& 0 <= n <= results.len()
    &&& forall|k: int| results.len() - n <= k < results.len() ==> (#[trigger] results[k]) is Err
}

/// A tunnel ends over its writes exactly when as many as allowed failed one right after the
/// other; failures with a success in between never add up.
pub proof fn law_only_a_run_of_failures_ends_the_tunnel(results: Seq<Result<(), VpnError>>)
    ensures
        failures_survived(results) is None <==> exists|k: int|
            0 <= k <= results.len() && #[trigger] fails_at_end(
                results.take(k),
                MAX_TUN_WRITE_FAILURES as int,
            ),
        failures_survived(results) matches Some(n) ==> {
            &&& fails_at_end(results, n)
            &&& n < results.len() ==> results[results.len() - n - 1] is Ok
        },
    decreases results.len(),
{
    let max = MAX_TUN_WRITE_FAILURES as int;
    if results.len() > 0 {
        let head = results.drop_last();
        law_only_a_run_of_failures_ends_the_tunnel(head);
        assert forall|k: int| 0 <= k < results.len() implies #[trigger] results.take(k)
            == head.take(k) by {
            assert(results.take(k) =~= head.take(k));
        }
        assert(results.take(results.len() as int) =~= results);
        match failures_survived(head) {
            None => {
                let k = choose|k: int|
                    0 <= k <= head.len() && #[trigger] fails_at_end(head.take(k), max);
                assert(fails_at_end(results.take(k), max));
            },
            Some(n) => {
                if results.last() is Err {
                    assert(fails_at_end(results, n + 1)) by {
                        assert forall|k: int|
                            results.len() - (n + 1) <= k < results.len() implies (
                        #[trigger] results[k]) is Err by {
                            if k < head.len() {
                                assert(head[k] == results[k]);
                            }
                        }
                    }
                    if n < head.len() {
                        assert(head[head.len() - n - 1] == results[results.len() - (n + 1) - 1]);
                    }
                }
                if failures_survived(results) is None {
                    assert(fails_at_end(results.take(results.len() as int), max));
                } else {
                    assert forall|k: int| 0 <= k <= results.len() implies !#[trigger] fails_at_end(
                        results.take(k),
                        max,
                    ) by {
                        if k < results.len() {
                            assert(results.take(k) == head.take(k));
                        } else if results.last() is Ok {
                            assert(results[results.len() - 1] is Ok);
                        } else if n + 1 < results.len() {
                            assert(results[results.len() - (n + 1) - 1] is Ok);
                        }
                    }
                }
            },
        }
    } else {
        assert forall|k: int| 0 <= k <= results.len() implies !#[trigger] fails_at_end(
            results.take(k),
            max,
        ) by {}
    }
}

/// Consecutive packets of a queue that go to the TUN device together.
#[derive(Debug, Clone, Copy, PartialEq, Eq, Structural)]
pub enum WriteRun {
    /// The packets from `start` up to `end`, none of which has metadata.
    Batch { start: usize, end: usize },
    /// One packet with metadata.
    Single(usize),
}

impl WriteRun {
    /// The first packet of the run.
    pub open spec fn first(self) -> int {
        match self {
            WriteRun::Batch { start, .. } => start as int,
            WriteRun::Single(i) => i as int,
        }
    }

    /// The packet behind the run.
    pub open spec fn beyond(self) -> int {
        match self {
            WriteRun::Batch { end, .. } => end as int,
            WriteRun::Single(i) => i + 1,
        }
    }
}

/// The runs lie one behind the other, from the first packet up to `n`.
pub open spec fn in_line(runs: Seq<WriteRun>, n: int) -> bool {
    &&& runs.len() == 0 ==> n == 0
    &&& runs.len() > 0 ==> runs[0].first() == 0 && runs.last().beyond() == n
    &&& forall|k: int|
        0 <= k < runs.len() - 1 ==> (#[trigger] runs[k]).beyond() == runs[k + 1].first()
}

/// A run holds what its kind says: packets without metadata, or one with it.
pub open spec fn right_kind(run: WriteRun, has_metadata: Seq<bool>) -> bool {
    match run {
        WriteRun::Batch { start, end } => {
            &&& start < end <= has_metadata.len()
            &&& forall|i: int| start <= i < end ==> !(#[trigger] has_metadata[i])
        },
        WriteRun::Single(i) => i < has_metadata.len() && has_metadata[i as int],
    }
}

/// The runs that a queue is written in: every packet is in one of them, in order, and batches
/// are as long as they can be.
pub open spec fn runs_of(runs: Seq<WriteRun>, has_metadata: Seq<bool>) -> bool {
    &&& in_line(runs, has_metadata.len() as int)
    &&& forall|k: int| 0 <= k < runs.len() ==> right_kind(#[trigger] runs[k], has_metadata)
    &&& forall|k: int|
        0 <= k < runs.len() - 1 ==> !((#[trigger] runs[k]) is Batch && runs[k + 1] is Batch)
}

/// Splits a queue of packets into the runs that it is written in.
///
/// Packets without metadata go together, so that segments of a flow can be coalesced into one
/// write; one with metadata goes alone, behind those before it.
pub fn plan_write_runs(has_metadata: &[bool]) -> (runs: Vec<WriteRun>)
    ensures
        runs_of(runs@, has_metadata@),
{
    let mut runs: Vec<WriteRun> = Vec::new();
    let mut start: usize = 0;
    let mut i: usize = 0;
    while i < has_metadata.len()
        invariant
            start <= i <= has_metadata@.len(),
            forall|k: int| start <= k < i ==> !(#[trigger] has_metadata@[k]),
            in_line(runs@, start as int),
            forall|k: int| 0 <= k < runs@.len() ==> right_kind(#[trigger] runs@[k], has_metadata@),
            forall|k: int|
                0 <= k < runs@.len() - 1 ==> !((#[trigger] runs@[k]) is Batch
                    && runs@[k + 1] is Batch),
            runs@.len() > 0 ==> runs@.last() is Single,
        decreases has_metadata@.len() - i,
    {
        if has_metadata[i] {
            if start < i {
                runs.push(WriteRun::Batch { start, end: i });
            }
            runs.push(WriteRun::Single(i));
            start = i + 1;
        }
        i += 1;
    }
    if start < i {
        runs.push(WriteRun::Batch { start, end: i });
    }
    runs
}

/// There is one way only to split a queue into runs.
pub proof fn law_runs_are_unique(a: Seq<WriteRun>, b: Seq<WriteRun>, has_metadata: Seq<bool>)
    requires
        runs_of(a, has_metadata),
        runs_of(b, has_metadata),
    ensures
        a == b,
{
    lemma_runs_agree(a, b, has_metadata, if a.len() <= b.len() {
        a.len()
    } else {
        b.len()
    });
    if a.len() < b.len() {
        if a.len() > 0 {
            assert(a[a.len() - 1] == b[a.len() - 1]);
            assert(b[a.len() - 1].beyond() == b[a.len() as int].first());
        }
        assert(right_kind(b[a.len() as int], has_metadata));
    } else if b.len() < a.len() {
        if b.len() > 0 {
            assert(a[b.len() - 1] == b[b.len() - 1]);
            assert(a[b.len() - 1].beyond() == a[b.len() as int].first());
        }
        assert(right_kind(a[b.len() as int], has_metadata));
    }
    assert(a =~= b);
}

/// The first `n` runs of two ways to split a queue are the same.
proof fn lemma_runs_agree(a: Seq<WriteRun>, b: Seq<WriteRun>, has_metadata: Seq<bool>, n: nat)
    requires
        runs_of(a, has_metadata),
        runs_of(b, has_metadata),
        n <= a.len(),
        n <= b.len(),
    ensures
        forall|k: int| 0 <= k < n ==> a[k] == b[k],
    decreases n,
{
    if n > 0 {
        lemma_runs_agree(a, b, has_metadata, (n - 1) as nat);
        let k = n - 1;
        if k > 0 {
            assert(a[k - 1] == b[k - 1]);
            assert(a[k - 1].beyond() == a[k].first());
            assert(b[k - 1].beyond() == b[k].first());
        }
        assert(a[k].first() == b[k].first());
        assert(right_kind(a[k], has_metadata) && right_kind(b[k], has_metadata));
        lemma_batch_is_maximal(a, b, has_metadata, k);
        lemma_batch_is_maximal(b, a, has_metadata, k);
    }
}

/// A batch is no longer than another that starts with the same packet.
proof fn lemma_batch_is_maximal(
    a: Seq<WriteRun>,
    b: Seq<WriteRun>,
    has_metadata: Seq<bool>,
    k: int,
)
    requires
        runs_of(a, has_metadata),
        runs_of(b, has_metadata),
        0 <= k < a.len(),
        k < b.len(),
        a[k].first() == b[k].first(),
    ensures
        a[k] is Batch <==> b[k] is Batch,
        b[k].beyond() <= a[k].beyond(),
{
    assert(right_kind(a[k], has_metadata) && right_kind(b[k], has_metadata));
    if a[k] is Batch && b[k] is Batch && a[k].beyond() < b[k].beyond() {
        assert(k + 1 < a.len());
        assert(a[k].beyond() == a[k + 1].first());
        assert(right_kind(a[k + 1], has_metadata));
        assert(!has_metadata[a[k].beyond()]);
        assert(a[k + 1] is Batch);
    }
}

/// The tasks that a tunnel consists of.
#[derive(Debug, Clone, Copy, PartialEq, Eq, Structural)]
pub enum TunnelTask {
    Outbound,
    Inbound,
    Liveness,
    TunWriter,
}

impl TunnelTask {
    /// What the task is called.
    pub open spec fn label(self) -> Seq<char> {
        match self {
            TunnelTask::Outbound => "outbound"@,
            TunnelTask::Inbound => "inbound"@,
            TunnelTask::Liveness => "liveness"@,
            TunnelTask::TunWriter => "tun-writer"@,
        }
    }

    /// What the task is called.
    pub fn name(&self) -> (s: &'static str)
        ensures
            s@ == self.label(),
    {
        match self {
            TunnelTask::Outbound => "outbound",
            TunnelTask::Inbound => "inbound",
            TunnelTask::Liveness => "liveness",
            TunnelTask::TunWriter => "tun-writer",
        }
    }
}

/// How a task ended.
#[derive(Debug)]
pub enum TaskEnd {
    /// It gave a reason.
    Reason(String),
    /// It came to its end without one.
    Ended,
    /// It was cancelled, because another one ended.
    Cancelled,
    /// It panicked.
    Panicked(String),
    /// It could not be waited for.
    Failed(String),
}

/// What the end of a task says about the end of the tunnel; being cancelled says nothing.
pub open spec fn end_reason(task: TunnelTask, end: TaskEnd) -> Option<Seq<char>> {
    match end {
        TaskEnd::Reason(m) => Some(m@),
        TaskEnd::Ended => Some(task.label() + " task ended"@),
        TaskEnd::Cancelled => None,
        TaskEnd::Panicked(m) => Some(task.label() + " task panicked: "@ + m@),
        TaskEnd::Failed(m) => Some(task.label() + " task failed: "@ + m@),
    }
}

/// The reasons of the first tasks, joined; `None` if there is none.
pub open spec fn joined_reasons(ends: Seq<(TunnelTask, TaskEnd)>) -> Option<Seq<char>>
    decreases ends.len(),
{
    if ends.len() == 0 {
        None
    } else {
        let (task, end) = ends.last();
        match (joined_reasons(ends.drop_last()), end_reason(task, end)) {
            (None, r) => r,
            (Some(head), None) => Some(head),
            (Some(head), Some(r)) => Some(head + "; "@ + r),
        }
    }
}

/// Why the tunnel ended.
pub open spec fn disconnect_text(ends: Seq<(TunnelTask, TaskEnd)>) -> Seq<char> {
    match joined_reasons(ends) {
        Some(r) => r,
        None => "all tasks cancelled"@,
    }
}

/// Renders what the end of a task says about the end of the tunnel.
fn render_end(task: TunnelTask, end: &TaskEnd) -> (r: Option<String>)
    ensures
        r is Some <==> end_reason(task, *end) is Some,
        r is Some ==> r->0@ == end_reason(task, *end)->0,
{
    match end {
        TaskEnd::Reason(m) => Some(m.clone()),
        TaskEnd::Ended => {
            let mut s = task.name().to_owned();
            s.append(" task ended");
            Some(s)
        },
        TaskEnd::Cancelled => None,
        TaskEnd::Panicked(m) => {
            let mut s = task.name().to_owned();
            s.append(" task panicked: ");
            s.append(m.as_str());
            Some(s)
        },
        TaskEnd::Failed(m) => {
            let mut s = task.name().to_owned();
            s.append(" task failed: ");
            s.append(m.as_str());
            Some(s)
        },
    }
}

/// The error that a tunnel ends with: whichever task ended first, the connection is lost, and
/// the reasons of all the tasks that gave one say why.
pub fn tunnel_ended(ends: &[(TunnelTask, TaskEnd)]) -> (e: VpnError)
    ensures
        e is ConnectionLost,
        e.text() == disconnect_text(ends@),
{
    let mut reason: Option<String> = None;
    let mut i: usize = 0;
    assert(ends@.take(0) =~= Seq::empty());
    while i < ends.len()
        invariant
            i <= ends@.len(),
            reason is Some <==> joined_reasons(ends@.take(i as int)) is Some,
            reason is Some ==> reason->0@ == joined_reasons(ends@.take(i as int))->0,
        decreases ends@.len() - i,
    {
        proof {
            assert(ends@.take(i + 1).drop_last() =~= ends@.take(i as int));
        }
        let more = render_end(ends[i].0, &ends[i].1);
        reason = match (reason, more) {
            (None, m) => m,
            (Some(head), None) => Some(head),
            (Some(head), Some(m)) => {
                let mut s = head;
                s.append("; ");
                s.append(m.as_str());
                Some(s)
            },
        };
        i += 1;
    }
    assert(ends@.take(i as int) =~= ends@);
    match reason {
        Some(r) => VpnError::ConnectionLost(r),
        None => VpnError::ConnectionLost("all tasks cancelled".to_owned()),
    }
}

/// What became of a datagram that was sent.
#[derive(Debug)]
pub enum DatagramSent {
    Sent,
    /// The path takes smaller datagrams by now; the datagram is lost like any packet that is
    /// too large for its path.
    TooLarge,
    /// The connection is of no use any more.
    Failed(String),
}

/// Why sending stops after a datagram, if it does: one that is too large is passed over.
pub fn send_stops(result: DatagramSent) -> (reason: Option<String>)
    ensures
        reason is Some <==> result is Failed,
        reason is Some ==> reason->0@ == "QUIC datagram send error: "@ + result->Failed_0@,
{
    match result {
        DatagramSent::Sent => None,
        DatagramSent::TooLarge => None,
        DatagramSent::Failed(m) => {
            let mut s = "QUIC datagram send error: ".to_owned();
            s.append(m.as_str());
            Some(s)
        },
    }
}

/// A frame that can be read goes out, unless it is one of the tunnel's own transport. Where the
/// device gives metadata it goes out at once, with it, and nothing is held back. Elsewhere it
/// goes through the table, and every flow stays in order.
pub proof fn law_outbound_keeps_every_flow(
    table: gro::Pending,
    frame: Seq<u8>,
    ports: Set<u16>,
    k: gro::TcpFlowKey,
)
    requires
        flow_order::sorted_by_flow(table),
        frame.len() > 0,
        !packet::uses_port(frame, ports),
    ensures
        ({
            let (v, after) = outbound(false, table, frame, ports);
            match v {
                OutboundView::Send { outputs, offload, packet, pass_through } => {
                    let passed = if pass_through {
                        flow_order::packet_events(packet, k)
                    } else {
                        Seq::empty()
                    };
                    &&& offload is None
                    &&& packet == frame
                    &&& flow_order::sorted_by_flow(after)
                    &&& flow_order::outgoing(outputs, k) + passed + flow_order::held(after, k)
                        == flow_order::held(table, k) + flow_order::packet_events(frame, k)
                },
                _ => false,
            }
        }),
{
    flow_order::law_push_keeps_every_flow(table, frame, k);
}

/// What becomes of a frame: it is refused exactly if it cannot be split, kept back exactly if its
/// packet uses a port of the tunnel's own, and sent otherwise, with the packet and the metadata
/// that were in it. Only a frame that is sent without headers enabled touches the table.
pub proof fn law_outbound_sends_what_it_reads(
    vnet_hdr_enabled: bool,
    table: gro::Pending,
    frame: Seq<u8>,
    ports: Set<u16>,
)
    ensures
        ({
            let (v, after) = outbound(vnet_hdr_enabled, table, frame, ports);
            let read = virtio::split_frame(frame, vnet_hdr_enabled);
            let own = packet::uses_port(read->Ok_0.1, ports);
            &&& v is Unreadable <==> read is Err
            &&& v is OwnTransport <==> read is Ok && own
            &&& v is Send <==> read is Ok && !own
            &&& vnet_hdr_enabled || !(v is Send) ==> after == table
            &&& v matches OutboundView::Send { outputs, offload, packet, pass_through } ==> {
                &&& read == Ok::<(Option<VirtioNetHdr>, Seq<u8>), OffloadError>((offload, packet))
                &&& vnet_hdr_enabled ==> outputs.len() == 0 && pass_through
            }
        }),
{
}

/// Counting write results one by one is judging them all: a success starts the count again, a
/// failure adds one, and the tunnel is given up on the tenth in a row.
pub proof fn law_failures_are_counted(
    results: Seq<Result<(), VpnError>>,
    next: Result<(), VpnError>,
    consecutive: u32,
)
    requires
        failures_survived(results) == Some(consecutive as int),
    ensures
        next is Ok ==> failures_after(consecutive, next) == 0,
        next is Err ==> failures_after(consecutive, next) == consecutive + 1,
        failures_survived(results.push(next)) == (if failures_after(consecutive, next) < 10 {
            Some(failures_after(consecutive, next))
        } else {
            None
        }),
{
    assert(results.push(next).drop_last() =~= results);
}

/// The reasons for which a tunnel ended are told in order and separated alike, however the tasks
/// are grouped; a task that was cancelled tells none, and of none nothing is told.
pub proof fn law_reasons_are_told_in_order(
    a: Seq<(TunnelTask, TaskEnd)>,
    b: Seq<(TunnelTask, TaskEnd)>,
    task: TunnelTask,
    end: TaskEnd,
)
    ensures
        joined_reasons(Seq::empty()) is None,
        joined_reasons(seq![(task, end)]) == end_reason(task, end),
        end_reason(task, end) is None <==> end is Cancelled,
        match (joined_reasons(a), joined_reasons(b)) {
            (None, r) => joined_reasons(a + b) == r,
            (Some(x), None) => joined_reasons(a + b) == Some(x),
            (Some(x), Some(y)) => joined_reasons(a + b) == Some(x + "; "@ + y),
        },
    decreases b.len(),
{
    assert(seq![(task, end)].drop_last() =~= Seq::<(TunnelTask, TaskEnd)>::empty());
    reveal_with_fuel(joined_reasons, 2);
    if b.len() == 0 {
        assert(a + b =~= a);
    } else {
        assert((a + b).drop_last() =~= a + b.drop_last());
        law_reasons_are_told_in_order(a, b.drop_last(), task, end);
        match (joined_reasons(a), joined_reasons(b.drop_last()), end_reason(b.last().0, b.last().1)) {
            (Some(x), Some(y), Some(z)) => {
                assert((x + "; "@ + y) + "; "@ + z =~= x + "; "@ + (y + "; "@ + z));
            },
            _ => {},
        }
    }
}

/// A packet that was put into a datagram comes out of it for the TUN device: as it is if it has
/// no metadata or the device takes it, and otherwise as the plain packets that it stands for. A
/// message with the server's addresses comes out as it was put in.
pub proof fn law_packets_reach_the_device(
    offload: Option<VirtioNetHdr>,
    p: Seq<u8>,
    gso: bool,
    message: Seq<u8>,
)
    requires
        datagram::carries(p),
    ensures
        inbound(datagram::server_addrs_datagram(message), gso) == InboundView::ServerAddrs(message),
        ({
            let v = inbound(datagram::ip_datagram(offload, p), gso);
            let e = segment::plain_emission(offload->0, p);
            &&& offload is None ==> v == InboundView::Write(seq![(p, None::<VirtioNetHdr>)])
            &&& offload is Some && gso ==> v == InboundView::Write(
                seq![(p, datagram::carried(offload))],
            )
            &&& offload is Some && !gso && offload->0.num_buffers == 0 && e.error is None ==> {
                &&& v is Write
                &&& v->Write_0.len() == e.packets.len()
                &&& forall|k: int|
                    0 <= k < e.packets.len() ==> (#[trigger] v->Write_0[k]).0 == e.packets[k]
                        && v->Write_0[k].1 is None
            }
            &&& offload is Some && !gso && offload->0.num_buffers == 0 && e.error is Some ==> v
                is Drop
        }),
{
    datagram::law_datagram_round_trip(offload, p);
    datagram::law_server_addrs_datagram_round_trip(message);
    datagram::law_writes_stand_for_the_packet(datagram::carried(offload), p, gso);
    if offload is Some && offload->0.num_buffers == 0 {
        assert(datagram::carried(offload) == offload);
    }
}

/// The runs of a batch cover every packet once and in order: one with metadata alone, the others
/// in runs as long as can be.
pub proof fn law_runs_cover_the_batch(runs: Seq<WriteRun>, has_metadata: Seq<bool>, k: int)
    requires
        runs_of(runs, has_metadata),
        0 <= k < runs.len(),
    ensures
        ({
            let first = runs[k].first();
            let beyond = runs[k].beyond();
            &&& 0 <= first < beyond <= has_metadata.len()
            &&& k == 0 ==> first == 0
            &&& k > 0 ==> first == runs[k - 1].beyond()
            &&& k == runs.len() - 1 ==> beyond == has_metadata.len()
            &&& runs[k] is Single ==> beyond == first + 1 && has_metadata[first]
            &&& runs[k] is Batch ==> {
                &&& forall|i: int| first <= i < beyond ==> !(#[trigger] has_metadata[i])
                &&& beyond < has_metadata.len() ==> has_metadata[beyond]
                &&& first > 0 ==> has_metadata[first - 1]
            }
        }),
{
    assert(right_kind(runs[k], has_metadata));
    if k > 0 {
        assert(right_kind(runs[k - 1], has_metadata));
        assert(runs[k - 1].beyond() == runs[k].first());
        assert(!(runs[k - 1] is Batch && runs[k - 1 + 1] is Batch));
    }
    if k < runs.len() - 1 {
        assert(right_kind(runs[k + 1], has_metadata));
        assert(runs[k].beyond() == runs[k + 1].first());
        assert(!(runs[k] is Batch && runs[k + 1] is Batch));
    }
}

/// What is told of a frame is what becomes of it: the packet and the metadata that were in it,
/// what goes out before it, and whether it goes out itself.
pub proof fn law_outbound_is_told(o: Outbound<'_>, v: OutboundView)
    requires
        shows(o, v),
    ensures
        o is Unreadable <==> v is Unreadable,
        o is OwnTransport <==> v is OwnTransport,
        o is Send <==> v is Send,
        match (o, v) {
            (
                Outbound::Send { outputs, offload, packet, pass_through },
                OutboundView::Send { outputs: vo, offload: vf, packet: vp, pass_through: vt },
            ) => {
                &&& packet@ == vp
                &&& offload == vf
                &&& pass_through == vt
                &&& outputs@.len() == vo.len()
                &&& forall|k: int| 0 <= k < vo.len() ==> (#[trigger] outputs@[k])@ == vo[k]
            },
            _ => true,
        },
{
    match (o, v) {
        (
            Outbound::Send { outputs, offload, packet, pass_through },
            OutboundView::Send { outputs: vo, offload: vf, packet: vp, pass_through: vt },
        ) => {
            assert(gro::output_views(outputs@).len() == outputs@.len());
            assert forall|k: int| 0 <= k < vo.len() implies (#[trigger] outputs@[k])@ == vo[k] by {
                assert(gro::output_views(outputs@)[k] == outputs@[k]@);
            }
        },
        _ => {},
    }
}

/// What is told of a datagram is what it comes to.
pub proof fn law_inbound_is_told(r: Inbound, v: InboundView)
    requires
        comes_to(r, v),
    ensures
        r is Ignore <==> v is Ignore,
        r is ServerAddrs <==> v is ServerAddrs,
        r is Drop <==> v is Drop,
        r is Write <==> v is Write,
        r is ServerAddrs ==> buffer::bytes_content(r->ServerAddrs_0) == v->ServerAddrs_0,
        r is Write ==> datagram::written(r->Write_0@) == v->Write_0,
{
}

/// A tunnel that ended is told with the reasons of its tasks, and as cancelled if none has any.
pub proof fn law_disconnect_is_told(ends: Seq<(TunnelTask, TaskEnd)>)
    ensures
        joined_reasons(ends) matches Some(r) ==> disconnect_text(ends) == r,
        joined_reasons(ends) is None ==> disconnect_text(ends) == "all tasks cancelled"@,
        joined_reasons(ends) is None <==> forall|k: int|
            0 <= k < ends.len() ==> (#[trigger] ends[k]).1 is Cancelled,
    decreases ends.len(),
{
    if ends.len() > 0 {
        law_disconnect_is_told(ends.drop_last());
        let n = ends.len() - 1;
        if joined_reasons(ends) is None {
            assert forall|k: int| 0 <= k < ends.len() implies (#[trigger] ends[k]).1
                is Cancelled by {
                if k < n {
                    assert(ends.drop_last()[k] == ends[k]);
                }
            }
        }
        if forall|k: int| 0 <= k < ends.len() ==> (#[trigger] ends[k]).1 is Cancelled {
            assert(ends[n].1 is Cancelled);
            assert forall|k: int| 0 <= k < ends.drop_last().len() implies (
            #[trigger] ends.drop_last()[k]).1 is Cancelled by {
                assert(ends[k].1 is Cancelled);
            }
        }
    }
}

/// Nothing waits for a frame that may never come: as long as payload of any flow is held, the next
/// frame is not waited for.
pub proof fn law_held_payload_is_not_left_waiting(table: gro::Pending, k: gro::TcpFlowKey)
    requires
        flow_order::held(table, k).len() > 0,
    ensures
        mode_for(false, table) is Poll,
{
    assert(gro::has_flow(table, k));
}

/// Where nothing is held, or the device merges by itself, the next frame is waited for.
pub proof fn law_idle_tunnels_wait(vnet_hdr_enabled: bool, table: gro::Pending)
    ensures
        table.len() == 0 || vnet_hdr_enabled ==> mode_for(vnet_hdr_enabled, table) is Wait,
{
}

} // verus!
