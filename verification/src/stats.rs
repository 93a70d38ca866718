//! The counters of a server.

use vstd::prelude::*;
use crate::underlay::Offered;

verus! {

/// Performance statistics for the VPN server, counted in place of a log line per packet.
#[derive(Debug, Clone, Copy, PartialEq, Eq, Structural)]
pub struct VpnServerStats {
    /// Total packets read from the TUN device.
    pub tun_packets_read: u64,
    /// Packets successfully sent to clients.
    pub packets_to_clients: u64,
    /// Packets dropped due to an unknown destination address.
    pub packets_no_route: u64,
    /// Packets dropped due to an unknown IP version.
    pub packets_unknown_version: u64,
    /// Packets dropped because a client's queue was full.
    pub packets_dropped_full: u64,
    /// Packets that had to wait for room in a client's queue.
    pub packets_backpressure: u64,
    /// Packets received from clients and written to the TUN device.
    pub packets_from_clients: u64,
    /// Packets dropped because the queue of the TUN device was closed, or a write failed.
    pub packets_tun_write_failed: u64,
    /// Packets dropped due to an invalid source address.
    pub packets_spoofed: u64,
    /// Packets dropped because the destination was another VPN client.
    pub packets_inter_client_blocked: u64,
}

/// One of the counters.
#[derive(Debug, Clone, Copy, PartialEq, Eq, Structural)]
pub enum Counter {
    TunPacketsRead,
    PacketsToClients,
    PacketsNoRoute,
    PacketsUnknownVersion,
    PacketsDroppedFull,
    PacketsBackpressure,
    PacketsFromClients,
    PacketsTunWriteFailed,
    PacketsSpoofed,
    PacketsInterClientBlocked,
}

/// All counters at zero.
pub open spec fn no_packets() -> VpnServerStats {
    VpnServerStats {
        tun_packets_read: 0,
        packets_to_clients: 0,
        packets_no_route: 0,
        packets_unknown_version: 0,
        packets_dropped_full: 0,
        packets_backpressure: 0,
        packets_from_clients: 0,
        packets_tun_write_failed: 0,
        packets_spoofed: 0,
        packets_inter_client_blocked: 0,
    }
}

/// What a counter stands at.
pub open spec fn value(s: VpnServerStats, counter: Counter) -> u64 {
    match counter {
        Counter::TunPacketsRead => s.tun_packets_read,
        Counter::PacketsToClients => s.packets_to_clients,
        Counter::PacketsNoRoute => s.packets_no_route,
        Counter::PacketsUnknownVersion => s.packets_unknown_version,
        Counter::PacketsDroppedFull => s.packets_dropped_full,
        Counter::PacketsBackpressure => s.packets_backpressure,
        Counter::PacketsFromClients => s.packets_from_clients,
        Counter::PacketsTunWriteFailed => s.packets_tun_write_failed,
        Counter::PacketsSpoofed => s.packets_spoofed,
        Counter::PacketsInterClientBlocked => s.packets_inter_client_blocked,
    }
}

/// The statistics with `n` more on one counter, which wraps around at its end.
pub open spec fn counted(s: VpnServerStats, counter: Counter, n: u64) -> VpnServerStats {
    match counter {
        Counter::TunPacketsRead => VpnServerStats {
            tun_packets_read: s.tun_packets_read.wrapping_add(n),
            ..s
        },
        Counter::PacketsToClients => VpnServerStats {
            packets_to_clients: s.packets_to_clients.wrapping_add(n),
            ..s
        },
        Counter::PacketsNoRoute => VpnServerStats {
            packets_no_route: s.packets_no_route.wrapping_add(n),
            ..s
        },
        Counter::PacketsUnknownVersion => VpnServerStats {
            packets_unknown_version: s.packets_unknown_version.wrapping_add(n),
            ..s
        },
        Counter::PacketsDroppedFull => VpnServerStats {
            packets_dropped_full: s.packets_dropped_full.wrapping_add(n),
            ..s
        },
        Counter::PacketsBackpressure => VpnServerStats {
            packets_backpressure: s.packets_backpressure.wrapping_add(n),
            ..s
        },
        Counter::PacketsFromClients => VpnServerStats {
            packets_from_clients: s.packets_from_clients.wrapping_add(n),
            ..s
        },
        Counter::PacketsTunWriteFailed => VpnServerStats {
            packets_tun_write_failed: s.packets_tun_write_failed.wrapping_add(n),
            ..s
        },
        Counter::PacketsSpoofed => VpnServerStats {
            packets_spoofed: s.packets_spoofed.wrapping_add(n),
            ..s
        },
        Counter::PacketsInterClientBlocked => VpnServerStats {
            packets_inter_client_blocked: s.packets_inter_client_blocked.wrapping_add(n),
            ..s
        },
    }
}

impl Default for VpnServerStats {
    fn default() -> (s: Self)
        ensures
            s == no_packets(),
    {
        VpnServerStats {
            tun_packets_read: 0,
            packets_to_clients: 0,
            packets_no_route: 0,
            packets_unknown_version: 0,
            packets_dropped_full: 0,
            packets_backpressure: 0,
            packets_from_clients: 0,
            packets_tun_write_failed: 0,
            packets_spoofed: 0,
            packets_inter_client_blocked: 0,
        }
    }
}

/// What is to be done with a packet that was offered to a queue.
#[derive(Debug, Clone, Copy, PartialEq, Eq, Structural)]
pub enum QueueStep {
    /// The packet is done with; the queue goes on.
    Next,
    /// The packet waits for room.
    WaitForRoom,
    /// The queue is closed.
    Closed,
}

/// What follows from offering the packets of a frame to a client's queue.
pub open spec fn frame_offered(
    s: VpnServerStats,
    offered: Offered,
    drop_on_full: bool,
    packets: u64,
) -> (QueueStep, VpnServerStats) {
    match offered {
        Offered::Taken => (QueueStep::Next, counted(s, Counter::PacketsToClients, packets)),
        Offered::Full => if drop_on_full {
            (QueueStep::Next, counted(s, Counter::PacketsDroppedFull, packets))
        } else {
            (QueueStep::WaitForRoom, counted(s, Counter::PacketsBackpressure, packets))
        },
        Offered::Closed => (QueueStep::Closed, s),
    }
}

/// What follows from offering a packet to the queue of the TUN device.
pub open spec fn write_offered(s: VpnServerStats, offered: Offered) -> (
    QueueStep,
    VpnServerStats,
) {
    match offered {
        Offered::Taken => (QueueStep::Next, counted(s, Counter::PacketsFromClients, 1)),
        Offered::Full => (QueueStep::WaitForRoom, s),
        Offered::Closed => (QueueStep::Closed, counted(s, Counter::PacketsTunWriteFailed, 1)),
    }
}

impl VpnServerStats {
    /// Creates new statistics with all counters at zero.
    pub fn new() -> (s: Self)
        ensures
            s == no_packets(),
    {
        Self::default()
    }

    /// Adds to a counter.
    pub fn count(&mut self, counter: Counter, n: u64)
        ensures
            *final(self) == counted(*old(self), counter, n),
    {
        match counter {
            Counter::TunPacketsRead => {
                self.tun_packets_read = self.tun_packets_read.wrapping_add(n);
            },
            Counter::PacketsToClients => {
                self.packets_to_clients = self.packets_to_clients.wrapping_add(n);
            },
            Counter::PacketsNoRoute => {
                self.packets_no_route = self.packets_no_route.wrapping_add(n);
            },
            Counter::PacketsUnknownVersion => {
                self.packets_unknown_version = self.packets_unknown_version.wrapping_add(n);
            },
            Counter::PacketsDroppedFull => {
                self.packets_dropped_full = self.packets_dropped_full.wrapping_add(n);
            },
            Counter::PacketsBackpressure => {
                self.packets_backpressure = self.packets_backpressure.wrapping_add(n);
            },
            Counter::PacketsFromClients => {
                self.packets_from_clients = self.packets_from_clients.wrapping_add(n);
            },
            Counter::PacketsTunWriteFailed => {
                self.packets_tun_write_failed = self.packets_tun_write_failed.wrapping_add(n);
            },
            Counter::PacketsSpoofed => {
                self.packets_spoofed = self.packets_spoofed.wrapping_add(n);
            },
            Counter::PacketsInterClientBlocked => {
                self.packets_inter_client_blocked =
                self.packets_inter_client_blocked.wrapping_add(n);
            },
        }
    }

    /// Counts a packet of a client that was offered to the queue of the TUN device without
    /// waiting. It waits if the queue is full, and is lost if the queue is closed.
    pub fn tun_write_offered(&mut self, offered: Offered) -> (step: QueueStep)
        ensures
            match offered {
                Offered::Taken => {
                    &&& step == QueueStep::Next
                    &&& *final(self) == counted(*old(self), Counter::PacketsFromClients, 1)
                },
                Offered::Full => step == QueueStep::WaitForRoom && *final(self) == *old(self),
                Offered::Closed => {
                    &&& step == QueueStep::Closed
                    &&& *final(self) == counted(*old(self), Counter::PacketsTunWriteFailed, 1)
                },
            },
            (step, *final(self)) == write_offered(*old(self), offered),
    {
        match offered {
            Offered::Taken => {
                self.count(Counter::PacketsFromClients, 1);
                QueueStep::Next
            },
            Offered::Full => QueueStep::WaitForRoom,
            Offered::Closed => {
                self.count(Counter::PacketsTunWriteFailed, 1);
                QueueStep::Closed
            },
        }
    }

    /// Counts a packet of a client that waited for room in the queue of the TUN device.
    pub fn tun_write_waited(&mut self, taken: bool) -> (step: QueueStep)
        ensures
            taken ==> step == QueueStep::Next && *final(self) == counted(
                *old(self),
                Counter::PacketsFromClients,
                1,
            ),
            !taken ==> step == QueueStep::Closed && *final(self) == counted(
                *old(self),
                Counter::PacketsTunWriteFailed,
                1,
            ),
    {
        if taken {
            self.count(Counter::PacketsFromClients, 1);
            QueueStep::Next
        } else {
            self.count(Counter::PacketsTunWriteFailed, 1);
            QueueStep::Closed
        }
    }

    /// Counts a frame of `packets` packets that was offered to the queue of a client without
    /// waiting. Where the queue is full, the frame is dropped or waits, as configured. A closed
    /// queue belongs to a client that is leaving, and counts for nothing.
    pub fn client_frame_offered(&mut self, offered: Offered, drop_on_full: bool, packets: u64) -> (step:
        QueueStep)
        ensures
            match offered {
                Offered::Taken => {
                    &&& step == QueueStep::Next
                    &&& *final(self) == counted(*old(self), Counter::PacketsToClients, packets)
                },
                Offered::Full => if drop_on_full {
                    &&& step == QueueStep::Next
                    &&& *final(self) == counted(*old(self), Counter::PacketsDroppedFull, packets)
                } else {
                    &&& step == QueueStep::WaitForRoom
                    &&& *final(self) == counted(*old(self), Counter::PacketsBackpressure, packets)
                },
                Offered::Closed => step == QueueStep::Closed && *final(self) == *old(self),
            },
            (step, *final(self)) == frame_offered(*old(self), offered, drop_on_full, packets),
    {
        match offered {
            Offered::Taken => {
                self.count(Counter::PacketsToClients, packets);
                QueueStep::Next
            },
            Offered::Full => if drop_on_full {
                self.count(Counter::PacketsDroppedFull, packets);
                QueueStep::Next
            } else {
                self.count(Counter::PacketsBackpressure, packets);
                QueueStep::WaitForRoom
            },
            Offered::Closed => QueueStep::Closed,
        }
    }

    /// Counts a frame that waited for room in the queue of a client.
    pub fn client_frame_waited(&mut self, taken: bool, packets: u64)
        ensures
            *final(self) == (if taken {
                counted(*old(self), Counter::PacketsToClients, packets)
            } else {
                *old(self)
            }),
    {
        if taken {
            self.count(Counter::PacketsToClients, packets);
        }
    }

    /// Counts a write to the TUN device; one that fails does not stop the others.
    pub fn tun_write_done(&mut self, ok: bool)
        ensures
            *final(self) == (if ok {
                *old(self)
            } else {
                counted(*old(self), Counter::PacketsTunWriteFailed, 1)
            }),
    {
        if !ok {
            self.count(Counter::PacketsTunWriteFailed, 1);
        }
    }
}

/// Adding around the end of the range is a sum like any other.
proof fn lemma_wrapping_sums(x: u64, m: u64, n: u64)
    ensures
        x.wrapping_add(m).wrapping_add(n) == x.wrapping_add(n).wrapping_add(m),
        x.wrapping_add(m).wrapping_add(n) == x.wrapping_add(m.wrapping_add(n)),
{
}

/// Counting moves one counter and no other.
proof fn lemma_counted_value(s: VpnServerStats, a: Counter, m: u64, c: Counter)
    ensures
        value(counted(s, a, m), c) == (if c == a {
            value(s, c).wrapping_add(m)
        } else {
            value(s, c)
        }),
{
}

/// Statistics are their counters.
proof fn lemma_same_values(s: VpnServerStats, t: VpnServerStats)
    requires
        forall|c: Counter| #[trigger] value(s, c) == value(t, c),
    ensures
        s == t,
{
    assert(value(s, Counter::TunPacketsRead) == value(t, Counter::TunPacketsRead));
    assert(value(s, Counter::PacketsToClients) == value(t, Counter::PacketsToClients));
    assert(value(s, Counter::PacketsNoRoute) == value(t, Counter::PacketsNoRoute));
    assert(value(s, Counter::PacketsUnknownVersion) == value(t, Counter::PacketsUnknownVersion));
    assert(value(s, Counter::PacketsDroppedFull) == value(t, Counter::PacketsDroppedFull));
    assert(value(s, Counter::PacketsBackpressure) == value(t, Counter::PacketsBackpressure));
    assert(value(s, Counter::PacketsFromClients) == value(t, Counter::PacketsFromClients));
    assert(value(s, Counter::PacketsTunWriteFailed) == value(t, Counter::PacketsTunWriteFailed));
    assert(value(s, Counter::PacketsSpoofed) == value(t, Counter::PacketsSpoofed));
    assert(value(s, Counter::PacketsInterClientBlocked) == value(t, Counter::PacketsInterClientBlocked));
}

/// Counting is a matter of sums: two counts add up, and counts of different counters do not
/// get in each other's way, so that the order in which tasks count is of no account.
pub proof fn law_counts_commute(s: VpnServerStats, a: Counter, m: u64, b: Counter, n: u64)
    ensures
        counted(counted(s, a, m), b, n) == counted(counted(s, b, n), a, m),
        counted(counted(s, a, m), a, n) == counted(s, a, m.wrapping_add(n)),
{
    assert forall|c: Counter| #[trigger]
        value(counted(counted(s, a, m), b, n), c) == value(counted(counted(s, b, n), a, m), c) by {
        lemma_counted_value(s, a, m, c);
        lemma_counted_value(s, b, n, c);
        lemma_counted_value(counted(s, a, m), b, n, c);
        lemma_counted_value(counted(s, b, n), a, m, c);
        lemma_wrapping_sums(value(s, c), m, n);
    }
    lemma_same_values(counted(counted(s, a, m), b, n), counted(counted(s, b, n), a, m));
    assert forall|c: Counter| #[trigger]
        value(counted(counted(s, a, m), a, n), c) == value(counted(s, a, m.wrapping_add(n)), c) by {
        lemma_counted_value(s, a, m, c);
        lemma_counted_value(s, a, m.wrapping_add(n), c);
        lemma_counted_value(counted(s, a, m), a, n, c);
        lemma_wrapping_sums(value(s, c), m, n);
    }
    lemma_same_values(counted(counted(s, a, m), a, n), counted(s, a, m.wrapping_add(n)));
}

/// Counting adds to one counter and leaves every other as it was.
pub proof fn law_counters_are_independent(s: VpnServerStats, a: Counter, n: u64, b: Counter)
    ensures
        value(counted(s, a, n), a) == (value(s, a) + n) % 0x1_0000_0000_0000_0000,
        a != b ==> value(counted(s, a, n), b) == value(s, b),
        value(no_packets(), b) == 0,
{
}

/// Statistics are their counters.
pub proof fn law_statistics_are_their_counters(s: VpnServerStats, t: VpnServerStats)
    requires
        forall|c: Counter| #[trigger] value(s, c) == value(t, c),
    ensures
        s == t,
{
    assert(value(s, Counter::TunPacketsRead) == value(t, Counter::TunPacketsRead));
    assert(value(s, Counter::PacketsToClients) == value(t, Counter::PacketsToClients));
    assert(value(s, Counter::PacketsNoRoute) == value(t, Counter::PacketsNoRoute));
    assert(value(s, Counter::PacketsUnknownVersion) == value(t, Counter::PacketsUnknownVersion));
    assert(value(s, Counter::PacketsDroppedFull) == value(t, Counter::PacketsDroppedFull));
    assert(value(s, Counter::PacketsBackpressure) == value(t, Counter::PacketsBackpressure));
    assert(value(s, Counter::PacketsFromClients) == value(t, Counter::PacketsFromClients));
    assert(value(s, Counter::PacketsTunWriteFailed) == value(t, Counter::PacketsTunWriteFailed));
    assert(value(s, Counter::PacketsSpoofed) == value(t, Counter::PacketsSpoofed));
    assert(value(s, Counter::PacketsInterClientBlocked) == value(
        t,
        Counter::PacketsInterClientBlocked,
    ));
}

/// Packets for a client count once, under what became of them: sent, dropped because the queue is
/// full where that is wanted, or waiting elsewhere. Only a closed queue ends it, and only a full
/// one is waited for.
pub proof fn law_offered_frames_are_counted(
    s: VpnServerStats,
    offered: Offered,
    drop_on_full: bool,
    packets: u64,
    c: Counter,
)
    ensures
        ({
            let (step, t) = frame_offered(s, offered, drop_on_full, packets);
            let counter = match offered {
                Offered::Taken => Some(Counter::PacketsToClients),
                Offered::Full => if drop_on_full {
                    Some(Counter::PacketsDroppedFull)
                } else {
                    Some(Counter::PacketsBackpressure)
                },
                Offered::Closed => None,
            };
            &&& step is Closed <==> offered is Closed
            &&& step is WaitForRoom <==> offered is Full && !drop_on_full
            &&& counter == Some(c) ==> value(t, c) == (value(s, c) + packets)
                % 0x1_0000_0000_0000_0000
            &&& counter != Some(c) ==> value(t, c) == value(s, c)
        }),
{
    law_counters_are_independent(s, Counter::PacketsToClients, packets, c);
    law_counters_are_independent(s, Counter::PacketsDroppedFull, packets, c);
    law_counters_are_independent(s, Counter::PacketsBackpressure, packets, c);
}

/// A packet for the TUN device counts once it is taken, and as failed if the queue is closed; a
/// full queue is waited for.
pub proof fn law_offered_writes_are_counted(s: VpnServerStats, offered: Offered, c: Counter)
    ensures
        ({
            let (step, t) = write_offered(s, offered);
            let counter = match offered {
                Offered::Taken => Some(Counter::PacketsFromClients),
                Offered::Full => None,
                Offered::Closed => Some(Counter::PacketsTunWriteFailed),
            };
            &&& step is Closed <==> offered is Closed
            &&& step is WaitForRoom <==> offered is Full
            &&& counter == Some(c) ==> value(t, c) == (value(s, c) + 1) % 0x1_0000_0000_0000_0000
            &&& counter != Some(c) ==> value(t, c) == value(s, c)
        }),
{
    law_counters_are_independent(s, Counter::PacketsFromClients, 1, c);
    law_counters_are_independent(s, Counter::PacketsTunWriteFailed, 1, c);
}

} // verus!
