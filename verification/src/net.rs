//! Minimal allocation-bounded Ethernet/ARP/IPv4/ICMP/UDP/DNS stack.
//! The default addresses match QEMU's user-mode network (SLIRP).
pub mod dns;
pub mod frames;
pub mod wire;

use vstd::prelude::*;
use crate::net::dns::{ip_at, spec_dns_answer, dns_answer};
use crate::net::frames::{
    arp_reply_frame, arp_request_frame, dns_query_frame, echo_reply_fits, echo_reply_frame,
    echo_reply_possible, echo_reply_fits_at, echo_reply_at, gateway_ip, gateway_ip_address, local_ip, local_ip_address, spec_arp_reply,
    spec_arp_request, spec_dns_query, spec_echo_reply, lemma_arp_reply_layout, lemma_echo_reply_layout, echo_reply_length,
};
use crate::net::wire::{be16, bytes_equal, ipv4_header_length, read_be16};

verus! {

/// A network interface card: the driver side of the stack.
pub trait Nic {
    /// The frames handed to the device so far, in order, each with whether
    /// the device queued it.
    ///
    /// A device verified by Verus overrides this with its own record, as the
    /// contract of `transmit` asks. The empty default lets a device written
    /// outside Verus, which keeps no ghost state, implement the trait: the
    /// compiled trait keeps every spec method, and one without a body would
    /// have to be written by each such device. Verus never reads the default
    /// for a device it does not know.
    open spec fn sent_frames(&self) -> Seq<(Seq<u8>, bool)> {
        Seq::empty()
    }

    /// Each request for a received frame so far, in order: the length of
    /// the buffer offered, and the frame the device put in it, if it had
    /// one. The default is empty for the reason given at `sent_frames`.
    open spec fn received_frames(&self) -> Seq<(nat, Option<Seq<u8>>)> {
        Seq::empty()
    }

    fn mac_address(&self) -> [u8; 6];

    /// Copies the next received frame into the front of `packet` and
    /// returns its length, which never exceeds the buffer's. Receiving
    /// sends nothing.
    fn receive(&mut self, packet: &mut [u8]) -> (length: Option<usize>)
        ensures
            final(packet)@.len() == old(packet)@.len(),
            length matches Some(n) ==> n <= old(packet)@.len(),
            final(self).sent_frames() == old(self).sent_frames(),
            final(self).received_frames() == old(self).received_frames().push(
                (
                    old(packet)@.len(),
                    match length {
                        Some(n) => Some(final(packet)@.subrange(0, n as int)),
                        None => None,
                    },
                ),
            ),
    ;

    /// Hands one frame to the device; `true` when it was queued.
    fn transmit(&mut self, packet: &[u8]) -> (queued: bool)
        ensures
            final(self).sent_frames() == old(self).sent_frames().push((packet@, queued)),
            final(self).received_frames() == old(self).received_frames(),
    ;
}

/// Something worth reporting that a received frame brought.
#[derive(Clone, Copy, Debug, PartialEq, Eq)]
pub enum Event {
    GatewayResolved,
    IcmpEchoRequest([u8; 4]),
    IcmpEchoReply([u8; 4]),
    DnsAnswer([u8; 4]),
}

pub struct NetworkStack {
    local_mac: [u8; 6],
    gateway_mac: Option<[u8; 6]>,
    received: u64,
    sent: u64,
    dns_sent: bool,
    /// Every frame handed to the device, in order, with whether it was
    /// queued.
    handed: Ghost<Seq<(Seq<u8>, bool)>>,
}

/// The state of the stack.
pub struct NetView {
    pub local_mac: [u8; 6],
    pub gateway_mac: Option<[u8; 6]>,
    pub received: nat,
    pub sent: nat,
    pub dns_sent: bool,
    /// The frames handed to the device so far, in order, each with whether
    /// the device queued it.
    pub handed: Seq<(Seq<u8>, bool)>,
}

/// What a received frame asks of the stack: an event to report, the
/// gateway's address from then on, and a frame to send in answer.
pub struct Reaction {
    pub event: Option<Event>,
    pub gateway_mac: Option<[u8; 6]>,
    pub reply: Option<Seq<u8>>,
    pub reply_is_query: bool,
}

/// A frame that asks nothing.
pub open spec fn quiet(st: NetView) -> Reaction {
    Reaction { event: None, gateway_mac: st.gateway_mac, reply: None, reply_is_query: false }
}

/// The six bytes at `i`.
pub open spec fn mac_at(p: Seq<u8>, i: int) -> [u8; 6] {
    [p[i], p[i + 1], p[i + 2], p[i + 3], p[i + 4], p[i + 5]]
}

/// The reaction to an ARP frame: a request for 10.0.2.15 is answered; a
/// reply from the gateway's address teaches its MAC address and, unless a
/// DNS query was already sent, triggers one.
pub open spec fn arp_reaction(st: NetView, p: Seq<u8>) -> Reaction {
    if p.len() < 42 || p.subrange(14, 20) != seq![0u8, 1, 8, 0, 6, 4] {
        quiet(st)
    } else {
        let operation = be16(p[20], p[21]);
        let sender_mac = mac_at(p, 22);
        let sender_ip = p.subrange(28, 32);
        let target_ip = p.subrange(38, 42);
        if operation == 1 && target_ip == local_ip() {
            Reaction { reply: Some(spec_arp_reply(st.local_mac@, sender_mac@, sender_ip)), ..quiet(st) }
        } else if operation == 2 && sender_ip == gateway_ip() {
            Reaction {
                event: Some(Event::GatewayResolved),
                gateway_mac: Some(sender_mac),
                reply: if st.dns_sent {
                    None
                } else {
                    Some(spec_dns_query(st.local_mac@, sender_mac@))
                },
                reply_is_query: !st.dns_sent,
            }
        } else {
            quiet(st)
        }
    }
}

/// The reaction to an IPv4 packet for 10.0.2.15: an echo request is
/// answered and reported, an echo reply reported, and a DNS response
/// reported with its address. An echo request whose total length ends
/// before its ICMP message asks nothing.
pub open spec fn ipv4_reaction(st: NetView, p: Seq<u8>) -> Reaction {
    if p.len() < 34 || p[14] / 16 != 4 {
        quiet(st)
    } else {
        let header_length = (p[14] % 16) * 4;
        let offset = 14 + header_length;
        let source = ip_at(p, 26);
        if header_length < 20 || offset > p.len() || p.subrange(30, 34) != local_ip() {
            quiet(st)
        } else if p[23] == 1 && p.len() >= offset + 8 {
            if p[offset] == 8 && echo_reply_fits(p, offset) {
                Reaction {
                    event: Some(Event::IcmpEchoRequest(source)),
                    reply: Some(spec_echo_reply(st.local_mac@, p, offset, source@)),
                    ..quiet(st)
                }
            } else if p[offset] == 0 {
                Reaction { event: Some(Event::IcmpEchoReply(source)), ..quiet(st) }
            } else {
                quiet(st)
            }
        } else if p[23] == 17 {
            match spec_dns_answer(p, offset) {
                Some(address) => Reaction { event: Some(Event::DnsAnswer(address)), ..quiet(st) },
                None => quiet(st),
            }
        } else {
            quiet(st)
        }
    }
}

/// The reaction to a received Ethernet frame, by its ethertype.
pub open spec fn reaction(st: NetView, p: Seq<u8>) -> Reaction {
    if p.len() < 14 {
        quiet(st)
    } else if be16(p[12], p[13]) == 0x0806 {
        arp_reaction(st, p)
    } else if be16(p[12], p[13]) == 0x0800 {
        ipv4_reaction(st, p)
    } else {
        quiet(st)
    }
}

/// The state after counting one more received frame.
pub open spec fn counted_in(st: NetView) -> NetView {
    NetView { received: st.received + 1, ..st }
}

/// `new` is `old` after `frame` was handed to the device once: counted as
/// sent exactly when the device queued it, and a queued DNS query
/// (`query`) counts as the query sent.
pub open spec fn handed_once(old: NetView, new: NetView, frame: Seq<u8>, query: bool) -> bool {
    let queued = new.handed.last().1;
    &&& new.handed.len() == old.handed.len() + 1
    &&& new == NetView {
        handed: old.handed.push((frame, queued)),
        sent: old.sent + if queued {
            1nat
        } else {
            0nat
        },
        dns_sent: old.dns_sent || (query && queued),
        ..old
    }
}

/// The device, which had been handed `before`, has been handed `after`:
/// exactly the frames (with its answers) that the stack logged from `old`
/// to `new`, in order.
pub open spec fn device_frames(
    before: Seq<(Seq<u8>, bool)>,
    after: Seq<(Seq<u8>, bool)>,
    old: NetView,
    new: NetView,
) -> bool {
    &&& old.handed.len() <= new.handed.len()
    &&& new.handed.subrange(0, old.handed.len() as int) == old.handed
    &&& after == before + new.handed.subrange(old.handed.len() as int, new.handed.len() as int)
}

/// The device got nothing new when the stack logged nothing new.
pub proof fn lemma_device_nothing(frames: Seq<(Seq<u8>, bool)>, v: NetView, w: NetView)
    requires
        w.handed == v.handed,
    ensures
        device_frames(frames, frames, v, w),
{
    assert(w.handed.subrange(0, v.handed.len() as int) =~= v.handed);
    assert(frames + w.handed.subrange(v.handed.len() as int, w.handed.len() as int) =~= frames);
}

/// What the device got in two steps is what it got in both.
proof fn lemma_device_then(
    f0: Seq<(Seq<u8>, bool)>,
    f1: Seq<(Seq<u8>, bool)>,
    f2: Seq<(Seq<u8>, bool)>,
    v0: NetView,
    v1: NetView,
    v2: NetView,
)
    requires
        device_frames(f0, f1, v0, v1),
        device_frames(f1, f2, v1, v2),
    ensures
        device_frames(f0, f2, v0, v2),
{
    let a = v0.handed.len() as int;
    let b = v1.handed.len() as int;
    let c = v2.handed.len() as int;
    assert(v2.handed.subrange(0, a) =~= v0.handed) by {
        assert forall|i: int| 0 <= i < a implies v2.handed.subrange(0, a)[i] == v0.handed[i] by {
            assert(v2.handed[i] == v2.handed.subrange(0, b)[i]);
            assert(v1.handed[i] == v1.handed.subrange(0, a)[i]);
        }
    }
    assert(v2.handed.subrange(a, c) =~= v1.handed.subrange(a, b) + v2.handed.subrange(b, c)) by {
        assert forall|i: int| 0 <= i < c - a implies v2.handed.subrange(a, c)[i] == (
        v1.handed.subrange(a, b) + v2.handed.subrange(b, c))[i] by {
            if i < b - a {
                assert(v2.handed[a + i] == v2.handed.subrange(0, b)[a + i]);
            }
        }
    }
    assert(f2 =~= f0 + v2.handed.subrange(a, c));
}

/// `new` and `event` are what handling frame `p` in state `old` gives:
/// the reaction's event and gateway, and its reply handed to the device.
pub open spec fn handled(old: NetView, p: Seq<u8>, new: NetView, event: Option<Event>) -> bool {
    let r = reaction(old, p);
    let base = NetView { gateway_mac: r.gateway_mac, ..old };
    &&& event == r.event
    &&& if r.reply is Some {
        handed_once(base, new, r.reply.unwrap(), r.reply_is_query)
    } else {
        new == base
    }
}

/// An ARP request (operation 1) for 10.0.2.15 is answered, to its sender,
/// with a reply that 10.0.2.15 is at the stack's MAC address; it reports
/// nothing and leaves the gateway as it was.
pub proof fn lemma_arp_request_answered(st: NetView, p: Seq<u8>)
    requires
        p.len() >= 42,
        p[12] == 8 && p[13] == 6,
        p.subrange(14, 22) == seq![0u8, 1, 8, 0, 6, 4, 0, 1],
        p.subrange(38, 42) == seq![10u8, 0, 2, 15],
    ensures
        reaction(st, p).event is None,
        reaction(st, p).gateway_mac == st.gateway_mac,
        reaction(st, p).reply matches Some(r) && r.len() == 60 && r.subrange(0, 6) == p.subrange(22, 28)
            && r.subrange(6, 12) == st.local_mac@ && r.subrange(22, 28) == st.local_mac@
            && r.subrange(28, 32) == seq![10u8, 0, 2, 15] && r.subrange(32, 38) == p.subrange(22, 28)
            && r.subrange(38, 42) == p.subrange(28, 32),
{
    assert(p.subrange(14, 20) =~= seq![0u8, 1, 8, 0, 6, 4]) by {
        assert(p.subrange(14, 20) =~= p.subrange(14, 22).subrange(0, 6));
    }
    assert(p[20] == 0 && p[21] == 1) by {
        assert(p[20] == p.subrange(14, 22)[6]);
        assert(p[21] == p.subrange(14, 22)[7]);
    }
    assert(mac_at(p, 22)@ =~= p.subrange(22, 28));
    lemma_arp_reply_layout(st.local_mac@, p.subrange(22, 28), p.subrange(28, 32));
}

/// An ARP reply (operation 2) from 10.0.2.2 teaches the gateway's MAC
/// address, its sender's, and is reported; until a DNS query has been
/// sent, it sends the query to that address.
pub proof fn lemma_gateway_learned(st: NetView, p: Seq<u8>)
    requires
        p.len() >= 42,
        p[12] == 8 && p[13] == 6,
        p.subrange(14, 22) == seq![0u8, 1, 8, 0, 6, 4, 0, 2],
        p.subrange(28, 32) == seq![10u8, 0, 2, 2],
    ensures
        reaction(st, p).event == Some(Event::GatewayResolved),
        reaction(st, p).gateway_mac matches Some(g) && g@ == p.subrange(22, 28),
        st.dns_sent ==> reaction(st, p).reply is None,
        !st.dns_sent ==> reaction(st, p).reply == Some(spec_dns_query(st.local_mac@, p.subrange(22, 28)))
            && reaction(st, p).reply_is_query,
{
    assert(p.subrange(14, 20) =~= seq![0u8, 1, 8, 0, 6, 4]) by {
        assert(p.subrange(14, 20) =~= p.subrange(14, 22).subrange(0, 6));
    }
    assert(p[20] == 0 && p[21] == 2) by {
        assert(p[20] == p.subrange(14, 22)[6]);
        assert(p[21] == p.subrange(14, 22)[7]);
    }
    assert(mac_at(p, 22)@ =~= p.subrange(22, 28));
}

/// An ICMP echo request (type 8) to 10.0.2.15 in an IPv4 packet with a
/// 20-byte header is reported with its source address and answered: the
/// reply goes back to the requester's Ethernet and IPv4 addresses from the
/// stack's, as ICMP type 0.
pub proof fn lemma_echo_request_answered(st: NetView, p: Seq<u8>)
    requires
        p[12] == 8 && p[13] == 0,
        p[14] == 0x45,
        p[23] == 1,
        p.subrange(30, 34) == seq![10u8, 0, 2, 15],
        p[34] == 8,
        42 <= echo_reply_length(p),
        st.local_mac@.len() == 6,
    ensures
        reaction(st, p).event == Some(Event::IcmpEchoRequest([p[26], p[27], p[28], p[29]])),
        reaction(st, p).gateway_mac == st.gateway_mac,
        reaction(st, p).reply matches Some(r) && r.subrange(0, 6) == p.subrange(6, 12) && r.subrange(6, 12)
            == st.local_mac@ && r.subrange(26, 30) == seq![10u8, 0, 2, 15] && r.subrange(30, 34)
            == p.subrange(26, 30) && r[34] == 0,
{
    assert(p[14] / 16 == 4 && (p[14] % 16) * 4 == 20);
    let source = ip_at(p, 26);
    assert(source@ =~= p.subrange(26, 30));
    assert(echo_reply_fits(p, 34));
    lemma_echo_reply_layout(st.local_mac@, p, 34, source@);
}

/// A frame whose EtherType is neither ARP (0x0806) nor IPv4 (0x0800), or
/// that is shorter than an Ethernet header, asks nothing of the stack.
pub proof fn lemma_other_frames_ignored(st: NetView, p: Seq<u8>)
    requires
        p.len() < 14 || !((p[12] == 8 && p[13] == 6) || (p[12] == 8 && p[13] == 0)),
    ensures
        reaction(st, p).event is None,
        reaction(st, p).gateway_mac == st.gateway_mac,
        reaction(st, p).reply is None,
{
    if p.len() >= 14 {
        let a = p[12];
        let b = p[13];
        assert(be16(a, b) == 0x0806 ==> a == 8 && b == 6) by (nonlinear_arith)
            requires
                be16(a, b) == a * 256 + b,
                a < 256,
                b < 256,
        ;
        assert(be16(a, b) == 0x0800 ==> a == 8 && b == 0) by (nonlinear_arith)
            requires
                be16(a, b) == a * 256 + b,
                a < 256,
                b < 256,
        ;
    }
}

/// Once the DNS query was sent, no frame makes the stack send it again,
/// and whatever a frame makes it send keeps the query counted as sent.
pub proof fn lemma_query_sent_once(st: NetView, p: Seq<u8>, new: NetView, event: Option<Event>)
    requires
        st.dns_sent,
        handled(st, p, new, event),
    ensures
        !reaction(st, p).reply_is_query,
        new.dns_sent,
{
}

/// `new` and `event` are what the device's delivery gives in state `old`:
/// nothing happens without a frame or for one shorter than an Ethernet
/// header; otherwise the frame is counted and handled.
pub open spec fn delivered_outcome(delivered: Option<Seq<u8>>, old: NetView, new: NetView, event: Option<Event>) -> bool {
    match delivered {
        Some(frame) => if frame.len() < 14 {
            event is None && new == old
        } else {
            handled(counted_in(old), frame, new, event)
        },
        None => event is None && new == old,
    }
}

impl NetworkStack {
    pub closed spec fn view(&self) -> NetView {
        NetView {
            local_mac: self.local_mac,
            gateway_mac: self.gateway_mac,
            received: self.received as nat,
            sent: self.sent as nat,
            dns_sent: self.dns_sent,
            handed: self.handed@,
        }
    }

    pub fn new(local_mac: [u8; 6]) -> (stack: Self)
        ensures
            stack@ == (NetView {
                local_mac,
                gateway_mac: None,
                received: 0,
                sent: 0,
                dns_sent: false,
                handed: Seq::empty(),
            }),
    {
        Self {
            local_mac,
            gateway_mac: None,
            received: 0,
            sent: 0,
            dns_sent: false,
            handed: Ghost(Seq::empty()),
        }
    }

    /// The stack's IPv4 address, 10.0.2.15.
    pub fn local_ip(&self) -> (ip: [u8; 4])
        ensures
            ip@ == local_ip(),
    {
        local_ip_address()
    }

    /// How many frames were received.
    pub fn received(&self) -> (count: u64)
        ensures
            count == self@.received,
    {
        self.received
    }

    /// How many frames were handed to the device.
    pub fn sent(&self) -> (count: u64)
        ensures
            count == self@.sent,
    {
        self.sent
    }

    /// Whether the gateway's MAC address is known.
    pub fn gateway_ready(&self) -> (ready: bool)
        ensures
            ready == self@.gateway_mac is Some,
    {
        self.gateway_mac.is_some()
    }

    /// Hands `frame` to the device and counts it when queued.
    fn transmit<N: Nic>(&mut self, nic: &mut N, frame: &[u8], query: bool)
        requires
            old(self)@.sent < u64::MAX,
        ensures
            handed_once(old(self)@, final(self)@, frame@, query),
            device_frames(old(nic).sent_frames(), final(nic).sent_frames(), old(self)@, final(self)@),
            final(nic).received_frames() == old(nic).received_frames(),
    {
        let queued = nic.transmit(frame);
        self.handed = Ghost(self.handed@.push((frame@, queued)));
        if queued {
            self.sent = self.sent + 1;
            if query {
                self.dns_sent = true;
            }
        }
        proof {
            let v0 = old(self)@;
            let v1 = self@;
            assert(v1.handed.subrange(0, v0.handed.len() as int) =~= v0.handed);
            assert(v1.handed.subrange(v0.handed.len() as int, v1.handed.len() as int) =~= seq![(frame@, queued)]);
            assert(nic.sent_frames() =~= old(nic).sent_frames() + seq![(frame@, queued)]);
        }
    }

    /// Starts resolving the gateway with an ARP request.
    pub fn start<N: Nic>(&mut self, nic: &mut N)
        requires
            old(self)@.sent < u64::MAX,
        ensures
            device_frames(old(nic).sent_frames(), final(nic).sent_frames(), old(self)@, final(self)@),
            final(nic).received_frames() == old(nic).received_frames(),
            handed_once(old(self)@, final(self)@, spec_arp_request(old(self)@.local_mac@), false),
    {
        proof {
            lemma_device_nothing(nic.sent_frames(), self@, self@);
        }
        self.send_arp_request(nic);
    }

    /// Sends the DNS query, or first asks for the gateway's address.
    pub fn request_dns<N: Nic>(&mut self, nic: &mut N)
        requires
            old(self)@.sent < u64::MAX,
        ensures
            device_frames(old(nic).sent_frames(), final(nic).sent_frames(), old(self)@, final(self)@),
            final(nic).received_frames() == old(nic).received_frames(),
            match old(self)@.gateway_mac {
                Some(gateway) => handed_once(
                    old(self)@,
                    final(self)@,
                    spec_dns_query(old(self)@.local_mac@, gateway@),
                    true,
                ),
                None => handed_once(
                    old(self)@,
                    final(self)@,
                    spec_arp_request(old(self)@.local_mac@),
                    false,
                ),
            },
    {
        proof {
            lemma_device_nothing(nic.sent_frames(), self@, self@);
        }
        if self.gateway_mac.is_none() {
            self.send_arp_request(nic);
        } else {
            self.send_dns_query(nic);
        }
    }

    /// Asks the device for one frame, offering a 2048-byte buffer, and
    /// handles what it delivers.
    pub fn poll<N: Nic>(&mut self, nic: &mut N) -> (event: Option<Event>)
        requires
            old(self)@.received < u64::MAX,
            old(self)@.sent < u64::MAX,
        ensures
            final(nic).received_frames().len() == old(nic).received_frames().len() + 1,
            final(nic).received_frames().drop_last() == old(nic).received_frames(),
            final(nic).received_frames().last().0 == 2048,
            delivered_outcome(final(nic).received_frames().last().1, old(self)@, final(self)@, event),
            device_frames(old(nic).sent_frames(), final(nic).sent_frames(), old(self)@, final(self)@),
    {
        let mut packet: [u8; 2048] = [0u8; 2048];
        let received = nic.receive(&mut packet);
        let ghost log = nic.received_frames();
        let event = self.handle_received(nic, &packet, received);
        assert(log.drop_last() =~= old(nic).received_frames());
        event
    }

    /// Handles what the device handed over: `received` is how many bytes
    /// of `packet` it filled, if it had a frame. Nothing happens without a
    /// frame or for one shorter than an Ethernet header; otherwise the
    /// frame is counted and handled.
    pub fn handle_received<N: Nic>(&mut self, nic: &mut N, packet: &[u8], received: Option<usize>) -> (event: Option<Event>)
        requires
            old(self)@.received < u64::MAX,
            old(self)@.sent < u64::MAX,
            packet@.len() <= 2048,
            received matches Some(n) ==> n <= packet@.len(),
        ensures
            device_frames(old(nic).sent_frames(), final(nic).sent_frames(), old(self)@, final(self)@),
            final(nic).received_frames() == old(nic).received_frames(),
            delivered_outcome(
                match received {
                    Some(n) => Some(packet@.subrange(0, n as int)),
                    None => None,
                },
                old(self)@,
                final(self)@,
                event,
            ),
    {
        proof {
            lemma_device_nothing(nic.sent_frames(), self@, self@);
        }
        let length = match received {
            Some(length) => length,
            None => return None,
        };
        if length < 14 {
            return None;
        }
        self.received = self.received + 1;
        let frame = &packet[0..length];
        self.handle_frame(nic, frame)
    }

    /// Handles one received frame of at least 14 bytes.
    fn handle_frame<N: Nic>(&mut self, nic: &mut N, packet: &[u8]) -> (event: Option<Event>)
        requires
            14 <= packet@.len() <= 2048,
            old(self)@.sent < u64::MAX,
        ensures
            device_frames(old(nic).sent_frames(), final(nic).sent_frames(), old(self)@, final(self)@),
            final(nic).received_frames() == old(nic).received_frames(),
            handled(old(self)@, packet@, final(self)@, event),
    {
        proof {
            lemma_device_nothing(nic.sent_frames(), self@, self@);
        }
        let ethertype = read_be16(packet, 12);
        if ethertype == 0x0806 {
            self.handle_arp(nic, packet)
        } else if ethertype == 0x0800 {
            self.handle_ipv4(nic, packet)
        } else {
            None
        }
    }

    fn handle_arp<N: Nic>(&mut self, nic: &mut N, packet: &[u8]) -> (event: Option<Event>)
        requires
            14 <= packet@.len() <= 2048,
            old(self)@.sent < u64::MAX,
        ensures
            device_frames(old(nic).sent_frames(), final(nic).sent_frames(), old(self)@, final(self)@),
            final(nic).received_frames() == old(nic).received_frames(),
            ({
                let r = arp_reaction(old(self)@, packet@);
                let base = NetView { gateway_mac: r.gateway_mac, ..old(self)@ };
                &&& event == r.event
                &&& if r.reply is Some {
                    handed_once(base, final(self)@, r.reply.unwrap(), r.reply_is_query)
                } else {
                    final(self)@ == base
                }
            }),
    {
        proof {
            lemma_device_nothing(nic.sent_frames(), self@, self@);
        }
        let ghost p = packet@;
        if packet.len() < 42 || !bytes_equal(packet, 14, &[0u8, 1, 8, 0, 6, 4]) {
            return None;
        }
        let operation = read_be16(packet, 20);
        let sender_mac = [packet[22], packet[23], packet[24], packet[25], packet[26], packet[27]];
        let sender_ip = [packet[28], packet[29], packet[30], packet[31]];
        assert(sender_mac == mac_at(p, 22));
        assert(sender_ip@ =~= p.subrange(28, 32));
        if operation == 1 && bytes_equal(packet, 38, &local_ip_address()) {
            self.send_arp_reply(nic, sender_mac, sender_ip);
        }
        if operation == 2 && bytes_equal(packet, 28, &gateway_ip_address()) {
            self.gateway_mac = Some(sender_mac);
            if !self.dns_sent {
                self.send_dns_query(nic);
            }
            return Some(Event::GatewayResolved);
        }
        None
    }

    fn handle_ipv4<N: Nic>(&mut self, nic: &mut N, packet: &[u8]) -> (event: Option<Event>)
        requires
            14 <= packet@.len() <= 2048,
            old(self)@.sent < u64::MAX,
        ensures
            device_frames(old(nic).sent_frames(), final(nic).sent_frames(), old(self)@, final(self)@),
            final(nic).received_frames() == old(nic).received_frames(),
            ({
                let r = ipv4_reaction(old(self)@, packet@);
                let base = NetView { gateway_mac: r.gateway_mac, ..old(self)@ };
                &&& event == r.event
                &&& if r.reply is Some {
                    handed_once(base, final(self)@, r.reply.unwrap(), r.reply_is_query)
                } else {
                    final(self)@ == base
                }
            }),
    {
        proof {
            lemma_device_nothing(nic.sent_frames(), self@, self@);
        }
        let ghost p = packet@;
        if packet.len() < 34 || packet[14] / 16 != 4 {
            return None;
        }
        let header_length = ipv4_header_length(packet[14]);
        if header_length < 20 || 14 + header_length > packet.len() {
            return None;
        }
        let source = [packet[26], packet[27], packet[28], packet[29]];
        assert(source == ip_at(p, 26));
        if !bytes_equal(packet, 30, &local_ip_address()) {
            return None;
        }
        let offset = 14 + header_length;
        if packet[23] == 1 && packet.len() >= offset + 8 {
            let kind = packet[offset];
            if kind == 8 {
                if !echo_reply_possible(packet, offset) {
                    return None;
                }
                self.send_icmp_reply(nic, packet, offset, source);
                Some(Event::IcmpEchoRequest(source))
            } else if kind == 0 {
                Some(Event::IcmpEchoReply(source))
            } else {
                None
            }
        } else if packet[23] == 17 {
            self.parse_dns(packet, offset)
        } else {
            None
        }
    }

    /// Reads the answer to the DNS query in the UDP datagram at `udp`.
    fn parse_dns(&self, packet: &[u8], udp: usize) -> (event: Option<Event>)
        requires
            udp <= packet@.len() <= 2048,
        ensures
            event == match spec_dns_answer(packet@, udp as int) {
                Some(address) => Some(Event::DnsAnswer(address)),
                None => None,
            },
    {
        match dns_answer(packet, udp) {
            Some(address) => Some(Event::DnsAnswer(address)),
            None => None,
        }
    }

    /// Answers an echo request.
    fn send_icmp_reply<N: Nic>(
        &mut self,
        nic: &mut N,
        request: &[u8],
        payload_offset: usize,
        destination_ip: [u8; 4],
    )
        requires
            old(self)@.sent < u64::MAX,
            echo_reply_fits_at(request@, payload_offset),
        ensures
            device_frames(old(nic).sent_frames(), final(nic).sent_frames(), old(self)@, final(self)@),
            final(nic).received_frames() == old(nic).received_frames(),
            handed_once(
                old(self)@,
                final(self)@,
                echo_reply_at(old(self)@.local_mac@, request@, payload_offset, destination_ip@),
                false,
            ),
    {
        proof {
            lemma_device_nothing(nic.sent_frames(), self@, self@);
        }
        let frame = echo_reply_frame(&self.local_mac, request, payload_offset, &destination_ip);
        self.transmit(nic, frame.as_slice(), false);
    }

    fn send_arp_request<N: Nic>(&mut self, nic: &mut N)
        requires
            old(self)@.sent < u64::MAX,
        ensures
            device_frames(old(nic).sent_frames(), final(nic).sent_frames(), old(self)@, final(self)@),
            final(nic).received_frames() == old(nic).received_frames(),
            handed_once(old(self)@, final(self)@, spec_arp_request(old(self)@.local_mac@), false),
    {
        proof {
            lemma_device_nothing(nic.sent_frames(), self@, self@);
        }
        let frame = arp_request_frame(&self.local_mac);
        self.transmit(nic, frame.as_slice(), false);
    }

    fn send_arp_reply<N: Nic>(&mut self, nic: &mut N, target_mac: [u8; 6], target_ip: [u8; 4])
        requires
            old(self)@.sent < u64::MAX,
        ensures
            device_frames(old(nic).sent_frames(), final(nic).sent_frames(), old(self)@, final(self)@),
            final(nic).received_frames() == old(nic).received_frames(),
            handed_once(
                old(self)@,
                final(self)@,
                spec_arp_reply(old(self)@.local_mac@, target_mac@, target_ip@),
                false,
            ),
    {
        proof {
            lemma_device_nothing(nic.sent_frames(), self@, self@);
        }
        let frame = arp_reply_frame(&self.local_mac, &target_mac, &target_ip);
        self.transmit(nic, frame.as_slice(), false);
    }

    /// Sends the DNS query for `example.com` once the gateway is known.
    fn send_dns_query<N: Nic>(&mut self, nic: &mut N)
        requires
            old(self)@.sent < u64::MAX,
        ensures
            device_frames(old(nic).sent_frames(), final(nic).sent_frames(), old(self)@, final(self)@),
            final(nic).received_frames() == old(nic).received_frames(),
            old(self)@.gateway_mac is None ==> final(self)@ == old(self)@,
            old(self)@.gateway_mac matches Some(gateway) ==> handed_once(
                old(self)@,
                final(self)@,
                spec_dns_query(old(self)@.local_mac@, gateway@),
                true,
            ),
    {
        proof {
            lemma_device_nothing(nic.sent_frames(), self@, self@);
        }
        let gateway = match self.gateway_mac {
            Some(mac) => mac,
            None => return ,
        };
        let frame = dns_query_frame(&self.local_mac, &gateway);
        self.transmit(nic, frame.as_slice(), true);
    }
}

} // verus!
