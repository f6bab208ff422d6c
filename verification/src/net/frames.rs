//! The Ethernet frames the stack sends: ARP request and reply, ICMP echo
//! reply and the DNS query for `example.com`.
use vstd::prelude::*;
use crate::net::wire::{
    be16, be_bytes, checksum, lemma_checksum_verifies, push_all, push_zeros, read_be16,
    spec_checksum, splice, to_be_bytes, write_at, zeros,
};

verus! {

/// The stack's IPv4 address, 10.0.2.15.
pub open spec fn local_ip() -> Seq<u8> {
    seq![10u8, 0, 2, 15]
}

/// The gateway's IPv4 address, 10.0.2.2.
pub open spec fn gateway_ip() -> Seq<u8> {
    seq![10u8, 0, 2, 2]
}

/// The DNS server's IPv4 address, 10.0.2.3.
pub open spec fn dns_server_ip() -> Seq<u8> {
    seq![10u8, 0, 2, 3]
}

/// The UDP port the DNS query is sent from.
pub const DNS_PORT: u16 = 49152;

pub fn local_ip_address() -> (ip: [u8; 4])
    ensures
        ip@ == local_ip(),
{
    let ip = [10u8, 0, 2, 15];
    assert(ip@ =~= local_ip());
    ip
}

pub fn gateway_ip_address() -> (ip: [u8; 4])
    ensures
        ip@ == gateway_ip(),
{
    let ip = [10u8, 0, 2, 2];
    assert(ip@ =~= gateway_ip());
    ip
}

pub fn dns_server_ip_address() -> (ip: [u8; 4])
    ensures
        ip@ == dns_server_ip(),
{
    let ip = [10u8, 0, 2, 3];
    assert(ip@ =~= dns_server_ip());
    ip
}

/// The ARP payload header for IPv4 over Ethernet with the given operation.
pub open spec fn arp_header(operation: u8) -> Seq<u8> {
    seq![0u8, 1, 8, 0, 6, 4, 0, operation]
}

/// ARP request: "who has the gateway's address? tell 10.0.2.15", broadcast.
pub open spec fn spec_arp_request(local_mac: Seq<u8>) -> Seq<u8> {
    seq![0xffu8, 0xff, 0xff, 0xff, 0xff, 0xff] + local_mac + seq![0x08u8, 0x06] + arp_header(1)
        + local_mac + local_ip() + zeros(6) + gateway_ip() + zeros(18)
}

/// ARP reply to `target`: "10.0.2.15 is at `local_mac`".
pub open spec fn spec_arp_reply(local_mac: Seq<u8>, target_mac: Seq<u8>, target_ip: Seq<u8>) -> Seq<u8> {
    target_mac + local_mac + seq![0x08u8, 0x06] + arp_header(2) + local_mac + local_ip()
        + target_mac + target_ip + zeros(18)
}

/// An ARP request is 60 bytes: broadcast from `local_mac`, asking for
/// 10.0.2.2 on behalf of 10.0.2.15 at `local_mac`, padded with zeros.
pub proof fn lemma_arp_request_layout(local_mac: Seq<u8>)
    requires
        local_mac.len() == 6,
    ensures
        spec_arp_request(local_mac).len() == 60,
        spec_arp_request(local_mac).subrange(0, 6) == seq![0xffu8, 0xff, 0xff, 0xff, 0xff, 0xff],
        spec_arp_request(local_mac).subrange(6, 12) == local_mac,
        spec_arp_request(local_mac).subrange(12, 22) == seq![8u8, 6, 0, 1, 8, 0, 6, 4, 0, 1],
        spec_arp_request(local_mac).subrange(22, 28) == local_mac,
        spec_arp_request(local_mac).subrange(28, 32) == seq![10u8, 0, 2, 15],
        spec_arp_request(local_mac).subrange(38, 42) == seq![10u8, 0, 2, 2],
        forall|i: int| 32 <= i < 38 || 42 <= i < 60 ==> #[trigger] spec_arp_request(local_mac)[i] == 0,
{
    let r = spec_arp_request(local_mac);
    assert(r.subrange(0, 6) =~= seq![0xffu8, 0xff, 0xff, 0xff, 0xff, 0xff]);
    assert(r.subrange(6, 12) =~= local_mac);
    assert(r.subrange(12, 22) =~= seq![8u8, 6, 0, 1, 8, 0, 6, 4, 0, 1]);
    assert(r.subrange(22, 28) =~= local_mac);
    assert(r.subrange(28, 32) =~= seq![10u8, 0, 2, 15]);
    assert(r.subrange(38, 42) =~= seq![10u8, 0, 2, 2]);
}

/// An ARP reply is 60 bytes: to the requester, from `local_mac`,
/// announcing that the stack's own address 10.0.2.15 is at `local_mac`,
/// whatever address was asked about, padded with zeros.
pub proof fn lemma_arp_reply_layout(local_mac: Seq<u8>, target_mac: Seq<u8>, target_ip: Seq<u8>)
    requires
        local_mac.len() == 6,
        target_mac.len() == 6,
        target_ip.len() == 4,
    ensures
        spec_arp_reply(local_mac, target_mac, target_ip).len() == 60,
        spec_arp_reply(local_mac, target_mac, target_ip).subrange(0, 6) == target_mac,
        spec_arp_reply(local_mac, target_mac, target_ip).subrange(6, 12) == local_mac,
        spec_arp_reply(local_mac, target_mac, target_ip).subrange(12, 22) == seq![8u8, 6, 0, 1, 8, 0, 6, 4, 0, 2],
        spec_arp_reply(local_mac, target_mac, target_ip).subrange(22, 28) == local_mac,
        spec_arp_reply(local_mac, target_mac, target_ip).subrange(28, 32) == seq![10u8, 0, 2, 15],
        spec_arp_reply(local_mac, target_mac, target_ip).subrange(32, 38) == target_mac,
        spec_arp_reply(local_mac, target_mac, target_ip).subrange(38, 42) == target_ip,
        forall|i: int| 42 <= i < 60 ==> #[trigger] spec_arp_reply(local_mac, target_mac, target_ip)[i] == 0,
{
    let r = spec_arp_reply(local_mac, target_mac, target_ip);
    assert(r.subrange(0, 6) =~= target_mac);
    assert(r.subrange(6, 12) =~= local_mac);
    assert(r.subrange(12, 22) =~= seq![8u8, 6, 0, 1, 8, 0, 6, 4, 0, 2]);
    assert(r.subrange(22, 28) =~= local_mac);
    assert(r.subrange(28, 32) =~= seq![10u8, 0, 2, 15]);
    assert(r.subrange(32, 38) =~= target_mac);
    assert(r.subrange(38, 42) =~= target_ip);
}

/// The IPv4 header of the DNS query with a zero checksum field.
pub open spec fn dns_ip_header() -> Seq<u8> {
    seq![0x45u8, 0, 0, 57, 0xb1, 0x05, 0x40, 0, 64, 17, 0, 0] + local_ip() + dns_server_ip()
}

/// The DNS question: `example.com`, type A, class IN.
pub open spec fn dns_question() -> Seq<u8> {
    seq![
        7u8, 0x65, 0x78, 0x61, 0x6d, 0x70, 0x6c, 0x65, 3, 0x63, 0x6f, 0x6d, 0, 0, 1, 0, 1,
    ]
}

/// UDP header (port 49152 to 53, length 37, no checksum) and DNS header
/// (id 0xb105, recursion desired, one question).
pub open spec fn dns_udp_and_header() -> Seq<u8> {
    seq![0xc0u8, 0x00, 0, 53, 0, 37, 0, 0, 0xb1, 0x05, 0x01, 0x00, 0, 1, 0, 0, 0, 0, 0, 0]
}

/// The DNS query for `example.com`, sent through the gateway.
pub open spec fn spec_dns_query(local_mac: Seq<u8>, gateway_mac: Seq<u8>) -> Seq<u8> {
    gateway_mac + local_mac + seq![0x08u8, 0x00] + splice(
        dns_ip_header(),
        10,
        be_bytes(spec_checksum(dns_ip_header())),
    ) + dns_udp_and_header() + dns_question()
}

/// The length of the echo reply to `request`: the IPv4 total length plus
/// the Ethernet header, cut to the request and to 1514 bytes.
pub open spec fn echo_reply_length(request: Seq<u8>) -> int {
    let wanted = 14 + be16(request[16], request[17]) as int;
    let capped = if wanted < request.len() {
        wanted
    } else {
        request.len() as int
    };
    if capped < 1514 {
        capped
    } else {
        1514
    }
}

/// The reply buffer after copying the request and rewriting the Ethernet
/// and IPv4 addresses, with a zero IPv4 checksum field.
pub open spec fn echo_reply_readdressed(
    local_mac: Seq<u8>,
    request: Seq<u8>,
    destination_ip: Seq<u8>,
) -> Seq<u8> {
    let n = echo_reply_length(request);
    let copied = request.subrange(0, n) + zeros((1514 - n) as nat);
    splice(
        splice(splice(splice(copied, 0, request.subrange(6, 12)), 6, local_mac), 26, local_ip()),
        30,
        destination_ip,
    ).update(24, 0).update(25, 0)
}

/// The reply buffer with the IPv4 checksum in place, the ICMP type set to
/// echo reply and a zero ICMP checksum field.
pub open spec fn echo_reply_typed(
    local_mac: Seq<u8>,
    request: Seq<u8>,
    payload_offset: int,
    destination_ip: Seq<u8>,
) -> Seq<u8> {
    let b = echo_reply_readdressed(local_mac, request, destination_ip);
    splice(b, 24, be_bytes(spec_checksum(b.subrange(14, payload_offset)))).update(
        payload_offset,
        0,
    ).update(payload_offset + 2, 0).update(payload_offset + 3, 0)
}

/// The ICMP echo reply to `request`, whose ICMP message starts at
/// `payload_offset`, sent to `destination_ip`.
pub open spec fn spec_echo_reply(
    local_mac: Seq<u8>,
    request: Seq<u8>,
    payload_offset: int,
    destination_ip: Seq<u8>,
) -> Seq<u8> {
    let b = echo_reply_typed(local_mac, request, payload_offset, destination_ip);
    let n = echo_reply_length(request);
    splice(b, payload_offset + 2, be_bytes(spec_checksum(b.subrange(payload_offset, n)))).subrange(
        0,
        n,
    )
}

/// An echo reply can be built: the ICMP message starts within the part of
/// the request that the reply copies.
pub open spec fn echo_reply_fits(request: Seq<u8>, payload_offset: int) -> bool {
    &&& 34 <= payload_offset <= 74
    &&& payload_offset + 8 <= request.len()
    &&& payload_offset <= echo_reply_length(request)
}

/// The DNS query is 71 bytes: an IPv4 packet from 10.0.2.15 to 10.0.2.3,
/// sent to the gateway, whose header checksum verifies, carrying a UDP
/// datagram from port 49152 to port 53 with query 0xb105 for
/// `example.com`, type A, class IN.
pub proof fn lemma_dns_query_checksum(local_mac: Seq<u8>, gateway_mac: Seq<u8>)
    requires
        local_mac.len() == 6,
        gateway_mac.len() == 6,
    ensures
        spec_checksum(spec_dns_query(local_mac, gateway_mac).subrange(14, 34)) == 0,
        spec_dns_query(local_mac, gateway_mac).len() == 71,
        spec_dns_query(local_mac, gateway_mac).subrange(0, 6) == gateway_mac,
        spec_dns_query(local_mac, gateway_mac).subrange(6, 12) == local_mac,
        spec_dns_query(local_mac, gateway_mac).subrange(12, 24) == seq![
            0x08u8, 0x00, 0x45, 0, 0, 57, 0xb1, 0x05, 0x40, 0, 64, 17,
        ],
        spec_dns_query(local_mac, gateway_mac).subrange(26, 34) == seq![10u8, 0, 2, 15, 10, 0, 2, 3],
        spec_dns_query(local_mac, gateway_mac).subrange(34, 54) == seq![
            0xc0u8, 0x00, 0, 53, 0, 37, 0, 0, 0xb1, 0x05, 0x01, 0x00, 0, 1, 0, 0, 0, 0, 0, 0,
        ],
        spec_dns_query(local_mac, gateway_mac).subrange(54, 71) == seq![
            7u8, 0x65, 0x78, 0x61, 0x6d, 0x70, 0x6c, 0x65, 3, 0x63, 0x6f, 0x6d, 0, 0, 1, 0, 1,
        ],
{
    let h = dns_ip_header();
    let c = spec_checksum(h);
    let q = spec_dns_query(local_mac, gateway_mac);
    assert(q.subrange(14, 34) =~= splice(h, 10, be_bytes(c)));
    lemma_checksum_verifies(h, 10);
    assert(q.subrange(0, 6) =~= gateway_mac);
    assert(q.subrange(6, 12) =~= local_mac);
    assert(q.subrange(12, 24) =~= seq![0x08u8, 0x00, 0x45, 0, 0, 57, 0xb1, 0x05, 0x40, 0, 64, 17]);
    assert(q.subrange(26, 34) =~= seq![10u8, 0, 2, 15, 10, 0, 2, 3]);
    assert(q.subrange(34, 54) =~= seq![
        0xc0u8, 0x00, 0, 53, 0, 37, 0, 0, 0xb1, 0x05, 0x01, 0x00, 0, 1, 0, 0, 0, 0, 0, 0,
    ]);
    assert(q.subrange(54, 71) =~= seq![
        7u8, 0x65, 0x78, 0x61, 0x6d, 0x70, 0x6c, 0x65, 3, 0x63, 0x6f, 0x6d, 0, 0, 1, 0, 1,
    ]);
}

/// The echo reply goes back to the requester's Ethernet address from
/// `local_mac`, from 10.0.2.15 to `destination_ip`, as ICMP type 0 (echo
/// reply); every other byte is the request's, except the IPv4 and ICMP
/// checksum fields.
pub proof fn lemma_echo_reply_layout(
    local_mac: Seq<u8>,
    request: Seq<u8>,
    payload_offset: int,
    destination_ip: Seq<u8>,
)
    requires
        local_mac.len() == 6,
        destination_ip.len() == 4,
        echo_reply_fits(request, payload_offset),
        payload_offset + 4 <= echo_reply_length(request),
    ensures
        ({
            let reply = spec_echo_reply(local_mac, request, payload_offset, destination_ip);
            let n = echo_reply_length(request);
            &&& reply.len() == n
            &&& n <= request.len()
            &&& reply.subrange(0, 6) == request.subrange(6, 12)
            &&& reply.subrange(6, 12) == local_mac
            &&& reply.subrange(26, 30) == seq![10u8, 0, 2, 15]
            &&& reply.subrange(30, 34) == destination_ip
            &&& reply[payload_offset] == 0
            &&& forall|i: int|
                12 <= i < n && i != 24 && i != 25 && !(26 <= i < 34) && i != payload_offset && i
                    != payload_offset + 2 && i != payload_offset + 3 ==> #[trigger] reply[i] == request[i]
        }),
{
    let n = echo_reply_length(request);
    let o = payload_offset;
    let a = echo_reply_readdressed(local_mac, request, destination_ip);
    let b = echo_reply_typed(local_mac, request, o, destination_ip);
    let reply = spec_echo_reply(local_mac, request, o, destination_ip);
    assert(a.len() == 1514);
    assert(b.len() == 1514);
    assert forall|i: int| 0 <= i < n && i != o + 2 && i != o + 3 implies #[trigger] reply[i] == b[i] by {}
    assert forall|i: int| 0 <= i < 1514 && i != 24 && i != 25 && i != o && i != o + 2 && i != o + 3
        implies #[trigger] b[i] == a[i] by {}
    assert(reply.subrange(0, 6) =~= request.subrange(6, 12));
    assert(reply.subrange(6, 12) =~= local_mac);
    assert(reply.subrange(26, 30) =~= seq![10u8, 0, 2, 15]);
    assert(reply.subrange(30, 34) =~= destination_ip);
}

/// Every echo reply the stack sends carries an IPv4 header checksum and an
/// ICMP checksum that verify (when the reply holds the whole ICMP header).
pub proof fn lemma_echo_reply_checksums(
    local_mac: Seq<u8>,
    request: Seq<u8>,
    payload_offset: int,
    destination_ip: Seq<u8>,
)
    requires
        local_mac.len() == 6,
        destination_ip.len() == 4,
        echo_reply_fits(request, payload_offset),
        payload_offset + 4 <= echo_reply_length(request),
    ensures
        ({
            let reply = spec_echo_reply(local_mac, request, payload_offset, destination_ip);
            &&& spec_checksum(reply.subrange(14, payload_offset)) == 0
            &&& spec_checksum(reply.subrange(payload_offset, echo_reply_length(request))) == 0
        }),
{
    let n = echo_reply_length(request);
    let o = payload_offset;
    let a = echo_reply_readdressed(local_mac, request, destination_ip);
    assert(a.len() == 1514);
    assert(a[24] == 0 && a[25] == 0);
    let header = a.subrange(14, o);
    let c1 = spec_checksum(header);
    let b = echo_reply_typed(local_mac, request, o, destination_ip);
    assert(b.len() == 1514);
    assert(b.subrange(14, o) =~= splice(header, 10, be_bytes(c1)));
    lemma_checksum_verifies(header, 10);
    let message = b.subrange(o, n);
    let c2 = spec_checksum(message);
    let reply = spec_echo_reply(local_mac, request, o, destination_ip);
    assert(reply.subrange(14, o) =~= b.subrange(14, o));
    assert(message[2] == 0 && message[3] == 0);
    assert(reply.subrange(o, n) =~= splice(message, 2, be_bytes(c2)));
    lemma_checksum_verifies(message, 2);
}

/// `spec_echo_reply` for a message at a position given as an index.
pub open spec fn echo_reply_at(
    local_mac: Seq<u8>,
    request: Seq<u8>,
    payload_offset: usize,
    destination_ip: Seq<u8>,
) -> Seq<u8> {
    spec_echo_reply(local_mac, request, payload_offset as int, destination_ip)
}

/// `echo_reply_fits` at a position given as an index.
pub open spec fn echo_reply_fits_at(request: Seq<u8>, payload_offset: usize) -> bool {
    echo_reply_fits(request, payload_offset as int)
}

/// Whether an echo reply to `request` can be built for an ICMP message at
/// `payload_offset`, given that the message lies within the request.
pub fn echo_reply_possible(request: &[u8], payload_offset: usize) -> (fits: bool)
    requires
        34 <= payload_offset <= 74,
        payload_offset + 8 <= request@.len(),
    ensures
        fits == echo_reply_fits(request@, payload_offset as int),
{
    14 + (read_be16(request, 16) as usize) >= payload_offset
}

pub fn arp_request_frame(local_mac: &[u8; 6]) -> (frame: Vec<u8>)
    ensures
        frame@ == spec_arp_request(local_mac@),
{
    let mut frame: Vec<u8> = Vec::new();
    push_all(&mut frame, &[0xffu8, 0xff, 0xff, 0xff, 0xff, 0xff]);
    push_all(&mut frame, local_mac);
    push_all(&mut frame, &[0x08u8, 0x06, 0, 1, 8, 0, 6, 4, 0, 1]);
    push_all(&mut frame, local_mac);
    push_all(&mut frame, &local_ip_address());
    push_zeros(&mut frame, 6);
    push_all(&mut frame, &gateway_ip_address());
    push_zeros(&mut frame, 18);
    assert(frame@ =~= spec_arp_request(local_mac@));
    frame
}

pub fn arp_reply_frame(local_mac: &[u8; 6], target_mac: &[u8; 6], target_ip: &[u8; 4]) -> (frame: Vec<u8>)
    ensures
        frame@ == spec_arp_reply(local_mac@, target_mac@, target_ip@),
{
    let mut frame: Vec<u8> = Vec::new();
    push_all(&mut frame, target_mac);
    push_all(&mut frame, local_mac);
    push_all(&mut frame, &[0x08u8, 0x06, 0, 1, 8, 0, 6, 4, 0, 2]);
    push_all(&mut frame, local_mac);
    push_all(&mut frame, &local_ip_address());
    push_all(&mut frame, target_mac);
    push_all(&mut frame, target_ip);
    push_zeros(&mut frame, 18);
    assert(frame@ =~= spec_arp_reply(local_mac@, target_mac@, target_ip@));
    frame
}

pub fn dns_query_frame(local_mac: &[u8; 6], gateway_mac: &[u8; 6]) -> (frame: Vec<u8>)
    ensures
        frame@ == spec_dns_query(local_mac@, gateway_mac@),
{
    let mut header: Vec<u8> = Vec::new();
    push_all(&mut header, &[0x45u8, 0, 0, 57, 0xb1, 0x05, 0x40, 0, 64, 17, 0, 0]);
    push_all(&mut header, &local_ip_address());
    push_all(&mut header, &dns_server_ip_address());
    assert(header@ =~= dns_ip_header());
    let sum = checksum(header.as_slice());
    write_at(&mut header, 10, &to_be_bytes(sum));
    let mut frame: Vec<u8> = Vec::new();
    push_all(&mut frame, gateway_mac);
    push_all(&mut frame, local_mac);
    push_all(&mut frame, &[0x08u8, 0x00]);
    push_all(&mut frame, header.as_slice());
    push_all(
        &mut frame,
        &[0xc0u8, 0x00, 0, 53, 0, 37, 0, 0, 0xb1, 0x05, 0x01, 0x00, 0, 1, 0, 0, 0, 0, 0, 0],
    );
    push_all(
        &mut frame,
        &[7u8, 0x65, 0x78, 0x61, 0x6d, 0x70, 0x6c, 0x65, 3, 0x63, 0x6f, 0x6d, 0, 0, 1, 0, 1],
    );
    assert(frame@ =~= spec_dns_query(local_mac@, gateway_mac@));
    frame
}

/// The ICMP echo reply to `request` (see `spec_echo_reply`).
pub fn echo_reply_frame(
    local_mac: &[u8; 6],
    request: &[u8],
    payload_offset: usize,
    destination_ip: &[u8; 4],
) -> (frame: Vec<u8>)
    requires
        echo_reply_fits(request@, payload_offset as int),
    ensures
        frame@ == spec_echo_reply(local_mac@, request@, payload_offset as int, destination_ip@),
{
    let ghost r = request@;
    let ip_length = read_be16(request, 16) as usize;
    let mut length = 14 + ip_length;
    if length >= request.len() {
        length = request.len();
    }
    if length >= 1514 {
        length = 1514;
    }
    assert(length == echo_reply_length(r));
    let mut reply: Vec<u8> = Vec::new();
    push_all(&mut reply, &request[0..length]);
    push_zeros(&mut reply, 1514 - length);
    assert(reply@ =~= r.subrange(0, length as int) + zeros((1514 - length) as nat));
    write_at(&mut reply, 0, &request[6..12]);
    write_at(&mut reply, 6, local_mac);
    write_at(&mut reply, 26, &local_ip_address());
    write_at(&mut reply, 30, destination_ip);
    reply.set(24, 0);
    reply.set(25, 0);
    assert(reply@ == echo_reply_readdressed(local_mac@, r, destination_ip@));
    let ip_checksum = checksum(&reply.as_slice()[14..payload_offset]);
    write_at(&mut reply, 24, &to_be_bytes(ip_checksum));
    reply.set(payload_offset, 0);
    reply.set(payload_offset + 2, 0);
    reply.set(payload_offset + 3, 0);
    assert(reply@ == echo_reply_typed(local_mac@, r, payload_offset as int, destination_ip@));
    let message_checksum = checksum(&reply.as_slice()[payload_offset..length]);
    write_at(&mut reply, payload_offset + 2, &to_be_bytes(message_checksum));
    reply.truncate(length);
    reply
}

} // verus!
