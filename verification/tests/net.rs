use lib::net::dns::{dns_answer, skip_dns_name};
use lib::net::frames::{arp_reply_frame, arp_request_frame, dns_query_frame, echo_reply_frame};
use lib::net::wire::checksum;
use lib::net::{Event, NetworkStack, Nic};

const MAC: [u8; 6] = [0x52, 0x54, 0x00, 0x12, 0x34, 0x56];
const GATEWAY_MAC: [u8; 6] = [0x52, 0x55, 0x0a, 0x00, 0x02, 0x02];

struct TestNic {
    incoming: Vec<Vec<u8>>,
    sent: Vec<Vec<u8>>,
    accept: bool,
    offered: Vec<usize>,
}

impl TestNic {
    fn new() -> Self {
        TestNic { incoming: Vec::new(), sent: Vec::new(), accept: true, offered: Vec::new() }
    }
}

impl Nic for TestNic {
    fn mac_address(&self) -> [u8; 6] {
        MAC
    }

    fn receive(&mut self, packet: &mut [u8]) -> Option<usize> {
        self.offered.push(packet.len());
        if self.incoming.is_empty() {
            return None;
        }
        let frame = self.incoming.remove(0);
        let length = frame.len().min(packet.len());
        packet[..length].copy_from_slice(&frame[..length]);
        Some(length)
    }

    fn transmit(&mut self, packet: &[u8]) -> bool {
        self.sent.push(packet.to_vec());
        self.accept
    }
}

fn arp_frame(operation: u8, sender_mac: [u8; 6], sender_ip: [u8; 4], target_ip: [u8; 4]) -> Vec<u8> {
    let mut frame = vec![0u8; 42];
    frame[..6].copy_from_slice(&[0xff; 6]);
    frame[6..12].copy_from_slice(&sender_mac);
    frame[12] = 0x08;
    frame[13] = 0x06;
    frame[14..22].copy_from_slice(&[0, 1, 8, 0, 6, 4, 0, operation]);
    frame[22..28].copy_from_slice(&sender_mac);
    frame[28..32].copy_from_slice(&sender_ip);
    frame[38..42].copy_from_slice(&target_ip);
    frame
}

fn echo_request(source: [u8; 4], kind: u8) -> Vec<u8> {
    let mut frame = vec![0u8; 14 + 20 + 12];
    frame[..6].copy_from_slice(&MAC);
    frame[6..12].copy_from_slice(&GATEWAY_MAC);
    frame[12] = 0x08;
    frame[13] = 0x00;
    frame[14] = 0x45;
    frame[16] = 0;
    frame[17] = 32;
    frame[22] = 64;
    frame[23] = 1;
    frame[26..30].copy_from_slice(&source);
    frame[30..34].copy_from_slice(&[10, 0, 2, 15]);
    let ip = checksum(&frame[14..34]);
    frame[24..26].copy_from_slice(&ip.to_be_bytes());
    frame[34] = kind;
    frame[38..46].copy_from_slice(&[0, 7, 0, 1, b'p', b'i', b'n', b'g']);
    let icmp = checksum(&frame[34..46]);
    frame[36..38].copy_from_slice(&icmp.to_be_bytes());
    frame
}

fn dns_response(address: [u8; 4]) -> Vec<u8> {
    let mut frame = vec![0u8; 14 + 20 + 8];
    frame[12] = 0x08;
    frame[13] = 0x00;
    frame[14] = 0x45;
    frame[23] = 17;
    frame[26..30].copy_from_slice(&[10, 0, 2, 3]);
    frame[30..34].copy_from_slice(&[10, 0, 2, 15]);
    frame[34..36].copy_from_slice(&53u16.to_be_bytes());
    frame[36..38].copy_from_slice(&49_152u16.to_be_bytes());
    frame.extend_from_slice(&[0xb1, 0x05, 0x81, 0x80, 0, 1, 0, 1, 0, 0, 0, 0]);
    frame.extend_from_slice(b"\x07example\x03com\x00\x00\x01\x00\x01");
    frame.extend_from_slice(&[0xc0, 0x0c, 0, 1, 0, 1, 0, 0, 0x0e, 0x10, 0, 4]);
    frame.extend_from_slice(&address);
    frame
}

#[test]
fn checksum_of_rfc_header() {
    let header = [
        0x45, 0x00, 0x00, 0x73, 0x00, 0x00, 0x40, 0x00, 0x40, 0x11, 0x00, 0x00, 0xc0, 0xa8, 0x00,
        0x01, 0xc0, 0xa8, 0x00, 0xc7,
    ];
    assert_eq!(checksum(&header), 0xb861);
}

#[test]
fn checksum_verifies_once_written() {
    let mut header = [
        0x45, 0x00, 0x00, 0x73, 0x00, 0x00, 0x40, 0x00, 0x40, 0x11, 0x00, 0x00, 0xc0, 0xa8, 0x00,
        0x01, 0xc0, 0xa8, 0x00, 0xc7,
    ];
    let sum = checksum(&header);
    header[10..12].copy_from_slice(&sum.to_be_bytes());
    assert_eq!(checksum(&header), 0);
}

#[test]
fn checksum_of_odd_length_and_empty() {
    assert_eq!(checksum(&[]), 0xffff);
    assert_eq!(checksum(&[0x01]), !0x0100u16);
    assert_eq!(checksum(&[0xff, 0xff, 0x00, 0x01]), !0x0001u16);
}

#[test]
fn arp_request_asks_for_gateway() {
    let frame = arp_request_frame(&MAC);
    assert_eq!(frame.len(), 60);
    assert_eq!(&frame[..6], &[0xff; 6]);
    assert_eq!(&frame[6..12], &MAC);
    assert_eq!(&frame[12..22], &[0x08, 0x06, 0, 1, 8, 0, 6, 4, 0, 1]);
    assert_eq!(&frame[28..32], &[10, 0, 2, 15]);
    assert_eq!(&frame[38..42], &[10, 0, 2, 2]);
    assert!(frame[42..].iter().all(|b| *b == 0));
}

#[test]
fn arp_reply_answers_requester() {
    let frame = arp_reply_frame(&MAC, &GATEWAY_MAC, &[10, 0, 2, 2]);
    assert_eq!(frame.len(), 60);
    assert_eq!(&frame[..6], &GATEWAY_MAC);
    assert_eq!(&frame[20..22], &[0, 2]);
    assert_eq!(&frame[22..28], &MAC);
    assert_eq!(&frame[32..38], &GATEWAY_MAC);
    assert_eq!(&frame[38..42], &[10, 0, 2, 2]);
}

#[test]
fn dns_query_for_example_com() {
    let frame = dns_query_frame(&MAC, &GATEWAY_MAC);
    assert_eq!(frame.len(), 14 + 20 + 8 + 12 + 17);
    assert_eq!(&frame[..6], &GATEWAY_MAC);
    assert_eq!(frame[23], 17);
    assert_eq!(&frame[30..34], &[10, 0, 2, 3]);
    assert_eq!(checksum(&frame[14..34]), 0);
    assert_eq!(&frame[34..38], &[0xc0, 0x00, 0x00, 53]);
    assert_eq!(&frame[42..44], &[0xb1, 0x05]);
    assert_eq!(&frame[54..], b"\x07example\x03com\x00\x00\x01\x00\x01");
}

#[test]
fn echo_reply_swaps_addresses_and_checksums() {
    let request = echo_request([10, 0, 2, 2], 8);
    let reply = echo_reply_frame(&MAC, &request, 34, &[10, 0, 2, 2]);
    assert_eq!(reply.len(), request.len());
    assert_eq!(&reply[..6], &GATEWAY_MAC);
    assert_eq!(&reply[6..12], &MAC);
    assert_eq!(&reply[26..30], &[10, 0, 2, 15]);
    assert_eq!(&reply[30..34], &[10, 0, 2, 2]);
    assert_eq!(reply[34], 0);
    assert_eq!(checksum(&reply[14..34]), 0);
    assert_eq!(checksum(&reply[34..]), 0);
    assert_eq!(&reply[38..], &request[38..]);
}

#[test]
fn dns_names_are_skipped() {
    let packet = b"\x07example\x03com\x00rest";
    assert_eq!(skip_dns_name(packet, 0), Some(13));
    assert_eq!(skip_dns_name(&[0xc0, 0x0c], 0), Some(2));
    assert_eq!(skip_dns_name(&[0xc0], 0), None);
    assert_eq!(skip_dns_name(&[0x05, b'a'], 0), None);
    assert_eq!(skip_dns_name(&[], 0), None);
}

#[test]
fn dns_answer_is_found() {
    let frame = dns_response([93, 184, 216, 34]);
    assert_eq!(dns_answer(&frame, 34), Some([93, 184, 216, 34]));
    let mut wrong_id = frame.clone();
    wrong_id[42] = 0;
    assert_eq!(dns_answer(&wrong_id, 34), None);
    assert_eq!(dns_answer(&frame[..frame.len() - 1], 34), None);
}

#[test]
fn stack_starts_with_arp_request() {
    let mut nic = TestNic::new();
    let mut stack = NetworkStack::new(MAC);
    assert_eq!(stack.local_ip(), [10, 0, 2, 15]);
    assert_eq!(stack.received(), 0);
    assert_eq!(stack.sent(), 0);
    assert!(!stack.gateway_ready());
    stack.start(&mut nic);
    assert_eq!(stack.sent(), 1);
    assert_eq!(nic.sent, vec![arp_request_frame(&MAC)]);
}

#[test]
fn refused_frames_are_not_counted() {
    let mut nic = TestNic::new();
    nic.accept = false;
    let mut stack = NetworkStack::new(MAC);
    stack.start(&mut nic);
    assert_eq!(stack.sent(), 0);
    assert_eq!(nic.sent.len(), 1);
}

#[test]
fn gateway_reply_resolves_and_sends_query_once() {
    let mut nic = TestNic::new();
    let mut stack = NetworkStack::new(MAC);
    nic.incoming.push(arp_frame(2, GATEWAY_MAC, [10, 0, 2, 2], [10, 0, 2, 15]));
    assert_eq!(stack.poll(&mut nic), Some(Event::GatewayResolved));
    assert!(stack.gateway_ready());
    assert_eq!(stack.received(), 1);
    assert_eq!(nic.sent, vec![dns_query_frame(&MAC, &GATEWAY_MAC)]);
    nic.incoming.push(arp_frame(2, GATEWAY_MAC, [10, 0, 2, 2], [10, 0, 2, 15]));
    assert_eq!(stack.poll(&mut nic), Some(Event::GatewayResolved));
    assert_eq!(nic.sent.len(), 1);
    stack.request_dns(&mut nic);
    assert_eq!(nic.sent.len(), 2);
    assert_eq!(nic.sent[1], dns_query_frame(&MAC, &GATEWAY_MAC));
}

#[test]
fn dns_request_without_gateway_asks_arp() {
    let mut nic = TestNic::new();
    let mut stack = NetworkStack::new(MAC);
    stack.request_dns(&mut nic);
    assert_eq!(nic.sent, vec![arp_request_frame(&MAC)]);
}

#[test]
fn arp_request_for_us_is_answered() {
    let mut nic = TestNic::new();
    let mut stack = NetworkStack::new(MAC);
    nic.incoming.push(arp_frame(1, GATEWAY_MAC, [10, 0, 2, 2], [10, 0, 2, 15]));
    assert_eq!(stack.poll(&mut nic), None);
    assert_eq!(nic.sent, vec![arp_reply_frame(&MAC, &GATEWAY_MAC, &[10, 0, 2, 2])]);
    nic.incoming.push(arp_frame(1, GATEWAY_MAC, [10, 0, 2, 2], [10, 0, 2, 99]));
    assert_eq!(stack.poll(&mut nic), None);
    assert_eq!(nic.sent.len(), 1);
    assert_eq!(stack.received(), 2);
}

#[test]
fn echo_request_is_answered() {
    let mut nic = TestNic::new();
    let mut stack = NetworkStack::new(MAC);
    let request = echo_request([10, 0, 2, 2], 8);
    nic.incoming.push(request.clone());
    assert_eq!(stack.poll(&mut nic), Some(Event::IcmpEchoRequest([10, 0, 2, 2])));
    assert_eq!(nic.sent, vec![echo_reply_frame(&MAC, &request, 34, &[10, 0, 2, 2])]);
    nic.incoming.push(echo_request([10, 0, 2, 2], 0));
    assert_eq!(stack.poll(&mut nic), Some(Event::IcmpEchoReply([10, 0, 2, 2])));
    assert_eq!(nic.sent.len(), 1);
}

#[test]
fn dns_response_is_reported() {
    let mut nic = TestNic::new();
    let mut stack = NetworkStack::new(MAC);
    nic.incoming.push(dns_response([93, 184, 216, 34]));
    assert_eq!(stack.poll(&mut nic), Some(Event::DnsAnswer([93, 184, 216, 34])));
}

#[test]
fn short_and_foreign_frames_are_ignored() {
    let mut nic = TestNic::new();
    let mut stack = NetworkStack::new(MAC);
    nic.incoming.push(vec![0u8; 10]);
    assert_eq!(stack.poll(&mut nic), None);
    assert_eq!(stack.received(), 0);
    let mut other = vec![0u8; 60];
    other[12] = 0x86;
    other[13] = 0xdd;
    nic.incoming.push(other);
    assert_eq!(stack.poll(&mut nic), None);
    assert_eq!(stack.received(), 1);
    assert_eq!(stack.poll(&mut nic), None);
    assert!(nic.sent.is_empty());
}

#[test]
fn received_frames_are_handled() {
    let mut nic = TestNic::new();
    let mut stack = NetworkStack::new(MAC);
    let mut buffer = vec![0u8; 2048];
    assert_eq!(stack.handle_received(&mut nic, &buffer, None), None);
    assert_eq!(stack.handle_received(&mut nic, &buffer, Some(13)), None);
    assert_eq!(stack.received(), 0);
    let reply = arp_frame(2, GATEWAY_MAC, [10, 0, 2, 2], [10, 0, 2, 15]);
    buffer[..reply.len()].copy_from_slice(&reply);
    assert_eq!(
        stack.handle_received(&mut nic, &buffer, Some(reply.len())),
        Some(Event::GatewayResolved)
    );
    assert_eq!(stack.received(), 1);
    assert!(stack.gateway_ready());
    assert_eq!(nic.sent, vec![dns_query_frame(&MAC, &GATEWAY_MAC)]);
}

#[test]
fn refused_dns_query_is_sent_again() {
    let mut nic = TestNic::new();
    nic.accept = false;
    let mut stack = NetworkStack::new(MAC);
    nic.incoming.push(arp_frame(2, GATEWAY_MAC, [10, 0, 2, 2], [10, 0, 2, 15]));
    assert_eq!(stack.poll(&mut nic), Some(Event::GatewayResolved));
    assert_eq!(stack.sent(), 0);
    nic.accept = true;
    nic.incoming.push(arp_frame(2, GATEWAY_MAC, [10, 0, 2, 2], [10, 0, 2, 15]));
    assert_eq!(stack.poll(&mut nic), Some(Event::GatewayResolved));
    assert_eq!(stack.sent(), 1);
    nic.incoming.push(arp_frame(2, GATEWAY_MAC, [10, 0, 2, 2], [10, 0, 2, 15]));
    assert_eq!(stack.poll(&mut nic), Some(Event::GatewayResolved));
    let query = dns_query_frame(&MAC, &GATEWAY_MAC);
    assert_eq!(nic.sent, vec![query.clone(), query]);
    assert_eq!(stack.sent(), 1);
}

#[test]
fn poll_asks_the_device_once_with_a_full_buffer() {
    let mut nic = TestNic::new();
    let mut stack = NetworkStack::new(MAC);
    assert_eq!(stack.poll(&mut nic), None);
    assert_eq!(nic.offered, vec![2048]);
    nic.incoming.push(arp_frame(2, GATEWAY_MAC, [10, 0, 2, 2], [10, 0, 2, 15]));
    assert_eq!(stack.poll(&mut nic), Some(Event::GatewayResolved));
    assert_eq!(nic.offered, vec![2048, 2048]);
    assert_eq!(stack.received(), 1);
}
