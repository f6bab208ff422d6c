//! Reading the answer to the stack's DNS query out of a UDP datagram.
use vstd::prelude::*;
use crate::net::wire::{be16, read_be16};

verus! {

/// The position just past the (possibly compressed) domain name at `c`.
/// A label starts with its length byte; a zero byte ends the name; a byte
/// with both top bits set starts a two-byte compression pointer.
pub open spec fn spec_skip_name(p: Seq<u8>, c: int) -> Option<int>
    decreases p.len() - c,
{
    if c < 0 || c >= p.len() {
        None
    } else if p[c] == 0 {
        Some(c + 1)
    } else if p[c] >= 0xc0 {
        if c + 1 < p.len() {
            Some(c + 2)
        } else {
            None
        }
    } else if c + 1 + p[c] > p.len() {
        None
    } else {
        spec_skip_name(p, c + 1 + p[c])
    }
}

/// The position after skipping `n` questions (a name, type and class each).
pub open spec fn skip_questions(p: Seq<u8>, c: int, n: nat) -> Option<int>
    decreases n,
{
    if n == 0 {
        Some(c)
    } else {
        match spec_skip_name(p, c) {
            Some(c1) => skip_questions(p, c1 + 4, (n - 1) as nat),
            None => None,
        }
    }
}

/// The four bytes at `i`.
pub open spec fn ip_at(p: Seq<u8>, i: int) -> [u8; 4] {
    [p[i], p[i + 1], p[i + 2], p[i + 3]]
}

/// The address of the first IPv4 (type A, class IN) record among `n`
/// resource records at `c`.
pub open spec fn find_address(p: Seq<u8>, c: int, n: nat) -> Option<[u8; 4]>
    decreases n,
{
    if n == 0 {
        None
    } else {
        match spec_skip_name(p, c) {
            None => None,
            Some(c1) => if c1 + 10 > p.len() {
                None
            } else {
                let kind = be16(p[c1], p[c1 + 1]);
                let class = be16(p[c1 + 2], p[c1 + 3]);
                let data_length = be16(p[c1 + 8], p[c1 + 9]);
                let data = c1 + 10;
                if data + data_length > p.len() {
                    None
                } else if kind == 1 && class == 1 && data_length == 4 {
                    Some(ip_at(p, data))
                } else {
                    find_address(p, data + data_length, (n - 1) as nat)
                }
            },
        }
    }
}

/// The address that the DNS response in the UDP datagram at `udp` gives for
/// the stack's query: it must come from port 53 to port 49152 and carry the
/// query's id 0xb105.
pub open spec fn spec_dns_answer(p: Seq<u8>, udp: int) -> Option<[u8; 4]> {
    if p.len() < udp + 20 {
        None
    } else if be16(p[udp], p[udp + 1]) != 53 || be16(p[udp + 2], p[udp + 3]) != 49152 {
        None
    } else if p[udp + 8] != 0xb1 || p[udp + 9] != 0x05 {
        None
    } else {
        let dns = udp + 8;
        match skip_questions(p, dns + 12, be16(p[dns + 4], p[dns + 5])) {
            Some(c) => find_address(p, c, be16(p[dns + 6], p[dns + 7])),
            None => None,
        }
    }
}

/// The search through the answer records: the first of `n` records at
/// `c`, whose name ends at `name_end`, gives the address when it is an
/// IPv4 record (type 1, class 1, four bytes of data); any other complete
/// record is skipped and the search goes on with the `n - 1` after it.
pub proof fn lemma_answer_records(p: Seq<u8>, c: int, n: nat, name_end: int)
    requires
        n > 0,
        spec_skip_name(p, c) == Some(name_end),
        name_end + 10 <= p.len(),
        name_end + 10 + p[name_end + 8] * 256 + p[name_end + 9] <= p.len(),
    ensures
        p[name_end] == 0 && p[name_end + 1] == 1 && p[name_end + 2] == 0 && p[name_end + 3] == 1
            && p[name_end + 8] == 0 && p[name_end + 9] == 4 ==> find_address(p, c, n) == Some(
            [p[name_end + 10], p[name_end + 11], p[name_end + 12], p[name_end + 13]],
        ),
        !(p[name_end] == 0 && p[name_end + 1] == 1 && p[name_end + 2] == 0 && p[name_end + 3] == 1
            && p[name_end + 8] == 0 && p[name_end + 9] == 4) ==> find_address(p, c, n) == find_address(
            p,
            name_end + 10 + p[name_end + 8] * 256 + p[name_end + 9],
            (n - 1) as nat,
        ),
{
    let a = p[name_end];
    let b = p[name_end + 1];
    let e = p[name_end + 2];
    let f = p[name_end + 3];
    let g = p[name_end + 8];
    let h = p[name_end + 9];
    assert(be16(a, b) == 1 <==> (a == 0 && b == 1)) by (nonlinear_arith)
        requires
            be16(a, b) == a * 256 + b,
            a < 256,
            b < 256,
    ;
    assert(be16(e, f) == 1 <==> (e == 0 && f == 1)) by (nonlinear_arith)
        requires
            be16(e, f) == e * 256 + f,
            e < 256,
            f < 256,
    ;
    assert(be16(g, h) == 4 <==> (g == 0 && h == 4)) by (nonlinear_arith)
        requires
            be16(g, h) == g * 256 + h,
            g < 256,
            h < 256,
    ;
}

pub proof fn lemma_skip_name_bounds(p: Seq<u8>, c: int)
    ensures
        spec_skip_name(p, c) matches Some(e) ==> 0 <= c < e <= p.len(),
    decreases p.len() - c,
{
    if 0 <= c < p.len() && p[c] != 0 && p[c] < 0xc0 && c + 1 + p[c] <= p.len() {
        lemma_skip_name_bounds(p, c + 1 + p[c]);
    }
}

/// Skips the domain name at `cursor`.
pub fn skip_dns_name(packet: &[u8], start: usize) -> (end: Option<usize>)
    ensures
        match spec_skip_name(packet@, start as int) {
            Some(e) => end == Some(e as usize),
            None => end is None,
        },
{
    let ghost p = packet@;
    let ghost goal = spec_skip_name(p, start as int);
    let mut cursor = start;
    loop
        invariant
            p == packet@,
            goal == spec_skip_name(packet@, start as int),
            spec_skip_name(p, cursor as int) == goal,
        decreases p.len() - cursor,
    {
        if cursor >= packet.len() {
            return None;
        }
        let length = packet[cursor];
        cursor = cursor + 1;
        if length == 0 {
            return Some(cursor);
        }
        assert((length & 0xc0 == 0xc0) == (length >= 0xc0)) by (bit_vector);
        if length & 0xc0 == 0xc0 {
            if cursor >= packet.len() {
                return None;
            }
            return Some(cursor + 1);
        }
        if length as usize > packet.len() - cursor {
            return None;
        }
        cursor = cursor + length as usize;
    }
}

/// The address in the DNS response at `udp`, if it answers the query.
#[verifier::loop_isolation(false)]
pub fn dns_answer(packet: &[u8], udp: usize) -> (address: Option<[u8; 4]>)
    requires
        udp <= packet@.len(),
        packet@.len() + 0x10000 <= usize::MAX,
    ensures
        address == spec_dns_answer(packet@, udp as int),
{
    let ghost p = packet@;
    if packet.len() < udp + 20 {
        return None;
    }
    if read_be16(packet, udp) != 53 || read_be16(packet, udp + 2) != 49152 {
        return None;
    }
    let dns = udp + 8;
    if packet[dns] != 0xb1 || packet[dns + 1] != 0x05 {
        return None;
    }
    let questions = read_be16(packet, dns + 4);
    let answers = read_be16(packet, dns + 6);
    let mut cursor = dns + 12;
    let mut index: u16 = 0;
    while index < questions
        invariant
            p == packet@,
            index <= questions,
            cursor <= p.len() + 4,
            skip_questions(p, cursor as int, (questions - index) as nat) == skip_questions(
                p,
                dns + 12,
                questions as nat,
            ),
        decreases questions - index,
    {
        proof {
            lemma_skip_name_bounds(p, cursor as int);
        }
        cursor = match skip_dns_name(packet, cursor) {
            Some(end) => end,
            None => return None,
        };
        cursor = cursor + 4;
        index = index + 1;
    }
    let mut index: u16 = 0;
    while index < answers
        invariant
            p == packet@,
            index <= answers,
            cursor <= p.len() + 4,
            find_address(p, cursor as int, (answers - index) as nat) == spec_dns_answer(
                p,
                udp as int,
            ),
        decreases answers - index,
    {
        proof {
            lemma_skip_name_bounds(p, cursor as int);
        }
        cursor = match skip_dns_name(packet, cursor) {
            Some(end) => end,
            None => return None,
        };
        if cursor + 10 > packet.len() {
            return None;
        }
        let kind = read_be16(packet, cursor);
        let class = read_be16(packet, cursor + 2);
        let data_length = read_be16(packet, cursor + 8) as usize;
        cursor = cursor + 10;
        if cursor + data_length > packet.len() {
            return None;
        }
        if kind == 1 && class == 1 && data_length == 4 {
            let address = [packet[cursor], packet[cursor + 1], packet[cursor + 2], packet[cursor + 3]];
            return Some(address);
        }
        cursor = cursor + data_length;
        index = index + 1;
    }
    None
}

} // verus!
